//! Grid coordinates.

use vstd::prelude::*;

use crate::decimal::{chars_of, int_text, lemma_int_text, parse_i32, parse_i32_text, push_int};

verus! {

/// The text of a cell on the wire: column and row in round brackets with a
/// comma between them and no space.
pub open spec fn coord_text(c: Coord) -> Seq<char> {
    seq!['('] + int_text(c.0 as int) + seq![','] + int_text(c.1 as int) + seq![')']
}

/// Whether `k` is the place of the first comma of `s`.
pub open spec fn is_first_comma(s: Seq<char>, k: int) -> bool {
    &&& 0 <= k < s.len()
    &&& s[k] == ','
    &&& forall|j: int| 0 <= j < k ==> s[j] != ','
}

/// Whether `s` holds a comma.
pub open spec fn has_comma(s: Seq<char>) -> bool {
    exists|k: int| is_first_comma(s, k)
}

/// The place of the first comma of `s`.
pub open spec fn first_comma(s: Seq<char>) -> int {
    choose|k: int| is_first_comma(s, k)
}

/// The cell that the text `s` names: `s` opens with a round bracket and
/// closes with one, and what stands between them is a number, a comma and a
/// number, each of 32 bits with a sign. `None` for any other text.
pub open spec fn parse_coord_text(s: Seq<char>) -> Option<Coord> {
    if s.len() >= 2 && s[0] == '(' && s.last() == ')' && has_comma(s.subrange(1, s.len() - 1)) {
        let inner = s.subrange(1, s.len() - 1);
        let k = first_comma(inner);
        match (
            parse_i32_text(inner.subrange(0, k)),
            parse_i32_text(inner.subrange(k + 1, inner.len() as int)),
        ) {
            (Some(x), Some(y)) => Some(Coord(x, y)),
            _ => None,
        }
    } else {
        None
    }
}

/// A text has at most one first comma.
pub proof fn lemma_first_comma_unique(s: Seq<char>, k: int)
    requires
        is_first_comma(s, k),
    ensures
        has_comma(s),
        first_comma(s) == k,
{
    let j = first_comma(s);
    assert(is_first_comma(s, j));
    if j < k {
        assert(s[j] != ',');
    } else if k < j {
        assert(s[k] != ',');
    }
}

/// The round trip: the text of a cell is read back as that cell.
pub proof fn lemma_coord_round_trip(c: Coord)
    ensures
        parse_coord_text(coord_text(c)) == Some(c),
{
    let xs = int_text(c.0 as int);
    let ys = int_text(c.1 as int);
    let s = coord_text(c);
    lemma_int_text(c.0 as int);
    lemma_int_text(c.1 as int);
    let inner = s.subrange(1, s.len() - 1);
    assert(inner =~= xs + seq![','] + ys);
    let k = xs.len() as int;
    assert(is_first_comma(inner, k)) by {
        assert forall|j: int| 0 <= j < k implies inner[j] != ',' by {
            assert(inner[j] == xs[j]);
        }
    }
    lemma_first_comma_unique(inner, k);
    assert(inner.subrange(0, k) =~= xs);
    assert(inner.subrange(k + 1, inner.len() as int) =~= ys);
}

/// A cell of the grid: column, then row. Cells are ordered by column first.
#[derive(Debug, Clone, Copy, PartialEq, Eq, Structural, PartialOrd, Ord, Hash)]
pub struct Coord(pub i32, pub i32);

impl Coord {
    /// Whether `self` comes before `other` in the order of cells: by column,
    /// then by row.
    pub open spec fn precedes(self, other: Coord) -> bool {
        self.0 < other.0 || (self.0 == other.0 && self.1 < other.1)
    }

    /// The text of this cell on the wire.
    pub fn format(&self) -> (text: String)
        ensures
            text@ == coord_text(*self),
            parse_coord_text(text@) == Some(*self),
    {
        let mut text = String::new();
        text.push('(');
        push_int(&mut text, self.0);
        text.push(',');
        push_int(&mut text, self.1);
        text.push(')');
        proof {
            assert(text@ =~= coord_text(*self));
            lemma_coord_round_trip(*self);
        }
        text
    }

    /// The cell that `text` names on the wire; `None` where `text` names
    /// none.
    pub fn parse(text: &str) -> (found: Option<Coord>)
        ensures
            found == parse_coord_text(text@),
    {
        let chars = chars_of(text);
        let n = chars.len();
        if n < 2 || chars[0] != '(' || chars[n - 1] != ')' {
            return None;
        }
        let ghost inner = chars@.subrange(1, n - 1);
        let mut k: usize = 1;
        while k < n - 1 && chars[k] != ','
            invariant
                1 <= k <= n - 1,
                n == chars@.len(),
                inner == chars@.subrange(1, n - 1),
                forall|j: int| 0 <= j < k - 1 ==> inner[j] != ',',
            decreases n - k,
        {
            k = k + 1;
        }
        if k >= n - 1 {
            proof {
                if has_comma(inner) {
                    let j = first_comma(inner);
                    assert(inner[j] != ',');
                }
            }
            return None;
        }
        proof {
            assert(is_first_comma(inner, k - 1));
            lemma_first_comma_unique(inner, k - 1);
            assert(inner.subrange(0, k - 1) =~= chars@.subrange(1, k as int));
            assert(inner.subrange(k as int, inner.len() as int) =~= chars@.subrange(
                k + 1,
                n - 1,
            ));
        }
        let x = parse_i32(&chars, 1, k);
        let y = parse_i32(&chars, k + 1, n - 1);
        match (x, y) {
            (Some(x), Some(y)) => Some(Coord(x, y)),
            _ => None,
        }
    }
}

} // verus!
