//! Groups of pieces and the rule that makes one valid.
//!
//! A group is a row of pieces that touch. It stands when it has at least three
//! pieces and is a run (one color, rising by one) or a combo (one number,
//! colors all different). A joker fills any place.

use vstd::prelude::*;

use crate::piece::{Color, Piece};

verus! {

/// Whether `f` is the place of the first piece of `s` that is no joker, or
/// the length of `s` where every piece is a joker.
pub open spec fn is_first_non_joker(s: Seq<Piece>, f: int) -> bool {
    &&& 0 <= f <= s.len()
    &&& forall|i: int| 0 <= i < f ==> (#[trigger] s[i]).is_joker()
    &&& f < s.len() ==> !s[f].is_joker()
}

/// The place of the first piece of `s` that is no joker; the length of `s`
/// where there is none.
pub open spec fn first_non_joker(s: Seq<Piece>) -> int {
    choose|f: int| is_first_non_joker(s, f)
}

/// Whether the pieces after place `f` continue a run that starts at `f`: each
/// one that is no joker has the color of `s[f]` and its number raised by the
/// distance from `f`.
pub open spec fn run_from(s: Seq<Piece>, f: int) -> bool {
    forall|i: int|
        f < i < s.len() && !(#[trigger] s[i]).is_joker() ==> s[i].color == s[f].color && s[i].num
            == s[f].num + (i - f)
}

/// Whether the pieces from place `f` on form a combo: each one after `f` that
/// is no joker carries the number of the piece at the head of `s`, and no two
/// that are no jokers share a color.
pub open spec fn combo_from(s: Seq<Piece>, f: int) -> bool {
    &&& forall|i: int|
        f < i < s.len() && !(#[trigger] s[i]).is_joker() ==> s[i].num == s[0].num
    &&& forall|i: int, j: int|
        f <= j < i < s.len() && !(#[trigger] s[i]).is_joker() && !(#[trigger] s[j]).is_joker()
            ==> s[i].color != s[j].color
}

/// Whether `s` is a run.
pub open spec fn valid_run(s: Seq<Piece>) -> bool {
    run_from(s, first_non_joker(s))
}

/// Whether `s` is a combo.
pub open spec fn valid_combo(s: Seq<Piece>) -> bool {
    combo_from(s, first_non_joker(s))
}

/// Whether `s` may stand on the board.
pub open spec fn valid_group(s: Seq<Piece>) -> bool {
    s.len() >= 3 && (valid_run(s) || valid_combo(s))
}

/// Every sequence has exactly one first place that is no joker.
pub proof fn lemma_first_non_joker(s: Seq<Piece>)
    ensures
        is_first_non_joker(s, first_non_joker(s)),
        forall|f: int| is_first_non_joker(s, f) ==> f == first_non_joker(s),
{
    lemma_first_exists(s, 0);
    let g = first_non_joker(s);
    assert forall|f: int| is_first_non_joker(s, f) implies f == g by {
        if f < g {
            assert(s[f].is_joker());
        } else if g < f {
            assert(s[g].is_joker());
        }
    }
}

proof fn lemma_first_exists(s: Seq<Piece>, k: int)
    requires
        0 <= k <= s.len(),
        forall|i: int| 0 <= i < k ==> (#[trigger] s[i]).is_joker(),
    ensures
        exists|f: int| is_first_non_joker(s, f),
    decreases s.len() - k,
{
    if k == s.len() || !s[k].is_joker() {
        assert(is_first_non_joker(s, k));
    } else {
        lemma_first_exists(s, k + 1);
    }
}

/// A row of pieces that touch on the board.
#[derive(Debug, PartialEq, Eq, PartialOrd, Ord)]
pub struct Group(pub Vec<Piece>);

impl View for Group {
    type V = Seq<Piece>;

    open spec fn view(&self) -> Seq<Piece> {
        self.0@
    }
}

impl Clone for Group {
    fn clone(&self) -> (g: Group)
        ensures
            g@ == self@,
    {
        let mut pieces: Vec<Piece> = Vec::new();
        let mut i: usize = 0;
        while i < self.0.len()
            invariant
                i <= self@.len(),
                pieces@ == self@.subrange(0, i as int),
            decreases self.0.len() - i,
        {
            pieces.push(self.0[i]);
            assert(pieces@ =~= self@.subrange(0, i + 1));
            i = i + 1;
        }
        assert(pieces@ =~= self@);
        Group(pieces)
    }
}

impl Default for Group {
    fn default() -> (g: Group)
        ensures
            g@ == Seq::<Piece>::empty(),
    {
        Group(Vec::new())
    }
}

impl Group {
    /// The place of the first piece that is no joker, in a group that holds
    /// such a piece.
    pub fn first_non_joker(&self) -> (f: usize)
        requires
            exists|i: int| 0 <= i < self@.len() && !(#[trigger] self@[i]).is_joker(),
        ensures
            f == first_non_joker(self@),
            is_first_non_joker(self@, f as int),
            f < self@.len(),
            !self@[f as int].is_joker(),
    {
        let f = self.leading_jokers();
        proof {
            let i = choose|i: int| 0 <= i < self@.len() && !(#[trigger] self@[i]).is_joker();
            if f > i {
                assert(self@[i].is_joker());
            }
        }
        f
    }

    /// The number of jokers at the head of the group: the place of the first
    /// piece that is none, or the number of pieces where all are jokers.
    fn leading_jokers(&self) -> (f: usize)
        ensures
            f == first_non_joker(self@),
            is_first_non_joker(self@, f as int),
    {
        let mut i: usize = 0;
        while i < self.0.len()
            invariant
                i <= self.0.len(),
                forall|k: int| 0 <= k < i ==> (#[trigger] self@[k]).is_joker(),
            decreases self.0.len() - i,
        {
            match self.0[i].color {
                Color::Joker => {},
                _ => {
                    proof {
                        lemma_first_non_joker(self@);
                    }
                    return i;
                },
            }
            i = i + 1;
        }
        proof {
            lemma_first_non_joker(self@);
        }
        i
    }

    /// Whether the group may stand: three pieces or more that form a run or a
    /// combo.
    pub fn is_valid(&self) -> (ok: bool)
        ensures
            ok == valid_group(self@),
    {
        if self.0.len() < 3 {
            return false;
        }
        self.is_valid_run() || self.is_valid_combo()
    }

    /// Whether the group is a run: from the first piece that is no joker on,
    /// one color and numbers that rise by one, a joker standing for the number
    /// of its place.
    pub fn is_valid_run(&self) -> (ok: bool)
        ensures
            ok == valid_run(self@),
    {
        let first: usize = self.leading_jokers();
        let n: usize = self.0.len();
        if first >= n {
            return true;
        }
        let head = self.0[first];
        let mut i: usize = first + 1;
        while i < n
            invariant
                first < i <= n,
                n == self@.len(),
                first == first_non_joker(self@),
                head == self@[first as int],
                forall|k: int|
                    first < k < i && !(#[trigger] self@[k]).is_joker() ==> self@[k].color
                        == head.color && self@[k].num == head.num + (k - first),
            decreases n - i,
        {
            let p = self.0[i];
            match p.color {
                Color::Joker => {},
                _ => {
                    if !(p.color == head.color && p.num >= head.num && (p.num - head.num) as usize
                        == i - first) {
                        assert(!self@[i as int].is_joker());
                        return false;
                    }
                },
            }
            i = i + 1;
        }
        true
    }

    /// Whether the group is a combo: after the first piece that is no joker,
    /// every piece that is none carries the number of the piece at the head of
    /// the group, and no color comes twice.
    pub fn is_valid_combo(&self) -> (ok: bool)
        ensures
            ok == valid_combo(self@),
    {
        let first: usize = self.leading_jokers();
        let n: usize = self.0.len();
        if first >= n {
            return true;
        }
        let check_num: u8 = self.0[0].num;
        let mut seen_red = false;
        let mut seen_blue = false;
        let mut seen_yellow = false;
        let mut seen_black = false;
        let mut i: usize = first;
        while i < n
            invariant
                first <= i <= n,
                n == self@.len(),
                check_num == self@[0].num,
                first == first_non_joker(self@),
                forall|k: int|
                    first < k < i && !(#[trigger] self@[k]).is_joker() ==> self@[k].num
                        == check_num,
                forall|k: int, j: int|
                    first <= j < k < i && !(#[trigger] self@[k]).is_joker() && !(
                    #[trigger] self@[j]).is_joker() ==> self@[k].color != self@[j].color,
                seen_red <==> exists|j: int| first <= j < i && (#[trigger] self@[j]).color == Color::Red,
                seen_blue <==> exists|j: int| first <= j < i && (#[trigger] self@[j]).color == Color::Blue,
                seen_yellow <==> exists|j: int| first <= j < i && (#[trigger] self@[j]).color == Color::Yellow,
                seen_black <==> exists|j: int| first <= j < i && (#[trigger] self@[j]).color == Color::Black,
            decreases n - i,
        {
            let p = self.0[i];
            let ghost s = self@;
            let ghost ii = i as int;
            match p.color {
                Color::Joker => {},
                Color::Red => {
                    if seen_red || (i > first && p.num != check_num) {
                        proof {
                            if seen_red {
                                let j = choose|j: int| first <= j < i && (#[trigger] s[j]).color == Color::Red;
                                assert(!s[ii].is_joker() && !s[j].is_joker());
                            }
                        }
                        return false;
                    }
                    seen_red = true;
                },
                Color::Blue => {
                    if seen_blue || (i > first && p.num != check_num) {
                        proof {
                            if seen_blue {
                                let j = choose|j: int| first <= j < i && (#[trigger] s[j]).color == Color::Blue;
                                assert(!s[ii].is_joker() && !s[j].is_joker());
                            }
                        }
                        return false;
                    }
                    seen_blue = true;
                },
                Color::Yellow => {
                    if seen_yellow || (i > first && p.num != check_num) {
                        proof {
                            if seen_yellow {
                                let j = choose|j: int| first <= j < i && (#[trigger] s[j]).color == Color::Yellow;
                                assert(!s[ii].is_joker() && !s[j].is_joker());
                            }
                        }
                        return false;
                    }
                    seen_yellow = true;
                },
                Color::Black => {
                    if seen_black || (i > first && p.num != check_num) {
                        proof {
                            if seen_black {
                                let j = choose|j: int| first <= j < i && (#[trigger] s[j]).color == Color::Black;
                                assert(!s[ii].is_joker() && !s[j].is_joker());
                            }
                        }
                        return false;
                    }
                    seen_black = true;
                },
            }
            proof {
                assert(s[ii] == p);
            }
            i = i + 1;
        }
        true
    }
}

} // verus!
