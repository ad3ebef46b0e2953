//! The shared grid: at most one piece on each cell.

use std::collections::BTreeMap;
use vstd::prelude::*;
use vstd::std_specs::cmp::OrdSpec;
use vstd::std_specs::iter::IteratorSpec;

use crate::coord::Coord;
use crate::piece::Piece;

verus! {

broadcast use {vstd::std_specs::btree::group_btree_axioms, vstd::laws_cmp::group_laws_cmp};

/// The pieces that lie on the grid, each under the cell it occupies.
#[derive(Debug, PartialEq, Eq)]
pub struct Board {
    cells: BTreeMap<(i32, i32), Piece>,
}

/// The cell that a pair of column and row names.
pub open spec fn cell_of(k: (i32, i32)) -> Coord {
    Coord(k.0, k.1)
}

/// The pair of column and row of a cell.
pub open spec fn key_of(c: Coord) -> (i32, i32) {
    (c.0, c.1)
}

/// The smallest and the largest column and row among the occupied cells.
pub struct Bounds {
    pub min_x: i32,
    pub max_x: i32,
    pub min_y: i32,
    pub max_y: i32,
}

impl Bounds {
    /// Whether `c` lies inside the box.
    pub open spec fn holds(self, c: Coord) -> bool {
        self.min_x <= c.0 <= self.max_x && self.min_y <= c.1 <= self.max_y
    }

    /// Whether the box is the tightest one around the cells of `m`: it holds
    /// them all, and each of its four sides touches one of them.
    pub open spec fn tight_around(self, m: Map<Coord, Piece>) -> bool {
        &&& forall|c: Coord| m.contains_key(c) ==> self.holds(c)
        &&& exists|c: Coord| m.contains_key(c) && c.0 == self.min_x
        &&& exists|c: Coord| m.contains_key(c) && c.0 == self.max_x
        &&& exists|c: Coord| m.contains_key(c) && c.1 == self.min_y
        &&& exists|c: Coord| m.contains_key(c) && c.1 == self.max_y
    }
}

/// The tightest box around the cells of `m`. It means something only where
/// `m` holds a piece.
pub open spec fn bounding_box(m: Map<Coord, Piece>) -> Bounds {
    choose|b: Bounds| b.tight_around(m)
}

/// There is one tightest box around a set of cells.
pub proof fn lemma_bounding_box_unique(m: Map<Coord, Piece>, b: Bounds)
    requires
        b.tight_around(m),
    ensures
        bounding_box(m) == b,
{
    let c = bounding_box(m);
    assert(c.tight_around(m));
    let bx0 = choose|p: Coord| m.contains_key(p) && p.0 == b.min_x;
    let bx1 = choose|p: Coord| m.contains_key(p) && p.0 == b.max_x;
    let by0 = choose|p: Coord| m.contains_key(p) && p.1 == b.min_y;
    let by1 = choose|p: Coord| m.contains_key(p) && p.1 == b.max_y;
    let cx0 = choose|p: Coord| m.contains_key(p) && p.0 == c.min_x;
    let cx1 = choose|p: Coord| m.contains_key(p) && p.0 == c.max_x;
    let cy0 = choose|p: Coord| m.contains_key(p) && p.1 == c.min_y;
    let cy1 = choose|p: Coord| m.contains_key(p) && p.1 == c.max_y;
    assert(c.holds(bx0) && c.holds(bx1) && c.holds(by0) && c.holds(by1));
    assert(b.holds(cx0) && b.holds(cx1) && b.holds(cy0) && b.holds(cy1));
}

impl View for Board {
    type V = Map<Coord, Piece>;

    closed spec fn view(&self) -> Map<Coord, Piece> {
        Map::new(
            |c: Coord| self.cells@.contains_key(key_of(c)),
            |c: Coord| self.cells@[key_of(c)],
        )
    }
}

impl Board {
    proof fn lemma_len(&self)
        ensures
            self@.dom().finite(),
            self@.len() == self.cells@.len(),
    {
        let keys = self.cells@.dom();
        let f = |k: (i32, i32)| cell_of(k);
        assert(keys.map(f) =~= self@.dom()) by {
            assert forall|c: Coord| self@.dom().contains(c) implies keys.map(f).contains(c) by {
                assert(keys.contains(key_of(c)) && f(key_of(c)) == c);
            }
        }
        vstd::set_lib::lemma_map_size(keys, self@.dom(), f);
    }

    /// A board with no piece on it.
    pub fn new() -> (b: Board)
        ensures
            b@ == Map::<Coord, Piece>::empty(),
    {
        let b = Board { cells: BTreeMap::new() };
        assert(b@ =~= Map::<Coord, Piece>::empty());
        b
    }

    /// Puts `piece` on `coord` and hands back the piece that lay there.
    pub fn insert(&mut self, coord: Coord, piece: Piece) -> (prev: Option<Piece>)
        ensures
            final(self)@ == old(self)@.insert(coord, piece),
            prev == (if old(self)@.contains_key(coord) {
                Some(old(self)@[coord])
            } else {
                None
            }),
    {
        let prev = self.cells.insert((coord.0, coord.1), piece);
        assert(self@ =~= old(self)@.insert(coord, piece));
        prev
    }

    /// Takes the piece off `coord`, if one lies there.
    pub fn remove(&mut self, coord: &Coord) -> (prev: Option<Piece>)
        ensures
            final(self)@ == old(self)@.remove(*coord),
            prev == (if old(self)@.contains_key(*coord) {
                Some(old(self)@[*coord])
            } else {
                None
            }),
    {
        let k = (coord.0, coord.1);
        let prev = self.cells.remove(&k);
        assert(self@ =~= old(self)@.remove(*coord));
        prev
    }

    /// The piece on `coord`, if one lies there.
    pub fn get(&self, coord: &Coord) -> (found: Option<Piece>)
        ensures
            found == (if self@.contains_key(*coord) {
                Some(self@[*coord])
            } else {
                None
            }),
    {
        let k = (coord.0, coord.1);
        match self.cells.get(&k) {
            Some(p) => Some(*p),
            None => None,
        }
    }

    /// Whether a piece lies on `coord`.
    pub fn contains_key(&self, coord: &Coord) -> (b: bool)
        ensures
            b == self@.contains_key(*coord),
    {
        let k = (coord.0, coord.1);
        self.cells.contains_key(&k)
    }

    /// The number of pieces on the board.
    pub fn len(&self) -> (n: usize)
        ensures
            n == self@.len(),
            self@.dom().finite(),
    {
        proof {
            self.lemma_len();
        }
        self.cells.len()
    }

    /// Whether no piece lies on the board.
    pub fn is_empty(&self) -> (b: bool)
        ensures
            b == (self@.len() == 0),
            b == (self@ == Map::<Coord, Piece>::empty()),
            self@.dom().finite(),
    {
        proof {
            self.lemma_len();
            if self.cells@.len() == 0 {
                assert(self.cells@.dom() =~= Set::empty());
                assert(self@ =~= Map::<Coord, Piece>::empty());
            }
        }
        self.cells.len() == 0
    }

    /// The occupied cells with their pieces, ordered by column, then by row.
    pub fn entries(&self) -> (out: Vec<(Coord, Piece)>)
        ensures
            out@.len() == self@.len(),
            forall|i: int| 0 <= i < out@.len() ==> self@.contains_key(#[trigger] out@[i].0)
                && self@[out@[i].0] == out@[i].1,
            forall|c: Coord| self@.contains_key(c) ==> exists|i: int| 0 <= i < out@.len()
                && #[trigger] out@[i].0 == c,
            forall|i: int, j: int| 0 <= i < j < out@.len() ==> out@[i].0.precedes(out@[j].0),
    {
        let mut out: Vec<(Coord, Piece)> = Vec::new();
        proof {
            self.lemma_len();
        }
        for k in it: self.cells.keys()
            invariant
                it.seq() == self.cells.keys().remaining(),
                out@.len() == it.index(),
                forall|j: int| 0 <= j < out@.len() ==> (#[trigger] out@[j]).0 == cell_of(*it.seq()[j]),
                forall|j: int| 0 <= j < out@.len() ==> self@.contains_key(#[trigger] out@[j].0)
                    && self@[out@[j].0] == out@[j].1,
        {
            let ghost ks = self.cells.keys().remaining();
            assert(ks.unref().to_set().contains(ks.unref()[it.index()]));
            let c = Coord(k.0, k.1);
            match self.cells.get(k) {
                Some(p) => {
                    out.push((c, *p));
                },
                None => {
                    assert(false);
                },
            }
        }
        proof {
            let ks = self.cells.keys().remaining();
            let plain = ks.unref();
            assert(plain.len() == ks.len());
            assert forall|c: Coord| self@.contains_key(c) implies exists|i: int|
                0 <= i < out@.len() && #[trigger] out@[i].0 == c by {
                assert(plain.to_set().contains(key_of(c)));
                let i = choose|i: int| 0 <= i < plain.len() && plain[i] == key_of(c);
                assert(out@[i].0 == c);
            }
            vstd::std_specs::btree::axiom_increasing_seq_meaning::<&(i32, i32)>(ks);
            assert forall|i: int, j: int| 0 <= i < j < out@.len() implies out@[i].0.precedes(
                out@[j].0,
            ) by {
                let a = ks[i];
                let b = ks[j];
                assert(OrdSpec::cmp_spec(&a, &b) is Less);
                assert(plain[i] == *ks[i] && plain[j] == *ks[j]);
            }
        }
        out
    }
}

impl Board {
    /// The tightest box around the occupied cells; `None` on an empty board.
    pub fn bounds(&self) -> (found: Option<Bounds>)
        ensures
            self@.dom().finite(),
            found is None <==> self@.len() == 0,
            found is None <==> self@ == Map::<Coord, Piece>::empty(),
            found matches Some(b) ==> b.tight_around(self@) && b == bounding_box(self@)
                && b.min_x <= b.max_x && b.min_y <= b.max_y,
    {
        let cells = self.entries();
        proof {
            self.lemma_len();
        }
        if cells.len() == 0 {
            assert(self@ =~= Map::<Coord, Piece>::empty());
            return None;
        }
        let first = cells[0].0;
        assert(self@.contains_key(first));
        let mut b = Bounds { min_x: first.0, max_x: first.0, min_y: first.1, max_y: first.1 };
        let mut i: usize = 1;
        while i < cells.len()
            invariant
                1 <= i <= cells.len(),
                b.min_x <= b.max_x,
                b.min_y <= b.max_y,
                forall|k: int| 0 <= k < i ==> b.holds(#[trigger] cells@[k].0),
                exists|k: int| 0 <= k < i && (#[trigger] cells@[k]).0.0 == b.min_x,
                exists|k: int| 0 <= k < i && (#[trigger] cells@[k]).0.0 == b.max_x,
                exists|k: int| 0 <= k < i && (#[trigger] cells@[k]).0.1 == b.min_y,
                exists|k: int| 0 <= k < i && (#[trigger] cells@[k]).0.1 == b.max_y,
            decreases cells.len() - i,
        {
            let c = cells[i].0;
            let ghost prev = b;
            let ghost kx0 = choose|k: int| 0 <= k < i && (#[trigger] cells@[k]).0.0 == b.min_x;
            let ghost kx1 = choose|k: int| 0 <= k < i && (#[trigger] cells@[k]).0.0 == b.max_x;
            let ghost ky0 = choose|k: int| 0 <= k < i && (#[trigger] cells@[k]).0.1 == b.min_y;
            let ghost ky1 = choose|k: int| 0 <= k < i && (#[trigger] cells@[k]).0.1 == b.max_y;
            if c.0 < b.min_x {
                b.min_x = c.0;
            }
            if c.0 > b.max_x {
                b.max_x = c.0;
            }
            if c.1 < b.min_y {
                b.min_y = c.1;
            }
            if c.1 > b.max_y {
                b.max_y = c.1;
            }
            proof {
                let ii = i as int;
                assert(cells@[if c.0 < prev.min_x { ii } else { kx0 }].0.0 == b.min_x);
                assert(cells@[if c.0 > prev.max_x { ii } else { kx1 }].0.0 == b.max_x);
                assert(cells@[if c.1 < prev.min_y { ii } else { ky0 }].0.1 == b.min_y);
                assert(cells@[if c.1 > prev.max_y { ii } else { ky1 }].0.1 == b.max_y);
                assert forall|k: int| 0 <= k < i + 1 implies b.holds(#[trigger] cells@[k].0) by {
                    if k < i {
                        assert(prev.holds(cells@[k].0));
                    }
                }
            }
            i = i + 1;
        }
        proof {
            let kx0 = choose|k: int| 0 <= k < i && (#[trigger] cells@[k]).0.0 == b.min_x;
            let kx1 = choose|k: int| 0 <= k < i && (#[trigger] cells@[k]).0.0 == b.max_x;
            let ky0 = choose|k: int| 0 <= k < i && (#[trigger] cells@[k]).0.1 == b.min_y;
            let ky1 = choose|k: int| 0 <= k < i && (#[trigger] cells@[k]).0.1 == b.max_y;
            assert(self@.contains_key(cells@[kx0].0));
            assert(self@.contains_key(cells@[kx1].0));
            assert(self@.contains_key(cells@[ky0].0));
            assert(self@.contains_key(cells@[ky1].0));
            assert forall|c: Coord| self@.contains_key(c) implies b.holds(c) by {
                let k = choose|k: int| 0 <= k < cells@.len() && #[trigger] cells@[k].0 == c;
                assert(b.holds(cells@[k].0));
            }
            assert(b.tight_around(self@));
            lemma_bounding_box_unique(self@, b);
        }
        Some(b)
    }
}

impl Clone for Board {
    fn clone(&self) -> (b: Board)
        ensures
            b@ == self@,
    {
        let b = Board { cells: self.cells.clone() };
        assert(b@ =~= self@);
        b
    }
}

} // verus!
