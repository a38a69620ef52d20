//! The board: the fixed hexagonal set of cells and the piece, if any, on
//! each of them.

use vstd::prelude::*;

use crate::cats::Piece;
use crate::error::GameError;
use crate::hex::{hexagon, in_region, Hex, MAX_RADIUS};

verus! {

/// Cell `i` is `cells[i]`, and `cats[i]` is the piece on it. A cell is known
/// to callers by its index.
pub struct Board {
    pub radius: u32,
    pub cells: Vec<Hex>,
    pub cats: Vec<Option<Piece>>,
}

/// The board's size: the radius of the hexagon around the origin.
#[derive(Clone, Copy, Debug, PartialEq, Eq, Structural)]
pub struct MapSettings {
    pub map_radius: u32,
}

impl Default for MapSettings {
    /// A board of radius 3.
    fn default() -> (r: MapSettings)
        ensures
            r.map_radius == 3,
    {
        MapSettings { map_radius: 3 }
    }
}

impl View for Board {
    /// Each cell of the board and what stands on it.
    type V = Map<Hex, Option<Piece>>;

    open spec fn view(&self) -> Map<Hex, Option<Piece>> {
        Map::new(|h: Hex| self.valid(h), |h: Hex| self.piece_at(h))
    }
}

/// 1 when `v` is a piece of player `k`, else 0.
pub open spec fn holds(v: Option<Piece>, k: int) -> int {
    if v.is_some() && v.unwrap().owner.0 == k {
        1
    } else {
        0
    }
}

/// How many of the slots hold a piece of player `k`.
pub open spec fn owned_count(s: Seq<Option<Piece>>, k: int) -> int
    decreases s.len(),
{
    if s.len() == 0 {
        0
    } else {
        owned_count(s.drop_last(), k) + holds(s.last(), k)
    }
}

pub proof fn lemma_owned_count_update(s: Seq<Option<Piece>>, i: int, v: Option<Piece>, k: int)
    requires
        0 <= i < s.len(),
    ensures
        owned_count(s.update(i, v), k) == owned_count(s, k) - holds(s[i], k) + holds(v, k),
    decreases s.len(),
{
    let t = s.update(i, v);
    if i == s.len() - 1 {
        assert(t.drop_last() =~= s.drop_last());
    } else {
        lemma_owned_count_update(s.drop_last(), i, v, k);
        assert(t.drop_last() =~= s.drop_last().update(i, v));
    }
}

pub proof fn lemma_owned_count_bounds(s: Seq<Option<Piece>>, k: int)
    ensures
        0 <= owned_count(s, k),
        (forall|i: int| 0 <= i < s.len() ==> (#[trigger] s[i]).is_none()) ==> owned_count(s, k) == 0,
    decreases s.len(),
{
    if s.len() > 0 {
        lemma_owned_count_bounds(s.drop_last(), k);
        if forall|i: int| 0 <= i < s.len() ==> (#[trigger] s[i]).is_none() {
            assert forall|i: int| 0 <= i < s.drop_last().len() implies (#[trigger] s.drop_last()[i]).is_none() by {
                assert(s.drop_last()[i] == s[i]);
            }
            assert(s[s.len() - 1].is_none());
        }
    }
}

/// A piece of player `k` in slot `i` is counted.
pub proof fn lemma_owned_count_positive(s: Seq<Option<Piece>>, i: int, k: int)
    requires
        0 <= i < s.len(),
        holds(s[i], k) == 1,
    ensures
        owned_count(s, k) >= 1,
{
    lemma_owned_count_update(s, i, None, k);
    lemma_owned_count_bounds(s.update(i, None), k);
}

impl Board {
    /// Every piece on the board belongs to one of the first `n` players.
    pub open spec fn owners_below(&self, n: int) -> bool {
        forall|i: int|
            0 <= i < self.cats@.len() && (#[trigger] self.cats@[i]).is_some() ==> self.cats@[i].unwrap().owner.0 < n
    }

    /// How many pieces of player `k` stand on the board.
    pub open spec fn on_board(&self, k: int) -> int {
        owned_count(self.cats@, k)
    }

    /// The cells are exactly the hexagon of the radius, each listed once.
    pub open spec fn wf(&self) -> bool {
        &&& self.radius <= MAX_RADIUS
        &&& self.cells@.len() == self.cats@.len()
        &&& forall|i: int|
            0 <= i < self.cells@.len() ==> in_region(#[trigger] self.cells@[i], self.radius as int)
        &&& forall|h: Hex| in_region(h, self.radius as int) ==> self.cells@.contains(h)
        &&& forall|i: int, j: int|
            0 <= i < j < self.cells@.len() ==> self.cells@[i] != self.cells@[j]
    }

    pub open spec fn valid(&self, h: Hex) -> bool {
        in_region(h, self.radius as int)
    }

    pub open spec fn index_of(&self, h: Hex) -> int {
        choose|i: int| 0 <= i < self.cells@.len() && self.cells@[i] == h
    }

    pub open spec fn piece_at(&self, h: Hex) -> Option<Piece> {
        if self.valid(h) {
            self.cats@[self.index_of(h)]
        } else {
            None
        }
    }

    pub proof fn lemma_index(&self, i: int)
        requires
            self.wf(),
            0 <= i < self.cells@.len(),
        ensures
            self.index_of(self.cells@[i]) == i,
            self.valid(self.cells@[i]),
            self.piece_at(self.cells@[i]) == self.cats@[i],
    {
        let h = self.cells@[i];
        assert(0 <= i < self.cells@.len() && self.cells@[i] == h);
        let j = self.index_of(h);
        if j < i {
            assert(self.cells@[j] != self.cells@[i]);
        } else if j > i {
            assert(self.cells@[i] != self.cells@[j]);
        }
    }

    pub proof fn lemma_valid_has_index(&self, h: Hex)
        requires
            self.wf(),
            self.valid(h),
        ensures
            0 <= self.index_of(h) < self.cells@.len(),
            self.cells@[self.index_of(h)] == h,
    {
        assert(self.cells@.contains(h));
        let i = choose|i: int| 0 <= i < self.cells@.len() && self.cells@[i] == h;
        assert(0 <= i < self.cells@.len() && self.cells@[i] == h);
    }

    /// Writing `v` into slot `i` writes it into the view at cell `i`.
    proof fn lemma_update(old: &Board, new: &Board, i: int, v: Option<Piece>)
        requires
            old.wf(),
            0 <= i < old.cells@.len(),
            new.radius == old.radius,
            new.cells@ == old.cells@,
            new.cats@ == old.cats@.update(i, v),
        ensures
            new.wf(),
            new@ == old@.insert(old.cells@[i], v),
    {
        let h = old.cells@[i];
        old.lemma_index(i);
        assert forall|g: Hex| #[trigger] new.valid(g) implies new.piece_at(g) == old@.insert(h, v)[g] by {
            old.lemma_valid_has_index(g);
            if g != h {
                assert(old.index_of(g) != i);
            }
        }
        assert(new@ =~= old@.insert(h, v));
    }

    /// The hexagon of radius `settings.map_radius` around the origin, empty.
    pub fn new(settings: MapSettings) -> (r: Board)
        requires
            settings.map_radius <= MAX_RADIUS,
        ensures
            r.wf(),
            r.radius == settings.map_radius,
            forall|h: Hex| #[trigger] r@.contains_key(h) <==> in_region(h, settings.map_radius as int),
            forall|h: Hex| r@.contains_key(h) ==> (#[trigger] r@[h]).is_none(),
            forall|i: int| 0 <= i < r.cats@.len() ==> (#[trigger] r.cats@[i]).is_none(),
    {
        let cells = hexagon(settings.map_radius);
        let mut cats: Vec<Option<Piece>> = Vec::new();
        while cats.len() < cells.len()
            invariant
                cats@.len() <= cells@.len(),
                forall|i: int| 0 <= i < cats@.len() ==> (#[trigger] cats@[i]).is_none(),
            decreases cells@.len() - cats@.len(),
        {
            cats.push(None);
        }
        let b = Board { radius: settings.map_radius, cells, cats };
        proof {
            assert forall|h: Hex| b@.contains_key(h) implies (#[trigger] b@[h]).is_none() by {
                b.lemma_valid_has_index(h);
            }
        }
        b
    }

    /// The index of the cell at `hex`, if it is on the board.
    pub fn cell_by_hex(&self, hex: Hex) -> (r: Option<usize>)
        requires
            self.wf(),
        ensures
            r.is_some() == self.valid(hex),
            r.is_some() ==> r.unwrap() == self.index_of(hex) && self.cells@[r.unwrap() as int] == hex,
    {
        let mut i: usize = 0;
        while i < self.cells.len()
            invariant
                self.wf(),
                i <= self.cells@.len(),
                forall|j: int| 0 <= j < i ==> self.cells@[j] != hex,
            decreases self.cells@.len() - i,
        {
            if self.cells[i] == hex {
                proof {
                    self.lemma_index(i as int);
                }
                return Some(i);
            }
            i = i + 1;
        }
        proof {
            if self.valid(hex) {
                self.lemma_valid_has_index(hex);
            }
        }
        None
    }

    /// The coordinate of cell `cell`.
    pub fn cell_by_entity(&self, cell: usize) -> (r: Option<Hex>)
        requires
            self.wf(),
        ensures
            r == (if cell < self.cells@.len() { Some(self.cells@[cell as int]) } else { None::<Hex> }),
    {
        if cell < self.cells.len() {
            Some(self.cells[cell])
        } else {
            None
        }
    }

    /// The piece at `hex`; none off the board.
    pub fn cat_by_hex(&self, hex: Hex) -> (r: Option<Piece>)
        requires
            self.wf(),
        ensures
            r == self.piece_at(hex),
            self.valid(hex) ==> r == self@[hex],
    {
        match self.cell_by_hex(hex) {
            Some(i) => self.cats[i],
            None => None,
        }
    }

    /// Where the piece with identity `id` stands, if it is on the board.
    pub fn cat_by_entity(&self, id: u64) -> (r: Option<Hex>)
        requires
            self.wf(),
        ensures
            r.is_some() ==> self@.contains_key(r.unwrap()) && self@[r.unwrap()].is_some()
                && self@[r.unwrap()].unwrap().id == id,
            r.is_none() ==> forall|h: Hex|
                #[trigger] self@.contains_key(h) && self@[h].is_some() ==> self@[h].unwrap().id != id,
    {
        let mut i: usize = 0;
        while i < self.cats.len()
            invariant
                self.wf(),
                i <= self.cats@.len(),
                forall|j: int|
                    0 <= j < i && (#[trigger] self.cats@[j]).is_some() ==> self.cats@[j].unwrap().id != id,
            decreases self.cats@.len() - i,
        {
            match self.cats[i] {
                Some(p) => {
                    if p.id == id {
                        proof {
                            self.lemma_index(i as int);
                        }
                        return Some(self.cells[i]);
                    }
                },
                None => {},
            }
            i = i + 1;
        }
        proof {
            assert forall|h: Hex| #[trigger] self@.contains_key(h) && self@[h].is_some() implies self@[h].unwrap().id != id by {
                self.lemma_valid_has_index(h);
            }
        }
        None
    }

    /// Puts `piece` on the empty cell `hex`.
    pub fn add_cat(&mut self, hex: Hex, piece: Piece) -> (r: Result<(), GameError>)
        requires
            old(self).wf(),
        ensures
            final(self).wf(),
            final(self).radius == old(self).radius,
            !old(self).valid(hex) ==> r == Err::<(), GameError>(GameError::CellOutOfBounds),
            old(self).valid(hex) && old(self)@[hex].is_some() ==> r == Err::<(), GameError>(
                GameError::CellOccupied,
            ),
            r.is_err() ==> *final(self) == *old(self),
            r.is_ok() ==> final(self)@ == old(self)@.insert(hex, Some(piece)),
            r.is_ok() ==> final(self).cells@ == old(self).cells@ && final(self).cats@ == old(
                self,
            ).cats@.update(old(self).index_of(hex), Some(piece)),
            r.is_ok() <==> old(self).valid(hex) && old(self)@[hex].is_none(),
    {
        match self.cell_by_hex(hex) {
            None => Err(GameError::CellOutOfBounds),
            Some(i) => {
                if self.cats[i].is_some() {
                    Err(GameError::CellOccupied)
                } else {
                    let ghost before = *self;
                    self.cats.set(i, Some(piece));
                    proof {
                        Board::lemma_update(&before, self, i as int, Some(piece));
                    }
                    Ok(())
                }
            },
        }
    }

    /// Takes the piece off the cell `hex`.
    pub fn clear_cat_cell(&mut self, hex: Hex) -> (r: Result<Piece, GameError>)
        requires
            old(self).wf(),
        ensures
            final(self).wf(),
            final(self).radius == old(self).radius,
            r.is_ok() <==> old(self).piece_at(hex).is_some(),
            r.is_err() ==> r == Err::<Piece, GameError>(GameError::CellEmpty) && *final(self) == *old(self),
            r.is_ok() ==> r == Ok::<Piece, GameError>(old(self)@[hex].unwrap()) && final(self)@ == old(
                self,
            )@.insert(hex, None),
            r.is_ok() ==> final(self).cells@ == old(self).cells@ && final(self).cats@ == old(
                self,
            ).cats@.update(old(self).index_of(hex), None),
    {
        match self.cell_by_hex(hex) {
            None => Err(GameError::CellEmpty),
            Some(i) => {
                match self.cats[i] {
                    None => Err(GameError::CellEmpty),
                    Some(p) => {
                        let ghost before = *self;
                        self.cats.set(i, None);
                        proof {
                            Board::lemma_update(&before, self, i as int, None);
                        }
                        Ok(p)
                    },
                }
            },
        }
    }

    /// Moves the piece on `from` to the empty cell `to`.
    pub fn move_piece(&mut self, from: Hex, to: Hex) -> (r: Result<Piece, GameError>)
        requires
            old(self).wf(),
        ensures
            final(self).wf(),
            final(self).radius == old(self).radius,
            old(self).piece_at(from).is_none() ==> r == Err::<Piece, GameError>(GameError::CellEmpty),
            old(self).piece_at(from).is_some() && !old(self).valid(to) ==> r == Err::<Piece, GameError>(
                GameError::CellOutOfBounds,
            ),
            old(self).piece_at(from).is_some() && old(self).piece_at(to).is_some() ==> r == Err::<
                Piece,
                GameError,
            >(GameError::CellOccupied),
            r.is_ok() <==> old(self).piece_at(from).is_some() && old(self).valid(to) && old(
                self,
            ).piece_at(to).is_none(),
            r.is_err() ==> *final(self) == *old(self),
            r.is_ok() ==> r == Ok::<Piece, GameError>(old(self)@[from].unwrap()) && final(self)@ == old(
                self,
            )@.insert(from, None).insert(to, old(self)@[from]),
            r.is_ok() ==> final(self).cells@ == old(self).cells@ && final(self).cats@ == old(
                self,
            ).cats@.update(old(self).index_of(from), None).update(
                old(self).index_of(to),
                old(self)@[from],
            ),
    {
        let i = match self.cell_by_hex(from) {
            None => {
                return Err(GameError::CellEmpty);
            },
            Some(i) => i,
        };
        let p = match self.cats[i] {
            None => {
                return Err(GameError::CellEmpty);
            },
            Some(p) => p,
        };
        let j = match self.cell_by_hex(to) {
            None => {
                return Err(GameError::CellOutOfBounds);
            },
            Some(j) => j,
        };
        if self.cats[j].is_some() {
            return Err(GameError::CellOccupied);
        }
        let ghost before = *self;
        self.cats.set(i, None);
        let ghost mid = *self;
        proof {
            Board::lemma_update(&before, &mid, i as int, None);
        }
        self.cats.set(j, Some(p));
        proof {
            Board::lemma_update(&mid, self, j as int, Some(p));
        }
        Ok(p)
    }

    /// Takes every piece off the board.
    pub fn clear(&mut self)
        requires
            old(self).wf(),
        ensures
            final(self).wf(),
            final(self).radius == old(self).radius,
            final(self).cells@ == old(self).cells@,
            final(self)@.dom() == old(self)@.dom(),
            forall|h: Hex| #[trigger] final(self)@.contains_key(h) ==> final(self)@[h].is_none(),
            forall|i: int| 0 <= i < final(self).cats@.len() ==> (#[trigger] final(self).cats@[i]).is_none(),
    {
        let mut i: usize = 0;
        while i < self.cats.len()
            invariant
                self.radius == old(self).radius,
                self.cells@ == old(self).cells@,
                self.cats@.len() == old(self).cats@.len(),
                old(self).wf(),
                i <= self.cats@.len(),
                forall|j: int| 0 <= j < i ==> (#[trigger] self.cats@[j]).is_none(),
            decreases self.cats@.len() - i,
        {
            self.cats.set(i, None);
            i = i + 1;
        }
        proof {
            assert forall|h: Hex| #[trigger] self@.contains_key(h) implies self@[h].is_none() by {
                self.lemma_valid_has_index(h);
            }
            assert(self@.dom() =~= old(self)@.dom());
        }
    }
}

} // verus!
