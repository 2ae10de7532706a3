//! The occupancy table: a fixed 4x4 board of optional scored tiles.

use vstd::prelude::*;

verus! {

/// Side length of the square playing field.
pub const GRID_SIZE: u32 = 4;

/// A scored tile. `entity` is the stable identifier under which the
/// presentation layer keeps the tile's drawable; it never changes while the
/// tile is on the board. `score` changes only when two equal tiles merge.
#[derive(Clone, Copy, PartialEq, Eq, Structural, Debug)]
pub struct Square {
    pub entity: u64,
    pub score: u64,
}

/// True when (x, y) lies on the board.
pub open spec fn in_range(x: int, y: int) -> bool {
    0 <= x < GRID_SIZE && 0 <= y < GRID_SIZE
}

/// Cell (x, y) lives at index x + 4*y of the backing row-major table.
pub open spec fn cell_index(x: int, y: int) -> int {
    x + (GRID_SIZE as int) * y
}

/// The score a cell contributes to the board total: 0 when empty.
pub open spec fn score_of(c: Option<Square>) -> int {
    match c {
        Some(sq) => sq.score as int,
        None => 0,
    }
}

/// Total of all tile scores on a board.
pub open spec fn sum_scores(cells: Seq<Option<Square>>) -> int
    decreases cells.len(),
{
    if cells.len() == 0 {
        0
    } else {
        sum_scores(cells.drop_last()) + score_of(cells.last())
    }
}

/// No tile identifier appears in two cells at once.
pub open spec fn entities_distinct(cells: Seq<Option<Square>>) -> bool {
    forall|i: int, j: int|
        0 <= i < cells.len() && 0 <= j < cells.len() && i != j && cells[i] is Some
            && cells[j] is Some ==> cells[i]->0.entity != cells[j]->0.entity
}

/// Every tile identifier on the board is below the bound.
pub open spec fn entities_below(cells: Seq<Option<Square>>, bound: u64) -> bool {
    forall|i: int|
        0 <= i < cells.len() && cells[i] is Some ==> cells[i]->0.entity < bound
}

/// The fixed-size occupancy table mapping each cell to at most one tile.
pub struct Grid {
    cells: Vec<Option<Square>>,
}

impl View for Grid {
    type V = Seq<Option<Square>>;

    closed spec fn view(&self) -> Seq<Option<Square>> {
        self.cells@
    }
}

impl Grid {
    /// The backing table always holds one slot per cell.
    pub open spec fn wf(&self) -> bool {
        self@.len() == 16
    }

    /// The tile at (x, y); None for an empty slot or a coordinate off the
    /// board (reads are total).
    pub open spec fn spec_at(&self, x: int, y: int) -> Option<Square> {
        if self.wf() && in_range(x, y) {
            self@[cell_index(x, y)]
        } else {
            None
        }
    }

    /// An all-empty board.
    pub fn new() -> (g: Grid)
        ensures
            g.wf(),
            forall|i: int| 0 <= i < 16 ==> g@[i] is None,
    {
        let mut cells: Vec<Option<Square>> = Vec::new();
        let mut i: usize = 0;
        while i < 16
            invariant
                cells@.len() == i,
                i <= 16,
                forall|j: int| 0 <= j < i ==> cells@[j] is None,
            decreases 16 - i,
        {
            cells.push(None);
            i = i + 1;
        }
        Grid { cells }
    }

    /// Resets every slot to empty (restart).
    pub fn clear(&mut self)
        ensures
            final(self).wf(),
            forall|i: int| 0 <= i < 16 ==> final(self)@[i] is None,
    {
        *self = Grid::new();
    }

    /// Inserts (or overwrites) the slot at `pos`. A coordinate off the board
    /// is a caller fault, so it is excluded up front rather than clamped.
    pub fn add_at(&mut self, pos: (u32, u32), square: Square)
        requires
            old(self).wf(),
            pos.0 < GRID_SIZE,
            pos.1 < GRID_SIZE,
        ensures
            final(self).wf(),
            final(self)@ == old(self)@.update(
                cell_index(pos.0 as int, pos.1 as int),
                Some(square),
            ),
    {
        let i: usize = (pos.0 + GRID_SIZE * pos.1) as usize;
        self.cells.set(i, Some(square));
    }

    /// Read-only lookup; total, returns None off the board.
    pub fn get_at(&self, pos: (u32, u32)) -> (r: Option<Square>)
        requires
            self.wf(),
        ensures
            r == self.spec_at(pos.0 as int, pos.1 as int),
    {
        if pos.0 >= GRID_SIZE || pos.1 >= GRID_SIZE {
            return None;
        }
        let i: usize = (pos.0 + GRID_SIZE * pos.1) as usize;
        self.cells[i]
    }

    /// Removes and returns the slot's content, leaving it empty; total,
    /// returns None (and changes nothing) off the board.
    pub fn take_at(&mut self, pos: (u32, u32)) -> (r: Option<Square>)
        requires
            old(self).wf(),
        ensures
            final(self).wf(),
            r == old(self).spec_at(pos.0 as int, pos.1 as int),
            in_range(pos.0 as int, pos.1 as int) ==> final(self)@ == old(self)@.update(
                cell_index(pos.0 as int, pos.1 as int),
                None::<Square>,
            ),
            !in_range(pos.0 as int, pos.1 as int) ==> final(self)@ == old(self)@,
    {
        if pos.0 >= GRID_SIZE || pos.1 >= GRID_SIZE {
            return None;
        }
        let i: usize = (pos.0 + GRID_SIZE * pos.1) as usize;
        let taken = self.cells[i];
        self.cells.set(i, None);
        taken
    }

    /// True when the slot at `pos` holds a tile.
    pub fn is_filled(&self, pos: (u32, u32)) -> (r: bool)
        requires
            self.wf(),
        ensures
            r == (self.spec_at(pos.0 as int, pos.1 as int) is Some),
    {
        self.get_at(pos).is_some()
    }

    /// Inserts `square` at `new_pos`. The old slot is not cleared here:
    /// callers take the tile out first, so that no tile occupies two cells.
    pub fn move_to(&mut self, square: Square, new_pos: (u32, u32))
        requires
            old(self).wf(),
            new_pos.0 < GRID_SIZE,
            new_pos.1 < GRID_SIZE,
        ensures
            final(self).wf(),
            final(self)@ == old(self)@.update(
                cell_index(new_pos.0 as int, new_pos.1 as int),
                Some(square),
            ),
    {
        self.add_at(new_pos, square);
    }

    /// The four axis-adjacent tiles (right, left, above, below); None for a
    /// board-boundary or empty neighbor. Used for terminal-state detection.
    pub fn get_neighbors(&self, pos: (u32, u32)) -> (r: [Option<Square>; 4])
        requires
            self.wf(),
            pos.0 < GRID_SIZE,
            pos.1 < GRID_SIZE,
        ensures
            r@[0] == self.spec_at(pos.0 + 1, pos.1 as int),
            r@[1] == self.spec_at(pos.0 - 1, pos.1 as int),
            r@[2] == self.spec_at(pos.0 as int, pos.1 + 1),
            r@[3] == self.spec_at(pos.0 as int, pos.1 - 1),
    {
        let right = self.get_at((pos.0 + 1, pos.1));
        let left = if pos.0 > 0 {
            self.get_at((pos.0 - 1, pos.1))
        } else {
            None
        };
        let above = self.get_at((pos.0, pos.1 + 1));
        let below = if pos.1 > 0 {
            self.get_at((pos.0, pos.1 - 1))
        } else {
            None
        };
        [right, left, above, below]
    }
}

} // verus!
