//! The grid data model: cell states, the board with its ship-cell set,
//! fire resolution and win detection.

use vstd::prelude::*;

verus! {

/// State of one grid cell. Exactly one value per cell at any time.
#[derive(Clone, Copy, Debug, PartialEq, Eq, Structural)]
pub enum CellState {
    Empty,
    Occupied,
    Hit,
    Missed,
}

/// Errors a board operation can report.
#[derive(Clone, Copy, Debug, PartialEq, Eq, Structural)]
pub enum BoardError {
    /// A coordinate outside [0, N) x [0, N) was requested.
    OutOfBounds,
    /// No valid placement exists for a requested ship length.
    PlacementExhausted,
}

/// An N x N matrix of cell states plus the set of coordinates that were
/// assigned `Occupied` during placement (the ship cells). The backing
/// storage is never exposed; all access goes through the contracts below.
pub struct Board {
    pub(crate) n: usize,
    pub(crate) cells: Vec<CellState>,
    pub(crate) ship_cells: Vec<(usize, usize)>,
}

/// State a cell moves to when fired upon.
pub open spec fn fire_next(s: CellState) -> CellState {
    match s {
        CellState::Empty => CellState::Missed,
        CellState::Occupied => CellState::Hit,
        CellState::Hit => CellState::Hit,
        CellState::Missed => CellState::Missed,
    }
}

/// Outcome reported for a shot at a cell in state `s`. Re-firing at an
/// already resolved cell (Hit or Missed) is reported as Missed.
pub open spec fn fire_outcome(s: CellState) -> CellState {
    match s {
        CellState::Empty => CellState::Missed,
        CellState::Occupied => CellState::Hit,
        CellState::Hit => CellState::Missed,
        CellState::Missed => CellState::Missed,
    }
}

/// `post` is `pre` after exactly one shot at (row, col): that cell follows
/// the transition table, every other cell and the ship-cell set are unchanged.
pub open(crate) spec fn fired(pre: Board, post: Board, row: int, col: int) -> bool {
    &&& post.side() == pre.side()
    &&& post.ships() == pre.ships()
    &&& post.cell(row, col) == fire_next(pre.cell(row, col))
    &&& forall|r: int, c: int|
        pre.in_bounds(r, c) && !(r == row && c == col) ==> #[trigger] post.cell(r, c) == pre.cell(
            r,
            c,
        )
}

/// Row-major cell indices stay inside the backing storage.
pub proof fn lemma_index_bounds(n: int, row: int, col: int)
    requires
        0 <= row < n,
        0 <= col < n,
    ensures
        0 <= row * n + col < n * n,
{
    assert(0 <= row * n + col < n * n) by (nonlinear_arith)
        requires
            0 <= row < n,
            0 <= col < n,
    ;
}

/// Distinct in-bounds coordinates get distinct row-major indices.
pub proof fn lemma_index_injective(n: int, r1: int, c1: int, r2: int, c2: int)
    requires
        0 <= r1 < n,
        0 <= c1 < n,
        0 <= r2 < n,
        0 <= c2 < n,
        r1 * n + c1 == r2 * n + c2,
    ensures
        r1 == r2 && c1 == c2,
{
    assert(r1 == r2 && c1 == c2) by (nonlinear_arith)
        requires
            0 <= r1 < n,
            0 <= c1 < n,
            0 <= r2 < n,
            0 <= c2 < n,
            r1 * n + c1 == r2 * n + c2,
    ;
}

impl Board {
    /// Side length of the grid.
    pub open(crate) spec fn side(&self) -> int {
        self.n as int
    }

    pub open(crate) spec fn in_bounds(&self, row: int, col: int) -> bool {
        0 <= row < self.side() && 0 <= col < self.side()
    }

    /// Current state of the cell at (row, col).
    pub open(crate) spec fn cell(&self, row: int, col: int) -> CellState {
        self.cells@[row * self.side() + col]
    }

    /// The ship cells, in the order they were committed.
    pub open(crate) spec fn ships(&self) -> Seq<(usize, usize)> {
        self.ship_cells@
    }

    pub open(crate) spec fn is_ship_cell(&self, row: int, col: int) -> bool {
        self.ships().contains((row as usize, col as usize))
    }

    /// The backing storage has exactly side * side cells.
    pub open(crate) spec fn dims_ok(&self) -> bool {
        &&& 1 <= self.n
        &&& self.cells@.len() == self.side() * self.side()
    }

    /// Well-formedness: every ship cell is in bounds, no coordinate is
    /// recorded twice, and a coordinate is a ship cell if and only if its
    /// state is currently Occupied or Hit.
    pub open(crate) spec fn wf(&self) -> bool {
        &&& self.dims_ok()
        &&& forall|i: int|
            0 <= i < self.ships().len() ==> {
                let rc = #[trigger] self.ships()[i];
                self.in_bounds(rc.0 as int, rc.1 as int)
            }
        &&& self.ships().no_duplicates()
        &&& forall|row: int, col: int|
            self.in_bounds(row, col) ==> ((#[trigger] self.cell(row, col) == CellState::Occupied
                || self.cell(row, col) == CellState::Hit) <==> self.is_ship_cell(row, col))
    }

    /// Every ship cell of this board has been hit.
    pub open(crate) spec fn game_over(&self) -> bool {
        forall|i: int|
            0 <= i < self.ships().len() ==> {
                let rc = #[trigger] self.ships()[i];
                self.cell(rc.0 as int, rc.1 as int) == CellState::Hit
            }
    }

    /// An empty board of the given side length.
    pub fn with_size(n: usize) -> (b: Board)
        requires
            1 <= n,
            n * n <= usize::MAX,
        ensures
            b.wf(),
            b.side() == n,
            b.ships().len() == 0,
            forall|row: int, col: int| b.in_bounds(row, col) ==> b.cell(row, col) == CellState::Empty,
    {
        let total = n * n;
        let mut cells: Vec<CellState> = Vec::new();
        let mut i: usize = 0;
        while i < total
            invariant
                i <= total,
                cells@.len() == i,
                forall|j: int| 0 <= j < i ==> cells@[j] == CellState::Empty,
            decreases total - i,
        {
            cells.push(CellState::Empty);
            i = i + 1;
        }
        let b = Board { n, cells, ship_cells: Vec::new() };
        proof {
            assert forall|row: int, col: int| b.in_bounds(row, col) implies #[trigger] b.cell(
                row,
                col,
            ) == CellState::Empty by {
                lemma_index_bounds(b.side(), row, col);
            }
        }
        b
    }

    /// An empty board of the standard size, with an empty ship-cell set.
    pub fn new() -> (b: Board)
        ensures
            b.wf(),
            b.side() == crate::BOARD_SIZE as int,
            b.ships().len() == 0,
            forall|row: int, col: int| b.in_bounds(row, col) ==> b.cell(row, col) == CellState::Empty,
    {
        Board::with_size(crate::BOARD_SIZE)
    }

    /// Exec side length.
    pub fn size(&self) -> (n: usize)
        ensures
            n as int == self.side(),
    {
        self.n
    }

    /// Row-major index of an in-bounds coordinate.
    pub(crate) fn idx(&self, row: usize, col: usize) -> (i: usize)
        requires
            self.dims_ok(),
            self.in_bounds(row as int, col as int),
        ensures
            i == row * self.side() + col,
            i < self.cells@.len(),
    {
        let total = self.cells.len();
        proof {
            lemma_index_bounds(self.side(), row as int, col as int);
            assert(row * self.side() + col < total);
        }
        row * self.n + col
    }

    /// Current state of a cell; rejects out-of-bounds coordinates.
    pub fn cell_state(&self, row: usize, col: usize) -> (r: Result<CellState, BoardError>)
        requires
            self.dims_ok(),
        ensures
            self.in_bounds(row as int, col as int) ==> r == Ok::<CellState, BoardError>(
                self.cell(row as int, col as int),
            ),
            !self.in_bounds(row as int, col as int) ==> r == Err::<CellState, BoardError>(
                BoardError::OutOfBounds,
            ),
    {
        if row < self.n && col < self.n {
            let i = self.idx(row, col);
            Ok(self.cells[i])
        } else {
            Err(BoardError::OutOfBounds)
        }
    }

    /// Overwrite one cell's state; used internally by placement and fire
    /// resolution only. Leaves every other cell, the ship-cell set and the
    /// side length untouched.
    pub(crate) fn mark(&mut self, row: usize, col: usize, state: CellState)
        requires
            old(self).dims_ok(),
            old(self).in_bounds(row as int, col as int),
        ensures
            final(self).n == old(self).n,
            final(self).dims_ok(),
            final(self).ship_cells == old(self).ship_cells,
            final(self).cell(row as int, col as int) == state,
            forall|r: int, c: int|
                old(self).in_bounds(r, c) && !(r == row as int && c == col as int)
                    ==> #[trigger] final(self).cell(r, c) == old(self).cell(r, c),
    {
        let i = self.idx(row, col);
        self.cells[i] = state;
        proof {
            assert forall|r: int, c: int|
                old(self).in_bounds(r, c) && !(r == row as int && c == col as int)
                    implies #[trigger] self.cell(r, c) == old(self).cell(r, c) by {
                lemma_index_bounds(self.side(), r, c);
                if r * self.side() + c == row as int * self.side() + col as int {
                    lemma_index_injective(self.side(), r, c, row as int, col as int);
                }
            }
        }
    }

    /// Resolve a shot at (row, col) following the transition table:
    /// Empty -> Missed (reported Missed), Occupied -> Hit (reported Hit),
    /// Hit and Missed are unchanged and reported Missed.
    pub fn fire(&mut self, row: usize, col: usize) -> (outcome: CellState)
        requires
            old(self).wf(),
            old(self).in_bounds(row as int, col as int),
        ensures
            final(self).wf(),
            fired(*old(self), *final(self), row as int, col as int),
            outcome == fire_outcome(old(self).cell(row as int, col as int)),
    {
        let i = self.idx(row, col);
        let outcome = match self.cells[i] {
            CellState::Empty => {
                self.mark(row, col, CellState::Missed);
                CellState::Missed
            },
            CellState::Occupied => {
                self.mark(row, col, CellState::Hit);
                CellState::Hit
            },
            CellState::Hit => CellState::Missed,
            CellState::Missed => CellState::Missed,
        };
        proof {
            lemma_index_bounds(self.side(), row as int, col as int);
            assert forall|r: int, c: int| self.in_bounds(r, c) implies ((
            #[trigger] self.cell(r, c) == CellState::Occupied || self.cell(r, c)
                == CellState::Hit) <==> self.is_ship_cell(r, c)) by {
                if !(r == row as int && c == col as int) {
                    assert(self.cell(r, c) == old(self).cell(r, c));
                }
            }
        }
        outcome
    }

    /// Number of recorded ship cells.
    pub fn ship_count(&self) -> (k: usize)
        ensures
            k == self.ships().len(),
    {
        self.ship_cells.len()
    }

    /// The i-th recorded ship cell.
    pub fn ship_cell(&self, i: usize) -> (rc: (usize, usize))
        requires
            i < self.ships().len(),
        ensures
            rc == self.ships()[i as int],
    {
        self.ship_cells[i]
    }

    /// True iff every ship cell currently has state Hit. A board with zero
    /// ships placed is vacuously game-over.
    pub fn is_game_over(&self) -> (r: bool)
        requires
            self.wf(),
        ensures
            r == self.game_over(),
    {
        let mut i: usize = 0;
        while i < self.ship_cells.len()
            invariant
                self.wf(),
                i <= self.ships().len(),
                forall|j: int|
                    0 <= j < i ==> {
                        let rc = #[trigger] self.ships()[j];
                        self.cell(rc.0 as int, rc.1 as int) == CellState::Hit
                    },
            decreases self.ships().len() - i,
        {
            let (r, c) = self.ship_cells[i];
            let k = self.idx(r, c);
            if !(matches!(self.cells[k], CellState::Hit)) {
                return false;
            }
            i = i + 1;
        }
        true
    }
}

/// Law: a shot at an Empty cell reports a miss and permanently records a
/// miss; Missed is absorbing, so every later shot at that cell reports a
/// miss and leaves the state Missed.
pub proof fn lemma_fire_empty_is_permanent_miss()
    ensures
        fire_outcome(CellState::Empty) == CellState::Missed,
        fire_next(CellState::Empty) == CellState::Missed,
        fire_outcome(CellState::Missed) == CellState::Missed,
        fire_next(CellState::Missed) == CellState::Missed,
{
}

/// Law: the first shot at a ship cell reports a hit and records a hit; the
/// stored state then stays Hit forever, while every later shot at that cell
/// is reported as Missed.
pub proof fn lemma_fire_ship_then_refire()
    ensures
        fire_outcome(CellState::Occupied) == CellState::Hit,
        fire_next(CellState::Occupied) == CellState::Hit,
        fire_outcome(CellState::Hit) == CellState::Missed,
        fire_next(CellState::Hit) == CellState::Hit,
{
}

/// Law: on a well-formed board the recorded ship cells are pairwise
/// distinct and all inside [0, N) x [0, N).
pub proof fn lemma_ship_cells_wellformed(b: Board)
    requires
        b.wf(),
    ensures
        b.ships().no_duplicates(),
        forall|i: int|
            0 <= i < b.ships().len() ==> {
                let rc = #[trigger] b.ships()[i];
                b.in_bounds(rc.0 as int, rc.1 as int)
            },
{
}

/// Law: a board with a ship cell still standing (Occupied) is not game-over.
pub proof fn lemma_occupied_ship_blocks_game_over(b: Board, i: int)
    requires
        b.wf(),
        0 <= i < b.ships().len(),
        b.cell(b.ships()[i].0 as int, b.ships()[i].1 as int) == CellState::Occupied,
    ensures
        !b.game_over(),
{
    let rc = b.ships()[i];
    assert(b.cell(rc.0 as int, rc.1 as int) != CellState::Hit);
}

} // verus!
