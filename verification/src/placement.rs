//! Fleet placement: checking whether a ship fits, committing a placement,
//! and the randomized placement search with its deterministic fallback scan.

use vstd::prelude::*;
use crate::board::{Board, BoardError, CellState};
use crate::rng::{sample_below, sample_bool};

verus! {

/// Number of random anchors tried before the deterministic fallback scan.
pub const SAMPLE_TRIES: usize = 128;

/// The i-th cell of a run anchored at (row, col) in the given orientation.
pub open spec fn run_cell(row: int, col: int, horizontal: bool, i: int) -> (int, int) {
    if horizontal {
        (row, col + i)
    } else {
        (row + i, col)
    }
}

/// The cells of a run of the given length, as they are recorded in the
/// ship-cell set.
pub open spec fn run_seq(row: int, col: int, size: int, horizontal: bool) -> Seq<(usize, usize)> {
    Seq::new(
        size as nat,
        |i: int|
            (
                run_cell(row, col, horizontal, i).0 as usize,
                run_cell(row, col, horizontal, i).1 as usize,
            ),
    )
}

/// A run of `size` cells anchored at (row, col) lies fully inside the board
/// and every one of its cells is currently Empty.
pub open(crate) spec fn placeable(b: Board, row: int, col: int, size: int, horizontal: bool) -> bool {
    &&& 0 <= row < b.side()
    &&& 0 <= col < b.side()
    &&& if horizontal {
        col + size <= b.side()
    } else {
        row + size <= b.side()
    }
    &&& forall|i: int|
        0 <= i < size ==> {
            let rc = #[trigger] run_cell(row, col, horizontal, i);
            b.cell(rc.0, rc.1) == CellState::Empty
        }
}

/// Some anchor and orientation admits a ship of the given length.
pub open(crate) spec fn exists_placement(b: Board, size: int) -> bool {
    exists|row: int, col: int, horizontal: bool| placeable(b, row, col, size, horizontal)
}

/// `post` is `pre` with exactly one new ship committed: the run's cells went
/// from Empty to Occupied and were appended to the ship-cell set, in order;
/// everything else is unchanged.
pub open(crate) spec fn placement_committed(
    pre: Board,
    post: Board,
    row: int,
    col: int,
    size: int,
    horizontal: bool,
) -> bool {
    &&& placeable(pre, row, col, size, horizontal)
    &&& post.side() == pre.side()
    &&& post.ships() == pre.ships() + run_seq(row, col, size, horizontal)
    &&& forall|i: int|
        0 <= i < size ==> {
            let rc = #[trigger] run_cell(row, col, horizontal, i);
            post.cell(rc.0, rc.1) == CellState::Occupied
        }
    &&& forall|r: int, c: int|
        pre.in_bounds(r, c) && !in_run(row, col, size, horizontal, r, c)
            ==> #[trigger] post.cell(r, c) == pre.cell(r, c)
}

/// (r, c) is one of the cells of the given run.
pub open spec fn in_run(row: int, col: int, size: int, horizontal: bool, r: int, c: int) -> bool {
    if horizontal {
        r == row && col <= c < col + size
    } else {
        c == col && row <= r < row + size
    }
}

impl Board {
    /// True iff a ship of length `size` fits at (row, col) in the given
    /// orientation with every target cell currently Empty.
    pub fn can_place_ship(&self, row: usize, col: usize, size: usize, horizontal: bool) -> (r:
        bool)
        requires
            self.wf(),
            self.in_bounds(row as int, col as int),
            1 <= size,
        ensures
            r == placeable(*self, row as int, col as int, size as int, horizontal),
    {
        if horizontal {
            if size > self.n - col {
                assert(!placeable(*self, row as int, col as int, size as int, horizontal));
                return false;
            }
            let mut i: usize = 0;
            while i < size
                invariant
                    horizontal,
                    self.wf(),
                    self.in_bounds(row as int, col as int),
                    1 <= size,
                    i <= size,
                    col + size <= self.side(),
                    forall|j: int|
                        0 <= j < i ==> {
                            let rc = #[trigger] run_cell(row as int, col as int, true, j);
                            self.cell(rc.0, rc.1) == CellState::Empty
                        },
                decreases size - i,
            {
                let k = self.idx(row, col + i);
                if !(matches!(self.cells[k], CellState::Empty)) {
                    proof {
                        let rc = run_cell(row as int, col as int, horizontal, i as int);
                        assert(rc == (row as int, col as int + i as int));
                        assert(self.cell(rc.0, rc.1) != CellState::Empty);
                        assert(!placeable(*self, row as int, col as int, size as int, horizontal))
                            by {
                            if placeable(*self, row as int, col as int, size as int, horizontal) {
                                let rc2 = run_cell(row as int, col as int, horizontal, i as int);
                                assert(self.cell(rc2.0, rc2.1) == CellState::Empty);
                            }
                        }
                    }
                    return false;
                }
                i = i + 1;
            }
            true
        } else {
            if size > self.n - row {
                assert(!placeable(*self, row as int, col as int, size as int, horizontal));
                return false;
            }
            let mut i: usize = 0;
            while i < size
                invariant
                    !horizontal,
                    self.wf(),
                    self.in_bounds(row as int, col as int),
                    1 <= size,
                    i <= size,
                    row + size <= self.side(),
                    forall|j: int|
                        0 <= j < i ==> {
                            let rc = #[trigger] run_cell(row as int, col as int, false, j);
                            self.cell(rc.0, rc.1) == CellState::Empty
                        },
                decreases size - i,
            {
                let k = self.idx(row + i, col);
                if !(matches!(self.cells[k], CellState::Empty)) {
                    proof {
                        let rc = run_cell(row as int, col as int, horizontal, i as int);
                        assert(rc == (row as int + i as int, col as int));
                        assert(self.cell(rc.0, rc.1) != CellState::Empty);
                        assert(!placeable(*self, row as int, col as int, size as int, horizontal))
                            by {
                            if placeable(*self, row as int, col as int, size as int, horizontal) {
                                let rc2 = run_cell(row as int, col as int, horizontal, i as int);
                                assert(self.cell(rc2.0, rc2.1) == CellState::Empty);
                            }
                        }
                    }
                    return false;
                }
                i = i + 1;
            }
            true
        }
    }

    /// Commit a run that is known to fit: set each cell Occupied and record
    /// it in the ship-cell set.
    fn commit_run(&mut self, row: usize, col: usize, size: usize, horizontal: bool)
        requires
            old(self).wf(),
            old(self).in_bounds(row as int, col as int),
            1 <= size,
            placeable(*old(self), row as int, col as int, size as int, horizontal),
        ensures
            final(self).wf(),
            placement_committed(
                *old(self),
                *final(self),
                row as int,
                col as int,
                size as int,
                horizontal,
            ),
    {
        let ghost pre = *self;
        proof {
            assert(self.ships() =~= pre.ships() + run_seq(row as int, col as int, 0, horizontal));
        }
        let mut i: usize = 0;
        while i < size
            invariant
                pre == *old(self),
                self.dims_ok(),
                self.side() == pre.side(),
                pre.wf(),
                pre.in_bounds(row as int, col as int),
                1 <= size,
                i <= size,
                placeable(pre, row as int, col as int, size as int, horizontal),
                self.ships() == pre.ships() + run_seq(row as int, col as int, i as int, horizontal),
                forall|j: int|
                    0 <= j < i ==> {
                        let rc = #[trigger] run_cell(row as int, col as int, horizontal, j);
                        self.cell(rc.0, rc.1) == CellState::Occupied
                    },
                forall|r: int, c: int|
                    pre.in_bounds(r, c) && !in_run(row as int, col as int, i as int, horizontal, r, c)
                        ==> #[trigger] self.cell(r, c) == pre.cell(r, c),
            decreases size - i,
        {
            let (r, c) = if horizontal {
                (row, col + i)
            } else {
                (row + i, col)
            };
            proof {
                assert(run_cell(row as int, col as int, horizontal, i as int) == (
                r as int,
                c as int,
                ));
                assert(pre.in_bounds(r as int, c as int));
            }
            let ghost before = *self;
            self.mark(r, c, CellState::Occupied);
            proof {
                assert(self.cell(r as int, c as int) == CellState::Occupied);
                assert forall|j: int| 0 <= j < i as int + 1 implies {
                    let rc = #[trigger] run_cell(row as int, col as int, horizontal, j);
                    self.cell(rc.0, rc.1) == CellState::Occupied
                } by {
                    let rc = run_cell(row as int, col as int, horizontal, j);
                    if j < i as int {
                        assert(before.cell(rc.0, rc.1) == CellState::Occupied);
                        assert(pre.in_bounds(rc.0, rc.1));
                        assert(rc.0 != r as int || rc.1 != c as int);
                        assert(self.cell(rc.0, rc.1) == before.cell(rc.0, rc.1));
                    }
                }
                assert forall|rr: int, cc: int|
                    pre.in_bounds(rr, cc) && !in_run(
                        row as int,
                        col as int,
                        i as int + 1,
                        horizontal,
                        rr,
                        cc,
                    ) implies #[trigger] self.cell(rr, cc) == pre.cell(rr, cc) by {
                    assert(!in_run(row as int, col as int, i as int, horizontal, rr, cc));
                    assert(before.cell(rr, cc) == pre.cell(rr, cc));
                    assert(rr != r as int || cc != c as int);
                    assert(self.cell(rr, cc) == before.cell(rr, cc));
                }
            }
            let ghost after_mark = *self;
            self.ship_cells.push((r, c));
            proof {
                assert(self.cells@ == after_mark.cells@ && self.n == after_mark.n);
                assert forall|j: int| 0 <= j < i as int + 1 implies {
                    let rc = #[trigger] run_cell(row as int, col as int, horizontal, j);
                    self.cell(rc.0, rc.1) == CellState::Occupied
                } by {
                    let rc = run_cell(row as int, col as int, horizontal, j);
                    assert(self.cell(rc.0, rc.1) == after_mark.cell(rc.0, rc.1));
                }
                assert forall|rr: int, cc: int|
                    pre.in_bounds(rr, cc) && !in_run(
                        row as int,
                        col as int,
                        i as int + 1,
                        horizontal,
                        rr,
                        cc,
                    ) implies #[trigger] self.cell(rr, cc) == pre.cell(rr, cc) by {
                    assert(self.cell(rr, cc) == after_mark.cell(rr, cc));
                    assert(after_mark.cell(rr, cc) == pre.cell(rr, cc));
                }
                assert(self.ships() =~= pre.ships() + run_seq(
                    row as int,
                    col as int,
                    i as int + 1,
                    horizontal,
                ));
            }
            i = i + 1;
        }
        proof {
            assert(self.ships() =~= pre.ships() + run_seq(
                row as int,
                col as int,
                size as int,
                horizontal,
            ));
            lemma_wf_after_commit(pre, *self, row as int, col as int, size as int, horizontal);
        }
    }

    /// Deterministic placement: commit a ship of length `size` at the given
    /// anchor and orientation if and only if it fits there; otherwise leave
    /// the board unchanged and report PlacementExhausted.
    pub fn place_ship_at(&mut self, row: usize, col: usize, size: usize, horizontal: bool) -> (res:
        Result<(), BoardError>)
        requires
            old(self).wf(),
            old(self).in_bounds(row as int, col as int),
            1 <= size,
        ensures
            final(self).wf(),
            final(self).side() == old(self).side(),
            res is Ok <==> placeable(*old(self), row as int, col as int, size as int, horizontal),
            res is Ok ==> placement_committed(
                *old(self),
                *final(self),
                row as int,
                col as int,
                size as int,
                horizontal,
            ),
            res is Err ==> res == Err::<(), BoardError>(BoardError::PlacementExhausted)
                && *final(self) == *old(self),
    {
        if self.can_place_ship(row, col, size, horizontal) {
            self.commit_run(row, col, size, horizontal);
            Ok(())
        } else {
            Err(BoardError::PlacementExhausted)
        }
    }

    /// Randomized placement: sample anchors and orientations uniformly until
    /// one fits, with a bounded number of tries; then fall back to scanning
    /// every anchor and orientation and picking uniformly among the ones
    /// that fit. Succeeds if and only if some placement exists; on failure
    /// the board is unchanged and PlacementExhausted is reported.
    pub fn place_ship(&mut self, size: usize, rng: &mut rand::rngs::ThreadRng) -> (res: Result<
        (),
        BoardError,
    >)
        requires
            old(self).wf(),
            1 <= size,
        ensures
            final(self).wf(),
            final(self).side() == old(self).side(),
            res is Ok <==> exists_placement(*old(self), size as int),
            res is Ok ==> exists|row: int, col: int, horizontal: bool|
                placement_committed(*old(self), *final(self), row, col, size as int, horizontal),
            res is Err ==> res == Err::<(), BoardError>(BoardError::PlacementExhausted)
                && *final(self) == *old(self),
    {
        let ghost pre = *self;
        let n = self.n;
        // Rejection sampling first: a bounded number of random anchors.
        let mut attempts: usize = 0;
        while attempts < SAMPLE_TRIES
            invariant
                pre == *old(self),
                *self == pre,
                pre.wf(),
                1 <= size,
                n == self.n,
            decreases SAMPLE_TRIES - attempts,
        {
            let row = sample_below(rng, n);
            let col = sample_below(rng, n);
            let horizontal = sample_bool(rng);
            if self.can_place_ship(row, col, size, horizontal) {
                self.commit_run(row, col, size, horizontal);
                proof {
                    assert(placeable(pre, row as int, col as int, size as int, horizontal));
                    assert(exists_placement(pre, size as int));
                    assert(placement_committed(
                        pre,
                        *self,
                        row as int,
                        col as int,
                        size as int,
                        horizontal,
                    ));
                }
                return Ok(());
            }
            attempts = attempts + 1;
        }
        // Deterministic fallback: gather every anchor and orientation that
        // fits, then pick uniformly among them.
        let mut candidates: Vec<(usize, usize, bool)> = Vec::new();
        let mut o: usize = 0;
        while o < 2
            invariant
                pre == *old(self),
                *self == pre,
                pre.wf(),
                1 <= size,
                n == self.n,
                o <= 2,
                forall|k: int|
                    0 <= k < candidates@.len() ==> {
                        let t = #[trigger] candidates@[k];
                        t.0 < n && t.1 < n && placeable(
                            pre,
                            t.0 as int,
                            t.1 as int,
                            size as int,
                            t.2,
                        )
                    },
                forall|r: usize, c: usize, h: bool|
                    r < n && c < n && ((h && o >= 1) || (!h && o >= 2)) && placeable(
                        pre,
                        r as int,
                        c as int,
                        size as int,
                        h,
                    ) ==> #[trigger] candidates@.contains((r, c, h)),
            decreases 2 - o,
        {
            let horizontal = o == 0;
            let ghost done_h = (horizontal && o + 1 >= 1) || (!horizontal && o + 1 >= 2);
            let mut row: usize = 0;
            while row < n
                invariant
                    pre == *old(self),
                    *self == pre,
                    pre.wf(),
                    1 <= size,
                    n == self.n,
                    row <= n,
                    horizontal == (o == 0),
                    o < 2,
                    forall|k: int|
                        0 <= k < candidates@.len() ==> {
                            let t = #[trigger] candidates@[k];
                            t.0 < n && t.1 < n && placeable(
                                pre,
                                t.0 as int,
                                t.1 as int,
                                size as int,
                                t.2,
                            )
                        },
                    forall|r: usize, c: usize, h: bool|
                        r < n && c < n && ((h && o >= 1) || (!h && o >= 2)) && placeable(
                            pre,
                            r as int,
                            c as int,
                            size as int,
                            h,
                        ) ==> #[trigger] candidates@.contains((r, c, h)),
                    forall|r: usize, c: usize|
                        r < row && c < n && placeable(
                            pre,
                            r as int,
                            c as int,
                            size as int,
                            horizontal,
                        ) ==> #[trigger] candidates@.contains((r, c, horizontal)),
                decreases n - row,
            {
                let mut col: usize = 0;
                while col < n
                    invariant
                        pre == *old(self),
                        *self == pre,
                        pre.wf(),
                        1 <= size,
                        n == self.n,
                        row < n,
                        col <= n,
                        horizontal == (o == 0),
                        o < 2,
                        forall|k: int|
                            0 <= k < candidates@.len() ==> {
                                let t = #[trigger] candidates@[k];
                                t.0 < n && t.1 < n && placeable(
                                    pre,
                                    t.0 as int,
                                    t.1 as int,
                                    size as int,
                                    t.2,
                                )
                            },
                        forall|r: usize, c: usize, h: bool|
                            r < n && c < n && ((h && o >= 1) || (!h && o >= 2)) && placeable(
                                pre,
                                r as int,
                                c as int,
                                size as int,
                                h,
                            ) ==> #[trigger] candidates@.contains((r, c, h)),
                        forall|r: usize, c: usize|
                            r < row && c < n && placeable(
                                pre,
                                r as int,
                                c as int,
                                size as int,
                                horizontal,
                            ) ==> #[trigger] candidates@.contains((r, c, horizontal)),
                        forall|c: usize|
                            c < col && placeable(
                                pre,
                                row as int,
                                c as int,
                                size as int,
                                horizontal,
                            ) ==> #[trigger] candidates@.contains((row, c, horizontal)),
                    decreases n - col,
                {
                    if self.can_place_ship(row, col, size, horizontal) {
                        let ghost prev = candidates@;
                        candidates.push((row, col, horizontal));
                        proof {
                            assert forall|x: (usize, usize, bool)| prev.contains(
                                x,
                            ) implies #[trigger] candidates@.contains(x) by {
                                let k = choose|k: int| 0 <= k < prev.len() && prev[k] == x;
                                assert(candidates@[k] == x);
                            }
                            assert(candidates@[candidates@.len() - 1] == (row, col, horizontal));
                            assert(candidates@.contains((row, col, horizontal)));
                        }
                    }
                    col = col + 1;
                }
                row = row + 1;
            }
            o = o + 1;
        }
        if candidates.len() == 0 {
            proof {
                if exists_placement(pre, size as int) {
                    let (row, col, horizontal) = choose|row: int, col: int, horizontal: bool|
                        placeable(pre, row, col, size as int, horizontal);
                    let r = row as usize;
                    let c = col as usize;
                    assert(r < n && c < n);
                    assert(r as int == row && c as int == col);
                    assert(candidates@.contains((r, c, horizontal)));
                }
            }
            return Err(BoardError::PlacementExhausted);
        }
        let pick = sample_below(rng, candidates.len());
        let (row, col, horizontal) = candidates[pick];
        proof {
            assert(candidates@[pick as int] == (row, col, horizontal));
            assert(placeable(pre, row as int, col as int, size as int, horizontal));
        }
        self.commit_run(row, col, size, horizontal);
        proof {
            assert(exists_placement(pre, size as int));
            assert(placement_committed(pre, *self, row as int, col as int, size as int, horizontal));
        }
        Ok(())
    }
}

/// Law: a committed placement adds exactly `size` ship cells, all of them
/// inside [0, N) x [0, N), and every cell it touches was Empty before.
pub proof fn lemma_placement_adds_exactly(
    pre: Board,
    post: Board,
    row: int,
    col: int,
    size: int,
    horizontal: bool,
)
    requires
        placement_committed(pre, post, row, col, size, horizontal),
        size >= 0,
    ensures
        post.ships().len() == pre.ships().len() + size,
        forall|i: int|
            0 <= i < size ==> {
                let rc = #[trigger] run_cell(row, col, horizontal, i);
                pre.in_bounds(rc.0, rc.1) && pre.cell(rc.0, rc.1) == CellState::Empty
            },
{
}

/// Committing a run whose cells were all Empty preserves well-formedness:
/// the new ship cells are exactly the newly Occupied cells, they are fresh
/// (they were Empty, so not ship cells before) and pairwise distinct.
proof fn lemma_wf_after_commit(pre: Board, post: Board, row: int, col: int, size: int, horizontal: bool)
    requires
        pre.wf(),
        1 <= size,
        placeable(pre, row, col, size, horizontal),
        post.dims_ok(),
        post.side() == pre.side(),
        post.ships() == pre.ships() + run_seq(row, col, size, horizontal),
        forall|i: int|
            0 <= i < size ==> {
                let rc = #[trigger] run_cell(row, col, horizontal, i);
                post.cell(rc.0, rc.1) == CellState::Occupied
            },
        forall|r: int, c: int|
            pre.in_bounds(r, c) && !in_run(row, col, size, horizontal, r, c)
                ==> #[trigger] post.cell(r, c) == pre.cell(r, c),
    ensures
        post.wf(),
{
    let run = run_seq(row, col, size, horizontal);
    // Run cells are in bounds.
    assert forall|i: int| 0 <= i < post.ships().len() implies {
        let rc = #[trigger] post.ships()[i];
        post.in_bounds(rc.0 as int, rc.1 as int)
    } by {
        if i < pre.ships().len() {
            assert(post.ships()[i] == pre.ships()[i]);
        } else {
            let j = i - pre.ships().len();
            assert(post.ships()[i] == run[j]);
            assert(run_cell(row, col, horizontal, j).0 < post.side());
        }
    }
    // A run cell was Empty before, so it was not a pre ship cell.
    assert forall|j: int| 0 <= j < size implies !pre.ships().contains(#[trigger] run[j]) by {
        let rc = run_cell(row, col, horizontal, j);
        assert(pre.cell(rc.0, rc.1) == CellState::Empty);
        if pre.ships().contains(run[j]) {
            assert(pre.is_ship_cell(rc.0, rc.1));
            assert(pre.cell(rc.0, rc.1) == CellState::Occupied || pre.cell(rc.0, rc.1)
                == CellState::Hit);
        }
    }
    // Run cells are pairwise distinct.
    assert forall|j: int, k: int| 0 <= j < k < size implies run[j] != run[k] by {
        if horizontal {
            assert(run[j].1 == col + j && run[k].1 == col + k);
        } else {
            assert(run[j].0 == row + j && run[k].0 == row + k);
        }
    }
    assert(post.ships().no_duplicates()) by {
        assert forall|i: int, j: int|
            0 <= i < post.ships().len() && 0 <= j < post.ships().len() && i != j implies post.ships()[i]
            != post.ships()[j] by {
            let np = pre.ships().len() as int;
            if i < np && j < np {
            } else if i >= np && j >= np {
                assert(post.ships()[i] == run[i - np] && post.ships()[j] == run[j - np]);
            } else if i < np && j >= np {
                assert(!pre.ships().contains(run[j - np]));
                assert(pre.ships()[i] == post.ships()[i]);
                if post.ships()[i] == post.ships()[j] {
                    assert(pre.ships().contains(run[j - np]));
                }
            } else {
                assert(!pre.ships().contains(run[i - np]));
                assert(pre.ships()[j] == post.ships()[j]);
                if post.ships()[i] == post.ships()[j] {
                    assert(pre.ships().contains(run[i - np]));
                }
            }
        }
    }
    // The occupied-or-hit iff ship-cell invariant.
    assert forall|r: int, c: int| post.in_bounds(r, c) implies ((#[trigger] post.cell(r, c)
        == CellState::Occupied || post.cell(r, c) == CellState::Hit) <==> post.is_ship_cell(
        r,
        c,
    )) by {
        if in_run(row, col, size, horizontal, r, c) {
            let j = if horizontal {
                c - col
            } else {
                r - row
            };
            assert(run_cell(row, col, horizontal, j) == (r, c));
            assert(post.cell(r, c) == CellState::Occupied);
            assert(run[j] == (r as usize, c as usize));
            assert(post.ships()[pre.ships().len() + j] == run[j]);
            assert(post.is_ship_cell(r, c));
        } else {
            assert(post.cell(r, c) == pre.cell(r, c));
            // (r, c) is not among the appended run cells.
            assert forall|j: int| 0 <= j < size implies run[j] != (
            r as usize,
            c as usize,
            ) by {
                let rc = run_cell(row, col, horizontal, j);
                assert(rc.0 != r || rc.1 != c);
            }
            if post.is_ship_cell(r, c) {
                let i = choose|i: int|
                    0 <= i < post.ships().len() && post.ships()[i] == (r as usize, c as usize);
                if i < pre.ships().len() {
                    assert(pre.ships()[i] == (r as usize, c as usize));
                    assert(pre.is_ship_cell(r, c));
                } else {
                    assert(run[i - pre.ships().len()] == (r as usize, c as usize));
                }
            }
            if pre.is_ship_cell(r, c) {
                let i = choose|i: int|
                    0 <= i < pre.ships().len() && pre.ships()[i] == (r as usize, c as usize);
                assert(post.ships()[i] == (r as usize, c as usize));
            }
        }
    }
}

} // verus!
