//! Depth-first backtracking over boards: cells are visited in row-major order and the
//! digits 1–9 are tried in ascending order, so the first solution found is the least
//! one in lexicographic order.

use vstd::prelude::*;
use crate::board::Board;
use crate::grid::{consistent, empty_grid, placeable, same_house};
use crate::text::{grid_text, lemma_grid_round_trip, parses, text_grid};

verus! {

/// Grid `t` completes grid `g` from cell `start` on: it is consistent, it keeps every
/// cell before `start` and every digit of `g`, and it has a digit in every cell from
/// `start` on.
pub open spec fn completes(g: Seq<u16>, start: int, t: Seq<u16>) -> bool {
    &&& consistent(t)
    &&& forall|i: int| 0 <= i < 81 && (i < start || g[i] != 0) ==> #[trigger] t[i] == g[i]
    &&& forall|i: int| start <= i < 81 ==> #[trigger] t[i] != 0
}

/// The two grids hold the same values in all cells before `k`.
pub open spec fn agree_before(a: Seq<u16>, b: Seq<u16>, k: int) -> bool {
    forall|i: int| 0 <= i < k ==> #[trigger] a[i] == b[i]
}

/// Grid `a` comes strictly before grid `b` in lexicographic order: at the first cell
/// where they differ, `a` holds the smaller digit.
pub open spec fn precedes(a: Seq<u16>, b: Seq<u16>) -> bool {
    exists|k: int| 0 <= k < 81 && #[trigger] agree_before(a, b, k) && a[k] < b[k]
}

/// Grid `t` is the completion of `g` from `start` that comes before every other one.
pub open spec fn first_completion(g: Seq<u16>, start: int, t: Seq<u16>) -> bool {
    &&& completes(g, start, t)
    &&& forall|u: Seq<u16>| #[trigger] completes(g, start, u) ==> u == t || precedes(t, u)
}

/// Some grid completes `g` from cell `start` on.
pub open spec fn solvable(g: Seq<u16>, start: int) -> bool {
    exists|t: Seq<u16>| completes(g, start, t)
}

/// Every completion of `g` from `start` holds digit `d` or a greater one at `start`:
/// the smaller digits lead nowhere.
pub open spec fn candidates_below_fail(g: Seq<u16>, start: int, d: int) -> bool {
    forall|t: Seq<u16>| #[trigger] completes(g, start, t) ==> t[start] >= d
}

/// Past the last cell nothing is left to fill: a consistent grid is its own first
/// completion, and its only one.
proof fn lemma_search_from_the_end(g: Seq<u16>)
    requires
        consistent(g),
    ensures
        first_completion(g, 81, g),
{
    assert forall|u: Seq<u16>| #[trigger] completes(g, 81, u) implies u == g by {
        assert(u =~= g);
    }
}

/// A cell that already holds a digit is passed over: the completions from it are the
/// completions from the next cell.
proof fn lemma_clue_step(g: Seq<u16>, start: int, t: Seq<u16>)
    requires
        consistent(g),
        0 <= start < 81,
        g[start] != 0,
    ensures
        completes(g, start, t) <==> completes(g, start + 1, t),
{
    if completes(g, start, t) {
        assert(t[start] == g[start]);
    }
    if completes(g, start + 1, t) {
        assert(t[start] == g[start]);
    }
}

/// The first completion from the cell after a clue is the first completion from the
/// clue.
proof fn lemma_first_past_clue(g: Seq<u16>, start: int, t: Seq<u16>)
    requires
        consistent(g),
        0 <= start < 81,
        g[start] != 0,
        first_completion(g, start + 1, t),
    ensures
        first_completion(g, start, t),
{
    lemma_clue_step(g, start, t);
    assert forall|u: Seq<u16>| #[trigger] completes(g, start, u) implies u == t || precedes(
        t,
        u,
    ) by {
        lemma_clue_step(g, start, u);
    }
}

/// Where nothing completes the grid from the cell after a clue, nothing completes it
/// from the clue.
proof fn lemma_unsolvable_past_clue(g: Seq<u16>, start: int)
    requires
        consistent(g),
        0 <= start < 81,
        g[start] != 0,
        !solvable(g, start + 1),
    ensures
        !solvable(g, start),
{
    assert forall|t: Seq<u16>| !completes(g, start, t) by {
        lemma_clue_step(g, start, t);
    }
}

/// The completions of the grid with `d` written into the empty cell `start` are the
/// completions of the grid itself that hold `d` there.
proof fn lemma_candidate_step(g: Seq<u16>, start: int, d: u16, t: Seq<u16>)
    requires
        consistent(g),
        0 <= start < 81,
        g[start] == 0,
        1 <= d <= 9,
    ensures
        completes(g.update(start, d), start + 1, t) <==> completes(g, start, t) && t[start] == d,
{
    let h = g.update(start, d);
    if completes(h, start + 1, t) {
        assert(t[start] == h[start]);
        assert forall|i: int| 0 <= i < 81 && (i < start || g[i] != 0) implies #[trigger] t[i]
            == g[i] by {
            assert(t[i] == h[i]);
        }
    }
    if completes(g, start, t) && t[start] == d {
        assert forall|i: int| 0 <= i < 81 && (i < start + 1 || h[i] != 0) implies #[trigger] t[i]
            == h[i] by {
            if i != start {
                assert(t[i] == g[i]);
            }
        }
    }
}

/// When the smaller digits lead nowhere, the first completion with candidate `d` in
/// the empty cell `start` is the first completion of the grid.
proof fn lemma_first_with_candidate(g: Seq<u16>, start: int, d: u16, t: Seq<u16>)
    requires
        consistent(g),
        0 <= start < 81,
        g[start] == 0,
        1 <= d <= 9,
        candidates_below_fail(g, start, d as int),
        first_completion(g.update(start, d), start + 1, t),
    ensures
        first_completion(g, start, t),
{
    lemma_candidate_step(g, start, d, t);
    assert forall|u: Seq<u16>| #[trigger] completes(g, start, u) implies u == t || precedes(
        t,
        u,
    ) by {
        lemma_candidate_step(g, start, d, u);
        if u[start] != d {
            assert forall|i: int| 0 <= i < start implies #[trigger] t[i] == u[i] by {
                assert(u[i] == g[i]);
            }
            assert(agree_before(t, u, start));
        }
    }
}

/// A candidate with which nothing completes the grid leads nowhere.
proof fn lemma_candidate_dead_end(g: Seq<u16>, start: int, d: u16)
    requires
        consistent(g),
        0 <= start < 81,
        g[start] == 0,
        1 <= d <= 9,
        candidates_below_fail(g, start, d as int),
        !solvable(g.update(start, d), start + 1),
    ensures
        candidates_below_fail(g, start, d + 1),
{
    assert forall|t: Seq<u16>| #[trigger] completes(g, start, t) implies t[start] >= d + 1 by {
        lemma_candidate_step(g, start, d, t);
    }
}

/// A candidate that cannot be placed leads nowhere.
proof fn lemma_candidate_blocked(g: Seq<u16>, start: int, d: u16)
    requires
        g.len() == 81,
        0 <= start < 81,
        g[start] == 0,
        1 <= d <= 9,
        candidates_below_fail(g, start, d as int),
        !placeable(g, start, d),
    ensures
        candidates_below_fail(g, start, d + 1),
{
    let q = choose|q: int| 0 <= q < 81 && same_house(start, q) && g[q] == d;
    assert forall|t: Seq<u16>| #[trigger] completes(g, start, t) implies t[start] >= d + 1 by {
        assert(t[q] == g[q]);
        assert(same_house(q, start));
    }
}

/// A grid has at most one first completion.
pub proof fn lemma_first_completion_unique(g: Seq<u16>, start: int, t1: Seq<u16>, t2: Seq<u16>)
    requires
        first_completion(g, start, t1),
        first_completion(g, start, t2),
    ensures
        t1 == t2,
{
    if t1 != t2 {
        assert(precedes(t1, t2));
        assert(precedes(t2, t1));
        let k1 = choose|k: int| 0 <= k < 81 && #[trigger] agree_before(t1, t2, k) && t1[k] < t2[k];
        let k2 = choose|k: int| 0 <= k < 81 && #[trigger] agree_before(t2, t1, k) && t2[k] < t1[k];
        if k1 < k2 {
            assert(t2[k1] == t1[k1]);
        } else if k2 < k1 {
            assert(t1[k2] == t2[k2]);
        }
    }
}

/// A grid that the search returns can be written out and read back: its text describes
/// a board, and that board holds the same cells.
pub proof fn lemma_solution_reads_back(g: Seq<u16>, start: int, t: Seq<u16>)
    requires
        first_completion(g, start, t),
    ensures
        parses(grid_text(t)),
        text_grid(grid_text(t)) == t,
{
    lemma_grid_round_trip(t);
}

/// A filled grid built by shifting the digits 1–9 from row to row: by three cells
/// within a band of three rows, and by one cell more from band to band.
pub open spec fn shifted_grid() -> Seq<u16> {
    Seq::new(81, |i: int| (((i / 9) % 3 * 3 + (i / 9) / 3 + i % 9) % 9 + 1) as u16)
}

/// The empty grid has a completion, so the search on the empty board finds a
/// solution: a grid with a digit in every cell and no digit twice in a row, a column or
/// a block.
pub proof fn lemma_empty_grid_solvable()
    ensures
        completes(empty_grid(), 0, shifted_grid()),
        solvable(empty_grid(), 0),
{
    let t = shifted_grid();
    assert forall|p: int, q: int|
        0 <= p < 81 && 0 <= q < 81 && p != q && same_house(p, q) && #[trigger] t[p] != 0
        implies t[p] != #[trigger] t[q] by {
    }
    assert(completes(empty_grid(), 0, t));
}

/// Completes as many empty cells as it takes to fill the board from cell `start_idx`
/// on, leaving every cell before it and every digit already placed as they are.
///
/// Returns the completion that comes first in lexicographic order, which is the one
/// that the search meets first, or `None` when the board has no completion.
pub fn solve(b: Board, start_idx: usize) -> (found: Option<Board>)
    requires
        start_idx <= 81,
    ensures
        match found {
            Some(solution) => first_completion(b@, start_idx as int, solution@) && solution.wf(),
            None => !solvable(b@, start_idx as int),
        },
    decreases 81 - start_idx,
{
    proof {
        use_type_invariant(&b);
        b.lemma_consistent();
    }
    if start_idx == 81 {
        proof {
            lemma_search_from_the_end(b@);
        }
        return Some(b);
    }
    if b.is_occupied(start_idx) {
        let found = solve(b, start_idx + 1);
        proof {
            match found {
                Some(solution) => lemma_first_past_clue(b@, start_idx as int, solution@),
                None => lemma_unsolvable_past_clue(b@, start_idx as int),
            }
        }
        return found;
    }
    let mut nr: u16 = 1;
    while nr <= 9
        invariant
            1 <= nr <= 10,
            start_idx < 81,
            consistent(b@),
            b@[start_idx as int] == 0,
            candidates_below_fail(b@, start_idx as int, nr as int),
        decreases 10 - nr,
    {
        if b.is_valid(start_idx, nr) {
            let br = b.set(start_idx, nr);
            if let Some(solution) = solve(br, start_idx + 1) {
                proof {
                    lemma_first_with_candidate(b@, start_idx as int, nr, solution@);
                }
                return Some(solution);
            }
            proof {
                lemma_candidate_dead_end(b@, start_idx as int, nr);
            }
        } else {
            proof {
                lemma_candidate_blocked(b@, start_idx as int, nr);
            }
        }
        nr += 1;
    }
    None
}

} // verus!
