//! Solving many boards, one result per board in the order given.
use vstd::prelude::*;
use crate::grid::{flatten, lemma_flatten_of_cells, ArrayGrid, Grid};
use crate::loader::fill_grid;
use crate::rules::{is_first_completion, solvable};
use crate::solver::solve_grid;

verus! {

/// The all-zero board that stands for "no solution" in batch output.
pub open spec fn is_sentinel(raw: [[u8; 9]; 9]) -> bool {
    forall|x: int, y: int| 0 <= x < 9 && 0 <= y < 9 ==> raw[y][x] == 0
}

/// What the batch output holds for `puzzle`: its first completion when it
/// has one, else the all-zero board.
pub open spec fn batch_answer(puzzle: [[u8; 9]; 9], out: [[u8; 9]; 9]) -> bool {
    if solvable(flatten(puzzle)) {
        is_first_completion(flatten(puzzle), flatten(out))
    } else {
        is_sentinel(out)
    }
}

/// Load one puzzle, solve it, and give back the solved rows, or the all-zero
/// board when it has no solution.
pub fn handle_solving(grid_to_solve: ArrayGrid) -> (r: ArrayGrid)
    ensures
        batch_answer(grid_to_solve.0, r.0),
{
    let grid = fill_grid(Grid::new(), grid_to_solve.0);
    proof {
        lemma_flatten_of_cells(grid@, grid_to_solve.0);
    }
    let (grid, success) = solve_grid(grid);
    if success {
        let rows = grid.to_array();
        proof {
            lemma_flatten_of_cells(grid@, rows);
        }
        ArrayGrid(rows)
    } else {
        ArrayGrid([[0u8; 9]; 9])
    }
}

/// Solve every puzzle; the `i`-th result belongs to the `i`-th puzzle.
pub fn solve_batch(puzzles: &Vec<ArrayGrid>) -> (r: Vec<ArrayGrid>)
    ensures
        r@.len() == puzzles@.len(),
        forall|i: int| 0 <= i < puzzles@.len() ==> batch_answer(puzzles@[i].0, #[trigger] r@[i].0),
{
    let mut results: Vec<ArrayGrid> = Vec::with_capacity(puzzles.len());
    let mut i: usize = 0;
    while i < puzzles.len()
        invariant
            i <= puzzles@.len(),
            results@.len() == i,
            forall|m: int| 0 <= m < i ==> batch_answer(puzzles@[m].0, #[trigger] results@[m].0),
        decreases puzzles@.len() - i,
    {
        results.push(handle_solving(puzzles[i]));
        i += 1;
    }
    results
}

/// Put together the outcomes of puzzles solved separately, by their index.
/// A unit of work that produced nothing (`None`) is given the all-zero
/// board, so every later result keeps its index.
pub fn collect_results(outcomes: Vec<Option<ArrayGrid>>) -> (r: Vec<ArrayGrid>)
    ensures
        r@.len() == outcomes@.len(),
        forall|i: int|
            0 <= i < outcomes@.len() ==> match #[trigger] outcomes@[i] {
                Some(g) => r@[i] == g,
                None => is_sentinel(r@[i].0),
            },
{
    let mut results: Vec<ArrayGrid> = Vec::with_capacity(outcomes.len());
    let mut i: usize = 0;
    while i < outcomes.len()
        invariant
            i <= outcomes@.len(),
            results@.len() == i,
            forall|m: int|
                0 <= m < i ==> match #[trigger] outcomes@[m] {
                    Some(g) => results@[m] == g,
                    None => is_sentinel(results@[m].0),
                },
        decreases outcomes@.len() - i,
    {
        let next = match outcomes[i] {
            Some(g) => g,
            None => ArrayGrid([[0u8; 9]; 9]),
        };
        results.push(next);
        i += 1;
    }
    results
}

} // verus!
