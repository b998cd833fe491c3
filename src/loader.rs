//! Loading a board from its external row form.
use vstd::prelude::*;
use crate::grid::Grid;
use crate::rules::cell_index;

verus! {

/// Set every cell of `grid` from `raw` (row `y`, column `x` of `raw` goes
/// to column `x`, row `y` of the board). Values are taken as they are: a
/// board that breaks the rules only shows up as unsolvable.
pub fn fill_grid(grid: Grid, raw: [[u8; 9]; 9]) -> (r: Grid)
    ensures
        r@.len() == 81,
        forall|x: int, y: int| 0 <= x < 9 && 0 <= y < 9 ==> r@[cell_index(x, y)] == raw[y][x],
{
    let mut grid = grid;
    proof {
        grid.lemma_len();
    }
    let mut y: usize = 0;
    while y < 9
        invariant
            y <= 9,
            grid@.len() == 81,
            forall|x2: int, y2: int| 0 <= x2 < 9 && 0 <= y2 < y ==> grid@[cell_index(x2, y2)] == raw[y2][x2],
        decreases 9 - y,
    {
        let mut x: usize = 0;
        while x < 9
            invariant
                x <= 9,
                y < 9,
                grid@.len() == 81,
                forall|x2: int, y2: int|
                    0 <= x2 < 9 && 0 <= y2 < y ==> grid@[cell_index(x2, y2)] == raw[y2][x2],
                forall|x2: int| 0 <= x2 < x ==> grid@[cell_index(x2, y as int)] == raw[y as int][x2],
            decreases 9 - x,
        {
            grid.set(x, y, raw[y][x]);
            x += 1;
        }
        y += 1;
    }
    grid
}

} // verus!
