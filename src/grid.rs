//! A 9x9 board of cell values.
use vstd::prelude::*;
use crate::rules::cell_index;

verus! {

/// The external form of a board: nine rows of nine cell values.
#[derive(Clone, Copy, Debug)]
pub struct ArrayGrid(pub [[u8; 9]; 9]);

/// The board's cells as a row-major sequence of 81 values.
pub open spec fn flatten(raw: [[u8; 9]; 9]) -> Seq<u8> {
    Seq::new(81, |i: int| raw[i / 9][i % 9])
}

/// A row-major sequence of 81 values that agrees with `raw` cell by cell is
/// `flatten(raw)`.
pub proof fn lemma_flatten_of_cells(s: Seq<u8>, raw: [[u8; 9]; 9])
    requires
        s.len() == 81,
        forall|x: int, y: int| 0 <= x < 9 && 0 <= y < 9 ==> s[cell_index(x, y)] == raw[y][x],
    ensures
        s == flatten(raw),
{
    assert forall|i: int| 0 <= i < 81 implies s[i] == flatten(raw)[i] by {
        assert(cell_index(i % 9, i / 9) == i);
    }
    assert(s =~= flatten(raw));
}

/// One 9x9 board. Cells hold `0` (empty) or a digit; the board itself does
/// not enforce the puzzle's rules.
#[derive(Clone, Copy)]
pub struct Grid {
    cells: [u8; 81],
}

impl View for Grid {
    type V = Seq<u8>;

    closed spec fn view(&self) -> Seq<u8> {
        self.cells@
    }
}

impl Grid {
    /// An empty board: every cell is `0`.
    pub fn new() -> (r: Grid)
        ensures
            r@.len() == 81,
            forall|i: int| 0 <= i < 81 ==> r@[i] == 0,
    {
        Grid { cells: [0u8; 81] }
    }

    pub(crate) fn from_cells(cells: [u8; 81]) -> (r: Grid)
        ensures
            r@ == cells@,
    {
        Grid { cells }
    }

    pub(crate) fn into_cells(self) -> (r: [u8; 81])
        ensures
            r@ == self@,
    {
        self.cells
    }

    pub proof fn lemma_len(&self)
        ensures
            self@.len() == 81,
    {
    }

    /// The value at column `x`, row `y`. Coordinates outside the board are a
    /// caller error, ruled out by the precondition.
    pub fn get(&self, x: usize, y: usize) -> (r: u8)
        requires
            x < 9,
            y < 9,
        ensures
            r == self@[cell_index(x as int, y as int)],
    {
        self.cells[9 * y + x]
    }

    /// Overwrite the cell at column `x`, row `y`, without any rule check.
    pub fn set(&mut self, x: usize, y: usize, value: u8)
        requires
            x < 9,
            y < 9,
        ensures
            final(self)@ == old(self)@.update(cell_index(x as int, y as int), value),
    {
        self.cells[9 * y + x] = value;
    }

    /// The board as nine rows of nine values.
    pub fn to_array(&self) -> (r: [[u8; 9]; 9])
        ensures
            forall|x: int, y: int| 0 <= x < 9 && 0 <= y < 9 ==> r[y][x] == self@[cell_index(x, y)],
    {
        let mut r = [[0u8; 9]; 9];
        let mut y: usize = 0;
        while y < 9
            invariant
                y <= 9,
                self@.len() == 81,
                forall|x: int, y2: int| 0 <= x < 9 && 0 <= y2 < y ==> r[y2][x] == self@[cell_index(x, y2)],
            decreases 9 - y,
        {
            let mut row = [0u8; 9];
            let mut x: usize = 0;
            while x < 9
                invariant
                    x <= 9,
                    y < 9,
                    self@.len() == 81,
                    forall|x2: int| 0 <= x2 < x ==> row[x2] == self@[cell_index(x2, y as int)],
                decreases 9 - x,
            {
                row[x] = self.cells[9 * y + x];
                x += 1;
            }
            r[y] = row;
            y += 1;
        }
        r
    }
}

} // verus!
