use sudoku_native::{fill_grid, Grid};

#[test]
fn new_board_is_empty() {
    let grid = Grid::new();
    for y in 0..9 {
        for x in 0..9 {
            assert_eq!(grid.get(x, y), 0);
        }
    }
    assert_eq!(grid.to_array(), [[0u8; 9]; 9]);
}

#[test]
fn set_then_get() {
    let mut grid = Grid::new();
    grid.set(3, 4, 7);
    assert_eq!(grid.get(3, 4), 7);
    assert_eq!(grid.get(4, 3), 0);
    assert_eq!(grid.to_array()[4][3], 7);
    grid.set(3, 4, 0);
    assert_eq!(grid.get(3, 4), 0);
}

#[test]
fn copy_is_independent() {
    let mut grid = Grid::new();
    grid.set(0, 0, 1);
    let copy = grid.clone();
    grid.set(0, 0, 2);
    assert_eq!(copy.get(0, 0), 1);
    assert_eq!(grid.get(0, 0), 2);
}

#[test]
fn load_then_read_back_gives_the_rows() {
    let mut raw = [[0u8; 9]; 9];
    for y in 0..9 {
        for x in 0..9 {
            raw[y][x] = ((x + 2 * y) % 10) as u8;
        }
    }
    let grid = fill_grid(Grid::new(), raw);
    assert_eq!(grid.get(2, 1), 4);
    assert_eq!(grid.get(8, 7), 2);
    assert_eq!(grid.to_array(), raw);
}

#[test]
fn load_overwrites_every_cell() {
    let mut grid = Grid::new();
    for y in 0..9 {
        for x in 0..9 {
            grid.set(x, y, 9);
        }
    }
    let raw = [[0u8; 9]; 9];
    assert_eq!(fill_grid(grid, raw).to_array(), raw);
}
