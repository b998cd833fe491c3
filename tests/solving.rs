use sudoku_native::{fill_grid, solve_grid, ArrayGrid, Grid};

const PUZZLE: [[u8; 9]; 9] = [
    [5, 3, 0, 0, 7, 0, 0, 0, 0],
    [6, 0, 0, 1, 9, 5, 0, 0, 0],
    [0, 9, 8, 0, 0, 0, 0, 6, 0],
    [8, 0, 0, 0, 6, 0, 0, 0, 3],
    [4, 0, 0, 8, 0, 3, 0, 0, 1],
    [7, 0, 0, 0, 2, 0, 0, 0, 6],
    [0, 6, 0, 0, 0, 0, 2, 8, 0],
    [0, 0, 0, 4, 1, 9, 0, 0, 5],
    [0, 0, 0, 0, 8, 0, 0, 7, 9],
];

const SOLUTION: [[u8; 9]; 9] = [
    [5, 3, 4, 6, 7, 8, 9, 1, 2],
    [6, 7, 2, 1, 9, 5, 3, 4, 8],
    [1, 9, 8, 3, 4, 2, 5, 6, 7],
    [8, 5, 9, 7, 6, 1, 4, 2, 3],
    [4, 2, 6, 8, 5, 3, 7, 9, 1],
    [7, 1, 3, 9, 2, 4, 8, 5, 6],
    [9, 6, 1, 5, 3, 7, 2, 8, 4],
    [2, 8, 7, 4, 1, 9, 6, 3, 5],
    [3, 4, 5, 2, 8, 6, 1, 7, 9],
];

fn each_unit_holds_each_digit_once(rows: &[[u8; 9]; 9]) -> bool {
    for unit in 0..27 {
        let mut seen = [0u32; 10];
        for t in 0..9 {
            let (x, y) = if unit < 9 {
                (t, unit)
            } else if unit < 18 {
                (unit - 9, t)
            } else {
                let b = unit - 18;
                (3 * (b % 3) + t % 3, 3 * (b / 3) + t / 3)
            };
            let v = rows[y][x] as usize;
            if v == 0 || v > 9 {
                return false;
            }
            seen[v] += 1;
        }
        if (1..10).any(|d| seen[d] != 1) {
            return false;
        }
    }
    true
}

#[test]
fn unique_puzzle_gives_its_solution() {
    let (grid, ok) = solve_grid(fill_grid(Grid::new(), PUZZLE));
    assert!(ok);
    assert_eq!(grid.to_array(), SOLUTION);
}

#[test]
fn solved_board_obeys_every_unit() {
    let (grid, ok) = solve_grid(fill_grid(Grid::new(), PUZZLE));
    assert!(ok);
    assert!(each_unit_holds_each_digit_once(&grid.to_array()));
}

#[test]
fn empty_board_is_solved() {
    let (grid, ok) = solve_grid(Grid::new());
    assert!(ok);
    let rows = grid.to_array();
    assert!(each_unit_holds_each_digit_once(&rows));
    assert_eq!(rows[0], [1, 2, 3, 4, 5, 6, 7, 8, 9]);
}

#[test]
fn solving_twice_gives_the_same_board() {
    let mut puzzle = [[0u8; 9]; 9];
    puzzle[0][0] = 7;
    puzzle[4][4] = 3;
    let (a, ok_a) = solve_grid(fill_grid(Grid::new(), puzzle));
    let (b, ok_b) = solve_grid(fill_grid(Grid::new(), puzzle));
    assert_eq!(ok_a, ok_b);
    assert_eq!(a.to_array(), b.to_array());
}

#[test]
fn repeated_digit_in_a_row_is_unsolvable() {
    let mut puzzle = [[0u8; 9]; 9];
    puzzle[0][0] = 5;
    puzzle[0][1] = 5;
    let (grid, ok) = solve_grid(fill_grid(Grid::new(), puzzle));
    assert!(!ok);
    assert_eq!(grid.to_array(), puzzle);
}

#[test]
fn dead_end_restores_the_input() {
    let mut puzzle = [[0u8; 9]; 9];
    for x in 1..9 {
        puzzle[0][x] = x as u8;
    }
    puzzle[1][0] = 9;
    let (grid, ok) = solve_grid(fill_grid(Grid::new(), puzzle));
    assert!(!ok);
    assert_eq!(grid.to_array(), puzzle);
}

#[test]
fn complete_but_invalid_board_is_rejected() {
    let mut rows = SOLUTION;
    rows[0][0] = 3;
    let (_, ok) = solve_grid(fill_grid(Grid::new(), rows));
    assert!(!ok);
}

#[test]
fn value_above_nine_is_rejected() {
    let mut puzzle = PUZZLE;
    puzzle[8][0] = 12;
    let (grid, ok) = solve_grid(fill_grid(Grid::new(), puzzle));
    assert!(!ok);
    assert_eq!(grid.get(0, 8), 12);
}

#[test]
fn complete_valid_board_is_returned_as_is() {
    let (grid, ok) = solve_grid(fill_grid(Grid::new(), SOLUTION));
    assert!(ok);
    assert_eq!(ArrayGrid(grid.to_array()).0, SOLUTION);
}
