use std::time::Duration;
use sudoku_native::{
    cell_value_from_input, digit_of_trimmed, ArrayGrid, BatchStatus, Effect, SudokuGrid,
    SudokuMessage,
};

fn edit(state: &mut SudokuGrid, x: usize, y: usize, text: &str) -> Effect {
    state.update(SudokuMessage::InputChanged { x, y, value: text.to_string() })
}

#[test]
fn typed_digit_then_cleared() {
    let mut state = SudokuGrid::new();
    assert!(matches!(edit(&mut state, 3, 4, "7"), Effect::Idle));
    assert_eq!(state.value.get(3, 4), 7);
    edit(&mut state, 3, 4, "");
    assert_eq!(state.value.get(3, 4), 0);
}

#[test]
fn typed_text_parsing() {
    assert_eq!(cell_value_from_input(" 5 "), 5);
    assert_eq!(cell_value_from_input("\t9\n"), 9);
    assert_eq!(cell_value_from_input("0"), 0);
    assert_eq!(cell_value_from_input("12"), 0);
    assert_eq!(cell_value_from_input("a"), 0);
    assert_eq!(cell_value_from_input("   "), 0);
    assert_eq!(cell_value_from_input("\u{0663}"), 0);
    assert_eq!(digit_of_trimmed("4"), 4);
    assert_eq!(digit_of_trimmed(" 4"), 0);
}

#[test]
fn solve_success_replaces_board() {
    let mut state = SudokuGrid::new();
    edit(&mut state, 0, 0, "9");
    assert!(matches!(state.update(SudokuMessage::Solve), Effect::Idle));
    assert!(state.error.is_none());
    assert_eq!(state.value.get(0, 0), 9);
    for y in 0..9 {
        for x in 0..9 {
            assert_ne!(state.value.get(x, y), 0);
        }
    }
}

#[test]
fn solve_failure_keeps_board_and_reports() {
    let mut state = SudokuGrid::new();
    edit(&mut state, 0, 0, "5");
    edit(&mut state, 1, 0, "5");
    state.update(SudokuMessage::Solve);
    assert_eq!(state.error.as_deref(), Some("The grid is not solvable"));
    assert_eq!(state.value.get(0, 0), 5);
    assert_eq!(state.value.get(1, 0), 5);
    assert_eq!(state.value.get(2, 0), 0);
    edit(&mut state, 2, 0, "1");
    assert!(state.error.is_none());
}

#[test]
fn reset_empties_board() {
    let mut state = SudokuGrid::new();
    edit(&mut state, 8, 8, "3");
    state.update(SudokuMessage::Reset);
    assert_eq!(state.value.get(8, 8), 0);
}

#[test]
fn batch_messages() {
    let mut state = SudokuGrid::new();
    assert!(matches!(state.update(SudokuMessage::LoadJson), Effect::PickAndSolveBatch));
    assert!(matches!(state.json_result, Some(BatchStatus::Solving)));
    let grids = vec![ArrayGrid([[0u8; 9]; 9]), ArrayGrid([[1u8; 9]; 9])];
    let effect = state.update(SudokuMessage::JsonFinished {
        solved_grids: grids,
        duration: Duration::from_millis(30),
    });
    match effect {
        Effect::SaveResults { solved_grids } => {
            assert_eq!(solved_grids.len(), 2);
            assert_eq!(solved_grids[1].0, [[1u8; 9]; 9]);
        }
        _ => panic!("expected results to save"),
    }
    match state.json_result {
        Some(BatchStatus::Finished { count, duration }) => {
            assert_eq!(count, 2);
            assert_eq!(duration, Duration::from_millis(30));
        }
        _ => panic!("expected a finished batch"),
    }
    state.update(SudokuMessage::JsonError { error: "No file selected".to_string() });
    assert_eq!(state.error.as_deref(), Some("No file selected"));
}
