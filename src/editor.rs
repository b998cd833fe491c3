//! The interactive editor's state and its transitions. Each message from the
//! user interface moves the state on and names the outside work, if any, that
//! the caller must then perform.
use vstd::prelude::*;
use vstd::string::StringExecFns;
use vstd::string::StrSliceExecFns;
use std::time::Duration;
use crate::grid::{ArrayGrid, Grid};
use crate::rules::{cell_index, solved_as};
use crate::solver::solve_grid;

verus! {

/// What `str::trim` gives for a string.
pub uninterp spec fn trim_of(s: Seq<char>) -> Seq<char>;

/// Relies on `str::trim`: the result depends on the characters alone, and
/// an empty string stays empty.
#[verifier::external_body]
fn trimmed(s: &str) -> (r: &str)
    ensures
        r@ == trim_of(s@),
        s@.len() == 0 ==> r@.len() == 0,
{
    s.trim()
}

/// The cell value that already trimmed text stands for: a single decimal
/// digit gives its value, anything else gives `0` (empty).
pub open spec fn digit_value(t: Seq<char>) -> u8 {
    if t.len() == 1 && 48 <= (t[0] as u32) <= 57 {
        ((t[0] as u32) - 48) as u8
    } else {
        0
    }
}

/// The value of already trimmed text typed into a cell.
pub fn digit_of_trimmed(t: &str) -> (r: u8)
    ensures
        r == digit_value(t@),
        r <= 9,
{
    if t.unicode_len() == 1 {
        let code = t.get_char(0) as u32;
        if 48 <= code && code <= 57 {
            return (code - 48) as u8;
        }
    }
    0
}

/// The value of text typed into a cell, after surrounding whitespace is
/// removed.
pub fn cell_value_from_input(value: &str) -> (r: u8)
    ensures
        r == digit_value(trim_of(value@)),
        r <= 9,
{
    digit_of_trimmed(trimmed(value))
}

/// The progress of a batch run, as shown to the user.
pub enum BatchStatus {
    Solving,
    Finished { count: usize, duration: Duration },
}

/// Outside work that the caller performs after a transition.
pub enum Effect {
    Idle,
    /// Ask for a file of puzzles, solve them all, and report back with
    /// `JsonFinished` or `JsonError`.
    PickAndSolveBatch,
    /// Offer to save these results.
    SaveResults { solved_grids: Vec<ArrayGrid> },
}

pub enum SudokuMessage {
    InputChanged { x: usize, y: usize, value: String },
    Solve,
    Reset,
    LoadJson,
    JsonFinished { solved_grids: Vec<ArrayGrid>, duration: Duration },
    JsonError { error: String },
}

/// The editor's state: the board being edited, the last error, and the state
/// of the last batch run.
pub struct SudokuGrid {
    pub value: Grid,
    pub error: Option<String>,
    pub json_result: Option<BatchStatus>,
}

impl SudokuGrid {
    pub fn new() -> (r: SudokuGrid)
        ensures
            r.value@.len() == 81,
            forall|i: int| 0 <= i < 81 ==> r.value@[i] == 0,
            r.error is None,
            r.json_result is None,
    {
        SudokuGrid { value: Grid::new(), error: None, json_result: None }
    }

    /// Apply one message. Every message first clears the last error.
    pub fn update(&mut self, message: SudokuMessage) -> (e: Effect)
        requires
            match message {
                SudokuMessage::InputChanged { x, y, .. } => x < 9 && y < 9,
                _ => true,
            },
        ensures
            match message {
                SudokuMessage::InputChanged { x, y, value } => {
                    &&& final(self).value@ == old(self).value@.update(
                        cell_index(x as int, y as int),
                        digit_value(trim_of(value@)),
                    )
                    &&& final(self).error is None
                    &&& final(self).json_result == old(self).json_result
                    &&& e is Idle
                },
                SudokuMessage::Solve => {
                    &&& solved_as(old(self).value@, final(self).value@, final(self).error is None)
                    &&& final(self).json_result == old(self).json_result
                    &&& e is Idle
                },
                SudokuMessage::Reset => {
                    &&& final(self).value@.len() == 81
                    &&& forall|i: int| 0 <= i < 81 ==> final(self).value@[i] == 0
                    &&& final(self).error is None
                    &&& final(self).json_result == old(self).json_result
                    &&& e is Idle
                },
                SudokuMessage::LoadJson => {
                    &&& final(self).value == old(self).value
                    &&& final(self).error is None
                    &&& final(self).json_result == Some(BatchStatus::Solving)
                    &&& e is PickAndSolveBatch
                },
                SudokuMessage::JsonFinished { solved_grids, duration } => {
                    &&& final(self).value == old(self).value
                    &&& final(self).error is None
                    &&& final(self).json_result == Some(
                        BatchStatus::Finished { count: solved_grids@.len() as usize, duration },
                    )
                    &&& e == (Effect::SaveResults { solved_grids })
                },
                SudokuMessage::JsonError { error } => {
                    &&& final(self).value == old(self).value
                    &&& final(self).error == Some(error)
                    &&& final(self).json_result == old(self).json_result
                    &&& e is Idle
                },
            },
    {
        self.error = None;
        match message {
            SudokuMessage::InputChanged { x, y, value } => {
                let v = cell_value_from_input(value.as_str());
                self.value.set(x, y, v);
                Effect::Idle
            },
            SudokuMessage::Solve => {
                let (grid, success) = solve_grid(self.value);
                if success {
                    self.value = grid;
                } else {
                    self.error = Some(String::from_str("The grid is not solvable"));
                }
                Effect::Idle
            },
            SudokuMessage::Reset => {
                self.value = Grid::new();
                Effect::Idle
            },
            SudokuMessage::LoadJson => {
                self.json_result = Some(BatchStatus::Solving);
                Effect::PickAndSolveBatch
            },
            SudokuMessage::JsonFinished { solved_grids, duration } => {
                self.json_result = Some(
                    BatchStatus::Finished { count: solved_grids.len(), duration },
                );
                Effect::SaveResults { solved_grids }
            },
            SudokuMessage::JsonError { error } => {
                self.error = Some(error);
                Effect::Idle
            },
        }
    }
}

} // verus!
