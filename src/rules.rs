//! The mathematical model of a board: a sequence of 81 cell values in
//! row-major order (cell `i` stands at column `i % 9`, row `i / 9`), where
//! `0` marks an empty cell and `1..=9` a placed digit.
use vstd::prelude::*;

verus! {

/// The flat index of the cell at column `x`, row `y`.
pub open spec fn cell_index(x: int, y: int) -> int {
    9 * y + x
}

pub open spec fn is_cell(i: int) -> bool {
    0 <= i < 81
}

pub open spec fn same_row(i: int, j: int) -> bool {
    i / 9 == j / 9
}

pub open spec fn same_col(i: int, j: int) -> bool {
    i % 9 == j % 9
}

pub open spec fn same_box(i: int, j: int) -> bool {
    i / 27 == j / 27 && (i % 9) / 3 == (j % 9) / 3
}

/// Two distinct cells that share a row, a column or a 3x3 box.
pub open spec fn peers(i: int, j: int) -> bool {
    i != j && (same_row(i, j) || same_col(i, j) || same_box(i, j))
}

/// The `t`-th cell (`t` in `0..9`) of unit `u`: units `0..9` are the rows,
/// `9..18` the columns and `18..27` the 3x3 boxes, each read in row-major
/// order.
pub open spec fn unit_cell(u: int, t: int) -> int {
    if u < 9 {
        9 * u + t
    } else if u < 18 {
        9 * t + (u - 9)
    } else {
        27 * ((u - 18) / 3) + 3 * ((u - 18) % 3) + 9 * (t / 3) + t % 3
    }
}

/// Digit `d` stands in exactly one cell of unit `u` of `s`.
pub open spec fn digit_once_in_unit(s: Seq<u8>, u: int, d: u8) -> bool {
    &&& exists|t: int| 0 <= t < 9 && #[trigger] s[unit_cell(u, t)] == d
    &&& forall|t1: int, t2: int|
        0 <= t1 < 9 && 0 <= t2 < 9 && #[trigger] s[unit_cell(u, t1)] == d
            && #[trigger] s[unit_cell(u, t2)] == d ==> t1 == t2
}

/// Unit `u` of `s` holds each digit from 1 to 9 in exactly one of its cells.
pub open spec fn holds_each_digit_once(s: Seq<u8>, u: int) -> bool {
    forall|d: u8| 1 <= d <= 9 ==> #[trigger] digit_once_in_unit(s, u, d)
}

/// Every cell holds a value in `0..=9`.
pub open spec fn in_range(s: Seq<u8>) -> bool {
    s.len() == 81 && forall|i: int| #![trigger s[i]] is_cell(i) ==> s[i] <= 9
}

/// No placed digit is repeated among its peers.
pub open spec fn no_conflict(s: Seq<u8>) -> bool {
    forall|i: int, j: int|
        #![trigger s[i], s[j]]
        is_cell(i) && is_cell(j) && peers(i, j) && s[i] != 0 ==> s[i] != s[j]
}

pub open spec fn consistent(s: Seq<u8>) -> bool {
    in_range(s) && no_conflict(s)
}

/// No cell is empty.
pub open spec fn complete(s: Seq<u8>) -> bool {
    s.len() == 81 && forall|i: int| #![trigger s[i]] is_cell(i) ==> s[i] != 0
}

/// A fully filled board that obeys the row, column and box rules.
pub open spec fn is_solution(s: Seq<u8>) -> bool {
    consistent(s) && complete(s)
}

/// `r` keeps every digit placed in `s`.
pub open spec fn extends(s: Seq<u8>, r: Seq<u8>) -> bool {
    s.len() == 81 && r.len() == 81 && forall|i: int| #![trigger r[i]] #![trigger s[i]] is_cell(i) && s[i] != 0 ==> r[i] == s[i]
}

pub open spec fn is_completion(s: Seq<u8>, r: Seq<u8>) -> bool {
    extends(s, r) && is_solution(r)
}

pub open spec fn solvable(s: Seq<u8>) -> bool {
    exists|r: Seq<u8>| is_completion(s, r)
}

/// `a` comes before `b` when read cell by cell in row-major order.
pub open spec fn lex_lt(a: Seq<u8>, b: Seq<u8>) -> bool {
    exists|k: int| is_cell(k) && a[k] < b[k] && forall|i: int| 0 <= i < k ==> a[i] == b[i]
}

/// `r` is the completion of `s` that comes first in row-major order: the
/// one a depth-first search finds when it fills empty cells in row-major
/// order and tries digits in ascending order.
pub open spec fn is_first_completion(s: Seq<u8>, r: Seq<u8>) -> bool {
    is_completion(s, r) && forall|r2: Seq<u8>| is_completion(s, r2) ==> !lex_lt(r2, r)
}

/// What solving `s` gives: success exactly when a completion exists, then the
/// first completion; on failure the board comes back unchanged.
pub open spec fn solved_as(s: Seq<u8>, r: Seq<u8>, ok: bool) -> bool {
    &&& ok == solvable(s)
    &&& ok ==> is_first_completion(s, r)
    &&& !ok ==> r == s
}

} // verus!
