//! Facts about solving that hold across calls and across all boards.
use vstd::prelude::*;
use vstd::arithmetic::div_mod::lemma_fundamental_div_mod_converse;
use vstd::set_lib::{lemma_int_range, lemma_len_subset, set_int_range};
use crate::rules::{
    cell_index, digit_once_in_unit, holds_each_digit_once, is_cell, is_completion,
    is_first_completion, is_solution, lex_lt, peers, solvable, solved_as, unit_cell,
};

verus! {

/// The cell at column `col`, row `row` has those coordinates, and its band
/// of three rows is `row / 3`.
proof fn lemma_cell_position(row: int, col: int)
    requires
        0 <= row < 9,
        0 <= col < 9,
    ensures
        is_cell(9 * row + col),
        (9 * row + col) / 9 == row,
        (9 * row + col) % 9 == col,
        (9 * row + col) / 27 == row / 3,
{
    lemma_fundamental_div_mod_converse(9 * row + col, 9, row, col);
    lemma_fundamental_div_mod_converse(row, 3, row / 3, row % 3);
    lemma_fundamental_div_mod_converse(9 * row + col, 27, row / 3, 9 * (row % 3) + col);
}

/// The nine cells of a unit are cells, and any two of them are peers.
proof fn lemma_unit_cells(u: int, t1: int, t2: int)
    requires
        0 <= u < 27,
        0 <= t1 < 9,
        0 <= t2 < 9,
    ensures
        is_cell(unit_cell(u, t1)),
        t1 != t2 ==> peers(unit_cell(u, t1), unit_cell(u, t2)),
{
    if u < 9 {
        lemma_cell_position(u, t1);
        lemma_cell_position(u, t2);
    } else if u < 18 {
        lemma_cell_position(t1, u - 9);
        lemma_cell_position(t2, u - 9);
    } else {
        let a = (u - 18) / 3;
        let b = (u - 18) % 3;
        let (r1, k1) = (3 * a + t1 / 3, 3 * b + t1 % 3);
        let (r2, k2) = (3 * a + t2 / 3, 3 * b + t2 % 3);
        assert(unit_cell(u, t1) == 9 * r1 + k1);
        assert(unit_cell(u, t2) == 9 * r2 + k2);
        lemma_cell_position(r1, k1);
        lemma_cell_position(r2, k2);
        lemma_fundamental_div_mod_converse(r1, 3, a, t1 / 3);
        lemma_fundamental_div_mod_converse(r2, 3, a, t2 / 3);
        lemma_fundamental_div_mod_converse(k1, 3, b, t1 % 3);
        lemma_fundamental_div_mod_converse(k2, 3, b, t2 % 3);
        if t1 != t2 {
            lemma_fundamental_div_mod_converse(t1, 3, t1 / 3, t1 % 3);
            lemma_fundamental_div_mod_converse(t2, 3, t2 / 3, t2 % 3);
        }
    }
}

/// Nine distinct digits from 1 to 9 include every digit.
proof fn lemma_nine_distinct_digits(vals: Seq<int>, d: int)
    requires
        vals.len() == 9,
        vals.no_duplicates(),
        forall|t: int| 0 <= t < 9 ==> 1 <= #[trigger] vals[t] <= 9,
        1 <= d <= 9,
    ensures
        vals.contains(d),
{
    vals.unique_seq_to_set();
    if !vals.contains(d) {
        let rest = set_int_range(1, 10).remove(d);
        lemma_int_range(1, 10);
        assert(set_int_range(1, 10).contains(d));
        assert(rest.len() == 8);
        assert forall|v: int| vals.to_set().contains(v) implies rest.contains(v) by {
            let t = choose|t: int| 0 <= t < 9 && vals[t] == v;
        }
        lemma_len_subset(vals.to_set(), rest);
    }
}

/// In a solved board every row, every column and every 3x3 box holds each
/// digit from 1 to 9 exactly once.
pub proof fn lemma_solution_units(s: Seq<u8>, u: int)
    requires
        is_solution(s),
        0 <= u < 27,
    ensures
        holds_each_digit_once(s, u),
{
    let vals = Seq::new(9, |t: int| s[unit_cell(u, t)] as int);
    assert forall|t: int| 0 <= t < 9 implies 1 <= #[trigger] vals[t] <= 9 by {
        lemma_unit_cells(u, t, t);
    }
    assert(vals.no_duplicates()) by {
        assert forall|t1: int, t2: int| 0 <= t1 < 9 && 0 <= t2 < 9 && t1 != t2 implies vals[t1]
            != vals[t2] by {
            lemma_unit_cells(u, t1, t2);
            assert(s[unit_cell(u, t1)] != s[unit_cell(u, t2)]);
        }
    }
    assert forall|d: u8| 1 <= d <= 9 implies #[trigger] digit_once_in_unit(s, u, d) by {
        lemma_nine_distinct_digits(vals, d as int);
        let t = choose|t: int| 0 <= t < 9 && vals[t] == d as int;
        assert(s[unit_cell(u, t)] == d);
        assert forall|t1: int, t2: int|
            0 <= t1 < 9 && 0 <= t2 < 9 && #[trigger] s[unit_cell(u, t1)] == d
                && #[trigger] s[unit_cell(u, t2)] == d implies t1 == t2 by {
            lemma_unit_cells(u, t1, t2);
        }
    }
}

/// Whenever the solver reports success, every row, column and box of the
/// board it returns holds each digit from 1 to 9 exactly once.
pub proof fn lemma_solved_units(s: Seq<u8>, r: Seq<u8>, u: int)
    requires
        solved_as(s, r, true),
        0 <= u < 27,
    ensures
        holds_each_digit_once(r, u),
{
    lemma_solution_units(r, u);
}

proof fn first_difference(a: Seq<u8>, b: Seq<u8>, i: int) -> (k: int)
    requires
        a.len() == 81,
        b.len() == 81,
        a != b,
        0 <= i <= 81,
        forall|j: int| 0 <= j < i ==> a[j] == b[j],
    ensures
        is_cell(k),
        a[k] != b[k],
        forall|j: int| 0 <= j < k ==> a[j] == b[j],
    decreases 81 - i,
{
    if i >= 81 {
        assert(a =~= b);
        0
    } else if a[i] != b[i] {
        i
    } else {
        first_difference(a, b, i + 1)
    }
}

/// A board has at most one first completion.
pub proof fn lemma_first_completion_unique(s: Seq<u8>, a: Seq<u8>, b: Seq<u8>)
    requires
        is_first_completion(s, a),
        is_first_completion(s, b),
    ensures
        a == b,
{
    if a != b {
        let k = first_difference(a, b, 0);
        if a[k] < b[k] {
            assert(lex_lt(a, b));
        } else {
            assert(lex_lt(b, a));
        }
    }
}

/// Solving the same board twice gives the same board and the same success
/// flag.
pub proof fn lemma_solve_deterministic(s: Seq<u8>, r1: Seq<u8>, ok1: bool, r2: Seq<u8>, ok2: bool)
    requires
        solved_as(s, r1, ok1),
        solved_as(s, r2, ok2),
    ensures
        r1 == r2,
        ok1 == ok2,
{
    if ok1 {
        lemma_first_completion_unique(s, r1, r2);
    }
}

/// Loading rows into a board and reading the board back as rows gives the
/// rows that were loaded.
pub proof fn lemma_load_round_trip(raw: [[u8; 9]; 9], g: Seq<u8>, out: [[u8; 9]; 9])
    requires
        g.len() == 81,
        forall|x: int, y: int| 0 <= x < 9 && 0 <= y < 9 ==> g[cell_index(x, y)] == raw[y][x],
        forall|x: int, y: int| 0 <= x < 9 && 0 <= y < 9 ==> out[y][x] == g[cell_index(x, y)],
    ensures
        out == raw,
{
    assert forall|y: int| 0 <= y < 9 implies out[y] == raw[y] by {
        assert forall|x: int| 0 <= x < 9 implies out[y][x] == raw[y][x] by {
            assert(g[cell_index(x, y)] == raw[y][x]);
        }
        assert(out[y] =~= raw[y]);
    }
    assert(out =~= raw);
}

/// A board that holds the same digit twice in one row has no solution, so
/// the solver reports failure on it.
pub proof fn lemma_repeat_in_row_unsolvable(s: Seq<u8>, x1: int, x2: int, y: int)
    requires
        s.len() == 81,
        0 <= x1 < 9,
        0 <= x2 < 9,
        0 <= y < 9,
        x1 != x2,
        s[cell_index(x1, y)] != 0,
        s[cell_index(x1, y)] == s[cell_index(x2, y)],
    ensures
        !solvable(s),
        forall|r: Seq<u8>, ok: bool| solved_as(s, r, ok) ==> !ok,
{
    let i = cell_index(x1, y);
    let j = cell_index(x2, y);
    assert(peers(i, j));
    assert forall|r: Seq<u8>| !is_completion(s, r) by {
        if is_completion(s, r) {
            assert(r[i] == s[i]);
            assert(r[j] == s[j]);
        }
    }
}

/// A puzzle with exactly one completion is solved to that completion.
pub proof fn lemma_unique_completion_found(s: Seq<u8>, c: Seq<u8>)
    requires
        is_completion(s, c),
        forall|r: Seq<u8>| is_completion(s, r) ==> r == c,
    ensures
        forall|r: Seq<u8>, ok: bool| solved_as(s, r, ok) ==> ok && r == c,
{
}

/// A fixed solved board: row `r`, column `c` holds
/// `(3 * (r % 3) + r / 3 + c) % 9 + 1`.
spec fn pattern_board() -> Seq<u8> {
    Seq::new(81, |i: int| ((3 * ((i / 9) % 3) + (i / 9) / 3 + i % 9) % 9 + 1) as u8)
}

proof fn lemma_shift_mod9(a: int, b: int, e: int)
    requires
        0 <= a < 9,
        0 <= b < 9,
        0 <= e < 9,
        a != b,
    ensures
        (a + e) % 9 != (b + e) % 9,
{
    if a + e < 9 {
        lemma_fundamental_div_mod_converse(a + e, 9, 0, a + e);
    } else {
        lemma_fundamental_div_mod_converse(a + e, 9, 1, a + e - 9);
    }
    if b + e < 9 {
        lemma_fundamental_div_mod_converse(b + e, 9, 0, b + e);
    } else {
        lemma_fundamental_div_mod_converse(b + e, 9, 1, b + e - 9);
    }
}

proof fn lemma_pattern_peers_differ(r1: int, c1: int, r2: int, c2: int)
    requires
        0 <= r1 < 9,
        0 <= c1 < 9,
        0 <= r2 < 9,
        0 <= c2 < 9,
        peers(9 * r1 + c1, 9 * r2 + c2),
    ensures
        pattern_board()[9 * r1 + c1] != pattern_board()[9 * r2 + c2],
{
    lemma_cell_position(r1, c1);
    lemma_cell_position(r2, c2);
    let (b1, p1) = (r1 / 3, r1 % 3);
    let (b2, p2) = (r2 / 3, r2 % 3);
    lemma_fundamental_div_mod_converse(r1, 3, b1, p1);
    lemma_fundamental_div_mod_converse(r2, 3, b2, p2);
    let k1 = 3 * p1 + b1;
    let k2 = 3 * p2 + b2;
    if r1 == r2 {
        lemma_shift_mod9(c1, c2, k1);
    } else if c1 == c2 {
        lemma_shift_mod9(k1, k2, c1);
    } else {
        let (s1, q1) = (c1 / 3, c1 % 3);
        let (s2, q2) = (c2 / 3, c2 % 3);
        lemma_fundamental_div_mod_converse(c1, 3, s1, q1);
        lemma_fundamental_div_mod_converse(c2, 3, s2, q2);
        assert(b1 == b2 && s1 == s2);
        lemma_shift_mod9(3 * p1 + q1, 3 * p2 + q2, b1 + 3 * s1);
        assert(k1 + c1 == (3 * p1 + q1) + (b1 + 3 * s1));
        assert(k2 + c2 == (3 * p2 + q2) + (b2 + 3 * s2));
    }
}

proof fn lemma_pattern_is_solution()
    ensures
        is_solution(pattern_board()),
{
    let s = pattern_board();
    assert forall|i: int| #![trigger s[i]] is_cell(i) implies 1 <= s[i] <= 9 by {
        lemma_cell_position(i / 9, i % 9);
    }
    assert forall|i: int, j: int|
        #![trigger s[i], s[j]]
        is_cell(i) && is_cell(j) && peers(i, j) && s[i] != 0 implies s[i] != s[j] by {
        assert(i == 9 * (i / 9) + i % 9);
        assert(j == 9 * (j / 9) + j % 9);
        lemma_pattern_peers_differ(i / 9, i % 9, j / 9, j % 9);
    }
}

/// The empty board always has a solution, so the solver succeeds on it and
/// returns a solved board.
pub proof fn lemma_empty_board_solved(s: Seq<u8>)
    requires
        s.len() == 81,
        forall|i: int| 0 <= i < 81 ==> s[i] == 0,
    ensures
        solvable(s),
        forall|r: Seq<u8>, ok: bool| solved_as(s, r, ok) ==> ok && is_solution(r),
{
    lemma_pattern_is_solution();
    assert(is_completion(s, pattern_board()));
}

} // verus!
