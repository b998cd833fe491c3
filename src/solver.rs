//! Depth-first backtracking search with row, column and box exclusion.
use vstd::prelude::*;
use crate::grid::Grid;
use crate::rules::{consistent, in_range, is_cell, is_completion, is_first_completion, lex_lt, peers, solvable, solved_as};

verus! {

fn is_peer(i: usize, j: usize) -> (r: bool)
    requires
        i < 81,
        j < 81,
    ensures
        r == peers(i as int, j as int),
{
    i != j && (i / 9 == j / 9 || i % 9 == j % 9 || (i / 27 == j / 27 && (i % 9) / 3 == (j % 9) / 3))
}

/// Whether digit `d` is absent from every peer of cell `k`.
fn can_place(cells: &[u8; 81], k: usize, d: u8) -> (r: bool)
    requires
        k < 81,
    ensures
        r == (forall|j: int| #![trigger cells@[j]] is_cell(j) && peers(k as int, j) ==> cells@[j] != d),
{
    let mut j: usize = 0;
    while j < 81
        invariant
            j <= 81,
            k < 81,
            forall|m: int| 0 <= m < j && peers(k as int, m) ==> cells@[m] != d,
        decreases 81 - j,
    {
        if is_peer(k, j) && cells[j] == d {
            assert(is_cell(j as int) && peers(k as int, j as int) && cells@[j as int] == d);
            return false;
        }
        j += 1;
    }
    true
}

/// Whether the placed digits already obey the rules: every value is at most
/// 9 and no digit repeats among peers.
fn givens_consistent(cells: &[u8; 81]) -> (r: bool)
    ensures
        r == consistent(cells@),
{
    let mut i: usize = 0;
    while i < 81
        invariant
            i <= 81,
            forall|m: int| 0 <= m < i ==> cells@[m] <= 9,
            forall|m: int, j: int|
                #![trigger cells@[m], cells@[j]]
                0 <= m < i && is_cell(j) && peers(m, j) && cells@[m] != 0 ==> cells@[m] != cells@[j],
        decreases 81 - i,
    {
        let v = cells[i];
        if v > 9 {
            assert(is_cell(i as int) && cells@[i as int] > 9);
            return false;
        }
        if v != 0 && !can_place(cells, i, v) {
            let ghost j = choose|j: int| !(is_cell(j) && peers(i as int, j) ==> cells@[j] != v);
            assert(cells@[i as int] == cells@[j]);
            return false;
        }
        i += 1;
    }
    true
}

proof fn lemma_peers_symmetric(i: int, j: int)
    ensures
        peers(i, j) == peers(j, i),
{
}

/// Placing a digit that no peer holds keeps a board consistent.
proof fn lemma_place(s: Seq<u8>, k: int, d: u8)
    requires
        consistent(s),
        is_cell(k),
        s[k] == 0,
        1 <= d <= 9,
        forall|j: int| is_cell(j) && peers(k, j) ==> s[j] != d,
    ensures
        consistent(s.update(k, d)),
{
    let t = s.update(k, d);
    assert forall|i: int, j: int|
        #![trigger t[i], t[j]]
        is_cell(i) && is_cell(j) && peers(i, j) && t[i] != 0 implies t[i] != t[j] by {
        lemma_peers_symmetric(i, j);
        if i != k && j != k {
            assert(s[i] != s[j]);
        }
    }
}

/// A board with no empty cell that obeys the rules is its own first (and
/// only) completion.
proof fn lemma_full(s: Seq<u8>)
    requires
        consistent(s),
        forall|i: int| 0 <= i < 81 ==> s[i] != 0,
    ensures
        is_first_completion(s, s),
        solvable(s),
{
    assert(is_completion(s, s));
    assert forall|r2: Seq<u8>| is_completion(s, r2) implies !lex_lt(r2, s) by {
        assert(r2 =~= s);
    }
}

/// A completion of `s` cannot hold at `k` a digit that a peer of `k` holds.
proof fn lemma_blocked(s: Seq<u8>, k: int, d: u8, r: Seq<u8>)
    requires
        is_cell(k),
        d != 0,
        !(forall|j: int| is_cell(j) && peers(k, j) ==> s[j] != d),
        is_completion(s, r),
    ensures
        r[k] != d,
{
    let j = choose|j: int| !(is_cell(j) && peers(k, j) ==> s[j] != d);
    assert(r[j] == d);
    if r[k] == d {
        assert(r[k] != r[j]);
    }
}

/// A completion of `s` that holds `d` at the empty cell `k` is a completion
/// of `s` with `d` placed at `k`.
proof fn lemma_completion_of_update(s: Seq<u8>, k: int, d: u8, r: Seq<u8>)
    requires
        is_cell(k),
        s[k] == 0,
        is_completion(s, r),
        r[k] == d,
    ensures
        is_completion(s.update(k, d), r),
{
}

/// If the first completion after placing `d` at the first empty cell `k`
/// exists, and no completion holds a smaller digit there, it is the first
/// completion of `s`.
proof fn lemma_first_through(s: Seq<u8>, k: int, d: u8, r: Seq<u8>)
    requires
        s.len() == 81,
        is_cell(k),
        s[k] == 0,
        1 <= d,
        forall|i: int| 0 <= i < k ==> s[i] != 0,
        is_first_completion(s.update(k, d), r),
        forall|r2: Seq<u8>| is_completion(s, r2) ==> r2[k] >= d,
    ensures
        is_first_completion(s, r),
        solvable(s),
{
    let t = s.update(k, d);
    assert(t[k] == d);
    assert(r[k] == d);
    assert forall|i: int| is_cell(i) && s[i] != 0 implies r[i] == s[i] by {
        assert(t[i] == s[i]);
    }
    assert(is_completion(s, r));
    assert forall|r2: Seq<u8>| is_completion(s, r2) implies !lex_lt(r2, r) by {
        if r2[k] == d {
            lemma_completion_of_update(s, k, d, r2);
        } else if lex_lt(r2, r) {
            let m = choose|m: int|
                is_cell(m) && r2[m] < r[m] && forall|i: int| 0 <= i < m ==> r2[i] == r[i];
            if m < k {
                assert(r2[m] == s[m]);
            } else if m > k {
                assert(r2[k] == r[k]);
            }
        }
    }
}

/// Fill the empty cells from `pos` on, where every cell before `pos` is
/// already filled. Returns whether a completion exists; on success the board
/// holds the first completion, on failure it is as it was.
fn search(cells: &mut [u8; 81], pos: usize) -> (ok: bool)
    requires
        pos <= 81,
        consistent(old(cells)@),
        forall|i: int| 0 <= i < pos ==> old(cells)@[i] != 0,
    ensures
        ok == solvable(old(cells)@),
        ok ==> is_first_completion(old(cells)@, final(cells)@),
        !ok ==> final(cells)@ == old(cells)@,
    decreases 81 - pos,
{
    let ghost s = cells@;
    let mut k: usize = pos;
    while k < 81 && cells[k] != 0
        invariant
            pos <= k <= 81,
            cells@ == s,
            old(cells)@ == s,
            forall|i: int| 0 <= i < k ==> s[i] != 0,
        decreases 81 - k,
    {
        k += 1;
    }
    if k == 81 {
        proof {
            lemma_full(s);
        }
        return true;
    }
    let mut d: u8 = 1;
    proof {
        assert forall|r: Seq<u8>| is_completion(s, r) implies r[k as int] >= 1 by {
            assert(is_cell(k as int));
            assert(r[k as int] != 0);
        }
    }
    while d <= 9
        invariant
            1 <= d <= 10,
            pos <= k < 81,
            cells@ == s,
            old(cells)@ == s,
            s[k as int] == 0,
            consistent(s),
            forall|i: int| 0 <= i < k ==> s[i] != 0,
            forall|r: Seq<u8>| is_completion(s, r) ==> r[k as int] >= d,
        decreases 10 - d,
    {
        if can_place(cells, k, d) {
            proof {
                lemma_place(s, k as int, d);
            }
            cells[k] = d;
            let ghost t = cells@;
            assert(t == s.update(k as int, d));
            if search(cells, k + 1) {
                proof {
                    lemma_first_through(s, k as int, d, cells@);
                }
                return true;
            }
            cells[k] = 0;
            proof {
                assert(cells@ =~= s);
                assert forall|r: Seq<u8>| is_completion(s, r) implies r[k as int] >= d + 1 by {
                    if r[k as int] == d {
                        lemma_completion_of_update(s, k as int, d, r);
                    }
                }
            }
        } else {
            proof {
                assert forall|r: Seq<u8>| is_completion(s, r) implies r[k as int] >= d + 1 by {
                    lemma_blocked(s, k as int, d, r);
                }
            }
        }
        d += 1;
    }
    proof {
        assert forall|r: Seq<u8>| !is_completion(s, r) by {
            if is_completion(s, r) {
                assert(is_cell(k as int));
                assert(r[k as int] <= 9);
            }
        }
    }
    false
}

/// Solve a board by depth-first backtracking: empty cells are filled in
/// row-major order, digits tried from 1 to 9, each checked against its row,
/// column and box. A board whose placed digits already break the rules is
/// reported unsolvable. On success the first completion in row-major order
/// is returned; on failure the board comes back exactly as it was given.
pub fn solve_grid(grid: Grid) -> (r: (Grid, bool))
    ensures
        solved_as(grid@, r.0@, r.1),
{
    let mut cells = grid.into_cells();
    if !givens_consistent(&cells) {
        proof {
            assert forall|r: Seq<u8>| !is_completion(grid@, r) by {
                if is_completion(grid@, r) {
                    if !in_range(grid@) {
                        let i = choose|i: int| !(is_cell(i) ==> grid@[i] <= 9);
                        assert(r[i] == grid@[i]);
                    } else {
                        let (i, j) = choose|i: int, j: int|
                            !(is_cell(i) && is_cell(j) && peers(i, j) && grid@[i] != 0
                                ==> grid@[i] != grid@[j]);
                        assert(r[i] == grid@[i]);
                        assert(r[j] == grid@[j]);
                        assert(r[i] != r[j]);
                    }
                }
            }
        }
        return (Grid::from_cells(cells), false);
    }
    let ok = search(&mut cells, 0);
    (Grid::from_cells(cells), ok)
}

} // verus!
