//! The computer opponent: a one-ply heuristic (complete an own line, else
//! block the opponent's, else take the best free cell by a fixed priority),
//! and a uniformly random fallback.

use vstd::prelude::*;

use rand::Rng;

use crate::board::CellValue;
use crate::board::TCell;
use crate::board::cell_at;
use crate::board::count_in_line;
use crate::board::empties_from;
use crate::board::idx;
use crate::board::last_empty_in_line;
use crate::board::lemma_counts;
use crate::board::lemma_empties_members;
use crate::board::line_cell;
use crate::board::line_cell_at;
use crate::board::line_won;
use crate::board::mark_on;
use crate::game::FirstPlayer;
use crate::game::Hardness;
use crate::game::Tictactoe;
use crate::game::board_of;
use crate::game::computer_value;
use crate::game::human_value;
use crate::game::lemma_move_preserves_wf;
use crate::game::plays_at;

verus! {

/// Line `l` is one move short for `v`: two of its cells hold `v` and one
/// is still empty.
pub open spec fn line_playable(b: Seq<CellValue>, l: int, v: CellValue) -> bool {
    count_in_line(b, l, v) == 2 && last_empty_in_line(b, l) is Some
}

/// The first line at index `l` or above that is one move short for `v`.
pub open spec fn first_playable_line(b: Seq<CellValue>, v: CellValue, l: int) -> Option<int>
    decreases 8 - l,
{
    if l < 0 || l >= 8 {
        Option::None
    } else if line_playable(b, l, v) {
        Option::Some(l)
    } else {
        first_playable_line(b, v, l + 1)
    }
}

/// The `k`-th cell in the hard opponent's positional order: the centre,
/// then the corners, then the edges.
pub open spec fn priority_cell(k: int) -> (int, int) {
    if k == 0 {
        (1, 1)
    } else if k == 1 {
        (0, 0)
    } else if k == 2 {
        (0, 2)
    } else if k == 3 {
        (2, 0)
    } else if k == 4 {
        (2, 2)
    } else if k == 5 {
        (0, 1)
    } else if k == 6 {
        (1, 0)
    } else if k == 7 {
        (1, 2)
    } else {
        (2, 1)
    }
}

/// The first empty cell at priority rank `k` or beyond.
pub open spec fn first_priority_empty(b: Seq<CellValue>, k: int) -> Option<(int, int)>
    decreases 9 - k,
{
    if k < 0 || k >= 9 {
        Option::None
    } else {
        let p = priority_cell(k);
        if cell_at(b, p.0, p.1) == CellValue::Empty {
            Option::Some(p)
        } else {
            first_priority_empty(b, k + 1)
        }
    }
}

/// The hard opponent's move on board `b` when it plays `me` against `opp`:
/// the empty cell of the first line one move short for `me`, else of the
/// first line one move short for `opp`, else the first empty cell in the
/// positional order; none only when the board is full.
pub open spec fn hard_choice(b: Seq<CellValue>, me: CellValue, opp: CellValue) -> Option<
    (int, int),
> {
    match first_playable_line(b, me, 0) {
        Option::Some(l) => last_empty_in_line(b, l),
        Option::None => match first_playable_line(b, opp, 0) {
            Option::Some(l) => last_empty_in_line(b, l),
            Option::None => first_priority_empty(b, 0),
        },
    }
}

/// `post` is `pre` after the computer's turn: under the hard heuristic its
/// chosen move was played, or nothing happened on a full board; under the
/// random fallback some empty cell received the computer's mark.
pub open spec fn next_rel(pre: Tictactoe, post: Tictactoe) -> bool {
    let me = computer_value(pre.first_player);
    let opp = human_value(pre.first_player);
    if pre.hardness == Hardness::Hard {
        match hard_choice(pre.board(), me, opp) {
            Option::Some(p) => plays_at(pre, post, p.0, p.1, me),
            Option::None => post == pre,
        }
    } else {
        exists|i: int, j: int| plays_at(pre, post, i, j, me)
    }
}

/// How many of the three cells of line `l` hold `v`.
fn count_in_line_exec(cells: &Vec<TCell>, l: usize, v: CellValue) -> (r: usize)
    requires
        cells@.len() == 9,
        l < 8,
    ensures
        r as int == count_in_line(board_of(cells@), l as int, v),
{
    let ghost b = board_of(cells@);
    let p0 = line_cell_at(l, 0);
    let p1 = line_cell_at(l, 1);
    let p2 = line_cell_at(l, 2);
    let mut r: usize = 0;
    if cells[3 * p0.0 + p0.1].value == v {
        r = r + 1;
    }
    if cells[3 * p1.0 + p1.1].value == v {
        r = r + 1;
    }
    if cells[3 * p2.0 + p2.1].value == v {
        r = r + 1;
    }
    proof {
        assert(mark_on(b, l as int, 0) == b[idx(p0.0 as int, p0.1 as int)]);
        assert(mark_on(b, l as int, 1) == b[idx(p1.0 as int, p1.1 as int)]);
        assert(mark_on(b, l as int, 2) == b[idx(p2.0 as int, p2.1 as int)]);
    }
    r
}

/// The empty cell of line `l` that a scan of its cells leaves last in
/// hand, as executable coordinates.
fn last_empty_exec(cells: &Vec<TCell>, l: usize) -> (r: Option<(usize, usize)>)
    requires
        cells@.len() == 9,
        l < 8,
    ensures
        r is Some <==> last_empty_in_line(board_of(cells@), l as int) is Some,
        r matches Some(p) ==> p.0 < 3 && p.1 < 3 && last_empty_in_line(board_of(cells@), l as int)
            == Option::Some((p.0 as int, p.1 as int)),
{
    let ghost b = board_of(cells@);
    let p0 = line_cell_at(l, 0);
    let p1 = line_cell_at(l, 1);
    let p2 = line_cell_at(l, 2);
    proof {
        assert(mark_on(b, l as int, 0) == b[idx(p0.0 as int, p0.1 as int)]);
        assert(mark_on(b, l as int, 1) == b[idx(p1.0 as int, p1.1 as int)]);
        assert(mark_on(b, l as int, 2) == b[idx(p2.0 as int, p2.1 as int)]);
    }
    if cells[3 * p2.0 + p2.1].value == CellValue::Empty {
        Some(p2)
    } else if cells[3 * p1.0 + p1.1].value == CellValue::Empty {
        Some(p1)
    } else if cells[3 * p0.0 + p0.1].value == CellValue::Empty {
        Some(p0)
    } else {
        None
    }
}

/// The first line at index `l` or above that is one move short for `v`.
fn find_playable_line(cells: &Vec<TCell>, v: CellValue, l: usize) -> (r: Option<usize>)
    requires
        cells@.len() == 9,
        l <= 8,
    ensures
        r is Some <==> first_playable_line(board_of(cells@), v, l as int) is Some,
        r matches Some(li) ==> li < 8 && first_playable_line(board_of(cells@), v, l as int)
            == Option::Some(li as int),
    decreases 8 - l,
{
    if l >= 8 {
        return None;
    }
    let c = count_in_line_exec(cells, l, v);
    let e = last_empty_exec(cells, l);
    let has_empty = match e {
        Some(_) => true,
        None => false,
    };
    if c == 2 && has_empty {
        Some(l)
    } else {
        find_playable_line(cells, v, l + 1)
    }
}

/// The `k`-th cell in the positional order, as executable coordinates.
fn priority_cell_at(k: usize) -> (p: (usize, usize))
    requires
        k < 9,
    ensures
        (p.0 as int, p.1 as int) == priority_cell(k as int),
        p.0 < 3,
        p.1 < 3,
{
    if k == 0 {
        (1, 1)
    } else if k == 1 {
        (0, 0)
    } else if k == 2 {
        (0, 2)
    } else if k == 3 {
        (2, 0)
    } else if k == 4 {
        (2, 2)
    } else if k == 5 {
        (0, 1)
    } else if k == 6 {
        (1, 0)
    } else if k == 7 {
        (1, 2)
    } else {
        (2, 1)
    }
}

/// The first empty cell at priority rank `k` or beyond.
fn find_priority_move(cells: &Vec<TCell>, k: usize) -> (r: Option<(usize, usize)>)
    requires
        cells@.len() == 9,
        k <= 9,
    ensures
        r is Some <==> first_priority_empty(board_of(cells@), k as int) is Some,
        r matches Some(p) ==> p.0 < 3 && p.1 < 3 && first_priority_empty(
            board_of(cells@),
            k as int,
        ) == Option::Some((p.0 as int, p.1 as int)),
    decreases 9 - k,
{
    if k >= 9 {
        return None;
    }
    let p = priority_cell_at(k);
    if cells[3 * p.0 + p.1].value == CellValue::Empty {
        proof {
            assert(cell_at(board_of(cells@), p.0 as int, p.1 as int) == cells@[idx(
                p.0 as int,
                p.1 as int,
            )].value);
        }
        Some(p)
    } else {
        proof {
            assert(cell_at(board_of(cells@), p.0 as int, p.1 as int) == cells@[idx(
                p.0 as int,
                p.1 as int,
            )].value);
        }
        find_priority_move(cells, k + 1)
    }
}

/// The hard opponent's move on this board, if the board has room.
pub fn hard_move(cells: &Vec<TCell>, me: CellValue, opp: CellValue) -> (r: Option<(usize, usize)>)
    requires
        cells@.len() == 9,
    ensures
        r is Some <==> hard_choice(board_of(cells@), me, opp) is Some,
        r matches Some(p) ==> p.0 < 3 && p.1 < 3 && hard_choice(board_of(cells@), me, opp)
            == Option::Some((p.0 as int, p.1 as int)),
{
    match find_playable_line(cells, me, 0) {
        Some(l) => last_empty_exec(cells, l),
        None => match find_playable_line(cells, opp, 0) {
            Some(l) => last_empty_exec(cells, l),
            None => find_priority_move(cells, 0),
        },
    }
}

/// The (row, column) positions of the empty cells at flat index `n` or
/// above, in row-major order.
pub fn empty_cells_from(cells: &Vec<TCell>, n: usize) -> (r: Vec<(usize, usize)>)
    requires
        cells@.len() == 9,
        n <= 9,
    ensures
        r@.len() == empties_from(board_of(cells@), n as int).len(),
        forall|m: int|
            0 <= m < r@.len() ==> ((#[trigger] r@[m]).0 as int, r@[m].1 as int) == empties_from(
                board_of(cells@),
                n as int,
            )[m],
    decreases 9 - n,
{
    let ghost b = board_of(cells@);
    let ghost es = empties_from(b, n as int);
    if n >= 9 {
        let r: Vec<(usize, usize)> = Vec::new();
        return r;
    }
    proof {
        assert(b[n as int] == cells@[n as int].value);
    }
    let mut rest = empty_cells_from(cells, n + 1);
    let ghost rest0 = rest@;
    if cells[n].value == CellValue::Empty {
        let p: (usize, usize) = (n / 3, n % 3);
        let mut r: Vec<(usize, usize)> = Vec::new();
        r.push(p);
        r.append(&mut rest);
        proof {
            assert(r@ =~= seq![p] + rest0);
            assert(es =~= seq![((n as int) / 3, (n as int) % 3)] + empties_from(b, n as int + 1));
            assert forall|m: int|
                0 <= m < r@.len() implies ((#[trigger] r@[m]).0 as int, r@[m].1 as int)
                == es[m] by {
                if m == 0 {
                    assert(r@[0] == p);
                    assert(es[0] == ((n as int) / 3, (n as int) % 3));
                } else {
                    assert(r@[m] == rest0[m - 1]);
                    assert(es[m] == empties_from(b, n as int + 1)[m - 1]);
                }
            }
        }
        r
    } else {
        rest
    }
}

/// Relies on rand::Rng::gen_range on the range `0..n`: the sample is drawn
/// from that range, so it is below `n`; the call panics only on an empty
/// range, which `n > 0` rules out.
#[verifier::external_body]
fn rand_below(n: usize) -> (r: usize)
    requires
        n > 0,
    ensures
        r < n,
{
    let mut rng = rand::thread_rng();
    rng.gen_range(0..n)
}

/// The empty cell of a line one move short for `v` lies on the board and
/// is indeed empty.
proof fn lemma_last_empty_is_empty(b: Seq<CellValue>, l: int)
    requires
        0 <= l < 8,
    ensures
        last_empty_in_line(b, l) matches Some(p) ==> 0 <= p.0 < 3 && 0 <= p.1 < 3 && cell_at(
            b,
            p.0,
            p.1,
        ) == CellValue::Empty,
{
    if last_empty_in_line(b, l) is Some {
        let p = last_empty_in_line(b, l)->Some_0;
        if mark_on(b, l, 2) == CellValue::Empty {
            assert(p == line_cell(l, 2));
        } else if mark_on(b, l, 1) == CellValue::Empty {
            assert(p == line_cell(l, 1));
        } else {
            assert(p == line_cell(l, 0));
        }
    }
}

/// Whatever the hard opponent picks is an empty cell of the board.
pub proof fn lemma_hard_choice_empty(b: Seq<CellValue>, me: CellValue, opp: CellValue)
    ensures
        hard_choice(b, me, opp) matches Some(p) ==> 0 <= p.0 < 3 && 0 <= p.1 < 3 && cell_at(
            b,
            p.0,
            p.1,
        ) == CellValue::Empty,
{
    lemma_first_playable_in_range(b, me, 0);
    lemma_first_playable_in_range(b, opp, 0);
    lemma_first_priority_empty_is_empty(b, 0);
    if first_playable_line(b, me, 0) is Some {
        lemma_last_empty_is_empty(b, first_playable_line(b, me, 0)->Some_0);
    } else if first_playable_line(b, opp, 0) is Some {
        lemma_last_empty_is_empty(b, first_playable_line(b, opp, 0)->Some_0);
    }
}

/// A line found by the scan is a real line index and one move short.
proof fn lemma_first_playable_in_range(b: Seq<CellValue>, v: CellValue, l: int)
    requires
        0 <= l <= 8,
    ensures
        first_playable_line(b, v, l) matches Some(li) ==> l <= li < 8 && line_playable(b, li, v),
    decreases 8 - l,
{
    if l < 8 && !line_playable(b, l, v) {
        lemma_first_playable_in_range(b, v, l + 1);
    }
}

/// A cell found by the positional scan is a real empty cell.
proof fn lemma_first_priority_empty_is_empty(b: Seq<CellValue>, k: int)
    requires
        0 <= k <= 9,
    ensures
        first_priority_empty(b, k) matches Some(p) ==> 0 <= p.0 < 3 && 0 <= p.1 < 3 && cell_at(
            b,
            p.0,
            p.1,
        ) == CellValue::Empty,
    decreases 9 - k,
{
    if k < 9 {
        lemma_first_priority_empty_is_empty(b, k + 1);
    }
}

/// The scan from `k` finds a line when line `l` further on is one move
/// short for `v`.
proof fn lemma_first_playable_finds(b: Seq<CellValue>, v: CellValue, k: int, l: int)
    requires
        0 <= k <= l < 8,
        line_playable(b, l, v),
    ensures
        first_playable_line(b, v, k) is Some,
    decreases l - k,
{
    if k < l && !line_playable(b, k, v) {
        lemma_first_playable_finds(b, v, k + 1, l);
    }
}

/// The scan from `k` finds nothing when no line from `k` on is one move
/// short for `v`.
proof fn lemma_first_playable_none(b: Seq<CellValue>, v: CellValue, k: int)
    requires
        0 <= k <= 8,
        forall|l: int| k <= l < 8 ==> !line_playable(b, l, v),
    ensures
        first_playable_line(b, v, k) is None,
    decreases 8 - k,
{
    if k < 8 {
        lemma_first_playable_none(b, v, k + 1);
    }
}

/// The three cells of one line are three different cells.
proof fn lemma_line_cells_distinct(l: int, k1: int, k2: int)
    requires
        0 <= l < 8,
        0 <= k1 < 3,
        0 <= k2 < 3,
        k1 != k2,
    ensures
        line_cell(l, k1) != line_cell(l, k2),
{
}

/// Playing `v` on the empty cell of a line one move short for `v`
/// completes that line.
proof fn lemma_playable_move_wins(b: Seq<CellValue>, l: int, v: CellValue)
    requires
        crate::board::board_wf(b),
        0 <= l < 8,
        v != CellValue::Empty,
        line_playable(b, l, v),
    ensures
        last_empty_in_line(b, l) matches Some(p) ==> line_won(
            b.update(idx(p.0, p.1), v),
            l,
            v,
        ),
{
    let p = last_empty_in_line(b, l)->Some_0;
    let ke: int = if mark_on(b, l, 2) == CellValue::Empty {
        2
    } else if mark_on(b, l, 1) == CellValue::Empty {
        1
    } else {
        0
    };
    assert(p == line_cell(l, ke));
    assert(mark_on(b, l, ke) == CellValue::Empty);
    let b2 = b.update(idx(p.0, p.1), v);
    assert forall|k: int| 0 <= k < 3 implies mark_on(b2, l, k) == v by {
        let c = line_cell(l, k);
        assert(0 <= c.0 < 3 && 0 <= c.1 < 3);
        if k == ke {
            assert(b2[idx(c.0, c.1)] == v);
        } else {
            lemma_line_cells_distinct(l, k, ke);
            assert(idx(c.0, c.1) != idx(p.0, p.1));
            assert(mark_on(b2, l, k) == mark_on(b, l, k));
            assert(mark_on(b, l, k) == v) by {
                assert(count_in_line(b, l, v) == 2);
                assert(mark_on(b, l, ke) != v);
            }
        }
    }
}

/// When some line is one move short for `me`, the hard opponent picks a
/// move, and that move wins on the spot.
pub proof fn lemma_hard_choice_wins_now(b: Seq<CellValue>, me: CellValue, opp: CellValue)
    requires
        crate::board::board_wf(b),
        me != CellValue::Empty,
        exists|l: int| 0 <= l < 8 && line_playable(b, l, me),
    ensures
        hard_choice(b, me, opp) is Some,
        hard_choice(b, me, opp) matches Some(p) ==> crate::board::wins(
            b.update(idx(p.0, p.1), me),
            me,
        ),
{
    let l0 = choose|l: int| 0 <= l < 8 && line_playable(b, l, me);
    lemma_first_playable_finds(b, me, 0, l0);
    let li = first_playable_line(b, me, 0)->Some_0;
    lemma_first_playable_in_range(b, me, 0);
    lemma_playable_move_wins(b, li, me);
    let p = last_empty_in_line(b, li)->Some_0;
    assert(line_won(b.update(idx(p.0, p.1), me), li, me));
}

/// When no line is one move short for `me` but one is for `opp`, the hard
/// opponent picks the empty cell of such a line: it blocks a threat.
pub proof fn lemma_hard_choice_blocks(b: Seq<CellValue>, me: CellValue, opp: CellValue)
    requires
        forall|l: int| 0 <= l < 8 ==> !line_playable(b, l, me),
        exists|l: int| 0 <= l < 8 && line_playable(b, l, opp),
    ensures
        hard_choice(b, me, opp) is Some,
        hard_choice(b, me, opp) matches Some(p) ==> exists|l: int|
            0 <= l < 8 && #[trigger] line_playable(b, l, opp) && last_empty_in_line(b, l)
                == Option::Some(p),
{
    lemma_first_playable_none(b, me, 0);
    let l0 = choose|l: int| 0 <= l < 8 && line_playable(b, l, opp);
    lemma_first_playable_finds(b, opp, 0, l0);
    let li = first_playable_line(b, opp, 0)->Some_0;
    lemma_first_playable_in_range(b, opp, 0);
}

/// Each cell of the board has a rank in the positional order.
proof fn lemma_priority_covers(i: int, j: int)
    requires
        0 <= i < 3,
        0 <= j < 3,
    ensures
        exists|r: int| 0 <= r < 9 && #[trigger] priority_cell(r) == (i, j),
{
    if i == 1 && j == 1 {
        assert(priority_cell(0) == (i, j));
    } else if i == 0 && j == 0 {
        assert(priority_cell(1) == (i, j));
    } else if i == 0 && j == 2 {
        assert(priority_cell(2) == (i, j));
    } else if i == 2 && j == 0 {
        assert(priority_cell(3) == (i, j));
    } else if i == 2 && j == 2 {
        assert(priority_cell(4) == (i, j));
    } else if i == 0 && j == 1 {
        assert(priority_cell(5) == (i, j));
    } else if i == 1 && j == 0 {
        assert(priority_cell(6) == (i, j));
    } else if i == 1 && j == 2 {
        assert(priority_cell(7) == (i, j));
    } else {
        assert(priority_cell(8) == (i, j));
    }
}

/// The positional scan from rank `k` succeeds when some cell at rank `r`
/// or later is empty.
proof fn lemma_priority_finds(b: Seq<CellValue>, k: int, r: int)
    requires
        0 <= k <= r < 9,
        cell_at(b, priority_cell(r).0, priority_cell(r).1) == CellValue::Empty,
    ensures
        first_priority_empty(b, k) is Some,
    decreases r - k,
{
    let p = priority_cell(k);
    if k < r && cell_at(b, p.0, p.1) != CellValue::Empty {
        lemma_priority_finds(b, k + 1, r);
    }
}

/// The hard opponent fails to pick a move exactly on a full board.
pub proof fn lemma_hard_choice_none_iff_full(b: Seq<CellValue>, me: CellValue, opp: CellValue)
    requires
        crate::board::board_wf(b),
    ensures
        hard_choice(b, me, opp) is None <==> forall|n: int|
            0 <= n < 9 ==> b[n] != CellValue::Empty,
{
    if forall|n: int| 0 <= n < 9 ==> b[n] != CellValue::Empty {
        assert forall|l: int, v: CellValue| 0 <= l < 8 implies !line_playable(b, l, v) by {
            if last_empty_in_line(b, l) is Some {
                lemma_last_empty_is_empty(b, l);
                let p = last_empty_in_line(b, l)->Some_0;
                assert(b[idx(p.0, p.1)] == CellValue::Empty);
            }
        }
        lemma_first_playable_none(b, me, 0);
        lemma_first_playable_none(b, opp, 0);
        lemma_priority_all_taken(b, 0);
    }
    if hard_choice(b, me, opp) is None {
        lemma_first_playable_in_range(b, me, 0);
        lemma_first_playable_in_range(b, opp, 0);
        assert forall|n: int| 0 <= n < 9 implies b[n] != CellValue::Empty by {
            if b[n] == CellValue::Empty {
                let (i, j) = (n / 3, n % 3);
                assert(idx(i, j) == n);
                lemma_priority_covers(i, j);
                let r = choose|r: int| 0 <= r < 9 && #[trigger] priority_cell(r) == (i, j);
                lemma_priority_finds(b, 0, r);
                assert(first_priority_empty(b, 0) is Some);
                assert(false);
            }
        }
    }
}

/// The positional scan from rank `k` fails on a board with no empty cell.
proof fn lemma_priority_all_taken(b: Seq<CellValue>, k: int)
    requires
        crate::board::board_wf(b),
        0 <= k <= 9,
        forall|n: int| 0 <= n < 9 ==> b[n] != CellValue::Empty,
    ensures
        first_priority_empty(b, k) is None,
    decreases 9 - k,
{
    if k < 9 {
        let p = priority_cell(k);
        assert(b[idx(p.0, p.1)] != CellValue::Empty);
        lemma_priority_all_taken(b, k + 1);
    }
}

impl Tictactoe {
    /// The computer takes its turn: the heuristic move when the hardness
    /// is `Hard` (nothing happens on a full board), a uniformly random
    /// empty cell otherwise.
    pub fn next(&mut self)
        requires
            old(self).wf(),
            old(self).hardness == Hardness::Random ==> old(self).moves < 9,
        ensures
            final(self).wf(),
            next_rel(*old(self), *final(self)),
    {
        let self_value = match self.first_player {
            FirstPlayer::Human => CellValue::O,
            FirstPlayer::Computer => CellValue::X,
        };
        let opp_value = match self.first_player {
            FirstPlayer::Computer => CellValue::O,
            FirstPlayer::Human => CellValue::X,
        };
        let ghost pre = *self;
        if self.hardness == Hardness::Hard {
            let next_move = hard_move(&self.cells, self_value, opp_value);
            proof {
                lemma_hard_choice_empty(pre.board(), self_value, opp_value);
            }
            if let Some((i, j)) = next_move {
                self.place(i, j, self_value);
                self.check(i, j, self_value);
                proof {
                    assert(plays_at(pre, *self, i as int, j as int, self_value));
                    lemma_move_preserves_wf(pre, *self, i as int, j as int, self_value);
                }
            }
        } else {
            let empty_cells = empty_cells_from(&self.cells, 0);
            proof {
                lemma_counts(pre.board(), 0);
                lemma_empties_members(pre.board(), 0);
            }
            let e = rand_below(empty_cells.len());
            let (i, j) = empty_cells[e];
            self.place(i, j, self_value);
            self.check(i, j, self_value);
            proof {
                assert(plays_at(pre, *self, i as int, j as int, self_value));
                lemma_move_preserves_wf(pre, *self, i as int, j as int, self_value);
            }
        }
    }
}

} // verus!
