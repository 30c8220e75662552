//! The 3x3 board: cells, the eight winning lines, and the spec-level model
//! of wins that the rest of the crate is verified against.
//!
//! A board is modelled in specifications as a `Seq<CellValue>` of length 9,
//! the cell in row `i`, column `j` sitting at index `3 * i + j`.

use vstd::prelude::*;

verus! {

/// One mark on the board: a cell is empty or holds X or O.
#[derive(Clone, Copy, PartialEq, Eq, Structural, Debug)]
pub enum CellValue {
    Empty,
    X,
    O,
}

/// Flat index of the cell in row `i`, column `j`.
pub open spec fn idx(i: int, j: int) -> int {
    3 * i + j
}

/// The mark at row `i`, column `j` of board `b`.
pub open spec fn cell_at(b: Seq<CellValue>, i: int, j: int) -> CellValue {
    b[idx(i, j)]
}

/// The `k`-th cell (for `k` in 0..3) of winning line `l` (for `l` in 0..8):
/// lines 0 to 2 are the rows, 3 to 5 the columns, 6 the main diagonal and
/// 7 the anti-diagonal.
pub open spec fn line_cell(l: int, k: int) -> (int, int) {
    if l < 3 {
        (l, k)
    } else if l < 6 {
        (k, l - 3)
    } else if l == 6 {
        (k, k)
    } else {
        (k, 2 - k)
    }
}

/// The mark on the `k`-th cell of line `l`.
pub open spec fn mark_on(b: Seq<CellValue>, l: int, k: int) -> CellValue {
    cell_at(b, line_cell(l, k).0, line_cell(l, k).1)
}

/// Line `l` passes through the cell at row `i`, column `j`.
pub open spec fn passes_through(l: int, i: int, j: int) -> bool {
    exists|k: int| 0 <= k < 3 && line_cell(l, k) == (i, j)
}

/// Every cell of line `l` holds `v`.
pub open spec fn line_won(b: Seq<CellValue>, l: int, v: CellValue) -> bool {
    forall|k: int| 0 <= k < 3 ==> mark_on(b, l, k) == v
}

/// `v` has three in a row on some line of the board.
pub open spec fn wins(b: Seq<CellValue>, v: CellValue) -> bool {
    exists|l: int| 0 <= l < 8 && line_won(b, l, v)
}

/// `v` has three in a row on some line through the cell at row `i`, column `j`.
pub open spec fn won_through(b: Seq<CellValue>, i: int, j: int, v: CellValue) -> bool {
    exists|l: int| 0 <= l < 8 && passes_through(l, i, j) && line_won(b, l, v)
}

/// How many of the three cells of line `l` hold `v`.
pub open spec fn count_in_line(b: Seq<CellValue>, l: int, v: CellValue) -> int {
    (if mark_on(b, l, 0) == v {
        1int
    } else {
        0int
    }) + (if mark_on(b, l, 1) == v {
        1int
    } else {
        0int
    }) + (if mark_on(b, l, 2) == v {
        1int
    } else {
        0int
    })
}

/// The empty cell of line `l` that a scan of its three cells in order
/// leaves last in hand, if the line has one.
pub open spec fn last_empty_in_line(b: Seq<CellValue>, l: int) -> Option<(int, int)> {
    if mark_on(b, l, 2) == CellValue::Empty {
        Option::Some(line_cell(l, 2))
    } else if mark_on(b, l, 1) == CellValue::Empty {
        Option::Some(line_cell(l, 1))
    } else if mark_on(b, l, 0) == CellValue::Empty {
        Option::Some(line_cell(l, 0))
    } else {
        Option::None
    }
}

/// The indices of the winning lines through the cell at row `i`, column `j`,
/// in the order they are examined: its row, its column, then the diagonals
/// that contain it.
pub open spec fn neighbour_lines(i: int, j: int) -> Seq<int> {
    seq![i, 3 + j] + (if i == j {
        seq![6int]
    } else {
        Seq::<int>::empty()
    }) + (if i + j == 2 {
        seq![7int]
    } else {
        Seq::<int>::empty()
    })
}

/// A board is a well-formed 3x3 grid: nine cells.
pub open spec fn board_wf(b: Seq<CellValue>) -> bool {
    b.len() == 9
}

/// How many cells at flat index `n` or above are marked.
pub open spec fn filled_from(b: Seq<CellValue>, n: int) -> int
    decreases 9 - n,
{
    if n < 0 || n >= 9 {
        0
    } else {
        (if b[n] == CellValue::Empty {
            0int
        } else {
            1int
        }) + filled_from(b, n + 1)
    }
}

/// How many cells of the board are marked.
pub open spec fn filled_count(b: Seq<CellValue>) -> int {
    filled_from(b, 0)
}

/// The (row, column) positions, in row-major order, of the empty cells at
/// flat index `n` or above.
pub open spec fn empties_from(b: Seq<CellValue>, n: int) -> Seq<(int, int)>
    decreases 9 - n,
{
    if n < 0 || n >= 9 {
        Seq::<(int, int)>::empty()
    } else {
        let rest = empties_from(b, n + 1);
        if b[n] == CellValue::Empty {
            seq![(n / 3, n % 3)] + rest
        } else {
            rest
        }
    }
}

/// The (row, column) positions of the empty cells, in row-major order.
pub open spec fn empty_cells_of(b: Seq<CellValue>) -> Seq<(int, int)> {
    empties_from(b, 0)
}

/// No cell at index `n` or above of an all-empty board counts as marked.
proof fn lemma_filled_from_all_empty(b: Seq<CellValue>, n: int)
    requires
        forall|k: int| 0 <= k < 9 ==> b[k] == CellValue::Empty,
        0 <= n <= 9,
    ensures
        filled_from(b, n) == 0,
    decreases 9 - n,
{
    if n < 9 {
        lemma_filled_from_all_empty(b, n + 1);
    }
}

/// On an all-empty board no move has been made and nobody has won.
pub proof fn lemma_empty_board(b: Seq<CellValue>)
    requires
        board_wf(b),
        forall|k: int| 0 <= k < 9 ==> b[k] == CellValue::Empty,
    ensures
        filled_count(b) == 0,
        !wins(b, CellValue::X),
        !wins(b, CellValue::O),
{
    lemma_filled_from_all_empty(b, 0);
    assert forall|l: int, v: CellValue|
        0 <= l < 8 && v != CellValue::Empty implies !line_won(b, l, v) by {
        let p = line_cell(l, 0);
        assert(0 <= p.0 < 3 && 0 <= p.1 < 3);
        assert(mark_on(b, l, 0) == CellValue::Empty);
    }
}

/// Marked and empty cells at index `n` or above together account for all
/// `9 - n` of them.
pub proof fn lemma_counts(b: Seq<CellValue>, n: int)
    requires
        0 <= n <= 9,
    ensures
        filled_from(b, n) + empties_from(b, n).len() == 9 - n,
        0 <= filled_from(b, n) <= 9 - n,
    decreases 9 - n,
{
    if n < 9 {
        lemma_counts(b, n + 1);
    }
}

/// Every position that `empties_from` lists is an empty cell of the board,
/// in bounds.
pub proof fn lemma_empties_members(b: Seq<CellValue>, n: int)
    requires
        0 <= n <= 9,
    ensures
        forall|m: int|
            0 <= m < empties_from(b, n).len() ==> {
                let p = #[trigger] empties_from(b, n)[m];
                &&& 0 <= p.0 < 3
                &&& 0 <= p.1 < 3
                &&& b[idx(p.0, p.1)] == CellValue::Empty
            },
    decreases 9 - n,
{
    if 0 <= n < 9 {
        lemma_empties_members(b, n + 1);
    }
}

/// Marking the empty cell at flat index `p` raises by one the count of
/// marked cells at any index at or below `p`, and leaves the others alone.
pub proof fn lemma_filled_update_from(b: Seq<CellValue>, p: int, v: CellValue, n: int)
    requires
        board_wf(b),
        0 <= p < 9,
        b[p] == CellValue::Empty,
        v != CellValue::Empty,
        0 <= n <= 9,
    ensures
        filled_from(b.update(p, v), n) == filled_from(b, n) + (if n <= p {
            1int
        } else {
            0int
        }),
    decreases 9 - n,
{
    if n < 9 {
        lemma_filled_update_from(b, p, v, n + 1);
    }
}

/// Every line of `neighbour_lines(i, j)` is a winning line through the cell
/// at row `i`, column `j`, and those are all of them.
pub proof fn lemma_neighbour_lines_exact(i: int, j: int)
    requires
        0 <= i < 3,
        0 <= j < 3,
    ensures
        forall|m: int| 0 <= m < neighbour_lines(i, j).len() ==> {
            let l = #[trigger] neighbour_lines(i, j)[m];
            0 <= l < 8 && passes_through(l, i, j)
        },
        forall|l: int|
            0 <= l < 8 && #[trigger] passes_through(l, i, j) ==> neighbour_lines(i, j).contains(
                l,
            ),
{
    let ns = neighbour_lines(i, j);
    assert(ns[0] == i && ns[1] == 3 + j);
    assert(passes_through(i, i, j)) by {
        assert(line_cell(i, j) == (i, j));
    }
    assert(passes_through(3 + j, i, j)) by {
        assert(line_cell(3 + j, i) == (i, j));
    }
    if i == j {
        assert(ns[2] == 6);
        assert(passes_through(6, i, j)) by {
            assert(line_cell(6, i) == (i, j));
        }
    }
    if i + j == 2 {
        assert(ns[ns.len() - 1] == 7);
        assert(passes_through(7, i, j)) by {
            assert(line_cell(7, i) == (i, j));
        }
    }
    assert forall|l: int| 0 <= l < 8 && #[trigger] passes_through(l, i, j) implies ns.contains(
        l,
    ) by {
        let k = choose|k: int| 0 <= k < 3 && line_cell(l, k) == (i, j);
        if l < 3 {
            assert(l == i && ns[0] == l);
        } else if l < 6 {
            assert(l == 3 + j && ns[1] == l);
        } else if l == 6 {
            assert(i == j && ns[2] == l);
        } else {
            assert(i + j == 2 && ns[ns.len() - 1] == l);
        }
    }
}

/// A completed line through a cell is in particular a win.
pub proof fn lemma_won_through_wins(b: Seq<CellValue>, i: int, j: int, v: CellValue)
    requires
        won_through(b, i, j, v),
    ensures
        wins(b, v),
{
    let l = choose|l: int| 0 <= l < 8 && passes_through(l, i, j) && line_won(b, l, v);
    assert(0 <= l < 8 && line_won(b, l, v));
}

/// A line that does not pass through the cell at row `i`, column `j` reads
/// the same on the board before and after that cell is changed.
proof fn lemma_line_unchanged(b: Seq<CellValue>, i: int, j: int, v: CellValue, l: int)
    requires
        board_wf(b),
        0 <= i < 3,
        0 <= j < 3,
        0 <= l < 8,
        !passes_through(l, i, j),
    ensures
        forall|k: int| 0 <= k < 3 ==> mark_on(b.update(idx(i, j), v), l, k) == mark_on(b, l, k),
{
    assert forall|k: int| 0 <= k < 3 implies mark_on(b.update(idx(i, j), v), l, k) == mark_on(
        b,
        l,
        k,
    ) by {
        assert(line_cell(l, k) != (i, j));
        let (ci, cj) = line_cell(l, k);
        assert(0 <= ci < 3 && 0 <= cj < 3);
        assert(idx(ci, cj) != idx(i, j));
    }
}

/// A move that turns a position without a win for `v` into one with a win
/// for `v` wins through the cell it was played on, and nowhere else.
pub proof fn lemma_new_win_through_move(b: Seq<CellValue>, i: int, j: int, v: CellValue)
    requires
        board_wf(b),
        0 <= i < 3,
        0 <= j < 3,
        !wins(b, v),
    ensures
        wins(b.update(idx(i, j), v), v) <==> won_through(b.update(idx(i, j), v), i, j, v),
{
    let b2 = b.update(idx(i, j), v);
    if wins(b2, v) {
        let l = choose|l: int| 0 <= l < 8 && line_won(b2, l, v);
        if !passes_through(l, i, j) {
            lemma_line_unchanged(b, i, j, v, l);
            assert(line_won(b, l, v));
            assert(false);
        }
        assert(0 <= l < 8 && passes_through(l, i, j) && line_won(b2, l, v));
    }
    if won_through(b2, i, j, v) {
        lemma_won_through_wins(b2, i, j, v);
    }
}

/// Marking an empty cell never destroys a win already on the board.
pub proof fn lemma_win_preserved(b: Seq<CellValue>, i: int, j: int, v: CellValue, w: CellValue)
    requires
        board_wf(b),
        0 <= i < 3,
        0 <= j < 3,
        cell_at(b, i, j) == CellValue::Empty,
        w != CellValue::Empty,
        wins(b, w),
    ensures
        wins(b.update(idx(i, j), v), w),
{
    let b2 = b.update(idx(i, j), v);
    let l = choose|l: int| 0 <= l < 8 && line_won(b, l, w);
    if passes_through(l, i, j) {
        let k = choose|k: int| 0 <= k < 3 && line_cell(l, k) == (i, j);
        assert(mark_on(b, l, k) == w);
        assert(false);
    }
    lemma_line_unchanged(b, i, j, v, l);
    assert forall|k: int| 0 <= k < 3 implies mark_on(b2, l, k) == w by {
        assert(mark_on(b2, l, k) == mark_on(b, l, k));
    }
    assert(line_won(b2, l, w));
}

/// A move by one player never creates a win for the other.
pub proof fn lemma_no_win_for_other(b: Seq<CellValue>, i: int, j: int, v: CellValue, w: CellValue)
    requires
        board_wf(b),
        0 <= i < 3,
        0 <= j < 3,
        v != w,
        !wins(b, w),
    ensures
        !wins(b.update(idx(i, j), v), w),
{
    let b2 = b.update(idx(i, j), v);
    if wins(b2, w) {
        let l = choose|l: int| 0 <= l < 8 && line_won(b2, l, w);
        if passes_through(l, i, j) {
            let k = choose|k: int| 0 <= k < 3 && line_cell(l, k) == (i, j);
            assert(mark_on(b2, l, k) == v);
            assert(false);
        }
        lemma_line_unchanged(b, i, j, v, l);
        assert(line_won(b, l, w));
        assert(false);
    }
}

/// One cell of the executable board, carrying its mark and its
/// (row, column) position.
#[derive(Clone, Copy, PartialEq, Eq, Debug)]
pub struct TCell {
    pub value: CellValue,
    pub position: (usize, usize),
}

impl TCell {
    /// A fresh, empty cell at position `p`.
    pub fn new(p: (usize, usize)) -> (c: TCell)
        ensures
            c.value == CellValue::Empty,
            c.position == p,
    {
        TCell { value: CellValue::Empty, position: p }
    }

    /// Place `cell_value` here if the cell is still empty; report whether
    /// the mark was placed.
    pub fn update(&mut self, cell_value: CellValue) -> (placed: bool)
        ensures
            placed == (old(self).value == CellValue::Empty),
            placed ==> final(self).value == cell_value,
            !placed ==> final(self).value == old(self).value,
            final(self).position == old(self).position,
    {
        if self.value == CellValue::Empty {
            self.value = cell_value;
            true
        } else {
            false
        }
    }
}

/// The cell of line `l` at offset `k`, as executable coordinates.
pub fn line_cell_at(l: usize, k: usize) -> (p: (usize, usize))
    requires
        l < 8,
        k < 3,
    ensures
        (p.0 as int, p.1 as int) == line_cell(l as int, k as int),
        p.0 < 3,
        p.1 < 3,
{
    if l < 3 {
        (l, k)
    } else if l < 6 {
        (k, l - 3)
    } else if l == 6 {
        (k, k)
    } else {
        (k, 2 - k)
    }
}

} // verus!
