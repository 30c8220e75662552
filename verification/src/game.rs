//! The game state: settings, outcome, and the synchronous event handler
//! that drives a match between the human and the computer.

use vstd::prelude::*;
use vstd::string::StringExecFns;
use vstd::pervasive::VecAdditionalExecFns;

use crate::ai::next_rel;
use crate::board::CellValue;
use crate::board::TCell;
use crate::board::cell_at;
use crate::board::filled_count;
use crate::board::idx;
use crate::board::lemma_counts;
use crate::board::lemma_empty_board;
use crate::board::lemma_filled_update_from;
use crate::board::lemma_neighbour_lines_exact;
use crate::board::lemma_new_win_through_move;
use crate::board::lemma_no_win_for_other;
use crate::board::lemma_win_preserved;
use crate::board::lemma_won_through_wins;
use crate::board::line_won;
use crate::board::mark_on;
use crate::board::neighbour_lines;
use crate::board::passes_through;
use crate::board::wins;
use crate::board::won_through;

verus! {

/// Who makes the first move of a match. The first player's mark is X.
#[derive(Clone, Copy, PartialEq, Eq, Structural, Debug)]
pub enum FirstPlayer {
    Human,
    Computer,
}

/// How the computer picks its moves: by the win/block/priority heuristic,
/// or uniformly at random among the empty cells.
#[derive(Clone, Copy, PartialEq, Eq, Structural, Debug)]
pub enum Hardness {
    Random,
    Hard,
}

/// The outcome of a match once it is finished; `Nobody` while it runs and
/// on a draw.
#[derive(Clone, Copy, PartialEq, Eq, Structural, Debug)]
pub enum Winner {
    X,
    O,
    Nobody,
}

/// One event from the outside: a cell was pressed, or a setting toggled.
#[derive(Clone, Copy, Debug)]
pub enum Message {
    CellPressed(usize, usize),
    ToggleHardness(Hardness),
    ToggleFirstPlayer(FirstPlayer),
}

/// The mark the human plays with: X when the human moves first.
pub open spec fn human_value(fp: FirstPlayer) -> CellValue {
    match fp {
        FirstPlayer::Human => CellValue::X,
        FirstPlayer::Computer => CellValue::O,
    }
}

/// The mark the computer plays with: the one the human does not.
pub open spec fn computer_value(fp: FirstPlayer) -> CellValue {
    match fp {
        FirstPlayer::Human => CellValue::O,
        FirstPlayer::Computer => CellValue::X,
    }
}

/// The winner recorded for a completed line of `v` marks.
pub open spec fn winner_for(v: CellValue) -> Winner {
    match v {
        CellValue::X => Winner::X,
        CellValue::O => Winner::O,
        CellValue::Empty => Winner::Nobody,
    }
}

/// The marks of a row-major sequence of cells.
pub open spec fn board_of(cells: Seq<TCell>) -> Seq<CellValue> {
    cells.map_values(|c: TCell| c.value)
}

/// `post` is `pre` after one whole move: the mark `v` was placed on the
/// empty cell at row `i`, column `j`, the move was counted, and the
/// outcome rule was applied — a completed line through the cell ends the
/// match with `v`'s winner, a ninth move without one ends it in a draw,
/// and otherwise the outcome is untouched.
pub open spec fn plays_at(pre: Tictactoe, post: Tictactoe, i: int, j: int, v: CellValue) -> bool {
    &&& 0 <= i < 3 && 0 <= j < 3
    &&& cell_at(pre.board(), i, j) == CellValue::Empty
    &&& post.board() == pre.board().update(idx(i, j), v)
    &&& post.moves == pre.moves + 1
    &&& post.first_player == pre.first_player
    &&& post.hardness == pre.hardness
    &&& (if won_through(post.board(), i, j, v) {
        post.finished && post.winner == winner_for(v)
    } else if post.moves >= 9 {
        post.finished && post.winner == Winner::Nobody
    } else {
        post.finished == pre.finished && post.winner == pre.winner
    })
}

/// `g` with the first player switched to `p` and all else as it was.
pub open spec fn with_first_player(g: Tictactoe, p: FirstPlayer) -> Tictactoe {
    Tictactoe { first_player: p, ..g }
}

/// One whole move by X or O keeps the full invariant: a match that still
/// runs afterwards has no three in a row, and a recorded winner keeps a
/// completed line.
pub proof fn lemma_move_preserves_wf(
    pre: Tictactoe,
    post: Tictactoe,
    i: int,
    j: int,
    v: CellValue,
)
    requires
        pre.wf(),
        post.wf_struct(),
        v == CellValue::X || v == CellValue::O,
        plays_at(pre, post, i, j, v),
    ensures
        post.wf(),
{
    let b = pre.board();
    let b2 = post.board();
    let w = if v == CellValue::X {
        CellValue::O
    } else {
        CellValue::X
    };
    if won_through(b2, i, j, v) {
        lemma_won_through_wins(b2, i, j, v);
    } else {
        if !pre.finished {
            lemma_new_win_through_move(b, i, j, v);
            lemma_no_win_for_other(b, i, j, v, w);
        }
        if pre.winner == Winner::X {
            lemma_win_preserved(b, i, j, v, CellValue::X);
        }
        if pre.winner == Winner::O {
            lemma_win_preserved(b, i, j, v, CellValue::O);
        }
    }
}

/// The whole state of one match.
pub struct Tictactoe {
    pub cells: Vec<TCell>,
    pub first_player: FirstPlayer,
    pub hardness: Hardness,
    pub finished: bool,
    pub winner: Winner,
    pub moves: u8,
}

impl Tictactoe {
    /// The marks of the board, row-major.
    pub open spec fn board(self) -> Seq<CellValue> {
        board_of(self.cells@)
    }

    /// The structural invariant: nine cells, each knowing its own position,
    /// and `moves` counting exactly the marks on the board.
    pub open spec fn wf_struct(self) -> bool {
        &&& self.cells@.len() == 9
        &&& forall|k: int|
            0 <= k < 9 ==> (#[trigger] self.cells@[k]).position.0 as int == k / 3
                && self.cells@[k].position.1 as int == k % 3
        &&& self.moves as int == filled_count(self.board())
    }

    /// The full invariant: on top of the structure, a match that is not
    /// finished has no three in a row and no winner yet, and a recorded
    /// winner really has three in a row.
    pub open spec fn wf(self) -> bool {
        &&& self.wf_struct()
        &&& !self.finished ==> !wins(self.board(), CellValue::X) && !wins(
            self.board(),
            CellValue::O,
        ) && self.winner == Winner::Nobody
        &&& self.winner == Winner::X ==> wins(self.board(), CellValue::X)
        &&& self.winner == Winner::O ==> wins(self.board(), CellValue::O)
    }

    /// A fresh match: an empty board, the human first, the hard opponent,
    /// nothing decided.
    pub fn new() -> (g: Tictactoe)
        ensures
            g.wf(),
            g.board().len() == 9,
            forall|k: int| 0 <= k < 9 ==> g.board()[k] == CellValue::Empty,
            g.first_player == FirstPlayer::Human,
            g.hardness == Hardness::Hard,
            !g.finished,
            g.winner == Winner::Nobody,
            g.moves == 0,
    {
        let mut cells: Vec<TCell> = Vec::new();
        let mut n: usize = 0;
        while n < 9
            invariant
                n <= 9,
                cells@.len() == n as int,
                forall|k: int|
                    0 <= k < n ==> (#[trigger] cells@[k]).value == CellValue::Empty
                        && cells@[k].position.0 as int == k / 3 && cells@[k].position.1 as int == k
                        % 3,
            decreases 9 - n,
        {
            cells.push(TCell::new((n / 3, n % 3)));
            n = n + 1;
        }
        let g = Tictactoe {
            cells,
            first_player: FirstPlayer::Human,
            hardness: Hardness::Hard,
            finished: false,
            winner: Winner::Nobody,
            moves: 0,
        };
        proof {
            assert(forall|k: int| 0 <= k < 9 ==> g.board()[k] == CellValue::Empty);
            lemma_empty_board(g.board());
        }
        g
    }

    /// Place `v` at row `i`, column `j` if that cell is still empty, and
    /// count the move; report whether the mark was placed.
    pub fn place(&mut self, i: usize, j: usize, v: CellValue) -> (placed: bool)
        requires
            old(self).wf_struct(),
            i < 3,
            j < 3,
            v != CellValue::Empty,
        ensures
            final(self).wf_struct(),
            placed == (cell_at(old(self).board(), i as int, j as int) == CellValue::Empty),
            placed ==> final(self).board() == old(self).board().update(
                idx(i as int, j as int),
                v,
            ) && final(self).moves == old(self).moves + 1,
            !placed ==> *final(self) == *old(self),
            final(self).first_player == old(self).first_player,
            final(self).hardness == old(self).hardness,
            final(self).finished == old(self).finished,
            final(self).winner == old(self).winner,
    {
        let k: usize = 3 * i + j;
        let mut c = self.cells[k];
        let placed = c.update(v);
        if placed {
            proof {
                lemma_counts(self.board(), 0);
                lemma_filled_update_from(self.board(), idx(i as int, j as int), v, 0);
            }
            self.cells.set(k, c);
            assert(self.board() =~= old(self).board().update(idx(i as int, j as int), v));
            self.moves = self.moves + 1;
        } else {
            assert(self.cells@ =~= old(self).cells@);
        }
        placed
    }

    /// The indices of the winning lines through the cell at `p`, in the
    /// order they are examined.
    pub fn neighbours(p: (usize, usize)) -> (r: Vec<usize>)
        requires
            p.0 < 3,
            p.1 < 3,
        ensures
            r@.len() == neighbour_lines(p.0 as int, p.1 as int).len(),
            forall|m: int|
                0 <= m < r@.len() ==> #[trigger] r@[m] as int == neighbour_lines(
                    p.0 as int,
                    p.1 as int,
                )[m],
    {
        let (i, j) = p;
        let mut r: Vec<usize> = Vec::new();
        r.push(i);
        r.push(3 + j);
        if i == j {
            r.push(6);
        }
        if i + j == 2 {
            r.push(7);
        }
        r
    }

    /// After the mark `v` was played at row `i`, column `j`: a completed
    /// line through that cell ends the match with `v`'s winner; failing
    /// that, a ninth move ends it in a draw; otherwise nothing changes.
    pub fn check(&mut self, i: usize, j: usize, cell_value: CellValue)
        requires
            old(self).wf_struct(),
            i < 3,
            j < 3,
        ensures
            final(self).wf_struct(),
            final(self).cells@ == old(self).cells@,
            final(self).moves == old(self).moves,
            final(self).first_player == old(self).first_player,
            final(self).hardness == old(self).hardness,
            won_through(old(self).board(), i as int, j as int, cell_value) ==> final(self).finished
                && final(self).winner == winner_for(cell_value),
            !won_through(old(self).board(), i as int, j as int, cell_value) && old(self).moves >= 9
                ==> final(self).finished && final(self).winner == Winner::Nobody,
            !won_through(old(self).board(), i as int, j as int, cell_value) && old(self).moves < 9
                ==> final(self).finished == old(self).finished && final(self).winner == old(self).winner,
    {
        proof {
            lemma_neighbour_lines_exact(i as int, j as int);
        }
        let ghost b = self.board();
        let neighbours = Self::neighbours((i, j));
        let mut won = false;
        let mut m: usize = 0;
        while m < neighbours.len()
            invariant
                self == old(self),
                old(self).wf_struct(),
                b == self.board(),
                m <= neighbours@.len(),
                neighbours@.len() == neighbour_lines(i as int, j as int).len(),
                forall|t: int|
                    0 <= t < neighbours@.len() ==> #[trigger] neighbours@[t] as int
                        == neighbour_lines(i as int, j as int)[t],
                forall|t: int|
                    0 <= t < neighbour_lines(i as int, j as int).len() ==> {
                        let l = #[trigger] neighbour_lines(i as int, j as int)[t];
                        0 <= l < 8 && passes_through(l, i as int, j as int)
                    },
                !won ==> forall|t: int|
                    0 <= t < m ==> !line_won(
                        b,
                        #[trigger] neighbour_lines(i as int, j as int)[t],
                        cell_value,
                    ),
                won ==> won_through(b, i as int, j as int, cell_value),
            decreases neighbours@.len() - m,
        {
            let l = neighbours[m];
            if Self::line_filled_with(&self.cells, l, cell_value) {
                won = true;
            }
            m = m + 1;
        }
        proof {
            if !won && won_through(b, i as int, j as int, cell_value) {
                let l = choose|l: int|
                    0 <= l < 8 && passes_through(l, i as int, j as int) && line_won(
                        b,
                        l,
                        cell_value,
                    );
                assert(neighbour_lines(i as int, j as int).contains(l));
            }
        }
        if won {
            self.finished = true;
            self.winner = match cell_value {
                CellValue::X => Winner::X,
                CellValue::O => Winner::O,
                _ => Winner::Nobody,
            };
        } else if self.moves >= 9 {
            self.finished = true;
            self.winner = Winner::Nobody;
        }
    }

    /// Whether every cell of winning line `l` holds `v`.
    pub fn line_filled_with(cells: &Vec<TCell>, l: usize, v: CellValue) -> (r: bool)
        requires
            cells@.len() == 9,
            l < 8,
        ensures
            r == line_won(board_of(cells@), l as int, v),
    {
        let ghost b = board_of(cells@);
        let p0 = crate::board::line_cell_at(l, 0);
        let p1 = crate::board::line_cell_at(l, 1);
        let p2 = crate::board::line_cell_at(l, 2);
        let r = cells[3 * p0.0 + p0.1].value == v && cells[3 * p1.0 + p1.1].value == v && cells[3
            * p2.0 + p2.1].value == v;
        proof {
            assert(mark_on(b, l as int, 0) == b[idx(p0.0 as int, p0.1 as int)]);
            assert(mark_on(b, l as int, 1) == b[idx(p1.0 as int, p1.1 as int)]);
            assert(mark_on(b, l as int, 2) == b[idx(p2.0 as int, p2.1 as int)]);
            if r {
                assert forall|k: int| 0 <= k < 3 implies mark_on(b, l as int, k) == v by {
                    if k == 0 {
                    } else if k == 1 {
                    } else {
                        assert(k == 2);
                    }
                }
            }
        }
        r
    }

    /// Handle one event. A press on a cell makes the human's move if the
    /// match still runs and the cell is free, and, if that does not end
    /// the match, lets the computer answer. A toggle changes a setting;
    /// switching the first player also hands the computer the turn.
    pub fn update(&mut self, message: Message)
        requires
            old(self).wf(),
            message matches Message::CellPressed(i, j) ==> i < 3 && j < 3,
            message matches Message::ToggleFirstPlayer(_) && old(self).hardness
                == Hardness::Random ==> old(self).moves < 9,
        ensures
            final(self).wf(),
            message matches Message::ToggleHardness(h) ==> *final(self) == (Tictactoe {
                hardness: h,
                ..*old(self)
            }),
            message matches Message::ToggleFirstPlayer(p) ==> next_rel(
                with_first_player(*old(self), p),
                *final(self),
            ),
            message matches Message::CellPressed(i, j) ==> {
                let pre = *old(self);
                let hv = human_value(pre.first_player);
                if pre.finished || cell_at(pre.board(), i as int, j as int) != CellValue::Empty {
                    *final(self) == pre
                } else {
                    exists|mid: Tictactoe|
                        #[trigger] plays_at(pre, mid, i as int, j as int, hv) && (if mid.finished {
                            *final(self) == mid
                        } else {
                            next_rel(mid, *final(self))
                        })
                }
            },
    {
        let ghost pre = *self;
        match message {
            Message::CellPressed(i, j) => {
                if !self.finished {
                    let value = match self.first_player {
                        FirstPlayer::Human => CellValue::X,
                        FirstPlayer::Computer => CellValue::O,
                    };
                    if self.place(i, j, value) {
                        self.check(i, j, value);
                        proof {
                            assert(plays_at(pre, *self, i as int, j as int, value));
                            lemma_move_preserves_wf(pre, *self, i as int, j as int, value);
                        }
                        let ghost mid = *self;
                        if !self.finished {
                            self.next();
                        }
                        proof {
                            assert(plays_at(
                                pre,
                                mid,
                                i as int,
                                j as int,
                                human_value(pre.first_player),
                            ));
                        }
                    }
                }
            },
            Message::ToggleHardness(hardness) => {
                self.hardness = hardness;
            },
            Message::ToggleFirstPlayer(player) => {
                self.first_player = player;
                proof {
                    assert(*self == with_first_player(pre, player));
                }
                self.next();
            },
        }
    }

    /// The window title: the outcome once the match is finished, the name
    /// of the game while it runs.
    pub fn title(&self) -> (r: String)
        ensures
            self.finished && self.winner == Winner::Nobody ==> r@ == "Game Over - Draw"@,
            self.finished && self.winner == Winner::X ==> r@ == "Game Over - X Won"@,
            self.finished && self.winner == Winner::O ==> r@ == "Game Over - O Won"@,
            !self.finished ==> r@ == "Tic Tac Toe"@,
    {
        if self.finished {
            match self.winner {
                Winner::Nobody => String::from_str("Game Over - Draw"),
                Winner::X => String::from_str("Game Over - X Won"),
                Winner::O => String::from_str("Game Over - O Won"),
            }
        } else {
            String::from_str("Tic Tac Toe")
        }
    }
}

impl CellValue {
    /// The text shown on a cell holding this mark.
    pub fn text(&self) -> (r: String)
        ensures
            *self == CellValue::Empty ==> r@ == ""@,
            *self == CellValue::X ==> r@ == "X"@,
            *self == CellValue::O ==> r@ == "O"@,
    {
        match self {
            CellValue::Empty => String::from_str(""),
            CellValue::X => String::from_str("X"),
            CellValue::O => String::from_str("O"),
        }
    }
}

impl FirstPlayer {
    /// The text naming this choice of first player.
    pub fn label(&self) -> (r: String)
        ensures
            *self == FirstPlayer::Computer ==> r@ == "Computer"@,
            *self == FirstPlayer::Human ==> r@ == "Human"@,
    {
        match self {
            FirstPlayer::Computer => String::from_str("Computer"),
            FirstPlayer::Human => String::from_str("Human"),
        }
    }
}

impl Hardness {
    /// The text naming this difficulty.
    pub fn label(&self) -> (r: String)
        ensures
            *self == Hardness::Hard ==> r@ == "Hard"@,
            *self == Hardness::Random ==> r@ == "Random"@,
    {
        match self {
            Hardness::Hard => String::from_str("Hard"),
            Hardness::Random => String::from_str("Random"),
        }
    }
}

} // verus!
