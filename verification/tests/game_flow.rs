use tictactoe::ai::empty_cells_from;
use tictactoe::ai::hard_move;
use tictactoe::CellValue;
use tictactoe::FirstPlayer;
use tictactoe::Hardness;
use tictactoe::Message;
use tictactoe::TCell;
use tictactoe::Tictactoe;
use tictactoe::Winner;

fn cell(g: &Tictactoe, i: usize, j: usize) -> CellValue {
    g.cells[3 * i + j].value
}

#[test]
fn new_game_is_blank() {
    let g = Tictactoe::new();
    assert_eq!(g.cells.len(), 9);
    for i in 0..3 {
        for j in 0..3 {
            assert_eq!(cell(&g, i, j), CellValue::Empty);
            assert_eq!(g.cells[3 * i + j].position, (i, j));
        }
    }
    assert_eq!(g.first_player, FirstPlayer::Human);
    assert_eq!(g.hardness, Hardness::Hard);
    assert!(!g.finished);
    assert_eq!(g.winner, Winner::Nobody);
    assert_eq!(g.moves, 0);
    assert_eq!(g.title(), "Tic Tac Toe");
}

#[test]
fn tcell_update_places_only_once() {
    let mut c = TCell::new((1, 2));
    assert_eq!(c.value, CellValue::Empty);
    assert_eq!(c.position, (1, 2));
    assert!(c.update(CellValue::X));
    assert_eq!(c.value, CellValue::X);
    assert!(!c.update(CellValue::O));
    assert_eq!(c.value, CellValue::X);
    assert_eq!(c.position, (1, 2));
}

#[test]
fn neighbours_lists_the_lines_through_a_cell() {
    assert_eq!(Tictactoe::neighbours((0, 0)), vec![0, 3, 6]);
    assert_eq!(Tictactoe::neighbours((1, 1)), vec![1, 4, 6, 7]);
    assert_eq!(Tictactoe::neighbours((0, 1)), vec![0, 4]);
    assert_eq!(Tictactoe::neighbours((2, 0)), vec![2, 3, 7]);
    assert_eq!(Tictactoe::neighbours((1, 2)), vec![1, 5]);
    assert_eq!(Tictactoe::neighbours((2, 2)), vec![2, 5, 6]);
}

#[test]
fn check_detects_a_completed_row() {
    let mut g = Tictactoe::new();
    g.place(0, 0, CellValue::X);
    g.place(0, 1, CellValue::X);
    g.place(0, 2, CellValue::X);
    g.check(0, 2, CellValue::X);
    assert!(g.finished);
    assert_eq!(g.winner, Winner::X);
    assert_eq!(g.title(), "Game Over - X Won");
}

#[test]
fn check_detects_a_completed_column_and_diagonals() {
    let mut g = Tictactoe::new();
    g.place(0, 1, CellValue::O);
    g.place(1, 1, CellValue::O);
    g.place(2, 1, CellValue::O);
    g.check(1, 1, CellValue::O);
    assert!(g.finished);
    assert_eq!(g.winner, Winner::O);
    assert_eq!(g.title(), "Game Over - O Won");

    let mut d = Tictactoe::new();
    d.place(0, 0, CellValue::X);
    d.place(1, 1, CellValue::X);
    d.place(2, 2, CellValue::X);
    d.check(1, 1, CellValue::X);
    assert!(d.finished);
    assert_eq!(d.winner, Winner::X);

    let mut a = Tictactoe::new();
    a.place(0, 2, CellValue::X);
    a.place(1, 1, CellValue::X);
    a.place(2, 0, CellValue::X);
    a.check(2, 0, CellValue::X);
    assert!(a.finished);
    assert_eq!(a.winner, Winner::X);
}

#[test]
fn check_without_a_win_changes_nothing_early() {
    let mut g = Tictactoe::new();
    g.place(0, 0, CellValue::X);
    g.check(0, 0, CellValue::X);
    assert!(!g.finished);
    assert_eq!(g.winner, Winner::Nobody);
    assert_eq!(g.title(), "Tic Tac Toe");
}

#[test]
fn hard_opponent_takes_the_centre_first() {
    let mut g = Tictactoe::new();
    g.update(Message::CellPressed(0, 0));
    assert_eq!(cell(&g, 0, 0), CellValue::X);
    assert_eq!(cell(&g, 1, 1), CellValue::O);
    assert_eq!(g.moves, 2);
    assert!(!g.finished);
}

#[test]
fn hard_opponent_blocks_a_threat() {
    let mut g = Tictactoe::new();
    g.update(Message::CellPressed(0, 0));
    g.update(Message::CellPressed(0, 2));
    // The human holds (0,0) and (0,2); the only empty cell of the top row
    // is (0,1), and the computer must take it.
    assert_eq!(cell(&g, 0, 1), CellValue::O);
    assert_eq!(g.moves, 4);
    assert!(!g.finished);
}

#[test]
fn hard_opponent_prefers_winning_to_blocking() {
    let mut g = Tictactoe::new();
    g.update(Message::CellPressed(0, 0));
    // Computer: centre (1,1).
    g.update(Message::CellPressed(0, 1));
    // Computer blocks the top row at (0,2).
    assert_eq!(cell(&g, 0, 2), CellValue::O);
    g.update(Message::CellPressed(1, 0));
    // The human now threatens the left column, but the computer holds
    // (1,1) and (0,2) and wins on the anti-diagonal at (2,0) instead of
    // blocking.
    assert_eq!(cell(&g, 2, 0), CellValue::O);
    assert!(g.finished);
    assert_eq!(g.winner, Winner::O);
    assert_eq!(g.title(), "Game Over - O Won");
}

#[test]
fn full_game_against_hard_opponent_ends_in_a_draw() {
    let mut g = Tictactoe::new();
    g.update(Message::CellPressed(1, 1));
    assert_eq!(cell(&g, 0, 0), CellValue::O);
    g.update(Message::CellPressed(0, 1));
    assert_eq!(cell(&g, 2, 1), CellValue::O);
    g.update(Message::CellPressed(2, 2));
    assert_eq!(cell(&g, 0, 2), CellValue::O);
    g.update(Message::CellPressed(2, 0));
    assert_eq!(cell(&g, 1, 0), CellValue::O);
    g.update(Message::CellPressed(1, 2));
    assert_eq!(g.moves, 9);
    assert!(g.finished);
    assert_eq!(g.winner, Winner::Nobody);
    assert_eq!(g.title(), "Game Over - Draw");
}

#[test]
fn pressing_an_occupied_cell_does_nothing() {
    let mut g = Tictactoe::new();
    g.update(Message::CellPressed(0, 0));
    let before_moves = g.moves;
    g.update(Message::CellPressed(0, 0));
    g.update(Message::CellPressed(1, 1));
    assert_eq!(g.moves, before_moves);
    assert_eq!(cell(&g, 0, 0), CellValue::X);
    assert_eq!(cell(&g, 1, 1), CellValue::O);
}

#[test]
fn pressing_after_the_match_is_over_does_nothing() {
    let mut g = Tictactoe::new();
    g.update(Message::CellPressed(0, 0));
    g.update(Message::CellPressed(0, 1));
    g.update(Message::CellPressed(1, 0));
    assert!(g.finished);
    let moves = g.moves;
    g.update(Message::CellPressed(2, 1));
    assert_eq!(g.moves, moves);
    assert_eq!(cell(&g, 2, 1), CellValue::Empty);
}

#[test]
fn toggling_hardness_only_changes_the_setting() {
    let mut g = Tictactoe::new();
    g.update(Message::ToggleHardness(Hardness::Random));
    assert_eq!(g.hardness, Hardness::Random);
    assert_eq!(g.moves, 0);
    assert!(!g.finished);
    for k in 0..9 {
        assert_eq!(g.cells[k].value, CellValue::Empty);
    }
}

#[test]
fn toggling_first_player_hands_the_computer_the_turn() {
    let mut g = Tictactoe::new();
    g.update(Message::ToggleFirstPlayer(FirstPlayer::Computer));
    assert_eq!(g.first_player, FirstPlayer::Computer);
    // The computer now plays X and opens in the centre.
    assert_eq!(cell(&g, 1, 1), CellValue::X);
    assert_eq!(g.moves, 1);
    // The human answers with O.
    g.update(Message::CellPressed(0, 0));
    assert_eq!(cell(&g, 0, 0), CellValue::O);
}

#[test]
fn hard_move_on_a_blank_board_is_the_centre() {
    let g = Tictactoe::new();
    let m = hard_move(&g.cells, CellValue::O, CellValue::X);
    assert_eq!(m, Some((1, 1)));
}

#[test]
fn hard_move_skips_a_full_two_line_without_an_empty_cell() {
    // The main diagonal holds two X around an O centre, so it counts two
    // for X but offers no empty cell; the computer must fall back to the
    // positional order, whose first free cell is the corner (0,2).
    let mut g = Tictactoe::new();
    g.place(0, 0, CellValue::O);
    g.place(1, 1, CellValue::X);
    g.place(2, 2, CellValue::X);
    let m = hard_move(&g.cells, CellValue::O, CellValue::X);
    assert_eq!(m, Some((0, 2)));
}

#[test]
fn hard_move_on_a_full_board_is_none() {
    let mut g = Tictactoe::new();
    let marks = [
        CellValue::X,
        CellValue::O,
        CellValue::X,
        CellValue::O,
        CellValue::X,
        CellValue::O,
        CellValue::O,
        CellValue::X,
        CellValue::O,
    ];
    for i in 0..3 {
        for j in 0..3 {
            g.place(i, j, marks[3 * i + j]);
        }
    }
    assert_eq!(hard_move(&g.cells, CellValue::O, CellValue::X), None);
}

#[test]
fn empty_cells_come_out_in_row_major_order() {
    let g = Tictactoe::new();
    let all = empty_cells_from(&g.cells, 0);
    assert_eq!(all.len(), 9);
    for i in 0..3 {
        for j in 0..3 {
            assert_eq!(all[3 * i + j], (i, j));
        }
    }
    let mut h = Tictactoe::new();
    h.place(0, 1, CellValue::X);
    h.place(2, 2, CellValue::O);
    let rest = empty_cells_from(&h.cells, 0);
    assert_eq!(rest, vec![(0, 0), (0, 2), (1, 0), (1, 1), (1, 2), (2, 0), (2, 1)]);
}

#[test]
fn random_opponent_fills_the_last_empty_cell() {
    // Eight marks with no three in a row; only (1,2) stays free. With a
    // single empty cell the random pick is forced, so the move and the
    // draw that follows are deterministic.
    let mut g = Tictactoe::new();
    g.place(0, 0, CellValue::O);
    g.place(0, 1, CellValue::X);
    g.place(0, 2, CellValue::O);
    g.place(1, 0, CellValue::O);
    g.place(1, 1, CellValue::X);
    g.place(2, 0, CellValue::X);
    g.place(2, 1, CellValue::O);
    g.place(2, 2, CellValue::X);
    g.update(Message::ToggleHardness(Hardness::Random));
    g.next();
    assert_eq!(cell(&g, 1, 2), CellValue::O);
    assert_eq!(g.moves, 9);
    assert!(g.finished);
    assert_eq!(g.winner, Winner::Nobody);
}

#[test]
fn random_opponent_takes_one_of_the_free_cells() {
    let mut g = Tictactoe::new();
    g.place(0, 0, CellValue::O);
    g.place(0, 1, CellValue::X);
    g.place(0, 2, CellValue::O);
    g.place(1, 0, CellValue::O);
    g.place(1, 1, CellValue::X);
    g.place(2, 0, CellValue::X);
    g.place(2, 2, CellValue::X);
    g.update(Message::ToggleHardness(Hardness::Random));
    g.next();
    assert_eq!(g.moves, 8);
    let took_12 = cell(&g, 1, 2) == CellValue::O;
    let took_21 = cell(&g, 2, 1) == CellValue::O;
    assert!(took_12 || took_21);
    assert!(!(took_12 && took_21));
}

#[test]
fn labels_match_the_displayed_text() {
    assert_eq!(CellValue::Empty.text(), "");
    assert_eq!(CellValue::X.text(), "X");
    assert_eq!(CellValue::O.text(), "O");
    assert_eq!(FirstPlayer::Human.label(), "Human");
    assert_eq!(FirstPlayer::Computer.label(), "Computer");
    assert_eq!(Hardness::Hard.label(), "Hard");
    assert_eq!(Hardness::Random.label(), "Random");
}
