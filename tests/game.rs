use game27::{Action, Game27, GameError, Piece, SIZE};

fn same_action(e: Vec<Action>, g: Vec<(usize, usize)>) {
    assert_eq!(e.len(), g.len());
    for (y, x) in g {
        assert!(e.iter().any(|a| a == &Action::Move(y, x)))
    }
}

fn board_of(cols: [Vec<Piece>; SIZE], first_turn: bool) -> Game27 {
    Game27 { board: cols, first_turn }
}

fn column(p: Piece, n: usize) -> Vec<Piece> {
    vec![p; n]
}

#[test]
fn test_board() {
    let mut board = Game27::new();
    let playable = board.playable();

    let mut expected_playable = vec![];
    for i in 1..SIZE + 1 {
        expected_playable.push((0, i))
    }

    println!("{:?}", board);
    println!("{:?}", playable);
    same_action(playable, expected_playable);

    board.act(Action::Move(0, 4)).unwrap();
    println!("{}", board.render());
    println!("{:?}", board.playable());
    assert_eq!(board.board[0].len(), SIZE - 4);
    assert_eq!(board.board[1].len(), 4);

    let moves = [(8, 8), (1, 4), (7, 4), (3, 4), (7, 3), (0, 4)];
    for (c, i) in &moves {
        println!("{} {}", c, i);
        board.act(Action::Move(*c, *i)).unwrap();
        println!("{}", board.render());
        println!("{:?}", board.playable());
    }
}

#[test]
fn initial_playable_is_nine_moves_out_of_column_zero() {
    let g = Game27::new();
    let expected: Vec<Action> = (1..=9).map(|i| Action::Move(0, i)).collect();
    assert_eq!(g.playable(), expected);
    assert_eq!(g.count_tower(), 1);
    assert_eq!(g.move_to(0), 1);
    assert_eq!(g.active(), Piece::First);
}

#[test]
fn pieces_are_conserved_along_a_game() {
    let mut g = Game27::new();
    let moves = [(0, 4), (8, 8), (1, 4), (7, 4), (3, 4), (7, 3), (0, 4)];
    for (c, i) in &moves {
        g.act(Action::Move(*c, *i)).unwrap();
        let total: usize = g.board.iter().map(|col| col.len()).sum();
        assert_eq!(total, 18);
    }
}

#[test]
fn is_end_leaves_the_state_alone() {
    let mut g = Game27::new();
    g.act(Action::Move(0, 4)).unwrap();
    let before = g.clone();
    let p = g.playable();
    assert!(!g.is_end());
    assert!(!g.is_end());
    assert_eq!(g.playable(), p);
    assert_eq!(g.board, before.board);
    assert_eq!(g.first_turn, before.first_turn);
}

#[test]
fn pass_refused_while_a_move_exists() {
    let mut g = Game27::new();
    assert_eq!(g.act(Action::Pass), Err(GameError::IllegalPass));
    assert!(g.first_turn);
    assert_eq!(g.board[0].len(), 9);
}

#[test]
fn pass_accepted_when_only_pass_is_playable() {
    // First's only tower sits on the last column and cannot move; Second can.
    let mut cols: [Vec<Piece>; SIZE] = Default::default();
    cols[8] = column(Piece::First, 9);
    cols[4] = column(Piece::Second, 9);
    let mut g = board_of(cols, true);
    assert_eq!(g.playable(), vec![Action::Pass]);
    assert!(!g.is_end());
    assert_eq!(g.act(Action::Pass), Ok(()));
    assert!(!g.first_turn);
    assert_eq!(g.board[8].len(), 9);
    assert_eq!(g.board[4].len(), 9);
}

#[test]
fn turn_alternates_after_each_accepted_action() {
    let mut g = Game27::new();
    assert_eq!(g.active(), Piece::First);
    g.act(Action::Move(0, 4)).unwrap();
    assert_eq!(g.active(), Piece::Second);
    g.act(Action::Move(8, 8)).unwrap();
    assert_eq!(g.active(), Piece::First);
    assert!(g.act(Action::Move(5, 1)).is_err());
    assert_eq!(g.active(), Piece::First);
}

#[test]
fn all_pieces_on_last_column_score_eighteen() {
    let mut cols: [Vec<Piece>; SIZE] = Default::default();
    cols[8] = column(Piece::First, 18);
    let g = board_of(cols, true);
    assert!(g.is_end());
    assert_eq!(g.result(), 18);
    assert_eq!(g.render(), "\n\n\n\n\n\n\n\nOOOOOOOOOOOOOOOOOO\nOver! Result: 18\n");
}

#[test]
fn all_pieces_on_first_column_score_minus_eighteen() {
    let mut cols: [Vec<Piece>; SIZE] = Default::default();
    cols[0] = column(Piece::Second, 18);
    let g = board_of(cols, false);
    assert!(g.is_end());
    assert_eq!(g.result(), -18);
    assert_eq!(g.render(), "XXXXXXXXXXXXXXXXXX\n\n\n\n\n\n\n\n\nOver! Result: -18\n");
}

#[test]
fn first_move_of_four_and_second_player_reply() {
    let mut g = Game27::new();
    assert_eq!(g.act(Action::Move(0, 4)), Ok(()));
    assert_eq!(g.board[0].len(), 5);
    assert_eq!(g.board[1].len(), 4);
    assert_eq!(g.active(), Piece::Second);
    let expected: Vec<Action> = (1..=9).map(|i| Action::Move(8, i)).collect();
    assert_eq!(g.playable(), expected);
    assert_eq!(g.move_to(8), 7);
}

#[test]
fn rejected_actions_on_the_initial_state() {
    let mut g = Game27::new();
    assert_eq!(g.act(Action::Move(0, 10)), Err(GameError::InvalidSplitSize));
    assert_eq!(g.act(Action::Move(5, 1)), Err(GameError::EmptyColumn));
    assert_eq!(g.act(Action::Move(0, 0)), Err(GameError::InvalidSplitSize));
    assert_eq!(g.act(Action::Move(9, 1)), Err(GameError::InvalidColumn));
    assert_eq!(g.act(Action::Move(8, 1)), Err(GameError::NotYourTower));
    assert_eq!(g.board[0].len(), 9);
    assert_eq!(g.board[8].len(), 9);
    assert!(g.first_turn);
}

#[test]
fn destination_off_the_board_is_refused() {
    let mut cols: [Vec<Piece>; SIZE] = Default::default();
    cols[3] = column(Piece::First, 9);
    cols[8] = column(Piece::First, 9);
    let mut g = board_of(cols, true);
    assert_eq!(g.count_tower(), 2);
    assert_eq!(g.move_to(8), 10);
    assert_eq!(g.act(Action::Move(8, 1)), Err(GameError::DestinationOutOfRange));
    assert_eq!(g.playable(), (1..=9).map(|i| Action::Move(3, i)).collect::<Vec<_>>());
}

#[test]
fn no_action_after_the_end() {
    let mut cols: [Vec<Piece>; SIZE] = Default::default();
    cols[8] = column(Piece::First, 18);
    let mut g = board_of(cols, true);
    assert_eq!(g.act(Action::Pass), Err(GameError::GameOver));
    assert_eq!(g.act(Action::Move(8, 1)), Err(GameError::GameOver));
    assert!(g.first_turn);
}

#[test]
fn moved_pieces_keep_their_order_on_top_of_the_destination() {
    let mut cols: [Vec<Piece>; SIZE] = Default::default();
    cols[2] = vec![Piece::First, Piece::Second, Piece::First];
    cols[3] = vec![Piece::Second, Piece::Second];
    let mut g = board_of(cols, true);
    g.act(Action::Move(2, 2)).unwrap();
    assert_eq!(g.board[2], vec![Piece::First]);
    assert_eq!(g.board[3], vec![Piece::First, Piece::Second, Piece::Second, Piece::Second]);
}

#[test]
fn initial_rendering() {
    let g = Game27::new();
    assert_eq!(g.render(), "OOOOOOOOO\n\n\n\n\n\n\n\nXXXXXXXXX\nX's turn\n");
}

#[test]
fn result_counts_end_columns() {
    let mut g = Game27::new();
    assert_eq!(g.result(), 0);
    g.act(Action::Move(0, 4)).unwrap();
    assert_eq!(g.result(), 4);
}
