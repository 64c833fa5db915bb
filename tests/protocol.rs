use game27::{Action, Input, ParseError, PlayError, RandomPlayer};

#[test]
fn test_player() {
    let mut p0 = RandomPlayer::new();
    let mut p1 = RandomPlayer::new();
    p0.play("init 0").unwrap();
    p1.play("init 1").unwrap();
    for _ in 0..100 {
        println!("{:?}", p0.board.as_mut().unwrap().playable());
        let r = p0.play("wait").unwrap().unwrap();
        println!("{:?}", r);
        let p = Action::parse(&r).unwrap();
        p1.board.as_mut().unwrap().act(p).unwrap();
        println!("X\n{:?}", p0.board.as_mut().unwrap());
        if p1.board.as_mut().unwrap().is_end() {
            break;
        }

        println!("{:?}", p1.board.as_mut().unwrap().playable());
        let r = p1.play("wait").unwrap().unwrap();
        println!("{:?}", r);
        let p = Action::parse(&r).unwrap();
        p0.board.as_mut().unwrap().act(p).unwrap();
        println!("O\n{:?}", p1.board.as_mut().unwrap());
        if p0.board.as_mut().unwrap().is_end() {
            break;
        }
    }
    let result = p1.board.as_mut().unwrap().result();
    println!("Result: {}", result)
}

#[test]
fn parse_actions() {
    assert_eq!(Action::parse("move 3 4"), Ok(Action::Move(3, 4)));
    assert_eq!(Action::parse("move 12 +7"), Ok(Action::Move(12, 7)));
    assert_eq!(Action::parse("pass"), Ok(Action::Pass));
    assert_eq!(Action::parse("pass now"), Ok(Action::Pass));
    assert_eq!(Action::parse("jump 1 2"), Err(ParseError::UnknownCommand));
    assert_eq!(Action::parse(""), Err(ParseError::UnknownCommand));
    assert_eq!(Action::parse("move 3"), Err(ParseError::MissingField));
    assert_eq!(Action::parse("move x 1"), Err(ParseError::BadNumber));
    assert_eq!(Action::parse("move  3 4"), Err(ParseError::BadNumber));
    assert_eq!(Action::parse("move -1 4"), Err(ParseError::BadNumber));
    assert_eq!(Action::parse("move 99999999999999999999999 1"), Err(ParseError::BadNumber));
}

#[test]
fn encode_actions() {
    assert_eq!(Action::Move(0, 4).encode(), "move 0 4");
    assert_eq!(Action::Move(12, 105).encode(), "move 12 105");
    assert_eq!(Action::Pass.encode(), "pass");
    let a = Action::Move(7, 3);
    assert_eq!(Action::parse(&a.encode()), Ok(a));
}

#[test]
fn parse_inputs() {
    assert_eq!(Input::parse("init 0"), Ok(Input::Init(0)));
    assert_eq!(Input::parse("init 1"), Ok(Input::Init(1)));
    assert_eq!(Input::parse("played move 8 3"), Ok(Input::PlayedMove(8, 3)));
    assert_eq!(Input::parse("played pass"), Ok(Input::PlayedPass));
    assert_eq!(Input::parse("result -5"), Ok(Input::Res(-5)));
    assert_eq!(Input::parse("result 18"), Ok(Input::Res(18)));
    assert_eq!(Input::parse("wait"), Ok(Input::Wait));
    assert_eq!(Input::parse("played jump"), Err(ParseError::UnknownCommand));
    assert_eq!(Input::parse("played"), Err(ParseError::MissingField));
    assert_eq!(Input::parse("played move 1"), Err(ParseError::MissingField));
    assert_eq!(Input::parse("init"), Err(ParseError::MissingField));
    assert_eq!(Input::parse("init one"), Err(ParseError::BadNumber));
    assert_eq!(Input::parse("result --5"), Err(ParseError::BadNumber));
    assert_eq!(Input::parse("hello"), Err(ParseError::UnknownCommand));
}

#[test]
fn player_follows_the_protocol() {
    let mut p = RandomPlayer::new();
    assert_eq!(p.play("wait"), Err(PlayError::NoGame));
    assert_eq!(p.play("played pass"), Err(PlayError::NoGame));
    assert_eq!(p.play("init 1"), Ok(None));
    assert!(!p.first);
    assert_eq!(p.play("played move 0 4"), Ok(None));
    assert_eq!(p.board.as_ref().unwrap().board[1].len(), 4);
    assert_eq!(p.play("played pass"), Err(PlayError::Rejected(game27::GameError::IllegalPass)));
    assert_eq!(p.play("result 3"), Ok(None));
    assert_eq!(p.play("nonsense"), Err(PlayError::Parse(ParseError::UnknownCommand)));
}

#[test]
fn wait_plays_one_of_the_playable_actions() {
    let mut p = RandomPlayer::new();
    p.play("init 0").unwrap();
    let legal: Vec<String> = p.board.as_ref().unwrap().playable().iter().map(|a| a.encode()).collect();
    let r = p.play("wait").unwrap().unwrap();
    assert!(legal.contains(&r));
    let g = p.board.as_ref().unwrap();
    assert!(!g.first_turn);
    assert_eq!(g.board[0].len() + g.board[1].len(), 9);
    assert!(g.board[1].len() >= 1);
}

#[test]
fn play_chosen_applies_and_encodes_the_action() {
    let mut p = RandomPlayer::new();
    assert_eq!(p.play_chosen(Action::Pass), Err(PlayError::NoGame));
    p.play("init 0").unwrap();
    assert_eq!(p.play_chosen(Action::Move(0, 3)), Ok("move 0 3".to_string()));
    let g = p.board.as_ref().unwrap();
    assert_eq!(g.board[0].len(), 6);
    assert_eq!(g.board[1].len(), 3);
    assert!(!g.first_turn);
    assert_eq!(
        p.play_chosen(Action::Move(0, 1)),
        Err(PlayError::Rejected(game27::GameError::NotYourTower))
    );
    assert_eq!(p.play_chosen(Action::Move(8, 9)), Ok("move 8 9".to_string()));
    assert_eq!(p.board.as_ref().unwrap().board[7].len(), 9);
}

#[test]
fn every_action_text_reads_back() {
    for c in [0usize, 1, 9, 10, 99, 1000, usize::MAX] {
        for i in [0usize, 5, 18, usize::MAX] {
            let a = Action::Move(c, i);
            assert_eq!(Action::parse(&a.encode()), Ok(a));
        }
    }
    assert_eq!(Action::parse(&Action::Pass.encode()), Ok(Action::Pass));
}
