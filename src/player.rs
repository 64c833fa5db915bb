//! A bot that follows the line protocol and answers `wait` with a uniformly
//! random legal action.
use vstd::prelude::*;
use rand::seq::SliceRandom;
use crate::game::{
    ended, initial, lemma_playable_accepted, playable_actions, step, Action, Game27, GameError,
    GameView,
};
use crate::protocol::{action_text, input_of, Input, ParseError};

verus! {

/// Why a protocol line could not be followed.
#[derive(Debug, Clone, Copy, PartialEq, Eq, Structural)]
pub enum PlayError {
    /// The line was not understood.
    Parse(ParseError),
    /// A move was played or asked for before `init`.
    NoGame,
    /// The game refused the action.
    Rejected(GameError),
}

/// The bot's game, if one was started, and whether it plays first.
#[derive(Debug, Clone)]
pub struct RandomPlayer {
    pub board: Option<Game27>,
    pub first: bool,
}

/// Model of a bot.
pub struct PlayerView {
    pub game: Option<GameView>,
    pub first: bool,
}

impl View for RandomPlayer {
    type V = PlayerView;

    open spec fn view(&self) -> PlayerView {
        PlayerView {
            game: match self.board {
                Some(g) => Some(g@),
                None => None,
            },
            first: self.first,
        }
    }
}

/// What following an action played by either side does to a started game.
pub open spec fn after_played(
    p: PlayerView,
    g: GameView,
    a: Action,
    r: Result<Option<String>, PlayError>,
    q: PlayerView,
) -> bool {
    match step(g, a) {
        Ok(next) => r == Ok::<Option<String>, PlayError>(None) && q == (PlayerView {
            game: Some(next),
            first: p.first,
        }),
        Err(e) => r == Err::<Option<String>, PlayError>(PlayError::Rejected(e)) && q == p,
    }
}

/// Relies on rand's `SliceRandom::choose` for slices, drawing from
/// `rand::thread_rng()`: `None` for an empty slice, else the element at an
/// index drawn below the slice's length.
#[verifier::external_body]
fn choose_action(p: &Vec<Action>) -> (r: Option<Action>)
    ensures
        p@.len() == 0 <==> r is None,
        r is Some ==> p@.contains(r->Some_0),
{
    p.choose(&mut rand::thread_rng()).copied()
}

impl RandomPlayer {
    /// A bot with no game started.
    pub fn new() -> (r: RandomPlayer)
        ensures
            r@.game is None,
            !r@.first,
    {
        RandomPlayer { board: None, first: false }
    }

    /// Plays `a`, picked for the bot, on the bot's game and returns its text
    /// form. Nothing changes when an error is returned.
    pub fn play_chosen(&mut self, a: Action) -> (r: Result<String, PlayError>)
        ensures
            match old(self)@.game {
                None => r == Err::<String, PlayError>(PlayError::NoGame) && final(self)@ == old(self)@,
                Some(g) => match step(g, a) {
                    Ok(next) => r is Ok && r->Ok_0@ == action_text(a) && final(self)@ == (PlayerView {
                        game: Some(next),
                        first: old(self)@.first,
                    }),
                    Err(e) => r == Err::<String, PlayError>(PlayError::Rejected(e)) && final(self)@ == old(self)@,
                },
            },
    {
        match &mut self.board {
            Some(b) => match b.act(a) {
                Ok(()) => Ok(a.encode()),
                Err(e) => Err(PlayError::Rejected(e)),
            },
            None => Err(PlayError::NoGame),
        }
    }

    /// Follows one protocol line: `init <p>` starts a game (the bot plays
    /// first when `p` is 0), `played ...` applies the opponent's action,
    /// `result <n>` is only noted, and `wait` plays a random legal action and
    /// returns its text. Nothing changes when an error is returned.
    pub fn play(&mut self, input: &str) -> (r: Result<Option<String>, PlayError>)
        ensures
            match input_of(input@) {
                Err(e) => r == Err::<Option<String>, PlayError>(PlayError::Parse(e)) && final(self)@ == old(self)@,
                Ok(Input::Init(p)) => r == Ok::<Option<String>, PlayError>(None) && final(self)@ == (PlayerView {
                    game: Some(initial()),
                    first: p == 0,
                }),
                Ok(Input::Res(_)) => r == Ok::<Option<String>, PlayError>(None) && final(self)@ == old(self)@,
                Ok(Input::PlayedMove(c, i)) => match old(self)@.game {
                    None => r == Err::<Option<String>, PlayError>(PlayError::NoGame) && final(self)@ == old(self)@,
                    Some(g) => after_played(old(self)@, g, Action::Move(c, i), r, final(self)@),
                },
                Ok(Input::PlayedPass) => match old(self)@.game {
                    None => r == Err::<Option<String>, PlayError>(PlayError::NoGame) && final(self)@ == old(self)@,
                    Some(g) => after_played(old(self)@, g, Action::Pass, r, final(self)@),
                },
                Ok(Input::Wait) => match old(self)@.game {
                    None => r == Err::<Option<String>, PlayError>(PlayError::NoGame) && final(self)@ == old(self)@,
                    Some(g) => if ended(g) {
                        r == Err::<Option<String>, PlayError>(PlayError::Rejected(GameError::GameOver))
                            && final(self)@ == old(self)@
                    } else {
                        exists|k: int|
                            0 <= k < playable_actions(g).len() && step(g, #[trigger] playable_actions(g)[k]) is Ok
                                && r is Ok && r->Ok_0 is Some
                                && r->Ok_0->Some_0@ == action_text(playable_actions(g)[k])
                                && final(self)@ == (PlayerView {
                                game: Some(step(g, playable_actions(g)[k])->Ok_0),
                                first: old(self)@.first,
                            })
                    },
                },
            },
    {
        let i = match Input::parse(input) {
            Ok(i) => i,
            Err(e) => return Err(PlayError::Parse(e)),
        };
        match i {
            Input::Init(p) => {
                self.first = p == 0;
                self.board = Some(Game27::new());
                Ok(None)
            },
            Input::PlayedMove(c, n) => match &mut self.board {
                Some(b) => match b.act(Action::Move(c, n)) {
                    Ok(()) => Ok(None),
                    Err(e) => Err(PlayError::Rejected(e)),
                },
                None => Err(PlayError::NoGame),
            },
            Input::PlayedPass => match &mut self.board {
                Some(b) => match b.act(Action::Pass) {
                    Ok(()) => Ok(None),
                    Err(e) => Err(PlayError::Rejected(e)),
                },
                None => Err(PlayError::NoGame),
            },
            Input::Res(_) => Ok(None),
            Input::Wait => {
                let a = match &self.board {
                    Some(b) => {
                        let p = b.playable();
                        let a = choose_action(&p).unwrap();
                        proof {
                            let k = choose|k: int| 0 <= k < p@.len() && p@[k] == a;
                            b.lemma_valid();
                            if !ended(b@) {
                                lemma_playable_accepted(b@, k);
                            }
                        }
                        a
                    },
                    None => return Err(PlayError::NoGame),
                };
                match self.play_chosen(a) {
                    Ok(t) => Ok(Some(t)),
                    Err(e) => Err(e),
                }
            },
        }
    }
}

} // verus!
