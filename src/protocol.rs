//! The text forms of actions (`move <column> <count>`, `pass`) and of the
//! lines that drive a bot (`init`, `played`, `result`, `wait`).
use vstd::prelude::*;
use vstd::string::*;
use crate::game::Action;
use crate::text::{
    chars_of, decimal, fields, isize_of, lemma_decimal_reads_back, lemma_fields_join,
    lemma_fields_spaceless, parse_isize, parse_usize, push_decimal, split_fields, unsigned_body,
    usize_of,
};

verus! {

/// Why a line of text was not understood.
#[derive(Debug, Clone, Copy, PartialEq, Eq, Structural)]
pub enum ParseError {
    UnknownCommand,
    MissingField,
    BadNumber,
}

/// A line of the bot protocol.
#[derive(Debug, Clone, Copy, PartialEq, Eq, Structural)]
pub enum Input {
    Init(usize),
    PlayedMove(usize, usize),
    PlayedPass,
    Res(isize),
    Wait,
}

pub open spec fn word_move() -> Seq<char> {
    seq!['m', 'o', 'v', 'e']
}

pub open spec fn word_pass() -> Seq<char> {
    seq!['p', 'a', 's', 's']
}

pub open spec fn word_init() -> Seq<char> {
    seq!['i', 'n', 'i', 't']
}

pub open spec fn word_played() -> Seq<char> {
    seq!['p', 'l', 'a', 'y', 'e', 'd']
}

pub open spec fn word_result() -> Seq<char> {
    seq!['r', 'e', 's', 'u', 'l', 't']
}

pub open spec fn word_wait() -> Seq<char> {
    seq!['w', 'a', 'i', 't']
}

/// The move whose column and count are the fields `f[k]` and `f[k + 1]`.
pub open spec fn move_fields(f: Seq<Seq<char>>, k: int) -> Result<Action, ParseError> {
    if f.len() < k + 2 {
        Err(ParseError::MissingField)
    } else {
        match (usize_of(f[k]), usize_of(f[k + 1])) {
            (Some(c), Some(i)) => Ok(Action::Move(c, i)),
            _ => Err(ParseError::BadNumber),
        }
    }
}

/// The action that the text `s` names; fields after those it needs are ignored.
pub open spec fn action_of(s: Seq<char>) -> Result<Action, ParseError> {
    let f = fields(s);
    if f[0] == word_move() {
        move_fields(f, 1)
    } else if f[0] == word_pass() {
        Ok(Action::Pass)
    } else {
        Err(ParseError::UnknownCommand)
    }
}

/// The protocol line that the text `s` names; fields after those it needs are
/// ignored.
pub open spec fn input_of(s: Seq<char>) -> Result<Input, ParseError> {
    let f = fields(s);
    if f[0] == word_init() {
        if f.len() < 2 {
            Err(ParseError::MissingField)
        } else {
            match usize_of(f[1]) {
                Some(p) => Ok(Input::Init(p)),
                None => Err(ParseError::BadNumber),
            }
        }
    } else if f[0] == word_played() {
        if f.len() < 2 {
            Err(ParseError::MissingField)
        } else if f[1] == word_move() {
            match move_fields(f, 2) {
                Ok(Action::Move(c, i)) => Ok(Input::PlayedMove(c, i)),
                Ok(Action::Pass) => Ok(Input::PlayedPass),
                Err(e) => Err(e),
            }
        } else if f[1] == word_pass() {
            Ok(Input::PlayedPass)
        } else {
            Err(ParseError::UnknownCommand)
        }
    } else if f[0] == word_result() {
        if f.len() < 2 {
            Err(ParseError::MissingField)
        } else {
            match isize_of(f[1]) {
                Some(v) => Ok(Input::Res(v)),
                None => Err(ParseError::BadNumber),
            }
        }
    } else if f[0] == word_wait() {
        Ok(Input::Wait)
    } else {
        Err(ParseError::UnknownCommand)
    }
}

/// The text form of an action.
pub open spec fn action_text(a: Action) -> Seq<char> {
    match a {
        Action::Move(c, i) => word_move() + seq![' '] + decimal(c as nat) + seq![' '] + decimal(
            i as nat,
        ),
        Action::Pass => word_pass(),
    }
}

/// The text form of an action reads back as that action.
pub proof fn lemma_action_round_trip(a: Action)
    ensures
        action_of(action_text(a)) == Ok::<Action, ParseError>(a),
{
    match a {
        Action::Move(c, i) => {
            let dc = decimal(c as nat);
            let di = decimal(i as nat);
            lemma_decimal_reads_back(c as nat);
            lemma_decimal_reads_back(i as nat);
            lemma_fields_spaceless(word_move());
            lemma_fields_spaceless(dc);
            lemma_fields_spaceless(di);
            lemma_fields_join(word_move(), dc);
            lemma_fields_join(word_move() + seq![' '] + dc, di);
            assert(action_text(a) =~= (word_move() + seq![' '] + dc) + seq![' '] + di);
            assert(unsigned_body(dc) == dc);
            assert(unsigned_body(di) == di);
            assert(fields(action_text(a)) =~= seq![word_move(), dc, di]);
        },
        Action::Pass => {
            lemma_fields_spaceless(word_pass());
            assert(word_pass() != word_move()) by {
                assert(word_pass()[0] != word_move()[0]);
            }
        },
    }
}

/// `f` spells the word `w`.
fn is_word(f: &Vec<char>, w: &str) -> (r: bool)
    ensures
        r == (f@ == w@),
{
    let n = w.unicode_len();
    if f.len() != n {
        return false;
    }
    let mut k: usize = 0;
    while k < n
        invariant
            k <= n,
            n == w@.len(),
            f@.len() == n,
            forall|j: int| 0 <= j < k ==> f@[j] == w@[j],
        decreases n - k,
    {
        if f[k] != w.get_char(k) {
            return false;
        }
        k = k + 1;
    }
    proof {
        assert(f@ =~= w@);
    }
    true
}

/// The move whose column and count are the fields `f[k]` and `f[k + 1]`.
fn parse_move_fields(f: &Vec<Vec<char>>, k: usize) -> (r: Result<Action, ParseError>)
    requires
        k <= 2,
    ensures
        r == move_fields(Seq::new(f@.len(), |j: int| f@[j]@), k as int),
{
    if f.len() < k + 2 {
        return Err(ParseError::MissingField);
    }
    match (parse_usize(&f[k]), parse_usize(&f[k + 1])) {
        (Some(c), Some(i)) => Ok(Action::Move(c, i)),
        _ => Err(ParseError::BadNumber),
    }
}

impl Action {
    /// Reads `move <column> <count>` or `pass`.
    pub fn parse(s: &str) -> (r: Result<Action, ParseError>)
        ensures
            r == action_of(s@),
    {
        let chars = chars_of(s);
        let f = split_fields(&chars);
        let ghost fs = Seq::new(f@.len(), |j: int| f@[j]@);
        proof {
            assert(fs =~= fields(s@));
            reveal_strlit("move");
            assert("move"@ =~= word_move());
            reveal_strlit("pass");
            assert("pass"@ =~= word_pass());
        }
        if is_word(&f[0], "move") {
            parse_move_fields(&f, 1)
        } else if is_word(&f[0], "pass") {
            Ok(Action::Pass)
        } else {
            Err(ParseError::UnknownCommand)
        }
    }

    /// Writes `move <column> <count>` or `pass`.
    pub fn encode(&self) -> (r: String)
        ensures
            r@ == action_text(*self),
    {
        proof {
            reveal_strlit("move ");
            reveal_strlit(" ");
            reveal_strlit("pass");
            assert("pass"@ =~= word_pass());
        }
        match *self {
            Action::Move(c, i) => {
                let mut out = String::new();
                out.append("move ");
                push_decimal(&mut out, c);
                out.append(" ");
                push_decimal(&mut out, i);
                proof {
                    assert(out@ =~= action_text(*self));
                }
                out
            },
            Action::Pass => {
                let out = String::from_str("pass");
                out
            },
        }
    }
}

impl Input {
    /// Reads one line of the bot protocol.
    pub fn parse(input: &str) -> (r: Result<Input, ParseError>)
        ensures
            r == input_of(input@),
    {
        let chars = chars_of(input);
        let f = split_fields(&chars);
        let ghost fs = Seq::new(f@.len(), |j: int| f@[j]@);
        proof {
            assert(fs =~= fields(input@));
            reveal_strlit("init");
            assert("init"@ =~= word_init());
            reveal_strlit("played");
            assert("played"@ =~= word_played());
            reveal_strlit("move");
            assert("move"@ =~= word_move());
            reveal_strlit("pass");
            assert("pass"@ =~= word_pass());
            reveal_strlit("result");
            assert("result"@ =~= word_result());
            reveal_strlit("wait");
            assert("wait"@ =~= word_wait());
        }
        if is_word(&f[0], "init") {
            if f.len() < 2 {
                return Err(ParseError::MissingField);
            }
            match parse_usize(&f[1]) {
                Some(p) => Ok(Input::Init(p)),
                None => Err(ParseError::BadNumber),
            }
        } else if is_word(&f[0], "played") {
            if f.len() < 2 {
                return Err(ParseError::MissingField);
            }
            if is_word(&f[1], "move") {
                match parse_move_fields(&f, 2) {
                    Ok(Action::Move(c, i)) => Ok(Input::PlayedMove(c, i)),
                    Ok(Action::Pass) => Ok(Input::PlayedPass),
                    Err(e) => Err(e),
                }
            } else if is_word(&f[1], "pass") {
                Ok(Input::PlayedPass)
            } else {
                Err(ParseError::UnknownCommand)
            }
        } else if is_word(&f[0], "result") {
            if f.len() < 2 {
                return Err(ParseError::MissingField);
            }
            match parse_isize(&f[1]) {
                Some(v) => Ok(Input::Res(v)),
                None => Err(ParseError::BadNumber),
            }
        } else if is_word(&f[0], "wait") {
            Ok(Input::Wait)
        } else {
            Err(ParseError::UnknownCommand)
        }
    }
}

} // verus!
