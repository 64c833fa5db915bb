//! A human-readable picture of a game state.
use vstd::prelude::*;
use vstd::string::*;
use crate::game::{ended, score, Game27, GameView, Piece, SIZE};
use crate::text::{push_decimal, signed_decimal};

verus! {

/// The character drawn for a piece.
pub open spec fn glyph(p: Piece) -> char {
    match p {
        Piece::First => 'O',
        Piece::Second => 'X',
    }
}

/// One line per column: its pieces from the top, then a newline.
pub open spec fn column_line(col: Seq<Piece>) -> Seq<char> {
    Seq::new(col.len(), |k: int| glyph(col[k])).push('\n')
}

/// The lines of the first `n` columns.
pub open spec fn board_lines(b: Seq<Seq<Piece>>, n: int) -> Seq<char>
    decreases n,
{
    if n <= 0 {
        Seq::empty()
    } else {
        board_lines(b, n - 1) + column_line(b[n - 1])
    }
}

pub open spec fn over_banner() -> Seq<char> {
    seq!['O', 'v', 'e', 'r', '!', ' ', 'R', 'e', 's', 'u', 'l', 't', ':', ' ']
}

pub open spec fn turn_suffix() -> Seq<char> {
    seq!['\'', 's', ' ', 't', 'u', 'r', 'n', '\n']
}

/// The last line: the score once the game has ended, else whose turn it is
/// (`X` while the first player is to move, `O` otherwise).
pub open spec fn status_line(g: GameView) -> Seq<char> {
    if ended(g) {
        over_banner() + signed_decimal(score(g)) + seq!['\n']
    } else {
        seq![if g.first_turn { 'X' } else { 'O' }] + turn_suffix()
    }
}

/// The whole picture of a state.
pub open spec fn rendering(g: GameView) -> Seq<char> {
    board_lines(g.board, SIZE as int) + status_line(g)
}

impl Game27 {
    /// Draws the board, one line per column, and a status line.
    pub fn render(&self) -> (r: String)
        ensures
            r@ == rendering(self@),
    {
        proof {
            reveal_strlit("O");
            reveal_strlit("X");
            reveal_strlit("\n");
            reveal_strlit("-");
            reveal_strlit("Over! Result: ");
            reveal_strlit("X's turn\n");
            reveal_strlit("O's turn\n");
            assert("O"@ =~= seq!['O']);
            assert("X"@ =~= seq!['X']);
            assert("\n"@ =~= seq!['\n']);
            assert("-"@ =~= seq!['-']);
            assert("Over! Result: "@ =~= over_banner());
            assert("X's turn\n"@ =~= seq!['X'] + turn_suffix());
            assert("O's turn\n"@ =~= seq!['O'] + turn_suffix());
        }
        let ghost b = self@.board;
        let mut out = String::new();
        let mut c: usize = 0;
        while c < SIZE
            invariant
                c <= SIZE,
                b == self@.board,
                out@ == board_lines(b, c as int),
                "O"@ == seq!['O'],
                "X"@ == seq!['X'],
                "\n"@ == seq!['\n'],
            decreases SIZE - c,
        {
            let ghost start = out@;
            let col = &self.board[c];
            proof {
                assert(col@ == b[c as int]);
            }
            let mut k: usize = 0;
            while k < col.len()
                invariant
                    k <= col@.len(),
                    out@ == start + Seq::new(k as nat, |j: int| glyph(col@[j])),
                    "O"@ == seq!['O'],
                    "X"@ == seq!['X'],
                decreases col@.len() - k,
            {
                match col[k] {
                    Piece::First => out.append("O"),
                    Piece::Second => out.append("X"),
                }
                proof {
                    assert(out@ =~= start + Seq::new((k + 1) as nat, |j: int| glyph(col@[j])));
                }
                k = k + 1;
            }
            out.append("\n");
            proof {
                assert(out@ =~= board_lines(b, c + 1));
            }
            c = c + 1;
        }
        let ghost lines = out@;
        if self.is_end() {
            out.append("Over! Result: ");
            let f = self.board[SIZE - 1].len();
            let s = self.board[0].len();
            if f >= s {
                push_decimal(&mut out, f - s);
            } else {
                out.append("-");
                push_decimal(&mut out, s - f);
            }
            out.append("\n");
            proof {
                assert(out@ =~= lines + status_line(self@));
            }
        } else {
            if self.first_turn {
                out.append("X's turn\n");
            } else {
                out.append("O's turn\n");
            }
            proof {
                assert(out@ =~= lines + status_line(self@));
            }
        }
        out
    }
}

} // verus!
