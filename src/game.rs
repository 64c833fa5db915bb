//! The board state machine: legal moves, validation, transitions and scoring.
use vstd::prelude::*;

verus! {

/// Number of columns on the board, and the number of pieces each player starts with.
pub const SIZE: usize = 9;

/// Which player a piece belongs to.
#[derive(Debug, Clone, Copy, PartialEq, Eq, Structural)]
pub enum Piece {
    First,
    Second,
}

/// A proposed turn: move the top `count` pieces of `column`, or pass.
#[derive(Debug, Clone, Copy, PartialEq, Eq, Structural)]
pub enum Action {
    Move(usize, usize),
    Pass,
}

/// Why an action was rejected.
#[derive(Debug, Clone, Copy, PartialEq, Eq, Structural)]
pub enum GameError {
    GameOver,
    InvalidColumn,
    EmptyColumn,
    NotYourTower,
    InvalidSplitSize,
    DestinationOutOfRange,
    IllegalPass,
}

/// The board (each column read from its top piece at index 0) and whose turn it is.
#[derive(Debug, Clone)]
pub struct Game27 {
    pub board: [Vec<Piece>; SIZE],
    pub first_turn: bool,
}

/// Mathematical model of a game state.
pub struct GameView {
    pub board: Seq<Seq<Piece>>,
    pub first_turn: bool,
}

impl View for Game27 {
    type V = GameView;

    open spec fn view(&self) -> GameView {
        GameView { board: Seq::new(SIZE as nat, |c: int| self.board@[c]@), first_turn: self.first_turn }
    }
}

/// The piece of the player who moves when `first_turn` holds or not.
pub open spec fn player_of(first_turn: bool) -> Piece {
    if first_turn {
        Piece::First
    } else {
        Piece::Second
    }
}

/// What every game state satisfies: nine columns, each small enough to be held.
pub open spec fn valid(g: GameView) -> bool {
    &&& g.board.len() == SIZE
    &&& forall|c: int| 0 <= c < SIZE ==> #[trigger] g.board[c].len() <= usize::MAX
}

/// Column `c` is non-empty and its top piece is `p`.
pub open spec fn owns(b: Seq<Seq<Piece>>, c: int, p: Piece) -> bool {
    b[c].len() > 0 && b[c][0] == p
}

/// Number of columns among the first `n` whose top piece is `p`.
pub open spec fn towers_upto(b: Seq<Seq<Piece>>, p: Piece, n: int) -> nat
    decreases n,
{
    if n <= 0 {
        0
    } else {
        towers_upto(b, p, n - 1) + if owns(b, n - 1, p) {
            1nat
        } else {
            0nat
        }
    }
}

/// Number of columns whose top piece is `p`.
pub open spec fn towers(b: Seq<Seq<Piece>>, p: Piece) -> nat {
    towers_upto(b, p, SIZE as int)
}

/// Where a tower taken from column `c` lands: as many columns away as the mover
/// has towers, towards the last column for the first player, towards column 0
/// for the second.
pub open spec fn target(b: Seq<Seq<Piece>>, first_turn: bool, c: int) -> int {
    if first_turn {
        c + towers(b, Piece::First)
    } else {
        c - towers(b, Piece::Second)
    }
}

/// `d` is a column index.
pub open spec fn on_board(d: int) -> bool {
    0 <= d < SIZE
}

/// The mover may take pieces from column `c`.
pub open spec fn movable(b: Seq<Seq<Piece>>, first_turn: bool, c: int) -> bool {
    owns(b, c, player_of(first_turn)) && on_board(target(b, first_turn, c))
}

/// The moves out of column `c`, by split size `1..=height`.
pub open spec fn column_moves(b: Seq<Seq<Piece>>, first_turn: bool, c: int) -> Seq<Action> {
    if movable(b, first_turn, c) {
        Seq::new(b[c].len(), |i: int| Action::Move(c as usize, (i + 1) as usize))
    } else {
        Seq::empty()
    }
}

/// The moves out of the first `n` columns, in column order.
pub open spec fn moves_upto(b: Seq<Seq<Piece>>, first_turn: bool, n: int) -> Seq<Action>
    decreases n,
{
    if n <= 0 {
        Seq::empty()
    } else {
        moves_upto(b, first_turn, n - 1) + column_moves(b, first_turn, n - 1)
    }
}

/// Every move of the player whose turn `first_turn` says it is.
pub open spec fn legal_moves(b: Seq<Seq<Piece>>, first_turn: bool) -> Seq<Action> {
    moves_upto(b, first_turn, SIZE as int)
}

/// The legal actions: the moves, or passing alone when there is none.
pub open spec fn playable_actions(g: GameView) -> Seq<Action> {
    if legal_moves(g.board, g.first_turn).len() == 0 {
        seq![Action::Pass]
    } else {
        legal_moves(g.board, g.first_turn)
    }
}

/// Neither player has a move.
pub open spec fn ended(g: GameView) -> bool {
    legal_moves(g.board, g.first_turn).len() == 0 && legal_moves(g.board, !g.first_turn).len() == 0
}

/// The board after the top `i` pieces of column `c` are put on top of column `d`.
pub open spec fn moved(b: Seq<Seq<Piece>>, c: int, i: int, d: int) -> Seq<Seq<Piece>> {
    b.update(c, b[c].subrange(i, b[c].len() as int)).update(d, b[c].subrange(0, i) + b[d])
}

/// The outcome of playing `a` on `g`: the next state, or the reason it is refused.
pub open spec fn step(g: GameView, a: Action) -> Result<GameView, GameError> {
    let b = g.board;
    if ended(g) {
        Err(GameError::GameOver)
    } else {
        match a {
            Action::Move(c, i) => {
                if c >= SIZE {
                    Err(GameError::InvalidColumn)
                } else if b[c as int].len() == 0 {
                    Err(GameError::EmptyColumn)
                } else if b[c as int][0] != player_of(g.first_turn) {
                    Err(GameError::NotYourTower)
                } else if !(0 < i <= b[c as int].len()) {
                    Err(GameError::InvalidSplitSize)
                } else if !on_board(target(b, g.first_turn, c as int)) {
                    Err(GameError::DestinationOutOfRange)
                } else {
                    Ok(
                        GameView {
                            board: moved(b, c as int, i as int, target(b, g.first_turn, c as int)),
                            first_turn: !g.first_turn,
                        },
                    )
                }
            },
            Action::Pass => {
                if legal_moves(b, g.first_turn).len() == 0 {
                    Ok(GameView { board: b, first_turn: !g.first_turn })
                } else {
                    Err(GameError::IllegalPass)
                }
            },
        }
    }
}

/// Total number of pieces in the first `n` columns.
pub open spec fn pieces_upto(b: Seq<Seq<Piece>>, n: int) -> nat
    decreases n,
{
    if n <= 0 {
        0
    } else {
        pieces_upto(b, n - 1) + b[n - 1].len()
    }
}

/// Total number of pieces on the board.
pub open spec fn pieces(b: Seq<Seq<Piece>>) -> nat {
    pieces_upto(b, SIZE as int)
}

/// The starting position: nine first-player pieces on column 0, nine
/// second-player pieces on the last column, the first player to move.
pub open spec fn initial() -> GameView {
    GameView {
        board: Seq::new(
            SIZE as nat,
            |c: int|
                if c == 0 {
                    Seq::new(SIZE as nat, |k: int| Piece::First)
                } else if c == SIZE - 1 {
                    Seq::new(SIZE as nat, |k: int| Piece::Second)
                } else {
                    Seq::empty()
                },
        ),
        first_turn: true,
    }
}

proof fn lemma_towers_upto_bound(b: Seq<Seq<Piece>>, p: Piece, n: int)
    requires
        0 <= n,
    ensures
        towers_upto(b, p, n) <= n,
    decreases n,
{
    if n > 0 {
        lemma_towers_upto_bound(b, p, n - 1);
    }
}

impl Game27 {
    /// The model of every game state is valid.
    pub proof fn lemma_valid(&self)
        ensures
            valid(self@),
    {
        assert forall|c: int| 0 <= c < SIZE implies #[trigger] self@.board[c].len() <= usize::MAX by {
            assert(self@.board[c].len() == self.board@[c].len());
        }
    }

    /// The piece of the player whose turn it is.
    pub fn active(&self) -> (r: Piece)
        ensures
            r == player_of(self.first_turn),
    {
        if self.first_turn {
            Piece::First
        } else {
            Piece::Second
        }
    }

    /// Number of columns whose top piece is `p`.
    fn count_for(&self, p: Piece) -> (r: usize)
        ensures
            r == towers(self@.board, p),
    {
        let mut res: usize = 0;
        let mut c: usize = 0;
        while c < SIZE
            invariant
                c <= SIZE,
                res == towers_upto(self@.board, p, c as int),
            decreases SIZE - c,
        {
            proof {
                lemma_towers_upto_bound(self@.board, p, c as int);
            }
            if self.board[c].len() > 0 && self.board[c][0] == p {
                res = res + 1;
            }
            c = c + 1;
        }
        res
    }

    /// Number of columns whose top piece belongs to the player to move: the
    /// distance every move travels this turn.
    pub fn count_tower(&self) -> (r: usize)
        ensures
            r == towers(self@.board, player_of(self.first_turn)),
    {
        let p = self.active();
        self.count_for(p)
    }

    /// The column that a tower taken from column `c` lands on this turn
    /// (possibly off the board).
    pub fn move_to(&self, c: usize) -> (r: isize)
        requires
            c < SIZE,
        ensures
            r == target(self@.board, self.first_turn, c as int),
    {
        let n = self.count_tower();
        proof {
            lemma_towers_upto_bound(self@.board, player_of(self.first_turn), SIZE as int);
        }
        if self.first_turn {
            c as isize + n as isize
        } else {
            c as isize - n as isize
        }
    }

    /// Every move of the player given by `first_turn` on this board, by
    /// column and then by split size.
    fn moves_for(&self, first_turn: bool) -> (r: Vec<Action>)
        ensures
            r@ == legal_moves(self@.board, first_turn),
    {
        let b = Ghost(self@.board);
        let p = if first_turn {
            Piece::First
        } else {
            Piece::Second
        };
        let n = self.count_for(p);
        proof {
            lemma_towers_upto_bound(b@, p, SIZE as int);
        }
        let mut res: Vec<Action> = Vec::new();
        let mut c: usize = 0;
        while c < SIZE
            invariant
                c <= SIZE,
                n == towers(b@, p),
                n <= SIZE,
                p == player_of(first_turn),
                b@ == self@.board,
                res@ == moves_upto(b@, first_turn, c as int),
            decreases SIZE - c,
        {
            let d: isize = if first_turn {
                c as isize + n as isize
            } else {
                c as isize - n as isize
            };
            if self.board[c].len() > 0 && self.board[c][0] == p && 0 <= d && d < SIZE as isize {
                let h = self.board[c].len();
                let ghost before = res@;
                let mut i: usize = 0;
                while i < h
                    invariant
                        0 <= i <= h,
                        c < SIZE,
                        h == b@[c as int].len(),
                        res@ == before + Seq::new(i as nat, |k: int| Action::Move(c, (k + 1) as usize)),
                    decreases h - i,
                {
                    res.push(Action::Move(c, i + 1));
                    proof {
                        assert(res@ =~= before + Seq::new((i + 1) as nat, |k: int| Action::Move(c, (k + 1) as usize)));
                    }
                    i = i + 1;
                }
                proof {
                    assert(b@[c as int] == self.board@[c as int]@);
                    assert(d == target(b@, first_turn, c as int));
                    assert(movable(b@, first_turn, c as int));
                    assert(res@ =~= before + column_moves(b@, first_turn, c as int));
                }
            } else {
                proof {
                    assert(res@ =~= moves_upto(b@, first_turn, c as int) + column_moves(b@, first_turn, c as int));
                }
            }
            c = c + 1;
        }
        res
    }

    /// The legal actions of the player to move: every move `(column, split)`
    /// in column order, or `Pass` alone when there is no move.
    pub fn playable(&self) -> (r: Vec<Action>)
        ensures
            r@ == playable_actions(self@),
            r@.len() > 0,
    {
        let mut res = self.moves_for(self.first_turn);
        if res.len() == 0 {
            res.push(Action::Pass);
            proof {
                assert(res@ =~= seq![Action::Pass]);
            }
        }
        res
    }

    /// Neither player has a move: the player to move can only pass, and so
    /// could the other one if it were their turn. The state is only read.
    pub fn is_end(&self) -> (r: bool)
        ensures
            r == ended(self@),
    {
        let mine = self.moves_for(self.first_turn);
        if mine.len() == 0 {
            let theirs = self.moves_for(!self.first_turn);
            theirs.len() == 0
        } else {
            false
        }
    }

    /// The starting position.
    pub fn new() -> (r: Game27)
        ensures
            r@ == initial(),
    {
        let board: [Vec<Piece>; SIZE] = [
            vec![Piece::First; SIZE],
            Vec::new(),
            Vec::new(),
            Vec::new(),
            Vec::new(),
            Vec::new(),
            Vec::new(),
            Vec::new(),
            vec![Piece::Second; SIZE],
        ];
        let r = Game27 { board, first_turn: true };
        proof {
            assert(r@.board[0] =~= initial().board[0]);
            assert(r@.board[SIZE - 1] =~= initial().board[SIZE - 1]);
            assert(r@.board =~= initial().board);
        }
        r
    }

    /// Plays `a` for the player to move. On success the pieces are moved (or
    /// nothing is, for a pass) and the turn goes to the other player; on
    /// failure the state is left as it was.
    pub fn act(&mut self, a: Action) -> (r: Result<(), GameError>)
        ensures
            match step(old(self)@, a) {
                Ok(next) => r is Ok && final(self)@ == next,
                Err(e) => r == Err::<(), GameError>(e) && final(self)@ == old(self)@,
            },
    {
        if self.is_end() {
            return Err(GameError::GameOver);
        }
        match a {
            Action::Move(c, i) => {
                if !(c < SIZE) {
                    return Err(GameError::InvalidColumn);
                }
                if !(self.board[c].len() > 0) {
                    return Err(GameError::EmptyColumn);
                }
                if !(self.board[c][0] == self.active()) {
                    return Err(GameError::NotYourTower);
                }
                if !(0 < i && i <= self.board[c].len()) {
                    return Err(GameError::InvalidSplitSize);
                }
                let d = self.move_to(c);
                if !(0 <= d && d < SIZE as isize) {
                    return Err(GameError::DestinationOutOfRange);
                }
                let d = d as usize;
                let ghost b = self@.board;
                proof {
                    lemma_owner_has_tower(b, c as int, player_of(self.first_turn));
                    assert(b[c as int] == self.board@[c as int]@);
                    assert(b[d as int] == self.board@[d as int]@);
                }
                let len = self.board[c].len();
                let mut top = copy_range(&self.board[c], 0, i);
                let rest = copy_range(&self.board[c], i, len);
                let mut below = copy_range(&self.board[d], 0, self.board[d].len());
                top.append(&mut below);
                self.board[c] = rest;
                self.board[d] = top;
                proof {
                    assert(d != c);
                    let m = moved(b, c as int, i as int, d as int);
                    assert forall|j: int| 0 <= j < SIZE implies #[trigger] self@.board[j] == m[j] by {
                        if j != c as int && j != d as int {
                            assert(self@.board[j] == self.board@[j]@);
                        }
                    }
                    assert(self@.board =~= m);
                }
            },
            Action::Pass => {
                let playable = self.playable();
                if !(playable.len() == 1 && playable[0] == Action::Pass) {
                    return Err(GameError::IllegalPass);
                }
                proof {
                    self.lemma_valid();
                    if legal_moves(self@.board, self.first_turn).len() > 0 {
                        lemma_listed_move(self@.board, self.first_turn, SIZE as int, 0);
                    }
                }
            },
        }
        self.first_turn = !self.first_turn;
        Ok(())
    }

    /// Size of the last column minus the size of column 0: the score once
    /// the game has ended, positive in favour of the first player.
    pub fn result(&self) -> (r: isize)
        requires
            self.board[SIZE - 1]@.len() <= isize::MAX,
            self.board[0]@.len() <= isize::MAX,
        ensures
            r == score(self@),
    {
        let f = self.board[SIZE - 1].len();
        let s = self.board[0].len();
        f as isize - s as isize
    }
}

/// A copy of `v[lo..hi]`.
fn copy_range(v: &Vec<Piece>, lo: usize, hi: usize) -> (r: Vec<Piece>)
    requires
        lo <= hi <= v@.len(),
    ensures
        r@ == v@.subrange(lo as int, hi as int),
{
    let mut r: Vec<Piece> = Vec::new();
    let mut k: usize = lo;
    while k < hi
        invariant
            lo <= k <= hi <= v@.len(),
            r@ == v@.subrange(lo as int, k as int),
        decreases hi - k,
    {
        r.push(v[k]);
        proof {
            assert(r@ =~= v@.subrange(lo as int, k + 1));
        }
        k = k + 1;
    }
    r
}

/// A column owned by `p` counts among `p`'s towers.
proof fn lemma_owner_has_tower(b: Seq<Seq<Piece>>, c: int, p: Piece)
    requires
        0 <= c < SIZE,
        owns(b, c, p),
    ensures
        towers(b, p) >= 1,
{
    lemma_owner_has_tower_upto(b, c, p, SIZE as int);
}

proof fn lemma_owner_has_tower_upto(b: Seq<Seq<Piece>>, c: int, p: Piece, n: int)
    requires
        0 <= c < n,
        owns(b, c, p),
    ensures
        towers_upto(b, p, n) >= 1,
    decreases n,
{
    if c < n - 1 {
        lemma_owner_has_tower_upto(b, c, p, n - 1);
    }
}

/// Every entry of the move list is a move out of a movable column with a
/// split size within the tower's height.
proof fn lemma_listed_move(b: Seq<Seq<Piece>>, first_turn: bool, n: int, k: int)
    requires
        valid(GameView { board: b, first_turn }),
        n <= SIZE,
        0 <= k < moves_upto(b, first_turn, n).len(),
    ensures
        ({
            let a = moves_upto(b, first_turn, n)[k];
            &&& a is Move
            &&& 0 <= a->Move_0 < n
            &&& movable(b, first_turn, a->Move_0 as int)
            &&& 1 <= a->Move_1 <= b[a->Move_0 as int].len()
        }),
    decreases n,
{
    if n > 0 {
        let prev = moves_upto(b, first_turn, n - 1);
        if k >= prev.len() {
            assert(moves_upto(b, first_turn, n)[k] == column_moves(b, first_turn, n - 1)[k - prev.len()]);
        } else {
            lemma_listed_move(b, first_turn, n - 1, k);
            assert(moves_upto(b, first_turn, n)[k] == prev[k]);
        }
    }
}

/// The score of a state: pieces on the last column minus pieces on column 0.
pub open spec fn score(g: GameView) -> int {
    g.board[SIZE - 1].len() - g.board[0].len()
}

proof fn lemma_pieces_update(b: Seq<Seq<Piece>>, j: int, x: Seq<Piece>, n: int)
    requires
        0 <= j < b.len(),
        n <= b.len(),
    ensures
        pieces_upto(b.update(j, x), n) == if j < n {
            pieces_upto(b, n) - b[j].len() + x.len()
        } else {
            pieces_upto(b, n) as int
        },
    decreases n,
{
    if n > 0 {
        lemma_pieces_update(b, j, x, n - 1);
    }
}

/// A legal action is accepted: on a state where the game goes on, every entry
/// of the playable list is played without error.
pub proof fn lemma_playable_accepted(g: GameView, k: int)
    requires
        valid(g),
        !ended(g),
        0 <= k < playable_actions(g).len(),
    ensures
        step(g, playable_actions(g)[k]) is Ok,
{
    if legal_moves(g.board, g.first_turn).len() > 0 {
        lemma_listed_move(g.board, g.first_turn, SIZE as int, k);
    }
}

/// Passing is accepted exactly when the playable list is `Pass` alone, and is
/// otherwise refused as an illegal pass (on a state where the game goes on).
pub proof fn lemma_pass_rule(g: GameView)
    requires
        valid(g),
        !ended(g),
    ensures
        step(g, Action::Pass) is Ok <==> playable_actions(g) == seq![Action::Pass],
        step(g, Action::Pass) is Err ==> step(g, Action::Pass) == Err::<GameView, GameError>(
            GameError::IllegalPass,
        ),
{
    if legal_moves(g.board, g.first_turn).len() > 0 {
        lemma_listed_move(g.board, g.first_turn, SIZE as int, 0);
        assert(playable_actions(g)[0] != Action::Pass);
    }
}

/// Every accepted action hands the turn to the other player.
pub proof fn lemma_turn_alternates(g: GameView, a: Action)
    requires
        step(g, a) is Ok,
    ensures
        player_of(step(g, a)->Ok_0.first_turn) != player_of(g.first_turn),
{
}

/// Pieces are moved, never created or destroyed: an accepted action keeps the
/// number of pieces on the board.
pub proof fn lemma_pieces_conserved(g: GameView, a: Action)
    requires
        valid(g),
        step(g, a) is Ok,
    ensures
        pieces(step(g, a)->Ok_0.board) == pieces(g.board),
{
    if let Action::Move(c, i) = a {
        let b = g.board;
        let c = c as int;
        let i = i as int;
        let d = target(b, g.first_turn, c);
        lemma_owner_has_tower(b, c, player_of(g.first_turn));
        let b1 = b.update(c, b[c].subrange(i, b[c].len() as int));
        lemma_pieces_update(b, c, b[c].subrange(i, b[c].len() as int), SIZE as int);
        lemma_pieces_update(b1, d, b[c].subrange(0, i) + b[d], SIZE as int);
    }
}

/// The starting position holds eighteen pieces.
pub proof fn lemma_initial_pieces()
    ensures
        pieces(initial().board) == 2 * SIZE,
{
    reveal_with_fuel(pieces_upto, 10);
}

/// The state after trying each action of `acts` in turn, as `act` does: an
/// accepted action moves on to the next state, a refused one changes nothing.
pub open spec fn play_all(g: GameView, acts: Seq<Action>) -> GameView
    decreases acts.len(),
{
    if acts.len() == 0 {
        g
    } else {
        let next = match step(g, acts[0]) {
            Ok(n) => n,
            Err(_) => g,
        };
        play_all(next, acts.drop_first())
    }
}

proof fn lemma_column_within_pieces(b: Seq<Seq<Piece>>, c: int, n: int)
    requires
        0 <= c < n,
    ensures
        b[c].len() <= pieces_upto(b, n),
    decreases n,
{
    if c < n - 1 {
        lemma_column_within_pieces(b, c, n - 1);
    }
}

/// Every state reached from the starting position, whatever actions are
/// tried, holds exactly eighteen pieces.
pub proof fn lemma_reachable_pieces(acts: Seq<Action>)
    ensures
        pieces(play_all(initial(), acts).board) == 2 * SIZE,
{
    lemma_initial_pieces();
    lemma_pieces_kept(initial(), acts);
}

proof fn lemma_pieces_kept(g: GameView, acts: Seq<Action>)
    requires
        g.board.len() == SIZE,
        pieces(g.board) == 2 * SIZE,
    ensures
        pieces(play_all(g, acts).board) == 2 * SIZE,
    decreases acts.len(),
{
    if acts.len() > 0 {
        assert forall|c: int| 0 <= c < SIZE implies #[trigger] g.board[c].len() <= usize::MAX by {
            lemma_column_within_pieces(g.board, c, SIZE as int);
        }
        if step(g, acts[0]) is Ok {
            lemma_pieces_conserved(g, acts[0]);
            let next = step(g, acts[0])->Ok_0;
            lemma_pieces_kept(next, acts.drop_first());
        } else {
            lemma_pieces_kept(g, acts.drop_first());
        }
    }
}

/// In the starting position the first player has one tower, which travels
/// one column: the playable actions are `Move(0, i)` for `i` in `1..=9`.
pub proof fn lemma_initial_playable()
    ensures
        playable_actions(initial()) == Seq::new(SIZE as nat, |i: int| Action::Move(0, (i + 1) as usize)),
{
    let g = initial();
    reveal_with_fuel(towers_upto, 10);
    reveal_with_fuel(moves_upto, 10);
    assert(towers(g.board, Piece::First) == 1);
    assert(movable(g.board, true, 0));
    assert(legal_moves(g.board, true) =~= column_moves(g.board, true, 0));
    assert(playable_actions(g) =~= Seq::new(SIZE as nat, |i: int| Action::Move(0, (i + 1) as usize)));
}

/// With every piece on one end column and the other end column empty, the
/// score is the whole count of pieces, signed by the column that holds them.
pub proof fn lemma_end_column_score(g: GameView)
    requires
        valid(g),
        pieces(g.board) == 2 * SIZE,
        g.board[SIZE - 1].len() == 2 * SIZE || g.board[0].len() == 2 * SIZE,
        g.board[SIZE - 1].len() == 0 || g.board[0].len() == 0,
    ensures
        g.board[SIZE - 1].len() == 2 * SIZE ==> score(g) == 2 * SIZE,
        g.board[0].len() == 2 * SIZE ==> score(g) == -2 * SIZE,
{
}

} // verus!
