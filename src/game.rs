//! The game: its board, side to move, status and promotion choices, and the
//! operations that query and change it.
use vstd::prelude::*;
use vstd::string::*;
use crate::geometry::{at, in_bounds, sq, Board, Square};
use crate::notation::{code_moves, decode_position, decoded, notation, well_formed};
use crate::pieces::{flip, opponent, Colour, GameState, Piece};
use crate::rules::{attacked, check_check, is_legal_move, king_of, last_rank, legal_move, scanned};

verus! {

broadcast use crate::rules::lemma_legal_in_bounds;

/// A game in progress: the board, the side to move, the status after the
/// last move, and the piece that each side's pawns become on promotion.
#[derive(Copy, Clone, Debug)]
pub struct Game {
    pub state: GameState,
    pub active: Colour,
    pub board: Board,
    pub white_promotion: Piece,
    pub black_promotion: Piece,
}

/// The back-rank piece of colour `c` on file `f` in the starting position.
pub open spec fn back_rank(f: int, c: Colour) -> Piece {
    if f == 0 || f == 7 {
        Piece::Rook(c)
    } else if f == 1 || f == 6 {
        Piece::Knight(c)
    } else if f == 2 || f == 5 {
        Piece::Bishop(c)
    } else if f == 3 {
        Piece::Queen(c)
    } else {
        Piece::King(c)
    }
}

/// What stands on square `s` in the starting position.
pub open spec fn start_piece(s: (int, int)) -> Option<Piece> {
    if s.0 == 0 {
        Some(back_rank(s.1, Colour::White))
    } else if s.0 == 1 {
        Some(Piece::Pawn(Colour::White))
    } else if s.0 == 6 {
        Some(Piece::Pawn(Colour::Black))
    } else if s.0 == 7 {
        Some(back_rank(s.1, Colour::Black))
    } else {
        None
    }
}

/// `s` holds a piece of colour `c`.
pub open spec fn owns(b: Board, c: Colour, s: (int, int)) -> bool {
    &&& in_bounds(s)
    &&& match at(b, s) {
        Some(p) => p.colour() == c,
        None => false,
    }
}

/// `v` names, in notation and once each, exactly the squares to which the
/// piece on `s` may legally go.
pub open spec fn lists_moves(v: Seq<String>, b: Board, state: GameState, s: (int, int)) -> bool {
    &&& forall|i: int| 0 <= i < v.len() ==> well_formed(#[trigger] v[i]@) && legal_move(b, state, s, decoded(v[i]@))
    &&& forall|t: (int, int)| #[trigger] legal_move(b, state, s, t) ==> exists|i: int| 0 <= i < v.len() && #[trigger] v[i]@ == notation(t)
    &&& forall|i: int, j: int| 0 <= i < j < v.len() ==> #[trigger] v[i]@ != #[trigger] v[j]@
}

/// A king of colour `c` is attacked.
pub open spec fn in_check(b: Board, c: Colour) -> bool {
    exists|k: (int, int)| #[trigger] king_of(b, k, c) && attacked(b, k, c)
}

/// Some piece of colour `c` has a legal move while the game stands in `state`.
pub open spec fn can_move(b: Board, state: GameState, c: Colour) -> bool {
    exists|s: (int, int), t: (int, int)| owns(b, c, s) && #[trigger] legal_move(b, state, s, t)
}

/// The status of the game when `c` is to move on `b`: check if a king of `c`
/// is attacked, game over if besides no piece of `c` can move, and in
/// progress otherwise.
pub open spec fn status_after(b: Board, c: Colour) -> GameState {
    if in_check(b, c) {
        if can_move(b, GameState::Check, c) {
            GameState::Check
        } else {
            GameState::GameOver
        }
    } else {
        GameState::InProgress
    }
}

/// The piece that lands on `t` when `p` moves there: a pawn that reaches
/// its last rank becomes `promoted`.
pub open spec fn landing(p: Piece, t: (int, int), promoted: Piece) -> Piece {
    match p {
        Piece::Pawn(c) => if t.0 == last_rank(c) { promoted } else { p },
        _ => p,
    }
}

/// `b2` is `b` with `v` on `t`, `s` emptied, and every other square as it was.
pub open spec fn moved_board(b: Board, b2: Board, s: (int, int), t: (int, int), v: Piece) -> bool {
    forall|u: (int, int)| #![trigger at(b2, u)] in_bounds(u) ==> at(b2, u) == if u == t {
        Some(v)
    } else if u == s {
        None
    } else {
        at(b, u)
    }
}

/// One for an occupied square, zero for an empty one.
pub open spec fn occupied(o: Option<Piece>) -> int {
    if o is Some { 1 } else { 0 }
}

/// The number of pieces on the first `n` files of rank `r`.
pub open spec fn rank_pieces(b: Board, r: int, n: int) -> int
    decreases n,
{
    if n <= 0 { 0 } else { rank_pieces(b, r, n - 1) + occupied(at(b, (r, n - 1))) }
}

/// The number of pieces on the first `n` ranks.
pub open spec fn ranks_pieces(b: Board, n: int) -> int
    decreases n,
{
    if n <= 0 { 0 } else { ranks_pieces(b, n - 1) + rank_pieces(b, n - 1, 8) }
}

/// The number of pieces on the board.
pub open spec fn piece_count(b: Board) -> int {
    ranks_pieces(b, 8)
}

/// What a change of square `(r, j)` adds to the count of the first `n`
/// squares of rank `r`.
pub open spec fn change_at(b1: Board, b2: Board, r: int, j: int, n: int) -> int {
    if 0 <= j < n { occupied(at(b2, (r, j))) - occupied(at(b1, (r, j))) } else { 0 }
}

proof fn lemma_rank_change(b1: Board, b2: Board, r: int, n: int, j1: int, j2: int)
    requires
        0 <= n <= 8,
        j1 != j2,
        forall|j: int| 0 <= j < 8 && j != j1 && j != j2 ==> at(b1, (r, j)) == at(b2, (r, j)),
    ensures
        rank_pieces(b2, r, n) - rank_pieces(b1, r, n) == change_at(b1, b2, r, j1, n) + change_at(b1, b2, r, j2, n),
    decreases n,
{
    if n > 0 {
        lemma_rank_change(b1, b2, r, n - 1, j1, j2);
    }
}

proof fn lemma_ranks_change(b1: Board, b2: Board, n: int, r1: int, r2: int)
    requires
        0 <= n <= 8,
        r1 != r2,
        forall|r: int| 0 <= r < 8 && r != r1 && r != r2 ==> rank_pieces(b1, r, 8) == rank_pieces(b2, r, 8),
    ensures
        ranks_pieces(b2, n) - ranks_pieces(b1, n) == (if 0 <= r1 < n { rank_pieces(b2, r1, 8) - rank_pieces(b1, r1, 8) } else { 0 })
            + (if 0 <= r2 < n { rank_pieces(b2, r2, 8) - rank_pieces(b1, r2, 8) } else { 0 }),
    decreases n,
{
    if n > 0 {
        lemma_ranks_change(b1, b2, n - 1, r1, r2);
    }
}

/// A move takes the piece off `s` and puts one on `t`: the board loses a
/// piece exactly when `t` held one, and never gains one.
pub proof fn lemma_move_conserves_pieces(b: Board, b2: Board, s: (int, int), t: (int, int), v: Piece)
    requires
        in_bounds(s),
        in_bounds(t),
        s != t,
        at(b, s) is Some,
        moved_board(b, b2, s, t, v),
    ensures
        piece_count(b2) == piece_count(b) - occupied(at(b, t)),
{
    assert forall|r: int| 0 <= r < 8 && r != s.0 && r != t.0 implies rank_pieces(b, r, 8) == rank_pieces(b2, r, 8) by {
        lemma_rank_change(b, b2, r, 8, 0, 1);
        assert(at(b2, (r, 0)) == at(b, (r, 0)));
        assert(at(b2, (r, 1)) == at(b, (r, 1)));
    }
    if s.0 == t.0 {
        assert(at(b2, s) is None);
        assert(at(b2, t) == Some(v));
        lemma_rank_change(b, b2, s.0, 8, s.1, t.1);
        let other = if s.0 == 0 { 1int } else { 0int };
        lemma_ranks_change(b, b2, 8, s.0, other);
    } else {
        let ot = if t.1 == 0 { 1int } else { 0int };
        let os = if s.1 == 0 { 1int } else { 0int };
        assert(at(b2, (t.0, ot)) == at(b, (t.0, ot)));
        assert(at(b2, (s.0, os)) == at(b, (s.0, os)));
        lemma_rank_change(b, b2, s.0, 8, s.1, os);
        lemma_rank_change(b, b2, t.0, 8, t.1, ot);
        lemma_ranks_change(b, b2, 8, s.0, t.0);
    }
}

/// `v` holds the name `n`.
pub open spec fn names(v: Seq<String>, n: Seq<char>) -> bool {
    exists|i: int| 0 <= i < v.len() && #[trigger] v[i]@ == n
}

/// Two listings of the moves of one piece in one position name the same
/// squares.
pub proof fn lemma_listing_determined(v1: Seq<String>, v2: Seq<String>, b: Board, state: GameState, s: (int, int))
    requires
        lists_moves(v1, b, state, s),
        lists_moves(v2, b, state, s),
    ensures
        forall|n: Seq<char>| #[trigger] names(v1, n) <==> names(v2, n),
{
    assert forall|n: Seq<char>| #[trigger] names(v1, n) implies names(v2, n) by {
        let i = choose|i: int| 0 <= i < v1.len() && #[trigger] v1[i]@ == n;
        crate::notation::lemma_notation_round_trip((0, 0), n);
        assert(legal_move(b, state, s, decoded(n)));
    }
    assert forall|n: Seq<char>| #[trigger] names(v2, n) implies names(v1, n) by {
        let j = choose|j: int| 0 <= j < v2.len() && #[trigger] v2[j]@ == n;
        crate::notation::lemma_notation_round_trip((0, 0), n);
        assert(legal_move(b, state, s, decoded(n)));
    }
}

/// The piece that a promotion choice names for colour `c`: "q", "kn", "r" or
/// "b"; anything else is a queen.
pub open spec fn promotion_choice(n: Seq<char>, c: Colour) -> Piece {
    if n == seq!['k', 'n'] {
        Piece::Knight(c)
    } else if n == seq!['r'] {
        Piece::Rook(c)
    } else if n == seq!['b'] {
        Piece::Bishop(c)
    } else {
        Piece::Queen(c)
    }
}

/// A piece of colour `c` that a pawn may become.
pub open spec fn promotable(p: Piece, c: Colour) -> bool {
    p == Piece::Queen(c) || p == Piece::Knight(c) || p == Piece::Rook(c) || p == Piece::Bishop(c)
}

impl Game {
    /// The piece that a pawn of colour `c` becomes on promotion.
    pub open spec fn promotion(self, c: Colour) -> Piece {
        match c {
            Colour::White => self.white_promotion,
            Colour::Black => self.black_promotion,
        }
    }

    /// Each side's promotion choice is a queen, knight, rook or bishop of its colour.
    pub open spec fn wf(self) -> bool {
        promotable(self.promotion(Colour::White), Colour::White) && promotable(
            self.promotion(Colour::Black),
            Colour::Black,
        )
    }

    /// A move from `from` to `to` is accepted: the game is not over, both
    /// squares are well formed, and the piece on `from` belongs to the side to
    /// move and may legally go to `to`.
    pub open spec fn move_ok(self, from: Seq<char>, to: Seq<char>) -> bool {
        &&& self.state != GameState::GameOver
        &&& well_formed(from)
        &&& well_formed(to)
        &&& owns(self.board, self.active, decoded(from))
        &&& legal_move(self.board, self.state, decoded(from), decoded(to))
    }

    /// A game in the standard starting position, White to move.
    pub fn new() -> (g: Game)
        ensures
            g.state == GameState::InProgress,
            g.active == Colour::White,
            forall|s: (int, int)| in_bounds(s) ==> #[trigger] at(g.board, s) == start_piece(s),
            g.promotion(Colour::White) == Piece::Queen(Colour::White),
            g.promotion(Colour::Black) == Piece::Queen(Colour::Black),
            g.wf(),
    {
        let w = Colour::White;
        let b = Colour::Black;
        let board: Board = [
            [
                Some(Piece::Rook(w)),
                Some(Piece::Knight(w)),
                Some(Piece::Bishop(w)),
                Some(Piece::Queen(w)),
                Some(Piece::King(w)),
                Some(Piece::Bishop(w)),
                Some(Piece::Knight(w)),
                Some(Piece::Rook(w)),
            ],
            [Some(Piece::Pawn(w)); 8],
            [None; 8],
            [None; 8],
            [None; 8],
            [None; 8],
            [Some(Piece::Pawn(b)); 8],
            [
                Some(Piece::Rook(b)),
                Some(Piece::Knight(b)),
                Some(Piece::Bishop(b)),
                Some(Piece::Queen(b)),
                Some(Piece::King(b)),
                Some(Piece::Bishop(b)),
                Some(Piece::Knight(b)),
                Some(Piece::Rook(b)),
            ],
        ];
        Game {
            state: GameState::InProgress,
            active: Colour::White,
            board,
            white_promotion: Piece::Queen(w),
            black_promotion: Piece::Queen(b),
        }
    }

    /// The current status of the game.
    pub fn get_game_state(&self) -> (r: GameState)
        ensures
            r == self.state,
    {
        self.state
    }

    /// The legal destinations, in notation, of the piece on the square that
    /// `position` names; `None` where the notation is malformed or the square
    /// holds no piece of the side to move.
    pub fn get_possible_moves(&self, position: String) -> (r: Option<Vec<String>>)
        ensures
            r is Some <==> (well_formed(position@) && owns(self.board, self.active, decoded(position@))),
            match r {
                Some(v) => lists_moves(v@, self.board, self.state, decoded(position@)),
                None => true,
            },
    {
        let s = match decode_position(&position) {
            Some(s) => s,
            None => return None,
        };
        match self.board[s.0][s.1] {
            Some(piece) => {
                if piece.unwrap() != self.active {
                    return None;
                }
            },
            None => return None,
        }
        let moves = get_available_moves(&self.board, self.state, s);
        let names = code_moves(&moves);
        proof {
            let b = self.board;
            let st = self.state;
            let from = sq(s);
            assert forall|i: int| 0 <= i < names@.len() implies well_formed(#[trigger] names@[i]@) && legal_move(b, st, from, decoded(names@[i]@)) by {
                crate::notation::lemma_notation_round_trip(sq(moves@[i]), seq![]);
            }
            assert forall|t: (int, int)| #[trigger] legal_move(b, st, from, t) implies exists|i: int| 0 <= i < names@.len() && #[trigger] names@[i]@ == notation(t) by {
                let i = choose|i: int| 0 <= i < moves.len() && #[trigger] sq(moves@[i]) == t;
                assert(names@[i]@ == notation(t));
            }
            assert forall|i: int, j: int| 0 <= i < j < names@.len() implies #[trigger] names@[i]@ != #[trigger] names@[j]@ by {
                crate::notation::lemma_notation_round_trip(sq(moves@[i]), seq![]);
                crate::notation::lemma_notation_round_trip(sq(moves@[j]), seq![]);
            }
            assert(lists_moves(names@, b, st, from));
        }
        Some(names)
    }

    /// Moves the piece on `from` to `to` when the move is legal for the side
    /// to move and the game is not over: a pawn that reaches its last rank
    /// becomes the side's promotion choice, the status is recomputed for the
    /// other side, and that side is to move. Returns the new status, or
    /// `None`, leaving the game as it was, when the move is refused.
    pub fn make_move(&mut self, from: String, to: String) -> (r: Option<GameState>)
        ensures
            r is Some <==> old(self).move_ok(from@, to@),
            match r {
                None => *final(self) == *old(self),
                Some(st) => {
                    let s = decoded(from@);
                    let t = decoded(to@);
                    let p = at(old(self).board, s).unwrap();
                    &&& moved_board(old(self).board, final(self).board, s, t, landing(p, t, old(self).promotion(old(self).active)))
                    &&& final(self).active == flip(old(self).active)
                    &&& final(self).state == st
                    &&& st == status_after(final(self).board, final(self).active)
                    &&& final(self).white_promotion == old(self).white_promotion
                    &&& final(self).black_promotion == old(self).black_promotion
                },
            },
            r == Some(GameState::Check) || r == Some(GameState::GameOver) ==> in_check(final(self).board, final(self).active),
            r is Some ==> piece_count(final(self).board) == piece_count(old(self).board) - occupied(at(old(self).board, decoded(to@))),
            old(self).wf() ==> final(self).wf(),
    {
        if self.state == GameState::GameOver {
            return None;
        }
        let s = match decode_position(&from) {
            Some(s) => s,
            None => return None,
        };
        let t = match decode_position(&to) {
            Some(t) => t,
            None => return None,
        };
        let piece = match self.board[s.0][s.1] {
            Some(p) => p,
            None => return None,
        };
        if piece.unwrap() != self.active {
            return None;
        }
        if !is_legal_move(&self.board, self.state, s, t) {
            return None;
        }
        let landed = match piece {
            Piece::Pawn(Colour::White) => if t.0 == 7 { self.white_promotion } else { piece },
            Piece::Pawn(Colour::Black) => if t.0 == 0 { self.black_promotion } else { piece },
            _ => piece,
        };
        let ghost before = self.board;
        put(&mut self.board, t, Some(landed));
        put(&mut self.board, s, None);
        proof {
            lemma_move_conserves_pieces(before, self.board, sq(s), sq(t), landed);
        }
        let next = opponent(self.active);
        self.state = game_state_change(&self.board, next);
        self.active = next;
        Some(self.state)
    }

    /// Sets the piece that the side to move promotes its pawns to: "q",
    /// "kn", "r" or "b"; anything else chooses a queen. The choice holds for
    /// every later promotion of that side until it is set again.
    pub fn set_promotion(&mut self, piece: String)
        ensures
            final(self).promotion(old(self).active) == promotion_choice(piece@, old(self).active),
            final(self).promotion(flip(old(self).active)) == old(self).promotion(flip(old(self).active)),
            final(self).board == old(self).board,
            final(self).state == old(self).state,
            final(self).active == old(self).active,
            old(self).wf() ==> final(self).wf(),
    {
        let c = self.active;
        let text = piece.as_str();
        let n = text.unicode_len();
        let choice = if n == 1 {
            let ch = text.get_char(0);
            if ch == 'r' {
                assert(piece@ =~= seq!['r']);
                Piece::Rook(c)
            } else if ch == 'b' {
                assert(piece@ =~= seq!['b']);
                Piece::Bishop(c)
            } else {
                assert(piece@ != seq!['r'] && piece@ != seq!['b']) by {
                    assert(seq!['r'][0] == 'r' && seq!['b'][0] == 'b');
                }
                Piece::Queen(c)
            }
        } else if n == 2 && text.get_char(0) == 'k' && text.get_char(1) == 'n' {
            assert(piece@ =~= seq!['k', 'n']);
            Piece::Knight(c)
        } else {
            assert(piece@ != seq!['k', 'n']) by {
                if n == 2 {
                    assert(seq!['k', 'n'][0] == 'k' && seq!['k', 'n'][1] == 'n');
                }
            }
            Piece::Queen(c)
        };
        match c {
            Colour::White => self.white_promotion = choice,
            Colour::Black => self.black_promotion = choice,
        }
    }
}

/// Puts `v` on square `s`.
fn put(board: &mut Board, s: Square, v: Option<Piece>)
    requires
        in_bounds(sq(s)),
    ensures
        forall|u: (int, int)| #![trigger at(*final(board), u)] in_bounds(u) ==> at(*final(board), u) == if u == sq(s) {
            v
        } else {
            at(*old(board), u)
        },
{
    let mut row = board[s.0];
    row[s.1] = v;
    board[s.0] = row;
}

/// The legal destinations of the piece on `s`, in row-major order.
fn get_available_moves(board: &Board, state: GameState, s: Square) -> (v: Vec<Square>)
    requires
        in_bounds(sq(s)),
    ensures
        forall|i: int| 0 <= i < v.len() ==> in_bounds(#[trigger] sq(v@[i])) && legal_move(*board, state, sq(s), sq(v@[i])),
        forall|t: (int, int)| #[trigger] legal_move(*board, state, sq(s), t) ==> exists|i: int| 0 <= i < v.len() && #[trigger] sq(v@[i]) == t,
        forall|i: int, j: int| 0 <= i < j < v.len() ==> #[trigger] sq(v@[i]) != #[trigger] sq(v@[j]),
{
    let mut v: Vec<Square> = Vec::new();
    let mut r: usize = 0;
    while r < 8
        invariant
            r <= 8,
            in_bounds(sq(s)),
            forall|i: int| 0 <= i < v.len() ==> in_bounds(#[trigger] sq(v@[i])) && legal_move(*board, state, sq(s), sq(v@[i])) && sq(v@[i]).0 < r,
            forall|t: (int, int)| t.0 < r && #[trigger] legal_move(*board, state, sq(s), t) ==> exists|i: int| 0 <= i < v.len() && #[trigger] sq(v@[i]) == t,
            forall|i: int, j: int| 0 <= i < j < v.len() ==> scanned(#[trigger] sq(v@[i]), #[trigger] v@[j].0 as int, v@[j].1 as int),
        decreases 8 - r,
    {
        let mut f: usize = 0;
        while f < 8
            invariant
                r < 8,
                f <= 8,
                in_bounds(sq(s)),
                forall|i: int| 0 <= i < v.len() ==> in_bounds(#[trigger] sq(v@[i])) && legal_move(*board, state, sq(s), sq(v@[i])) && scanned(sq(v@[i]), r as int, f as int),
                forall|t: (int, int)| scanned(t, r as int, f as int) && #[trigger] legal_move(*board, state, sq(s), t) ==> exists|i: int| 0 <= i < v.len() && #[trigger] sq(v@[i]) == t,
                forall|i: int, j: int| 0 <= i < j < v.len() ==> scanned(#[trigger] sq(v@[i]), #[trigger] v@[j].0 as int, v@[j].1 as int),
            decreases 8 - f,
        {
            if is_legal_move(board, state, s, (r, f)) {
                let ghost before = v@;
                v.push((r, f));
                assert forall|t: (int, int)| scanned(t, r as int, f as int + 1) && #[trigger] legal_move(*board, state, sq(s), t) implies exists|i: int| 0 <= i < v.len() && #[trigger] sq(v@[i]) == t by {
                    if t == sq((r, f)) {
                        assert(sq(v@[before.len() as int]) == t);
                    } else {
                        let i = choose|i: int| 0 <= i < before.len() && #[trigger] sq(before[i]) == t;
                        assert(sq(v@[i]) == t);
                    }
                }
            }
            f = f + 1;
        }
        r = r + 1;
    }
    assert forall|i: int, j: int| 0 <= i < j < v.len() implies #[trigger] sq(v@[i]) != #[trigger] sq(v@[j]) by {
        assert(scanned(sq(v@[i]), v@[j].0 as int, v@[j].1 as int));
    }
    v
}

/// Whether a king of colour `c` is attacked.
fn king_attacked(board: &Board, c: Colour) -> (r: bool)
    ensures
        r == in_check(*board, c),
{
    let mut r: usize = 0;
    while r < 8
        invariant
            r <= 8,
            forall|k: (int, int)| k.0 < r && #[trigger] king_of(*board, k, c) ==> !attacked(*board, k, c),
        decreases 8 - r,
    {
        let mut f: usize = 0;
        while f < 8
            invariant
                r < 8,
                f <= 8,
                forall|k: (int, int)| scanned(k, r as int, f as int) && #[trigger] king_of(*board, k, c) ==> !attacked(*board, k, c),
            decreases 8 - f,
        {
            let is_king = match board[r][f] {
                Some(Piece::King(x)) => x == c,
                _ => false,
            };
            assert(is_king == king_of(*board, sq((r, f)), c));
            if is_king && check_check(board, (r, f), c) {
                assert(king_of(*board, sq((r, f)), c) && attacked(*board, sq((r, f)), c));
                return true;
            }
            f = f + 1;
        }
        r = r + 1;
    }
    false
}

/// Whether the piece on `s` has some legal move while the game stands in `state`.
fn has_moves(board: &Board, state: GameState, s: Square) -> (r: bool)
    requires
        in_bounds(sq(s)),
    ensures
        r == exists|t: (int, int)| #[trigger] legal_move(*board, state, sq(s), t),
{
    let mut r: usize = 0;
    while r < 8
        invariant
            r <= 8,
            in_bounds(sq(s)),
            forall|t: (int, int)| t.0 < r ==> !#[trigger] legal_move(*board, state, sq(s), t),
        decreases 8 - r,
    {
        let mut f: usize = 0;
        while f < 8
            invariant
                r < 8,
                f <= 8,
                in_bounds(sq(s)),
                forall|t: (int, int)| scanned(t, r as int, f as int) ==> !#[trigger] legal_move(*board, state, sq(s), t),
            decreases 8 - f,
        {
            if is_legal_move(board, state, s, (r, f)) {
                return true;
            }
            f = f + 1;
        }
        r = r + 1;
    }
    assert forall|t: (int, int)| !#[trigger] legal_move(*board, state, sq(s), t) by {
        if t.0 >= 8 {
            assert(!in_bounds(t));
        }
    }
    false
}

/// Whether no piece of colour `c`, in check, has a legal move.
fn check_mate(board: &Board, c: Colour) -> (r: bool)
    ensures
        r == !can_move(*board, GameState::Check, c),
{
    let mut r: usize = 0;
    while r < 8
        invariant
            r <= 8,
            forall|s: (int, int), t: (int, int)| s.0 < r && owns(*board, c, s) ==> !#[trigger] legal_move(*board, GameState::Check, s, t),
        decreases 8 - r,
    {
        let mut f: usize = 0;
        while f < 8
            invariant
                r < 8,
                f <= 8,
                forall|s: (int, int), t: (int, int)| scanned(s, r as int, f as int) && owns(*board, c, s) ==> !#[trigger] legal_move(*board, GameState::Check, s, t),
            decreases 8 - f,
        {
            let mine = match board[r][f] {
                Some(p) => p.unwrap() == c,
                None => false,
            };
            assert(mine == owns(*board, c, sq((r, f))));
            if mine && has_moves(board, GameState::Check, (r, f)) {
                return false;
            }
            f = f + 1;
        }
        r = r + 1;
    }
    assert forall|s: (int, int), t: (int, int)| owns(*board, c, s) implies !#[trigger] legal_move(*board, GameState::Check, s, t) by {
        assert(s.0 < 8);
    }
    true
}

/// The status of the game when `c` is to move next.
fn game_state_change(board: &Board, c: Colour) -> (r: GameState)
    ensures
        r == status_after(*board, c),
{
    if king_attacked(board, c) {
        if check_mate(board, c) {
            GameState::GameOver
        } else {
            GameState::Check
        }
    } else {
        GameState::InProgress
    }
}

} // verus!
