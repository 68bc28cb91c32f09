//! Piece movement, attacks on a square, pins and the resolution of a check.
use vstd::prelude::*;
use crate::geometry::{
    abs, abs_diff, aligned, at, between, check_path, is_between, lemma_between_aligned, diagonal, in_bounds, is_aligned, is_diagonal, is_straight,
    path_clear, same_square, sq, straight, Board, Square,
};
use crate::pieces::{Colour, GameState, Piece};

verus! {

/// The rank step of a pawn of colour `c`.
pub open spec fn forward(c: Colour) -> int {
    match c {
        Colour::White => 1,
        Colour::Black => -1,
    }
}

/// The rank on which the pawns of colour `c` start.
pub open spec fn pawn_start(c: Colour) -> int {
    match c {
        Colour::White => 1,
        Colour::Black => 6,
    }
}

/// The rank on which a pawn of colour `c` is promoted.
pub open spec fn last_rank(c: Colour) -> int {
    match c {
        Colour::White => 7,
        Colour::Black => 0,
    }
}

/// `t` holds a piece of colour `c`.
pub open spec fn friendly(b: Board, t: (int, int), c: Colour) -> bool {
    match at(b, t) {
        Some(q) => q.colour() == c,
        None => false,
    }
}

/// `t` holds a piece of the colour opposed to `c`.
pub open spec fn enemy(b: Board, t: (int, int), c: Colour) -> bool {
    match at(b, t) {
        Some(q) => q.colour() != c,
        None => false,
    }
}

pub open spec fn king_step(s: (int, int), t: (int, int)) -> bool {
    s != t && abs(t.0 - s.0) <= 1 && abs(t.1 - s.1) <= 1
}

pub open spec fn knight_jump(s: (int, int), t: (int, int)) -> bool {
    (abs(t.0 - s.0) == 1 && abs(t.1 - s.1) == 2) || (abs(t.0 - s.0) == 2 && abs(t.1 - s.1) == 1)
}

/// A pawn of colour `c` on `s` may go to `t`: one square forward onto an empty
/// square, two from its starting rank over two empty squares, or one square
/// diagonally forward onto an enemy piece.
pub open spec fn pawn_move(b: Board, c: Colour, s: (int, int), t: (int, int)) -> bool {
    let f = forward(c);
    ||| t == (s.0 + f, s.1) && at(b, t) is None
    ||| s.0 == pawn_start(c) && t == (s.0 + 2 * f, s.1) && at(b, (s.0 + f, s.1)) is None
        && at(b, t) is None
    ||| t.0 == s.0 + f && abs(t.1 - s.1) == 1 && enemy(b, t, c)
}

/// A pawn of colour `c` on `s` attacks `t`: one square diagonally forward,
/// whatever stands there.
pub open spec fn pawn_attack(c: Colour, s: (int, int), t: (int, int)) -> bool {
    t.0 == s.0 + forward(c) && abs(t.1 - s.1) == 1
}

/// Piece `p` on `s` may go to `t` by its own pattern of movement, before any
/// question of the safety of its king (the pseudo-legal moves).
pub open spec fn pseudo_move(b: Board, p: Piece, s: (int, int), t: (int, int)) -> bool {
    match p {
        Piece::King(c) => king_step(s, t) && !friendly(b, t, c),
        Piece::Knight(c) => knight_jump(s, t) && !friendly(b, t, c),
        Piece::Rook(c) => straight(s, t) && path_clear(b, s, t, None) && !friendly(b, t, c),
        Piece::Bishop(c) => diagonal(s, t) && path_clear(b, s, t, None) && !friendly(b, t, c),
        Piece::Queen(c) => aligned(s, t) && path_clear(b, s, t, None) && !friendly(b, t, c),
        Piece::Pawn(c) => pawn_move(b, c, s, t),
    }
}

/// Piece `p` on `s` attacks `t`, where `c` is the side under attack: a sliding
/// piece's attack passes over the king of `c`.
pub open spec fn attacks(b: Board, p: Piece, s: (int, int), t: (int, int), c: Colour) -> bool {
    match p {
        Piece::King(_) => king_step(s, t),
        Piece::Knight(_) => knight_jump(s, t),
        Piece::Rook(_) => straight(s, t) && path_clear(b, s, t, Some(c)),
        Piece::Bishop(_) => diagonal(s, t) && path_clear(b, s, t, Some(c)),
        Piece::Queen(_) => aligned(s, t) && path_clear(b, s, t, Some(c)),
        Piece::Pawn(pc) => pawn_attack(pc, s, t),
    }
}

/// The piece on `s` is an enemy of `c` and attacks `t`.
pub open spec fn attacker(b: Board, s: (int, int), t: (int, int), c: Colour) -> bool {
    &&& in_bounds(s)
    &&& match at(b, s) {
        Some(q) => q.colour() != c && attacks(b, q, s, t, c),
        None => false,
    }
}

/// Square `t` is attacked by a piece of the side opposed to `c`.
pub open spec fn attacked(b: Board, t: (int, int), c: Colour) -> bool {
    exists|s: (int, int)| #[trigger] attacker(b, s, t, c)
}

/// The row-major order of the scan over the board: `s` comes before (`r`, `f`).
pub open spec fn scanned(s: (int, int), r: int, f: int) -> bool {
    s.0 < r || (s.0 == r && s.1 < f)
}

fn forward_of(c: Colour) -> (r: i8)
    ensures
        r == forward(c),
{
    match c {
        Colour::White => 1,
        Colour::Black => -1,
    }
}

fn holds_colour(p: Option<Piece>, c: Colour) -> (r: bool)
    ensures
        r == (match p {
            Some(q) => q.colour() == c,
            None => false,
        }),
{
    match p {
        Some(q) => q.unwrap() == c,
        None => false,
    }
}

/// Whether `t` holds a piece of colour `c`.
pub fn check_occupied(board: &Board, t: Square, c: Colour) -> (r: bool)
    requires
        in_bounds(sq(t)),
    ensures
        r == friendly(*board, sq(t), c),
{
    holds_colour(board[t.0][t.1], c)
}

fn holds_enemy(board: &Board, t: Square, c: Colour) -> (r: bool)
    requires
        in_bounds(sq(t)),
    ensures
        r == enemy(*board, sq(t), c),
{
    match board[t.0][t.1] {
        Some(q) => q.unwrap() != c,
        None => false,
    }
}

fn is_empty(board: &Board, t: Square) -> (r: bool)
    requires
        in_bounds(sq(t)),
    ensures
        r == (at(*board, sq(t)) is None),
{
    board[t.0][t.1].is_none()
}

pub fn is_king_step(s: Square, t: Square) -> (r: bool)
    ensures
        r == king_step(sq(s), sq(t)),
{
    !same_square(s, t) && abs_diff(s.0, t.0) <= 1 && abs_diff(s.1, t.1) <= 1
}

pub fn is_knight_jump(s: Square, t: Square) -> (r: bool)
    ensures
        r == knight_jump(sq(s), sq(t)),
{
    let dr = abs_diff(s.0, t.0);
    let df = abs_diff(s.1, t.1);
    (dr == 1 && df == 2) || (dr == 2 && df == 1)
}

/// Whether a pawn of colour `c` on `s` may go to `t`.
pub fn get_pawn_moves(board: &Board, c: Colour, s: Square, t: Square) -> (r: bool)
    requires
        in_bounds(sq(s)),
        in_bounds(sq(t)),
    ensures
        r == pawn_move(*board, c, sq(s), sq(t)),
{
    let f = forward_of(c);
    let sr = s.0 as i8;
    let tr = t.0 as i8;
    let start: i8 = match c {
        Colour::White => 1,
        Colour::Black => 6,
    };
    let single = tr == sr + f && t.1 == s.1 && is_empty(board, t);
    let double = sr == start && tr == sr + 2 * f && t.1 == s.1 && is_empty(board, (
        (sr + f) as usize,
        s.1,
    )) && is_empty(board, t);
    let take = tr == sr + f && abs_diff(s.1, t.1) == 1 && holds_enemy(board, t, c);
    single || double || take
}

/// Whether a pawn of colour `c` on `s` attacks `t`.
pub fn get_pawn_takes(c: Colour, s: Square, t: Square) -> (r: bool)
    requires
        in_bounds(sq(s)),
        in_bounds(sq(t)),
    ensures
        r == pawn_attack(c, sq(s), sq(t)),
{
    t.0 as i8 == s.0 as i8 + forward_of(c) && abs_diff(s.1, t.1) == 1
}

/// Whether a sliding piece of colour `c` on `s` may go to `t` along a line
/// that `line_ok` (a rank or file, or a diagonal) allows: every square
/// before `t` is empty, and `t` is empty or holds an enemy.
fn slide_move(board: &Board, c: Colour, s: Square, t: Square, line_ok: bool) -> (r: bool)
    requires
        in_bounds(sq(s)),
        in_bounds(sq(t)),
        line_ok ==> aligned(sq(s), sq(t)),
    ensures
        r == (line_ok && path_clear(*board, sq(s), sq(t), None) && !friendly(*board, sq(t), c)),
{
    line_ok && check_path(board, s, t, None) && !check_occupied(board, t, c)
}

/// Whether a rook-like piece of colour `c` on `s` may go to `t` along its
/// rank or file.
pub fn get_straight_moves(board: &Board, c: Colour, s: Square, t: Square) -> (r: bool)
    requires
        in_bounds(sq(s)),
        in_bounds(sq(t)),
    ensures
        r == (straight(sq(s), sq(t)) && path_clear(*board, sq(s), sq(t), None) && !friendly(*board, sq(t), c)),
{
    slide_move(board, c, s, t, is_straight(s, t))
}

/// Whether a bishop-like piece of colour `c` on `s` may go to `t` along a
/// diagonal.
pub fn get_diagonal_moves(board: &Board, c: Colour, s: Square, t: Square) -> (r: bool)
    requires
        in_bounds(sq(s)),
        in_bounds(sq(t)),
    ensures
        r == (diagonal(sq(s), sq(t)) && path_clear(*board, sq(s), sq(t), None) && !friendly(*board, sq(t), c)),
{
    slide_move(board, c, s, t, is_diagonal(s, t))
}

/// Whether a knight of colour `c` on `s` may jump to `t`.
pub fn get_knight_moves(board: &Board, c: Colour, s: Square, t: Square) -> (r: bool)
    requires
        in_bounds(sq(s)),
        in_bounds(sq(t)),
    ensures
        r == pseudo_move(*board, Piece::Knight(c), sq(s), sq(t)),
{
    is_knight_jump(s, t) && !check_occupied(board, t, c)
}

/// Whether the king of colour `c` on `s` may step to `t`: one step onto a
/// square without a piece of its own and, where `checkable`, that no enemy
/// attacks.
pub fn get_king_movement(board: &Board, c: Colour, s: Square, t: Square, checkable: bool) -> (r: bool)
    requires
        in_bounds(sq(s)),
        in_bounds(sq(t)),
    ensures
        r == (pseudo_move(*board, Piece::King(c), sq(s), sq(t)) && (checkable ==> !attacked(*board, sq(t), c))),
{
    is_king_step(s, t) && !check_occupied(board, t, c) && (!checkable || !check_check(board, t, c))
}

/// Whether piece `p` on `s` may go to `t` by its pattern of movement.
pub fn get_pseudo_moves(board: &Board, p: Piece, s: Square, t: Square) -> (r: bool)
    requires
        in_bounds(sq(s)),
        in_bounds(sq(t)),
    ensures
        r == pseudo_move(*board, p, sq(s), sq(t)),
{
    match p {
        Piece::King(c) => get_king_movement(board, c, s, t, false),
        Piece::Knight(c) => get_knight_moves(board, c, s, t),
        Piece::Rook(c) => get_straight_moves(board, c, s, t),
        Piece::Bishop(c) => get_diagonal_moves(board, c, s, t),
        Piece::Queen(c) => get_straight_moves(board, c, s, t) || get_diagonal_moves(board, c, s, t),
        Piece::Pawn(c) => get_pawn_moves(board, c, s, t),
    }
}

/// Whether a rook-like piece on `s` attacks `t` along its rank or file,
/// where `c` is the side under attack.
pub fn get_straight_takes(board: &Board, s: Square, t: Square, c: Colour) -> (r: bool)
    requires
        in_bounds(sq(s)),
        in_bounds(sq(t)),
    ensures
        r == (straight(sq(s), sq(t)) && path_clear(*board, sq(s), sq(t), Some(c))),
{
    is_straight(s, t) && check_path(board, s, t, Some(c))
}

/// Whether a bishop-like piece on `s` attacks `t` along a diagonal, where
/// `c` is the side under attack.
pub fn get_diagonal_takes(board: &Board, s: Square, t: Square, c: Colour) -> (r: bool)
    requires
        in_bounds(sq(s)),
        in_bounds(sq(t)),
    ensures
        r == (diagonal(sq(s), sq(t)) && path_clear(*board, sq(s), sq(t), Some(c))),
{
    is_diagonal(s, t) && check_path(board, s, t, Some(c))
}

/// Whether piece `p` on `s` attacks `t`, where `c` is the side under attack.
pub fn get_takes(board: &Board, p: Piece, s: Square, t: Square, c: Colour) -> (r: bool)
    requires
        in_bounds(sq(s)),
        in_bounds(sq(t)),
    ensures
        r == attacks(*board, p, sq(s), sq(t), c),
{
    match p {
        Piece::King(_) => is_king_step(s, t),
        Piece::Knight(_) => is_knight_jump(s, t),
        Piece::Rook(_) => get_straight_takes(board, s, t, c),
        Piece::Bishop(_) => get_diagonal_takes(board, s, t, c),
        Piece::Queen(_) => get_straight_takes(board, s, t, c) || get_diagonal_takes(board, s, t, c),
        Piece::Pawn(pc) => get_pawn_takes(pc, s, t),
    }
}

/// The attack detector: whether a piece of the side opposed to `c` attacks `t`.
pub fn check_check(board: &Board, t: Square, c: Colour) -> (r: bool)
    requires
        in_bounds(sq(t)),
    ensures
        r == attacked(*board, sq(t), c),
{
    let mut r: usize = 0;
    while r < 8
        invariant
            r <= 8,
            in_bounds(sq(t)),
            forall|s: (int, int)| s.0 < r ==> !#[trigger] attacker(*board, s, sq(t), c),
        decreases 8 - r,
    {
        let mut f: usize = 0;
        while f < 8
            invariant
                r < 8,
                f <= 8,
                in_bounds(sq(t)),
                forall|s: (int, int)| scanned(s, r as int, f as int) ==> !#[trigger] attacker(*board, s, sq(t), c),
            decreases 8 - f,
        {
            if let Some(p) = board[r][f] {
                if p.unwrap() != c && get_takes(board, p, (r, f), t, c) {
                    assert(attacker(*board, sq((r, f)), sq(t), c));
                    return true;
                }
            }
            assert(!attacker(*board, sq((r, f)), sq(t), c));
            f = f + 1;
        }
        r = r + 1;
    }
    false
}

/// `k` holds the king of colour `c`.
pub open spec fn king_of(b: Board, k: (int, int), c: Colour) -> bool {
    in_bounds(k) && at(b, k) == Some(Piece::King(c))
}

/// A piece `q` on `p` can pin along the line from `k`: queens on any line,
/// bishops on diagonals, rooks on ranks and files.
pub open spec fn pin_kind(q: Piece, k: (int, int), p: (int, int)) -> bool {
    match q {
        Piece::Queen(_) => true,
        Piece::Bishop(_) => diagonal(k, p),
        Piece::Rook(_) => straight(k, p),
        _ => false,
    }
}

/// The enemy slider on `p` pins the piece on `m` to the king of `c` on `k`:
/// `m` stands between them, and nothing else does.
pub open spec fn pins(b: Board, k: (int, int), m: (int, int), p: (int, int), c: Colour) -> bool {
    &&& in_bounds(p)
    &&& between(k, m, p)
    &&& match at(b, p) {
        Some(q) => q.colour() != c && pin_kind(q, k, p),
        None => false,
    }
    &&& path_clear(b, k, m, None)
    &&& path_clear(b, m, p, None)
}

/// The squares that a piece pinned from `p` may move to: the pinner's square,
/// and the squares between the pinner and the king.
pub open spec fn on_pin_line(k: (int, int), m: (int, int), p: (int, int), t: (int, int)) -> bool {
    t == p || (between(k, t, p) && t != m)
}

/// Moving the piece on `m` to `t` keeps every pin against the king on `k`.
pub open spec fn king_pin_ok(b: Board, k: (int, int), m: (int, int), t: (int, int), c: Colour) -> bool {
    forall|p: (int, int)| #[trigger] pins(b, k, m, p, c) ==> on_pin_line(k, m, p, t)
}

/// Moving the piece on `m` to `t` exposes no king of colour `c` to a pinner.
pub open spec fn pin_ok(b: Board, m: (int, int), t: (int, int), c: Colour) -> bool {
    forall|k: (int, int)| #[trigger] king_of(b, k, c) ==> king_pin_ok(b, k, m, t, c)
}

/// The enemy piece on `s` gives check to the king of `c` on `k`.
pub open spec fn checker(b: Board, k: (int, int), s: (int, int), c: Colour) -> bool {
    &&& in_bounds(s)
    &&& match at(b, s) {
        Some(q) => q.colour() != c && pseudo_move(b, q, s, k),
        None => false,
    }
}

/// Two pieces give check to the king on `k` at once.
pub open spec fn double_check(b: Board, k: (int, int), c: Colour) -> bool {
    exists|s1: (int, int), s2: (int, int)|
        s1 != s2 && #[trigger] checker(b, k, s1, c) && #[trigger] checker(b, k, s2, c)
}

/// A move to `t` takes the checker on `s` or stands in its way to the king on `k`.
pub open spec fn blocks_or_takes(s: (int, int), t: (int, int), k: (int, int)) -> bool {
    t == s || between(s, t, k)
}

/// A move to `t`, by a piece other than the king, lifts every check on the king on `k`.
pub open spec fn resolves(b: Board, k: (int, int), t: (int, int), c: Colour) -> bool {
    &&& !double_check(b, k, c)
    &&& forall|s: (int, int)| #[trigger] checker(b, k, s, c) ==> blocks_or_takes(s, t, k)
}

/// A move to `t`, by a piece other than the king, lifts the checks on every king of `c`.
pub open spec fn check_ok(b: Board, t: (int, int), c: Colour) -> bool {
    forall|k: (int, int)| #[trigger] king_of(b, k, c) ==> resolves(b, k, t, c)
}

/// The piece on `s` may legally go to `t` while the game stands in `state`:
/// a king to a square that no enemy attacks; any other piece without leaving
/// a pin, and, in check, only to lift the check.
#[verifier::opaque]
pub open spec fn legal_move(b: Board, state: GameState, s: (int, int), t: (int, int)) -> bool {
    &&& in_bounds(s)
    &&& in_bounds(t)
    &&& match at(b, s) {
        None => false,
        Some(p) => match p {
            Piece::King(c) => pseudo_move(b, p, s, t) && !attacked(b, t, c),
            _ => {
                &&& pseudo_move(b, p, s, t)
                &&& pin_ok(b, s, t, p.colour())
                &&& (state == GameState::Check ==> check_ok(b, t, p.colour()))
            },
        },
    }
}

/// A legal move joins two squares of the board, from a square that holds a piece.
pub broadcast proof fn lemma_legal_in_bounds(b: Board, state: GameState, s: (int, int), t: (int, int))
    ensures
        #[trigger] legal_move(b, state, s, t) ==> in_bounds(s) && in_bounds(t) && at(b, s) is Some
            && s != t,
{
    reveal(legal_move);
}

fn is_king_of(board: &Board, k: Square, c: Colour) -> (r: bool)
    requires
        in_bounds(sq(k)),
    ensures
        r == king_of(*board, sq(k), c),
{
    match board[k.0][k.1] {
        Some(Piece::King(x)) => x == c,
        _ => false,
    }
}

fn is_pin_kind(q: Piece, k: Square, p: Square) -> (r: bool)
    ensures
        r == pin_kind(q, sq(k), sq(p)),
{
    match q {
        Piece::Queen(_) => true,
        Piece::Bishop(_) => is_diagonal(k, p),
        Piece::Rook(_) => is_straight(k, p),
        _ => false,
    }
}

/// Whether the piece on `p` pins the piece on `m` to the king of `c` on `k`.
pub fn get_pin(board: &Board, k: Square, m: Square, p: Square, c: Colour) -> (r: bool)
    requires
        in_bounds(sq(k)),
        in_bounds(sq(m)),
        in_bounds(sq(p)),
    ensures
        r == pins(*board, sq(k), sq(m), sq(p), c),
{
    if !is_between(k, m, p) {
        return false;
    }
    proof {
        lemma_between_aligned(sq(k), sq(m), sq(p));
    }
    let kind = match board[p.0][p.1] {
        Some(q) => q.unwrap() != c && is_pin_kind(q, k, p),
        None => false,
    };
    kind && check_path(board, k, m, None) && check_path(board, m, p, None)
}

/// Whether moving the piece on `m` to `t` keeps every pin against the king on `k`.
fn pins_kept(board: &Board, k: Square, m: Square, t: Square, c: Colour) -> (r: bool)
    requires
        in_bounds(sq(k)),
        in_bounds(sq(m)),
        in_bounds(sq(t)),
    ensures
        r == king_pin_ok(*board, sq(k), sq(m), sq(t), c),
{
    let mut r: usize = 0;
    while r < 8
        invariant
            r <= 8,
            in_bounds(sq(k)),
            in_bounds(sq(m)),
            in_bounds(sq(t)),
            forall|p: (int, int)| p.0 < r && #[trigger] pins(*board, sq(k), sq(m), p, c) ==> on_pin_line(sq(k), sq(m), p, sq(t)),
        decreases 8 - r,
    {
        let mut f: usize = 0;
        while f < 8
            invariant
                r < 8,
                f <= 8,
                in_bounds(sq(k)),
                in_bounds(sq(m)),
                in_bounds(sq(t)),
                forall|p: (int, int)| scanned(p, r as int, f as int) && #[trigger] pins(*board, sq(k), sq(m), p, c) ==> on_pin_line(sq(k), sq(m), p, sq(t)),
            decreases 8 - f,
        {
            if get_pin(board, k, m, (r, f), c) {
                let on_line = same_square(t, (r, f)) || (is_between(k, t, (r, f)) && !same_square(t, m));
                if !on_line {
                    return false;
                }
            }
            f = f + 1;
        }
        r = r + 1;
    }
    assert forall|p: (int, int)| #[trigger] pins(*board, sq(k), sq(m), p, c) implies on_pin_line(sq(k), sq(m), p, sq(t)) by {
        assert(p.0 < 8);
    }
    true
}

/// The pin resolver: whether moving the piece of colour `c` on `m` to `t`
/// exposes none of its kings to a pinning piece.
pub fn check_pinned(board: &Board, m: Square, t: Square, c: Colour) -> (r: bool)
    requires
        in_bounds(sq(m)),
        in_bounds(sq(t)),
    ensures
        r == pin_ok(*board, sq(m), sq(t), c),
{
    let mut r: usize = 0;
    while r < 8
        invariant
            r <= 8,
            in_bounds(sq(m)),
            in_bounds(sq(t)),
            forall|k: (int, int)| k.0 < r && #[trigger] king_of(*board, k, c) ==> king_pin_ok(*board, k, sq(m), sq(t), c),
        decreases 8 - r,
    {
        let mut f: usize = 0;
        while f < 8
            invariant
                r < 8,
                f <= 8,
                in_bounds(sq(m)),
                in_bounds(sq(t)),
                forall|k: (int, int)| scanned(k, r as int, f as int) && #[trigger] king_of(*board, k, c) ==> king_pin_ok(*board, k, sq(m), sq(t), c),
            decreases 8 - f,
        {
            if is_king_of(board, (r, f), c) && !pins_kept(board, (r, f), m, t, c) {
                return false;
            }
            f = f + 1;
        }
        r = r + 1;
    }
    true
}

/// Whether a move to `t` takes the checker on `s` or blocks its line to the
/// king on `k` (a knight, pawn or king checker can only be taken).
pub fn get_check_line(s: Square, t: Square, k: Square) -> (r: bool)
    requires
        in_bounds(sq(s)),
        in_bounds(sq(t)),
        in_bounds(sq(k)),
    ensures
        r == blocks_or_takes(sq(s), sq(t), sq(k)),
{
    same_square(s, t) || is_between(s, t, k)
}

/// Whether a move to `t` lifts every check on the king of `c` on `k`.
fn resolves_for(board: &Board, k: Square, t: Square, c: Colour) -> (r: bool)
    requires
        in_bounds(sq(k)),
        in_bounds(sq(t)),
    ensures
        r == resolves(*board, sq(k), sq(t), c),
{
    let mut found: Option<Square> = None;
    let mut r: usize = 0;
    while r < 8
        invariant
            r <= 8,
            in_bounds(sq(k)),
            in_bounds(sq(t)),
            match found {
                None => forall|s: (int, int)| s.0 < r && in_bounds(s) ==> !#[trigger] checker(*board, sq(k), s, c),
                Some(x) => in_bounds(sq(x)) && x.0 < r && checker(*board, sq(k), sq(x), c) && forall|s: (int, int)|
                    s.0 < r && s != sq(x) ==> !#[trigger] checker(*board, sq(k), s, c),
            },
        decreases 8 - r,
    {
        let mut f: usize = 0;
        while f < 8
            invariant
                r < 8,
                f <= 8,
                in_bounds(sq(k)),
                in_bounds(sq(t)),
                match found {
                    None => forall|s: (int, int)| scanned(s, r as int, f as int) && in_bounds(s) ==> !#[trigger] checker(*board, sq(k), s, c),
                    Some(x) => in_bounds(sq(x)) && scanned(sq(x), r as int, f as int) && checker(*board, sq(k), sq(x), c) && forall|s: (int, int)|
                        scanned(s, r as int, f as int) && s != sq(x) ==> !#[trigger] checker(*board, sq(k), s, c),
                },
            decreases 8 - f,
        {
            let gives_check = match board[r][f] {
                Some(q) => q.unwrap() != c && get_pseudo_moves(board, q, (r, f), k),
                None => false,
            };
            assert(gives_check == checker(*board, sq(k), sq((r, f)), c));
            if gives_check {
                match found {
                    Some(x) => {
                        assert(checker(*board, sq(k), sq(x), c) && checker(*board, sq(k), sq((r, f)), c) && sq(x) != sq((r, f)));
                        return false;
                    },
                    None => {
                        found = Some((r, f));
                    },
                }
            }
            f = f + 1;
        }
        r = r + 1;
    }
    match found {
        None => {
            assert forall|s: (int, int)| #[trigger] checker(*board, sq(k), s, c) implies blocks_or_takes(s, sq(t), sq(k)) by {
                assert(s.0 < 8);
            }
            true
        },
        Some(x) => {
            assert forall|s: (int, int)| #[trigger] checker(*board, sq(k), s, c) implies s == sq(x) by {
                assert(s.0 < 8);
            }
            assert(!double_check(*board, sq(k), c));
            get_check_line(x, t, k)
        },
    }
}

/// The check resolver: whether a move to `t`, by a piece of colour `c` other
/// than the king, lifts the checks on every king of `c`.
pub fn resolve_check(board: &Board, t: Square, c: Colour) -> (r: bool)
    requires
        in_bounds(sq(t)),
    ensures
        r == check_ok(*board, sq(t), c),
{
    let mut r: usize = 0;
    while r < 8
        invariant
            r <= 8,
            in_bounds(sq(t)),
            forall|k: (int, int)| k.0 < r && #[trigger] king_of(*board, k, c) ==> resolves(*board, k, sq(t), c),
        decreases 8 - r,
    {
        let mut f: usize = 0;
        while f < 8
            invariant
                r < 8,
                f <= 8,
                in_bounds(sq(t)),
                forall|k: (int, int)| scanned(k, r as int, f as int) && #[trigger] king_of(*board, k, c) ==> resolves(*board, k, sq(t), c),
            decreases 8 - f,
        {
            if is_king_of(board, (r, f), c) && !resolves_for(board, (r, f), t, c) {
                return false;
            }
            f = f + 1;
        }
        r = r + 1;
    }
    true
}

/// Whether the piece on `s` may legally go to `t` while the game stands in `state`.
pub fn is_legal_move(board: &Board, state: GameState, s: Square, t: Square) -> (r: bool)
    requires
        in_bounds(sq(s)),
        in_bounds(sq(t)),
    ensures
        r == legal_move(*board, state, sq(s), sq(t)),
{
    reveal(legal_move);
    match board[s.0][s.1] {
        None => false,
        Some(p) => match p {
            Piece::King(c) => get_king_movement(board, c, s, t, true),
            _ => {
                let c = p.unwrap();
                get_pseudo_moves(board, p, s, t) && check_pinned(board, s, t, c) && (
                state != GameState::Check || resolve_check(board, t, c))
            },
        },
    }
}

} // verus!
