//! Squares, lines through the board, and the squares between two squares.
use vstd::prelude::*;
use crate::pieces::{Colour, Piece};

verus! {

/// An 8×8 board, indexed by rank then file; `None` is an empty square.
pub type Board = [[Option<Piece>; 8]; 8];

/// A square as (rank, file).
pub type Square = (usize, usize);

pub open spec fn abs(x: int) -> int {
    if x < 0 { -x } else { x }
}

pub open spec fn sgn(x: int) -> int {
    if x < 0 { -1 } else if x > 0 { 1 } else { 0 }
}

pub open spec fn in_bounds(s: (int, int)) -> bool {
    0 <= s.0 < 8 && 0 <= s.1 < 8
}

/// The square as a pair of mathematical integers.
pub open spec fn sq(s: Square) -> (int, int) {
    (s.0 as int, s.1 as int)
}

/// What stands on an in-bounds square.
pub open spec fn at(b: Board, s: (int, int)) -> Option<Piece> {
    b[s.0][s.1]
}

/// Two distinct squares on one rank or one file.
pub open spec fn straight(a: (int, int), b: (int, int)) -> bool {
    a != b && (a.0 == b.0 || a.1 == b.1)
}

/// Two distinct squares on one diagonal.
pub open spec fn diagonal(a: (int, int), b: (int, int)) -> bool {
    a != b && abs(b.0 - a.0) == abs(b.1 - a.1)
}

/// Two distinct squares on one line along which a queen moves.
pub open spec fn aligned(a: (int, int), b: (int, int)) -> bool {
    straight(a, b) || diagonal(a, b)
}

/// The number of king steps from `a` to `b`.
pub open spec fn dist(a: (int, int), b: (int, int)) -> int {
    let dr = abs(b.0 - a.0);
    let df = abs(b.1 - a.1);
    if dr >= df { dr } else { df }
}

/// The unit step that leads from `a` towards `b`.
pub open spec fn dir(a: (int, int), b: (int, int)) -> (int, int) {
    (sgn(b.0 - a.0), sgn(b.1 - a.1))
}

/// `u` lies strictly between `a` and `b` on the line that joins them.
pub open spec fn between(a: (int, int), u: (int, int), b: (int, int)) -> bool {
    &&& aligned(a, b)
    &&& aligned(a, u)
    &&& dir(a, u) == dir(a, b)
    &&& dist(a, u) < dist(a, b)
}

pub open spec fn advance(x: int, d: int, j: int) -> int {
    if d > 0 { x + j } else if d < 0 { x - j } else { x }
}

/// The square `j` unit steps from `s` in direction `d`.
pub open spec fn step(s: (int, int), d: (int, int), j: int) -> (int, int) {
    (advance(s.0, d.0, j), advance(s.1, d.1, j))
}

pub open spec fn unit_dir(d: (int, int)) -> bool {
    -1 <= d.0 <= 1 && -1 <= d.1 <= 1 && d != (0int, 0int)
}

/// The ray from `s` in direction `d`: `s` itself, then every square one more
/// step away, up to the edge of the board.
pub open spec fn is_line(line: Seq<Square>, s: (int, int), d: (int, int)) -> bool {
    &&& line.len() >= 1
    &&& forall|j: int| 0 <= j < line.len() ==> #[trigger] sq(line[j]) == step(s, d, j)
    &&& forall|j: int| 0 <= j < line.len() ==> in_bounds(#[trigger] sq(line[j]))
    &&& !in_bounds(step(s, d, line.len() as int))
}

/// A square on the line from `a` towards an aligned `b` is `b` after `dist` steps.
pub proof fn lemma_step_reaches(a: (int, int), b: (int, int))
    requires
        aligned(a, b),
    ensures
        step(a, dir(a, b), dist(a, b)) == b,
        unit_dir(dir(a, b)),
        dist(a, b) >= 1,
{
}

/// The squares between `a` and `b` are the steps from `a` short of `b`.
pub proof fn lemma_between_is_step(a: (int, int), u: (int, int), b: (int, int))
    requires
        aligned(a, b),
    ensures
        between(a, u, b) <==> (1 <= dist(a, u) < dist(a, b) && u == step(a, dir(a, b), dist(a, u))),
{
}

/// Every step from `a` short of an aligned `b` lies between them.
pub proof fn lemma_step_between(a: (int, int), b: (int, int), j: int)
    requires
        aligned(a, b),
        1 <= j < dist(a, b),
    ensures
        between(a, step(a, dir(a, b), j), b),
        dist(a, step(a, dir(a, b), j)) == j,
{
}

/// A square between `a` and `b` is itself aligned with `b`, in the same direction.
pub proof fn lemma_between_aligned(a: (int, int), u: (int, int), b: (int, int))
    requires
        between(a, u, b),
    ensures
        aligned(u, b),
        aligned(a, u),
        dir(u, b) == dir(a, b),
{
}

/// The steps from an in-bounds square towards an in-bounds square stay on the board.
pub proof fn lemma_step_in_bounds(a: (int, int), b: (int, int), j: int)
    requires
        aligned(a, b),
        in_bounds(a),
        in_bounds(b),
        0 <= j <= dist(a, b),
    ensures
        in_bounds(step(a, dir(a, b), j)),
{
}

/// The line scanner: `s` followed by each square one step further in
/// direction (`dr`, `df`), until the edge of the board.
pub fn get_line(s: Square, dr: i8, df: i8) -> (line: Vec<Square>)
    requires
        in_bounds(sq(s)),
        unit_dir((dr as int, df as int)),
    ensures
        is_line(line@, sq(s), (dr as int, df as int)),
{
    let ghost d = (dr as int, df as int);
    let mut line: Vec<Square> = Vec::new();
    let mut r: i8 = s.0 as i8;
    let mut f: i8 = s.1 as i8;
    while 0 <= r && r <= 7 && 0 <= f && f <= 7
        invariant
            unit_dir(d),
            d == (dr as int, df as int),
            in_bounds(sq(s)),
            line.len() <= 8,
            (r as int, f as int) == step(sq(s), d, line.len() as int),
            forall|j: int| 0 <= j < line.len() ==> #[trigger] sq(line@[j]) == step(sq(s), d, j),
            forall|j: int| 0 <= j < line.len() ==> in_bounds(#[trigger] sq(line@[j])),
        decreases 8 - line.len(),
    {
        line.push((r as usize, f as usize));
        r = r + dr;
        f = f + df;
    }
    line
}

/// The step from `a` towards an aligned `b`, as machine integers.
pub fn direction(a: Square, b: Square) -> (d: (i8, i8))
    requires
        in_bounds(sq(a)),
        in_bounds(sq(b)),
    ensures
        (d.0 as int, d.1 as int) == dir(sq(a), sq(b)),
{
    let dr: i8 = if b.0 > a.0 { 1 } else if b.0 < a.0 { -1 } else { 0 };
    let df: i8 = if b.1 > a.1 { 1 } else if b.1 < a.1 { -1 } else { 0 };
    (dr, df)
}

pub fn abs_diff(x: usize, y: usize) -> (r: usize)
    ensures
        r == abs(y - x),
{
    if x >= y { x - y } else { y - x }
}

/// Whether two squares are the same.
pub fn same_square(a: Square, b: Square) -> (r: bool)
    ensures
        r == (sq(a) == sq(b)),
{
    a.0 == b.0 && a.1 == b.1
}

pub fn is_straight(a: Square, b: Square) -> (r: bool)
    ensures
        r == straight(sq(a), sq(b)),
{
    !same_square(a, b) && (a.0 == b.0 || a.1 == b.1)
}

pub fn is_diagonal(a: Square, b: Square) -> (r: bool)
    ensures
        r == diagonal(sq(a), sq(b)),
{
    !same_square(a, b) && abs_diff(a.0, b.0) == abs_diff(a.1, b.1)
}

pub fn is_aligned(a: Square, b: Square) -> (r: bool)
    ensures
        r == aligned(sq(a), sq(b)),
{
    is_straight(a, b) || is_diagonal(a, b)
}

pub fn distance(a: Square, b: Square) -> (r: usize)
    ensures
        r == dist(sq(a), sq(b)),
{
    let dr = abs_diff(a.0, b.0);
    let df = abs_diff(a.1, b.1);
    if dr >= df { dr } else { df }
}

/// Whether `u` lies strictly between `a` and `b` on one line.
pub fn is_between(a: Square, u: Square, b: Square) -> (r: bool)
    requires
        in_bounds(sq(a)),
        in_bounds(sq(u)),
        in_bounds(sq(b)),
    ensures
        r == between(sq(a), sq(u), sq(b)),
{
    let du = direction(a, u);
    let db = direction(a, b);
    is_aligned(a, b) && is_aligned(a, u) && du.0 == db.0 && du.1 == db.1
        && distance(a, u) < distance(a, b)
}

/// A square that a sliding piece may pass over: empty, or holding the king of
/// `through` (an attack on that king's side goes on past the king).
pub open spec fn passable(p: Option<Piece>, through: Option<Colour>) -> bool {
    match p {
        None => true,
        Some(q) => through.is_some() && q == Piece::King(through.unwrap()),
    }
}

/// Every square strictly between `a` and `b` is passable.
pub open spec fn path_clear(b: Board, a: (int, int), t: (int, int), through: Option<Colour>) -> bool {
    forall|u: (int, int)| #[trigger] between(a, u, t) ==> passable(at(b, u), through)
}

pub fn is_passable(p: Option<Piece>, through: Option<Colour>) -> (r: bool)
    ensures
        r == passable(p, through),
{
    match p {
        None => true,
        Some(q) => match through {
            Some(c) => match q {
                Piece::King(k) => k == c,
                _ => false,
            },
            None => false,
        },
    }
}

/// Walks the line from `a` towards the aligned `t` and tells whether every
/// square strictly between them is passable.
pub fn check_path(board: &Board, a: Square, t: Square, through: Option<Colour>) -> (r: bool)
    requires
        in_bounds(sq(a)),
        in_bounds(sq(t)),
        aligned(sq(a), sq(t)),
    ensures
        r == path_clear(*board, sq(a), sq(t), through),
{
    let d = direction(a, t);
    let n = distance(a, t);
    proof {
        lemma_step_reaches(sq(a), sq(t));
    }
    let line = get_line(a, d.0, d.1);
    proof {
        if line.len() <= n {
            lemma_step_in_bounds(sq(a), sq(t), line.len() as int);
        }
    }
    let mut j: usize = 1;
    while j < n
        invariant
            1 <= j <= n,
            n == dist(sq(a), sq(t)),
            n < line.len(),
            aligned(sq(a), sq(t)),
            is_line(line@, sq(a), dir(sq(a), sq(t))),
            forall|i: int| 1 <= i < j ==> passable(at(*board, step(sq(a), dir(sq(a), sq(t)), i)), through),
        decreases n - j,
    {
        let u = line[j];
        assert(sq(u) == step(sq(a), dir(sq(a), sq(t)), j as int));
        if !is_passable(board[u.0][u.1], through) {
            proof {
                lemma_step_between(sq(a), sq(t), j as int);
            }
            return false;
        }
        j = j + 1;
    }
    assert forall|u: (int, int)| #[trigger] between(sq(a), u, sq(t)) implies passable(at(*board, u), through) by {
        lemma_between_is_step(sq(a), u, sq(t));
    }
    true
}

} // verus!
