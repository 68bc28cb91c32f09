//! Square notation: a file letter `a`–`h` followed by a rank digit `1`–`8`.
use vstd::prelude::*;
use vstd::string::*;
use crate::geometry::{in_bounds, sq, Square};

verus! {

pub open spec fn file_char(f: int) -> char {
    if f == 0 { 'a' }
    else if f == 1 { 'b' }
    else if f == 2 { 'c' }
    else if f == 3 { 'd' }
    else if f == 4 { 'e' }
    else if f == 5 { 'f' }
    else if f == 6 { 'g' }
    else { 'h' }
}

pub open spec fn rank_char(r: int) -> char {
    if r == 0 { '1' }
    else if r == 1 { '2' }
    else if r == 2 { '3' }
    else if r == 3 { '4' }
    else if r == 4 { '5' }
    else if r == 5 { '6' }
    else if r == 6 { '7' }
    else { '8' }
}

/// The file of a file letter, or -1 for any other character.
pub open spec fn file_index(ch: char) -> int {
    if ch == 'a' { 0 }
    else if ch == 'b' { 1 }
    else if ch == 'c' { 2 }
    else if ch == 'd' { 3 }
    else if ch == 'e' { 4 }
    else if ch == 'f' { 5 }
    else if ch == 'g' { 6 }
    else if ch == 'h' { 7 }
    else { -1 }
}

/// The rank of a rank digit, or -1 for any other character.
pub open spec fn rank_index(ch: char) -> int {
    if ch == '1' { 0 }
    else if ch == '2' { 1 }
    else if ch == '3' { 2 }
    else if ch == '4' { 3 }
    else if ch == '5' { 4 }
    else if ch == '6' { 5 }
    else if ch == '7' { 6 }
    else if ch == '8' { 7 }
    else { -1 }
}

/// The notation of an in-bounds square, such as `e4`.
pub open spec fn notation(s: (int, int)) -> Seq<char> {
    seq![file_char(s.1), rank_char(s.0)]
}

/// `n` names a square: exactly a file letter and a rank digit.
pub open spec fn well_formed(n: Seq<char>) -> bool {
    n.len() == 2 && file_index(n[0]) >= 0 && rank_index(n[1]) >= 0
}

/// The square that well-formed notation names.
pub open spec fn decoded(n: Seq<char>) -> (int, int) {
    (rank_index(n[1]), file_index(n[0]))
}

/// Formatting a square and reading it back gives the square; reading
/// well-formed notation and formatting the square gives the notation back.
pub proof fn lemma_notation_round_trip(s: (int, int), n: Seq<char>)
    ensures
        in_bounds(s) ==> well_formed(notation(s)) && decoded(notation(s)) == s,
        well_formed(n) ==> in_bounds(decoded(n)) && notation(decoded(n)) == n,
{
    if well_formed(n) {
        assert(notation(decoded(n)) =~= n);
    }
}

fn file_of(ch: char) -> (r: Option<usize>)
    ensures
        match r {
            Some(f) => file_index(ch) >= 0 && f == file_index(ch),
            None => file_index(ch) < 0,
        },
{
    match ch {
        'a' => Some(0),
        'b' => Some(1),
        'c' => Some(2),
        'd' => Some(3),
        'e' => Some(4),
        'f' => Some(5),
        'g' => Some(6),
        'h' => Some(7),
        _ => None,
    }
}

fn rank_of(ch: char) -> (r: Option<usize>)
    ensures
        match r {
            Some(x) => rank_index(ch) >= 0 && x == rank_index(ch),
            None => rank_index(ch) < 0,
        },
{
    match ch {
        '1' => Some(0),
        '2' => Some(1),
        '3' => Some(2),
        '4' => Some(3),
        '5' => Some(4),
        '6' => Some(5),
        '7' => Some(6),
        '8' => Some(7),
        _ => None,
    }
}

/// Reads square notation; `None` where it is not well formed.
pub fn decode_position(position: &String) -> (r: Option<Square>)
    ensures
        match r {
            Some(s) => well_formed(position@) && sq(s) == decoded(position@),
            None => !well_formed(position@),
        },
{
    let text = position.as_str();
    if text.unicode_len() != 2 {
        return None;
    }
    let f = file_of(text.get_char(0));
    let r = rank_of(text.get_char(1));
    match (r, f) {
        (Some(r), Some(f)) => Some((r, f)),
        _ => None,
    }
}

/// Writes an in-bounds square in notation.
pub fn code_square(s: Square) -> (r: String)
    requires
        in_bounds(sq(s)),
    ensures
        r@ == notation(sq(s)),
{
    let file = match s.1 {
        0 => "a",
        1 => "b",
        2 => "c",
        3 => "d",
        4 => "e",
        5 => "f",
        6 => "g",
        _ => "h",
    };
    let rank = match s.0 {
        0 => "1",
        1 => "2",
        2 => "3",
        3 => "4",
        4 => "5",
        5 => "6",
        6 => "7",
        _ => "8",
    };
    proof {
        reveal_strlit("a");
        reveal_strlit("b");
        reveal_strlit("c");
        reveal_strlit("d");
        reveal_strlit("e");
        reveal_strlit("f");
        reveal_strlit("g");
        reveal_strlit("h");
        reveal_strlit("1");
        reveal_strlit("2");
        reveal_strlit("3");
        reveal_strlit("4");
        reveal_strlit("5");
        reveal_strlit("6");
        reveal_strlit("7");
        reveal_strlit("8");
    }
    let mut out = String::from_str(file);
    out.append(rank);
    assert(out@ =~= notation(sq(s)));
    out
}

/// Writes each square of a list in notation, in order.
pub fn code_moves(moves: &Vec<Square>) -> (r: Vec<String>)
    requires
        forall|i: int| 0 <= i < moves.len() ==> in_bounds(#[trigger] sq(moves@[i])),
    ensures
        r.len() == moves.len(),
        forall|i: int| 0 <= i < moves.len() ==> #[trigger] r@[i]@ == notation(sq(moves@[i])),
{
    let mut out: Vec<String> = Vec::new();
    let mut i: usize = 0;
    while i < moves.len()
        invariant
            i <= moves.len(),
            out.len() == i,
            forall|j: int| 0 <= j < moves.len() ==> in_bounds(#[trigger] sq(moves@[j])),
            forall|j: int| 0 <= j < i ==> #[trigger] out@[j]@ == notation(sq(moves@[j])),
        decreases moves.len() - i,
    {
        out.push(code_square(moves[i]));
        i = i + 1;
    }
    out
}

} // verus!
