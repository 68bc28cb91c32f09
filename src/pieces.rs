use vstd::prelude::*;

verus! {

/// The status of a game after the last move.
#[derive(Copy, Clone, Debug, PartialEq, Eq, Structural)]
pub enum GameState {
    InProgress,
    Check,
    GameOver,
}

/// The colour of a side.
#[derive(Copy, Clone, Debug, PartialEq, Eq, Structural)]
pub enum Colour {
    White,
    Black,
}

/// A piece: its kind, carrying the colour of the side that owns it.
#[derive(Copy, Clone, Debug, PartialEq, Eq, Structural)]
pub enum Piece {
    King(Colour),
    Queen(Colour),
    Bishop(Colour),
    Knight(Colour),
    Rook(Colour),
    Pawn(Colour),
}

/// The other side.
pub open spec fn flip(c: Colour) -> Colour {
    match c {
        Colour::White => Colour::Black,
        Colour::Black => Colour::White,
    }
}

/// The other side.
pub fn opponent(c: Colour) -> (r: Colour)
    ensures
        r == flip(c),
{
    match c {
        Colour::White => Colour::Black,
        Colour::Black => Colour::White,
    }
}

impl Piece {
    /// The colour that the piece belongs to.
    pub open spec fn colour(self) -> Colour {
        match self {
            Piece::King(c) => c,
            Piece::Queen(c) => c,
            Piece::Bishop(c) => c,
            Piece::Knight(c) => c,
            Piece::Rook(c) => c,
            Piece::Pawn(c) => c,
        }
    }

    /// The colour that the piece belongs to.
    pub fn unwrap(&self) -> (r: Colour)
        ensures
            r == self.colour(),
    {
        match self {
            Piece::King(c) => *c,
            Piece::Queen(c) => *c,
            Piece::Bishop(c) => *c,
            Piece::Knight(c) => *c,
            Piece::Rook(c) => *c,
            Piece::Pawn(c) => *c,
        }
    }

    /// The three-character code of the piece on a board dump: upper case for
    /// White, lower case for Black.
    pub open spec fn code(self) -> Seq<char> {
        let white = match self {
            Piece::King(_) => seq!['K', ' ', ' '],
            Piece::Queen(_) => seq!['Q', ' ', ' '],
            Piece::Bishop(_) => seq!['B', ' ', ' '],
            Piece::Knight(_) => seq!['K', 'n', ' '],
            Piece::Rook(_) => seq!['R', ' ', ' '],
            Piece::Pawn(_) => seq!['P', ' ', ' '],
        };
        match self.colour() {
            Colour::White => white,
            Colour::Black => white.map_values(|ch: char| lower(ch)),
        }
    }

    /// The code of the piece on a board dump, as `code` describes it.
    pub fn dis(&self) -> (r: String)
        ensures
            r@ == self.code(),
    {
        let white = match self.unwrap() {
            Colour::White => true,
            Colour::Black => false,
        };
        let s = match self {
            Piece::King(_) => if white { "K  " } else { "k  " },
            Piece::Queen(_) => if white { "Q  " } else { "q  " },
            Piece::Bishop(_) => if white { "B  " } else { "b  " },
            Piece::Knight(_) => if white { "Kn " } else { "kn " },
            Piece::Rook(_) => if white { "R  " } else { "r  " },
            Piece::Pawn(_) => if white { "P  " } else { "p  " },
        };
        proof {
            reveal_strlit("K  ");
            reveal_strlit("k  ");
            reveal_strlit("Q  ");
            reveal_strlit("q  ");
            reveal_strlit("B  ");
            reveal_strlit("b  ");
            reveal_strlit("Kn ");
            reveal_strlit("kn ");
            reveal_strlit("R  ");
            reveal_strlit("r  ");
            reveal_strlit("P  ");
            reveal_strlit("p  ");
        }
        let r = String::from_str(s);
        assert(r@ =~= self.code());
        r
    }
}

/// The lower-case form of an ASCII letter; other characters stay as they are.
pub open spec fn lower(ch: char) -> char {
    if 'A' <= ch <= 'Z' {
        ((ch as u32) + 32) as char
    } else {
        ch
    }
}

} // verus!
