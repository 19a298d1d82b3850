use vstd::prelude::*;

verus! {

/// A chess piece: its colour and its kind.
#[derive(Clone, Copy, Debug, PartialEq, Eq, Structural)]
pub enum Piece {
    WhitePawn,
    WhiteKnight,
    WhiteBishop,
    WhiteRook,
    WhiteQueen,
    WhiteKing,
    BlackPawn,
    BlackKnight,
    BlackBishop,
    BlackRook,
    BlackQueen,
    BlackKing,
}

impl Piece {
    /// The letter that stands for the piece: that of its kind, in upper
    /// case for White and in lower case for Black.
    pub open spec fn glyph(self) -> char {
        match self {
            Piece::WhitePawn => 'P',
            Piece::WhiteKnight => 'N',
            Piece::WhiteBishop => 'B',
            Piece::WhiteRook => 'R',
            Piece::WhiteQueen => 'Q',
            Piece::WhiteKing => 'K',
            Piece::BlackPawn => 'p',
            Piece::BlackKnight => 'n',
            Piece::BlackBishop => 'b',
            Piece::BlackRook => 'r',
            Piece::BlackQueen => 'q',
            Piece::BlackKing => 'k',
        }
    }

    /// The piece's letter as a string.
    pub fn symbol(&self) -> (s: &'static str)
        ensures
            s@ == seq![self.glyph()],
    {
        proof {
            reveal_strlit("P");
            reveal_strlit("N");
            reveal_strlit("B");
            reveal_strlit("R");
            reveal_strlit("Q");
            reveal_strlit("K");
            reveal_strlit("p");
            reveal_strlit("n");
            reveal_strlit("b");
            reveal_strlit("r");
            reveal_strlit("q");
            reveal_strlit("k");
        }
        let s = match self {
            Piece::WhitePawn => "P",
            Piece::WhiteKnight => "N",
            Piece::WhiteBishop => "B",
            Piece::WhiteRook => "R",
            Piece::WhiteQueen => "Q",
            Piece::WhiteKing => "K",
            Piece::BlackPawn => "p",
            Piece::BlackKnight => "n",
            Piece::BlackBishop => "b",
            Piece::BlackRook => "r",
            Piece::BlackQueen => "q",
            Piece::BlackKing => "k",
        };
        assert(s@ =~= seq![self.glyph()]);
        s
    }

    /// The piece's letter as an ASCII code.
    pub fn to_ascii(&self) -> (code: u8)
        ensures
            code == self.glyph() as u8,
    {
        match self {
            Piece::WhitePawn => 80,
            Piece::WhiteKnight => 78,
            Piece::WhiteBishop => 66,
            Piece::WhiteRook => 82,
            Piece::WhiteQueen => 81,
            Piece::WhiteKing => 75,
            Piece::BlackPawn => 112,
            Piece::BlackKnight => 110,
            Piece::BlackBishop => 98,
            Piece::BlackRook => 114,
            Piece::BlackQueen => 113,
            Piece::BlackKing => 107,
        }
    }
}

} // verus!
