use crate::bitboard::Bitboard;
use crate::piece::Piece;
use vstd::prelude::*;
use vstd::string::StringExecFns;

verus! {

/// The side that is to move.
#[derive(Clone, Copy, Debug, PartialEq, Eq, Structural)]
pub enum SideToMove {
    White,
    Black,
}

/// The rights to castle that are left, one flag for each.
#[derive(Clone, Copy, Debug, PartialEq, Eq, Structural)]
pub struct CastlingRights(pub u8);

impl CastlingRights {
    pub const WHITE_KINGSIDE: u8 = 0b0000_0001;

    pub const WHITE_QUEENSIDE: u8 = 0b0000_0010;

    pub const BLACK_KINGSIDE: u8 = 0b0000_0100;

    pub const BLACK_QUEENSIDE: u8 = 0b0000_1000;

    pub const WHITE_BOTH: u8 = 0b0000_0011;

    pub const BLACK_BOTH: u8 = 0b0000_1100;

    /// Whether all of `rights` are left.
    pub open spec fn spec_contains(&self, rights: u8) -> bool {
        self.0 & rights == rights
    }

    /// Whether all of `rights` are left.
    #[verifier::when_used_as_spec(spec_contains)]
    pub fn contains(&self, rights: u8) -> (r: bool)
        ensures
            r == self.spec_contains(rights),
    {
        self.0 & rights == rights
    }
}

/// What a position is, apart from how it is stored.
pub struct PositionView {
    /// The piece on each of the 64 squares, by the square's index.
    pub board: Seq<Option<Piece>>,
    /// The square on which a pawn can be taken en passant, if there is one.
    pub en_passant_square: Bitboard,
    pub side_to_move: SideToMove,
    pub castling_rights: CastlingRights,
    /// The halfmove clock.
    pub plies_since_pawn_move_or_capture: u8,
    /// The number of the move that is to be played.
    pub move_count: u16,
}

/// The piece that stands on `file` of a side's first rank when the game
/// begins.
pub open spec fn officer(white: bool, file: int) -> Piece {
    if file == 0 || file == 7 {
        if white {
            Piece::WhiteRook
        } else {
            Piece::BlackRook
        }
    } else if file == 1 || file == 6 {
        if white {
            Piece::WhiteKnight
        } else {
            Piece::BlackKnight
        }
    } else if file == 2 || file == 5 {
        if white {
            Piece::WhiteBishop
        } else {
            Piece::BlackBishop
        }
    } else if file == 3 {
        if white {
            Piece::WhiteQueen
        } else {
            Piece::BlackQueen
        }
    } else {
        if white {
            Piece::WhiteKing
        } else {
            Piece::BlackKing
        }
    }
}

/// What stands on `square` when the game begins.
pub open spec fn initial_occupant(square: int) -> Option<Piece> {
    let rank = square / 8;
    let file = square % 8;
    if rank == 0 {
        Some(officer(true, file))
    } else if rank == 1 {
        Some(Piece::WhitePawn)
    } else if rank == 6 {
        Some(Piece::BlackPawn)
    } else if rank == 7 {
        Some(officer(false, file))
    } else {
        None
    }
}

/// The position in which a game of chess begins: White is to move, both
/// sides may castle to both sides, no pawn can be taken en passant, the
/// halfmove clock is 0 and the first move is to be played.
pub open spec fn initial_view() -> PositionView {
    PositionView {
        board: Seq::new(64, |square: int| initial_occupant(square)),
        en_passant_square: Bitboard(0),
        side_to_move: SideToMove::White,
        castling_rights: CastlingRights(0b0000_1111),
        plies_since_pawn_move_or_capture: 0,
        move_count: 1,
    }
}

/// The character that shows a square: the letter of the piece on it, or
/// `-`.
pub open spec fn square_glyph(occupant: Option<Piece>) -> char {
    match occupant {
        Some(piece) => piece.glyph(),
        None => '-',
    }
}

/// A board as text: eight lines, the eighth rank first, each of the eight
/// squares of a rank from the a-file on, with a blank between two squares
/// and a line break after each rank.
pub open spec fn board_text(board: Seq<Option<Piece>>) -> Seq<char> {
    Seq::new(
        128,
        |i: int|
            {
                let rank = 7 - i / 16;
                let column = i % 16;
                if column == 15 {
                    '\n'
                } else if column % 2 == 1 {
                    ' '
                } else {
                    square_glyph(board[rank * 8 + column / 2])
                }
            },
    )
}

/// A chess position: where the pieces stand, one set of squares for each
/// kind of piece and one for each colour, and what else decides how the game
/// may go on.
pub struct Position {
    pawns: Bitboard,
    knights: Bitboard,
    bishops: Bitboard,
    rooks: Bitboard,
    queens: Bitboard,
    kings: Bitboard,
    white_pieces: Bitboard,
    black_pieces: Bitboard,
    en_passant_square: Bitboard,
    side_to_move: SideToMove,
    castling_rights: CastlingRights,
    plies_since_pawn_move_or_capture: u8,
    move_count: u16,
}

impl View for Position {
    type V = PositionView;

    closed spec fn view(&self) -> PositionView {
        PositionView {
            board: Seq::new(64, |square: int| self.occupant(square as usize)),
            en_passant_square: self.en_passant_square,
            side_to_move: self.side_to_move,
            castling_rights: self.castling_rights,
            plies_since_pawn_move_or_capture: self.plies_since_pawn_move_or_capture,
            move_count: self.move_count,
        }
    }
}

impl Position {
    /// The number of kinds of piece that have `square` in their set.
    spec fn kinds_at(self, square: usize) -> nat {
        let pawn: nat = if self.pawns.spec_contains(square) {
            1
        } else {
            0
        };
        let knight: nat = if self.knights.spec_contains(square) {
            1
        } else {
            0
        };
        let bishop: nat = if self.bishops.spec_contains(square) {
            1
        } else {
            0
        };
        let rook: nat = if self.rooks.spec_contains(square) {
            1
        } else {
            0
        };
        let queen: nat = if self.queens.spec_contains(square) {
            1
        } else {
            0
        };
        let king: nat = if self.kings.spec_contains(square) {
            1
        } else {
            0
        };
        pawn + knight + bishop + rook + queen + king
    }

    /// A square belongs to at most one colour; a square of a colour belongs
    /// to exactly one kind of piece, and any other square to none; at most
    /// one square is an en-passant target.
    #[verifier::type_invariant]
    spec fn consistent(self) -> bool {
        &&& forall|square: usize|
            square < 64 ==> !(self.white_pieces.spec_contains(square)
                && self.black_pieces.spec_contains(square))
        &&& forall|square: usize|
            square < 64 ==> #[trigger] self.kinds_at(square) == (if self.white_pieces.spec_contains(
                square,
            ) || self.black_pieces.spec_contains(square) {
                1nat
            } else {
                0nat
            })
        &&& forall|one: usize, other: usize|
            self.en_passant_square.spec_contains(one) && self.en_passant_square.spec_contains(
                other,
            ) ==> one == other
    }

    /// What stands on `square`: the colour is looked up first, then the
    /// kind, the king last.
    spec fn occupant(self, square: usize) -> Option<Piece> {
        if self.white_pieces.spec_contains(square) {
            Some(
                if self.pawns.spec_contains(square) {
                    Piece::WhitePawn
                } else if self.knights.spec_contains(square) {
                    Piece::WhiteKnight
                } else if self.bishops.spec_contains(square) {
                    Piece::WhiteBishop
                } else if self.rooks.spec_contains(square) {
                    Piece::WhiteRook
                } else if self.queens.spec_contains(square) {
                    Piece::WhiteQueen
                } else {
                    Piece::WhiteKing
                },
            )
        } else if self.black_pieces.spec_contains(square) {
            Some(
                if self.pawns.spec_contains(square) {
                    Piece::BlackPawn
                } else if self.knights.spec_contains(square) {
                    Piece::BlackKnight
                } else if self.bishops.spec_contains(square) {
                    Piece::BlackBishop
                } else if self.rooks.spec_contains(square) {
                    Piece::BlackRook
                } else if self.queens.spec_contains(square) {
                    Piece::BlackQueen
                } else {
                    Piece::BlackKing
                },
            )
        } else {
            None
        }
    }

    /// The position in which a game of chess begins.
    pub fn initial() -> (position: Position)
        ensures
            position@ == initial_view(),
    {
        let pawns = Bitboard::RANK_2 | Bitboard::RANK_7;
        let knights = Bitboard::B1 | Bitboard::G1 | Bitboard::B8 | Bitboard::G8;
        let bishops = Bitboard::C1 | Bitboard::F1 | Bitboard::C8 | Bitboard::F8;
        let rooks = Bitboard::A1 | Bitboard::H1 | Bitboard::A8 | Bitboard::H8;
        let queens = Bitboard::D1 | Bitboard::D8;
        let kings = Bitboard::E1 | Bitboard::E8;
        let white_pieces = Bitboard::RANK_1 | Bitboard::RANK_2;
        let black_pieces = Bitboard::RANK_7 | Bitboard::RANK_8;
        let castling_rights = CastlingRights::WHITE_BOTH | CastlingRights::BLACK_BOTH;
        assert(forall|s: u64|
            s < 64 ==> (((0x0000_0000_0000_FF00u64 | 0x00FF_0000_0000_0000u64) & (1u64 << s) != 0)
                <==> (8 <= s < 16 || 48 <= s < 56))) by (bit_vector);
        assert(forall|s: u64|
            s < 64 ==> (((0x2u64 | 0x40u64 | 0x0200_0000_0000_0000u64 | 0x4000_0000_0000_0000u64)
                & (1u64 << s) != 0) <==> (s == 1 || s == 6 || s == 57 || s == 62)))
            by (bit_vector);
        assert(forall|s: u64|
            s < 64 ==> (((0x4u64 | 0x20u64 | 0x0400_0000_0000_0000u64 | 0x2000_0000_0000_0000u64)
                & (1u64 << s) != 0) <==> (s == 2 || s == 5 || s == 58 || s == 61)))
            by (bit_vector);
        assert(forall|s: u64|
            s < 64 ==> (((0x1u64 | 0x80u64 | 0x0100_0000_0000_0000u64 | 0x8000_0000_0000_0000u64)
                & (1u64 << s) != 0) <==> (s == 0 || s == 7 || s == 56 || s == 63)))
            by (bit_vector);
        assert(forall|s: u64|
            s < 64 ==> (((0x8u64 | 0x0800_0000_0000_0000u64) & (1u64 << s) != 0) <==> (s == 3 || s
                == 59))) by (bit_vector);
        assert(forall|s: u64|
            s < 64 ==> (((0x10u64 | 0x1000_0000_0000_0000u64) & (1u64 << s) != 0) <==> (s == 4
                || s == 60))) by (bit_vector);
        assert(forall|s: u64|
            s < 64 ==> (((0xFFu64 | 0xFF00u64) & (1u64 << s) != 0) <==> s < 16)) by (bit_vector);
        assert(forall|s: u64|
            s < 64 ==> (((0x00FF_0000_0000_0000u64 | 0xFF00_0000_0000_0000u64) & (1u64 << s) != 0)
                <==> 48 <= s)) by (bit_vector);
        assert(forall|s: u64| s < 64 ==> 0u64 & (1u64 << s) == 0) by (bit_vector);
        assert(0b0000_0011u8 | 0b0000_1100u8 == 0b0000_1111u8) by (bit_vector);
        let ghost placed = Position {
            pawns: Bitboard(pawns),
            knights: Bitboard(knights),
            bishops: Bitboard(bishops),
            rooks: Bitboard(rooks),
            queens: Bitboard(queens),
            kings: Bitboard(kings),
            white_pieces: Bitboard(white_pieces),
            black_pieces: Bitboard(black_pieces),
            en_passant_square: Bitboard(Bitboard::EMPTY),
            side_to_move: SideToMove::White,
            castling_rights: CastlingRights(castling_rights),
            plies_since_pawn_move_or_capture: 0,
            move_count: 1,
        };
        assert forall|square: usize| square < 64 implies placed.occupant(square)
            == initial_occupant(square as int) && #[trigger] placed.kinds_at(square) == (
        if placed.white_pieces.spec_contains(square) || placed.black_pieces.spec_contains(square) {
            1nat
        } else {
            0nat
        }) && !(placed.white_pieces.spec_contains(square) && placed.black_pieces.spec_contains(
            square,
        )) by {
            let s = square as u64;
            assert(s < 64);
        }
        assert(placed@.board =~= initial_view().board);
        Position {
            pawns: Bitboard(pawns),
            knights: Bitboard(knights),
            bishops: Bitboard(bishops),
            rooks: Bitboard(rooks),
            queens: Bitboard(queens),
            kings: Bitboard(kings),
            white_pieces: Bitboard(white_pieces),
            black_pieces: Bitboard(black_pieces),
            en_passant_square: Bitboard(Bitboard::EMPTY),
            side_to_move: SideToMove::White,
            castling_rights: CastlingRights(castling_rights),
            plies_since_pawn_move_or_capture: 0,
            move_count: 1,
        }
    }

    /// The piece on the square with the index `square_index`, if there is
    /// one.
    pub fn piece_at(&self, square_index: usize) -> (piece: Option<Piece>)
        requires
            square_index < 64,
        ensures
            piece == self@.board[square_index as int],
    {
        proof {
            use_type_invariant(self);
            assert(self.kinds_at(square_index) == (if self.white_pieces.spec_contains(
                square_index,
            ) || self.black_pieces.spec_contains(square_index) {
                1nat
            } else {
                0nat
            }));
        }
        if self.white_pieces.contains(square_index) {
            if self.pawns.contains(square_index) {
                Some(Piece::WhitePawn)
            } else if self.knights.contains(square_index) {
                Some(Piece::WhiteKnight)
            } else if self.bishops.contains(square_index) {
                Some(Piece::WhiteBishop)
            } else if self.rooks.contains(square_index) {
                Some(Piece::WhiteRook)
            } else if self.queens.contains(square_index) {
                Some(Piece::WhiteQueen)
            } else {
                assert(self.kings.spec_contains(square_index));
                Some(Piece::WhiteKing)
            }
        } else if self.black_pieces.contains(square_index) {
            if self.pawns.contains(square_index) {
                Some(Piece::BlackPawn)
            } else if self.knights.contains(square_index) {
                Some(Piece::BlackKnight)
            } else if self.bishops.contains(square_index) {
                Some(Piece::BlackBishop)
            } else if self.rooks.contains(square_index) {
                Some(Piece::BlackRook)
            } else if self.queens.contains(square_index) {
                Some(Piece::BlackQueen)
            } else {
                assert(self.kings.spec_contains(square_index));
                Some(Piece::BlackKing)
            }
        } else {
            None
        }
    }

    /// The square on which a pawn can be taken en passant, as a set: it is
    /// empty if there is none.
    pub fn en_passant_square(&self) -> (r: Bitboard)
        ensures
            r == self@.en_passant_square,
    {
        self.en_passant_square
    }

    /// The side that is to move.
    pub fn side_to_move(&self) -> (r: SideToMove)
        ensures
            r == self@.side_to_move,
    {
        self.side_to_move
    }

    /// The rights to castle that are left.
    pub fn castling_rights(&self) -> (r: CastlingRights)
        ensures
            r == self@.castling_rights,
    {
        self.castling_rights
    }

    /// The number of plies since a pawn was moved or a piece was taken.
    pub fn plies_since_pawn_move_or_capture(&self) -> (r: u8)
        ensures
            r == self@.plies_since_pawn_move_or_capture,
    {
        self.plies_since_pawn_move_or_capture
    }

    /// The number of the move that is to be played.
    pub fn move_count(&self) -> (r: u16)
        ensures
            r == self@.move_count,
    {
        self.move_count
    }

    /// The board as text, the eighth rank first.
    pub fn to_string(&self) -> (text: String)
        ensures
            text@ == board_text(self@.board),
    {
        let ghost full = board_text(self@.board);
        let mut text = String::new();
        let mut line: usize = 0;
        proof {
            reveal_strlit("-");
            reveal_strlit(" ");
            reveal_strlit("\n");
        }
        while line < Bitboard::NUM_RANKS
            invariant
                line <= 8,
                full == board_text(self@.board),
                text@ =~= full.take(16 * line),
                "-"@ =~= seq!['-'],
                " "@ =~= seq![' '],
                "\n"@ =~= seq!['\n'],
            decreases 8 - line,
        {
            let rank = Bitboard::NUM_RANKS - 1 - line;
            let mut file: usize = 0;
            while file < Bitboard::NUM_FILES
                invariant
                    line < 8,
                    rank == 7 - line,
                    file <= 8,
                    full == board_text(self@.board),
                    text@ =~= full.take(16 * line + 2 * file),
                    "-"@ =~= seq!['-'],
                    " "@ =~= seq![' '],
                    "\n"@ =~= seq!['\n'],
                decreases 8 - file,
            {
                let square = Bitboard::to_square(rank, file);
                let ghost at = 16 * line + 2 * file;
                let occupant = self.piece_at(square);
                assert(full[at] == square_glyph(occupant));
                match occupant {
                    None => text.append("-"),
                    Some(piece) => text.append(piece.symbol()),
                }
                assert(text@ =~= full.take(at + 1));
                if file + 1 < Bitboard::NUM_FILES {
                    assert(full[at + 1] == ' ');
                    text.append(" ");
                } else {
                    assert(full[at + 1] == '\n');
                    text.append("\n");
                }
                assert(text@ =~= full.take(at + 2));
                file += 1;
            }
            line += 1;
        }
        assert(text@ =~= full);
        text
    }
}

} // verus!
