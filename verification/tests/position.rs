use chess_search::bitboard::Bitboard;
use chess_search::piece::Piece;
use chess_search::position::{CastlingRights, Position, SideToMove};

#[test]
fn initial_position() {
    let pos = Position::initial();
    assert_eq!(Bitboard(Bitboard::EMPTY), pos.en_passant_square());
    assert_eq!(SideToMove::White, pos.side_to_move());
    assert_eq!(
        CastlingRights(CastlingRights::WHITE_BOTH | CastlingRights::BLACK_BOTH),
        pos.castling_rights()
    );
    assert_eq!(0, pos.plies_since_pawn_move_or_capture());
    assert_eq!(1, pos.move_count());

    assert_eq!(Some(Piece::WhiteRook), pos.piece_at(Bitboard::IDX_A1));
    assert_eq!(Some(Piece::WhiteKnight), pos.piece_at(Bitboard::IDX_B1));
    assert_eq!(Some(Piece::WhiteBishop), pos.piece_at(Bitboard::IDX_C1));
    assert_eq!(Some(Piece::WhiteQueen), pos.piece_at(Bitboard::IDX_D1));
    assert_eq!(Some(Piece::WhiteKing), pos.piece_at(Bitboard::IDX_E1));
    assert_eq!(Some(Piece::WhitePawn), pos.piece_at(Bitboard::IDX_A2));

    assert_eq!(None, pos.piece_at(Bitboard::IDX_A3));
    assert_eq!(None, pos.piece_at(Bitboard::IDX_H6));

    assert_eq!(Some(Piece::BlackRook), pos.piece_at(Bitboard::IDX_A8));
    assert_eq!(Some(Piece::BlackKnight), pos.piece_at(Bitboard::IDX_B8));
    assert_eq!(Some(Piece::BlackBishop), pos.piece_at(Bitboard::IDX_C8));
    assert_eq!(Some(Piece::BlackQueen), pos.piece_at(Bitboard::IDX_D8));
    assert_eq!(Some(Piece::BlackKing), pos.piece_at(Bitboard::IDX_E8));
    assert_eq!(Some(Piece::BlackPawn), pos.piece_at(Bitboard::IDX_A7));
}

#[test]
fn fmt() {
    let expected_str = "\
        r n b q k b n r\n\
        p p p p p p p p\n\
        - - - - - - - -\n\
        - - - - - - - -\n\
        - - - - - - - -\n\
        - - - - - - - -\n\
        P P P P P P P P\n\
        R N B Q K B N R\n\
    ";
    assert_eq!(expected_str, Position::initial().to_string());
}

#[test]
fn initial_position_every_square() {
    let pos = Position::initial();
    let white = [
        Piece::WhiteRook,
        Piece::WhiteKnight,
        Piece::WhiteBishop,
        Piece::WhiteQueen,
        Piece::WhiteKing,
        Piece::WhiteBishop,
        Piece::WhiteKnight,
        Piece::WhiteRook,
    ];
    let black = [
        Piece::BlackRook,
        Piece::BlackKnight,
        Piece::BlackBishop,
        Piece::BlackQueen,
        Piece::BlackKing,
        Piece::BlackBishop,
        Piece::BlackKnight,
        Piece::BlackRook,
    ];
    for file in 0..8 {
        assert_eq!(Some(white[file]), pos.piece_at(Bitboard::to_square(0, file)));
        assert_eq!(Some(Piece::WhitePawn), pos.piece_at(Bitboard::to_square(1, file)));
        for rank in 2..6 {
            assert_eq!(None, pos.piece_at(Bitboard::to_square(rank, file)));
        }
        assert_eq!(Some(Piece::BlackPawn), pos.piece_at(Bitboard::to_square(6, file)));
        assert_eq!(Some(black[file]), pos.piece_at(Bitboard::to_square(7, file)));
    }
}

#[test]
fn initial_position_text_has_eight_lines_of_fifteen() {
    let text = Position::initial().to_string();
    assert_eq!(128, text.len());
    let lines: Vec<&str> = text.split('\n').collect();
    assert_eq!(9, lines.len());
    assert_eq!("", lines[8]);
    for line in &lines[..8] {
        assert_eq!(15, line.len());
    }
    assert_eq!("R N B Q K B N R", lines[7]);
}

#[test]
fn castling_rights_are_four_flags() {
    let all = Position::initial().castling_rights();
    assert_eq!(CastlingRights(0b1111), all);
    assert!(all.contains(CastlingRights::WHITE_KINGSIDE));
    assert!(all.contains(CastlingRights::WHITE_QUEENSIDE));
    assert!(all.contains(CastlingRights::BLACK_KINGSIDE));
    assert!(all.contains(CastlingRights::BLACK_QUEENSIDE));
    let white_only = CastlingRights(CastlingRights::WHITE_BOTH);
    assert!(white_only.contains(CastlingRights::WHITE_KINGSIDE));
    assert!(!white_only.contains(CastlingRights::BLACK_KINGSIDE));
    assert!(!white_only.contains(CastlingRights::BLACK_BOTH));
    assert!(!CastlingRights(0).contains(CastlingRights::WHITE_QUEENSIDE));
}

#[test]
fn square_indices_run_rank_by_rank() {
    assert_eq!(0, Bitboard::IDX_A1);
    assert_eq!(7, Bitboard::IDX_H1);
    assert_eq!(8, Bitboard::IDX_A2);
    assert_eq!(63, Bitboard::IDX_H8);
    assert_eq!(Bitboard::IDX_E4, Bitboard::to_square(3, 4));
    assert_eq!(3, Bitboard::to_rank(Bitboard::IDX_E4));
    assert_eq!(4, Bitboard::to_file(Bitboard::IDX_E4));
    for square in 0..Bitboard::NUM_SQUARES {
        let rank = Bitboard::to_rank(square);
        let file = Bitboard::to_file(square);
        assert_eq!(square, Bitboard::to_square(rank, file));
    }
}

#[test]
fn square_constants_are_single_bits() {
    assert_eq!(Bitboard(Bitboard::A1), Bitboard::from_square(Bitboard::IDX_A1));
    assert_eq!(Bitboard(Bitboard::H1), Bitboard::from_square(Bitboard::IDX_H1));
    assert_eq!(Bitboard(Bitboard::E4), Bitboard::from_square(Bitboard::IDX_E4));
    assert_eq!(Bitboard(Bitboard::H8), Bitboard::from_square(Bitboard::IDX_H8));
    assert_eq!(0x8000_0000_0000_0000, Bitboard::H8);
    for square in 0..64 {
        let single = Bitboard::from_square(square);
        for other in 0..64 {
            assert_eq!(square == other, single.contains(other));
        }
    }
}

#[test]
fn rank_and_file_constants_hold_their_squares() {
    let ranks = [
        Bitboard::RANK_1,
        Bitboard::RANK_2,
        Bitboard::RANK_3,
        Bitboard::RANK_4,
        Bitboard::RANK_5,
        Bitboard::RANK_6,
        Bitboard::RANK_7,
        Bitboard::RANK_8,
    ];
    let files = [
        Bitboard::FILE_A,
        Bitboard::FILE_B,
        Bitboard::FILE_C,
        Bitboard::FILE_D,
        Bitboard::FILE_E,
        Bitboard::FILE_F,
        Bitboard::FILE_G,
        Bitboard::FILE_H,
    ];
    for square in 0..64 {
        for rank in 0..8 {
            assert_eq!(Bitboard::to_rank(square) == rank, Bitboard(ranks[rank]).contains(square));
        }
        for file in 0..8 {
            assert_eq!(Bitboard::to_file(square) == file, Bitboard(files[file]).contains(square));
        }
    }
}

#[test]
fn set_operations() {
    let a = Bitboard(Bitboard::RANK_1);
    let b = Bitboard(Bitboard::FILE_A);
    assert_eq!(Bitboard(0x0101_0101_0101_01FF), a.union(b));
    assert_eq!(Bitboard(Bitboard::A1), a.intersection(b));
    assert_eq!(Bitboard(0x0101_0101_0101_01FE), a.symmetric_difference(b));
    assert_eq!(Bitboard(0xFE), a.difference(b));
    assert!(Bitboard(Bitboard::EMPTY).is_empty());
    assert!(!a.is_empty());
    assert!(a.intersection(Bitboard(Bitboard::RANK_2)).is_empty());
    assert!(a.difference(a).is_empty());
    assert_eq!(a, a.union(Bitboard(Bitboard::EMPTY)));
}

#[test]
fn piece_letters() {
    assert_eq!(b'P', Piece::WhitePawn.to_ascii());
    assert_eq!(b'N', Piece::WhiteKnight.to_ascii());
    assert_eq!(b'B', Piece::WhiteBishop.to_ascii());
    assert_eq!(b'R', Piece::WhiteRook.to_ascii());
    assert_eq!(b'Q', Piece::WhiteQueen.to_ascii());
    assert_eq!(b'K', Piece::WhiteKing.to_ascii());
    assert_eq!(b'p', Piece::BlackPawn.to_ascii());
    assert_eq!(b'n', Piece::BlackKnight.to_ascii());
    assert_eq!(b'b', Piece::BlackBishop.to_ascii());
    assert_eq!(b'r', Piece::BlackRook.to_ascii());
    assert_eq!(b'q', Piece::BlackQueen.to_ascii());
    assert_eq!(b'k', Piece::BlackKing.to_ascii());
    assert_eq!("Q", Piece::WhiteQueen.symbol());
    assert_eq!("k", Piece::BlackKing.symbol());
}
