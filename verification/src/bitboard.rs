use vstd::prelude::*;
use vstd::std_specs::bits::{axiom_u64_trailing_zeros, u64_trailing_zeros};

verus! {

/// A set of squares of the board, one bit for each: bit `i` is set if and
/// only if square `i` is in the set. The squares are numbered rank by rank
/// from White's side, and within a rank from the a-file: a1 is 0, b1 is 1,
/// h1 is 7, a2 is 8, and h8 is 63.
#[derive(Clone, Copy, Debug, PartialEq, Eq, Structural)]
pub struct Bitboard(pub u64);

impl Bitboard {
    pub const NUM_RANKS: usize = 8;

    pub const NUM_FILES: usize = 8;

    pub const NUM_SQUARES: usize = 64;

    /// The set without squares.
    pub const EMPTY: u64 = 0;

    pub const RANK_1: u64 = 0x00000000000000FF;

    pub const RANK_2: u64 = 0x000000000000FF00;

    pub const RANK_3: u64 = 0x0000000000FF0000;

    pub const RANK_4: u64 = 0x00000000FF000000;

    pub const RANK_5: u64 = 0x000000FF00000000;

    pub const RANK_6: u64 = 0x0000FF0000000000;

    pub const RANK_7: u64 = 0x00FF000000000000;

    pub const RANK_8: u64 = 0xFF00000000000000;

    pub const FILE_A: u64 = 0x0101010101010101;

    pub const FILE_B: u64 = 0x0202020202020202;

    pub const FILE_C: u64 = 0x0404040404040404;

    pub const FILE_D: u64 = 0x0808080808080808;

    pub const FILE_E: u64 = 0x1010101010101010;

    pub const FILE_F: u64 = 0x2020202020202020;

    pub const FILE_G: u64 = 0x4040404040404040;

    pub const FILE_H: u64 = 0x8080808080808080;

    pub const IDX_A1: usize = 0;

    pub const IDX_B1: usize = 1;

    pub const IDX_C1: usize = 2;

    pub const IDX_D1: usize = 3;

    pub const IDX_E1: usize = 4;

    pub const IDX_F1: usize = 5;

    pub const IDX_G1: usize = 6;

    pub const IDX_H1: usize = 7;

    pub const IDX_A2: usize = 8;

    pub const IDX_B2: usize = 9;

    pub const IDX_C2: usize = 10;

    pub const IDX_D2: usize = 11;

    pub const IDX_E2: usize = 12;

    pub const IDX_F2: usize = 13;

    pub const IDX_G2: usize = 14;

    pub const IDX_H2: usize = 15;

    pub const IDX_A3: usize = 16;

    pub const IDX_B3: usize = 17;

    pub const IDX_C3: usize = 18;

    pub const IDX_D3: usize = 19;

    pub const IDX_E3: usize = 20;

    pub const IDX_F3: usize = 21;

    pub const IDX_G3: usize = 22;

    pub const IDX_H3: usize = 23;

    pub const IDX_A4: usize = 24;

    pub const IDX_B4: usize = 25;

    pub const IDX_C4: usize = 26;

    pub const IDX_D4: usize = 27;

    pub const IDX_E4: usize = 28;

    pub const IDX_F4: usize = 29;

    pub const IDX_G4: usize = 30;

    pub const IDX_H4: usize = 31;

    pub const IDX_A5: usize = 32;

    pub const IDX_B5: usize = 33;

    pub const IDX_C5: usize = 34;

    pub const IDX_D5: usize = 35;

    pub const IDX_E5: usize = 36;

    pub const IDX_F5: usize = 37;

    pub const IDX_G5: usize = 38;

    pub const IDX_H5: usize = 39;

    pub const IDX_A6: usize = 40;

    pub const IDX_B6: usize = 41;

    pub const IDX_C6: usize = 42;

    pub const IDX_D6: usize = 43;

    pub const IDX_E6: usize = 44;

    pub const IDX_F6: usize = 45;

    pub const IDX_G6: usize = 46;

    pub const IDX_H6: usize = 47;

    pub const IDX_A7: usize = 48;

    pub const IDX_B7: usize = 49;

    pub const IDX_C7: usize = 50;

    pub const IDX_D7: usize = 51;

    pub const IDX_E7: usize = 52;

    pub const IDX_F7: usize = 53;

    pub const IDX_G7: usize = 54;

    pub const IDX_H7: usize = 55;

    pub const IDX_A8: usize = 56;

    pub const IDX_B8: usize = 57;

    pub const IDX_C8: usize = 58;

    pub const IDX_D8: usize = 59;

    pub const IDX_E8: usize = 60;

    pub const IDX_F8: usize = 61;

    pub const IDX_G8: usize = 62;

    pub const IDX_H8: usize = 63;

    pub const A1: u64 = 0x0000000000000001;

    pub const B1: u64 = 0x0000000000000002;

    pub const C1: u64 = 0x0000000000000004;

    pub const D1: u64 = 0x0000000000000008;

    pub const E1: u64 = 0x0000000000000010;

    pub const F1: u64 = 0x0000000000000020;

    pub const G1: u64 = 0x0000000000000040;

    pub const H1: u64 = 0x0000000000000080;

    pub const A2: u64 = 0x0000000000000100;

    pub const B2: u64 = 0x0000000000000200;

    pub const C2: u64 = 0x0000000000000400;

    pub const D2: u64 = 0x0000000000000800;

    pub const E2: u64 = 0x0000000000001000;

    pub const F2: u64 = 0x0000000000002000;

    pub const G2: u64 = 0x0000000000004000;

    pub const H2: u64 = 0x0000000000008000;

    pub const A3: u64 = 0x0000000000010000;

    pub const B3: u64 = 0x0000000000020000;

    pub const C3: u64 = 0x0000000000040000;

    pub const D3: u64 = 0x0000000000080000;

    pub const E3: u64 = 0x0000000000100000;

    pub const F3: u64 = 0x0000000000200000;

    pub const G3: u64 = 0x0000000000400000;

    pub const H3: u64 = 0x0000000000800000;

    pub const A4: u64 = 0x0000000001000000;

    pub const B4: u64 = 0x0000000002000000;

    pub const C4: u64 = 0x0000000004000000;

    pub const D4: u64 = 0x0000000008000000;

    pub const E4: u64 = 0x0000000010000000;

    pub const F4: u64 = 0x0000000020000000;

    pub const G4: u64 = 0x0000000040000000;

    pub const H4: u64 = 0x0000000080000000;

    pub const A5: u64 = 0x0000000100000000;

    pub const B5: u64 = 0x0000000200000000;

    pub const C5: u64 = 0x0000000400000000;

    pub const D5: u64 = 0x0000000800000000;

    pub const E5: u64 = 0x0000001000000000;

    pub const F5: u64 = 0x0000002000000000;

    pub const G5: u64 = 0x0000004000000000;

    pub const H5: u64 = 0x0000008000000000;

    pub const A6: u64 = 0x0000010000000000;

    pub const B6: u64 = 0x0000020000000000;

    pub const C6: u64 = 0x0000040000000000;

    pub const D6: u64 = 0x0000080000000000;

    pub const E6: u64 = 0x0000100000000000;

    pub const F6: u64 = 0x0000200000000000;

    pub const G6: u64 = 0x0000400000000000;

    pub const H6: u64 = 0x0000800000000000;

    pub const A7: u64 = 0x0001000000000000;

    pub const B7: u64 = 0x0002000000000000;

    pub const C7: u64 = 0x0004000000000000;

    pub const D7: u64 = 0x0008000000000000;

    pub const E7: u64 = 0x0010000000000000;

    pub const F7: u64 = 0x0020000000000000;

    pub const G7: u64 = 0x0040000000000000;

    pub const H7: u64 = 0x0080000000000000;

    pub const A8: u64 = 0x0100000000000000;

    pub const B8: u64 = 0x0200000000000000;

    pub const C8: u64 = 0x0400000000000000;

    pub const D8: u64 = 0x0800000000000000;

    pub const E8: u64 = 0x1000000000000000;

    pub const F8: u64 = 0x2000000000000000;

    pub const G8: u64 = 0x4000000000000000;

    pub const H8: u64 = 0x8000000000000000;

    /// Whether `square` is in the set.
    pub open spec fn spec_contains(&self, square: usize) -> bool {
        square < 64 && self.0 & (1u64 << (square as u64)) != 0
    }

    /// Whether the set has no square.
    pub open spec fn spec_is_empty(&self) -> bool {
        self.0 == 0
    }

    /// The index of the square on `rank` and `file`, both counted from 0.
    pub open spec fn spec_to_square(rank: usize, file: usize) -> usize {
        (rank * 8 + file) as usize
    }

    /// The set that holds `square` and nothing else.
    pub fn from_square(square: usize) -> (r: Bitboard)
        requires
            square < 64,
        ensures
            r.0 == 1u64 << (square as u64),
            forall|other: usize| r.spec_contains(other) <==> other == square,
    {
        let shift = square as u64;
        assert(forall|other: u64|
            other < 64 ==> (((1u64 << shift) & (1u64 << other) != 0) <==> other == shift))
            by (bit_vector)
            requires
                shift < 64,
        ;
        assert forall|other: usize| Bitboard(1u64 << shift).spec_contains(other) <==> other
            == square by {
            if other < 64 {
                assert(((1u64 << shift) & (1u64 << (other as u64)) != 0) <==> other as u64
                    == shift);
            }
        }
        Bitboard(1u64 << shift)
    }

    /// The index of the square on `rank` and `file`, both counted from 0.
    #[verifier::when_used_as_spec(spec_to_square)]
    pub fn to_square(rank: usize, file: usize) -> (square: usize)
        requires
            rank < 8,
            file < 8,
        ensures
            square == Self::spec_to_square(rank, file),
            square < 64,
    {
        rank * 8 + file
    }

    /// The rank of `square`, counted from 0.
    pub fn to_rank(square: usize) -> (rank: usize)
        requires
            square < 64,
        ensures
            rank == square / 8,
            rank < 8,
    {
        square / 8
    }

    /// The file of `square`, counted from 0.
    pub fn to_file(square: usize) -> (file: usize)
        requires
            square < 64,
        ensures
            file == square % 8,
            file < 8,
    {
        square % 8
    }

    /// Whether `square` is in the set.
    #[verifier::when_used_as_spec(spec_contains)]
    pub fn contains(&self, square: usize) -> (r: bool)
        requires
            square < 64,
        ensures
            r == self.spec_contains(square),
    {
        self.0 & (1u64 << (square as u64)) != 0
    }

    /// Whether the set has no square.
    #[verifier::when_used_as_spec(spec_is_empty)]
    pub fn is_empty(&self) -> (r: bool)
        ensures
            r == self.spec_is_empty(),
            r <==> forall|square: usize| !self.spec_contains(square),
    {
        let bits = self.0;
        assert(forall|square: u64| square < 64 ==> 0u64 & (1u64 << square) == 0) by (bit_vector);
        assert(bits == 0 <==> forall|square: usize| !self.spec_contains(square)) by {
            if bits != 0 {
                axiom_u64_trailing_zeros(bits);
                let lowest = u64_trailing_zeros(bits) as u64;
                assert(bits & (1u64 << lowest) != 0) by (bit_vector)
                    requires
                        lowest < 64,
                        (bits >> lowest) & 1u64 == 1u64,
                ;
                assert(self.spec_contains(lowest as usize));
            }
        }
        bits == 0
    }

    /// The squares that are in either set.
    pub fn union(self, other: Bitboard) -> (r: Bitboard)
        ensures
            r.0 == self.0 | other.0,
            forall|square: usize|
                r.spec_contains(square) <==> self.spec_contains(square) || other.spec_contains(
                    square,
                ),
    {
        let a = self.0;
        let b = other.0;
        assert(forall|square: u64|
            square < 64 ==> (((a | b) & (1u64 << square) != 0) <==> (a & (1u64 << square) != 0
                || b & (1u64 << square) != 0))) by (bit_vector);
        Bitboard(a | b)
    }

    /// The squares that are in both sets.
    pub fn intersection(self, other: Bitboard) -> (r: Bitboard)
        ensures
            r.0 == self.0 & other.0,
            forall|square: usize|
                r.spec_contains(square) <==> self.spec_contains(square) && other.spec_contains(
                    square,
                ),
    {
        let a = self.0;
        let b = other.0;
        assert(forall|square: u64|
            square < 64 ==> (((a & b) & (1u64 << square) != 0) <==> (a & (1u64 << square) != 0
                && b & (1u64 << square) != 0))) by (bit_vector);
        Bitboard(a & b)
    }

    /// The squares that are in exactly one of the two sets.
    pub fn symmetric_difference(self, other: Bitboard) -> (r: Bitboard)
        ensures
            r.0 == self.0 ^ other.0,
            forall|square: usize|
                r.spec_contains(square) <==> (self.spec_contains(square)
                    != other.spec_contains(square)),
    {
        let a = self.0;
        let b = other.0;
        assert(forall|square: u64|
            square < 64 ==> (((a ^ b) & (1u64 << square) != 0) <==> ((a & (1u64 << square) != 0)
                != (b & (1u64 << square) != 0)))) by (bit_vector);
        Bitboard(a ^ b)
    }

    /// The squares of this set that are not in `other`.
    pub fn difference(self, other: Bitboard) -> (r: Bitboard)
        ensures
            r.0 == self.0 & !other.0,
            forall|square: usize|
                r.spec_contains(square) <==> self.spec_contains(square) && !other.spec_contains(
                    square,
                ),
    {
        let a = self.0;
        let b = other.0;
        assert(forall|square: u64|
            square < 64 ==> (((a & !b) & (1u64 << square) != 0) <==> (a & (1u64 << square) != 0
                && b & (1u64 << square) == 0))) by (bit_vector);
        Bitboard(a & !b)
    }
}

} // verus!
