use vstd::prelude::*;

verus! {

/// The value of a position: a bounded signed integer, higher is better for
/// the side it is relative to.
pub type Score = i16;

/// The lowest score. It is a sentinel: it cannot be negated within `Score`.
pub const SCORE_MIN: Score = -32768;

/// The highest score, the negation of `SCORE_MIN + 1`.
pub const SCORE_MAX: Score = 32767;

/// The score seen from the other side.
pub fn opposite(score: Score) -> (r: Score)
    requires
        score > SCORE_MIN,
    ensures
        r == -score,
{
    -score
}

} // verus!
