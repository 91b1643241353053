//! Scores, held as the bit patterns of IEEE 754 double-precision numbers.
//!
//! A bit pattern below the sign bit orders like the number that it encodes, so scores are compared
//! here without any floating-point arithmetic. What has to be added up is kept as a list of steps.

use vstd::prelude::*;

verus! {

/// The bit pattern of the smallest score that an observed contact gets, one hundredth.
pub const SCORE_FLOOR: u64 = 0x3f84_7ae1_47ae_147b;

/// The sign bit of a score.
pub const SIGN_BIT: u64 = 0x8000_0000_0000_0000;

/// The bit pattern of positive infinity. A greater magnitude encodes no number.
pub const INFINITY_BITS: u64 = 0x7ff0_0000_0000_0000;

/// The magnitude of a bit pattern, its sign aside.
pub open spec fn magnitude(bits: u64) -> int {
    if bits >= SIGN_BIT {
        bits - SIGN_BIT
    } else {
        bits as int
    }
}

/// The pattern encodes no number.
pub open spec fn not_a_number(bits: u64) -> bool {
    magnitude(bits) > INFINITY_BITS
}

/// An integer that orders like the encoded number. The two zeros have the same one.
pub open spec fn score_rank(bits: u64) -> int {
    if bits >= SIGN_BIT {
        -magnitude(bits)
    } else {
        magnitude(bits)
    }
}

/// One encoded number is less than the other. Nothing is less than what encodes no number, nor
/// greater.
pub open spec fn score_less(a: u64, b: u64) -> bool {
    !not_a_number(a) && !not_a_number(b) && score_rank(a) < score_rank(b)
}

/// The greater of two encoded numbers. What encodes no number is passed over.
pub open spec fn score_max(a: u64, b: u64) -> u64 {
    if not_a_number(a) || score_less(a, b) {
        b
    } else {
        a
    }
}

/// One step of an accumulation: a number to add, or a number that the sum is raised to.
#[derive(Debug, Clone, Copy, PartialEq, Eq, Structural)]
pub enum ScoreStep {
    Add(u64),
    AtLeast(u64),
}

fn magnitude_of(bits: u64) -> (r: u64)
    ensures
        r == magnitude(bits),
{
    if bits >= SIGN_BIT {
        bits - SIGN_BIT
    } else {
        bits
    }
}

/// Whether a pattern encodes no number.
pub fn score_is_missing(bits: u64) -> (r: bool)
    ensures
        r == not_a_number(bits),
{
    magnitude_of(bits) > INFINITY_BITS
}

/// Whether one encoded number is less than the other.
pub fn score_is_less(a: u64, b: u64) -> (r: bool)
    ensures
        r == score_less(a, b),
{
    if score_is_missing(a) || score_is_missing(b) {
        return false;
    }
    if a >= SIGN_BIT {
        if b >= SIGN_BIT {
            a > b
        } else {
            magnitude_of(a) > 0 || magnitude_of(b) > 0
        }
    } else if b >= SIGN_BIT {
        false
    } else {
        a < b
    }
}

/// The greater of two encoded numbers.
pub fn greater_score(a: u64, b: u64) -> (r: u64)
    ensures
        r == score_max(a, b),
{
    if score_is_missing(a) || score_is_less(a, b) {
        b
    } else {
        a
    }
}

/// Scores that encode numbers are ordered: no score is less than itself, and of three in a row the
/// first is less than the last.
pub proof fn law_score_order(a: u64, b: u64, c: u64)
    ensures
        !score_less(a, a),
        score_less(a, b) && score_less(b, c) ==> score_less(a, c),
        !not_a_number(a) && !not_a_number(b) && !not_a_number(c) && !score_less(a, b)
            && !score_less(b, c) ==> !score_less(a, c),
{
}

/// Raising a score to the floor leaves a number that is at least the floor, and doing it again
/// changes nothing.
pub proof fn law_floor_reached(bits: u64)
    ensures
        !not_a_number(score_max(bits, SCORE_FLOOR)),
        !score_less(score_max(bits, SCORE_FLOOR), SCORE_FLOOR),
        score_max(score_max(bits, SCORE_FLOOR), SCORE_FLOOR) == score_max(bits, SCORE_FLOOR),
{
}

/// Scores compare as the numbers do that their bit patterns encode: positive ones like the patterns,
/// negative ones the other way round, and every negative one before every positive one. The two
/// zeros are the same, and what encodes no number is neither less nor greater.
pub proof fn law_scores_compare(a: u64, b: u64)
    ensures
        a <= 0x7ff0_0000_0000_0000 && b <= 0x7ff0_0000_0000_0000 ==> (score_less(a, b) <==> a < b),
        0x8000_0000_0000_0000 <= a <= 0xfff0_0000_0000_0000 && 0x8000_0000_0000_0000 <= b
            <= 0xfff0_0000_0000_0000 ==> (score_less(a, b) <==> a > b),
        0x8000_0000_0000_0000 < a <= 0xfff0_0000_0000_0000 && b <= 0x7ff0_0000_0000_0000
            ==> score_less(a, b) && !score_less(b, a),
        !score_less(0, 0x8000_0000_0000_0000) && !score_less(0x8000_0000_0000_0000, 0),
        0x7ff0_0000_0000_0000 < a < 0x8000_0000_0000_0000 || a > 0xfff0_0000_0000_0000
            ==> !score_less(a, b) && !score_less(b, a) && not_a_number(a),
        a <= 0x7ff0_0000_0000_0000 || 0x8000_0000_0000_0000 <= a <= 0xfff0_0000_0000_0000
            ==> !not_a_number(a),
{
}

/// The greater of two scores is one of them and not less than the other. What is no number gives way
/// to what is one.
pub proof fn law_greater_score(a: u64, b: u64)
    ensures
        score_max(a, b) == a || score_max(a, b) == b,
        !not_a_number(a) && !not_a_number(b) ==> !score_less(score_max(a, b), a) && !score_less(
            score_max(a, b),
            b,
        ),
        not_a_number(a) ==> score_max(a, b) == b,
        not_a_number(b) && !not_a_number(a) ==> score_max(a, b) == a,
        SCORE_FLOOR == 4576918229304087675,
{
}

} // verus!
