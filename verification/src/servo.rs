//! Thrust-vector servo positions on the encoder circle: the target reading
//! for a deflection from the calibrated zero, and the deflection a reading
//! stands for.

use vstd::prelude::*;
use vstd::arithmetic::div_mod::{lemma_fundamental_div_mod, lemma_fundamental_div_mod_converse_mod};

verus! {

/// Encoder counts in one turn of a servo's output shaft.
pub const ENCODER_COUNTS_PER_TURN: i32 = 16_384;

/// The reading `delta` counts away from `zero`, taken round the circle of
/// one turn.
pub open spec fn encoder_at(zero: int, delta: int) -> int {
    (zero + delta) % (ENCODER_COUNTS_PER_TURN as int)
}

/// The signed distance from `zero` to `encoder` the short way round, in
/// `[-half a turn, half a turn)`.
pub open spec fn encoder_offset_from(zero: int, encoder: int) -> int {
    let half = ENCODER_COUNTS_PER_TURN / 2;
    (encoder - zero + half) % (ENCODER_COUNTS_PER_TURN as int) - half
}

/// The encoder reading to command for a deflection of `delta` counts from
/// the calibrated zero.
pub fn encoder_target(zero_encoder_count: u16, delta: i32) -> (encoder: u16)
    requires
        i32::MIN <= zero_encoder_count + delta <= i32::MAX,
    ensures
        encoder == encoder_at(zero_encoder_count as int, delta as int),
        encoder < ENCODER_COUNTS_PER_TURN,
{
    let sum = zero_encoder_count as i32 + delta;
    sum.checked_rem_euclid(ENCODER_COUNTS_PER_TURN).unwrap() as u16
}

/// The deflection in counts from the calibrated zero that an encoder
/// reading stands for.
pub fn encoder_offset(zero_encoder_count: u16, encoder: u16) -> (delta: i32)
    ensures
        delta == encoder_offset_from(zero_encoder_count as int, encoder as int),
        -(ENCODER_COUNTS_PER_TURN / 2) <= delta < ENCODER_COUNTS_PER_TURN / 2,
{
    let half = ENCODER_COUNTS_PER_TURN / 2;
    (encoder as i32 - zero_encoder_count as i32 + half).checked_rem_euclid(ENCODER_COUNTS_PER_TURN).unwrap()
        - half
}

/// A deflection of less than half a turn either way, commanded as an
/// encoder target, reads back as the same deflection.
pub proof fn lemma_offset_of_target(zero: u16, delta: int)
    requires
        -(ENCODER_COUNTS_PER_TURN / 2) <= delta < ENCODER_COUNTS_PER_TURN / 2,
    ensures
        encoder_offset_from(zero as int, encoder_at(zero as int, delta)) == delta,
{
    let n = ENCODER_COUNTS_PER_TURN as int;
    let a = zero + delta;
    lemma_fundamental_div_mod(a, n);
    let target = encoder_at(zero as int, delta);
    assert(target - zero + n / 2 == (-(a / n)) * n + (delta + n / 2)) by (nonlinear_arith)
        requires
            a == n * (a / n) + target,
            a == zero + delta,
            n == 16384;
    lemma_fundamental_div_mod_converse_mod(target - zero + n / 2, n, -(a / n), delta + n / 2);
}

/// An encoder reading within one turn, taken as a deflection from the
/// calibrated zero and commanded again, gives back the same reading.
pub proof fn lemma_target_of_offset(zero: u16, encoder: int)
    requires
        0 <= encoder < ENCODER_COUNTS_PER_TURN,
    ensures
        encoder_at(zero as int, encoder_offset_from(zero as int, encoder)) == encoder,
{
    let n = ENCODER_COUNTS_PER_TURN as int;
    let b = encoder - zero + n / 2;
    lemma_fundamental_div_mod(b, n);
    let offset = encoder_offset_from(zero as int, encoder);
    assert(zero + offset == (-(b / n)) * n + encoder) by (nonlinear_arith)
        requires
            b == n * (b / n) + b % n,
            offset == b % n - n / 2,
            b == encoder - zero + n / 2;
    lemma_fundamental_div_mod_converse_mod(zero + offset, n, -(b / n), encoder);
}

} // verus!
