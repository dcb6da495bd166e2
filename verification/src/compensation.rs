//! The BMP280's integer compensation formulas: from the raw temperature
//! and pressure readings and the factory trimming parameters to
//! hundredths of a degree Celsius and pascals in Q24.8 fixed point.
//!
//! The formulas are written with arithmetic shifts; in the contracts a
//! right shift by `k` is a division by `2^k` rounded towards negative
//! infinity (the integer `/` of specifications for a positive divisor).

use vstd::prelude::*;
use crate::sensors::Calibration;

verus! {

/// Whether `x` is a value of `i32`.
pub open spec fn fits_i32(x: int) -> bool {
    i32::MIN <= x <= i32::MAX
}

/// `t_fine`: the temperature in the resolution that the pressure formula
/// takes.
pub open spec fn fine_temperature(raw: int, c: Calibration) -> int {
    let var1 = (raw / 8 - 2 * c.t1) * c.t2 / 2048;
    let d = raw / 16 - c.t1;
    let var2 = d * d / 4096 * c.t3 / 16384;
    var1 + var2
}

/// The temperature in hundredths of a degree Celsius for a `t_fine`.
pub open spec fn hundredths_celsius(fine: int) -> int {
    (fine * 5 + 128) / 256
}

/// Whether every intermediate value of the temperature formula is a value
/// of `i32`, the type the formula computes in.
pub open spec fn temperature_in_range(raw: int, c: Calibration) -> bool {
    let d = raw / 16 - c.t1;
    let fine = fine_temperature(raw, c);
    &&& fits_i32((raw / 8 - 2 * c.t1) * c.t2)
    &&& fits_i32(d * d)
    &&& fits_i32(d * d / 4096 * c.t3)
    &&& fits_i32(fine)
    &&& fits_i32(fine * 5)
    &&& fits_i32(fine * 5 + 128)
}

/// The temperature formula can be taken exactly when it does not overflow:
/// `temperature_in_range` holds precisely when each product and sum of the
/// datasheet formula is an `i32`, whatever its sign, so readings below
/// freezing (a negative `t_fine`) are compensated like any other.
pub proof fn lemma_temperature_range_is_overflow_freedom(raw: int, c: Calibration)
    ensures
        temperature_in_range(raw, c) <==> ({
            let d = raw / 16 - c.t1;
            let fine = (raw / 8 - 2 * c.t1) * c.t2 / 2048 + d * d / 4096 * c.t3 / 16384;
            &&& -0x8000_0000 <= (raw / 8 - 2 * c.t1) * c.t2 < 0x8000_0000
            &&& -0x8000_0000 <= d * d < 0x8000_0000
            &&& -0x8000_0000 <= d * d / 4096 * c.t3 < 0x8000_0000
            &&& -0x8000_0000 <= fine < 0x8000_0000
            &&& -0x8000_0000 <= fine * 5 < 0x8000_0000
            &&& -0x8000_0000 <= fine * 5 + 128 < 0x8000_0000
        }),
{
}

/// Likewise for the pressure formula: `pressure_in_range` holds precisely
/// when its sums, differences and products are `i64` values and its
/// division does not overflow, with no condition on their signs.
pub proof fn lemma_pressure_range_is_overflow_freedom(raw: int, fine: int, c: Calibration)
    ensures
        pressure_in_range(raw, fine, c) <==> ({
            let v = fine - 128000;
            let offset1 = v * v * c.p6 + wrap_i64(v * c.p5 * 0x2_0000);
            let offset = offset1 + c.p4 * 0x8_0000_0000;
            let var1 = v * v * c.p3 / 256 + v * c.p2 * 4096;
            let divisor = (0x8000_0000_0000 + var1) * c.p1 / 0x2_0000_0000;
            let num = (wrap_i64((1048576 - raw) * 0x8000_0000) - offset) * 3125;
            let p = trunc_div(num, divisor);
            let q = p / 8192;
            let sum1 = p + c.p9 * q * q / 0x200_0000;
            let sum2 = sum1 + c.p8 * p / 0x8_0000;
            &&& fits_i64(v * v * c.p6)
            &&& fits_i64(offset1)
            &&& fits_i64(offset)
            &&& fits_i64(v * v * c.p3)
            &&& fits_i64(var1)
            &&& fits_i64(0x8000_0000_0000 + var1)
            &&& fits_i64((0x8000_0000_0000 + var1) * c.p1)
            &&& fits_i64(wrap_i64((1048576 - raw) * 0x8000_0000) - offset)
            &&& fits_i64(num)
            &&& divisor != 0 ==> {
                &&& !(num == i64::MIN && divisor == -1)
                &&& fits_i64(c.p9 * q)
                &&& fits_i64(c.p9 * q * q)
                &&& fits_i64(c.p8 * p)
                &&& fits_i64(sum1)
                &&& fits_i64(sum2)
                &&& fits_i64(sum2 / 256 + c.p7 * 16)
            }
        }),
{
}

proof fn lemma_i32_shifts(x: i32)
    by (bit_vector)
    ensures
        (x >> 3u32) as int == (x as int) / 8,
        (x >> 4u32) as int == (x as int) / 16,
        (x >> 8u32) as int == (x as int) / 256,
        (x >> 11u32) as int == (x as int) / 2048,
        (x >> 12u32) as int == (x as int) / 4096,
        (x >> 14u32) as int == (x as int) / 16384,
{
}

proof fn lemma_i32_double(x: i32)
    by (bit_vector)
    requires
        0 <= x < 0x10000,
    ensures
        x << 1u32 == x * 2,
{
}

/// The datasheet's temperature compensation: returns the temperature in
/// hundredths of a degree Celsius and `t_fine`.
pub fn compensate_temperature(raw: i32, c: Calibration) -> (t: (i32, i32))
    requires
        temperature_in_range(raw as int, c),
    ensures
        t.1 == fine_temperature(raw as int, c),
        t.0 == hundredths_celsius(t.1 as int),
{
    let t1 = c.t1 as i32;
    proof {
        lemma_i32_shifts(raw);
        lemma_i32_double(t1);
    }
    let a = (raw >> 3u32) - (t1 << 1u32);
    let m1 = a * (c.t2 as i32);
    proof { lemma_i32_shifts(m1); }
    let var1 = m1 >> 11u32;
    let d = (raw >> 4u32) - t1;
    let sq = d * d;
    proof { lemma_i32_shifts(sq); }
    let m2 = (sq >> 12u32) * (c.t3 as i32);
    proof { lemma_i32_shifts(m2); }
    let var2 = m2 >> 14u32;
    let fine = var1 + var2;
    let scaled = fine * 5 + 128;
    proof { lemma_i32_shifts(scaled); }
    (scaled >> 8u32, fine)
}

/// Whether `x` is a value of `i64`.
pub open spec fn fits_i64(x: int) -> bool {
    i64::MIN <= x <= i64::MAX
}

/// `x` truncated to 64 bits and read as two's complement, as a left shift
/// of an `i64` leaves it.
pub open spec fn wrap_i64(x: int) -> int {
    x as i64 as int
}

/// Rust's `/` on signed integers: the quotient rounded towards zero.
pub open spec fn trunc_div(a: int, b: int) -> int {
    if a >= 0 { a / b } else { -((-a) / b) }
}

/// `var2` of the pressure formula: the offset taken from the shifted raw
/// reading.
pub open spec fn pressure_offset(fine: int, c: Calibration) -> int {
    let v = fine - 128000;
    v * v * c.p6 + wrap_i64(v * c.p5 * 0x2_0000) + c.p4 * 0x8_0000_0000
}

/// `var1` of the pressure formula after its second step: the divisor.
pub open spec fn pressure_divisor(fine: int, c: Calibration) -> int {
    let v = fine - 128000;
    (0x8000_0000_0000 + (v * v * c.p3 / 256 + v * c.p2 * 4096)) * c.p1 / 0x2_0000_0000
}

/// The numerator that the divisor divides.
pub open spec fn pressure_numerator(raw: int, fine: int, c: Calibration) -> int {
    (wrap_i64((1048576 - raw) * 0x8000_0000) - pressure_offset(fine, c)) * 3125
}

/// The pressure in pascals as Q24.8 fixed point (divide by 256 for
/// pascals), for a divisor other than zero.
pub open spec fn pressure_q24_8(raw: int, fine: int, c: Calibration) -> int {
    let p = trunc_div(pressure_numerator(raw, fine, c), pressure_divisor(fine, c));
    (p + c.p9 * (p / 8192) * (p / 8192) / 0x200_0000 + c.p8 * p / 0x8_0000) / 256 + c.p7 * 16
}

/// Whether every sum, difference and product of the pressure formula is a
/// value of `i64`, the type the formula computes in, and its division
/// does not overflow.
pub open spec fn pressure_in_range(raw: int, fine: int, c: Calibration) -> bool {
    let v = fine - 128000;
    let offset1 = v * v * c.p6 + wrap_i64(v * c.p5 * 0x2_0000);
    let var1 = v * v * c.p3 / 256 + v * c.p2 * 4096;
    let num = pressure_numerator(raw, fine, c);
    let divisor = pressure_divisor(fine, c);
    let p = trunc_div(num, divisor);
    let q = p / 8192;
    let sum1 = p + c.p9 * q * q / 0x200_0000;
    let sum2 = sum1 + c.p8 * p / 0x8_0000;
    &&& fits_i64(v * v * c.p6)
    &&& fits_i64(offset1)
    &&& fits_i64(pressure_offset(fine, c))
    &&& fits_i64(v * v * c.p3)
    &&& fits_i64(var1)
    &&& fits_i64(0x8000_0000_0000 + var1)
    &&& fits_i64((0x8000_0000_0000 + var1) * c.p1)
    &&& fits_i64(wrap_i64((1048576 - raw) * 0x8000_0000) - pressure_offset(fine, c))
    &&& fits_i64(num)
    &&& divisor != 0 ==> {
        &&& !(num == i64::MIN && divisor == -1)
        &&& fits_i64(c.p9 * q)
        &&& fits_i64(c.p9 * q * q)
        &&& fits_i64(c.p8 * p)
        &&& fits_i64(sum1)
        &&& fits_i64(sum2)
        &&& fits_i64(sum2 / 256 + c.p7 * 16)
    }
}

proof fn lemma_div_negated_divisor(a: int, b: int)
    by (nonlinear_arith)
    requires
        a >= 0,
        b < 0,
    ensures
        a / b == -(a / (-b)),
{
}

proof fn lemma_div_bounded(a: int, d: int)
    by (nonlinear_arith)
    requires
        a >= 0,
        d >= 2,
    ensures
        0 <= a / d <= a / 2,
{
}

fn quotient(a: i64, b: i64) -> (q: i64)
    requires
        b != 0,
        !(a == i64::MIN && b == -1),
    ensures
        q == trunc_div(a as int, b as int),
{
    proof {
        if b < 0 {
            if a >= 0 {
                lemma_div_negated_divisor(a as int, b as int);
            } else {
                lemma_div_negated_divisor(-(a as int), b as int);
                if b < -1 {
                    lemma_div_bounded(-(a as int), -(b as int));
                }
            }
        }
    }
    a / b
}

proof fn lemma_i64_shifts(x: i64)
    by (bit_vector)
    ensures
        (x >> 8u32) as int == (x as int) / 256,
        (x >> 13u32) as int == (x as int) / 8192,
        (x >> 19u32) as int == (x as int) / 0x8_0000,
        (x >> 25u32) as int == (x as int) / 0x200_0000,
        (x >> 33u32) as int == (x as int) / 0x2_0000_0000,
        (x << 17u32) == (x as int * 0x2_0000) as i64,
        (x << 31u32) == (x as int * 0x8000_0000) as i64,
{
}

proof fn lemma_i64_small_shifts(x: i64)
    by (bit_vector)
    requires
        -0x8000_0000_0000 <= x < 0x8000_0000_0000,
    ensures
        x << 4u32 == x * 16,
        x << 12u32 == x * 4096,
        (-0x8000 <= x < 0x8000) ==> x << 35u32 == x * 0x8_0000_0000,
{
}

proof fn lemma_pressure_products(v: int, p: int)
    by (nonlinear_arith)
    requires
        -0x8002_0000 < v < 0x8002_0000,
        -0x8000 <= p < 0x8000,
    ensures
        0 <= v * v < 0x8000_0000_0000_0000,
        -0x8000_0000_0000 < v * p < 0x8000_0000_0000,
{
}

/// The datasheet's pressure compensation for a raw pressure reading and
/// `t_fine`: the pressure in pascals as Q24.8 fixed point, or `None` where
/// the formula's divisor is zero.
pub fn compensate_pressure(raw: i32, fine: i32, c: Calibration) -> (p: Option<i64>)
    requires
        pressure_in_range(raw as int, fine as int, c),
    ensures
        p is None <==> pressure_divisor(fine as int, c) == 0,
        p matches Some(value) ==> value == pressure_q24_8(raw as int, fine as int, c),
{
    let v = fine as i64 - 128_000;
    proof {
        lemma_pressure_products(v as int, c.p5 as int);
        lemma_pressure_products(v as int, c.p2 as int);
    }
    let vv = v * v;
    let b = v * (c.p5 as i64);
    proof { lemma_i64_shifts(b); }
    let mut var2 = vv * (c.p6 as i64) + (b << 17u32);
    proof { lemma_i64_small_shifts(c.p4 as i64); }
    var2 = var2 + ((c.p4 as i64) << 35u32);
    let c1 = vv * (c.p3 as i64);
    let c2 = v * (c.p2 as i64);
    proof {
        lemma_i64_shifts(c1);
        lemma_i64_small_shifts(c2);
    }
    let var1 = (c1 >> 8u32) + (c2 << 12u32);
    assert(1i64 << 47u32 == 0x8000_0000_0000i64) by (bit_vector);
    let e = ((1i64 << 47u32) + var1) * (c.p1 as i64);
    proof { lemma_i64_shifts(e); }
    let divisor = e >> 33u32;
    if divisor == 0 {
        return None;
    }
    let base = 1_048_576i64 - raw as i64;
    proof { lemma_i64_shifts(base); }
    let num = ((base << 31u32) - var2) * 3125;
    let pressure = quotient(num, divisor);
    proof { lemma_i64_shifts(pressure); }
    let q = pressure >> 13u32;
    let m1 = (c.p9 as i64) * q * q;
    let m2 = (c.p8 as i64) * pressure;
    proof {
        lemma_i64_shifts(m1);
        lemma_i64_shifts(m2);
    }
    let sum = pressure + (m1 >> 25u32) + (m2 >> 19u32);
    proof {
        lemma_i64_shifts(sum);
        lemma_i64_small_shifts(c.p7 as i64);
    }
    Some((sum >> 8u32) + ((c.p7 as i64) << 4u32))
}

proof fn lemma_wide_product(x: int, y: int)
    by (nonlinear_arith)
    requires
        fits_i64(x),
        fits_i64(y),
    ensures
        -0x4000_0000_0000_0000_0000_0000_0000_0000 <= x * y <= 0x4000_0000_0000_0000_0000_0000_0000_0000,
{
}

proof fn lemma_narrow_product(x: int, y: int)
    by (nonlinear_arith)
    requires
        fits_i32(x),
        fits_i32(y),
    ensures
        -0x4000_0000_0000_0000 <= x * y <= 0x4000_0000_0000_0000,
{
}

fn in_i32(x: i64) -> (b: bool)
    ensures
        b == fits_i32(x as int),
{
    -0x8000_0000 <= x && x <= 0x7fff_ffff
}

fn in_i64(x: i128) -> (b: bool)
    ensures
        b == fits_i64(x as int),
{
    -0x8000_0000_0000_0000 <= x && x <= 0x7fff_ffff_ffff_ffff
}

/// Whether `compensate_temperature` can take `raw` and `c`: its formula
/// stays within `i32` on them.
pub fn temperature_computable(raw: i32, c: Calibration) -> (ok: bool)
    ensures
        ok == temperature_in_range(raw as int, c),
{
    let t1 = c.t1 as i32;
    proof {
        lemma_i32_shifts(raw);
        lemma_i32_double(t1);
    }
    let a = (raw >> 3u32) - (t1 << 1u32);
    let d = (raw >> 4u32) - t1;
    proof {
        lemma_narrow_product(a as int, c.t2 as int);
        lemma_narrow_product(d as int, d as int);
    }
    let m1 = (a as i64) * (c.t2 as i64);
    let sq = (d as i64) * (d as i64);
    if !in_i32(m1) || !in_i32(sq) {
        return false;
    }
    let m1 = m1 as i32;
    let sq = sq as i32;
    proof {
        lemma_i32_shifts(m1);
        lemma_i32_shifts(sq);
        lemma_narrow_product((sq >> 12u32) as int, c.t3 as int);
    }
    let m2 = ((sq >> 12u32) as i64) * (c.t3 as i64);
    if !in_i32(m2) {
        return false;
    }
    let m2 = m2 as i32;
    proof { lemma_i32_shifts(m2); }
    let fine = ((m1 >> 11u32) as i64) + ((m2 >> 14u32) as i64);
    in_i32(fine) && in_i32(fine * 5) && in_i32(fine * 5 + 128)
}

/// Whether `compensate_pressure` can take `raw`, `fine` and `c`: its
/// formula stays within `i64` on them and its division does not overflow.
pub fn pressure_computable(raw: i32, fine: i32, c: Calibration) -> (ok: bool)
    ensures
        ok == pressure_in_range(raw as int, fine as int, c),
{
    let v = fine as i64 - 128_000;
    proof {
        lemma_pressure_products(v as int, c.p5 as int);
        lemma_pressure_products(v as int, c.p2 as int);
    }
    let vv = v * v;
    let b = v * (c.p5 as i64);
    proof {
        lemma_i64_shifts(b);
        lemma_i64_small_shifts(c.p4 as i64);
        lemma_wide_product(vv as int, c.p6 as int);
    }
    let a = (vv as i128) * (c.p6 as i128);
    if !in_i64(a) {
        return false;
    }
    let offset1 = a + ((b << 17u32) as i128);
    if !in_i64(offset1) {
        return false;
    }
    let offset = offset1 + (((c.p4 as i64) << 35u32) as i128);
    if !in_i64(offset) {
        return false;
    }
    proof { lemma_wide_product(vv as int, c.p3 as int); }
    let c1 = (vv as i128) * (c.p3 as i128);
    if !in_i64(c1) {
        return false;
    }
    let c1 = c1 as i64;
    let c2 = v * (c.p2 as i64);
    proof {
        lemma_i64_shifts(c1);
        lemma_i64_small_shifts(c2);
    }
    let var1 = ((c1 >> 8u32) as i128) + ((c2 << 12u32) as i128);
    if !in_i64(var1) {
        return false;
    }
    let e = 0x8000_0000_0000i128 + var1;
    if !in_i64(e) {
        return false;
    }
    proof { lemma_wide_product(e as int, c.p1 as int); }
    let ep = e * (c.p1 as i128);
    if !in_i64(ep) {
        return false;
    }
    let ep = ep as i64;
    let base = 1_048_576i64 - raw as i64;
    proof {
        lemma_i64_shifts(ep);
        lemma_i64_shifts(base);
    }
    let divisor = ep >> 33u32;
    let diff = ((base << 31u32) as i128) - offset;
    if !in_i64(diff) {
        return false;
    }
    let num = diff * 3125;
    if !in_i64(num) {
        return false;
    }
    if divisor == 0 {
        return true;
    }
    let num = num as i64;
    if num == i64::MIN && divisor == -1 {
        return false;
    }
    let p = quotient(num, divisor);
    proof {
        lemma_i64_shifts(p);
        lemma_wide_product(c.p9 as int, (p >> 13u32) as int);
        lemma_wide_product(c.p8 as int, p as int);
    }
    let q = p >> 13u32;
    let m = (c.p9 as i128) * (q as i128);
    if !in_i64(m) {
        return false;
    }
    proof { lemma_wide_product(m as int, q as int); }
    let mm = m * (q as i128);
    let pp = (c.p8 as i128) * (p as i128);
    if !in_i64(mm) || !in_i64(pp) {
        return false;
    }
    let mm = mm as i64;
    let pp = pp as i64;
    proof {
        lemma_i64_shifts(mm);
        lemma_i64_shifts(pp);
    }
    let sum1 = (p as i128) + ((mm >> 25u32) as i128);
    if !in_i64(sum1) {
        return false;
    }
    let sum2 = sum1 + ((pp >> 19u32) as i128);
    if !in_i64(sum2) {
        return false;
    }
    let sum2 = sum2 as i64;
    proof {
        lemma_i64_shifts(sum2);
        lemma_i64_small_shifts(c.p7 as i64);
    }
    in_i64(((sum2 >> 8u32) as i128) + (((c.p7 as i64) << 4u32) as i128))
}

} // verus!
