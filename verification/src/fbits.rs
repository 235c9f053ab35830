use vstd::prelude::*;

use ieee_apsqrt::sqrt_accurate;
use rustc_apfloat::Float;
use rustc_apfloat::FloatConvert;
use rustc_apfloat::Round;
use rustc_apfloat::ieee::Double;
use rustc_apfloat::ieee::Single;

verus! {

// Distances, tolerances, percentiles and metric values are IEEE 754
// single-precision (binary32) values carried as their bit patterns in a
// `u32`; the two intermediate double-precision (binary64) values are carried
// in a `u64`. Every such value this library produces is non-negative and not
// a NaN, and on that range the unsigned order of the bit patterns equals the
// numeric order of the encoded values, so comparisons, minima, maxima and
// sorting are ordinary integer operations. The arithmetic itself is done in
// software by the `rustc_apfloat` and `ieee_apsqrt` crates, which implement
// IEEE 754 arithmetic with round-to-nearest-ties-to-even: bit for bit the
// results of ordinary hardware float arithmetic.
/// Bit pattern of 0.0f32.
pub const F32_ZERO: u32 = 0;

/// Bit pattern of 1.0f32.
pub const F32_ONE: u32 = 0x3F80_0000;

/// Bit pattern of 2.0f32.
pub const F32_TWO: u32 = 0x4000_0000;

/// Bit pattern of +infinity in f32; everything above is a NaN, everything
/// at or below is non-negative and not a NaN.
pub const F32_INF: u32 = 0x7F80_0000;

/// Bit pattern of 65536.0f32; integers below 65536 convert to bits below it.
pub const F32_64K: u32 = 0x4780_0000;

/// Bit pattern of 2^111 in f32; a voxel index below 65536 times a spacing
/// value below this stays finite.
pub const F32_HUGE: u32 = 0x7700_0000;

/// Bit pattern of 1.0f64.
pub const F64_ONE: u64 = 0x3FF0_0000_0000_0000;

/// Bit pattern of +infinity in f64.
pub const F64_INF: u64 = 0x7FF0_0000_0000_0000;

pub uninterp spec fn add_bits(a: u32, b: u32) -> u32;

/// Relies on `rustc_apfloat::ieee::Single::add_r` with ties-to-even rounding:
/// IEEE 754 f32 addition of the encoded values. Adding +0.0 returns the other
/// operand unchanged, and a sum of two non-negative non-NaN values is again
/// non-negative and not a NaN.
#[verifier::external_body]
pub(crate) fn add_f32(a: u32, b: u32) -> (r: u32)
    ensures
        r == add_bits(a, b),
        a == F32_ZERO && b <= F32_INF ==> r == b,
        a <= F32_INF && b <= F32_INF ==> r <= F32_INF,
{
    let x = Single::from_bits(a as u128);
    let y = Single::from_bits(b as u128);
    x.add_r(y, Round::NearestTiesToEven).value.to_bits() as u32
}

pub uninterp spec fn sub_bits(a: u32, b: u32) -> u32;

/// Relies on `rustc_apfloat::ieee::Single::sub_r` with ties-to-even rounding:
/// IEEE 754 f32 subtraction of the encoded values. A finite value minus
/// itself is +0.0, and the difference of two non-negative finite values is
/// finite (of either sign, never a NaN).
#[verifier::external_body]
pub(crate) fn sub_f32(a: u32, b: u32) -> (r: u32)
    ensures
        r == sub_bits(a, b),
        a == b && a < F32_INF ==> r == F32_ZERO,
        a < F32_INF && b < F32_INF ==> (r & 0x7FFF_FFFF) < F32_INF,
{
    let x = Single::from_bits(a as u128);
    let y = Single::from_bits(b as u128);
    x.sub_r(y, Round::NearestTiesToEven).value.to_bits() as u32
}

pub uninterp spec fn mul_bits(a: u32, b: u32) -> u32;

/// Relies on `rustc_apfloat::ieee::Single::mul_r` with ties-to-even rounding:
/// IEEE 754 f32 multiplication of the encoded values. +0.0 times a finite
/// value is +0.0; 1.0 times a non-NaN value is that value; a factor in
/// [0.0, 1.0] cannot increase a non-negative finite value; a value below
/// 65536.0 times a value below 2^111 stays finite; and the square of a
/// non-NaN value is non-negative and not a NaN.
#[verifier::external_body]
pub(crate) fn mul_f32(a: u32, b: u32) -> (r: u32)
    ensures
        r == mul_bits(a, b),
        a == F32_ZERO && b < F32_INF ==> r == F32_ZERO,
        a == F32_ONE && b <= F32_INF ==> r == b,
        a <= F32_ONE && b < F32_INF ==> r <= b,
        a < F32_64K && b < F32_HUGE ==> r < F32_INF,
        a == b && (a & 0x7FFF_FFFF) <= F32_INF ==> r <= F32_INF,
{
    let x = Single::from_bits(a as u128);
    let y = Single::from_bits(b as u128);
    x.mul_r(y, Round::NearestTiesToEven).value.to_bits() as u32
}

pub uninterp spec fn div_bits(a: u32, b: u32) -> u32;

/// Relies on `rustc_apfloat::ieee::Single::div_r` with ties-to-even rounding:
/// IEEE 754 f32 division of the encoded values. +0.0 divided by a positive
/// value is +0.0; a positive finite value divided by itself is exactly 1.0;
/// and a non-negative finite value divided by a positive non-NaN value is
/// non-negative and not a NaN.
#[verifier::external_body]
pub(crate) fn div_f32(a: u32, b: u32) -> (r: u32)
    ensures
        r == div_bits(a, b),
        a == F32_ZERO && F32_ZERO < b <= F32_INF ==> r == F32_ZERO,
        F32_ZERO < a < F32_INF && a == b ==> r == F32_ONE,
        a < F32_INF && F32_ZERO < b <= F32_INF ==> r <= F32_INF,
{
    let x = Single::from_bits(a as u128);
    let y = Single::from_bits(b as u128);
    x.div_r(y, Round::NearestTiesToEven).value.to_bits() as u32
}

pub uninterp spec fn sqrt_bits(a: u32) -> u32;

/// Relies on `ieee_apsqrt::sqrt_accurate` with ties-to-even rounding:
/// correctly rounded IEEE 754 f32 square root of the encoded value.
/// The square root of +0.0 is +0.0, and the square root of a non-negative
/// non-NaN value is non-negative and not a NaN.
#[verifier::external_body]
pub(crate) fn sqrt_f32(a: u32) -> (r: u32)
    ensures
        r == sqrt_bits(a),
        a == F32_ZERO ==> r == F32_ZERO,
        a <= F32_INF ==> r <= F32_INF,
{
    sqrt_accurate(a, Round::NearestTiesToEven).0.value
}

pub uninterp spec fn u64_to_f32_bits(n: u64) -> u32;

/// Relies on `rustc_apfloat::ieee::Single::from_u128_r` with ties-to-even
/// rounding: the IEEE 754 conversion of an unsigned integer to f32, exactly
/// what Rust's `as f32` cast computes. Zero converts to +0.0, a positive
/// integer to a positive finite value, and an integer below 65536 to a value
/// below 65536.0.
#[verifier::external_body]
pub(crate) fn u64_to_f32(n: u64) -> (r: u32)
    ensures
        r == u64_to_f32_bits(n),
        n == 0 ==> r == F32_ZERO,
        n > 0 ==> F32_ZERO < r < F32_INF,
        n < 65536 ==> r < F32_64K,
{
    Single::from_u128_r(n as u128, Round::NearestTiesToEven).value.to_bits() as u32
}

pub uninterp spec fn trunc_bits(a: u32) -> u64;

/// Relies on `rustc_apfloat::ieee::Single::to_u128_r` rounding toward zero:
/// truncation of the encoded value to an unsigned integer, exactly what
/// Rust's saturating `as` cast computes on an in-range value. Truncating
/// +0.0 gives 0, and an integer at most 2^24 converts to f32 exactly, so
/// truncating that f32 value gives the integer back.
#[verifier::external_body]
pub(crate) fn trunc_f32_u64(a: u32) -> (r: u64)
    ensures
        r == trunc_bits(a),
        a == F32_ZERO ==> r == 0,
        forall|n: u64| n <= 0x100_0000 && a == u64_to_f32_bits(n) ==> r == n,
{
    let x = Single::from_bits(a as u128);
    let mut is_exact = false;
    x.to_u128_r(64, Round::TowardZero, &mut is_exact).value as u64
}

pub uninterp spec fn u64_to_f64_bits(n: u64) -> u64;

/// Relies on `rustc_apfloat::ieee::Double::from_u128_r` with ties-to-even
/// rounding: the IEEE 754 conversion of an unsigned integer to f64, exactly
/// what Rust's `as f64` cast computes. Zero converts to +0.0, a positive
/// integer to a positive finite value, and the conversion is monotone.
#[verifier::external_body]
pub(crate) fn u64_to_f64(n: u64) -> (r: u64)
    ensures
        r == u64_to_f64_bits(n),
        n == 0 ==> r == 0,
        n > 0 ==> 0 < r < F64_INF,
        forall|m: u64| m <= n ==> #[trigger] u64_to_f64_bits(m) <= r,
{
    Double::from_u128_r(n as u128, Round::NearestTiesToEven).value.to_bits() as u64
}

pub uninterp spec fn div_f64_bits(a: u64, b: u64) -> u64;

/// Relies on `rustc_apfloat::ieee::Double::div_r` with ties-to-even rounding:
/// IEEE 754 f64 division of the encoded values. +0.0 divided by a positive
/// value is +0.0; a positive finite value divided by itself is exactly 1.0;
/// a numerator no larger than a positive finite denominator gives a quotient
/// of at most 1.0; and for a fixed positive finite denominator the quotient
/// is monotone in a non-negative finite numerator.
#[verifier::external_body]
pub(crate) fn div_f64(a: u64, b: u64) -> (r: u64)
    ensures
        r == div_f64_bits(a, b),
        a == 0 && 0 < b < F64_INF ==> r == 0,
        0 < a < F64_INF && a == b ==> r == F64_ONE,
        a <= b && 0 < b < F64_INF ==> r <= F64_ONE,
        a < F64_INF && 0 < b < F64_INF ==> forall|a2: u64|
            a2 <= a ==> #[trigger] div_f64_bits(a2, b) <= r,
{
    let x = Double::from_bits(a as u128);
    let y = Double::from_bits(b as u128);
    x.div_r(y, Round::NearestTiesToEven).value.to_bits() as u64
}

pub uninterp spec fn f64_to_f32_bits(a: u64) -> u32;

/// Relies on `rustc_apfloat::ieee::Double::convert_r` to `Single` with
/// ties-to-even rounding: the IEEE 754 narrowing conversion, exactly what
/// Rust's `as f32` cast computes. +0.0 converts to +0.0 and 1.0 to 1.0; a
/// value of at most 1.0 converts to at most 1.0; a non-negative non-NaN
/// value converts to a non-negative non-NaN value; and the conversion is
/// monotone on non-negative non-NaN values.
#[verifier::external_body]
pub(crate) fn f64_to_f32(a: u64) -> (r: u32)
    ensures
        r == f64_to_f32_bits(a),
        a == 0 ==> r == F32_ZERO,
        a == F64_ONE ==> r == F32_ONE,
        a <= F64_ONE ==> r <= F32_ONE,
        a <= F64_INF ==> r <= F32_INF,
        a <= F64_INF ==> forall|a2: u64| a2 <= a ==> #[trigger] f64_to_f32_bits(a2) <= r,
{
    let x = Double::from_bits(a as u128);
    let mut loses_info = false;
    let y: Single = x.convert_r(Round::NearestTiesToEven, &mut loses_info).value;
    y.to_bits() as u32
}

} // verus!
