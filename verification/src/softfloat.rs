//! IEEE 754 arithmetic on bit patterns, computed by `rustc_apfloat` and
//! `ieee_apsqrt`. Each name below stands for what one outside function returns:
//! the result's bit pattern and its exception status, in the bits of
//! `rustc_apfloat::Status`.

use rustc_apfloat::ieee::{Double, Single};
use rustc_apfloat::{Float, FloatConvert, Round};
use vstd::prelude::*;

verus! {

pub const STATUS_INVALID_OP: u8 = 0x01;
pub const STATUS_DIV_BY_ZERO: u8 = 0x02;
pub const STATUS_OVERFLOW: u8 = 0x04;
pub const STATUS_UNDERFLOW: u8 = 0x08;
pub const STATUS_INEXACT: u8 = 0x10;

/// RISC-V rounding modes.
#[derive(Clone, Copy, Debug, PartialEq, Eq, Structural)]
pub enum Rounding {
    NearestTiesToEven,
    TowardZero,
    TowardNegative,
    TowardPositive,
    NearestTiesToAway,
}

impl Rounding {
    /// Architectural encoding of the mode.
    pub open spec fn code(self) -> u8 {
        match self {
            Rounding::NearestTiesToEven => 0,
            Rounding::TowardZero => 1,
            Rounding::TowardNegative => 2,
            Rounding::TowardPositive => 3,
            Rounding::NearestTiesToAway => 4,
        }
    }
}

/// Result of `Single::add_r` on two bit patterns.
pub uninterp spec fn f32_sum(lhs: u32, rhs: u32, rounding: u8) -> (u32, u8);

/// Calls `rustc_apfloat`'s `Float::add_r` for `ieee::Single`, the IEEE 754
/// sum of two numbers under a rounding mode, and is claimed to
/// return what [`f32_sum`] names.
#[verifier::external_body]
pub(crate) fn add32(lhs: u32, rhs: u32, rounding: Rounding) -> (r: (u32, u8))
    ensures
        r == f32_sum(lhs, rhs, rounding.code()),
{
    let round = match rounding {
        Rounding::NearestTiesToEven => Round::NearestTiesToEven,
        Rounding::TowardZero => Round::TowardZero,
        Rounding::TowardNegative => Round::TowardNegative,
        Rounding::TowardPositive => Round::TowardPositive,
        Rounding::NearestTiesToAway => Round::NearestTiesToAway,
    };
    let result = Single::from_bits(lhs as u128).add_r(Single::from_bits(rhs as u128), round);
    (result.value.to_bits() as u32, result.status.bits())
}

/// Result of `Single::sub_r` on two bit patterns.
pub uninterp spec fn f32_difference(lhs: u32, rhs: u32, rounding: u8) -> (u32, u8);

/// Calls `rustc_apfloat`'s `Float::sub_r` for `ieee::Single`, the IEEE 754
/// difference of two numbers under a rounding mode, and is claimed to
/// return what [`f32_difference`] names.
#[verifier::external_body]
pub(crate) fn subtract32(lhs: u32, rhs: u32, rounding: Rounding) -> (r: (u32, u8))
    ensures
        r == f32_difference(lhs, rhs, rounding.code()),
{
    let round = match rounding {
        Rounding::NearestTiesToEven => Round::NearestTiesToEven,
        Rounding::TowardZero => Round::TowardZero,
        Rounding::TowardNegative => Round::TowardNegative,
        Rounding::TowardPositive => Round::TowardPositive,
        Rounding::NearestTiesToAway => Round::NearestTiesToAway,
    };
    let result = Single::from_bits(lhs as u128).sub_r(Single::from_bits(rhs as u128), round);
    (result.value.to_bits() as u32, result.status.bits())
}

/// Result of `Single::mul_r` on two bit patterns.
pub uninterp spec fn f32_product(lhs: u32, rhs: u32, rounding: u8) -> (u32, u8);

/// Calls `rustc_apfloat`'s `Float::mul_r` for `ieee::Single`, the IEEE 754
/// product of two numbers under a rounding mode, and is claimed to
/// return what [`f32_product`] names.
#[verifier::external_body]
pub(crate) fn multiply32(lhs: u32, rhs: u32, rounding: Rounding) -> (r: (u32, u8))
    ensures
        r == f32_product(lhs, rhs, rounding.code()),
{
    let round = match rounding {
        Rounding::NearestTiesToEven => Round::NearestTiesToEven,
        Rounding::TowardZero => Round::TowardZero,
        Rounding::TowardNegative => Round::TowardNegative,
        Rounding::TowardPositive => Round::TowardPositive,
        Rounding::NearestTiesToAway => Round::NearestTiesToAway,
    };
    let result = Single::from_bits(lhs as u128).mul_r(Single::from_bits(rhs as u128), round);
    (result.value.to_bits() as u32, result.status.bits())
}

/// Result of `Single::div_r` on two bit patterns.
pub uninterp spec fn f32_quotient(lhs: u32, rhs: u32, rounding: u8) -> (u32, u8);

/// Calls `rustc_apfloat`'s `Float::div_r` for `ieee::Single`, the IEEE 754
/// quotient of two numbers under a rounding mode, and is claimed to
/// return what [`f32_quotient`] names.
#[verifier::external_body]
pub(crate) fn divide32(lhs: u32, rhs: u32, rounding: Rounding) -> (r: (u32, u8))
    ensures
        r == f32_quotient(lhs, rhs, rounding.code()),
{
    let round = match rounding {
        Rounding::NearestTiesToEven => Round::NearestTiesToEven,
        Rounding::TowardZero => Round::TowardZero,
        Rounding::TowardNegative => Round::TowardNegative,
        Rounding::TowardPositive => Round::TowardPositive,
        Rounding::NearestTiesToAway => Round::NearestTiesToAway,
    };
    let result = Single::from_bits(lhs as u128).div_r(Single::from_bits(rhs as u128), round);
    (result.value.to_bits() as u32, result.status.bits())
}

/// Result of `Double::add_r` on two bit patterns.
pub uninterp spec fn f64_sum(lhs: u64, rhs: u64, rounding: u8) -> (u64, u8);

/// Calls `rustc_apfloat`'s `Float::add_r` for `ieee::Double`, the IEEE 754
/// sum of two numbers under a rounding mode, and is claimed to
/// return what [`f64_sum`] names.
#[verifier::external_body]
pub(crate) fn add64(lhs: u64, rhs: u64, rounding: Rounding) -> (r: (u64, u8))
    ensures
        r == f64_sum(lhs, rhs, rounding.code()),
{
    let round = match rounding {
        Rounding::NearestTiesToEven => Round::NearestTiesToEven,
        Rounding::TowardZero => Round::TowardZero,
        Rounding::TowardNegative => Round::TowardNegative,
        Rounding::TowardPositive => Round::TowardPositive,
        Rounding::NearestTiesToAway => Round::NearestTiesToAway,
    };
    let result = Double::from_bits(lhs as u128).add_r(Double::from_bits(rhs as u128), round);
    (result.value.to_bits() as u64, result.status.bits())
}

/// Result of `Double::sub_r` on two bit patterns.
pub uninterp spec fn f64_difference(lhs: u64, rhs: u64, rounding: u8) -> (u64, u8);

/// Calls `rustc_apfloat`'s `Float::sub_r` for `ieee::Double`, the IEEE 754
/// difference of two numbers under a rounding mode, and is claimed to
/// return what [`f64_difference`] names.
#[verifier::external_body]
pub(crate) fn subtract64(lhs: u64, rhs: u64, rounding: Rounding) -> (r: (u64, u8))
    ensures
        r == f64_difference(lhs, rhs, rounding.code()),
{
    let round = match rounding {
        Rounding::NearestTiesToEven => Round::NearestTiesToEven,
        Rounding::TowardZero => Round::TowardZero,
        Rounding::TowardNegative => Round::TowardNegative,
        Rounding::TowardPositive => Round::TowardPositive,
        Rounding::NearestTiesToAway => Round::NearestTiesToAway,
    };
    let result = Double::from_bits(lhs as u128).sub_r(Double::from_bits(rhs as u128), round);
    (result.value.to_bits() as u64, result.status.bits())
}

/// Result of `Double::mul_r` on two bit patterns.
pub uninterp spec fn f64_product(lhs: u64, rhs: u64, rounding: u8) -> (u64, u8);

/// Calls `rustc_apfloat`'s `Float::mul_r` for `ieee::Double`, the IEEE 754
/// product of two numbers under a rounding mode, and is claimed to
/// return what [`f64_product`] names.
#[verifier::external_body]
pub(crate) fn multiply64(lhs: u64, rhs: u64, rounding: Rounding) -> (r: (u64, u8))
    ensures
        r == f64_product(lhs, rhs, rounding.code()),
{
    let round = match rounding {
        Rounding::NearestTiesToEven => Round::NearestTiesToEven,
        Rounding::TowardZero => Round::TowardZero,
        Rounding::TowardNegative => Round::TowardNegative,
        Rounding::TowardPositive => Round::TowardPositive,
        Rounding::NearestTiesToAway => Round::NearestTiesToAway,
    };
    let result = Double::from_bits(lhs as u128).mul_r(Double::from_bits(rhs as u128), round);
    (result.value.to_bits() as u64, result.status.bits())
}

/// Result of `Double::div_r` on two bit patterns.
pub uninterp spec fn f64_quotient(lhs: u64, rhs: u64, rounding: u8) -> (u64, u8);

/// Calls `rustc_apfloat`'s `Float::div_r` for `ieee::Double`, the IEEE 754
/// quotient of two numbers under a rounding mode, and is claimed to
/// return what [`f64_quotient`] names.
#[verifier::external_body]
pub(crate) fn divide64(lhs: u64, rhs: u64, rounding: Rounding) -> (r: (u64, u8))
    ensures
        r == f64_quotient(lhs, rhs, rounding.code()),
{
    let round = match rounding {
        Rounding::NearestTiesToEven => Round::NearestTiesToEven,
        Rounding::TowardZero => Round::TowardZero,
        Rounding::TowardNegative => Round::TowardNegative,
        Rounding::TowardPositive => Round::TowardPositive,
        Rounding::NearestTiesToAway => Round::NearestTiesToAway,
    };
    let result = Double::from_bits(lhs as u128).div_r(Double::from_bits(rhs as u128), round);
    (result.value.to_bits() as u64, result.status.bits())
}

/// Result of `Single::mul_add_r` on three bit patterns.
pub uninterp spec fn f32_fused(lhs: u32, rhs: u32, addend: u32, rounding: u8) -> (u32, u8);

/// Calls `rustc_apfloat`'s `Float::mul_add_r` for `ieee::Single`, the product of
/// the first two numbers plus the third with one rounding, and is claimed to
/// return what [`f32_fused`] names.
#[verifier::external_body]
pub(crate) fn fused32(lhs: u32, rhs: u32, addend: u32, rounding: Rounding) -> (r: (u32, u8))
    ensures
        r == f32_fused(lhs, rhs, addend, rounding.code()),
{
    let round = match rounding {
        Rounding::NearestTiesToEven => Round::NearestTiesToEven,
        Rounding::TowardZero => Round::TowardZero,
        Rounding::TowardNegative => Round::TowardNegative,
        Rounding::TowardPositive => Round::TowardPositive,
        Rounding::NearestTiesToAway => Round::NearestTiesToAway,
    };
    let factor = Single::from_bits(rhs as u128);
    let result = Single::from_bits(lhs as u128).mul_add_r(
        factor,
        Single::from_bits(addend as u128),
        round,
    );
    (result.value.to_bits() as u32, result.status.bits())
}

/// Result of `ieee_apsqrt::sqrt_accurate` on a `u32` bit pattern.
pub uninterp spec fn f32_root(square: u32, rounding: u8) -> (u32, u8);

/// Calls `ieee_apsqrt::sqrt_accurate` for `u32`, the square root under a
/// rounding mode, and is claimed to return what [`f32_root`] names. Its
/// iteration panics after 999 rounds without convergence; no argument that
/// reaches that bound is known, so none is left out.
#[verifier::external_body]
pub(crate) fn root32(square: u32, rounding: Rounding) -> (r: (u32, u8))
    ensures
        r == f32_root(square, rounding.code()),
{
    let round = match rounding {
        Rounding::NearestTiesToEven => Round::NearestTiesToEven,
        Rounding::TowardZero => Round::TowardZero,
        Rounding::TowardNegative => Round::TowardNegative,
        Rounding::TowardPositive => Round::TowardPositive,
        Rounding::NearestTiesToAway => Round::NearestTiesToAway,
    };
    let (result, _) = ieee_apsqrt::sqrt_accurate(square, round);
    (result.value, result.status.bits())
}

/// Result of `Single::to_i128_r` on a bit pattern.
pub uninterp spec fn f32_to_signed(value: u32, width: usize, rounding: u8) -> (i128, u8);

/// Calls `rustc_apfloat`'s `Float::to_i128_r` for `ieee::Single`, the nearest
/// signed integer of `width` bits under a rounding mode, and is claimed to
/// return what [`f32_to_signed`] names.
#[verifier::external_body]
pub(crate) fn signed_from32(value: u32, width: usize, rounding: Rounding) -> (r: (i128, u8))
    requires
        width == 32 || width == 64,
    ensures
        r == f32_to_signed(value, width, rounding.code()),
{
    let round = match rounding {
        Rounding::NearestTiesToEven => Round::NearestTiesToEven,
        Rounding::TowardZero => Round::TowardZero,
        Rounding::TowardNegative => Round::TowardNegative,
        Rounding::TowardPositive => Round::TowardPositive,
        Rounding::NearestTiesToAway => Round::NearestTiesToAway,
    };
    let mut exact = false;
    let result = Single::from_bits(value as u128).to_i128_r(width, round, &mut exact);
    (result.value, result.status.bits())
}

/// Result of `Single::to_u128_r` on a bit pattern.
pub uninterp spec fn f32_to_unsigned(value: u32, width: usize, rounding: u8) -> (u128, u8);

/// Calls `rustc_apfloat`'s `Float::to_u128_r` for `ieee::Single`, the nearest
/// unsigned integer of `width` bits under a rounding mode, and is claimed to
/// return what [`f32_to_unsigned`] names.
#[verifier::external_body]
pub(crate) fn unsigned_from32(value: u32, width: usize, rounding: Rounding) -> (r: (u128, u8))
    requires
        width == 32 || width == 64,
    ensures
        r == f32_to_unsigned(value, width, rounding.code()),
{
    let round = match rounding {
        Rounding::NearestTiesToEven => Round::NearestTiesToEven,
        Rounding::TowardZero => Round::TowardZero,
        Rounding::TowardNegative => Round::TowardNegative,
        Rounding::TowardPositive => Round::TowardPositive,
        Rounding::NearestTiesToAway => Round::NearestTiesToAway,
    };
    let mut exact = false;
    let result = Single::from_bits(value as u128).to_u128_r(width, round, &mut exact);
    (result.value, result.status.bits())
}

/// Result of `Single::from_i128_r`.
pub uninterp spec fn f32_of_signed(value: i128, rounding: u8) -> (u32, u8);

/// Calls `rustc_apfloat`'s `Float::from_i128_r` for `ieee::Single`, the number
/// nearest to a signed integer under a rounding mode, and is claimed to return
/// what [`f32_of_signed`] names.
#[verifier::external_body]
pub(crate) fn from_signed32(value: i128, rounding: Rounding) -> (r: (u32, u8))
    ensures
        r == f32_of_signed(value, rounding.code()),
{
    let round = match rounding {
        Rounding::NearestTiesToEven => Round::NearestTiesToEven,
        Rounding::TowardZero => Round::TowardZero,
        Rounding::TowardNegative => Round::TowardNegative,
        Rounding::TowardPositive => Round::TowardPositive,
        Rounding::NearestTiesToAway => Round::NearestTiesToAway,
    };
    let result = Single::from_i128_r(value, round);
    (result.value.to_bits() as u32, result.status.bits())
}

/// Result of `Single::from_u128_r`.
pub uninterp spec fn f32_of_unsigned(value: u128, rounding: u8) -> (u32, u8);

/// Calls `rustc_apfloat`'s `Float::from_u128_r` for `ieee::Single`, the number
/// nearest to an unsigned integer under a rounding mode, and is claimed to
/// return what [`f32_of_unsigned`] names.
#[verifier::external_body]
pub(crate) fn from_unsigned32(value: u128, rounding: Rounding) -> (r: (u32, u8))
    ensures
        r == f32_of_unsigned(value, rounding.code()),
{
    let round = match rounding {
        Rounding::NearestTiesToEven => Round::NearestTiesToEven,
        Rounding::TowardZero => Round::TowardZero,
        Rounding::TowardNegative => Round::TowardNegative,
        Rounding::TowardPositive => Round::TowardPositive,
        Rounding::NearestTiesToAway => Round::NearestTiesToAway,
    };
    let result = Single::from_u128_r(value, round);
    (result.value.to_bits() as u32, result.status.bits())
}

/// Result of `Double::mul_add_r` on three bit patterns.
pub uninterp spec fn f64_fused(lhs: u64, rhs: u64, addend: u64, rounding: u8) -> (u64, u8);

/// Calls `rustc_apfloat`'s `Float::mul_add_r` for `ieee::Double`, the product of
/// the first two numbers plus the third with one rounding, and is claimed to
/// return what [`f64_fused`] names.
#[verifier::external_body]
pub(crate) fn fused64(lhs: u64, rhs: u64, addend: u64, rounding: Rounding) -> (r: (u64, u8))
    ensures
        r == f64_fused(lhs, rhs, addend, rounding.code()),
{
    let round = match rounding {
        Rounding::NearestTiesToEven => Round::NearestTiesToEven,
        Rounding::TowardZero => Round::TowardZero,
        Rounding::TowardNegative => Round::TowardNegative,
        Rounding::TowardPositive => Round::TowardPositive,
        Rounding::NearestTiesToAway => Round::NearestTiesToAway,
    };
    let factor = Double::from_bits(rhs as u128);
    let result = Double::from_bits(lhs as u128).mul_add_r(
        factor,
        Double::from_bits(addend as u128),
        round,
    );
    (result.value.to_bits() as u64, result.status.bits())
}

/// Result of `ieee_apsqrt::sqrt_accurate` on a `u64` bit pattern.
pub uninterp spec fn f64_root(square: u64, rounding: u8) -> (u64, u8);

/// Calls `ieee_apsqrt::sqrt_accurate` for `u64`, the square root under a
/// rounding mode, and is claimed to return what [`f64_root`] names. Its
/// iteration panics after 999 rounds without convergence; no argument that
/// reaches that bound is known, so none is left out.
#[verifier::external_body]
pub(crate) fn root64(square: u64, rounding: Rounding) -> (r: (u64, u8))
    ensures
        r == f64_root(square, rounding.code()),
{
    let round = match rounding {
        Rounding::NearestTiesToEven => Round::NearestTiesToEven,
        Rounding::TowardZero => Round::TowardZero,
        Rounding::TowardNegative => Round::TowardNegative,
        Rounding::TowardPositive => Round::TowardPositive,
        Rounding::NearestTiesToAway => Round::NearestTiesToAway,
    };
    let (result, _) = ieee_apsqrt::sqrt_accurate(square, round);
    (result.value, result.status.bits())
}

/// Result of `Double::to_i128_r` on a bit pattern.
pub uninterp spec fn f64_to_signed(value: u64, width: usize, rounding: u8) -> (i128, u8);

/// Calls `rustc_apfloat`'s `Float::to_i128_r` for `ieee::Double`, the nearest
/// signed integer of `width` bits under a rounding mode, and is claimed to
/// return what [`f64_to_signed`] names.
#[verifier::external_body]
pub(crate) fn signed_from64(value: u64, width: usize, rounding: Rounding) -> (r: (i128, u8))
    requires
        width == 32 || width == 64,
    ensures
        r == f64_to_signed(value, width, rounding.code()),
{
    let round = match rounding {
        Rounding::NearestTiesToEven => Round::NearestTiesToEven,
        Rounding::TowardZero => Round::TowardZero,
        Rounding::TowardNegative => Round::TowardNegative,
        Rounding::TowardPositive => Round::TowardPositive,
        Rounding::NearestTiesToAway => Round::NearestTiesToAway,
    };
    let mut exact = false;
    let result = Double::from_bits(value as u128).to_i128_r(width, round, &mut exact);
    (result.value, result.status.bits())
}

/// Result of `Double::to_u128_r` on a bit pattern.
pub uninterp spec fn f64_to_unsigned(value: u64, width: usize, rounding: u8) -> (u128, u8);

/// Calls `rustc_apfloat`'s `Float::to_u128_r` for `ieee::Double`, the nearest
/// unsigned integer of `width` bits under a rounding mode, and is claimed to
/// return what [`f64_to_unsigned`] names.
#[verifier::external_body]
pub(crate) fn unsigned_from64(value: u64, width: usize, rounding: Rounding) -> (r: (u128, u8))
    requires
        width == 32 || width == 64,
    ensures
        r == f64_to_unsigned(value, width, rounding.code()),
{
    let round = match rounding {
        Rounding::NearestTiesToEven => Round::NearestTiesToEven,
        Rounding::TowardZero => Round::TowardZero,
        Rounding::TowardNegative => Round::TowardNegative,
        Rounding::TowardPositive => Round::TowardPositive,
        Rounding::NearestTiesToAway => Round::NearestTiesToAway,
    };
    let mut exact = false;
    let result = Double::from_bits(value as u128).to_u128_r(width, round, &mut exact);
    (result.value, result.status.bits())
}

/// Result of `Double::from_i128_r`.
pub uninterp spec fn f64_of_signed(value: i128, rounding: u8) -> (u64, u8);

/// Calls `rustc_apfloat`'s `Float::from_i128_r` for `ieee::Double`, the number
/// nearest to a signed integer under a rounding mode, and is claimed to return
/// what [`f64_of_signed`] names.
#[verifier::external_body]
pub(crate) fn from_signed64(value: i128, rounding: Rounding) -> (r: (u64, u8))
    ensures
        r == f64_of_signed(value, rounding.code()),
{
    let round = match rounding {
        Rounding::NearestTiesToEven => Round::NearestTiesToEven,
        Rounding::TowardZero => Round::TowardZero,
        Rounding::TowardNegative => Round::TowardNegative,
        Rounding::TowardPositive => Round::TowardPositive,
        Rounding::NearestTiesToAway => Round::NearestTiesToAway,
    };
    let result = Double::from_i128_r(value, round);
    (result.value.to_bits() as u64, result.status.bits())
}

/// Result of `Double::from_u128_r`.
pub uninterp spec fn f64_of_unsigned(value: u128, rounding: u8) -> (u64, u8);

/// Calls `rustc_apfloat`'s `Float::from_u128_r` for `ieee::Double`, the number
/// nearest to an unsigned integer under a rounding mode, and is claimed to
/// return what [`f64_of_unsigned`] names.
#[verifier::external_body]
pub(crate) fn from_unsigned64(value: u128, rounding: Rounding) -> (r: (u64, u8))
    ensures
        r == f64_of_unsigned(value, rounding.code()),
{
    let round = match rounding {
        Rounding::NearestTiesToEven => Round::NearestTiesToEven,
        Rounding::TowardZero => Round::TowardZero,
        Rounding::TowardNegative => Round::TowardNegative,
        Rounding::TowardPositive => Round::TowardPositive,
        Rounding::NearestTiesToAway => Round::NearestTiesToAway,
    };
    let result = Double::from_u128_r(value, round);
    (result.value.to_bits() as u64, result.status.bits())
}

/// Result of `FloatConvert::convert_r` from `Double` to `Single`.
pub uninterp spec fn f32_of_f64(value: u64, rounding: u8) -> (u32, u8);

/// Calls `rustc_apfloat`'s `FloatConvert::convert_r` from `ieee::Double` to
/// `ieee::Single`, the conversion between formats under a rounding mode, and is
/// claimed to return what [`f32_of_f64`] names.
#[verifier::external_body]
pub(crate) fn narrow(value: u64, rounding: Rounding) -> (r: (u32, u8))
    ensures
        r == f32_of_f64(value, rounding.code()),
{
    let round = match rounding {
        Rounding::NearestTiesToEven => Round::NearestTiesToEven,
        Rounding::TowardZero => Round::TowardZero,
        Rounding::TowardNegative => Round::TowardNegative,
        Rounding::TowardPositive => Round::TowardPositive,
        Rounding::NearestTiesToAway => Round::NearestTiesToAway,
    };
    let mut loses_info = false;
    let source = Double::from_bits(value as u128);
    let result: rustc_apfloat::StatusAnd<Single> = source.convert_r(round, &mut loses_info);
    (result.value.to_bits() as u32, result.status.bits())
}

/// Result of `FloatConvert::convert_r` from `Single` to `Double`.
pub uninterp spec fn f64_of_f32(value: u32, rounding: u8) -> (u64, u8);

/// Calls `rustc_apfloat`'s `FloatConvert::convert_r` from `ieee::Single` to
/// `ieee::Double`, the conversion between formats under a rounding mode, and is
/// claimed to return what [`f64_of_f32`] names.
#[verifier::external_body]
pub(crate) fn widen(value: u32, rounding: Rounding) -> (r: (u64, u8))
    ensures
        r == f64_of_f32(value, rounding.code()),
{
    let round = match rounding {
        Rounding::NearestTiesToEven => Round::NearestTiesToEven,
        Rounding::TowardZero => Round::TowardZero,
        Rounding::TowardNegative => Round::TowardNegative,
        Rounding::TowardPositive => Round::TowardPositive,
        Rounding::NearestTiesToAway => Round::NearestTiesToAway,
    };
    let mut loses_info = false;
    let source = Single::from_bits(value as u128);
    let result: rustc_apfloat::StatusAnd<Double> = source.convert_r(round, &mut loses_info);
    (result.value.to_bits() as u64, result.status.bits())
}

} // verus!
