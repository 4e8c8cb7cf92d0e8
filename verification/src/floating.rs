//! RV64F and RV64D execution.
//!
//! Arithmetic is delegated to the soft-float functions. Architectural NaN
//! boxing, canonical NaNs, exception flags, rounding-mode admission and integer
//! saturation remain explicit machine policy here.

use crate::cpu::CsrFile;
use crate::hart::HartState;
use crate::isa;
use crate::isa::{
    illegal, sign_extend, MachineTrap, CANONICAL_NAN_F32, CANONICAL_NAN_F64, FFLAGS_DZ, FFLAGS_NV,
    FFLAGS_MASK, FFLAGS_NX, FFLAGS_OF, FFLAGS_UF, FRM_MASK, FRM_SHIFT, MSTATUS_FS, MSTATUS_FS_DIRTY,
};
use crate::softfloat;
use crate::softfloat::{
    Rounding, STATUS_DIV_BY_ZERO, STATUS_INEXACT, STATUS_INVALID_OP, STATUS_OVERFLOW,
    STATUS_UNDERFLOW,
};
use vstd::prelude::*;

verus! {

pub open spec fn flag_if(status: u8, bit: u8, flag: u8) -> u8 {
    if status & bit != 0 {
        flag
    } else {
        0
    }
}

/// Accrued flags for an exception status.
pub open spec fn status_flags(status: u8) -> u8 {
    flag_if(status, STATUS_INVALID_OP, FFLAGS_NV) | flag_if(status, STATUS_DIV_BY_ZERO, FFLAGS_DZ)
        | flag_if(status, STATUS_OVERFLOW, FFLAGS_OF) | flag_if(status, STATUS_UNDERFLOW, FFLAGS_UF)
        | flag_if(status, STATUS_INEXACT, FFLAGS_NX)
}

fn mapped(status: u8, bit: u8, flag: u8) -> (r: u8)
    ensures
        r == flag_if(status, bit, flag),
{
    if status & bit != 0 {
        flag
    } else {
        0
    }
}

pub fn float_status_flags(status: u8) -> (r: u8)
    ensures
        r == status_flags(status),
{
    mapped(status, STATUS_INVALID_OP, FFLAGS_NV) | mapped(status, STATUS_DIV_BY_ZERO, FFLAGS_DZ)
        | mapped(status, STATUS_OVERFLOW, FFLAGS_OF) | mapped(status, STATUS_UNDERFLOW, FFLAGS_UF)
        | mapped(status, STATUS_INEXACT, FFLAGS_NX)
}

/// Rounding mode selected by an instruction field, through `frm` when dynamic.
pub open spec fn rounding_spec(fcsr: u8, encoded: u32) -> Option<Rounding> {
    let resolved = if encoded == 7 {
        ((fcsr & FRM_MASK) >> FRM_SHIFT) as u32
    } else {
        encoded
    };
    if resolved == 0 {
        Some(Rounding::NearestTiesToEven)
    } else if resolved == 1 {
        Some(Rounding::TowardZero)
    } else if resolved == 2 {
        Some(Rounding::TowardNegative)
    } else if resolved == 3 {
        Some(Rounding::TowardPositive)
    } else if resolved == 4 {
        Some(Rounding::NearestTiesToAway)
    } else {
        None
    }
}

pub fn float_rounding(fcsr: u8, encoded: u32) -> (r: Option<Rounding>)
    ensures
        r == rounding_spec(fcsr, encoded),
{
    let resolved: u32 = if encoded == 7 {
        ((fcsr & FRM_MASK) >> FRM_SHIFT) as u32
    } else {
        encoded
    };
    match resolved {
        0 => Some(Rounding::NearestTiesToEven),
        1 => Some(Rounding::TowardZero),
        2 => Some(Rounding::TowardNegative),
        3 => Some(Rounding::TowardPositive),
        4 => Some(Rounding::NearestTiesToAway),
        _ => None,
    }
}

pub open spec fn is_nan32(value: u32) -> bool {
    value & 0x7fff_ffff > 0x7f80_0000
}

pub open spec fn is_signaling32(value: u32) -> bool {
    is_nan32(value) && value & 0x40_0000 == 0
}

/// Signed magnitude of a number that is not a NaN; it orders such numbers and
/// makes the two zeros equal.
pub open spec fn order32(value: u32) -> int {
    if value & 0x8000_0000 == 0 {
        (value & 0x7fff_ffff) as int
    } else {
        -((value & 0x7fff_ffff) as int)
    }
}

fn order_key32(value: u32) -> (r: i64)
    ensures
        r == order32(value),
{
    let magnitude: u32 = value & 0x7fff_ffff;
    if value & 0x8000_0000 == 0 {
        magnitude as i64
    } else {
        -(magnitude as i64)
    }
}

pub fn float_is_nan32(value: u32) -> (r: bool)
    ensures
        r == is_nan32(value),
{
    value & 0x7fff_ffff > 0x7f80_0000
}

pub fn float_is_signaling_nan32(value: u32) -> (r: bool)
    ensures
        r == is_signaling32(value),
{
    float_is_nan32(value) && value & 0x40_0000 == 0
}

/// One-hot classification of a bit pattern, as `fclass` reports it.
pub open spec fn class32_spec(value: u32) -> u16 {
    let negative = value >> 31 != 0;
    let exponent = (value >> 23) & 0xff;
    let fraction = value & 0x7f_ffff;
    if exponent == 0xff {
        if fraction != 0 {
            if is_signaling32(value) {
                0x100
            } else {
                0x200
            }
        } else if negative {
            0x001
        } else {
            0x080
        }
    } else if exponent == 0 {
        if fraction != 0 {
            if negative {
                0x004
            } else {
                0x020
            }
        } else if negative {
            0x008
        } else {
            0x010
        }
    } else if negative {
        0x002
    } else {
        0x040
    }
}

pub fn float_class32(value: u32) -> (r: u16)
    ensures
        r == class32_spec(value),
{
    let negative: bool = value >> 31 != 0;
    let exponent: u32 = (value >> 23) & 0xff;
    let fraction: u32 = value & 0x7f_ffff;
    if exponent == 0xff {
        if fraction != 0 {
            if float_is_signaling_nan32(value) {
                0x100
            } else {
                0x200
            }
        } else if negative {
            0x001
        } else {
            0x080
        }
    } else if exponent == 0 {
        if fraction != 0 {
            if negative {
                0x004
            } else {
                0x020
            }
        } else if negative {
            0x008
        } else {
            0x010
        }
    } else if negative {
        0x002
    } else {
        0x040
    }
}

/// Result and flags of a comparison: 0 is `<=`, 1 is `<` and 2 is `==`. An
/// ordered comparison with a NaN is invalid; equality is so only when it signals.
pub open spec fn compare32_spec(lhs: u32, rhs: u32, operation: u32) -> (bool, u8) {
    if is_nan32(lhs) || is_nan32(rhs) {
        (
            false,
            if operation == 2 && !is_signaling32(lhs) && !is_signaling32(rhs) {
                0
            } else {
                FFLAGS_NV
            },
        )
    } else if operation == 0 {
        (order32(lhs) <= order32(rhs), 0)
    } else if operation == 1 {
        (order32(lhs) < order32(rhs), 0)
    } else {
        (order32(lhs) == order32(rhs), 0)
    }
}

pub fn float_compare32(lhs: u32, rhs: u32, operation: u32) -> (r: (bool, u8))
    requires
        operation <= 2,
    ensures
        r == compare32_spec(lhs, rhs, operation),
{
    if float_is_nan32(lhs) || float_is_nan32(rhs) {
        let quiet: bool = !float_is_signaling_nan32(lhs) && !float_is_signaling_nan32(rhs);
        return (
            false,
            if operation == 2 && quiet {
                0
            } else {
                FFLAGS_NV
            },
        );
    }
    let left: i64 = order_key32(lhs);
    let right: i64 = order_key32(rhs);
    match operation {
        0 => (left <= right, 0),
        1 => (left < right, 0),
        _ => (left == right, 0),
    }
}

/// Lesser or greater of two numbers; a NaN loses, and negative zero is less
/// than positive zero.
pub open spec fn select32_spec(lhs: u32, rhs: u32, maximum: bool) -> u32 {
    if is_nan32(lhs) && is_nan32(rhs) {
        CANONICAL_NAN_F32
    } else if is_nan32(lhs) {
        rhs
    } else if is_nan32(rhs) {
        lhs
    } else if lhs & 0x7fff_ffff == 0 && rhs & 0x7fff_ffff == 0 {
        if maximum {
            (lhs & rhs) & 0x8000_0000
        } else {
            (lhs | rhs) & 0x8000_0000
        }
    } else if (maximum && order32(lhs) < order32(rhs)) || (!maximum && order32(lhs)
        > order32(rhs)) {
        rhs
    } else {
        lhs
    }
}

pub fn float_select32(lhs: u32, rhs: u32, maximum: bool) -> (r: u32)
    ensures
        r == select32_spec(lhs, rhs, maximum),
{
    if float_is_nan32(lhs) {
        if float_is_nan32(rhs) {
            return CANONICAL_NAN_F32;
        }
        return rhs;
    }
    if float_is_nan32(rhs) {
        return lhs;
    }
    if lhs & 0x7fff_ffff == 0 && rhs & 0x7fff_ffff == 0 {
        return if maximum {
            (lhs & rhs) & 0x8000_0000
        } else {
            (lhs | rhs) & 0x8000_0000
        };
    }
    let left: i64 = order_key32(lhs);
    let right: i64 = order_key32(rhs);
    if (maximum && left < right) || (!maximum && left > right) {
        rhs
    } else {
        lhs
    }
}

/// `lhs` with the sign of `rhs` (0), its opposite (1), or the product of both
/// signs (2).
pub open spec fn inject32_spec(lhs: u32, rhs: u32, operation: u32) -> u32 {
    let sign = if operation == 0 {
        rhs & 0x8000_0000
    } else if operation == 1 {
        (rhs & 0x8000_0000) ^ 0x8000_0000
    } else {
        (lhs ^ rhs) & 0x8000_0000
    };
    (lhs & 0x7fff_ffff) | sign
}

pub fn float_sign_injection32(lhs: u32, rhs: u32, operation: u32) -> (r: u32)
    requires
        operation <= 2,
    ensures
        r == inject32_spec(lhs, rhs, operation),
{
    let sign: u32 = match operation {
        0 => rhs & 0x8000_0000,
        1 => (rhs & 0x8000_0000) ^ 0x8000_0000,
        _ => (lhs ^ rhs) & 0x8000_0000,
    };
    (lhs & 0x7fff_ffff) | sign
}

pub open spec fn integer_width(kind: int) -> usize {
    if kind < 2 {
        32
    } else {
        64
    }
}

pub open spec fn canonical32(value: u32) -> u32 {
    if is_nan32(value) {
        CANONICAL_NAN_F32
    } else {
        value
    }
}

/// Register value and status of a conversion to an integer of the given kind:
/// 0 and 1 are signed and unsigned words, 2 and 3 doublewords. A NaN converts
/// to the largest integer and is invalid.
pub open spec fn to_integer32_spec(value: u32, kind: int, rounding: Rounding) -> (u64, u8) {
    let width = integer_width(kind);
    let (integer, status) = if is_nan32(value) {
        (
            if kind == 0 {
                0x7fff_ffffu64
            } else if kind == 1 {
                0xffff_ffffu64
            } else if kind == 2 {
                0x7fff_ffff_ffff_ffffu64
            } else {
                0xffff_ffff_ffff_ffffu64
            },
            STATUS_INVALID_OP,
        )
    } else if kind == 0 || kind == 2 {
        let converted = softfloat::f32_to_signed(value, width, rounding.code());
        (converted.0 as u64, converted.1)
    } else {
        let converted = softfloat::f32_to_unsigned(value, width, rounding.code());
        (converted.0 as u64, converted.1)
    };
    (
        if kind < 2 {
            isa::sext(integer & 0xffff_ffff, 32)
        } else {
            integer
        },
        status,
    )
}

pub fn float_to_integer32(value: u32, kind: usize, rounding: Rounding) -> (r: (u64, u8))
    requires
        kind <= 3,
    ensures
        r == to_integer32_spec(value, kind as int, rounding),
{
    let width: usize = if kind < 2 {
        32
    } else {
        64
    };
    let signed: bool = kind == 0 || kind == 2;
    let (integer, status): (u64, u8) = if float_is_nan32(value) {
        (
            match kind {
                0 => 0x7fff_ffff,
                1 => 0xffff_ffff,
                2 => 0x7fff_ffff_ffff_ffff,
                _ => 0xffff_ffff_ffff_ffff,
            },
            STATUS_INVALID_OP,
        )
    } else if signed {
        let (converted, status) = softfloat::signed_from32(value, width, rounding);
        (converted as u64, status)
    } else {
        let (converted, status) = softfloat::unsigned_from32(value, width, rounding);
        (converted as u64, status)
    };
    (
        if kind < 2 {
            sign_extend(integer & 0xffff_ffff, 32)
        } else {
            integer
        },
        status,
    )
}

pub open spec fn of_integer32_spec(value: u64, kind: int, rounding: Rounding) -> (u32, u8) {
    if kind == 0 {
        softfloat::f32_of_signed((value as u32 as i32) as i128, rounding.code())
    } else if kind == 1 {
        softfloat::f32_of_unsigned((value as u32) as u128, rounding.code())
    } else if kind == 2 {
        softfloat::f32_of_signed((value as i64) as i128, rounding.code())
    } else {
        softfloat::f32_of_unsigned(value as u128, rounding.code())
    }
}

pub fn integer_to_float32(value: u64, kind: usize, rounding: Rounding) -> (r: (u32, u8))
    requires
        kind <= 3,
    ensures
        r == of_integer32_spec(value, kind as int, rounding),
{
    match kind {
        0 => softfloat::from_signed32((value as u32 as i32) as i128, rounding),
        1 => softfloat::from_unsigned32((value as u32) as u128, rounding),
        2 => softfloat::from_signed32((value as i64) as i128, rounding),
        _ => softfloat::from_unsigned32(value as u128, rounding),
    }
}

pub open spec fn is_nan64(value: u64) -> bool {
    value & 0x7fff_ffff_ffff_ffff > 0x7ff0_0000_0000_0000
}

pub open spec fn is_signaling64(value: u64) -> bool {
    is_nan64(value) && value & 0x8_0000_0000_0000 == 0
}

/// Signed magnitude of a number that is not a NaN; it orders such numbers and
/// makes the two zeros equal.
pub open spec fn order64(value: u64) -> int {
    if value & 0x8000_0000_0000_0000 == 0 {
        (value & 0x7fff_ffff_ffff_ffff) as int
    } else {
        -((value & 0x7fff_ffff_ffff_ffff) as int)
    }
}

fn order_key64(value: u64) -> (r: i128)
    ensures
        r == order64(value),
{
    let magnitude: u64 = value & 0x7fff_ffff_ffff_ffff;
    if value & 0x8000_0000_0000_0000 == 0 {
        magnitude as i128
    } else {
        -(magnitude as i128)
    }
}

pub fn float_is_nan64(value: u64) -> (r: bool)
    ensures
        r == is_nan64(value),
{
    value & 0x7fff_ffff_ffff_ffff > 0x7ff0_0000_0000_0000
}

pub fn float_is_signaling_nan64(value: u64) -> (r: bool)
    ensures
        r == is_signaling64(value),
{
    float_is_nan64(value) && value & 0x8_0000_0000_0000 == 0
}

/// One-hot classification of a bit pattern, as `fclass` reports it.
pub open spec fn class64_spec(value: u64) -> u16 {
    let negative = value >> 63 != 0;
    let exponent = (value >> 52) & 0x7ff;
    let fraction = value & 0x000f_ffff_ffff_ffff;
    if exponent == 0x7ff {
        if fraction != 0 {
            if is_signaling64(value) {
                0x100
            } else {
                0x200
            }
        } else if negative {
            0x001
        } else {
            0x080
        }
    } else if exponent == 0 {
        if fraction != 0 {
            if negative {
                0x004
            } else {
                0x020
            }
        } else if negative {
            0x008
        } else {
            0x010
        }
    } else if negative {
        0x002
    } else {
        0x040
    }
}

pub fn float_class64(value: u64) -> (r: u16)
    ensures
        r == class64_spec(value),
{
    let negative: bool = value >> 63 != 0;
    let exponent: u64 = (value >> 52) & 0x7ff;
    let fraction: u64 = value & 0x000f_ffff_ffff_ffff;
    if exponent == 0x7ff {
        if fraction != 0 {
            if float_is_signaling_nan64(value) {
                0x100
            } else {
                0x200
            }
        } else if negative {
            0x001
        } else {
            0x080
        }
    } else if exponent == 0 {
        if fraction != 0 {
            if negative {
                0x004
            } else {
                0x020
            }
        } else if negative {
            0x008
        } else {
            0x010
        }
    } else if negative {
        0x002
    } else {
        0x040
    }
}

/// Result and flags of a comparison: 0 is `<=`, 1 is `<` and 2 is `==`. An
/// ordered comparison with a NaN is invalid; equality is so only when it signals.
pub open spec fn compare64_spec(lhs: u64, rhs: u64, operation: u32) -> (bool, u8) {
    if is_nan64(lhs) || is_nan64(rhs) {
        (
            false,
            if operation == 2 && !is_signaling64(lhs) && !is_signaling64(rhs) {
                0
            } else {
                FFLAGS_NV
            },
        )
    } else if operation == 0 {
        (order64(lhs) <= order64(rhs), 0)
    } else if operation == 1 {
        (order64(lhs) < order64(rhs), 0)
    } else {
        (order64(lhs) == order64(rhs), 0)
    }
}

pub fn float_compare64(lhs: u64, rhs: u64, operation: u32) -> (r: (bool, u8))
    requires
        operation <= 2,
    ensures
        r == compare64_spec(lhs, rhs, operation),
{
    if float_is_nan64(lhs) || float_is_nan64(rhs) {
        let quiet: bool = !float_is_signaling_nan64(lhs) && !float_is_signaling_nan64(rhs);
        return (
            false,
            if operation == 2 && quiet {
                0
            } else {
                FFLAGS_NV
            },
        );
    }
    let left: i128 = order_key64(lhs);
    let right: i128 = order_key64(rhs);
    match operation {
        0 => (left <= right, 0),
        1 => (left < right, 0),
        _ => (left == right, 0),
    }
}

/// Lesser or greater of two numbers; a NaN loses, and negative zero is less
/// than positive zero.
pub open spec fn select64_spec(lhs: u64, rhs: u64, maximum: bool) -> u64 {
    if is_nan64(lhs) && is_nan64(rhs) {
        CANONICAL_NAN_F64
    } else if is_nan64(lhs) {
        rhs
    } else if is_nan64(rhs) {
        lhs
    } else if lhs & 0x7fff_ffff_ffff_ffff == 0 && rhs & 0x7fff_ffff_ffff_ffff == 0 {
        if maximum {
            (lhs & rhs) & 0x8000_0000_0000_0000
        } else {
            (lhs | rhs) & 0x8000_0000_0000_0000
        }
    } else if (maximum && order64(lhs) < order64(rhs)) || (!maximum && order64(lhs)
        > order64(rhs)) {
        rhs
    } else {
        lhs
    }
}

pub fn float_select64(lhs: u64, rhs: u64, maximum: bool) -> (r: u64)
    ensures
        r == select64_spec(lhs, rhs, maximum),
{
    if float_is_nan64(lhs) {
        if float_is_nan64(rhs) {
            return CANONICAL_NAN_F64;
        }
        return rhs;
    }
    if float_is_nan64(rhs) {
        return lhs;
    }
    if lhs & 0x7fff_ffff_ffff_ffff == 0 && rhs & 0x7fff_ffff_ffff_ffff == 0 {
        return if maximum {
            (lhs & rhs) & 0x8000_0000_0000_0000
        } else {
            (lhs | rhs) & 0x8000_0000_0000_0000
        };
    }
    let left: i128 = order_key64(lhs);
    let right: i128 = order_key64(rhs);
    if (maximum && left < right) || (!maximum && left > right) {
        rhs
    } else {
        lhs
    }
}

/// `lhs` with the sign of `rhs` (0), its opposite (1), or the product of both
/// signs (2).
pub open spec fn inject64_spec(lhs: u64, rhs: u64, operation: u32) -> u64 {
    let sign = if operation == 0 {
        rhs & 0x8000_0000_0000_0000
    } else if operation == 1 {
        (rhs & 0x8000_0000_0000_0000) ^ 0x8000_0000_0000_0000
    } else {
        (lhs ^ rhs) & 0x8000_0000_0000_0000
    };
    (lhs & 0x7fff_ffff_ffff_ffff) | sign
}

pub fn float_sign_injection64(lhs: u64, rhs: u64, operation: u32) -> (r: u64)
    requires
        operation <= 2,
    ensures
        r == inject64_spec(lhs, rhs, operation),
{
    let sign: u64 = match operation {
        0 => rhs & 0x8000_0000_0000_0000,
        1 => (rhs & 0x8000_0000_0000_0000) ^ 0x8000_0000_0000_0000,
        _ => (lhs ^ rhs) & 0x8000_0000_0000_0000,
    };
    (lhs & 0x7fff_ffff_ffff_ffff) | sign
}

pub open spec fn canonical64(value: u64) -> u64 {
    if is_nan64(value) {
        CANONICAL_NAN_F64
    } else {
        value
    }
}

/// Register value and status of a conversion to an integer of the given kind:
/// 0 and 1 are signed and unsigned words, 2 and 3 doublewords. A NaN converts
/// to the largest integer and is invalid.
pub open spec fn to_integer64_spec(value: u64, kind: int, rounding: Rounding) -> (u64, u8) {
    let width = integer_width(kind);
    let (integer, status) = if is_nan64(value) {
        (
            if kind == 0 {
                0x7fff_ffffu64
            } else if kind == 1 {
                0xffff_ffffu64
            } else if kind == 2 {
                0x7fff_ffff_ffff_ffffu64
            } else {
                0xffff_ffff_ffff_ffffu64
            },
            STATUS_INVALID_OP,
        )
    } else if kind == 0 || kind == 2 {
        let converted = softfloat::f64_to_signed(value, width, rounding.code());
        (converted.0 as u64, converted.1)
    } else {
        let converted = softfloat::f64_to_unsigned(value, width, rounding.code());
        (converted.0 as u64, converted.1)
    };
    (
        if kind < 2 {
            isa::sext(integer & 0xffff_ffff, 32)
        } else {
            integer
        },
        status,
    )
}

pub fn float_to_integer64(value: u64, kind: usize, rounding: Rounding) -> (r: (u64, u8))
    requires
        kind <= 3,
    ensures
        r == to_integer64_spec(value, kind as int, rounding),
{
    let width: usize = if kind < 2 {
        32
    } else {
        64
    };
    let signed: bool = kind == 0 || kind == 2;
    let (integer, status): (u64, u8) = if float_is_nan64(value) {
        (
            match kind {
                0 => 0x7fff_ffff,
                1 => 0xffff_ffff,
                2 => 0x7fff_ffff_ffff_ffff,
                _ => 0xffff_ffff_ffff_ffff,
            },
            STATUS_INVALID_OP,
        )
    } else if signed {
        let (converted, status) = softfloat::signed_from64(value, width, rounding);
        (converted as u64, status)
    } else {
        let (converted, status) = softfloat::unsigned_from64(value, width, rounding);
        (converted as u64, status)
    };
    (
        if kind < 2 {
            sign_extend(integer & 0xffff_ffff, 32)
        } else {
            integer
        },
        status,
    )
}

pub open spec fn of_integer64_spec(value: u64, kind: int, rounding: Rounding) -> (u64, u8) {
    if kind == 0 {
        softfloat::f64_of_signed((value as u32 as i32) as i128, rounding.code())
    } else if kind == 1 {
        softfloat::f64_of_unsigned((value as u32) as u128, rounding.code())
    } else if kind == 2 {
        softfloat::f64_of_signed((value as i64) as i128, rounding.code())
    } else {
        softfloat::f64_of_unsigned(value as u128, rounding.code())
    }
}

pub fn integer_to_float64(value: u64, kind: usize, rounding: Rounding) -> (r: (u64, u8))
    requires
        kind <= 3,
    ensures
        r == of_integer64_spec(value, kind as int, rounding),
{
    match kind {
        0 => softfloat::from_signed64((value as u32 as i32) as i128, rounding),
        1 => softfloat::from_unsigned64((value as u32) as u128, rounding),
        2 => softfloat::from_signed64((value as i64) as i128, rounding),
        _ => softfloat::from_unsigned64(value as u128, rounding),
    }
}

/// Two-operand arithmetic of a format, chosen by the low function bits.
pub open spec fn arith32_spec(group: u32, lhs: u32, rhs: u32, rounding: Rounding) -> (u32, u8) {
    if group == 0 {
        softfloat::f32_sum(lhs, rhs, rounding.code())
    } else if group == 1 {
        softfloat::f32_difference(lhs, rhs, rounding.code())
    } else if group == 2 {
        softfloat::f32_product(lhs, rhs, rounding.code())
    } else {
        softfloat::f32_quotient(lhs, rhs, rounding.code())
    }
}

fn arith32(group: u32, lhs: u32, rhs: u32, rounding: Rounding) -> (r: (u32, u8))
    ensures
        r == arith32_spec(group, lhs, rhs, rounding),
{
    match group {
        0 => softfloat::add32(lhs, rhs, rounding),
        1 => softfloat::subtract32(lhs, rhs, rounding),
        2 => softfloat::multiply32(lhs, rhs, rounding),
        _ => softfloat::divide32(lhs, rhs, rounding),
    }
}

pub open spec fn arith64_spec(group: u32, lhs: u64, rhs: u64, rounding: Rounding) -> (u64, u8) {
    if group == 0 {
        softfloat::f64_sum(lhs, rhs, rounding.code())
    } else if group == 1 {
        softfloat::f64_difference(lhs, rhs, rounding.code())
    } else if group == 2 {
        softfloat::f64_product(lhs, rhs, rounding.code())
    } else {
        softfloat::f64_quotient(lhs, rhs, rounding.code())
    }
}

fn arith64(group: u32, lhs: u64, rhs: u64, rounding: Rounding) -> (r: (u64, u8))
    ensures
        r == arith64_spec(group, lhs, rhs, rounding),
{
    match group {
        0 => softfloat::add64(lhs, rhs, rounding),
        1 => softfloat::subtract64(lhs, rhs, rounding),
        2 => softfloat::multiply64(lhs, rhs, rounding),
        _ => softfloat::divide64(lhs, rhs, rounding),
    }
}

impl HartState {
    /// Hart after a single-precision result: canonical NaN, boxed, flags accrued.
    pub open spec fn finished32(self, rd: int, result: (u32, u8)) -> HartState {
        let written = self.write_f32(rd, canonical32(result.0));
        HartState { csrs: written.csrs.with_float_flags(status_flags(result.1)), ..written }
    }

    pub open spec fn finished64(self, rd: int, result: (u64, u8)) -> HartState {
        let written = self.write_f64(rd, canonical64(result.0));
        HartState { csrs: written.csrs.with_float_flags(status_flags(result.1)), ..written }
    }

    /// Takes what a single-precision operation returned and ends the
    /// instruction with it.
    pub fn finish_float32_bits(&mut self, rd: usize, result: (u32, u8))
        requires
            rd < 32,
        ensures
            *final(self) == old(self).finished32(rd as int, result),
    {
        let value: u32 = if float_is_nan32(result.0) {
            CANONICAL_NAN_F32
        } else {
            result.0
        };
        self.cpu.write_float32(rd, value);
        self.csrs.accrue_float_flags(float_status_flags(result.1));
    }

    /// Takes what a double-precision operation returned and ends the
    /// instruction with it.
    pub fn finish_float64_bits(&mut self, rd: usize, result: (u64, u8))
        requires
            rd < 32,
        ensures
            *final(self) == old(self).finished64(rd as int, result),
    {
        let value: u64 = if float_is_nan64(result.0) {
            CANONICAL_NAN_F64
        } else {
            result.0
        };
        self.cpu.write_float64(rd, value);
        self.csrs.accrue_float_flags(float_status_flags(result.1));
    }

    /// Hart after an invalid-operand check of a minimum or maximum.
    pub open spec fn noted(self, signaling: bool) -> HartState {
        if signaling {
            HartState { csrs: self.csrs.with_float_flags(FFLAGS_NV), ..self }
        } else {
            self
        }
    }

    pub open spec fn fused_spec(self, instruction: u32, opcode: u32, pc: u64) -> (
        HartState,
        Result<(), MachineTrap>,
    ) {
        let format = (instruction >> 25) & 3;
        let rd = isa::register_field(instruction, 7);
        let rs1 = isa::register_field(instruction, 15);
        let rs2 = isa::register_field(instruction, 20);
        let rs3 = isa::register_field(instruction, 27);
        let negate_product = opcode == 0x4b || opcode == 0x4f;
        let negate_addend = opcode == 0x47 || opcode == 0x4f;
        if !self.csrs.floating_enabled_spec() || format > 1 {
            (self, Err(isa::illegal_spec(pc, instruction)))
        } else {
            match rounding_spec(self.csrs.fcsr, (instruction >> 12) & 7) {
                None => (self, Err(isa::illegal_spec(pc, instruction))),
                Some(rounding) => if format == 0 {
                    let lhs = self.cpu.get_f32(rs1);
                    let addend = self.cpu.get_f32(rs3);
                    (
                        self.finished32(
                            rd,
                            softfloat::f32_fused(
                                if negate_product {
                                    lhs ^ 0x8000_0000
                                } else {
                                    lhs
                                },
                                self.cpu.get_f32(rs2),
                                if negate_addend {
                                    addend ^ 0x8000_0000
                                } else {
                                    addend
                                },
                                rounding.code(),
                            ),
                        ),
                        Ok(()),
                    )
                } else {
                    let lhs = self.cpu.get_f64(rs1);
                    let addend = self.cpu.get_f64(rs3);
                    (
                        self.finished64(
                            rd,
                            softfloat::f64_fused(
                                if negate_product {
                                    lhs ^ 0x8000_0000_0000_0000
                                } else {
                                    lhs
                                },
                                self.cpu.get_f64(rs2),
                                if negate_addend {
                                    addend ^ 0x8000_0000_0000_0000
                                } else {
                                    addend
                                },
                                rounding.code(),
                            ),
                        ),
                        Ok(()),
                    )
                },
            }
        }
    }

    pub fn execute_float_fused(&mut self, instruction: u32, opcode: u32, pc: u64) -> (r: Result<
        (),
        MachineTrap,
    >)
        ensures
            (*final(self), r) == old(self).fused_spec(instruction, opcode, pc),
            old(self).wf() ==> final(self).wf(),
            float_outcome(*old(self), *final(self), r, instruction, pc),
    {
        proof {
            fused_operations_only_accrue(*self, instruction, opcode, pc);
        }
        let format: u32 = (instruction >> 25) & 3;
        if !self.csrs.floating_enabled() || format > 1 {
            return Err(illegal(pc, instruction));
        }
        let rounding = match float_rounding(self.csrs.fcsr, (instruction >> 12) & 7) {
            Some(rounding) => rounding,
            None => {
                return Err(illegal(pc, instruction));
            },
        };
        let rd: usize = isa::register_index(instruction, 7);
        let rs1: usize = isa::register_index(instruction, 15);
        let rs2: usize = isa::register_index(instruction, 20);
        let rs3: usize = isa::register_index(instruction, 27);
        let negate_product: bool = opcode == 0x4b || opcode == 0x4f;
        let negate_addend: bool = opcode == 0x47 || opcode == 0x4f;
        if format == 0 {
            let mut lhs: u32 = self.cpu.read_float32(rs1);
            let rhs: u32 = self.cpu.read_float32(rs2);
            let mut addend: u32 = self.cpu.read_float32(rs3);
            if negate_product {
                lhs = lhs ^ 0x8000_0000;
            }
            if negate_addend {
                addend = addend ^ 0x8000_0000;
            }
            let result = softfloat::fused32(lhs, rhs, addend, rounding);
            self.finish_float32_bits(rd, result);
        } else {
            let mut lhs: u64 = self.cpu.read_float64(rs1);
            let rhs: u64 = self.cpu.read_float64(rs2);
            let mut addend: u64 = self.cpu.read_float64(rs3);
            if negate_product {
                lhs = lhs ^ 0x8000_0000_0000_0000;
            }
            if negate_addend {
                addend = addend ^ 0x8000_0000_0000_0000;
            }
            let result = softfloat::fused64(lhs, rhs, addend, rounding);
            self.finish_float64_bits(rd, result);
        }
        Ok(())
    }

    /// Arithmetic, roots and format conversions: the operations that round.
    #[verifier::opaque]
    pub open spec fn rounded_op_spec(
        self,
        rd: int,
        rs1: int,
        rs2: int,
        funct7: u32,
        rounding: Rounding,
    ) -> Option<HartState> {
        if funct7 == 0x00 || funct7 == 0x04 || funct7 == 0x08 || funct7 == 0x0c {
            Some(
                self.finished32(
                    rd,
                    arith32_spec(
                        funct7 / 4,
                        self.cpu.get_f32(rs1),
                        self.cpu.get_f32(rs2),
                        rounding,
                    ),
                ),
            )
        } else if funct7 == 0x01 || funct7 == 0x05 || funct7 == 0x09 || funct7 == 0x0d {
            Some(
                self.finished64(
                    rd,
                    arith64_spec(
                        funct7 / 4,
                        self.cpu.get_f64(rs1),
                        self.cpu.get_f64(rs2),
                        rounding,
                    ),
                ),
            )
        } else if funct7 == 0x2c && rs2 == 0 {
            Some(self.finished32(rd, softfloat::f32_root(self.cpu.get_f32(rs1), rounding.code())))
        } else if funct7 == 0x2d && rs2 == 0 {
            Some(self.finished64(rd, softfloat::f64_root(self.cpu.get_f64(rs1), rounding.code())))
        } else if funct7 == 0x20 && rs2 == 1 {
            Some(self.finished32(rd, softfloat::f32_of_f64(self.cpu.get_f64(rs1), rounding.code())))
        } else if funct7 == 0x21 && rs2 == 0 {
            Some(self.finished64(rd, softfloat::f64_of_f32(self.cpu.get_f32(rs1), rounding.code())))
        } else if funct7 == 0x60 && rs2 <= 3 {
            let (value, status) = to_integer32_spec(self.cpu.get_f32(rs1), rs2, rounding);
            let written = self.write_register(rd, value);
            Some(
                HartState {
                    csrs: written.csrs.with_float_flags(status_flags(status)),
                    ..written
                },
            )
        } else if funct7 == 0x61 && rs2 <= 3 {
            let (value, status) = to_integer64_spec(self.cpu.get_f64(rs1), rs2, rounding);
            let written = self.write_register(rd, value);
            Some(
                HartState {
                    csrs: written.csrs.with_float_flags(status_flags(status)),
                    ..written
                },
            )
        } else if funct7 == 0x68 && rs2 <= 3 {
            Some(self.finished32(rd, of_integer32_spec(self.cpu.get(rs1), rs2, rounding)))
        } else if funct7 == 0x69 && rs2 <= 3 {
            Some(self.finished64(rd, of_integer64_spec(self.cpu.get(rs1), rs2, rounding)))
        } else {
            None
        }
    }

    fn rounded_op(
        &mut self,
        rd: usize,
        rs1: usize,
        rs2: usize,
        funct7: u32,
        rounding: Rounding,
    ) -> (r: bool)
        requires
            rd < 32,
            rs1 < 32,
            rs2 < 32,
        ensures
            match old(self).rounded_op_spec(rd as int, rs1 as int, rs2 as int, funct7, rounding) {
                Some(hart) => r && *final(self) == hart,
                None => !r && *final(self) == *old(self),
            },
            old(self).wf() ==> final(self).wf(),
    {
        proof {
            reveal(HartState::rounded_op_spec);
        }
        if funct7 == 0x00 || funct7 == 0x04 || funct7 == 0x08 || funct7 == 0x0c {
            let lhs: u32 = self.cpu.read_float32(rs1);
            let rhs: u32 = self.cpu.read_float32(rs2);
            let result = arith32(funct7 / 4, lhs, rhs, rounding);
            self.finish_float32_bits(rd, result);
        } else if funct7 == 0x01 || funct7 == 0x05 || funct7 == 0x09 || funct7 == 0x0d {
            let lhs: u64 = self.cpu.read_float64(rs1);
            let rhs: u64 = self.cpu.read_float64(rs2);
            let result = arith64(funct7 / 4, lhs, rhs, rounding);
            self.finish_float64_bits(rd, result);
        } else if funct7 == 0x2c && rs2 == 0 {
            let result = softfloat::root32(self.cpu.read_float32(rs1), rounding);
            self.finish_float32_bits(rd, result);
        } else if funct7 == 0x2d && rs2 == 0 {
            let result = softfloat::root64(self.cpu.read_float64(rs1), rounding);
            self.finish_float64_bits(rd, result);
        } else if funct7 == 0x20 && rs2 == 1 {
            let result = softfloat::narrow(self.cpu.read_float64(rs1), rounding);
            self.finish_float32_bits(rd, result);
        } else if funct7 == 0x21 && rs2 == 0 {
            let result = softfloat::widen(self.cpu.read_float32(rs1), rounding);
            self.finish_float64_bits(rd, result);
        } else if funct7 == 0x60 && rs2 <= 3 {
            let (value, status) = float_to_integer32(
                self.cpu.read_float32(rs1),
                rs2,
                rounding,
            );
            self.cpu.write(rd, value);
            self.csrs.accrue_float_flags(float_status_flags(status));
        } else if funct7 == 0x61 && rs2 <= 3 {
            let (value, status) = float_to_integer64(
                self.cpu.read_float64(rs1),
                rs2,
                rounding,
            );
            self.cpu.write(rd, value);
            self.csrs.accrue_float_flags(float_status_flags(status));
        } else if funct7 == 0x68 && rs2 <= 3 {
            let result = integer_to_float32(self.cpu.read(rs1), rs2, rounding);
            self.finish_float32_bits(rd, result);
        } else if funct7 == 0x69 && rs2 <= 3 {
            let result = integer_to_float64(self.cpu.read(rs1), rs2, rounding);
            self.finish_float64_bits(rd, result);
        } else {
            return false;
        }
        true
    }

    /// Sign injection, selection, comparison, classification and moves: the
    /// operations whose third function field is an operation, not a rounding mode.
    #[verifier::opaque]
    pub open spec fn exact_op_spec(
        self,
        rd: int,
        rs1: int,
        rs2: int,
        funct3: u32,
        funct7: u32,
    ) -> Option<HartState> {
        let a32 = self.cpu.get_f32(rs1);
        let b32 = self.cpu.get_f32(rs2);
        let a64 = self.cpu.get_f64(rs1);
        let b64 = self.cpu.get_f64(rs2);
        if funct7 == 0x10 && funct3 <= 2 {
            Some(self.write_f32(rd, inject32_spec(a32, b32, funct3)).dirty_float())
        } else if funct7 == 0x11 && funct3 <= 2 {
            Some(self.write_f64(rd, inject64_spec(a64, b64, funct3)).dirty_float())
        } else if funct7 == 0x14 && funct3 <= 1 {
            Some(
                self.noted(is_signaling32(a32) || is_signaling32(b32)).write_f32(
                    rd,
                    select32_spec(a32, b32, funct3 == 1),
                ).dirty_float(),
            )
        } else if funct7 == 0x15 && funct3 <= 1 {
            Some(
                self.noted(is_signaling64(a64) || is_signaling64(b64)).write_f64(
                    rd,
                    select64_spec(a64, b64, funct3 == 1),
                ).dirty_float(),
            )
        } else if funct7 == 0x50 && funct3 <= 2 {
            let (result, flags) = compare32_spec(a32, b32, funct3);
            let written = self.write_register(rd, crate::alu::flag(result));
            Some(HartState { csrs: written.csrs.with_float_flags(flags), ..written })
        } else if funct7 == 0x51 && funct3 <= 2 {
            let (result, flags) = compare64_spec(a64, b64, funct3);
            let written = self.write_register(rd, crate::alu::flag(result));
            Some(HartState { csrs: written.csrs.with_float_flags(flags), ..written })
        } else if funct7 == 0x70 && rs2 == 0 && funct3 == 0 {
            Some(
                self.write_register(rd, isa::sext(a64 & 0xffff_ffff, 32)).dirty_float(),
            )
        } else if funct7 == 0x71 && rs2 == 0 && funct3 == 0 {
            Some(self.write_register(rd, a64).dirty_float())
        } else if funct7 == 0x70 && rs2 == 0 && funct3 == 1 {
            Some(self.write_register(rd, class32_spec(a32) as u64).dirty_float())
        } else if funct7 == 0x71 && rs2 == 0 && funct3 == 1 {
            Some(self.write_register(rd, class64_spec(a64) as u64).dirty_float())
        } else if funct7 == 0x78 && rs2 == 0 && funct3 == 0 {
            Some(self.write_f32(rd, self.cpu.get(rs1) as u32).dirty_float())
        } else if funct7 == 0x79 && rs2 == 0 && funct3 == 0 {
            Some(self.write_f64(rd, self.cpu.get(rs1)).dirty_float())
        } else {
            None
        }
    }

    fn note_invalid(&mut self, signaling: bool)
        ensures
            *final(self) == old(self).noted(signaling),
    {
        if signaling {
            self.csrs.accrue_float_flags(FFLAGS_NV);
        }
    }

    fn exact_op(&mut self, rd: usize, rs1: usize, rs2: usize, funct3: u32, funct7: u32) -> (r: bool)
        requires
            rd < 32,
            rs1 < 32,
            rs2 < 32,
        ensures
            match old(self).exact_op_spec(rd as int, rs1 as int, rs2 as int, funct3, funct7) {
                Some(hart) => r && *final(self) == hart,
                None => !r && *final(self) == *old(self),
            },
            old(self).wf() ==> final(self).wf(),
    {
        proof {
            reveal(HartState::exact_op_spec);
        }
        let a32: u32 = self.cpu.read_float32(rs1);
        let b32: u32 = self.cpu.read_float32(rs2);
        let a64: u64 = self.cpu.read_float64(rs1);
        let b64: u64 = self.cpu.read_float64(rs2);
        if funct7 == 0x10 && funct3 <= 2 {
            self.cpu.write_float32(rd, float_sign_injection32(a32, b32, funct3));
            self.csrs.mark_float_dirty();
        } else if funct7 == 0x11 && funct3 <= 2 {
            self.cpu.write_float64(rd, float_sign_injection64(a64, b64, funct3));
            self.csrs.mark_float_dirty();
        } else if funct7 == 0x14 && funct3 <= 1 {
            self.note_invalid(float_is_signaling_nan32(a32) || float_is_signaling_nan32(b32));
            self.cpu.write_float32(rd, float_select32(a32, b32, funct3 == 1));
            self.csrs.mark_float_dirty();
        } else if funct7 == 0x15 && funct3 <= 1 {
            self.note_invalid(float_is_signaling_nan64(a64) || float_is_signaling_nan64(b64));
            self.cpu.write_float64(rd, float_select64(a64, b64, funct3 == 1));
            self.csrs.mark_float_dirty();
        } else if funct7 == 0x50 && funct3 <= 2 {
            let (result, flags) = float_compare32(a32, b32, funct3);
            self.cpu.write(rd, crate::alu::bit(result));
            self.csrs.accrue_float_flags(flags);
        } else if funct7 == 0x51 && funct3 <= 2 {
            let (result, flags) = float_compare64(a64, b64, funct3);
            self.cpu.write(rd, crate::alu::bit(result));
            self.csrs.accrue_float_flags(flags);
        } else if funct7 == 0x70 && rs2 == 0 && funct3 == 0 {
            self.cpu.write(rd, sign_extend(a64 & 0xffff_ffff, 32));
            self.csrs.mark_float_dirty();
        } else if funct7 == 0x71 && rs2 == 0 && funct3 == 0 {
            self.cpu.write(rd, a64);
            self.csrs.mark_float_dirty();
        } else if funct7 == 0x70 && rs2 == 0 && funct3 == 1 {
            self.cpu.write(rd, float_class32(a32) as u64);
            self.csrs.mark_float_dirty();
        } else if funct7 == 0x71 && rs2 == 0 && funct3 == 1 {
            self.cpu.write(rd, float_class64(a64) as u64);
            self.csrs.mark_float_dirty();
        } else if funct7 == 0x78 && rs2 == 0 && funct3 == 0 {
            let value: u64 = self.cpu.read(rs1);
            self.cpu.write_float32(rd, value as u32);
            self.csrs.mark_float_dirty();
        } else if funct7 == 0x79 && rs2 == 0 && funct3 == 0 {
            let value: u64 = self.cpu.read(rs1);
            self.cpu.write_float64(rd, value);
            self.csrs.mark_float_dirty();
        } else {
            return false;
        }
        true
    }

    /// Whether an operation takes its third function field as a rounding mode.
    pub open spec fn rounds(funct7: u32, rs2: int) -> bool {
        ||| funct7 == 0x00 || funct7 == 0x04 || funct7 == 0x08 || funct7 == 0x0c
        ||| funct7 == 0x01 || funct7 == 0x05 || funct7 == 0x09 || funct7 == 0x0d
        ||| (funct7 == 0x2c || funct7 == 0x2d) && rs2 == 0
        ||| funct7 == 0x20 && rs2 == 1
        ||| funct7 == 0x21 && rs2 == 0
        ||| (funct7 == 0x60 || funct7 == 0x61 || funct7 == 0x68 || funct7 == 0x69) && rs2 <= 3
    }

    /// A floating-point operation between registers.
    #[verifier::opaque]
    pub open spec fn float_op_spec(
        self,
        instruction: u32,
        rd: int,
        rs1: int,
        rs2: int,
        funct3: u32,
        funct7: u32,
        pc: u64,
    ) -> (HartState, Result<(), MachineTrap>) {
        let refused = (self, Err(isa::illegal_spec(pc, instruction)));
        if !self.csrs.floating_enabled_spec() {
            refused
        } else if HartState::rounds(funct7, rs2) {
            match rounding_spec(self.csrs.fcsr, funct3) {
                None => refused,
                Some(rounding) => match self.rounded_op_spec(rd, rs1, rs2, funct7, rounding) {
                    Some(hart) => (hart, Ok(())),
                    None => refused,
                },
            }
        } else {
            match self.exact_op_spec(rd, rs1, rs2, funct3, funct7) {
                Some(hart) => (hart, Ok(())),
                None => refused,
            }
        }
    }

    pub fn execute_float_op(
        &mut self,
        instruction: u32,
        rd: usize,
        rs1: usize,
        rs2: usize,
        funct3: u32,
        funct7: u32,
        pc: u64,
    ) -> (r: Result<(), MachineTrap>)
        requires
            rd < 32,
            rs1 < 32,
            rs2 < 32,
        ensures
            (*final(self), r) == old(self).float_op_spec(
                instruction,
                rd as int,
                rs1 as int,
                rs2 as int,
                funct3,
                funct7,
                pc,
            ),
            old(self).wf() ==> final(self).wf(),
            float_outcome(*old(self), *final(self), r, instruction, pc),
    {
        proof {
            float_operations_only_accrue(
                *self,
                instruction,
                rd as int,
                rs1 as int,
                rs2 as int,
                funct3,
                funct7,
                pc,
            );
            reveal(HartState::float_op_spec);
        }
        if !self.csrs.floating_enabled() {
            return Err(illegal(pc, instruction));
        }
        let rounds: bool = match funct7 {
            0x00 | 0x04 | 0x08 | 0x0c | 0x01 | 0x05 | 0x09 | 0x0d => true,
            0x2c | 0x2d | 0x21 => rs2 == 0,
            0x20 => rs2 == 1,
            0x60 | 0x61 | 0x68 | 0x69 => rs2 <= 3,
            _ => false,
        };
        let admitted: bool = if rounds {
            match float_rounding(self.csrs.fcsr, funct3) {
                Some(rounding) => self.rounded_op(rd, rs1, rs2, funct7, rounding),
                None => false,
            }
        } else {
            self.exact_op(rd, rs1, rs2, funct3, funct7)
        };
        if admitted {
            Ok(())
        } else {
            Err(illegal(pc, instruction))
        }
    }
}

// What an operation leaves of the control registers.

/// The floating-point state is dirty, no accrued flag is lost, the rounding
/// mode stands, and no other control register changes.
pub open spec fn accrued(before: CsrFile, after: CsrFile) -> bool {
    &&& after.mstatus & MSTATUS_FS == MSTATUS_FS_DIRTY
    &&& before.fcsr & FFLAGS_MASK & after.fcsr == before.fcsr & FFLAGS_MASK
    &&& after.fcsr & FRM_MASK == before.fcsr & FRM_MASK
    &&& after == CsrFile { fcsr: after.fcsr, ..before }.float_dirty()
}

/// A floating-point instruction either accrues flags or is illegal and leaves
/// the hart as it was; it is illegal while the floating-point state is off.
pub open spec fn float_outcome(
    before: HartState,
    after: HartState,
    r: Result<(), MachineTrap>,
    instruction: u32,
    pc: u64,
) -> bool {
    &&& !before.csrs.floating_enabled_spec() ==> r is Err
    &&& match r {
        Ok(_) => accrued(before.csrs, after.csrs),
        Err(trap) => trap == isa::illegal_spec(pc, instruction) && after == before,
    }
}

proof fn lemma_accrual_bits(fcsr: u8, flags: u8, status: u64)
    by (bit_vector)
    ensures
        fcsr & FFLAGS_MASK & (fcsr | (flags & FFLAGS_MASK)) == fcsr & FFLAGS_MASK,
        fcsr & FFLAGS_MASK & fcsr == fcsr & FFLAGS_MASK,
        (fcsr | (flags & FFLAGS_MASK)) & FRM_MASK == fcsr & FRM_MASK,
        ((status & !MSTATUS_FS) | MSTATUS_FS_DIRTY) & MSTATUS_FS == MSTATUS_FS_DIRTY,
        (((status & !MSTATUS_FS) | MSTATUS_FS_DIRTY) & !MSTATUS_FS) | MSTATUS_FS_DIRTY == (status
            & !MSTATUS_FS) | MSTATUS_FS_DIRTY,
{
}

proof fn lemma_accrues(csrs: CsrFile)
    ensures
        forall|flags: u8| accrued(csrs, #[trigger] csrs.with_float_flags(flags)),
        accrued(csrs, csrs.float_dirty()),
        accrued(csrs, csrs.with_float_flags(FFLAGS_NV).float_dirty()),
{
    assert forall|flags: u8| accrued(csrs, #[trigger] csrs.with_float_flags(flags)) by {
        lemma_accrual_bits(csrs.fcsr, flags, csrs.mstatus);
    }
    lemma_accrual_bits(csrs.fcsr, FFLAGS_NV, csrs.mstatus);
}

/// An operation between registers accrues flags, dirties the floating-point
/// state and keeps the rounding mode, or is illegal and changes nothing. While
/// the state is off it is illegal.
pub proof fn float_operations_only_accrue(
    hart: HartState,
    instruction: u32,
    rd: int,
    rs1: int,
    rs2: int,
    funct3: u32,
    funct7: u32,
    pc: u64,
)
    ensures
        ({
            let (after, r) = hart.float_op_spec(instruction, rd, rs1, rs2, funct3, funct7, pc);
            float_outcome(hart, after, r, instruction, pc)
        }),
{
    reveal(HartState::float_op_spec);
    lemma_accrues(hart.csrs);
    assert(hart.exact_op_spec(rd, rs1, rs2, funct3, funct7) matches Some(after) ==> accrued(
        hart.csrs,
        after.csrs,
    )) by {
        reveal(HartState::exact_op_spec);
    }
    if let Some(rounding) = rounding_spec(hart.csrs.fcsr, funct3) {
        assert(hart.rounded_op_spec(rd, rs1, rs2, funct7, rounding) matches Some(after) ==> accrued(
            hart.csrs,
            after.csrs,
        )) by {
            reveal(HartState::rounded_op_spec);
        }
    }
}

/// The same of a fused multiplication and addition.
pub proof fn fused_operations_only_accrue(
    hart: HartState,
    instruction: u32,
    opcode: u32,
    pc: u64,
)
    ensures
        ({
            let (after, r) = hart.fused_spec(instruction, opcode, pc);
            float_outcome(hart, after, r, instruction, pc)
        }),
{
    lemma_accrues(hart.csrs);
}

} // verus!
