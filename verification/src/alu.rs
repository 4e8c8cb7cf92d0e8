//! Integer, multiply/divide and read-modify-write arithmetic.

use crate::bits;
use crate::isa;
use crate::isa::{immediate_i, sign_extend};
use vstd::prelude::*;

verus! {

/// Quotient rounded toward zero; division by zero gives all ones and the one
/// overflowing quotient gives the dividend.
pub open spec fn div_signed(lhs: u64, rhs: u64) -> u64 {
    if rhs as i64 == 0 {
        u64::MAX
    } else {
        match (lhs as i64).checked_div(rhs as i64) {
            Some(quotient) => quotient as u64,
            None => lhs as i64 as u64,
        }
    }
}

/// Remainder with the sign of the dividend; a zero divisor gives the dividend.
pub open spec fn rem_signed(lhs: u64, rhs: u64) -> u64 {
    if rhs as i64 == 0 {
        lhs as i64 as u64
    } else {
        match (lhs as i64).checked_rem(rhs as i64) {
            Some(remainder) => remainder as u64,
            None => 0,
        }
    }
}

pub open spec fn div_signed_32(lhs: u32, rhs: u32) -> u32 {
    if rhs as i32 == 0 {
        u32::MAX
    } else {
        match (lhs as i32).checked_div(rhs as i32) {
            Some(quotient) => quotient as u32,
            None => lhs as i32 as u32,
        }
    }
}

pub open spec fn rem_signed_32(lhs: u32, rhs: u32) -> u32 {
    if rhs as i32 == 0 {
        lhs as i32 as u32
    } else {
        match (lhs as i32).checked_rem(rhs as i32) {
            Some(remainder) => remainder as u32,
            None => 0,
        }
    }
}

pub fn signed_divide(lhs: u64, rhs: u64) -> (r: u64)
    ensures
        r == div_signed(lhs, rhs),
{
    let dividend: i64 = lhs as i64;
    let divisor: i64 = rhs as i64;
    if divisor == 0 {
        return u64::MAX;
    }
    match dividend.checked_div(divisor) {
        Some(quotient) => quotient as u64,
        None => dividend as u64,
    }
}

pub fn signed_remainder(lhs: u64, rhs: u64) -> (r: u64)
    ensures
        r == rem_signed(lhs, rhs),
{
    let dividend: i64 = lhs as i64;
    let divisor: i64 = rhs as i64;
    if divisor == 0 {
        return dividend as u64;
    }
    match dividend.checked_rem(divisor) {
        Some(remainder) => remainder as u64,
        None => 0,
    }
}

pub fn signed_divide_32(lhs: u32, rhs: u32) -> (r: u32)
    ensures
        r == div_signed_32(lhs, rhs),
{
    let dividend: i32 = lhs as i32;
    let divisor: i32 = rhs as i32;
    if divisor == 0 {
        return u32::MAX;
    }
    match dividend.checked_div(divisor) {
        Some(quotient) => quotient as u32,
        None => dividend as u32,
    }
}

pub fn signed_remainder_32(lhs: u32, rhs: u32) -> (r: u32)
    ensures
        r == rem_signed_32(lhs, rhs),
{
    let dividend: i32 = lhs as i32;
    let divisor: i32 = rhs as i32;
    if divisor == 0 {
        return dividend as u32;
    }
    match dividend.checked_rem(divisor) {
        Some(remainder) => remainder as u32,
        None => 0,
    }
}

/// High half of the exact 128-bit product of two numbers.
pub open spec fn mul_high(lhs: int, rhs: int) -> u64 {
    (((lhs * rhs) as i128) >> 64) as u64
}

pub proof fn product_fits(lhs: int, rhs: int)
    requires
        -0x8000_0000_0000_0000 <= lhs < 0x8000_0000_0000_0000,
        -0x8000_0000_0000_0000 <= rhs < 0x1_0000_0000_0000_0000,
    ensures
        i128::MIN <= lhs * rhs <= i128::MAX,
{
    assert(-0x8000_0000_0000_0000_0000_0000_0000_0000 <= lhs * rhs
        <= 0x7fff_ffff_ffff_ffff_ffff_ffff_ffff_ffff) by (nonlinear_arith)
        requires
            -0x8000_0000_0000_0000 <= lhs < 0x8000_0000_0000_0000,
            -0x8000_0000_0000_0000 <= rhs < 0x1_0000_0000_0000_0000,
    ;
}

pub fn multiply_high_signed(lhs: u64, rhs: u64) -> (r: u64)
    ensures
        r == mul_high(lhs as i64 as int, rhs as i64 as int),
{
    let a: i64 = lhs as i64;
    let b: i64 = rhs as i64;
    proof {
        product_fits(a as int, b as int);
    }
    (((a as i128) * (b as i128)) >> 64) as u64
}

pub fn multiply_high_mixed(lhs: u64, rhs: u64) -> (r: u64)
    ensures
        r == mul_high(lhs as i64 as int, rhs as int),
{
    let a: i64 = lhs as i64;
    proof {
        product_fits(a as int, rhs as int);
    }
    (((a as i128) * (rhs as i128)) >> 64) as u64
}

/// High half of the exact product of two unsigned numbers.
pub open spec fn mul_high_unsigned(lhs: u64, rhs: u64) -> u64 {
    (((lhs * rhs) as u128) >> 64) as u64
}

pub fn multiply_high_unsigned(lhs: u64, rhs: u64) -> (r: u64)
    ensures
        r == mul_high_unsigned(lhs, rhs),
{
    assert(0 <= lhs * rhs <= u128::MAX) by (nonlinear_arith)
        requires
            0 <= lhs <= u64::MAX,
            0 <= rhs <= u64::MAX,
    ;
    (((lhs as u128) * (rhs as u128)) >> 64) as u64
}

pub open spec fn flag(b: bool) -> u64 {
    if b {
        1
    } else {
        0
    }
}

pub fn bit(b: bool) -> (r: u64)
    ensures
        r == flag(b),
{
    if b {
        1
    } else {
        0
    }
}

/// Result of a register-immediate operation; `None` for a reserved encoding.
pub open spec fn op_imm_spec(instruction: u32, funct3: u32, lhs: u64) -> Option<u64> {
    let immediate = isa::imm_i(instruction);
    let shift = (instruction >> 20) & 0x3f;
    if funct3 == 0 {
        Some(lhs.wrapping_add(immediate))
    } else if funct3 == 2 {
        Some(flag((lhs as i64) < (immediate as i64)))
    } else if funct3 == 3 {
        Some(flag(lhs < immediate))
    } else if funct3 == 4 {
        Some(lhs ^ immediate)
    } else if funct3 == 6 {
        Some(lhs | immediate)
    } else if funct3 == 7 {
        Some(lhs & immediate)
    } else if funct3 == 1 && instruction >> 26 == 0 {
        Some(lhs << shift)
    } else if funct3 == 5 && instruction >> 26 == 0 {
        Some(lhs >> shift)
    } else if funct3 == 5 && instruction >> 26 == 0x10 {
        Some(((lhs as i64) >> shift) as u64)
    } else {
        None
    }
}

pub fn op_imm(instruction: u32, funct3: u32, lhs: u64) -> (r: Option<u64>)
    ensures
        r == op_imm_spec(instruction, funct3, lhs),
{
    let immediate: u64 = immediate_i(instruction);
    let shift: u32 = (instruction >> 20) & 0x3f;
    proof {
        bits::lemma_word_masks(instruction >> 20);
    }
    let group: u32 = instruction >> 26;
    match funct3 {
        0 => Some(lhs.wrapping_add(immediate)),
        2 => Some(bit((lhs as i64) < (immediate as i64))),
        3 => Some(bit(lhs < immediate)),
        4 => Some(lhs ^ immediate),
        6 => Some(lhs | immediate),
        7 => Some(lhs & immediate),
        1 if group == 0 => Some(lhs << shift),
        5 if group == 0 => Some(lhs >> shift),
        5 if group == 0x10 => Some(((lhs as i64) >> shift) as u64),
        _ => None,
    }
}

/// Result of a word-sized register-immediate operation, before sign extension.
pub open spec fn op_imm_32_spec(instruction: u32, funct3: u32, lhs: u32) -> Option<u32> {
    let shift = (instruction >> 20) & 0x1f;
    if funct3 == 0 {
        Some(lhs.wrapping_add(isa::imm_i(instruction) as u32))
    } else if funct3 == 1 && instruction >> 25 == 0 {
        Some(lhs << shift)
    } else if funct3 == 5 && instruction >> 25 == 0 {
        Some(lhs >> shift)
    } else if funct3 == 5 && instruction >> 25 == 0x20 {
        Some(((lhs as i32) >> shift) as u32)
    } else {
        None
    }
}

pub fn op_imm_32(instruction: u32, funct3: u32, lhs: u32) -> (r: Option<u32>)
    ensures
        r == op_imm_32_spec(instruction, funct3, lhs),
{
    let shift: u32 = (instruction >> 20) & 0x1f;
    proof {
        bits::lemma_word_masks(instruction >> 20);
    }
    let group: u32 = instruction >> 25;
    match funct3 {
        0 => Some(lhs.wrapping_add(immediate_i(instruction) as u32)),
        1 if group == 0 => Some(lhs << shift),
        5 if group == 0 => Some(lhs >> shift),
        5 if group == 0x20 => Some(((lhs as i32) >> shift) as u32),
        _ => None,
    }
}

/// Result of a register-register operation; `None` for a reserved encoding.
pub open spec fn op_spec(funct7: u32, funct3: u32, lhs: u64, rhs: u64) -> Option<u64> {
    let shift = (rhs & 0x3f) as u32;
    if funct7 == 0x00 && funct3 == 0 {
        Some(lhs.wrapping_add(rhs))
    } else if funct7 == 0x20 && funct3 == 0 {
        Some(lhs.wrapping_sub(rhs))
    } else if funct7 == 0x00 && funct3 == 1 {
        Some(lhs << shift)
    } else if funct7 == 0x00 && funct3 == 2 {
        Some(flag((lhs as i64) < (rhs as i64)))
    } else if funct7 == 0x00 && funct3 == 3 {
        Some(flag(lhs < rhs))
    } else if funct7 == 0x00 && funct3 == 4 {
        Some(lhs ^ rhs)
    } else if funct7 == 0x00 && funct3 == 5 {
        Some(lhs >> shift)
    } else if funct7 == 0x20 && funct3 == 5 {
        Some(((lhs as i64) >> shift) as u64)
    } else if funct7 == 0x00 && funct3 == 6 {
        Some(lhs | rhs)
    } else if funct7 == 0x00 && funct3 == 7 {
        Some(lhs & rhs)
    } else if funct7 == 0x01 && funct3 == 0 {
        Some(lhs.wrapping_mul(rhs))
    } else if funct7 == 0x01 && funct3 == 1 {
        Some(mul_high(lhs as i64 as int, rhs as i64 as int))
    } else if funct7 == 0x01 && funct3 == 2 {
        Some(mul_high(lhs as i64 as int, rhs as int))
    } else if funct7 == 0x01 && funct3 == 3 {
        Some(mul_high_unsigned(lhs, rhs))
    } else if funct7 == 0x01 && funct3 == 4 {
        Some(div_signed(lhs, rhs))
    } else if funct7 == 0x01 && funct3 == 5 {
        Some(if rhs == 0 { u64::MAX } else { lhs / rhs })
    } else if funct7 == 0x01 && funct3 == 6 {
        Some(rem_signed(lhs, rhs))
    } else if funct7 == 0x01 && funct3 == 7 {
        Some(if rhs == 0 { lhs } else { lhs % rhs })
    } else {
        None
    }
}

pub fn op(funct7: u32, funct3: u32, lhs: u64, rhs: u64) -> (r: Option<u64>)
    ensures
        r == op_spec(funct7, funct3, lhs, rhs),
{
    let shift: u32 = (rhs & 0x3f) as u32;
    proof {
        bits::lemma_masks(rhs);
    }
    match (funct7, funct3) {
        (0x00, 0) => Some(lhs.wrapping_add(rhs)),
        (0x20, 0) => Some(lhs.wrapping_sub(rhs)),
        (0x00, 1) => Some(lhs << shift),
        (0x00, 2) => Some(bit((lhs as i64) < (rhs as i64))),
        (0x00, 3) => Some(bit(lhs < rhs)),
        (0x00, 4) => Some(lhs ^ rhs),
        (0x00, 5) => Some(lhs >> shift),
        (0x20, 5) => Some(((lhs as i64) >> shift) as u64),
        (0x00, 6) => Some(lhs | rhs),
        (0x00, 7) => Some(lhs & rhs),
        (0x01, 0) => Some(lhs.wrapping_mul(rhs)),
        (0x01, 1) => Some(multiply_high_signed(lhs, rhs)),
        (0x01, 2) => Some(multiply_high_mixed(lhs, rhs)),
        (0x01, 3) => Some(multiply_high_unsigned(lhs, rhs)),
        (0x01, 4) => Some(signed_divide(lhs, rhs)),
        (0x01, 5) => Some(if rhs == 0 { u64::MAX } else { lhs / rhs }),
        (0x01, 6) => Some(signed_remainder(lhs, rhs)),
        (0x01, 7) => Some(if rhs == 0 { lhs } else { lhs % rhs }),
        _ => None,
    }
}

/// Result of a word-sized register-register operation, before sign extension.
pub open spec fn op_32_spec(funct7: u32, funct3: u32, lhs: u32, rhs: u32) -> Option<u32> {
    let shift = rhs & 0x1f;
    if funct7 == 0x00 && funct3 == 0 {
        Some(lhs.wrapping_add(rhs))
    } else if funct7 == 0x20 && funct3 == 0 {
        Some(lhs.wrapping_sub(rhs))
    } else if funct7 == 0x00 && funct3 == 1 {
        Some(lhs << shift)
    } else if funct7 == 0x00 && funct3 == 5 {
        Some(lhs >> shift)
    } else if funct7 == 0x20 && funct3 == 5 {
        Some(((lhs as i32) >> shift) as u32)
    } else if funct7 == 0x01 && funct3 == 0 {
        Some(lhs.wrapping_mul(rhs))
    } else if funct7 == 0x01 && funct3 == 4 {
        Some(div_signed_32(lhs, rhs))
    } else if funct7 == 0x01 && funct3 == 5 {
        Some(if rhs == 0 { u32::MAX } else { lhs / rhs })
    } else if funct7 == 0x01 && funct3 == 6 {
        Some(rem_signed_32(lhs, rhs))
    } else if funct7 == 0x01 && funct3 == 7 {
        Some(if rhs == 0 { lhs } else { lhs % rhs })
    } else {
        None
    }
}

pub fn op_32(funct7: u32, funct3: u32, lhs: u32, rhs: u32) -> (r: Option<u32>)
    ensures
        r == op_32_spec(funct7, funct3, lhs, rhs),
{
    let shift: u32 = rhs & 0x1f;
    proof {
        bits::lemma_word_masks(rhs);
    }
    match (funct7, funct3) {
        (0x00, 0) => Some(lhs.wrapping_add(rhs)),
        (0x20, 0) => Some(lhs.wrapping_sub(rhs)),
        (0x00, 1) => Some(lhs << shift),
        (0x00, 5) => Some(lhs >> shift),
        (0x20, 5) => Some(((lhs as i32) >> shift) as u32),
        (0x01, 0) => Some(lhs.wrapping_mul(rhs)),
        (0x01, 4) => Some(signed_divide_32(lhs, rhs)),
        (0x01, 5) => Some(if rhs == 0 { u32::MAX } else { lhs / rhs }),
        (0x01, 6) => Some(signed_remainder_32(lhs, rhs)),
        (0x01, 7) => Some(if rhs == 0 { lhs } else { lhs % rhs }),
        _ => None,
    }
}

/// New memory value of an atomic memory operation; `None` for a reserved one.
pub open spec fn amo_spec(operation: u32, old: u64, rhs: u64, bytes: u8) -> Option<u64> {
    if bytes == 4 {
        let a = old as u32;
        let b = rhs as u32;
        if operation == 0x00 {
            Some(a.wrapping_add(b) as u64)
        } else if operation == 0x01 {
            Some(b as u64)
        } else if operation == 0x04 {
            Some((a ^ b) as u64)
        } else if operation == 0x08 {
            Some((a | b) as u64)
        } else if operation == 0x0c {
            Some((a & b) as u64)
        } else if operation == 0x10 {
            Some(if (b as i32) < (a as i32) { b as u64 } else { a as u64 })
        } else if operation == 0x14 {
            Some(if (b as i32) < (a as i32) { a as u64 } else { b as u64 })
        } else if operation == 0x18 {
            Some(if b < a { b as u64 } else { a as u64 })
        } else if operation == 0x1c {
            Some(if b < a { a as u64 } else { b as u64 })
        } else {
            None
        }
    } else {
        if operation == 0x00 {
            Some(old.wrapping_add(rhs))
        } else if operation == 0x01 {
            Some(rhs)
        } else if operation == 0x04 {
            Some(old ^ rhs)
        } else if operation == 0x08 {
            Some(old | rhs)
        } else if operation == 0x0c {
            Some(old & rhs)
        } else if operation == 0x10 {
            Some(if (rhs as i64) < (old as i64) { rhs } else { old })
        } else if operation == 0x14 {
            Some(if (rhs as i64) < (old as i64) { old } else { rhs })
        } else if operation == 0x18 {
            Some(if rhs < old { rhs } else { old })
        } else if operation == 0x1c {
            Some(if rhs < old { old } else { rhs })
        } else {
            None
        }
    }
}

pub fn atomic_result(operation: u32, old: u64, rhs: u64, bytes: u8) -> (r: Option<u64>)
    ensures
        r == amo_spec(operation, old, rhs, bytes),
{
    if bytes == 4 {
        let a: u32 = old as u32;
        let b: u32 = rhs as u32;
        match operation {
            0x00 => Some(a.wrapping_add(b) as u64),
            0x01 => Some(b as u64),
            0x04 => Some((a ^ b) as u64),
            0x08 => Some((a | b) as u64),
            0x0c => Some((a & b) as u64),
            0x10 => Some(if (b as i32) < (a as i32) { b as u64 } else { a as u64 }),
            0x14 => Some(if (b as i32) < (a as i32) { a as u64 } else { b as u64 }),
            0x18 => Some(if b < a { b as u64 } else { a as u64 }),
            0x1c => Some(if b < a { a as u64 } else { b as u64 }),
            _ => None,
        }
    } else {
        match operation {
            0x00 => Some(old.wrapping_add(rhs)),
            0x01 => Some(rhs),
            0x04 => Some(old ^ rhs),
            0x08 => Some(old | rhs),
            0x0c => Some(old & rhs),
            0x10 => Some(if (rhs as i64) < (old as i64) { rhs } else { old }),
            0x14 => Some(if (rhs as i64) < (old as i64) { old } else { rhs }),
            0x18 => Some(if rhs < old { rhs } else { old }),
            0x1c => Some(if rhs < old { old } else { rhs }),
            _ => None,
        }
    }
}

/// Whether an operation is reserved does not depend on its operands, so an
/// operation admitted once has a result for every memory value.
pub proof fn amo_admission_ignores_operands(
    operation: u32,
    old: u64,
    rhs: u64,
    other: u64,
    bytes: u8,
)
    ensures
        amo_spec(operation, old, rhs, bytes) is Some <==> amo_spec(operation, other, rhs, bytes)
            is Some,
{
}

/// Whether a conditional branch is taken; `None` for a reserved encoding.
pub open spec fn branch_spec(funct3: u32, lhs: u64, rhs: u64) -> Option<bool> {
    if funct3 == 0 {
        Some(lhs == rhs)
    } else if funct3 == 1 {
        Some(lhs != rhs)
    } else if funct3 == 4 {
        Some((lhs as i64) < (rhs as i64))
    } else if funct3 == 5 {
        Some((lhs as i64) >= (rhs as i64))
    } else if funct3 == 6 {
        Some(lhs < rhs)
    } else if funct3 == 7 {
        Some(lhs >= rhs)
    } else {
        None
    }
}

pub fn branch(funct3: u32, lhs: u64, rhs: u64) -> (r: Option<bool>)
    ensures
        r == branch_spec(funct3, lhs, rhs),
{
    match funct3 {
        0 => Some(lhs == rhs),
        1 => Some(lhs != rhs),
        4 => Some((lhs as i64) < (rhs as i64)),
        5 => Some((lhs as i64) >= (rhs as i64)),
        6 => Some(lhs < rhs),
        7 => Some(lhs >= rhs),
        _ => None,
    }
}

/// Width and sign treatment of a load; `None` for a reserved encoding.
pub open spec fn load_form_spec(funct3: u32) -> Option<(u8, bool)> {
    if funct3 == 0 {
        Some((1, true))
    } else if funct3 == 1 {
        Some((2, true))
    } else if funct3 == 2 {
        Some((4, true))
    } else if funct3 == 3 {
        Some((8, true))
    } else if funct3 == 4 {
        Some((1, false))
    } else if funct3 == 5 {
        Some((2, false))
    } else if funct3 == 6 {
        Some((4, false))
    } else {
        None
    }
}

pub fn load_form(funct3: u32) -> (r: Option<(u8, bool)>)
    ensures
        r == load_form_spec(funct3),
{
    match funct3 {
        0 => Some((1, true)),
        1 => Some((2, true)),
        2 => Some((4, true)),
        3 => Some((8, true)),
        4 => Some((1, false)),
        5 => Some((2, false)),
        6 => Some((4, false)),
        _ => None,
    }
}

/// A memory value of `bytes` bytes as a register value.
pub open spec fn extend_spec(value: u64, bytes: u8, signed: bool) -> u64 {
    if signed {
        isa::sext(value, (bytes * 8) as u32)
    } else {
        value
    }
}

pub fn extend(value: u64, bytes: u8, signed: bool) -> (r: u64)
    requires
        1 <= bytes <= 8,
    ensures
        r == extend_spec(value, bytes, signed),
{
    if signed {
        sign_extend(value, (bytes as u32) * 8)
    } else {
        value
    }
}

pub open spec fn width_extend_spec(value: u64, bytes: u8) -> u64 {
    if bytes == 4 {
        isa::sext(value, 32)
    } else {
        value
    }
}

/// Words are sign-extended; doublewords are kept.
pub fn width_extend(value: u64, bytes: u8) -> (r: u64)
    ensures
        r == width_extend_spec(value, bytes),
{
    if bytes == 4 {
        sign_extend(value, 32)
    } else {
        value
    }
}

} // verus!
