//! What the integer instructions compute, as arithmetic on the numbers that the
//! registers hold.

use crate::alu;
use crate::bits;
use crate::isa;
use vstd::prelude::*;

verus! {

/// The number that 64 bits stand for in two's complement.
pub open spec fn signed(x: u64) -> int {
    if x < 0x8000_0000_0000_0000 {
        x as int
    } else {
        x - 0x1_0000_0000_0000_0000
    }
}

/// The number that 32 bits stand for in two's complement.
pub open spec fn signed_word(x: u32) -> int {
    if x < 0x8000_0000 {
        x as int
    } else {
        x - 0x1_0000_0000
    }
}

/// The 64 bits that stand for a number, up to multiples of two to the 64.
pub open spec fn wrapped(x: int) -> u64 {
    (x % 0x1_0000_0000_0000_0000) as u64
}

/// Whether bit `i` is set.
pub open spec fn bit(x: u64, i: u64) -> bool {
    (x >> i) & 1 == 1
}

pub open spec fn word_bit(x: u32, i: u32) -> bool {
    (x >> i) & 1 == 1
}

pub open spec fn size(x: int) -> int {
    if x < 0 {
        -x
    } else {
        x
    }
}

/// `q` times the divisor comes as near to the dividend as it can without
/// passing it, from the side of zero.
pub open spec fn quotient(dividend: int, divisor: int, q: int) -> bool {
    &&& size(divisor * q) <= size(dividend)
    &&& size(dividend) - size(divisor * q) < size(divisor)
    &&& divisor * q == 0 || (divisor * q < 0) == (dividend < 0)
}

/// What is left of the dividend once a multiple of the divisor is taken off; it
/// is smaller than the divisor and has the sign of the dividend.
pub open spec fn remainder(dividend: int, divisor: int, rest: int) -> bool {
    &&& size(rest) < size(divisor)
    &&& rest == 0 || (rest < 0) == (dividend < 0)
    &&& exists|q: int| dividend == #[trigger] (divisor * q) + rest
}

/// Reading 64 bits as a number and writing it back.
pub proof fn lemma_signed(x: u64)
    ensures
        (x as i64) as int == signed(x),
        wrapped(signed(x)) == x,
        (x as u32) == x % 0x1_0000_0000,
        x & 0x3f == x % 64,
        x & 1 == x % 2,
        x & 3 == x % 4,
        x & !1u64 == x - x % 2,
        x & !3u64 == x - x % 4,
        x & 0xfff == x % 4096,
{
    bits::lemma_readings(x, 0, 0, 0);
    bits::lemma_masks(x);
}

pub proof fn lemma_signed_back(i: i64)
    ensures
        signed(i as u64) == i,
{
    bits::lemma_readings(0, i, 0, 0);
}

pub proof fn lemma_signed_word(w: u32)
    ensures
        (w as i32) as int == signed_word(w),
        w & 0x1f == w % 32,
{
    bits::lemma_readings(0, 0, w, 0);
    bits::lemma_word_masks(w);
}

pub proof fn lemma_signed_word_back(j: i32)
    ensures
        signed_word(j as u32) == j,
{
    bits::lemma_readings(0, 0, 0, j);
}

/// The number that the low `bits` bits stand for, where `full` is two to the
/// `bits`.
pub open spec fn short(v: u64, full: u64) -> int {
    if v % full < full / 2 {
        (v % full) as int
    } else {
        v % full - full
    }
}

/// Sign extension keeps the number.
pub proof fn lemma_extended(v: u64, bits: u32, full: u64)
    requires
        bits == 6 && full == 0x40 || bits == 9 && full == 0x200 || bits == 10 && full == 0x400
            || bits == 8 && full == 0x100 || bits == 12 && full == 0x1000 || bits == 13 && full == 0x2000
            || bits == 16 && full == 0x1_0000 || bits == 21 && full == 0x20_0000 || bits == 32
            && full == 0x1_0000_0000,
    ensures
        signed(isa::sext(v, bits)) == short(v, full),
        isa::sext(v, bits) == wrapped(short(v, full)),
{
    bits::lemma_extension(v);
}

/// A word that is extended to 64 bits stands for the same number.
pub proof fn lemma_word_extended(w: u32)
    ensures
        signed(isa::sext(w as u64, 32)) == signed_word(w),
        isa::sext(w as u64, 32) == wrapped(signed_word(w)),
{
    lemma_extended(w as u64, 32, 0x1_0000_0000);
}

// Division.

proof fn lemma_division(x: int, d: int)
    requires
        x >= 0,
        d > 0,
    ensures
        x == d * (x / d) + x % d,
        0 <= x % d < d,
        0 <= d * (x / d) <= x,
        0 <= x / d <= x,
{
    vstd::arithmetic::div_mod::lemma_fundamental_div_mod(x, d);
    vstd::arithmetic::div_mod::lemma_mod_bound(x, d);
    vstd::arithmetic::div_mod::lemma_div_pos_is_pos(x, d);
    assert(0 <= d * (x / d)) by (nonlinear_arith)
        requires
            d > 0,
            x / d >= 0,
    ;
    assert(x / d <= d * (x / d)) by (nonlinear_arith)
        requires
            d > 0,
            x / d >= 0,
    ;
}

/// Quotient and remainder toward zero, for a divisor other than zero.
spec fn toward_zero(x: int, d: int) -> (int, int) {
    if x == 0 {
        (0, 0)
    } else if x > 0 && d > 0 {
        (x / d, x % d)
    } else if x < 0 && d < 0 {
        ((x * -1) / (d * -1), ((x * -1) % (d * -1)) * -1)
    } else if x < 0 {
        (((x * -1) / d) * -1, ((x * -1) % d) * -1)
    } else {
        ((x / (d * -1)) * -1, x % (d * -1))
    }
}

proof fn lemma_toward_zero(x: int, d: int)
    requires
        d != 0,
    ensures
        ({
            let (q, rest) = toward_zero(x, d);
            &&& quotient(x, d, q)
            &&& remainder(x, d, rest)
            &&& x == d * q + rest
            &&& size(q) <= size(x)
            &&& size(rest) <= size(x)
        }),
{
    let n = size(x);
    let m = size(d);
    let (q, rest) = toward_zero(x, d);
    lemma_division(n, m);
    let k = n / m;
    assert(d * q == m * k || d * q == -(m * k)) by (nonlinear_arith)
        requires
            m == d || m == -d,
            q == k || q == -k,
    ;
    if x > 0 && d > 0 {
        assert(d * q == m * k);
    } else if x < 0 && d < 0 {
        assert(q == k && d == -m);
        assert(d * q == -(m * k)) by (nonlinear_arith)
            requires
                q == k,
                d == -m,
        ;
    } else if x < 0 {
        assert(q == -k && d == m);
        assert(d * q == -(m * k)) by (nonlinear_arith)
            requires
                q == -k,
                d == m,
        ;
    } else if x > 0 {
        assert(q == -k && d == -m);
        assert(d * q == m * k) by (nonlinear_arith)
            requires
                q == -k,
                d == -m,
        ;
    } else {
        assert(d * q == 0);
    }
    assert(x == d * q + rest);
}

/// Division rounds toward zero; by zero it gives all ones, and the one quotient
/// that does not fit is the dividend.
pub proof fn division_rounds_toward_zero(a: u64, b: u64)
    ensures
        b == 0 ==> alu::div_signed(a, b) == u64::MAX && alu::rem_signed(a, b) == a,
        b != 0 && !(a == 0x8000_0000_0000_0000 && b == u64::MAX) ==> quotient(
            signed(a),
            signed(b),
            signed(alu::div_signed(a, b)),
        ),
        a == 0x8000_0000_0000_0000 && b == u64::MAX ==> alu::div_signed(a, b) == a,
        b != 0 ==> remainder(signed(a), signed(b), signed(alu::rem_signed(a, b))),
        b != 0 ==> wrapped(
            signed(b) * signed(alu::div_signed(a, b)) + signed(alu::rem_signed(a, b)),
        ) == a,
{
    lemma_signed(a);
    lemma_signed(b);
    lemma_signed_back(a as i64);
    if b != 0 {
        let x = signed(a);
        let d = signed(b);
        lemma_toward_zero(x, d);
        let (q, rest) = toward_zero(x, d);
        if a == 0x8000_0000_0000_0000 && b == u64::MAX {
            assert(q == 0x8000_0000_0000_0000);
            assert(x == d * q + rest);
            assert(rest == 0);
            assert(signed(0) == 0);
            assert(alu::rem_signed(a, b) == 0);
            assert(d * signed(alu::div_signed(a, b)) == 0x8000_0000_0000_0000) by (nonlinear_arith)
                requires
                    d == -1,
                    signed(alu::div_signed(a, b)) == -0x8000_0000_0000_0000,
            ;
        } else {
            assert(-0x8000_0000_0000_0000 <= q <= 0x7fff_ffff_ffff_ffff) by {
                if q == 0x8000_0000_0000_0000 {
                    assert(x == -0x8000_0000_0000_0000 || x == 0x8000_0000_0000_0000);
                    assert(d == -1) by (nonlinear_arith)
                        requires
                            q == 0x8000_0000_0000_0000,
                            x == d * q + rest,
                            x == -0x8000_0000_0000_0000,
                            size(d * q) <= 0x8000_0000_0000_0000,
                            d * q <= 0,
                            d != 0,
                    ;
                }
            }
            lemma_signed_back(q as i64);
            lemma_signed_back(rest as i64);
            assert(signed(alu::div_signed(a, b)) == q);
            assert(signed(alu::rem_signed(a, b)) == rest);
        }
    }
}

/// The same of words.
pub proof fn word_division_rounds_toward_zero(a: u32, b: u32)
    ensures
        b == 0 ==> alu::div_signed_32(a, b) == u32::MAX && alu::rem_signed_32(a, b) == a,
        b != 0 && !(a == 0x8000_0000 && b == u32::MAX) ==> quotient(
            signed_word(a),
            signed_word(b),
            signed_word(alu::div_signed_32(a, b)),
        ),
        a == 0x8000_0000 && b == u32::MAX ==> alu::div_signed_32(a, b) == a,
        b != 0 ==> remainder(
            signed_word(a),
            signed_word(b),
            signed_word(alu::rem_signed_32(a, b)),
        ),
{
    lemma_signed_word(a);
    lemma_signed_word(b);
    lemma_signed_word_back(a as i32);
    if b != 0 {
        let x = signed_word(a);
        let d = signed_word(b);
        lemma_toward_zero(x, d);
        let (q, rest) = toward_zero(x, d);
        if a == 0x8000_0000 && b == u32::MAX {
            assert(q == 0x8000_0000);
            assert(rest == 0);
            assert(signed_word(0) == 0);
            assert(alu::rem_signed_32(a, b) == 0);
        } else {
            assert(-0x8000_0000 <= q <= 0x7fff_ffff) by {
                if q == 0x8000_0000 {
                    assert(x == -0x8000_0000 || x == 0x8000_0000);
                    assert(d == -1) by (nonlinear_arith)
                        requires
                            q == 0x8000_0000,
                            x == d * q + rest,
                            x == -0x8000_0000,
                            size(d * q) <= 0x8000_0000,
                            d * q <= 0,
                            d != 0,
                    ;
                }
            }
            lemma_signed_word_back(q as i32);
            lemma_signed_word_back(rest as i32);
        }
    }
}

/// Quotients are unique, so that what rounds toward zero is the quotient.
pub proof fn quotients_are_unique(dividend: int, divisor: int, p: int, q: int)
    requires
        divisor != 0,
        quotient(dividend, divisor, p),
        quotient(dividend, divisor, q),
    ensures
        p == q,
{
    assert(divisor * p - divisor * q == divisor * (p - q)) by (nonlinear_arith);
    assert(size(divisor * (p - q)) < size(divisor));
    assert(p == q) by (nonlinear_arith)
        requires
            size(divisor * (p - q)) < size(divisor),
            divisor != 0,
    ;
}

// Operations between registers.

/// The high half of a product is the number of times that two to the 64 goes
/// into it.
pub proof fn high_halves_divide_the_product(a: u64, b: u64)
    ensures
        ({
            let s = signed(a) * signed(b);
            let m = signed(a) * b;
            let u = a * b;
            &&& signed(alu::mul_high(signed(a), signed(b))) * 0x1_0000_0000_0000_0000 <= s < (signed(
                alu::mul_high(signed(a), signed(b)),
            ) + 1) * 0x1_0000_0000_0000_0000
            &&& signed(alu::mul_high(signed(a), b as int)) * 0x1_0000_0000_0000_0000 <= m < (signed(
                alu::mul_high(signed(a), b as int),
            ) + 1) * 0x1_0000_0000_0000_0000
            &&& alu::mul_high_unsigned(a, b) * 0x1_0000_0000_0000_0000 <= u < (
            alu::mul_high_unsigned(a, b) + 1) * 0x1_0000_0000_0000_0000
        }),
{
    let s = signed(a) * signed(b);
    let m = signed(a) * b;
    let u = a * b;
    alu::product_fits(signed(a), signed(b));
    alu::product_fits(signed(a), b as int);
    assert(0 <= a * b <= u128::MAX) by (nonlinear_arith)
        requires
            0 <= a <= u64::MAX,
            0 <= b <= u64::MAX,
    ;
    bits::lemma_halves(s as i128, u as u128);
    bits::lemma_halves(m as i128, u as u128);
}

/// What each operation between two registers leaves: sums, differences and
/// products up to multiples of two to the 64, quotients, remainders, high
/// halves, and orders of numbers with and without sign.
pub proof fn register_operations_compute(a: u64, b: u64)
    ensures
        alu::op_spec(0x00, 0, a, b) == Some(wrapped(a + b)),
        alu::op_spec(0x20, 0, a, b) matches Some(d) && wrapped(d + b) == a,
        alu::op_spec(0x01, 0, a, b) == Some(wrapped(a * b)),
        alu::op_spec(0x00, 2, a, b) == Some(
            if signed(a) < signed(b) {
                1u64
            } else {
                0u64
            },
        ),
        alu::op_spec(0x00, 3, a, b) == Some(
            if a < b {
                1u64
            } else {
                0u64
            },
        ),
        alu::op_spec(0x01, 1, a, b) matches Some(d) && signed(d) * 0x1_0000_0000_0000_0000
            <= signed(a) * signed(b) < (signed(d) + 1) * 0x1_0000_0000_0000_0000,
        alu::op_spec(0x01, 2, a, b) matches Some(d) && signed(d) * 0x1_0000_0000_0000_0000
            <= signed(a) * b < (signed(d) + 1) * 0x1_0000_0000_0000_0000,
        alu::op_spec(0x01, 3, a, b) matches Some(d) && d * 0x1_0000_0000_0000_0000 <= a * b < (d
            + 1) * 0x1_0000_0000_0000_0000,
        alu::op_spec(0x01, 4, a, b) matches Some(d) && (if b == 0 {
            d == u64::MAX
        } else if a == 0x8000_0000_0000_0000 && b == u64::MAX {
            d == a
        } else {
            quotient(signed(a), signed(b), signed(d))
        }),
        alu::op_spec(0x01, 5, a, b) matches Some(d) && (if b == 0 {
            d == u64::MAX
        } else {
            b * d <= a < b * (d + 1)
        }),
        alu::op_spec(0x01, 6, a, b) matches Some(d) && (if b == 0 {
            d == a
        } else {
            remainder(signed(a), signed(b), signed(d))
        }),
        alu::op_spec(0x01, 7, a, b) matches Some(d) && (if b == 0 {
            d == a
        } else {
            d < b && exists|q: int| a == #[trigger] (b * q) + d
        }),
{
    lemma_signed(a);
    lemma_signed(b);
    division_rounds_toward_zero(a, b);
    high_halves_divide_the_product(a, b);
    if b != 0 {
        lemma_division(a as int, b as int);
        let k = a as int / b as int;
        assert(b * (k + 1) == b * k + b) by (nonlinear_arith);
        assert(a == (b * k) + a % b);
    }
}

/// Shifts move each bit by the low six bits of the second operand; logic works
/// bit by bit.
pub proof fn register_operations_move_bits(a: u64, b: u64, i: u64)
    requires
        i < 64,
    ensures
        alu::op_spec(0x00, 1, a, b) matches Some(d) && bit(d, i) == (i >= b % 64 && bit(
            a,
            (i - b % 64) as u64,
        )),
        alu::op_spec(0x00, 5, a, b) matches Some(d) && bit(d, i) == (i + b % 64 < 64 && bit(
            a,
            (i + b % 64) as u64,
        )),
        alu::op_spec(0x20, 5, a, b) matches Some(d) && bit(d, i) == (if i + b % 64 < 64 {
            bit(a, (i + b % 64) as u64)
        } else {
            signed(a) < 0
        }),
        alu::op_spec(0x00, 4, a, b) matches Some(d) && bit(d, i) == (bit(a, i) != bit(b, i)),
        alu::op_spec(0x00, 6, a, b) matches Some(d) && bit(d, i) == (bit(a, i) || bit(b, i)),
        alu::op_spec(0x00, 7, a, b) matches Some(d) && bit(d, i) == (bit(a, i) && bit(b, i)),
{
    lemma_signed(b);
    let s = (b % 64) as u32;
    let below = (i - s) as u64;
    let above = if i + s < 64 {
        (i + s) as u64
    } else {
        63u64
    };
    bits::lemma_bits(a, b, s, i, below, above);
    bits::lemma_masks(a);
}

/// The encodings that stand for no operation between registers.
pub proof fn reserved_operations_have_no_result(funct7: u32, funct3: u32, a: u64, b: u64)
    requires
        funct3 < 8,
    ensures
        alu::op_spec(funct7, funct3, a, b) is Some <==> funct7 == 0x00 || funct7 == 0x01 || funct7
            == 0x20 && (funct3 == 0 || funct3 == 5),
{
}

/// Operations on words work on the low 32 bits of the registers.
pub proof fn word_operations_compute(a: u32, b: u32)
    ensures
        alu::op_32_spec(0x00, 0, a, b) matches Some(d) && d == (a + b) % 0x1_0000_0000,
        alu::op_32_spec(0x20, 0, a, b) matches Some(d) && (d + b) % 0x1_0000_0000 == a,
        alu::op_32_spec(0x01, 0, a, b) matches Some(d) && d == (a * b) % 0x1_0000_0000,
        alu::op_32_spec(0x01, 4, a, b) matches Some(d) && (if b == 0 {
            d == u32::MAX
        } else if a == 0x8000_0000 && b == u32::MAX {
            d == a
        } else {
            quotient(signed_word(a), signed_word(b), signed_word(d))
        }),
        alu::op_32_spec(0x01, 5, a, b) matches Some(d) && (if b == 0 {
            d == u32::MAX
        } else {
            b * d <= a < b * (d + 1)
        }),
        alu::op_32_spec(0x01, 6, a, b) matches Some(d) && (if b == 0 {
            d == a
        } else {
            remainder(signed_word(a), signed_word(b), signed_word(d))
        }),
        alu::op_32_spec(0x01, 7, a, b) matches Some(d) && (if b == 0 {
            d == a
        } else {
            d < b && exists|q: int| a == #[trigger] (b * q) + d
        }),
{
    word_division_rounds_toward_zero(a, b);
    if b != 0 {
        lemma_division(a as int, b as int);
        let k = a as int / b as int;
        assert(b * (k + 1) == b * k + b) by (nonlinear_arith);
        assert(a == (b * k) + a % b);
    }
}

/// Shifts of words, bit by bit.
pub proof fn word_operations_move_bits(a: u32, b: u32, i: u32)
    requires
        i < 32,
    ensures
        alu::op_32_spec(0x00, 1, a, b) matches Some(d) && word_bit(d, i) == (i >= b % 32
            && word_bit(a, (i - b % 32) as u32)),
        alu::op_32_spec(0x00, 5, a, b) matches Some(d) && word_bit(d, i) == (i + b % 32 < 32
            && word_bit(a, (i + b % 32) as u32)),
        alu::op_32_spec(0x20, 5, a, b) matches Some(d) && word_bit(d, i) == (if i + b % 32 < 32 {
            word_bit(a, (i + b % 32) as u32)
        } else {
            signed_word(a) < 0
        }),
{
    lemma_signed_word(b);
    let s = b % 32;
    let below = (i - s) as u32;
    let above = if i + s < 32 {
        (i + s) as u32
    } else {
        31u32
    };
    bits::lemma_word_bits(a, b, s, i, below, above);
    bits::lemma_word_masks(a);
}

pub proof fn reserved_word_operations_have_no_result(funct7: u32, funct3: u32, a: u32, b: u32)
    requires
        funct3 < 8,
    ensures
        alu::op_32_spec(funct7, funct3, a, b) is Some <==> (funct7 == 0x00 && (funct3 == 0
            || funct3 == 1 || funct3 == 5)) || (funct7 == 0x20 && (funct3 == 0 || funct3 == 5)) || (
        funct7 == 0x01 && (funct3 == 0 || funct3 >= 4)),
{
}

// Operations with an immediate.

/// The number in the upper twelve bits of an instruction.
pub open spec fn upper_twelve(instruction: u32) -> int {
    let field = instruction as int / 0x10_0000;
    if field < 0x800 {
        field
    } else {
        field - 0x1000
    }
}

/// An operation with an immediate is the operation between a register and a
/// register that holds the immediate; a shift takes its distance from the low
/// six bits of the field, and says how in the six above.
pub proof fn immediates_stand_for_registers(instruction: u32, funct3: u32, a: u64)
    requires
        funct3 < 8,
    ensures
        ({
            let immediate = wrapped(upper_twelve(instruction));
            let distance = (instruction / 0x10_0000) % 64;
            let form = instruction / 0x400_0000;
            alu::op_imm_spec(instruction, funct3, a) == if funct3 == 1 {
                if form == 0 {
                    alu::op_spec(0x00, 1, a, distance as u64)
                } else {
                    None
                }
            } else if funct3 == 5 {
                if form == 0 {
                    alu::op_spec(0x00, 5, a, distance as u64)
                } else if form == 0x10 {
                    alu::op_spec(0x20, 5, a, distance as u64)
                } else {
                    None
                }
            } else {
                alu::op_spec(0x00, funct3, a, immediate)
            }
        }),
{
    bits::lemma_word_masks(instruction);
    bits::lemma_word_masks(instruction >> 20);
    lemma_extended((instruction >> 20) as u64, 12, 0x1000);
    let distance = (instruction / 0x10_0000) % 64;
    bits::lemma_masks(distance as u64);
}

/// The same of words, whose shifts take the low five bits.
pub proof fn word_immediates_stand_for_registers(instruction: u32, funct3: u32, a: u32)
    requires
        funct3 < 8,
    ensures
        ({
            let immediate = wrapped(upper_twelve(instruction)) as u32;
            let distance = (instruction / 0x10_0000) % 32;
            let form = instruction / 0x200_0000;
            alu::op_imm_32_spec(instruction, funct3, a) == if funct3 == 0 {
                alu::op_32_spec(0x00, 0, a, immediate)
            } else if (funct3 == 1 || funct3 == 5) && (form == 0x00 || form == 0x20) {
                alu::op_32_spec(form, funct3, a, distance)
            } else {
                None
            }
        }),
{
    bits::lemma_word_masks(instruction);
    bits::lemma_word_masks(instruction >> 20);
    lemma_extended((instruction >> 20) as u64, 12, 0x1000);
    bits::lemma_word_masks((instruction / 0x10_0000) % 32);
}

// Branches, loads and atomic operations.

/// The six conditions come in opposite pairs: equal, less with sign, less
/// without.
pub proof fn branches_compare(a: u64, b: u64, funct3: u32)
    ensures
        alu::branch_spec(0, a, b) == Some(a == b),
        alu::branch_spec(4, a, b) == Some(signed(a) < signed(b)),
        alu::branch_spec(6, a, b) == Some(a < b),
        alu::branch_spec(1, a, b)->Some_0 != alu::branch_spec(0, a, b)->Some_0,
        alu::branch_spec(5, a, b)->Some_0 != alu::branch_spec(4, a, b)->Some_0,
        alu::branch_spec(7, a, b)->Some_0 != alu::branch_spec(6, a, b)->Some_0,
        alu::branch_spec(funct3, a, b) is None <==> funct3 == 2 || funct3 == 3 || funct3 >= 8,
{
    lemma_signed(a);
    lemma_signed(b);
}

/// The two low bits of a load's function give its width, the third that it has
/// no sign; a load of all eight bytes has none to lose.
pub proof fn loads_extend_what_they_read(funct3: u32, value: u64)
    ensures
        alu::load_form_spec(funct3) is Some <==> funct3 < 7,
        funct3 < 7 ==> ({
            let (bytes, with_sign) = alu::load_form_spec(funct3)->Some_0;
            let full: int = if bytes == 1 {
                0x100
            } else if bytes == 2 {
                0x1_0000
            } else if bytes == 4 {
                0x1_0000_0000
            } else {
                0x1_0000_0000_0000_0000
            };
            &&& bytes == (if funct3 % 4 == 0 {
                1u8
            } else if funct3 % 4 == 1 {
                2u8
            } else if funct3 % 4 == 2 {
                4u8
            } else {
                8u8
            })
            &&& with_sign == (funct3 < 4)
            &&& value < full ==> if with_sign && value >= full / 2 {
                signed(alu::extend_spec(value, bytes, with_sign)) == value - full
            } else {
                alu::extend_spec(value, bytes, with_sign) == value
            }
        }),
        value < 0x1_0000_0000 ==> alu::width_extend_spec(value, 4) == alu::extend_spec(
            value,
            4,
            true,
        ),
        alu::width_extend_spec(value, 8) == value,
{
    bits::lemma_extension(value);
    bits::lemma_masks(value);
    lemma_signed(value);
}

/// Atomic operations: sums, replacements, logic, and the smaller and the larger
/// of two numbers with and without sign, at either width.
pub proof fn atomic_operations_compute(old: u64, b: u64)
    ensures
        alu::amo_spec(0x00, old, b, 8) == alu::op_spec(0x00, 0, old, b),
        alu::amo_spec(0x01, old, b, 8) == Some(b),
        alu::amo_spec(0x04, old, b, 8) == alu::op_spec(0x00, 4, old, b),
        alu::amo_spec(0x08, old, b, 8) == alu::op_spec(0x00, 6, old, b),
        alu::amo_spec(0x0c, old, b, 8) == alu::op_spec(0x00, 7, old, b),
        alu::amo_spec(0x10, old, b, 8) matches Some(d) && signed(d) <= signed(old) && signed(d)
            <= signed(b) && (d == old || d == b),
        alu::amo_spec(0x14, old, b, 8) matches Some(d) && signed(d) >= signed(old) && signed(d)
            >= signed(b) && (d == old || d == b),
        alu::amo_spec(0x18, old, b, 8) matches Some(d) && d <= old && d <= b && (d == old || d
            == b),
        alu::amo_spec(0x1c, old, b, 8) matches Some(d) && d >= old && d >= b && (d == old || d
            == b),
        ({
            let x = (old % 0x1_0000_0000) as u32;
            let y = (b % 0x1_0000_0000) as u32;
            &&& alu::amo_spec(0x00, old, b, 4) matches Some(d) && d == (x + y) % 0x1_0000_0000
            &&& alu::amo_spec(0x01, old, b, 4) == Some(y as u64)
            &&& alu::amo_spec(0x04, old, b, 4) matches Some(d) && (forall|i: u32|
                i < 32 ==> #[trigger] word_bit(d as u32, i) == (word_bit(x, i) != word_bit(y, i)))
            &&& alu::amo_spec(0x08, old, b, 4) matches Some(d) && (forall|i: u32|
                i < 32 ==> #[trigger] word_bit(d as u32, i) == (word_bit(x, i) || word_bit(y, i)))
            &&& alu::amo_spec(0x0c, old, b, 4) matches Some(d) && (forall|i: u32|
                i < 32 ==> #[trigger] word_bit(d as u32, i) == (word_bit(x, i) && word_bit(y, i)))
            &&& alu::amo_spec(0x10, old, b, 4) matches Some(d) && (d == x || d == y)
                && signed_word(d as u32) <= signed_word(x) && signed_word(d as u32) <= signed_word(
                y,
            )
            &&& alu::amo_spec(0x14, old, b, 4) matches Some(d) && (d == x || d == y)
                && signed_word(d as u32) >= signed_word(x) && signed_word(d as u32) >= signed_word(
                y,
            )
            &&& alu::amo_spec(0x18, old, b, 4) matches Some(d) && (d == x || d == y) && d <= x && d
                <= y
            &&& alu::amo_spec(0x1c, old, b, 4) matches Some(d) && (d == x || d == y) && d >= x && d
                >= y
        }),
{
    lemma_signed(old);
    lemma_signed(b);
    let x = (old % 0x1_0000_0000) as u32;
    let y = (b % 0x1_0000_0000) as u32;
    lemma_signed_word(x);
    lemma_signed_word(y);
    assert(old as u32 == x && b as u32 == y);
    assert forall|i: u32| i < 32 implies #[trigger] word_bit(x ^ y, i) == (word_bit(x, i)
        != word_bit(y, i)) by {
        bits::lemma_word_bits(x, y, 0, i, i, i);
    }
    assert forall|i: u32| i < 32 implies #[trigger] word_bit(x | y, i) == (word_bit(x, i)
        || word_bit(y, i)) by {
        bits::lemma_word_bits(x, y, 0, i, i, i);
    }
    assert forall|i: u32| i < 32 implies #[trigger] word_bit(x & y, i) == (word_bit(x, i)
        && word_bit(y, i)) by {
        bits::lemma_word_bits(x, y, 0, i, i, i);
    }
}

/// The operations that there are.
pub proof fn atomic_operations_are_nine(operation: u32, old: u64, b: u64, bytes: u8)
    ensures
        alu::amo_spec(operation, old, b, bytes) is Some <==> operation == 1 || operation % 4 == 0
            && operation < 0x20,
{
}

} // verus!
