//! Facts about bits that arithmetic alone does not show.

use vstd::prelude::*;

verus! {

/// A masked value is no larger than its mask.
pub proof fn lemma_masked(a: u64, b: u64, c: u32, d: u32, e: u16, f: u16)
    by (bit_vector)
    ensures
        a & b <= b,
        c & d <= d,
        e & f <= f,
        (c & 7) & 3 == c & 3,
        e >> 13 <= 7,
{
}

/// Low bits are remainders.
pub proof fn lemma_masks(x: u64)
    by (bit_vector)
    ensures
        x & 0x3f == x % 64,
        x & 1 == x % 2,
        x & 3 == x % 4,
        x & 7 == x % 8,
        x & 0x1ff == x % 512,
        x & 0xfff == x % 4096,
        x & 0x3_ffff == x % 0x4_0000,
        x & 0xfff_ffff_ffff == x % 0x1000_0000_0000,
        x & 0xffff_ffff == x % 0x1_0000_0000,
        (x & !1u64) as int == x as int - (x % 2) as int,
        (x & !3u64) as int == x as int - (x % 4) as int,
        (x & !0xfffu64) as int == x as int - (x % 4096) as int,
        (x & !0x1ffu64) as int == x as int - (x % 512) as int,
        (x & !0x3_ffffu64) as int == x as int - (x % 0x4_0000) as int,
        x >> 12 == x / 0x1000,
        x >> 21 == x / 0x20_0000,
        x >> 30 == x / 0x4000_0000,
        x >> 38 == x / 0x40_0000_0000,
        x >> 39 == x / 0x80_0000_0000,
        x >> 10 == x / 0x400,
        x >> 60 == x / 0x1000_0000_0000_0000,
        (x >> 63u64) & 1 == 1 ==> x >= 0x8000_0000_0000_0000,
        x >= 0x8000_0000_0000_0000 ==> (x >> 63u64) & 1 == 1,
        (((x << 0u32) as i64) >> 0u32) as u64 == x,
{
}

pub proof fn lemma_word_masks(w: u32)
    by (bit_vector)
    ensures
        w & 0x1f == w % 32,
        w & 0x3f == w % 64,
        w & 3 == w % 4,
        w & 7 == w % 8,
        w < 8 ==> (w & 4 == 0 <==> w < 4),
        0x8u32 & !0x8u32 == 0,
        0x8u32 & 0x8u32 == 0x8,
        w & 0x80 == 0 <==> (w / 0x80) % 2 == 0,
        w & 0x200 == 0 <==> (w / 0x200) % 2 == 0,
        w & !0x200u32 == 0 <==> w == 0 || w == 0x200,
        w & 0x7f == w % 128,
        w >> 7 == w / 0x80,
        w >> 12 == w / 0x1000,
        w >> 15 == w / 0x8000,
        w >> 20 == w / 0x10_0000,
        w >> 25 == w / 0x200_0000,
        w >> 26 == w / 0x400_0000,
        w >> 27 == w / 0x800_0000,
        (w >> 25) & 0x7f == w >> 25,
        (w >> 31u32) & 1 == 1 ==> w >= 0x8000_0000,
        w >= 0x8000_0000 ==> (w >> 31u32) & 1 == 1,
{
}

/// Two's-complement readings, and the low and the extended word.
pub proof fn lemma_readings(x: u64, i: i64, w: u32, j: i32)
    by (bit_vector)
    ensures
        x < 0x8000_0000_0000_0000 ==> (x as i64) as int == x as int,
        x >= 0x8000_0000_0000_0000 ==> (x as i64) as int == x as int - 0x1_0000_0000_0000_0000,
        i >= 0 ==> (i as u64) as int == i as int,
        i < 0 ==> (i as u64) as int == i as int + 0x1_0000_0000_0000_0000,
        w < 0x8000_0000 ==> (w as i32) as int == w as int,
        w >= 0x8000_0000 ==> (w as i32) as int == w as int - 0x1_0000_0000,
        j >= 0 ==> (j as u32) as int == j as int,
        j < 0 ==> (j as u32) as int == j as int + 0x1_0000_0000,
        (x as u32) as u64 == x & 0xffff_ffff,
{
}

/// Values of a few bits, extended to 64 by their sign.
pub proof fn lemma_extension(v: u64)
    by (bit_vector)
    ensures
        v & 0x3f < 0x20 ==> ((((v << 58u32) as i64) >> 58u32) as u64) == v & 0x3f,
        v & 0x3f >= 0x20 ==> ((((v << 58u32) as i64) >> 58u32) as u64) as int == (v
            & 0x3f) as int + 0xffffffffffffffc0,
        v & 0x3f == v % 0x40,
        v & 0x1ff < 0x100 ==> ((((v << 55u32) as i64) >> 55u32) as u64) == v & 0x1ff,
        v & 0x1ff >= 0x100 ==> ((((v << 55u32) as i64) >> 55u32) as u64) as int == (v
            & 0x1ff) as int + 0xfffffffffffffe00,
        v & 0x1ff == v % 0x200,
        v & 0x3ff < 0x200 ==> ((((v << 54u32) as i64) >> 54u32) as u64) == v & 0x3ff,
        v & 0x3ff >= 0x200 ==> ((((v << 54u32) as i64) >> 54u32) as u64) as int == (v
            & 0x3ff) as int + 0xfffffffffffffc00,
        v & 0x3ff == v % 0x400,
        v & 0xff < 0x80 ==> ((((v << 56u32) as i64) >> 56u32) as u64) == v & 0xff,
        v & 0xff >= 0x80 ==> ((((v << 56u32) as i64) >> 56u32) as u64) as int == (v
            & 0xff) as int + 0xffffffffffffff00,
        v & 0xff == v % 0x100,
        v & 0xfff < 0x800 ==> ((((v << 52u32) as i64) >> 52u32) as u64) == v & 0xfff,
        v & 0xfff >= 0x800 ==> ((((v << 52u32) as i64) >> 52u32) as u64) as int == (v
            & 0xfff) as int + 0xfffffffffffff000,
        v & 0xfff == v % 0x1000,
        v & 0x1fff < 0x1000 ==> ((((v << 51u32) as i64) >> 51u32) as u64) == v & 0x1fff,
        v & 0x1fff >= 0x1000 ==> ((((v << 51u32) as i64) >> 51u32) as u64) as int == (v
            & 0x1fff) as int + 0xffffffffffffe000,
        v & 0x1fff == v % 0x2000,
        v & 0xffff < 0x8000 ==> ((((v << 48u32) as i64) >> 48u32) as u64) == v & 0xffff,
        v & 0xffff >= 0x8000 ==> ((((v << 48u32) as i64) >> 48u32) as u64) as int == (v
            & 0xffff) as int + 0xffffffffffff0000,
        v & 0xffff == v % 0x10000,
        v & 0x1fffff < 0x100000 ==> ((((v << 43u32) as i64) >> 43u32) as u64) == v & 0x1fffff,
        v & 0x1fffff >= 0x100000 ==> ((((v << 43u32) as i64) >> 43u32) as u64) as int == (v
            & 0x1fffff) as int + 0xffffffffffe00000,
        v & 0x1fffff == v % 0x200000,
        v & 0xffffffff < 0x80000000 ==> ((((v << 32u32) as i64) >> 32u32) as u64) == v & 0xffffffff,
        v & 0xffffffff >= 0x80000000 ==> ((((v << 32u32) as i64) >> 32u32) as u64) as int == (v
            & 0xffffffff) as int + 0xffffffff00000000,
        v & 0xffffffff == v % 0x100000000,
{
}

/// Halves of a product.
pub proof fn lemma_halves(p: i128, q: u128)
    by (bit_vector)
    ensures
        p as int == (p >> 64) as int * 0x1_0000_0000_0000_0000 + (p
            & 0xffff_ffff_ffff_ffff) as int,
        (p & 0xffff_ffff_ffff_ffff) >= 0,
        (p & 0xffff_ffff_ffff_ffff) < 0x1_0000_0000_0000_0000,
        (p >> 64) >= -0x8000_0000_0000_0000,
        (p >> 64) < 0x8000_0000_0000_0000,
        (p >> 64) >= 0 ==> ((p >> 64) as u64) as int == (p >> 64) as int,
        (p >> 64) < 0 ==> ((p >> 64) as u64) as int == (p >> 64) as int + 0x1_0000_0000_0000_0000,
        q as int == (q >> 64) as int * 0x1_0000_0000_0000_0000 + (q
            & 0xffff_ffff_ffff_ffff) as int,
        (q & 0xffff_ffff_ffff_ffff) < 0x1_0000_0000_0000_0000,
        ((q >> 64) as u64) as int == (q >> 64) as int,
{
}

/// Shifts and logic bit by bit.
pub proof fn lemma_bits(a: u64, b: u64, s: u32, i: u64, below: u64, above: u64)
    by (bit_vector)
    requires
        s < 64,
        i < 64,
        i >= s ==> below == i - s,
        (i + s) < 64 ==> above == (i + s),
        (i + s) >= 64 ==> above == 63,
    ensures
        i >= s ==> ((a << s) >> i) & 1 == (a >> below) & 1,
        i < s ==> ((a << s) >> i) & 1 == 0,
        (i + s) < 64 ==> ((a >> s) >> i) & 1 == (a >> above) & 1,
        (i + s) >= 64 ==> ((a >> s) >> i) & 1 == 0,
        ((((a as i64) >> s) as u64) >> i) & 1 == (a >> above) & 1,
        (a >> i) & 1 != (b >> i) & 1 ==> ((a ^ b) >> i) & 1 == 1,
        (a >> i) & 1 == (b >> i) & 1 ==> ((a ^ b) >> i) & 1 == 0,
        (a >> i) & 1 == 1 || (b >> i) & 1 == 1 ==> ((a | b) >> i) & 1 == 1,
        (a >> i) & 1 == 0 && (b >> i) & 1 == 0 ==> ((a | b) >> i) & 1 == 0,
        (a >> i) & 1 == 1 && (b >> i) & 1 == 1 ==> ((a & b) >> i) & 1 == 1,
        (a >> i) & 1 == 0 || (b >> i) & 1 == 0 ==> ((a & b) >> i) & 1 == 0,
        (a >> i) & 1 == 0 || (a >> i) & 1 == 1,
        (b >> i) & 1 == 0 || (b >> i) & 1 == 1,
{
}

pub proof fn lemma_word_bits(a: u32, b: u32, s: u32, i: u32, below: u32, above: u32)
    by (bit_vector)
    requires
        s < 32,
        i < 32,
        i >= s ==> below == i - s,
        (i + s) < 32 ==> above == (i + s),
        (i + s) >= 32 ==> above == 31,
    ensures
        i >= s ==> ((a << s) >> i) & 1 == (a >> below) & 1,
        i < s ==> ((a << s) >> i) & 1 == 0,
        (i + s) < 32 ==> ((a >> s) >> i) & 1 == (a >> above) & 1,
        (i + s) >= 32 ==> ((a >> s) >> i) & 1 == 0,
        ((((a as i32) >> s) as u32) >> i) & 1 == (a >> above) & 1,
        (a >> i) & 1 != (b >> i) & 1 ==> ((a ^ b) >> i) & 1 == 1,
        (a >> i) & 1 == (b >> i) & 1 ==> ((a ^ b) >> i) & 1 == 0,
        (a >> i) & 1 == 1 || (b >> i) & 1 == 1 ==> ((a | b) >> i) & 1 == 1,
        (a >> i) & 1 == 0 && (b >> i) & 1 == 0 ==> ((a | b) >> i) & 1 == 0,
        (a >> i) & 1 == 1 && (b >> i) & 1 == 1 ==> ((a & b) >> i) & 1 == 1,
        (a >> i) & 1 == 0 || (b >> i) & 1 == 0 ==> ((a & b) >> i) & 1 == 0,
        (a >> i) & 1 == 0 || (a >> i) & 1 == 1,
        (b >> i) & 1 == 0 || (b >> i) & 1 == 1,
{
}

/// Five fields above an opcode.
pub open spec fn r_type(
    funct7: u32,
    rs2: u32,
    rs1: u32,
    funct3: u32,
    rd: u32,
    opcode: u32,
) -> u32 {
    (funct7 << 25u32) | (rs2 << 20u32) | (rs1 << 15u32) | (funct3 << 12u32) | (rd << 7u32) | opcode
}

/// Each field is found in its place.
pub proof fn lemma_r_type(funct7: u32, rs2: u32, rs1: u32, funct3: u32, rd: u32, opcode: u32)
    by (bit_vector)
    requires
        funct7 < 128,
        rs2 < 32,
        rs1 < 32,
        funct3 < 8,
        rd < 32,
        opcode < 128,
    ensures
        r_type(funct7, rs2, rs1, funct3, rd, opcode) & 0x7f == opcode,
        (r_type(funct7, rs2, rs1, funct3, rd, opcode) >> 7) & 0x1f == rd,
        (r_type(funct7, rs2, rs1, funct3, rd, opcode) >> 12) & 7 == funct3,
        (r_type(funct7, rs2, rs1, funct3, rd, opcode) >> 15) & 0x1f == rs1,
        (r_type(funct7, rs2, rs1, funct3, rd, opcode) >> 20) & 0x1f == rs2,
        r_type(funct7, rs2, rs1, funct3, rd, opcode) >> 25 == funct7,
        r_type(funct7, rs2, rs1, funct3, rd, opcode) >> 20 == (funct7 << 5u32) | rs2,
        r_type(funct7, rs2, rs1, funct3, rd, opcode) >> 26 == funct7 >> 1u32,
        r_type(funct7, rs2, rs1, funct3, rd, opcode) >> 27 == funct7 >> 2u32,
{
}

/// A number of twelve bits in two parts is put together again.
pub proof fn lemma_immediates(n: u32, o: u32, u: u32, j: u32)
    by (bit_vector)
    requires
        n < 4096,
        o < 8192,
        u < 0x10_0000,
        j < 0x20_0000,
        j % 2 == 0,
    ensures
        (n >> 5u32) < 128,
        (n & 0x1f) < 32,
        ((n >> 5u32) << 5u32) | (n & 0x1f) == n,
        (n & 0x1f) | ((n >> 5u32) << 5u32) == n,
        (n >> 5u32) >> 1u32 == n >> 6u32,
        n >> 6u32 == n / 64,
        n >> 5u32 == n / 32,
        ((o >> 6u32) & 0x40 | (o >> 5u32) & 0x3f) < 128,
        ((o & 0x1e) | (o >> 11u32) & 1) < 32,
        (u << 12u32) & 0xffff_f000 == u << 12u32,
        (u << 12u32) & 0xfff == 0,
        ((((j >> 20u32) & 1) << 31u32) | (((j >> 1u32) & 0x3ff) << 21u32) | (((j >> 11u32) & 1)
            << 20u32) | (((j >> 12u32) & 0xff) << 12u32)) & 0xfff == 0,
        (u << 12u32) == u * 4096,
        (((((((j >> 20u32) & 1) << 31u32) | (((j >> 1u32) & 0x3ff) << 21u32) | (((j >> 11u32) & 1)
            << 20u32) | (((j >> 12u32) & 0xff) << 12u32)) >> 21) & 0x03ff) << 1) | (((((((j
            >> 20u32) & 1) << 31u32) | (((j >> 1u32) & 0x3ff) << 21u32) | (((j >> 11u32) & 1)
            << 20u32) | (((j >> 12u32) & 0xff) << 12u32)) >> 20) & 1) << 11) | (((((((j >> 20u32)
            & 1) << 31u32) | (((j >> 1u32) & 0x3ff) << 21u32) | (((j >> 11u32) & 1) << 20u32) | (((j
            >> 12u32) & 0xff) << 12u32)) >> 12) & 0xff) << 12) | (((((((j >> 20u32) & 1) << 31u32)
            | (((j >> 1u32) & 0x3ff) << 21u32) | (((j >> 11u32) & 1) << 20u32) | (((j >> 12u32)
            & 0xff) << 12u32)) >> 31) & 1) << 20) == j,
{
}

/// The four parts of a branch offset are put together again.
pub proof fn lemma_branch(o: u32, rs2: u32, rs1: u32, funct3: u32, opcode: u32)
    by (bit_vector)
    requires
        o < 8192,
        o % 2 == 0,
        rs2 < 32,
        rs1 < 32,
        funct3 < 8,
        opcode < 128,
    ensures
        (((r_type(
            (o >> 6u32) & 0x40 | (o >> 5u32) & 0x3f,
            rs2,
            rs1,
            funct3,
            (o & 0x1e) | (o >> 11u32) & 1,
            opcode,
        ) >> 8) & 0x0f) << 1) | (((r_type(
            (o >> 6u32) & 0x40 | (o >> 5u32) & 0x3f,
            rs2,
            rs1,
            funct3,
            (o & 0x1e) | (o >> 11u32) & 1,
            opcode,
        ) >> 25) & 0x3f) << 5) | (((r_type(
            (o >> 6u32) & 0x40 | (o >> 5u32) & 0x3f,
            rs2,
            rs1,
            funct3,
            (o & 0x1e) | (o >> 11u32) & 1,
            opcode,
        ) >> 7) & 1) << 11) | (((r_type(
            (o >> 6u32) & 0x40 | (o >> 5u32) & 0x3f,
            rs2,
            rs1,
            funct3,
            (o & 0x1e) | (o >> 11u32) & 1,
            opcode,
        ) >> 31) & 1) << 12) == o,
{
}

/// What stands in the low bits of an instruction does not reach its immediate.
pub proof fn lemma_low_fields(h: u32, rd: u32, opcode: u32)
    by (bit_vector)
    requires
        h & 0xfff == 0,
        rd < 32,
        opcode < 128,
    ensures
        (h | (rd << 7u32) | opcode) & 0x7f == opcode,
        ((h | (rd << 7u32) | opcode) >> 7) & 0x1f == rd,
        (h | (rd << 7u32) | opcode) & 0xffff_f000 == h,
        (h | (rd << 7u32) | opcode) >> 12 == h >> 12,
        (h | (rd << 7u32) | opcode) >> 20 == h >> 20,
        (h | (rd << 7u32) | opcode) >> 21 == h >> 21,
        (h | (rd << 7u32) | opcode) >> 31 == h >> 31,
{
}

/// Setting, clearing and testing one bit, and a field of two bits at eleven.
pub proof fn lemma_bit_updates(p: u64, k: u64, i: u64, c: u64)
    by (bit_vector)
    requires
        k < 64,
        i < 64,
        c < 4,
    ensures
        i == k ==> ((p | (1u64 << k)) >> i) & 1 == 1,
        i != k ==> ((p | (1u64 << k)) >> i) & 1 == (p >> i) & 1,
        i == k ==> ((p & !(1u64 << k)) >> i) & 1 == 0,
        i != k ==> ((p & !(1u64 << k)) >> i) & 1 == (p >> i) & 1,
        p & (1u64 << k) == 0 ==> (p >> k) & 1 == 0,
        p & (1u64 << k) != 0 ==> (p >> k) & 1 == 1,
        (p >> i) & 1 == 0 || (p >> i) & 1 == 1,
        i == 11 ==> (((p & !0x1800u64) | (c << 11u32)) >> i) & 1 == c & 1,
        i == 12 ==> (((p & !0x1800u64) | (c << 11u32)) >> i) & 1 == c >> 1u64,
        i != 11 && i != 12 ==> (((p & !0x1800u64) | (c << 11u32)) >> i) & 1 == (p >> i) & 1,
        i == 11 || i == 12 ==> ((p & !0x1800u64) >> i) & 1 == 0,
        i != 11 && i != 12 ==> ((p & !0x1800u64) >> i) & 1 == (p >> i) & 1,
        (p & 0x1800) >> 11u32 == ((p >> 11u64) & 1) + 2 * ((p >> 12u64) & 1),
        c == 0 ==> c & 1 == 0 && c >> 1u64 == 0,
        c == 1 ==> c & 1 == 1 && c >> 1u64 == 0,
        c == 3 ==> c & 1 == 1 && c >> 1u64 == 1,
        1u64 << 1u64 == 0x2,
        1u64 << 3u64 == 0x8,
        1u64 << 5u64 == 0x20,
        1u64 << 7u64 == 0x80,
        1u64 << 8u64 == 0x100,
        1u64 << 9u64 == 0x200,
        1u64 << 11u64 == 0x800,
        1u64 << 17u64 == 0x2_0000,
{
}

/// The pending bits of software and timers, replaced.
pub proof fn lemma_pending(p: u64, i: u64)
    by (bit_vector)
    requires
        i < 64,
    ensures
        0x8u64 | 0x80u64 == 0x88u64,
        0x8u64 | 0x20u64 == 0x28u64,
        0x88u64 | 0x20u64 == 0xa8u64,
        0x8u64 | 0u64 == 0x8u64,
        0u64 | 0x80u64 == 0x80u64,
        0u64 | 0x20u64 == 0x20u64,
        0u64 | 0u64 == 0u64,
        i == 3 ==> (((p & !0x88u64) | 0x0) >> i) & 1 == 0,
        i == 7 ==> (((p & !0x88u64) | 0x0) >> i) & 1 == 0,
        i != 3 && i != 7 ==> (((p & !0x88u64) | 0x0) >> i) & 1 == (p >> i) & 1,
        i == 3 ==> (((p & !0x88u64) | 0x8) >> i) & 1 == 1,
        i == 7 ==> (((p & !0x88u64) | 0x8) >> i) & 1 == 0,
        i != 3 && i != 7 ==> (((p & !0x88u64) | 0x8) >> i) & 1 == (p >> i) & 1,
        i == 3 ==> (((p & !0x88u64) | 0x80) >> i) & 1 == 0,
        i == 7 ==> (((p & !0x88u64) | 0x80) >> i) & 1 == 1,
        i != 3 && i != 7 ==> (((p & !0x88u64) | 0x80) >> i) & 1 == (p >> i) & 1,
        i == 3 ==> (((p & !0x88u64) | 0x88) >> i) & 1 == 1,
        i == 7 ==> (((p & !0x88u64) | 0x88) >> i) & 1 == 1,
        i != 3 && i != 7 ==> (((p & !0x88u64) | 0x88) >> i) & 1 == (p >> i) & 1,
        i == 3 ==> (((p & !0xa8u64) | 0x0) >> i) & 1 == 0,
        i == 5 ==> (((p & !0xa8u64) | 0x0) >> i) & 1 == 0,
        i == 7 ==> (((p & !0xa8u64) | 0x0) >> i) & 1 == 0,
        i != 3 && i != 5 && i != 7 ==> (((p & !0xa8u64) | 0x0) >> i) & 1 == (p >> i) & 1,
        i == 3 ==> (((p & !0xa8u64) | 0x8) >> i) & 1 == 1,
        i == 5 ==> (((p & !0xa8u64) | 0x8) >> i) & 1 == 0,
        i == 7 ==> (((p & !0xa8u64) | 0x8) >> i) & 1 == 0,
        i != 3 && i != 5 && i != 7 ==> (((p & !0xa8u64) | 0x8) >> i) & 1 == (p >> i) & 1,
        i == 3 ==> (((p & !0xa8u64) | 0x20) >> i) & 1 == 0,
        i == 5 ==> (((p & !0xa8u64) | 0x20) >> i) & 1 == 1,
        i == 7 ==> (((p & !0xa8u64) | 0x20) >> i) & 1 == 0,
        i != 3 && i != 5 && i != 7 ==> (((p & !0xa8u64) | 0x20) >> i) & 1 == (p >> i) & 1,
        i == 3 ==> (((p & !0xa8u64) | 0x28) >> i) & 1 == 1,
        i == 5 ==> (((p & !0xa8u64) | 0x28) >> i) & 1 == 1,
        i == 7 ==> (((p & !0xa8u64) | 0x28) >> i) & 1 == 0,
        i != 3 && i != 5 && i != 7 ==> (((p & !0xa8u64) | 0x28) >> i) & 1 == (p >> i) & 1,
{
}

/// Physical addresses through leaves of the three sizes, and the two bits that
/// an access leaves in one.
pub proof fn lemma_leaf(pte: u64, a: u64, i: u64)
    by (bit_vector)
    requires
        i < 64,
    ensures
        ((pte >> 10) & 0xfff_ffff_ffff) == (pte / 0x400) % 0x1000_0000_0000,
        ((((pte >> 10) & 0xfff_ffff_ffff) << 12u32) | (a & 0xfff)) == ((pte / 0x400)
            % 0x1000_0000_0000) * 0x1000 + a % 0x1000,
        ((pte >> 10) & 0xfff_ffff_ffff) & 0x1ff == 0 ==> (((((pte >> 10) & 0xfff_ffff_ffff)
            & !0x1ffu64) | ((a >> 12) & 0x1ff)) << 12u32) | (a & 0xfff) == ((pte / 0x400)
            % 0x1000_0000_0000) * 0x1000 + a % 0x20_0000,
        ((pte >> 10) & 0xfff_ffff_ffff) & 0x3_ffff == 0 ==> (((((((pte >> 10) & 0xfff_ffff_ffff)
            & !0x1ffu64) | ((a >> 12) & 0x1ff)) & !0x3_ffffu64) | (((a >> 21) & 0x1ff) << 9) | ((a
            >> 12) & 0x1ff)) << 12u32) | (a & 0xfff) == ((pte / 0x400) % 0x1000_0000_0000) * 0x1000
            + a % 0x4000_0000,
        ((pte >> 10) & 0xfff_ffff_ffff) << 12u32 == ((pte / 0x400) % 0x1000_0000_0000) * 0x1000,
        i == 6 ==> ((pte | 0x40) >> i) & 1 == 1,
        i != 6 ==> ((pte | 0x40) >> i) & 1 == (pte >> i) & 1,
        i == 6 || i == 7 ==> ((pte | 0xc0) >> i) & 1 == 1,
        i != 6 && i != 7 ==> ((pte | 0xc0) >> i) & 1 == (pte >> i) & 1,
        0x40u64 | 0x80u64 == 0xc0u64,
        0x2u64 | 0x8u64 == 0xau64,
        pte & 0x40 == 0x40 ==> (pte >> 6u64) & 1 == 1,
        pte & 0xc0 == 0xc0 ==> (pte >> 6u64) & 1 == 1 && (pte >> 7u64) & 1 == 1,
        pte & 0xa == 0 ==> (pte >> 1u64) & 1 == 0 && (pte >> 3u64) & 1 == 0,
        pte & 0xa != 0 ==> (pte >> 1u64) & 1 == 1 || (pte >> 3u64) & 1 == 1,
        pte & 0x1 == 0 ==> (pte >> 0u64) & 1 == 0,
        pte & 0x1 != 0 ==> (pte >> 0u64) & 1 == 1,
        pte & 0x2 == 0 ==> (pte >> 1u64) & 1 == 0,
        pte & 0x2 != 0 ==> (pte >> 1u64) & 1 == 1,
        pte & 0x4 == 0 ==> (pte >> 2u64) & 1 == 0,
        pte & 0x4 != 0 ==> (pte >> 2u64) & 1 == 1,
        pte & 0x8 == 0 ==> (pte >> 3u64) & 1 == 0,
        pte & 0x8 != 0 ==> (pte >> 3u64) & 1 == 1,
        pte & 0x10 == 0 ==> (pte >> 4u64) & 1 == 0,
        pte & 0x10 != 0 ==> (pte >> 4u64) & 1 == 1,
        a & 0x4_0000 == 0 ==> (a >> 18u64) & 1 == 0,
        a & 0x4_0000 != 0 ==> (a >> 18u64) & 1 == 1,
        a & 0x8_0000 == 0 ==> (a >> 19u64) & 1 == 0,
        a & 0x8_0000 != 0 ==> (a >> 19u64) & 1 == 1,
        pte & 0xffc0_0000_0000_0000 == 0 ==> pte < 0x40_0000_0000_0000,
        pte & 0xffc0_0000_0000_0000 != 0 ==> pte >= 0x40_0000_0000_0000,
        ((pte & !0xfffu64) | (a & 0xfff)) as int == pte as int - (pte % 4096) as int + (a
            % 4096) as int,
        (pte & 0xfff_ffff_ffff) << 12u32 == (pte % 0x1000_0000_0000) * 0x1000,
{
}

/// The bits of the registers that hold flags.
pub proof fn lemma_status_bits(p: u64, i: u64)
    by (bit_vector)
    requires
        i < 64,
    ensures
        0u64 | p == p,
        p < 0x8000 ==> p << 12 == p * 0x1000,
        p >= 0xffff_ffff_ffff_8000 ==> (p << 12) as int == p as int * 0x1000
            - 0xfff * 0x1_0000_0000_0000_0000,
        p | 0u64 == p,
        0x8000_0000_0000_0000u64 | i == 0x8000_0000_0000_0000u64 + i,
        (p >> i) & 1 == 1 ==> ((!p) >> i) & 1 == 0,
        (p >> i) & 1 == 0 ==> ((!p) >> i) & 1 == 1,
        (p >> i) & 1 == 0 || (p >> i) & 1 == 1,
        (0xe_79aau64 >> i) & 1 == 1 <==> (i == 1 || i == 3 || i == 5 || i == 7 || i == 8 || i == 11
            || i == 12 || i == 13 || i == 14 || i == 17 || i == 18 || i == 19),
        (0xc_6122u64 >> i) & 1 == 1 <==> (i == 1 || i == 5 || i == 8 || i == 13 || i == 14 || i
            == 18 || i == 19),
        (0x8000_0002_000c_6122u64 >> i) & 1 == 1 <==> (i == 1 || i == 5 || i == 8 || i == 13 || i
            == 14 || i == 18 || i == 19 || i == 33 || i == 63),
        (0x1800u64 >> i) & 1 == 1 <==> (i == 11 || i == 12),
        (0x2u64 >> i) & 1 == 1 <==> i == 1,
        (0x20u64 >> i) & 1 == 1 <==> i == 5,
        (0x2_0000_0000u64 >> i) & 1 == 1 <==> i == 33,
        (0x8_0000_0000u64 >> i) & 1 == 1 <==> i == 35,
        (0x8000_0000_0000_0000u64 >> i) & 1 == 1 <==> i == 63,
        (0xaaau64 >> i) & 1 == 1 <==> (i == 1 || i == 3 || i == 5 || i == 7 || i == 9 || i == 11),
        (0x222u64 >> i) & 1 == 1 <==> (i == 1 || i == 5 || i == 9),
        (0xb3ffu64 >> i) & 1 == 1 <==> (i < 10 || i == 12 || i == 13 || i == 15),
        (p & 0xe_79aa) & 0x1800 == 0x1000 <==> ((p >> 12u64) & 1 == 1 && (p >> 11u64) & 1 == 0),
        p & 0x6000 == 0x6000 <==> ((p >> 13u64) & 1 == 1 && (p >> 14u64) & 1 == 1),
        p & 0x6000 == 0 <==> ((p >> 13u64) & 1 == 0 && (p >> 14u64) & 1 == 0),
        (p >> 13u64) & 1 == 0 || (p >> 13u64) & 1 == 1,
        (p >> 14u64) & 1 == 0 || (p >> 14u64) & 1 == 1,
        (p >> 12u64) & 1 == 0 || (p >> 12u64) & 1 == 1,
        (p >> 11u64) & 1 == 0 || (p >> 11u64) & 1 == 1,
        (((p & !0x6000u64) | 0x6000) >> 13u64) & 1 == 1,
        (((p & !0x6000u64) | 0x6000) >> 14u64) & 1 == 1,
        p >> 60u32 == 0 || p >> 60u32 == 8 ==> ((p >> 60u32) << 60u32) | (p
            & 0x0fff_f000_0000_0000) | (p & 0x0fff_ffff_ffff) == p,
        p >> 60u32 == p / 0x1000_0000_0000_0000,
        p & 1 == 0 <==> (p >> 0u64) & 1 == 0,
        p & 2 == 0 <==> (p >> 1u64) & 1 == 0,
        p & 4 == 0 <==> (p >> 2u64) & 1 == 0,
        (p >> 0u64) & 1 == 0 || (p >> 0u64) & 1 == 1,
        (p >> 1u64) & 1 == 0 || (p >> 1u64) & 1 == 1,
        (p >> 2u64) & 1 == 0 || (p >> 2u64) & 1 == 1,
{
}

/// Five flags below three bits of rounding.
pub proof fn lemma_float_fields(c: u8, v: u8)
    by (bit_vector)
    ensures
        c == ((c & 0xe0) >> 5u32) * 32 + (c & 0x1f),
        ((c & !0x1fu8) | (v & 0x1f)) & 0x1f == v % 32,
        (((c & !0x1fu8) | (v & 0x1f)) & 0xe0) >> 5u32 == (c & 0xe0) >> 5u32,
        (((c & !0xe0u8) | ((v << 5u32) & 0xe0)) & 0xe0) >> 5u32 == v % 8,
        ((c & !0xe0u8) | ((v << 5u32) & 0xe0)) & 0x1f == c & 0x1f,
        v & 0xff == v,
{
}

/// The low byte of a number.
pub proof fn lemma_low_byte(x: u64)
    by (bit_vector)
    ensures
        (x as u8) as u64 == x % 256,
        x < 0x1_0000_0000 ==> 0xffff_ffff_0000_0000u64 | x == 0xffff_ffff_0000_0000u64 + x,
        0x60u64 | 0x01u64 == 0x61,
{
}

/// Two numbers in the halves of a word.
pub proof fn lemma_status_code(a: u32, b: u32)
    by (bit_vector)
    requires
        a < 0x1_0000,
        b < 0x1_0000,
    ensures
        (a << 16) | b == a * 0x1_0000 + b,
        b | (a << 16) == a * 0x1_0000 + b,
        ((a << 16) | b) >> 16 == a,
        ((a << 16) | b) & 0xffff == b,
        0x0010_0073u32 & 0x7f == 0x73 && (0x0010_0073u32 >> 12) & 7 == 0,
        0x1050_0073u32 & 0x7f == 0x73 && (0x1050_0073u32 >> 12) & 7 == 0,
        0x1020_0073u32 & 0x7f == 0x73 && (0x1020_0073u32 >> 12) & 7 == 0,
        0x3020_0073u32 & 0x7f == 0x73 && (0x3020_0073u32 >> 12) & 7 == 0,
        0x1200_0073u32 & 0x7f == 0x73 && (0x1200_0073u32 >> 12) & 7 == 0,
        0x1200_0073u32 & 0xfe00_7fff == 0x1200_0073,
        0x1050_0073u32 & 0xfe00_7fff != 0x1200_0073,
        0x1020_0073u32 & 0xfe00_7fff != 0x1200_0073,
        0x3020_0073u32 & 0xfe00_7fff != 0x1200_0073,
        b >> 2u32 == b / 4,
{
}

/// Fields of a sixteen-bit instruction.
pub proof fn lemma_half_fields(w: u16)
    by (bit_vector)
    ensures
        w & 3 == w % 4,
        w >> 13 == w / 0x2000,
        (w >> 7) & 0x1f == (w / 0x80) % 32,
        (w >> 2) & 0x1f == (w / 4) % 32,
        (w >> 7) & 0x7 == (w / 0x80) % 8,
        (w >> 2) & 0x7 == (w / 4) % 8,
        (w >> 12) & 1 == (w / 0x1000) % 2,
        (w >> 5) & 3 == (w / 0x20) % 4,
        (w >> 10) & 3 == (w / 0x400) % 4,
        (w >> 8) & 3 == (w / 0x100) % 4,
        ((w >> 2) & 0x1f) | (((w >> 12) & 1) << 5) == (w / 4) % 32 + 32 * ((w / 0x1000) % 2),
        ((w >> 2) & 0x1f) | (((w >> 12) & 1) << 5) < 64,
{
}

/// Numbers that are scattered over sixteen bits.
pub proof fn lemma_half_immediates(x: u64)
    by (bit_vector)
    requires
        x < 0x1_0000,
    ensures
        (((x >> 2) & 0x1f) | ((x >> 12) << 5)) % 64 == (x / 4) % 32 + 32 * ((x / 0x1000) % 2),
        (((x >> 7) & 0xf) << 6) | (((x >> 11) & 0x3) << 4) | (((x >> 5) & 0x1) << 3) | (((x >> 6) &
            0x1) << 2) == 4 * ((x / 0x40) % 2) + 8 * ((x / 0x20) % 2) + 16 * ((x / 0x800) % 2) + 32
            * ((x / 0x1000) % 2) + 64 * ((x / 0x80) % 2) + 128 * ((x / 0x100) % 2) + 256 * ((x /
            0x200) % 2) + 512 * ((x / 0x400) % 2),
        (((x >> 10) & 0x7) << 3) | (((x >> 6) & 0x1) << 2) | (((x >> 5) & 0x1) << 6) == 4 * ((x /
            0x40) % 2) + 8 * ((x / 0x400) % 2) + 16 * ((x / 0x800) % 2) + 32 * ((x / 0x1000) % 2) +
            64 * ((x / 0x20) % 2),
        (((x >> 10) & 0x7) << 3) | (((x >> 5) & 0x3) << 6) == 8 * ((x / 0x400) % 2) + 16 * ((x /
            0x800) % 2) + 32 * ((x / 0x1000) % 2) + 64 * ((x / 0x20) % 2) + 128 * ((x / 0x40) % 2),
        (((x >> 12) & 0x1) << 9) | (((x >> 6) & 0x1) << 4) | (((x >> 5) & 0x1) << 6) | (((x >> 3) &
            0x3) << 7) | (((x >> 2) & 0x1) << 5) == 16 * ((x / 0x40) % 2) + 32 * ((x / 0x4) % 2) +
            64 * ((x / 0x20) % 2) + 128 * ((x / 0x8) % 2) + 256 * ((x / 0x10) % 2) + 512 * ((x /
            0x1000) % 2),
        (((x >> 12) & 0x1) << 11) | (((x >> 11) & 0x1) << 4) | (((x >> 9) & 0x3) << 8) | (((x >> 8)
            & 0x1) << 10) | (((x >> 7) & 0x1) << 6) | (((x >> 6) & 0x1) << 7) | (((x >> 3) & 0x7) <<
            1) | (((x >> 2) & 0x1) << 5) == 2 * ((x / 0x8) % 2) + 4 * ((x / 0x10) % 2) + 8 * ((x /
            0x20) % 2) + 16 * ((x / 0x800) % 2) + 32 * ((x / 0x4) % 2) + 64 * ((x / 0x80) % 2) + 128
            * ((x / 0x40) % 2) + 256 * ((x / 0x200) % 2) + 512 * ((x / 0x400) % 2) + 1024 * ((x /
            0x100) % 2) + 2048 * ((x / 0x1000) % 2),
        (((x >> 12) & 0x1) << 8) | (((x >> 10) & 0x3) << 3) | (((x >> 5) & 0x3) << 6) | (((x >> 3) &
            0x3) << 1) | (((x >> 2) & 0x1) << 5) == 2 * ((x / 0x8) % 2) + 4 * ((x / 0x10) % 2) + 8 *
            ((x / 0x400) % 2) + 16 * ((x / 0x800) % 2) + 32 * ((x / 0x4) % 2) + 64 * ((x / 0x20) %
            2) + 128 * ((x / 0x40) % 2) + 256 * ((x / 0x1000) % 2),
        (((x >> 12) & 0x1) << 5) | (((x >> 4) & 0x7) << 2) | (((x >> 2) & 0x3) << 6) == 4 * ((x /
            0x10) % 2) + 8 * ((x / 0x20) % 2) + 16 * ((x / 0x40) % 2) + 32 * ((x / 0x1000) % 2) + 64
            * ((x / 0x4) % 2) + 128 * ((x / 0x8) % 2),
        (((x >> 12) & 0x1) << 5) | (((x >> 5) & 0x3) << 3) | (((x >> 2) & 0x7) << 6) == 8 * ((x /
            0x20) % 2) + 16 * ((x / 0x40) % 2) + 32 * ((x / 0x1000) % 2) + 64 * ((x / 0x4) % 2) +
            128 * ((x / 0x8) % 2) + 256 * ((x / 0x10) % 2),
        (((x >> 9) & 0xf) << 2) | (((x >> 7) & 0x3) << 6) == 4 * ((x / 0x200) % 2) + 8 * ((x /
            0x400) % 2) + 16 * ((x / 0x800) % 2) + 32 * ((x / 0x1000) % 2) + 64 * ((x / 0x80) % 2) +
            128 * ((x / 0x100) % 2),
        (((x >> 10) & 0x7) << 3) | (((x >> 7) & 0x7) << 6) == 8 * ((x / 0x400) % 2) + 16 * ((x /
            0x800) % 2) + 32 * ((x / 0x1000) % 2) + 64 * ((x / 0x80) % 2) + 128 * ((x / 0x100) % 2)
            + 256 * ((x / 0x200) % 2),
{
}

/// Signs, sizes, exponents and fractions of single-precision numbers.
pub proof fn lemma_float_words(v: u32, r: u32)
    by (bit_vector)
    ensures
        v < 0x8000_0000 ==> v & 0x7fff_ffff == v && v & 0x8000_0000 == 0 && v >> 31 == 0,
        v >= 0x8000_0000 ==> (v & 0x7fff_ffff) as int == v as int - 0x8000_0000 && v & 0x8000_0000
            == 0x8000_0000 && v >> 31 == 1,
        (v >> 23) & 0xff == (v & 0x7fff_ffff) / 0x80_0000,
        v & 0x7f_ffff == (v & 0x7fff_ffff) % 0x80_0000,
        v & 0x7fff_ffff > 0x7f80_0000 ==> (v & 0x40_0000 == 0 <==> v & 0x7fff_ffff < 0x7fc0_0000),
        r < 0x8000_0000 ==> (v & 0x7fff_ffff) | (r & 0x8000_0000) == v & 0x7fff_ffff,
        r >= 0x8000_0000 ==> (v & 0x7fff_ffff) | (r & 0x8000_0000) == (v & 0x7fff_ffff) +
            0x8000_0000,
        r < 0x8000_0000 ==> (v & 0x7fff_ffff) | ((r & 0x8000_0000) ^ 0x8000_0000) == (v &
            0x7fff_ffff) + 0x8000_0000,
        r >= 0x8000_0000 ==> (v & 0x7fff_ffff) | ((r & 0x8000_0000) ^ 0x8000_0000) == v &
            0x7fff_ffff,
        (v < 0x8000_0000 && r < 0x8000_0000) || (v >= 0x8000_0000 && r >= 0x8000_0000) ==> (v &
            0x7fff_ffff) | ((v ^ r) & 0x8000_0000) == v & 0x7fff_ffff,
        (v < 0x8000_0000 && r >= 0x8000_0000) || (v >= 0x8000_0000 && r < 0x8000_0000) ==> (v &
            0x7fff_ffff) | ((v ^ r) & 0x8000_0000) == (v & 0x7fff_ffff) + 0x8000_0000,
        v & 0x7fff_ffff < 0x8000_0000,
        v >= 0x8000_0000 && r >= 0x8000_0000 ==> (v & r) & 0x8000_0000 == 0x8000_0000,
        v < 0x8000_0000 || r < 0x8000_0000 ==> (v & r) & 0x8000_0000 == 0,
        v >= 0x8000_0000 || r >= 0x8000_0000 ==> (v | r) & 0x8000_0000 == 0x8000_0000,
        v < 0x8000_0000 && r < 0x8000_0000 ==> (v | r) & 0x8000_0000 == 0,
{
}

/// Signs, sizes, exponents and fractions of double-precision numbers.
pub proof fn lemma_float_doubles(x: u64, y: u64)
    by (bit_vector)
    ensures
        x < 0x8000_0000_0000_0000 ==> x & 0x7fff_ffff_ffff_ffff == x && x & 0x8000_0000_0000_0000 ==
            0 && x >> 63 == 0,
        x >= 0x8000_0000_0000_0000 ==> (x & 0x7fff_ffff_ffff_ffff) as int == x as int -
            0x8000_0000_0000_0000 && x & 0x8000_0000_0000_0000 == 0x8000_0000_0000_0000 && x >> 63
            == 1,
        (x >> 52) & 0x7ff == (x & 0x7fff_ffff_ffff_ffff) / 0x10_0000_0000_0000,
        x & 0xf_ffff_ffff_ffff == (x & 0x7fff_ffff_ffff_ffff) % 0x10_0000_0000_0000,
        x & 0x7fff_ffff_ffff_ffff > 0x7ff0_0000_0000_0000 ==> (x & 0x8_0000_0000_0000 == 0 <==> x &
            0x7fff_ffff_ffff_ffff < 0x7ff8_0000_0000_0000),
        y < 0x8000_0000_0000_0000 ==> (x & 0x7fff_ffff_ffff_ffff) | (y & 0x8000_0000_0000_0000) == x
            & 0x7fff_ffff_ffff_ffff,
        y >= 0x8000_0000_0000_0000 ==> (x & 0x7fff_ffff_ffff_ffff) | (y & 0x8000_0000_0000_0000) ==
            (x & 0x7fff_ffff_ffff_ffff) + 0x8000_0000_0000_0000,
        y < 0x8000_0000_0000_0000 ==> (x & 0x7fff_ffff_ffff_ffff) | ((y & 0x8000_0000_0000_0000) ^
            0x8000_0000_0000_0000) == (x & 0x7fff_ffff_ffff_ffff) + 0x8000_0000_0000_0000,
        y >= 0x8000_0000_0000_0000 ==> (x & 0x7fff_ffff_ffff_ffff) | ((y & 0x8000_0000_0000_0000) ^
            0x8000_0000_0000_0000) == x & 0x7fff_ffff_ffff_ffff,
        (x < 0x8000_0000_0000_0000 && y < 0x8000_0000_0000_0000) || (x >= 0x8000_0000_0000_0000 && y
            >= 0x8000_0000_0000_0000) ==> (x & 0x7fff_ffff_ffff_ffff) | ((x ^ y) &
            0x8000_0000_0000_0000) == x & 0x7fff_ffff_ffff_ffff,
        (x < 0x8000_0000_0000_0000 && y >= 0x8000_0000_0000_0000) || (x >= 0x8000_0000_0000_0000 &&
            y < 0x8000_0000_0000_0000) ==> (x & 0x7fff_ffff_ffff_ffff) | ((x ^ y) &
            0x8000_0000_0000_0000) == (x & 0x7fff_ffff_ffff_ffff) + 0x8000_0000_0000_0000,
        x & 0x7fff_ffff_ffff_ffff < 0x8000_0000_0000_0000,
        x >= 0x8000_0000_0000_0000 && y >= 0x8000_0000_0000_0000 ==> (x & y) & 0x8000_0000_0000_0000
            == 0x8000_0000_0000_0000,
        x < 0x8000_0000_0000_0000 || y < 0x8000_0000_0000_0000 ==> (x & y) & 0x8000_0000_0000_0000
            == 0,
        x >= 0x8000_0000_0000_0000 || y >= 0x8000_0000_0000_0000 ==> (x | y) & 0x8000_0000_0000_0000
            == 0x8000_0000_0000_0000,
        x < 0x8000_0000_0000_0000 && y < 0x8000_0000_0000_0000 ==> (x | y) & 0x8000_0000_0000_0000
            == 0,
{
}

} // verus!
