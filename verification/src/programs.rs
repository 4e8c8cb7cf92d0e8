//! Instruction encoders and two auditable guest programs.

use crate::bytes;
use crate::isa;
use crate::isa::Csr;
use vstd::prelude::*;

verus! {

pub open spec fn lui_word(rd: u32, immediate: u32) -> u32 {
    (immediate << 12) | (rd << 7) | 0x37
}

pub open spec fn auipc_word(rd: u32, immediate: u32) -> u32 {
    (immediate << 12) | (rd << 7) | 0x17
}

pub open spec fn addi_word(rd: u32, rs1: u32, immediate: u32) -> u32 {
    ((immediate & 0x0fff) << 20) | (rs1 << 15) | (rd << 7) | 0x13
}

pub open spec fn slli_word(rd: u32, rs1: u32, shift: u32) -> u32 {
    ((shift & 0x3f) << 20) | (rs1 << 15) | (1u32 << 12) | (rd << 7) | 0x13
}

pub open spec fn csr_word(rd: u32, address: u32, rs1: u32, funct3: u32) -> u32 {
    (address << 20) | (rs1 << 15) | (funct3 << 12) | (rd << 7) | 0x73
}

pub open spec fn store_word(rs1: u32, rs2: u32, immediate: u32, funct3: u32) -> u32 {
    (((immediate >> 5) & 0x7f) << 25) | (rs2 << 20) | (rs1 << 15) | (funct3 << 12) | ((immediate
        & 0x1f) << 7) | 0x23
}

pub fn encode_lui(rd: u32, immediate: u32) -> (r: u32)
    ensures
        r == lui_word(rd, immediate),
{
    (immediate << 12) | (rd << 7) | 0x37
}

pub fn encode_auipc(rd: u32, immediate: u32) -> (r: u32)
    ensures
        r == auipc_word(rd, immediate),
{
    (immediate << 12) | (rd << 7) | 0x17
}

pub fn encode_addi(rd: u32, rs1: u32, immediate: u32) -> (r: u32)
    ensures
        r == addi_word(rd, rs1, immediate),
{
    ((immediate & 0x0fff) << 20) | (rs1 << 15) | (rd << 7) | 0x13
}

pub fn encode_slli(rd: u32, rs1: u32, shift: u32) -> (r: u32)
    ensures
        r == slli_word(rd, rs1, shift),
{
    ((shift & 0x3f) << 20) | (rs1 << 15) | (1u32 << 12) | (rd << 7) | 0x13
}

pub fn encode_csr(rd: u32, csr: Csr, rs1: u32, funct3: u32) -> (r: u32)
    ensures
        r == csr_word(rd, csr.number() as u32, rs1, funct3),
{
    ((csr.address() as u32) << 20) | (rs1 << 15) | (funct3 << 12) | (rd << 7) | 0x73
}

pub fn encode_csrr(rd: u32, csr: Csr) -> (r: u32)
    ensures
        r == csr_word(rd, csr.number() as u32, 0, 2),
{
    encode_csr(rd, csr, 0, 2)
}

pub fn encode_csrw(csr: Csr, rs1: u32) -> (r: u32)
    ensures
        r == csr_word(0, csr.number() as u32, rs1, 1),
{
    encode_csr(0, csr, rs1, 1)
}

pub fn encode_store(rs1: u32, rs2: u32, immediate: u32, funct3: u32) -> (r: u32)
    ensures
        r == store_word(rs1, rs2, immediate, funct3),
{
    (((immediate >> 5) & 0x7f) << 25) | (rs2 << 20) | (rs1 << 15) | (funct3 << 12) | ((immediate
        & 0x1f) << 7) | 0x23
}

/// Two instructions that write one byte through the address in `x5`.
pub fn encode_putc(byte: u8) -> (r: [u32; 2])
    ensures
        r@ == seq![addi_word(6, 0, byte as u32), store_word(5, 6, 0, 0)],
{
    let words: [u32; 2] = [encode_addi(6, 0, byte as u32), encode_store(5, 6, 0, 0)];
    assert(words@ =~= seq![addi_word(6, 0, byte as u32), store_word(5, 6, 0, 0)]);
    words
}

/// The fields of an encoded `addi` decode to its operands.
pub proof fn addi_decodes(rd: u32, rs1: u32, immediate: u32)
    requires
        rd < 32,
        rs1 < 32,
    ensures
        addi_word(rd, rs1, immediate) & 0x7f == 0x13,
        (addi_word(rd, rs1, immediate) >> 12) & 7 == 0,
        isa::register_field(addi_word(rd, rs1, immediate), 7) == rd,
        isa::register_field(addi_word(rd, rs1, immediate), 15) == rs1,
        isa::imm_i(addi_word(rd, rs1, immediate)) == isa::sext((immediate & 0xfff) as u64, 12),
{
    assert(rd < 32 && rs1 < 32 ==> ({
        let w = ((immediate & 0x0fff) << 20) | (rs1 << 15) | (rd << 7) | 0x13;
        w & 0x7f == 0x13 && (w >> 12) & 7 == 0 && (w >> 7) & 0x1f == rd && (w >> 15) & 0x1f == rs1
            && w >> 20 == immediate & 0xfff
    })) by (bit_vector);
}

/// The fields of an encoded store decode to its operands.
pub proof fn store_decodes(rs1: u32, rs2: u32, immediate: u32, funct3: u32)
    requires
        rs1 < 32,
        rs2 < 32,
        funct3 < 8,
    ensures
        store_word(rs1, rs2, immediate, funct3) & 0x7f == 0x23,
        (store_word(rs1, rs2, immediate, funct3) >> 12) & 7 == funct3,
        isa::register_field(store_word(rs1, rs2, immediate, funct3), 15) == rs1,
        isa::register_field(store_word(rs1, rs2, immediate, funct3), 20) == rs2,
        isa::imm_s(store_word(rs1, rs2, immediate, funct3)) == isa::sext(
            (immediate & 0xfff) as u64,
            12,
        ),
{
    assert(rs1 < 32 && rs2 < 32 && funct3 < 8 ==> ({
        let w = (((immediate >> 5) & 0x7f) << 25) | (rs2 << 20) | (rs1 << 15) | (funct3 << 12) | ((
        immediate & 0x1f) << 7) | 0x23;
        w & 0x7f == 0x23 && (w >> 12) & 7 == funct3 && (w >> 15) & 0x1f == rs1 && (w >> 20) & 0x1f
            == rs2 && ((w >> 7) & 0x1f) | (((w >> 25) & 0x7f) << 5) == immediate & 0xfff
    })) by (bit_vector);
}

/// Little-endian bytes of a list of instructions.
pub open spec fn assembled(words: Seq<u32>) -> Seq<u8>
    decreases words.len(),
{
    if words.len() == 0 {
        Seq::empty()
    } else {
        assembled(words.drop_last()) + bytes::le_bytes(words.last() as nat, 4)
    }
}

/// Auditable RV64I probe that prints `AOS RV64` and halts through the standard
/// finisher. It proves the ISA/device/scheduling path without claiming Linux.
pub const RV64_SMOKE_PROGRAM: [u8; 92] = [
    0xb7, 0x02, 0x00, 0x10, 0x13, 0x03, 0x10, 0x04, 0x23, 0x80, 0x62, 0x00,
    0x13, 0x03, 0xf0, 0x04, 0x23, 0x80, 0x62, 0x00, 0x13, 0x03, 0x30, 0x05,
    0x23, 0x80, 0x62, 0x00, 0x13, 0x03, 0x00, 0x02, 0x23, 0x80, 0x62, 0x00,
    0x13, 0x03, 0x20, 0x05, 0x23, 0x80, 0x62, 0x00, 0x13, 0x03, 0x60, 0x05,
    0x23, 0x80, 0x62, 0x00, 0x13, 0x03, 0x60, 0x03, 0x23, 0x80, 0x62, 0x00,
    0x13, 0x03, 0x40, 0x03, 0x23, 0x80, 0x62, 0x00, 0x13, 0x03, 0xa0, 0x00,
    0x23, 0x80, 0x62, 0x00, 0xb7, 0x03, 0x10, 0x00, 0x37, 0x54, 0x00, 0x00,
    0x13, 0x04, 0x54, 0x55, 0x23, 0xa0, 0x83, 0x00,
];

/// Instructions of the smoke program.
pub open spec fn smoke_listing() -> Seq<u32> {
    seq![
        lui_word(5, 0x1_0000),
        addi_word(6, 0, 0x41),
        store_word(5, 6, 0, 0),
        addi_word(6, 0, 0x4f),
        store_word(5, 6, 0, 0),
        addi_word(6, 0, 0x53),
        store_word(5, 6, 0, 0),
        addi_word(6, 0, 0x20),
        store_word(5, 6, 0, 0),
        addi_word(6, 0, 0x52),
        store_word(5, 6, 0, 0),
        addi_word(6, 0, 0x56),
        store_word(5, 6, 0, 0),
        addi_word(6, 0, 0x36),
        store_word(5, 6, 0, 0),
        addi_word(6, 0, 0x34),
        store_word(5, 6, 0, 0),
        addi_word(6, 0, 0xa),
        store_word(5, 6, 0, 0),
        lui_word(7, 0x100),
        lui_word(8, 0x5),
        addi_word(8, 8, 0x555),
        store_word(7, 8, 0, 2),
    ]
}

/// The bytes of the program are exactly its listing, assembled.
pub proof fn smoke_listing_assembles()
    ensures
        RV64_SMOKE_PROGRAM@ == assembled(smoke_listing()),
{
    let words = smoke_listing();
    assert(lui_word(5, 0x1_0000) == 0x1000_02b7u32 && addi_word(6, 0, 0x41) == 0x0410_0313u32
        && store_word(5, 6, 0, 0) == 0x0062_8023u32 && addi_word(6, 0, 0x4f) == 0x04f0_0313u32
        && addi_word(6, 0, 0x53) == 0x0530_0313u32 && addi_word(6, 0, 0x20) == 0x0200_0313u32
        && addi_word(6, 0, 0x52) == 0x0520_0313u32 && addi_word(6, 0, 0x56) == 0x0560_0313u32
        && addi_word(6, 0, 0x36) == 0x0360_0313u32 && addi_word(6, 0, 0x34) == 0x0340_0313u32
        && addi_word(6, 0, 0xa) == 0x00a0_0313u32 && lui_word(7, 0x100) == 0x0010_03b7u32
        && lui_word(8, 0x5) == 0x0000_5437u32 && addi_word(8, 8, 0x555) == 0x5554_0413u32
        && store_word(7, 8, 0, 2) == 0x0083_a023u32) by (bit_vector);
    lemma_digits(0x1000_02b7, 0xb7, 0x02, 0x00, 0x10);
    assert(RV64_SMOKE_PROGRAM@.subrange(0, 4) =~= bytes::le_bytes(words[0] as nat, 4));
    lemma_digits(0x0410_0313, 0x13, 0x03, 0x10, 0x04);
    assert(RV64_SMOKE_PROGRAM@.subrange(4, 8) =~= bytes::le_bytes(words[1] as nat, 4));
    lemma_digits(0x0062_8023, 0x23, 0x80, 0x62, 0x00);
    assert(RV64_SMOKE_PROGRAM@.subrange(8, 12) =~= bytes::le_bytes(words[2] as nat, 4));
    lemma_digits(0x04f0_0313, 0x13, 0x03, 0xf0, 0x04);
    assert(RV64_SMOKE_PROGRAM@.subrange(12, 16) =~= bytes::le_bytes(words[3] as nat, 4));
    lemma_digits(0x0062_8023, 0x23, 0x80, 0x62, 0x00);
    assert(RV64_SMOKE_PROGRAM@.subrange(16, 20) =~= bytes::le_bytes(words[4] as nat, 4));
    lemma_digits(0x0530_0313, 0x13, 0x03, 0x30, 0x05);
    assert(RV64_SMOKE_PROGRAM@.subrange(20, 24) =~= bytes::le_bytes(words[5] as nat, 4));
    lemma_digits(0x0062_8023, 0x23, 0x80, 0x62, 0x00);
    assert(RV64_SMOKE_PROGRAM@.subrange(24, 28) =~= bytes::le_bytes(words[6] as nat, 4));
    lemma_digits(0x0200_0313, 0x13, 0x03, 0x00, 0x02);
    assert(RV64_SMOKE_PROGRAM@.subrange(28, 32) =~= bytes::le_bytes(words[7] as nat, 4));
    lemma_digits(0x0062_8023, 0x23, 0x80, 0x62, 0x00);
    assert(RV64_SMOKE_PROGRAM@.subrange(32, 36) =~= bytes::le_bytes(words[8] as nat, 4));
    lemma_digits(0x0520_0313, 0x13, 0x03, 0x20, 0x05);
    assert(RV64_SMOKE_PROGRAM@.subrange(36, 40) =~= bytes::le_bytes(words[9] as nat, 4));
    lemma_digits(0x0062_8023, 0x23, 0x80, 0x62, 0x00);
    assert(RV64_SMOKE_PROGRAM@.subrange(40, 44) =~= bytes::le_bytes(words[10] as nat, 4));
    lemma_digits(0x0560_0313, 0x13, 0x03, 0x60, 0x05);
    assert(RV64_SMOKE_PROGRAM@.subrange(44, 48) =~= bytes::le_bytes(words[11] as nat, 4));
    lemma_digits(0x0062_8023, 0x23, 0x80, 0x62, 0x00);
    assert(RV64_SMOKE_PROGRAM@.subrange(48, 52) =~= bytes::le_bytes(words[12] as nat, 4));
    lemma_digits(0x0360_0313, 0x13, 0x03, 0x60, 0x03);
    assert(RV64_SMOKE_PROGRAM@.subrange(52, 56) =~= bytes::le_bytes(words[13] as nat, 4));
    lemma_digits(0x0062_8023, 0x23, 0x80, 0x62, 0x00);
    assert(RV64_SMOKE_PROGRAM@.subrange(56, 60) =~= bytes::le_bytes(words[14] as nat, 4));
    lemma_digits(0x0340_0313, 0x13, 0x03, 0x40, 0x03);
    assert(RV64_SMOKE_PROGRAM@.subrange(60, 64) =~= bytes::le_bytes(words[15] as nat, 4));
    lemma_digits(0x0062_8023, 0x23, 0x80, 0x62, 0x00);
    assert(RV64_SMOKE_PROGRAM@.subrange(64, 68) =~= bytes::le_bytes(words[16] as nat, 4));
    lemma_digits(0x00a0_0313, 0x13, 0x03, 0xa0, 0x00);
    assert(RV64_SMOKE_PROGRAM@.subrange(68, 72) =~= bytes::le_bytes(words[17] as nat, 4));
    lemma_digits(0x0062_8023, 0x23, 0x80, 0x62, 0x00);
    assert(RV64_SMOKE_PROGRAM@.subrange(72, 76) =~= bytes::le_bytes(words[18] as nat, 4));
    lemma_digits(0x0010_03b7, 0xb7, 0x03, 0x10, 0x00);
    assert(RV64_SMOKE_PROGRAM@.subrange(76, 80) =~= bytes::le_bytes(words[19] as nat, 4));
    lemma_digits(0x0000_5437, 0x37, 0x54, 0x00, 0x00);
    assert(RV64_SMOKE_PROGRAM@.subrange(80, 84) =~= bytes::le_bytes(words[20] as nat, 4));
    lemma_digits(0x5554_0413, 0x13, 0x04, 0x54, 0x55);
    assert(RV64_SMOKE_PROGRAM@.subrange(84, 88) =~= bytes::le_bytes(words[21] as nat, 4));
    lemma_digits(0x0083_a023, 0x23, 0xa0, 0x83, 0x00);
    assert(RV64_SMOKE_PROGRAM@.subrange(88, 92) =~= bytes::le_bytes(words[22] as nat, 4));
    lemma_assembled(words, RV64_SMOKE_PROGRAM@, 23);
    assert(words.subrange(0, 23) =~= words);
    assert(RV64_SMOKE_PROGRAM@.subrange(0, 92) =~= RV64_SMOKE_PROGRAM@);
}

/// Auditable M-to-S transition probe. It takes a delegated supervisor ECALL,
/// returns with `sret`, prints `STR\n`, and halts from Supervisor mode.
pub const RV64_SUPERVISOR_PROGRAM: [u8; 124] = [
    0x97, 0x02, 0x00, 0x00, 0x13, 0x83, 0x02, 0x06, 0x73, 0x10, 0x53, 0x10,
    0x93, 0x03, 0x10, 0x00, 0x93, 0x93, 0x93, 0x00, 0x73, 0x90, 0x23, 0x30,
    0x13, 0x8e, 0x02, 0x03, 0x73, 0x10, 0x1e, 0x34, 0xb7, 0x1e, 0x00, 0x00,
    0x93, 0x8e, 0x0e, 0x80, 0x73, 0x90, 0x0e, 0x30, 0x73, 0x00, 0x20, 0x30,
    0xb7, 0x02, 0x00, 0x10, 0x13, 0x03, 0x30, 0x05, 0x23, 0x80, 0x62, 0x00,
    0x73, 0x00, 0x00, 0x00, 0x13, 0x03, 0x20, 0x05, 0x23, 0x80, 0x62, 0x00,
    0x13, 0x03, 0xa0, 0x00, 0x23, 0x80, 0x62, 0x00, 0xb7, 0x03, 0x10, 0x00,
    0x37, 0x54, 0x00, 0x00, 0x13, 0x04, 0x54, 0x55, 0x23, 0xa0, 0x83, 0x00,
    0xb7, 0x02, 0x00, 0x10, 0x13, 0x03, 0x40, 0x05, 0x23, 0x80, 0x62, 0x00,
    0xf3, 0x23, 0x10, 0x14, 0x93, 0x83, 0x43, 0x00, 0x73, 0x90, 0x13, 0x14,
    0x73, 0x00, 0x20, 0x10,
];

/// Instructions of the supervisor program. Reset firmware (the first twelve)
/// installs the S-mode vector and ECALL delegation, writes MPP=S, then enters
/// the supervisor payload with MRET. The payload (the next twelve) prints S,
/// raises ECALL, resumes to print R and a newline, then halts. Its delegated
/// handler (the rest) prints T, advances sepc, and returns with SRET.
pub open spec fn supervisor_listing() -> Seq<u32> {
    seq![
        auipc_word(5, 0),
        addi_word(6, 5, 0x60),
        csr_word(0, 0x105, 6, 1),
        addi_word(7, 0, 0x1),
        slli_word(7, 7, 9),
        csr_word(0, 0x302, 7, 1),
        addi_word(28, 5, 0x30),
        csr_word(0, 0x341, 28, 1),
        lui_word(29, 0x1),
        addi_word(29, 29, 0x800),
        csr_word(0, 0x300, 29, 1),
        0x3020_0073u32,
        lui_word(5, 0x10000),
        addi_word(6, 0, 0x53),
        store_word(5, 6, 0, 0),
        0x0000_0073u32,
        addi_word(6, 0, 0x52),
        store_word(5, 6, 0, 0),
        addi_word(6, 0, 0xa),
        store_word(5, 6, 0, 0),
        lui_word(7, 0x100),
        lui_word(8, 0x5),
        addi_word(8, 8, 0x555),
        store_word(7, 8, 0, 2),
        lui_word(5, 0x10000),
        addi_word(6, 0, 0x54),
        store_word(5, 6, 0, 0),
        csr_word(7, 0x141, 0, 2),
        addi_word(7, 7, 0x4),
        csr_word(0, 0x141, 7, 1),
        0x1020_0073u32,
    ]
}

/// The bytes of the program are exactly its listing, assembled.
pub proof fn supervisor_listing_assembles()
    ensures
        RV64_SUPERVISOR_PROGRAM@ == assembled(supervisor_listing()),
{
    let words = supervisor_listing();
    assert(auipc_word(5, 0) == 0x0000_0297u32 && addi_word(6, 5, 0x60) == 0x0602_8313u32
        && csr_word(0, 0x105, 6, 1) == 0x1053_1073u32 && addi_word(7, 0, 0x1) == 0x0010_0393u32
        && slli_word(7, 7, 9) == 0x0093_9393u32 && csr_word(0, 0x302, 7, 1) == 0x3023_9073u32
        && addi_word(28, 5, 0x30) == 0x0302_8e13u32 && csr_word(0, 0x341, 28, 1) == 0x341e_1073u32
        && lui_word(29, 0x1) == 0x0000_1eb7u32 && addi_word(29, 29, 0x800) == 0x800e_8e93u32
        && csr_word(0, 0x300, 29, 1) == 0x300e_9073u32 && 0x3020_0073u32 == 0x3020_0073u32
        && lui_word(5, 0x10000) == 0x1000_02b7u32 && addi_word(6, 0, 0x53) == 0x0530_0313u32
        && store_word(5, 6, 0, 0) == 0x0062_8023u32 && 0x0000_0073u32 == 0x0000_0073u32
        && addi_word(6, 0, 0x52) == 0x0520_0313u32 && addi_word(6, 0, 0xa) == 0x00a0_0313u32
        && lui_word(7, 0x100) == 0x0010_03b7u32 && lui_word(8, 0x5) == 0x0000_5437u32
        && addi_word(8, 8, 0x555) == 0x5554_0413u32 && store_word(7, 8, 0, 2) == 0x0083_a023u32
        && addi_word(6, 0, 0x54) == 0x0540_0313u32 && csr_word(7, 0x141, 0, 2) == 0x1410_23f3u32
        && addi_word(7, 7, 0x4) == 0x0043_8393u32 && csr_word(0, 0x141, 7, 1) == 0x1413_9073u32
        && 0x1020_0073u32 == 0x1020_0073u32) by (bit_vector);
    lemma_digits(0x0000_0297, 0x97, 0x02, 0x00, 0x00);
    assert(RV64_SUPERVISOR_PROGRAM@.subrange(0, 4) =~= bytes::le_bytes(words[0] as nat, 4));
    lemma_digits(0x0602_8313, 0x13, 0x83, 0x02, 0x06);
    assert(RV64_SUPERVISOR_PROGRAM@.subrange(4, 8) =~= bytes::le_bytes(words[1] as nat, 4));
    lemma_digits(0x1053_1073, 0x73, 0x10, 0x53, 0x10);
    assert(RV64_SUPERVISOR_PROGRAM@.subrange(8, 12) =~= bytes::le_bytes(words[2] as nat, 4));
    lemma_digits(0x0010_0393, 0x93, 0x03, 0x10, 0x00);
    assert(RV64_SUPERVISOR_PROGRAM@.subrange(12, 16) =~= bytes::le_bytes(words[3] as nat, 4));
    lemma_digits(0x0093_9393, 0x93, 0x93, 0x93, 0x00);
    assert(RV64_SUPERVISOR_PROGRAM@.subrange(16, 20) =~= bytes::le_bytes(words[4] as nat, 4));
    lemma_digits(0x3023_9073, 0x73, 0x90, 0x23, 0x30);
    assert(RV64_SUPERVISOR_PROGRAM@.subrange(20, 24) =~= bytes::le_bytes(words[5] as nat, 4));
    lemma_digits(0x0302_8e13, 0x13, 0x8e, 0x02, 0x03);
    assert(RV64_SUPERVISOR_PROGRAM@.subrange(24, 28) =~= bytes::le_bytes(words[6] as nat, 4));
    lemma_digits(0x341e_1073, 0x73, 0x10, 0x1e, 0x34);
    assert(RV64_SUPERVISOR_PROGRAM@.subrange(28, 32) =~= bytes::le_bytes(words[7] as nat, 4));
    lemma_digits(0x0000_1eb7, 0xb7, 0x1e, 0x00, 0x00);
    assert(RV64_SUPERVISOR_PROGRAM@.subrange(32, 36) =~= bytes::le_bytes(words[8] as nat, 4));
    lemma_digits(0x800e_8e93, 0x93, 0x8e, 0x0e, 0x80);
    assert(RV64_SUPERVISOR_PROGRAM@.subrange(36, 40) =~= bytes::le_bytes(words[9] as nat, 4));
    lemma_digits(0x300e_9073, 0x73, 0x90, 0x0e, 0x30);
    assert(RV64_SUPERVISOR_PROGRAM@.subrange(40, 44) =~= bytes::le_bytes(words[10] as nat, 4));
    lemma_digits(0x3020_0073, 0x73, 0x00, 0x20, 0x30);
    assert(RV64_SUPERVISOR_PROGRAM@.subrange(44, 48) =~= bytes::le_bytes(words[11] as nat, 4));
    lemma_digits(0x1000_02b7, 0xb7, 0x02, 0x00, 0x10);
    assert(RV64_SUPERVISOR_PROGRAM@.subrange(48, 52) =~= bytes::le_bytes(words[12] as nat, 4));
    lemma_digits(0x0530_0313, 0x13, 0x03, 0x30, 0x05);
    assert(RV64_SUPERVISOR_PROGRAM@.subrange(52, 56) =~= bytes::le_bytes(words[13] as nat, 4));
    lemma_digits(0x0062_8023, 0x23, 0x80, 0x62, 0x00);
    assert(RV64_SUPERVISOR_PROGRAM@.subrange(56, 60) =~= bytes::le_bytes(words[14] as nat, 4));
    lemma_digits(0x0000_0073, 0x73, 0x00, 0x00, 0x00);
    assert(RV64_SUPERVISOR_PROGRAM@.subrange(60, 64) =~= bytes::le_bytes(words[15] as nat, 4));
    lemma_digits(0x0520_0313, 0x13, 0x03, 0x20, 0x05);
    assert(RV64_SUPERVISOR_PROGRAM@.subrange(64, 68) =~= bytes::le_bytes(words[16] as nat, 4));
    lemma_digits(0x0062_8023, 0x23, 0x80, 0x62, 0x00);
    assert(RV64_SUPERVISOR_PROGRAM@.subrange(68, 72) =~= bytes::le_bytes(words[17] as nat, 4));
    lemma_digits(0x00a0_0313, 0x13, 0x03, 0xa0, 0x00);
    assert(RV64_SUPERVISOR_PROGRAM@.subrange(72, 76) =~= bytes::le_bytes(words[18] as nat, 4));
    lemma_digits(0x0062_8023, 0x23, 0x80, 0x62, 0x00);
    assert(RV64_SUPERVISOR_PROGRAM@.subrange(76, 80) =~= bytes::le_bytes(words[19] as nat, 4));
    lemma_digits(0x0010_03b7, 0xb7, 0x03, 0x10, 0x00);
    assert(RV64_SUPERVISOR_PROGRAM@.subrange(80, 84) =~= bytes::le_bytes(words[20] as nat, 4));
    lemma_digits(0x0000_5437, 0x37, 0x54, 0x00, 0x00);
    assert(RV64_SUPERVISOR_PROGRAM@.subrange(84, 88) =~= bytes::le_bytes(words[21] as nat, 4));
    lemma_digits(0x5554_0413, 0x13, 0x04, 0x54, 0x55);
    assert(RV64_SUPERVISOR_PROGRAM@.subrange(88, 92) =~= bytes::le_bytes(words[22] as nat, 4));
    lemma_digits(0x0083_a023, 0x23, 0xa0, 0x83, 0x00);
    assert(RV64_SUPERVISOR_PROGRAM@.subrange(92, 96) =~= bytes::le_bytes(words[23] as nat, 4));
    lemma_digits(0x1000_02b7, 0xb7, 0x02, 0x00, 0x10);
    assert(RV64_SUPERVISOR_PROGRAM@.subrange(96, 100) =~= bytes::le_bytes(words[24] as nat, 4));
    lemma_digits(0x0540_0313, 0x13, 0x03, 0x40, 0x05);
    assert(RV64_SUPERVISOR_PROGRAM@.subrange(100, 104) =~= bytes::le_bytes(words[25] as nat, 4));
    lemma_digits(0x0062_8023, 0x23, 0x80, 0x62, 0x00);
    assert(RV64_SUPERVISOR_PROGRAM@.subrange(104, 108) =~= bytes::le_bytes(words[26] as nat, 4));
    lemma_digits(0x1410_23f3, 0xf3, 0x23, 0x10, 0x14);
    assert(RV64_SUPERVISOR_PROGRAM@.subrange(108, 112) =~= bytes::le_bytes(words[27] as nat, 4));
    lemma_digits(0x0043_8393, 0x93, 0x83, 0x43, 0x00);
    assert(RV64_SUPERVISOR_PROGRAM@.subrange(112, 116) =~= bytes::le_bytes(words[28] as nat, 4));
    lemma_digits(0x1413_9073, 0x73, 0x90, 0x13, 0x14);
    assert(RV64_SUPERVISOR_PROGRAM@.subrange(116, 120) =~= bytes::le_bytes(words[29] as nat, 4));
    lemma_digits(0x1020_0073, 0x73, 0x00, 0x20, 0x10);
    assert(RV64_SUPERVISOR_PROGRAM@.subrange(120, 124) =~= bytes::le_bytes(words[30] as nat, 4));
    lemma_assembled(words, RV64_SUPERVISOR_PROGRAM@, 31);
    assert(words.subrange(0, 31) =~= words);
    assert(RV64_SUPERVISOR_PROGRAM@.subrange(0, 124) =~= RV64_SUPERVISOR_PROGRAM@);
}

proof fn lemma_digits(value: u32, b0: u8, b1: u8, b2: u8, b3: u8)
    requires
        value == b0 + 0x100 * b1 + 0x1_0000 * b2 + 0x100_0000 * b3,
    ensures
        bytes::le_bytes(value as nat, 4) == seq![b0, b1, b2, b3],
{
    reveal_with_fuel(bytes::le_bytes, 5);
    let v = value as nat;
    assert(v / 256 == b1 + 0x100 * b2 + 0x1_0000 * b3);
    assert(v / 256 / 256 == b2 + 0x100 * b3);
    assert(v / 256 / 256 / 256 == b3);
    assert(bytes::le_bytes(v, 4) =~= seq![b0, b1, b2, b3]);
}

proof fn lemma_assembled(words: Seq<u32>, program: Seq<u8>, k: int)
    requires
        0 <= k <= words.len(),
        program.len() == 4 * words.len(),
        forall|i: int|
            0 <= i < k ==> program.subrange(4 * i, 4 * i + 4) == bytes::le_bytes(
                #[trigger] words[i] as nat,
                4,
            ),
    ensures
        assembled(words.subrange(0, k)) == program.subrange(0, 4 * k),
    decreases k,
{
    let prefix = words.subrange(0, k);
    if k > 0 {
        assert(prefix.drop_last() =~= words.subrange(0, k - 1));
        lemma_assembled(words, program, k - 1);
        assert(words[k - 1] == prefix.last());
        assert(program.subrange(0, 4 * k) =~= program.subrange(0, 4 * (k - 1)) + program.subrange(
            4 * (k - 1),
            4 * (k - 1) + 4,
        ));
    } else {
        assert(program.subrange(0, 0) =~= Seq::<u8>::empty());
    }
}

} // verus!
