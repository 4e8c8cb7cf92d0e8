//! What each full-width instruction does to the machine, told from the fields
//! that it is assembled from.

use crate::access::Flow;
use crate::alu;
use crate::alu_laws;
use crate::alu_laws::{signed_word, wrapped};
use crate::bits;
use crate::isa;
use crate::isa::MachineTrap;
use crate::machine::MachineView;
use crate::mmu;
use crate::platform::HaltStatus;
use crate::step;
use vstd::prelude::*;

verus! {

// Assembling.

/// Five fields above an opcode.
pub open spec fn r_type(
    funct7: int,
    rs2: int,
    rs1: int,
    funct3: int,
    rd: int,
    opcode: int,
) -> u32 {
    bits::r_type(
        funct7 as u32,
        rs2 as u32,
        rs1 as u32,
        funct3 as u32,
        rd as u32,
        opcode as u32,
    )
}

pub open spec fn fields_fit(
    funct7: int,
    rs2: int,
    rs1: int,
    funct3: int,
    rd: int,
    opcode: int,
) -> bool {
    &&& 0 <= funct7 < 128
    &&& 0 <= rs2 < 32
    &&& 0 <= rs1 < 32
    &&& 0 <= funct3 < 8
    &&& 0 <= rd < 32
    &&& 0 <= opcode < 128
}

/// A twelve-bit number in place of the upper two fields.
pub open spec fn i_type(number: int, rs1: int, funct3: int, rd: int, opcode: int) -> u32 {
    let field = (number % 4096) as u32;
    r_type((field >> 5u32) as int, (field & 0x1f) as int, rs1, funct3, rd, opcode)
}

/// A twelve-bit number around the registers of a store.
pub open spec fn s_type(number: int, rs2: int, rs1: int, funct3: int, opcode: int) -> u32 {
    let field = (number % 4096) as u32;
    r_type((field >> 5u32) as int, rs2, rs1, funct3, (field & 0x1f) as int, opcode)
}

/// The offset of a branch, which is even: bit twelve, bits ten to five, then
/// bits four to one and bit eleven.
pub open spec fn b_type(offset: int, rs2: int, rs1: int, funct3: int, opcode: int) -> u32 {
    let o = (offset % 8192) as u32;
    r_type(
        ((o >> 6u32) & 0x40 | (o >> 5u32) & 0x3f) as int,
        rs2,
        rs1,
        funct3,
        ((o & 0x1e) | (o >> 11u32) & 1) as int,
        opcode,
    )
}

/// Twenty upper bits.
pub open spec fn u_type(number: int, rd: int, opcode: int) -> u32 {
    let u = (number % 0x10_0000) as u32;
    (u << 12u32) | ((rd as u32) << 7u32) | opcode as u32
}

/// The offset of a jump, which is even: bit twenty, bits ten to one, bit
/// eleven, and bits nineteen to twelve.
pub open spec fn j_type(offset: int, rd: int, opcode: int) -> u32 {
    let j = (offset % 0x20_0000) as u32;
    ((((j >> 20u32) & 1) << 31u32) | (((j >> 1u32) & 0x3ff) << 21u32) | (((j >> 11u32) & 1)
        << 20u32) | (((j >> 12u32) & 0xff) << 12u32)) | ((rd as u32) << 7u32) | opcode as u32
}

pub proof fn lemma_r_type(funct7: int, rs2: int, rs1: int, funct3: int, rd: int, opcode: int)
    requires
        fields_fit(funct7, rs2, rs1, funct3, rd, opcode),
    ensures
        ({
            let w = r_type(funct7, rs2, rs1, funct3, rd, opcode);
            &&& w & 0x7f == opcode
            &&& isa::register_field(w, 7) == rd
            &&& (w >> 12) & 7 == funct3
            &&& isa::register_field(w, 15) == rs1
            &&& isa::register_field(w, 20) == rs2
            &&& w >> 25 == funct7
            &&& w >> 27 == (funct7 as u32) >> 2u32
        }),
{
    bits::lemma_r_type(
        funct7 as u32,
        rs2 as u32,
        rs1 as u32,
        funct3 as u32,
        rd as u32,
        opcode as u32,
    );
}

/// The address of a control register stands where a number does.
pub proof fn lemma_csr_word(number: int, source: int, funct3: int, rd: int)
    requires
        0 <= number < 4096,
        fields_fit(0, 0, source, funct3, rd, 0),
    ensures
        ({
            let w = i_type(number, source, funct3, rd, 0x73);
            &&& w & 0x7f == 0x73
            &&& isa::register_field(w, 7) == rd
            &&& (w >> 12) & 7 == funct3
            &&& isa::register_field(w, 15) == source
            &&& w >> 20 == number
        }),
{
    let n = number as u32;
    bits::lemma_immediates(n, 0, 0, 0);
    bits::lemma_r_type(n >> 5u32, n & 0x1f, source as u32, funct3 as u32, rd as u32, 0x73);
}

pub proof fn lemma_i_type(number: int, rs1: int, funct3: int, rd: int, opcode: int)
    requires
        -2048 <= number < 2048,
        fields_fit(0, 0, rs1, funct3, rd, opcode),
    ensures
        ({
            let w = i_type(number, rs1, funct3, rd, opcode);
            &&& w & 0x7f == opcode
            &&& isa::register_field(w, 7) == rd
            &&& (w >> 12) & 7 == funct3
            &&& isa::register_field(w, 15) == rs1
            &&& w >> 20 == number % 4096
            &&& w / 0x10_0000 == number % 4096
            &&& w / 0x400_0000 == (number % 4096) / 64
            &&& w / 0x200_0000 == (number % 4096) / 32
            &&& isa::imm_i(w) == wrapped(number)
            &&& alu_laws::upper_twelve(w) == number
        }),
{
    let n = (number % 4096) as u32;
    bits::lemma_immediates(n, 0, 0, 0);
    bits::lemma_r_type(
        n >> 5u32,
        n & 0x1f,
        rs1 as u32,
        funct3 as u32,
        rd as u32,
        opcode as u32,
    );
    bits::lemma_word_masks(i_type(number, rs1, funct3, rd, opcode));
    alu_laws::lemma_extended(n as u64, 12, 0x1000);
}

pub proof fn lemma_s_type(number: int, rs2: int, rs1: int, funct3: int, opcode: int)
    requires
        -2048 <= number < 2048,
        fields_fit(0, rs2, rs1, funct3, 0, opcode),
    ensures
        ({
            let w = s_type(number, rs2, rs1, funct3, opcode);
            &&& w & 0x7f == opcode
            &&& (w >> 12) & 7 == funct3
            &&& isa::register_field(w, 15) == rs1
            &&& isa::register_field(w, 20) == rs2
            &&& isa::imm_s(w) == wrapped(number)
        }),
{
    let n = (number % 4096) as u32;
    bits::lemma_immediates(n, 0, 0, 0);
    bits::lemma_r_type(
        n >> 5u32,
        rs2 as u32,
        rs1 as u32,
        funct3 as u32,
        n & 0x1f,
        opcode as u32,
    );
    let w = s_type(number, rs2, rs1, funct3, opcode);
    bits::lemma_word_masks(w);
    alu_laws::lemma_extended(n as u64, 12, 0x1000);
}

proof fn lemma_b_type(offset: int, rs2: int, rs1: int, funct3: int, opcode: int)
    requires
        -4096 <= offset < 4096,
        offset % 2 == 0,
        fields_fit(0, rs2, rs1, funct3, 0, opcode),
    ensures
        ({
            let w = b_type(offset, rs2, rs1, funct3, opcode);
            &&& w & 0x7f == opcode
            &&& (w >> 12) & 7 == funct3
            &&& isa::register_field(w, 15) == rs1
            &&& isa::register_field(w, 20) == rs2
            &&& isa::imm_b(w) == wrapped(offset)
        }),
{
    let o = (offset % 8192) as u32;
    assert(o % 2 == 0);
    bits::lemma_immediates(0, o, 0, 0);
    let seven = (o >> 6u32) & 0x40 | (o >> 5u32) & 0x3f;
    let five = (o & 0x1e) | (o >> 11u32) & 1;
    bits::lemma_r_type(
        seven,
        rs2 as u32,
        rs1 as u32,
        funct3 as u32,
        five,
        opcode as u32,
    );
    bits::lemma_branch(
        o,
        rs2 as u32,
        rs1 as u32,
        funct3 as u32,
        opcode as u32,
    );
    alu_laws::lemma_extended(o as u64, 13, 0x2000);
}

proof fn lemma_upper(number: int, rd: int, opcode: int)
    requires
        0 <= rd < 32,
        0 <= opcode < 128,
    ensures
        u_type(number, rd, opcode) & 0x7f == opcode,
        isa::register_field(u_type(number, rd, opcode), 7) == rd,
        -0x8_0000 <= number < 0x8_0000 ==> isa::imm_u(u_type(number, rd, opcode)) == wrapped(
            number * 4096,
        ),
{
    let u = (number % 0x10_0000) as u32;
    bits::lemma_immediates(0, 0, u, 0);
    bits::lemma_low_fields(u << 12u32, rd as u32, opcode as u32);
    alu_laws::lemma_extended((4096 * u) as u64, 32, 0x1_0000_0000);
}

proof fn lemma_jump(offset: int, rd: int, opcode: int)
    requires
        0 <= rd < 32,
        0 <= opcode < 128,
        -0x10_0000 <= offset < 0x10_0000,
        offset % 2 == 0,
    ensures
        j_type(offset, rd, opcode) & 0x7f == opcode,
        isa::register_field(j_type(offset, rd, opcode), 7) == rd,
        isa::imm_j(j_type(offset, rd, opcode)) == wrapped(offset),
{
    let j = (offset % 0x20_0000) as u32;
    assert(j % 2 == 0);
    bits::lemma_immediates(0, 0, 0, j);
    let h = (((j >> 20u32) & 1) << 31u32) | (((j >> 1u32) & 0x3ff) << 21u32) | (((j >> 11u32) & 1)
        << 20u32) | (((j >> 12u32) & 0xff) << 12u32);
    bits::lemma_low_fields(h, rd as u32, opcode as u32);
    alu_laws::lemma_extended(j as u64, 21, 0x20_0000);
}

// What is left of the machine.

/// Only one register of the active hart changed, and register zero did not.
pub open spec fn only_register(m: MachineView, after: MachineView, rd: int, value: u64) -> bool {
    &&& after.devices == m.devices
    &&& after.active == m.active
    &&& after.harts.len() == m.harts.len()
    &&& forall|r: int|
        0 <= r < 32 ==> #[trigger] after.reg(r) == (if r == rd && rd != 0 {
            value
        } else {
            m.reg(r)
        })
    &&& after.hart().csrs == m.hart().csrs
    &&& after.hart().cpu.privilege == m.hart().cpu.privilege
    &&& after.hart().cpu.floating_registers == m.hart().cpu.floating_registers
    &&& after.hart().reservation == m.hart().reservation
    &&& after.hart().translation_cache == m.hart().translation_cache
    &&& forall|i: int|
        0 <= i < m.harts.len() && i != m.active ==> #[trigger] after.harts[i] == m.harts[i]
}

/// Execution goes on at an address.
pub open spec fn on(pc: int) -> Flow {
    Ok((wrapped(pc), None))
}

pub open spec fn placed(m: MachineView) -> bool {
    0 <= m.active < m.harts.len()
}

pub proof fn lemma_computes(m: MachineView, rd: int, value: u64, next: u64)
    requires
        placed(m),
        0 <= rd < 32,
    ensures
        only_register(m, m.computes(rd, value, next).0, rd, value),
        m.computes(rd, value, next).1 == Ok::<(u64, Option<HaltStatus>), MachineTrap>(
            (next, None),
        ),
{
}

// Arithmetic.

/// An instruction between registers reads its second and third operand fields,
/// in this order, and leaves the result in its first; reserved ones change
/// nothing.
pub proof fn register_instructions_write_their_result(
    m: MachineView,
    funct7: int,
    rs2: int,
    rs1: int,
    funct3: int,
    rd: int,
    pc: u64,
)
    requires
        placed(m),
        fields_fit(funct7, rs2, rs1, funct3, rd, 0),
    ensures
        ({
            let w = r_type(funct7, rs2, rs1, funct3, rd, 0x33);
            let (after, flow) = step::word_spec(m, w, pc);
            match alu::op_spec(funct7 as u32, funct3 as u32, m.reg(rs1), m.reg(rs2)) {
                Some(value) => flow == on(pc + 4) && only_register(m, after, rd, value),
                None => after == m && flow == Err::<(u64, Option<HaltStatus>), _>(
                    MachineTrap::IllegalInstruction { pc, instruction: w },
                ),
            }
        }),
        ({
            let w = r_type(funct7, rs2, rs1, funct3, rd, 0x3b);
            let (after, flow) = step::word_spec(m, w, pc);
            let a = (m.reg(rs1) % 0x1_0000_0000) as u32;
            let b = (m.reg(rs2) % 0x1_0000_0000) as u32;
            match alu::op_32_spec(funct7 as u32, funct3 as u32, a, b) {
                Some(word) => flow == on(pc + 4) && only_register(
                    m,
                    after,
                    rd,
                    wrapped(signed_word(word)),
                ),
                None => after == m && flow == Err::<(u64, Option<HaltStatus>), _>(
                    MachineTrap::IllegalInstruction { pc, instruction: w },
                ),
            }
        }),
{
    lemma_r_type(funct7, rs2, rs1, funct3, rd, 0x33);
    lemma_r_type(funct7, rs2, rs1, funct3, rd, 0x3b);
    alu_laws::lemma_signed(m.reg(rs1));
    alu_laws::lemma_signed(m.reg(rs2));
    let a = (m.reg(rs1) % 0x1_0000_0000) as u32;
    let b = (m.reg(rs2) % 0x1_0000_0000) as u32;
    if let Some(value) = alu::op_spec(funct7 as u32, funct3 as u32, m.reg(rs1), m.reg(rs2)) {
        lemma_computes(m, rd, value, pc.wrapping_add(4));
    }
    if let Some(word) = alu::op_32_spec(funct7 as u32, funct3 as u32, a, b) {
        alu_laws::lemma_word_extended(word);
        lemma_computes(m, rd, isa::sext(word as u64, 32), pc.wrapping_add(4));
    }
}

/// Subtraction leaves what, added to the second operand, gives the first.
pub proof fn subtraction_undoes_addition(m: MachineView, rs2: int, rs1: int, rd: int, pc: u64)
    requires
        placed(m),
        0 <= rs2 < 32,
        0 <= rs1 < 32,
        0 < rd < 32,
    ensures
        ({
            let after = step::word_spec(m, r_type(0x20, rs2, rs1, 0, rd, 0x33), pc).0;
            wrapped(after.reg(rd) + m.reg(rs2)) == m.reg(rs1)
        }),
{
    register_instructions_write_their_result(m, 0x20, rs2, rs1, 0, rd, pc);
    alu_laws::register_operations_compute(m.reg(rs1), m.reg(rs2));
}

/// An instruction with an immediate reads one register and the number in its
/// upper twelve bits.
pub proof fn immediate_instructions_write_their_result(
    m: MachineView,
    number: int,
    rs1: int,
    funct3: int,
    rd: int,
    pc: u64,
)
    requires
        placed(m),
        -2048 <= number < 2048,
        fields_fit(0, 0, rs1, funct3, rd, 0),
    ensures
        ({
            let w = i_type(number, rs1, funct3, rd, 0x13);
            let (after, flow) = step::word_spec(m, w, pc);
            let a = m.reg(rs1);
            let field = number % 4096;
            let result = if funct3 == 1 && field < 64 {
                alu::op_spec(0x00, 1, a, field as u64)
            } else if funct3 == 5 && field < 64 {
                alu::op_spec(0x00, 5, a, field as u64)
            } else if funct3 == 5 && 0x400 <= field < 0x440 {
                alu::op_spec(0x20, 5, a, (field - 0x400) as u64)
            } else if funct3 == 1 || funct3 == 5 {
                None
            } else {
                alu::op_spec(0x00, funct3 as u32, a, wrapped(number))
            };
            match result {
                Some(value) => flow == on(pc + 4) && only_register(m, after, rd, value),
                None => after == m && flow == Err::<(u64, Option<HaltStatus>), _>(
                    MachineTrap::IllegalInstruction { pc, instruction: w },
                ),
            }
        }),
        ({
            let w = i_type(number, rs1, funct3, rd, 0x1b);
            let (after, flow) = step::word_spec(m, w, pc);
            let a = (m.reg(rs1) % 0x1_0000_0000) as u32;
            let field = number % 4096;
            let result = if funct3 == 0 {
                alu::op_32_spec(0x00, 0, a, (wrapped(number) % 0x1_0000_0000) as u32)
            } else if (funct3 == 1 || funct3 == 5) && field < 32 {
                alu::op_32_spec(0x00, funct3 as u32, a, field as u32)
            } else if funct3 == 5 && 0x400 <= field < 0x420 {
                alu::op_32_spec(0x20, 5, a, (field - 0x400) as u32)
            } else {
                None
            };
            match result {
                Some(word) => flow == on(pc + 4) && only_register(
                    m,
                    after,
                    rd,
                    wrapped(signed_word(word)),
                ),
                None => after == m && flow == Err::<(u64, Option<HaltStatus>), _>(
                    MachineTrap::IllegalInstruction { pc, instruction: w },
                ),
            }
        }),
{
    let a = (m.reg(rs1) % 0x1_0000_0000) as u32;
    lemma_i_type(number, rs1, funct3, rd, 0x13);
    lemma_i_type(number, rs1, funct3, rd, 0x1b);
    alu_laws::lemma_signed(m.reg(rs1));
    alu_laws::lemma_signed(wrapped(number));
    let long = i_type(number, rs1, funct3, rd, 0x13);
    let short = i_type(number, rs1, funct3, rd, 0x1b);
    alu_laws::immediates_stand_for_registers(long, funct3 as u32, m.reg(rs1));
    alu_laws::word_immediates_stand_for_registers(short, funct3 as u32, a);
    if let Some(value) = alu::op_imm_spec(long, funct3 as u32, m.reg(rs1)) {
        lemma_computes(m, rd, value, pc.wrapping_add(4));
    }
    if let Some(word) = alu::op_imm_32_spec(short, funct3 as u32, a) {
        alu_laws::lemma_word_extended(word);
        lemma_computes(m, rd, isa::sext(word as u64, 32), pc.wrapping_add(4));
    }
}

/// The upper-immediate instructions load a multiple of 4096, or add it to the
/// address of the instruction.
pub proof fn upper_immediates_are_multiples_of_pages(
    m: MachineView,
    number: int,
    rd: int,
    pc: u64,
)
    requires
        placed(m),
        -0x8_0000 <= number < 0x8_0000,
        0 <= rd < 32,
    ensures
        ({
            let (after, flow) = step::word_spec(m, u_type(number, rd, 0x37), pc);
            flow == on(pc + 4) && only_register(m, after, rd, wrapped(number * 4096))
        }),
        ({
            let (after, flow) = step::word_spec(m, u_type(number, rd, 0x17), pc);
            flow == on(pc + 4) && only_register(m, after, rd, wrapped(pc + number * 4096))
        }),
{
    lemma_upper(number, rd, 0x37);
    lemma_upper(number, rd, 0x17);
    lemma_computes(m, rd, wrapped(number * 4096), pc.wrapping_add(4));
    lemma_computes(m, rd, pc.wrapping_add(wrapped(number * 4096)), pc.wrapping_add(4));
}

// Control transfers.

/// A branch goes to its own address plus its offset where its condition holds,
/// and on to the next instruction where it does not.
pub proof fn branches_go_where_they_say(
    m: MachineView,
    offset: int,
    rs2: int,
    rs1: int,
    funct3: int,
    pc: u64,
)
    requires
        placed(m),
        -4096 <= offset < 4096,
        offset % 2 == 0,
        pc % 2 == 0,
        fields_fit(0, rs2, rs1, funct3, 0, 0),
    ensures
        ({
            let w = b_type(offset, rs2, rs1, funct3, 0x63);
            let (after, flow) = step::word_spec(m, w, pc);
            &&& after == m
            &&& match alu::branch_spec(funct3 as u32, m.reg(rs1), m.reg(rs2)) {
                Some(true) => flow == on(pc + offset),
                Some(false) => flow == on(pc + 4),
                None => flow == Err::<(u64, Option<HaltStatus>), _>(
                    MachineTrap::IllegalInstruction { pc, instruction: w },
                ),
            }
        }),
{
    reveal(step::transfer_spec);
    lemma_b_type(offset, rs2, rs1, funct3, 0x63);
}

/// A jump leaves the address behind it in its register and goes to its own
/// address plus its offset.
pub proof fn jumps_link_the_next_instruction(m: MachineView, offset: int, rd: int, pc: u64)
    requires
        placed(m),
        -0x10_0000 <= offset < 0x10_0000,
        offset % 2 == 0,
        pc % 2 == 0,
        0 <= rd < 32,
    ensures
        ({
            let (after, flow) = step::word_spec(m, j_type(offset, rd, 0x6f), pc);
            flow == on(pc + offset) && only_register(m, after, rd, wrapped(pc + 4))
        }),
{
    lemma_jump(offset, rd, 0x6f);
    let w = j_type(offset, rd, 0x6f);
    let target = pc.wrapping_add(wrapped(offset));
    assert(target == wrapped(pc + offset));
    assert(target % 2 == 0);
    assert(step::word_spec(m, w, pc) == m.computes(rd, pc.wrapping_add(4), target)) by {
        reveal(step::transfer_spec);
    }
    lemma_computes(m, rd, pc.wrapping_add(4), target);
}

/// An indirect jump leaves the address behind it and goes to the sum of a
/// register and a number, made even.
pub proof fn indirect_jumps_go_to_the_sum(
    m: MachineView,
    number: int,
    rs1: int,
    rd: int,
    pc: u64,
)
    requires
        placed(m),
        -2048 <= number < 2048,
        0 <= rs1 < 32,
        0 <= rd < 32,
    ensures
        ({
            let (after, flow) = step::word_spec(m, i_type(number, rs1, 0, rd, 0x67), pc);
            let target = wrapped(m.reg(rs1) + number);
            flow == on(target - target % 2) && only_register(m, after, rd, wrapped(pc + 4))
        }),
{
    lemma_i_type(number, rs1, 0, rd, 0x67);
    let w = i_type(number, rs1, 0, rd, 0x67);
    let target = wrapped(m.reg(rs1) + number);
    alu_laws::lemma_signed(target);
    let even = (target - target % 2) as u64;
    assert(m.reg(rs1).wrapping_add(wrapped(number)) == target);
    assert(step::word_spec(m, w, pc) == m.computes(rd, pc.wrapping_add(4), even)) by {
        reveal(step::transfer_spec);
    }
    lemma_computes(m, rd, pc.wrapping_add(4), even);
}

// Memory.

/// The number of bytes that a load or store moves.
pub open spec fn width(funct3: int) -> u8 {
    if funct3 % 4 == 0 {
        1
    } else if funct3 % 4 == 1 {
        2
    } else if funct3 % 4 == 2 {
        4
    } else {
        8
    }
}

/// A load reads at the sum of a register and a number and leaves what it read,
/// with its sign or without.
pub proof fn loads_read_at_the_sum(
    m: MachineView,
    number: int,
    rs1: int,
    funct3: int,
    rd: int,
    pc: u64,
)
    requires
        placed(m),
        -2048 <= number < 2048,
        fields_fit(0, 0, rs1, funct3, rd, 0),
        funct3 < 7,
    ensures
        ({
            let (after, flow) = step::word_spec(m, i_type(number, rs1, funct3, rd, 0x03), pc);
            let address = wrapped(m.reg(rs1) + number);
            let (read, result) = mmu::load_spec(m, address, width(funct3), true);
            match result {
                Ok(value) => flow == on(pc + 4) && after == read.set_reg(
                    rd,
                    alu::extend_spec(value, width(funct3), funct3 < 4),
                ),
                Err(trap) => after == read && flow == Err::<(u64, Option<HaltStatus>), _>(trap),
            }
        }),
{
    reveal(step::memory_spec);
    lemma_i_type(number, rs1, funct3, rd, 0x03);
    alu_laws::loads_extend_what_they_read(funct3 as u32, 0);
}

/// A store writes a register at the sum of another and a number.
pub proof fn stores_write_at_the_sum(
    m: MachineView,
    number: int,
    rs2: int,
    rs1: int,
    funct3: int,
    pc: u64,
)
    requires
        placed(m),
        -2048 <= number < 2048,
        fields_fit(0, rs2, rs1, funct3, 0, 0),
        funct3 < 4,
    ensures
        ({
            let (after, flow) = step::word_spec(m, s_type(number, rs2, rs1, funct3, 0x23), pc);
            let address = wrapped(m.reg(rs1) + number);
            let (written, result) = mmu::store_spec(m, address, m.reg(rs2), width(funct3), true);
            &&& after == written
            &&& match result {
                Ok(halt) => flow == Ok::<_, MachineTrap>((wrapped(pc + 4), halt)),
                Err(trap) => flow == Err::<(u64, Option<HaltStatus>), _>(trap),
            }
        }),
{
    reveal(step::memory_spec);
    lemma_s_type(number, rs2, rs1, funct3, 0x23);
}

} // verus!
