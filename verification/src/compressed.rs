//! RV64C: the sixteen-bit instruction forms.

use crate::access::Flow;
use crate::isa;
use crate::isa::{sign_extend, MachineTrap};
use crate::machine::{Machine, MachineView};
use vstd::prelude::*;

verus! {

/// Bits of an instruction moved to their place in an immediate.
pub open spec fn placed(instruction: u16, from: u16, mask: u16, to: u64) -> u64 {
    (((instruction >> from) & mask) as u64) << to
}

fn place(instruction: u16, from: u16, mask: u16, to: u64) -> (r: u64)
    requires
        from < 16,
        to < 64,
    ensures
        r == placed(instruction, from, mask, to),
{
    (((instruction >> from) & mask) as u64) << to
}

/// Six-bit signed immediate of the register forms. The bits above the sixth are
/// dropped by the sign extension.
pub open spec fn small_imm(instruction: u16) -> u64 {
    isa::sext(((instruction >> 2) & 0x1f) as u64 | (((instruction >> 12) as u64) << 5), 6)
}

pub fn compressed_immediate(instruction: u16) -> (r: u64)
    ensures
        r == small_imm(instruction),
{
    sign_extend(((instruction >> 2) & 0x1f) as u64 | (((instruction >> 12) as u64) << 5), 6)
}

pub open spec fn shift_amount(instruction: u16) -> u8 {
    (((instruction >> 2) & 0x1f) | (((instruction >> 12) & 1) << 5)) as u8
}

pub fn compressed_shift(instruction: u16) -> (r: u8)
    ensures
        r == shift_amount(instruction),
        r < 64,
{
    proof {
        crate::bits::lemma_half_fields(instruction);
    }
    (((instruction >> 2) & 0x1f) | (((instruction >> 12) & 1) << 5)) as u8
}

pub open spec fn upper_imm(instruction: u16) -> u64 {
    small_imm(instruction) << 12
}

pub fn compressed_lui_immediate(instruction: u16) -> (r: u64)
    ensures
        r == upper_imm(instruction),
{
    compressed_immediate(instruction) << 12
}

/// Scaled stack offset of `c.addi4spn`.
pub open spec fn addi4spn_imm(instruction: u16) -> u64 {
    placed(instruction, 7, 0xf, 6) | placed(instruction, 11, 0x3, 4)
        | placed(instruction, 5, 0x1, 3) | placed(instruction, 6, 0x1, 2)
}

pub fn compressed_addi4spn_immediate(instruction: u16) -> (r: u64)
    ensures
        r == addi4spn_imm(instruction),
{
    place(instruction, 7, 0xf, 6) | place(instruction, 11, 0x3, 4) | place(instruction, 5, 0x1, 3)
        | place(instruction, 6, 0x1, 2)
}

/// Offset of a register-relative word access.
pub open spec fn word_imm(instruction: u16) -> u64 {
    placed(instruction, 10, 0x7, 3) | placed(instruction, 6, 0x1, 2)
        | placed(instruction, 5, 0x1, 6)
}

pub fn compressed_word_immediate(instruction: u16) -> (r: u64)
    ensures
        r == word_imm(instruction),
{
    place(instruction, 10, 0x7, 3) | place(instruction, 6, 0x1, 2) | place(instruction, 5, 0x1, 6)
}

/// Offset of a register-relative doubleword access.
pub open spec fn double_imm(instruction: u16) -> u64 {
    placed(instruction, 10, 0x7, 3) | placed(instruction, 5, 0x3, 6)
}

pub fn compressed_double_immediate(instruction: u16) -> (r: u64)
    ensures
        r == double_imm(instruction),
{
    place(instruction, 10, 0x7, 3) | place(instruction, 5, 0x3, 6)
}

/// Stack adjustment of `c.addi16sp`.
pub open spec fn addi16sp_imm(instruction: u16) -> u64 {
    isa::sext(
        placed(instruction, 12, 0x1, 9) | placed(instruction, 6, 0x1, 4)
            | placed(instruction, 5, 0x1, 6) | placed(instruction, 3, 0x3, 7)
            | placed(instruction, 2, 0x1, 5),
        10,
    )
}

pub fn compressed_addi16sp_immediate(instruction: u16) -> (r: u64)
    ensures
        r == addi16sp_imm(instruction),
{
    sign_extend(
        place(instruction, 12, 0x1, 9) | place(instruction, 6, 0x1, 4)
            | place(instruction, 5, 0x1, 6) | place(instruction, 3, 0x3, 7)
            | place(instruction, 2, 0x1, 5),
        10,
    )
}

/// Offset of `c.j`.
pub open spec fn jump_imm(instruction: u16) -> u64 {
    isa::sext(
        placed(instruction, 12, 0x1, 11) | placed(instruction, 11, 0x1, 4)
            | placed(instruction, 9, 0x3, 8) | placed(instruction, 8, 0x1, 10)
            | placed(instruction, 7, 0x1, 6) | placed(instruction, 6, 0x1, 7)
            | placed(instruction, 3, 0x7, 1) | placed(instruction, 2, 0x1, 5),
        12,
    )
}

pub fn compressed_jump_immediate(instruction: u16) -> (r: u64)
    ensures
        r == jump_imm(instruction),
{
    sign_extend(
        place(instruction, 12, 0x1, 11) | place(instruction, 11, 0x1, 4)
            | place(instruction, 9, 0x3, 8) | place(instruction, 8, 0x1, 10)
            | place(instruction, 7, 0x1, 6) | place(instruction, 6, 0x1, 7)
            | place(instruction, 3, 0x7, 1) | place(instruction, 2, 0x1, 5),
        12,
    )
}

/// Offset of `c.beqz` and `c.bnez`.
pub open spec fn branch_imm(instruction: u16) -> u64 {
    isa::sext(
        placed(instruction, 12, 0x1, 8) | placed(instruction, 10, 0x3, 3)
            | placed(instruction, 5, 0x3, 6) | placed(instruction, 3, 0x3, 1)
            | placed(instruction, 2, 0x1, 5),
        9,
    )
}

pub fn compressed_branch_immediate(instruction: u16) -> (r: u64)
    ensures
        r == branch_imm(instruction),
{
    sign_extend(
        place(instruction, 12, 0x1, 8) | place(instruction, 10, 0x3, 3)
            | place(instruction, 5, 0x3, 6) | place(instruction, 3, 0x3, 1)
            | place(instruction, 2, 0x1, 5),
        9,
    )
}

/// Offset of a stack word load.
pub open spec fn word_sp_imm(instruction: u16) -> u64 {
    placed(instruction, 12, 0x1, 5) | placed(instruction, 4, 0x7, 2)
        | placed(instruction, 2, 0x3, 6)
}

pub fn compressed_word_sp_immediate(instruction: u16) -> (r: u64)
    ensures
        r == word_sp_imm(instruction),
{
    place(instruction, 12, 0x1, 5) | place(instruction, 4, 0x7, 2) | place(instruction, 2, 0x3, 6)
}

/// Offset of a stack doubleword load.
pub open spec fn double_sp_imm(instruction: u16) -> u64 {
    placed(instruction, 12, 0x1, 5) | placed(instruction, 5, 0x3, 3)
        | placed(instruction, 2, 0x7, 6)
}

pub fn compressed_double_sp_immediate(instruction: u16) -> (r: u64)
    ensures
        r == double_sp_imm(instruction),
{
    place(instruction, 12, 0x1, 5) | place(instruction, 5, 0x3, 3) | place(instruction, 2, 0x7, 6)
}

/// Offset of a stack word store.
pub open spec fn word_store_sp_imm(instruction: u16) -> u64 {
    placed(instruction, 9, 0xf, 2) | placed(instruction, 7, 0x3, 6)
}

pub fn compressed_word_store_sp_immediate(instruction: u16) -> (r: u64)
    ensures
        r == word_store_sp_imm(instruction),
{
    place(instruction, 9, 0xf, 2) | place(instruction, 7, 0x3, 6)
}

/// Offset of a stack doubleword store.
pub open spec fn double_store_sp_imm(instruction: u16) -> u64 {
    placed(instruction, 10, 0x7, 3) | placed(instruction, 7, 0x7, 6)
}

pub fn compressed_double_store_sp_immediate(instruction: u16) -> (r: u64)
    ensures
        r == double_store_sp_imm(instruction),
{
    place(instruction, 10, 0x7, 3) | place(instruction, 7, 0x7, 6)
}

/// Register named by five bits.
pub open spec fn full_register(instruction: u16, shift: u16) -> int {
    ((instruction >> shift) & 0x1f) as int
}

/// One of registers 8 to 15, named by three bits.
pub open spec fn short_register(instruction: u16, shift: u16) -> int {
    8 + ((instruction >> shift) & 0x7)
}

fn full(instruction: u16, shift: u16) -> (r: usize)
    requires
        shift < 16,
    ensures
        r == full_register(instruction, shift),
        r < 32,
{
    let field: u16 = (instruction >> shift) & 0x1f;
    proof {
        crate::bits::lemma_masked(0, 0, 0, 0, instruction >> shift, 0x1f);
    }
    field as usize
}

fn short(instruction: u16, shift: u16) -> (r: usize)
    requires
        shift < 16,
    ensures
        r == short_register(instruction, shift),
        r < 32,
{
    let field: u16 = (instruction >> shift) & 0x7;
    proof {
        crate::bits::lemma_masked(0, 0, 0, 0, instruction >> shift, 0x7);
    }
    8 + field as usize
}

/// The first quadrant: stack addresses, and loads and stores through the short
/// registers.
#[verifier::opaque]
pub open spec fn quadrant0_spec(m: MachineView, instruction: u16, pc: u64) -> (MachineView, Flow) {
    let funct3 = instruction >> 13;
    let rd = short_register(instruction, 2);
    let base = m.reg(short_register(instruction, 7));
    let next = pc.wrapping_add(2);
    let word = base.wrapping_add(word_imm(instruction));
    let double = base.wrapping_add(double_imm(instruction));
    let refused = m.refuses(pc, instruction as u32);
    if funct3 == 0 {
        if addi4spn_imm(instruction) == 0 {
            refused
        } else {
            m.computes(rd, m.reg(2).wrapping_add(addi4spn_imm(instruction)), next)
        }
    } else if funct3 == 1 {
        if m.floating() {
            m.float_loads(rd, double, 8, true, next)
        } else {
            refused
        }
    } else if funct3 == 2 {
        m.loads(rd, word, 4, next)
    } else if funct3 == 3 {
        m.loads(rd, double, 8, next)
    } else if funct3 == 5 {
        if m.floating() {
            m.float_stores(double, rd, 8, true, next)
        } else {
            refused
        }
    } else if funct3 == 6 {
        m.stores(word, m.reg(rd), 4, next)
    } else if funct3 == 7 {
        m.stores(double, m.reg(rd), 8, next)
    } else {
        refused
    }
}

/// Register-register arithmetic of the second quadrant; `None` when reserved.
pub open spec fn short_arithmetic(instruction: u16, lhs: u64, rhs: u64) -> Option<u64> {
    let wide = (instruction >> 12) & 1;
    let selector = (instruction >> 5) & 3;
    if wide == 0 {
        if selector == 0 {
            Some(lhs.wrapping_sub(rhs))
        } else if selector == 1 {
            Some(lhs ^ rhs)
        } else if selector == 2 {
            Some(lhs | rhs)
        } else {
            Some(lhs & rhs)
        }
    } else if selector == 0 {
        Some(isa::sext((lhs as u32).wrapping_sub(rhs as u32) as u64, 32))
    } else if selector == 1 {
        Some(isa::sext((lhs as u32).wrapping_add(rhs as u32) as u64, 32))
    } else {
        None
    }
}

fn compute_short(instruction: u16, lhs: u64, rhs: u64) -> (r: Option<u64>)
    ensures
        r == short_arithmetic(instruction, lhs, rhs),
{
    let wide: u16 = (instruction >> 12) & 1;
    let selector: u16 = (instruction >> 5) & 3;
    if wide == 0 {
        if selector == 0 {
            Some(lhs.wrapping_sub(rhs))
        } else if selector == 1 {
            Some(lhs ^ rhs)
        } else if selector == 2 {
            Some(lhs | rhs)
        } else {
            Some(lhs & rhs)
        }
    } else if selector == 0 {
        Some(sign_extend((lhs as u32).wrapping_sub(rhs as u32) as u64, 32))
    } else if selector == 1 {
        Some(sign_extend((lhs as u32).wrapping_add(rhs as u32) as u64, 32))
    } else {
        None
    }
}

/// The arithmetic group of the second quadrant.
#[verifier::opaque]
pub open spec fn arithmetic_spec(m: MachineView, instruction: u16, pc: u64) -> (MachineView, Flow) {
    let selector = (instruction >> 10) & 3;
    let rd = short_register(instruction, 7);
    let lhs = m.reg(rd);
    let rhs = m.reg(short_register(instruction, 2));
    let next = pc.wrapping_add(2);
    if selector == 0 {
        m.computes(rd, lhs >> shift_amount(instruction), next)
    } else if selector == 1 {
        m.computes(rd, ((lhs as i64) >> shift_amount(instruction)) as u64, next)
    } else if selector == 2 {
        m.computes(rd, lhs & small_imm(instruction), next)
    } else {
        match short_arithmetic(instruction, lhs, rhs) {
            Some(value) => m.computes(rd, value, next),
            None => m.refuses(pc, instruction as u32),
        }
    }
}

/// The second quadrant: immediates, arithmetic and direct control transfers.
#[verifier::opaque]
pub open spec fn quadrant1_spec(m: MachineView, instruction: u16, pc: u64) -> (MachineView, Flow) {
    let funct3 = instruction >> 13;
    let rd = full_register(instruction, 7);
    let next = pc.wrapping_add(2);
    let refused = m.refuses(pc, instruction as u32);
    let immediate = small_imm(instruction);
    if funct3 == 0 {
        m.computes(rd, m.reg(rd).wrapping_add(immediate), next)
    } else if funct3 == 1 {
        if rd == 0 {
            refused
        } else {
            m.computes(
                rd,
                isa::sext((m.reg(rd) as u32).wrapping_add(immediate as u32) as u64, 32),
                next,
            )
        }
    } else if funct3 == 2 {
        m.computes(rd, immediate, next)
    } else if funct3 == 3 && rd == 2 {
        if addi16sp_imm(instruction) == 0 {
            refused
        } else {
            m.computes(2, m.reg(2).wrapping_add(addi16sp_imm(instruction)), next)
        }
    } else if funct3 == 3 {
        if rd == 0 || upper_imm(instruction) == 0 {
            refused
        } else {
            m.computes(rd, upper_imm(instruction), next)
        }
    } else if funct3 == 4 {
        arithmetic_spec(m, instruction, pc)
    } else if funct3 == 5 {
        m.jumps(pc.wrapping_add(jump_imm(instruction)))
    } else if (m.reg(short_register(instruction, 7)) == 0) == (funct3 == 6) {
        m.jumps(pc.wrapping_add(branch_imm(instruction)))
    } else {
        m.goes_on(next)
    }
}

/// Register jumps, moves and additions of the third quadrant.
#[verifier::opaque]
pub open spec fn register_group_spec(m: MachineView, instruction: u16, pc: u64) -> (
    MachineView,
    Flow,
) {
    let linking = (instruction >> 12) & 1 != 0;
    let rd = full_register(instruction, 7);
    let rs2 = full_register(instruction, 2);
    let next = pc.wrapping_add(2);
    if !linking && rs2 == 0 {
        if rd == 0 {
            m.refuses(pc, instruction as u32)
        } else {
            m.jumps(m.reg(rd) & !1u64)
        }
    } else if !linking {
        m.computes(rd, m.reg(rs2), next)
    } else if rs2 == 0 {
        if rd == 0 {
            (m, Err(MachineTrap::Breakpoint { pc }))
        } else {
            m.links(m.reg(rd) & !1u64, 1, next)
        }
    } else {
        m.computes(rd, m.reg(rd).wrapping_add(m.reg(rs2)), next)
    }
}

/// The third quadrant: stack accesses and the register forms.
#[verifier::opaque]
pub open spec fn quadrant2_spec(m: MachineView, instruction: u16, pc: u64) -> (MachineView, Flow) {
    let funct3 = instruction >> 13;
    let rd = full_register(instruction, 7);
    let rs2 = full_register(instruction, 2);
    let next = pc.wrapping_add(2);
    let refused = m.refuses(pc, instruction as u32);
    let stack = m.reg(2);
    if funct3 == 0 {
        m.computes(rd, m.reg(rd) << shift_amount(instruction), next)
    } else if funct3 == 1 {
        if m.floating() {
            m.float_loads(rd, stack.wrapping_add(double_sp_imm(instruction)), 8, true, next)
        } else {
            refused
        }
    } else if funct3 == 2 {
        if rd == 0 {
            refused
        } else {
            m.loads(rd, stack.wrapping_add(word_sp_imm(instruction)), 4, next)
        }
    } else if funct3 == 3 {
        if rd == 0 {
            refused
        } else {
            m.loads(rd, stack.wrapping_add(double_sp_imm(instruction)), 8, next)
        }
    } else if funct3 == 4 {
        register_group_spec(m, instruction, pc)
    } else if funct3 == 5 {
        if m.floating() {
            m.float_stores(
                stack.wrapping_add(double_store_sp_imm(instruction)),
                rs2,
                8,
                true,
                next,
            )
        } else {
            refused
        }
    } else if funct3 == 6 {
        m.stores(stack.wrapping_add(word_store_sp_imm(instruction)), m.reg(rs2), 4, next)
    } else {
        m.stores(stack.wrapping_add(double_store_sp_imm(instruction)), m.reg(rs2), 8, next)
    }
}

/// Effect of one compressed instruction.
pub open spec fn compressed_spec(m: MachineView, instruction: u16, pc: u64) -> (MachineView, Flow) {
    let quadrant = instruction & 3;
    if quadrant == 0 {
        quadrant0_spec(m, instruction, pc)
    } else if quadrant == 1 {
        quadrant1_spec(m, instruction, pc)
    } else if quadrant == 2 {
        quadrant2_spec(m, instruction, pc)
    } else {
        m.refuses(pc, instruction as u32)
    }
}

proof fn lemma_funct3(instruction: u16)
    ensures
        instruction >> 13 <= 7,
{
    crate::bits::lemma_masked(0, 0, 0, 0, instruction, 0);
}

impl Machine {
    fn quadrant0(&mut self, instruction: u16, pc: u64) -> (r: Flow)
        requires
            old(self).wf(),
        ensures
            final(self).wf(),
            (final(self)@, r) == quadrant0_spec(old(self)@, instruction, pc),
    {
        proof {
            reveal(quadrant0_spec);
        }
        let funct3: u16 = instruction >> 13;
        let rd: usize = short(instruction, 2);
        let base: u64 = self.read_reg(short(instruction, 7));
        let next: u64 = pc.wrapping_add(2);
        let word: u64 = base.wrapping_add(compressed_word_immediate(instruction));
        let double: u64 = base.wrapping_add(compressed_double_immediate(instruction));
        if funct3 == 0 {
            let immediate: u64 = compressed_addi4spn_immediate(instruction);
            if immediate == 0 {
                return self.refuse(pc, instruction as u32);
            }
            let value: u64 = self.read_reg(2).wrapping_add(immediate);
            self.compute(rd, value, next)
        } else if funct3 == 1 {
            if !self.float_enabled() {
                return self.refuse(pc, instruction as u32);
            }
            self.load_float(rd, double, 8, true, next)
        } else if funct3 == 2 {
            self.load_register(rd, word, 4, next)
        } else if funct3 == 3 {
            self.load_register(rd, double, 8, next)
        } else if funct3 == 5 {
            if !self.float_enabled() {
                return self.refuse(pc, instruction as u32);
            }
            self.store_float(double, rd, 8, true, next)
        } else if funct3 == 6 {
            let value: u64 = self.read_reg(rd);
            self.store_value(word, value, 4, next)
        } else if funct3 == 7 {
            let value: u64 = self.read_reg(rd);
            self.store_value(double, value, 8, next)
        } else {
            self.refuse(pc, instruction as u32)
        }
    }

    fn compressed_arithmetic(&mut self, instruction: u16, pc: u64) -> (r: Flow)
        requires
            old(self).wf(),
        ensures
            final(self).wf(),
            (final(self)@, r) == arithmetic_spec(old(self)@, instruction, pc),
    {
        proof {
            reveal(arithmetic_spec);
        }
        let selector: u16 = (instruction >> 10) & 3;
        let rd: usize = short(instruction, 7);
        let lhs: u64 = self.read_reg(rd);
        let next: u64 = pc.wrapping_add(2);
        let shift: u8 = compressed_shift(instruction);
        if selector == 0 {
            self.compute(rd, lhs >> shift, next)
        } else if selector == 1 {
            self.compute(rd, ((lhs as i64) >> shift) as u64, next)
        } else if selector == 2 {
            self.compute(rd, lhs & compressed_immediate(instruction), next)
        } else {
            let rhs: u64 = self.read_reg(short(instruction, 2));
            match compute_short(instruction, lhs, rhs) {
                Some(value) => self.compute(rd, value, next),
                None => self.refuse(pc, instruction as u32),
            }
        }
    }

    fn quadrant1(&mut self, instruction: u16, pc: u64) -> (r: Flow)
        requires
            old(self).wf(),
        ensures
            final(self).wf(),
            (final(self)@, r) == quadrant1_spec(old(self)@, instruction, pc),
    {
        proof {
            reveal(quadrant1_spec);
            lemma_funct3(instruction);
        }
        let funct3: u16 = instruction >> 13;
        let rd: usize = full(instruction, 7);
        let next: u64 = pc.wrapping_add(2);
        let immediate: u64 = compressed_immediate(instruction);
        let current: u64 = self.read_reg(rd);
        if funct3 == 0 {
            self.compute(rd, current.wrapping_add(immediate), next)
        } else if funct3 == 1 {
            if rd == 0 {
                return self.refuse(pc, instruction as u32);
            }
            let value: u32 = (current as u32).wrapping_add(immediate as u32);
            self.compute(rd, sign_extend(value as u64, 32), next)
        } else if funct3 == 2 {
            self.compute(rd, immediate, next)
        } else if funct3 == 3 && rd == 2 {
            let adjustment: u64 = compressed_addi16sp_immediate(instruction);
            if adjustment == 0 {
                return self.refuse(pc, instruction as u32);
            }
            self.compute(2, current.wrapping_add(adjustment), next)
        } else if funct3 == 3 {
            let upper: u64 = compressed_lui_immediate(instruction);
            if rd == 0 || upper == 0 {
                return self.refuse(pc, instruction as u32);
            }
            self.compute(rd, upper, next)
        } else if funct3 == 4 {
            self.compressed_arithmetic(instruction, pc)
        } else if funct3 == 5 {
            self.jump(pc.wrapping_add(compressed_jump_immediate(instruction)))
        } else {
            let zero: bool = self.read_reg(short(instruction, 7)) == 0;
            if zero == (funct3 == 6) {
                self.jump(pc.wrapping_add(compressed_branch_immediate(instruction)))
            } else {
                Ok((next, None))
            }
        }
    }

    fn register_group(&mut self, instruction: u16, pc: u64) -> (r: Flow)
        requires
            old(self).wf(),
        ensures
            final(self).wf(),
            (final(self)@, r) == register_group_spec(old(self)@, instruction, pc),
    {
        proof {
            reveal(register_group_spec);
        }
        let linking: bool = (instruction >> 12) & 1 != 0;
        let rd: usize = full(instruction, 7);
        let rs2: usize = full(instruction, 2);
        let next: u64 = pc.wrapping_add(2);
        let current: u64 = self.read_reg(rd);
        let source: u64 = self.read_reg(rs2);
        if !linking && rs2 == 0 {
            if rd == 0 {
                return self.refuse(pc, instruction as u32);
            }
            self.jump(current & !1u64)
        } else if !linking {
            self.compute(rd, source, next)
        } else if rs2 == 0 {
            if rd == 0 {
                return Err(MachineTrap::Breakpoint { pc });
            }
            self.link(current & !1u64, 1, next)
        } else {
            self.compute(rd, current.wrapping_add(source), next)
        }
    }

    fn quadrant2(&mut self, instruction: u16, pc: u64) -> (r: Flow)
        requires
            old(self).wf(),
        ensures
            final(self).wf(),
            (final(self)@, r) == quadrant2_spec(old(self)@, instruction, pc),
    {
        proof {
            reveal(quadrant2_spec);
            lemma_funct3(instruction);
        }
        let funct3: u16 = instruction >> 13;
        let rd: usize = full(instruction, 7);
        let rs2: usize = full(instruction, 2);
        let next: u64 = pc.wrapping_add(2);
        let stack: u64 = self.read_reg(2);
        let source: u64 = self.read_reg(rs2);
        if funct3 == 0 {
            let shift: u8 = compressed_shift(instruction);
            let value: u64 = self.read_reg(rd) << shift;
            self.compute(rd, value, next)
        } else if funct3 == 1 {
            if !self.float_enabled() {
                return self.refuse(pc, instruction as u32);
            }
            let address: u64 = stack.wrapping_add(compressed_double_sp_immediate(instruction));
            self.load_float(rd, address, 8, true, next)
        } else if funct3 == 2 || funct3 == 3 {
            if rd == 0 {
                return self.refuse(pc, instruction as u32);
            }
            if funct3 == 2 {
                let address: u64 = stack.wrapping_add(compressed_word_sp_immediate(instruction));
                self.load_register(rd, address, 4, next)
            } else {
                let address: u64 = stack.wrapping_add(compressed_double_sp_immediate(instruction));
                self.load_register(rd, address, 8, next)
            }
        } else if funct3 == 4 {
            self.register_group(instruction, pc)
        } else if funct3 == 5 {
            if !self.float_enabled() {
                return self.refuse(pc, instruction as u32);
            }
            let address: u64 = stack.wrapping_add(compressed_double_store_sp_immediate(instruction));
            self.store_float(address, rs2, 8, true, next)
        } else if funct3 == 6 {
            let address: u64 = stack.wrapping_add(compressed_word_store_sp_immediate(instruction));
            self.store_value(address, source, 4, next)
        } else {
            let address: u64 = stack.wrapping_add(compressed_double_store_sp_immediate(instruction));
            self.store_value(address, source, 8, next)
        }
    }

    /// Execute one sixteen-bit instruction at `pc`.
    pub fn execute_compressed(&mut self, instruction: u16, pc: u64) -> (r: Flow)
        requires
            old(self).wf(),
        ensures
            final(self).wf(),
            (final(self)@, r) == compressed_spec(old(self)@, instruction, pc),
    {
        let quadrant: u16 = instruction & 3;
        if quadrant == 0 {
            self.quadrant0(instruction, pc)
        } else if quadrant == 1 {
            self.quadrant1(instruction, pc)
        } else if quadrant == 2 {
            self.quadrant2(instruction, pc)
        } else {
            self.refuse(pc, instruction as u32)
        }
    }
}

} // verus!
