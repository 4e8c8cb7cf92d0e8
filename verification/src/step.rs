//! Fetching and executing one instruction.

use crate::access::Flow;
use crate::alu;
use crate::alu::{branch, extend, load_form, op, op_32, op_imm, op_imm_32};
use crate::atomic;
use crate::compressed;
use crate::isa;
use crate::isa::{
    ecall_cause, immediate_b, immediate_i, immediate_j, immediate_s, immediate_u,
    sign_extend, AccessType, MachineTrap, Privilege, GUEST_PAGE_MASK,
};
use crate::machine::{Machine, MachineMetrics, MachineView};
use crate::mmu;
use crate::platform::HaltStatus;
use crate::zicsr;
use vstd::prelude::*;

verus! {

/// What a completed step tells the scheduler.
#[derive(Clone, Copy, Debug, PartialEq, Eq, Structural)]
pub struct StepEffect {
    pub halt: Option<HaltStatus>,
    pub retired: bool,
}

impl StepEffect {
    pub fn retired(halt: Option<HaltStatus>) -> (r: Self)
        ensures
            r == (StepEffect { halt, retired: true }),
    {
        StepEffect { halt, retired: true }
    }

    pub fn trapped_architecturally() -> (r: Self)
        ensures
            r == (StepEffect { halt: None, retired: false }),
    {
        StepEffect { halt: None, retired: false }
    }
}

/// An instruction as it was fetched.
#[derive(Clone, Copy, Debug, PartialEq, Eq, Structural)]
pub enum Fetched {
    Half(u16),
    Word(u32),
}

/// Register arithmetic; `None` for a reserved encoding.
pub open spec fn arithmetic_value(m: MachineView, instruction: u32, pc: u64) -> Option<u64> {
    let opcode = instruction & 0x7f;
    let funct3 = (instruction >> 12) & 7;
    let funct7 = instruction >> 25;
    let lhs = m.reg(isa::register_field(instruction, 15));
    let rhs = m.reg(isa::register_field(instruction, 20));
    if opcode == 0x13 {
        alu::op_imm_spec(instruction, funct3, lhs)
    } else if opcode == 0x17 {
        Some(pc.wrapping_add(isa::imm_u(instruction)))
    } else if opcode == 0x1b {
        match alu::op_imm_32_spec(instruction, funct3, lhs as u32) {
            Some(word) => Some(isa::sext(word as u64, 32)),
            None => None,
        }
    } else if opcode == 0x33 {
        alu::op_spec(funct7, funct3, lhs, rhs)
    } else if opcode == 0x37 {
        Some(isa::imm_u(instruction))
    } else {
        match alu::op_32_spec(funct7, funct3, lhs as u32, rhs as u32) {
            Some(word) => Some(isa::sext(word as u64, 32)),
            None => None,
        }
    }
}

/// Integer and floating-point loads and stores.
#[verifier::opaque]
pub open spec fn memory_spec(m: MachineView, instruction: u32, pc: u64) -> (MachineView, Flow) {
    let opcode = instruction & 0x7f;
    let rd = isa::register_field(instruction, 7);
    let funct3 = (instruction >> 12) & 7;
    let rs2 = isa::register_field(instruction, 20);
    let base = m.reg(isa::register_field(instruction, 15));
    let next = pc.wrapping_add(4);
    let from = base.wrapping_add(isa::imm_i(instruction));
    let to = base.wrapping_add(isa::imm_s(instruction));
    let float_bytes: u8 = if funct3 == 2 {
        4
    } else {
        8
    };
    if opcode == 0x03 {
        match alu::load_form_spec(funct3) {
            None => m.refuses(pc, instruction),
            Some((bytes, signed)) => {
                let (read, result) = mmu::load_spec(m, from, bytes, true);
                match result {
                    Ok(value) => read.computes(rd, alu::extend_spec(value, bytes, signed), next),
                    Err(trap) => (read, Err(trap)),
                }
            },
        }
    } else if opcode == 0x23 {
        if funct3 == 0 {
            m.stores(to, m.reg(rs2), 1, next)
        } else if funct3 == 1 {
            m.stores(to, m.reg(rs2), 2, next)
        } else if funct3 == 2 {
            m.stores(to, m.reg(rs2), 4, next)
        } else if funct3 == 3 {
            m.stores(to, m.reg(rs2), 8, next)
        } else {
            m.refuses(pc, instruction)
        }
    } else if !m.floating() || (funct3 != 2 && funct3 != 3) {
        m.refuses(pc, instruction)
    } else if opcode == 0x07 {
        m.float_loads(rd, from, float_bytes, false, next)
    } else {
        m.float_stores(to, rs2, float_bytes, false, next)
    }
}

/// Branches and jumps.
#[verifier::opaque]
pub open spec fn transfer_spec(m: MachineView, instruction: u32, pc: u64) -> (MachineView, Flow) {
    let opcode = instruction & 0x7f;
    let rd = isa::register_field(instruction, 7);
    let funct3 = (instruction >> 12) & 7;
    let lhs = m.reg(isa::register_field(instruction, 15));
    let rhs = m.reg(isa::register_field(instruction, 20));
    let next = pc.wrapping_add(4);
    if opcode == 0x63 {
        match alu::branch_spec(funct3, lhs, rhs) {
            None => m.refuses(pc, instruction),
            Some(taken) => if taken {
                m.jumps(pc.wrapping_add(isa::imm_b(instruction)))
            } else {
                m.goes_on(next)
            },
        }
    } else if opcode == 0x67 {
        if funct3 != 0 {
            m.refuses(pc, instruction)
        } else {
            m.links(lhs.wrapping_add(isa::imm_i(instruction)) & !1u64, rd, next)
        }
    } else {
        m.links(pc.wrapping_add(isa::imm_j(instruction)), rd, next)
    }
}

/// Floating-point computation.
#[verifier::opaque]
pub open spec fn float_spec(m: MachineView, instruction: u32, pc: u64) -> (MachineView, Flow) {
    let opcode = instruction & 0x7f;
    let (hart, result) = if opcode == 0x53 {
        m.hart().float_op_spec(
            instruction,
            isa::register_field(instruction, 7),
            isa::register_field(instruction, 15),
            isa::register_field(instruction, 20),
            (instruction >> 12) & 7,
            instruction >> 25,
            pc,
        )
    } else {
        m.hart().fused_spec(instruction, opcode, pc)
    };
    match result {
        Ok(_) => m.with_hart(hart).goes_on(pc.wrapping_add(4)),
        Err(trap) => (m.with_hart(hart), Err(trap)),
    }
}

/// Privileged instructions other than the environment call.
#[verifier::opaque]
pub open spec fn system_spec(m: MachineView, instruction: u32, pc: u64) -> (MachineView, Flow) {
    let next = pc.wrapping_add(4);
    let user = m.hart().cpu.privilege == Privilege::User;
    if (instruction >> 12) & 7 != 0 {
        zicsr::csr_instruction_spec(m, instruction, pc)
    } else if instruction == 0x0010_0073 {
        (m, Err(MachineTrap::Breakpoint { pc }))
    } else if instruction & 0xfe00_7fff == 0x1200_0073 {
        if user {
            m.refuses(pc, instruction)
        } else {
            m.flushed().goes_on(next)
        }
    } else if instruction == 0x1050_0073 {
        if user {
            m.refuses(pc, instruction)
        } else {
            m.goes_on(next)
        }
    } else if instruction == 0x1020_0073 {
        let (hart, target) = m.hart().sret_spec(pc, instruction);
        match target {
            Ok(target) => m.with_hart(hart).goes_on(target),
            Err(trap) => (m.with_hart(hart), Err(trap)),
        }
    } else if instruction == 0x3020_0073 {
        let (hart, target) = m.hart().mret_spec(pc, instruction);
        match target {
            Ok(target) => m.with_hart(hart).goes_on(target),
            Err(trap) => (m.with_hart(hart), Err(trap)),
        }
    } else {
        m.refuses(pc, instruction)
    }
}

/// Effect of a full-width instruction other than the environment call.
pub open spec fn word_spec(m: MachineView, instruction: u32, pc: u64) -> (MachineView, Flow) {
    let opcode = instruction & 0x7f;
    if opcode == 0x03 || opcode == 0x07 || opcode == 0x23 || opcode == 0x27 {
        memory_spec(m, instruction, pc)
    } else if opcode == 0x0f {
        if (instruction >> 12) & 7 > 1 {
            m.refuses(pc, instruction)
        } else {
            m.goes_on(pc.wrapping_add(4))
        }
    } else if opcode == 0x13 || opcode == 0x17 || opcode == 0x1b || opcode == 0x33 || opcode == 0x37
        || opcode == 0x3b {
        match arithmetic_value(m, instruction, pc) {
            Some(value) => m.computes(
                isa::register_field(instruction, 7),
                value,
                pc.wrapping_add(4),
            ),
            None => m.refuses(pc, instruction),
        }
    } else if opcode == 0x2f {
        atomic::atomic_spec(m, instruction, pc)
    } else if opcode == 0x43 || opcode == 0x47 || opcode == 0x4b || opcode == 0x4f || opcode
        == 0x53 {
        float_spec(m, instruction, pc)
    } else if opcode == 0x63 || opcode == 0x67 || opcode == 0x6f {
        transfer_spec(m, instruction, pc)
    } else if opcode == 0x73 {
        system_spec(m, instruction, pc)
    } else {
        m.refuses(pc, instruction)
    }
}

/// The environment call: a firmware service, or an exception.
pub open spec fn ecall_spec(m: MachineView, pc: u64) -> (
    MachineView,
    Result<StepEffect, MachineTrap>,
) {
    if m.hart().cpu.privilege == Privilege::Supervisor && m.firmware {
        let (served, result) = m.sbi_spec();
        match result {
            Ok(halt) => (
                served.with_hart(served.hart().jump(pc.wrapping_add(4))),
                Ok(StepEffect { halt, retired: false }),
            ),
            Err(trap) => (served, Err(trap)),
        }
    } else {
        (
            m.with_hart(
                m.hart().excepted(isa::ecall_cause_spec(m.hart().cpu.privilege), 0, pc),
            ),
            Ok(StepEffect { halt: None, retired: false }),
        )
    }
}

/// The instruction at `pc`. A word that crosses a page is translated twice.
#[verifier::opaque]
pub open spec fn fetch_spec(m: MachineView, pc: u64) -> (
    MachineView,
    Result<Fetched, MachineTrap>,
) {
    let (first, place) = mmu::translate_spec(m, pc, AccessType::Instruction);
    match place {
        Err(trap) => (first, Err(trap)),
        Ok(physical) => {
            let (read, half) = first.read_device_spec(physical, 2);
            match half {
                Err(_) => (read, Err(MachineTrap::InstructionAccessFault { address: pc })),
                Ok(half) => if (half as u16) & 3 != 3 {
                    (read, Ok(Fetched::Half(half as u16)))
                } else if pc & GUEST_PAGE_MASK == GUEST_PAGE_MASK - 1 {
                    let upper = pc.wrapping_add(2);
                    let (second, place) = mmu::translate_spec(
                        read,
                        upper,
                        AccessType::Instruction,
                    );
                    match place {
                        Err(trap) => (second, Err(trap)),
                        Ok(physical) => {
                            let (done, rest) = second.read_device_spec(physical, 2);
                            match rest {
                                Err(_) => (
                                    done,
                                    Err(MachineTrap::InstructionAccessFault { address: upper }),
                                ),
                                Ok(rest) => (
                                    done,
                                    Ok(
                                        Fetched::Word(
                                            (half as u16) as u32 | ((rest as u32) << 16),
                                        ),
                                    ),
                                ),
                            }
                        },
                    }
                } else {
                    let (done, word) = read.read_device_spec(physical, 4);
                    match word {
                        Err(_) => (done, Err(MachineTrap::InstructionAccessFault { address: pc })),
                        Ok(word) => (done, Ok(Fetched::Word(word as u32))),
                    }
                },
            }
        },
    }
}

/// Ends an executed instruction: the program counter moves and it retires.
pub open spec fn retired_spec(executed: (MachineView, Flow)) -> (
    MachineView,
    Result<StepEffect, MachineTrap>,
) {
    match executed.1 {
        Ok((next, halt)) => (
            executed.0.with_hart(executed.0.hart().jump(next)),
            Ok(StepEffect { halt, retired: true }),
        ),
        Err(trap) => (executed.0, Err(trap)),
    }
}

/// Effect of an instruction that was fetched from `pc`.
pub open spec fn execute_spec(m: MachineView, fetched: Fetched, pc: u64) -> (
    MachineView,
    Result<StepEffect, MachineTrap>,
) {
    match fetched {
        Fetched::Half(instruction) => retired_spec(
            compressed::compressed_spec(m, instruction, pc),
        ),
        Fetched::Word(instruction) => if instruction == 0x0000_0073 {
            ecall_spec(m, pc)
        } else {
            retired_spec(word_spec(m, instruction, pc))
        },
    }
}

/// One step of the active hart: take a pending interrupt, or execute the
/// instruction at the program counter.
#[verifier::opaque]
pub open spec fn step_spec(m: MachineView) -> (MachineView, Result<StepEffect, MachineTrap>) {
    let ready = m.with_hart(m.hart().refreshed(m.devices.mtime, m.firmware));
    match ready.hart().interrupt_spec() {
        Some(interrupt) => (
            ready.with_hart(ready.hart().interrupted(interrupt.0, interrupt.1)),
            Ok(StepEffect { halt: None, retired: false }),
        ),
        None => {
            let pc = ready.hart().cpu.pc;
            if pc & 1 != 0 {
                (ready, Err(MachineTrap::InstructionAddressMisaligned { address: pc }))
            } else {
                let counted = ready.with_metrics(
                    MachineMetrics {
                        instruction_fetches: ready.metrics.instruction_fetches.saturating_add(1),
                        ..ready.metrics
                    },
                );
                let (loaded, fetched) = fetch_spec(counted, pc);
                match fetched {
                    Ok(fetched) => execute_spec(loaded, fetched, pc),
                    Err(trap) => (loaded, Err(trap)),
                }
            }
        },
    }
}

impl Machine {
    fn arithmetic(&self, instruction: u32, pc: u64) -> (r: Option<u64>)
        requires
            self.wf(),
        ensures
            r == arithmetic_value(self@, instruction, pc),
    {
        let opcode: u32 = instruction & 0x7f;
        let funct3: u32 = (instruction >> 12) & 7;
        let funct7: u32 = instruction >> 25;
        let lhs: u64 = self.read_reg(isa::register_index(instruction, 15));
        let rhs: u64 = self.read_reg(isa::register_index(instruction, 20));
        if opcode == 0x13 {
            op_imm(instruction, funct3, lhs)
        } else if opcode == 0x17 {
            Some(pc.wrapping_add(immediate_u(instruction)))
        } else if opcode == 0x1b {
            match op_imm_32(instruction, funct3, lhs as u32) {
                Some(word) => Some(sign_extend(word as u64, 32)),
                None => None,
            }
        } else if opcode == 0x33 {
            op(funct7, funct3, lhs, rhs)
        } else if opcode == 0x37 {
            Some(immediate_u(instruction))
        } else {
            match op_32(funct7, funct3, lhs as u32, rhs as u32) {
                Some(word) => Some(sign_extend(word as u64, 32)),
                None => None,
            }
        }
    }

    fn execute_memory(&mut self, instruction: u32, pc: u64) -> (r: Flow)
        requires
            old(self).wf(),
        ensures
            final(self).wf(),
            (final(self)@, r) == memory_spec(old(self)@, instruction, pc),
    {
        proof {
            reveal(memory_spec);
        }
        let opcode: u32 = instruction & 0x7f;
        let rd: usize = isa::register_index(instruction, 7);
        let funct3: u32 = (instruction >> 12) & 7;
        let rs2: usize = isa::register_index(instruction, 20);
        let base: u64 = self.read_reg(isa::register_index(instruction, 15));
        let next: u64 = pc.wrapping_add(4);
        let from: u64 = base.wrapping_add(immediate_i(instruction));
        let to: u64 = base.wrapping_add(immediate_s(instruction));
        if opcode == 0x03 {
            let (bytes, signed) = match load_form(funct3) {
                Some(form) => form,
                None => {
                    return self.refuse(pc, instruction);
                },
            };
            let value: u64 = self.load(from, bytes, true)?;
            return self.compute(rd, extend(value, bytes, signed), next);
        }
        if opcode == 0x23 {
            let bytes: u8 = match funct3 {
                0 => 1,
                1 => 2,
                2 => 4,
                3 => 8,
                _ => {
                    return self.refuse(pc, instruction);
                },
            };
            let value: u64 = self.read_reg(rs2);
            return self.store_value(to, value, bytes, next);
        }
        if !self.float_enabled() || (funct3 != 2 && funct3 != 3) {
            return self.refuse(pc, instruction);
        }
        let bytes: u8 = if funct3 == 2 {
            4
        } else {
            8
        };
        if opcode == 0x07 {
            self.load_float(rd, from, bytes, false, next)
        } else {
            self.store_float(to, rs2, bytes, false, next)
        }
    }

    fn execute_transfer(&mut self, instruction: u32, pc: u64) -> (r: Flow)
        requires
            old(self).wf(),
        ensures
            final(self).wf(),
            (final(self)@, r) == transfer_spec(old(self)@, instruction, pc),
    {
        proof {
            reveal(transfer_spec);
        }
        let opcode: u32 = instruction & 0x7f;
        let rd: usize = isa::register_index(instruction, 7);
        let funct3: u32 = (instruction >> 12) & 7;
        let lhs: u64 = self.read_reg(isa::register_index(instruction, 15));
        let rhs: u64 = self.read_reg(isa::register_index(instruction, 20));
        let next: u64 = pc.wrapping_add(4);
        if opcode == 0x63 {
            match branch(funct3, lhs, rhs) {
                Some(true) => self.jump(pc.wrapping_add(immediate_b(instruction))),
                Some(false) => Ok((next, None)),
                None => self.refuse(pc, instruction),
            }
        } else if opcode == 0x67 {
            if funct3 != 0 {
                return self.refuse(pc, instruction);
            }
            self.link(lhs.wrapping_add(immediate_i(instruction)) & !1u64, rd, next)
        } else {
            self.link(pc.wrapping_add(immediate_j(instruction)), rd, next)
        }
    }

    fn execute_float(&mut self, instruction: u32, pc: u64) -> (r: Flow)
        requires
            old(self).wf(),
        ensures
            final(self).wf(),
            (final(self)@, r) == float_spec(old(self)@, instruction, pc),
    {
        proof {
            reveal(float_spec);
        }
        let opcode: u32 = instruction & 0x7f;
        let active: usize = self.active_hart_id;
        let result = if opcode == 0x53 {
            self.harts[active].execute_float_op(
                instruction,
                isa::register_index(instruction, 7),
                isa::register_index(instruction, 15),
                isa::register_index(instruction, 20),
                (instruction >> 12) & 7,
                instruction >> 25,
                pc,
            )
        } else {
            self.harts[active].execute_float_fused(instruction, opcode, pc)
        };
        match result {
            Ok(_) => Ok((pc.wrapping_add(4), None)),
            Err(trap) => Err(trap),
        }
    }

    fn execute_system(&mut self, instruction: u32, pc: u64) -> (r: Flow)
        requires
            old(self).wf(),
        ensures
            final(self).wf(),
            (final(self)@, r) == system_spec(old(self)@, instruction, pc),
    {
        proof {
            reveal(system_spec);
        }
        if (instruction >> 12) & 7 != 0 {
            return self.execute_csr(instruction, pc);
        }
        let next: u64 = pc.wrapping_add(4);
        let active: usize = self.active_hart_id;
        let user: bool = self.harts[active].cpu.privilege == Privilege::User;
        if instruction == 0x0010_0073 {
            Err(MachineTrap::Breakpoint { pc })
        } else if instruction & 0xfe00_7fff == 0x1200_0073 {
            if user {
                return self.refuse(pc, instruction);
            }
            self.flush_translation_cache();
            Ok((next, None))
        } else if instruction == 0x1050_0073 {
            if user {
                return self.refuse(pc, instruction);
            }
            Ok((next, None))
        } else if instruction == 0x1020_0073 {
            match self.harts[active].execute_sret(pc, instruction) {
                Ok(target) => Ok((target, None)),
                Err(trap) => Err(trap),
            }
        } else if instruction == 0x3020_0073 {
            match self.harts[active].execute_mret(pc, instruction) {
                Ok(target) => Ok((target, None)),
                Err(trap) => Err(trap),
            }
        } else {
            self.refuse(pc, instruction)
        }
    }

    /// Execute one full-width instruction other than the environment call.
    pub fn execute_word(&mut self, instruction: u32, pc: u64) -> (r: Flow)
        requires
            old(self).wf(),
        ensures
            final(self).wf(),
            (final(self)@, r) == word_spec(old(self)@, instruction, pc),
    {
        let opcode: u32 = instruction & 0x7f;
        match opcode {
            0x03 | 0x07 | 0x23 | 0x27 => self.execute_memory(instruction, pc),
            0x0f => {
                if (instruction >> 12) & 7 > 1 {
                    return self.refuse(pc, instruction);
                }
                Ok((pc.wrapping_add(4), None))
            },
            0x13 | 0x17 | 0x1b | 0x33 | 0x37 | 0x3b => {
                match self.arithmetic(instruction, pc) {
                    Some(value) => {
                        let rd: usize = isa::register_index(instruction, 7);
                        self.compute(rd, value, pc.wrapping_add(4))
                    },
                    None => self.refuse(pc, instruction),
                }
            },
            0x2f => self.execute_atomic(instruction, pc),
            0x43 | 0x47 | 0x4b | 0x4f | 0x53 => self.execute_float(instruction, pc),
            0x63 | 0x67 | 0x6f => self.execute_transfer(instruction, pc),
            0x73 => self.execute_system(instruction, pc),
            _ => self.refuse(pc, instruction),
        }
    }

    fn environment_call(&mut self, pc: u64) -> (r: Result<StepEffect, MachineTrap>)
        requires
            old(self).wf(),
        ensures
            final(self).wf(),
            (final(self)@, r) == ecall_spec(old(self)@, pc),
    {
        let active: usize = self.active_hart_id;
        let privilege = self.harts[active].cpu.privilege;
        if privilege == Privilege::Supervisor && self.firmware.enabled {
            let halt = self.handle_sbi_call()?;
            let active: usize = self.active_hart_id;
            self.harts[active].cpu.pc = pc.wrapping_add(4);
            return Ok(StepEffect { halt, retired: false });
        }
        self.harts[active].take_exception(ecall_cause(privilege), 0, pc);
        Ok(StepEffect::trapped_architecturally())
    }

    fn fetch(&mut self, pc: u64) -> (r: Result<Fetched, MachineTrap>)
        requires
            old(self).wf(),
        ensures
            final(self).wf(),
            (final(self)@, r) == fetch_spec(old(self)@, pc),
    {
        proof {
            reveal(fetch_spec);
        }
        let physical: u64 = self.translate(pc, AccessType::Instruction)?;
        let first: u16 = match self.read_device(physical, 2) {
            Ok(value) => value as u16,
            Err(_) => {
                return Err(MachineTrap::InstructionAccessFault { address: pc });
            },
        };
        if first & 3 != 3 {
            return Ok(Fetched::Half(first));
        }
        if pc & GUEST_PAGE_MASK == GUEST_PAGE_MASK - 1 {
            let upper: u64 = pc.wrapping_add(2);
            let second: u64 = self.translate(upper, AccessType::Instruction)?;
            match self.read_device(second, 2) {
                Ok(value) => Ok(Fetched::Word(first as u32 | ((value as u32) << 16))),
                Err(_) => Err(MachineTrap::InstructionAccessFault { address: upper }),
            }
        } else {
            match self.read_device(physical, 4) {
                Ok(value) => Ok(Fetched::Word(value as u32)),
                Err(_) => Err(MachineTrap::InstructionAccessFault { address: pc }),
            }
        }
    }

    fn retire(&mut self, flow: Flow) -> (r: Result<StepEffect, MachineTrap>)
        requires
            old(self).wf(),
        ensures
            final(self).wf(),
            (final(self)@, r) == retired_spec((old(self)@, flow)),
    {
        match flow {
            Ok((next, halt)) => {
                let active: usize = self.active_hart_id;
                self.harts[active].cpu.pc = next;
                Ok(StepEffect::retired(halt))
            },
            Err(trap) => Err(trap),
        }
    }

    /// Step the active hart once.
    pub fn step(&mut self) -> (r: Result<StepEffect, MachineTrap>)
        requires
            old(self).wf(),
        ensures
            final(self).wf(),
            (final(self)@, r) == step_spec(old(self)@),
    {
        proof {
            reveal(step_spec);
        }
        let active: usize = self.active_hart_id;
        let mtime: u64 = self.devices.mtime;
        let firmware: bool = self.firmware.enabled;
        self.harts[active].refresh_hardware_interrupts(mtime, firmware);
        if self.harts[active].take_pending_interrupt() {
            return Ok(StepEffect::trapped_architecturally());
        }
        let pc: u64 = self.harts[active].cpu.pc;
        if pc & 1 != 0 {
            return Err(MachineTrap::InstructionAddressMisaligned { address: pc });
        }
        self.metrics.instruction_fetches = self.metrics.instruction_fetches.saturating_add(1);
        proof {
            let m = old(self)@;
            let ready = m.with_hart(m.hart().refreshed(m.devices.mtime, m.firmware));
            assert(self@.harts =~= ready.harts);
        }
        let fetched = self.fetch(pc)?;
        match fetched {
            Fetched::Half(instruction) => {
                let flow = self.execute_compressed(instruction, pc);
                self.retire(flow)
            },
            Fetched::Word(instruction) => {
                if instruction == 0x0000_0073 {
                    return self.environment_call(pc);
                }
                let flow = self.execute_word(instruction, pc);
                self.retire(flow)
            },
        }
    }
}

} // verus!
