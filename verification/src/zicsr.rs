//! Control and status register instructions.

use crate::access::Flow;
use crate::hart::{HartState, TranslationCache};
use crate::isa;
use crate::isa::Csr;
use crate::machine::{Machine, MachineMetrics, MachineView};
use vstd::prelude::*;

verus! {

impl MachineView {
    /// Machine whose active hart remembers no translation.
    pub open spec fn flushed(self) -> MachineView {
        self.with_hart(
            HartState { translation_cache: TranslationCache::empty(), ..self.hart() },
        ).with_metrics(
            MachineMetrics {
                translation_cache_flushes: self.metrics.translation_cache_flushes.saturating_add(1),
                ..self.metrics
            },
        )
    }

    /// Machine after a register write; a new address space drops translations.
    pub open spec fn csr_written(self, csr: Csr, value: u64) -> MachineView {
        let hart = self.hart();
        match csr {
            Csr::Mcycle => self.with_hart(HartState { cycle: value, ..hart }),
            Csr::Minstret => self.with_hart(HartState { instret: value, ..hart }),
            Csr::Satp => {
                let csrs = hart.csrs.set(csr, value);
                let written = self.with_hart(HartState { csrs, ..hart });
                if csrs.satp != hart.csrs.satp {
                    written.flushed()
                } else {
                    written
                }
            },
            _ => self.with_hart(HartState { csrs: hart.csrs.set(csr, value), ..hart }),
        }
    }
}

/// Effect of one CSR instruction: atomic read and write, set or clear, where a
/// zero source of the last two does not write and a zero destination of the
/// first does not read.
#[verifier::opaque]
pub open spec fn csr_instruction_spec(m: MachineView, instruction: u32, pc: u64) -> (
    MachineView,
    Flow,
) {
    let funct3 = (instruction >> 12) & 7;
    let rd = isa::register_field(instruction, 7);
    let rs1 = isa::register_field(instruction, 15);
    let source = if funct3 & 4 == 0 {
        m.reg(rs1)
    } else {
        rs1 as u64
    };
    let operation = funct3 & 3;
    let writes = operation == 1 || rs1 != 0;
    let reads = operation != 1 || rd != 0;
    let next = pc.wrapping_add(4);
    if operation == 0 {
        m.refuses(pc, instruction)
    } else {
        match m.hart().csrs.access_spec(
            (instruction >> 20) as u16,
            m.hart().cpu.privilege,
            writes,
        ) {
            None => m.refuses(pc, instruction),
            Some(csr) => {
                let before = m.csr_spec(csr);
                let value = if operation == 1 {
                    source
                } else if operation == 2 {
                    before | source
                } else {
                    before & !source
                };
                let written = if writes {
                    m.csr_written(csr, value)
                } else {
                    m
                };
                if reads {
                    written.computes(rd, before, next)
                } else {
                    written.goes_on(next)
                }
            },
        }
    }
}

impl Machine {
    pub fn flush_translation_cache(&mut self)
        requires
            old(self).wf(),
        ensures
            final(self).wf(),
            final(self)@ == old(self)@.flushed(),
    {
        let active: usize = self.active_hart_id;
        self.harts[active].translation_cache.clear();
        self.metrics.translation_cache_flushes =
        self.metrics.translation_cache_flushes.saturating_add(1);
    }

    pub fn write_csr(&mut self, csr: Csr, value: u64)
        requires
            old(self).wf(),
        ensures
            final(self).wf(),
            final(self)@ == old(self)@.csr_written(csr, value),
    {
        let active: usize = self.active_hart_id;
        match csr {
            Csr::Mcycle => {
                self.harts[active].cycle = value;
            },
            Csr::Minstret => {
                self.harts[active].instret = value;
            },
            Csr::Satp => {
                let previous: u64 = self.harts[active].csrs.satp;
                self.harts[active].csrs.write(csr, value);
                if self.harts[active].csrs.satp != previous {
                    self.flush_translation_cache();
                }
            },
            _ => {
                self.harts[active].csrs.write(csr, value);
            },
        }
    }

    /// Execute one CSR instruction at `pc`.
    pub fn execute_csr(&mut self, instruction: u32, pc: u64) -> (r: Flow)
        requires
            old(self).wf(),
        ensures
            final(self).wf(),
            (final(self)@, r) == csr_instruction_spec(old(self)@, instruction, pc),
    {
        proof {
            reveal(csr_instruction_spec);
        }
        let funct3: u32 = (instruction >> 12) & 7;
        let rd: usize = isa::register_index(instruction, 7);
        let rs1: usize = isa::register_index(instruction, 15);
        let next: u64 = pc.wrapping_add(4);
        let source: u64 = if funct3 & 4 == 0 {
            self.read_reg(rs1)
        } else {
            rs1 as u64
        };
        let operation: u32 = funct3 & 3;
        let reads: bool = operation != 1 || rd != 0;
        let writes: bool = operation == 1 || rs1 != 0;
        if operation == 0 {
            return self.refuse(pc, instruction);
        }
        let active: usize = self.active_hart_id;
        let privilege = self.harts[active].cpu.privilege;
        let csr = match self.harts[active].csrs.validate_access(
            (instruction >> 20) as u16,
            privilege,
            writes,
        ) {
            Some(csr) => csr,
            None => {
                return self.refuse(pc, instruction);
            },
        };
        let before: u64 = self.csr(csr);
        if writes {
            let value: u64 = if operation == 1 {
                source
            } else if operation == 2 {
                before | source
            } else {
                before & !source
            };
            self.write_csr(csr, value);
        }
        if reads {
            self.write_reg(rd, before);
        }
        Ok((next, None))
    }
}

/// A CSR instruction with a zero set or clear source leaves every register of
/// the machine but its destination as it was.
pub proof fn csr_read_has_no_other_effect(m: MachineView, instruction: u32, pc: u64)
    requires
        (instruction >> 12) & 3 != 1,
        isa::register_field(instruction, 15) == 0,
        0 <= m.active < m.harts.len(),
    ensures
        ({
            let after = csr_instruction_spec(m, instruction, pc).0;
            &&& after.devices == m.devices
            &&& after.hart().csrs == m.hart().csrs
            &&& after.hart().translation_cache == m.hart().translation_cache
            &&& forall|r: int|
                0 <= r < 32 && r != isa::register_field(instruction, 7) ==> #[trigger] after.reg(r)
                    == m.reg(r)
        }),
{
    reveal(csr_instruction_spec);
    crate::bits::lemma_masked(0, 0, instruction >> 12, 7, 0, 0);
    crate::bits::lemma_masked(0, 0, instruction >> 7, 0x1f, 0, 0);
}

} // verus!
