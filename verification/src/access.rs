//! Register and memory operations that instruction execution is built from.

use crate::alu;
use crate::alu::width_extend;
use crate::isa;
use crate::isa::{ensure_instruction_aligned, illegal, MachineTrap};
use crate::machine::{Machine, MachineView};
use crate::mmu;
use crate::platform::HaltStatus;
use vstd::prelude::*;

verus! {

/// How an instruction ends: the next program counter and an optional halt, or
/// the trap that stopped it.
pub type Flow = Result<(u64, Option<HaltStatus>), MachineTrap>;

impl MachineView {
    pub open spec fn goes_on(self, next: u64) -> (MachineView, Flow) {
        (self, Ok((next, None)))
    }

    pub open spec fn refuses(self, pc: u64, instruction: u32) -> (MachineView, Flow) {
        (self, Err(isa::illegal_spec(pc, instruction)))
    }

    /// An integer result written to a register.
    pub open spec fn computes(self, rd: int, value: u64, next: u64) -> (MachineView, Flow) {
        self.set_reg(rd, value).goes_on(next)
    }

    /// A control transfer, which a misaligned target stops.
    pub open spec fn jumps(self, target: u64) -> (MachineView, Flow) {
        match isa::instruction_aligned_spec(target) {
            Ok(_) => self.goes_on(target),
            Err(trap) => (self, Err(trap)),
        }
    }

    /// A control transfer that also writes a link register, unless stopped.
    pub open spec fn links(self, target: u64, rd: int, link: u64) -> (MachineView, Flow) {
        match isa::instruction_aligned_spec(target) {
            Ok(_) => self.computes(rd, link, target),
            Err(trap) => (self, Err(trap)),
        }
    }

    /// A word or doubleword loaded into an integer register.
    pub open spec fn loads(self, rd: int, address: u64, bytes: u8, next: u64) -> (
        MachineView,
        Flow,
    ) {
        let (read, result) = mmu::load_spec(self, address, bytes, true);
        match result {
            Ok(value) => read.computes(rd, alu::width_extend_spec(value, bytes), next),
            Err(trap) => (read, Err(trap)),
        }
    }

    pub open spec fn stores(self, address: u64, value: u64, bytes: u8, next: u64) -> (
        MachineView,
        Flow,
    ) {
        let (written, result) = mmu::store_spec(self, address, value, bytes, true);
        match result {
            Ok(halt) => (written, Ok((next, halt))),
            Err(trap) => (written, Err(trap)),
        }
    }

    pub open spec fn floating(self) -> bool {
        self.hart().csrs.floating_enabled_spec()
    }

    /// A floating-point load of four or eight bytes.
    pub open spec fn float_loads(
        self,
        rd: int,
        address: u64,
        bytes: u8,
        clint: bool,
        next: u64,
    ) -> (MachineView, Flow) {
        let (read, result) = mmu::load_spec(self, address, bytes, clint);
        match result {
            Ok(value) => {
                let written = if bytes == 4 {
                    read.hart().write_f32(rd, value as u32)
                } else {
                    read.hart().write_f64(rd, value)
                };
                read.with_hart(written.dirty_float()).goes_on(next)
            },
            Err(trap) => (read, Err(trap)),
        }
    }

    /// A floating-point store of four or eight bytes.
    pub open spec fn float_stores(
        self,
        address: u64,
        rs2: int,
        bytes: u8,
        clint: bool,
        next: u64,
    ) -> (MachineView, Flow) {
        let register = self.hart().cpu.get_f64(rs2);
        let value = if bytes == 4 {
            register & 0xffff_ffff
        } else {
            register
        };
        let (written, result) = mmu::store_spec(self, address, value, bytes, clint);
        match result {
            Ok(halt) => (written.with_hart(written.hart().dirty_float()), Ok((next, halt))),
            Err(trap) => (written, Err(trap)),
        }
    }
}

impl Machine {
    pub(crate) fn read_reg(&self, register: usize) -> (r: u64)
        requires
            self.wf(),
            register < 32,
        ensures
            r == self@.reg(register as int),
    {
        self.harts[self.active_hart_id].cpu.read(register)
    }

    pub(crate) fn write_reg(&mut self, register: usize, value: u64)
        requires
            old(self).wf(),
            register < 32,
        ensures
            final(self).wf(),
            final(self)@ == old(self)@.set_reg(register as int, value),
    {
        let active: usize = self.active_hart_id;
        self.harts[active].cpu.write(register, value);
    }

    pub(crate) fn float_enabled(&self) -> (r: bool)
        requires
            self.wf(),
        ensures
            r == self@.floating(),
    {
        self.harts[self.active_hart_id].csrs.floating_enabled()
    }

    pub(crate) fn compute(&mut self, rd: usize, value: u64, next: u64) -> (r: Flow)
        requires
            old(self).wf(),
            rd < 32,
        ensures
            final(self).wf(),
            (final(self)@, r) == old(self)@.computes(rd as int, value, next),
    {
        self.write_reg(rd, value);
        Ok((next, None))
    }

    pub(crate) fn refuse(&self, pc: u64, instruction: u32) -> (r: Flow)
        ensures
            r == Err::<(u64, Option<HaltStatus>), MachineTrap>(isa::illegal_spec(pc, instruction)),
    {
        Err(illegal(pc, instruction))
    }

    pub(crate) fn jump(&self, target: u64) -> (r: Flow)
        ensures
            (self@, r) == self@.jumps(target),
    {
        ensure_instruction_aligned(target)?;
        Ok((target, None))
    }

    pub(crate) fn link(&mut self, target: u64, rd: usize, link: u64) -> (r: Flow)
        requires
            old(self).wf(),
            rd < 32,
        ensures
            final(self).wf(),
            (final(self)@, r) == old(self)@.links(target, rd as int, link),
    {
        ensure_instruction_aligned(target)?;
        self.compute(rd, link, target)
    }

    pub(crate) fn load_register(&mut self, rd: usize, address: u64, bytes: u8, next: u64) -> (r:
        Flow)
        requires
            old(self).wf(),
            rd < 32,
            bytes > 0,
        ensures
            final(self).wf(),
            (final(self)@, r) == old(self)@.loads(rd as int, address, bytes, next),
    {
        let value: u64 = self.load(address, bytes, true)?;
        self.compute(rd, width_extend(value, bytes), next)
    }

    pub(crate) fn store_value(&mut self, address: u64, value: u64, bytes: u8, next: u64) -> (r:
        Flow)
        requires
            old(self).wf(),
            bytes > 0,
        ensures
            final(self).wf(),
            (final(self)@, r) == old(self)@.stores(address, value, bytes, next),
    {
        let halt = self.store(address, value, bytes, true)?;
        Ok((next, halt))
    }

    pub(crate) fn load_float(
        &mut self,
        rd: usize,
        address: u64,
        bytes: u8,
        clint: bool,
        next: u64,
    ) -> (r: Flow)
        requires
            old(self).wf(),
            rd < 32,
            bytes > 0,
        ensures
            final(self).wf(),
            (final(self)@, r) == old(self)@.float_loads(rd as int, address, bytes, clint, next),
    {
        let value: u64 = self.load(address, bytes, clint)?;
        let active: usize = self.active_hart_id;
        if bytes == 4 {
            self.harts[active].cpu.write_float32(rd, value as u32);
        } else {
            self.harts[active].cpu.write_float64(rd, value);
        }
        self.harts[active].csrs.mark_float_dirty();
        Ok((next, None))
    }

    pub(crate) fn store_float(
        &mut self,
        address: u64,
        rs2: usize,
        bytes: u8,
        clint: bool,
        next: u64,
    ) -> (r: Flow)
        requires
            old(self).wf(),
            rs2 < 32,
            bytes > 0,
        ensures
            final(self).wf(),
            (final(self)@, r) == old(self)@.float_stores(address, rs2 as int, bytes, clint, next),
    {
        let register: u64 = self.harts[self.active_hart_id].cpu.read_float64(rs2);
        let value: u64 = if bytes == 4 {
            register & 0xffff_ffff
        } else {
            register
        };
        let halt = self.store(address, value, bytes, clint)?;
        let active: usize = self.active_hart_id;
        self.harts[active].csrs.mark_float_dirty();
        Ok((next, halt))
    }
}

} // verus!
