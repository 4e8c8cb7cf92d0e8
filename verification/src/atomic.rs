//! RV64A: load-reserved, store-conditional and atomic memory operations.

use crate::access::Flow;
use crate::alu;
use crate::alu::{atomic_result, width_extend};
use crate::hart::HartState;
use crate::isa;
use crate::isa::{ensure_aligned, map_store_fault, AccessType, MachineTrap};
use crate::machine::{Machine, MachineView};
use crate::mmu;
use vstd::prelude::*;

verus! {

impl MachineView {
    pub open spec fn with_reservation(self, reservation: Option<(u64, u8)>) -> MachineView {
        self.with_hart(HartState { reservation, ..self.hart() })
    }
}

/// Load-reserved: a load that also reserves its physical range.
#[verifier::opaque]
pub open spec fn load_reserved_spec(
    m: MachineView,
    address: u64,
    bytes: u8,
    rd: int,
    next: u64,
) -> (MachineView, Flow) {
    match isa::aligned_spec(address, bytes, false) {
        Err(trap) => (m, Err(trap)),
        Ok(_) => {
            let (translated, place) = mmu::translate_spec(m, address, AccessType::Load);
            match place {
                Err(trap) => (translated, Err(trap)),
                Ok(physical) => {
                    let (read, value) = translated.read_device_spec(physical, bytes);
                    match value {
                        Err(_) => (read, Err(MachineTrap::LoadAccessFault { address, bytes })),
                        Ok(value) => read.with_reservation(Some((physical, bytes))).computes(
                            rd,
                            alu::width_extend_spec(value, bytes),
                            next,
                        ),
                    }
                },
            }
        },
    }
}

/// Store-conditional at a translated address: it writes only through this
/// hart's own reservation of exactly that range, and always gives it up.
#[verifier::opaque]
pub open spec fn store_conditional_spec(
    m: MachineView,
    physical: u64,
    address: u64,
    value: u64,
    bytes: u8,
    rd: int,
    next: u64,
) -> (MachineView, Flow) {
    let released = m.with_reservation(None);
    if m.hart().reservation == Some((physical, bytes)) {
        let (written, result) = released.write_device_spec(physical, value, bytes);
        match result {
            Ok(halt) => (written.set_reg(rd, 0), Ok((next, halt))),
            Err(trap) => (written, Err(isa::store_fault_spec(trap, address, bytes))),
        }
    } else {
        released.computes(rd, 1, next)
    }
}

/// Read-modify-write at a translated address.
#[verifier::opaque]
pub open spec fn memory_operation_spec(
    m: MachineView,
    operation: u32,
    physical: u64,
    address: u64,
    rhs: u64,
    bytes: u8,
    rd: int,
    next: u64,
) -> (MachineView, Flow) {
    let (read, loaded) = mmu::invalidated(m, physical, bytes).read_device_spec(physical, bytes);
    match loaded {
        Err(_) => (read, Err(MachineTrap::StoreAccessFault { address, bytes })),
        Ok(old) => {
            let value = alu::amo_spec(operation, old, rhs, bytes)->Some_0;
            let (written, result) = read.write_device_spec(physical, value, bytes);
            match result {
                Ok(halt) => (
                    written.set_reg(rd, alu::width_extend_spec(old, bytes)),
                    Ok((next, halt)),
                ),
                Err(trap) => (written, Err(isa::store_fault_spec(trap, address, bytes))),
            }
        },
    }
}

/// Effect of one atomic instruction.
#[verifier::opaque]
pub open spec fn atomic_spec(m: MachineView, instruction: u32, pc: u64) -> (MachineView, Flow) {
    let funct3 = (instruction >> 12) & 7;
    let rd = isa::register_field(instruction, 7);
    let rs2 = isa::register_field(instruction, 20);
    let operation = instruction >> 27;
    let address = m.reg(isa::register_field(instruction, 15));
    let rhs = m.reg(rs2);
    let next = pc.wrapping_add(4);
    let bytes: u8 = if funct3 == 2 {
        4
    } else {
        8
    };
    if funct3 != 2 && funct3 != 3 {
        m.refuses(pc, instruction)
    } else if operation == 2 {
        if rs2 != 0 {
            m.refuses(pc, instruction)
        } else {
            load_reserved_spec(m, address, bytes, rd, next)
        }
    } else {
        match isa::aligned_spec(address, bytes, true) {
            Err(trap) => (m, Err(trap)),
            Ok(_) => {
                let (translated, place) = mmu::translate_spec(m, address, AccessType::Store);
                match place {
                    Err(trap) => (translated, Err(trap)),
                    Ok(physical) => if operation == 3 {
                        store_conditional_spec(
                            translated,
                            physical,
                            address,
                            rhs,
                            bytes,
                            rd,
                            next,
                        )
                    } else if alu::amo_spec(operation, 0, rhs, bytes) is None {
                        translated.refuses(pc, instruction)
                    } else {
                        memory_operation_spec(
                            translated,
                            operation,
                            physical,
                            address,
                            rhs,
                            bytes,
                            rd,
                            next,
                        )
                    },
                }
            },
        }
    }
}

impl Machine {
    fn load_reserved(&mut self, address: u64, bytes: u8, rd: usize, next: u64) -> (r: Flow)
        requires
            old(self).wf(),
            rd < 32,
            bytes > 0,
        ensures
            final(self).wf(),
            (final(self)@, r) == load_reserved_spec(old(self)@, address, bytes, rd as int, next),
    {
        proof {
            reveal(load_reserved_spec);
        }
        ensure_aligned(address, bytes, false)?;
        let physical: u64 = self.translate(address, AccessType::Load)?;
        match self.read_device(physical, bytes) {
            Ok(value) => {
                let active: usize = self.active_hart_id;
                self.harts[active].reservation = Some((physical, bytes));
                self.compute(rd, width_extend(value, bytes), next)
            },
            Err(_) => Err(MachineTrap::LoadAccessFault { address, bytes }),
        }
    }

    fn store_conditional(
        &mut self,
        physical: u64,
        address: u64,
        value: u64,
        bytes: u8,
        rd: usize,
        next: u64,
    ) -> (r: Flow)
        requires
            old(self).wf(),
            rd < 32,
        ensures
            final(self).wf(),
            (final(self)@, r) == store_conditional_spec(
                old(self)@,
                physical,
                address,
                value,
                bytes,
                rd as int,
                next,
            ),
    {
        proof {
            reveal(store_conditional_spec);
        }
        let active: usize = self.active_hart_id;
        let matches: bool = match self.harts[active].reservation {
            Some((reserved, reserved_bytes)) => reserved == physical && reserved_bytes == bytes,
            None => false,
        };
        self.harts[active].reservation = None;
        if !matches {
            return self.compute(rd, 1, next);
        }
        match self.write_device(physical, value, bytes) {
            Ok(halt) => {
                self.write_reg(rd, 0);
                Ok((next, halt))
            },
            Err(trap) => Err(map_store_fault(trap, address, bytes)),
        }
    }

    fn memory_operation(
        &mut self,
        operation: u32,
        physical: u64,
        address: u64,
        rhs: u64,
        bytes: u8,
        rd: usize,
        next: u64,
    ) -> (r: Flow)
        requires
            old(self).wf(),
            rd < 32,
            alu::amo_spec(operation, 0, rhs, bytes) is Some,
        ensures
            final(self).wf(),
            (final(self)@, r) == memory_operation_spec(
                old(self)@,
                operation,
                physical,
                address,
                rhs,
                bytes,
                rd as int,
                next,
            ),
    {
        proof {
            reveal(memory_operation_spec);
        }
        self.invalidate_reservation(physical, bytes);
        let before = match self.read_device(physical, bytes) {
            Ok(before) => before,
            Err(_) => {
                return Err(MachineTrap::StoreAccessFault { address, bytes });
            },
        };
        proof {
            alu::amo_admission_ignores_operands(operation, 0, rhs, before, bytes);
        }
        let value: u64 = match atomic_result(operation, before, rhs, bytes) {
            Some(value) => value,
            None => before,
        };
        match self.write_device(physical, value, bytes) {
            Ok(halt) => {
                self.write_reg(rd, width_extend(before, bytes));
                Ok((next, halt))
            },
            Err(trap) => Err(map_store_fault(trap, address, bytes)),
        }
    }

    /// Execute one atomic instruction at `pc`.
    pub fn execute_atomic(&mut self, instruction: u32, pc: u64) -> (r: Flow)
        requires
            old(self).wf(),
        ensures
            final(self).wf(),
            (final(self)@, r) == atomic_spec(old(self)@, instruction, pc),
    {
        proof {
            reveal(atomic_spec);
        }
        let funct3: u32 = (instruction >> 12) & 7;
        let rd: usize = isa::register_index(instruction, 7);
        let rs1: usize = isa::register_index(instruction, 15);
        let rs2: usize = isa::register_index(instruction, 20);
        let next: u64 = pc.wrapping_add(4);
        if funct3 != 2 && funct3 != 3 {
            return self.refuse(pc, instruction);
        }
        let bytes: u8 = if funct3 == 2 {
            4
        } else {
            8
        };
        let operation: u32 = instruction >> 27;
        let address: u64 = self.read_reg(rs1);
        let rhs: u64 = self.read_reg(rs2);
        if operation == 2 {
            if rs2 != 0 {
                return self.refuse(pc, instruction);
            }
            return self.load_reserved(address, bytes, rd, next);
        }
        ensure_aligned(address, bytes, true)?;
        let physical: u64 = self.translate(address, AccessType::Store)?;
        if operation == 3 {
            return self.store_conditional(physical, address, rhs, bytes, rd, next);
        }
        if atomic_result(operation, 0, rhs, bytes).is_none() {
            return self.refuse(pc, instruction);
        }
        self.memory_operation(operation, physical, address, rhs, bytes, rd, next)
    }
}

/// A store-conditional without a matching reservation writes nothing and
/// reports failure in its destination register.
pub proof fn unreserved_store_conditional_fails(
    m: MachineView,
    physical: u64,
    address: u64,
    value: u64,
    bytes: u8,
    rd: int,
    next: u64,
)
    requires
        m.hart().reservation != Some((physical, bytes)),
        0 < rd < 32,
        0 <= m.active < m.harts.len(),
    ensures
        ({
            let (after, flow) = store_conditional_spec(
                m,
                physical,
                address,
                value,
                bytes,
                rd,
                next,
            );
            &&& after.devices == m.devices
            &&& after.reg(rd) == 1
            &&& after.hart().reservation is None
            &&& flow == Ok::<_, MachineTrap>((next, None::<crate::platform::HaltStatus>))
        }),
{
    reveal(store_conditional_spec);
}

} // verus!
