//! Integer and floating registers and the control and status register file.

use crate::isa;
use crate::isa::{
    legal_trap_vector, Csr, Privilege, CANONICAL_NAN_F32, FCSR_MASK, FFLAGS_MASK, FRM_MASK,
    FRM_SHIFT, INTERRUPT_SUPPORTED, MEDELEG_SUPPORTED, MIDELEG_SUPPORTED, MIP_SSIP, MIP_STIP,
    MISA_RV64_IMAFDCSU, MSTATUS_FS, MSTATUS_FS_DIRTY, MSTATUS_FS_OFF, MSTATUS_MPP,
    MSTATUS_MPP_RESERVED, MSTATUS_SD, MSTATUS_SXL_RV64, MSTATUS_UXL_RV64, MSTATUS_WRITABLE,
    NAN_BOX_F32, SATP_ASID_MASK, SATP_MODE_BARE, SATP_MODE_SHIFT, SATP_MODE_SV39, SATP_PPN_MASK,
    SSTATUS_VISIBLE, SSTATUS_WRITABLE,
};
use crate::platform::DRAM_BASE;
use vstd::prelude::*;

verus! {

/// Register file, program counter and privilege of one hart.
#[derive(Clone, Copy, Debug)]
pub struct Cpu {
    pub registers: [u64; 32],
    pub floating_registers: [u64; 32],
    pub pc: u64,
    pub privilege: Privilege,
}

/// A register file of zeros.
pub open spec fn zero_registers() -> [u64; 32] {
    vstd::array::spec_array_fill_for_copy_type::<u64, 32>(0)
}

impl Cpu {
    /// Register zero reads as zero.
    pub open spec fn wf(self) -> bool {
        self.registers@[0] == 0
    }

    pub open spec fn reset_state() -> Cpu {
        Cpu {
            registers: zero_registers(),
            floating_registers: zero_registers(),
            pc: DRAM_BASE,
            privilege: Privilege::Machine,
        }
    }

    pub open spec fn get(self, register: int) -> u64 {
        self.registers@[register]
    }

    /// Integer register write; register zero ignores it.
    pub open spec fn set(self, register: int, value: u64) -> Cpu {
        if register == 0 {
            self
        } else {
            Cpu {
                registers: vstd::array::spec_array_update(self.registers, register, value),
                ..self
            }
        }
    }

    /// A single-precision value is valid only when it is NaN-boxed.
    pub open spec fn get_f32(self, register: int) -> u32 {
        let value = self.floating_registers@[register];
        if value >> 32 == 0xffff_ffff {
            value as u32
        } else {
            CANONICAL_NAN_F32
        }
    }

    pub open spec fn get_f64(self, register: int) -> u64 {
        self.floating_registers@[register]
    }

    pub open spec fn set_f64(self, register: int, value: u64) -> Cpu {
        Cpu {
            floating_registers: vstd::array::spec_array_update(
                self.floating_registers,
                register,
                value,
            ),
            ..self
        }
    }

    pub open spec fn set_f32(self, register: int, value: u32) -> Cpu {
        self.set_f64(register, NAN_BOX_F32 | (value as u64))
    }

    pub fn new() -> (r: Self)
        ensures
            r == Cpu::reset_state(),
            r.wf(),
    {
        Cpu {
            registers: [0u64; 32],
            floating_registers: [0u64; 32],
            pc: DRAM_BASE,
            privilege: Privilege::Machine,
        }
    }

    pub fn reset(&mut self)
        ensures
            *final(self) == Cpu::reset_state(),
            final(self).wf(),
    {
        *self = Cpu::new();
    }

    pub fn read(&self, register: usize) -> (r: u64)
        requires
            register < 32,
        ensures
            r == self.get(register as int),
    {
        self.registers[register]
    }

    pub fn write(&mut self, register: usize, value: u64)
        requires
            register < 32,
        ensures
            *final(self) == old(self).set(register as int, value),
            old(self).wf() ==> final(self).wf(),
    {
        if register != 0 {
            self.registers[register] = value;
        }
    }

    pub fn read_float32(&self, register: usize) -> (r: u32)
        requires
            register < 32,
        ensures
            r == self.get_f32(register as int),
    {
        let value: u64 = self.floating_registers[register];
        if value >> 32 == 0xffff_ffff {
            value as u32
        } else {
            CANONICAL_NAN_F32
        }
    }

    pub fn write_float32(&mut self, register: usize, value: u32)
        requires
            register < 32,
        ensures
            *final(self) == old(self).set_f32(register as int, value),
    {
        self.floating_registers[register] = NAN_BOX_F32 | (value as u64);
    }

    pub fn read_float64(&self, register: usize) -> (r: u64)
        requires
            register < 32,
        ensures
            r == self.get_f64(register as int),
    {
        self.floating_registers[register]
    }

    pub fn write_float64(&mut self, register: usize, value: u64)
        requires
            register < 32,
        ensures
            *final(self) == old(self).set_f64(register as int, value),
    {
        self.floating_registers[register] = value;
    }

    /// A write to any register is read back, and no other register changes;
    /// register zero keeps its value.
    pub proof fn write_then_read(self, register: int, value: u64, other: int)
        requires
            0 <= register < 32,
            0 <= other < 32,
        ensures
            register != 0 ==> self.set(register, value).get(register) == value,
            other != register ==> self.set(register, value).get(other) == self.get(other),
            self.set(0, value) == self,
    {
    }

    /// A single-precision value survives NaN boxing.
    pub proof fn boxed_single_reads_back(self, register: int, value: u32)
        requires
            0 <= register < 32,
        ensures
            self.set_f32(register, value).get_f32(register) == value,
    {
        assert((0xffff_ffff_0000_0000u64 | (value as u64)) >> 32 == 0xffff_ffff && (
        0xffff_ffff_0000_0000u64 | (value as u64)) as u32 == value) by (bit_vector);
    }
}

/// Control and status registers that hold plain state.
#[derive(Clone, Copy, Debug, PartialEq, Eq, Structural)]
pub struct CsrFile {
    pub fcsr: u8,
    pub mstatus: u64,
    pub medeleg: u64,
    pub mideleg: u64,
    pub mie: u64,
    pub mip: u64,
    pub mcounteren: u64,
    pub scounteren: u64,
    pub satp: u64,
    pub mtvec: u64,
    pub mscratch: u64,
    pub mepc: u64,
    pub mcause: u64,
    pub mtval: u64,
    pub stvec: u64,
    pub sscratch: u64,
    pub sepc: u64,
    pub scause: u64,
    pub stval: u64,
}

impl CsrFile {
    pub open spec fn zero() -> CsrFile {
        CsrFile {
            fcsr: 0,
            mstatus: 0,
            medeleg: 0,
            mideleg: 0,
            mie: 0,
            mip: 0,
            mcounteren: 0,
            scounteren: 0,
            satp: 0,
            mtvec: 0,
            mscratch: 0,
            mepc: 0,
            mcause: 0,
            mtval: 0,
            stvec: 0,
            sscratch: 0,
            sepc: 0,
            scause: 0,
            stval: 0,
        }
    }

    /// Status with the summary bit computed from a dirty floating-point state.
    pub open spec fn status_spec(self) -> u64 {
        if self.mstatus & MSTATUS_FS == MSTATUS_FS_DIRTY {
            self.mstatus | MSTATUS_SD
        } else {
            self.mstatus
        }
    }

    pub open spec fn floating_enabled_spec(self) -> bool {
        self.mstatus & MSTATUS_FS != MSTATUS_FS_OFF
    }

    pub open spec fn float_dirty(self) -> CsrFile {
        CsrFile { mstatus: (self.mstatus & !MSTATUS_FS) | MSTATUS_FS_DIRTY, ..self }
    }

    pub open spec fn with_float_flags(self, flags: u8) -> CsrFile {
        CsrFile { fcsr: self.fcsr | (flags & FFLAGS_MASK), ..self }.float_dirty()
    }

    /// Value read from a register; counters and the hart identity live elsewhere.
    pub open spec fn get(self, csr: Csr) -> u64 {
        match csr {
            Csr::Fflags => (self.fcsr & FFLAGS_MASK) as u64,
            Csr::Frm => ((self.fcsr & FRM_MASK) >> FRM_SHIFT) as u64,
            Csr::Fcsr => self.fcsr as u64,
            Csr::Sstatus => self.status_spec() & SSTATUS_VISIBLE,
            Csr::Sie => self.mie & self.mideleg,
            Csr::Sip => self.mip & self.mideleg,
            Csr::Mideleg => self.mideleg,
            Csr::Mie => self.mie,
            Csr::Mip => self.mip,
            Csr::Stvec => self.stvec,
            Csr::Scounteren => self.scounteren,
            Csr::Sscratch => self.sscratch,
            Csr::Sepc => self.sepc & !1u64,
            Csr::Scause => self.scause,
            Csr::Stval => self.stval,
            Csr::Satp => self.satp,
            Csr::Mstatus => self.status_spec() | MSTATUS_UXL_RV64 | MSTATUS_SXL_RV64,
            Csr::Misa => MISA_RV64_IMAFDCSU,
            Csr::Medeleg => self.medeleg,
            Csr::Mtvec => self.mtvec,
            Csr::Mcounteren => self.mcounteren,
            Csr::Mscratch => self.mscratch,
            Csr::Mepc => self.mepc & !1u64,
            Csr::Mcause => self.mcause,
            Csr::Mtval => self.mtval,
            Csr::Mhartid => 0,
            Csr::Cycle | Csr::Time | Csr::Instret | Csr::Mcycle | Csr::Minstret => 0,
        }
    }

    /// File after a write; each register admits only its legal values.
    pub open spec fn set(self, csr: Csr, value: u64) -> CsrFile {
        match csr {
            Csr::Fflags => CsrFile {
                fcsr: (self.fcsr & !FFLAGS_MASK) | (value as u8 & FFLAGS_MASK),
                ..self
            }.float_dirty(),
            Csr::Frm => CsrFile {
                fcsr: (self.fcsr & !FRM_MASK) | (((value as u8) << FRM_SHIFT) & FRM_MASK),
                ..self
            }.float_dirty(),
            Csr::Fcsr => CsrFile { fcsr: value as u8 & FCSR_MASK, ..self }.float_dirty(),
            Csr::Sstatus => CsrFile {
                mstatus: (self.mstatus & !SSTATUS_WRITABLE) | (value & SSTATUS_WRITABLE),
                ..self
            },
            Csr::Sie => CsrFile {
                mie: (self.mie & !self.mideleg) | (value & self.mideleg),
                ..self
            },
            Csr::Sip => {
                let writable = MIP_SSIP & self.mideleg;
                CsrFile { mip: (self.mip & !writable) | (value & writable), ..self }
            },
            Csr::Mideleg => CsrFile { mideleg: value & MIDELEG_SUPPORTED, ..self },
            Csr::Mie => CsrFile { mie: value & INTERRUPT_SUPPORTED, ..self },
            Csr::Mip => {
                let writable = MIP_SSIP | MIP_STIP;
                CsrFile { mip: (self.mip & !writable) | (value & writable), ..self }
            },
            Csr::Stvec => CsrFile { stvec: isa::legal_vector(value), ..self },
            Csr::Scounteren => CsrFile { scounteren: value & 7, ..self },
            Csr::Sscratch => CsrFile { sscratch: value, ..self },
            Csr::Sepc => CsrFile { sepc: value & !1u64, ..self },
            Csr::Scause => CsrFile { scause: value, ..self },
            Csr::Stval => CsrFile { stval: value, ..self },
            Csr::Satp => {
                let mode = value >> SATP_MODE_SHIFT;
                if mode == SATP_MODE_BARE || mode == SATP_MODE_SV39 {
                    CsrFile {
                        satp: (mode << SATP_MODE_SHIFT) | (value & SATP_ASID_MASK) | (value
                            & SATP_PPN_MASK),
                        ..self
                    }
                } else {
                    self
                }
            },
            Csr::Mstatus => {
                let admitted = value & MSTATUS_WRITABLE;
                let legal = if admitted & MSTATUS_MPP == MSTATUS_MPP_RESERVED {
                    admitted & !MSTATUS_MPP
                } else {
                    admitted
                };
                CsrFile { mstatus: (self.mstatus & !MSTATUS_WRITABLE) | legal, ..self }
            },
            Csr::Medeleg => CsrFile { medeleg: value & MEDELEG_SUPPORTED, ..self },
            Csr::Mtvec => CsrFile { mtvec: isa::legal_vector(value), ..self },
            Csr::Mcounteren => CsrFile { mcounteren: value & 7, ..self },
            Csr::Mscratch => CsrFile { mscratch: value, ..self },
            Csr::Mepc => CsrFile { mepc: value & !1u64, ..self },
            Csr::Mcause => CsrFile { mcause: value, ..self },
            Csr::Mtval => CsrFile { mtval: value, ..self },
            Csr::Misa | Csr::Mhartid | Csr::Cycle | Csr::Time | Csr::Instret | Csr::Mcycle
            | Csr::Minstret => self,
        }
    }

    /// Privilege that an address requires by its bits 9 and 8.
    pub open spec fn required_level(address: u16) -> Option<u64> {
        let field = (address >> 8) & 3;
        if field == 0 {
            Some(0u64)
        } else if field == 1 {
            Some(1u64)
        } else if field == 3 {
            Some(3u64)
        } else {
            None
        }
    }

    /// Bit of the counter-enable registers that gates an unprivileged counter.
    pub open spec fn counter_bit(csr: Csr) -> Option<u64> {
        match csr {
            Csr::Cycle => Some(1u64),
            Csr::Time => Some(2u64),
            Csr::Instret => Some(4u64),
            _ => None,
        }
    }

    /// The register an access reaches, when privilege, write intent, the
    /// floating-point state and the counter gates all admit it.
    pub open spec fn access_spec(
        self,
        address: u16,
        privilege: Privilege,
        write: bool,
    ) -> Option<Csr> {
        match isa::csr_at(address) {
            None => None,
            Some(csr) => match CsrFile::required_level(address) {
                None => None,
                Some(level) => if privilege.code() < level || (write && (address >> 10) & 3 == 3) {
                    None
                } else if (csr == Csr::Fflags || csr == Csr::Frm || csr == Csr::Fcsr)
                    && !self.floating_enabled_spec() {
                    None
                } else {
                    match CsrFile::counter_bit(csr) {
                        Some(gate) => if (privilege != Privilege::Machine && self.mcounteren & gate
                            == 0) || (privilege == Privilege::User && self.scounteren & gate
                            == 0) {
                            None
                        } else {
                            Some(csr)
                        },
                        None => Some(csr),
                    }
                },
            },
        }
    }

    pub fn new() -> (r: Self)
        ensures
            r == CsrFile::zero(),
    {
        CsrFile {
            fcsr: 0,
            mstatus: 0,
            medeleg: 0,
            mideleg: 0,
            mie: 0,
            mip: 0,
            mcounteren: 0,
            scounteren: 0,
            satp: 0,
            mtvec: 0,
            mscratch: 0,
            mepc: 0,
            mcause: 0,
            mtval: 0,
            stvec: 0,
            sscratch: 0,
            sepc: 0,
            scause: 0,
            stval: 0,
        }
    }

    pub fn reset(&mut self)
        ensures
            *final(self) == CsrFile::zero(),
    {
        *self = CsrFile::new();
    }

    pub fn validate_access(&self, address: u16, privilege: Privilege, write: bool) -> (r: Option<
        Csr,
    >)
        ensures
            r == self.access_spec(address, privilege, write),
    {
        let csr = match Csr::from_address(address) {
            Some(csr) => csr,
            None => {
                return None;
            },
        };
        proof {
            let chosen = choose|c: Csr| #[trigger] c.number() == address;
            isa::csr_addresses_are_distinct(csr, chosen);
        }
        let required: u64 = match (address >> 8) & 3 {
            0 => 0,
            1 => 1,
            3 => 3,
            _ => {
                return None;
            },
        };
        if privilege.level() < required || (write && (address >> 10) & 3 == 3) {
            return None;
        }
        if (csr == Csr::Fflags || csr == Csr::Frm || csr == Csr::Fcsr) && !self.floating_enabled() {
            return None;
        }
        let gate: u64 = match csr {
            Csr::Cycle => 1,
            Csr::Time => 2,
            Csr::Instret => 4,
            _ => {
                return Some(csr);
            },
        };
        if (privilege != Privilege::Machine && self.mcounteren & gate == 0) || (privilege
            == Privilege::User && self.scounteren & gate == 0) {
            return None;
        }
        Some(csr)
    }

    pub fn read(&self, csr: Csr) -> (r: u64)
        ensures
            r == self.get(csr),
    {
        match csr {
            Csr::Fflags => (self.fcsr & FFLAGS_MASK) as u64,
            Csr::Frm => ((self.fcsr & FRM_MASK) >> FRM_SHIFT) as u64,
            Csr::Fcsr => self.fcsr as u64,
            Csr::Sstatus => self.status() & SSTATUS_VISIBLE,
            Csr::Sie => self.mie & self.mideleg,
            Csr::Sip => self.mip & self.mideleg,
            Csr::Mideleg => self.mideleg,
            Csr::Mie => self.mie,
            Csr::Mip => self.mip,
            Csr::Stvec => self.stvec,
            Csr::Scounteren => self.scounteren,
            Csr::Sscratch => self.sscratch,
            Csr::Sepc => self.sepc & !1u64,
            Csr::Scause => self.scause,
            Csr::Stval => self.stval,
            Csr::Satp => self.satp,
            Csr::Mstatus => self.status() | MSTATUS_UXL_RV64 | MSTATUS_SXL_RV64,
            Csr::Misa => MISA_RV64_IMAFDCSU,
            Csr::Medeleg => self.medeleg,
            Csr::Mtvec => self.mtvec,
            Csr::Mcounteren => self.mcounteren,
            Csr::Mscratch => self.mscratch,
            Csr::Mepc => self.mepc & !1u64,
            Csr::Mcause => self.mcause,
            Csr::Mtval => self.mtval,
            Csr::Mhartid => 0,
            Csr::Cycle | Csr::Time | Csr::Instret | Csr::Mcycle | Csr::Minstret => 0,
        }
    }

    pub fn write(&mut self, csr: Csr, value: u64)
        ensures
            *final(self) == old(self).set(csr, value),
    {
        match csr {
            Csr::Fflags => {
                self.fcsr = (self.fcsr & !FFLAGS_MASK) | (value as u8 & FFLAGS_MASK);
                self.mark_float_dirty();
            },
            Csr::Frm => {
                self.fcsr = (self.fcsr & !FRM_MASK) | (((value as u8) << FRM_SHIFT) & FRM_MASK);
                self.mark_float_dirty();
            },
            Csr::Fcsr => {
                self.fcsr = value as u8 & FCSR_MASK;
                self.mark_float_dirty();
            },
            Csr::Sstatus => {
                self.mstatus = (self.mstatus & !SSTATUS_WRITABLE) | (value & SSTATUS_WRITABLE);
            },
            Csr::Sie => {
                self.mie = (self.mie & !self.mideleg) | (value & self.mideleg);
            },
            Csr::Sip => {
                let writable: u64 = MIP_SSIP & self.mideleg;
                self.mip = (self.mip & !writable) | (value & writable);
            },
            Csr::Mideleg => {
                self.mideleg = value & MIDELEG_SUPPORTED;
            },
            Csr::Mie => {
                self.mie = value & INTERRUPT_SUPPORTED;
            },
            Csr::Mip => {
                let writable: u64 = MIP_SSIP | MIP_STIP;
                self.mip = (self.mip & !writable) | (value & writable);
            },
            Csr::Stvec => {
                self.stvec = legal_trap_vector(value);
            },
            Csr::Scounteren => {
                self.scounteren = value & 7;
            },
            Csr::Sscratch => {
                self.sscratch = value;
            },
            Csr::Sepc => {
                self.sepc = value & !1u64;
            },
            Csr::Scause => {
                self.scause = value;
            },
            Csr::Stval => {
                self.stval = value;
            },
            Csr::Satp => {
                let mode: u64 = value >> SATP_MODE_SHIFT;
                if mode == SATP_MODE_BARE || mode == SATP_MODE_SV39 {
                    self.satp = (mode << SATP_MODE_SHIFT) | (value & SATP_ASID_MASK) | (value
                        & SATP_PPN_MASK);
                }
            },
            Csr::Mstatus => {
                let mut admitted: u64 = value & MSTATUS_WRITABLE;
                if admitted & MSTATUS_MPP == MSTATUS_MPP_RESERVED {
                    admitted = admitted & !MSTATUS_MPP;
                }
                self.mstatus = (self.mstatus & !MSTATUS_WRITABLE) | admitted;
            },
            Csr::Medeleg => {
                self.medeleg = value & MEDELEG_SUPPORTED;
            },
            Csr::Mtvec => {
                self.mtvec = legal_trap_vector(value);
            },
            Csr::Mcounteren => {
                self.mcounteren = value & 7;
            },
            Csr::Mscratch => {
                self.mscratch = value;
            },
            Csr::Mepc => {
                self.mepc = value & !1u64;
            },
            Csr::Mcause => {
                self.mcause = value;
            },
            Csr::Mtval => {
                self.mtval = value;
            },
            Csr::Misa | Csr::Mhartid | Csr::Cycle | Csr::Time | Csr::Instret | Csr::Mcycle
            | Csr::Minstret => {},
        }
    }

    pub fn status(&self) -> (r: u64)
        ensures
            r == self.status_spec(),
    {
        if self.mstatus & MSTATUS_FS == MSTATUS_FS_DIRTY {
            self.mstatus | MSTATUS_SD
        } else {
            self.mstatus
        }
    }

    pub fn floating_enabled(&self) -> (r: bool)
        ensures
            r == self.floating_enabled_spec(),
    {
        self.mstatus & MSTATUS_FS != MSTATUS_FS_OFF
    }

    pub fn mark_float_dirty(&mut self)
        ensures
            *final(self) == old(self).float_dirty(),
    {
        self.mstatus = (self.mstatus & !MSTATUS_FS) | MSTATUS_FS_DIRTY;
    }

    pub fn accrue_float_flags(&mut self, flags: u8)
        ensures
            *final(self) == old(self).with_float_flags(flags),
    {
        self.fcsr = self.fcsr | (flags & FFLAGS_MASK);
        self.mark_float_dirty();
    }

    /// No write leaves the reserved previous-privilege encoding in `mstatus`.
    pub proof fn status_write_never_reserves_mpp(self, value: u64)
        ensures
            self.set(Csr::Mstatus, value).mstatus & MSTATUS_MPP != MSTATUS_MPP_RESERVED,
            Privilege::of_mpp(self.set(Csr::Mstatus, value).mstatus) is Some,
    {
        let base = self.mstatus;
        let admitted = value & MSTATUS_WRITABLE;
        let legal = if admitted & MSTATUS_MPP == MSTATUS_MPP_RESERVED {
            admitted & !MSTATUS_MPP
        } else {
            admitted
        };
        let result = (base & !MSTATUS_WRITABLE) | legal;
        assert(result & 0x1800 != 0x1000 && ((result & 0x1800) >> 11 == 0 || (result & 0x1800) >> 11
            == 1 || (result & 0x1800) >> 11 == 3)) by (bit_vector)
            requires
                result == (base & !0xe_79aau64) | legal,
                admitted == value & 0xe_79aa,
                legal == (if admitted & 0x1800 == 0x1000 {
                    admitted & !0x1800u64
                } else {
                    admitted
                }),
        ;
    }

    /// A write through a supervisor view changes no machine-only status bit.
    pub proof fn supervisor_status_write_keeps_machine_bits(self, value: u64)
        ensures
            self.set(Csr::Sstatus, value).mstatus & !SSTATUS_WRITABLE == self.mstatus
                & !SSTATUS_WRITABLE,
    {
        let base = self.mstatus;
        assert(((base & !0xc_6122u64) | (value & 0xc_6122)) & !0xc_6122u64 == base & !0xc_6122u64)
            by (bit_vector);
    }
}

} // verus!
