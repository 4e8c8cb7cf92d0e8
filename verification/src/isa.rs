//! Architectural names, immediate decoding and integer arithmetic of RV64IMAC.

use vstd::prelude::*;

verus! {

pub const MSTATUS_SIE: u64 = 0x2;
pub const MSTATUS_MIE: u64 = 0x8;
pub const MSTATUS_SPIE: u64 = 0x20;
pub const MSTATUS_MPIE: u64 = 0x80;
pub const MSTATUS_SPP: u64 = 0x100;
pub const MSTATUS_MPP_SHIFT: u32 = 11;
pub const MSTATUS_MPP: u64 = 0x1800;
pub const MSTATUS_MPP_RESERVED: u64 = 0x1000;
pub const MSTATUS_FS: u64 = 0x6000;
pub const MSTATUS_FS_OFF: u64 = 0;
pub const MSTATUS_FS_INITIAL: u64 = 0x2000;
pub const MSTATUS_FS_DIRTY: u64 = 0x6000;
pub const MSTATUS_MPRV: u64 = 0x2_0000;
pub const MSTATUS_SUM: u64 = 0x4_0000;
pub const MSTATUS_MXR: u64 = 0x8_0000;
pub const MSTATUS_UXL_RV64: u64 = 0x2_0000_0000;
pub const MSTATUS_SXL_RV64: u64 = 0x8_0000_0000;
pub const MSTATUS_SD: u64 = 0x8000_0000_0000_0000;
/// SIE, MIE, SPIE, MPIE, SPP, MPP, FS, MPRV, SUM and MXR.
pub const MSTATUS_WRITABLE: u64 = 0xe_79aa;
/// SIE, SPIE, SPP, FS, SUM, MXR, UXL and SD.
pub const SSTATUS_VISIBLE: u64 = 0x8000_0002_000c_6122;
/// SIE, SPIE, SPP, FS, SUM and MXR.
pub const SSTATUS_WRITABLE: u64 = 0xc_6122;
/// RV64 with extensions A, C, D, F, I, M, S and U.
pub const MISA_RV64_IMAFDCSU: u64 = 0x8000_0000_0014_112d;

pub const FFLAGS_NX: u8 = 0x01;
pub const FFLAGS_UF: u8 = 0x02;
pub const FFLAGS_OF: u8 = 0x04;
pub const FFLAGS_DZ: u8 = 0x08;
pub const FFLAGS_NV: u8 = 0x10;
pub const FFLAGS_MASK: u8 = 0x1f;
pub const FRM_SHIFT: u32 = 5;
pub const FRM_MASK: u8 = 0xe0;
pub const FCSR_MASK: u8 = 0xff;
pub const CANONICAL_NAN_F32: u32 = 0x7fc0_0000;
pub const CANONICAL_NAN_F64: u64 = 0x7ff8_0000_0000_0000;
pub const NAN_BOX_F32: u64 = 0xffff_ffff_0000_0000;

/// Exceptions 0 through 9, 12, 13 and 15.
pub const MEDELEG_SUPPORTED: u64 = 0xb3ff;

pub const SATP_MODE_SHIFT: u32 = 60;
pub const SATP_MODE_BARE: u64 = 0;
pub const SATP_MODE_SV39: u64 = 8;
pub const SATP_ASID_MASK: u64 = 0x0fff_f000_0000_0000;
pub const SATP_PPN_MASK: u64 = 0x0fff_ffff_ffff;

pub const PTE_VALID: u64 = 0x01;
pub const PTE_READ: u64 = 0x02;
pub const PTE_WRITE: u64 = 0x04;
pub const PTE_EXECUTE: u64 = 0x08;
pub const PTE_USER: u64 = 0x10;
pub const PTE_ACCESSED: u64 = 0x40;
pub const PTE_DIRTY: u64 = 0x80;
pub const PTE_PPN_MASK: u64 = 0x0fff_ffff_ffff;
/// Every bit above the 44-bit physical page number and the ten flag bits.
pub const PTE_RESERVED_MASK: u64 = 0xffc0_0000_0000_0000;

pub const GUEST_PAGE_SHIFT: u32 = 12;
pub const GUEST_PAGE_MASK: u64 = 0xfff;

pub const CAUSE_ECALL_FROM_USER: u64 = 8;
pub const CAUSE_ECALL_FROM_SUPERVISOR: u64 = 9;
pub const CAUSE_ECALL_FROM_MACHINE: u64 = 11;
pub const CAUSE_INSTRUCTION_PAGE_FAULT: u64 = 12;
pub const CAUSE_LOAD_PAGE_FAULT: u64 = 13;
pub const CAUSE_STORE_PAGE_FAULT: u64 = 15;

pub const INTERRUPT_SUPERVISOR_SOFTWARE: u64 = 1;
pub const INTERRUPT_MACHINE_SOFTWARE: u64 = 3;
pub const INTERRUPT_SUPERVISOR_TIMER: u64 = 5;
pub const INTERRUPT_MACHINE_TIMER: u64 = 7;
pub const INTERRUPT_SUPERVISOR_EXTERNAL: u64 = 9;
pub const INTERRUPT_MACHINE_EXTERNAL: u64 = 11;
pub const INTERRUPT_CAUSE_BIT: u64 = 0x8000_0000_0000_0000;
pub const MIP_SSIP: u64 = 0x2;
pub const MIP_MSIP: u64 = 0x8;
pub const MIP_STIP: u64 = 0x20;
pub const MIP_MTIP: u64 = 0x80;
pub const MIP_SEIP: u64 = 0x200;
pub const MIP_MEIP: u64 = 0x800;
/// SSIP, MSIP, STIP, MTIP, SEIP and MEIP.
pub const INTERRUPT_SUPPORTED: u64 = 0xaaa;
/// SSIP, STIP and SEIP.
pub const MIDELEG_SUPPORTED: u64 = 0x222;

/// RISC-V privilege level retained as part of guest architectural state.
#[derive(Clone, Copy, Debug, PartialEq, Eq, PartialOrd, Ord, Structural)]
pub enum Privilege {
    /// Unprivileged application execution.
    User,
    /// Linux kernel execution.
    Supervisor,
    /// Firmware and reset execution.
    Machine,
}

impl Privilege {
    /// Two-bit architectural encoding; it orders the levels.
    pub open spec fn code(self) -> u64 {
        match self {
            Privilege::User => 0,
            Privilege::Supervisor => 1,
            Privilege::Machine => 3,
        }
    }

    pub open spec fn of_code(code: u64) -> Option<Privilege> {
        if code == 0 {
            Some(Privilege::User)
        } else if code == 1 {
            Some(Privilege::Supervisor)
        } else if code == 3 {
            Some(Privilege::Machine)
        } else {
            None
        }
    }

    /// The level held by the `MPP` field of a machine status value.
    pub open spec fn of_mpp(mstatus: u64) -> Option<Privilege> {
        Privilege::of_code((mstatus & MSTATUS_MPP) >> MSTATUS_MPP_SHIFT)
    }

    pub fn level(self) -> (r: u64)
        ensures
            r == self.code(),
            r <= 3,
    {
        match self {
            Privilege::User => 0,
            Privilege::Supervisor => 1,
            Privilege::Machine => 3,
        }
    }

    pub fn from_code(code: u64) -> (r: Option<Self>)
        ensures
            r == Privilege::of_code(code),
    {
        match code {
            0 => Some(Privilege::User),
            1 => Some(Privilege::Supervisor),
            3 => Some(Privilege::Machine),
            _ => None,
        }
    }

    pub fn from_mpp(value: u64) -> (r: Option<Self>)
        ensures
            r == Privilege::of_mpp(value),
    {
        Privilege::from_code((value & MSTATUS_MPP) >> MSTATUS_MPP_SHIFT)
    }
}

/// Implemented control and status registers, named rather than exposed as raw
/// array offsets to machine users.
#[derive(Clone, Copy, Debug, PartialEq, Eq, Structural)]
pub enum Csr {
    /// Accrued floating-point exception flags.
    Fflags,
    /// Dynamic floating-point rounding mode.
    Frm,
    /// Combined floating-point control and status register.
    Fcsr,
    /// Supervisor status view of `mstatus`.
    Sstatus,
    /// Supervisor interrupt-enable view.
    Sie,
    /// Supervisor trap vector.
    Stvec,
    /// Supervisor permission for user counter reads.
    Scounteren,
    /// Supervisor scratch register.
    Sscratch,
    /// Supervisor exception program counter.
    Sepc,
    /// Supervisor trap cause.
    Scause,
    /// Supervisor trap value.
    Stval,
    /// Supervisor interrupt-pending view.
    Sip,
    /// Supervisor address translation and protection register. The machine
    /// admits Bare and Sv39 modes.
    Satp,
    /// Machine status.
    Mstatus,
    /// Machine ISA report.
    Misa,
    /// Machine exception delegation.
    Medeleg,
    /// Machine interrupt delegation.
    Mideleg,
    /// Machine interrupt enable.
    Mie,
    /// Machine trap vector.
    Mtvec,
    /// Machine permission for lower-privilege counter reads.
    Mcounteren,
    /// Machine scratch register.
    Mscratch,
    /// Machine exception program counter.
    Mepc,
    /// Machine trap cause.
    Mcause,
    /// Machine trap value.
    Mtval,
    /// Machine interrupt pending.
    Mip,
    /// Hardware-thread identifier.
    Mhartid,
    /// Read-only cycle counter view.
    Cycle,
    /// Read-only deterministic time counter view.
    Time,
    /// Read-only retired-instruction counter view.
    Instret,
    /// Machine cycle counter.
    Mcycle,
    /// Machine retired-instruction counter.
    Minstret,
}

impl Csr {
    /// Twelve-bit architectural address of the register.
    pub open spec fn number(self) -> u16 {
        match self {
            Csr::Fflags => 0x001,
            Csr::Frm => 0x002,
            Csr::Fcsr => 0x003,
            Csr::Sstatus => 0x100,
            Csr::Sie => 0x104,
            Csr::Stvec => 0x105,
            Csr::Scounteren => 0x106,
            Csr::Sscratch => 0x140,
            Csr::Sepc => 0x141,
            Csr::Scause => 0x142,
            Csr::Stval => 0x143,
            Csr::Sip => 0x144,
            Csr::Satp => 0x180,
            Csr::Mstatus => 0x300,
            Csr::Misa => 0x301,
            Csr::Medeleg => 0x302,
            Csr::Mideleg => 0x303,
            Csr::Mie => 0x304,
            Csr::Mtvec => 0x305,
            Csr::Mcounteren => 0x306,
            Csr::Mscratch => 0x340,
            Csr::Mepc => 0x341,
            Csr::Mcause => 0x342,
            Csr::Mtval => 0x343,
            Csr::Mip => 0x344,
            Csr::Mcycle => 0xb00,
            Csr::Minstret => 0xb02,
            Csr::Cycle => 0xc00,
            Csr::Time => 0xc01,
            Csr::Instret => 0xc02,
            Csr::Mhartid => 0xf14,
        }
    }

    /// The implemented register at an address, if there is one.
    pub fn from_address(address: u16) -> (r: Option<Self>)
        ensures
            r matches Some(csr) ==> csr.number() == address,
            r is None ==> forall|csr: Csr| #[trigger] csr.number() != address,
    {
        let csr = match address {
            0x001 => Csr::Fflags,
            0x002 => Csr::Frm,
            0x003 => Csr::Fcsr,
            0x100 => Csr::Sstatus,
            0x104 => Csr::Sie,
            0x105 => Csr::Stvec,
            0x106 => Csr::Scounteren,
            0x140 => Csr::Sscratch,
            0x141 => Csr::Sepc,
            0x142 => Csr::Scause,
            0x143 => Csr::Stval,
            0x144 => Csr::Sip,
            0x180 => Csr::Satp,
            0x300 => Csr::Mstatus,
            0x301 => Csr::Misa,
            0x302 => Csr::Medeleg,
            0x303 => Csr::Mideleg,
            0x304 => Csr::Mie,
            0x305 => Csr::Mtvec,
            0x306 => Csr::Mcounteren,
            0x340 => Csr::Mscratch,
            0x341 => Csr::Mepc,
            0x342 => Csr::Mcause,
            0x343 => Csr::Mtval,
            0x344 => Csr::Mip,
            0xb00 => Csr::Mcycle,
            0xb02 => Csr::Minstret,
            0xc00 => Csr::Cycle,
            0xc01 => Csr::Time,
            0xc02 => Csr::Instret,
            0xf14 => Csr::Mhartid,
            _ => return None,
        };
        Some(csr)
    }

    /// Architectural address of the register.
    pub fn address(self) -> (r: u16)
        ensures
            r == self.number(),
    {
        match self {
            Csr::Fflags => 0x001,
            Csr::Frm => 0x002,
            Csr::Fcsr => 0x003,
            Csr::Sstatus => 0x100,
            Csr::Sie => 0x104,
            Csr::Stvec => 0x105,
            Csr::Scounteren => 0x106,
            Csr::Sscratch => 0x140,
            Csr::Sepc => 0x141,
            Csr::Scause => 0x142,
            Csr::Stval => 0x143,
            Csr::Sip => 0x144,
            Csr::Satp => 0x180,
            Csr::Mstatus => 0x300,
            Csr::Misa => 0x301,
            Csr::Medeleg => 0x302,
            Csr::Mideleg => 0x303,
            Csr::Mie => 0x304,
            Csr::Mtvec => 0x305,
            Csr::Mcounteren => 0x306,
            Csr::Mscratch => 0x340,
            Csr::Mepc => 0x341,
            Csr::Mcause => 0x342,
            Csr::Mtval => 0x343,
            Csr::Mip => 0x344,
            Csr::Mcycle => 0xb00,
            Csr::Minstret => 0xb02,
            Csr::Cycle => 0xc00,
            Csr::Time => 0xc01,
            Csr::Instret => 0xc02,
            Csr::Mhartid => 0xf14,
        }
    }
}

/// The register with the given address.
pub open spec fn csr_at(address: u16) -> Option<Csr> {
    if exists|csr: Csr| #[trigger] csr.number() == address {
        Some(choose|csr: Csr| #[trigger] csr.number() == address)
    } else {
        None
    }
}

/// No two implemented registers share an address.
pub proof fn csr_addresses_are_distinct(a: Csr, b: Csr)
    requires
        a.number() == b.number(),
    ensures
        a == b,
{
}

/// Stable machine fault descriptor. Architectural faults are consumed by trap
/// entry; resource faults remain visible to the outer Realm scheduler.
#[derive(Clone, Copy, Debug, PartialEq, Eq, Structural)]
pub enum MachineTrap {
    /// The next instruction address violates the two-byte instruction alignment.
    InstructionAddressMisaligned { address: u64 },
    /// The next instruction is outside admitted RAM.
    InstructionAccessFault { address: u64 },
    /// The instruction is not implemented by this machine profile.
    IllegalInstruction { pc: u64, instruction: u32 },
    /// A load address is not naturally aligned for its width.
    LoadAddressMisaligned { address: u64, bytes: u8 },
    /// A load address is outside RAM and admitted MMIO.
    LoadAccessFault { address: u64, bytes: u8 },
    /// A store address is not naturally aligned for its width.
    StoreAddressMisaligned { address: u64, bytes: u8 },
    /// A store address is outside RAM and admitted MMIO.
    StoreAccessFault { address: u64, bytes: u8 },
    /// Sv39 could not translate or authorize an instruction fetch.
    InstructionPageFault { address: u64 },
    /// Sv39 could not translate or authorize a load.
    LoadPageFault { address: u64 },
    /// Sv39 could not translate or authorize a store.
    StorePageFault { address: u64 },
    /// Guest execution reached an `ebreak` instruction.
    Breakpoint { pc: u64 },
    /// Serial output exceeded its admitted retained-byte ceiling.
    ConsoleLimit { limit: usize },
}

/// Cause number and trap value of an architectural exception; `None` for a
/// fault that only the outer scheduler sees.
pub open spec fn exception_of(trap: MachineTrap) -> Option<(u64, u64)> {
    match trap {
        MachineTrap::InstructionAddressMisaligned { address } => Some((0, address)),
        MachineTrap::InstructionAccessFault { address } => Some((1, address)),
        MachineTrap::IllegalInstruction { instruction, .. } => Some((2, instruction as u64)),
        MachineTrap::Breakpoint { .. } => Some((3, 0)),
        MachineTrap::LoadAddressMisaligned { address, .. } => Some((4, address)),
        MachineTrap::LoadAccessFault { address, .. } => Some((5, address)),
        MachineTrap::StoreAddressMisaligned { address, .. } => Some((6, address)),
        MachineTrap::StoreAccessFault { address, .. } => Some((7, address)),
        MachineTrap::InstructionPageFault { address } => Some((12, address)),
        MachineTrap::LoadPageFault { address } => Some((13, address)),
        MachineTrap::StorePageFault { address } => Some((15, address)),
        MachineTrap::ConsoleLimit { .. } => None,
    }
}

pub fn architectural_exception(trap: &MachineTrap) -> (r: Option<(u64, u64)>)
    ensures
        r == exception_of(*trap),
        r matches Some(e) ==> e.0 <= 15,
{
    match *trap {
        MachineTrap::InstructionAddressMisaligned { address } => Some((0, address)),
        MachineTrap::InstructionAccessFault { address } => Some((1, address)),
        MachineTrap::IllegalInstruction { instruction, .. } => Some((2, instruction as u64)),
        MachineTrap::Breakpoint { .. } => Some((3, 0)),
        MachineTrap::LoadAddressMisaligned { address, .. } => Some((4, address)),
        MachineTrap::LoadAccessFault { address, .. } => Some((5, address)),
        MachineTrap::StoreAddressMisaligned { address, .. } => Some((6, address)),
        MachineTrap::StoreAccessFault { address, .. } => Some((7, address)),
        MachineTrap::InstructionPageFault { address } => {
            Some((CAUSE_INSTRUCTION_PAGE_FAULT, address))
        },
        MachineTrap::LoadPageFault { address } => Some((CAUSE_LOAD_PAGE_FAULT, address)),
        MachineTrap::StorePageFault { address } => Some((CAUSE_STORE_PAGE_FAULT, address)),
        MachineTrap::ConsoleLimit { .. } => None,
    }
}

pub open spec fn illegal_spec(pc: u64, instruction: u32) -> MachineTrap {
    MachineTrap::IllegalInstruction { pc, instruction }
}

pub fn illegal(pc: u64, instruction: u32) -> (r: MachineTrap)
    ensures
        r == illegal_spec(pc, instruction),
{
    MachineTrap::IllegalInstruction { pc, instruction }
}

/// Kind of guest memory access being translated.
#[derive(Clone, Copy, Debug, PartialEq, Eq, Structural)]
pub enum AccessType {
    Instruction,
    Load,
    Store,
}

impl AccessType {
    pub open spec fn page_fault_spec(self, address: u64) -> MachineTrap {
        match self {
            AccessType::Instruction => MachineTrap::InstructionPageFault { address },
            AccessType::Load => MachineTrap::LoadPageFault { address },
            AccessType::Store => MachineTrap::StorePageFault { address },
        }
    }

    pub open spec fn access_fault_spec(self, address: u64, bytes: u8) -> MachineTrap {
        match self {
            AccessType::Instruction => MachineTrap::InstructionAccessFault { address },
            AccessType::Load => MachineTrap::LoadAccessFault { address, bytes },
            AccessType::Store => MachineTrap::StoreAccessFault { address, bytes },
        }
    }

    pub fn page_fault(self, address: u64) -> (r: MachineTrap)
        ensures
            r == self.page_fault_spec(address),
    {
        match self {
            AccessType::Instruction => MachineTrap::InstructionPageFault { address },
            AccessType::Load => MachineTrap::LoadPageFault { address },
            AccessType::Store => MachineTrap::StorePageFault { address },
        }
    }

    pub fn access_fault(self, address: u64, bytes: u8) -> (r: MachineTrap)
        ensures
            r == self.access_fault_spec(address, bytes),
    {
        match self {
            AccessType::Instruction => MachineTrap::InstructionAccessFault { address },
            AccessType::Load => MachineTrap::LoadAccessFault { address, bytes },
            AccessType::Store => MachineTrap::StoreAccessFault { address, bytes },
        }
    }
}

pub open spec fn aligned_spec(address: u64, bytes: u8, store: bool) -> Result<(), MachineTrap> {
    if address % (bytes as u64) == 0 {
        Ok(())
    } else if store {
        Err(MachineTrap::StoreAddressMisaligned { address, bytes })
    } else {
        Err(MachineTrap::LoadAddressMisaligned { address, bytes })
    }
}

/// Natural alignment of a data access.
pub fn ensure_aligned(address: u64, bytes: u8, store: bool) -> (r: Result<(), MachineTrap>)
    requires
        bytes > 0,
    ensures
        r == aligned_spec(address, bytes, store),
{
    if address % (bytes as u64) == 0 {
        return Ok(());
    }
    if store {
        Err(MachineTrap::StoreAddressMisaligned { address, bytes })
    } else {
        Err(MachineTrap::LoadAddressMisaligned { address, bytes })
    }
}

pub open spec fn instruction_aligned_spec(address: u64) -> Result<(), MachineTrap> {
    if address % 2 == 0 {
        Ok(())
    } else {
        Err(MachineTrap::InstructionAddressMisaligned { address })
    }
}

/// Two-byte alignment of a control-transfer target.
pub fn ensure_instruction_aligned(address: u64) -> (r: Result<(), MachineTrap>)
    ensures
        r == instruction_aligned_spec(address),
{
    if address % 2 == 0 {
        Ok(())
    } else {
        Err(MachineTrap::InstructionAddressMisaligned { address })
    }
}

pub open spec fn store_fault_spec(trap: MachineTrap, address: u64, bytes: u8) -> MachineTrap {
    match trap {
        MachineTrap::ConsoleLimit { .. } => trap,
        _ => MachineTrap::StoreAccessFault { address, bytes },
    }
}

/// A device refusal seen by a store names the virtual address, except for the
/// console ceiling, which is not architectural.
pub fn map_store_fault(trap: MachineTrap, address: u64, bytes: u8) -> (r: MachineTrap)
    ensures
        r == store_fault_spec(trap, address, bytes),
{
    match trap {
        MachineTrap::ConsoleLimit { .. } => trap,
        _ => MachineTrap::StoreAccessFault { address, bytes },
    }
}

pub open spec fn ecall_cause_spec(privilege: Privilege) -> u64 {
    match privilege {
        Privilege::User => CAUSE_ECALL_FROM_USER,
        Privilege::Supervisor => CAUSE_ECALL_FROM_SUPERVISOR,
        Privilege::Machine => CAUSE_ECALL_FROM_MACHINE,
    }
}

pub fn ecall_cause(privilege: Privilege) -> (r: u64)
    ensures
        r == ecall_cause_spec(privilege),
        r <= 15,
{
    match privilege {
        Privilege::User => CAUSE_ECALL_FROM_USER,
        Privilege::Supervisor => CAUSE_ECALL_FROM_SUPERVISOR,
        Privilege::Machine => CAUSE_ECALL_FROM_MACHINE,
    }
}

/// Trap vectors admit direct and vectored modes; other encodings become direct.
pub open spec fn legal_vector(value: u64) -> u64 {
    if value & 3 == 0 || value & 3 == 1 {
        value
    } else {
        value & !3u64
    }
}

pub fn legal_trap_vector(value: u64) -> (r: u64)
    ensures
        r == legal_vector(value),
{
    let mode: u64 = value & 3;
    if mode == 0 || mode == 1 {
        value
    } else {
        value & !3u64
    }
}

pub open spec fn vector_target(vector: u64, cause: u64) -> u64 {
    if vector & 3 == 1 {
        (vector & !3u64).wrapping_add((cause * 4) as u64)
    } else {
        vector & !3u64
    }
}

/// Entry address of an interrupt under a direct or vectored trap vector.
pub fn interrupt_vector(vector: u64, cause: u64) -> (r: u64)
    requires
        cause < 64,
    ensures
        r == vector_target(vector, cause),
{
    let base: u64 = vector & !3u64;
    if vector & 3 == 1 {
        base.wrapping_add(cause * 4)
    } else {
        base
    }
}

/// An Sv39 address repeats bit 38 in all of its upper bits.
pub open spec fn sv39_canonical(address: u64) -> bool {
    if (address >> 38) & 1 == 0 {
        address >> 39 == 0
    } else {
        address >> 39 == 0x1ff_ffff
    }
}

pub fn is_sv39_canonical(address: u64) -> (r: bool)
    ensures
        r == sv39_canonical(address),
{
    let sign: u64 = (address >> 38) & 1;
    let upper: u64 = address >> 39;
    if sign == 0 {
        upper == 0
    } else {
        upper == 0x1ff_ffff
    }
}

/// The low `bits` bits of `value` read as a two's-complement number, in 64 bits.
pub open spec fn sext(value: u64, bits: u32) -> u64 {
    (((value << ((64 - bits) as u32)) as i64) >> ((64 - bits) as u32)) as u64
}

pub fn sign_extend(value: u64, bits: u32) -> (r: u64)
    requires
        0 < bits <= 64,
    ensures
        r == sext(value, bits),
{
    let shift: u32 = 64 - bits;
    (((value << shift) as i64) >> shift) as u64
}

/// Sign extension of a 32-bit word keeps the word in the low half and fills the
/// high half with copies of its sign bit.
pub proof fn sext_word_keeps_the_word(value: u64)
    ensures
        sext(value, 32) as u32 == value as u32,
        (value >> 31) & 1 == 0 ==> sext(value, 32) >> 32 == 0,
        (value >> 31) & 1 == 1 ==> sext(value, 32) >> 32 == 0xffff_ffff,
{
    assert((((((value << 32u32) as i64) >> 32u32) as u64) as u32 == value as u32) && ((value >> 31)
        & 1 == 0 ==> ((((value << 32u32) as i64) >> 32u32) as u64) >> 32 == 0) && ((value >> 31)
        & 1 == 1 ==> ((((value << 32u32) as i64) >> 32u32) as u64) >> 32 == 0xffff_ffff))
        by (bit_vector);
}

/// Five-bit register number held by an instruction at a bit position.
pub open spec fn register_field(instruction: u32, shift: u32) -> int {
    ((instruction >> shift) & 0x1f) as int
}

pub fn register_index(instruction: u32, shift: u32) -> (r: usize)
    requires
        shift < 32,
    ensures
        r == register_field(instruction, shift),
        r < 32,
{
    let field: u32 = (instruction >> shift) & 0x1f;
    proof {
        crate::bits::lemma_masked(0, 0, instruction >> shift, 0x1f, 0, 0);
    }
    field as usize
}

pub open spec fn imm_i(instruction: u32) -> u64 {
    sext((instruction >> 20) as u64, 12)
}

pub open spec fn imm_s(instruction: u32) -> u64 {
    sext((((instruction >> 7) & 0x1f) | (((instruction >> 25) & 0x7f) << 5)) as u64, 12)
}

pub open spec fn imm_b(instruction: u32) -> u64 {
    sext(
        ((((instruction >> 8) & 0x0f) << 1) | (((instruction >> 25) & 0x3f) << 5) | (((instruction
            >> 7) & 1) << 11) | (((instruction >> 31) & 1) << 12)) as u64,
        13,
    )
}

pub open spec fn imm_u(instruction: u32) -> u64 {
    sext((instruction & 0xffff_f000) as u64, 32)
}

pub open spec fn imm_j(instruction: u32) -> u64 {
    sext(
        ((((instruction >> 21) & 0x03ff) << 1) | (((instruction >> 20) & 1) << 11) | (((instruction
            >> 12) & 0xff) << 12) | (((instruction >> 31) & 1) << 20)) as u64,
        21,
    )
}

pub fn immediate_i(instruction: u32) -> (r: u64)
    ensures
        r == imm_i(instruction),
{
    sign_extend((instruction >> 20) as u64, 12)
}

pub fn immediate_s(instruction: u32) -> (r: u64)
    ensures
        r == imm_s(instruction),
{
    let value: u32 = ((instruction >> 7) & 0x1f) | (((instruction >> 25) & 0x7f) << 5);
    sign_extend(value as u64, 12)
}

pub fn immediate_b(instruction: u32) -> (r: u64)
    ensures
        r == imm_b(instruction),
{
    let value: u32 = (((instruction >> 8) & 0x0f) << 1) | (((instruction >> 25) & 0x3f) << 5) | (((
    instruction >> 7) & 1) << 11) | (((instruction >> 31) & 1) << 12);
    sign_extend(value as u64, 13)
}

pub fn immediate_u(instruction: u32) -> (r: u64)
    ensures
        r == imm_u(instruction),
{
    sign_extend((instruction & 0xffff_f000) as u64, 32)
}

pub fn immediate_j(instruction: u32) -> (r: u64)
    ensures
        r == imm_j(instruction),
{
    let value: u32 = (((instruction >> 21) & 0x03ff) << 1) | (((instruction >> 20) & 1) << 11) | (((
    instruction >> 12) & 0xff) << 12) | (((instruction >> 31) & 1) << 20);
    sign_extend(value as u64, 21)
}

} // verus!
