//! The durable checkpoint format: what is written, what is read back, and that
//! reading undoes writing.

use crate::bytes;
use crate::cpu::{Cpu, CsrFile};
use crate::devices;
use crate::devices::DevicesView;
use crate::hart::{HartControl, HartLifecycle, HartState, TranslationCache};
use crate::isa;
use crate::isa::{
    Privilege, INTERRUPT_SUPPORTED, MEDELEG_SUPPORTED, MIDELEG_SUPPORTED, MSTATUS_WRITABLE,
    SATP_MODE_BARE, SATP_MODE_SHIFT, SATP_MODE_SV39,
};
use crate::machine::{MachineMetrics, MachineView, PendingView, Plan9RequestView, RunState};
use crate::platform::{
    HostRequestId, MachineConfig, MachineError, MACHINE_MODEL, MAX_9P_MESSAGE_BYTES,
    MAX_CONSOLE_BYTES, MAX_HARTS, MAX_RAM_BYTES, MIN_9P_MESSAGE_BYTES, MIN_RAM_BYTES,
};
use crate::ram;
use vstd::prelude::*;
use vstd::string::*;

verus! {

pub const FORMAT_VERSION: u32 = 2;

pub const DIGEST_BYTES: usize = 32;

pub const PAGE_BYTES: usize = 4096;

pub const CSR_WORDS: usize = 18;

/// The fixed format marker, `AOSRVCHK`.
pub const MAGIC: [u8; 8] = [0x41, 0x4f, 0x53, 0x52, 0x56, 0x43, 0x48, 0x4b];

/// Domain-bearing digest used to bind a machine checkpoint to immutable input.
#[derive(Clone, Copy, Debug, PartialEq, Eq)]
pub struct CheckpointDigest {
    pub bytes: [u8; 32],
}

/// Immutable identities that make a prewarmed machine state admissible.
#[derive(Clone, Copy, Debug, PartialEq, Eq)]
pub struct CheckpointBinding {
    pub linux_image: CheckpointDigest,
    pub distribution: CheckpointDigest,
}

/// Rejected durable checkpoint bytes.
#[derive(Clone, Copy, Debug, PartialEq, Eq)]
pub enum CheckpointDecodeError {
    /// The fixed format marker is absent.
    InvalidMagic,
    /// The codec version is not implemented by this machine.
    UnsupportedVersion(u32),
    /// The checkpoint targets another machine model.
    MachineModelMismatch,
    /// Image or distribution identity differs from the selected artifact.
    BindingMismatch,
    /// The payload digest does not match its bytes.
    IntegrityMismatch,
    /// A length-prefixed field ends beyond the admitted input.
    Truncated,
    /// Bytes remained after the final format field.
    TrailingBytes,
    /// A decoded value violates a machine invariant.
    InvalidField(&'static str),
    /// The encoded resource envelope is not admissible.
    Machine(MachineError),
}

/// A value read at a position, with the position behind it.
pub type Parsed<T> = Result<(T, int), CheckpointDecodeError>;

// What is written.

pub open spec fn u32_bytes(value: u32) -> Seq<u8> {
    bytes::le_bytes(value as nat, 4)
}

pub open spec fn u64_bytes(value: u64) -> Seq<u8> {
    bytes::le_bytes(value as nat, 8)
}

pub open spec fn words_bytes(words: Seq<u64>) -> Seq<u8>
    decreases words.len(),
{
    if words.len() == 0 {
        Seq::empty()
    } else {
        words_bytes(words.drop_last()) + u64_bytes(words.last())
    }
}

pub open spec fn bool_byte(value: bool) -> Seq<u8> {
    seq![
        if value {
            1u8
        } else {
            0u8
        },
    ]
}

/// A byte string behind its length.
pub open spec fn sized_bytes(value: Seq<u8>) -> Seq<u8> {
    u32_bytes(value.len() as u32) + value
}

pub open spec fn lifecycle_byte(lifecycle: HartLifecycle) -> Seq<u8> {
    bool_byte(lifecycle == HartLifecycle::Started)
}

pub open spec fn csr_words(csrs: CsrFile) -> Seq<u64> {
    seq![
        csrs.mstatus,
        csrs.medeleg,
        csrs.mideleg,
        csrs.mie,
        csrs.mip,
        csrs.mcounteren,
        csrs.scounteren,
        csrs.satp,
        csrs.mtvec,
        csrs.mscratch,
        csrs.mepc,
        csrs.mcause,
        csrs.mtval,
        csrs.stvec,
        csrs.sscratch,
        csrs.sepc,
        csrs.scause,
        csrs.stval,
    ]
}

pub open spec fn reservation_bytes(reservation: Option<(u64, u8)>) -> Seq<u8> {
    match reservation {
        Some((address, width)) => seq![1u8] + u64_bytes(address) + seq![width],
        None => seq![0u8],
    }
}

pub open spec fn core_bytes(hart: HartState) -> Seq<u8> {
    lifecycle_byte(hart.lifecycle) + words_bytes(hart.cpu.registers@) + u64_bytes(hart.cpu.pc)
        + seq![hart.cpu.privilege.code() as u8]
}

pub open spec fn status_bytes(hart: HartState) -> Seq<u8> {
    words_bytes(hart.cpu.floating_registers@) + words_bytes(csr_words(hart.csrs)) + seq![
        hart.csrs.fcsr,
    ]
}

pub open spec fn timing_bytes(hart: HartState) -> Seq<u8> {
    u64_bytes(hart.timer_deadline) + bool_byte(hart.msip) + u64_bytes(hart.cycle) + u64_bytes(
        hart.instret,
    )
}

pub open spec fn hart_bytes(hart: HartState) -> Seq<u8> {
    core_bytes(hart) + status_bytes(hart) + timing_bytes(hart) + reservation_bytes(hart.reservation)
}

/// The harts below `upto`, one after the other.
pub open spec fn harts_bytes(harts: Seq<HartState>, upto: nat) -> Seq<u8>
    decreases upto,
{
    if upto == 0 {
        Seq::empty()
    } else {
        harts_bytes(harts, (upto - 1) as nat) + hart_bytes(harts[upto - 1])
    }
}

pub open spec fn model_bytes() -> Seq<u8> {
    MACHINE_MODEL.spec_bytes()
}

pub open spec fn identity_bytes(binding: CheckpointBinding) -> Seq<u8> {
    MAGIC@ + u32_bytes(FORMAT_VERSION) + sized_bytes(model_bytes()) + binding.linux_image.bytes@
        + binding.distribution.bytes@
}

pub open spec fn shape_bytes(m: MachineView) -> Seq<u8> {
    u64_bytes(m.config.ram_bytes as u64) + u64_bytes(m.config.max_console_bytes as u64) + u32_bytes(
        m.harts.len() as u32,
    ) + u32_bytes(m.active as u32) + u64_bytes(m.quantum)
}

pub open spec fn counters_bytes(m: MachineView) -> Seq<u8> {
    u64_bytes(m.devices.mtime) + u64_bytes(m.steps) + u64_bytes(m.retired) + bool_byte(m.firmware)
        + u64_bytes(m.next_id)
}

pub open spec fn request_bytes(pending: PendingView) -> Seq<u8> {
    u64_bytes(pending.request.id.0) + u32_bytes(pending.request.channel) + u32_bytes(
        pending.hart_id as u32,
    ) + sized_bytes(pending.request.message) + u64_bytes(pending.request.max_response_bytes as u64)
        + u64_bytes(pending.response_address)
}

/// One populated page behind its index; nothing for a page of zeros.
pub open spec fn page_entry(memory: Seq<u8>, page: int) -> Seq<u8> {
    let content = ram::page_of(memory, PAGE_BYTES as int, page);
    if ram::all_zero(content) {
        Seq::empty()
    } else {
        u32_bytes(page as u32) + content
    }
}

/// The populated pages below `upto`, in ascending order.
pub open spec fn pages_bytes(memory: Seq<u8>, upto: nat) -> Seq<u8>
    decreases upto,
{
    if upto == 0 {
        Seq::empty()
    } else {
        pages_bytes(memory, (upto - 1) as nat) + page_entry(memory, upto - 1)
    }
}

pub open spec fn page_count(memory: Seq<u8>) -> nat {
    (memory.len() / (PAGE_BYTES as nat)) as nat
}

pub open spec fn memory_bytes(memory: Seq<u8>) -> Seq<u8> {
    u32_bytes(
        ram::populated(memory, PAGE_BYTES as int, page_count(memory)).len() as u32,
    ) + pages_bytes(memory, page_count(memory))
}

/// Everything that the digest covers.
pub open spec fn payload_of(m: MachineView, binding: CheckpointBinding) -> Seq<u8> {
    identity_bytes(binding) + shape_bytes(m) + harts_bytes(m.harts, m.harts.len()) + counters_bytes(
        m,
    ) + request_bytes(m.pending->Some_0) + memory_bytes(m.devices.ram)
}

// What is read back.

pub open spec fn take_spec(s: Seq<u8>, at: int, count: int) -> Parsed<Seq<u8>> {
    if at + count <= s.len() {
        Ok((s.subrange(at, at + count), at + count))
    } else {
        Err(CheckpointDecodeError::Truncated)
    }
}

pub open spec fn byte_spec(s: Seq<u8>, at: int) -> Parsed<u8> {
    if at + 1 <= s.len() {
        Ok((s[at], at + 1))
    } else {
        Err(CheckpointDecodeError::Truncated)
    }
}

pub open spec fn u32_spec(s: Seq<u8>, at: int) -> Parsed<u32> {
    if at + 4 <= s.len() {
        Ok((bytes::le_value(s.subrange(at, at + 4)) as u32, at + 4))
    } else {
        Err(CheckpointDecodeError::Truncated)
    }
}

pub open spec fn u64_spec(s: Seq<u8>, at: int) -> Parsed<u64> {
    if at + 8 <= s.len() {
        Ok((bytes::le_value(s.subrange(at, at + 8)) as u64, at + 8))
    } else {
        Err(CheckpointDecodeError::Truncated)
    }
}

pub open spec fn words_spec(s: Seq<u8>, at: int, count: nat) -> Parsed<Seq<u64>> {
    if at + 8 * count <= s.len() {
        Ok(
            (
                Seq::new(
                    count,
                    |i: int| bytes::le_value(s.subrange(at + 8 * i, at + 8 * i + 8)) as u64,
                ),
                at + 8 * count,
            ),
        )
    } else {
        Err(CheckpointDecodeError::Truncated)
    }
}

pub open spec fn bool_spec(s: Seq<u8>, at: int, field: &'static str) -> Parsed<bool> {
    match byte_spec(s, at) {
        Ok((value, next)) => if value <= 1 {
            Ok((value == 1, next))
        } else {
            Err(CheckpointDecodeError::InvalidField(field))
        },
        Err(error) => Err(error),
    }
}

pub open spec fn usize_spec(s: Seq<u8>, at: int, field: &'static str) -> Parsed<usize> {
    match u64_spec(s, at) {
        Ok((value, next)) => if value <= usize::MAX {
            Ok((value as usize, next))
        } else {
            Err(CheckpointDecodeError::InvalidField(field))
        },
        Err(error) => Err(error),
    }
}

pub open spec fn sized_spec(s: Seq<u8>, at: int) -> Parsed<Seq<u8>> {
    match u32_spec(s, at) {
        Ok((count, next)) => take_spec(s, next, count as int),
        Err(error) => Err(error),
    }
}

pub open spec fn array_of(words: Seq<u64>) -> [u64; 32] {
    choose|a: [u64; 32]| a@ == words
}

pub open spec fn csrs_of(words: Seq<u64>, fcsr: u8) -> CsrFile {
    CsrFile {
        fcsr,
        mstatus: words[0],
        medeleg: words[1],
        mideleg: words[2],
        mie: words[3],
        mip: words[4],
        mcounteren: words[5],
        scounteren: words[6],
        satp: words[7],
        mtvec: words[8],
        mscratch: words[9],
        mepc: words[10],
        mcause: words[11],
        mtval: words[12],
        stvec: words[13],
        sscratch: words[14],
        sepc: words[15],
        scause: words[16],
        stval: words[17],
    }
}

/// Register contents that guest writes could have produced.
pub open spec fn csrs_valid(csrs: CsrFile) -> bool {
    let mode = csrs.satp >> SATP_MODE_SHIFT;
    &&& csrs.mstatus & !MSTATUS_WRITABLE == 0
    &&& csrs.medeleg & !MEDELEG_SUPPORTED == 0
    &&& csrs.mideleg & !MIDELEG_SUPPORTED == 0
    &&& csrs.mie & !INTERRUPT_SUPPORTED == 0
    &&& csrs.mip & !INTERRUPT_SUPPORTED == 0
    &&& csrs.mcounteren & !7u64 == 0
    &&& csrs.scounteren & !7u64 == 0
    &&& mode == SATP_MODE_BARE || mode == SATP_MODE_SV39
    &&& isa::legal_vector(csrs.mtvec) == csrs.mtvec
    &&& isa::legal_vector(csrs.stvec) == csrs.stvec
    &&& csrs.mepc & 1 == 0
    &&& csrs.sepc & 1 == 0
}

/// Lifecycle, integer registers, program counter and privilege of a hart.
#[verifier::opaque]
pub open spec fn core_spec(s: Seq<u8>, at: int) -> Parsed<(bool, Cpu)> {
    match bool_spec(s, at, "hart lifecycle") {
        Err(error) => Err(error),
        Ok((started, at)) => match words_spec(s, at, 32) {
            Err(error) => Err(error),
            Ok((registers, at)) => if registers[0] != 0 {
                Err(CheckpointDecodeError::InvalidField("zero register"))
            } else {
                match u64_spec(s, at) {
                    Err(error) => Err(error),
                    Ok((pc, at)) => if pc & 1 != 0 {
                        Err(CheckpointDecodeError::InvalidField("program counter"))
                    } else {
                        match byte_spec(s, at) {
                            Err(error) => Err(error),
                            Ok((code, at)) => match Privilege::of_code(code as u64) {
                                None => Err(CheckpointDecodeError::InvalidField("privilege")),
                                Some(privilege) => Ok(
                                    (
                                        (
                                            started,
                                            Cpu {
                                                registers: array_of(registers),
                                                floating_registers: crate::cpu::zero_registers(),
                                                pc,
                                                privilege,
                                            },
                                        ),
                                        at,
                                    ),
                                ),
                            },
                        }
                    },
                }
            },
        },
    }
}

/// Floating-point registers and control registers of a hart.
#[verifier::opaque]
pub open spec fn status_parse_spec(s: Seq<u8>, at: int) -> Parsed<([u64; 32], CsrFile)> {
    match words_spec(s, at, 32) {
        Err(error) => Err(error),
        Ok((floats, at)) => match words_spec(s, at, CSR_WORDS as nat) {
            Err(error) => Err(error),
            Ok((words, at)) => match byte_spec(s, at) {
                Err(error) => Err(error),
                Ok((fcsr, at)) => if csrs_valid(csrs_of(words, fcsr)) {
                    Ok(((array_of(floats), csrs_of(words, fcsr)), at))
                } else {
                    Err(CheckpointDecodeError::InvalidField("CSR state"))
                },
            },
        },
    }
}

/// Timer deadline, software interrupt and counters of a hart.
#[verifier::opaque]
pub open spec fn timing_spec(s: Seq<u8>, at: int) -> Parsed<(u64, bool, u64, u64)> {
    match u64_spec(s, at) {
        Err(error) => Err(error),
        Ok((deadline, at)) => match bool_spec(s, at, "software interrupt state") {
            Err(error) => Err(error),
            Ok((msip, at)) => match u64_spec(s, at) {
                Err(error) => Err(error),
                Ok((cycle, at)) => match u64_spec(s, at) {
                    Err(error) => Err(error),
                    Ok((instret, at)) => Ok(((deadline, msip, cycle, instret), at)),
                },
            },
        },
    }
}

pub open spec fn reservation_valid(reservation: Option<(u64, u8)>, ram_bytes: int) -> bool {
    match reservation {
        Some((address, width)) => (width == 4 || width == 8) && devices::ram_offset(
            ram_bytes,
            address,
            width as int,
        ) is Some,
        None => true,
    }
}

#[verifier::opaque]
pub open spec fn reservation_spec(s: Seq<u8>, at: int, ram_bytes: int) -> Parsed<
    Option<(u64, u8)>,
> {
    match byte_spec(s, at) {
        Err(error) => Err(error),
        Ok((marker, at)) => if marker == 0 {
            Ok((None, at))
        } else if marker != 1 {
            Err(CheckpointDecodeError::InvalidField("reservation marker"))
        } else {
            match u64_spec(s, at) {
                Err(error) => Err(error),
                Ok((address, at)) => match byte_spec(s, at) {
                    Err(error) => Err(error),
                    Ok((width, at)) => if reservation_valid(Some((address, width)), ram_bytes) {
                        Ok((Some((address, width)), at))
                    } else {
                        Err(CheckpointDecodeError::InvalidField("reservation"))
                    },
                },
            }
        },
    }
}

pub open spec fn assembled_hart(
    id: usize,
    core: (bool, Cpu),
    status: ([u64; 32], CsrFile),
    timing: (u64, bool, u64, u64),
    reservation: Option<(u64, u8)>,
) -> HartState {
    HartState {
        id,
        lifecycle: if core.0 {
            HartLifecycle::Started
        } else {
            HartLifecycle::Stopped
        },
        cpu: Cpu { floating_registers: status.0, ..core.1 },
        csrs: status.1,
        cycle: timing.2,
        instret: timing.3,
        reservation,
        timer_deadline: timing.0,
        msip: timing.1,
        translation_cache: TranslationCache::empty(),
    }
}

pub open spec fn hart_spec(s: Seq<u8>, at: int, id: usize, ram_bytes: int) -> Parsed<HartState> {
    match core_spec(s, at) {
        Err(error) => Err(error),
        Ok((core, at)) => match status_parse_spec(s, at) {
            Err(error) => Err(error),
            Ok((status, at)) => match timing_spec(s, at) {
                Err(error) => Err(error),
                Ok((timing, at)) => match reservation_spec(s, at, ram_bytes) {
                    Err(error) => Err(error),
                    Ok((reservation, at)) => Ok(
                        (assembled_hart(id, core, status, timing, reservation), at),
                    ),
                },
            },
        },
    }
}

/// The harts below `upto`.
pub open spec fn harts_spec(s: Seq<u8>, at: int, upto: nat, ram_bytes: int) -> Parsed<
    Seq<HartState>,
>
    decreases upto,
{
    if upto == 0 {
        Ok((Seq::empty(), at))
    } else {
        match harts_spec(s, at, (upto - 1) as nat, ram_bytes) {
            Err(error) => Err(error),
            Ok((harts, at)) => match hart_spec(s, at, (upto - 1) as usize, ram_bytes) {
                Err(error) => Err(error),
                Ok((hart, at)) => Ok((harts.push(hart), at)),
            },
        }
    }
}

/// Marker, version, model and binding.
#[verifier::opaque]
pub open spec fn identity_spec(s: Seq<u8>, at: int, expected: CheckpointBinding) -> Parsed<()> {
    match take_spec(s, at, 8) {
        Err(error) => Err(error),
        Ok((magic, at)) => if magic != MAGIC@ {
            Err(CheckpointDecodeError::InvalidMagic)
        } else {
            match u32_spec(s, at) {
                Err(error) => Err(error),
                Ok((version, at)) => if version != FORMAT_VERSION {
                    Err(CheckpointDecodeError::UnsupportedVersion(version))
                } else {
                    match sized_spec(s, at) {
                        Err(error) => Err(error),
                        Ok((model, at)) => if model != model_bytes() {
                            Err(CheckpointDecodeError::MachineModelMismatch)
                        } else {
                            match take_spec(s, at, 32) {
                                Err(error) => Err(error),
                                Ok((image, at)) => match take_spec(s, at, 32) {
                                    Err(error) => Err(error),
                                    Ok((distribution, at)) => if image
                                        != expected.linux_image.bytes@ || distribution
                                        != expected.distribution.bytes@ {
                                        Err(CheckpointDecodeError::BindingMismatch)
                                    } else {
                                        Ok(((), at))
                                    },
                                },
                            }
                        },
                    }
                },
            }
        },
    }
}

/// Resources and topology of a machine.
pub struct Shape {
    pub config: MachineConfig,
    pub harts: u32,
    pub active: u32,
    pub quantum: u64,
}

/// The reason a topology is not admitted, apart from the allocator.
pub open spec fn shape_refusal(config: MachineConfig, harts: u32) -> Option<MachineError> {
    if config.ram_bytes < MIN_RAM_BYTES || config.ram_bytes > MAX_RAM_BYTES || config.ram_bytes
        % MIN_RAM_BYTES != 0 {
        Some(MachineError::InvalidRamBytes(config.ram_bytes))
    } else if config.max_console_bytes > MAX_CONSOLE_BYTES {
        Some(MachineError::InvalidConsoleBytes(config.max_console_bytes))
    } else if harts < 1 || harts > MAX_HARTS {
        Some(MachineError::InvalidHartCount(harts as usize))
    } else {
        None
    }
}

#[verifier::opaque]
pub open spec fn shape_spec(s: Seq<u8>, at: int) -> Parsed<Shape> {
    match usize_spec(s, at, "RAM byte length") {
        Err(error) => Err(error),
        Ok((ram_bytes, at)) => match usize_spec(s, at, "console byte limit") {
            Err(error) => Err(error),
            Ok((max_console_bytes, at)) => match u32_spec(s, at) {
                Err(error) => Err(error),
                Ok((harts, at)) => {
                    let config = MachineConfig { ram_bytes, max_console_bytes };
                    match shape_refusal(config, harts) {
                        Some(error) => Err(CheckpointDecodeError::Machine(error)),
                        None => match u32_spec(s, at) {
                            Err(error) => Err(error),
                            Ok((active, at)) => if active >= harts {
                                Err(CheckpointDecodeError::InvalidField("active hart"))
                            } else {
                                match u64_spec(s, at) {
                                    Err(error) => Err(error),
                                    Ok((quantum, at)) => Ok(
                                        (Shape { config, harts, active, quantum }, at),
                                    ),
                                }
                            },
                        },
                    }
                },
            },
        },
    }
}

/// Machine-wide counters.
pub struct Counters {
    pub mtime: u64,
    pub steps: u64,
    pub retired: u64,
    pub next_id: u64,
}

#[verifier::opaque]
pub open spec fn counters_spec(s: Seq<u8>, at: int) -> Parsed<Counters> {
    match u64_spec(s, at) {
        Err(error) => Err(error),
        Ok((mtime, at)) => match u64_spec(s, at) {
            Err(error) => Err(error),
            Ok((steps, at)) => match u64_spec(s, at) {
                Err(error) => Err(error),
                Ok((retired, at)) => match bool_spec(s, at, "firmware state") {
                    Err(error) => Err(error),
                    Ok((firmware, at)) => if !firmware {
                        Err(CheckpointDecodeError::InvalidField("firmware state"))
                    } else {
                        match u64_spec(s, at) {
                            Err(error) => Err(error),
                            Ok((next_id, at)) => Ok(
                                (Counters { mtime, steps, retired, next_id }, at),
                            ),
                        }
                    },
                },
            },
        },
    }
}

/// Identity, channel, hart and message of the pending request.
pub open spec fn question_spec(s: Seq<u8>, at: int, harts: int) -> Parsed<
    (u64, u32, u32, Seq<u8>),
> {
    match u64_spec(s, at) {
        Err(error) => Err(error),
        Ok((id, at)) => match u32_spec(s, at) {
            Err(error) => Err(error),
            Ok((channel, at)) => match u32_spec(s, at) {
                Err(error) => Err(error),
                Ok((hart, at)) => match sized_spec(s, at) {
                    Err(error) => Err(error),
                    Ok((message, at)) => if channel == 0 || hart >= harts
                        || !(MIN_9P_MESSAGE_BYTES <= message.len() <= MAX_9P_MESSAGE_BYTES) {
                        Err(CheckpointDecodeError::InvalidField("host request"))
                    } else {
                        Ok(((id, channel, hart, message), at))
                    },
                },
            },
        },
    }
}

#[verifier::opaque]
pub open spec fn request_spec(
    s: Seq<u8>,
    at: int,
    harts: int,
    ram_bytes: int,
    next_id: u64,
) -> Parsed<PendingView> {
    match question_spec(s, at, harts) {
        Err(error) => Err(error),
        Ok((question, at)) => match usize_spec(s, at, "host response byte limit") {
            Err(error) => Err(error),
            Ok((limit, at)) => if !(MIN_9P_MESSAGE_BYTES <= limit <= MAX_9P_MESSAGE_BYTES) {
                Err(CheckpointDecodeError::InvalidField("host response byte limit"))
            } else {
                match u64_spec(s, at) {
                    Err(error) => Err(error),
                    Ok((address, at)) => if devices::ram_offset(
                        ram_bytes,
                        address,
                        limit as int,
                    ) is None || question.0 == 0 || next_id <= question.0 {
                        Err(
                            CheckpointDecodeError::InvalidField(
                                "host request identity or response buffer",
                            ),
                        )
                    } else {
                        Ok(
                            (
                                PendingView {
                                    request: Plan9RequestView {
                                        id: HostRequestId(question.0),
                                        channel: question.1,
                                        message: question.3,
                                        max_response_bytes: limit,
                                    },
                                    response_address: address,
                                    hart_id: question.2 as usize,
                                },
                                at,
                            ),
                        )
                    },
                }
            },
        },
    }
}

/// `count` pages, each above the last and at least `floor`, put into `memory`.
pub open spec fn pages_spec(s: Seq<u8>, at: int, count: nat, memory: Seq<u8>, floor: int) -> Parsed<
    Seq<u8>,
>
    decreases count,
{
    if count == 0 {
        Ok((memory, at))
    } else {
        match u32_spec(s, at) {
            Err(error) => Err(error),
            Ok((page, at)) => if page >= page_count(memory) || page < floor {
                Err(CheckpointDecodeError::InvalidField("RAM page order"))
            } else {
                match take_spec(s, at, PAGE_BYTES as int) {
                    Err(error) => Err(error),
                    Ok((content, at)) => pages_spec(
                        s,
                        at,
                        (count - 1) as nat,
                        ram::splice(memory, page * PAGE_BYTES, content),
                        page + 1,
                    ),
                }
            },
        }
    }
}

#[verifier::opaque]
pub open spec fn memory_spec(s: Seq<u8>, at: int, ram_bytes: nat) -> Parsed<Seq<u8>> {
    match u32_spec(s, at) {
        Err(error) => Err(error),
        Ok((count, at)) => if count > ram_bytes / (PAGE_BYTES as nat) {
            Err(CheckpointDecodeError::InvalidField("populated page count"))
        } else {
            pages_spec(s, at, count as nat, ram::zeros(ram_bytes), 0)
        },
    }
}

pub open spec fn settled_controls(harts: Seq<HartState>) -> Seq<HartControl> {
    Seq::new(harts.len(), |i: int| HartControl::fresh(harts[i].lifecycle))
}

pub open spec fn restored(
    shape: Shape,
    harts: Seq<HartState>,
    counters: Counters,
    pending: PendingView,
    memory: Seq<u8>,
) -> MachineView {
    MachineView {
        config: shape.config,
        active: shape.active as int,
        harts,
        controls: settled_controls(harts),
        quantum: shape.quantum,
        devices: DevicesView {
            ram: memory,
            mtime: counters.mtime,
            input: Seq::empty(),
            output: Seq::empty(),
            limit: shape.config.max_console_bytes,
        },
        state: RunState::Runnable,
        steps: counters.steps,
        retired: counters.retired,
        firmware: true,
        next_id: counters.next_id,
        pending: Some(pending),
        metrics: MachineMetrics::zero(),
    }
}

/// The part of a payload behind its shape.
pub open spec fn body_spec(s: Seq<u8>, at: int, shape: Shape) -> Result<
    MachineView,
    CheckpointDecodeError,
> {
    let ram_bytes = shape.config.ram_bytes as int;
    match harts_spec(s, at, shape.harts as nat, ram_bytes) {
        Err(error) => Err(error),
        Ok((harts, at)) => match counters_spec(s, at) {
            Err(error) => Err(error),
            Ok((counters, at)) => match request_spec(
                s,
                at,
                shape.harts as int,
                ram_bytes,
                counters.next_id,
            ) {
                Err(error) => Err(error),
                Ok((pending, at)) => match memory_spec(s, at, ram_bytes as nat) {
                    Err(error) => Err(error),
                    Ok((memory, at)) => if at < s.len() {
                        Err(CheckpointDecodeError::TrailingBytes)
                    } else {
                        Ok(restored(shape, harts, counters, pending, memory))
                    },
                },
            },
        },
    }
}

/// Shape of the machine that a payload asks for, or the first reason it asks
/// for none.
pub open spec fn payload_shape(s: Seq<u8>, expected: CheckpointBinding) -> Result<
    Shape,
    CheckpointDecodeError,
> {
    match identity_spec(s, 0, expected) {
        Err(error) => Err(error),
        Ok((_, at)) => match shape_spec(s, at) {
            Err(error) => Err(error),
            Ok((shape, _)) => Ok(shape),
        },
    }
}

/// Machine that a payload stands for, or the first reason it stands for none.
pub open spec fn payload_spec(s: Seq<u8>, expected: CheckpointBinding) -> Result<
    MachineView,
    CheckpointDecodeError,
> {
    match identity_spec(s, 0, expected) {
        Err(error) => Err(error),
        Ok((_, at)) => match shape_spec(s, at) {
            Err(error) => Err(error),
            Ok((shape, at)) => body_spec(s, at, shape),
        },
    }
}

/// Split of an artifact into payload and digest, checked against a digest of
/// the payload.
pub open spec fn artifact_spec(s: Seq<u8>, digest: Seq<u8>, expected: CheckpointBinding) -> Result<
    MachineView,
    CheckpointDecodeError,
> {
    if s.len() < DIGEST_BYTES {
        Err(CheckpointDecodeError::Truncated)
    } else if s.subrange(s.len() - DIGEST_BYTES, s.len() as int) != digest {
        Err(CheckpointDecodeError::IntegrityMismatch)
    } else {
        payload_spec(s.subrange(0, s.len() - DIGEST_BYTES), expected)
    }
}

/// RAM size of the machine that a payload asks for, once its shape is admitted.
pub open spec fn payload_envelope(s: Seq<u8>, expected: CheckpointBinding) -> Option<usize> {
    match payload_shape(s, expected) {
        Ok(shape) => Some(shape.config.ram_bytes),
        Err(_) => None,
    }
}

pub open spec fn artifact_envelope(
    s: Seq<u8>,
    digest: Seq<u8>,
    expected: CheckpointBinding,
) -> Option<usize> {
    if s.len() < DIGEST_BYTES || s.subrange(s.len() - DIGEST_BYTES, s.len() as int) != digest {
        None
    } else {
        payload_envelope(s.subrange(0, s.len() - DIGEST_BYTES), expected)
    }
}

// Reading undoes writing.

/// Hart state that the format carries.
pub open spec fn hart_admissible(hart: HartState, id: int, ram_bytes: int) -> bool {
    &&& hart.id == id
    &&& hart.cpu.wf()
    &&& hart.cpu.pc & 1 == 0
    &&& csrs_valid(hart.csrs)
    &&& reservation_valid(hart.reservation, ram_bytes)
}

pub open spec fn request_admissible(m: MachineView) -> bool {
    m.pending is Some && m.request_sound()
}

/// Machines that survive the durable format.
pub open spec fn admissible(m: MachineView) -> bool {
    &&& shape_refusal(m.config, m.harts.len() as u32) is None
    &&& m.harts.len() <= MAX_HARTS
    &&& 0 <= m.active < m.harts.len()
    &&& m.devices.ram.len() == m.config.ram_bytes
    &&& m.firmware
    &&& request_admissible(m)
    &&& forall|i: int|
        0 <= i < m.harts.len() ==> hart_admissible(
            #[trigger] m.harts[i],
            i,
            m.config.ram_bytes as int,
        )
}

/// What the format keeps of a machine: translations, measurements, console
/// buffers and settled mailboxes start afresh.
pub open spec fn kept(m: MachineView) -> MachineView {
    let harts = Seq::new(
        m.harts.len(),
        |i: int| HartState { translation_cache: TranslationCache::empty(), ..m.harts[i] },
    );
    MachineView {
        harts,
        controls: settled_controls(harts),
        devices: DevicesView {
            input: Seq::empty(),
            output: Seq::empty(),
            limit: m.config.max_console_bytes,
            ..m.devices
        },
        state: RunState::Runnable,
        metrics: MachineMetrics::zero(),
        ..m
    }
}

/// `b` stands in `s` from `at` on.
pub open spec fn holds(s: Seq<u8>, at: int, b: Seq<u8>) -> bool {
    &&& 0 <= at
    &&& at + b.len() <= s.len()
    &&& s.subrange(at, at + b.len()) == b
}

proof fn lemma_split(s: Seq<u8>, at: int, a: Seq<u8>, b: Seq<u8>)
    requires
        holds(s, at, a + b),
    ensures
        holds(s, at, a),
        holds(s, at + a.len(), b),
{
    assert(s.subrange(at, at + a.len()) =~= (a + b).subrange(0, a.len() as int));
    assert((a + b).subrange(0, a.len() as int) =~= a);
    assert(s.subrange(at + a.len(), at + a.len() + b.len()) =~= (a + b).subrange(
        a.len() as int,
        (a + b).len() as int,
    ));
    assert((a + b).subrange(a.len() as int, (a + b).len() as int) =~= b);
}

proof fn lemma_u32(s: Seq<u8>, at: int, value: u32)
    requires
        holds(s, at, u32_bytes(value)),
    ensures
        u32_spec(s, at) == Ok::<_, CheckpointDecodeError>((value, at + 4)),
        u32_bytes(value).len() == 4,
{
    bytes::lemma_limits();
    bytes::le_value_of_bytes(value as nat, 4);
}

proof fn lemma_u64(s: Seq<u8>, at: int, value: u64)
    requires
        holds(s, at, u64_bytes(value)),
    ensures
        u64_spec(s, at) == Ok::<_, CheckpointDecodeError>((value, at + 8)),
        bytes::le_value(s.subrange(at, at + 8)) == value,
        u64_bytes(value).len() == 8,
{
    bytes::lemma_limits();
    bytes::le_value_of_bytes(value as nat, 8);
}

proof fn lemma_byte(s: Seq<u8>, at: int, value: u8)
    requires
        holds(s, at, seq![value]),
    ensures
        byte_spec(s, at) == Ok::<_, CheckpointDecodeError>((value, at + 1)),
{
    assert(s.subrange(at, at + 1)[0] == s[at]);
}

proof fn lemma_words_len(words: Seq<u64>)
    ensures
        words_bytes(words).len() == 8 * words.len(),
    decreases words.len(),
{
    if words.len() > 0 {
        lemma_words_len(words.drop_last());
        bytes::lemma_le_bytes_len(words.last() as nat, 8);
    }
}

proof fn lemma_word_at(s: Seq<u8>, at: int, words: Seq<u64>, i: int)
    requires
        holds(s, at, words_bytes(words)),
        0 <= i < words.len(),
    ensures
        bytes::le_value(s.subrange(at + 8 * i, at + 8 * i + 8)) == words[i],
    decreases words.len(),
{
    let head = words.drop_last();
    lemma_words_len(head);
    lemma_words_len(words);
    lemma_split(s, at, words_bytes(head), u64_bytes(words.last()));
    if i < words.len() - 1 {
        lemma_word_at(s, at, head, i);
    } else {
        lemma_u64(s, at + 8 * i, words.last());
    }
}

proof fn lemma_words(s: Seq<u8>, at: int, words: Seq<u64>)
    requires
        holds(s, at, words_bytes(words)),
    ensures
        words_spec(s, at, words.len()) == Ok::<_, CheckpointDecodeError>(
            (words, at + 8 * words.len()),
        ),
        words_bytes(words).len() == 8 * words.len(),
{
    lemma_words_len(words);
    let read = Seq::new(
        words.len(),
        |i: int| bytes::le_value(s.subrange(at + 8 * i, at + 8 * i + 8)) as u64,
    );
    assert forall|i: int| 0 <= i < words.len() implies read[i] == words[i] by {
        lemma_word_at(s, at, words, i);
    }
    assert(read =~= words);
}

proof fn lemma_sized(s: Seq<u8>, at: int, value: Seq<u8>)
    requires
        holds(s, at, sized_bytes(value)),
        value.len() <= u32::MAX,
    ensures
        sized_spec(s, at) == Ok::<_, CheckpointDecodeError>((value, at + 4 + value.len())),
        sized_bytes(value).len() == 4 + value.len(),
{
    lemma_split(s, at, u32_bytes(value.len() as u32), value);
    lemma_u32(s, at, value.len() as u32);
}

pub proof fn lemma_array(a: [u64; 32])
    ensures
        array_of(a@) == a,
{
    let chosen = array_of(a@);
    assert(chosen@ == a@);
    assert(chosen =~= a);
}

proof fn lemma_core(s: Seq<u8>, at: int, hart: HartState)
    requires
        holds(s, at, core_bytes(hart)),
        hart.cpu.wf(),
        hart.cpu.pc & 1 == 0,
    ensures
        core_spec(s, at) == Ok::<_, CheckpointDecodeError>(
            (
                (
                    hart.lifecycle == HartLifecycle::Started,
                    (Cpu { floating_registers: crate::cpu::zero_registers(), ..hart.cpu }),
                ),
                at + core_bytes(hart).len(),
            ),
        ),
{
    reveal(core_spec);
    let first = lifecycle_byte(hart.lifecycle);
    let registers = words_bytes(hart.cpu.registers@);
    let pc = u64_bytes(hart.cpu.pc);
    let code = hart.cpu.privilege.code() as u8;
    lemma_split(s, at, first + registers + pc, seq![code]);
    lemma_split(s, at, first + registers, pc);
    lemma_split(s, at, first, registers);
    lemma_byte(s, at, first[0]);
    lemma_words(s, at + 1, hart.cpu.registers@);
    lemma_u64(s, at + 1 + 256, hart.cpu.pc);
    lemma_byte(s, at + 1 + 256 + 8, code);
    lemma_array(hart.cpu.registers);
}

proof fn lemma_status(s: Seq<u8>, at: int, hart: HartState)
    requires
        holds(s, at, status_bytes(hart)),
        csrs_valid(hart.csrs),
    ensures
        status_parse_spec(s, at) == Ok::<_, CheckpointDecodeError>(
            ((hart.cpu.floating_registers, hart.csrs), at + status_bytes(hart).len()),
        ),
{
    reveal(status_parse_spec);
    let floats = words_bytes(hart.cpu.floating_registers@);
    let words = csr_words(hart.csrs);
    lemma_split(s, at, floats + words_bytes(words), seq![hart.csrs.fcsr]);
    lemma_split(s, at, floats, words_bytes(words));
    lemma_words(s, at, hart.cpu.floating_registers@);
    lemma_words(s, at + 256, words);
    lemma_byte(s, at + 256 + 144, hart.csrs.fcsr);
    lemma_array(hart.cpu.floating_registers);
}

proof fn lemma_timing(s: Seq<u8>, at: int, hart: HartState)
    requires
        holds(s, at, timing_bytes(hart)),
    ensures
        timing_spec(s, at) == Ok::<_, CheckpointDecodeError>(
            (
                (hart.timer_deadline, hart.msip, hart.cycle, hart.instret),
                at + timing_bytes(hart).len(),
            ),
        ),
{
    reveal(timing_spec);
    let deadline = u64_bytes(hart.timer_deadline);
    let msip = bool_byte(hart.msip);
    let cycle = u64_bytes(hart.cycle);
    let instret = u64_bytes(hart.instret);
    lemma_split(s, at, deadline + msip + cycle, instret);
    lemma_split(s, at, deadline + msip, cycle);
    lemma_split(s, at, deadline, msip);
    lemma_u64(s, at, hart.timer_deadline);
    lemma_byte(s, at + 8, msip[0]);
    lemma_u64(s, at + 9, hart.cycle);
    lemma_u64(s, at + 17, hart.instret);
}

proof fn lemma_reservation(
    s: Seq<u8>,
    at: int,
    reservation: Option<(u64, u8)>,
    ram_bytes: int,
)
    requires
        holds(s, at, reservation_bytes(reservation)),
        reservation_valid(reservation, ram_bytes),
    ensures
        reservation_spec(s, at, ram_bytes) == Ok::<_, CheckpointDecodeError>(
            (reservation, at + reservation_bytes(reservation).len()),
        ),
{
    reveal(reservation_spec);
    match reservation {
        Some((address, width)) => {
            lemma_split(s, at, seq![1u8] + u64_bytes(address), seq![width]);
            lemma_split(s, at, seq![1u8], u64_bytes(address));
            lemma_byte(s, at, 1);
            lemma_u64(s, at + 1, address);
            lemma_byte(s, at + 9, width);
        },
        None => {
            lemma_byte(s, at, 0);
        },
    }
}

proof fn lemma_hart(s: Seq<u8>, at: int, hart: HartState, id: usize, ram_bytes: int)
    requires
        holds(s, at, hart_bytes(hart)),
        hart_admissible(hart, id as int, ram_bytes),
    ensures
        hart_spec(s, at, id, ram_bytes) == Ok::<_, CheckpointDecodeError>(
            (
                (HartState { translation_cache: TranslationCache::empty(), ..hart }),
                at + hart_bytes(hart).len(),
            ),
        ),
{
    let core = core_bytes(hart);
    let status = status_bytes(hart);
    let timing = timing_bytes(hart);
    lemma_split(s, at, core + status + timing, reservation_bytes(hart.reservation));
    lemma_split(s, at, core + status, timing);
    lemma_split(s, at, core, status);
    lemma_core(s, at, hart);
    lemma_status(s, at + core.len(), hart);
    lemma_timing(s, at + core.len() + status.len(), hart);
    lemma_reservation(
        s,
        at + core.len() + status.len() + timing.len(),
        hart.reservation,
        ram_bytes,
    );
}

proof fn lemma_harts(s: Seq<u8>, at: int, harts: Seq<HartState>, upto: nat, ram_bytes: int)
    requires
        holds(s, at, harts_bytes(harts, upto)),
        upto <= harts.len() <= MAX_HARTS,
        forall|i: int|
            0 <= i < harts.len() ==> hart_admissible(#[trigger] harts[i], i, ram_bytes),
    ensures
        harts_spec(s, at, upto, ram_bytes) == Ok::<_, CheckpointDecodeError>(
            (
                Seq::new(
                    upto,
                    |i: int|
                        HartState { translation_cache: TranslationCache::empty(), ..harts[i] },
                ),
                at + harts_bytes(harts, upto).len(),
            ),
        ),
    decreases upto,
{
    let all = Seq::new(
        upto,
        |i: int| HartState { translation_cache: TranslationCache::empty(), ..harts[i] },
    );
    if upto > 0 {
        let before = (upto - 1) as nat;
        let head = Seq::new(
            before,
            |i: int| HartState { translation_cache: TranslationCache::empty(), ..harts[i] },
        );
        lemma_split(s, at, harts_bytes(harts, before), hart_bytes(harts[upto - 1]));
        lemma_harts(s, at, harts, before, ram_bytes);
        lemma_hart(
            s,
            at + harts_bytes(harts, before).len(),
            harts[upto - 1],
            (upto - 1) as usize,
            ram_bytes,
        );
        assert(all =~= head.push(
            HartState { translation_cache: TranslationCache::empty(), ..harts[upto - 1] },
        ));
    } else {
        assert(all =~= Seq::empty());
    }
}

pub proof fn lemma_model()
    ensures
        model_bytes().len() == 16,
{
    broadcast use vstd::string::is_ascii_spec_bytes;

    reveal_strlit("aos-rv64-virt-v1");
    assert(vstd::string::is_ascii(MACHINE_MODEL));
}

proof fn lemma_identity(s: Seq<u8>, at: int, binding: CheckpointBinding)
    requires
        holds(s, at, identity_bytes(binding)),
    ensures
        identity_spec(s, at, binding) == Ok::<_, CheckpointDecodeError>(
            ((), at + identity_bytes(binding).len()),
        ),
{
    reveal(identity_spec);
    let version = u32_bytes(FORMAT_VERSION);
    let model = sized_bytes(model_bytes());
    let image = binding.linux_image.bytes@;
    let distribution = binding.distribution.bytes@;
    lemma_split(s, at, MAGIC@ + version + model + image, distribution);
    lemma_split(s, at, MAGIC@ + version + model, image);
    lemma_split(s, at, MAGIC@ + version, model);
    lemma_split(s, at, MAGIC@, version);
    lemma_u32(s, at + 8, FORMAT_VERSION);
    lemma_model();
    lemma_sized(s, at + 12, model_bytes());
}

proof fn lemma_shape(s: Seq<u8>, at: int, m: MachineView)
    requires
        holds(s, at, shape_bytes(m)),
        0 <= m.active < m.harts.len() <= MAX_HARTS,
    ensures
        shape_spec(s, at) == (match shape_refusal(m.config, m.harts.len() as u32) {
            Some(error) => Err(CheckpointDecodeError::Machine(error)),
            None => Ok(
                (
                    (Shape {
                        config: m.config,
                        harts: m.harts.len() as u32,
                        active: m.active as u32,
                        quantum: m.quantum,
                    }),
                    at + shape_bytes(m).len(),
                ),
            ),
        }),
{
    reveal(shape_spec);
    let memory = u64_bytes(m.config.ram_bytes as u64);
    let console = u64_bytes(m.config.max_console_bytes as u64);
    let harts = u32_bytes(m.harts.len() as u32);
    let active = u32_bytes(m.active as u32);
    lemma_split(s, at, memory + console + harts + active, u64_bytes(m.quantum));
    lemma_split(s, at, memory + console + harts, active);
    lemma_split(s, at, memory + console, harts);
    lemma_split(s, at, memory, console);
    lemma_u64(s, at, m.config.ram_bytes as u64);
    lemma_u64(s, at + 8, m.config.max_console_bytes as u64);
    lemma_u32(s, at + 16, m.harts.len() as u32);
    lemma_u32(s, at + 20, m.active as u32);
    lemma_u64(s, at + 24, m.quantum);
}

proof fn lemma_counters(s: Seq<u8>, at: int, m: MachineView)
    requires
        holds(s, at, counters_bytes(m)),
        m.firmware,
    ensures
        counters_spec(s, at) == Ok::<_, CheckpointDecodeError>(
            (
                (Counters {
                    mtime: m.devices.mtime,
                    steps: m.steps,
                    retired: m.retired,
                    next_id: m.next_id,
                }),
                at + counters_bytes(m).len(),
            ),
        ),
{
    reveal(counters_spec);
    let mtime = u64_bytes(m.devices.mtime);
    let steps = u64_bytes(m.steps);
    let retired = u64_bytes(m.retired);
    let firmware = bool_byte(m.firmware);
    lemma_split(s, at, mtime + steps + retired + firmware, u64_bytes(m.next_id));
    lemma_split(s, at, mtime + steps + retired, firmware);
    lemma_split(s, at, mtime + steps, retired);
    lemma_split(s, at, mtime, steps);
    lemma_u64(s, at, m.devices.mtime);
    lemma_u64(s, at + 8, m.steps);
    lemma_u64(s, at + 16, m.retired);
    lemma_byte(s, at + 24, firmware[0]);
    lemma_u64(s, at + 25, m.next_id);
}

proof fn lemma_request(s: Seq<u8>, at: int, m: MachineView)
    requires
        admissible(m),
        holds(s, at, request_bytes(m.pending->Some_0)),
    ensures
        request_spec(
            s,
            at,
            m.harts.len() as int,
            m.config.ram_bytes as int,
            m.next_id,
        ) == Ok::<_, CheckpointDecodeError>(
            (m.pending->Some_0, at + request_bytes(m.pending->Some_0).len()),
        ),
{
    reveal(request_spec);
    let pending = m.pending->Some_0;
    let id = u64_bytes(pending.request.id.0);
    let channel = u32_bytes(pending.request.channel);
    let hart = u32_bytes(pending.hart_id as u32);
    let message = sized_bytes(pending.request.message);
    let limit = u64_bytes(pending.request.max_response_bytes as u64);
    lemma_split(
        s,
        at,
        id + channel + hart + message + limit,
        u64_bytes(pending.response_address),
    );
    lemma_split(s, at, id + channel + hart + message, limit);
    lemma_split(s, at, id + channel + hart, message);
    lemma_split(s, at, id + channel, hart);
    lemma_split(s, at, id, channel);
    lemma_u64(s, at, pending.request.id.0);
    lemma_u32(s, at + 8, pending.request.channel);
    lemma_u32(s, at + 12, pending.hart_id as u32);
    lemma_sized(s, at + 16, pending.request.message);
    lemma_u64(s, at + 16 + message.len(), pending.request.max_response_bytes as u64);
    lemma_u64(s, at + 24 + message.len(), pending.response_address);
}

/// The populated pages from `page` on.
spec fn pages_from(memory: Seq<u8>, page: nat) -> Seq<u8>
    decreases page_count(memory) - page,
{
    if page >= page_count(memory) {
        Seq::empty()
    } else {
        page_entry(memory, page as int) + pages_from(memory, page + 1)
    }
}

spec fn count_from(memory: Seq<u8>, page: nat) -> nat
    decreases page_count(memory) - page,
{
    if page >= page_count(memory) {
        0
    } else if ram::all_zero(ram::page_of(memory, PAGE_BYTES as int, page as int)) {
        count_from(memory, page + 1)
    } else {
        count_from(memory, page + 1) + 1
    }
}

/// The first `page` pages of a memory, and zeros.
spec fn restored_below(memory: Seq<u8>, page: nat) -> Seq<u8> {
    Seq::new(memory.len(), |i: int| if i < page * PAGE_BYTES { memory[i] } else { 0u8 })
}

proof fn lemma_pages_cut(memory: Seq<u8>, page: nat)
    requires
        page <= page_count(memory),
    ensures
        pages_bytes(memory, page_count(memory)) == pages_bytes(memory, page) + pages_from(
            memory,
            page,
        ),
        ram::populated(memory, PAGE_BYTES as int, page_count(memory)).len() == ram::populated(
            memory,
            PAGE_BYTES as int,
            page,
        ).len() + count_from(memory, page),
    decreases page_count(memory) - page,
{
    if page < page_count(memory) {
        lemma_pages_cut(memory, page + 1);
        assert((pages_bytes(memory, page) + page_entry(memory, page as int)) + pages_from(
            memory,
            page + 1,
        ) =~= pages_bytes(memory, page) + (page_entry(memory, page as int) + pages_from(
            memory,
            page + 1,
        )));
    } else {
        assert(pages_bytes(memory, page) + pages_from(memory, page) =~= pages_bytes(memory, page));
    }
}

proof fn lemma_pages(s: Seq<u8>, at: int, memory: Seq<u8>, page: nat, floor: int)
    requires
        holds(s, at, pages_from(memory, page)),
        page <= page_count(memory) <= u32::MAX,
        memory.len() % (PAGE_BYTES as nat) == 0,
        floor <= page,
    ensures
        pages_spec(s, at, count_from(memory, page), restored_below(memory, page), floor) == Ok::<
            _,
            CheckpointDecodeError,
        >((memory, at + pages_from(memory, page).len())),
    decreases page_count(memory) - page,
{
    let total = page_count(memory);
    let here = restored_below(memory, page);
    if page >= total {
        assert(here =~= memory);
    } else {
        let content = ram::page_of(memory, PAGE_BYTES as int, page as int);
        let entry = page_entry(memory, page as int);
        let next = restored_below(memory, page + 1);
        lemma_split(s, at, entry, pages_from(memory, page + 1));
        assert((page + 1) * PAGE_BYTES <= memory.len());
        assert(content.len() == PAGE_BYTES);
        if ram::all_zero(content) {
            assert forall|i: int| 0 <= i < memory.len() implies here[i] == next[i] by {
                if page * PAGE_BYTES <= i < (page + 1) * PAGE_BYTES {
                    assert(content[i - page * PAGE_BYTES] == memory[i]);
                }
            }
            assert(here =~= next);
            lemma_pages(s, at, memory, page + 1, floor);
        } else {
            lemma_split(s, at, u32_bytes(page as u32), content);
            lemma_u32(s, at, page as u32);
            assert(ram::splice(here, page * PAGE_BYTES, content) =~= next);
            lemma_pages(s, at + entry.len(), memory, page + 1, page as int + 1);
        }
    }
}

proof fn lemma_populated_len(memory: Seq<u8>, upto: nat)
    ensures
        ram::populated(memory, PAGE_BYTES as int, upto).len() <= upto,
    decreases upto,
{
    if upto > 0 {
        lemma_populated_len(memory, (upto - 1) as nat);
    }
}

proof fn lemma_memory(s: Seq<u8>, at: int, memory: Seq<u8>)
    requires
        holds(s, at, memory_bytes(memory)),
        memory.len() % (PAGE_BYTES as nat) == 0,
        page_count(memory) <= u32::MAX,
    ensures
        memory_spec(s, at, memory.len()) == Ok::<_, CheckpointDecodeError>(
            (memory, at + memory_bytes(memory).len()),
        ),
{
    reveal(memory_spec);
    let total = page_count(memory);
    let count = ram::populated(memory, PAGE_BYTES as int, total).len();
    lemma_populated_len(memory, total);
    lemma_split(s, at, u32_bytes(count as u32), pages_bytes(memory, total));
    lemma_u32(s, at, count as u32);
    lemma_pages_cut(memory, 0);
    assert(pages_bytes(memory, total) =~= pages_from(memory, 0));
    assert(restored_below(memory, 0) =~= ram::zeros(memory.len()));
    lemma_pages(s, at + 4, memory, 0, 0);
}

proof fn lemma_body(s: Seq<u8>, at: int, m: MachineView)
    requires
        admissible(m),
        holds(
            s,
            at,
            harts_bytes(m.harts, m.harts.len()) + counters_bytes(m) + request_bytes(
                m.pending->Some_0,
            ) + memory_bytes(m.devices.ram),
        ),
        s.len() == at + harts_bytes(m.harts, m.harts.len()).len() + counters_bytes(m).len()
            + request_bytes(m.pending->Some_0).len() + memory_bytes(m.devices.ram).len(),
    ensures
        body_spec(
            s,
            at,
            (Shape {
                config: m.config,
                harts: m.harts.len() as u32,
                active: m.active as u32,
                quantum: m.quantum,
            }),
        ) == Ok::<_, CheckpointDecodeError>(kept(m)),
{
    let harts = harts_bytes(m.harts, m.harts.len());
    let counters = counters_bytes(m);
    let request = request_bytes(m.pending->Some_0);
    let memory = memory_bytes(m.devices.ram);
    lemma_split(s, at, harts + counters + request, memory);
    lemma_split(s, at, harts + counters, request);
    lemma_split(s, at, harts, counters);
    lemma_harts(s, at, m.harts, m.harts.len(), m.config.ram_bytes as int);
    lemma_counters(s, at + harts.len(), m);
    lemma_request(s, at + harts.len() + counters.len(), m);
    lemma_memory(s, at + harts.len() + counters.len() + request.len(), m.devices.ram);
}

/// Decoding the payload of an admissible machine under the same binding gives
/// that machine back.
pub proof fn decoding_inverts_encoding(m: MachineView, binding: CheckpointBinding)
    requires
        admissible(m),
    ensures
        payload_spec(payload_of(m, binding), binding) == Ok::<_, CheckpointDecodeError>(kept(m)),
{
    let s = payload_of(m, binding);
    let identity = identity_bytes(binding);
    let shape = shape_bytes(m);
    let harts = harts_bytes(m.harts, m.harts.len());
    let counters = counters_bytes(m);
    let request = request_bytes(m.pending->Some_0);
    let memory = memory_bytes(m.devices.ram);
    let body = harts + counters + request + memory;
    assert(s =~= identity + shape + body);
    assert(s.subrange(0, s.len() as int) =~= s);
    lemma_split(s, 0, identity + shape, body);
    lemma_split(s, 0, identity, shape);
    lemma_identity(s, 0, binding);
    lemma_shape(s, identity.len() as int, m);
    lemma_body(s, (identity + shape).len() as int, m);
}

proof fn lemma_same_harts(a: Seq<HartState>, b: Seq<HartState>, upto: nat)
    requires
        upto <= a.len(),
        a.len() == b.len(),
        forall|i: int| 0 <= i < upto ==> hart_bytes(#[trigger] a[i]) == hart_bytes(b[i]),
    ensures
        harts_bytes(a, upto) == harts_bytes(b, upto),
    decreases upto,
{
    if upto > 0 {
        lemma_same_harts(a, b, (upto - 1) as nat);
        assert(hart_bytes(a[upto - 1]) == hart_bytes(b[upto - 1]));
    }
}

/// A decoded machine encodes to the bytes it was decoded from: every machine
/// has one encoding.
pub proof fn encoding_is_canonical(m: MachineView, binding: CheckpointBinding)
    requires
        admissible(m),
    ensures
        payload_of(kept(m), binding) == payload_of(m, binding),
        admissible(kept(m)),
{
    assert forall|i: int| 0 <= i < m.harts.len() implies hart_bytes(
        #[trigger] kept(m).harts[i],
    ) == hart_bytes(m.harts[i]) by {}
    lemma_same_harts(kept(m).harts, m.harts, m.harts.len());
}

/// Two bindings name the same image and the same distribution.
pub open spec fn same_binding(a: CheckpointBinding, b: CheckpointBinding) -> bool {
    a.linux_image.bytes@ == b.linux_image.bytes@ && a.distribution.bytes@ == b.distribution.bytes@
}

/// A payload is read under its own binding only, whatever machine it holds.
pub proof fn foreign_binding_is_refused(
    m: MachineView,
    binding: CheckpointBinding,
    expected: CheckpointBinding,
)
    requires
        !same_binding(binding, expected),
    ensures
        payload_spec(payload_of(m, binding), expected) == Err::<MachineView, CheckpointDecodeError>(
            CheckpointDecodeError::BindingMismatch,
        ),
        payload_shape(payload_of(m, binding), expected) == Err::<Shape, CheckpointDecodeError>(
            CheckpointDecodeError::BindingMismatch,
        ),
        payload_envelope(payload_of(m, binding), expected) is None,
{
    reveal(identity_spec);
    lemma_front(m, binding);
    lemma_identity(payload_of(m, binding), 0, binding);
}

/// A payload starts with the identity, and the shape stands behind it.
proof fn lemma_front(m: MachineView, binding: CheckpointBinding)
    ensures
        holds(payload_of(m, binding), 0, identity_bytes(binding)),
        holds(payload_of(m, binding), identity_bytes(binding).len() as int, shape_bytes(m)),
{
    let s = payload_of(m, binding);
    let identity = identity_bytes(binding);
    let shape = shape_bytes(m);
    let harts = harts_bytes(m.harts, m.harts.len());
    let counters = counters_bytes(m);
    let request = request_bytes(m.pending->Some_0);
    let memory = memory_bytes(m.devices.ram);
    assert(s.subrange(0, s.len() as int) =~= s);
    lemma_split(s, 0, identity + shape + harts + counters + request, memory);
    lemma_split(s, 0, identity + shape + harts + counters, request);
    lemma_split(s, 0, identity + shape + harts, counters);
    lemma_split(s, 0, identity + shape, harts);
    lemma_split(s, 0, identity, shape);
}

proof fn lemma_harts_read(s: Seq<u8>, at: int, upto: nat, ram_bytes: int)
    ensures
        harts_spec(s, at, upto, ram_bytes) matches Ok((harts, _)) ==> harts.len() == upto,
    decreases upto,
{
    if upto > 0 {
        lemma_harts_read(s, at, (upto - 1) as nat, ram_bytes);
    }
}

/// Two machines agree on resources, hart count, active hart and quantum.
pub open spec fn same_topology(a: MachineView, b: MachineView) -> bool {
    &&& a.config == b.config
    &&& a.harts.len() == b.harts.len()
    &&& a.active == b.active
    &&& a.quantum == b.quantum
}

/// Whatever a payload is read back to has the resources, the harts, the active
/// hart and the quantum of the machine it was written from.
pub proof fn topology_is_read_back(
    m: MachineView,
    binding: CheckpointBinding,
    expected: CheckpointBinding,
)
    requires
        0 <= m.active < m.harts.len() <= MAX_HARTS,
    ensures
        payload_spec(payload_of(m, binding), expected) matches Ok(read) ==> same_topology(read, m),
{
    let s = payload_of(m, binding);
    if payload_spec(s, expected) is Ok {
        let at = identity_bytes(binding).len() as int;
        lemma_front(m, binding);
        if !same_binding(binding, expected) {
            foreign_binding_is_refused(m, binding, expected);
        }
        assert(identity_spec(s, 0, expected) == identity_spec(s, 0, binding)) by {
            reveal(identity_spec);
        }
        lemma_identity(s, 0, binding);
        lemma_shape(s, at, m);
        let after = at + shape_bytes(m).len();
        lemma_harts_read(s, after, m.harts.len(), m.config.ram_bytes as int);
    }
}

} // verus!
