//! Addresses, limits and admission errors of the virtual machine profile.

use vstd::prelude::*;

verus! {

/// Machine profile whose device tree and Linux image are versioned together.
pub const MACHINE_MODEL: &'static str = "aos-rv64-virt-v1";

/// Guest physical address at which admitted RAM begins.
pub const DRAM_BASE: u64 = 0x8000_0000;

/// Guest physical base of the 16550-compatible serial device.
pub const UART_BASE: u64 = 0x1000_0000;

/// Guest physical base of the SiFive/QEMU-compatible test finisher.
pub const TEST_FINISHER_BASE: u64 = 0x0010_0000;

/// Guest physical base of the deterministic CLINT profile.
pub const CLINT_BASE: u64 = 0x0200_0000;

/// Standard 2 MiB-aligned entry address for a raw RV64 Linux `Image`.
pub const LINUX_KERNEL_BASE: u64 = 0x8020_0000;

/// Physical address of the generated Linux flattened device tree.
pub const LINUX_FDT_BASE: u64 = 0x8000_1000;

/// Hard guest-topology limit of the deterministic scheduler.
pub const MAX_HARTS: usize = 64;

pub const UART_SIZE: u64 = 0x100;
pub const TEST_FINISHER_SIZE: u64 = 0x1000;
pub const CLINT_SIZE: u64 = 0x1_0000;
pub const CLINT_MSIP: u64 = 0;
pub const CLINT_MTIMECMP: u64 = 0x4000;
pub const CLINT_MTIME: u64 = 0xbff8;
pub const UART_RECEIVE: u64 = 0;
pub const UART_TRANSMIT: u64 = 0;
pub const UART_INTERRUPT_IDENTIFICATION: u64 = 2;
pub const UART_LINE_STATUS: u64 = 5;
pub const UART_LINE_STATUS_DATA_READY: u64 = 0x01;
pub const UART_LINE_STATUS_TRANSMIT_EMPTY: u64 = 0x60;
pub const MIN_RAM_BYTES: usize = 4096;
pub const MAX_RAM_BYTES: usize = 0xc000_0000;
pub const MAX_CONSOLE_BYTES: usize = 0x0100_0000;
pub const MIN_LINUX_RAM_BYTES: usize = 0x0100_0000;
pub const MAX_BOOTARGS_BYTES: usize = 4096;
pub const LINUX_FDT_MAX_BYTES: usize = 0x1_0000;
pub const HART_SCHEDULER_QUANTUM: u64 = 1024;

pub const SBI_EXT_BASE: u64 = 0x10;
pub const SBI_EXT_TIME: u64 = 0x5449_4d45;
pub const SBI_EXT_IPI: u64 = 0x0073_5049;
pub const SBI_EXT_RFENCE: u64 = 0x5246_4e43;
pub const SBI_EXT_HSM: u64 = 0x0048_534d;
pub const SBI_EXT_DBCN: u64 = 0x4442_434e;
pub const SBI_EXT_SRST: u64 = 0x5352_5354;

/// Private AOS 9P transport in the SBI experimental extension range.
///
/// The low 24 bits spell `AOS`; this is not a vendor extension or an assigned
/// standard extension ID. The interface is versioned with [`MACHINE_MODEL`].
pub const SBI_EXT_AOS_9P: u64 = 0x0841_4f53;

/// Maximum complete 9P message accepted in either transport direction.
pub const MAX_9P_MESSAGE_BYTES: usize = 0x1_0000;

pub const MIN_9P_MESSAGE_BYTES: usize = 7;
pub const SBI_SPEC_VERSION_3_0: u64 = 0x0300_0000;
pub const SBI_AOS_PRIVATE_IMPL_ID: u64 = 0x414f_5300;
pub const SBI_SUCCESS: u64 = 0;
pub const SBI_ERR_FAILED: u64 = 0xffff_ffff_ffff_ffff;
pub const SBI_ERR_NOT_SUPPORTED: u64 = 0xffff_ffff_ffff_fffe;
pub const SBI_ERR_INVALID_PARAM: u64 = 0xffff_ffff_ffff_fffd;
pub const SBI_ERR_DENIED: u64 = 0xffff_ffff_ffff_fffc;
pub const SBI_ERR_INVALID_ADDRESS: u64 = 0xffff_ffff_ffff_fffb;
pub const SBI_ERR_ALREADY_AVAILABLE: u64 = 0xffff_ffff_ffff_fffa;
pub const SBI_HART_STATE_STARTED: u64 = 0;
pub const SBI_HART_STATE_STOPPED: u64 = 1;

/// Explicit resource admission for one virtual machine.
#[derive(Clone, Copy, Debug, PartialEq, Eq, Structural)]
pub struct MachineConfig {
    /// Contiguous guest RAM in bytes; it must be page-aligned.
    pub ram_bytes: usize,
    /// Maximum serial output retained for the current machine execution.
    pub max_console_bytes: usize,
}

impl Default for MachineConfig {
    fn default() -> (r: Self)
        ensures
            r.ram_bytes == 65536,
            r.max_console_bytes == 65536,
    {
        MachineConfig { ram_bytes: 64 * 1024, max_console_bytes: 64 * 1024 }
    }
}

/// Machine construction or image-admission failure.
#[derive(Clone, Copy, Debug, PartialEq, Eq, Structural)]
pub enum MachineError {
    /// RAM is too small, too large, or not aligned to a 4 KiB guest page.
    InvalidRamBytes(usize),
    /// The admitted guest RAM could not be allocated without aborting the worker.
    RamAllocationDenied(usize),
    /// The retained serial-output limit exceeds the hard machine cap.
    InvalidConsoleBytes(usize),
    /// The guest hart count is zero or exceeds the machine-profile maximum.
    InvalidHartCount(usize),
    /// A program image is empty or does not fit in admitted guest RAM.
    InvalidProgramBytes { image: usize, ram: usize },
    /// The admitted RAM cannot contain the kernel, initramfs, and generated FDT
    /// at their versioned machine-profile addresses.
    InvalidLinuxImages { kernel: usize, initramfs: usize, ram: usize },
    /// Linux boot arguments exceed the deterministic FDT admission limit.
    InvalidBootArgsBytes(usize),
}

/// Rejected exact-hart scheduling request.
#[derive(Clone, Copy, Debug, PartialEq, Eq, Structural)]
pub struct InvalidHartId {
    pub hart_id: usize,
    pub hart_count: usize,
}

impl InvalidHartId {
    /// Rejected zero-based hart identity.
    pub fn hart_id(self) -> (r: usize)
        ensures
            r == self.hart_id,
    {
        self.hart_id
    }

    /// Admitted number of harts in the machine.
    pub fn hart_count(self) -> (r: usize)
        ensures
            r == self.hart_count,
    {
        self.hart_count
    }
}

/// Reason a machine cannot become a principal-independent prewarm checkpoint.
#[derive(Clone, Copy, Debug, PartialEq, Eq, Structural)]
pub enum CheckpointError {
    /// A halted or trapped machine cannot become a boot template.
    NotRunnable,
    /// The machine must be stopped on an uncompleted, typed host request.
    NoPendingHostRequest,
    /// Principal or invocation input must never enter a reusable checkpoint.
    PendingConsoleInput { bytes: usize },
    /// Console bytes must be drained into the checkpoint build receipt first.
    UndrainedConsoleOutput { bytes: usize },
    /// Cross-hart control mailboxes must be acknowledged at an epoch barrier.
    PendingHartControl { hart_id: usize },
}

/// Exact admitted physical layout for one Linux boot.
#[derive(Clone, Copy, Debug, PartialEq, Eq, Structural)]
pub struct LinuxBootLayout {
    /// Raw kernel `Image` entry and load address.
    pub kernel_start: u64,
    /// First byte after the kernel image.
    pub kernel_end: u64,
    /// Initramfs start, absent when no initramfs was supplied.
    pub initrd_start: Option<u64>,
    /// First byte after the initramfs.
    pub initrd_end: Option<u64>,
    /// Generated flattened device-tree address.
    pub fdt_start: u64,
    /// Generated flattened device-tree byte length.
    pub fdt_bytes: usize,
}

/// Terminal value written by firmware or a test guest to the standard finisher.
#[derive(Clone, Copy, Debug, PartialEq, Eq, Structural)]
pub struct HaltStatus {
    /// Whether the standard pass value was written.
    pub passed: bool,
    /// Guest-provided failure code, or zero for success.
    pub code: u32,
}

/// Machine-local identity for one host-mediated request.
///
/// IDs remain monotonic across guest image reloads so a late completion cannot
/// accidentally complete the first request made by a replacement guest.
#[derive(Clone, Copy, Debug, PartialEq, Eq, PartialOrd, Ord, Hash, Structural)]
pub struct HostRequestId(pub u64);

impl HostRequestId {
    /// Raw identity for logs and outer scheduler correlation.
    pub fn get(self) -> (r: u64)
        ensures
            r == self.0,
    {
        self.0
    }
}

/// Transport-level host failure returned to the guest SBI caller.
#[derive(Clone, Copy, Debug, PartialEq, Eq, Structural)]
pub enum HostRequestFailure {
    /// The admitted host operation failed without a more specific boundary result.
    Failed,
    /// The outer Realm denied the requested host operation.
    Denied,
}

/// Rejected attempt to complete a pending host request.
#[derive(Clone, Copy, Debug, PartialEq, Eq, Structural)]
pub enum HostCompletionError {
    /// The machine has no request awaiting a host response.
    NoPendingRequest,
    /// The response belongs to a different request.
    RequestIdMismatch { expected: HostRequestId, actual: HostRequestId },
    /// A successful 9P response is smaller than its mandatory message header.
    InvalidResponseBytes(usize),
    /// The response exceeds the capacity admitted by the guest request.
    ResponseTooLarge { response: usize, capacity: usize },
    /// The previously admitted response range is no longer writable guest RAM.
    ResponseAddressUnavailable,
    /// The hart that issued the request is absent from the admitted topology.
    RequestHartUnavailable { hart_id: usize },
}

} // verus!
