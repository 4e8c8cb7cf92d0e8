//! Linux image admission.

use crate::fdt;
use crate::fdt::{build_linux_fdt_for_harts, LinuxFdtConfig};
use crate::hart::HartState;
use crate::isa::{Privilege, MEDELEG_SUPPORTED, MIDELEG_SUPPORTED};
use crate::machine::{Machine, MachineMetrics, MachineView, RunState, SbiFirmware};
use crate::platform::{
    LinuxBootLayout, MachineError, DRAM_BASE, LINUX_FDT_BASE, LINUX_FDT_MAX_BYTES,
    LINUX_KERNEL_BASE, MAX_BOOTARGS_BYTES, MIN_LINUX_RAM_BYTES, UART_BASE, UART_SIZE,
};
use crate::ram;
use vstd::prelude::*;
use vstd::string::*;

verus! {

/// First page boundary at or above an address.
pub open spec fn page_above(address: int) -> int {
    (address + 4095) / 4096 * 4096
}

/// Smallest multiple of `alignment` that is at least `value`, if it fits.
pub fn align_up(value: u64, alignment: u64) -> (r: Option<u64>)
    requires
        alignment > 0,
    ensures
        r is Some <==> value + alignment - 1 <= u64::MAX,
        r matches Some(rounded) ==> rounded == (value + alignment - 1) / (alignment as int)
            * alignment,
{
    if value > u64::MAX - (alignment - 1) {
        return None;
    }
    let raised: u64 = value + (alignment - 1);
    let rounded: u64 = raised - raised % alignment;
    assert(rounded == raised as int / (alignment as int) * alignment) by (nonlinear_arith)
        requires
            rounded == raised - raised % alignment,
            alignment > 0,
    ;
    Some(rounded)
}

/// First byte after the kernel.
pub open spec fn kernel_end_spec(kernel: nat) -> int {
    LINUX_KERNEL_BASE + kernel
}

pub open spec fn initrd_start_spec(kernel: nat, initramfs: nat) -> Option<int> {
    if initramfs == 0 {
        None
    } else {
        Some(page_above(kernel_end_spec(kernel)))
    }
}

/// Whether both images lie inside RAM.
pub open spec fn images_fit(kernel: nat, initramfs: nat, ram_bytes: usize) -> bool {
    let ram_end = DRAM_BASE + ram_bytes;
    &&& kernel_end_spec(kernel) <= ram_end
    &&& initrd_start_spec(kernel, initramfs) matches Some(start) ==> start + initramfs <= ram_end
}

/// Device tree description of a boot.
pub open spec fn boot_config<'a>(
    m: MachineView,
    kernel: nat,
    initramfs: nat,
    bootargs: &'a str,
) -> LinuxFdtConfig<'a> {
    LinuxFdtConfig {
        dram_base: DRAM_BASE,
        ram_bytes: m.config.ram_bytes as u64,
        uart_base: UART_BASE,
        uart_bytes: UART_SIZE,
        bootargs,
        initrd_start: match initrd_start_spec(kernel, initramfs) {
            Some(start) => Some(start as u64),
            None => None,
        },
        initrd_end: match initrd_start_spec(kernel, initramfs) {
            Some(start) => Some((start + initramfs) as u64),
            None => None,
        },
    }
}

/// Why a boot is refused, if it is.
pub open spec fn boot_refusal(
    m: MachineView,
    kernel: Seq<u8>,
    initramfs: Seq<u8>,
    bootargs: &str,
) -> Option<MachineError> {
    let images = MachineError::InvalidLinuxImages {
        kernel: kernel.len() as usize,
        initramfs: initramfs.len() as usize,
        ram: m.config.ram_bytes,
    };
    let arguments = bootargs.spec_bytes();
    if kernel.len() == 0 || m.config.ram_bytes < MIN_LINUX_RAM_BYTES {
        Some(images)
    } else if arguments.len() > MAX_BOOTARGS_BYTES || arguments.contains(0) {
        Some(MachineError::InvalidBootArgsBytes(arguments.len() as usize))
    } else if !images_fit(kernel.len(), initramfs.len(), m.config.ram_bytes) || fdt::linux_blob(
        boot_config(m, kernel.len(), initramfs.len(), bootargs),
        m.harts.len(),
    ).len() > LINUX_FDT_MAX_BYTES {
        Some(images)
    } else {
        None
    }
}

/// Boot hart as it enters the kernel.
pub open spec fn boot_hart(hart: HartState) -> HartState {
    HartState {
        cpu: crate::cpu::Cpu {
            pc: LINUX_KERNEL_BASE,
            privilege: Privilege::Supervisor,
            ..hart.cpu.set(10, 0).set(11, LINUX_FDT_BASE)
        },
        csrs: crate::cpu::CsrFile {
            medeleg: MEDELEG_SUPPORTED,
            mideleg: MIDELEG_SUPPORTED,
            mcounteren: 7,
            ..hart.csrs
        },
        ..hart
    }
}

/// RAM holding the kernel, the tree and the initramfs at their addresses.
pub open spec fn boot_ram(
    m: MachineView,
    kernel: Seq<u8>,
    initramfs: Seq<u8>,
    tree: Seq<u8>,
) -> Seq<u8> {
    let with_kernel = ram::splice(
        ram::zeros(m.devices.ram.len()),
        LINUX_KERNEL_BASE - DRAM_BASE,
        kernel,
    );
    let with_tree = ram::splice(with_kernel, LINUX_FDT_BASE - DRAM_BASE, tree);
    match initrd_start_spec(kernel.len(), initramfs.len()) {
        Some(start) => ram::splice(with_tree, start - DRAM_BASE, initramfs),
        None => with_tree,
    }
}

/// Machine about to execute the first kernel instruction.
pub open spec fn booted(
    m: MachineView,
    kernel: Seq<u8>,
    initramfs: Seq<u8>,
    bootargs: &str,
) -> MachineView {
    let tree = fdt::linux_blob(
        boot_config(m, kernel.len(), initramfs.len(), bootargs),
        m.harts.len(),
    );
    let reset = m.reset_for_image();
    let loaded = reset.with_devices(
        crate::devices::DevicesView {
            ram: boot_ram(m, kernel, initramfs, tree),
            ..reset.devices
        },
    );
    MachineView { firmware: true, ..loaded.with_hart(boot_hart(loaded.hart())) }
}

pub open spec fn boot_layout(
    m: MachineView,
    kernel: Seq<u8>,
    initramfs: Seq<u8>,
    bootargs: &str,
) -> LinuxBootLayout {
    let config = boot_config(m, kernel.len(), initramfs.len(), bootargs);
    LinuxBootLayout {
        kernel_start: LINUX_KERNEL_BASE,
        kernel_end: kernel_end_spec(kernel.len()) as u64,
        initrd_start: config.initrd_start,
        initrd_end: config.initrd_end,
        fdt_start: LINUX_FDT_BASE,
        fdt_bytes: fdt::linux_blob(config, m.harts.len()).len() as usize,
    }
}

fn holds_zero(source: &[u8]) -> (r: bool)
    ensures
        r == source@.contains(0),
{
    let mut i: usize = 0;
    while i < source.len()
        invariant
            i <= source@.len(),
            forall|j: int| 0 <= j < i ==> source@[j] != 0,
        decreases source@.len() - i,
    {
        if source[i] == 0 {
            assert(source@[i as int] == 0);
            return true;
        }
        i = i + 1;
    }
    false
}

/// Start and end of the initramfs behind a kernel, when both images fit.
fn place_images(kernel: usize, initramfs: usize, ram_bytes: usize) -> (r: Option<
    (u64, Option<u64>, Option<u64>),
>)
    requires
        MIN_LINUX_RAM_BYTES <= ram_bytes <= crate::platform::MAX_RAM_BYTES,
    ensures
        r is Some <==> images_fit(kernel as nat, initramfs as nat, ram_bytes),
        r matches Some((end, initrd_start, initrd_end)) ==> {
            &&& end == kernel_end_spec(kernel as nat)
            &&& match initrd_start_spec(kernel as nat, initramfs as nat) {
                Some(start) => initrd_start == Some(start as u64) && initrd_end == Some(
                    (start + initramfs) as u64,
                ) && start + initramfs <= u64::MAX,
                None => initrd_start is None && initrd_end is None,
            }
        },
{
    let ram_end: u64 = DRAM_BASE + ram_bytes as u64;
    let room: u64 = ram_end - LINUX_KERNEL_BASE;
    if kernel as u64 > room {
        return None;
    }
    let kernel_end: u64 = LINUX_KERNEL_BASE + kernel as u64;
    if initramfs == 0 {
        return Some((kernel_end, None, None));
    }
    let start: u64 = match align_up(kernel_end, 4096) {
        Some(start) => start,
        None => {
            return None;
        },
    };
    if start > ram_end || initramfs as u64 > ram_end - start {
        return None;
    }
    Some((kernel_end, Some(start), Some(start + initramfs as u64)))
}

impl Machine {
    /// Admit a raw RV64 Linux `Image`, optional initramfs, and deterministic
    /// device tree, then enter the kernel in Supervisor mode.
    pub fn boot_linux(&mut self, kernel: &[u8], initramfs: &[u8], bootargs: &str) -> (r: Result<
        LinuxBootLayout,
        MachineError,
    >)
        requires
            old(self).wf(),
        ensures
            final(self).wf(),
            match boot_refusal(old(self)@, kernel@, initramfs@, bootargs) {
                Some(error) => r == Err::<LinuxBootLayout, MachineError>(error) && final(self)@
                    == old(self)@,
                None => {
                    &&& r == Ok::<LinuxBootLayout, MachineError>(
                        boot_layout(old(self)@, kernel@, initramfs@, bootargs),
                    )
                    &&& final(self)@ == booted(old(self)@, kernel@, initramfs@, bootargs)
                },
            },
    {
        let images = MachineError::InvalidLinuxImages {
            kernel: kernel.len(),
            initramfs: initramfs.len(),
            ram: self.config.ram_bytes,
        };
        if kernel.len() == 0 || self.config.ram_bytes < MIN_LINUX_RAM_BYTES {
            return Err(images);
        }
        let arguments = bootargs.as_bytes();
        if arguments.len() > MAX_BOOTARGS_BYTES || holds_zero(arguments) {
            return Err(MachineError::InvalidBootArgsBytes(arguments.len()));
        }
        let (kernel_end, initrd_start, initrd_end) = match place_images(
            kernel.len(),
            initramfs.len(),
            self.config.ram_bytes,
        ) {
            Some(layout) => layout,
            None => {
                return Err(images);
            },
        };
        let config = LinuxFdtConfig {
            dram_base: DRAM_BASE,
            ram_bytes: self.config.ram_bytes as u64,
            uart_base: UART_BASE,
            uart_bytes: UART_SIZE,
            bootargs,
            initrd_start,
            initrd_end,
        };
        assert(config == boot_config(self@, kernel@.len(), initramfs@.len(), bootargs));
        let tree = match build_linux_fdt_for_harts(&config, self.hart_count) {
            Some(tree) => tree,
            None => {
                return Err(images);
            },
        };
        if tree.len() > LINUX_FDT_MAX_BYTES {
            return Err(images);
        }
        self.devices.reset();
        self.reset_harts();
        let _ = self.devices.write_ram_slice(LINUX_KERNEL_BASE, kernel);
        let _ = self.devices.write_ram_slice(LINUX_FDT_BASE, tree.as_slice());
        if let Some(start) = initrd_start {
            let _ = self.devices.write_ram_slice(start, initramfs);
        }
        self.harts[0].cpu.pc = LINUX_KERNEL_BASE;
        self.harts[0].cpu.privilege = Privilege::Supervisor;
        self.harts[0].cpu.write(10, 0);
        self.harts[0].cpu.write(11, LINUX_FDT_BASE);
        self.harts[0].csrs.medeleg = MEDELEG_SUPPORTED;
        self.harts[0].csrs.mideleg = MIDELEG_SUPPORTED;
        self.harts[0].csrs.mcounteren = 7;
        self.state = RunState::Runnable;
        self.steps_executed = 0;
        self.instructions_retired = 0;
        self.firmware = SbiFirmware { enabled: true };
        self.pending_9p_request = None;
        self.metrics = MachineMetrics::default();
        assert(self@.harts =~= booted(old(self)@, kernel@, initramfs@, bootargs).harts);
        Ok(
            LinuxBootLayout {
                kernel_start: LINUX_KERNEL_BASE,
                kernel_end,
                initrd_start,
                initrd_end,
                fdt_start: LINUX_FDT_BASE,
                fdt_bytes: tree.len(),
            },
        )
    }
}

/// A booted guest finds its kernel at the entry point and its device tree at
/// the address handed over in `a1`.
pub proof fn boot_places_kernel_and_tree(
    m: MachineView,
    kernel: Seq<u8>,
    initramfs: Seq<u8>,
    bootargs: &str,
)
    requires
        boot_refusal(m, kernel, initramfs, bootargs) is None,
        m.devices.ram.len() == m.config.ram_bytes,
        m.harts.len() > 0,
    ensures
        ({
            let after = booted(m, kernel, initramfs, bootargs);
            let tree = fdt::linux_blob(
                boot_config(m, kernel.len(), initramfs.len(), bootargs),
                m.harts.len(),
            );
            let entry = after.hart().cpu.pc - DRAM_BASE;
            let place = after.reg(11) - DRAM_BASE;
            &&& after.devices.ram.subrange(entry, entry + kernel.len()) == kernel
            &&& after.devices.ram.subrange(place, place + tree.len()) == tree
            &&& after.hart().cpu.privilege == Privilege::Supervisor
            &&& after.reg(10) == 0
        }),
{
    let after = booted(m, kernel, initramfs, bootargs);
    let tree = fdt::linux_blob(
        boot_config(m, kernel.len(), initramfs.len(), bootargs),
        m.harts.len(),
    );
    let entry = LINUX_KERNEL_BASE - DRAM_BASE;
    let place = LINUX_FDT_BASE - DRAM_BASE;
    assert(after.devices.ram.subrange(entry, entry + kernel.len()) =~= kernel);
    assert(after.devices.ram.subrange(place, place + tree.len()) =~= tree);
}

} // verus!
