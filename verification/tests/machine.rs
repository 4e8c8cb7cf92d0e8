use aos_realm::alu::atomic_result;
use aos_realm::codec::{CheckpointBinding, CheckpointDecodeError, CheckpointDigest};
use aos_realm::hart::{HartLifecycle, TranslationContext};
use aos_realm::isa::{
    AccessType, CANONICAL_NAN_F32, CAUSE_ECALL_FROM_MACHINE, CAUSE_ECALL_FROM_SUPERVISOR,
    CAUSE_LOAD_PAGE_FAULT, Csr, FFLAGS_DZ, FFLAGS_MASK, FFLAGS_NV, FFLAGS_NX, FRM_SHIFT,
    GUEST_PAGE_SHIFT, INTERRUPT_CAUSE_BIT, INTERRUPT_MACHINE_TIMER, INTERRUPT_SUPERVISOR_TIMER,
    MIDELEG_SUPPORTED, MIP_MSIP, MIP_MTIP, MIP_SSIP, MIP_STIP, MSTATUS_FS, MSTATUS_FS_DIRTY,
    MSTATUS_FS_INITIAL, MSTATUS_MIE, MSTATUS_MPP, MSTATUS_MPP_SHIFT, MSTATUS_MPRV, MSTATUS_MXR,
    MSTATUS_SD, MSTATUS_SIE, MSTATUS_SPIE, MSTATUS_SPP, MSTATUS_SUM, MachineTrap, PTE_ACCESSED,
    PTE_DIRTY, PTE_EXECUTE, PTE_READ, PTE_USER, PTE_VALID, PTE_WRITE, Privilege, SATP_MODE_SHIFT,
    SATP_MODE_SV39, sign_extend,
};
use aos_realm::machine::{Machine, MachineCheckpoint, MachineMetrics, SliceOutcome};
use aos_realm::platform::{
    CLINT_BASE, CLINT_MSIP, CLINT_MTIME, CLINT_MTIMECMP, CheckpointError, DRAM_BASE, HaltStatus,
    HostCompletionError, HostRequestFailure, HostRequestId, InvalidHartId, LINUX_FDT_BASE,
    LINUX_KERNEL_BASE, MAX_BOOTARGS_BYTES, MAX_HARTS, MAX_RAM_BYTES, MIN_LINUX_RAM_BYTES,
    MachineConfig, MachineError, SBI_ERR_ALREADY_AVAILABLE, SBI_ERR_DENIED,
    SBI_ERR_INVALID_ADDRESS, SBI_ERR_INVALID_PARAM, SBI_ERR_NOT_SUPPORTED, SBI_EXT_AOS_9P,
    SBI_EXT_BASE, SBI_EXT_DBCN, SBI_EXT_HSM, SBI_EXT_IPI, SBI_EXT_RFENCE, SBI_EXT_SRST,
    SBI_EXT_TIME, SBI_HART_STATE_STARTED, SBI_HART_STATE_STOPPED, SBI_SPEC_VERSION_3_0,
    SBI_SUCCESS,
};
use aos_realm::programs::{
    RV64_SMOKE_PROGRAM, RV64_SUPERVISOR_PROGRAM, encode_addi, encode_auipc, encode_csr,
    encode_csrr, encode_csrw, encode_lui, encode_store,
};
use aos_realm::ram::{GuestRam, RAM_CHUNK_BYTES};

const SUPERVISOR_ENTRY_OFFSET: u32 = 48;
const SUPERVISOR_HANDLER_OFFSET: u32 = 96;

fn machine(console_bytes: usize) -> Machine {
    Machine::new(MachineConfig {
        ram_bytes: 4096,
        max_console_bytes: console_bytes,
    })
    .expect("valid test machine")
}

fn words(words: &[u32]) -> Vec<u8> {
    words.iter().flat_map(|word| word.to_le_bytes()).collect()
}

fn halfwords(halfwords: &[u16]) -> Vec<u8> {
    halfwords
        .iter()
        .flat_map(|halfword| halfword.to_le_bytes())
        .collect()
}

#[test]
fn admitted_max_ram_is_demand_zero_and_exact_across_chunks() {
    let mut ram = GuestRam::zeroed(MAX_RAM_BYTES).expect("admit maximum guest RAM");
    assert_eq!(ram.len(), MAX_RAM_BYTES);
    assert_eq!(ram.chunks.len(), MAX_RAM_BYTES / RAM_CHUNK_BYTES);
    assert!(ram.chunks.iter().all(Option::is_none));
    assert_eq!(ram.byte(0), Some(0));
    assert_eq!(ram.byte(MAX_RAM_BYTES - 1), Some(0));
    assert!(ram.nonzero_pages(4096).is_empty());

    let start = RAM_CHUNK_BYTES - 2;
    assert!(ram.copy_from_slice(start, &[1, 2, 3, 4]));
    assert_eq!(ram.chunks.iter().filter(|chunk| chunk.is_some()).count(), 2);
    assert_eq!(ram.copy_to_vec(start..start + 4), Some(vec![1, 2, 3, 4]));
    let populated = ram.nonzero_pages(4096);
    assert_eq!(
        populated
            .iter()
            .map(|(index, _)| *index)
            .collect::<Vec<_>>(),
        vec![511, 512]
    );

    ram.fill_zero();
    assert!(ram.chunks.iter().all(Option::is_none));
    assert_eq!(ram.copy_to_vec(start..start + 4), Some(vec![0; 4]));
    assert!(!ram.copy_from_slice(MAX_RAM_BYTES - 1, &[1, 2]));
    assert_eq!(ram.byte(MAX_RAM_BYTES), None);
}

fn paged_machine() -> Machine {
    let mut machine = Machine::new(MachineConfig {
        ram_bytes: 64 * 1024,
        max_console_bytes: 64,
    })
    .expect("valid paged machine");
    machine
        .load_program(&[0, 0, 0, 0])
        .expect("load reset marker");
    machine
}

fn install_4k_mapping(
    machine: &mut Machine,
    virtual_address: u64,
    physical: u64,
    flags: u64,
) -> u64 {
    let root = DRAM_BASE + 0x1000;
    let level_one = DRAM_BASE + 0x2000;
    let level_zero = DRAM_BASE + 0x3000;
    let vpn = [
        virtual_address >> 12 & 0x1ff,
        virtual_address >> 21 & 0x1ff,
        virtual_address >> 30 & 0x1ff,
    ];
    assert!(machine.devices.write_ram(
        root + vpn[2] * 8,
        ((level_one >> 12) << 10) | PTE_VALID,
        8,
    ));
    assert!(machine.devices.write_ram(
        level_one + vpn[1] * 8,
        ((level_zero >> 12) << 10) | PTE_VALID,
        8,
    ));
    let leaf_address = level_zero + vpn[0] * 8;
    assert!(
        machine
            .devices
            .write_ram(leaf_address, ((physical >> 12) << 10) | flags, 8,)
    );
    machine.harts[machine.active_hart_id].csrs.write(
        Csr::Satp,
        (SATP_MODE_SV39 << SATP_MODE_SHIFT) | (root >> 12),
    );
    leaf_address
}

fn encode_load(rd: u32, rs1: u32, immediate: u32, funct3: u32) -> u32 {
    ((immediate & 0xfff) << 20) | (rs1 << 15) | (funct3 << 12) | (rd << 7) | 0x03
}

fn encode_op(rd: u32, rs1: u32, rs2: u32, funct3: u32, funct7: u32) -> u32 {
    (funct7 << 25) | (rs2 << 20) | (rs1 << 15) | (funct3 << 12) | (rd << 7) | 0x33
}

fn encode_op_32(rd: u32, rs1: u32, rs2: u32, funct3: u32, funct7: u32) -> u32 {
    (funct7 << 25) | (rs2 << 20) | (rs1 << 15) | (funct3 << 12) | (rd << 7) | 0x3b
}

fn encode_atomic(rd: u32, rs1: u32, rs2: u32, funct3: u32, operation: u32) -> u32 {
    (operation << 27) | (rs2 << 20) | (rs1 << 15) | (funct3 << 12) | (rd << 7) | 0x2f
}

fn encode_float_load(rd: u32, rs1: u32, immediate: u32, funct3: u32) -> u32 {
    ((immediate & 0xfff) << 20) | (rs1 << 15) | (funct3 << 12) | (rd << 7) | 0x07
}

fn encode_float_store(rs1: u32, rs2: u32, immediate: u32, funct3: u32) -> u32 {
    (((immediate >> 5) & 0x7f) << 25)
        | (rs2 << 20)
        | (rs1 << 15)
        | (funct3 << 12)
        | ((immediate & 0x1f) << 7)
        | 0x27
}

fn encode_float_op(rd: u32, rs1: u32, rs2: u32, funct3: u32, funct7: u32) -> u32 {
    (funct7 << 25) | (rs2 << 20) | (rs1 << 15) | (funct3 << 12) | (rd << 7) | 0x53
}

fn encode_float_fused(
    opcode: u32,
    rd: u32,
    rs1: u32,
    rs2: u32,
    rs3: u32,
    format: u32,
    rounding: u32,
) -> u32 {
    (rs3 << 27)
        | (format << 25)
        | (rs2 << 20)
        | (rs1 << 15)
        | (rounding << 12)
        | (rd << 7)
        | opcode
}

#[test]
fn smoke_program_runs_in_slices_and_halts_exactly() {
    let mut machine = machine(64);
    machine
        .load_program(&RV64_SMOKE_PROGRAM)
        .expect("load smoke program");

    let first = machine.run_slice(3);
    assert_eq!(first.outcome, SliceOutcome::Yielded);
    assert_eq!(first.steps_executed, 3);
    assert_eq!(first.instructions_retired, 3);
    assert_eq!(first.console, b"A");

    let final_report = machine.run_slice(64);
    assert_eq!(
        final_report.outcome,
        SliceOutcome::Halted(HaltStatus {
            passed: true,
            code: 0,
        })
    );
    assert_eq!(final_report.console, b"OS RV64\n");
    assert_eq!(final_report.total_steps_executed, 23);
    assert_eq!(final_report.total_instructions_retired, 23);

    let repeated = machine.run_slice(64);
    assert_eq!(repeated.outcome, final_report.outcome);
    assert_eq!(repeated.instructions_retired, 0);
    assert!(repeated.console.is_empty());

    assert_eq!(
        machine.metrics(),
        MachineMetrics {
            instruction_fetches: 23,
            instruction_translations: 23,
            store_translations: 10,
            ..MachineMetrics::default()
        }
    );
    assert_eq!(machine.metrics().translations(), 33);
    machine
        .load_program(&RV64_SMOKE_PROGRAM)
        .expect("reload smoke program");
    assert_eq!(machine.metrics(), MachineMetrics::default());
}

#[test]
fn supervisor_probe_delegates_ecall_and_returns_without_retiring_it() {
    let mut machine = machine(64);
    machine
        .load_program(&RV64_SUPERVISOR_PROGRAM)
        .expect("load supervisor program");

    let trapped = machine.run_slice(16);
    assert_eq!(trapped.outcome, SliceOutcome::Yielded);
    assert_eq!(trapped.steps_executed, 16);
    assert_eq!(trapped.instructions_retired, 15);
    assert_eq!(trapped.console, b"S");
    assert_eq!(machine.privilege(), Privilege::Supervisor);
    assert_eq!(
        machine.pc(),
        DRAM_BASE + u64::from(SUPERVISOR_HANDLER_OFFSET)
    );
    assert_eq!(machine.csr(Csr::Scause), CAUSE_ECALL_FROM_SUPERVISOR);
    assert_eq!(machine.csr(Csr::Sepc), DRAM_BASE + 15 * 4);
    assert_eq!(machine.csr(Csr::Stval), 0);
    assert_eq!(machine.csr(Csr::Medeleg), 1 << CAUSE_ECALL_FROM_SUPERVISOR);
    assert_eq!(
        machine.csr(Csr::Mepc),
        DRAM_BASE + SUPERVISOR_ENTRY_OFFSET as u64
    );
    assert_ne!(machine.csr(Csr::Sstatus) & MSTATUS_SPP, 0);

    let halted = machine.run_slice(64);
    assert_eq!(
        halted.outcome,
        SliceOutcome::Halted(HaltStatus {
            passed: true,
            code: 0,
        })
    );
    assert_eq!(halted.console, b"TR\n");
    assert_eq!(halted.total_steps_executed, 31);
    assert_eq!(halted.total_instructions_retired, 30);
    assert_eq!(machine.privilege(), Privilege::Supervisor);
    assert_eq!(machine.csr(Csr::Sepc), DRAM_BASE + 16 * 4);
    assert_eq!(machine.csr(Csr::Sstatus) & MSTATUS_SPP, 0);
    assert_ne!(machine.csr(Csr::Sstatus) & MSTATUS_SPIE, 0);
}

#[test]
fn csr_access_checks_privilege_and_read_only_write_intent() {
    let mut rv = machine(8);
    let program = words(&[encode_csrr(5, Csr::Mhartid), encode_csrw(Csr::Mhartid, 5)]);
    rv.load_program(&program).expect("load program");

    let report = rv.run_slice(2);
    assert_eq!(rv.register(5), Some(0));
    assert_eq!(report.instructions_retired, 1);
    assert_eq!(report.outcome, SliceOutcome::Yielded);
    assert_eq!(rv.csr(Csr::Mcause), 2);
    assert_eq!(rv.csr(Csr::Mepc), DRAM_BASE + 4);
    assert_eq!(rv.csr(Csr::Mtval), u64::from(encode_csrw(Csr::Mhartid, 5)));

    let mut supervisor = machine(8);
    supervisor
        .load_program(&RV64_SUPERVISOR_PROGRAM)
        .expect("load supervisor program");
    let entered = supervisor.run_slice(12);
    assert_eq!(entered.outcome, SliceOutcome::Yielded);
    assert_eq!(supervisor.privilege(), Privilege::Supervisor);
    let forbidden = encode_csrw(Csr::Mstatus, 0);
    let offset = usize::try_from(supervisor.pc() - DRAM_BASE).expect("RAM offset");
    assert!(
        supervisor
            .devices
            .ram
            .copy_from_slice(offset, &forbidden.to_le_bytes())
    );
    let report = supervisor.run_slice(1);
    assert_eq!(report.outcome, SliceOutcome::Yielded);
    assert_eq!(report.instructions_retired, 0);
    assert_eq!(supervisor.privilege(), Privilege::Machine);
    assert_eq!(supervisor.csr(Csr::Mcause), 2);
    assert_eq!(
        supervisor.csr(Csr::Mepc),
        DRAM_BASE + u64::from(SUPERVISOR_ENTRY_OFFSET)
    );
    assert_eq!(supervisor.csr(Csr::Mtval), u64::from(forbidden));
}

#[test]
fn all_six_zicsr_operations_use_old_values_and_exact_write_intent() {
    let mut rv = machine(8);
    let program = words(&[
        encode_addi(5, 0, 0x0f),
        encode_csr(6, Csr::Mscratch, 5, 1),
        encode_addi(7, 0, 0x30),
        encode_csr(8, Csr::Mscratch, 7, 2),
        encode_addi(9, 0, 0x0c),
        encode_csr(10, Csr::Mscratch, 9, 3),
        encode_csr(11, Csr::Mscratch, 5, 5),
        encode_csr(12, Csr::Mscratch, 2, 6),
        encode_csr(13, Csr::Mscratch, 1, 7),
        encode_csrr(14, Csr::Mscratch),
        0x0010_0073,
    ]);
    rv.load_program(&program).expect("load CSR program");

    let report = rv.run_slice(11);
    assert_eq!(report.instructions_retired, 10);
    assert_eq!(rv.register(6), Some(0));
    assert_eq!(rv.register(8), Some(0x0f));
    assert_eq!(rv.register(10), Some(0x3f));
    assert_eq!(rv.register(11), Some(0x33));
    assert_eq!(rv.register(12), Some(5));
    assert_eq!(rv.register(13), Some(7));
    assert_eq!(rv.register(14), Some(6));
    assert_eq!(rv.csr(Csr::Mscratch), 6);
    assert_eq!(report.outcome, SliceOutcome::Yielded);
    assert_eq!(rv.csr(Csr::Mcause), 3);
    assert_eq!(rv.csr(Csr::Mepc), DRAM_BASE + 10 * 4);
}

#[test]
fn xret_instructions_fail_closed_below_their_privilege() {
    let mut supervisor = machine(8);
    supervisor
        .load_program(&RV64_SUPERVISOR_PROGRAM)
        .expect("load supervisor program");
    assert_eq!(supervisor.run_slice(12).outcome, SliceOutcome::Yielded);
    let mret = 0x3020_0073_u32;
    let offset = usize::try_from(supervisor.pc() - DRAM_BASE).expect("RAM offset");
    assert!(
        supervisor
            .devices
            .ram
            .copy_from_slice(offset, &mret.to_le_bytes())
    );
    assert_eq!(supervisor.run_slice(1).outcome, SliceOutcome::Yielded);
    assert_eq!(supervisor.privilege(), Privilege::Machine);
    assert_eq!(supervisor.csr(Csr::Mcause), 2);
    assert_eq!(supervisor.csr(Csr::Mtval), u64::from(mret));

    let mut user = machine(8);
    let program = words(&[
        encode_auipc(5, 0),
        encode_addi(5, 5, 5 * 4),
        encode_csrw(Csr::Mepc, 5),
        encode_csrw(Csr::Mstatus, 0),
        0x3020_0073,
        0x1020_0073,
    ]);
    user.load_program(&program).expect("load user transition");
    let report = user.run_slice(6);
    assert_eq!(user.privilege(), Privilege::Machine);
    assert_eq!(report.instructions_retired, 5);
    assert_eq!(report.outcome, SliceOutcome::Yielded);
    assert_eq!(user.csr(Csr::Mcause), 2);
    assert_eq!(user.csr(Csr::Mepc), DRAM_BASE + 5 * 4);
}

#[test]
fn reserved_mpp_encoding_is_warl_coerced_to_user() {
    let mut rv = machine(8);
    let program = words(&[
        encode_lui(5, 1),
        encode_csrw(Csr::Mstatus, 5),
        encode_csrr(6, Csr::Mstatus),
        0x0010_0073,
    ]);
    rv.load_program(&program).expect("load WARL program");
    let report = rv.run_slice(3);

    assert_eq!(report.instructions_retired, 3);
    assert_eq!(rv.register(6).expect("x6") & MSTATUS_MPP, 0);
    assert_eq!(rv.csr(Csr::Mstatus) & MSTATUS_MPP, 0);
}

#[test]
fn sret_to_lower_privilege_clears_mprv() {
    let mut rv = machine(8);
    let program = words(&[
        encode_auipc(5, 0),
        encode_addi(5, 5, 7 * 4),
        encode_csrw(Csr::Sepc, 5),
        encode_lui(6, 0x20),
        encode_addi(6, 6, MSTATUS_SPP as u32),
        encode_csrw(Csr::Mstatus, 6),
        0x1020_0073,
        0x0010_0073,
    ]);
    rv.load_program(&program).expect("load SRET program");
    let report = rv.run_slice(7);

    assert_eq!(rv.privilege(), Privilege::Supervisor);
    assert_eq!(rv.csr(Csr::Mstatus) & MSTATUS_MPRV, 0);
    assert_eq!(report.instructions_retired, 7);
    assert_eq!(report.outcome, SliceOutcome::Yielded);
}

#[test]
fn repeated_architectural_traps_remain_slice_bounded() {
    let mut machine = machine(8);
    machine
        .load_program(&0x0000_0073_u32.to_le_bytes())
        .expect("load ecall loop");
    machine.harts[machine.active_hart_id].csrs.mtvec = DRAM_BASE;

    let report = machine.run_slice(7);
    assert_eq!(report.outcome, SliceOutcome::Yielded);
    assert_eq!(report.steps_executed, 7);
    assert_eq!(report.instructions_retired, 0);
    assert_eq!(machine.pc(), DRAM_BASE);
    assert_eq!(machine.csr(Csr::Mcause), CAUSE_ECALL_FROM_MACHINE);
    assert_eq!(machine.csr(Csr::Mepc), DRAM_BASE);
}

#[test]
fn zero_register_cannot_be_modified() {
    let mut machine = machine(8);
    let program = words(&[encode_addi(0, 0, 42), 0x0010_0073]);
    machine.load_program(&program).expect("load program");

    let report = machine.run_slice(2);
    assert_eq!(machine.register(0), Some(0));
    assert_eq!(report.outcome, SliceOutcome::Yielded);
    assert_eq!(report.instructions_retired, 1);
    assert_eq!(machine.csr(Csr::Mcause), 3);
    assert_eq!(machine.csr(Csr::Mepc), DRAM_BASE + 4);
}

#[test]
fn invalid_instruction_traps_without_retiring() {
    let mut machine = machine(8);
    machine
        .load_program(&0xffff_ffff_u32.to_le_bytes())
        .expect("load program");

    let report = machine.run_slice(1);
    assert_eq!(report.outcome, SliceOutcome::Yielded);
    assert_eq!(report.instructions_retired, 0);
    assert_eq!(machine.csr(Csr::Mcause), 2);
    assert_eq!(machine.csr(Csr::Mepc), DRAM_BASE);
    assert_eq!(machine.csr(Csr::Mtval), 0xffff_ffff);
}

#[test]
fn ialign_16_accepts_halfword_jump_targets_and_rejects_odd_fetches() {
    let mut machine = machine(8);
    machine
        .load_program(&0x0020_00ef_u32.to_le_bytes())
        .expect("load program");

    let report = machine.run_slice(1);
    assert_eq!(report.outcome, SliceOutcome::Yielded);
    assert_eq!(report.instructions_retired, 1);
    assert_eq!(machine.register(1), Some(DRAM_BASE + 4));
    assert_eq!(machine.pc(), DRAM_BASE + 2);

    machine.harts[machine.active_hart_id].cpu.pc = DRAM_BASE + 1;
    let odd = machine.run_slice(1);
    assert_eq!(odd.instructions_retired, 0);
    assert_eq!(machine.csr(Csr::Mcause), 0);
    assert_eq!(machine.csr(Csr::Mtval), DRAM_BASE + 1);
}

#[test]
fn console_limit_is_a_guest_trap_not_an_outer_allocation() {
    let mut machine = machine(1);
    machine
        .load_program(&RV64_SMOKE_PROGRAM)
        .expect("load smoke program");

    let report = machine.run_slice(16);
    assert_eq!(
        report.outcome,
        SliceOutcome::Trapped(MachineTrap::ConsoleLimit { limit: 1 })
    );
    assert_eq!(report.console, b"A");
    assert_eq!(report.instructions_retired, 4);
}

#[test]
fn misaligned_store_is_rejected_before_memory_access() {
    let mut machine = machine(8);
    let program = words(&[
        (5 << 7) | 0x17, // auipc x5, 0: current DRAM address
        encode_addi(5, 5, 1),
        encode_addi(6, 0, 42),
        encode_store(5, 6, 0, 2),
    ]);
    machine.load_program(&program).expect("load program");

    let report = machine.run_slice(4);
    assert_eq!(report.outcome, SliceOutcome::Yielded);
    assert_eq!(report.instructions_retired, 3);
    assert_eq!(machine.csr(Csr::Mcause), 6);
    assert_eq!(machine.csr(Csr::Mtval), DRAM_BASE + 1);
}

#[test]
fn image_and_resource_admission_fail_closed() {
    assert_eq!(
        Machine::new(MachineConfig {
            ram_bytes: 4095,
            max_console_bytes: 1,
        })
        .expect_err("unaligned RAM must fail"),
        MachineError::InvalidRamBytes(4095)
    );
    let config = MachineConfig {
        ram_bytes: 4096,
        max_console_bytes: 1,
    };
    assert_eq!(
        Machine::new_with_harts(config, 0).expect_err("zero harts must fail"),
        MachineError::InvalidHartCount(0)
    );
    assert_eq!(
        Machine::new_with_harts(config, MAX_HARTS + 1)
            .expect_err("unrepresentable hart count must fail"),
        MachineError::InvalidHartCount(MAX_HARTS + 1)
    );
    let admitted =
        Machine::new_with_harts(config, MAX_HARTS).expect("maximum hart topology is admitted");
    assert_eq!(admitted.hart_count(), MAX_HARTS);
    assert_eq!(machine(1).hart_count(), 1);
    let mut machine = machine(8);
    assert_eq!(
        machine.load_program(&[]),
        Err(MachineError::InvalidProgramBytes {
            image: 0,
            ram: 4096,
        })
    );
}

#[test]
fn deterministic_scheduler_preserves_exact_per_hart_architectural_state() {
    let mut machine = Machine::new_with_harts(
        MachineConfig {
            ram_bytes: 4096,
            max_console_bytes: 8,
        },
        2,
    )
    .expect("admit two harts");
    machine
        .load_program(&words(&[
            encode_csrr(5, Csr::Mhartid),
            encode_addi(6, 5, 10),
        ]))
        .expect("load shared hart probe");
    assert!(machine.set_hart_lifecycle(1, HartLifecycle::Started));

    machine.scheduler_quantum_remaining = 1;
    assert_eq!(machine.run_slice(1).instructions_retired, 1);
    assert_eq!(machine.active_hart_id(), 0);
    assert_eq!(machine.register(5), Some(0));

    assert_eq!(machine.run_slice(1).instructions_retired, 1);
    assert_eq!(machine.active_hart_id(), 1);
    assert_eq!(machine.csr(Csr::Mhartid), 1);
    assert_eq!(machine.register(5), Some(1));
    assert_eq!(machine.harts[machine.active_hart_id].instret, 1);
    let hart_zero = &machine.harts[0];
    assert_eq!(hart_zero.cpu.registers[5], 0);
    assert_eq!(hart_zero.instret, 1);

    machine.harts[machine.active_hart_id].timer_deadline = 11;
    machine.harts[machine.active_hart_id].msip = true;
    machine.harts[machine.active_hart_id].csrs.sscratch = 0x1111;
    assert_eq!(machine.run_slice(1).instructions_retired, 1);
    assert_eq!(machine.register(6), Some(11));
    machine.scheduler_quantum_remaining = 0;
    assert_eq!(machine.run_slice(1).instructions_retired, 1);
    assert_eq!(machine.active_hart_id(), 0);
    assert_eq!(machine.register(6), Some(10));
    assert_eq!(machine.harts[machine.active_hart_id].timer_deadline, u64::MAX);
    assert!(!machine.harts[machine.active_hart_id].msip);
    assert_eq!(machine.harts[machine.active_hart_id].csrs.sscratch, 0);
    let hart_one = &machine.harts[1];
    assert_eq!(hart_one.cpu.registers[6], 11);
    assert_eq!(hart_one.timer_deadline, 11);
    assert!(hart_one.msip);
    assert_eq!(hart_one.csrs.sscratch, 0x1111);
    assert_eq!(machine.instructions_retired, 4);
}

#[test]
fn exact_hart_slice_never_runs_or_rotates_to_another_hart() {
    let mut machine = Machine::new_with_harts(
        MachineConfig {
            ram_bytes: 4096,
            max_console_bytes: 8,
        },
        2,
    )
    .expect("admit two harts");
    machine
        .load_program(&words(&[
            encode_csrr(5, Csr::Mhartid),
            encode_addi(6, 5, 10),
        ]))
        .expect("load shared hart probe");

    let stopped = machine.run_hart_slice(1, 2).expect("admitted hart");
    assert_eq!(stopped.steps_executed, 0);
    assert_eq!(stopped.instructions_retired, 0);
    assert_eq!(machine.active_hart_id(), 1);
    assert_eq!(machine.register(5), Some(0));

    assert!(machine.set_hart_lifecycle(1, HartLifecycle::Started));
    let secondary = machine.run_hart_slice(1, 2).expect("started hart");
    assert_eq!(secondary.steps_executed, 2);
    assert_eq!(secondary.instructions_retired, 2);
    assert_eq!(machine.active_hart_id(), 1);
    assert_eq!(machine.register(5), Some(1));
    assert_eq!(machine.register(6), Some(11));
    assert_eq!(machine.harts[0].cpu.pc, DRAM_BASE);
    assert_eq!(machine.harts[0].instret, 0);

    assert_eq!(
        machine.run_hart_slice(2, 1),
        Err(InvalidHartId {
            hart_id: 2,
            hart_count: 2,
        })
    );
}

#[test]
fn a_store_invalidates_every_harts_overlapping_reservation() {
    let mut machine = Machine::new_with_harts(
        MachineConfig {
            ram_bytes: 4096,
            max_console_bytes: 8,
        },
        2,
    )
    .expect("admit two harts");
    machine.harts[machine.active_hart_id].reservation = Some((DRAM_BASE + 8, 8));
    machine.harts[1].reservation = Some((DRAM_BASE + 12, 4));

    machine.invalidate_reservation(DRAM_BASE + 10, 4);

    assert_eq!(machine.harts[machine.active_hart_id].reservation, None);
    assert_eq!(machine.harts[1].reservation, None);
}

#[test]
fn console_input_is_read_through_uart_registers() {
    let mut machine = machine(8);
    let program = words(&[
        encode_lui(5, 0x1_0000),
        0x0052_c303, // lbu x6, 5(x5): UART line status
        0x0002_c383, // lbu x7, 0(x5): UART receive byte
        0x0010_0073,
    ]);
    machine.load_program(&program).expect("load program");
    machine.push_console_input(b"Z");

    let report = machine.run_slice(4);
    assert_eq!(machine.register(6), Some(0x61));
    assert_eq!(machine.register(7), Some(u64::from(b'Z')));
    assert_eq!(report.outcome, SliceOutcome::Yielded);
    assert_eq!(machine.csr(Csr::Mcause), 3);
}

#[test]
fn sv39_translates_fetch_load_and_store_and_sets_ad_bits() {
    let mut machine = paged_machine();
    let virtual_address = 0x4000_0000;
    let physical = DRAM_BASE + 0x4000;
    let program = words(&[
        encode_addi(5, 0, 42),
        encode_auipc(6, 0),
        encode_store(6, 5, 0x100, 2),
        encode_load(7, 6, 0x100, 6),
    ]);
    assert!(machine.devices.write_ram(physical, 0, 8));
    for (offset, byte) in program.iter().copied().enumerate() {
        assert!(
            machine
                .devices
                .write_ram(physical + offset as u64, u64::from(byte), 1)
        );
    }
    let leaf = install_4k_mapping(
        &mut machine,
        virtual_address,
        physical,
        PTE_VALID | PTE_READ | PTE_WRITE | PTE_EXECUTE,
    );
    machine.harts[machine.active_hart_id].cpu.pc = virtual_address;
    machine.harts[machine.active_hart_id].cpu.privilege = Privilege::Supervisor;

    let report = machine.run_slice(4);
    assert_eq!(report.outcome, SliceOutcome::Yielded);
    assert_eq!(report.instructions_retired, 4);
    assert_eq!(machine.register(7), Some(42));
    assert_eq!(machine.devices.read_ram(physical + 0x104, 4), Some(42));
    let pte = machine.devices.read_ram(leaf, 8).expect("leaf PTE");
    assert_eq!(pte & (PTE_ACCESSED | PTE_DIRTY), PTE_ACCESSED | PTE_DIRTY);
    assert_eq!(
        machine.metrics(),
        MachineMetrics {
            instruction_fetches: 4,
            instruction_translations: 4,
            load_translations: 1,
            store_translations: 1,
            sv39_walks: 3,
            page_table_entries_read: 9,
            page_table_entries_written: 2,
            translation_cache_hits: 3,
            translation_cache_misses: 3,
            translation_cache_flushes: 0,
        }
    );
}

#[test]
fn sv39_permission_fault_is_delegated_with_virtual_stval() {
    let mut machine = paged_machine();
    let virtual_address = 0x4000_0000;
    let physical = DRAM_BASE + 0x4000;
    let load = encode_load(7, 6, 0, 3);
    assert!(machine.devices.write_ram(physical, u64::from(load), 4));
    assert!(machine.devices.write_ram(physical + 0x100, 0xfeed_face, 8));
    let leaf = install_4k_mapping(
        &mut machine,
        virtual_address,
        physical,
        PTE_VALID | PTE_EXECUTE,
    );
    machine.harts[machine.active_hart_id].cpu.pc = virtual_address;
    machine.harts[machine.active_hart_id].cpu.registers[6] = virtual_address + 0x100;
    machine.harts[machine.active_hart_id].cpu.privilege = Privilege::Supervisor;
    machine.harts[machine.active_hart_id].csrs.medeleg = 1 << CAUSE_LOAD_PAGE_FAULT;
    machine.harts[machine.active_hart_id].csrs.stvec = virtual_address + 0x200;

    let report = machine.run_slice(1);
    assert_eq!(report.outcome, SliceOutcome::Yielded);
    assert_eq!(report.instructions_retired, 0);
    assert_eq!(machine.privilege(), Privilege::Supervisor);
    assert_eq!(machine.pc(), virtual_address + 0x200);
    assert_eq!(machine.csr(Csr::Scause), CAUSE_LOAD_PAGE_FAULT);
    assert_eq!(machine.csr(Csr::Sepc), virtual_address);
    assert_eq!(machine.csr(Csr::Stval), virtual_address + 0x100);
    assert_ne!(
        machine.devices.read_ram(leaf, 8).expect("leaf PTE") & PTE_ACCESSED,
        0
    );

    machine.harts[machine.active_hart_id].cpu.pc = virtual_address;
    machine.harts[machine.active_hart_id].cpu.privilege = Privilege::Supervisor;
    machine.harts[machine.active_hart_id].csrs.mstatus |= MSTATUS_MXR;
    let retried = machine.run_slice(1);
    assert_eq!(retried.instructions_retired, 1);
    assert_eq!(machine.register(7), Some(0xfeed_face));
}

#[test]
fn sv39_superpages_canonicality_and_mprv_are_exact() {
    let mut machine = paged_machine();
    let virtual_address = 0x4000_0000;
    let root = DRAM_BASE + 0x1000;
    let level_one = DRAM_BASE + 0x2000;
    let vpn2 = virtual_address >> 30 & 0x1ff;
    let vpn1 = virtual_address >> 21 & 0x1ff;
    assert!(machine.devices.write_ram(
        root + vpn2 * 8,
        ((level_one >> 12) << 10) | PTE_VALID,
        8,
    ));
    assert!(machine.devices.write_ram(
        level_one + vpn1 * 8,
        ((DRAM_BASE >> 12) << 10) | PTE_VALID | PTE_READ | PTE_WRITE,
        8,
    ));
    machine.harts[machine.active_hart_id].csrs.write(
        Csr::Satp,
        (SATP_MODE_SV39 << SATP_MODE_SHIFT) | (root >> 12),
    );
    machine.harts[machine.active_hart_id].cpu.privilege = Privilege::Supervisor;
    assert_eq!(
        machine.translate(virtual_address + 0x1234, AccessType::Load),
        Ok(DRAM_BASE + 0x1234)
    );
    assert_eq!(
        machine.translate(1 << 39, AccessType::Load),
        Err(MachineTrap::LoadPageFault { address: 1 << 39 })
    );

    machine.harts[machine.active_hart_id].cpu.privilege = Privilege::Machine;
    machine.harts[machine.active_hart_id].csrs.mstatus = MSTATUS_MPRV | (1 << MSTATUS_MPP_SHIFT);
    assert_eq!(
        machine.translate(virtual_address + 0x2345, AccessType::Load),
        Ok(DRAM_BASE + 0x2345)
    );
}

#[test]
fn sfence_vma_is_privileged_and_conservatively_flushes_the_translation_cache() {
    let mut machine = paged_machine();
    let virtual_address = 0x4000_0000;
    let first_physical = DRAM_BASE + 0x4000;
    let second_physical = DRAM_BASE + 0x5000;
    let sfence_vma = 0x1200_0073_u32;
    assert!(
        machine
            .devices
            .write_ram(first_physical, u64::from(sfence_vma), 4)
    );
    assert!(
        machine
            .devices
            .write_ram(second_physical, u64::from(sfence_vma), 4)
    );
    let leaf = install_4k_mapping(
        &mut machine,
        virtual_address,
        first_physical,
        PTE_VALID | PTE_READ | PTE_EXECUTE,
    );
    machine.harts[machine.active_hart_id].cpu.pc = virtual_address;
    machine.harts[machine.active_hart_id].cpu.privilege = Privilege::Supervisor;

    assert_eq!(
        machine.translate(virtual_address, AccessType::Instruction),
        Ok(first_physical)
    );
    assert!(machine.devices.write_ram(
        leaf,
        ((second_physical >> GUEST_PAGE_SHIFT) << 10)
            | PTE_VALID
            | PTE_READ
            | PTE_EXECUTE
            | PTE_ACCESSED,
        8,
    ));
    assert_eq!(
        machine.translate(virtual_address, AccessType::Instruction),
        Ok(first_physical),
        "page-table changes remain cached until an architectural fence"
    );

    let report = machine.run_slice(1);
    assert_eq!(report.instructions_retired, 1);
    assert_eq!(machine.pc(), virtual_address + 4);
    assert_eq!(machine.metrics().translation_cache_flushes, 1);
    assert_eq!(
        machine.translate(virtual_address, AccessType::Instruction),
        Ok(second_physical)
    );

    let pte = machine.devices.read_ram(leaf, 8).expect("leaf PTE");
    assert!(machine.devices.write_ram(leaf, pte | PTE_USER, 8));
    machine.harts[machine.active_hart_id].cpu.pc = virtual_address;
    machine.harts[machine.active_hart_id].cpu.privilege = Privilege::User;
    let forbidden = machine.run_slice(1);
    assert_eq!(forbidden.instructions_retired, 0);
    assert_eq!(machine.csr(Csr::Mcause), 2);
    assert_eq!(machine.csr(Csr::Mtval), u64::from(sfence_vma));
}

#[test]
fn sv39_sum_mxr_and_user_permissions_form_a_closed_matrix() {
    let mut machine = paged_machine();
    let user_read = PTE_VALID | PTE_USER | PTE_READ;
    let supervisor_read = PTE_VALID | PTE_READ;
    let execute_only = PTE_VALID | PTE_EXECUTE;

    assert!(!machine.page_permissions_allow(
        user_read,
        AccessType::Load,
        Privilege::Supervisor,
    ));
    machine.harts[machine.active_hart_id].csrs.mstatus |= MSTATUS_SUM;
    assert!(
        machine.page_permissions_allow(user_read, AccessType::Load, Privilege::Supervisor,)
    );
    assert!(!machine.page_permissions_allow(
        user_read | PTE_EXECUTE,
        AccessType::Instruction,
        Privilege::Supervisor,
    ));
    assert!(!machine.page_permissions_allow(
        supervisor_read,
        AccessType::Load,
        Privilege::User,
    ));
    assert!(!machine.page_permissions_allow(
        execute_only,
        AccessType::Load,
        Privilege::Supervisor,
    ));
    machine.harts[machine.active_hart_id].csrs.mstatus |= MSTATUS_MXR;
    assert!(machine.page_permissions_allow(
        execute_only,
        AccessType::Load,
        Privilege::Supervisor,
    ));
}

#[test]
fn rv64m_operations_cover_high_halves_and_division_edges() {
    let cases = [
        (0, 7, 9, 63),
        (1, u64::MAX - 1, 3, u64::MAX),
        (2, u64::MAX - 1, 3, u64::MAX),
        (3, u64::MAX, u64::MAX, u64::MAX - 1),
        (4, (-20_i64) as u64, 3, (-6_i64) as u64),
        (5, 20, 3, 6),
        (6, (-20_i64) as u64, 3, (-2_i64) as u64),
        (7, 20, 3, 2),
        (4, i64::MIN as u64, (-1_i64) as u64, i64::MIN as u64),
        (4, 7, 0, u64::MAX),
        (6, 7, 0, 7),
    ];
    for (funct3, lhs, rhs, expected) in cases {
        let mut machine = machine(8);
        machine
            .load_program(&encode_op(7, 5, 6, funct3, 1).to_le_bytes())
            .expect("load M operation");
        machine.harts[machine.active_hart_id].cpu.registers[5] = lhs;
        machine.harts[machine.active_hart_id].cpu.registers[6] = rhs;
        assert_eq!(machine.run_slice(1).instructions_retired, 1);
        assert_eq!(machine.register(7), Some(expected), "funct3={funct3}");
    }

    let word_cases = [
        (0, 0xffff_ffff, 2, u64::MAX - 1),
        (4, i32::MIN as u32, u32::MAX, 0xffff_ffff_8000_0000),
        (5, 12, 5, 2),
        (6, (-12_i32) as u32, 5, (-2_i64) as u64),
        (7, 12, 5, 2),
    ];
    for (funct3, lhs, rhs, expected) in word_cases {
        let mut machine = machine(8);
        machine
            .load_program(&encode_op_32(7, 5, 6, funct3, 1).to_le_bytes())
            .expect("load M word operation");
        machine.harts[machine.active_hart_id].cpu.registers[5] = u64::from(lhs);
        machine.harts[machine.active_hart_id].cpu.registers[6] = u64::from(rhs);
        assert_eq!(machine.run_slice(1).instructions_retired, 1);
        assert_eq!(machine.register(7), Some(expected), "funct3={funct3}");
    }
}

#[test]
fn rv64c_load_store_and_mixed_width_fetch_preserve_exact_pc_and_values() {
    let mut machine = machine(8);
    let mut program = halfwords(&[
        0x0800, // c.addi4spn x8, sp, 16
        0xc004, // c.sw x9, 0(x8)
        0x4008, // c.lw x10, 0(x8)
        0xe408, // c.sd x10, 8(x8)
        0x640c, // c.ld x11, 8(x8)
    ]);
    program.extend_from_slice(&encode_addi(12, 11, 1).to_le_bytes());
    machine
        .load_program(&program)
        .expect("load mixed RV64C program");
    machine.harts[machine.active_hart_id].cpu.registers[2] = DRAM_BASE + 0x100;
    machine.harts[machine.active_hart_id].cpu.registers[9] = 0xffff_ffff_8000_0007;

    let report = machine.run_slice(6);
    assert_eq!(report.instructions_retired, 6);
    assert_eq!(machine.register(8), Some(DRAM_BASE + 0x110));
    assert_eq!(machine.register(10), Some(0xffff_ffff_8000_0007));
    assert_eq!(machine.register(11), Some(0xffff_ffff_8000_0007));
    assert_eq!(machine.register(12), Some(0xffff_ffff_8000_0008));
    assert_eq!(machine.pc(), DRAM_BASE + 14);
}

#[test]
fn rv64c_integer_alu_forms_cover_immediates_registers_and_words() {
    let immediate_cases: [(u16, usize, u64, u64); 5] = [
        (0x0285, 5, 41, 42),                             // c.addi x5, 1
        (0x2285, 5, 0x7fff_ffff, 0xffff_ffff_8000_0000), // c.addiw x5, 1
        (0x537d, 6, 0, u64::MAX),                        // c.li x6, -1
        (0x6285, 5, 0, 4096),                            // c.lui x5, 1
        (0x0286, 5, 21, 42),                             // c.slli x5, 1
    ];
    for (instruction, register, initial, expected) in immediate_cases {
        let mut machine = machine(8);
        machine
            .load_program(&instruction.to_le_bytes())
            .expect("load compressed immediate operation");
        machine.harts[machine.active_hart_id].cpu.registers[register] = initial;
        assert_eq!(machine.run_slice(1).instructions_retired, 1);
        assert_eq!(machine.register(register), Some(expected));
    }

    let mut stack = machine(8);
    stack
        .load_program(&0x6141_u16.to_le_bytes())
        .expect("load c.addi16sp");
    stack.harts[stack.active_hart_id].cpu.registers[2] = DRAM_BASE + 0x100;
    assert_eq!(stack.run_slice(1).instructions_retired, 1);
    assert_eq!(stack.register(2), Some(DRAM_BASE + 0x110));

    let register_cases: [(u16, usize, u64, u64, u64); 9] = [
        (0x8005, 8, 9, 0, 4),                               // c.srli x8, 1
        (0x8405, 8, u64::MAX - 2, 0, u64::MAX - 1),         // c.srai x8, 1
        (0x987d, 8, 0x55, 0, 0x55),                         // c.andi x8, -1
        (0x8c05, 8, 9, 4, 5),                               // c.sub x8, x9
        (0x8c25, 8, 9, 3, 10),                              // c.xor x8, x9
        (0x8c45, 8, 8, 3, 11),                              // c.or x8, x9
        (0x8c65, 8, 11, 3, 3),                              // c.and x8, x9
        (0x9c05, 8, 0x8000_0000, 1, 0x0000_0000_7fff_ffff), // c.subw
        (0x9c25, 8, 0x7fff_ffff, 1, 0xffff_ffff_8000_0000), // c.addw
    ];
    for (instruction, rd, lhs, rhs, expected) in register_cases {
        let mut machine = machine(8);
        machine
            .load_program(&instruction.to_le_bytes())
            .expect("load compressed register operation");
        machine.harts[machine.active_hart_id].cpu.registers[rd] = lhs;
        machine.harts[machine.active_hart_id].cpu.registers[9] = rhs;
        assert_eq!(machine.run_slice(1).instructions_retired, 1);
        assert_eq!(machine.register(rd), Some(expected));
    }
}

#[test]
fn rv64c_control_transfer_link_and_branch_forms_use_two_byte_ialign() {
    let mut jump = machine(8);
    jump.load_program(&0xa829_u16.to_le_bytes())
        .expect("load c.j");
    assert_eq!(jump.run_slice(1).instructions_retired, 1);
    assert_eq!(jump.pc(), DRAM_BASE + 26);

    let mut equal = machine(8);
    equal
        .load_program(&0xcc01_u16.to_le_bytes())
        .expect("load c.beqz");
    equal.harts[equal.active_hart_id].cpu.registers[8] = 0;
    assert_eq!(equal.run_slice(1).instructions_retired, 1);
    assert_eq!(equal.pc(), DRAM_BASE + 24);

    let mut not_equal = machine(8);
    not_equal
        .load_program(&0xe819_u16.to_le_bytes())
        .expect("load c.bnez");
    not_equal.harts[not_equal.active_hart_id].cpu.registers[8] = 1;
    assert_eq!(not_equal.run_slice(1).instructions_retired, 1);
    assert_eq!(not_equal.pc(), DRAM_BASE + 22);

    let mut link = machine(8);
    link.load_program(&0x9282_u16.to_le_bytes())
        .expect("load c.jalr");
    link.harts[link.active_hart_id].cpu.registers[5] = DRAM_BASE + 0x100;
    assert_eq!(link.run_slice(1).instructions_retired, 1);
    assert_eq!(link.register(1), Some(DRAM_BASE + 2));
    assert_eq!(link.pc(), DRAM_BASE + 0x100);
}

#[test]
fn rv64c_fetch_crosses_a_page_only_after_admitting_both_halfwords() {
    let mut machine = Machine::new(MachineConfig {
        ram_bytes: 8192,
        max_console_bytes: 8,
    })
    .expect("valid two-page machine");
    machine
        .load_program(&vec![0; 4098])
        .expect("load two pages");
    let instruction = encode_addi(5, 0, 42);
    assert!(
        machine
            .devices
            .write_ram(DRAM_BASE + 4094, u64::from(instruction & 0xffff), 2,)
    );
    assert!(
        machine
            .devices
            .write_ram(DRAM_BASE + 4096, u64::from(instruction >> 16), 2,)
    );
    machine.harts[machine.active_hart_id].cpu.pc = DRAM_BASE + 4094;

    let report = machine.run_slice(1);
    assert_eq!(report.instructions_retired, 1);
    assert_eq!(machine.register(5), Some(42));
    assert_eq!(machine.pc(), DRAM_BASE + 4098);
    assert_eq!(machine.metrics().instruction_translations, 2);
}

#[test]
fn rv64c_rejects_compact_float_while_fs_is_off_and_reserved_encodings() {
    for instruction in [0x0000_u16, 0x2000, 0xa000] {
        let mut machine = machine(8);
        machine
            .load_program(&instruction.to_le_bytes())
            .expect("load reserved compressed instruction");
        let report = machine.run_slice(1);
        assert_eq!(report.instructions_retired, 0);
        assert_eq!(machine.csr(Csr::Mcause), 2);
        assert_eq!(machine.csr(Csr::Mtval), u64::from(instruction));
    }
}

#[test]
fn rv64fd_is_gated_by_fs_and_fcsr_access_marks_state_dirty() {
    let fadd_s = encode_float_op(3, 1, 2, 0, 0x00);
    let mut disabled = machine(8);
    disabled
        .load_program(&fadd_s.to_le_bytes())
        .expect("load gated FADD.S");
    disabled.harts[disabled.active_hart_id].cpu.write_float32(1, 1.5_f32.to_bits());
    disabled.harts[disabled.active_hart_id].cpu.write_float32(2, 2.5_f32.to_bits());
    let report = disabled.run_slice(1);
    assert_eq!(report.instructions_retired, 0);
    assert_eq!(disabled.csr(Csr::Mcause), 2);
    assert_eq!(disabled.csr(Csr::Mtval), u64::from(fadd_s));

    let mut csr_disabled = machine(8);
    let read_fcsr = encode_csrr(5, Csr::Fcsr);
    csr_disabled
        .load_program(&read_fcsr.to_le_bytes())
        .expect("load gated FCSR read");
    assert_eq!(csr_disabled.run_slice(1).instructions_retired, 0);
    assert_eq!(csr_disabled.csr(Csr::Mcause), 2);

    let mut enabled = machine(8);
    enabled
        .load_program(&words(&[
            encode_csrw(Csr::Frm, 5),
            encode_csrr(6, Csr::Fcsr),
        ]))
        .expect("load FCSR program");
    enabled.harts[enabled.active_hart_id].csrs.mstatus = MSTATUS_FS_INITIAL;
    enabled.harts[enabled.active_hart_id].cpu.registers[5] = 3;
    assert_eq!(enabled.run_slice(2).instructions_retired, 2);
    assert_eq!(enabled.register(6), Some(3 << FRM_SHIFT));
    assert_eq!(enabled.harts[enabled.active_hart_id].csrs.fcsr, 3 << FRM_SHIFT);
    assert_eq!(enabled.harts[enabled.active_hart_id].csrs.mstatus & MSTATUS_FS, MSTATUS_FS_DIRTY);
    assert_ne!(enabled.csr(Csr::Mstatus) & MSTATUS_SD, 0);
}

#[test]
fn rv64fd_arithmetic_sqrt_fma_nan_boxing_and_flags_are_deterministic() {
    let mut machine = machine(8);
    machine
        .load_program(&words(&[
            encode_float_op(3, 1, 2, 0, 0x00),          // fadd.s f3, f1, f2
            encode_float_op(4, 3, 0, 0, 0x2c),          // fsqrt.s f4, f3
            encode_float_fused(0x43, 8, 5, 6, 7, 1, 0), // fmadd.d f8, f5, f6, f7
            encode_float_op(11, 9, 10, 0, 0x00),        // fadd.s f11, f9, f10
            encode_float_op(14, 12, 13, 0, 0x0c),       // fdiv.s f14, f12, f13
            encode_float_op(16, 15, 0, 0, 0x2c),        // fsqrt.s f16, f15
        ]))
        .expect("load RV64FD arithmetic program");
    machine.harts[machine.active_hart_id].csrs.mstatus = MSTATUS_FS_INITIAL;
    machine.harts[machine.active_hart_id].cpu.write_float32(1, 1.5_f32.to_bits());
    machine.harts[machine.active_hart_id].cpu.write_float32(2, 2.5_f32.to_bits());
    machine.harts[machine.active_hart_id].cpu.write_float64(5, 2.0_f64.to_bits());
    machine.harts[machine.active_hart_id].cpu.write_float64(6, 3.0_f64.to_bits());
    machine.harts[machine.active_hart_id].cpu.write_float64(7, 4.0_f64.to_bits());
    machine.harts[machine.active_hart_id].cpu.floating_registers[9] = u64::from(1.0_f32.to_bits());
    machine.harts[machine.active_hart_id].cpu.write_float32(10, 1.0_f32.to_bits());
    machine.harts[machine.active_hart_id].cpu.write_float32(12, 1.0_f32.to_bits());
    machine.harts[machine.active_hart_id].cpu.write_float32(13, 0.0_f32.to_bits());
    machine.harts[machine.active_hart_id].cpu.write_float32(15, (-1.0_f32).to_bits());

    assert_eq!(machine.run_slice(6).instructions_retired, 6);
    assert_eq!(machine.harts[machine.active_hart_id].cpu.read_float32(3), 4.0_f32.to_bits());
    assert_eq!(machine.harts[machine.active_hart_id].cpu.read_float32(4), 2.0_f32.to_bits());
    assert_eq!(machine.harts[machine.active_hart_id].cpu.read_float64(8), 10.0_f64.to_bits());
    assert_eq!(machine.harts[machine.active_hart_id].cpu.read_float32(11), CANONICAL_NAN_F32);
    assert_eq!(machine.harts[machine.active_hart_id].cpu.read_float32(14), f32::INFINITY.to_bits());
    assert_eq!(machine.harts[machine.active_hart_id].cpu.read_float32(16), CANONICAL_NAN_F32);
    assert_eq!(machine.harts[machine.active_hart_id].csrs.fcsr & FFLAGS_MASK, FFLAGS_DZ | FFLAGS_NV);
}

#[test]
fn rv64fd_rounding_conversion_comparison_and_signed_zero_edges_are_exact() {
    let mut edges = machine(8);
    edges
        .load_program(&words(&[
            encode_float_op(5, 1, 2, 0, 0x14),  // fmin.s f5, f1, f2
            encode_float_op(6, 1, 2, 1, 0x14),  // fmax.s f6, f1, f2
            encode_float_op(7, 3, 4, 2, 0x50),  // feq.s x7, f3, f4
            encode_float_op(8, 3, 4, 1, 0x50),  // flt.s x8, f3, f4
            encode_float_op(9, 3, 0, 0, 0x60),  // fcvt.w.s x9, f3
            encode_float_op(10, 3, 1, 0, 0x60), // fcvt.wu.s x10, f3
        ]))
        .expect("load RV64FD edge program");
    edges.harts[edges.active_hart_id].csrs.mstatus = MSTATUS_FS_INITIAL;
    edges.harts[edges.active_hart_id].cpu.write_float32(1, (-0.0_f32).to_bits());
    edges.harts[edges.active_hart_id].cpu.write_float32(2, 0.0_f32.to_bits());
    edges.harts[edges.active_hart_id].cpu.write_float32(3, CANONICAL_NAN_F32);
    edges.harts[edges.active_hart_id].cpu.write_float32(4, 1.0_f32.to_bits());

    assert_eq!(edges.run_slice(6).instructions_retired, 6);
    assert_eq!(edges.harts[edges.active_hart_id].cpu.read_float32(5), (-0.0_f32).to_bits());
    assert_eq!(edges.harts[edges.active_hart_id].cpu.read_float32(6), 0.0_f32.to_bits());
    assert_eq!(edges.register(7), Some(0));
    assert_eq!(edges.register(8), Some(0));
    assert_eq!(edges.register(9), Some(0x0000_0000_7fff_ffff));
    assert_eq!(edges.register(10), Some(u64::MAX));
    assert_eq!(edges.harts[edges.active_hart_id].csrs.fcsr & FFLAGS_MASK, FFLAGS_NV);

    let mut invalid_dynamic_round = machine(8);
    let instruction = encode_float_op(3, 1, 2, 0b111, 0x00);
    invalid_dynamic_round
        .load_program(&instruction.to_le_bytes())
        .expect("load dynamically rounded FADD.S");
    invalid_dynamic_round.harts[invalid_dynamic_round.active_hart_id].csrs.mstatus = MSTATUS_FS_INITIAL;
    invalid_dynamic_round.harts[invalid_dynamic_round.active_hart_id].csrs.fcsr = 0b101 << FRM_SHIFT;
    assert_eq!(invalid_dynamic_round.run_slice(1).instructions_retired, 0);
    assert_eq!(invalid_dynamic_round.csr(Csr::Mcause), 2);
    assert_eq!(
        invalid_dynamic_round.csr(Csr::Mtval),
        u64::from(instruction)
    );
}

#[test]
fn rv64fd_standard_and_compact_memory_forms_preserve_exact_bits() {
    let address = DRAM_BASE + 0x100;
    let mut standard = machine(8);
    standard
        .load_program(&words(&[
            encode_float_store(5, 1, 0, 2),    // fsw f1, 0(x5)
            encode_float_load(2, 5, 0, 2),     // flw f2, 0(x5)
            encode_float_op(6, 2, 0, 0, 0x70), // fmv.x.w x6, f2
        ]))
        .expect("load standard float memory program");
    standard.harts[standard.active_hart_id].csrs.mstatus = MSTATUS_FS_INITIAL;
    standard.harts[standard.active_hart_id].cpu.registers[5] = address;
    standard.harts[standard.active_hart_id].cpu.write_float32(1, (-3.5_f32).to_bits());
    assert_eq!(standard.run_slice(3).instructions_retired, 3);
    assert_eq!(
        standard.register(6),
        Some(sign_extend(u64::from((-3.5_f32).to_bits()), 32))
    );

    let mut compact = machine(8);
    let mut program = halfwords(&[
        0xa000, // c.fsd f8, 0(x8)
        0x2004, // c.fld f9, 0(x8)
    ]);
    program.extend_from_slice(&encode_float_op(7, 9, 0, 0, 0x71).to_le_bytes());
    compact
        .load_program(&program)
        .expect("load compact double memory program");
    compact.harts[compact.active_hart_id].csrs.mstatus = MSTATUS_FS_INITIAL;
    compact.harts[compact.active_hart_id].cpu.registers[8] = address;
    compact.harts[compact.active_hart_id].cpu.write_float64(8, (-13.25_f64).to_bits());
    assert_eq!(compact.run_slice(3).instructions_retired, 3);
    assert_eq!(compact.register(7), Some((-13.25_f64).to_bits()));
    assert_eq!(compact.pc(), DRAM_BASE + 8);
}

#[test]
fn rv64a_lr_sc_and_amo_are_single_hart_atomic_and_sign_extend_words() {
    let mut rv = machine(8);
    let address = DRAM_BASE + 0x100;
    let program = words(&[
        encode_atomic(5, 6, 0, 3, 0x02),
        encode_addi(7, 0, 1),
        encode_atomic(8, 6, 7, 3, 0x03),
        encode_atomic(9, 6, 7, 3, 0x00),
    ]);
    rv.load_program(&program).expect("load atomic program");
    rv.harts[rv.active_hart_id].cpu.registers[6] = address;
    assert!(rv.devices.write_ram(address, 41, 8));

    let report = rv.run_slice(4);
    assert_eq!(report.instructions_retired, 4);
    assert_eq!(rv.register(5), Some(41));
    assert_eq!(rv.register(8), Some(0));
    assert_eq!(rv.register(9), Some(1));
    assert_eq!(rv.devices.read_ram(address, 8), Some(2));

    let mut invalidated = machine(8);
    let program = words(&[
        encode_atomic(5, 6, 0, 3, 0x02),
        encode_store(6, 7, 0, 3),
        encode_atomic(8, 6, 9, 3, 0x03),
    ]);
    invalidated
        .load_program(&program)
        .expect("load invalidation program");
    invalidated.harts[invalidated.active_hart_id].cpu.registers[6] = address;
    invalidated.harts[invalidated.active_hart_id].cpu.registers[7] = 7;
    invalidated.harts[invalidated.active_hart_id].cpu.registers[9] = 9;
    assert!(invalidated.devices.write_ram(address, 41, 8));
    assert_eq!(invalidated.run_slice(3).instructions_retired, 3);
    assert_eq!(invalidated.register(8), Some(1));
    assert_eq!(invalidated.devices.read_ram(address, 8), Some(7));

    let mut word = machine(8);
    word.load_program(&encode_atomic(5, 6, 7, 2, 0x01).to_le_bytes())
        .expect("load amoswap.w");
    word.harts[word.active_hart_id].cpu.registers[6] = address;
    word.harts[word.active_hart_id].cpu.registers[7] = 1;
    assert!(word.devices.write_ram(address, 0x8000_0000, 4));
    assert_eq!(word.run_slice(1).instructions_retired, 1);
    assert_eq!(word.register(5), Some(0xffff_ffff_8000_0000));
    assert_eq!(word.devices.read_ram(address, 4), Some(1));

    let amo_cases = [
        (0x00, 5, 3, 8),
        (0x01, 5, 3, 3),
        (0x04, 5, 3, 6),
        (0x08, 5, 3, 7),
        (0x0c, 5, 3, 1),
        (0x10, (-5_i64) as u64, 3, (-5_i64) as u64),
        (0x14, (-5_i64) as u64, 3, 3),
        (0x18, 5, 3, 3),
        (0x1c, 5, 3, 5),
    ];
    for (operation, old, rhs, expected) in amo_cases {
        assert_eq!(atomic_result(operation, old, rhs, 8), Some(expected));
    }
}

#[test]
fn counters_are_deterministic_and_counteren_gates_lower_privilege() {
    let mut rv = machine(8);
    let program = words(&[
        encode_csrr(5, Csr::Cycle),
        encode_csrr(6, Csr::Time),
        encode_csrr(7, Csr::Instret),
    ]);
    rv.load_program(&program).expect("load counter reads");
    let report = rv.run_slice(3);
    assert_eq!(report.instructions_retired, 3);
    assert_eq!(rv.register(5), Some(0));
    assert_eq!(rv.register(6), Some(1));
    assert_eq!(rv.register(7), Some(2));
    assert_eq!(rv.csr(Csr::Mcycle), 3);
    assert_eq!(rv.csr(Csr::Time), 3);
    assert_eq!(rv.csr(Csr::Minstret), 3);

    assert_eq!(
        rv.harts[rv.active_hart_id].csrs
            .validate_access(Csr::Time.address(), Privilege::Supervisor, false),
        None
    );
    rv.harts[rv.active_hart_id].csrs.write(Csr::Mcounteren, 0b111);
    assert_eq!(
        rv.harts[rv.active_hart_id].csrs
            .validate_access(Csr::Time.address(), Privilege::Supervisor, false),
        Some(Csr::Time)
    );
    assert_eq!(
        rv.harts[rv.active_hart_id].csrs
            .validate_access(Csr::Time.address(), Privilege::User, false),
        None
    );
    rv.harts[rv.active_hart_id].csrs.write(Csr::Scounteren, 0b010);
    assert_eq!(
        rv.harts[rv.active_hart_id].csrs
            .validate_access(Csr::Time.address(), Privilege::User, false),
        Some(Csr::Time)
    );

    let mut writable = machine(8);
    writable
        .load_program(&words(&[
            encode_addi(5, 0, 100),
            encode_csrw(Csr::Mcycle, 5),
            encode_csrr(6, Csr::Mcycle),
        ]))
        .expect("load writable counter program");
    let report = writable.run_slice(3);
    assert_eq!(report.total_steps_executed, 3);
    assert_eq!(report.total_instructions_retired, 3);
    assert_eq!(writable.register(6), Some(101));
    assert_eq!(writable.csr(Csr::Mcycle), 102);
}

#[test]
fn deterministic_clint_timer_enters_vectored_machine_interrupt() {
    let mut machine = machine(8);
    machine
        .load_program(&words(&[
            encode_addi(5, 5, 1),
            encode_addi(5, 5, 1),
            encode_addi(5, 5, 1),
        ]))
        .expect("load timer program");
    machine.harts[machine.active_hart_id].timer_deadline = 2;
    machine.harts[machine.active_hart_id].csrs.mie = MIP_MTIP;
    machine.harts[machine.active_hart_id].csrs.mstatus = MSTATUS_MIE;
    machine.harts[machine.active_hart_id].csrs.mtvec = (DRAM_BASE + 0x100) | 1;

    let report = machine.run_slice(3);
    assert_eq!(report.outcome, SliceOutcome::Yielded);
    assert_eq!(report.instructions_retired, 2);
    assert_eq!(machine.register(5), Some(2));
    assert_eq!(
        machine.csr(Csr::Mcause),
        INTERRUPT_CAUSE_BIT | INTERRUPT_MACHINE_TIMER
    );
    assert_eq!(machine.csr(Csr::Mepc), DRAM_BASE + 8);
    assert_eq!(
        machine.pc(),
        DRAM_BASE + 0x100 + INTERRUPT_MACHINE_TIMER * 4
    );
    assert_eq!(machine.csr(Csr::Mtval), 0);
}

#[test]
fn delegated_supervisor_interrupt_obeys_global_enable_and_wfi_is_bounded() {
    let mut machine = machine(8);
    machine
        .load_program(&0x1050_0073_u32.to_le_bytes())
        .expect("load WFI");
    machine.harts[machine.active_hart_id].cpu.privilege = Privilege::Supervisor;
    machine.harts[machine.active_hart_id].csrs.mideleg = MIP_STIP;
    machine.harts[machine.active_hart_id].csrs.mie = MIP_STIP;
    machine.harts[machine.active_hart_id].csrs.mip = MIP_STIP;
    machine.harts[machine.active_hart_id].csrs.stvec = DRAM_BASE + 0x100;

    let waiting = machine.run_slice(1);
    assert_eq!(waiting.instructions_retired, 1);
    assert_eq!(machine.pc(), DRAM_BASE + 4);

    machine.harts[machine.active_hart_id].cpu.pc = DRAM_BASE;
    machine.harts[machine.active_hart_id].csrs.mstatus |= MSTATUS_SIE;
    let interrupted = machine.run_slice(1);
    assert_eq!(interrupted.instructions_retired, 0);
    assert_eq!(
        machine.csr(Csr::Scause),
        INTERRUPT_CAUSE_BIT | INTERRUPT_SUPERVISOR_TIMER
    );
    assert_eq!(machine.csr(Csr::Sepc), DRAM_BASE);
    assert_eq!(machine.pc(), DRAM_BASE + 0x100);
    assert_eq!(machine.privilege(), Privilege::Supervisor);
}

fn refresh(machine: &mut Machine) {
    let active = machine.active_hart_id;
    let mtime = machine.devices.mtime;
    let firmware = machine.firmware.enabled;
    machine.harts[active].refresh_hardware_interrupts(mtime, firmware);
}

#[test]
fn clint_mmio_is_width_checked_and_drives_hardware_pending_bits() {
    let mut machine = machine(8);
    assert_eq!(machine.read_device(CLINT_BASE + CLINT_MTIME, 8), Ok(0));
    assert_eq!(
        machine.write_device(CLINT_BASE + CLINT_MTIMECMP, 3, 8),
        Ok(None)
    );
    assert_eq!(
        machine.write_device(CLINT_BASE + CLINT_MSIP, 1, 4),
        Ok(None)
    );
    refresh(&mut machine);
    assert_eq!(machine.csr(Csr::Mip) & (MIP_MSIP | MIP_MTIP), MIP_MSIP);
    machine.devices.tick();
    machine.devices.tick();
    machine.devices.tick();
    refresh(&mut machine);
    assert_eq!(
        machine.csr(Csr::Mip) & (MIP_MSIP | MIP_MTIP),
        MIP_MSIP | MIP_MTIP
    );
    assert_eq!(
        machine.read_device(CLINT_BASE + CLINT_MTIME, 4),
        Err(MachineTrap::LoadAccessFault {
            address: CLINT_BASE + CLINT_MTIME,
            bytes: 4,
        })
    );
}

#[test]
fn linux_boot_places_images_builds_fdt_and_enters_exact_s_mode_state() {
    let mut machine = Machine::new(MachineConfig {
        ram_bytes: MIN_LINUX_RAM_BYTES,
        max_console_bytes: 64,
    })
    .expect("valid Linux machine");
    let kernel = words(&[0x0000_0073; 4]);
    let initramfs = b"070701aos-initramfs";
    let layout = machine
        .boot_linux(&kernel, initramfs, "earlycon=sbi console=ttyS0 init=/init")
        .expect("admit Linux boot");

    assert_eq!(layout.kernel_start, LINUX_KERNEL_BASE);
    assert_eq!(layout.kernel_end, LINUX_KERNEL_BASE + kernel.len() as u64);
    assert_eq!(layout.fdt_start, LINUX_FDT_BASE);
    assert!(layout.fdt_bytes > 256);
    assert_eq!(machine.pc(), LINUX_KERNEL_BASE);
    assert_eq!(machine.privilege(), Privilege::Supervisor);
    assert_eq!(machine.register(10), Some(0));
    assert_eq!(machine.register(11), Some(LINUX_FDT_BASE));
    assert_eq!(machine.csr(Csr::Satp), 0);
    assert_eq!(machine.csr(Csr::Mcounteren), 0b111);
    assert_eq!(machine.csr(Csr::Mideleg), MIDELEG_SUPPORTED);
    assert_eq!(
        machine
            .devices
            .ram_range_len(LINUX_FDT_BASE, 4)
            .and_then(|range| machine.devices.ram.copy_to_vec(range)),
        Some(vec![0xd0, 0x0d, 0xfe, 0xed])
    );
    assert_eq!(
        machine
            .devices
            .ram_range_len(layout.initrd_start.expect("initrd start"), initramfs.len())
            .and_then(|range| machine.devices.ram.copy_to_vec(range)),
        Some(initramfs.to_vec())
    );
}

#[test]
fn sbi_3_base_dbcn_time_and_reset_are_bounded_platform_services() {
    let mut machine = Machine::new(MachineConfig {
        ram_bytes: MIN_LINUX_RAM_BYTES,
        max_console_bytes: 64,
    })
    .expect("valid Linux machine");
    machine
        .boot_linux(&words(&[0x0000_0073; 5]), &[], "earlycon=sbi")
        .expect("admit Linux boot");

    machine.harts[machine.active_hart_id].cpu.registers[16] = 0;
    machine.harts[machine.active_hart_id].cpu.registers[17] = SBI_EXT_BASE;
    let base = machine.run_slice(1);
    assert_eq!(base.instructions_retired, 0);
    assert_eq!(machine.register(10), Some(SBI_SUCCESS));
    assert_eq!(machine.register(11), Some(SBI_SPEC_VERSION_3_0));

    machine.harts[machine.active_hart_id].cpu.registers[10] = SBI_EXT_AOS_9P;
    machine.harts[machine.active_hart_id].cpu.registers[16] = 3;
    machine.harts[machine.active_hart_id].cpu.registers[17] = SBI_EXT_BASE;
    assert_eq!(machine.run_slice(1).instructions_retired, 0);
    assert_eq!(machine.register(10), Some(SBI_SUCCESS));
    assert_eq!(machine.register(11), Some(1));

    let message_address = DRAM_BASE + 0x1_0000;
    assert!(machine.devices.write_ram_slice(message_address, b"LINUX"));
    machine.harts[machine.active_hart_id].cpu.registers[10] = 5;
    machine.harts[machine.active_hart_id].cpu.registers[11] = message_address;
    machine.harts[machine.active_hart_id].cpu.registers[12] = 0;
    machine.harts[machine.active_hart_id].cpu.registers[16] = 0;
    machine.harts[machine.active_hart_id].cpu.registers[17] = SBI_EXT_DBCN;
    let console = machine.run_slice(1);
    assert_eq!(console.console, b"LINUX");
    assert_eq!(machine.register(10), Some(SBI_SUCCESS));
    assert_eq!(machine.register(11), Some(5));

    let deadline = machine.csr(Csr::Time) + 10;
    machine.harts[machine.active_hart_id].cpu.registers[10] = deadline;
    machine.harts[machine.active_hart_id].cpu.registers[16] = 0;
    machine.harts[machine.active_hart_id].cpu.registers[17] = SBI_EXT_TIME;
    assert_eq!(machine.run_slice(1).instructions_retired, 0);
    assert_eq!(machine.harts[machine.active_hart_id].timer_deadline, deadline);
    assert_eq!(machine.csr(Csr::Mip) & MIP_STIP, 0);

    machine.harts[machine.active_hart_id].cpu.registers[10] = 0;
    machine.harts[machine.active_hart_id].cpu.registers[11] = 0;
    machine.harts[machine.active_hart_id].cpu.registers[16] = 0;
    machine.harts[machine.active_hart_id].cpu.registers[17] = SBI_EXT_SRST;
    assert_eq!(
        machine.run_slice(1).outcome,
        SliceOutcome::Halted(HaltStatus {
            passed: true,
            code: 0,
        })
    );
}

fn call_sbi(
    machine: &mut Machine,
    extension: u64,
    function: u64,
    arguments: [u64; 6],
) -> Option<HaltStatus> {
    machine.harts[machine.active_hart_id].cpu.registers[10..16].copy_from_slice(&arguments);
    machine.harts[machine.active_hart_id].cpu.write(16, function);
    machine.harts[machine.active_hart_id].cpu.write(17, extension);
    machine.handle_sbi_call().expect("bounded SBI call")
}

#[test]
fn sbi_hsm_ipi_rfence_and_time_drive_exact_secondary_hart_state() {
    let mut machine = Machine::new_with_harts(
        MachineConfig {
            ram_bytes: 4096,
            max_console_bytes: 64,
        },
        2,
    )
    .expect("admit two harts");
    machine
        .load_program(&words(&[
            encode_csrr(5, Csr::Mhartid),
            encode_addi(5, 10, 0),
            0x0000_0073,
        ]))
        .expect("load shared HSM probe");
    machine.firmware.enabled = true;
    let secondary_start = DRAM_BASE + 4;
    let opaque = 0xfeed_beef;

    assert_eq!(
        call_sbi(
            &mut machine,
            SBI_EXT_HSM,
            0,
            [1, secondary_start, opaque, 0, 0, 0],
        ),
        None
    );
    assert_eq!(machine.register(10), Some(SBI_SUCCESS));
    let secondary = &machine.harts[1];
    assert_eq!(secondary.lifecycle, HartLifecycle::Started);
    assert_eq!(secondary.cpu.pc, secondary_start);
    assert_eq!(secondary.cpu.privilege, Privilege::Supervisor);
    assert_eq!(secondary.cpu.registers[10], 1);
    assert_eq!(secondary.cpu.registers[11], opaque);
    assert_eq!(secondary.csrs.satp, 0);
    assert_eq!(secondary.csrs.mstatus & MSTATUS_SIE, 0);

    call_sbi(
        &mut machine,
        SBI_EXT_HSM,
        0,
        [1, secondary_start, opaque, 0, 0, 0],
    );
    assert_eq!(machine.register(10), Some(SBI_ERR_ALREADY_AVAILABLE));
    call_sbi(&mut machine, SBI_EXT_HSM, 2, [1, 0, 0, 0, 0, 0]);
    assert_eq!(machine.register(10), Some(SBI_SUCCESS));
    assert_eq!(machine.register(11), Some(SBI_HART_STATE_STARTED));

    call_sbi(&mut machine, SBI_EXT_IPI, 0, [1 << 1, 0, 0, 0, 0, 0]);
    assert_eq!(machine.register(10), Some(SBI_SUCCESS));
    assert_ne!(machine.harts[1].csrs.mip & MIP_SSIP, 0);
    call_sbi(&mut machine, SBI_EXT_IPI, 0, [1 << 2, 0, 0, 0, 0, 0]);
    assert_eq!(machine.register(10), Some(SBI_ERR_INVALID_PARAM));

    let context = TranslationContext {
        satp: 0,
        permission_context: 0,
        privilege: Privilege::Supervisor,
        access: AccessType::Instruction,
    };
    machine.harts[1]
        .translation_cache
        .insert(DRAM_BASE, DRAM_BASE, context);
    call_sbi(
        &mut machine,
        SBI_EXT_RFENCE,
        1,
        [1 << 1, 0, DRAM_BASE, 4096, 0, 0],
    );
    assert_eq!(machine.register(10), Some(SBI_SUCCESS));
    assert_eq!(
        machine.harts[1]
            .translation_cache
            .lookup(DRAM_BASE, context),
        None
    );
    call_sbi(&mut machine, SBI_EXT_RFENCE, 3, [1 << 1, 0, 0, 0, 0, 0]);
    assert_eq!(machine.register(10), Some(SBI_ERR_NOT_SUPPORTED));

    machine.scheduler_quantum_remaining = 0;
    assert_eq!(machine.run_slice(1).instructions_retired, 1);
    assert_eq!(machine.active_hart_id(), 1);
    assert_eq!(machine.register(5), Some(1));
    call_sbi(&mut machine, SBI_EXT_TIME, 0, [77, 0, 0, 0, 0, 0]);
    assert_eq!(machine.harts[machine.active_hart_id].timer_deadline, 77);
    machine.harts[machine.active_hart_id].cpu.write(16, 1);
    machine.harts[machine.active_hart_id].cpu.write(17, SBI_EXT_HSM);
    assert_eq!(machine.run_slice(1).instructions_retired, 0);
    assert_eq!(machine.harts[machine.active_hart_id].lifecycle, HartLifecycle::Stopped);

    assert_eq!(machine.run_slice(1).instructions_retired, 1);
    assert_eq!(machine.active_hart_id(), 0);
    call_sbi(&mut machine, SBI_EXT_HSM, 2, [1, 0, 0, 0, 0, 0]);
    assert_eq!(machine.register(10), Some(SBI_SUCCESS));
    assert_eq!(machine.register(11), Some(SBI_HART_STATE_STOPPED));
    assert_eq!(machine.harts[1].timer_deadline, 77);

    call_sbi(&mut machine, SBI_EXT_HSM, 0, [1, DRAM_BASE + 1, 0, 0, 0, 0]);
    assert_eq!(machine.register(10), Some(SBI_ERR_INVALID_ADDRESS));
    call_sbi(
        &mut machine,
        SBI_EXT_HSM,
        0,
        [2, secondary_start, 0, 0, 0, 0],
    );
    assert_eq!(machine.register(10), Some(SBI_ERR_INVALID_PARAM));
    call_sbi(
        &mut machine,
        SBI_EXT_HSM,
        0,
        [1, secondary_start, 0xcafe, 0, 0, 0],
    );
    assert_eq!(machine.register(10), Some(SBI_SUCCESS));
    let restarted = &machine.harts[1];
    assert_eq!(restarted.lifecycle, HartLifecycle::Started);
    assert_eq!(restarted.cpu.registers[11], 0xcafe);
    assert_eq!(restarted.timer_deadline, u64::MAX);
    assert_eq!(restarted.csrs.mip & MIP_SSIP, 0);
}

#[test]
fn sbi_9p_exchange_pauses_until_the_exact_bounded_response_arrives() {
    let mut machine = Machine::new(MachineConfig {
        ram_bytes: MIN_LINUX_RAM_BYTES,
        max_console_bytes: 64,
    })
    .expect("valid Linux machine");
    let mut kernel = halfwords(&[0x0001]); // c.nop
    kernel.extend_from_slice(&words(&[0x0000_0073; 2]));
    machine
        .boot_linux(&kernel, &[], "earlycon=sbi")
        .expect("admit Linux boot");

    let request_address = DRAM_BASE + 0x1_0000;
    let response_address = DRAM_BASE + 0x1_1000;
    let request = [7, 0, 0, 0, 100, 1, 0];
    let response = [7, 0, 0, 0, 101, 1, 0];
    assert!(machine.devices.write_ram_slice(request_address, &request));
    machine.harts[machine.active_hart_id].cpu.registers[10] = request_address;
    machine.harts[machine.active_hart_id].cpu.registers[11] = request.len() as u64;
    machine.harts[machine.active_hart_id].cpu.registers[12] = response_address;
    machine.harts[machine.active_hart_id].cpu.registers[13] = 32;
    machine.harts[machine.active_hart_id].cpu.registers[14] = 7;
    machine.harts[machine.active_hart_id].cpu.registers[15] = 0;
    machine.harts[machine.active_hart_id].cpu.registers[16] = 0;
    machine.harts[machine.active_hart_id].cpu.registers[17] = SBI_EXT_AOS_9P;

    let first = machine.run_slice(10);
    let SliceOutcome::HostRequest(host_request) = first.outcome.clone() else {
        panic!("expected 9P host request, got {:?}", first.outcome);
    };
    assert_eq!(first.steps_executed, 2);
    assert_eq!(first.instructions_retired, 1);
    assert_eq!(host_request.message, request);
    assert_eq!(host_request.channel, 7);
    assert_eq!(host_request.max_response_bytes, 32);
    assert_eq!(machine.pc(), LINUX_KERNEL_BASE + 6);

    let repeated = machine.run_slice(10);
    assert_eq!(repeated.outcome, first.outcome);
    assert_eq!(repeated.steps_executed, 0);
    assert_eq!(repeated.total_steps_executed, first.total_steps_executed);
    assert_eq!(machine.pc(), LINUX_KERNEL_BASE + 6);
    machine.harts[machine.active_hart_id].cpu.write_float32(3, (-3.5_f32).to_bits());
    machine.harts[machine.active_hart_id].cpu.write_float64(4, 13.25_f64.to_bits());
    machine.harts[machine.active_hart_id].csrs.mstatus = (machine.harts[machine.active_hart_id].csrs.mstatus & !MSTATUS_FS) | MSTATUS_FS_DIRTY;
    machine.harts[machine.active_hart_id].csrs.fcsr = (3 << FRM_SHIFT) | FFLAGS_DZ | FFLAGS_NX;

    let checkpoint = machine
        .checkpoint_host_suspension()
        .expect("drained host suspension is checkpointable");
    assert_eq!(checkpoint.ram_bytes(), MIN_LINUX_RAM_BYTES);
    assert_eq!(checkpoint.pending_host_request(), &host_request);
    let binding = CheckpointBinding::new(
        CheckpointDigest::new([0x11; 32]),
        CheckpointDigest::new([0x22; 32]),
    );
    let encoded = checkpoint.encode(binding);
    assert!(encoded.len() < 128 * 1024, "zero RAM pages remain sparse");
    let decoded = MachineCheckpoint::decode(&encoded, binding).expect("decode checkpoint");
    assert_eq!(
        decoded.encode(binding),
        encoded,
        "decoded checkpoints must retain one canonical byte encoding"
    );
    let mut restored = decoded.into_machine();
    assert_eq!(restored.run_slice(10).outcome, first.outcome);
    assert_eq!(
        restored.physical_ram(LINUX_KERNEL_BASE + 6, 4),
        Some(0x0000_0073_u32.to_le_bytes().as_slice())
    );
    assert_eq!(restored.pc(), LINUX_KERNEL_BASE + 6);
    assert_eq!(restored.privilege(), Privilege::Supervisor);
    assert_eq!(restored.harts[restored.active_hart_id].cpu.read_float32(3), (-3.5_f32).to_bits());
    assert_eq!(restored.harts[restored.active_hart_id].cpu.read_float64(4), 13.25_f64.to_bits());
    assert_eq!(restored.harts[restored.active_hart_id].csrs.fcsr, (3 << FRM_SHIFT) | FFLAGS_DZ | FFLAGS_NX);
    assert_eq!(restored.harts[restored.active_hart_id].csrs.mstatus & MSTATUS_FS, MSTATUS_FS_DIRTY);

    let wrong_binding = CheckpointBinding::new(
        CheckpointDigest::new([0x33; 32]),
        CheckpointDigest::new([0x22; 32]),
    );
    assert!(matches!(
        MachineCheckpoint::decode(&encoded, wrong_binding),
        Err(CheckpointDecodeError::BindingMismatch)
    ));
    let mut corrupted = encoded.clone();
    let last = corrupted.last_mut().expect("encoded checkpoint digest");
    *last ^= 1;
    assert!(matches!(
        MachineCheckpoint::decode(&corrupted, binding),
        Err(CheckpointDecodeError::IntegrityMismatch)
    ));

    machine.push_console_input(b"principal-input");
    assert!(matches!(
        machine.checkpoint_host_suspension(),
        Err(CheckpointError::PendingConsoleInput { bytes: 15 })
    ));
    machine.devices.console_input.clear();
    machine
        .devices
        .push_console_output(b'X')
        .expect("test console byte");
    assert!(matches!(
        machine.checkpoint_host_suspension(),
        Err(CheckpointError::UndrainedConsoleOutput { bytes: 1 })
    ));
    assert_eq!(machine.devices.take_new_console(), b"X");
    machine.hart_controls[0].raise_interrupt(MIP_SSIP);
    assert!(matches!(
        machine.checkpoint_host_suspension(),
        Err(CheckpointError::PendingHartControl { hart_id: 0 })
    ));
    assert!(machine.apply_hart_control(0));

    assert_eq!(
        machine.complete_9p_request(HostRequestId(host_request.id.get() + 1), &response),
        Err(HostCompletionError::RequestIdMismatch {
            expected: host_request.id,
            actual: HostRequestId(host_request.id.get() + 1),
        })
    );
    assert_eq!(
        machine.complete_9p_request(host_request.id, &[0; 6]),
        Err(HostCompletionError::InvalidResponseBytes(6))
    );
    assert_eq!(
        machine.complete_9p_request(host_request.id, &[0; 33]),
        Err(HostCompletionError::ResponseTooLarge {
            response: 33,
            capacity: 32,
        })
    );

    machine
        .complete_9p_request(host_request.id, &response)
        .expect("complete admitted 9P request");
    assert_eq!(machine.register(10), Some(SBI_SUCCESS));
    assert_eq!(machine.register(11), Some(response.len() as u64));
    assert_eq!(
        machine.physical_ram(response_address, response.len()),
        Some(response.as_slice())
    );
    assert_eq!(
        machine.complete_9p_request(host_request.id, &response),
        Err(HostCompletionError::NoPendingRequest)
    );

    machine.harts[machine.active_hart_id].cpu.registers[16] = 0;
    machine.harts[machine.active_hart_id].cpu.registers[17] = SBI_EXT_BASE;
    let resumed = machine.run_slice(1);
    assert_eq!(resumed.outcome, SliceOutcome::Yielded);
    assert_eq!(resumed.steps_executed, 1);
    assert_eq!(machine.register(11), Some(SBI_SPEC_VERSION_3_0));

    restored
        .complete_9p_request(host_request.id, &response)
        .expect("restored machine independently completes its host request");
    restored.harts[restored.active_hart_id].cpu.registers[16] = 0;
    restored.harts[restored.active_hart_id].cpu.registers[17] = SBI_EXT_BASE;
    let restored_resumed = restored.run_slice(1);
    assert_eq!(restored_resumed, resumed);
    assert_eq!(restored.register(11), Some(SBI_SPEC_VERSION_3_0));
}

#[test]
fn prewarm_checkpoint_rejects_unstable_or_principal_bearing_state() {
    let mut machine = machine(64);
    machine
        .load_program(&RV64_SMOKE_PROGRAM)
        .expect("load smoke program");
    assert!(matches!(
        machine.checkpoint_host_suspension(),
        Err(CheckpointError::NoPendingHostRequest)
    ));

    let halted = machine.run_slice(64);
    assert!(matches!(halted.outcome, SliceOutcome::Halted(_)));
    assert!(matches!(
        machine.checkpoint_host_suspension(),
        Err(CheckpointError::NotRunnable)
    ));
}

#[test]
fn multi_hart_9p_completion_returns_only_to_the_requesting_hart() {
    let mut machine = Machine::new_with_harts(
        MachineConfig {
            ram_bytes: 4096,
            max_console_bytes: 64,
        },
        2,
    )
    .expect("admit two harts");
    assert!(machine.set_hart_lifecycle(1, HartLifecycle::Started));
    assert!(machine.switch_active_hart(1));
    let request_address = DRAM_BASE + 0x100;
    let response_address = DRAM_BASE + 0x200;
    let request = [7, 0, 0, 0, 100, 1, 0];
    let response = [7, 0, 0, 0, 101, 1, 0];
    assert!(machine.devices.write_ram_slice(request_address, &request));
    machine.harts[machine.active_hart_id].cpu.registers[10..16].copy_from_slice(&[
        request_address,
        request.len() as u64,
        response_address,
        32,
        1,
        0,
    ]);
    machine.harts[machine.active_hart_id].cpu.write(16, 0);
    machine.harts[machine.active_hart_id].cpu.write(17, SBI_EXT_AOS_9P);
    assert_eq!(machine.handle_sbi_call().expect("9P SBI call"), None);
    let request_id = machine
        .pending_9p_request
        .as_ref()
        .expect("pending request")
        .request
        .id;
    assert!(machine.switch_active_hart(0));
    machine.harts[machine.active_hart_id].cpu.write(10, 0xdead);
    machine.firmware.enabled = true;

    let checkpoint = machine
        .checkpoint_host_suspension()
        .expect("multi-hart host suspension is checkpointable");
    let binding = CheckpointBinding::new(
        CheckpointDigest::new([0x44; 32]),
        CheckpointDigest::new([0x55; 32]),
    );
    let encoded = checkpoint.encode(binding);
    let decoded =
        MachineCheckpoint::decode(&encoded, binding).expect("decode multi-hart checkpoint");
    assert_eq!(
        decoded.encode(binding),
        encoded,
        "per-hart state ownership must not alter the durable format"
    );
    let mut restored = decoded.into_machine();
    assert_eq!(restored.hart_count(), 2);
    assert_eq!(restored.active_hart_id(), 0);
    assert_eq!(
        restored
            .pending_9p_request
            .as_ref()
            .expect("restored request")
            .hart_id,
        1
    );

    machine
        .complete_9p_request(request_id, &response)
        .expect("complete requesting hart");
    restored
        .complete_9p_request(request_id, &response)
        .expect("complete restored requesting hart");

    assert_eq!(machine.active_hart_id(), 1);
    assert_eq!(machine.register(10), Some(SBI_SUCCESS));
    assert_eq!(machine.register(11), Some(response.len() as u64));
    assert_eq!(machine.harts[0].cpu.registers[10], 0xdead);
    assert_eq!(restored.active_hart_id(), machine.active_hart_id());
    assert_eq!(restored.register(10), machine.register(10));
    assert_eq!(restored.harts[0].cpu.registers[10], 0xdead);
}

#[test]
fn sbi_9p_exchange_rejects_unadmitted_buffers_and_reload_invalidates_waiter() {
    let mut machine = Machine::new(MachineConfig {
        ram_bytes: MIN_LINUX_RAM_BYTES,
        max_console_bytes: 64,
    })
    .expect("valid Linux machine");
    let kernel = words(&[0x0000_0073; 3]);
    machine
        .boot_linux(&kernel, &[], "earlycon=sbi")
        .expect("admit Linux boot");
    let request_address = DRAM_BASE + 0x1_0000;
    let response_address = DRAM_BASE + 0x1_1000;
    let request = [7, 0, 0, 0, 100, 1, 0];
    assert!(machine.devices.write_ram_slice(request_address, &request));

    machine.harts[machine.active_hart_id].cpu.registers[10] = request_address;
    machine.harts[machine.active_hart_id].cpu.registers[11] = 6;
    machine.harts[machine.active_hart_id].cpu.registers[12] = response_address;
    machine.harts[machine.active_hart_id].cpu.registers[13] = 32;
    machine.harts[machine.active_hart_id].cpu.registers[14] = 1;
    machine.harts[machine.active_hart_id].cpu.registers[16] = 0;
    machine.harts[machine.active_hart_id].cpu.registers[17] = SBI_EXT_AOS_9P;
    assert_eq!(machine.run_slice(1).outcome, SliceOutcome::Yielded);
    assert_eq!(machine.register(10), Some(SBI_ERR_INVALID_PARAM));

    machine.harts[machine.active_hart_id].cpu.registers[10] = request_address;
    machine.harts[machine.active_hart_id].cpu.registers[11] = request.len() as u64;
    machine.harts[machine.active_hart_id].cpu.registers[12] = DRAM_BASE + MIN_LINUX_RAM_BYTES as u64;
    machine.harts[machine.active_hart_id].cpu.registers[13] = 32;
    assert_eq!(machine.run_slice(1).outcome, SliceOutcome::Yielded);
    assert_eq!(machine.register(10), Some(SBI_ERR_INVALID_ADDRESS));

    machine.harts[machine.active_hart_id].cpu.registers[10] = request_address;
    machine.harts[machine.active_hart_id].cpu.registers[11] = request.len() as u64;
    machine.harts[machine.active_hart_id].cpu.registers[12] = response_address;
    let SliceOutcome::HostRequest(first) = machine.run_slice(1).outcome else {
        panic!("expected admitted host request");
    };
    machine
        .boot_linux(&kernel, &[], "earlycon=sbi")
        .expect("replace Linux guest");
    assert_eq!(
        machine.fail_9p_request(first.id, HostRequestFailure::Failed),
        Err(HostCompletionError::NoPendingRequest)
    );

    assert!(machine.devices.write_ram_slice(request_address, &request));
    machine.harts[machine.active_hart_id].cpu.registers[10] = request_address;
    machine.harts[machine.active_hart_id].cpu.registers[11] = request.len() as u64;
    machine.harts[machine.active_hart_id].cpu.registers[12] = response_address;
    machine.harts[machine.active_hart_id].cpu.registers[13] = 32;
    machine.harts[machine.active_hart_id].cpu.registers[14] = 1;
    machine.harts[machine.active_hart_id].cpu.registers[16] = 0;
    machine.harts[machine.active_hart_id].cpu.registers[17] = SBI_EXT_AOS_9P;
    let SliceOutcome::HostRequest(replacement) = machine.run_slice(1).outcome else {
        panic!("expected replacement host request");
    };
    assert_ne!(replacement.id, first.id);
    machine
        .fail_9p_request(replacement.id, HostRequestFailure::Denied)
        .expect("deny current request");
    assert_eq!(machine.register(10), Some(SBI_ERR_DENIED));
    assert_eq!(machine.register(11), Some(0));
}

#[test]
fn linux_boot_admission_rejects_small_ram_oversize_images_and_bootargs() {
    let mut small = machine(8);
    assert!(matches!(
        small.boot_linux(&[1], &[], ""),
        Err(MachineError::InvalidLinuxImages { .. })
    ));
    let mut admitted = Machine::new(MachineConfig {
        ram_bytes: MIN_LINUX_RAM_BYTES,
        max_console_bytes: 8,
    })
    .expect("valid Linux machine");
    assert_eq!(
        admitted.boot_linux(&[1], &[], &"x".repeat(MAX_BOOTARGS_BYTES + 1)),
        Err(MachineError::InvalidBootArgsBytes(MAX_BOOTARGS_BYTES + 1))
    );
    assert!(matches!(
        admitted.boot_linux(&vec![0; MIN_LINUX_RAM_BYTES], &[], ""),
        Err(MachineError::InvalidLinuxImages { .. })
    ));
}
