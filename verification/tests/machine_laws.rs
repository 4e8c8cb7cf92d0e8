use aos_realm::atomic_ram::{AtomicGuestRam, AtomicRamChunk};
use aos_realm::codec::{CheckpointBinding, CheckpointDecodeError, CheckpointDigest};
use aos_realm::devices::Devices;
use aos_realm::hart::{HartControl, HartLifecycle};
use aos_realm::isa::{AccessType, Csr, MachineTrap, Privilege, MIP_SSIP};
use aos_realm::machine::{refused_shape, Machine, MachineCheckpoint, SliceOutcome};
use aos_realm::platform::{
    CheckpointError, HostCompletionError, HostRequestFailure, InvalidHartId, MachineConfig,
    MachineError, DRAM_BASE, SBI_ERR_FAILED, SBI_EXT_AOS_9P, UART_BASE,
};
use aos_realm::programs::{
    encode_addi, encode_csrr, encode_putc, encode_store, RV64_SMOKE_PROGRAM,
    RV64_SUPERVISOR_PROGRAM,
};
use aos_realm::ram::{chunk_count, GuestRam, RAM_CHUNK_BYTES};

fn machine(harts: usize) -> Machine {
    Machine::new_with_harts(
        MachineConfig {
            ram_bytes: 8192,
            max_console_bytes: 64,
        },
        harts,
    )
    .expect("valid machine")
}

fn binding(image: u8) -> CheckpointBinding {
    CheckpointBinding::new(
        CheckpointDigest::new([image; 32]),
        CheckpointDigest::new([0x22; 32]),
    )
}

/// A machine that waits for the answer to a request of seven bytes.
fn suspended() -> Machine {
    let mut machine = machine(1);
    machine.firmware.enabled = true;
    let request = [7, 0, 0, 0, 100, 1, 0];
    assert!(machine.devices.write_ram_slice(DRAM_BASE + 0x100, &request));
    for (register, value) in [
        (10, DRAM_BASE + 0x100),
        (11, 7),
        (12, DRAM_BASE + 0x200),
        (13, 32),
        (14, 3),
        (15, 0),
        (16, 0),
        (17, SBI_EXT_AOS_9P),
    ] {
        machine.harts[0].cpu.write(register, value);
    }
    assert_eq!(machine.handle_sbi_call(), Ok(None));
    machine
}

#[test]
fn slices_stay_within_their_budget_and_add_up() {
    for cut in 0..32_u64 {
        let mut whole = machine(1);
        whole.load_program(&RV64_SUPERVISOR_PROGRAM).expect("load");
        let mut parts = whole.duplicate();
        let all = whole.run_slice(40);
        let first = parts.run_slice(cut);
        let second = parts.run_slice(40 - cut);
        assert!(first.steps_executed <= cut);
        assert_eq!(first.steps_executed + second.steps_executed, all.steps_executed);
        assert_eq!(second.total_steps_executed, all.total_steps_executed);
        assert_eq!([first.console, second.console].concat(), all.console);
        assert_eq!(second.outcome, all.outcome);
        assert_eq!(parts.pc(), whole.pc());
    }
}

#[test]
fn stopped_machines_stay_put() {
    let mut machine = machine(1);
    machine.load_program(&RV64_SMOKE_PROGRAM).expect("load");
    let halted = machine.run_slice(100);
    assert!(matches!(halted.outcome, SliceOutcome::Halted(_)));
    let pc = machine.pc();
    let again = machine.run_slice(100);
    assert_eq!(again.outcome, halted.outcome);
    assert_eq!(again.steps_executed, 0);
    assert_eq!(machine.pc(), pc);
}

#[test]
fn start_mailbox_has_one_winner() {
    let mut control = HartControl::new(HartLifecycle::Stopped);
    assert_eq!(control.pending_start(), None);
    let generation = control.request_start(DRAM_BASE, 7).expect("first claimant");
    for worker in 1..8 {
        assert!(control.request_start(DRAM_BASE + worker * 2, worker).is_err());
    }
    assert_eq!(control.pending_start(), Some((DRAM_BASE, 7, generation)));
    assert!(!control.is_quiescent());
    control.acknowledge_start(generation);
    assert_eq!(control.lifecycle(), HartLifecycle::Started);
    assert!(control.is_quiescent());
    control.stop();
    assert_eq!(control.lifecycle(), HartLifecycle::Stopped);
}

#[test]
fn interrupt_and_fence_mailboxes_coalesce() {
    let mut control = HartControl::new(HartLifecycle::Started);
    let mut generations = Vec::new();
    for worker in 0..8_u32 {
        control.raise_interrupt(1_u64 << worker);
        generations.push(control.request_fence());
    }
    assert_eq!(generations, (1..=8).collect::<Vec<_>>());
    assert_eq!(control.take_interrupts(), 0xff);
    assert_eq!(control.take_interrupts(), 0);
    assert_eq!(control.pending_fence(), Some(8));
    assert!(!control.is_quiescent());
    control.acknowledge_fence(8);
    assert!(control.is_quiescent());
}

#[test]
fn hart_control_reaches_the_hart() {
    let mut machine = machine(2);
    machine.hart_controls[1].raise_interrupt(MIP_SSIP);
    let _ = machine.hart_controls[1].request_start(DRAM_BASE + 8, 5);
    assert!(machine.apply_hart_control(1));
    assert_eq!(machine.hart_lifecycle(1), Some(HartLifecycle::Started));
    assert_eq!(machine.harts[1].cpu.pc, DRAM_BASE + 8);
    assert_eq!(machine.harts[1].cpu.registers[11], 5);
    assert_eq!(machine.hart_lifecycle(2), None);
    assert!(!machine.set_hart_lifecycle(2, HartLifecycle::Started));
    assert!(!machine.switch_active_hart(2));
    assert_eq!(
        machine.run_hart_slice(9, 1),
        Err(InvalidHartId {
            hart_id: 9,
            hart_count: 2
        })
    );
}

#[test]
fn bare_addresses_are_physical() {
    let mut machine = machine(1);
    machine.harts[0].cpu.privilege = Privilege::Supervisor;
    for address in [0, DRAM_BASE, u64::MAX] {
        assert_eq!(machine.translate(address, AccessType::Load), Ok(address));
    }
    assert_eq!(
        machine.load(0x1234, 4, true),
        Err(MachineTrap::LoadAccessFault {
            address: 0x1234,
            bytes: 4
        })
    );
    assert_eq!(machine.store(UART_BASE, u64::from(b'x'), 1, true), Ok(None));
    assert_eq!(machine.devices.take_new_console(), b"x");
}

#[test]
fn loads_give_back_stores_and_others_stay() {
    let mut ram = GuestRam::zeroed(4096).expect("RAM");
    assert!(ram.write_value(16, 0x1122_3344_5566_7788, 8));
    assert!(ram.write_value(24, 0xaabb, 2));
    assert_eq!(ram.read_value(16, 8), Some(0x1122_3344_5566_7788));
    assert_eq!(ram.read_value(24, 2), Some(0xaabb));
    assert_eq!(ram.read_value(20, 4), Some(0x1122_3344));
    assert!(!ram.write_value(18, 1, 4));
    assert!(!ram.write_value(4094, 1, 4));
    assert_eq!(ram.slice(16..20), Some([0x88, 0x77, 0x66, 0x55].as_slice()));
    assert_eq!(ram.slice(4096..4097), None);
    assert!(ram.write_page(0, 4096, &[3; 4096]));
    assert!(!ram.write_page(1, 4096, &[3; 4096]));
    assert!(!ram.write_page(0, 4096, &[3; 4]));
}

#[test]
fn reading_a_csr_changes_nothing_else() {
    let mut machine = machine(1);
    machine
        .load_program(&encode_csrr(5, Csr::Mstatus).to_le_bytes())
        .expect("load");
    let status = machine.csr(Csr::Mstatus);
    assert_eq!(machine.run_slice(1).instructions_retired, 1);
    assert_eq!(machine.csr(Csr::Mstatus), status);
    assert_eq!(machine.register(5), Some(status));
    assert_eq!(machine.register(32), None);
}

#[test]
fn encoders_give_the_listing() {
    assert_eq!(encode_addi(5, 0, 42), 0x02a0_0293);
    assert_eq!(encode_store(5, 6, 4, 2), 0x0062_a223);
    let [load, store] = encode_putc(b'A');
    assert_eq!(RV64_SMOKE_PROGRAM[4..8], load.to_le_bytes());
    assert_eq!(RV64_SMOKE_PROGRAM[8..12], store.to_le_bytes());
}

#[test]
fn completions_deliver_and_go_stale() {
    let mut machine = suspended();
    let id = machine.pending_9p_request.as_ref().expect("pending").request.id;
    let response = [7, 0, 0, 0, 101, 1, 0];
    assert_eq!(machine.complete_9p_request(id, &response), Ok(()));
    assert_eq!(
        machine.devices.ram.copy_to_vec(0x200..0x207),
        Some(response.to_vec())
    );
    assert_eq!(
        machine.complete_9p_request(id, &response),
        Err(HostCompletionError::NoPendingRequest)
    );

    let mut failed = suspended();
    let id = failed.pending_9p_request.as_ref().expect("pending").request.id;
    assert_eq!(failed.fail_9p_request(id, HostRequestFailure::Failed), Ok(()));
    assert_eq!(failed.register(10), Some(SBI_ERR_FAILED));

    let mut moved = suspended();
    if let Some(pending) = &mut moved.pending_9p_request {
        pending.response_address = DRAM_BASE + 8190;
    }
    assert_eq!(
        moved.complete_9p_request(id, &response),
        Err(HostCompletionError::ResponseAddressUnavailable)
    );
    if let Some(pending) = &mut moved.pending_9p_request {
        pending.hart_id = 4;
    }
    assert_eq!(
        moved.complete_9p_request(id, &response),
        Err(HostCompletionError::RequestHartUnavailable { hart_id: 4 })
    );
}

#[test]
fn checkpoints_round_trip_and_are_canonical() {
    let mut machine = suspended();
    machine.harts[0].cpu.write(5, 0x1234);
    machine.harts[0].reservation = Some((DRAM_BASE + 8, 8));
    let checkpoint = machine.checkpoint_host_suspension().expect("checkpoint");
    assert_eq!(checkpoint.hart_count(), 1);
    assert_eq!(checkpoint.max_console_bytes(), 64);
    let bytes = checkpoint.encode(binding(1));
    let decoded = MachineCheckpoint::decode(&bytes, binding(1)).expect("decode");
    assert_eq!(decoded.encode(binding(1)), bytes);
    let restored = decoded.restore();
    assert_eq!(restored.register(5), Some(0x1234));
    assert_eq!(restored.harts[0].reservation, Some((DRAM_BASE + 8, 8)));
    assert_eq!(
        MachineCheckpoint::decode(&bytes, binding(9)).err(),
        Some(CheckpointDecodeError::BindingMismatch)
    );
}

#[test]
fn decoding_keeps_the_topology() {
    let config = MachineConfig {
        ram_bytes: 8192,
        max_console_bytes: 64,
    };
    let mut machine = Machine::new_with_harts(config, 2).expect("two harts");
    machine.firmware.enabled = true;
    machine.pending_9p_request = suspended().pending_9p_request;
    machine.next_host_request_id = 2;
    let checkpoint = machine.checkpoint_host_suspension().expect("checkpoint");
    let bytes = checkpoint.encode(binding(1));
    let decoded = MachineCheckpoint::decode(&bytes, binding(1)).expect("decode");
    assert_eq!(decoded.hart_count(), 2);
    assert_eq!(decoded.max_console_bytes(), 64);
    assert_eq!(decoded.into_machine().active_hart_id(), 0);
    assert_eq!(
        MachineCheckpoint::decode(&bytes, binding(2)).err(),
        Some(CheckpointDecodeError::BindingMismatch)
    );
}

#[test]
fn the_digest_is_blake3_of_the_payload() {
    let checkpoint = suspended().checkpoint_host_suspension().expect("checkpoint");
    let bytes = checkpoint.encode(binding(1));
    let (payload, digest) = bytes.split_at(bytes.len() - 32);
    assert_eq!(digest, blake3::hash(payload).as_bytes());
    assert_eq!(
        CheckpointDigest::hash(payload).as_bytes(),
        blake3::hash(payload).as_bytes()
    );
}

fn resealed(payload: &[u8]) -> Vec<u8> {
    let mut bytes = payload.to_vec();
    bytes.extend_from_slice(blake3::hash(payload).as_bytes());
    bytes
}

#[test]
fn every_decode_error_has_an_input() {
    let checkpoint = suspended().checkpoint_host_suspension().expect("checkpoint");
    let payload = checkpoint.encode_payload(binding(1));
    let refuse = |bytes: &[u8]| MachineCheckpoint::decode(bytes, binding(1)).err();

    assert_eq!(refuse(&[]), Some(CheckpointDecodeError::Truncated));
    let mut flipped = checkpoint.encode(binding(1));
    flipped[0] ^= 1;
    assert_eq!(refuse(&flipped), Some(CheckpointDecodeError::IntegrityMismatch));

    let mut magic = payload.clone();
    magic[0] ^= 1;
    assert_eq!(refuse(&resealed(&magic)), Some(CheckpointDecodeError::InvalidMagic));

    let mut other = payload.clone();
    other[8] = 9;
    assert_eq!(
        refuse(&resealed(&other)),
        Some(CheckpointDecodeError::UnsupportedVersion(9))
    );

    let model = payload
        .windows(8)
        .position(|window| window == b"aos-rv64")
        .expect("model field");
    let mut foreign = payload.clone();
    foreign[model] = b'x';
    assert_eq!(
        refuse(&resealed(&foreign)),
        Some(CheckpointDecodeError::MachineModelMismatch)
    );

    assert_eq!(
        refuse(&resealed(&payload[..payload.len() - 1])),
        Some(CheckpointDecodeError::Truncated)
    );
    let mut longer = payload.clone();
    longer.push(0);
    assert_eq!(refuse(&resealed(&longer)), Some(CheckpointDecodeError::TrailingBytes));

    let mut machine = suspended();
    machine.harts[0].cpu.pc = DRAM_BASE + 1;
    let odd = machine.checkpoint_host_suspension().expect("checkpoint").encode(binding(1));
    assert_eq!(
        refuse(&odd),
        Some(CheckpointDecodeError::InvalidField("program counter"))
    );
    let mut machine = suspended();
    machine.config.ram_bytes = 8193;
    let odd = machine.checkpoint_host_suspension().expect("checkpoint").encode(binding(1));
    assert_eq!(
        refuse(&odd),
        Some(CheckpointDecodeError::Machine(MachineError::InvalidRamBytes(8193)))
    );
}

#[test]
fn messages_name_the_cause() {
    assert_eq!(
        MachineError::InvalidRamBytes(17).message(),
        "guest RAM must be 4 KiB aligned and between 4096 and 3221225472 bytes, got 17"
    );
    assert_eq!(
        MachineError::InvalidHartCount(65).message(),
        "guest hart count must be between 1 and 64, got 65"
    );
    assert_eq!(
        CheckpointError::PendingConsoleInput { bytes: 15 }.message(),
        "prewarm checkpoint contains 15 bytes of principal console input"
    );
    assert_eq!(
        MachineTrap::LoadPageFault { address: 0x1_00ff }.message(),
        format!("load page fault at {:#x}", 0x1_00ff)
    );
    assert_eq!(
        MachineTrap::ConsoleLimit { limit: 9 }.message(),
        "console output exceeded 9 bytes"
    );
    assert_eq!(
        CheckpointDecodeError::InvalidField("reservation").message(),
        "machine checkpoint contains invalid reservation"
    );
    assert_eq!(
        InvalidHartId { hart_id: 3, hart_count: 2 }.message(),
        "guest hart 3 is outside the admitted topology of 2 harts"
    );
    assert_eq!(
        HostCompletionError::ResponseTooLarge { response: 33, capacity: 32 }.message(),
        "9P response is 33 bytes but guest admitted 32 bytes"
    );
}

#[test]
fn totals_grow_by_what_slices_report() {
    let mut machine = machine(1);
    machine.load_program(&RV64_SUPERVISOR_PROGRAM).expect("load");
    let mut steps = 0;
    let mut retired = 0;
    for budget in [3, 0, 5, 2] {
        let report = machine.run_slice(budget);
        steps += report.steps_executed;
        retired += report.instructions_retired;
        assert_eq!(report.total_steps_executed, steps);
        assert_eq!(report.total_instructions_retired, retired);
        assert_eq!(machine.config.ram_bytes, 8192);
    }
    machine.steps_executed = u64::MAX;
    assert_eq!(machine.run_slice(1).total_steps_executed, u64::MAX);
}

#[test]
fn request_numbers_are_given_out_once() {
    let mut machine = suspended();
    let first = machine.pending_9p_request.as_ref().expect("pending").request.id;
    assert_eq!(first.get() + 1, machine.next_host_request_id);
    assert_eq!(machine.fail_9p_request(first, HostRequestFailure::Denied), Ok(()));
    assert_eq!(first.get() + 1, machine.next_host_request_id);
    for (register, value) in [
        (10, DRAM_BASE + 0x100),
        (11, 7),
        (12, DRAM_BASE + 0x200),
        (13, 32),
        (14, 3),
        (17, SBI_EXT_AOS_9P),
    ] {
        machine.harts[0].cpu.write(register, value);
    }
    assert_eq!(machine.handle_sbi_call(), Ok(None));
    let second = machine.pending_9p_request.as_ref().expect("pending").request.id;
    assert_eq!(second.get(), first.get() + 1);
}

#[test]
fn reloading_gives_a_request_up() {
    let mut machine = suspended();
    let id = machine.pending_9p_request.as_ref().expect("pending").request.id;
    let next = machine.next_host_request_id;
    machine.load_program(&RV64_SMOKE_PROGRAM).expect("load");
    assert_eq!(machine.next_host_request_id, next);
    assert_eq!(
        machine.complete_9p_request(id, &[7, 0, 0, 0, 101, 1, 0]),
        Err(HostCompletionError::NoPendingRequest)
    );
    for (register, value) in [
        (10, DRAM_BASE + 0x100),
        (11, 7),
        (12, DRAM_BASE + 0x200),
        (13, 32),
        (14, 3),
        (17, SBI_EXT_AOS_9P),
    ] {
        machine.harts[0].cpu.write(register, value);
    }
    assert_eq!(machine.handle_sbi_call(), Ok(None));
    let actual = id;
    let expected = machine.pending_9p_request.as_ref().expect("pending").request.id;
    assert_eq!(
        machine.complete_9p_request(actual, &[7, 0, 0, 0, 101, 1, 0]),
        Err(HostCompletionError::RequestIdMismatch { expected, actual })
    );
}

#[test]
fn printed_bytes_are_handed_over_once() {
    let mut machine = machine(1);
    machine.load_program(&RV64_SMOKE_PROGRAM).expect("load");
    let mut printed = Vec::new();
    loop {
        let report = machine.run_slice(3);
        assert!(report.console.len() <= 64);
        printed.extend(report.console);
        if report.outcome != SliceOutcome::Yielded {
            break;
        }
    }
    assert_eq!(printed, b"AOS RV64\n");
    assert!(machine.run_slice(3).console.is_empty());
}

#[test]
fn answers_write_their_bytes_alone() {
    let mut failed = suspended();
    let id = failed.pending_9p_request.as_ref().expect("pending").request.id;
    let before = failed.devices.ram.copy_to_vec(0..8192);
    assert_eq!(failed.fail_9p_request(id, HostRequestFailure::Failed), Ok(()));
    assert_eq!(failed.devices.ram.copy_to_vec(0..8192), before);

    let mut completed = suspended();
    assert_eq!(completed.complete_9p_request(id, &[9; 12]), Ok(()));
    let mut expected = before.expect("memory");
    expected[0x200..0x20c].fill(9);
    assert_eq!(completed.devices.ram.copy_to_vec(0..8192), Some(expected));
}

#[test]
fn harts_that_are_stopped_yield() {
    let mut machine = machine(2);
    machine.load_program(&RV64_SMOKE_PROGRAM).expect("load");
    let report = machine.run_hart_slice(1, 10).expect("admitted hart");
    assert_eq!(report.outcome, SliceOutcome::Yielded);
    assert_eq!(report.steps_executed, 0);
    assert!(machine.set_hart_lifecycle(0, HartLifecycle::Stopped));
    let idle = machine.run_slice(10);
    assert_eq!(idle.outcome, SliceOutcome::Yielded);
    assert_eq!(idle.steps_executed, 0);
    assert!(machine.set_hart_lifecycle(1, HartLifecycle::Started));
    assert!(machine.run_slice(1).total_steps_executed <= 1);
    assert_eq!(machine.active_hart_id(), 1);
}

#[test]
fn admission_follows_the_allocator() {
    assert_eq!(chunk_count(0), 0);
    assert_eq!(chunk_count(1), 1);
    assert_eq!(chunk_count(RAM_CHUNK_BYTES), 1);
    assert_eq!(chunk_count(RAM_CHUNK_BYTES + 1), 2);
    let ram = GuestRam::admitted(Vec::new(), Vec::new(), true, RAM_CHUNK_BYTES + 1).expect("reserved");
    assert_eq!(ram.chunks.len(), 2);
    assert!(ram.chunks.iter().all(Option::is_none));
    assert_eq!(ram.byte(RAM_CHUNK_BYTES), Some(0));
    let denied = GuestRam::admitted(Vec::new(), Vec::new(), false, 4096);
    assert_eq!(denied.err(), Some(MachineError::RamAllocationDenied(4096)));

    let config = MachineConfig {
        ram_bytes: 8192,
        max_console_bytes: 64,
    };
    let refused = || Err(MachineError::RamAllocationDenied(8192));
    assert!(matches!(
        Devices::over(config, refused()),
        Err(MachineError::RamAllocationDenied(8192))
    ));
    assert_eq!(refused_shape(config, 1), None);
    assert_eq!(refused_shape(config, 0), Some(MachineError::InvalidHartCount(0)));
    assert!(matches!(
        Machine::over(config, 1, Err(MachineError::RamAllocationDenied(8192))),
        Err(MachineError::RamAllocationDenied(8192))
    ));
    let built = Machine::over(config, 2, Devices::over(config, GuestRam::zeroed(8192)));
    assert_eq!(built.expect("machine").hart_count(), 2);

    let chunk = AtomicRamChunk::admitted(Vec::new(), Vec::new(), true, 72).expect("reserved");
    assert_eq!((chunk.words.len(), chunk.write_generations.len()), (9, 2));
    assert!(AtomicRamChunk::admitted(Vec::new(), Vec::new(), false, 72).is_err());
    assert!(AtomicGuestRam::admitted(Vec::new(), false, 72).is_err());
    assert_eq!(
        AtomicGuestRam::admitted(Vec::new(), true, 72).expect("reserved").byte(71),
        Some(0)
    );
}

#[test]
fn payloads_are_decoded_into_a_machine_of_their_shape() {
    let checkpoint = suspended().checkpoint_host_suspension().expect("checkpoint");
    let payload = checkpoint.encode_payload(binding(1));
    let (config, harts) = MachineCheckpoint::read_shape(&payload, binding(1)).expect("shape");
    assert_eq!((config.ram_bytes, config.max_console_bytes, harts), (8192, 64, 1));
    assert_eq!(
        MachineCheckpoint::read_shape(&payload, binding(9)).err(),
        Some(CheckpointDecodeError::BindingMismatch)
    );
    let fresh = || Machine::new_with_harts(config, harts).expect("machine");
    let decoded = MachineCheckpoint::decode_into(&payload, binding(1), fresh()).expect("decode");
    assert_eq!(decoded.encode_payload(binding(1)), payload);
    let mut longer = payload.clone();
    longer.push(0);
    assert_eq!(
        MachineCheckpoint::decode_into(&longer, binding(1), fresh()).err(),
        Some(CheckpointDecodeError::TrailingBytes)
    );
    assert_eq!(
        MachineCheckpoint::decode_into(&payload, binding(2), fresh()).err(),
        Some(CheckpointDecodeError::BindingMismatch)
    );
    let mut former = payload;
    former[8] = 1;
    assert_eq!(
        MachineCheckpoint::decode_payload(&former, binding(1)).err(),
        Some(CheckpointDecodeError::UnsupportedVersion(1))
    );
}

#[test]
fn every_admitted_range_is_lent() {
    let mut machine = Machine::new(MachineConfig {
        ram_bytes: 2 * RAM_CHUNK_BYTES,
        max_console_bytes: 64,
    })
    .expect("machine");
    let edge = DRAM_BASE + RAM_CHUNK_BYTES as u64 - 2;
    assert_eq!(machine.physical_ram(edge, 4), Some([0; 4].as_slice()));
    assert!(machine.devices.write_ram_slice(edge, &[1, 2, 3, 4]));
    assert_eq!(machine.physical_ram(edge, 4), Some([1, 2, 3, 4].as_slice()));
    assert_eq!(
        machine.physical_ram(DRAM_BASE, 2 * RAM_CHUNK_BYTES).map(<[u8]>::len),
        Some(2 * RAM_CHUNK_BYTES)
    );
    assert_eq!(machine.physical_ram(edge, 2 * RAM_CHUNK_BYTES), None);
    assert_eq!(machine.physical_ram(UART_BASE, 1), None);
}

#[test]
fn zero_bytes_mark_no_chunk() {
    let mut ram = GuestRam::zeroed(2 * RAM_CHUNK_BYTES).expect("RAM");
    assert!(ram.set_byte(0, 0));
    assert!(ram.chunks.iter().all(Option::is_none));
    assert!(ram.copy_from_slice(RAM_CHUNK_BYTES - 2, &[0, 0, 7]));
    assert!(ram.chunks[0].is_none());
    assert!(ram.chunks[1].is_some());
    ram.fill_zero();
    assert!(ram.chunks.iter().all(Option::is_none));
}

#[test]
fn compressed_instructions_touch_one_register() {
    for instruction in (0..=u16::MAX).step_by(7) {
        let mut machine = machine(1);
        for register in 1..32 {
            machine.harts[0].cpu.write(register, DRAM_BASE + 64 * register as u64);
        }
        let before = machine.harts[0].cpu;
        let flow = machine.execute_compressed(instruction, DRAM_BASE + 16);
        let after = machine.harts[0].cpu;
        assert_eq!((after.pc, after.privilege), (before.pc, before.privilege));
        let changed = (0..32).filter(|&i| after.registers[i] != before.registers[i]).count();
        assert!(changed <= 1);
        assert_eq!(after.registers[0], 0);
        match flow {
            Ok((next, _)) => assert_eq!(next % 2, 0),
            Err(_) => assert_eq!(changed, 0),
        }
    }
}

#[test]
fn a_faulting_step_changes_no_register() {
    let mut machine = machine(1);
    // ld x5, 0(x0), which reads no device.
    machine.load_program(&0x0000_3283_u32.to_le_bytes()).expect("load");
    machine.harts[0].cpu.write(5, 99);
    let before = machine.harts[0].cpu;
    assert!(machine.step().is_err());
    let after = machine.harts[0].cpu;
    assert_eq!(after.registers, before.registers);
    assert_eq!(after.floating_registers, before.floating_registers);
    assert_eq!((after.pc, after.privilege), (before.pc, before.privilege));
}

#[test]
fn a_waiting_machine_repeats_its_report() {
    let mut machine = suspended();
    let first = machine.run_slice(10);
    assert!(matches!(first.outcome, SliceOutcome::HostRequest(_)));
    let held = machine.duplicate();
    let second = machine.run_slice(20);
    assert_eq!(second.outcome, first.outcome);
    assert_eq!((second.steps_executed, second.instructions_retired), (0, 0));
    assert_eq!(second.total_steps_executed, first.total_steps_executed);
    assert!(second.console.is_empty());
    assert_eq!(machine.pc(), held.pc());
    assert_eq!(machine.harts[0].cpu.registers, held.harts[0].cpu.registers);
}
