use aos_realm::isa::MachineTrap;
use aos_realm::launch::{
    bind_verdict, boot_verdict, contains, init_seen, next_budget, prewarm_verdict,
    validate_checkpoint, BindVerdict, BootVerdict, PrewarmVerdict, TemplateRefusal, HOME_9P_CHANNEL,
    INIT_MARKER, SYSTEM_BLOCK_CHANNEL,
};
use aos_realm::machine::{Machine, MachineCheckpoint, Plan9Request, SliceOutcome};
use aos_realm::platform::{HaltStatus, HostRequestId, MachineConfig, DRAM_BASE, SBI_EXT_AOS_9P};

fn request(channel: u32, message: Vec<u8>, max_response_bytes: usize) -> SliceOutcome {
    SliceOutcome::HostRequest(Plan9Request {
        id: HostRequestId(1),
        channel,
        message,
        max_response_bytes,
    })
}

fn halted(passed: bool) -> SliceOutcome {
    SliceOutcome::Halted(HaltStatus { passed, code: 9 })
}

#[test]
fn the_marker_is_found_anywhere_on_the_console() {
    assert_eq!(&INIT_MARKER, b"AOS LINUX /init");
    assert!(init_seen(b"[1.0] AOS LINUX /init ready"));
    assert!(!init_seen(b"[1.0] AOS LINUX /ini"));
    assert!(contains(b"abc", b""));
    assert!(contains(b"abc", b"bc"));
    assert!(!contains(b"abc", b"abcd"));
    assert!(!contains(b"", b"a"));
}

#[test]
fn budgets_end_with_the_admitted_steps() {
    assert_eq!(next_budget(0, 100, 30), Some(30));
    assert_eq!(next_budget(90, 100, 30), Some(10));
    assert_eq!(next_budget(100, 100, 30), None);
    assert_eq!(next_budget(101, 100, 30), None);
}

#[test]
fn a_boot_passes_only_after_its_first_process() {
    assert_eq!(boot_verdict(&SliceOutcome::Yielded, false), BootVerdict::Continue);
    assert_eq!(boot_verdict(&halted(true), true), BootVerdict::Passed);
    assert_eq!(
        boot_verdict(&halted(true), false),
        BootVerdict::HaltedBeforeInit(HaltStatus { passed: true, code: 9 })
    );
    assert_eq!(
        boot_verdict(&halted(false), true),
        BootVerdict::HaltedInFailure(HaltStatus { passed: false, code: 9 })
    );
    assert_eq!(boot_verdict(&request(1, vec![], 0), true), BootVerdict::Unwired);
    assert_eq!(
        boot_verdict(&SliceOutcome::Trapped(MachineTrap::Breakpoint { pc: 4 }), true),
        BootVerdict::Crossed
    );
}

#[test]
fn a_bind_waits_for_the_home_channel() {
    let block = |offset: u64, bytes: usize| {
        bind_verdict(
            &request(SYSTEM_BLOCK_CHANNEL, offset.to_le_bytes().to_vec(), bytes),
            false,
            true,
            4096,
        )
    };
    assert_eq!(block(1024, 512), BindVerdict::SystemBlock { start: 1024, end: 1536 });
    assert_eq!(block(3584, 512), BindVerdict::SystemBlock { start: 3584, end: 4096 });
    assert_eq!(block(3585, 512), BindVerdict::BlockOutOfRange);
    assert_eq!(block(u64::MAX, 1), BindVerdict::BlockOutOfRange);
    assert_eq!(
        bind_verdict(&request(SYSTEM_BLOCK_CHANNEL, vec![0; 7], 1), false, true, 4096),
        BindVerdict::MalformedBlock
    );
    let home = request(HOME_9P_CHANNEL, vec![0; 7], 64);
    assert_eq!(bind_verdict(&home, false, true, 0), BindVerdict::BindBeforeInit);
    assert_eq!(bind_verdict(&home, true, true, 0), BindVerdict::Bound);
    assert_eq!(
        bind_verdict(&request(7, vec![0; 7], 64), true, true, 0),
        BindVerdict::WrongChannel(7)
    );
    assert_eq!(bind_verdict(&SliceOutcome::Yielded, true, true, 0), BindVerdict::Continue);
    assert_eq!(bind_verdict(&SliceOutcome::Yielded, true, false, 0), BindVerdict::Stopped);
    assert_eq!(bind_verdict(&halted(true), true, true, 0), BindVerdict::Stopped);
}

fn checkpoint_on(channel: u64) -> MachineCheckpoint {
    let mut machine = Machine::new(MachineConfig {
        ram_bytes: 8192,
        max_console_bytes: 64,
    })
    .expect("valid machine");
    machine.firmware.enabled = true;
    for (register, value) in [
        (10, DRAM_BASE),
        (11, 7),
        (12, DRAM_BASE + 0x200),
        (13, 32),
        (14, channel),
        (15, 0),
        (16, 0),
        (17, SBI_EXT_AOS_9P),
    ] {
        machine.harts[0].cpu.write(register, value);
    }
    assert_eq!(machine.handle_sbi_call(), Ok(None));
    machine.checkpoint_host_suspension().expect("checkpoint")
}

#[test]
fn a_template_is_the_wanted_machine_at_its_home_bind() {
    let home = checkpoint_on(1);
    assert_eq!(validate_checkpoint(&home, 8192, 1), Ok(()));
    assert_eq!(validate_checkpoint(&home, 4096, 1), Err(TemplateRefusal::RamBytes(8192)));
    assert_eq!(validate_checkpoint(&home, 8192, 2), Err(TemplateRefusal::Harts(1)));
    assert_eq!(
        validate_checkpoint(&checkpoint_on(2), 8192, 1),
        Err(TemplateRefusal::Channel(2))
    );
}

#[test]
fn a_prewarm_ends_at_the_home_bind() {
    assert_eq!(prewarm_verdict(&SliceOutcome::Yielded, true), PrewarmVerdict::Continue);
    assert_eq!(
        prewarm_verdict(&request(HOME_9P_CHANNEL, vec![], 0), true),
        PrewarmVerdict::Suspended
    );
    assert_eq!(
        prewarm_verdict(&request(HOME_9P_CHANNEL, vec![], 0), false),
        PrewarmVerdict::BindBeforeInit
    );
    assert_eq!(prewarm_verdict(&request(2, vec![], 0), false), PrewarmVerdict::WrongChannel(2));
    assert_eq!(prewarm_verdict(&halted(true), true), PrewarmVerdict::Stopped);
    assert_eq!(
        prewarm_verdict(&SliceOutcome::Trapped(MachineTrap::Breakpoint { pc: 4 }), true),
        PrewarmVerdict::Stopped
    );
}
