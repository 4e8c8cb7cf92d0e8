//! The words in which errors are reported.

use crate::codec::CheckpointDecodeError;
use crate::isa::MachineTrap;
use crate::ninep::Errno;
use crate::platform::{
    CheckpointError, HostCompletionError, InvalidHartId, MachineError, MAX_BOOTARGS_BYTES,
    MAX_CONSOLE_BYTES, MAX_HARTS, MAX_RAM_BYTES, MIN_RAM_BYTES,
};
use crate::process::{KernelError, ProcessOperation, ProcessState, Quota, Signal, WaitReason};
use crate::text;
use crate::text::push_decimal;
use vstd::prelude::*;
use vstd::string::*;

verus! {

// Numbers.

/// A number with its sign.
pub open spec fn signed(value: int) -> Seq<char> {
    if value < 0 {
        "-"@ + text::decimal((-value) as nat)
    } else {
        text::decimal(value as nat)
    }
}

fn push_signed(out: &mut String, value: i32)
    ensures
        final(out)@ == old(out)@ + signed(value as int),
{
    let ghost start = out@;
    if value < 0 {
        out.append("-");
        push_decimal(out, (-(value as i64)) as u128);
    } else {
        push_decimal(out, value as u128);
    }
    assert(out@ =~= start + signed(value as int));
}

pub open spec fn hex_char(value: int) -> char {
    if value < 10 {
        (48 + value) as u8 as char
    } else {
        (87 + value) as u8 as char
    }
}

/// Hexadecimal digits without leading zeros.
pub open spec fn hex_digits(value: nat) -> Seq<char>
    decreases value,
{
    if value < 16 {
        seq![hex_char(value as int)]
    } else {
        hex_digits(value / 16).push(hex_char((value % 16) as int))
    }
}

/// The `n` low hexadecimal digits.
pub open spec fn low_hex_digits(value: nat, n: nat) -> Seq<char>
    decreases n,
{
    if n == 0 {
        Seq::empty()
    } else {
        low_hex_digits(value / 16, (n - 1) as nat).push(hex_char((value % 16) as int))
    }
}

pub open spec fn hexadecimal(value: nat) -> Seq<char> {
    "0x"@ + hex_digits(value)
}

/// Eight digits.
pub open spec fn hexadecimal8(value: nat) -> Seq<char> {
    "0x"@ + low_hex_digits(value, 8)
}

fn digit(value: u8) -> (r: char)
    requires
        value < 16,
    ensures
        r == hex_char(value as int),
{
    if value < 10 {
        (48 + value) as char
    } else {
        (87 + value) as char
    }
}

fn push_hex_digits(out: &mut String, value: u64)
    ensures
        final(out)@ == old(out)@ + hex_digits(value as nat),
    decreases value,
{
    let ghost start = out@;
    if value >= 16 {
        push_hex_digits(out, value / 16);
    }
    out.push(digit((value % 16) as u8));
    assert(out@ =~= start + hex_digits(value as nat));
}

fn push_low_hex_digits(out: &mut String, value: u32, n: u8)
    ensures
        final(out)@ == old(out)@ + low_hex_digits(value as nat, n as nat),
    decreases n,
{
    let ghost start = out@;
    if n > 0 {
        push_low_hex_digits(out, value / 16, n - 1);
        out.push(digit((value % 16) as u8));
    }
    assert(out@ =~= start + low_hex_digits(value as nat, n as nat));
}

fn push_hexadecimal(out: &mut String, value: u64)
    ensures
        final(out)@ == old(out)@ + hexadecimal(value as nat),
{
    let ghost start = out@;
    out.append("0x");
    push_hex_digits(out, value);
    assert(out@ =~= start + hexadecimal(value as nat));
}

fn push_hexadecimal8(out: &mut String, value: u32)
    ensures
        final(out)@ == old(out)@ + hexadecimal8(value as nat),
{
    let ghost start = out@;
    out.append("0x");
    push_low_hex_digits(out, value, 8);
    assert(out@ =~= start + hexadecimal8(value as nat));
}

// Errors.

/// What is printed of a process state.
pub open spec fn state_text(value: ProcessState) -> Seq<char> {
    match value {
        ProcessState::Created => "Created"@,
        ProcessState::Runnable => "Runnable"@,
        ProcessState::Running => "Running"@,
        ProcessState::Waiting(WaitReason::Child(process)) => "Waiting(Child(ProcessId("@
            + text::decimal(process.0 as nat) + ")))"@,
        ProcessState::Waiting(WaitReason::PipeReadable(pipe)) => "Waiting(PipeReadable(PipeId("@
            + text::decimal(pipe.0 as nat) + ")))"@,
        ProcessState::Waiting(WaitReason::PipeWritable(pipe)) => "Waiting(PipeWritable(PipeId("@
            + text::decimal(pipe.0 as nat) + ")))"@,
        ProcessState::Exited(status) => "Exited("@ + signed(status as int) + ")"@,
        ProcessState::Signaled(Signal::Interrupt) => "Signaled(Interrupt)"@,
        ProcessState::Signaled(Signal::Terminate) => "Signaled(Terminate)"@,
        ProcessState::Signaled(Signal::Kill) => "Signaled(Kill)"@,
        ProcessState::Signaled(Signal::Pipe) => "Signaled(Pipe)"@,
    }
}

fn push_state_text(out: &mut String, value: ProcessState)
    ensures
        final(out)@ == old(out)@ + state_text(value),
{
    let ghost start = out@;
    match value {
        ProcessState::Created => {
            out.append("Created");
        },
        ProcessState::Runnable => {
            out.append("Runnable");
        },
        ProcessState::Running => {
            out.append("Running");
        },
        ProcessState::Waiting(WaitReason::Child(process)) => {
            out.append("Waiting(Child(ProcessId(");
            push_decimal(out, process.0 as u128);
            out.append(")))");
        },
        ProcessState::Waiting(WaitReason::PipeReadable(pipe)) => {
            out.append("Waiting(PipeReadable(PipeId(");
            push_decimal(out, pipe.0 as u128);
            out.append(")))");
        },
        ProcessState::Waiting(WaitReason::PipeWritable(pipe)) => {
            out.append("Waiting(PipeWritable(PipeId(");
            push_decimal(out, pipe.0 as u128);
            out.append(")))");
        },
        ProcessState::Exited(status) => {
            out.append("Exited(");
            push_signed(out, status);
            out.append(")");
        },
        ProcessState::Signaled(Signal::Interrupt) => {
            out.append("Signaled(Interrupt)");
        },
        ProcessState::Signaled(Signal::Terminate) => {
            out.append("Signaled(Terminate)");
        },
        ProcessState::Signaled(Signal::Kill) => {
            out.append("Signaled(Kill)");
        },
        ProcessState::Signaled(Signal::Pipe) => {
            out.append("Signaled(Pipe)");
        },
    }
    assert(out@ =~= start + state_text(value));
}

/// What is printed of an operation.
pub open spec fn operation_text(value: ProcessOperation) -> Seq<char> {
    match value {
        ProcessOperation::Admit => "Admit"@,
        ProcessOperation::Yield => "Yield"@,
        ProcessOperation::Exit => "Exit"@,
        ProcessOperation::Signal => "Signal"@,
        ProcessOperation::SpawnChild => "SpawnChild"@,
        ProcessOperation::WaitChild => "WaitChild"@,
        ProcessOperation::Descriptor => "Descriptor"@,
        ProcessOperation::Park => "Park"@,
        ProcessOperation::Reap => "Reap"@,
    }
}

fn push_operation_text(out: &mut String, value: ProcessOperation)
    ensures
        final(out)@ == old(out)@ + operation_text(value),
{
    let ghost start = out@;
    match value {
        ProcessOperation::Admit => {
            out.append("Admit");
        },
        ProcessOperation::Yield => {
            out.append("Yield");
        },
        ProcessOperation::Exit => {
            out.append("Exit");
        },
        ProcessOperation::Signal => {
            out.append("Signal");
        },
        ProcessOperation::SpawnChild => {
            out.append("SpawnChild");
        },
        ProcessOperation::WaitChild => {
            out.append("WaitChild");
        },
        ProcessOperation::Descriptor => {
            out.append("Descriptor");
        },
        ProcessOperation::Park => {
            out.append("Park");
        },
        ProcessOperation::Reap => {
            out.append("Reap");
        },
    }
    assert(out@ =~= start + operation_text(value));
}

/// What is printed of a quota.
pub open spec fn quota_text(value: Quota) -> Seq<char> {
    match value {
        Quota::Processes => "Processes"@,
        Quota::Pipes => "Pipes"@,
        Quota::PipeBytes => "PipeBytes"@,
        Quota::TotalPipeBytes => "TotalPipeBytes"@,
        Quota::Descriptors => "Descriptors"@,
    }
}

fn push_quota_text(out: &mut String, value: Quota)
    ensures
        final(out)@ == old(out)@ + quota_text(value),
{
    let ghost start = out@;
    match value {
        Quota::Processes => {
            out.append("Processes");
        },
        Quota::Pipes => {
            out.append("Pipes");
        },
        Quota::PipeBytes => {
            out.append("PipeBytes");
        },
        Quota::TotalPipeBytes => {
            out.append("TotalPipeBytes");
        },
        Quota::Descriptors => {
            out.append("Descriptors");
        },
    }
    assert(out@ =~= start + quota_text(value));
}

/// The words for a refused kernel operation.
pub open spec fn kernel_message(value: KernelError) -> Seq<char> {
    match value {
        KernelError::ProcessNotFound(process) => "process "@ + text::decimal(process.0 as nat)
            + " does not exist"@,
        KernelError::PipeNotFound(pipe) => "pipe "@ + text::decimal(pipe.0 as nat)
            + " does not exist"@,
        KernelError::DescriptorNotFound { process, descriptor } => "process "@
            + text::decimal(process.0 as nat) + " has no descriptor "@
            + signed(descriptor.0 as int),
        KernelError::WrongDescriptorKind { process, descriptor } => "process "@
            + text::decimal(process.0 as nat) + " descriptor "@ + signed(descriptor.0 as int)
            + " has the wrong resource type"@,
        KernelError::NotChild { parent, child } => "process "@ + text::decimal(child.0 as nat)
            + " is not a direct child of "@ + text::decimal(parent.0 as nat),
        KernelError::InvalidTransition { process, state, operation } => "process "@
            + text::decimal(process.0 as nat) + " cannot perform "@ + operation_text(operation)
            + " while "@ + state_text(state),
        KernelError::InvalidCwd => "process cwd is not a normalized guest path"@,
        KernelError::InvalidPipeCapacity => "pipe capacity is invalid"@,
        KernelError::InvalidDescriptorTarget(descriptor) => "invalid child descriptor "@
            + signed(descriptor.0 as int),
        KernelError::DuplicateDescriptorTarget(descriptor) => "child descriptor "@
            + signed(descriptor.0 as int) + " is mapped more than once"@,
        KernelError::QuotaExceeded(quota) => "realm "@ + quota_text(quota) + " quota exceeded"@,
        KernelError::IdentifierExhausted => "realm identifier space exhausted"@,
        KernelError::ProcessStillLive(process) => "process "@ + text::decimal(process.0 as nat)
            + " is still live"@,
        KernelError::ProcessHasParent(process) => "process "@ + text::decimal(process.0 as nat)
            + " must be reaped by its parent"@,
    }
}

fn push_kernel_message(out: &mut String, value: KernelError)
    ensures
        final(out)@ == old(out)@ + kernel_message(value),
{
    let ghost start = out@;
    match value {
        KernelError::ProcessNotFound(process) => {
            out.append("process ");
            push_decimal(out, process.0 as u128);
            out.append(" does not exist");
        },
        KernelError::PipeNotFound(pipe) => {
            out.append("pipe ");
            push_decimal(out, pipe.0 as u128);
            out.append(" does not exist");
        },
        KernelError::DescriptorNotFound { process, descriptor } => {
            out.append("process ");
            push_decimal(out, process.0 as u128);
            out.append(" has no descriptor ");
            push_signed(out, descriptor.0);
        },
        KernelError::WrongDescriptorKind { process, descriptor } => {
            out.append("process ");
            push_decimal(out, process.0 as u128);
            out.append(" descriptor ");
            push_signed(out, descriptor.0);
            out.append(" has the wrong resource type");
        },
        KernelError::NotChild { parent, child } => {
            out.append("process ");
            push_decimal(out, child.0 as u128);
            out.append(" is not a direct child of ");
            push_decimal(out, parent.0 as u128);
        },
        KernelError::InvalidTransition { process, state, operation } => {
            out.append("process ");
            push_decimal(out, process.0 as u128);
            out.append(" cannot perform ");
            push_operation_text(out, operation);
            out.append(" while ");
            push_state_text(out, state);
        },
        KernelError::InvalidCwd => {
            out.append("process cwd is not a normalized guest path");
        },
        KernelError::InvalidPipeCapacity => {
            out.append("pipe capacity is invalid");
        },
        KernelError::InvalidDescriptorTarget(descriptor) => {
            out.append("invalid child descriptor ");
            push_signed(out, descriptor.0);
        },
        KernelError::DuplicateDescriptorTarget(descriptor) => {
            out.append("child descriptor ");
            push_signed(out, descriptor.0);
            out.append(" is mapped more than once");
        },
        KernelError::QuotaExceeded(quota) => {
            out.append("realm ");
            push_quota_text(out, quota);
            out.append(" quota exceeded");
        },
        KernelError::IdentifierExhausted => {
            out.append("realm identifier space exhausted");
        },
        KernelError::ProcessStillLive(process) => {
            out.append("process ");
            push_decimal(out, process.0 as u128);
            out.append(" is still live");
        },
        KernelError::ProcessHasParent(process) => {
            out.append("process ");
            push_decimal(out, process.0 as u128);
            out.append(" must be reaped by its parent");
        },
    }
    assert(out@ =~= start + kernel_message(value));
}

/// The words for a refused machine.
pub open spec fn machine_message(value: MachineError) -> Seq<char> {
    match value {
        MachineError::InvalidRamBytes(bytes) => "guest RAM must be 4 KiB aligned and between "@
            + text::decimal(MIN_RAM_BYTES as nat) + " and "@ + text::decimal(MAX_RAM_BYTES as nat)
            + " bytes, got "@ + text::decimal(bytes as nat),
        MachineError::RamAllocationDenied(bytes) => "guest RAM allocation of "@
            + text::decimal(bytes as nat) + " bytes was denied"@,
        MachineError::InvalidConsoleBytes(bytes) => "console limit must not exceed "@
            + text::decimal(MAX_CONSOLE_BYTES as nat) + " bytes, got "@
            + text::decimal(bytes as nat),
        MachineError::InvalidHartCount(count) => "guest hart count must be between 1 and "@
            + text::decimal(MAX_HARTS as nat) + ", got "@ + text::decimal(count as nat),
        MachineError::InvalidProgramBytes { image, ram } => "guest image is "@
            + text::decimal(image as nat) + " bytes but admitted RAM is "@
            + text::decimal(ram as nat) + " bytes"@,
        MachineError::InvalidLinuxImages { kernel, initramfs, ram } => "Linux kernel ("@
            + text::decimal(kernel as nat) + " bytes), initramfs ("@
            + text::decimal(initramfs as nat) + " bytes), and FDT do not fit in "@
            + text::decimal(ram as nat) + " bytes of admitted RAM"@,
        MachineError::InvalidBootArgsBytes(bytes) => "Linux boot arguments must be at most "@
            + text::decimal(MAX_BOOTARGS_BYTES as nat) + " bytes, got "@
            + text::decimal(bytes as nat),
    }
}

fn push_machine_message(out: &mut String, value: MachineError)
    ensures
        final(out)@ == old(out)@ + machine_message(value),
{
    let ghost start = out@;
    match value {
        MachineError::InvalidRamBytes(bytes) => {
            out.append("guest RAM must be 4 KiB aligned and between ");
            push_decimal(out, MIN_RAM_BYTES as u128);
            out.append(" and ");
            push_decimal(out, MAX_RAM_BYTES as u128);
            out.append(" bytes, got ");
            push_decimal(out, bytes as u128);
        },
        MachineError::RamAllocationDenied(bytes) => {
            out.append("guest RAM allocation of ");
            push_decimal(out, bytes as u128);
            out.append(" bytes was denied");
        },
        MachineError::InvalidConsoleBytes(bytes) => {
            out.append("console limit must not exceed ");
            push_decimal(out, MAX_CONSOLE_BYTES as u128);
            out.append(" bytes, got ");
            push_decimal(out, bytes as u128);
        },
        MachineError::InvalidHartCount(count) => {
            out.append("guest hart count must be between 1 and ");
            push_decimal(out, MAX_HARTS as u128);
            out.append(", got ");
            push_decimal(out, count as u128);
        },
        MachineError::InvalidProgramBytes { image, ram } => {
            out.append("guest image is ");
            push_decimal(out, image as u128);
            out.append(" bytes but admitted RAM is ");
            push_decimal(out, ram as u128);
            out.append(" bytes");
        },
        MachineError::InvalidLinuxImages { kernel, initramfs, ram } => {
            out.append("Linux kernel (");
            push_decimal(out, kernel as u128);
            out.append(" bytes), initramfs (");
            push_decimal(out, initramfs as u128);
            out.append(" bytes), and FDT do not fit in ");
            push_decimal(out, ram as u128);
            out.append(" bytes of admitted RAM");
        },
        MachineError::InvalidBootArgsBytes(bytes) => {
            out.append("Linux boot arguments must be at most ");
            push_decimal(out, MAX_BOOTARGS_BYTES as u128);
            out.append(" bytes, got ");
            push_decimal(out, bytes as u128);
        },
    }
    assert(out@ =~= start + machine_message(value));
}

/// Why a machine is not checkpointed, in words.
pub open spec fn checkpoint_message(value: CheckpointError) -> Seq<char> {
    match value {
        CheckpointError::NotRunnable => "only a runnable machine can be checkpointed"@,
        CheckpointError::NoPendingHostRequest => "prewarm checkpoint requires a pending host request"@,
        CheckpointError::PendingConsoleInput { bytes } => "prewarm checkpoint contains "@
            + text::decimal(bytes as nat) + " bytes of principal console input"@,
        CheckpointError::UndrainedConsoleOutput { bytes } => "prewarm checkpoint contains "@
            + text::decimal(bytes as nat) + " bytes of undrained console output"@,
        CheckpointError::PendingHartControl { hart_id } => "prewarm checkpoint contains unacknowledged control for hart "@
            + text::decimal(hart_id as nat),
    }
}

fn push_checkpoint_message(out: &mut String, value: CheckpointError)
    ensures
        final(out)@ == old(out)@ + checkpoint_message(value),
{
    let ghost start = out@;
    match value {
        CheckpointError::NotRunnable => {
            out.append("only a runnable machine can be checkpointed");
        },
        CheckpointError::NoPendingHostRequest => {
            out.append("prewarm checkpoint requires a pending host request");
        },
        CheckpointError::PendingConsoleInput { bytes } => {
            out.append("prewarm checkpoint contains ");
            push_decimal(out, bytes as u128);
            out.append(" bytes of principal console input");
        },
        CheckpointError::UndrainedConsoleOutput { bytes } => {
            out.append("prewarm checkpoint contains ");
            push_decimal(out, bytes as u128);
            out.append(" bytes of undrained console output");
        },
        CheckpointError::PendingHartControl { hart_id } => {
            out.append("prewarm checkpoint contains unacknowledged control for hart ");
            push_decimal(out, hart_id as u128);
        },
    }
    assert(out@ =~= start + checkpoint_message(value));
}

/// The words for a trap.
pub open spec fn trap_message(value: MachineTrap) -> Seq<char> {
    match value {
        MachineTrap::InstructionAddressMisaligned { address } => "instruction address "@
            + hexadecimal(address as nat) + " is misaligned"@,
        MachineTrap::InstructionAccessFault { address } => "instruction access fault at "@
            + hexadecimal(address as nat),
        MachineTrap::IllegalInstruction { pc, instruction } => "illegal instruction "@
            + hexadecimal8(instruction as nat) + " at "@ + hexadecimal(pc as nat),
        MachineTrap::LoadAddressMisaligned { address, bytes } => text::decimal(bytes as nat)
            + "-byte load address "@ + hexadecimal(address as nat) + " is misaligned"@,
        MachineTrap::LoadAccessFault { address, bytes } => text::decimal(bytes as nat)
            + "-byte load access fault at "@ + hexadecimal(address as nat),
        MachineTrap::StoreAddressMisaligned { address, bytes } => text::decimal(bytes as nat)
            + "-byte store address "@ + hexadecimal(address as nat) + " is misaligned"@,
        MachineTrap::StoreAccessFault { address, bytes } => text::decimal(bytes as nat)
            + "-byte store access fault at "@ + hexadecimal(address as nat),
        MachineTrap::InstructionPageFault { address } => "instruction page fault at "@
            + hexadecimal(address as nat),
        MachineTrap::LoadPageFault { address } => "load page fault at "@
            + hexadecimal(address as nat),
        MachineTrap::StorePageFault { address } => "store page fault at "@
            + hexadecimal(address as nat),
        MachineTrap::Breakpoint { pc } => "breakpoint at "@ + hexadecimal(pc as nat),
        MachineTrap::ConsoleLimit { limit } => "console output exceeded "@
            + text::decimal(limit as nat) + " bytes"@,
    }
}

fn push_trap_message(out: &mut String, value: MachineTrap)
    ensures
        final(out)@ == old(out)@ + trap_message(value),
{
    let ghost start = out@;
    match value {
        MachineTrap::InstructionAddressMisaligned { address } => {
            out.append("instruction address ");
            push_hexadecimal(out, address);
            out.append(" is misaligned");
        },
        MachineTrap::InstructionAccessFault { address } => {
            out.append("instruction access fault at ");
            push_hexadecimal(out, address);
        },
        MachineTrap::IllegalInstruction { pc, instruction } => {
            out.append("illegal instruction ");
            push_hexadecimal8(out, instruction);
            out.append(" at ");
            push_hexadecimal(out, pc);
        },
        MachineTrap::LoadAddressMisaligned { address, bytes } => {
            push_decimal(out, bytes as u128);
            out.append("-byte load address ");
            push_hexadecimal(out, address);
            out.append(" is misaligned");
        },
        MachineTrap::LoadAccessFault { address, bytes } => {
            push_decimal(out, bytes as u128);
            out.append("-byte load access fault at ");
            push_hexadecimal(out, address);
        },
        MachineTrap::StoreAddressMisaligned { address, bytes } => {
            push_decimal(out, bytes as u128);
            out.append("-byte store address ");
            push_hexadecimal(out, address);
            out.append(" is misaligned");
        },
        MachineTrap::StoreAccessFault { address, bytes } => {
            push_decimal(out, bytes as u128);
            out.append("-byte store access fault at ");
            push_hexadecimal(out, address);
        },
        MachineTrap::InstructionPageFault { address } => {
            out.append("instruction page fault at ");
            push_hexadecimal(out, address);
        },
        MachineTrap::LoadPageFault { address } => {
            out.append("load page fault at ");
            push_hexadecimal(out, address);
        },
        MachineTrap::StorePageFault { address } => {
            out.append("store page fault at ");
            push_hexadecimal(out, address);
        },
        MachineTrap::Breakpoint { pc } => {
            out.append("breakpoint at ");
            push_hexadecimal(out, pc);
        },
        MachineTrap::ConsoleLimit { limit } => {
            out.append("console output exceeded ");
            push_decimal(out, limit as u128);
            out.append(" bytes");
        },
    }
    assert(out@ =~= start + trap_message(value));
}

/// Why a host response is refused, in words.
pub open spec fn completion_message(value: HostCompletionError) -> Seq<char> {
    match value {
        HostCompletionError::NoPendingRequest => "machine has no pending host request"@,
        HostCompletionError::RequestIdMismatch { expected, actual } => "host response request "@
            + text::decimal(actual.0 as nat) + " does not match pending request "@
            + text::decimal(expected.0 as nat),
        HostCompletionError::InvalidResponseBytes(bytes) => "9P response must contain at least 7 bytes, got "@
            + text::decimal(bytes as nat),
        HostCompletionError::ResponseTooLarge { response, capacity } => "9P response is "@
            + text::decimal(response as nat) + " bytes but guest admitted "@
            + text::decimal(capacity as nat) + " bytes"@,
        HostCompletionError::ResponseAddressUnavailable => "pending 9P response buffer is no longer admitted RAM"@,
        HostCompletionError::RequestHartUnavailable { hart_id } => "pending 9P request hart "@
            + text::decimal(hart_id as nat) + " is unavailable"@,
    }
}

fn push_completion_message(out: &mut String, value: HostCompletionError)
    ensures
        final(out)@ == old(out)@ + completion_message(value),
{
    let ghost start = out@;
    match value {
        HostCompletionError::NoPendingRequest => {
            out.append("machine has no pending host request");
        },
        HostCompletionError::RequestIdMismatch { expected, actual } => {
            out.append("host response request ");
            push_decimal(out, actual.0 as u128);
            out.append(" does not match pending request ");
            push_decimal(out, expected.0 as u128);
        },
        HostCompletionError::InvalidResponseBytes(bytes) => {
            out.append("9P response must contain at least 7 bytes, got ");
            push_decimal(out, bytes as u128);
        },
        HostCompletionError::ResponseTooLarge { response, capacity } => {
            out.append("9P response is ");
            push_decimal(out, response as u128);
            out.append(" bytes but guest admitted ");
            push_decimal(out, capacity as u128);
            out.append(" bytes");
        },
        HostCompletionError::ResponseAddressUnavailable => {
            out.append("pending 9P response buffer is no longer admitted RAM");
        },
        HostCompletionError::RequestHartUnavailable { hart_id } => {
            out.append("pending 9P request hart ");
            push_decimal(out, hart_id as u128);
            out.append(" is unavailable");
        },
    }
    assert(out@ =~= start + completion_message(value));
}

/// Why an artifact is refused, in words.
pub open spec fn decode_message(value: CheckpointDecodeError) -> Seq<char> {
    match value {
        CheckpointDecodeError::InvalidMagic => "invalid machine checkpoint marker"@,
        CheckpointDecodeError::UnsupportedVersion(version) => "unsupported machine checkpoint version "@
            + text::decimal(version as nat),
        CheckpointDecodeError::MachineModelMismatch => "machine checkpoint model does not match"@,
        CheckpointDecodeError::BindingMismatch => "machine checkpoint binding does not match"@,
        CheckpointDecodeError::IntegrityMismatch => "machine checkpoint integrity check failed"@,
        CheckpointDecodeError::Truncated => "machine checkpoint is truncated"@,
        CheckpointDecodeError::TrailingBytes => "machine checkpoint has trailing bytes"@,
        CheckpointDecodeError::InvalidField(field) => "machine checkpoint contains invalid "@
            + field@,
        CheckpointDecodeError::Machine(error) => "machine checkpoint resources are invalid: "@
            + machine_message(error),
    }
}

fn push_decode_message(out: &mut String, value: CheckpointDecodeError)
    ensures
        final(out)@ == old(out)@ + decode_message(value),
{
    let ghost start = out@;
    match value {
        CheckpointDecodeError::InvalidMagic => {
            out.append("invalid machine checkpoint marker");
        },
        CheckpointDecodeError::UnsupportedVersion(version) => {
            out.append("unsupported machine checkpoint version ");
            push_decimal(out, version as u128);
        },
        CheckpointDecodeError::MachineModelMismatch => {
            out.append("machine checkpoint model does not match");
        },
        CheckpointDecodeError::BindingMismatch => {
            out.append("machine checkpoint binding does not match");
        },
        CheckpointDecodeError::IntegrityMismatch => {
            out.append("machine checkpoint integrity check failed");
        },
        CheckpointDecodeError::Truncated => {
            out.append("machine checkpoint is truncated");
        },
        CheckpointDecodeError::TrailingBytes => {
            out.append("machine checkpoint has trailing bytes");
        },
        CheckpointDecodeError::InvalidField(field) => {
            out.append("machine checkpoint contains invalid ");
            out.append(field);
        },
        CheckpointDecodeError::Machine(error) => {
            out.append("machine checkpoint resources are invalid: ");
            push_machine_message(out, error);
        },
    }
    assert(out@ =~= start + decode_message(value));
}

/// Which hart does not exist, in words.
pub open spec fn hart_message(value: InvalidHartId) -> Seq<char> {
    "guest hart "@ + text::decimal(value.hart_id as nat)
        + " is outside the admitted topology of "@ + text::decimal(value.hart_count as nat)
        + " harts"@
}

fn push_hart_message(out: &mut String, value: InvalidHartId)
    ensures
        final(out)@ == old(out)@ + hart_message(value),
{
    let ghost start = out@;
    out.append("guest hart ");
    push_decimal(out, value.hart_id as u128);
    out.append(" is outside the admitted topology of ");
    push_decimal(out, value.hart_count as u128);
    out.append(" harts");
    assert(out@ =~= start + hart_message(value));
}

/// The words for a protocol error.
pub open spec fn errno_message(value: Errno) -> Seq<char> {
    "9P operation failed with errno "@ + text::decimal(value.number() as nat)
}

fn push_errno_message(out: &mut String, value: Errno)
    ensures
        final(out)@ == old(out)@ + errno_message(value),
{
    let ghost start = out@;
    out.append("9P operation failed with errno ");
    push_decimal(out, value.code() as u128);
    assert(out@ =~= start + errno_message(value));
}

impl KernelError {
    /// The words for a refused kernel operation.
    pub fn message(&self) -> (r: String)
        ensures
            r@ == kernel_message(*self),
    {
        let mut out = String::new();
        assert(out@ + kernel_message(*self) =~= kernel_message(*self));
        push_kernel_message(&mut out, *self);
        out
    }
}

impl MachineError {
    /// The words for a refused machine.
    pub fn message(&self) -> (r: String)
        ensures
            r@ == machine_message(*self),
    {
        let mut out = String::new();
        assert(out@ + machine_message(*self) =~= machine_message(*self));
        push_machine_message(&mut out, *self);
        out
    }
}

impl CheckpointError {
    /// Why a machine is not checkpointed, in words.
    pub fn message(&self) -> (r: String)
        ensures
            r@ == checkpoint_message(*self),
    {
        let mut out = String::new();
        assert(out@ + checkpoint_message(*self) =~= checkpoint_message(*self));
        push_checkpoint_message(&mut out, *self);
        out
    }
}

impl MachineTrap {
    /// The words for a trap.
    pub fn message(&self) -> (r: String)
        ensures
            r@ == trap_message(*self),
    {
        let mut out = String::new();
        assert(out@ + trap_message(*self) =~= trap_message(*self));
        push_trap_message(&mut out, *self);
        out
    }
}

impl HostCompletionError {
    /// Why a host response is refused, in words.
    pub fn message(&self) -> (r: String)
        ensures
            r@ == completion_message(*self),
    {
        let mut out = String::new();
        assert(out@ + completion_message(*self) =~= completion_message(*self));
        push_completion_message(&mut out, *self);
        out
    }
}

impl CheckpointDecodeError {
    /// Why an artifact is refused, in words.
    pub fn message(&self) -> (r: String)
        ensures
            r@ == decode_message(*self),
    {
        let mut out = String::new();
        assert(out@ + decode_message(*self) =~= decode_message(*self));
        push_decode_message(&mut out, *self);
        out
    }
}

impl InvalidHartId {
    /// Which hart does not exist, in words.
    pub fn message(&self) -> (r: String)
        ensures
            r@ == hart_message(*self),
    {
        let mut out = String::new();
        assert(out@ + hart_message(*self) =~= hart_message(*self));
        push_hart_message(&mut out, *self);
        out
    }
}

impl Errno {
    /// The words for a protocol error.
    pub fn message(&self) -> (r: String)
        ensures
            r@ == errno_message(*self),
    {
        let mut out = String::new();
        assert(out@ + errno_message(*self) =~= errno_message(*self));
        push_errno_message(&mut out, *self);
        out
    }
}

} // verus!
