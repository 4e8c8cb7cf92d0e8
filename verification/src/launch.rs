//! Decisions of the host programs that boot a Linux guest: how far to run
//! next, what the end of a slice means, and what a host request is answered.

use crate::bytes;
use crate::machine::{MachineCheckpoint, Plan9Request, SliceOutcome};
use crate::platform::HaltStatus;
use vstd::prelude::*;

verus! {

/// What the guest's first process prints on the console.
pub const INIT_MARKER: [u8; 15] = [
    0x41, 0x4f, 0x53, 0x20, 0x4c, 0x49, 0x4e, 0x55, 0x58, 0x20, 0x2f, 0x69, 0x6e, 0x69, 0x74,
];

/// Mount channel of the principal's home.
pub const HOME_9P_CHANNEL: u32 = 1;

/// Channel on which the guest reads its system image.
pub const SYSTEM_BLOCK_CHANNEL: u32 = 3;

/// Whether `needle` lies in `haystack` at `at`.
pub open spec fn lies_at(haystack: Seq<u8>, needle: Seq<u8>, at: int) -> bool {
    0 <= at && at + needle.len() <= haystack.len() && haystack.subrange(at, at + needle.len())
        == needle
}

/// Whether `needle` lies anywhere in `haystack`.
pub open spec fn contained(haystack: Seq<u8>, needle: Seq<u8>) -> bool {
    exists|at: int| lies_at(haystack, needle, at)
}

pub fn contains(haystack: &[u8], needle: &[u8]) -> (r: bool)
    ensures
        r == contained(haystack@, needle@),
{
    let total: usize = haystack.len();
    let length: usize = needle.len();
    if length > total {
        return false;
    }
    let last: usize = total - length;
    let mut at: usize = 0;
    loop
        invariant
            total == haystack@.len(),
            length == needle@.len(),
            at <= last,
            last + length == total,
            forall|i: int| 0 <= i < at ==> !lies_at(haystack@, needle@, i),
        decreases last - at,
    {
        if bytes::same_bytes(vstd::slice::slice_subrange(haystack, at, at + length), needle) {
            assert(lies_at(haystack@, needle@, at as int));
            return true;
        }
        if at == last {
            return false;
        }
        at = at + 1;
    }
}

/// Whether the guest's first process has come up.
pub fn init_seen(console: &[u8]) -> (r: bool)
    ensures
        r == contained(console@, INIT_MARKER@),
{
    let marker = INIT_MARKER;
    contains(console, &marker)
}

/// Budget of the next slice; `None` once the admitted steps are used up.
pub fn next_budget(total_steps: u64, max_steps: u64, slice_steps: u64) -> (r: Option<u64>)
    ensures
        r == (if total_steps >= max_steps {
            None
        } else if max_steps - total_steps < slice_steps {
            Some((max_steps - total_steps) as u64)
        } else {
            Some(slice_steps)
        }),
{
    if total_steps >= max_steps {
        None
    } else if max_steps - total_steps < slice_steps {
        Some(max_steps - total_steps)
    } else {
        Some(slice_steps)
    }
}

/// What the end of a slice means for a boot without host services.
#[derive(Clone, Copy, Debug, PartialEq, Eq, Structural)]
pub enum BootVerdict {
    /// The guest runs on.
    Continue,
    /// The guest halted well after its first process came up.
    Passed,
    /// The guest halted before its first process came up.
    HaltedBeforeInit(HaltStatus),
    /// The guest halted with a failure.
    HaltedInFailure(HaltStatus),
    /// The guest asked for a host service.
    Unwired,
    /// The guest crossed the machine boundary.
    Crossed,
}

/// The verdict on a slice, given whether the first process has come up.
pub fn boot_verdict(outcome: &SliceOutcome, init: bool) -> (r: BootVerdict)
    ensures
        r == (match *outcome {
            SliceOutcome::Yielded => BootVerdict::Continue,
            SliceOutcome::Halted(status) => if !init {
                BootVerdict::HaltedBeforeInit(status)
            } else if !status.passed {
                BootVerdict::HaltedInFailure(status)
            } else {
                BootVerdict::Passed
            },
            SliceOutcome::HostRequest(_) => BootVerdict::Unwired,
            SliceOutcome::Trapped(_) => BootVerdict::Crossed,
        }),
{
    match outcome {
        SliceOutcome::Yielded => BootVerdict::Continue,
        SliceOutcome::Halted(status) => if !init {
            BootVerdict::HaltedBeforeInit(*status)
        } else if !status.passed {
            BootVerdict::HaltedInFailure(*status)
        } else {
            BootVerdict::Passed
        },
        SliceOutcome::HostRequest(_) => BootVerdict::Unwired,
        SliceOutcome::Trapped(_) => BootVerdict::Crossed,
    }
}

/// What the end of a slice means for a guest that is prewarmed up to its home
/// bind.
#[derive(Clone, Copy, Debug, PartialEq, Eq, Structural)]
pub enum PrewarmVerdict {
    /// The guest runs on.
    Continue,
    /// The guest waits for its home, and its checkpoint can be taken.
    Suspended,
    /// The first host request came on another channel than the home's.
    WrongChannel(u32),
    /// The guest waits for its home before its first process came up.
    BindBeforeInit,
    /// The guest stopped before it asked for its home.
    Stopped,
}

/// The verdict on a slice, given whether the first process has come up.
pub fn prewarm_verdict(outcome: &SliceOutcome, init: bool) -> (r: PrewarmVerdict)
    ensures
        r == (match *outcome {
            SliceOutcome::Yielded => PrewarmVerdict::Continue,
            SliceOutcome::HostRequest(request) => if request.channel != HOME_9P_CHANNEL {
                PrewarmVerdict::WrongChannel(request.channel)
            } else if !init {
                PrewarmVerdict::BindBeforeInit
            } else {
                PrewarmVerdict::Suspended
            },
            _ => PrewarmVerdict::Stopped,
        }),
{
    match outcome {
        SliceOutcome::Yielded => PrewarmVerdict::Continue,
        SliceOutcome::HostRequest(request) => if request.channel != HOME_9P_CHANNEL {
            PrewarmVerdict::WrongChannel(request.channel)
        } else if !init {
            PrewarmVerdict::BindBeforeInit
        } else {
            PrewarmVerdict::Suspended
        },
        _ => PrewarmVerdict::Stopped,
    }
}

/// What the end of a slice means on the way to the principal's bind.
#[derive(Clone, Copy, Debug, PartialEq, Eq, Structural)]
pub enum BindVerdict {
    /// The guest runs on.
    Continue,
    /// The guest waits for bytes `start` to `end` of its system image.
    SystemBlock { start: usize, end: usize },
    /// The request for a system block does not name an offset.
    MalformedBlock,
    /// The requested system block lies outside the image.
    BlockOutOfRange,
    /// The guest waits on another channel than the home's.
    WrongChannel(u32),
    /// The guest waits for its home before its first process came up.
    BindBeforeInit,
    /// The guest waits for its home.
    Bound,
    /// The guest stopped, or used up its steps.
    Stopped,
}

/// The offset that a block request names.
pub open spec fn block_offset(message: Seq<u8>) -> Option<nat> {
    if message.len() == 8 {
        Some(bytes::le_value(message))
    } else {
        None
    }
}

pub open spec fn bind_spec(
    outcome: SliceOutcome,
    init: bool,
    steps_left: bool,
    system_bytes: int,
) -> BindVerdict {
    match outcome {
        SliceOutcome::Yielded => if steps_left {
            BindVerdict::Continue
        } else {
            BindVerdict::Stopped
        },
        SliceOutcome::HostRequest(request) => if request.channel == SYSTEM_BLOCK_CHANNEL {
            match block_offset(request.message@) {
                None => BindVerdict::MalformedBlock,
                Some(offset) => if offset + request.max_response_bytes > system_bytes {
                    BindVerdict::BlockOutOfRange
                } else {
                    BindVerdict::SystemBlock {
                        start: offset as usize,
                        end: (offset + request.max_response_bytes) as usize,
                    }
                },
            }
        } else if request.channel != HOME_9P_CHANNEL {
            BindVerdict::WrongChannel(request.channel)
        } else if !init {
            BindVerdict::BindBeforeInit
        } else {
            BindVerdict::Bound
        },
        _ => BindVerdict::Stopped,
    }
}

/// The verdict on a slice for a guest whose system image has `system_bytes`
/// bytes.
pub fn bind_verdict(
    outcome: &SliceOutcome,
    init: bool,
    steps_left: bool,
    system_bytes: usize,
) -> (r: BindVerdict)
    ensures
        r == bind_spec(*outcome, init, steps_left, system_bytes as int),
{
    match outcome {
        SliceOutcome::Yielded => if steps_left {
            BindVerdict::Continue
        } else {
            BindVerdict::Stopped
        },
        SliceOutcome::HostRequest(request) => if request.channel == SYSTEM_BLOCK_CHANNEL {
            system_block(request, system_bytes)
        } else if request.channel != HOME_9P_CHANNEL {
            BindVerdict::WrongChannel(request.channel)
        } else if !init {
            BindVerdict::BindBeforeInit
        } else {
            BindVerdict::Bound
        },
        _ => BindVerdict::Stopped,
    }
}

fn system_block(request: &Plan9Request, system_bytes: usize) -> (r: BindVerdict)
    requires
        request.channel == SYSTEM_BLOCK_CHANNEL,
    ensures
        r == bind_spec(
            SliceOutcome::HostRequest(*request),
            false,
            false,
            system_bytes as int,
        ),
{
    if request.message.len() != 8 {
        return BindVerdict::MalformedBlock;
    }
    assert(request.message@.subrange(0, 8) =~= request.message@);
    let offset: u64 = bytes::read_le(request.message.as_slice(), 0, 8);
    if offset > system_bytes as u64 {
        return BindVerdict::BlockOutOfRange;
    }
    let start: usize = offset as usize;
    if request.max_response_bytes > system_bytes - start {
        return BindVerdict::BlockOutOfRange;
    }
    BindVerdict::SystemBlock { start, end: start + request.max_response_bytes }
}

/// Why a checkpoint is not the wanted template.
#[derive(Clone, Copy, Debug, PartialEq, Eq, Structural)]
pub enum TemplateRefusal {
    RamBytes(usize),
    Harts(usize),
    Channel(u32),
}

/// Whether a checkpoint stops at the home bind of a machine of this size.
pub fn validate_checkpoint(checkpoint: &MachineCheckpoint, ram_bytes: usize, hart_count: usize) -> (r:
    Result<(), TemplateRefusal>)
    requires
        checkpoint.wf(),
    ensures
        r == (if checkpoint@.config.ram_bytes != ram_bytes {
            Err(TemplateRefusal::RamBytes(checkpoint@.config.ram_bytes))
        } else if checkpoint@.harts.len() != hart_count {
            Err(TemplateRefusal::Harts(checkpoint@.harts.len() as usize))
        } else if checkpoint@.pending_request()->Some_0.channel != HOME_9P_CHANNEL {
            Err(TemplateRefusal::Channel(checkpoint@.pending_request()->Some_0.channel))
        } else {
            Ok(())
        }),
{
    if checkpoint.ram_bytes() != ram_bytes {
        return Err(TemplateRefusal::RamBytes(checkpoint.ram_bytes()));
    }
    if checkpoint.hart_count() != hart_count {
        return Err(TemplateRefusal::Harts(checkpoint.hart_count()));
    }
    let channel: u32 = checkpoint.pending_host_request().channel;
    if channel != HOME_9P_CHANNEL {
        return Err(TemplateRefusal::Channel(channel));
    }
    Ok(())
}

} // verus!
