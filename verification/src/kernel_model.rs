//! Mathematical model of the realm kernel: its state, what each operation does
//! to it, and the accounts that every operation keeps.

use crate::process::{
    Descriptor, DescriptorBinding, DescriptorResource, ExecutableId, KernelError, ParkResult,
    PipeEnds, PipeId, PipeReadResult, PipeWriteResult, ProcessId, ProcessOperation, ProcessState,
    Quota, RealmLimits, Signal, Termination, WaitReason, WaitResult, FIRST_FILE_FD, MAX_PATH_BYTES,
};
use crate::text;
use vstd::prelude::*;

verus! {

/// One open descriptor.
pub type Open = (Descriptor, DescriptorResource);

#[verifier::ext_equal]
pub struct ProcessView {
    pub id: ProcessId,
    pub parent: Option<ProcessId>,
    pub executable: ExecutableId,
    pub cwd: Seq<char>,
    pub state: ProcessState,
    pub descriptors: Seq<Open>,
}

#[verifier::ext_equal]
pub struct PipeView {
    pub id: PipeId,
    pub capacity: usize,
    pub bytes: Seq<u8>,
    pub readers: usize,
    pub writers: usize,
}

/// Kernel state. Processes and pipes are listed in the order of their
/// identities, descriptors in the order of their numbers.
#[verifier::ext_equal]
pub struct KernelView {
    pub limits: RealmLimits,
    pub processes: Seq<ProcessView>,
    pub pipes: Seq<PipeView>,
    pub queue: Seq<ProcessId>,
    pub running: Option<ProcessId>,
    pub next_process: u64,
    pub next_pipe: u64,
    pub reserved: usize,
}

#[verifier::ext_equal]
pub enum ReadView {
    Data(Seq<u8>),
    WouldBlock,
    Eof,
}

pub open spec fn read_view(result: PipeReadResult) -> ReadView {
    match result {
        PipeReadResult::Data(data) => ReadView::Data(data@),
        PipeReadResult::WouldBlock => ReadView::WouldBlock,
        PipeReadResult::Eof => ReadView::Eof,
    }
}

// Looking things up.

pub open spec fn find_process(processes: Seq<ProcessView>, id: ProcessId) -> Option<int>
    decreases processes.len(),
{
    if processes.len() == 0 {
        None
    } else if processes.last().id == id {
        Some(processes.len() - 1)
    } else {
        find_process(processes.drop_last(), id)
    }
}

pub open spec fn find_pipe(pipes: Seq<PipeView>, id: PipeId) -> Option<int>
    decreases pipes.len(),
{
    if pipes.len() == 0 {
        None
    } else if pipes.last().id == id {
        Some(pipes.len() - 1)
    } else {
        find_pipe(pipes.drop_last(), id)
    }
}

pub open spec fn find_open(open: Seq<Open>, descriptor: Descriptor) -> Option<int>
    decreases open.len(),
{
    if open.len() == 0 {
        None
    } else if open.last().0 == descriptor {
        Some(open.len() - 1)
    } else {
        find_open(open.drop_last(), descriptor)
    }
}

/// Where a descriptor belongs in an ordered list.
pub open spec fn place_of(open: Seq<Open>, descriptor: Descriptor) -> int
    decreases open.len(),
{
    if open.len() == 0 {
        0
    } else if open.last().0.0 < descriptor.0 {
        open.len() as int
    } else {
        place_of(open.drop_last(), descriptor)
    }
}

pub open spec fn installed(
    open: Seq<Open>,
    descriptor: Descriptor,
    resource: DescriptorResource,
) -> Seq<Open> {
    open.insert(place_of(open, descriptor), (descriptor, resource))
}

/// Number of descriptors in a list that hold a resource.
pub open spec fn uses(open: Seq<Open>, resource: DescriptorResource) -> nat
    decreases open.len(),
{
    if open.len() == 0 {
        0
    } else {
        uses(open.drop_last(), resource) + if open.last().1 == resource {
            1nat
        } else {
            0nat
        }
    }
}

/// Number of descriptors of all processes that hold a resource.
pub open spec fn total_uses(processes: Seq<ProcessView>, resource: DescriptorResource) -> nat
    decreases processes.len(),
{
    if processes.len() == 0 {
        0
    } else {
        total_uses(processes.drop_last(), resource) + uses(processes.last().descriptors, resource)
    }
}

pub open spec fn total_capacity(pipes: Seq<PipeView>) -> nat
    decreases pipes.len(),
{
    if pipes.len() == 0 {
        0
    } else {
        total_capacity(pipes.drop_last()) + pipes.last().capacity as nat
    }
}

// The accounts.

pub open spec fn processes_ordered(processes: Seq<ProcessView>) -> bool {
    forall|i: int, j: int|
        0 <= i < j < processes.len() ==> (#[trigger] processes[i]).id.0 < (
        #[trigger] processes[j]).id.0
}

pub open spec fn pipes_ordered(pipes: Seq<PipeView>) -> bool {
    forall|i: int, j: int|
        0 <= i < j < pipes.len() ==> (#[trigger] pipes[i]).id.0 < (#[trigger] pipes[j]).id.0
}

pub open spec fn open_ordered(open: Seq<Open>) -> bool {
    forall|i: int, j: int|
        0 <= i < j < open.len() ==> (#[trigger] open[i]).0.0 < (#[trigger] open[j]).0.0
}

/// Every endpoint is counted, and every counted endpoint has its pipe. The
/// descriptors in `owed` have left their process but are not released yet.
pub open spec fn balanced(k: KernelView, owed: Seq<Open>) -> bool {
    &&& forall|i: int|
        #![trigger k.pipes[i]]
        0 <= i < k.pipes.len() ==> {
            let pipe = k.pipes[i];
            &&& pipe.readers == total_uses(k.processes, DescriptorResource::PipeRead(pipe.id))
                + uses(owed, DescriptorResource::PipeRead(pipe.id))
            &&& pipe.writers == total_uses(k.processes, DescriptorResource::PipeWrite(pipe.id))
                + uses(owed, DescriptorResource::PipeWrite(pipe.id))
            &&& pipe.readers > 0 || pipe.writers > 0
        }
    &&& forall|resource: DescriptorResource|
        #![trigger total_uses(k.processes, resource)]
        #![trigger uses(owed, resource)]
        total_uses(k.processes, resource) + uses(owed, resource) > 0 ==> find_pipe(
            k.pipes,
            resource.pipe_id(),
        ) is Some
    &&& k.reserved == total_capacity(k.pipes)
}

/// Order of the tables and bounds of the identities.
pub open spec fn ordered(k: KernelView) -> bool {
    &&& processes_ordered(k.processes)
    &&& pipes_ordered(k.pipes)
    &&& forall|i: int|
        0 <= i < k.processes.len() ==> open_ordered((#[trigger] k.processes[i]).descriptors)
    &&& forall|i: int|
        0 <= i < k.processes.len() && k.next_process != 0 ==> (#[trigger] k.processes[i]).id.0
            < k.next_process
    &&& forall|i: int|
        0 <= i < k.pipes.len() && k.next_pipe != 0 ==> (#[trigger] k.pipes[i]).id.0 < k.next_pipe
}

/// Quotas and buffer bounds.
pub open spec fn bounded(k: KernelView) -> bool {
    &&& k.processes.len() <= k.limits.max_processes
    &&& k.pipes.len() <= k.limits.max_pipes
    &&& k.reserved <= k.limits.max_total_pipe_bytes
    &&& forall|i: int|
        0 <= i < k.processes.len() ==> (#[trigger] k.processes[i]).descriptors.len()
            <= k.limits.max_descriptors_per_process
    &&& forall|i: int|
        0 <= i < k.pipes.len() ==> (#[trigger] k.pipes[i]).bytes.len() <= k.pipes[i].capacity
            <= k.limits.max_pipe_bytes
}

/// At most one process runs, the ended hold nothing, and whoever can run is
/// queued.
pub open spec fn scheduled(k: KernelView) -> bool {
    &&& forall|i: int|
        0 <= i < k.processes.len() ==> ((#[trigger] k.processes[i]).state == ProcessState::Running
            <==> k.running == Some(k.processes[i].id))
    &&& k.running matches Some(id) ==> find_process(k.processes, id) is Some
    &&& forall|i: int|
        0 <= i < k.processes.len() && (#[trigger] k.processes[i]).state.ended() is Some
            ==> k.processes[i].descriptors.len() == 0
    &&& forall|i: int|
        0 <= i < k.processes.len() && (#[trigger] k.processes[i]).state == ProcessState::Runnable
            ==> k.queue.contains(k.processes[i].id)
}

pub open spec fn sound(k: KernelView) -> bool {
    &&& ordered(k)
    &&& bounded(k)
    &&& scheduled(k)
    &&& balanced(k, Seq::empty())
}

// What the operations do.

pub open spec fn fresh_kernel(limits: RealmLimits) -> KernelView {
    KernelView {
        limits,
        processes: Seq::empty(),
        pipes: Seq::empty(),
        queue: Seq::empty(),
        running: None,
        next_process: 1,
        next_pipe: 1,
        reserved: 0,
    }
}

/// The next identity; zero once the last one is taken.
pub open spec fn successor(raw: u64) -> u64 {
    if raw == u64::MAX {
        0
    } else {
        (raw + 1) as u64
    }
}

/// Why an operation on a process in the wrong state fails.
pub open spec fn state_refusal(
    k: KernelView,
    process: ProcessId,
    expected: ProcessState,
    operation: ProcessOperation,
) -> Option<KernelError> {
    match find_process(k.processes, process) {
        None => Some(KernelError::ProcessNotFound(process)),
        Some(i) => if k.processes[i].state == expected {
            None
        } else {
            Some(
                KernelError::InvalidTransition { process, state: k.processes[i].state, operation },
            )
        },
    }
}

pub open spec fn with_process(k: KernelView, i: int, process: ProcessView) -> KernelView {
    KernelView { processes: k.processes.update(i, process), ..k }
}

pub open spec fn with_state(k: KernelView, i: int, state: ProcessState) -> KernelView {
    with_process(k, i, ProcessView { state, ..k.processes[i] })
}

pub open spec fn plain_component(component: Seq<char>) -> bool {
    &&& component.len() > 0
    &&& component != seq!['.']
    &&& component != seq!['.', '.']
}

/// A normalized absolute guest path: no empty, `.` or `..` component, no
/// backslash and no control character.
pub open spec fn valid_cwd(cwd: Seq<char>) -> bool {
    &&& 0 < cwd.len()
    &&& vstd::utf8::encode_utf8(cwd).len() <= MAX_PATH_BYTES
    &&& cwd[0] == '/'
    &&& forall|i: int|
        0 <= i < cwd.len() ==> #[trigger] cwd[i] != '\\' && !text::is_control(cwd[i])
    &&& cwd.len() > 1 ==> forall|j: int|
        0 <= j < text::parts(cwd.skip(1), '/').len() ==> plain_component(
            #[trigger] text::parts(cwd.skip(1), '/')[j],
        )
}

pub open spec fn spawn_refusal(k: KernelView, cwd: Seq<char>) -> Option<KernelError> {
    if k.processes.len() >= k.limits.max_processes {
        Some(KernelError::QuotaExceeded(Quota::Processes))
    } else if !valid_cwd(cwd) {
        Some(KernelError::InvalidCwd)
    } else {
        None
    }
}

/// A new process with the next identity.
pub open spec fn inserted_spec(
    k: KernelView,
    parent: Option<ProcessId>,
    executable: ExecutableId,
    cwd: Seq<char>,
    descriptors: Seq<Open>,
) -> (KernelView, Result<ProcessId, KernelError>) {
    if k.next_process == 0 {
        (k, Err(KernelError::IdentifierExhausted))
    } else {
        (
            KernelView {
                processes: k.processes.push(
                    ProcessView {
                        id: ProcessId(k.next_process),
                        parent,
                        executable,
                        cwd,
                        state: ProcessState::Created,
                        descriptors,
                    },
                ),
                next_process: successor(k.next_process),
                ..k
            },
            Ok(ProcessId(k.next_process)),
        )
    }
}

pub open spec fn spawn_root_spec(k: KernelView, executable: ExecutableId, cwd: Seq<char>) -> (
    KernelView,
    Result<ProcessId, KernelError>,
) {
    match spawn_refusal(k, cwd) {
        Some(error) => (k, Err(error)),
        None => inserted_spec(k, None, executable, cwd, Seq::empty()),
    }
}

/// Descriptors that the first `count` bindings give a child.
pub open spec fn bound_spec(
    parent: ProcessId,
    open: Seq<Open>,
    bindings: Seq<DescriptorBinding>,
    count: nat,
) -> Result<Seq<Open>, KernelError>
    decreases count,
{
    if count == 0 {
        Ok(Seq::empty())
    } else {
        match bound_spec(parent, open, bindings, (count - 1) as nat) {
            Err(error) => Err(error),
            Ok(bound) => {
                let binding = bindings[count - 1];
                if binding.target.0 < 0 {
                    Err(KernelError::InvalidDescriptorTarget(binding.target))
                } else if find_open(bound, binding.target) is Some {
                    Err(KernelError::DuplicateDescriptorTarget(binding.target))
                } else {
                    match find_open(open, binding.source) {
                        None => Err(
                            KernelError::DescriptorNotFound {
                                process: parent,
                                descriptor: binding.source,
                            },
                        ),
                        Some(i) => Ok(installed(bound, binding.target, open[i].1)),
                    }
                }
            },
        }
    }
}

/// Whether some endpoint count could not hold the new descriptors.
pub open spec fn endpoints_overflow(pipes: Seq<PipeView>, open: Seq<Open>) -> bool {
    exists|i: int|
        #![trigger pipes[i]]
        0 <= i < pipes.len() && (pipes[i].readers + uses(
            open,
            DescriptorResource::PipeRead(pipes[i].id),
        ) > usize::MAX || pipes[i].writers + uses(
            open,
            DescriptorResource::PipeWrite(pipes[i].id),
        ) > usize::MAX)
}

pub open spec fn retained_pipe(pipe: PipeView, open: Seq<Open>) -> PipeView {
    PipeView {
        readers: (pipe.readers + uses(open, DescriptorResource::PipeRead(pipe.id))) as usize,
        writers: (pipe.writers + uses(open, DescriptorResource::PipeWrite(pipe.id))) as usize,
        ..pipe
    }
}

/// Pipes after every descriptor of a list is counted once more.
pub open spec fn retained(pipes: Seq<PipeView>, open: Seq<Open>) -> Seq<PipeView> {
    Seq::new(pipes.len(), |i: int| retained_pipe(pipes[i], open))
}

pub open spec fn spawn_child_spec(
    k: KernelView,
    parent: ProcessId,
    executable: ExecutableId,
    cwd: Seq<char>,
    bindings: Seq<DescriptorBinding>,
) -> (KernelView, Result<ProcessId, KernelError>) {
    match state_refusal(k, parent, ProcessState::Running, ProcessOperation::SpawnChild) {
        Some(error) => (k, Err(error)),
        None => match spawn_refusal(k, cwd) {
            Some(error) => (k, Err(error)),
            None => {
                let i = find_process(k.processes, parent)->Some_0;
                match bound_spec(parent, k.processes[i].descriptors, bindings, bindings.len()) {
                    Err(error) => (k, Err(error)),
                    Ok(open) => if open.len() > k.limits.max_descriptors_per_process {
                        (k, Err(KernelError::QuotaExceeded(Quota::Descriptors)))
                    } else if endpoints_overflow(k.pipes, open) {
                        (k, Err(KernelError::IdentifierExhausted))
                    } else {
                        let (after, result) = inserted_spec(
                            k,
                            Some(parent),
                            executable,
                            cwd,
                            open,
                        );
                        match result {
                            Err(error) => (k, Err(error)),
                            Ok(child) => (
                                KernelView { pipes: retained(k.pipes, open), ..after },
                                Ok(child),
                            ),
                        }
                    },
                }
            },
        },
    }
}

pub open spec fn admit_spec(k: KernelView, process: ProcessId) -> (
    KernelView,
    Result<(), KernelError>,
) {
    match state_refusal(k, process, ProcessState::Created, ProcessOperation::Admit) {
        Some(error) => (k, Err(error)),
        None => (
            KernelView {
                queue: k.queue.push(process),
                ..with_state(
                    k,
                    find_process(k.processes, process)->Some_0,
                    ProcessState::Runnable,
                )
            },
            Ok(()),
        ),
    }
}

/// Whether a queued identity still names a process that can run.
pub open spec fn can_run(k: KernelView, process: ProcessId) -> bool {
    match find_process(k.processes, process) {
        Some(i) => k.processes[i].state == ProcessState::Runnable,
        None => false,
    }
}

/// Queue entries that no longer name a runnable process are dropped on the way
/// to the first that does.
pub open spec fn dispatched_spec(k: KernelView) -> (KernelView, Option<ProcessId>)
    decreases k.queue.len(),
{
    if k.queue.len() == 0 {
        (k, None)
    } else {
        let process = k.queue[0];
        let popped = KernelView { queue: k.queue.drop_first(), ..k };
        if can_run(k, process) {
            (
                KernelView {
                    running: Some(process),
                    ..with_state(
                        popped,
                        find_process(k.processes, process)->Some_0,
                        ProcessState::Running,
                    )
                },
                Some(process),
            )
        } else {
            dispatched_spec(popped)
        }
    }
}

pub open spec fn dispatch_spec(k: KernelView) -> (KernelView, Option<ProcessId>) {
    if k.running is Some {
        (k, None)
    } else {
        dispatched_spec(k)
    }
}

pub open spec fn yield_spec(k: KernelView, process: ProcessId) -> (
    KernelView,
    Result<(), KernelError>,
) {
    match state_refusal(k, process, ProcessState::Running, ProcessOperation::Yield) {
        Some(error) => (k, Err(error)),
        None => (
            KernelView {
                running: None,
                queue: k.queue.push(process),
                ..with_state(
                    k,
                    find_process(k.processes, process)->Some_0,
                    ProcessState::Runnable,
                )
            },
            Ok(()),
        ),
    }
}

/// Identities of the processes parked for a reason, in order.
pub open spec fn parked(processes: Seq<ProcessView>, reason: WaitReason) -> Seq<ProcessId>
    decreases processes.len(),
{
    if processes.len() == 0 {
        Seq::empty()
    } else {
        let before = parked(processes.drop_last(), reason);
        if processes.last().state == ProcessState::Waiting(reason) {
            before.push(processes.last().id)
        } else {
            before
        }
    }
}

pub open spec fn woken(process: ProcessView, reason: WaitReason) -> ProcessView {
    if process.state == ProcessState::Waiting(reason) {
        ProcessView { state: ProcessState::Runnable, ..process }
    } else {
        process
    }
}

pub open spec fn wake_spec(k: KernelView, reason: WaitReason) -> KernelView {
    KernelView {
        processes: Seq::new(k.processes.len(), |i: int| woken(k.processes[i], reason)),
        queue: k.queue + parked(k.processes, reason),
        ..k
    }
}

/// A pipe with one endpoint less.
pub open spec fn released_pipe(pipe: PipeView, resource: DescriptorResource) -> PipeView {
    match resource {
        DescriptorResource::PipeRead(_) => PipeView {
            readers: (pipe.readers - 1) as usize,
            ..pipe
        },
        DescriptorResource::PipeWrite(_) => PipeView {
            writers: (pipe.writers - 1) as usize,
            ..pipe
        },
    }
}

/// Kernel with an endpoint uncounted; the last endpoint takes its pipe along.
pub open spec fn uncounted(k: KernelView, resource: DescriptorResource) -> KernelView {
    let i = find_pipe(k.pipes, resource.pipe_id())->Some_0;
    let pipe = released_pipe(k.pipes[i], resource);
    if pipe.readers == 0 && pipe.writers == 0 {
        KernelView {
            pipes: k.pipes.remove(i),
            reserved: (k.reserved - pipe.capacity) as usize,
            ..k
        }
    } else {
        KernelView { pipes: k.pipes.update(i, pipe), ..k }
    }
}

/// Kernel after an endpoint is released: the last reader wakes writers, the
/// last writer wakes readers.
pub open spec fn release_spec(k: KernelView, resource: DescriptorResource) -> KernelView {
    let i = find_pipe(k.pipes, resource.pipe_id())->Some_0;
    let pipe = released_pipe(k.pipes[i], resource);
    match resource {
        DescriptorResource::PipeRead(id) => if pipe.readers == 0 {
            wake_spec(uncounted(k, resource), WaitReason::PipeWritable(id))
        } else {
            uncounted(k, resource)
        },
        DescriptorResource::PipeWrite(id) => if pipe.writers == 0 {
            wake_spec(uncounted(k, resource), WaitReason::PipeReadable(id))
        } else {
            uncounted(k, resource)
        },
    }
}

/// The first `count` descriptors of a list released in order.
pub open spec fn release_all_spec(k: KernelView, open: Seq<Open>, count: nat) -> KernelView
    decreases count,
{
    if count == 0 {
        k
    } else {
        release_spec(release_all_spec(k, open, (count - 1) as nat), open[count - 1].1)
    }
}

pub open spec fn orphaned(processes: Seq<ProcessView>, parent: ProcessId) -> Seq<ProcessView> {
    Seq::new(
        processes.len(),
        |i: int|
            if processes[i].parent == Some(parent) {
                ProcessView { parent: None, ..processes[i] }
            } else {
                processes[i]
            },
    )
}

/// Process `i` ended: its descriptors are released, its children handed to the
/// supervisor, and its waiting parent woken.
pub open spec fn terminated(k: KernelView, i: int, termination: Termination) -> KernelView {
    let process = k.processes[i];
    let stripped = with_process(k, i, ProcessView { descriptors: Seq::empty(), ..process });
    let released = release_all_spec(stripped, process.descriptors, process.descriptors.len());
    let disowned = KernelView { processes: orphaned(released.processes, process.id), ..released };
    let ended = with_state(disowned, i, ProcessState::of_termination(termination));
    let stopped = KernelView {
        running: if ended.running == Some(process.id) {
            None
        } else {
            ended.running
        },
        ..ended
    };
    wake_spec(stopped, WaitReason::Child(process.id))
}

pub open spec fn exit_spec(k: KernelView, process: ProcessId, status: i32) -> (
    KernelView,
    Result<(), KernelError>,
) {
    match state_refusal(k, process, ProcessState::Running, ProcessOperation::Exit) {
        Some(error) => (k, Err(error)),
        None => (
            terminated(
                k,
                find_process(k.processes, process)->Some_0,
                Termination::Exited(status),
            ),
            Ok(()),
        ),
    }
}

pub open spec fn signal_spec(k: KernelView, process: ProcessId, signal: Signal) -> (
    KernelView,
    Result<(), KernelError>,
) {
    match find_process(k.processes, process) {
        None => (k, Err(KernelError::ProcessNotFound(process))),
        Some(i) => if k.processes[i].state.ended() is Some {
            (
                k,
                Err(
                    KernelError::InvalidTransition {
                        process,
                        state: k.processes[i].state,
                        operation: ProcessOperation::Signal,
                    },
                ),
            )
        } else {
            (terminated(k, i, Termination::Signaled(signal)), Ok(()))
        },
    }
}

pub open spec fn wait_spec(k: KernelView, parent: ProcessId, child: ProcessId) -> (
    KernelView,
    Result<WaitResult, KernelError>,
) {
    match state_refusal(k, parent, ProcessState::Running, ProcessOperation::WaitChild) {
        Some(error) => (k, Err(error)),
        None => match find_process(k.processes, child) {
            None => (k, Err(KernelError::ProcessNotFound(child))),
            Some(c) => if k.processes[c].parent != Some(parent) {
                (k, Err(KernelError::NotChild { parent, child }))
            } else {
                match k.processes[c].state.ended() {
                    Some(termination) => (
                        KernelView { processes: k.processes.remove(c), ..k },
                        Ok(WaitResult::Reaped(termination)),
                    ),
                    None => (
                        KernelView {
                            running: None,
                            ..with_state(
                                k,
                                find_process(k.processes, parent)->Some_0,
                                ProcessState::Waiting(WaitReason::Child(child)),
                            )
                        },
                        Ok(WaitResult::Pending),
                    ),
                }
            },
        },
    }
}

pub open spec fn reap_spec(k: KernelView, process: ProcessId) -> (
    KernelView,
    Result<Termination, KernelError>,
) {
    match find_process(k.processes, process) {
        None => (k, Err(KernelError::ProcessNotFound(process))),
        Some(i) => if k.processes[i].parent is Some {
            (k, Err(KernelError::ProcessHasParent(process)))
        } else {
            match k.processes[i].state.ended() {
                None => (k, Err(KernelError::ProcessStillLive(process))),
                Some(termination) => (
                    KernelView { processes: k.processes.remove(i), ..k },
                    Ok(termination),
                ),
            }
        },
    }
}

/// Smallest free descriptor number at or above `raw`. The largest number of
/// the representation is never handed out.
pub open spec fn first_free(open: Seq<Open>, raw: int) -> Option<int>
    decreases i32::MAX - raw,
{
    if raw >= i32::MAX {
        None
    } else if find_open(open, Descriptor(raw as i32)) is None {
        Some(raw)
    } else {
        first_free(open, raw + 1)
    }
}

/// The two lowest free descriptor numbers for files.
pub open spec fn free_pair(open: Seq<Open>) -> Option<(int, int)> {
    match first_free(open, FIRST_FILE_FD as int) {
        None => None,
        Some(read) => match first_free(open, read + 1) {
            None => None,
            Some(write) => Some((read, write)),
        },
    }
}

/// Why a pipe of this capacity is not created by process `i`.
pub open spec fn pipe_refusal(k: KernelView, i: int, capacity: usize) -> Option<KernelError> {
    let open = k.processes[i].descriptors;
    if capacity == 0 {
        Some(KernelError::InvalidPipeCapacity)
    } else if capacity > k.limits.max_pipe_bytes {
        Some(KernelError::QuotaExceeded(Quota::PipeBytes))
    } else if k.pipes.len() >= k.limits.max_pipes {
        Some(KernelError::QuotaExceeded(Quota::Pipes))
    } else if k.reserved + capacity > usize::MAX {
        Some(KernelError::InvalidPipeCapacity)
    } else if k.reserved + capacity > k.limits.max_total_pipe_bytes {
        Some(KernelError::QuotaExceeded(Quota::TotalPipeBytes))
    } else if open.len() + 2 > k.limits.max_descriptors_per_process {
        Some(KernelError::QuotaExceeded(Quota::Descriptors))
    } else if free_pair(open) is None || k.next_pipe == 0 {
        Some(KernelError::IdentifierExhausted)
    } else {
        None
    }
}

pub open spec fn piped(k: KernelView, i: int, capacity: usize) -> KernelView {
    let process = k.processes[i];
    let id = PipeId(k.next_pipe);
    let pair = free_pair(process.descriptors)->Some_0;
    let open = installed(
        installed(
            process.descriptors,
            Descriptor(pair.0 as i32),
            DescriptorResource::PipeRead(id),
        ),
        Descriptor(pair.1 as i32),
        DescriptorResource::PipeWrite(id),
    );
    KernelView {
        processes: k.processes.update(i, ProcessView { descriptors: open, ..process }),
        pipes: k.pipes.push(
            PipeView { id, capacity, bytes: Seq::empty(), readers: 1, writers: 1 },
        ),
        next_pipe: successor(k.next_pipe),
        reserved: (k.reserved + capacity) as usize,
        ..k
    }
}

pub open spec fn create_pipe_spec(k: KernelView, owner: ProcessId, capacity: usize) -> (
    KernelView,
    Result<PipeEnds, KernelError>,
) {
    match state_refusal(k, owner, ProcessState::Running, ProcessOperation::Descriptor) {
        Some(error) => (k, Err(error)),
        None => {
            let i = find_process(k.processes, owner)->Some_0;
            match pipe_refusal(k, i, capacity) {
                Some(error) => (k, Err(error)),
                None => {
                    let pair = free_pair(k.processes[i].descriptors)->Some_0;
                    (
                        piped(k, i, capacity),
                        Ok(
                            PipeEnds {
                                read: Descriptor(pair.0 as i32),
                                write: Descriptor(pair.1 as i32),
                            },
                        ),
                    )
                },
            }
        },
    }
}

pub open spec fn descriptor_spec(k: KernelView, process: ProcessId, descriptor: Descriptor) -> Result<
    DescriptorResource,
    KernelError,
> {
    match find_process(k.processes, process) {
        None => Err(KernelError::ProcessNotFound(process)),
        Some(i) => match find_open(k.processes[i].descriptors, descriptor) {
            None => Err(KernelError::DescriptorNotFound { process, descriptor }),
            Some(d) => Ok(k.processes[i].descriptors[d].1),
        },
    }
}

pub open spec fn close_spec(k: KernelView, process: ProcessId, descriptor: Descriptor) -> (
    KernelView,
    Result<(), KernelError>,
) {
    match state_refusal(k, process, ProcessState::Running, ProcessOperation::Descriptor) {
        Some(error) => (k, Err(error)),
        None => {
            let i = find_process(k.processes, process)->Some_0;
            let open = k.processes[i].descriptors;
            match find_open(open, descriptor) {
                None => (k, Err(KernelError::DescriptorNotFound { process, descriptor })),
                Some(d) => (
                    release_spec(
                        with_process(
                            k,
                            i,
                            ProcessView { descriptors: open.remove(d), ..k.processes[i] },
                        ),
                        open[d].1,
                    ),
                    Ok(()),
                ),
            }
        },
    }
}

pub open spec fn read_end(k: KernelView, process: ProcessId, descriptor: Descriptor) -> Result<
    PipeId,
    KernelError,
> {
    match descriptor_spec(k, process, descriptor) {
        Err(error) => Err(error),
        Ok(DescriptorResource::PipeRead(pipe)) => Ok(pipe),
        Ok(DescriptorResource::PipeWrite(_)) => Err(
            KernelError::WrongDescriptorKind { process, descriptor },
        ),
    }
}

pub open spec fn write_end(k: KernelView, process: ProcessId, descriptor: Descriptor) -> Result<
    PipeId,
    KernelError,
> {
    match descriptor_spec(k, process, descriptor) {
        Err(error) => Err(error),
        Ok(DescriptorResource::PipeWrite(pipe)) => Ok(pipe),
        Ok(DescriptorResource::PipeRead(_)) => Err(
            KernelError::WrongDescriptorKind { process, descriptor },
        ),
    }
}

pub open spec fn with_bytes(k: KernelView, i: int, bytes: Seq<u8>) -> KernelView {
    KernelView { pipes: k.pipes.update(i, PipeView { bytes, ..k.pipes[i] }), ..k }
}

pub open spec fn smaller(a: int, b: int) -> int {
    if a < b {
        a
    } else {
        b
    }
}

/// Reading from pipe `i`: the oldest bytes, end of file, or nothing yet.
pub open spec fn pipe_read_spec(k: KernelView, i: int, max_bytes: usize) -> (KernelView, ReadView) {
    let pipe = k.pipes[i];
    if max_bytes == 0 {
        (k, ReadView::Data(Seq::empty()))
    } else if pipe.bytes.len() == 0 {
        (
            k,
            if pipe.writers == 0 {
                ReadView::Eof
            } else {
                ReadView::WouldBlock
            },
        )
    } else {
        let count = smaller(max_bytes as int, pipe.bytes.len() as int);
        (
            wake_spec(
                with_bytes(k, i, pipe.bytes.subrange(count, pipe.bytes.len() as int)),
                WaitReason::PipeWritable(pipe.id),
            ),
            ReadView::Data(pipe.bytes.subrange(0, count)),
        )
    }
}

pub open spec fn read_spec(
    k: KernelView,
    process: ProcessId,
    descriptor: Descriptor,
    max_bytes: usize,
) -> (KernelView, Result<ReadView, KernelError>) {
    match state_refusal(k, process, ProcessState::Running, ProcessOperation::Descriptor) {
        Some(error) => (k, Err(error)),
        None => match read_end(k, process, descriptor) {
            Err(error) => (k, Err(error)),
            Ok(id) => {
                let (after, result) = pipe_read_spec(
                    k,
                    find_pipe(k.pipes, id)->Some_0,
                    max_bytes,
                );
                (after, Ok(result))
            },
        },
    }
}

/// Writing to pipe `i`: as many bytes as fit, or why none are taken.
pub open spec fn pipe_write_spec(k: KernelView, i: int, data: Seq<u8>) -> (
    KernelView,
    PipeWriteResult,
) {
    let pipe = k.pipes[i];
    if data.len() == 0 {
        (k, PipeWriteResult::Written(0))
    } else if pipe.readers == 0 {
        (k, PipeWriteResult::BrokenPipe)
    } else if pipe.bytes.len() >= pipe.capacity {
        (k, PipeWriteResult::WouldBlock)
    } else {
        let count = smaller(pipe.capacity - pipe.bytes.len(), data.len() as int);
        (
            wake_spec(
                with_bytes(k, i, pipe.bytes + data.subrange(0, count)),
                WaitReason::PipeReadable(pipe.id),
            ),
            PipeWriteResult::Written(count as usize),
        )
    }
}

pub open spec fn write_spec(
    k: KernelView,
    process: ProcessId,
    descriptor: Descriptor,
    data: Seq<u8>,
) -> (KernelView, Result<PipeWriteResult, KernelError>) {
    match state_refusal(k, process, ProcessState::Running, ProcessOperation::Descriptor) {
        Some(error) => (k, Err(error)),
        None => match write_end(k, process, descriptor) {
            Err(error) => (k, Err(error)),
            Ok(id) => {
                let (after, result) = pipe_write_spec(k, find_pipe(k.pipes, id)->Some_0, data);
                (after, Ok(result))
            },
        },
    }
}

/// A running process parked for a reason.
pub open spec fn parked_at(k: KernelView, process: ProcessId, reason: WaitReason) -> KernelView {
    KernelView {
        running: None,
        ..with_state(
            k,
            find_process(k.processes, process)->Some_0,
            ProcessState::Waiting(reason),
        )
    }
}

pub open spec fn park_read_spec(k: KernelView, process: ProcessId, descriptor: Descriptor) -> (
    KernelView,
    Result<ParkResult, KernelError>,
) {
    match state_refusal(k, process, ProcessState::Running, ProcessOperation::Park) {
        Some(error) => (k, Err(error)),
        None => match read_end(k, process, descriptor) {
            Err(error) => (k, Err(error)),
            Ok(id) => {
                let pipe = k.pipes[find_pipe(k.pipes, id)->Some_0];
                if pipe.bytes.len() > 0 || pipe.writers == 0 {
                    (k, Ok(ParkResult::Ready))
                } else {
                    (parked_at(k, process, WaitReason::PipeReadable(id)), Ok(ParkResult::Parked))
                }
            },
        },
    }
}

pub open spec fn park_write_spec(k: KernelView, process: ProcessId, descriptor: Descriptor) -> (
    KernelView,
    Result<ParkResult, KernelError>,
) {
    match state_refusal(k, process, ProcessState::Running, ProcessOperation::Park) {
        Some(error) => (k, Err(error)),
        None => match write_end(k, process, descriptor) {
            Err(error) => (k, Err(error)),
            Ok(id) => {
                let pipe = k.pipes[find_pipe(k.pipes, id)->Some_0];
                if pipe.readers == 0 || pipe.bytes.len() < pipe.capacity {
                    (k, Ok(ParkResult::Ready))
                } else {
                    (parked_at(k, process, WaitReason::PipeWritable(id)), Ok(ParkResult::Parked))
                }
            },
        },
    }
}

} // verus!
