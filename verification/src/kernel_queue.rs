//! The run queue names every process at most once.

use crate::kernel_laws;
use crate::kernel_model;
use crate::kernel_model::{KernelView, Open, ProcessView};
use crate::process::{
    Descriptor, DescriptorBinding, DescriptorResource, ExecutableId, ProcessId, ProcessState,
    RealmLimits, Signal, Termination, WaitReason,
};
use vstd::prelude::*;

verus! {

/// A process that may be queued: it can run, or it ended while it could.
pub open spec fn may_be_queued(process: ProcessView) -> bool {
    process.state == ProcessState::Runnable || process.state.ended() is Some
}

/// No identity is queued twice, and none of a process that runs, waits or was
/// never admitted.
pub open spec fn lined_up(k: KernelView) -> bool {
    &&& k.queue.no_duplicates()
    &&& forall|i: int, j: int|
        #![trigger k.queue[i], k.processes[j]]
        0 <= i < k.queue.len() && 0 <= j < k.processes.len() && k.queue[i] == k.processes[j].id
            ==> may_be_queued(k.processes[j])
    &&& forall|i: int|
        0 <= i < k.queue.len() && k.next_process != 0 ==> (#[trigger] k.queue[i]).0
            < k.next_process
}

/// Process identities are in order and below the next one.
spec fn numbered(k: KernelView) -> bool {
    &&& kernel_model::processes_ordered(k.processes)
    &&& forall|i: int|
        0 <= i < k.processes.len() && k.next_process != 0 ==> (#[trigger] k.processes[i]).id.0
            < k.next_process
}

/// Neither the queue nor who may be in it changes.
proof fn lemma_same_line(a: KernelView, b: KernelView)
    requires
        lined_up(a),
        b.queue == a.queue,
        b.next_process == a.next_process,
        b.processes.len() == a.processes.len(),
        forall|j: int|
            0 <= j < a.processes.len() ==> {
                &&& (#[trigger] b.processes[j]).id == a.processes[j].id
                &&& may_be_queued(a.processes[j]) ==> may_be_queued(b.processes[j])
            },
    ensures
        lined_up(b),
{
    assert forall|i: int, j: int|
        #![trigger b.queue[i], b.processes[j]]
        0 <= i < b.queue.len() && 0 <= j < b.processes.len() && b.queue[i]
            == b.processes[j].id implies may_be_queued(b.processes[j]) by {
        assert(a.queue[i] == a.processes[j].id);
    }
}

proof fn lemma_parked_waits(processes: Seq<ProcessView>, reason: WaitReason, at: int)
    requires
        0 <= at < kernel_model::parked(processes, reason).len(),
    ensures
        exists|i: int|
            0 <= i < processes.len() && (#[trigger] processes[i]).id == kernel_model::parked(
                processes,
                reason,
            )[at] && processes[i].state == ProcessState::Waiting(reason),
    decreases processes.len(),
{
    let front = processes.drop_last();
    let before = kernel_model::parked(front, reason);
    let all = kernel_model::parked(processes, reason);
    if at < before.len() {
        lemma_parked_waits(front, reason, at);
        let i = choose|i: int|
            0 <= i < front.len() && (#[trigger] front[i]).id == before[at] && front[i].state
                == ProcessState::Waiting(reason);
        assert(processes[i] == front[i]);
        assert(all[at] == before[at]);
    } else {
        assert(processes[processes.len() - 1].id == all[at]);
    }
}

proof fn lemma_parked_distinct(processes: Seq<ProcessView>, reason: WaitReason)
    requires
        kernel_model::processes_ordered(processes),
    ensures
        kernel_model::parked(processes, reason).no_duplicates(),
    decreases processes.len(),
{
    if processes.len() > 0 {
        let front = processes.drop_last();
        let before = kernel_model::parked(front, reason);
        let all = kernel_model::parked(processes, reason);
        assert(kernel_model::processes_ordered(front)) by {
            assert forall|i: int, j: int| 0 <= i < j < front.len() implies (
            #[trigger] front[i]).id.0 < (#[trigger] front[j]).id.0 by {
                assert(front[i] == processes[i] && front[j] == processes[j]);
            }
        }
        lemma_parked_distinct(front, reason);
        assert forall|a: int, b: int| 0 <= a < b < all.len() implies all[a] != all[b] by {
            assert(all[a] == before[a]);
            if b < before.len() {
                assert(all[b] == before[b]);
            } else {
                lemma_parked_waits(front, reason, a);
                let i = choose|i: int|
                    0 <= i < front.len() && (#[trigger] front[i]).id == before[a]
                        && front[i].state == ProcessState::Waiting(reason);
                assert(front[i] == processes[i]);
                assert(processes[i].id.0 < processes[processes.len() - 1].id.0);
            }
        }
    }
}

proof fn lemma_wake_lined_up(k: KernelView, reason: WaitReason)
    requires
        numbered(k),
        lined_up(k),
    ensures
        numbered(kernel_model::wake_spec(k, reason)),
        lined_up(kernel_model::wake_spec(k, reason)),
{
    let parked = kernel_model::parked(k.processes, reason);
    let after = kernel_model::wake_spec(k, reason);
    lemma_parked_distinct(k.processes, reason);
    assert forall|at: int| 0 <= at < parked.len() implies exists|i: int|
        0 <= i < k.processes.len() && (#[trigger] k.processes[i]).id == #[trigger] parked[at]
            && k.processes[i].state == ProcessState::Waiting(reason) by {
        lemma_parked_waits(k.processes, reason, at);
    }
    assert forall|a: int, b: int| 0 <= a < b < after.queue.len() implies after.queue[a]
        != after.queue[b] by {
        if a < k.queue.len() && b >= k.queue.len() {
            let at = b - k.queue.len();
            assert(after.queue[b] == parked[at]);
            let i = choose|i: int|
                0 <= i < k.processes.len() && (#[trigger] k.processes[i]).id == parked[at]
                    && k.processes[i].state == ProcessState::Waiting(reason);
            assert(after.queue[a] == k.queue[a]);
            if k.queue[a] == k.processes[i].id {
                assert(may_be_queued(k.processes[i]));
            }
        } else if a >= k.queue.len() {
            assert(after.queue[a] == parked[a - k.queue.len()]);
            assert(after.queue[b] == parked[b - k.queue.len()]);
        } else {
            assert(after.queue[a] == k.queue[a]);
            assert(after.queue[b] == k.queue[b]);
        }
    }
    assert forall|i: int, j: int|
        #![trigger after.queue[i], after.processes[j]]
        0 <= i < after.queue.len() && 0 <= j < after.processes.len() && after.queue[i]
            == after.processes[j].id implies may_be_queued(after.processes[j]) by {
        assert(after.processes[j].id == k.processes[j].id);
        if i < k.queue.len() {
            assert(after.queue[i] == k.queue[i]);
            assert(may_be_queued(k.processes[j]));
        } else {
            let at = i - k.queue.len();
            assert(after.queue[i] == parked[at]);
            let p = choose|p: int|
                0 <= p < k.processes.len() && (#[trigger] k.processes[p]).id == parked[at]
                    && k.processes[p].state == ProcessState::Waiting(reason);
            if p < j {
                assert(k.processes[p].id.0 < k.processes[j].id.0);
            } else if j < p {
                assert(k.processes[j].id.0 < k.processes[p].id.0);
            }
        }
    }
    assert forall|i: int| 0 <= i < after.queue.len() && after.next_process != 0 implies (
    #[trigger] after.queue[i]).0 < after.next_process by {
        if i < k.queue.len() {
            assert(after.queue[i] == k.queue[i]);
        } else {
            assert(after.queue[i] == parked[i - k.queue.len()]);
        }
    }
    assert forall|i: int, j: int| 0 <= i < j < after.processes.len() implies (
    #[trigger] after.processes[i]).id.0 < (#[trigger] after.processes[j]).id.0 by {
        assert(k.processes[i].id.0 < k.processes[j].id.0);
    }
}

proof fn lemma_release_lined_up(k: KernelView, resource: DescriptorResource)
    requires
        numbered(k),
        lined_up(k),
    ensures
        numbered(kernel_model::release_spec(k, resource)),
        lined_up(kernel_model::release_spec(k, resource)),
{
    let uncounted = kernel_model::uncounted(k, resource);
    lemma_same_line(k, uncounted);
    match resource {
        DescriptorResource::PipeRead(id) => {
            lemma_wake_lined_up(uncounted, WaitReason::PipeWritable(id));
        },
        DescriptorResource::PipeWrite(id) => {
            lemma_wake_lined_up(uncounted, WaitReason::PipeReadable(id));
        },
    }
}

proof fn lemma_release_all_lined_up(k: KernelView, open: Seq<Open>, count: nat)
    requires
        numbered(k),
        lined_up(k),
    ensures
        ({
            let after = kernel_model::release_all_spec(k, open, count);
            &&& numbered(after)
            &&& lined_up(after)
            &&& after.next_process == k.next_process
            &&& after.processes.len() == k.processes.len()
            &&& forall|i: int|
                0 <= i < k.processes.len() ==> (#[trigger] after.processes[i]).id
                    == k.processes[i].id
        }),
    decreases count,
{
    if count > 0 {
        let before = kernel_model::release_all_spec(k, open, (count - 1) as nat);
        lemma_release_all_lined_up(k, open, (count - 1) as nat);
        lemma_release_lined_up(before, open[count - 1].1);
        kernel_laws::lemma_release_frame(before, open[count - 1].1);
        let after = kernel_model::release_all_spec(k, open, count);
        assert forall|i: int| 0 <= i < k.processes.len() implies (
        #[trigger] after.processes[i]).id == k.processes[i].id by {
            assert(before.processes[i].id == k.processes[i].id);
        }
    }
}

pub proof fn fresh_kernels_are_lined_up(limits: RealmLimits)
    ensures
        lined_up(kernel_model::fresh_kernel(limits)),
{
}

/// A new process is not queued until it is admitted.
pub proof fn spawn_root_keeps_the_line(k: KernelView, executable: ExecutableId, cwd: Seq<char>)
    requires
        kernel_model::sound(k),
        lined_up(k),
    ensures
        lined_up(kernel_model::spawn_root_spec(k, executable, cwd).0),
{
}

/// Nor is a new child.
pub proof fn spawn_child_keeps_the_line(
    k: KernelView,
    parent: ProcessId,
    executable: ExecutableId,
    cwd: Seq<char>,
    bindings: Seq<DescriptorBinding>,
)
    requires
        kernel_model::sound(k),
        lined_up(k),
    ensures
        lined_up(kernel_model::spawn_child_spec(k, parent, executable, cwd, bindings).0),
{
}

/// Admission queues a process that was not queued before.
pub proof fn admit_keeps_the_line(k: KernelView, process: ProcessId)
    requires
        kernel_model::sound(k),
        lined_up(k),
    ensures
        lined_up(kernel_model::admit_spec(k, process).0),
{
    lemma_queued_again(k, process, ProcessState::Created);
}

/// A process that yields was not queued while it ran.
pub proof fn yield_keeps_the_line(k: KernelView, process: ProcessId)
    requires
        kernel_model::sound(k),
        lined_up(k),
    ensures
        lined_up(kernel_model::yield_spec(k, process).0),
        kernel_model::yield_spec(k, process).1 is Ok ==> !k.queue.contains(process),
{
    lemma_queued_again(k, process, ProcessState::Running);
}

proof fn lemma_queued_again(k: KernelView, process: ProcessId, state: ProcessState)
    requires
        kernel_model::sound(k),
        lined_up(k),
        state == ProcessState::Created || state == ProcessState::Running,
    ensures
        kernel_model::find_process(k.processes, process) matches Some(i) && k.processes[i].state
            == state ==> !k.queue.contains(process) && lined_up(
            (KernelView {
                queue: k.queue.push(process),
                ..kernel_model::with_state(
                    k,
                    kernel_model::find_process(k.processes, process)->Some_0,
                    ProcessState::Runnable,
                )
            }),
        ) && lined_up(
            (KernelView {
                running: None,
                queue: k.queue.push(process),
                ..kernel_model::with_state(
                    k,
                    kernel_model::find_process(k.processes, process)->Some_0,
                    ProcessState::Runnable,
                )
            }),
        ),
{
    kernel_laws::lemma_find_process(k.processes, process);
    if let Some(p) = kernel_model::find_process(k.processes, process) {
        if k.processes[p].state == state {
            assert forall|i: int| 0 <= i < k.queue.len() implies #[trigger] k.queue[i]
                != process by {
                if k.queue[i] == k.processes[p].id {
                    assert(may_be_queued(k.processes[p]));
                }
            }
            let after = KernelView {
                queue: k.queue.push(process),
                ..kernel_model::with_state(k, p, ProcessState::Runnable)
            };
            assert forall|i: int, j: int|
                #![trigger after.queue[i], after.processes[j]]
                0 <= i < after.queue.len() && 0 <= j < after.processes.len() && after.queue[i]
                    == after.processes[j].id implies may_be_queued(after.processes[j]) by {
                if j != p {
                    if i < k.queue.len() {
                        assert(k.queue[i] == k.processes[j].id);
                    } else if j < p {
                        assert(k.processes[j].id.0 < k.processes[p].id.0);
                    } else {
                        assert(k.processes[p].id.0 < k.processes[j].id.0);
                    }
                }
            }
            assert(after.queue.no_duplicates());
        }
    }
}

proof fn lemma_parking_keeps_the_line(k: KernelView, process: ProcessId, reason: WaitReason)
    requires
        kernel_model::sound(k),
        lined_up(k),
        kernel_model::find_process(k.processes, process) matches Some(i) && k.processes[i].state
            == ProcessState::Running,
    ensures
        lined_up(kernel_model::parked_at(k, process, reason)),
{
    kernel_laws::lemma_find_process(k.processes, process);
    lemma_same_line(k, kernel_model::parked_at(k, process, reason));
}

/// Whoever is parked was running, and so was not queued.
pub proof fn park_keeps_the_line(k: KernelView, process: ProcessId, descriptor: Descriptor)
    requires
        kernel_model::sound(k),
        lined_up(k),
    ensures
        lined_up(kernel_model::park_read_spec(k, process, descriptor).0),
        lined_up(kernel_model::park_write_spec(k, process, descriptor).0),
{
    if let Some(i) = kernel_model::find_process(k.processes, process) {
        if k.processes[i].state == ProcessState::Running {
            if let Ok(id) = kernel_model::read_end(k, process, descriptor) {
                lemma_parking_keeps_the_line(k, process, WaitReason::PipeReadable(id));
            }
            if let Ok(id) = kernel_model::write_end(k, process, descriptor) {
                lemma_parking_keeps_the_line(k, process, WaitReason::PipeWritable(id));
            }
        }
    }
}

/// Whoever is dispatched leaves the queue.
pub proof fn dispatch_keeps_the_line(k: KernelView)
    requires
        kernel_model::sound(k),
        lined_up(k),
    ensures
        lined_up(kernel_model::dispatch_spec(k).0),
{
    lemma_dispatched_lined_up(k);
}

proof fn lemma_dispatched_lined_up(k: KernelView)
    requires
        kernel_model::processes_ordered(k.processes),
        lined_up(k),
    ensures
        lined_up(kernel_model::dispatched_spec(k).0),
    decreases k.queue.len(),
{
    if k.queue.len() > 0 {
        let process = k.queue[0];
        let popped = KernelView { queue: k.queue.drop_first(), ..k };
        assert(lined_up(popped)) by {
            assert forall|i: int, j: int|
                #![trigger popped.queue[i], popped.processes[j]]
                0 <= i < popped.queue.len() && 0 <= j < popped.processes.len() && popped.queue[i]
                    == popped.processes[j].id implies may_be_queued(popped.processes[j]) by {
                assert(popped.queue[i] == k.queue[i + 1]);
            }
        }
        if kernel_model::can_run(k, process) {
            kernel_laws::lemma_find_process(k.processes, process);
            let p = kernel_model::find_process(k.processes, process)->Some_0;
            let after = kernel_model::dispatched_spec(k).0;
            assert forall|i: int, j: int|
                #![trigger after.queue[i], after.processes[j]]
                0 <= i < after.queue.len() && 0 <= j < after.processes.len() && after.queue[i]
                    == after.processes[j].id implies may_be_queued(after.processes[j]) by {
                assert(after.queue[i] == k.queue[i + 1]);
                if j == p {
                    assert(k.queue[0] == k.queue[i + 1]);
                } else {
                    assert(k.queue[i + 1] == k.processes[j].id);
                }
            }
        } else {
            lemma_dispatched_lined_up(popped);
        }
    }
}

proof fn lemma_terminated_lined_up(k: KernelView, i: int, termination: Termination)
    requires
        kernel_model::sound(k),
        lined_up(k),
        0 <= i < k.processes.len(),
    ensures
        lined_up(kernel_model::terminated(k, i, termination)),
{
    let process = k.processes[i];
    let open = process.descriptors;
    let stripped = kernel_model::with_process(
        k,
        i,
        ProcessView { descriptors: Seq::empty(), ..process },
    );
    lemma_same_line(k, stripped);
    lemma_release_all_lined_up(stripped, open, open.len());
    let released = kernel_model::release_all_spec(stripped, open, open.len());
    let disowned = KernelView {
        processes: kernel_model::orphaned(released.processes, process.id),
        ..released
    };
    let ended = kernel_model::with_state(disowned, i, ProcessState::of_termination(termination));
    let stopped = KernelView {
        running: if ended.running == Some(process.id) {
            None
        } else {
            ended.running
        },
        ..ended
    };
    assert forall|j: int| 0 <= j < released.processes.len() implies {
        &&& (#[trigger] stopped.processes[j]).id == released.processes[j].id
        &&& may_be_queued(released.processes[j]) ==> may_be_queued(stopped.processes[j])
    } by {
        assert(disowned.processes[j].state == released.processes[j].state);
    }
    lemma_same_line(released, stopped);
    assert(numbered(stopped)) by {
        assert forall|a: int, b: int| 0 <= a < b < stopped.processes.len() implies (
        #[trigger] stopped.processes[a]).id.0 < (#[trigger] stopped.processes[b]).id.0 by {
            assert(released.processes[a].id.0 < released.processes[b].id.0);
        }
    }
    lemma_wake_lined_up(stopped, WaitReason::Child(process.id));
}

/// A process that exits queues only those it wakes.
pub proof fn exit_keeps_the_line(k: KernelView, process: ProcessId, status: i32)
    requires
        kernel_model::sound(k),
        lined_up(k),
    ensures
        lined_up(kernel_model::exit_spec(k, process, status).0),
{
    kernel_laws::lemma_find_process(k.processes, process);
    if let Some(i) = kernel_model::find_process(k.processes, process) {
        lemma_terminated_lined_up(k, i, Termination::Exited(status));
    }
}

/// So does one that is ended by a signal.
pub proof fn signal_keeps_the_line(k: KernelView, process: ProcessId, signal: Signal)
    requires
        kernel_model::sound(k),
        lined_up(k),
    ensures
        lined_up(kernel_model::signal_spec(k, process, signal).0),
{
    kernel_laws::lemma_find_process(k.processes, process);
    if let Some(i) = kernel_model::find_process(k.processes, process) {
        lemma_terminated_lined_up(k, i, Termination::Signaled(signal));
    }
}

proof fn lemma_removed_lined_up(k: KernelView, c: int)
    requires
        lined_up(k),
        0 <= c < k.processes.len(),
    ensures
        lined_up((KernelView { processes: k.processes.remove(c), ..k })),
{
    let after = KernelView { processes: k.processes.remove(c), ..k };
    assert forall|i: int, j: int|
        #![trigger after.queue[i], after.processes[j]]
        0 <= i < after.queue.len() && 0 <= j < after.processes.len() && after.queue[i]
            == after.processes[j].id implies may_be_queued(after.processes[j]) by {
        if j < c {
            assert(after.processes[j] == k.processes[j]);
        } else {
            assert(after.processes[j] == k.processes[j + 1]);
        }
    }
}

/// Waiting for a child queues no one.
pub proof fn wait_keeps_the_line(k: KernelView, parent: ProcessId, child: ProcessId)
    requires
        kernel_model::sound(k),
        lined_up(k),
    ensures
        lined_up(kernel_model::wait_spec(k, parent, child).0),
{
    kernel_laws::lemma_find_process(k.processes, child);
    if let Some(c) = kernel_model::find_process(k.processes, child) {
        lemma_removed_lined_up(k, c);
    }
    if let Some(i) = kernel_model::find_process(k.processes, parent) {
        if k.processes[i].state == ProcessState::Running {
            lemma_parking_keeps_the_line(k, parent, WaitReason::Child(child));
        }
    }
}

/// Neither does reaping an orphan.
pub proof fn reap_keeps_the_line(k: KernelView, process: ProcessId)
    requires
        kernel_model::sound(k),
        lined_up(k),
    ensures
        lined_up(kernel_model::reap_spec(k, process).0),
{
    kernel_laws::lemma_find_process(k.processes, process);
    if let Some(i) = kernel_model::find_process(k.processes, process) {
        lemma_removed_lined_up(k, i);
    }
}

/// Nor a new pipe.
pub proof fn create_pipe_keeps_the_line(k: KernelView, owner: ProcessId, capacity: usize)
    requires
        kernel_model::sound(k),
        lined_up(k),
    ensures
        lined_up(kernel_model::create_pipe_spec(k, owner, capacity).0),
{
    kernel_laws::lemma_find_process(k.processes, owner);
    if let Some(i) = kernel_model::find_process(k.processes, owner) {
        lemma_same_line(k, kernel_model::piped(k, i, capacity));
    }
}

/// Closing a descriptor queues only those it wakes.
pub proof fn close_keeps_the_line(k: KernelView, process: ProcessId, descriptor: Descriptor)
    requires
        kernel_model::sound(k),
        lined_up(k),
    ensures
        lined_up(kernel_model::close_spec(k, process, descriptor).0),
{
    kernel_laws::lemma_find_process(k.processes, process);
    if let Some(i) = kernel_model::find_process(k.processes, process) {
        let open = k.processes[i].descriptors;
        if let Some(d) = kernel_model::find_open(open, descriptor) {
            let closed = kernel_model::with_process(
                k,
                i,
                ProcessView { descriptors: open.remove(d), ..k.processes[i] },
            );
            lemma_same_line(k, closed);
            lemma_release_lined_up(closed, open[d].1);
        }
    }
}

/// A read queues only the writers it wakes.
pub proof fn read_keeps_the_line(
    k: KernelView,
    process: ProcessId,
    descriptor: Descriptor,
    max_bytes: usize,
)
    requires
        kernel_model::sound(k),
        lined_up(k),
    ensures
        lined_up(kernel_model::read_spec(k, process, descriptor, max_bytes).0),
{
    if let Ok(id) = kernel_model::read_end(k, process, descriptor) {
        let p = kernel_model::find_pipe(k.pipes, id)->Some_0;
        let bytes = k.pipes[p].bytes;
        let count = kernel_model::smaller(max_bytes as int, bytes.len() as int);
        let drained = kernel_model::with_bytes(k, p, bytes.subrange(count, bytes.len() as int));
        lemma_same_line(k, drained);
        lemma_wake_lined_up(drained, WaitReason::PipeWritable(k.pipes[p].id));
    }
}

/// A write queues only the readers it wakes.
pub proof fn write_keeps_the_line(
    k: KernelView,
    process: ProcessId,
    descriptor: Descriptor,
    data: Seq<u8>,
)
    requires
        kernel_model::sound(k),
        lined_up(k),
    ensures
        lined_up(kernel_model::write_spec(k, process, descriptor, data).0),
{
    if let Ok(id) = kernel_model::write_end(k, process, descriptor) {
        let p = kernel_model::find_pipe(k.pipes, id)->Some_0;
        let pipe = k.pipes[p];
        let count = kernel_model::smaller(pipe.capacity - pipe.bytes.len(), data.len() as int);
        let filled = kernel_model::with_bytes(k, p, pipe.bytes + data.subrange(0, count));
        lemma_same_line(k, filled);
        lemma_wake_lined_up(filled, WaitReason::PipeReadable(pipe.id));
    }
}

/// A process that yields goes behind everyone already queued: as long as another
/// can run, the next dispatch picks another.
pub proof fn yielding_lets_others_run(k: KernelView, process: ProcessId, at: int)
    requires
        kernel_model::sound(k),
        lined_up(k),
        kernel_model::yield_spec(k, process).1 is Ok,
        0 <= at < k.queue.len(),
        kernel_model::can_run(k, k.queue[at]),
    ensures
        kernel_model::dispatch_spec(kernel_model::yield_spec(k, process).0).1 matches Some(next)
            && next != process && k.queue.contains(next),
{
    yield_keeps_the_line(k, process);
    let after = kernel_model::yield_spec(k, process).0;
    kernel_laws::lemma_find_process(k.processes, process);
    let i = kernel_model::find_process(k.processes, process)->Some_0;
    let id = k.queue[at];
    assert(id != process);
    kernel_laws::lemma_find_process(k.processes, id);
    let j = kernel_model::find_process(k.processes, id)->Some_0;
    assert(i != j);
    kernel_laws::yield_keeps_sound(k, process);
    assert(after.processes[j] == k.processes[j]);
    kernel_laws::lemma_find_unique(after, j);
    assert(after.queue[at] == id);
    let first = kernel_laws::lemma_first_that_can_run(after, at);
    kernel_laws::dispatch_follows_the_queue(after, first);
    assert(after.queue[first] == k.queue[first]);
}

} // verus!
