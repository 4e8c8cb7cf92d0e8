//! What processes learn of each other and of their pipes: the way a child ended,
//! and the two ends that a pipe is made with.

use crate::kernel_laws;
use crate::kernel_model;
use crate::kernel_model::{KernelView, Open, ProcessView};
use crate::process::{
    Descriptor, DescriptorResource, KernelError, PipeId, ProcessId, Signal, Termination, WaitResult,
};
use vstd::prelude::*;

verus! {

// Endings.

/// A process that has ended in a way, with nothing open and not running.
pub open spec fn has_ended(k: KernelView, process: ProcessId, termination: Termination) -> bool {
    kernel_model::find_process(k.processes, process) matches Some(i)
        && k.processes[i].state.ended() == Some(termination) && k.processes[i].descriptors.len()
        == 0 && k.running != Some(process)
}

proof fn lemma_terminated(k: KernelView, i: int, termination: Termination)
    requires
        kernel_model::sound(k),
        0 <= i < k.processes.len(),
    ensures
        has_ended(
            kernel_model::terminated(k, i, termination),
            k.processes[i].id,
            termination,
        ),
{
    let process = k.processes[i];
    let open = process.descriptors;
    let stripped = kernel_model::with_process(
        k,
        i,
        ProcessView { descriptors: Seq::empty(), ..process },
    );
    kernel_laws::lemma_stripped(k, i, Seq::empty(), open);
    kernel_laws::lemma_release_all(stripped, open, open.len());
    let released = kernel_model::release_all_spec(stripped, open, open.len());
    lemma_release_frame(stripped, open, open.len(), i);
    kernel_laws::termination_keeps_sound(k, i, termination);
    let after = kernel_model::terminated(k, i, termination);
    assert(released.processes[i].id == process.id);
    assert(after.processes[i].id == process.id);
    assert(after.processes[i].state.ended() == Some(termination));
    kernel_laws::lemma_find_unique(after, i);
}

proof fn lemma_release_frame(k: KernelView, open: Seq<Open>, count: nat, i: int)
    requires
        0 <= i < k.processes.len(),
        count <= open.len(),
    ensures
        ({
            let after = kernel_model::release_all_spec(k, open, count);
            &&& after.processes.len() == k.processes.len()
            &&& after.processes[i].id == k.processes[i].id
            &&& after.processes[i].descriptors == k.processes[i].descriptors
        }),
    decreases count,
{
    if count > 0 {
        lemma_release_frame(k, open, (count - 1) as nat, i);
        kernel_laws::lemma_release_frame(
            kernel_model::release_all_spec(k, open, (count - 1) as nat),
            open[count - 1].1,
        );
    }
}

/// A process that exits leaves the status that it gave, closes everything, and
/// runs no more; only a running process can.
pub proof fn exits_leave_their_status(k: KernelView, process: ProcessId, status: i32)
    requires
        kernel_model::sound(k),
        kernel_model::exit_spec(k, process, status).1 is Ok,
    ensures
        k.running == Some(process) || kernel_model::find_process(k.processes, process) is Some,
        has_ended(
            kernel_model::exit_spec(k, process, status).0,
            process,
            Termination::Exited(status),
        ),
{
    kernel_laws::lemma_find_process(k.processes, process);
    let i = kernel_model::find_process(k.processes, process)->Some_0;
    lemma_terminated(k, i, Termination::Exited(status));
}

/// A process that is not over ends by a signal, and leaves which one.
pub proof fn signals_end_processes(k: KernelView, process: ProcessId, signal: Signal)
    requires
        kernel_model::sound(k),
        kernel_model::signal_spec(k, process, signal).1 is Ok,
    ensures
        has_ended(
            kernel_model::signal_spec(k, process, signal).0,
            process,
            Termination::Signaled(signal),
        ),
{
    kernel_laws::lemma_find_process(k.processes, process);
    let i = kernel_model::find_process(k.processes, process)->Some_0;
    lemma_terminated(k, i, Termination::Signaled(signal));
}

/// A parent that waits for a child that has ended learns how.
pub proof fn parents_learn_how_children_ended(
    k: KernelView,
    parent: ProcessId,
    child: ProcessId,
    termination: Termination,
)
    requires
        kernel_model::sound(k),
        has_ended(k, child, termination),
        kernel_model::wait_spec(k, parent, child).1 is Ok,
    ensures
        kernel_model::wait_spec(k, parent, child).1 == Ok::<WaitResult, KernelError>(
            WaitResult::Reaped(termination),
        ),
{
}

// Pipes.

proof fn lemma_found(open: Seq<Open>, descriptor: Descriptor, at: int)
    requires
        kernel_model::open_ordered(open),
        0 <= at < open.len(),
        open[at].0 == descriptor,
    ensures
        kernel_model::find_open(open, descriptor) == Some(at),
{
    kernel_laws::lemma_find_open(open, descriptor);
    if let Some(i) = kernel_model::find_open(open, descriptor) {
        if i < at {
            assert(open[i].0.0 < open[at].0.0);
        } else if at < i {
            assert(open[at].0.0 < open[i].0.0);
        }
    }
}

proof fn lemma_installed(
    open: Seq<Open>,
    descriptor: Descriptor,
    resource: DescriptorResource,
    held: Descriptor,
)
    requires
        kernel_model::open_ordered(open),
        kernel_model::find_open(open, descriptor) is None,
    ensures
        ({
            let after = kernel_model::installed(open, descriptor, resource);
            &&& kernel_model::open_ordered(after)
            &&& kernel_model::find_open(after, descriptor) matches Some(d) && after[d].1
                == resource
            &&& kernel_model::find_open(open, held) matches Some(i) ==> (kernel_model::find_open(
                after,
                held,
            ) matches Some(j) && after[j].1 == open[i].1)
        }),
{
    let after = kernel_model::installed(open, descriptor, resource);
    let at = kernel_model::place_of(open, descriptor);
    kernel_laws::lemma_installed(open, descriptor, resource);
    kernel_laws::lemma_place(open, descriptor);
    lemma_found(after, descriptor, at);
    kernel_laws::lemma_find_open(open, held);
    if let Some(i) = kernel_model::find_open(open, held) {
        lemma_found(
            after,
            held,
            if i < at {
                i
            } else {
                i + 1
            },
        );
    }
}

proof fn lemma_lowest(open: Seq<Open>, raw: int, lower: int)
    requires
        0 <= raw <= lower,
        kernel_model::first_free(open, raw) matches Some(free) && lower < free,
    ensures
        kernel_model::find_open(open, Descriptor(lower as i32)) is Some,
    decreases i32::MAX - raw,
{
    if raw < lower {
        lemma_lowest(open, raw + 1, lower);
    }
}

/// A new pipe is empty, has a number that none had, and is open at both ends:
/// the first descriptor reads it, the second writes it. They were free, and the
/// first is the lowest that was, from three on.
pub proof fn new_pipes_have_two_ends(k: KernelView, owner: ProcessId, capacity: usize)
    requires
        kernel_model::sound(k),
        kernel_model::create_pipe_spec(k, owner, capacity).1 is Ok,
    ensures
        ({
            let (after, result) = kernel_model::create_pipe_spec(k, owner, capacity);
            let ends = result->Ok_0;
            let id = PipeId(k.next_pipe);
            &&& kernel_model::descriptor_spec(after, owner, ends.read) == Ok::<
                DescriptorResource,
                KernelError,
            >(DescriptorResource::PipeRead(id))
            &&& kernel_model::descriptor_spec(after, owner, ends.write) == Ok::<
                DescriptorResource,
                KernelError,
            >(DescriptorResource::PipeWrite(id))
            &&& 3 <= ends.read.0 < ends.write.0
            &&& kernel_model::descriptor_spec(k, owner, ends.read) is Err
            &&& kernel_model::descriptor_spec(k, owner, ends.write) is Err
            &&& forall|lower: int|
                3 <= lower < ends.read.0 ==> #[trigger] kernel_model::descriptor_spec(
                    k,
                    owner,
                    Descriptor(lower as i32),
                ) is Ok
            &&& after.pipes.len() == k.pipes.len() + 1
            &&& after.pipes.last().id == id
            &&& after.pipes.last().bytes.len() == 0
            &&& after.pipes.last().capacity == capacity
            &&& after.pipes.last().readers == 1 && after.pipes.last().writers == 1
        }),
{
    kernel_laws::lemma_find_process(k.processes, owner);
    let i = kernel_model::find_process(k.processes, owner)->Some_0;
    let open = k.processes[i].descriptors;
    let id = PipeId(k.next_pipe);
    let pair = kernel_model::free_pair(open)->Some_0;
    let read = Descriptor(pair.0 as i32);
    let write = Descriptor(pair.1 as i32);
    kernel_laws::lemma_free_pair(open, id);
    let one = kernel_model::installed(open, read, DescriptorResource::PipeRead(id));
    lemma_installed(open, read, DescriptorResource::PipeRead(id), read);
    lemma_installed(one, write, DescriptorResource::PipeWrite(id), read);
    let after = kernel_model::create_pipe_spec(k, owner, capacity).0;
    kernel_laws::create_pipe_keeps_sound(k, owner, capacity);
    assert(after.processes[i].id == owner);
    kernel_laws::lemma_find_unique(after, i);
    kernel_laws::lemma_first_free(open, 3);
    kernel_laws::lemma_first_free(open, pair.0 + 1);
    assert forall|lower: int| 3 <= lower < read.0 implies #[trigger] kernel_model::descriptor_spec(
        k,
        owner,
        Descriptor(lower as i32),
    ) is Ok by {
        lemma_lowest(open, 3, lower);
    }
}

} // verus!
