//! Every kernel operation keeps the accounts, and what follows from them.

use crate::kernel_model;
use crate::kernel_model::{KernelView, Open, PipeView, ProcessView, ReadView};
use crate::process::{
    Descriptor, DescriptorBinding, DescriptorResource, ExecutableId, KernelError, PipeId,
    PipeWriteResult, ProcessId, ProcessState, RealmLimits, Signal, Termination, WaitReason,
    WaitResult,
};
use vstd::prelude::*;

verus! {

// Lookups.

pub proof fn lemma_find_process(processes: Seq<ProcessView>, id: ProcessId)
    ensures
        match kernel_model::find_process(processes, id) {
            Some(i) => 0 <= i < processes.len() && processes[i].id == id,
            None => forall|i: int| 0 <= i < processes.len() ==> (#[trigger] processes[i]).id != id,
        },
    decreases processes.len(),
{
    if processes.len() > 0 {
        let head = processes.drop_last();
        lemma_find_process(head, id);
        if processes.last().id != id && kernel_model::find_process(head, id) is None {
            assert forall|i: int| 0 <= i < processes.len() implies (#[trigger] processes[i]).id
                != id by {
                if i < head.len() {
                    assert(head[i].id != id);
                }
            }
        }
    }
}

pub proof fn lemma_find_pipe(pipes: Seq<PipeView>, id: PipeId)
    ensures
        match kernel_model::find_pipe(pipes, id) {
            Some(i) => 0 <= i < pipes.len() && pipes[i].id == id,
            None => forall|i: int| 0 <= i < pipes.len() ==> (#[trigger] pipes[i]).id != id,
        },
    decreases pipes.len(),
{
    if pipes.len() > 0 {
        let head = pipes.drop_last();
        lemma_find_pipe(head, id);
        if pipes.last().id != id && kernel_model::find_pipe(head, id) is None {
            assert forall|i: int| 0 <= i < pipes.len() implies (#[trigger] pipes[i]).id != id by {
                if i < head.len() {
                    assert(head[i].id != id);
                }
            }
        }
    }
}

pub proof fn lemma_find_open(open: Seq<Open>, descriptor: Descriptor)
    ensures
        match kernel_model::find_open(open, descriptor) {
            Some(i) => 0 <= i < open.len() && open[i].0 == descriptor,
            None => forall|i: int| 0 <= i < open.len() ==> (#[trigger] open[i]).0 != descriptor,
        },
    decreases open.len(),
{
    if open.len() > 0 {
        let head = open.drop_last();
        lemma_find_open(head, descriptor);
        if open.last().0 != descriptor && kernel_model::find_open(head, descriptor) is None {
            assert forall|i: int| 0 <= i < open.len() implies (#[trigger] open[i]).0
                != descriptor by {
                if i < head.len() {
                    assert(head[i].0 != descriptor);
                }
            }
        }
    }
}

/// Same identities, same lookups.
proof fn lemma_same_processes(a: Seq<ProcessView>, b: Seq<ProcessView>, id: ProcessId)
    requires
        a.len() == b.len(),
        forall|i: int| 0 <= i < a.len() ==> (#[trigger] a[i]).id == b[i].id,
    ensures
        kernel_model::find_process(a, id) == kernel_model::find_process(b, id),
    decreases a.len(),
{
    if a.len() > 0 {
        assert(a[a.len() - 1].id == b[a.len() - 1].id);
        assert forall|i: int| 0 <= i < a.len() - 1 implies (#[trigger] a.drop_last()[i]).id
            == b.drop_last()[i].id by {
            assert(a[i].id == b[i].id);
        }
        lemma_same_processes(a.drop_last(), b.drop_last(), id);
    }
}

proof fn lemma_same_pipes(a: Seq<PipeView>, b: Seq<PipeView>, id: PipeId)
    requires
        a.len() == b.len(),
        forall|i: int| 0 <= i < a.len() ==> (#[trigger] a[i]).id == b[i].id,
    ensures
        kernel_model::find_pipe(a, id) == kernel_model::find_pipe(b, id),
    decreases a.len(),
{
    if a.len() > 0 {
        assert(a[a.len() - 1].id == b[a.len() - 1].id);
        assert forall|i: int| 0 <= i < a.len() - 1 implies (#[trigger] a.drop_last()[i]).id
            == b.drop_last()[i].id by {
            assert(a[i].id == b[i].id);
        }
        lemma_same_pipes(a.drop_last(), b.drop_last(), id);
    }
}

// Counting.

proof fn lemma_uses_insert(open: Seq<Open>, at: int, entry: Open, resource: DescriptorResource)
    requires
        0 <= at <= open.len(),
    ensures
        kernel_model::uses(open.insert(at, entry), resource) == kernel_model::uses(open, resource)
            + if entry.1 == resource {
            1nat
        } else {
            0nat
        },
    decreases open.len(),
{
    let after = open.insert(at, entry);
    if at == open.len() {
        assert(after.drop_last() =~= open);
    } else {
        assert(after.drop_last() =~= open.drop_last().insert(at, entry));
        assert(after.last() == open.last());
        lemma_uses_insert(open.drop_last(), at, entry, resource);
    }
}

proof fn lemma_uses_remove(open: Seq<Open>, at: int, resource: DescriptorResource)
    requires
        0 <= at < open.len(),
    ensures
        kernel_model::uses(open, resource) == kernel_model::uses(open.remove(at), resource)
            + if open[at].1 == resource {
            1nat
        } else {
            0nat
        },
    decreases open.len(),
{
    let after = open.remove(at);
    if at == open.len() - 1 {
        assert(after =~= open.drop_last());
    } else {
        assert(after.drop_last() =~= open.drop_last().remove(at));
        assert(after.last() == open.last());
        lemma_uses_remove(open.drop_last(), at, resource);
    }
}

proof fn lemma_uses_member(open: Seq<Open>, at: int)
    requires
        0 <= at < open.len(),
    ensures
        kernel_model::uses(open, open[at].1) >= 1,
{
    lemma_uses_remove(open, at, open[at].1);
}

proof fn lemma_uses_front(open: Seq<Open>, resource: DescriptorResource)
    requires
        open.len() > 0,
    ensures
        kernel_model::uses(open, resource) == kernel_model::uses(open.drop_first(), resource)
            + if open[0].1 == resource {
            1nat
        } else {
            0nat
        },
{
    assert(open.remove(0) =~= open.drop_first());
    lemma_uses_remove(open, 0, resource);
}

proof fn lemma_total_update(
    processes: Seq<ProcessView>,
    i: int,
    process: ProcessView,
    resource: DescriptorResource,
)
    requires
        0 <= i < processes.len(),
    ensures
        kernel_model::total_uses(processes.update(i, process), resource) + kernel_model::uses(
            processes[i].descriptors,
            resource,
        ) == kernel_model::total_uses(processes, resource) + kernel_model::uses(
            process.descriptors,
            resource,
        ),
    decreases processes.len(),
{
    let after = processes.update(i, process);
    if i == processes.len() - 1 {
        assert(after.drop_last() =~= processes.drop_last());
    } else {
        assert(after.drop_last() =~= processes.drop_last().update(i, process));
        assert(after.last() == processes.last());
        lemma_total_update(processes.drop_last(), i, process, resource);
    }
}

proof fn lemma_total_remove(processes: Seq<ProcessView>, i: int, resource: DescriptorResource)
    requires
        0 <= i < processes.len(),
    ensures
        kernel_model::total_uses(processes, resource) == kernel_model::total_uses(
            processes.remove(i),
            resource,
        ) + kernel_model::uses(processes[i].descriptors, resource),
    decreases processes.len(),
{
    let after = processes.remove(i);
    if i == processes.len() - 1 {
        assert(after =~= processes.drop_last());
    } else {
        assert(after.drop_last() =~= processes.drop_last().remove(i));
        assert(after.last() == processes.last());
        lemma_total_remove(processes.drop_last(), i, resource);
    }
}

proof fn lemma_total_push(
    processes: Seq<ProcessView>,
    process: ProcessView,
    resource: DescriptorResource,
)
    ensures
        kernel_model::total_uses(processes.push(process), resource) == kernel_model::total_uses(
            processes,
            resource,
        ) + kernel_model::uses(process.descriptors, resource),
{
    assert(processes.push(process).drop_last() =~= processes);
}

/// Same descriptors, same counts.
proof fn lemma_total_same(
    a: Seq<ProcessView>,
    b: Seq<ProcessView>,
    resource: DescriptorResource,
)
    requires
        a.len() == b.len(),
        forall|i: int| 0 <= i < a.len() ==> (#[trigger] a[i]).descriptors == b[i].descriptors,
    ensures
        kernel_model::total_uses(a, resource) == kernel_model::total_uses(b, resource),
    decreases a.len(),
{
    if a.len() > 0 {
        assert(a[a.len() - 1].descriptors == b[a.len() - 1].descriptors);
        assert forall|i: int| 0 <= i < a.len() - 1 implies (#[trigger] a.drop_last()[i]).descriptors
            == b.drop_last()[i].descriptors by {
            assert(a[i].descriptors == b[i].descriptors);
        }
        lemma_total_same(a.drop_last(), b.drop_last(), resource);
    }
}

proof fn lemma_capacity_update(pipes: Seq<PipeView>, i: int, pipe: PipeView)
    requires
        0 <= i < pipes.len(),
        pipe.capacity == pipes[i].capacity,
    ensures
        kernel_model::total_capacity(pipes.update(i, pipe)) == kernel_model::total_capacity(pipes),
    decreases pipes.len(),
{
    let after = pipes.update(i, pipe);
    if i == pipes.len() - 1 {
        assert(after.drop_last() =~= pipes.drop_last());
    } else {
        assert(after.drop_last() =~= pipes.drop_last().update(i, pipe));
        lemma_capacity_update(pipes.drop_last(), i, pipe);
    }
}

proof fn lemma_capacity_remove(pipes: Seq<PipeView>, i: int)
    requires
        0 <= i < pipes.len(),
    ensures
        kernel_model::total_capacity(pipes) == kernel_model::total_capacity(pipes.remove(i))
            + pipes[i].capacity,
    decreases pipes.len(),
{
    let after = pipes.remove(i);
    if i == pipes.len() - 1 {
        assert(after =~= pipes.drop_last());
    } else {
        assert(after.drop_last() =~= pipes.drop_last().remove(i));
        lemma_capacity_remove(pipes.drop_last(), i);
    }
}

proof fn lemma_capacity_same(a: Seq<PipeView>, b: Seq<PipeView>)
    requires
        a.len() == b.len(),
        forall|i: int| 0 <= i < a.len() ==> (#[trigger] a[i]).capacity == b[i].capacity,
    ensures
        kernel_model::total_capacity(a) == kernel_model::total_capacity(b),
    decreases a.len(),
{
    if a.len() > 0 {
        assert(a[a.len() - 1].capacity == b[a.len() - 1].capacity);
        assert forall|i: int| 0 <= i < a.len() - 1 implies (#[trigger] a.drop_last()[i]).capacity
            == b.drop_last()[i].capacity by {
            assert(a[i].capacity == b[i].capacity);
        }
        lemma_capacity_same(a.drop_last(), b.drop_last());
    }
}

// Descriptor lists.

pub proof fn lemma_place(open: Seq<Open>, descriptor: Descriptor)
    requires
        kernel_model::open_ordered(open),
    ensures
        0 <= kernel_model::place_of(open, descriptor) <= open.len(),
        forall|i: int|
            0 <= i < kernel_model::place_of(open, descriptor) ==> (#[trigger] open[i]).0.0
                < descriptor.0,
        forall|i: int|
            kernel_model::place_of(open, descriptor) <= i < open.len() ==> (
            #[trigger] open[i]).0.0 >= descriptor.0,
    decreases open.len(),
{
    if open.len() > 0 {
        let head = open.drop_last();
        assert forall|i: int, j: int| 0 <= i < j < head.len() implies (#[trigger] head[i]).0.0 < (
        #[trigger] head[j]).0.0 by {
            assert(open[i].0.0 < open[j].0.0);
        }
        lemma_place(head, descriptor);
        if open.last().0.0 < descriptor.0 {
            assert forall|i: int| 0 <= i < open.len() implies (#[trigger] open[i]).0.0
                < descriptor.0 by {
                if i < open.len() - 1 {
                    assert(open[i].0.0 < open[open.len() - 1].0.0);
                }
            }
        } else {
            assert forall|i: int|
                0 <= i < kernel_model::place_of(head, descriptor) implies (#[trigger] open[i]).0.0
                < descriptor.0 by {
                assert(head[i].0.0 < descriptor.0);
            }
            assert forall|i: int|
                kernel_model::place_of(head, descriptor) <= i < open.len() implies (
            #[trigger] open[i]).0.0 >= descriptor.0 by {
                if i < head.len() {
                    assert(head[i].0.0 >= descriptor.0);
                }
            }
        }
    }
}

/// Installing a new descriptor keeps the order and adds one use.
pub proof fn lemma_installed(open: Seq<Open>, descriptor: Descriptor, resource: DescriptorResource)
    requires
        kernel_model::open_ordered(open),
        kernel_model::find_open(open, descriptor) is None,
    ensures
        kernel_model::open_ordered(kernel_model::installed(open, descriptor, resource)),
        kernel_model::installed(open, descriptor, resource).len() == open.len() + 1,
        forall|other: DescriptorResource| #[trigger]
            kernel_model::uses(kernel_model::installed(open, descriptor, resource), other)
                == kernel_model::uses(open, other) + if resource == other {
                1nat
            } else {
                0nat
            },
{
    let at = kernel_model::place_of(open, descriptor);
    let after = kernel_model::installed(open, descriptor, resource);
    lemma_place(open, descriptor);
    lemma_find_open(open, descriptor);
    assert forall|i: int, j: int| 0 <= i < j < after.len() implies (#[trigger] after[i]).0.0 < (
    #[trigger] after[j]).0.0 by {
        let a = if i < at {
            i
        } else {
            i - 1
        };
        let b = if j < at {
            j
        } else {
            j - 1
        };
        if i == at {
            assert(after[j] == open[j - 1]);
            assert(open[j - 1].0 != descriptor);
        } else if j == at {
            assert(after[i] == open[i]);
        } else {
            assert(after[i] == open[a]);
            assert(after[j] == open[b]);
            assert(open[a].0.0 < open[b].0.0);
        }
    }
    assert forall|other: DescriptorResource| #[trigger]
        kernel_model::uses(after, other) == kernel_model::uses(open, other) + if resource == other {
            1nat
        } else {
            0nat
        } by {
        lemma_uses_insert(open, at, (descriptor, resource), other);
    }
}

// Steps that only move processes between states.

/// Same tables up to process states, parents and buffers, same accounts.
proof fn lemma_balanced_same(a: KernelView, b: KernelView, owed: Seq<Open>)
    requires
        kernel_model::balanced(a, owed),
        a.processes.len() == b.processes.len(),
        forall|i: int|
            0 <= i < a.processes.len() ==> (#[trigger] a.processes[i]).descriptors
                == b.processes[i].descriptors,
        a.pipes.len() == b.pipes.len(),
        forall|i: int|
            0 <= i < a.pipes.len() ==> (#[trigger] a.pipes[i]).id == b.pipes[i].id
                && a.pipes[i].readers == b.pipes[i].readers && a.pipes[i].writers
                == b.pipes[i].writers && a.pipes[i].capacity == b.pipes[i].capacity,
        a.reserved == b.reserved,
    ensures
        kernel_model::balanced(b, owed),
{
    assert forall|resource: DescriptorResource| #[trigger]
        kernel_model::total_uses(b.processes, resource) == kernel_model::total_uses(
            a.processes,
            resource,
        ) by {
        lemma_total_same(a.processes, b.processes, resource);
    }
    assert forall|i: int| #![trigger b.pipes[i]] 0 <= i < b.pipes.len() implies {
        let pipe = b.pipes[i];
        &&& pipe.readers == kernel_model::total_uses(
            b.processes,
            DescriptorResource::PipeRead(pipe.id),
        ) + kernel_model::uses(owed, DescriptorResource::PipeRead(pipe.id))
        &&& pipe.writers == kernel_model::total_uses(
            b.processes,
            DescriptorResource::PipeWrite(pipe.id),
        ) + kernel_model::uses(owed, DescriptorResource::PipeWrite(pipe.id))
        &&& pipe.readers > 0 || pipe.writers > 0
    } by {
        assert(a.pipes[i].id == b.pipes[i].id);
    }
    assert forall|resource: DescriptorResource|
        #![trigger kernel_model::total_uses(b.processes, resource)]
        #![trigger kernel_model::uses(owed, resource)]
        kernel_model::total_uses(b.processes, resource) + kernel_model::uses(owed, resource)
            > 0 implies kernel_model::find_pipe(b.pipes, resource.pipe_id()) is Some by {
        assert(kernel_model::total_uses(b.processes, resource) == kernel_model::total_uses(
            a.processes,
            resource,
        ));
        lemma_same_pipes(a.pipes, b.pipes, resource.pipe_id());
    }
    lemma_capacity_same(a.pipes, b.pipes);
}

proof fn lemma_parked(processes: Seq<ProcessView>, reason: WaitReason, i: int)
    requires
        0 <= i < processes.len(),
        processes[i].state == ProcessState::Waiting(reason),
    ensures
        kernel_model::parked(processes, reason).contains(processes[i].id),
    decreases processes.len(),
{
    let before = kernel_model::parked(processes.drop_last(), reason);
    let after = kernel_model::parked(processes, reason);
    if i == processes.len() - 1 {
        assert(after[after.len() - 1] == processes[i].id);
    } else {
        lemma_parked(processes.drop_last(), reason, i);
        let at = choose|at: int| 0 <= at < before.len() && before[at] == processes[i].id;
        assert(after[at] == processes[i].id);
    }
}

proof fn lemma_contains_left(a: Seq<ProcessId>, b: Seq<ProcessId>, id: ProcessId)
    requires
        a.contains(id) || b.contains(id),
    ensures
        (a + b).contains(id),
{
    if a.contains(id) {
        let at = choose|at: int| 0 <= at < a.len() && a[at] == id;
        assert((a + b)[at] == id);
    } else {
        let at = choose|at: int| 0 <= at < b.len() && b[at] == id;
        assert((a + b)[a.len() + at] == id);
    }
}

/// Waking keeps everything.
proof fn lemma_wake(k: KernelView, reason: WaitReason, owed: Seq<Open>)
    requires
        kernel_model::ordered(k),
        kernel_model::bounded(k),
        kernel_model::scheduled(k),
        kernel_model::balanced(k, owed),
    ensures
        kernel_model::ordered(kernel_model::wake_spec(k, reason)),
        kernel_model::bounded(kernel_model::wake_spec(k, reason)),
        kernel_model::scheduled(kernel_model::wake_spec(k, reason)),
        kernel_model::balanced(kernel_model::wake_spec(k, reason), owed),
{
    let after = kernel_model::wake_spec(k, reason);
    lemma_balanced_same(k, after, owed);
    if let Some(id) = k.running {
        lemma_same_processes(k.processes, after.processes, id);
    }
    assert forall|i: int|
        0 <= i < after.processes.len() && (#[trigger] after.processes[i]).state
            == ProcessState::Runnable implies after.queue.contains(after.processes[i].id) by {
        if k.processes[i].state == ProcessState::Waiting(reason) {
            lemma_parked(k.processes, reason, i);
        }
        lemma_contains_left(
            k.queue,
            kernel_model::parked(k.processes, reason),
            after.processes[i].id,
        );
    }
    assert forall|i: int| 0 <= i < after.processes.len() implies kernel_model::open_ordered(
        (#[trigger] after.processes[i]).descriptors,
    ) by {
        assert(kernel_model::open_ordered(k.processes[i].descriptors));
    }
    assert forall|i: int| 0 <= i < after.processes.len() implies (
    #[trigger] after.processes[i]).descriptors.len()
        <= after.limits.max_descriptors_per_process by {
        assert(k.processes[i].descriptors.len() <= k.limits.max_descriptors_per_process);
    }
}

/// Facts about the pipe of an owed descriptor.
pub proof fn lemma_owed(k: KernelView, owed: Seq<Open>)
    requires
        kernel_model::balanced(k, owed),
        owed.len() > 0,
    ensures
        ({
            let resource = owed[0].1;
            let found = kernel_model::find_pipe(k.pipes, resource.pipe_id());
            &&& found matches Some(i) && 0 <= i < k.pipes.len() && k.pipes[i].id
                == resource.pipe_id()
            &&& resource is PipeRead ==> k.pipes[found->Some_0].readers > 0
            &&& resource is PipeWrite ==> k.pipes[found->Some_0].writers > 0
        }),
{
    let resource = owed[0].1;
    lemma_uses_front(owed, resource);
    assert(kernel_model::uses(owed, resource) > 0);
    lemma_find_pipe(k.pipes, resource.pipe_id());
    let i = kernel_model::find_pipe(k.pipes, resource.pipe_id())->Some_0;
    assert(k.pipes[i].id == resource.pipe_id());
}

/// The capacity of a live pipe is part of what is reserved.
pub proof fn lemma_capacity_member(pipes: Seq<PipeView>, i: int)
    requires
        0 <= i < pipes.len(),
    ensures
        pipes[i].capacity <= kernel_model::total_capacity(pipes),
{
    lemma_capacity_remove(pipes, i);
}

proof fn lemma_uncounted(k: KernelView, owed: Seq<Open>)
    requires
        kernel_model::ordered(k),
        kernel_model::bounded(k),
        kernel_model::scheduled(k),
        kernel_model::balanced(k, owed),
        owed.len() > 0,
    ensures
        kernel_model::ordered(kernel_model::uncounted(k, owed[0].1)),
        kernel_model::bounded(kernel_model::uncounted(k, owed[0].1)),
        kernel_model::scheduled(kernel_model::uncounted(k, owed[0].1)),
        kernel_model::balanced(kernel_model::uncounted(k, owed[0].1), owed.drop_first()),
{
    let resource = owed[0].1;
    let rest = owed.drop_first();
    let after = kernel_model::uncounted(k, resource);
    lemma_owed(k, owed);
    let i = kernel_model::find_pipe(k.pipes, resource.pipe_id())->Some_0;
    let pipe = k.pipes[i];
    let less = kernel_model::released_pipe(pipe, resource);
    lemma_capacity_member(k.pipes, i);
    assert forall|other: DescriptorResource| #[trigger]
        kernel_model::uses(owed, other) == kernel_model::uses(rest, other) + if resource == other {
            1nat
        } else {
            0nat
        } by {
        lemma_uses_front(owed, other);
    }
    assert(less.readers == kernel_model::total_uses(
        k.processes,
        DescriptorResource::PipeRead(pipe.id),
    ) + kernel_model::uses(rest, DescriptorResource::PipeRead(pipe.id))) by {
        assert(kernel_model::uses(owed, DescriptorResource::PipeRead(pipe.id)) >= 0);
    }
    assert(less.writers == kernel_model::total_uses(
        k.processes,
        DescriptorResource::PipeWrite(pipe.id),
    ) + kernel_model::uses(rest, DescriptorResource::PipeWrite(pipe.id))) by {
        assert(kernel_model::uses(owed, DescriptorResource::PipeWrite(pipe.id)) >= 0);
    }
    if less.readers == 0 && less.writers == 0 {
        lemma_capacity_remove(k.pipes, i);
        assert forall|j: int| #![trigger after.pipes[j]] 0 <= j < after.pipes.len() implies {
            let other = after.pipes[j];
            &&& other.readers == kernel_model::total_uses(
                after.processes,
                DescriptorResource::PipeRead(other.id),
            ) + kernel_model::uses(rest, DescriptorResource::PipeRead(other.id))
            &&& other.writers == kernel_model::total_uses(
                after.processes,
                DescriptorResource::PipeWrite(other.id),
            ) + kernel_model::uses(rest, DescriptorResource::PipeWrite(other.id))
            &&& other.readers > 0 || other.writers > 0
        } by {
            let at = if j < i {
                j
            } else {
                j + 1
            };
            assert(after.pipes[j] == k.pipes[at]);
            assert(k.pipes[at].id != pipe.id);
            assert(kernel_model::uses(owed, DescriptorResource::PipeRead(k.pipes[at].id)) >= 0);
            assert(kernel_model::uses(owed, DescriptorResource::PipeWrite(k.pipes[at].id)) >= 0);
        }
        assert forall|other: DescriptorResource|
            #![trigger kernel_model::total_uses(after.processes, other)]
            #![trigger kernel_model::uses(rest, other)]
            kernel_model::total_uses(after.processes, other) + kernel_model::uses(rest, other)
                > 0 implies kernel_model::find_pipe(after.pipes, other.pipe_id()) is Some by {
            assert(kernel_model::uses(owed, other) >= kernel_model::uses(rest, other));
            lemma_find_pipe(k.pipes, other.pipe_id());
            lemma_find_pipe(after.pipes, other.pipe_id());
            let at = kernel_model::find_pipe(k.pipes, other.pipe_id())->Some_0;
            if at == i {
                assert(other == DescriptorResource::PipeRead(pipe.id) || other
                    == DescriptorResource::PipeWrite(pipe.id));
            } else {
                let j = if at < i {
                    at
                } else {
                    at - 1
                };
                assert(after.pipes[j] == k.pipes[at]);
            }
        }
        assert forall|a: int, b: int| 0 <= a < b < after.pipes.len() implies (
        #[trigger] after.pipes[a]).id.0 < (#[trigger] after.pipes[b]).id.0 by {
            let x = if a < i {
                a
            } else {
                a + 1
            };
            let y = if b < i {
                b
            } else {
                b + 1
            };
            assert(after.pipes[a] == k.pipes[x]);
            assert(after.pipes[b] == k.pipes[y]);
        }
        assert forall|a: int| 0 <= a < after.pipes.len() implies ((#[trigger] after.pipes[a]).id.0
            < after.next_pipe || after.next_pipe == 0) && after.pipes[a].bytes.len()
            <= after.pipes[a].capacity <= after.limits.max_pipe_bytes by {
            let x = if a < i {
                a
            } else {
                a + 1
            };
            assert(after.pipes[a] == k.pipes[x]);
        }
    } else {
        lemma_capacity_update(k.pipes, i, less);
        assert forall|j: int| #![trigger after.pipes[j]] 0 <= j < after.pipes.len() implies {
            let other = after.pipes[j];
            &&& other.readers == kernel_model::total_uses(
                after.processes,
                DescriptorResource::PipeRead(other.id),
            ) + kernel_model::uses(rest, DescriptorResource::PipeRead(other.id))
            &&& other.writers == kernel_model::total_uses(
                after.processes,
                DescriptorResource::PipeWrite(other.id),
            ) + kernel_model::uses(rest, DescriptorResource::PipeWrite(other.id))
            &&& other.readers > 0 || other.writers > 0
        } by {
            if j != i {
                assert(after.pipes[j] == k.pipes[j]);
                assert(k.pipes[j].id != pipe.id) by {
                    if j < i {
                        assert(k.pipes[j].id.0 < k.pipes[i].id.0);
                    } else {
                        assert(k.pipes[i].id.0 < k.pipes[j].id.0);
                    }
                }
                assert(kernel_model::uses(owed, DescriptorResource::PipeRead(k.pipes[j].id)) >= 0);
                assert(kernel_model::uses(owed, DescriptorResource::PipeWrite(k.pipes[j].id))
                    >= 0);
            }
        }
        assert forall|other: DescriptorResource|
            #![trigger kernel_model::total_uses(after.processes, other)]
            #![trigger kernel_model::uses(rest, other)]
            kernel_model::total_uses(after.processes, other) + kernel_model::uses(rest, other)
                > 0 implies kernel_model::find_pipe(after.pipes, other.pipe_id()) is Some by {
            assert(kernel_model::uses(owed, other) >= kernel_model::uses(rest, other));
            lemma_same_pipes(k.pipes, after.pipes, other.pipe_id());
        }
        assert forall|a: int, b: int| 0 <= a < b < after.pipes.len() implies (
        #[trigger] after.pipes[a]).id.0 < (#[trigger] after.pipes[b]).id.0 by {
            assert(k.pipes[a].id.0 < k.pipes[b].id.0);
        }
    }
}

/// Releasing the first owed descriptor settles it.
pub proof fn lemma_release(k: KernelView, owed: Seq<Open>)
    requires
        kernel_model::ordered(k),
        kernel_model::bounded(k),
        kernel_model::scheduled(k),
        kernel_model::balanced(k, owed),
        owed.len() > 0,
    ensures
        kernel_model::ordered(kernel_model::release_spec(k, owed[0].1)),
        kernel_model::bounded(kernel_model::release_spec(k, owed[0].1)),
        kernel_model::scheduled(kernel_model::release_spec(k, owed[0].1)),
        kernel_model::balanced(kernel_model::release_spec(k, owed[0].1), owed.drop_first()),
{
    lemma_uncounted(k, owed);
    let after = kernel_model::uncounted(k, owed[0].1);
    match owed[0].1 {
        DescriptorResource::PipeRead(id) => {
            lemma_wake(after, WaitReason::PipeWritable(id), owed.drop_first());
        },
        DescriptorResource::PipeWrite(id) => {
            lemma_wake(after, WaitReason::PipeReadable(id), owed.drop_first());
        },
    }
}

/// What releasing leaves alone.
pub proof fn lemma_release_frame(k: KernelView, resource: DescriptorResource)
    ensures
        ({
            let after = kernel_model::release_spec(k, resource);
            &&& after.limits == k.limits
            &&& after.running == k.running
            &&& after.next_process == k.next_process
            &&& after.processes.len() == k.processes.len()
            &&& forall|i: int|
                0 <= i < k.processes.len() ==> {
                    &&& (#[trigger] after.processes[i]).id == k.processes[i].id
                    &&& after.processes[i].parent == k.processes[i].parent
                    &&& after.processes[i].descriptors == k.processes[i].descriptors
                }
        }),
{
}

pub proof fn lemma_release_all(k: KernelView, open: Seq<Open>, count: nat)
    requires
        kernel_model::ordered(k),
        kernel_model::bounded(k),
        kernel_model::scheduled(k),
        kernel_model::balanced(k, open),
        count <= open.len(),
    ensures
        ({
            let after = kernel_model::release_all_spec(k, open, count);
            &&& kernel_model::ordered(after)
            &&& kernel_model::bounded(after)
            &&& kernel_model::scheduled(after)
            &&& kernel_model::balanced(after, open.subrange(count as int, open.len() as int))
            &&& after.limits == k.limits
            &&& after.running == k.running
            &&& after.processes.len() == k.processes.len()
            &&& forall|i: int|
                0 <= i < k.processes.len() ==> {
                    &&& (#[trigger] after.processes[i]).id == k.processes[i].id
                    &&& after.processes[i].parent == k.processes[i].parent
                    &&& after.processes[i].descriptors == k.processes[i].descriptors
                }
        }),
    decreases count,
{
    if count == 0 {
        assert(open.subrange(0, open.len() as int) =~= open);
    } else {
        let before = kernel_model::release_all_spec(k, open, (count - 1) as nat);
        let owed = open.subrange(count - 1, open.len() as int);
        lemma_release_all(k, open, (count - 1) as nat);
        assert(owed[0] == open[count - 1]);
        lemma_release(before, owed);
        lemma_release_frame(before, open[count - 1].1);
        assert(owed.drop_first() =~= open.subrange(count as int, open.len() as int));
        let after = kernel_model::release_all_spec(k, open, count);
        assert forall|i: int| 0 <= i < k.processes.len() implies {
            &&& (#[trigger] after.processes[i]).id == k.processes[i].id
            &&& after.processes[i].parent == k.processes[i].parent
            &&& after.processes[i].descriptors == k.processes[i].descriptors
        } by {
            assert(before.processes[i].id == k.processes[i].id);
        }
    }
}

/// A process stripped of its descriptors owes them.
pub proof fn lemma_stripped(k: KernelView, i: int, kept: Seq<Open>, owed: Seq<Open>)
    requires
        kernel_model::sound(k),
        0 <= i < k.processes.len(),
        kernel_model::open_ordered(kept),
        kept.len() <= k.processes[i].descriptors.len(),
        forall|resource: DescriptorResource| #[trigger]
            kernel_model::uses(k.processes[i].descriptors, resource) == kernel_model::uses(
                kept,
                resource,
            ) + kernel_model::uses(owed, resource),
    ensures
        ({
            let after = kernel_model::with_process(
                k,
                i,
                (ProcessView { descriptors: kept, ..k.processes[i] }),
            );
            &&& kernel_model::ordered(after)
            &&& kernel_model::bounded(after)
            &&& kernel_model::scheduled(after)
            &&& kernel_model::balanced(after, owed)
        }),
{
    let process = ProcessView { descriptors: kept, ..k.processes[i] };
    let after = kernel_model::with_process(k, i, process);
    assert forall|resource: DescriptorResource| #[trigger]
        kernel_model::total_uses(after.processes, resource) + kernel_model::uses(owed, resource)
            == kernel_model::total_uses(k.processes, resource) by {
        lemma_total_update(k.processes, i, process, resource);
        assert(kernel_model::uses(k.processes[i].descriptors, resource) == kernel_model::uses(
            kept,
            resource,
        ) + kernel_model::uses(owed, resource));
    }
    assert forall|resource: DescriptorResource| kernel_model::uses(
        Seq::<Open>::empty(),
        resource,
    ) == 0 by {}
    assert forall|j: int| #![trigger after.pipes[j]] 0 <= j < after.pipes.len() implies {
        let pipe = after.pipes[j];
        &&& pipe.readers == kernel_model::total_uses(
            after.processes,
            DescriptorResource::PipeRead(pipe.id),
        ) + kernel_model::uses(owed, DescriptorResource::PipeRead(pipe.id))
        &&& pipe.writers == kernel_model::total_uses(
            after.processes,
            DescriptorResource::PipeWrite(pipe.id),
        ) + kernel_model::uses(owed, DescriptorResource::PipeWrite(pipe.id))
        &&& pipe.readers > 0 || pipe.writers > 0
    } by {
        assert(k.pipes[j] == after.pipes[j]);
    }
    assert forall|resource: DescriptorResource|
        #![trigger kernel_model::total_uses(after.processes, resource)]
        #![trigger kernel_model::uses(owed, resource)]
        kernel_model::total_uses(after.processes, resource) + kernel_model::uses(owed, resource)
            > 0 implies kernel_model::find_pipe(after.pipes, resource.pipe_id()) is Some by {
        assert(kernel_model::total_uses(after.processes, resource) >= 0);
        assert(kernel_model::total_uses(k.processes, resource) > 0);
    }
    if let Some(id) = k.running {
        lemma_same_processes(k.processes, after.processes, id);
    }
}

/// Moving one process to another state keeps order, bounds and accounts.
proof fn lemma_moved(k: KernelView, after: KernelView, i: int, owed: Seq<Open>)
    requires
        kernel_model::ordered(k),
        kernel_model::bounded(k),
        kernel_model::balanced(k, owed),
        0 <= i < k.processes.len(),
        after.processes == k.processes.update(
            i,
            (ProcessView { state: after.processes[i].state, ..k.processes[i] }),
        ),
        after.pipes == k.pipes,
        after.limits == k.limits,
        after.next_process == k.next_process,
        after.next_pipe == k.next_pipe,
        after.reserved == k.reserved,
    ensures
        kernel_model::ordered(after),
        kernel_model::bounded(after),
        kernel_model::balanced(after, owed),
        forall|id: ProcessId|
            kernel_model::find_process(after.processes, id) == kernel_model::find_process(
                k.processes,
                id,
            ),
{
    lemma_balanced_same(k, after, owed);
    assert forall|id: ProcessId|
        kernel_model::find_process(after.processes, id) == kernel_model::find_process(
            k.processes,
            id,
        ) by {
        lemma_same_processes(after.processes, k.processes, id);
    }
}

// The operations.

/// An empty kernel is sound.
pub proof fn fresh_kernel_is_sound(limits: RealmLimits)
    ensures
        kernel_model::sound(kernel_model::fresh_kernel(limits)),
{
}

proof fn lemma_pushed_sound(
    k: KernelView,
    parent: Option<ProcessId>,
    executable: ExecutableId,
    cwd: Seq<char>,
    open: Seq<Open>,
    after: KernelView,
)
    requires
        kernel_model::sound(k),
        k.next_process != 0,
        k.processes.len() < k.limits.max_processes,
        kernel_model::open_ordered(open),
        open.len() <= k.limits.max_descriptors_per_process,
        !kernel_model::endpoints_overflow(k.pipes, open),
        forall|resource: DescriptorResource|
            kernel_model::uses(open, resource) > 0 ==> kernel_model::find_pipe(
                k.pipes,
                (#[trigger] resource.pipe_id()),
            ) is Some,
        after == (KernelView {
            pipes: kernel_model::retained(k.pipes, open),
            ..kernel_model::inserted_spec(k, parent, executable, cwd, open).0
        }),
    ensures
        kernel_model::sound(after),
{
    let child = after.processes.last();
    assert forall|resource: DescriptorResource| #[trigger]
        kernel_model::total_uses(after.processes, resource) == kernel_model::total_uses(
            k.processes,
            resource,
        ) + kernel_model::uses(open, resource) by {
        lemma_total_push(k.processes, child, resource);
    }
    assert forall|i: int| #![trigger after.pipes[i]] 0 <= i < after.pipes.len() implies {
        let pipe = after.pipes[i];
        &&& pipe.readers == kernel_model::total_uses(
            after.processes,
            DescriptorResource::PipeRead(pipe.id),
        ) + kernel_model::uses(Seq::<Open>::empty(), DescriptorResource::PipeRead(pipe.id))
        &&& pipe.writers == kernel_model::total_uses(
            after.processes,
            DescriptorResource::PipeWrite(pipe.id),
        ) + kernel_model::uses(Seq::<Open>::empty(), DescriptorResource::PipeWrite(pipe.id))
        &&& pipe.readers > 0 || pipe.writers > 0
    } by {
        assert(k.pipes[i].id == after.pipes[i].id);
    }
    assert forall|resource: DescriptorResource|
        #![trigger kernel_model::total_uses(after.processes, resource)]
        #![trigger kernel_model::uses(Seq::<Open>::empty(), resource)]
        kernel_model::total_uses(after.processes, resource) + kernel_model::uses(
            Seq::<Open>::empty(),
            resource,
        ) > 0 implies kernel_model::find_pipe(after.pipes, resource.pipe_id()) is Some by {
        assert(kernel_model::total_uses(after.processes, resource) >= 0);
        assert(kernel_model::total_uses(k.processes, resource) >= 0);
        lemma_same_pipes(k.pipes, after.pipes, resource.pipe_id());
        let id = resource.pipe_id();
    }
    lemma_capacity_same(k.pipes, after.pipes);
    assert forall|a: int, b: int| 0 <= a < b < after.pipes.len() implies (
    #[trigger] after.pipes[a]).id.0 < (#[trigger] after.pipes[b]).id.0 by {
        assert(k.pipes[a].id.0 < k.pipes[b].id.0);
    }
    assert forall|i: int| 0 <= i < after.pipes.len() implies ((#[trigger] after.pipes[i]).id.0
        < after.next_pipe || after.next_pipe == 0) && after.pipes[i].bytes.len()
        <= after.pipes[i].capacity <= after.limits.max_pipe_bytes by {
        assert(k.pipes[i].id == after.pipes[i].id);
    }
    if let Some(id) = k.running {
        lemma_find_process(k.processes, id);
        lemma_find_process(after.processes, id);
        let at = kernel_model::find_process(k.processes, id)->Some_0;
        assert(after.processes[at] == k.processes[at]);
        assert(k.processes[at].id.0 < k.next_process);
    }
    assert forall|i: int| 0 <= i < after.processes.len() implies ((
    #[trigger] after.processes[i]).state == ProcessState::Running <==> after.running == Some(
        after.processes[i].id,
    )) by {
        if i < k.processes.len() {
            assert(after.processes[i] == k.processes[i]);
        } else if k.running is Some {
            let id = k.running->Some_0;
            lemma_find_process(k.processes, id);
            let at = kernel_model::find_process(k.processes, id)->Some_0;
            assert(k.processes[at].id.0 < k.next_process);
        }
    }
}

proof fn lemma_nothing_retained(pipes: Seq<PipeView>)
    ensures
        kernel_model::retained(pipes, Seq::empty()) == pipes,
        !kernel_model::endpoints_overflow(pipes, Seq::empty()),
{
    assert(kernel_model::retained(pipes, Seq::empty()) =~= pipes);
}

/// Spawning a root keeps the kernel sound.
pub proof fn spawn_root_keeps_sound(k: KernelView, executable: ExecutableId, cwd: Seq<char>)
    requires
        kernel_model::sound(k),
    ensures
        kernel_model::sound(kernel_model::spawn_root_spec(k, executable, cwd).0),
{
    let after = kernel_model::spawn_root_spec(k, executable, cwd).0;
    lemma_nothing_retained(k.pipes);
    if kernel_model::spawn_refusal(k, cwd) is None && k.next_process != 0 {
        lemma_pushed_sound(k, None, executable, cwd, Seq::empty(), after);
    }
}

/// What the bindings give a child is ordered and comes from its parent.
pub proof fn lemma_bound(
    parent: ProcessId,
    open: Seq<Open>,
    bindings: Seq<DescriptorBinding>,
    count: nat,
)
    requires
        kernel_model::bound_spec(parent, open, bindings, count) is Ok,
        count <= bindings.len(),
    ensures
        ({
            let bound = kernel_model::bound_spec(parent, open, bindings, count)->Ok_0;
            &&& kernel_model::open_ordered(bound)
            &&& bound.len() == count
            &&& forall|resource: DescriptorResource| #[trigger]
                kernel_model::uses(bound, resource) > 0 ==> kernel_model::uses(open, resource) > 0
        }),
    decreases count,
{
    if count > 0 {
        lemma_bound(parent, open, bindings, (count - 1) as nat);
        let before = kernel_model::bound_spec(parent, open, bindings, (count - 1) as nat)->Ok_0;
        let binding = bindings[count - 1];
        lemma_find_open(open, binding.source);
        let at = kernel_model::find_open(open, binding.source)->Some_0;
        lemma_installed(before, binding.target, open[at].1);
        lemma_uses_member(open, at);
    }
}

/// Spawning a child keeps the kernel sound.
pub proof fn spawn_child_keeps_sound(
    k: KernelView,
    parent: ProcessId,
    executable: ExecutableId,
    cwd: Seq<char>,
    bindings: Seq<DescriptorBinding>,
)
    requires
        kernel_model::sound(k),
    ensures
        kernel_model::sound(
            kernel_model::spawn_child_spec(k, parent, executable, cwd, bindings).0,
        ),
{
    let (after, result) = kernel_model::spawn_child_spec(k, parent, executable, cwd, bindings);
    if result is Ok {
        lemma_find_process(k.processes, parent);
        let i = kernel_model::find_process(k.processes, parent)->Some_0;
        let mine = k.processes[i].descriptors;
        let open = kernel_model::bound_spec(parent, mine, bindings, bindings.len())->Ok_0;
        lemma_bound(parent, mine, bindings, bindings.len());
        assert forall|resource: DescriptorResource|
            kernel_model::uses(open, resource) > 0 implies kernel_model::find_pipe(
            k.pipes,
            (#[trigger] resource.pipe_id()),
        ) is Some by {
            lemma_total_remove(k.processes, i, resource);
            assert(kernel_model::total_uses(k.processes, resource) > 0);
        }
        lemma_pushed_sound(k, Some(parent), executable, cwd, open, after);
    }
}

proof fn lemma_other_not_running(k: KernelView, i: int, j: int)
    requires
        kernel_model::ordered(k),
        kernel_model::scheduled(k),
        0 <= i < k.processes.len(),
        0 <= j < k.processes.len(),
        i != j,
    ensures
        k.processes[i].id != k.processes[j].id,
        k.processes[i].state == ProcessState::Running ==> k.processes[j].state
            != ProcessState::Running,
{
    if i < j {
        assert(k.processes[i].id.0 < k.processes[j].id.0);
    } else {
        assert(k.processes[j].id.0 < k.processes[i].id.0);
    }
}

/// Admitting keeps the kernel sound.
pub proof fn admit_keeps_sound(k: KernelView, process: ProcessId)
    requires
        kernel_model::sound(k),
    ensures
        kernel_model::sound(kernel_model::admit_spec(k, process).0),
{
    let (after, result) = kernel_model::admit_spec(k, process);
    if result is Ok {
        lemma_find_process(k.processes, process);
        let i = kernel_model::find_process(k.processes, process)->Some_0;
        lemma_moved(k, after, i, Seq::empty());
        lemma_queued(k, after, i, process);
    }
}

/// A process put at the tail of the queue while the others stay queued.
proof fn lemma_queued(k: KernelView, after: KernelView, i: int, process: ProcessId)
    requires
        kernel_model::scheduled(k),
        0 <= i < k.processes.len(),
        k.processes[i].id == process,
        after.processes == k.processes.update(
            i,
            (ProcessView { state: after.processes[i].state, ..k.processes[i] }),
        ),
        after.queue == k.queue.push(process),
    ensures
        forall|j: int|
            0 <= j < after.processes.len() && (#[trigger] after.processes[j]).state
                == ProcessState::Runnable ==> after.queue.contains(after.processes[j].id),
{
    assert forall|j: int|
        0 <= j < after.processes.len() && (#[trigger] after.processes[j]).state
            == ProcessState::Runnable implies after.queue.contains(after.processes[j].id) by {
        if j == i {
            assert(after.queue[k.queue.len() as int] == process);
        } else {
            assert(k.processes[j] == after.processes[j]);
            let at = choose|at: int|
                0 <= at < k.queue.len() && k.queue[at] == k.processes[j].id;
            assert(after.queue[at] == k.processes[j].id);
        }
    }
}

/// Yielding keeps the kernel sound.
pub proof fn yield_keeps_sound(k: KernelView, process: ProcessId)
    requires
        kernel_model::sound(k),
    ensures
        kernel_model::sound(kernel_model::yield_spec(k, process).0),
{
    let (after, result) = kernel_model::yield_spec(k, process);
    if result is Ok {
        lemma_find_process(k.processes, process);
        let i = kernel_model::find_process(k.processes, process)->Some_0;
        lemma_moved(k, after, i, Seq::empty());
        lemma_queued(k, after, i, process);
        assert forall|j: int| 0 <= j < after.processes.len() implies (
        #[trigger] after.processes[j]).state != ProcessState::Running by {
            if j != i {
                lemma_other_not_running(k, i, j);
            }
        }
    }
}

/// Parking the running process keeps the kernel sound.
pub proof fn parking_keeps_sound(k: KernelView, process: ProcessId, reason: WaitReason)
    requires
        kernel_model::sound(k),
        kernel_model::find_process(k.processes, process) matches Some(i) && k.processes[i].state
            == ProcessState::Running,
    ensures
        kernel_model::sound(kernel_model::parked_at(k, process, reason)),
{
    let after = kernel_model::parked_at(k, process, reason);
    lemma_find_process(k.processes, process);
    let i = kernel_model::find_process(k.processes, process)->Some_0;
    lemma_moved(k, after, i, Seq::empty());
    assert forall|j: int| 0 <= j < after.processes.len() implies (#[trigger] after.processes[j]).state
        != ProcessState::Running by {
        if j != i {
            lemma_other_not_running(k, i, j);
        }
    }
    assert forall|j: int|
        0 <= j < after.processes.len() && (#[trigger] after.processes[j]).state
            == ProcessState::Runnable implies after.queue.contains(after.processes[j].id) by {
        assert(k.processes[j] == after.processes[j]);
    }
}

/// Dispatching keeps the kernel sound.
pub proof fn dispatch_keeps_sound(k: KernelView)
    requires
        kernel_model::sound(k),
    ensures
        kernel_model::sound(kernel_model::dispatch_spec(k).0),
{
    if k.running is None {
        lemma_dispatched(k);
    }
}

pub proof fn lemma_popped(k: KernelView)
    requires
        kernel_model::sound(k),
        k.queue.len() > 0,
        !kernel_model::can_run(k, k.queue[0]),
    ensures
        kernel_model::sound((KernelView { queue: k.queue.drop_first(), ..k })),
{
    let popped = KernelView { queue: k.queue.drop_first(), ..k };
    lemma_balanced_same(k, popped, Seq::empty());
    assert forall|i: int|
        0 <= i < popped.processes.len() && (#[trigger] popped.processes[i]).state
            == ProcessState::Runnable implies popped.queue.contains(popped.processes[i].id) by {
        lemma_find_process(k.processes, k.queue[0]);
        assert(k.processes[i].state == ProcessState::Runnable);
        let at = choose|at: int| 0 <= at < k.queue.len() && k.queue[at] == k.processes[i].id;
        if at == 0 {
            let found = kernel_model::find_process(k.processes, k.queue[0])->Some_0;
            if found != i {
                lemma_other_not_running(k, found, i);
            }
        } else {
            assert(popped.queue[at - 1] == k.processes[i].id);
        }
    }
}

proof fn lemma_dispatched(k: KernelView)
    requires
        kernel_model::sound(k),
        k.running is None,
    ensures
        kernel_model::sound(kernel_model::dispatched_spec(k).0),
    decreases k.queue.len(),
{
    if k.queue.len() > 0 {
        let process = k.queue[0];
        let popped = KernelView { queue: k.queue.drop_first(), ..k };
        let (after, _) = kernel_model::dispatched_spec(k);
        if kernel_model::can_run(k, process) {
            lemma_find_process(k.processes, process);
            let i = kernel_model::find_process(k.processes, process)->Some_0;
            lemma_moved(k, after, i, Seq::empty());
            assert forall|j: int| 0 <= j < after.processes.len() implies ((
            #[trigger] after.processes[j]).state == ProcessState::Running <==> after.running
                == Some(after.processes[j].id)) by {
                if j != i {
                    lemma_other_not_running(k, i, j);
                    assert(k.processes[j] == after.processes[j]);
                }
            }
            assert forall|j: int|
                0 <= j < after.processes.len() && (#[trigger] after.processes[j]).state
                    == ProcessState::Runnable implies after.queue.contains(
                after.processes[j].id,
            ) by {
                assert(j != i);
                assert(k.processes[j] == after.processes[j]);
                lemma_other_not_running(k, i, j);
                let at = choose|at: int|
                    0 <= at < k.queue.len() && k.queue[at] == k.processes[j].id;
                assert(at != 0);
                assert(after.queue[at - 1] == k.processes[j].id);
            }
        } else {
            lemma_popped(k);
            lemma_dispatched(popped);
        }
    }
}

/// Ending a process keeps the kernel sound.
pub proof fn termination_keeps_sound(k: KernelView, i: int, termination: Termination)
    requires
        kernel_model::sound(k),
        0 <= i < k.processes.len(),
    ensures
        kernel_model::sound(kernel_model::terminated(k, i, termination)),
{
    let process = k.processes[i];
    let open = process.descriptors;
    let stripped = kernel_model::with_process(
        k,
        i,
        ProcessView { descriptors: Seq::empty(), ..process },
    );
    let released = kernel_model::release_all_spec(stripped, open, open.len());
    let disowned = KernelView {
        processes: kernel_model::orphaned(released.processes, process.id),
        ..released
    };
    let ended = kernel_model::with_state(
        disowned,
        i,
        ProcessState::of_termination(termination),
    );
    let stopped = KernelView {
        running: if ended.running == Some(process.id) {
            None
        } else {
            ended.running
        },
        ..ended
    };
    lemma_stripped(k, i, Seq::empty(), open);
    lemma_release_all(stripped, open, open.len());
    assert(open.subrange(open.len() as int, open.len() as int) =~= Seq::<Open>::empty());
    assert(released.processes[i].id == process.id);
    assert forall|j: int| 0 <= j < released.processes.len() implies (
    #[trigger] released.processes[j]).descriptors == stopped.processes[j].descriptors by {}
    lemma_balanced_same(released, stopped, Seq::empty());
    assert(kernel_model::ordered(stopped)) by {
        assert forall|a: int, b: int| 0 <= a < b < stopped.processes.len() implies (
        #[trigger] stopped.processes[a]).id.0 < (#[trigger] stopped.processes[b]).id.0 by {
            assert(released.processes[a].id.0 < released.processes[b].id.0);
        }
        assert forall|a: int| 0 <= a < stopped.processes.len() implies kernel_model::open_ordered(
            (#[trigger] stopped.processes[a]).descriptors,
        ) by {
            assert(kernel_model::open_ordered(released.processes[a].descriptors));
        }
        assert forall|a: int| 0 <= a < stopped.processes.len() && stopped.next_process != 0 implies (
        #[trigger] stopped.processes[a]).id.0 < stopped.next_process by {
            assert(released.processes[a].id.0 < released.next_process);
        }
    }
    assert(kernel_model::bounded(stopped)) by {
        assert forall|a: int| 0 <= a < stopped.processes.len() implies (
        #[trigger] stopped.processes[a]).descriptors.len()
            <= stopped.limits.max_descriptors_per_process by {
            assert(released.processes[a].descriptors.len()
                <= released.limits.max_descriptors_per_process);
        }
    }
    assert(kernel_model::scheduled(stopped)) by {
        assert forall|j: int| 0 <= j < stopped.processes.len() implies ((
        #[trigger] stopped.processes[j]).state == ProcessState::Running <==> stopped.running
            == Some(stopped.processes[j].id)) by {
            assert(released.processes[j].id == stopped.processes[j].id);
            if j != i {
                lemma_other_not_running(released, i, j);
                assert(released.processes[j].state == stopped.processes[j].state);
            }
        }
        if let Some(id) = stopped.running {
            assert forall|j: int| 0 <= j < released.processes.len() implies (
            #[trigger] released.processes[j]).id == stopped.processes[j].id by {}
            lemma_same_processes(released.processes, stopped.processes, id);
        }
        assert forall|j: int|
            0 <= j < stopped.processes.len() && (#[trigger] stopped.processes[j]).state.ended()
                is Some implies stopped.processes[j].descriptors.len() == 0 by {
            assert(released.processes[j].descriptors == stripped.processes[j].descriptors);
            if j != i {
                assert(released.processes[j].state == stopped.processes[j].state);
            }
        }
        assert forall|j: int|
            0 <= j < stopped.processes.len() && (#[trigger] stopped.processes[j]).state
                == ProcessState::Runnable implies stopped.queue.contains(
            stopped.processes[j].id,
        ) by {
            assert(j != i);
            assert(released.processes[j].state == stopped.processes[j].state);
            assert(released.processes[j].id == stopped.processes[j].id);
        }
    }
    lemma_wake(stopped, WaitReason::Child(process.id), Seq::empty());
}

/// Exiting keeps the kernel sound.
pub proof fn exit_keeps_sound(k: KernelView, process: ProcessId, status: i32)
    requires
        kernel_model::sound(k),
    ensures
        kernel_model::sound(kernel_model::exit_spec(k, process, status).0),
{
    lemma_find_process(k.processes, process);
    if kernel_model::exit_spec(k, process, status).1 is Ok {
        let i = kernel_model::find_process(k.processes, process)->Some_0;
        termination_keeps_sound(k, i, Termination::Exited(status));
    }
}

/// Signalling keeps the kernel sound.
pub proof fn signal_keeps_sound(k: KernelView, process: ProcessId, signal: Signal)
    requires
        kernel_model::sound(k),
    ensures
        kernel_model::sound(kernel_model::signal_spec(k, process, signal).0),
{
    lemma_find_process(k.processes, process);
    if kernel_model::signal_spec(k, process, signal).1 is Ok {
        let i = kernel_model::find_process(k.processes, process)->Some_0;
        termination_keeps_sound(k, i, Termination::Signaled(signal));
    }
}

/// Removing an ended process keeps the kernel sound.
pub proof fn lemma_reaped(k: KernelView, c: int)
    requires
        kernel_model::sound(k),
        0 <= c < k.processes.len(),
        k.processes[c].state.ended() is Some,
    ensures
        kernel_model::sound((KernelView { processes: k.processes.remove(c), ..k })),
{
    let after = KernelView { processes: k.processes.remove(c), ..k };
    assert forall|resource: DescriptorResource| #[trigger]
        kernel_model::total_uses(after.processes, resource) == kernel_model::total_uses(
            k.processes,
            resource,
        ) by {
        lemma_total_remove(k.processes, c, resource);
        assert(k.processes[c].descriptors.len() == 0);
    }
    assert forall|i: int| #![trigger after.pipes[i]] 0 <= i < after.pipes.len() implies {
        let pipe = after.pipes[i];
        &&& pipe.readers == kernel_model::total_uses(
            after.processes,
            DescriptorResource::PipeRead(pipe.id),
        ) + kernel_model::uses(Seq::<Open>::empty(), DescriptorResource::PipeRead(pipe.id))
        &&& pipe.writers == kernel_model::total_uses(
            after.processes,
            DescriptorResource::PipeWrite(pipe.id),
        ) + kernel_model::uses(Seq::<Open>::empty(), DescriptorResource::PipeWrite(pipe.id))
        &&& pipe.readers > 0 || pipe.writers > 0
    } by {
        assert(k.pipes[i] == after.pipes[i]);
    }
    assert forall|resource: DescriptorResource|
        #![trigger kernel_model::total_uses(after.processes, resource)]
        #![trigger kernel_model::uses(Seq::<Open>::empty(), resource)]
        kernel_model::total_uses(after.processes, resource) + kernel_model::uses(
            Seq::<Open>::empty(),
            resource,
        ) > 0 implies kernel_model::find_pipe(after.pipes, resource.pipe_id()) is Some by {
        assert(kernel_model::total_uses(after.processes, resource) >= 0);
        assert(kernel_model::total_uses(k.processes, resource) > 0);
    }
    assert forall|j: int| 0 <= j < after.processes.len() implies {
        let at = if j < c {
            j
        } else {
            j + 1
        };
        #[trigger] after.processes[j] == k.processes[at]
    } by {}
    assert(kernel_model::processes_ordered(after.processes)) by {
        assert forall|a: int, b: int| 0 <= a < b < after.processes.len() implies (
        #[trigger] after.processes[a]).id.0 < (#[trigger] after.processes[b]).id.0 by {
            let x = if a < c {
                a
            } else {
                a + 1
            };
            let y = if b < c {
                b
            } else {
                b + 1
            };
            assert(k.processes[x].id.0 < k.processes[y].id.0);
        }
    }
    if let Some(id) = k.running {
        lemma_find_process(k.processes, id);
        lemma_find_process(after.processes, id);
        let at = kernel_model::find_process(k.processes, id)->Some_0;
        assert(k.processes[at].state == ProcessState::Running);
        let j = if at < c {
            at
        } else {
            at - 1
        };
        assert(after.processes[j] == k.processes[at]);
    }
}

/// Waiting keeps the kernel sound.
pub proof fn wait_keeps_sound(k: KernelView, parent: ProcessId, child: ProcessId)
    requires
        kernel_model::sound(k),
    ensures
        kernel_model::sound(kernel_model::wait_spec(k, parent, child).0),
{
    lemma_find_process(k.processes, parent);
    lemma_find_process(k.processes, child);
    if kernel_model::wait_spec(k, parent, child).1 is Ok {
        let c = kernel_model::find_process(k.processes, child)->Some_0;
        if k.processes[c].state.ended() is Some {
            lemma_reaped(k, c);
        } else {
            parking_keeps_sound(k, parent, WaitReason::Child(child));
        }
    }
}

/// Reaping keeps the kernel sound.
pub proof fn reap_keeps_sound(k: KernelView, process: ProcessId)
    requires
        kernel_model::sound(k),
    ensures
        kernel_model::sound(kernel_model::reap_spec(k, process).0),
{
    lemma_find_process(k.processes, process);
    if kernel_model::reap_spec(k, process).1 is Ok {
        lemma_reaped(k, kernel_model::find_process(k.processes, process)->Some_0);
    }
}

pub proof fn lemma_first_free(open: Seq<Open>, raw: int)
    requires
        0 <= raw,
    ensures
        kernel_model::first_free(open, raw) matches Some(free) ==> raw <= free < i32::MAX
            && kernel_model::find_open(open, Descriptor(free as i32)) is None,
    decreases i32::MAX - raw,
{
    if raw < i32::MAX && kernel_model::find_open(open, Descriptor(raw as i32)) is Some {
        lemma_first_free(open, raw + 1);
    }
}

/// The two descriptors of a new pipe are new and different.
pub proof fn lemma_free_pair(open: Seq<Open>, id: PipeId)
    requires
        kernel_model::open_ordered(open),
        kernel_model::free_pair(open) is Some,
    ensures
        ({
            let pair = kernel_model::free_pair(open)->Some_0;
            let read = Descriptor(pair.0 as i32);
            let write = Descriptor(pair.1 as i32);
            let one = kernel_model::installed(open, read, DescriptorResource::PipeRead(id));
            &&& 3 <= pair.0 < pair.1 < i32::MAX
            &&& kernel_model::find_open(open, read) is None
            &&& kernel_model::find_open(one, write) is None
        }),
{
    let pair = kernel_model::free_pair(open)->Some_0;
    let read = Descriptor(pair.0 as i32);
    let write = Descriptor(pair.1 as i32);
    let one = kernel_model::installed(open, read, DescriptorResource::PipeRead(id));
    lemma_first_free(open, 3);
    lemma_first_free(open, pair.0 + 1);
    lemma_find_open(open, write);
    lemma_place(open, read);
    lemma_find_open(one, write);
    let at = kernel_model::place_of(open, read);
    assert forall|i: int| 0 <= i < one.len() implies (#[trigger] one[i]).0 != write by {
        if i < at {
            assert(one[i] == open[i]);
        } else if i > at {
            assert(one[i] == open[i - 1]);
        }
    }
}

/// Creating a pipe keeps the kernel sound.
pub proof fn create_pipe_keeps_sound(k: KernelView, owner: ProcessId, capacity: usize)
    requires
        kernel_model::sound(k),
    ensures
        kernel_model::sound(kernel_model::create_pipe_spec(k, owner, capacity).0),
{
    lemma_find_process(k.processes, owner);
    if kernel_model::create_pipe_spec(k, owner, capacity).1 is Ok {
        let i = kernel_model::find_process(k.processes, owner)->Some_0;
        lemma_piped(k, i, capacity);
    }
}

proof fn lemma_piped(k: KernelView, i: int, capacity: usize)
    requires
        kernel_model::sound(k),
        0 <= i < k.processes.len(),
        k.processes[i].state == ProcessState::Running,
        kernel_model::pipe_refusal(k, i, capacity) is None,
    ensures
        kernel_model::sound(kernel_model::piped(k, i, capacity)),
{
    let after = kernel_model::piped(k, i, capacity);
    let process = k.processes[i];
    let id = PipeId(k.next_pipe);
    let read = DescriptorResource::PipeRead(id);
    let write = DescriptorResource::PipeWrite(id);
    let pair = kernel_model::free_pair(process.descriptors)->Some_0;
    let one = kernel_model::installed(process.descriptors, Descriptor(pair.0 as i32), read);
    let open = kernel_model::installed(one, Descriptor(pair.1 as i32), write);
    assert(kernel_model::open_ordered(process.descriptors));
    lemma_free_pair(process.descriptors, id);
    lemma_installed(process.descriptors, Descriptor(pair.0 as i32), read);
    lemma_installed(one, Descriptor(pair.1 as i32), write);
    let owner = after.processes[i];
    assert forall|resource: DescriptorResource| #[trigger]
        kernel_model::total_uses(after.processes, resource) == kernel_model::total_uses(
            k.processes,
            resource,
        ) + (if resource == read || resource == write {
            1nat
        } else {
            0nat
        }) by {
        lemma_total_update(k.processes, i, owner, resource);
        assert(kernel_model::uses(open, resource) == kernel_model::uses(one, resource) + if write
            == resource {
            1nat
        } else {
            0nat
        });
        assert(kernel_model::uses(one, resource) == kernel_model::uses(
            process.descriptors,
            resource,
        ) + if read == resource {
            1nat
        } else {
            0nat
        });
    }
    lemma_find_pipe(k.pipes, id);
    assert(kernel_model::find_pipe(k.pipes, id) is None) by {
        if let Some(at) = kernel_model::find_pipe(k.pipes, id) {
            assert(k.pipes[at].id.0 < k.next_pipe);
        }
    }
    assert(kernel_model::total_uses(k.processes, read) == 0);
    assert(kernel_model::total_uses(k.processes, write) == 0);
    assert forall|j: int| #![trigger after.pipes[j]] 0 <= j < after.pipes.len() implies {
        let pipe = after.pipes[j];
        &&& pipe.readers == kernel_model::total_uses(
            after.processes,
            DescriptorResource::PipeRead(pipe.id),
        ) + kernel_model::uses(Seq::<Open>::empty(), DescriptorResource::PipeRead(pipe.id))
        &&& pipe.writers == kernel_model::total_uses(
            after.processes,
            DescriptorResource::PipeWrite(pipe.id),
        ) + kernel_model::uses(Seq::<Open>::empty(), DescriptorResource::PipeWrite(pipe.id))
        &&& pipe.readers > 0 || pipe.writers > 0
    } by {
        if j < k.pipes.len() {
            assert(k.pipes[j] == after.pipes[j]);
            assert(k.pipes[j].id.0 < k.next_pipe);
        }
    }
    assert forall|resource: DescriptorResource|
        #![trigger kernel_model::total_uses(after.processes, resource)]
        #![trigger kernel_model::uses(Seq::<Open>::empty(), resource)]
        kernel_model::total_uses(after.processes, resource) + kernel_model::uses(
            Seq::<Open>::empty(),
            resource,
        ) > 0 implies kernel_model::find_pipe(after.pipes, resource.pipe_id()) is Some by {
        assert(kernel_model::total_uses(after.processes, resource) >= 0);
        lemma_find_pipe(after.pipes, resource.pipe_id());
        if resource == read || resource == write {
            assert(after.pipes[k.pipes.len() as int].id == id);
        } else {
            assert(kernel_model::total_uses(k.processes, resource) > 0);
            lemma_find_pipe(k.pipes, resource.pipe_id());
            let at = kernel_model::find_pipe(k.pipes, resource.pipe_id())->Some_0;
            assert(after.pipes[at] == k.pipes[at]);
        }
    }
    assert(after.pipes.drop_last() =~= k.pipes);
    assert(kernel_model::balanced(after, Seq::empty()));
    if let Some(running) = k.running {
        lemma_same_processes(k.processes, after.processes, running);
    }
}

/// Closing a descriptor keeps the kernel sound.
pub proof fn close_keeps_sound(k: KernelView, process: ProcessId, descriptor: Descriptor)
    requires
        kernel_model::sound(k),
    ensures
        kernel_model::sound(kernel_model::close_spec(k, process, descriptor).0),
{
    lemma_find_process(k.processes, process);
    if kernel_model::close_spec(k, process, descriptor).1 is Ok {
        let i = kernel_model::find_process(k.processes, process)->Some_0;
        let open = k.processes[i].descriptors;
        lemma_find_open(open, descriptor);
        let d = kernel_model::find_open(open, descriptor)->Some_0;
        lemma_detached(k, i, d);
        let detached = kernel_model::with_process(
            k,
            i,
            ProcessView { descriptors: open.remove(d), ..k.processes[i] },
        );
        lemma_release(detached, seq![open[d]]);
        assert(seq![open[d]].drop_first() =~= Seq::<Open>::empty());
    }
}

/// A process with one descriptor taken out owes that descriptor.
pub proof fn lemma_detached(k: KernelView, i: int, d: int)
    requires
        kernel_model::sound(k),
        0 <= i < k.processes.len(),
        0 <= d < k.processes[i].descriptors.len(),
    ensures
        ({
            let open = k.processes[i].descriptors;
            let after = kernel_model::with_process(
                k,
                i,
                (ProcessView { descriptors: open.remove(d), ..k.processes[i] }),
            );
            &&& kernel_model::ordered(after)
            &&& kernel_model::bounded(after)
            &&& kernel_model::scheduled(after)
            &&& kernel_model::balanced(after, seq![open[d]])
        }),
{
    let open = k.processes[i].descriptors;
    let kept = open.remove(d);
    let owed = seq![open[d]];
    assert(kernel_model::open_ordered(open));
    assert forall|a: int, b: int| 0 <= a < b < kept.len() implies (#[trigger] kept[a]).0.0 < (
    #[trigger] kept[b]).0.0 by {
        let x = if a < d {
            a
        } else {
            a + 1
        };
        let y = if b < d {
            b
        } else {
            b + 1
        };
        assert(kept[a] == open[x]);
        assert(kept[b] == open[y]);
        assert(open[x].0.0 < open[y].0.0);
    }
    assert forall|resource: DescriptorResource| #[trigger]
        kernel_model::uses(open, resource) == kernel_model::uses(kept, resource)
            + kernel_model::uses(owed, resource) by {
        lemma_uses_remove(open, d, resource);
        reveal_with_fuel(kernel_model::uses, 2);
        assert(owed.drop_last() =~= Seq::<Open>::empty());
        assert(owed.last() == open[d]);
    }
    lemma_stripped(k, i, kept, owed);
}

/// The pipe behind an open descriptor is live.
pub proof fn lemma_open_pipe(k: KernelView, i: int, d: int)
    requires
        kernel_model::sound(k),
        0 <= i < k.processes.len(),
        0 <= d < k.processes[i].descriptors.len(),
    ensures
        kernel_model::find_pipe(k.pipes, k.processes[i].descriptors[d].1.pipe_id()) matches Some(p)
            && 0 <= p < k.pipes.len() && k.pipes[p].id
            == k.processes[i].descriptors[d].1.pipe_id(),
{
    let resource = k.processes[i].descriptors[d].1;
    lemma_uses_member(k.processes[i].descriptors, d);
    lemma_total_remove(k.processes, i, resource);
    assert(kernel_model::total_uses(k.processes, resource) > 0);
    lemma_find_pipe(k.pipes, resource.pipe_id());
}

proof fn lemma_buffered(k: KernelView, i: int, bytes: Seq<u8>, reason: WaitReason)
    requires
        kernel_model::sound(k),
        0 <= i < k.pipes.len(),
        bytes.len() <= k.pipes[i].capacity,
    ensures
        kernel_model::sound(
            kernel_model::wake_spec(kernel_model::with_bytes(k, i, bytes), reason),
        ),
{
    let after = kernel_model::with_bytes(k, i, bytes);
    lemma_balanced_same(k, after, Seq::empty());
    lemma_wake(after, reason, Seq::empty());
}

/// Reading keeps the kernel sound.
pub proof fn read_keeps_sound(
    k: KernelView,
    process: ProcessId,
    descriptor: Descriptor,
    max_bytes: usize,
)
    requires
        kernel_model::sound(k),
    ensures
        kernel_model::sound(kernel_model::read_spec(k, process, descriptor, max_bytes).0),
{
    lemma_find_process(k.processes, process);
    if kernel_model::read_spec(k, process, descriptor, max_bytes).1 is Ok {
        let i = kernel_model::find_process(k.processes, process)->Some_0;
        lemma_find_open(k.processes[i].descriptors, descriptor);
        let d = kernel_model::find_open(k.processes[i].descriptors, descriptor)->Some_0;
        lemma_open_pipe(k, i, d);
        let p = kernel_model::find_pipe(
            k.pipes,
            k.processes[i].descriptors[d].1.pipe_id(),
        )->Some_0;
        let pipe = k.pipes[p];
        if max_bytes > 0 && pipe.bytes.len() > 0 {
            let count = kernel_model::smaller(max_bytes as int, pipe.bytes.len() as int);
            lemma_buffered(
                k,
                p,
                pipe.bytes.subrange(count, pipe.bytes.len() as int),
                WaitReason::PipeWritable(pipe.id),
            );
        }
    }
}

/// Writing keeps the kernel sound.
pub proof fn write_keeps_sound(
    k: KernelView,
    process: ProcessId,
    descriptor: Descriptor,
    data: Seq<u8>,
)
    requires
        kernel_model::sound(k),
    ensures
        kernel_model::sound(kernel_model::write_spec(k, process, descriptor, data).0),
{
    lemma_find_process(k.processes, process);
    if kernel_model::write_spec(k, process, descriptor, data).1 is Ok {
        let i = kernel_model::find_process(k.processes, process)->Some_0;
        lemma_find_open(k.processes[i].descriptors, descriptor);
        let d = kernel_model::find_open(k.processes[i].descriptors, descriptor)->Some_0;
        lemma_open_pipe(k, i, d);
        let p = kernel_model::find_pipe(
            k.pipes,
            k.processes[i].descriptors[d].1.pipe_id(),
        )->Some_0;
        let pipe = k.pipes[p];
        if data.len() > 0 && pipe.readers > 0 && pipe.bytes.len() < pipe.capacity {
            let count = kernel_model::smaller(
                pipe.capacity - pipe.bytes.len(),
                data.len() as int,
            );
            lemma_buffered(
                k,
                p,
                pipe.bytes + data.subrange(0, count),
                WaitReason::PipeReadable(pipe.id),
            );
        }
    }
}

/// Parking for a pipe keeps the kernel sound.
pub proof fn park_keeps_sound(k: KernelView, process: ProcessId, descriptor: Descriptor)
    requires
        kernel_model::sound(k),
    ensures
        kernel_model::sound(kernel_model::park_read_spec(k, process, descriptor).0),
        kernel_model::sound(kernel_model::park_write_spec(k, process, descriptor).0),
{
    if kernel_model::state_refusal(
        k,
        process,
        ProcessState::Running,
        crate::process::ProcessOperation::Park,
    ) is None {
        if let Ok(id) = kernel_model::read_end(k, process, descriptor) {
            parking_keeps_sound(k, process, WaitReason::PipeReadable(id));
        }
        if let Ok(id) = kernel_model::write_end(k, process, descriptor) {
            parking_keeps_sound(k, process, WaitReason::PipeWritable(id));
        }
    }
}

// What follows.

/// A new process gets an identity that no process has, above all of them.
pub proof fn identities_are_not_reused(k: KernelView, executable: ExecutableId, cwd: Seq<char>)
    requires
        kernel_model::sound(k),
    ensures
        kernel_model::spawn_root_spec(k, executable, cwd).1 matches Ok(id) ==> {
            &&& forall|i: int|
                0 <= i < k.processes.len() ==> (#[trigger] k.processes[i]).id.0 < id.0
            &&& kernel_model::spawn_root_spec(k, executable, cwd).0.next_process > id.0
                || kernel_model::spawn_root_spec(k, executable, cwd).0.next_process == 0
        },
{
}

/// Bytes leave a pipe in the order in which they entered it: what a write
/// accepted is what later reads return, after everything already buffered.
pub proof fn pipes_are_first_in_first_out(k: KernelView, i: int, data: Seq<u8>, max_bytes: usize)
    requires
        0 <= i < k.pipes.len(),
        k.pipes[i].readers > 0,
        k.pipes[i].bytes.len() < k.pipes[i].capacity,
        data.len() > 0,
        max_bytes > 0,
    ensures
        ({
            let (written, result) = kernel_model::pipe_write_spec(k, i, data);
            let (read, got) = kernel_model::pipe_read_spec(written, i, max_bytes);
            let all = k.pipes[i].bytes + data;
            &&& result matches PipeWriteResult::Written(count) && 0 < count
            &&& got matches ReadView::Data(bytes) && bytes == all.subrange(
                0,
                bytes.len() as int,
            ) && bytes + read.pipes[i].bytes == all.subrange(
                0,
                k.pipes[i].bytes.len() + result->Written_0,
            )
        }),
{
    let (written, result) = kernel_model::pipe_write_spec(k, i, data);
    let (read, got) = kernel_model::pipe_read_spec(written, i, max_bytes);
    let all = k.pipes[i].bytes + data;
    let buffered = written.pipes[i].bytes;
    let bytes = got->Data_0;
    assert(buffered =~= all.subrange(0, k.pipes[i].bytes.len() + result->Written_0));
    assert(bytes =~= all.subrange(0, bytes.len() as int));
    assert(bytes + read.pipes[i].bytes =~= buffered);
}

/// End of file is reported only when the pipe is drained and its last writer
/// gone.
pub proof fn end_of_file_needs_the_last_writer_gone(k: KernelView, i: int, max_bytes: usize)
    ensures
        kernel_model::pipe_read_spec(k, i, max_bytes).1 == ReadView::Eof <==> max_bytes > 0
            && k.pipes[i].bytes.len() == 0 && k.pipes[i].writers == 0,
{
}

/// A process that waits for its child is runnable once the child has ended.
pub proof fn ending_wakes_the_waiting_parent(
    k: KernelView,
    child: int,
    parent: int,
    termination: Termination,
)
    requires
        kernel_model::sound(k),
        0 <= child < k.processes.len(),
        0 <= parent < k.processes.len(),
        parent != child,
        k.processes[parent].state == ProcessState::Waiting(
            WaitReason::Child(k.processes[child].id),
        ),
    ensures
        ({
            let after = kernel_model::terminated(k, child, termination);
            &&& after.processes[parent].state == ProcessState::Runnable
            &&& after.queue.contains(k.processes[parent].id)
            &&& after.processes[child].state == ProcessState::of_termination(termination)
        }),
{
    let process = k.processes[child];
    let open = process.descriptors;
    let stripped = kernel_model::with_process(
        k,
        child,
        ProcessView { descriptors: Seq::empty(), ..process },
    );
    lemma_stripped(k, child, Seq::empty(), open);
    lemma_release_all(stripped, open, open.len());
    lemma_release_keeps_child_wait(stripped, open, open.len(), parent, process.id);
    let released = kernel_model::release_all_spec(stripped, open, open.len());
    assert(released.processes[parent].id == stripped.processes[parent].id);
    termination_keeps_sound(k, child, termination);
    let after = kernel_model::terminated(k, child, termination);
    assert(after.processes[parent].state == ProcessState::Runnable);
    assert(after.processes[parent].id == k.processes[parent].id);
}

proof fn lemma_release_keeps_child_wait(
    k: KernelView,
    open: Seq<Open>,
    count: nat,
    parent: int,
    child: ProcessId,
)
    requires
        0 <= parent < k.processes.len(),
        k.processes[parent].state == ProcessState::Waiting(WaitReason::Child(child)),
    ensures
        ({
            let after = kernel_model::release_all_spec(k, open, count);
            &&& after.processes.len() == k.processes.len()
            &&& after.processes[parent].state == k.processes[parent].state
        }),
    decreases count,
{
    if count > 0 {
        lemma_release_keeps_child_wait(k, open, (count - 1) as nat, parent, child);
        lemma_release_frame(
            kernel_model::release_all_spec(k, open, (count - 1) as nat),
            open[count - 1].1,
        );
    }
}

/// A refused operation changes nothing: no identity is used up, no descriptor
/// installed, and no process moves.
pub proof fn refused_lifecycle_operations_change_nothing(
    k: KernelView,
    process: ProcessId,
    child: ProcessId,
    executable: ExecutableId,
    cwd: Seq<char>,
    bindings: Seq<DescriptorBinding>,
    status: i32,
    signal: Signal,
)
    ensures
        ({
            let (after, r) = kernel_model::spawn_root_spec(k, executable, cwd);
            r is Err ==> after == k
        }),
        ({
            let (after, r) = kernel_model::spawn_child_spec(k, process, executable, cwd, bindings);
            r is Err ==> after == k
        }),
        ({
            let (after, r) = kernel_model::admit_spec(k, process);
            r is Err ==> after == k
        }),
        ({
            let (after, r) = kernel_model::yield_spec(k, process);
            r is Err ==> after == k
        }),
        ({
            let (after, r) = kernel_model::exit_spec(k, process, status);
            r is Err ==> after == k
        }),
        ({
            let (after, r) = kernel_model::signal_spec(k, process, signal);
            r is Err ==> after == k
        }),
        ({
            let (after, r) = kernel_model::wait_spec(k, process, child);
            r is Err ==> after == k
        }),
        ({
            let (after, r) = kernel_model::reap_spec(k, process);
            r is Err ==> after == k
        }),
{
}

/// Neither does a refused operation on a descriptor.
pub proof fn refused_descriptor_operations_change_nothing(
    k: KernelView,
    process: ProcessId,
    descriptor: Descriptor,
    capacity: usize,
    max_bytes: usize,
    data: Seq<u8>,
)
    ensures
        ({
            let (after, r) = kernel_model::create_pipe_spec(k, process, capacity);
            r is Err ==> after == k
        }),
        ({
            let (after, r) = kernel_model::close_spec(k, process, descriptor);
            r is Err ==> after == k
        }),
        ({
            let (after, r) = kernel_model::read_spec(k, process, descriptor, max_bytes);
            r is Err ==> after == k
        }),
        ({
            let (after, r) = kernel_model::write_spec(k, process, descriptor, data);
            r is Err ==> after == k
        }),
        ({
            let (after, r) = kernel_model::park_read_spec(k, process, descriptor);
            r is Err ==> after == k
        }),
        ({
            let (after, r) = kernel_model::park_write_spec(k, process, descriptor);
            r is Err ==> after == k
        }),
{
}

/// A child gets exactly the endpoints that its bindings name: each target holds
/// what the parent holds at its source, and nothing else is inherited.
pub proof fn children_inherit_what_is_bound(
    k: KernelView,
    parent: ProcessId,
    executable: ExecutableId,
    cwd: Seq<char>,
    bindings: Seq<DescriptorBinding>,
)
    requires
        kernel_model::sound(k),
        kernel_model::spawn_child_spec(k, parent, executable, cwd, bindings).1 is Ok,
    ensures
        ({
            let after = kernel_model::spawn_child_spec(k, parent, executable, cwd, bindings).0;
            let i = kernel_model::find_process(k.processes, parent)->Some_0;
            let open = k.processes[i].descriptors;
            let child = after.processes.last();
            &&& child.parent == Some(parent)
            &&& child.descriptors.len() == bindings.len()
            &&& forall|b: int|
                0 <= b < bindings.len() ==> inherited(open, child.descriptors, #[trigger] bindings[b])
        }),
{
    let i = kernel_model::find_process(k.processes, parent)->Some_0;
    let open = k.processes[i].descriptors;
    lemma_bound_inherits(parent, open, bindings, bindings.len());
}

proof fn lemma_find_open_at(open: Seq<Open>, i: int)
    requires
        kernel_model::open_ordered(open),
        0 <= i < open.len(),
    ensures
        kernel_model::find_open(open, open[i].0) == Some(i),
{
    lemma_find_open(open, open[i].0);
    if let Some(j) = kernel_model::find_open(open, open[i].0) {
        if j < i {
            assert(open[j].0.0 < open[i].0.0);
        } else if i < j {
            assert(open[i].0.0 < open[j].0.0);
        }
    } else {
        assert(open[i].0 != open[i].0);
    }
}

proof fn lemma_bound_inherits(
    parent: ProcessId,
    open: Seq<Open>,
    bindings: Seq<DescriptorBinding>,
    count: nat,
)
    requires
        kernel_model::bound_spec(parent, open, bindings, count) is Ok,
        count <= bindings.len(),
    ensures
        ({
            let bound = kernel_model::bound_spec(parent, open, bindings, count)->Ok_0;
            &&& bound.len() == count
            &&& forall|b: int|
                0 <= b < count ==> inherited(open, bound, #[trigger] bindings[b])
        }),
    decreases count,
{
    lemma_bound(parent, open, bindings, count);
    if count > 0 {
        lemma_bound_inherits(parent, open, bindings, (count - 1) as nat);
        lemma_bound(parent, open, bindings, (count - 1) as nat);
        let before = kernel_model::bound_spec(parent, open, bindings, (count - 1) as nat)->Ok_0;
        let bound = kernel_model::bound_spec(parent, open, bindings, count)->Ok_0;
        let last = bindings[count - 1];
        let source = kernel_model::find_open(open, last.source)->Some_0;
        let at = kernel_model::place_of(before, last.target);
        lemma_place(before, last.target);
        assert(bound[at] == (last.target, open[source].1));
        lemma_find_open_at(bound, at);
        assert forall|b: int| 0 <= b < count implies inherited(
            open,
            bound,
            #[trigger] bindings[b],
        ) by {
            if b < count - 1 {
                assert(inherited(open, before, bindings[b]));
                lemma_find_open(before, bindings[b].target);
                let t = kernel_model::find_open(before, bindings[b].target)->Some_0;
                let there = if t < at {
                    t
                } else {
                    t + 1
                };
                assert(bound[there] == before[t]);
                lemma_find_open_at(bound, there);
            }
        }
    }
}

/// Whether a child holds at the target of a binding what its parent holds at the
/// source.
pub open spec fn inherited(
    open: Seq<Open>,
    child: Seq<Open>,
    binding: DescriptorBinding,
) -> bool {
    match (
        kernel_model::find_open(open, binding.source),
        kernel_model::find_open(child, binding.target),
    ) {
        (Some(s), Some(t)) => open[s].1 == child[t].1,
        _ => false,
    }
}

// Scheduling.

/// Dispatch follows the queue: the first queued process that can still run is
/// the one that runs, and those behind it keep their places.
pub proof fn dispatch_follows_the_queue(k: KernelView, at: int)
    requires
        k.running is None,
        0 <= at < k.queue.len(),
        kernel_model::can_run(k, k.queue[at]),
        forall|i: int| 0 <= i < at ==> !kernel_model::can_run(k, #[trigger] k.queue[i]),
    ensures
        ({
            let (after, chosen) = kernel_model::dispatch_spec(k);
            &&& chosen == Some(k.queue[at])
            &&& after.running == Some(k.queue[at])
            &&& after.queue == k.queue.skip(at + 1)
        }),
    decreases k.queue.len(),
{
    let popped = KernelView { queue: k.queue.drop_first(), ..k };
    if at > 0 {
        assert(!kernel_model::can_run(k, k.queue[0]));
        assert(popped.queue[at - 1] == k.queue[at]);
        assert forall|i: int| 0 <= i < at - 1 implies !kernel_model::can_run(
            popped,
            #[trigger] popped.queue[i],
        ) by {
            assert(popped.queue[i] == k.queue[i + 1]);
        }
        dispatch_follows_the_queue(popped, at - 1);
        assert(popped.queue.skip(at) =~= k.queue.skip(at + 1));
    } else {
        assert(k.queue.drop_first() =~= k.queue.skip(1));
    }
}

/// The place of the first queued process that can run, given one that can.
pub proof fn lemma_first_that_can_run(k: KernelView, at: int) -> (first: int)
    requires
        0 <= at < k.queue.len(),
        kernel_model::can_run(k, k.queue[at]),
    ensures
        0 <= first <= at,
        kernel_model::can_run(k, k.queue[first]),
        forall|i: int| 0 <= i < first ==> !kernel_model::can_run(k, #[trigger] k.queue[i]),
    decreases at,
{
    if exists|i: int| 0 <= i < at && kernel_model::can_run(k, #[trigger] k.queue[i]) {
        let i = choose|i: int| 0 <= i < at && kernel_model::can_run(k, #[trigger] k.queue[i]);
        lemma_first_that_can_run(k, i)
    } else {
        at
    }
}

/// An idle kernel with a runnable process always finds one to run.
pub proof fn runnable_processes_are_dispatched(k: KernelView, i: int)
    requires
        kernel_model::sound(k),
        k.running is None,
        0 <= i < k.processes.len(),
        k.processes[i].state == ProcessState::Runnable,
    ensures
        kernel_model::dispatch_spec(k).1 is Some,
{
    let id = k.processes[i].id;
    let at = choose|at: int| 0 <= at < k.queue.len() && k.queue[at] == id;
    lemma_find_unique(k, i);
    let first = lemma_first_that_can_run(k, at);
    dispatch_follows_the_queue(k, first);
}

pub proof fn lemma_find_unique(k: KernelView, i: int)
    requires
        kernel_model::processes_ordered(k.processes),
        0 <= i < k.processes.len(),
    ensures
        kernel_model::find_process(k.processes, k.processes[i].id) == Some(i),
{
    let id = k.processes[i].id;
    lemma_find_process(k.processes, id);
    let found = kernel_model::find_process(k.processes, id);
    if found is None {
        assert(k.processes[i].id != id);
    } else {
        let j = found->Some_0;
        if j < i {
            assert(k.processes[j].id.0 < k.processes[i].id.0);
        } else if i < j {
            assert(k.processes[i].id.0 < k.processes[j].id.0);
        }
    }
}

// Waking.

proof fn lemma_woken(k: KernelView, reason: WaitReason, i: int)
    requires
        0 <= i < k.processes.len(),
        k.processes[i].state == ProcessState::Waiting(reason),
    ensures
        kernel_model::wake_spec(k, reason).processes[i].state == ProcessState::Runnable,
        kernel_model::wake_spec(k, reason).queue.contains(k.processes[i].id),
{
    lemma_parked(k.processes, reason, i);
    let parked = kernel_model::parked(k.processes, reason);
    let at = choose|at: int| 0 <= at < parked.len() && parked[at] == k.processes[i].id;
    let after = kernel_model::wake_spec(k, reason);
    assert(after.queue[k.queue.len() + at] == k.processes[i].id);
}

/// Whoever waits to read from a pipe can run once a write took a byte.
pub proof fn writes_wake_the_readers(k: KernelView, pipe: int, data: Seq<u8>, reader: int)
    requires
        0 <= pipe < k.pipes.len(),
        0 <= reader < k.processes.len(),
        k.processes[reader].state == ProcessState::Waiting(
            WaitReason::PipeReadable(k.pipes[pipe].id),
        ),
        data.len() > 0,
    ensures
        kernel_model::pipe_write_spec(k, pipe, data).1 is Written ==> ({
            let after = kernel_model::pipe_write_spec(k, pipe, data).0;
            &&& after.processes[reader].state == ProcessState::Runnable
            &&& after.queue.contains(k.processes[reader].id)
        }),
{
    let old = k.pipes[pipe];
    let count = kernel_model::smaller(old.capacity - old.bytes.len(), data.len() as int);
    let written = kernel_model::with_bytes(k, pipe, old.bytes + data.subrange(0, count));
    lemma_woken(written, WaitReason::PipeReadable(old.id), reader);
}

/// Whoever waits to write to a pipe can run once a read took a byte out.
pub proof fn reads_wake_the_writers(k: KernelView, pipe: int, max_bytes: usize, writer: int)
    requires
        0 <= pipe < k.pipes.len(),
        0 <= writer < k.processes.len(),
        k.processes[writer].state == ProcessState::Waiting(
            WaitReason::PipeWritable(k.pipes[pipe].id),
        ),
        max_bytes > 0,
    ensures
        kernel_model::pipe_read_spec(k, pipe, max_bytes).1 is Data ==> ({
            let after = kernel_model::pipe_read_spec(k, pipe, max_bytes).0;
            &&& after.processes[writer].state == ProcessState::Runnable
            &&& after.queue.contains(k.processes[writer].id)
        }),
{
    let old = k.pipes[pipe];
    let count = kernel_model::smaller(max_bytes as int, old.bytes.len() as int);
    let drained = kernel_model::with_bytes(
        k,
        pipe,
        old.bytes.subrange(count, old.bytes.len() as int),
    );
    lemma_woken(drained, WaitReason::PipeWritable(old.id), writer);
}

/// When the last writer of a pipe goes, whoever waits to read from it can run,
/// to find the end of file.
pub proof fn the_last_writer_wakes_the_readers(k: KernelView, id: PipeId, reader: int)
    requires
        kernel_model::find_pipe(k.pipes, id) matches Some(i) && k.pipes[i].writers == 1,
        0 <= reader < k.processes.len(),
        k.processes[reader].state == ProcessState::Waiting(WaitReason::PipeReadable(id)),
    ensures
        ({
            let after = kernel_model::release_spec(k, DescriptorResource::PipeWrite(id));
            &&& after.processes[reader].state == ProcessState::Runnable
            &&& after.queue.contains(k.processes[reader].id)
        }),
{
    lemma_woken(
        kernel_model::uncounted(k, DescriptorResource::PipeWrite(id)),
        WaitReason::PipeReadable(id),
        reader,
    );
}

/// When the last reader of a pipe goes, whoever waits to write to it can run, to
/// find the pipe broken.
pub proof fn the_last_reader_wakes_the_writers(k: KernelView, id: PipeId, writer: int)
    requires
        kernel_model::find_pipe(k.pipes, id) matches Some(i) && k.pipes[i].readers == 1,
        0 <= writer < k.processes.len(),
        k.processes[writer].state == ProcessState::Waiting(WaitReason::PipeWritable(id)),
    ensures
        ({
            let after = kernel_model::release_spec(k, DescriptorResource::PipeRead(id));
            &&& after.processes[writer].state == ProcessState::Runnable
            &&& after.queue.contains(k.processes[writer].id)
        }),
{
    lemma_woken(
        kernel_model::uncounted(k, DescriptorResource::PipeRead(id)),
        WaitReason::PipeWritable(id),
        writer,
    );
}

// Ending.

/// A child's status is handed out once: the wait that reaps it returns how it
/// ended, and afterwards no process has its identity.
pub proof fn children_are_reaped_once(
    k: KernelView,
    parent: ProcessId,
    child: ProcessId,
    termination: Termination,
)
    requires
        kernel_model::sound(k),
        kernel_model::wait_spec(k, parent, child).1 == Ok::<WaitResult, KernelError>(
            WaitResult::Reaped(termination),
        ),
    ensures
        ({
            let after = kernel_model::wait_spec(k, parent, child).0;
            let c = kernel_model::find_process(k.processes, child)->Some_0;
            &&& k.processes[c].state.ended() == Some(termination)
            &&& kernel_model::find_process(after.processes, child) is None
        }),
{
    let after = kernel_model::wait_spec(k, parent, child).0;
    lemma_find_process(k.processes, child);
    let c = kernel_model::find_process(k.processes, child)->Some_0;
    lemma_find_process(after.processes, child);
    if let Some(j) = kernel_model::find_process(after.processes, child) {
        if j < c {
            assert(after.processes[j] == k.processes[j]);
            assert(k.processes[j].id.0 < k.processes[c].id.0);
        } else {
            assert(after.processes[j] == k.processes[j + 1]);
            assert(k.processes[c].id.0 < k.processes[j + 1].id.0);
        }
    }
}

/// The children of a process that ends pass to the supervisor, which alone can
/// reap them from then on; and a process that has ended holds no descriptor.
pub proof fn orphans_pass_to_the_supervisor(k: KernelView, i: int, termination: Termination)
    requires
        kernel_model::sound(k),
        0 <= i < k.processes.len(),
    ensures
        ({
            let after = kernel_model::terminated(k, i, termination);
            &&& forall|j: int|
                0 <= j < after.processes.len() ==> (#[trigger] after.processes[j]).parent != Some(
                    k.processes[i].id,
                )
            &&& after.processes[i].descriptors.len() == 0
        }),
{
    let process = k.processes[i];
    let open = process.descriptors;
    let stripped = kernel_model::with_process(
        k,
        i,
        ProcessView { descriptors: Seq::empty(), ..process },
    );
    lemma_stripped(k, i, Seq::empty(), open);
    lemma_release_all(stripped, open, open.len());
    let after = kernel_model::terminated(k, i, termination);
    let released = kernel_model::release_all_spec(stripped, open, open.len());
    assert(released.processes[i].descriptors == stripped.processes[i].descriptors);
    let disowned = kernel_model::orphaned(released.processes, process.id);
    assert forall|j: int| 0 <= j < after.processes.len() implies (
    #[trigger] after.processes[j]).parent != Some(process.id) by {
        assert(after.processes[j].parent == disowned[j].parent);
    }
}

} // verus!
