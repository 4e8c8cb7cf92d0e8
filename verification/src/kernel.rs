//! Deterministic process, descriptor, and bounded-pipe semantics for AOS Realm.
//!
//! The kernel owns no guest instances and performs no host calls.

use crate::kernel_laws;
use crate::kernel_model;
use crate::kernel_model::{KernelView, Open, PipeView, ProcessView};
use crate::kernel_queue;
use crate::process::{
    Descriptor, DescriptorBinding, DescriptorResource, KernelError, ParkResult, PipeEnds, PipeId,
    PipeReadResult, PipeSnapshot, PipeWriteResult, ProcessId, ProcessOperation, ProcessSnapshot,
    ProcessSpec, ProcessState, Quota, RealmLimits, Signal, Termination, WaitReason, WaitResult,
    FIRST_FILE_FD, MAX_PATH_BYTES,
};
use crate::text;
use crate::text::chars_of;
use std::collections::VecDeque;
use vstd::prelude::*;
use vstd::string::*;

verus! {

/// One entry of the process table.
#[derive(Debug)]
pub struct ProcessRecord {
    pub id: ProcessId,
    pub parent: Option<ProcessId>,
    pub spec: ProcessSpec,
    pub state: ProcessState,
    pub descriptors: Vec<(Descriptor, DescriptorResource)>,
}

impl ProcessRecord {
    pub open spec fn view(&self) -> ProcessView {
        ProcessView {
            id: self.id,
            parent: self.parent,
            executable: self.spec.executable,
            cwd: self.spec.cwd@,
            state: self.state,
            descriptors: self.descriptors@,
        }
    }
}

/// One live pipe.
#[derive(Debug)]
pub struct Pipe {
    pub id: PipeId,
    pub capacity: usize,
    pub bytes: VecDeque<u8>,
    pub readers: usize,
    pub writers: usize,
}

impl Pipe {
    pub open spec fn view(&self) -> PipeView {
        PipeView {
            id: self.id,
            capacity: self.capacity,
            bytes: self.bytes@,
            readers: self.readers,
            writers: self.writers,
        }
    }
}

pub open spec fn process_views(records: Seq<ProcessRecord>) -> Seq<ProcessView> {
    Seq::new(records.len(), |i: int| records[i].view())
}

pub open spec fn pipe_views(pipes: Seq<Pipe>) -> Seq<PipeView> {
    Seq::new(pipes.len(), |i: int| pipes[i].view())
}

/// Deterministic realm process and IPC state machine.
#[derive(Debug)]
pub struct RealmKernel {
    pub limits: RealmLimits,
    pub processes: Vec<ProcessRecord>,
    pub pipes: Vec<Pipe>,
    pub run_queue: VecDeque<ProcessId>,
    pub running: Option<ProcessId>,
    pub next_process_id: u64,
    pub next_pipe_id: u64,
    pub reserved_pipe_bytes: usize,
}

/// Whether a working directory is a normalized absolute guest path.
pub fn validate_cwd(cwd: &str) -> (r: Result<(), KernelError>)
    ensures
        r == (if kernel_model::valid_cwd(cwd@) {
            Ok::<(), KernelError>(())
        } else {
            Err(KernelError::InvalidCwd)
        }),
{
    let length: usize = cwd.as_bytes().len();
    let chars = chars_of(cwd);
    if chars.len() == 0 || length > MAX_PATH_BYTES || chars[0] != '/' {
        return Err(KernelError::InvalidCwd);
    }
    if !plain_characters(&chars) {
        return Err(KernelError::InvalidCwd);
    }
    if chars.len() == 1 || plain_components(&chars) {
        Ok(())
    } else {
        Err(KernelError::InvalidCwd)
    }
}

fn plain_characters(chars: &Vec<char>) -> (r: bool)
    ensures
        r == (forall|i: int|
            0 <= i < chars@.len() ==> #[trigger] chars@[i] != '\\' && !text::is_control(
                chars@[i],
            )),
{
    let mut i: usize = 0;
    while i < chars.len()
        invariant
            i <= chars@.len(),
            forall|j: int|
                0 <= j < i ==> #[trigger] chars@[j] != '\\' && !text::is_control(chars@[j]),
        decreases chars@.len() - i,
    {
        let c: char = chars[i];
        let code: u32 = c as u32;
        if c == '\\' || code <= 0x1f || (0x7f <= code && code <= 0x9f) {
            assert(!(chars@[i as int] != '\\' && !text::is_control(chars@[i as int])));
            return false;
        }
        i = i + 1;
    }
    true
}

/// Whether every component behind the leading slash is plain.
fn plain_components(chars: &Vec<char>) -> (r: bool)
    requires
        chars@.len() > 1,
    ensures
        r == (forall|j: int|
            0 <= j < text::parts(chars@.skip(1), '/').len()
                ==> kernel_model::plain_component(
                #[trigger] text::parts(chars@.skip(1), '/')[j],
            )),
{
    let ghost tail = chars@.skip(1);
    let mut start: usize = 1;
    let mut i: usize = 1;
    proof {
        assert(tail.subrange(0, 0) =~= Seq::<char>::empty());
        assert(chars@.subrange(1, 1) =~= Seq::<char>::empty());
    }
    while i < chars.len()
        invariant
            1 <= start <= i <= chars@.len(),
            tail == chars@.skip(1),
            ({
                let read = text::parts(tail.subrange(0, i - 1), '/');
                &&& read.len() > 0
                &&& read.last() == chars@.subrange(start as int, i as int)
                &&& forall|j: int|
                    0 <= j < read.len() - 1 ==> kernel_model::plain_component(#[trigger] read[j])
            }),
        decreases chars@.len() - i,
    {
        let ghost before = tail.subrange(0, i - 1);
        let ghost after = tail.subrange(0, i as int);
        let ghost read = text::parts(before, '/');
        let ghost more = text::parts(after, '/');
        proof {
            assert(after.drop_last() =~= before);
            assert(after.last() == chars@[i as int]);
        }
        if chars[i] == '/' {
            if !plain(chars, start, i) {
                proof {
                    lemma_parts_extend(after, tail, read.len() - 1);
                    assert(more[read.len() - 1] == read.last());
                    assert(!kernel_model::plain_component(
                        text::parts(tail, '/')[read.len() - 1],
                    ));
                }
                return false;
            }
            proof {
                assert(more =~= read.push(Seq::empty()));
                assert(chars@.subrange(i + 1, i + 1) =~= Seq::<char>::empty());
            }
            start = i + 1;
        } else {
            proof {
                assert(more.last() =~= chars@.subrange(start as int, i + 1));
            }
        }
        i = i + 1;
    }
    proof {
        assert(tail.subrange(0, i - 1) =~= tail);
        let all = text::parts(tail, '/');
        assert(all.last() == all[all.len() - 1]);
    }
    plain(chars, start, i)
}

fn plain(chars: &Vec<char>, start: usize, end: usize) -> (r: bool)
    requires
        start <= end <= chars@.len(),
    ensures
        r == kernel_model::plain_component(chars@.subrange(start as int, end as int)),
{
    let ghost component = chars@.subrange(start as int, end as int);
    if start == end {
        return false;
    }
    if end - start == 1 && chars[start] == '.' {
        assert(component =~= seq!['.']);
        return false;
    }
    if end - start == 2 && chars[start] == '.' && chars[start + 1] == '.' {
        assert(component =~= seq!['.', '.']);
        return false;
    }
    proof {
        let dot = seq!['.'];
        let dots = seq!['.', '.'];
        assert(component[0] == chars@[start as int]);
        if component == dot {
            assert(dot.len() == 1 && dot[0] == '.');
        }
        if component == dots {
            assert(dots.len() == 2 && dots[0] == '.' && dots[1] == '.');
            assert(component[1] == chars@[start + 1]);
        }
    }
    true
}

/// Parts closed by a separator do not change when the text goes on.
proof fn lemma_parts_extend(short: Seq<char>, long: Seq<char>, j: int)
    requires
        short.len() <= long.len(),
        short == long.subrange(0, short.len() as int),
        0 <= j < text::parts(short, '/').len() - 1,
    ensures
        text::parts(long, '/').len() >= text::parts(short, '/').len(),
        text::parts(long, '/')[j] == text::parts(short, '/')[j],
    decreases long.len() - short.len(),
{
    if short.len() == long.len() {
        assert(short =~= long);
    } else {
        let next = long.subrange(0, short.len() as int + 1);
        assert(next.drop_last() =~= short);
        assert(next == long.subrange(0, next.len() as int));
        lemma_parts_extend(next, long, j);
    }
}

impl RealmKernel {
    pub open spec fn view(&self) -> KernelView {
        KernelView {
            limits: self.limits,
            processes: process_views(self.processes@),
            pipes: pipe_views(self.pipes@),
            queue: self.run_queue@,
            running: self.running,
            next_process: self.next_process_id,
            next_pipe: self.next_pipe_id,
            reserved: self.reserved_pipe_bytes,
        }
    }

    pub open spec fn wf(&self) -> bool {
        kernel_model::sound(self@) && kernel_queue::lined_up(self@)
    }

    /// Construct an empty realm kernel with explicit aggregate limits.
    pub fn new(limits: RealmLimits) -> (r: Self)
        ensures
            r.wf(),
            r@ == kernel_model::fresh_kernel(limits),
    {
        let kernel = RealmKernel {
            limits,
            processes: Vec::new(),
            pipes: Vec::new(),
            run_queue: VecDeque::new(),
            running: None,
            next_process_id: 1,
            next_pipe_id: 1,
            reserved_pipe_bytes: 0,
        };
        proof {
            kernel_laws::fresh_kernel_is_sound(limits);
            kernel_queue::fresh_kernels_are_lined_up(limits);
            assert(kernel@ =~= kernel_model::fresh_kernel(limits));
        }
        kernel
    }

    /// Number of allocated process records, including zombies.
    pub fn process_count(&self) -> (r: usize)
        ensures
            r == self@.processes.len(),
    {
        self.processes.len()
    }

    /// Number of live pipe objects.
    pub fn pipe_count(&self) -> (r: usize)
        ensures
            r == self@.pipes.len(),
    {
        self.pipes.len()
    }

    /// Aggregate pipe capacity currently reserved.
    pub fn reserved_pipe_bytes(&self) -> (r: usize)
        ensures
            r == self@.reserved,
    {
        self.reserved_pipe_bytes
    }

    /// Next process identity that will be allocated, or `None` after exhaustion.
    pub fn next_process_id(&self) -> (r: Option<ProcessId>)
        ensures
            r == (if self@.next_process != 0 {
                Some(ProcessId(self@.next_process))
            } else {
                None
            }),
    {
        if self.next_process_id != 0 {
            Some(ProcessId::new(self.next_process_id))
        } else {
            None
        }
    }

    fn find(&self, id: ProcessId) -> (r: Option<usize>)
        ensures
            match (r, kernel_model::find_process(self@.processes, id)) {
                (Some(i), Some(found)) => i == found && i < self.processes@.len()
                    && self.processes@[i as int].id == id,
                (None, None) => true,
                _ => false,
            },
    {
        let mut i: usize = self.processes.len();
        let ghost all = self@.processes;
        assert(all.subrange(0, all.len() as int) =~= all);
        while i > 0
            invariant
                i <= self.processes@.len(),
                all == self@.processes,
                all == process_views(self.processes@),
                kernel_model::find_process(all, id) == kernel_model::find_process(
                    all.subrange(0, i as int),
                    id,
                ),
            decreases i,
        {
            proof {
                let prefix = all.subrange(0, i as int);
                assert(prefix.drop_last() =~= all.subrange(0, i - 1));
                assert(prefix.last() == all[i - 1]);
            }
            if self.processes[i - 1].id == id {
                return Some(i - 1);
            }
            i = i - 1;
        }
        None
    }

    fn find_pipe(&self, id: PipeId) -> (r: Option<usize>)
        ensures
            match (r, kernel_model::find_pipe(self@.pipes, id)) {
                (Some(i), Some(found)) => i == found && i < self.pipes@.len()
                    && self.pipes@[i as int].id == id,
                (None, None) => true,
                _ => false,
            },
    {
        let mut i: usize = self.pipes.len();
        let ghost all = self@.pipes;
        assert(all.subrange(0, all.len() as int) =~= all);
        while i > 0
            invariant
                i <= self.pipes@.len(),
                all == self@.pipes,
                all == pipe_views(self.pipes@),
                kernel_model::find_pipe(all, id) == kernel_model::find_pipe(
                    all.subrange(0, i as int),
                    id,
                ),
            decreases i,
        {
            proof {
                let prefix = all.subrange(0, i as int);
                assert(prefix.drop_last() =~= all.subrange(0, i - 1));
                assert(prefix.last() == all[i - 1]);
            }
            if self.pipes[i - 1].id == id {
                return Some(i - 1);
            }
            i = i - 1;
        }
        None
    }

    /// Snapshot one process without exposing mutable kernel state.
    pub fn process(&self, process: ProcessId) -> (r: Result<ProcessSnapshot, KernelError>)
        ensures
            match kernel_model::find_process(self@.processes, process) {
                None => r == Err::<ProcessSnapshot, _>(KernelError::ProcessNotFound(process)),
                Some(i) => r matches Ok(snapshot) && {
                    let record = self@.processes[i];
                    &&& snapshot.id == process
                    &&& snapshot.parent == record.parent
                    &&& snapshot.executable == record.executable
                    &&& snapshot.cwd@ == record.cwd
                    &&& snapshot.state == record.state
                    &&& snapshot.descriptors == record.descriptors.len()
                },
            },
    {
        match self.find(process) {
            None => Err(KernelError::ProcessNotFound(process)),
            Some(i) => {
                let record = &self.processes[i];
                Ok(
                    ProcessSnapshot {
                        id: process,
                        parent: record.parent,
                        executable: record.spec.executable,
                        cwd: record.spec.cwd.clone(),
                        state: record.state,
                        descriptors: record.descriptors.len(),
                    },
                )
            },
        }
    }

    /// Snapshot one pipe's accounting.
    pub fn pipe(&self, pipe: PipeId) -> (r: Result<PipeSnapshot, KernelError>)
        ensures
            match kernel_model::find_pipe(self@.pipes, pipe) {
                None => r == Err::<PipeSnapshot, _>(KernelError::PipeNotFound(pipe)),
                Some(i) => r matches Ok(snapshot) && {
                    let record = self@.pipes[i];
                    &&& snapshot.capacity == record.capacity
                    &&& snapshot.buffered == record.bytes.len()
                    &&& snapshot.readers == record.readers
                    &&& snapshot.writers == record.writers
                },
            },
    {
        match self.find_pipe(pipe) {
            None => Err(KernelError::PipeNotFound(pipe)),
            Some(i) => {
                let record = &self.pipes[i];
                Ok(
                    PipeSnapshot {
                        capacity: record.capacity,
                        buffered: record.bytes.len(),
                        readers: record.readers,
                        writers: record.writers,
                    },
                )
            },
        }
    }

    /// Inspect a process-local descriptor resource.
    pub fn descriptor(&self, process: ProcessId, descriptor: Descriptor) -> (r: Result<
        DescriptorResource,
        KernelError,
    >)
        ensures
            r == kernel_model::descriptor_spec(self@, process, descriptor),
    {
        match self.find(process) {
            None => Err(KernelError::ProcessNotFound(process)),
            Some(i) => match find_open(&self.processes[i].descriptors, descriptor) {
                None => Err(KernelError::DescriptorNotFound { process, descriptor }),
                Some(d) => Ok(self.processes[i].descriptors[d].1),
            },
        }
    }

    fn require_state(
        &self,
        process: ProcessId,
        expected: ProcessState,
        operation: ProcessOperation,
    ) -> (r: Result<usize, KernelError>)
        ensures
            match kernel_model::state_refusal(self@, process, expected, operation) {
                Some(error) => r == Err::<usize, _>(error),
                None => r matches Ok(i) && kernel_model::find_process(self@.processes, process)
                    == Some(i as int) && i < self.processes@.len(),
            },
    {
        match self.find(process) {
            None => Err(KernelError::ProcessNotFound(process)),
            Some(i) => {
                let state = self.processes[i].state;
                if state == expected {
                    Ok(i)
                } else {
                    Err(KernelError::InvalidTransition { process, state, operation })
                }
            },
        }
    }

    fn validate_spawn(&self, spec: &ProcessSpec) -> (r: Result<(), KernelError>)
        ensures
            match kernel_model::spawn_refusal(self@, spec.cwd@) {
                Some(error) => r == Err::<(), _>(error),
                None => r is Ok,
            },
    {
        if self.processes.len() >= self.limits.max_processes {
            return Err(KernelError::QuotaExceeded(Quota::Processes));
        }
        validate_cwd(spec.cwd.as_str())
    }

    fn insert_process(
        &mut self,
        parent: Option<ProcessId>,
        spec: ProcessSpec,
        descriptors: Vec<(Descriptor, DescriptorResource)>,
    ) -> (r: Result<ProcessId, KernelError>)
        ensures
            (final(self)@, r) == kernel_model::inserted_spec(
                old(self)@,
                parent,
                spec.executable,
                spec.cwd@,
                descriptors@,
            ),
            final(self).pipes == old(self).pipes,
    {
        let raw: u64 = self.next_process_id;
        if raw == 0 {
            return Err(KernelError::IdentifierExhausted);
        }
        self.next_process_id =
        if raw == u64::MAX {
            0
        } else {
            raw + 1
        };
        let id = ProcessId::new(raw);
        self.processes.push(
            ProcessRecord { id, parent, spec, state: ProcessState::Created, descriptors },
        );
        assert(self@.processes =~= kernel_model::inserted_spec(
            old(self)@,
            parent,
            spec.executable,
            spec.cwd@,
            descriptors@,
        ).0.processes);
        Ok(id)
    }

    /// Allocate a process owned directly by the realm supervisor.
    pub fn spawn_root(&mut self, spec: ProcessSpec) -> (r: Result<ProcessId, KernelError>)
        requires
            old(self).wf(),
        ensures
            final(self).wf(),
            (final(self)@, r) == kernel_model::spawn_root_spec(
                old(self)@,
                spec.executable,
                spec.cwd@,
            ),
            r is Err ==> final(self)@ == old(self)@,
    {
        proof {
            kernel_laws::spawn_root_keeps_sound(self@, spec.executable, spec.cwd@);
            kernel_queue::spawn_root_keeps_the_line(self@, spec.executable, spec.cwd@);
        }
        self.validate_spawn(&spec)?;
        self.insert_process(None, spec, Vec::new())
    }

    /// Descriptors that a list of bindings gives a child of process `i`.
    fn bind(&self, i: usize, parent: ProcessId, bindings: &[DescriptorBinding]) -> (r: Result<
        Vec<(Descriptor, DescriptorResource)>,
        KernelError,
    >)
        requires
            i < self.processes@.len(),
        ensures
            match (
                r,
                kernel_model::bound_spec(
                    parent,
                    self@.processes[i as int].descriptors,
                    bindings@,
                    bindings@.len(),
                ),
            ) {
                (Ok(open), Ok(model)) => open@ == model,
                (Err(error), Err(model)) => error == model,
                _ => false,
            },
    {
        let ghost mine = self@.processes[i as int].descriptors;
        let mut open: Vec<(Descriptor, DescriptorResource)> = Vec::new();
        let mut n: usize = 0;
        while n < bindings.len()
            invariant
                i < self.processes@.len(),
                mine == self@.processes[i as int].descriptors,
                n <= bindings@.len(),
                kernel_model::bound_spec(parent, mine, bindings@, n as nat) == Ok::<_, KernelError>(
                    open@,
                ),
            decreases bindings@.len() - n,
        {
            let binding = bindings[n];
            let ghost before = open@;
            if binding.target.get() < 0 {
                let error = KernelError::InvalidDescriptorTarget(binding.target);
                proof {
                    lemma_bound_error(
                        parent,
                        mine,
                        bindings@,
                        (n + 1) as nat,
                        bindings@.len(),
                        error,
                    );
                }
                return Err(error);
            }
            if find_open(&open, binding.target).is_some() {
                let error = KernelError::DuplicateDescriptorTarget(binding.target);
                proof {
                    lemma_bound_error(
                        parent,
                        mine,
                        bindings@,
                        (n + 1) as nat,
                        bindings@.len(),
                        error,
                    );
                }
                return Err(error);
            }
            match find_open(&self.processes[i].descriptors, binding.source) {
                None => {
                    let error = KernelError::DescriptorNotFound {
                        process: parent,
                        descriptor: binding.source,
                    };
                    proof {
                        lemma_bound_error(
                            parent,
                            mine,
                            bindings@,
                            (n + 1) as nat,
                            bindings@.len(),
                            error,
                        );
                    }
                    return Err(error);
                },
                Some(d) => {
                    let resource = self.processes[i].descriptors[d].1;
                    install(&mut open, binding.target, resource);
                },
            }
            n = n + 1;
        }
        Ok(open)
    }

    /// Whether the pipes can count every descriptor of a list once more.
    fn validate_retained_resources(&self, open: &Vec<(Descriptor, DescriptorResource)>) -> (r:
        Result<(), KernelError>)
        ensures
            r is Ok <==> !kernel_model::endpoints_overflow(self@.pipes, open@),
            r matches Err(error) ==> error == KernelError::IdentifierExhausted,
    {
        let mut i: usize = 0;
        while i < self.pipes.len()
            invariant
                i <= self.pipes@.len(),
                forall|j: int|
                    #![trigger self@.pipes[j]]
                    0 <= j < i ==> self@.pipes[j].readers + kernel_model::uses(
                        open@,
                        DescriptorResource::PipeRead(self@.pipes[j].id),
                    ) <= usize::MAX && self@.pipes[j].writers + kernel_model::uses(
                        open@,
                        DescriptorResource::PipeWrite(self@.pipes[j].id),
                    ) <= usize::MAX,
            decreases self.pipes@.len() - i,
        {
            let pipe = &self.pipes[i];
            let readers: usize = count_uses(open, DescriptorResource::PipeRead(pipe.id));
            let writers: usize = count_uses(open, DescriptorResource::PipeWrite(pipe.id));
            if pipe.readers > usize::MAX - readers || pipe.writers > usize::MAX - writers {
                assert(self@.pipes[i as int] == pipe.view());
                return Err(KernelError::IdentifierExhausted);
            }
            i = i + 1;
        }
        Ok(())
    }

    /// Counts every descriptor of a list once more.
    fn retain_resources(&mut self, open: &Vec<(Descriptor, DescriptorResource)>)
        requires
            !kernel_model::endpoints_overflow(old(self)@.pipes, open@),
        ensures
            final(self)@ == (KernelView {
                pipes: kernel_model::retained(old(self)@.pipes, open@),
                ..old(self)@
            }),
    {
        let mut i: usize = 0;
        while i < self.pipes.len()
            invariant
                i <= self.pipes@.len(),
                self.pipes@.len() == old(self).pipes@.len(),
                !kernel_model::endpoints_overflow(old(self)@.pipes, open@),
                self@ == (KernelView { pipes: self@.pipes, ..old(self)@ }),
                forall|j: int|
                    0 <= j < i ==> (#[trigger] self.pipes@[j]).view()
                        == kernel_model::retained_pipe(old(self)@.pipes[j], open@),
                forall|j: int|
                    i <= j < self.pipes@.len() ==> (#[trigger] self.pipes@[j]).view() == old(
                        self,
                    )@.pipes[j],
            decreases self.pipes@.len() - i,
        {
            let id = self.pipes[i].id;
            let readers: usize = count_uses(open, DescriptorResource::PipeRead(id));
            let writers: usize = count_uses(open, DescriptorResource::PipeWrite(id));
            assert(self.pipes@[i as int].view() == old(self)@.pipes[i as int]);
            let ghost pipe = old(self)@.pipes[i as int];
            assert(pipe.readers + readers <= usize::MAX && pipe.writers + writers <= usize::MAX);
            self.pipes[i].readers = self.pipes[i].readers + readers;
            self.pipes[i].writers = self.pipes[i].writers + writers;
            i = i + 1;
        }
        assert(self@.pipes =~= kernel_model::retained(old(self)@.pipes, open@));
    }

    /// Atomically allocate a direct child and inherit exact pipe descriptors.
    pub fn spawn_child(
        &mut self,
        parent: ProcessId,
        spec: ProcessSpec,
        bindings: &[DescriptorBinding],
    ) -> (r: Result<ProcessId, KernelError>)
        requires
            old(self).wf(),
        ensures
            final(self).wf(),
            (final(self)@, r) == kernel_model::spawn_child_spec(
                old(self)@,
                parent,
                spec.executable,
                spec.cwd@,
                bindings@,
            ),
            r is Err ==> final(self)@ == old(self)@,
    {
        proof {
            kernel_laws::spawn_child_keeps_sound(
                self@,
                parent,
                spec.executable,
                spec.cwd@,
                bindings@,
            );
            kernel_queue::spawn_child_keeps_the_line(
                self@,
                parent,
                spec.executable,
                spec.cwd@,
                bindings@,
            );
        }
        let i: usize = self.require_state(
            parent,
            ProcessState::Running,
            ProcessOperation::SpawnChild,
        )?;
        self.validate_spawn(&spec)?;
        let open = self.bind(i, parent, bindings)?;
        if open.len() > self.limits.max_descriptors_per_process {
            return Err(KernelError::QuotaExceeded(Quota::Descriptors));
        }
        self.validate_retained_resources(&open)?;
        let copy = copy_open(&open);
        let child = self.insert_process(Some(parent), spec, copy)?;
        self.retain_resources(&open);
        Ok(child)
    }

    fn set_state(&mut self, i: usize, state: ProcessState)
        requires
            i < old(self).processes@.len(),
        ensures
            final(self)@ == kernel_model::with_state(old(self)@, i as int, state),
    {
        self.processes[i].state = state;
        assert(self@.processes =~= kernel_model::with_state(
            old(self)@,
            i as int,
            state,
        ).processes);
    }

    /// Move a created process onto the FIFO runnable queue.
    pub fn admit_process(&mut self, process: ProcessId) -> (r: Result<(), KernelError>)
        requires
            old(self).wf(),
        ensures
            final(self).wf(),
            (final(self)@, r) == kernel_model::admit_spec(old(self)@, process),
            r is Err ==> final(self)@ == old(self)@,
    {
        proof {
            kernel_laws::admit_keeps_sound(self@, process);
            kernel_queue::admit_keeps_the_line(self@, process);
        }
        let i: usize = self.require_state(process, ProcessState::Created, ProcessOperation::Admit)?;
        self.set_state(i, ProcessState::Runnable);
        self.run_queue.push_back(process);
        Ok(())
    }

    /// Select the next runnable process in deterministic FIFO order.
    pub fn dispatch_next(&mut self) -> (r: Option<ProcessId>)
        requires
            old(self).wf(),
        ensures
            final(self).wf(),
            (final(self)@, r) == kernel_model::dispatch_spec(old(self)@),
    {
        proof {
            kernel_laws::dispatch_keeps_sound(self@);
            kernel_queue::dispatch_keeps_the_line(self@);
        }
        if self.running.is_some() {
            return None;
        }
        let ghost whole = kernel_model::dispatched_spec(self@);
        while self.run_queue.len() > 0
            invariant
                whole == kernel_model::dispatched_spec(self@),
                kernel_model::sound(whole.0) && kernel_queue::lined_up(whole.0),
                whole == kernel_model::dispatch_spec(old(self)@),
            decreases self.run_queue@.len(),
        {
            let ghost before = self@;
            if let Some(process) = self.run_queue.pop_front() {
                assert(before.queue[0] == process);
                assert(self@ =~= (KernelView { queue: before.queue.drop_first(), ..before }));
                if let Some(i) = self.find(process) {
                    if self.processes[i].state == ProcessState::Runnable {
                        self.set_state(i, ProcessState::Running);
                        self.running = Some(process);
                        return Some(process);
                    }
                }
            }
        }
        None
    }

    /// Cooperatively return a running process to the tail of the run queue.
    pub fn yield_now(&mut self, process: ProcessId) -> (r: Result<(), KernelError>)
        requires
            old(self).wf(),
        ensures
            final(self).wf(),
            (final(self)@, r) == kernel_model::yield_spec(old(self)@, process),
            r is Err ==> final(self)@ == old(self)@,
    {
        proof {
            kernel_laws::yield_keeps_sound(self@, process);
            kernel_queue::yield_keeps_the_line(self@, process);
        }
        let i: usize = self.require_state(process, ProcessState::Running, ProcessOperation::Yield)?;
        self.set_state(i, ProcessState::Runnable);
        self.running = None;
        self.run_queue.push_back(process);
        Ok(())
    }

    /// Exit a running process and retain its status until it is reaped.
    pub fn exit(&mut self, process: ProcessId, status: i32) -> (r: Result<(), KernelError>)
        requires
            old(self).wf(),
        ensures
            final(self).wf(),
            (final(self)@, r) == kernel_model::exit_spec(old(self)@, process, status),
            r is Err ==> final(self)@ == old(self)@,
    {
        proof {
            kernel_laws::exit_keeps_sound(self@, process, status);
            kernel_queue::exit_keeps_the_line(self@, process, status);
        }
        let i: usize = self.require_state(process, ProcessState::Running, ProcessOperation::Exit)?;
        self.terminate(i, Termination::Exited(status));
        Ok(())
    }

    /// Terminate any live process with a realm signal.
    pub fn signal(&mut self, process: ProcessId, signal: Signal) -> (r: Result<(), KernelError>)
        requires
            old(self).wf(),
        ensures
            final(self).wf(),
            (final(self)@, r) == kernel_model::signal_spec(old(self)@, process, signal),
            r is Err ==> final(self)@ == old(self)@,
    {
        proof {
            kernel_laws::signal_keeps_sound(self@, process, signal);
            kernel_queue::signal_keeps_the_line(self@, process, signal);
        }
        let i: usize = match self.find(process) {
            Some(i) => i,
            None => {
                return Err(KernelError::ProcessNotFound(process));
            },
        };
        let state = self.processes[i].state;
        if state.is_terminal() {
            return Err(
                KernelError::InvalidTransition {
                    process,
                    state,
                    operation: ProcessOperation::Signal,
                },
            );
        }
        self.terminate(i, Termination::Signaled(signal));
        Ok(())
    }

    /// Wait for a direct child, parking the running parent when necessary.
    pub fn wait_child(&mut self, parent: ProcessId, child: ProcessId) -> (r: Result<
        WaitResult,
        KernelError,
    >)
        requires
            old(self).wf(),
        ensures
            final(self).wf(),
            (final(self)@, r) == kernel_model::wait_spec(old(self)@, parent, child),
            r is Err ==> final(self)@ == old(self)@,
    {
        proof {
            kernel_laws::wait_keeps_sound(self@, parent, child);
            kernel_queue::wait_keeps_the_line(self@, parent, child);
        }
        let i: usize = self.require_state(
            parent,
            ProcessState::Running,
            ProcessOperation::WaitChild,
        )?;
        let c: usize = match self.find(child) {
            Some(c) => c,
            None => {
                return Err(KernelError::ProcessNotFound(child));
            },
        };
        let owned: bool = match self.processes[c].parent {
            Some(owner) => owner == parent,
            None => false,
        };
        if !owned {
            return Err(KernelError::NotChild { parent, child });
        }
        match self.processes[c].state.termination() {
            Some(termination) => {
                self.forget(c);
                Ok(WaitResult::Reaped(termination))
            },
            None => {
                self.set_state(i, ProcessState::Waiting(WaitReason::Child(child)));
                self.running = None;
                Ok(WaitResult::Pending)
            },
        }
    }

    fn forget(&mut self, i: usize)
        requires
            i < old(self).processes@.len(),
        ensures
            final(self)@ == (KernelView {
                processes: old(self)@.processes.remove(i as int),
                ..old(self)@
            }),
    {
        let _ = self.processes.remove(i);
        assert(self@.processes =~= old(self)@.processes.remove(i as int));
    }

    /// Reap a terminated process owned directly by the realm supervisor.
    pub fn reap_root(&mut self, process: ProcessId) -> (r: Result<Termination, KernelError>)
        requires
            old(self).wf(),
        ensures
            final(self).wf(),
            (final(self)@, r) == kernel_model::reap_spec(old(self)@, process),
            r is Err ==> final(self)@ == old(self)@,
    {
        proof {
            kernel_laws::reap_keeps_sound(self@, process);
            kernel_queue::reap_keeps_the_line(self@, process);
        }
        let i: usize = match self.find(process) {
            Some(i) => i,
            None => {
                return Err(KernelError::ProcessNotFound(process));
            },
        };
        if self.processes[i].parent.is_some() {
            return Err(KernelError::ProcessHasParent(process));
        }
        match self.processes[i].state.termination() {
            None => Err(KernelError::ProcessStillLive(process)),
            Some(termination) => {
                self.forget(i);
                Ok(termination)
            },
        }
    }

    /// Create a positive-capacity pipe and install both endpoints in a process.
    pub fn create_pipe(&mut self, owner: ProcessId, capacity: usize) -> (r: Result<
        PipeEnds,
        KernelError,
    >)
        requires
            old(self).wf(),
        ensures
            final(self).wf(),
            (final(self)@, r) == kernel_model::create_pipe_spec(old(self)@, owner, capacity),
            r is Err ==> final(self)@ == old(self)@,
    {
        proof {
            kernel_laws::create_pipe_keeps_sound(self@, owner, capacity);
            kernel_queue::create_pipe_keeps_the_line(self@, owner, capacity);
        }
        let i: usize = self.require_state(
            owner,
            ProcessState::Running,
            ProcessOperation::Descriptor,
        )?;
        if capacity == 0 {
            return Err(KernelError::InvalidPipeCapacity);
        }
        if capacity > self.limits.max_pipe_bytes {
            return Err(KernelError::QuotaExceeded(Quota::PipeBytes));
        }
        if self.pipes.len() >= self.limits.max_pipes {
            return Err(KernelError::QuotaExceeded(Quota::Pipes));
        }
        let reserved: usize = match self.reserved_pipe_bytes.checked_add(capacity) {
            Some(reserved) => reserved,
            None => {
                return Err(KernelError::InvalidPipeCapacity);
            },
        };
        if reserved > self.limits.max_total_pipe_bytes {
            return Err(KernelError::QuotaExceeded(Quota::TotalPipeBytes));
        }
        let limit: usize = self.limits.max_descriptors_per_process;
        if limit < 2 || self.processes[i].descriptors.len() > limit - 2 {
            return Err(KernelError::QuotaExceeded(Quota::Descriptors));
        }
        let (read, write) = available_descriptors(&self.processes[i].descriptors)?;
        let raw: u64 = self.next_pipe_id;
        if raw == 0 {
            return Err(KernelError::IdentifierExhausted);
        }
        self.next_pipe_id =
        if raw == u64::MAX {
            0
        } else {
            raw + 1
        };
        let id = PipeId::new(raw);
        self.pipes.push(Pipe { id, capacity, bytes: VecDeque::new(), readers: 1, writers: 1 });
        self.reserved_pipe_bytes = reserved;
        install(&mut self.processes[i].descriptors, read, DescriptorResource::PipeRead(id));
        install(&mut self.processes[i].descriptors, write, DescriptorResource::PipeWrite(id));
        proof {
            let model = kernel_model::piped(old(self)@, i as int, capacity);
            assert(self@.processes =~= model.processes);
            assert(self@.pipes =~= model.pipes);
        }
        Ok(PipeEnds { read, write })
    }

    /// Close one process descriptor and update pipe endpoint references.
    pub fn close_descriptor(&mut self, process: ProcessId, descriptor: Descriptor) -> (r: Result<
        (),
        KernelError,
    >)
        requires
            old(self).wf(),
        ensures
            final(self).wf(),
            (final(self)@, r) == kernel_model::close_spec(old(self)@, process, descriptor),
            r is Err ==> final(self)@ == old(self)@,
    {
        proof {
            kernel_laws::close_keeps_sound(self@, process, descriptor);
            kernel_queue::close_keeps_the_line(self@, process, descriptor);
        }
        let i: usize = self.require_state(
            process,
            ProcessState::Running,
            ProcessOperation::Descriptor,
        )?;
        let d: usize = match find_open(&self.processes[i].descriptors, descriptor) {
            Some(d) => d,
            None => {
                return Err(KernelError::DescriptorNotFound { process, descriptor });
            },
        };
        let ghost before = self@;
        proof {
            kernel_laws::lemma_detached(before, i as int, d as int);
        }
        let (_, resource) = self.processes[i].descriptors.remove(d);
        proof {
            let open = before.processes[i as int].descriptors;
            let detached = kernel_model::with_process(
                before,
                i as int,
                ProcessView { descriptors: open.remove(d as int), ..before.processes[i as int] },
            );
            assert(self@.processes =~= detached.processes);
            kernel_laws::lemma_owed(self@, seq![open[d as int]]);
            let p = kernel_model::find_pipe(self@.pipes, resource.pipe_id())->Some_0;
            kernel_laws::lemma_capacity_member(self@.pipes, p);
        }
        self.release_resource(resource);
        Ok(())
    }

    /// Perform one non-blocking read from a pipe descriptor.
    pub fn read_pipe(
        &mut self,
        process: ProcessId,
        descriptor: Descriptor,
        max_bytes: usize,
    ) -> (r: Result<PipeReadResult, KernelError>)
        requires
            old(self).wf(),
        ensures
            final(self).wf(),
            final(self)@ == kernel_model::read_spec(
                old(self)@,
                process,
                descriptor,
                max_bytes,
            ).0,
            match (r, kernel_model::read_spec(old(self)@, process, descriptor, max_bytes).1) {
                (Ok(result), Ok(model)) => kernel_model::read_view(result) == model,
                (Err(error), Err(model)) => error == model && final(self)@ == old(self)@,
                _ => false,
            },
    {
        proof {
            kernel_laws::read_keeps_sound(self@, process, descriptor, max_bytes);
            kernel_queue::read_keeps_the_line(self@, process, descriptor, max_bytes);
        }
        let i: usize = self.require_state(
            process,
            ProcessState::Running,
            ProcessOperation::Descriptor,
        )?;
        let id = self.pipe_for_read(process, descriptor)?;
        proof {
            lemma_end_is_live(self@, process, descriptor);
        }
        let p: usize = match self.find_pipe(id) {
            Some(p) => p,
            None => {
                return Err(KernelError::PipeNotFound(id));
            },
        };
        if max_bytes == 0 {
            return Ok(PipeReadResult::Data(Vec::new()));
        }
        if self.pipes[p].bytes.len() == 0 {
            if self.pipes[p].writers == 0 {
                return Ok(PipeReadResult::Eof);
            }
            return Ok(PipeReadResult::WouldBlock);
        }
        let count: usize = if max_bytes < self.pipes[p].bytes.len() {
            max_bytes
        } else {
            self.pipes[p].bytes.len()
        };
        let data = self.drain(p, count);
        self.wake_waiters(WaitReason::PipeWritable(id));
        Ok(PipeReadResult::Data(data))
    }

    /// Removes the oldest `count` bytes of a pipe.
    fn drain(&mut self, p: usize, count: usize) -> (r: Vec<u8>)
        requires
            p < old(self).pipes@.len(),
            count <= old(self)@.pipes[p as int].bytes.len(),
        ensures
            r@ == old(self)@.pipes[p as int].bytes.subrange(0, count as int),
            final(self)@ == kernel_model::with_bytes(
                old(self)@,
                p as int,
                old(self)@.pipes[p as int].bytes.subrange(
                    count as int,
                    old(self)@.pipes[p as int].bytes.len() as int,
                ),
            ),
    {
        let ghost all = self@.pipes[p as int].bytes;
        let mut out: Vec<u8> = Vec::new();
        let mut n: usize = 0;
        assert(all.subrange(0, all.len() as int) =~= all);
        while n < count
            invariant
                n <= count <= all.len(),
                p < self.pipes@.len(),
                out@ == all.subrange(0, n as int),
                self@ == (KernelView { pipes: self@.pipes, ..old(self)@ }),
                self.pipes@[p as int].view() == (PipeView {
                    bytes: all.subrange(n as int, all.len() as int),
                    ..old(self)@.pipes[p as int]
                }),
                forall|j: int|
                    0 <= j < self.pipes@.len() && j != p ==> (#[trigger] self.pipes@[j]).view()
                        == old(self)@.pipes[j],
                old(self).pipes@.len() == self.pipes@.len(),
            decreases count - n,
        {
            if let Some(byte) = self.pipes[p].bytes.pop_front() {
                out.push(byte);
            }
            n = n + 1;
            assert(out@ =~= all.subrange(0, n as int));
            assert(self.pipes@[p as int].bytes@ =~= all.subrange(n as int, all.len() as int));
        }
        assert(self@.pipes =~= kernel_model::with_bytes(
            old(self)@,
            p as int,
            all.subrange(n as int, all.len() as int),
        ).pipes);
        out
    }

    /// Perform one non-blocking, possibly partial write to a pipe descriptor.
    pub fn write_pipe(&mut self, process: ProcessId, descriptor: Descriptor, bytes: &[u8]) -> (r:
        Result<PipeWriteResult, KernelError>)
        requires
            old(self).wf(),
        ensures
            final(self).wf(),
            (final(self)@, r) == kernel_model::write_spec(
                old(self)@,
                process,
                descriptor,
                bytes@,
            ),
            r is Err ==> final(self)@ == old(self)@,
    {
        proof {
            kernel_laws::write_keeps_sound(self@, process, descriptor, bytes@);
            kernel_queue::write_keeps_the_line(self@, process, descriptor, bytes@);
        }
        let i: usize = self.require_state(
            process,
            ProcessState::Running,
            ProcessOperation::Descriptor,
        )?;
        let id = self.pipe_for_write(process, descriptor)?;
        proof {
            lemma_end_is_live(self@, process, descriptor);
        }
        let p: usize = match self.find_pipe(id) {
            Some(p) => p,
            None => {
                return Err(KernelError::PipeNotFound(id));
            },
        };
        if bytes.len() == 0 {
            return Ok(PipeWriteResult::Written(0));
        }
        if self.pipes[p].readers == 0 {
            return Ok(PipeWriteResult::BrokenPipe);
        }
        if self.pipes[p].bytes.len() >= self.pipes[p].capacity {
            return Ok(PipeWriteResult::WouldBlock);
        }
        let available: usize = self.pipes[p].capacity - self.pipes[p].bytes.len();
        let count: usize = if available < bytes.len() {
            available
        } else {
            bytes.len()
        };
        self.append(p, bytes, count);
        self.wake_waiters(WaitReason::PipeReadable(id));
        Ok(PipeWriteResult::Written(count))
    }

    /// Adds the first `count` bytes of a slice to a pipe.
    fn append(&mut self, p: usize, bytes: &[u8], count: usize)
        requires
            p < old(self).pipes@.len(),
            count <= bytes@.len(),
        ensures
            final(self)@ == kernel_model::with_bytes(
                old(self)@,
                p as int,
                old(self)@.pipes[p as int].bytes + bytes@.subrange(0, count as int),
            ),
    {
        let ghost all = self@.pipes[p as int].bytes;
        let mut n: usize = 0;
        assert(all + bytes@.subrange(0, 0) =~= all);
        while n < count
            invariant
                n <= count <= bytes@.len(),
                p < self.pipes@.len(),
                self@ == (KernelView { pipes: self@.pipes, ..old(self)@ }),
                self.pipes@[p as int].view() == (PipeView {
                    bytes: all + bytes@.subrange(0, n as int),
                    ..old(self)@.pipes[p as int]
                }),
                forall|j: int|
                    0 <= j < self.pipes@.len() && j != p ==> (#[trigger] self.pipes@[j]).view()
                        == old(self)@.pipes[j],
                old(self).pipes@.len() == self.pipes@.len(),
            decreases count - n,
        {
            self.pipes[p].bytes.push_back(bytes[n]);
            n = n + 1;
            assert(self.pipes@[p as int].bytes@ =~= all + bytes@.subrange(0, n as int));
        }
        assert(self@.pipes =~= kernel_model::with_bytes(
            old(self)@,
            p as int,
            all + bytes@.subrange(0, n as int),
        ).pipes);
    }

    /// Park a running process until its pipe read can return data or EOF.
    pub fn park_pipe_read(&mut self, process: ProcessId, descriptor: Descriptor) -> (r: Result<
        ParkResult,
        KernelError,
    >)
        requires
            old(self).wf(),
        ensures
            final(self).wf(),
            (final(self)@, r) == kernel_model::park_read_spec(old(self)@, process, descriptor),
            r is Err ==> final(self)@ == old(self)@,
    {
        proof {
            kernel_laws::park_keeps_sound(self@, process, descriptor);
            kernel_queue::park_keeps_the_line(self@, process, descriptor);
        }
        let i: usize = self.require_state(process, ProcessState::Running, ProcessOperation::Park)?;
        let id = self.pipe_for_read(process, descriptor)?;
        proof {
            lemma_end_is_live(self@, process, descriptor);
        }
        let p: usize = match self.find_pipe(id) {
            Some(p) => p,
            None => {
                return Err(KernelError::PipeNotFound(id));
            },
        };
        if self.pipes[p].bytes.len() > 0 || self.pipes[p].writers == 0 {
            return Ok(ParkResult::Ready);
        }
        self.set_state(i, ProcessState::Waiting(WaitReason::PipeReadable(id)));
        self.running = None;
        Ok(ParkResult::Parked)
    }

    /// Park a running process until its pipe write can use capacity or fail broken.
    pub fn park_pipe_write(&mut self, process: ProcessId, descriptor: Descriptor) -> (r: Result<
        ParkResult,
        KernelError,
    >)
        requires
            old(self).wf(),
        ensures
            final(self).wf(),
            (final(self)@, r) == kernel_model::park_write_spec(old(self)@, process, descriptor),
            r is Err ==> final(self)@ == old(self)@,
    {
        proof {
            kernel_laws::park_keeps_sound(self@, process, descriptor);
            kernel_queue::park_keeps_the_line(self@, process, descriptor);
        }
        let i: usize = self.require_state(process, ProcessState::Running, ProcessOperation::Park)?;
        let id = self.pipe_for_write(process, descriptor)?;
        proof {
            lemma_end_is_live(self@, process, descriptor);
        }
        let p: usize = match self.find_pipe(id) {
            Some(p) => p,
            None => {
                return Err(KernelError::PipeNotFound(id));
            },
        };
        if self.pipes[p].readers == 0 || self.pipes[p].bytes.len() < self.pipes[p].capacity {
            return Ok(ParkResult::Ready);
        }
        self.set_state(i, ProcessState::Waiting(WaitReason::PipeWritable(id)));
        self.running = None;
        Ok(ParkResult::Parked)
    }

    fn pipe_for_read(&self, process: ProcessId, descriptor: Descriptor) -> (r: Result<
        PipeId,
        KernelError,
    >)
        ensures
            r == kernel_model::read_end(self@, process, descriptor),
    {
        match self.descriptor(process, descriptor)? {
            DescriptorResource::PipeRead(pipe) => Ok(pipe),
            DescriptorResource::PipeWrite(_) => Err(
                KernelError::WrongDescriptorKind { process, descriptor },
            ),
        }
    }

    fn pipe_for_write(&self, process: ProcessId, descriptor: Descriptor) -> (r: Result<
        PipeId,
        KernelError,
    >)
        ensures
            r == kernel_model::write_end(self@, process, descriptor),
    {
        match self.descriptor(process, descriptor)? {
            DescriptorResource::PipeWrite(pipe) => Ok(pipe),
            DescriptorResource::PipeRead(_) => Err(
                KernelError::WrongDescriptorKind { process, descriptor },
            ),
        }
    }

    fn wake_waiters(&mut self, reason: WaitReason)
        ensures
            final(self)@ == kernel_model::wake_spec(old(self)@, reason),
            final(self).processes@.len() == old(self).processes@.len(),
    {
        let ghost all = self@.processes;
        let mut i: usize = 0;
        assert(all.subrange(0, 0) =~= Seq::<ProcessView>::empty());
        assert(self.run_queue@ =~= old(self).run_queue@ + kernel_model::parked(
            all.subrange(0, 0),
            reason,
        ));
        while i < self.processes.len()
            invariant
                i <= self.processes@.len(),
                self.processes@.len() == old(self).processes@.len(),
                all == old(self)@.processes,
                self@ == (KernelView {
                    processes: self@.processes,
                    queue: self@.queue,
                    ..old(self)@
                }),
                forall|j: int|
                    0 <= j < i ==> (#[trigger] self.processes@[j]).view() == kernel_model::woken(
                        all[j],
                        reason,
                    ),
                forall|j: int|
                    i <= j < self.processes@.len() ==> (#[trigger] self.processes@[j]).view()
                        == all[j],
                self.run_queue@ == old(self).run_queue@ + kernel_model::parked(
                    all.subrange(0, i as int),
                    reason,
                ),
            decreases self.processes@.len() - i,
        {
            proof {
                let prefix = all.subrange(0, i + 1);
                assert(prefix.drop_last() =~= all.subrange(0, i as int));
                assert(prefix.last() == all[i as int]);
                assert(self.processes@[i as int].view() == all[i as int]);
            }
            let ghost queued = self.run_queue@;
            if self.processes[i].state == ProcessState::Waiting(reason) {
                let id = self.processes[i].id;
                self.processes[i].state = ProcessState::Runnable;
                self.run_queue.push_back(id);
                assert(self.run_queue@ =~= old(self).run_queue@ + kernel_model::parked(
                    all.subrange(0, i + 1),
                    reason,
                ));
            }
            i = i + 1;
        }
        proof {
            assert(all.subrange(0, i as int) =~= all);
            assert(self@.processes =~= kernel_model::wake_spec(old(self)@, reason).processes);
        }
    }

    fn release_resource(&mut self, resource: DescriptorResource)
        requires
            kernel_model::find_pipe(old(self)@.pipes, resource.pipe_id()) matches Some(p) && {
                &&& resource is PipeRead ==> old(self)@.pipes[p].readers > 0
                &&& resource is PipeWrite ==> old(self)@.pipes[p].writers > 0
                &&& old(self)@.pipes[p].capacity <= old(self)@.reserved
            },
        ensures
            final(self)@ == kernel_model::release_spec(old(self)@, resource),
            final(self).processes@.len() == old(self).processes@.len(),
    {
        let id = resource.pipe();
        if let Some(p) = self.find_pipe(id) {
            let reader: bool = match resource {
                DescriptorResource::PipeRead(_) => true,
                DescriptorResource::PipeWrite(_) => false,
            };
            if reader {
                self.pipes[p].readers = self.pipes[p].readers - 1;
            } else {
                self.pipes[p].writers = self.pipes[p].writers - 1;
            }
            let readers: usize = self.pipes[p].readers;
            let writers: usize = self.pipes[p].writers;
            if readers == 0 && writers == 0 {
                self.reserved_pipe_bytes = self.reserved_pipe_bytes - self.pipes[p].capacity;
                let _ = self.pipes.remove(p);
            }
            assert(self@.pipes =~= kernel_model::uncounted(old(self)@, resource).pipes);
            if reader && readers == 0 {
                self.wake_waiters(WaitReason::PipeWritable(id));
            } else if !reader && writers == 0 {
                self.wake_waiters(WaitReason::PipeReadable(id));
            }
        }
    }

    fn terminate(&mut self, i: usize, termination: Termination)
        requires
            old(self).wf(),
            i < old(self).processes@.len(),
        ensures
            final(self)@ == kernel_model::terminated(old(self)@, i as int, termination),
    {
        let ghost before = self@;
        let process = self.processes[i].id;
        let mut open: Vec<(Descriptor, DescriptorResource)> = Vec::new();
        std::mem::swap(&mut open, &mut self.processes[i].descriptors);
        let ghost stripped = kernel_model::with_process(
            before,
            i as int,
            ProcessView { descriptors: Seq::empty(), ..before.processes[i as int] },
        );
        proof {
            assert(self@.processes =~= stripped.processes);
            kernel_laws::lemma_stripped(before, i as int, Seq::empty(), open@);
        }
        let mut n: usize = 0;
        while n < open.len()
            invariant
                n <= open@.len(),
                i < self.processes@.len(),
                self@ == kernel_model::release_all_spec(stripped, open@, n as nat),
                kernel_model::ordered(stripped),
                kernel_model::bounded(stripped),
                kernel_model::scheduled(stripped),
                kernel_model::balanced(stripped, open@),
            decreases open@.len() - n,
        {
            let resource = open[n].1;
            proof {
                kernel_laws::lemma_release_all(stripped, open@, n as nat);
                let owed = open@.subrange(n as int, open@.len() as int);
                assert(owed[0] == open@[n as int]);
                kernel_laws::lemma_owed(self@, owed);
                let p = kernel_model::find_pipe(self@.pipes, resource.pipe_id())->Some_0;
                kernel_laws::lemma_capacity_member(self@.pipes, p);
            }
            self.release_resource(resource);
            n = n + 1;
        }
        self.disown(process);
        self.set_state(
            i,
            match termination {
                Termination::Exited(status) => ProcessState::Exited(status),
                Termination::Signaled(signal) => ProcessState::Signaled(signal),
            },
        );
        if let Some(running) = self.running {
            if running == process {
                self.running = None;
            }
        }
        self.wake_waiters(WaitReason::Child(process));
    }

    /// Hands the children of a process to the supervisor.
    fn disown(&mut self, parent: ProcessId)
        ensures
            final(self)@ == (KernelView {
                processes: kernel_model::orphaned(old(self)@.processes, parent),
                ..old(self)@
            }),
            final(self).processes@.len() == old(self).processes@.len(),
    {
        let ghost all = self@.processes;
        let mut i: usize = 0;
        while i < self.processes.len()
            invariant
                i <= self.processes@.len(),
                self.processes@.len() == old(self).processes@.len(),
                all == old(self)@.processes,
                self@ == (KernelView { processes: self@.processes, ..old(self)@ }),
                forall|j: int|
                    0 <= j < i ==> (#[trigger] self.processes@[j]).view() == kernel_model::orphaned(
                        all,
                        parent,
                    )[j],
                forall|j: int|
                    i <= j < self.processes@.len() ==> (#[trigger] self.processes@[j]).view()
                        == all[j],
            decreases self.processes@.len() - i,
        {
            assert(self.processes@[i as int].view() == all[i as int]);
            if let Some(owner) = self.processes[i].parent {
                if owner == parent {
                    self.processes[i].parent = None;
                }
            }
            i = i + 1;
        }
        assert(self@.processes =~= kernel_model::orphaned(all, parent));
    }
}

/// The pipe behind a descriptor of a sound kernel is live.
proof fn lemma_end_is_live(k: KernelView, process: ProcessId, descriptor: Descriptor)
    requires
        kernel_model::sound(k),
        kernel_model::descriptor_spec(k, process, descriptor) is Ok,
    ensures
        kernel_model::find_pipe(
            k.pipes,
            kernel_model::descriptor_spec(k, process, descriptor)->Ok_0.pipe_id(),
        ) is Some,
{
    kernel_laws::lemma_find_process(k.processes, process);
    let i = kernel_model::find_process(k.processes, process)->Some_0;
    kernel_laws::lemma_find_open(k.processes[i].descriptors, descriptor);
    let d = kernel_model::find_open(k.processes[i].descriptors, descriptor)->Some_0;
    kernel_laws::lemma_open_pipe(k, i, d);
}

/// Once a binding is refused, so is every list that goes on beyond it.
proof fn lemma_bound_error(
    parent: ProcessId,
    open: Seq<Open>,
    bindings: Seq<DescriptorBinding>,
    first: nat,
    count: nat,
    error: KernelError,
)
    requires
        first <= count,
        kernel_model::bound_spec(parent, open, bindings, first) == Err::<Seq<Open>, _>(error),
    ensures
        kernel_model::bound_spec(parent, open, bindings, count) == Err::<Seq<Open>, _>(error),
    decreases count,
{
    if first < count {
        lemma_bound_error(parent, open, bindings, first, (count - 1) as nat, error);
    }
}

fn find_open(open: &Vec<(Descriptor, DescriptorResource)>, descriptor: Descriptor) -> (r: Option<
    usize,
>)
    ensures
        match (r, kernel_model::find_open(open@, descriptor)) {
            (Some(i), Some(found)) => i == found && i < open@.len(),
            (None, None) => true,
            _ => false,
        },
{
    let mut i: usize = open.len();
    assert(open@.subrange(0, open@.len() as int) =~= open@);
    while i > 0
        invariant
            i <= open@.len(),
            kernel_model::find_open(open@, descriptor) == kernel_model::find_open(
                open@.subrange(0, i as int),
                descriptor,
            ),
        decreases i,
    {
        proof {
            let prefix = open@.subrange(0, i as int);
            assert(prefix.drop_last() =~= open@.subrange(0, i - 1));
            assert(prefix.last() == open@[i - 1]);
        }
        if open[i - 1].0 == descriptor {
            return Some(i - 1);
        }
        i = i - 1;
    }
    None
}

fn count_uses(
    open: &Vec<(Descriptor, DescriptorResource)>,
    resource: DescriptorResource,
) -> (r: usize)
    ensures
        r == kernel_model::uses(open@, resource),
{
    let mut count: usize = 0;
    let mut i: usize = 0;
    while i < open.len()
        invariant
            i <= open@.len(),
            count <= i,
            count == kernel_model::uses(open@.subrange(0, i as int), resource),
        decreases open@.len() - i,
    {
        proof {
            let prefix = open@.subrange(0, i + 1);
            assert(prefix.drop_last() =~= open@.subrange(0, i as int));
            assert(prefix.last() == open@[i as int]);
        }
        if open[i].1 == resource {
            count = count + 1;
        }
        i = i + 1;
    }
    assert(open@.subrange(0, i as int) =~= open@);
    count
}

/// Puts a descriptor at its place in an ordered list.
fn install(
    open: &mut Vec<(Descriptor, DescriptorResource)>,
    descriptor: Descriptor,
    resource: DescriptorResource,
)
    ensures
        final(open)@ == kernel_model::installed(old(open)@, descriptor, resource),
{
    let mut i: usize = open.len();
    assert(open@.subrange(0, open@.len() as int) =~= open@);
    while i > 0 && open[i - 1].0.0 >= descriptor.0
        invariant
            i <= open@.len(),
            *open == *old(open),
            kernel_model::place_of(open@, descriptor) == kernel_model::place_of(
                open@.subrange(0, i as int),
                descriptor,
            ),
        decreases i,
    {
        proof {
            let prefix = open@.subrange(0, i as int);
            assert(prefix.drop_last() =~= open@.subrange(0, i - 1));
            assert(prefix.last() == open@[i - 1]);
        }
        i = i - 1;
    }
    assert(kernel_model::place_of(open@, descriptor) == i);
    open.insert(i, (descriptor, resource));
}

fn copy_open(open: &Vec<(Descriptor, DescriptorResource)>) -> (r: Vec<
    (Descriptor, DescriptorResource),
>)
    ensures
        r@ == open@,
{
    let mut out: Vec<(Descriptor, DescriptorResource)> = Vec::new();
    let mut i: usize = 0;
    while i < open.len()
        invariant
            i <= open@.len(),
            out@ == open@.subrange(0, i as int),
        decreases open@.len() - i,
    {
        out.push(open[i]);
        i = i + 1;
        assert(out@ =~= open@.subrange(0, i as int));
    }
    assert(open@.subrange(0, i as int) =~= open@);
    out
}

/// The smallest free descriptor at or above a number.
fn next_available(open: &Vec<(Descriptor, DescriptorResource)>, from: i32) -> (r: Result<
    i32,
    KernelError,
>)
    ensures
        match kernel_model::first_free(open@, from as int) {
            Some(free) => r == Ok::<i32, KernelError>(free as i32) && from <= free < i32::MAX,
            None => r == Err::<i32, KernelError>(KernelError::IdentifierExhausted),
        },
{
    let mut raw: i32 = from;
    while raw < i32::MAX
        invariant
            from <= raw,
            kernel_model::first_free(open@, from as int) == kernel_model::first_free(
                open@,
                raw as int,
            ),
        decreases i32::MAX - raw,
    {
        if find_open(open, Descriptor::new(raw)).is_none() {
            return Ok(raw);
        }
        raw = raw + 1;
    }
    Err(KernelError::IdentifierExhausted)
}

/// The two lowest free file descriptors.
fn available_descriptors(open: &Vec<(Descriptor, DescriptorResource)>) -> (r: Result<
    (Descriptor, Descriptor),
    KernelError,
>)
    ensures
        match kernel_model::free_pair(open@) {
            Some(pair) => r == Ok::<_, KernelError>(
                (Descriptor(pair.0 as i32), Descriptor(pair.1 as i32)),
            ),
            None => r == Err::<(Descriptor, Descriptor), _>(KernelError::IdentifierExhausted),
        },
{
    let read: i32 = next_available(open, FIRST_FILE_FD)?;
    let write: i32 = next_available(open, read + 1)?;
    Ok((Descriptor::new(read), Descriptor::new(write)))
}

} // verus!
