//! Identities, states and failures of realm processes.

use vstd::prelude::*;

verus! {

/// Longest guest path, in bytes.
pub const MAX_PATH_BYTES: usize = 4096;

/// First descriptor handed out for a pipe.
pub const FIRST_FILE_FD: i32 = 3;

/// Identity of a process, never reused.
#[derive(Clone, Copy, Debug, PartialEq, Eq, PartialOrd, Ord, Hash, Structural)]
pub struct ProcessId(pub u64);

impl ProcessId {
    pub fn new(raw: u64) -> (r: Self)
        ensures
            r.0 == raw,
    {
        ProcessId(raw)
    }

    pub fn get(self) -> (r: u64)
        ensures
            r == self.0,
    {
        self.0
    }
}

/// Identity of a pipe, never reused.
#[derive(Clone, Copy, Debug, PartialEq, Eq, PartialOrd, Ord, Hash, Structural)]
pub struct PipeId(pub u64);

impl PipeId {
    pub fn new(raw: u64) -> (r: Self)
        ensures
            r.0 == raw,
    {
        PipeId(raw)
    }

    pub fn get(self) -> (r: u64)
        ensures
            r == self.0,
    {
        self.0
    }
}

/// Process-local descriptor number.
#[derive(Clone, Copy, Debug, PartialEq, Eq, PartialOrd, Ord, Hash, Structural)]
pub struct Descriptor(pub i32);

impl Descriptor {
    /// Standard input.
    pub fn stdin() -> (r: Self)
        ensures
            r.0 == 0,
    {
        Descriptor(0)
    }

    /// Standard output.
    pub fn stdout() -> (r: Self)
        ensures
            r.0 == 1,
    {
        Descriptor(1)
    }

    pub fn new(raw: i32) -> (r: Self)
        ensures
            r.0 == raw,
    {
        Descriptor(raw)
    }

    pub fn get(self) -> (r: i32)
        ensures
            r == self.0,
    {
        self.0
    }
}

/// Content identity of a process image admitted by the realm.
#[derive(Clone, Copy, Debug, PartialEq, Eq, PartialOrd, Ord, Hash)]
pub struct ExecutableId(pub [u8; 32]);

impl ExecutableId {
    /// Reserved identity for the realm supervisor rather than a guest image.
    pub fn realm_supervisor() -> (r: Self)
        ensures
            forall|i: int| 0 <= i < 32 ==> r.0@[i] == 0,
    {
        ExecutableId([0;32])
    }

    /// Construct an executable identity from its digest bytes.
    pub fn new(bytes: [u8; 32]) -> (r: Self)
        ensures
            r.0 == bytes,
    {
        ExecutableId(bytes)
    }

    /// Return the digest bytes.
    pub fn as_bytes(&self) -> (r: &[u8; 32])
        ensures
            *r == self.0,
    {
        &self.0
    }
}

/// Signals whose terminal meaning is already defined by the seed process model.
#[derive(Clone, Copy, Debug, PartialEq, Eq, Structural)]
pub enum Signal {
    /// Interactive interruption request.
    Interrupt,
    /// Orderly termination request.
    Terminate,
    /// Uncatchable termination request.
    Kill,
    /// Write attempted after the final reader closed.
    Pipe,
}

/// Observable terminal status retained until a process is reaped.
#[derive(Clone, Copy, Debug, PartialEq, Eq, Structural)]
pub enum Termination {
    /// The process exited with an integer status.
    Exited(i32),
    /// The process was terminated by a realm signal.
    Signaled(Signal),
}

/// Resource on which a process is parked.
#[derive(Clone, Copy, Debug, PartialEq, Eq, Structural)]
pub enum WaitReason {
    /// Waiting for one direct child to terminate.
    Child(ProcessId),
    /// Waiting for bytes or EOF on a pipe.
    PipeReadable(PipeId),
    /// Waiting for capacity or a broken-pipe result on a pipe.
    PipeWritable(PipeId),
}

/// Process state visible to the deterministic scheduler.
#[derive(Clone, Copy, Debug, PartialEq, Eq, Structural)]
pub enum ProcessState {
    /// Allocated but not admitted to the run queue.
    Created,
    /// Admitted and queued for execution.
    Runnable,
    /// Currently allowed to execute guest instructions or syscalls.
    Running,
    /// Parked until a named resource changes state.
    Waiting(WaitReason),
    /// Exited and retained for its parent or the realm supervisor to reap.
    Exited(i32),
    /// Signal-terminated and retained for reaping.
    Signaled(Signal),
}

impl ProcessState {
    pub open spec fn ended(self) -> Option<Termination> {
        match self {
            ProcessState::Exited(status) => Some(Termination::Exited(status)),
            ProcessState::Signaled(signal) => Some(Termination::Signaled(signal)),
            _ => None,
        }
    }

    pub open spec fn of_termination(termination: Termination) -> ProcessState {
        match termination {
            Termination::Exited(status) => ProcessState::Exited(status),
            Termination::Signaled(signal) => ProcessState::Signaled(signal),
        }
    }

    /// Whether the process has reached a waitable terminal state.
    pub fn is_terminal(self) -> (r: bool)
        ensures
            r == self.ended() is Some,
    {
        match self {
            ProcessState::Exited(_) | ProcessState::Signaled(_) => true,
            _ => false,
        }
    }

    pub fn termination(self) -> (r: Option<Termination>)
        ensures
            r == self.ended(),
    {
        match self {
            ProcessState::Exited(status) => Some(Termination::Exited(status)),
            ProcessState::Signaled(signal) => Some(Termination::Signaled(signal)),
            _ => None,
        }
    }
}

/// Immutable inputs retained for one process image.
#[derive(Clone, Debug, PartialEq, Eq)]
pub struct ProcessSpec {
    pub executable: ExecutableId,
    pub cwd: String,
}

impl ProcessSpec {
    /// Describe a process image and its normalized guest working directory.
    pub fn new(executable: ExecutableId, cwd: &str) -> (r: Self)
        ensures
            r.executable == executable,
            r.cwd@ == cwd@,
    {
        ProcessSpec { executable, cwd: cwd.to_owned() }
    }

    /// Return the process image identity.
    pub fn executable(&self) -> (r: ExecutableId)
        ensures
            r == self.executable,
    {
        self.executable
    }

    /// Return the guest working directory.
    pub fn cwd(&self) -> (r: &str)
        ensures
            r@ == self.cwd@,
    {
        self.cwd.as_str()
    }
}

/// One inherited descriptor mapping applied atomically during child creation.
#[derive(Clone, Copy, Debug, PartialEq, Eq, Structural)]
pub struct DescriptorBinding {
    /// Descriptor in the parent process.
    pub source: Descriptor,
    /// Descriptor number installed in the child.
    pub target: Descriptor,
}

/// The two process-local descriptors created for a pipe.
#[derive(Clone, Copy, Debug, PartialEq, Eq, Structural)]
pub struct PipeEnds {
    /// Read endpoint.
    pub read: Descriptor,
    /// Write endpoint.
    pub write: Descriptor,
}

/// Process-local resource selected by a descriptor.
#[derive(Clone, Copy, Debug, PartialEq, Eq, Structural)]
pub enum DescriptorResource {
    /// Read endpoint of a realm pipe.
    PipeRead(PipeId),
    /// Write endpoint of a realm pipe.
    PipeWrite(PipeId),
}

impl DescriptorResource {
    pub open spec fn pipe_id(self) -> PipeId {
        match self {
            DescriptorResource::PipeRead(pipe) => pipe,
            DescriptorResource::PipeWrite(pipe) => pipe,
        }
    }

    pub fn pipe(self) -> (r: PipeId)
        ensures
            r == self.pipe_id(),
    {
        match self {
            DescriptorResource::PipeRead(pipe) => pipe,
            DescriptorResource::PipeWrite(pipe) => pipe,
        }
    }
}

/// Immutable view of a process record.
#[derive(Clone, Debug, PartialEq, Eq)]
pub struct ProcessSnapshot {
    /// Process identity.
    pub id: ProcessId,
    /// Direct parent, or `None` when owned by the realm supervisor.
    pub parent: Option<ProcessId>,
    /// Process image identity.
    pub executable: ExecutableId,
    /// Normalized guest working directory.
    pub cwd: String,
    /// Current lifecycle state.
    pub state: ProcessState,
    /// Number of installed pipe descriptors.
    pub descriptors: usize,
}

/// Observable pipe accounting.
#[derive(Clone, Copy, Debug, PartialEq, Eq, Structural)]
pub struct PipeSnapshot {
    /// Fixed byte capacity.
    pub capacity: usize,
    /// Bytes currently buffered.
    pub buffered: usize,
    /// Open read endpoints across all processes.
    pub readers: usize,
    /// Open write endpoints across all processes.
    pub writers: usize,
}

/// Admission limits owned by one realm kernel.
#[derive(Clone, Copy, Debug, PartialEq, Eq, Structural)]
pub struct RealmLimits {
    /// Process records, including created processes and zombies.
    pub max_processes: usize,
    /// Live pipe objects.
    pub max_pipes: usize,
    /// Maximum capacity of one pipe.
    pub max_pipe_bytes: usize,
    /// Sum of capacities reserved by all live pipes.
    pub max_total_pipe_bytes: usize,
    /// Pipe descriptors installed in one process.
    pub max_descriptors_per_process: usize,
}

impl Default for RealmLimits {
    fn default() -> (r: Self)
        ensures
            r == (RealmLimits {
                max_processes: 64,
                max_pipes: 64,
                max_pipe_bytes: 0x1_0000,
                max_total_pipe_bytes: 0x10_0000,
                max_descriptors_per_process: 64,
            }),
    {
        RealmLimits {
            max_processes: 64,
            max_pipes: 64,
            max_pipe_bytes: 0x1_0000,
            max_total_pipe_bytes: 0x10_0000,
            max_descriptors_per_process: 64,
        }
    }
}

/// Quota whose admission check failed.
#[derive(Clone, Copy, Debug, PartialEq, Eq, Structural)]
pub enum Quota {
    /// Process-table records.
    Processes,
    /// Live pipe objects.
    Pipes,
    /// One pipe's byte capacity.
    PipeBytes,
    /// Aggregate reserved pipe capacity.
    TotalPipeBytes,
    /// Descriptors installed in one process.
    Descriptors,
}

/// Lifecycle operation rejected for the process's current state.
#[derive(Clone, Copy, Debug, PartialEq, Eq, Structural)]
pub enum ProcessOperation {
    /// Admit a created process.
    Admit,
    /// Yield a running process.
    Yield,
    /// Exit normally.
    Exit,
    /// Terminate with a signal.
    Signal,
    /// Spawn a child.
    SpawnChild,
    /// Wait for a child.
    WaitChild,
    /// Create or operate on a descriptor.
    Descriptor,
    /// Park for pipe readiness.
    Park,
    /// Reap a supervisor-owned process.
    Reap,
}

/// Stable failures from the realm kernel model.
#[derive(Clone, Copy, Debug, PartialEq, Eq, Structural)]
pub enum KernelError {
    /// No process has this identity.
    ProcessNotFound(ProcessId),
    /// No pipe has this identity.
    PipeNotFound(PipeId),
    /// A descriptor is absent from this process.
    DescriptorNotFound {
        /// Process containing the descriptor table.
        process: ProcessId,
        /// Requested descriptor.
        descriptor: Descriptor,
    },
    /// The descriptor exists but is not the required endpoint type.
    WrongDescriptorKind {
        /// Process containing the descriptor table.
        process: ProcessId,
        /// Requested descriptor.
        descriptor: Descriptor,
    },
    /// The target is not a direct child of the waiting process.
    NotChild {
        /// Waiting parent.
        parent: ProcessId,
        /// Requested child.
        child: ProcessId,
    },
    /// The operation is invalid for the current process state.
    InvalidTransition {
        /// Process being changed.
        process: ProcessId,
        /// Current state.
        state: ProcessState,
        /// Requested operation.
        operation: ProcessOperation,
    },
    /// A process working directory was not a normalized absolute guest path.
    InvalidCwd,
    /// A pipe capacity was zero or overflowed accounting.
    InvalidPipeCapacity,
    /// A child descriptor target was negative.
    InvalidDescriptorTarget(Descriptor),
    /// Two inheritance bindings selected the same child descriptor.
    DuplicateDescriptorTarget(Descriptor),
    /// A configured realm quota was exceeded.
    QuotaExceeded(Quota),
    /// A monotonic identifier reached the end of its representation.
    IdentifierExhausted,
    /// A live process cannot be reaped.
    ProcessStillLive(ProcessId),
    /// Only a supervisor-owned process can be reaped without a parent wait.
    ProcessHasParent(ProcessId),
}

/// Result of waiting for one direct child.
#[derive(Clone, Copy, Debug, PartialEq, Eq, Structural)]
pub enum WaitResult {
    /// The child is live and the parent was parked.
    Pending,
    /// The terminal child was removed from the process table.
    Reaped(Termination),
}

/// Result of one non-blocking pipe read.
#[derive(Clone, Debug, PartialEq, Eq)]
pub enum PipeReadResult {
    /// Bytes removed from the pipe.
    Data(Vec<u8>),
    /// The pipe is empty but still has a writer.
    WouldBlock,
    /// The pipe is empty and its last writer is closed.
    Eof,
}

/// Result of one non-blocking pipe write.
#[derive(Clone, Copy, Debug, PartialEq, Eq, Structural)]
pub enum PipeWriteResult {
    /// Bytes appended; a partial count is valid.
    Written(usize),
    /// No capacity is currently available.
    WouldBlock,
    /// The pipe has no remaining reader.
    BrokenPipe,
}

/// Result of asking the scheduler to park for a pipe condition.
#[derive(Clone, Copy, Debug, PartialEq, Eq, Structural)]
pub enum ParkResult {
    /// The operation can be retried immediately; the process remains running.
    Ready,
    /// The process entered `Waiting` and will be woken by a pipe transition.
    Parked,
}

} // verus!
