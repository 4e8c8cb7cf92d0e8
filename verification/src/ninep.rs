//! Types of the bounded 9P2000.L service for one admitted realm export.
//!
//! The service owns protocol parsing and per-mount FID state. It does not own
//! authority: the supplied [`FileSystem`] is already scoped to one principal,
//! realm, and export root.

use vstd::prelude::*;

verus! {

/// Largest negotiated 9P message accepted by the transport.
pub const MAX_MESSAGE_BYTES: usize = 65536;

/// Smallest negotiated message size accepted by the Linux 9P client.
pub const MIN_MESSAGE_BYTES: usize = 4096;

/// Maximum live FIDs for one mounted export.
pub const MAX_FIDS: usize = 1024;

pub const HEADER_BYTES: usize = 7;

pub const NOTAG: u16 = 0xffff;

pub const NOFID: u32 = 0xffff_ffff;

pub const MAX_WALK_ELEMENTS: usize = 16;

pub const MAX_NAME_BYTES: usize = 255;

pub const MAX_DIRECTORY_ENTRIES: usize = 4096;

pub const MAX_QID_PATHS: usize = 16384;

pub const TSTATFS: u8 = 8;

pub const TLOPEN: u8 = 12;

pub const TLCREATE: u8 = 14;

pub const TGETATTR: u8 = 24;

pub const TSETATTR: u8 = 26;

pub const TREADDIR: u8 = 40;

pub const TFSYNC: u8 = 50;

pub const TMKDIR: u8 = 72;

pub const TRENAMEAT: u8 = 74;

pub const TUNLINKAT: u8 = 76;

pub const TVERSION: u8 = 100;

pub const TATTACH: u8 = 104;

pub const TFLUSH: u8 = 108;

pub const TWALK: u8 = 110;

pub const TREAD: u8 = 116;

pub const TWRITE: u8 = 118;

pub const TCLUNK: u8 = 120;

pub const TREMOVE: u8 = 122;

pub const RLERROR: u8 = 7;

pub const QID_DIRECTORY: u8 = 0x80;

pub const DT_DIRECTORY: u8 = 4;

pub const DT_REGULAR: u8 = 8;

pub const MODE_DIRECTORY: u32 = 0o040_000;

pub const MODE_REGULAR: u32 = 0o100_000;

pub const OPEN_ACCESS_MASK: u32 = 3;

pub const OPEN_WRITE_ONLY: u32 = 1;

pub const OPEN_READ_WRITE: u32 = 2;

pub const OPEN_EXCLUSIVE: u32 = 0o200;

pub const OPEN_TRUNCATE: u32 = 0o1000;

pub const AT_REMOVE_DIR: u32 = 0x200;

pub const ATTR_SIZE: u32 = 8;

pub const STATS_BASIC: u64 = 0x7ff;

/// Magic number of the 9P filesystem in `statfs(2)`.
pub const STATFS_TYPE: u32 = 0x0102_1997;

/// Stable protocol error classes converted directly to Linux errno values.
#[derive(Clone, Copy, Debug, PartialEq, Eq, Structural)]
pub enum Errno {
    /// Operation is not permitted by the export.
    Permission,
    /// Path or FID target does not exist.
    NotFound,
    /// Backend I/O failure.
    Io,
    /// FID is absent or not usable for the operation.
    BadFileDescriptor,
    /// A create target or FID already exists.
    AlreadyExists,
    /// A path component expected to be a directory is not one.
    NotDirectory,
    /// A path expected to be a regular file is a directory.
    IsDirectory,
    /// Malformed or unsupported argument.
    InvalidArgument,
    /// Export quota is exhausted.
    NoSpace,
    /// The FID table of the mount is full.
    TooManyOpenFiles,
    /// The export is read-only.
    ReadOnly,
    /// A path component exceeds the name limit.
    NameTooLong,
    /// Requested protocol operation is not implemented.
    NotSupported,
    /// A directory expected to be empty still contains entries.
    NotEmpty,
    /// Request or response exceeds the negotiated message size.
    MessageTooLarge,
    /// The requested protocol dialect is unavailable.
    ProtocolNotSupported,
    /// A retained reference no longer names the current attachment epoch.
    Stale,
}

impl Errno {
    /// The Linux error number.
    pub open spec fn number(self) -> u32 {
        match self {
            Errno::Permission => 1,
            Errno::NotFound => 2,
            Errno::Io => 5,
            Errno::BadFileDescriptor => 9,
            Errno::AlreadyExists => 17,
            Errno::NotDirectory => 20,
            Errno::IsDirectory => 21,
            Errno::InvalidArgument => 22,
            Errno::TooManyOpenFiles => 24,
            Errno::NoSpace => 28,
            Errno::ReadOnly => 30,
            Errno::NameTooLong => 36,
            Errno::NotEmpty => 39,
            Errno::MessageTooLarge => 90,
            Errno::ProtocolNotSupported => 93,
            Errno::NotSupported => 95,
            Errno::Stale => 116,
        }
    }

    /// The Linux error number of this class.
    pub fn code(self) -> (r: u32)
        ensures
            r == self.number(),
    {
        match self {
            Errno::Permission => 1,
            Errno::NotFound => 2,
            Errno::Io => 5,
            Errno::BadFileDescriptor => 9,
            Errno::AlreadyExists => 17,
            Errno::NotDirectory => 20,
            Errno::IsDirectory => 21,
            Errno::InvalidArgument => 22,
            Errno::TooManyOpenFiles => 24,
            Errno::NoSpace => 28,
            Errno::ReadOnly => 30,
            Errno::NameTooLong => 36,
            Errno::NotEmpty => 39,
            Errno::MessageTooLarge => 90,
            Errno::ProtocolNotSupported => 93,
            Errno::NotSupported => 95,
            Errno::Stale => 116,
        }
    }
}

/// Distinct classes have distinct numbers.
pub proof fn errno_numbers_are_distinct(a: Errno, b: Errno)
    ensures
        a.number() == b.number() <==> a == b,
{
}

/// Guest-visible filesystem node category.
#[derive(Clone, Copy, Debug, PartialEq, Eq, Structural)]
pub enum NodeKind {
    /// Regular byte-addressable file.
    File,
    /// Directory containing named children.
    Directory,
}

/// Metadata required to serve Linux 9P2000.L inode operations.
#[derive(Clone, Copy, Debug, PartialEq, Eq, Structural)]
pub struct Metadata {
    /// Node category.
    pub kind: NodeKind,
    /// File byte length; zero for directories.
    pub len: u64,
    /// Permission bits. File-type bits are supplied by the protocol server.
    pub mode: u32,
    /// Seconds since the Unix epoch, or zero when the backing store has no time.
    pub modified_seconds: u64,
    /// Backend data generation used as the QID version.
    pub generation: u64,
}

/// One materialized child returned by [`FileSystem::read_dir`].
#[derive(Clone, Debug, PartialEq, Eq)]
pub struct DirectoryEntry {
    /// Single UTF-8 path component, never an absolute or nested path.
    pub name: String,
    /// Metadata captured with this directory enumeration.
    pub metadata: Metadata,
}

impl DirectoryEntry {
    pub open spec fn view(&self) -> EntryView {
        EntryView { name: self.name@, metadata: self.metadata }
    }
}

#[verifier::ext_equal]
pub struct EntryView {
    pub name: Seq<char>,
    pub metadata: Metadata,
}

pub open spec fn entry_views(entries: Seq<DirectoryEntry>) -> Seq<EntryView> {
    Seq::new(entries.len(), |i: int| entries[i].view())
}

/// Capacity information returned to Linux `statfs(2)`.
#[derive(Clone, Copy, Debug, PartialEq, Eq, Structural)]
pub struct FileSystemStats {
    /// Fundamental block size.
    pub block_size: u32,
    /// Total addressable blocks.
    pub blocks: u64,
    /// Unallocated blocks.
    pub blocks_free: u64,
    /// Blocks available to the mounted principal.
    pub blocks_available: u64,
    /// Total addressable file nodes.
    pub files: u64,
    /// Unallocated file nodes.
    pub files_free: u64,
}

impl FileSystemStats {
    /// The report of an export that does not measure its capacity.
    pub open spec fn unmeasured() -> FileSystemStats {
        FileSystemStats {
            block_size: 4096,
            blocks: 0,
            blocks_free: 0,
            blocks_available: 0,
            files: 0,
            files_free: 0,
        }
    }
}

impl Default for FileSystemStats {
    fn default() -> (r: Self)
        ensures
            r == FileSystemStats::unmeasured(),
    {
        FileSystemStats {
            block_size: 4096,
            blocks: 0,
            blocks_free: 0,
            blocks_available: 0,
            files: 0,
            files_free: 0,
        }
    }
}

/// One call into the backing filesystem.
pub enum Operation {
    Metadata(Seq<char>),
    ReadDir(Seq<char>),
    Read(Seq<char>, u64, u32),
    Write(Seq<char>, u64, Seq<u8>),
    CreateFile(Seq<char>, u32, bool, bool),
    CreateDir(Seq<char>, u32),
    SetLen(Seq<char>, u64),
    RemoveFile(Seq<char>),
    RemoveDir(Seq<char>),
    Rename(Seq<char>, Seq<char>),
    Sync(Seq<char>, bool),
    StatFs,
}

/// What the backing filesystem returned.
pub enum Answer {
    Metadata(Result<Metadata, Errno>),
    Entries(Result<Seq<EntryView>, Errno>),
    Bytes(Result<Seq<u8>, Errno>),
    Count(Result<u32, Errno>),
    Done(Result<(), Errno>),
    Stats(Result<FileSystemStats, Errno>),
}

/// The answer that a directory enumeration stands for.
pub open spec fn entries_answer(r: Result<Vec<DirectoryEntry>, Errno>) -> Answer {
    Answer::Entries(
        match r {
            Ok(entries) => Ok(entry_views(entries@)),
            Err(error) => Err(error),
        },
    )
}

/// The answer that a positional read stands for.
pub open spec fn bytes_answer(r: Result<Vec<u8>, Errno>) -> Answer {
    Answer::Bytes(
        match r {
            Ok(bytes) => Ok(bytes@),
            Err(error) => Err(error),
        },
    )
}

/// Filesystem operations after the outer capsule has selected an export root.
///
/// Every path is relative, normalized, and contains no `.` or `..` component.
/// Implementations must retain their own beneath-root or capability check at
/// every operation; a path string is not authority.
pub trait FileSystem: Sized {
    /// Whether an operation may take the filesystem from one state to another
    /// with this answer. An implementation that promises nothing keeps the
    /// default.
    open spec fn answers(before: &Self, operation: Operation, answer: Answer, after: &Self) -> bool {
        true
    }

    /// Inspect one node. The empty path denotes the export root.
    fn metadata(&mut self, path: &str) -> (r: Result<Metadata, Errno>)
        ensures
            Self::answers(
                old(self),
                Operation::Metadata(path@),
                Answer::Metadata(r),
                final(self),
            ),
    ;

    /// Enumerate one directory in stable name order.
    fn read_dir(&mut self, path: &str) -> (r: Result<Vec<DirectoryEntry>, Errno>)
        ensures
            Self::answers(
                old(self),
                Operation::ReadDir(path@),
                entries_answer(r),
                final(self),
            ),
    ;

    /// Positional file read.
    fn read(&mut self, path: &str, offset: u64, count: u32) -> (r: Result<Vec<u8>, Errno>)
        ensures
            Self::answers(
                old(self),
                Operation::Read(path@, offset, count),
                bytes_answer(r),
                final(self),
            ),
    ;

    /// Positional file write.
    fn write(&mut self, path: &str, offset: u64, data: &[u8]) -> (r: Result<u32, Errno>)
        ensures
            Self::answers(
                old(self),
                Operation::Write(path@, offset, data@),
                Answer::Count(r),
                final(self),
            ),
    ;

    /// Create a regular file, applying exclusive and truncate semantics.
    fn create_file(&mut self, path: &str, mode: u32, exclusive: bool, truncate: bool) -> (r: Result<
        (),
        Errno,
    >)
        ensures
            Self::answers(
                old(self),
                Operation::CreateFile(path@, mode, exclusive, truncate),
                Answer::Done(r),
                final(self),
            ),
    ;

    /// Create one directory beneath an existing parent.
    fn create_dir(&mut self, path: &str, mode: u32) -> (r: Result<(), Errno>)
        ensures
            Self::answers(
                old(self),
                Operation::CreateDir(path@, mode),
                Answer::Done(r),
                final(self),
            ),
    ;

    /// Truncate or extend a regular file.
    fn set_len(&mut self, path: &str, len: u64) -> (r: Result<(), Errno>)
        ensures
            Self::answers(
                old(self),
                Operation::SetLen(path@, len),
                Answer::Done(r),
                final(self),
            ),
    ;

    /// Remove one non-directory node.
    fn remove_file(&mut self, path: &str) -> (r: Result<(), Errno>)
        ensures
            Self::answers(
                old(self),
                Operation::RemoveFile(path@),
                Answer::Done(r),
                final(self),
            ),
    ;

    /// Remove one empty directory.
    fn remove_dir(&mut self, path: &str) -> (r: Result<(), Errno>)
        ensures
            Self::answers(
                old(self),
                Operation::RemoveDir(path@),
                Answer::Done(r),
                final(self),
            ),
    ;

    /// Rename within this one export.
    fn rename(&mut self, source: &str, destination: &str) -> (r: Result<(), Errno>)
        ensures
            Self::answers(
                old(self),
                Operation::Rename(source@, destination@),
                Answer::Done(r),
                final(self),
            ),
    ;

    /// Flush file data and metadata selected by a FID.
    fn sync(&mut self, path: &str, data_only: bool) -> (r: Result<(), Errno>)
        ensures
            Self::answers(
                old(self),
                Operation::Sync(path@, data_only),
                Answer::Done(r),
                final(self),
            ),
    ;

    /// Report export capacity without revealing a physical host filesystem. An
    /// implementation that does not measure it keeps the default report.
    fn statfs(&mut self) -> (r: Result<FileSystemStats, Errno>)
        ensures
            Self::answers(old(self), Operation::StatFs, Answer::Stats(r), final(self)) || (r == Ok::<
                FileSystemStats,
                Errno,
            >(FileSystemStats::unmeasured()) && *final(self) == *old(self)),
    {
        Ok(FileSystemStats::default())
    }
}

/// Stable identity of a node as the client sees it.
#[derive(Clone, Copy, Debug, PartialEq, Eq, Structural)]
pub struct Qid {
    pub kind: NodeKind,
    pub version: u32,
    pub path: u64,
}

} // verus!
