//! What the 9P service does, as functions of its state, of the request and of
//! the answers that the filesystem gives on the way.

use crate::bytes;
use crate::kernel_model;
use crate::ninep::{
    Answer, EntryView, Errno, Metadata, NodeKind, Operation, Qid, ATTR_SIZE, AT_REMOVE_DIR,
    DT_DIRECTORY, DT_REGULAR, HEADER_BYTES, MAX_DIRECTORY_ENTRIES, MAX_FIDS, MAX_MESSAGE_BYTES,
    MAX_NAME_BYTES, MAX_QID_PATHS, MAX_WALK_ELEMENTS, MIN_MESSAGE_BYTES, MODE_DIRECTORY,
    MODE_REGULAR, NOFID, NOTAG, OPEN_ACCESS_MASK, OPEN_EXCLUSIVE, OPEN_READ_WRITE, OPEN_TRUNCATE,
    OPEN_WRITE_ONLY, RLERROR, STATFS_TYPE, STATS_BASIC, TATTACH, TCLUNK, TFLUSH, TFSYNC, TGETATTR,
    TLCREATE, TLOPEN, TMKDIR, TREAD, TREADDIR, TREMOVE, TRENAMEAT, TSETATTR, TSTATFS, TUNLINKAT,
    TVERSION, TWALK, TWRITE,
};
use crate::ninep_wire;
use crate::text;
use vstd::prelude::*;

verus! {

#[verifier::ext_equal]
pub struct FidView {
    pub path: Seq<char>,
    pub open_flags: Option<u32>,
    pub stale: bool,
}

#[verifier::ext_equal]
pub struct SessionView {
    pub export_name: Seq<char>,
    pub message_size: usize,
    pub fids: Seq<(u32, FidView)>,
    pub qids: Seq<(Seq<char>, u64)>,
    pub next_qid: u64,
}

/// What serving one request comes to: the calls made on the filesystem, the
/// state behind, and the reply.
#[verifier::ext_equal]
pub struct Turn {
    pub asked: Seq<Operation>,
    pub after: SessionView,
    pub reply: Result<Seq<u8>, Errno>,
}

pub open spec fn turn(
    asked: Seq<Operation>,
    after: SessionView,
    reply: Result<Seq<u8>, Errno>,
) -> Turn {
    Turn { asked, after, reply }
}

/// A request turned down before it reached the filesystem.
pub open spec fn refused(s: SessionView, error: Errno) -> Turn {
    Turn { asked: Seq::empty(), after: s, reply: Err(error) }
}

// The tables.

pub open spec fn find_fid(fids: Seq<(u32, FidView)>, fid: u32) -> Option<int>
    decreases fids.len(),
{
    if fids.len() == 0 {
        None
    } else if fids.last().0 == fid {
        Some(fids.len() - 1)
    } else {
        find_fid(fids.drop_last(), fid)
    }
}

pub open spec fn find_qid(qids: Seq<(Seq<char>, u64)>, path: Seq<char>) -> Option<int>
    decreases qids.len(),
{
    if qids.len() == 0 {
        None
    } else if qids.last().0 == path {
        Some(qids.len() - 1)
    } else {
        find_qid(qids.drop_last(), path)
    }
}

/// The live record of a FID.
pub open spec fn fid_spec(s: SessionView, fid: u32) -> Result<FidView, Errno> {
    match find_fid(s.fids, fid) {
        None => Err(Errno::BadFileDescriptor),
        Some(i) => if s.fids[i].1.stale {
            Err(Errno::Stale)
        } else {
            Ok(s.fids[i].1)
        },
    }
}

/// State in which a FID that is there has another record.
pub open spec fn replaced_fid(s: SessionView, fid: u32, record: FidView) -> SessionView {
    SessionView {
        fids: s.fids.update(find_fid(s.fids, fid)->Some_0, (fid, record)),
        ..s
    }
}

/// A new FID.
pub open spec fn inserted_fid(s: SessionView, fid: u32, record: FidView) -> Result<
    SessionView,
    Errno,
> {
    if find_fid(s.fids, fid) is Some {
        Err(Errno::AlreadyExists)
    } else if s.fids.len() == MAX_FIDS {
        Err(Errno::TooManyOpenFiles)
    } else {
        Ok(SessionView { fids: s.fids.push((fid, record)), ..s })
    }
}

pub open spec fn qid_of(metadata: Metadata, identity: u64) -> Qid {
    Qid {
        kind: metadata.kind,
        version: if metadata.generation > u32::MAX {
            u32::MAX
        } else {
            metadata.generation as u32
        },
        path: identity,
    }
}

/// The identity of a path; a path seen for the first time gets the next one.
pub open spec fn qid_spec(s: SessionView, path: Seq<char>, metadata: Metadata) -> (
    SessionView,
    Result<Qid, Errno>,
) {
    match find_qid(s.qids, path) {
        Some(i) => (s, Ok(qid_of(metadata, s.qids[i].1))),
        None => if s.qids.len() == MAX_QID_PATHS || s.next_qid == u64::MAX {
            (s, Err(Errno::NoSpace))
        } else {
            (
                SessionView {
                    qids: s.qids.push((path, s.next_qid)),
                    next_qid: (s.next_qid + 1) as u64,
                    ..s
                },
                Ok(qid_of(metadata, s.next_qid)),
            )
        },
    }
}

/// Whether `candidate` is `path` or lies beneath it.
pub open spec fn beneath(path: Seq<char>, candidate: Seq<char>) -> bool {
    candidate == path || path.push('/').is_prefix_of(candidate)
}

pub open spec fn kept_qids(qids: Seq<(Seq<char>, u64)>, path: Seq<char>) -> Seq<(Seq<char>, u64)>
    decreases qids.len(),
{
    if qids.len() == 0 {
        Seq::empty()
    } else {
        let before = kept_qids(qids.drop_last(), path);
        if beneath(path, qids.last().0) {
            before
        } else {
            before.push(qids.last())
        }
    }
}

pub open spec fn staled(record: FidView, path: Seq<char>) -> FidView {
    FidView { stale: record.stale || beneath(path, record.path), ..record }
}

/// The nodes at and beneath a path are gone.
pub open spec fn forgotten(s: SessionView, path: Seq<char>) -> SessionView {
    SessionView {
        qids: kept_qids(s.qids, path),
        fids: Seq::new(s.fids.len(), |i: int| (s.fids[i].0, staled(s.fids[i].1, path))),
        ..s
    }
}

/// Where a path is after its node, or one above it, went from `source` to
/// `destination`.
pub open spec fn moved(path: Seq<char>, source: Seq<char>, destination: Seq<char>) -> Seq<char> {
    if beneath(source, path) {
        destination + path.skip(source.len() as int)
    } else {
        path
    }
}

pub open spec fn renamed(s: SessionView, source: Seq<char>, destination: Seq<char>) -> SessionView {
    SessionView {
        qids: Seq::new(
            s.qids.len(),
            |i: int| (moved(s.qids[i].0, source, destination), s.qids[i].1),
        ),
        fids: Seq::new(
            s.fids.len(),
            |i: int|
                (
                    s.fids[i].0,
                    FidView {
                        path: moved(s.fids[i].1.path, source, destination),
                        ..s.fids[i].1
                    },
                ),
        ),
        ..s
    }
}

// Names and paths.

/// Why a name is no path component.
pub open spec fn name_refusal(name: Seq<char>) -> Option<Errno> {
    if name.len() == 0 || name == seq!['.'] || name == seq!['.', '.'] || exists|i: int|
        0 <= i < name.len() && (#[trigger] name[i] == '/' || text::is_control(name[i])) {
        Some(Errno::InvalidArgument)
    } else if vstd::utf8::encode_utf8(name).len() > MAX_NAME_BYTES {
        Some(Errno::NameTooLong)
    } else {
        None
    }
}

pub open spec fn child(parent: Seq<char>, name: Seq<char>) -> Seq<char> {
    if parent.len() == 0 {
        name
    } else {
        parent.push('/') + name
    }
}

pub open spec fn child_spec(parent: Seq<char>, name: Seq<char>) -> Result<Seq<char>, Errno> {
    match name_refusal(name) {
        Some(error) => Err(error),
        None => Ok(child(parent, name)),
    }
}

/// The directory that holds a path; the root holds itself.
pub open spec fn ancestor(path: Seq<char>) -> Seq<char>
    decreases path.len(),
{
    if path.len() == 0 {
        path
    } else if path.last() == '/' {
        path.drop_last()
    } else {
        ancestor(path.drop_last())
    }
}

pub open spec fn walk_path_spec(parent: Seq<char>, name: Seq<char>) -> Result<Seq<char>, Errno> {
    if name == seq!['.'] {
        Ok(parent)
    } else if name == seq!['.', '.'] {
        Ok(ancestor(parent))
    } else {
        child_spec(parent, name)
    }
}

/// Byte strings in dictionary order.
pub open spec fn comes_before(a: Seq<u8>, b: Seq<u8>) -> bool
    decreases a.len(),
{
    if b.len() == 0 {
        false
    } else if a.len() == 0 {
        true
    } else if a[0] != b[0] {
        a[0] < b[0]
    } else {
        comes_before(a.drop_first(), b.drop_first())
    }
}

pub open spec fn entry_before(a: EntryView, b: EntryView) -> bool {
    comes_before(vstd::utf8::encode_utf8(a.name), vstd::utf8::encode_utf8(b.name))
}

/// Number of entries at the front that do not come behind `entry`.
pub open spec fn slot(sorted: Seq<EntryView>, entry: EntryView) -> nat
    decreases sorted.len(),
{
    if sorted.len() == 0 {
        0
    } else if entry_before(entry, sorted.last()) {
        slot(sorted.drop_last(), entry)
    } else {
        sorted.len()
    }
}

/// Entries in name order; equal names keep their order.
pub open spec fn sorted(entries: Seq<EntryView>) -> Seq<EntryView>
    decreases entries.len(),
{
    if entries.len() == 0 {
        entries
    } else {
        let front = sorted(entries.drop_last());
        front.insert(slot(front, entries.last()) as int, entries.last())
    }
}

/// The first refused name of a listing.
pub open spec fn listing_refusal(entries: Seq<EntryView>) -> Option<Errno>
    decreases entries.len(),
{
    if entries.len() == 0 {
        None
    } else {
        match listing_refusal(entries.drop_last()) {
            Some(error) => Some(error),
            None => name_refusal(entries.last().name),
        }
    }
}

// The requests.

pub open spec fn version_spec(s: SessionView, body: Seq<u8>) -> Turn {
    match ninep_wire::u32_at(body, 0) {
        Err(error) => refused(s, error),
        Ok((size, at)) => match ninep_wire::text_at(body, at) {
            Err(error) => refused(s, error),
            Ok((version, at)) => if at != body.len() {
                refused(s, Errno::InvalidArgument)
            } else if version != "9P2000.L"@ {
                refused(s, Errno::ProtocolNotSupported)
            } else if size < MIN_MESSAGE_BYTES {
                refused(s, Errno::InvalidArgument)
            } else {
                let message_size = if size < MAX_MESSAGE_BYTES {
                    size as usize
                } else {
                    MAX_MESSAGE_BYTES
                };
                turn(
                    Seq::empty(),
                    SessionView {
                        message_size,
                        fids: Seq::empty(),
                        qids: seq![(Seq::empty(), 1)],
                        next_qid: 2,
                        ..s
                    },
                    Ok(
                        bytes::le_bytes(message_size as nat, 4) + ninep_wire::text_bytes(
                            "9P2000.L"@,
                        ),
                    ),
                )
            },
        },
    }
}

pub open spec fn fresh_record(path: Seq<char>) -> FidView {
    FidView { path, open_flags: None, stale: false }
}

/// FID, authentication FID and export name of an attach request.
pub open spec fn attach_fields(body: Seq<u8>) -> Result<(u32, u32, Seq<char>), Errno> {
    match ninep_wire::u32_at(body, 0) {
        Err(error) => Err(error),
        Ok((fid, at)) => match ninep_wire::u32_at(body, at) {
            Err(error) => Err(error),
            Ok((afid, at)) => match ninep_wire::text_at(body, at) {
                Err(error) => Err(error),
                Ok((_, at)) => match ninep_wire::text_at(body, at) {
                    Err(error) => Err(error),
                    Ok((aname, at)) => match ninep_wire::u32_at(body, at) {
                        Err(error) => Err(error),
                        Ok((_, at)) => if at != body.len() {
                            Err(Errno::InvalidArgument)
                        } else {
                            Ok((fid, afid, aname))
                        },
                    },
                },
            },
        },
    }
}

pub open spec fn attach_spec(s: SessionView, body: Seq<u8>, answers: Seq<Answer>) -> Turn {
    match attach_fields(body) {
        Err(error) => refused(s, error),
        Ok((fid, afid, aname)) => if afid != NOFID || aname != s.export_name {
            refused(s, Errno::Permission)
        } else {
            let root = Seq::<char>::empty();
            let asked = seq![Operation::Metadata(root)];
            match answers[0]->Metadata_0 {
                Err(error) => turn(asked, s, Err(error)),
                Ok(metadata) => if metadata.kind != NodeKind::Directory {
                    turn(asked, s, Err(Errno::NotDirectory))
                } else {
                    let (known, qid) = qid_spec(s, root, metadata);
                    match qid {
                        Err(error) => turn(asked, known, Err(error)),
                        Ok(qid) => match inserted_fid(known, fid, fresh_record(root)) {
                            Err(error) => turn(asked, known, Err(error)),
                            Ok(after) => turn(asked, after, Ok(ninep_wire::qid_bytes(qid))),
                        },
                    }
                },
            }
        },
    }
}

pub open spec fn flush_spec(s: SessionView, body: Seq<u8>) -> Turn {
    match ninep_wire::u16_at(body, 0) {
        Err(error) => refused(s, error),
        Ok((_, at)) => if at != body.len() {
            refused(s, Errno::InvalidArgument)
        } else {
            turn(Seq::empty(), s, Ok(Seq::empty()))
        },
    }
}

/// The first `count` names of a walk request.
pub open spec fn names_at(body: Seq<u8>, at: int, count: nat) -> Result<(Seq<Seq<char>>, int), Errno>
    decreases count,
{
    if count == 0 {
        Ok((Seq::empty(), at))
    } else {
        match names_at(body, at, (count - 1) as nat) {
            Err(error) => Err(error),
            Ok((names, at)) => match ninep_wire::text_at(body, at) {
                Err(error) => Err(error),
                Ok((name, at)) => Ok((names.push(name), at)),
            },
        }
    }
}

/// FID, new FID and names of a walk request.
pub open spec fn walk_fields(body: Seq<u8>) -> Result<(u32, u32, Seq<Seq<char>>), Errno> {
    match ninep_wire::u32_at(body, 0) {
        Err(error) => Err(error),
        Ok((fid, at)) => match ninep_wire::u32_at(body, at) {
            Err(error) => Err(error),
            Ok((new_fid, at)) => match ninep_wire::u16_at(body, at) {
                Err(error) => Err(error),
                Ok((count, at)) => if count > MAX_WALK_ELEMENTS {
                    Err(Errno::InvalidArgument)
                } else {
                    match names_at(body, at, count as nat) {
                        Err(error) => Err(error),
                        Ok((names, at)) => if at != body.len() {
                            Err(Errno::InvalidArgument)
                        } else {
                            Ok((fid, new_fid, names))
                        },
                    }
                },
            },
        },
    }
}

/// Whether a walk goes on, stopped at a missing node, or failed.
pub enum Course {
    Going,
    Stopped,
    Failed(Errno),
}

#[verifier::ext_equal]
pub struct Walked {
    pub asked: Seq<Operation>,
    pub after: SessionView,
    pub path: Seq<char>,
    pub qids: Seq<Qid>,
    pub course: Course,
}

/// A walk of the first `count` names from `path`.
pub open spec fn walked(
    s: SessionView,
    path: Seq<char>,
    names: Seq<Seq<char>>,
    count: nat,
    answers: Seq<Answer>,
) -> Walked
    decreases count,
{
    if count == 0 {
        Walked {
            asked: Seq::empty(),
            after: s,
            path,
            qids: Seq::empty(),
            course: Course::Going,
        }
    } else {
        let w = walked(s, path, names, (count - 1) as nat, answers);
        if !(w.course is Going) {
            w
        } else {
            match walk_path_spec(w.path, names[count - 1]) {
                Err(error) => Walked { course: Course::Failed(error), ..w },
                Ok(candidate) => {
                    let asked = w.asked.push(Operation::Metadata(candidate));
                    match answers[w.asked.len() as int]->Metadata_0 {
                        Err(error) => Walked {
                            asked,
                            course: if w.qids.len() == 0 {
                                Course::Failed(error)
                            } else {
                                Course::Stopped
                            },
                            ..w
                        },
                        Ok(metadata) => {
                            let (after, qid) = qid_spec(w.after, candidate, metadata);
                            match qid {
                                Err(error) => Walked {
                                    asked,
                                    after,
                                    course: Course::Failed(error),
                                    ..w
                                },
                                Ok(qid) => Walked {
                                    asked,
                                    after,
                                    path: candidate,
                                    qids: w.qids.push(qid),
                                    course: Course::Going,
                                },
                            }
                        },
                    }
                },
            }
        }
    }
}

pub open spec fn qids_bytes(qids: Seq<Qid>) -> Seq<u8>
    decreases qids.len(),
{
    if qids.len() == 0 {
        Seq::empty()
    } else {
        qids_bytes(qids.drop_last()) + ninep_wire::qid_bytes(qids.last())
    }
}

/// Binding the node that a walk reached.
pub open spec fn walk_bound(
    s: SessionView,
    fid: u32,
    new_fid: u32,
    path: Seq<char>,
) -> Result<SessionView, Errno> {
    if new_fid == fid {
        Ok(replaced_fid(s, fid, fresh_record(path)))
    } else {
        inserted_fid(s, new_fid, fresh_record(path))
    }
}

pub open spec fn walk_spec(s: SessionView, body: Seq<u8>, answers: Seq<Answer>) -> Turn {
    match walk_fields(body) {
        Err(error) => refused(s, error),
        Ok((fid, new_fid, names)) => if new_fid != fid && find_fid(s.fids, new_fid) is Some {
            refused(s, Errno::AlreadyExists)
        } else {
            match fid_spec(s, fid) {
                Err(error) => refused(s, error),
                Ok(record) => {
                    let w = walked(s, record.path, names, names.len(), answers);
                    match w.course {
                        Course::Failed(error) => turn(w.asked, w.after, Err(error)),
                        _ => match walk_bound(w.after, fid, new_fid, w.path) {
                            Err(error) => turn(w.asked, w.after, Err(error)),
                            Ok(after) => turn(
                                w.asked,
                                after,
                                Ok(bytes::le_bytes(w.qids.len(), 2) + qids_bytes(w.qids)),
                            ),
                        },
                    }
                },
            }
        },
    }
}

/// Two 32-bit fields and nothing behind them.
pub open spec fn two_words(body: Seq<u8>) -> Result<(u32, u32), Errno> {
    match ninep_wire::u32_at(body, 0) {
        Err(error) => Err(error),
        Ok((first, at)) => match ninep_wire::u32_at(body, at) {
            Err(error) => Err(error),
            Ok((second, at)) => if at != body.len() {
                Err(Errno::InvalidArgument)
            } else {
                Ok((first, second))
            },
        },
    }
}

/// The end of a successful open: the FID holds its flags, and the client gets
/// the node's identity.
pub open spec fn opened(
    s: SessionView,
    asked: Seq<Operation>,
    fid: u32,
    record: FidView,
    flags: u32,
    metadata: Metadata,
) -> Turn {
    let held = replaced_fid(s, fid, FidView { open_flags: Some(flags), ..record });
    let (after, qid) = qid_spec(held, record.path, metadata);
    match qid {
        Err(error) => turn(asked, after, Err(error)),
        Ok(qid) => turn(asked, after, Ok(ninep_wire::qid_bytes(qid) + bytes::le_bytes(0, 4))),
    }
}

pub open spec fn open_spec(s: SessionView, body: Seq<u8>, answers: Seq<Answer>) -> Turn {
    match two_words(body) {
        Err(error) => refused(s, error),
        Ok((fid, flags)) => match fid_spec(s, fid) {
            Err(error) => refused(s, error),
            Ok(record) => if record.open_flags is Some {
                refused(s, Errno::InvalidArgument)
            } else {
                let path = record.path;
                let looked = seq![Operation::Metadata(path)];
                let access = flags & OPEN_ACCESS_MASK;
                match answers[0]->Metadata_0 {
                    Err(error) => turn(looked, s, Err(error)),
                    Ok(metadata) => if metadata.kind == NodeKind::Directory {
                        if access == OPEN_WRITE_ONLY || access == OPEN_READ_WRITE {
                            turn(looked, s, Err(Errno::IsDirectory))
                        } else {
                            opened(s, looked, fid, record, flags, metadata)
                        }
                    } else if flags & OPEN_TRUNCATE == 0 {
                        opened(s, looked, fid, record, flags, metadata)
                    } else if access == 0 {
                        turn(looked, s, Err(Errno::Permission))
                    } else {
                        let cut = looked.push(Operation::SetLen(path, 0));
                        match answers[1]->Done_0 {
                            Err(error) => turn(cut, s, Err(error)),
                            Ok(_) => {
                                let asked = cut.push(Operation::Metadata(path));
                                match answers[2]->Metadata_0 {
                                    Err(error) => turn(asked, s, Err(error)),
                                    Ok(metadata) => opened(
                                        s,
                                        asked,
                                        fid,
                                        record,
                                        flags,
                                        metadata,
                                    ),
                                }
                            },
                        }
                    },
                }
            },
        },
    }
}

/// FID, name, flags and mode of a create request.
pub open spec fn create_fields(body: Seq<u8>) -> Result<(u32, Seq<char>, u32, u32), Errno> {
    match ninep_wire::u32_at(body, 0) {
        Err(error) => Err(error),
        Ok((fid, at)) => match ninep_wire::text_at(body, at) {
            Err(error) => Err(error),
            Ok((name, at)) => match ninep_wire::u32_at(body, at) {
                Err(error) => Err(error),
                Ok((flags, at)) => match ninep_wire::u32_at(body, at) {
                    Err(error) => Err(error),
                    Ok((mode, at)) => match ninep_wire::u32_at(body, at) {
                        Err(error) => Err(error),
                        Ok((_, at)) => if at != body.len() {
                            Err(Errno::InvalidArgument)
                        } else {
                            Ok((fid, name, flags, mode))
                        },
                    },
                },
            },
        },
    }
}

pub open spec fn create_spec(s: SessionView, body: Seq<u8>, answers: Seq<Answer>) -> Turn {
    match create_fields(body) {
        Err(error) => refused(s, error),
        Ok((fid, name, flags, mode)) => match fid_spec(s, fid) {
            Err(error) => refused(s, error),
            Ok(record) => {
                let looked = seq![Operation::Metadata(record.path)];
                match answers[0]->Metadata_0 {
                    Err(error) => turn(looked, s, Err(error)),
                    Ok(metadata) => if metadata.kind != NodeKind::Directory {
                        turn(looked, s, Err(Errno::NotDirectory))
                    } else {
                        match child_spec(record.path, name) {
                            Err(error) => turn(looked, s, Err(error)),
                            Ok(path) => {
                                let made = looked.push(
                                    Operation::CreateFile(
                                        path,
                                        mode,
                                        flags & OPEN_EXCLUSIVE != 0,
                                        flags & OPEN_TRUNCATE != 0,
                                    ),
                                );
                                match answers[1]->Done_0 {
                                    Err(error) => turn(made, s, Err(error)),
                                    Ok(_) => {
                                        let asked = made.push(Operation::Metadata(path));
                                        match answers[2]->Metadata_0 {
                                            Err(error) => turn(asked, s, Err(error)),
                                            Ok(metadata) => opened(
                                                s,
                                                asked,
                                                fid,
                                                fresh_record(path),
                                                flags,
                                                metadata,
                                            ),
                                        }
                                    },
                                }
                            },
                        }
                    },
                }
            },
        },
    }
}

/// FID, offset and count of a read or readdir request.
pub open spec fn read_fields(body: Seq<u8>) -> Result<(u32, u64, u32), Errno> {
    match ninep_wire::u32_at(body, 0) {
        Err(error) => Err(error),
        Ok((fid, at)) => match ninep_wire::u64_at(body, at) {
            Err(error) => Err(error),
            Ok((offset, at)) => match ninep_wire::u32_at(body, at) {
                Err(error) => Err(error),
                Ok((count, at)) => if at != body.len() {
                    Err(Errno::InvalidArgument)
                } else {
                    Ok((fid, offset, count))
                },
            },
        },
    }
}

/// Largest payload of a reply that the negotiated size and the client allow.
pub open spec fn payload_limit(s: SessionView, requested: u32) -> int {
    kernel_model::smaller(s.message_size - (HEADER_BYTES + 4), requested as int)
}

pub open spec fn counted_bytes(data: Seq<u8>) -> Seq<u8> {
    bytes::le_bytes(data.len(), 4) + data
}

pub open spec fn read_spec(s: SessionView, body: Seq<u8>, answers: Seq<Answer>) -> Turn {
    match read_fields(body) {
        Err(error) => refused(s, error),
        Ok((fid, offset, requested)) => match fid_spec(s, fid) {
            Err(error) => refused(s, error),
            Ok(record) => if record.open_flags is None || record.open_flags->Some_0
                & OPEN_ACCESS_MASK == OPEN_WRITE_ONLY {
                refused(s, Errno::BadFileDescriptor)
            } else {
                let looked = seq![Operation::Metadata(record.path)];
                let maximum = payload_limit(s, requested);
                match answers[0]->Metadata_0 {
                    Err(error) => turn(looked, s, Err(error)),
                    Ok(metadata) => if metadata.kind == NodeKind::Directory {
                        turn(looked, s, Err(Errno::IsDirectory))
                    } else {
                        let asked = looked.push(
                            Operation::Read(record.path, offset, maximum as u32),
                        );
                        match answers[1]->Bytes_0 {
                            Err(error) => turn(asked, s, Err(error)),
                            Ok(data) => if data.len() > maximum {
                                turn(asked, s, Err(Errno::Io))
                            } else {
                                turn(asked, s, Ok(counted_bytes(data)))
                            },
                        }
                    },
                }
            },
        },
    }
}

/// FID, offset and data of a write request.
pub open spec fn write_fields(body: Seq<u8>) -> Result<(u32, u64, Seq<u8>), Errno> {
    match ninep_wire::u32_at(body, 0) {
        Err(error) => Err(error),
        Ok((fid, at)) => match ninep_wire::u64_at(body, at) {
            Err(error) => Err(error),
            Ok((offset, at)) => match ninep_wire::u32_at(body, at) {
                Err(error) => Err(error),
                Ok((count, at)) => match ninep_wire::taken(body, at, count as int) {
                    Err(error) => Err(error),
                    Ok((data, at)) => if at != body.len() {
                        Err(Errno::InvalidArgument)
                    } else {
                        Ok((fid, offset, data))
                    },
                },
            },
        },
    }
}

pub open spec fn write_spec(s: SessionView, body: Seq<u8>, answers: Seq<Answer>) -> Turn {
    match write_fields(body) {
        Err(error) => refused(s, error),
        Ok((fid, offset, data)) => match fid_spec(s, fid) {
            Err(error) => refused(s, error),
            Ok(record) => if record.open_flags is None || record.open_flags->Some_0
                & OPEN_ACCESS_MASK == 0 {
                refused(s, Errno::BadFileDescriptor)
            } else {
                let looked = seq![Operation::Metadata(record.path)];
                match answers[0]->Metadata_0 {
                    Err(error) => turn(looked, s, Err(error)),
                    Ok(metadata) => if metadata.kind == NodeKind::Directory {
                        turn(looked, s, Err(Errno::IsDirectory))
                    } else {
                        let asked = looked.push(Operation::Write(record.path, offset, data));
                        match answers[1]->Count_0 {
                            Err(error) => turn(asked, s, Err(error)),
                            Ok(written) => if written > data.len() {
                                turn(asked, s, Err(Errno::Io))
                            } else {
                                turn(asked, s, Ok(bytes::le_bytes(written as nat, 4)))
                            },
                        }
                    },
                }
            },
        },
    }
}

/// One 32-bit field and nothing behind it.
pub open spec fn one_word(body: Seq<u8>) -> Result<u32, Errno> {
    match ninep_wire::u32_at(body, 0) {
        Err(error) => Err(error),
        Ok((word, at)) => if at != body.len() {
            Err(Errno::InvalidArgument)
        } else {
            Ok(word)
        },
    }
}

pub open spec fn without_fid(s: SessionView, i: int) -> SessionView {
    SessionView { fids: s.fids.remove(i), ..s }
}

pub open spec fn clunk_spec(s: SessionView, body: Seq<u8>) -> Turn {
    match one_word(body) {
        Err(error) => refused(s, error),
        Ok(fid) => match find_fid(s.fids, fid) {
            None => refused(s, Errno::BadFileDescriptor),
            Some(i) => turn(Seq::empty(), without_fid(s, i), Ok(Seq::empty())),
        },
    }
}

/// Removing a FID clunks it whatever becomes of its node.
pub open spec fn remove_spec(s: SessionView, body: Seq<u8>, answers: Seq<Answer>) -> Turn {
    match one_word(body) {
        Err(error) => refused(s, error),
        Ok(fid) => match find_fid(s.fids, fid) {
            None => refused(s, Errno::BadFileDescriptor),
            Some(i) => {
                let path = s.fids[i].1.path;
                let clunked = without_fid(s, i);
                if path.len() == 0 {
                    refused(clunked, Errno::Permission)
                } else {
                    let looked = seq![Operation::Metadata(path)];
                    match answers[0]->Metadata_0 {
                        Err(error) => turn(looked, clunked, Err(error)),
                        Ok(metadata) => {
                            let asked = looked.push(
                                if metadata.kind == NodeKind::Directory {
                                    Operation::RemoveDir(path)
                                } else {
                                    Operation::RemoveFile(path)
                                },
                            );
                            match answers[1]->Done_0 {
                                Err(error) => turn(asked, clunked, Err(error)),
                                Ok(_) => turn(asked, forgotten(clunked, path), Ok(Seq::empty())),
                            }
                        },
                    }
                }
            },
        },
    }
}

pub open spec fn mode_spec(metadata: Metadata) -> u32 {
    (match metadata.kind {
        NodeKind::File => MODE_REGULAR,
        NodeKind::Directory => MODE_DIRECTORY,
    }) | (metadata.mode & 0o7777)
}

pub open spec fn u64s(values: Seq<u64>) -> Seq<u8>
    decreases values.len(),
{
    if values.len() == 0 {
        Seq::empty()
    } else {
        u64s(values.drop_last()) + bytes::le_bytes(values.last() as nat, 8)
    }
}

/// Link count, device, length, block size, blocks, the three times, the birth
/// time, generation and data version.
pub open spec fn attribute_values(metadata: Metadata) -> Seq<u64> {
    let modified = metadata.modified_seconds;
    seq![
        if metadata.kind == NodeKind::Directory {
            2
        } else {
            1
        },
        0,
        metadata.len,
        4096,
        ((metadata.len + 511) / 512) as u64,
        modified,
        0,
        modified,
        0,
        modified,
        0,
        0,
        0,
        metadata.generation,
        metadata.generation,
    ]
}

pub open spec fn attribute_bytes(qid: Qid, metadata: Metadata) -> Seq<u8> {
    bytes::le_bytes(STATS_BASIC as nat, 8) + ninep_wire::qid_bytes(qid) + bytes::le_bytes(
        mode_spec(metadata) as nat,
        4,
    ) + bytes::le_bytes(1000, 4) + bytes::le_bytes(1000, 4) + u64s(attribute_values(metadata))
}

/// FID of a getattr request.
pub open spec fn getattr_fields(body: Seq<u8>) -> Result<u32, Errno> {
    match ninep_wire::u32_at(body, 0) {
        Err(error) => Err(error),
        Ok((fid, at)) => match ninep_wire::u64_at(body, at) {
            Err(error) => Err(error),
            Ok((_, at)) => if at != body.len() {
                Err(Errno::InvalidArgument)
            } else {
                Ok(fid)
            },
        },
    }
}

pub open spec fn getattr_spec(s: SessionView, body: Seq<u8>, answers: Seq<Answer>) -> Turn {
    match getattr_fields(body) {
        Err(error) => refused(s, error),
        Ok(fid) => match fid_spec(s, fid) {
            Err(error) => refused(s, error),
            Ok(record) => {
                let asked = seq![Operation::Metadata(record.path)];
                match answers[0]->Metadata_0 {
                    Err(error) => turn(asked, s, Err(error)),
                    Ok(metadata) => {
                        let (after, qid) = qid_spec(s, record.path, metadata);
                        match qid {
                            Err(error) => turn(asked, after, Err(error)),
                            Ok(qid) => turn(asked, after, Ok(attribute_bytes(qid, metadata))),
                        }
                    },
                }
            },
        },
    }
}

/// FID, valid mask and size of a setattr request.
pub open spec fn setattr_fields(body: Seq<u8>) -> Result<(u32, u32, u64), Errno> {
    match ninep_wire::u32_at(body, 0) {
        Err(error) => Err(error),
        Ok((fid, at)) => match ninep_wire::u32_at(body, at) {
            Err(error) => Err(error),
            Ok((valid, at)) => match ninep_wire::taken(body, at, 12) {
                Err(error) => Err(error),
                Ok((_, at)) => match ninep_wire::u64_at(body, at) {
                    Err(error) => Err(error),
                    Ok((size, at)) => match ninep_wire::taken(body, at, 32) {
                        Err(error) => Err(error),
                        Ok((_, at)) => if at != body.len() {
                            Err(Errno::InvalidArgument)
                        } else {
                            Ok((fid, valid, size))
                        },
                    },
                },
            },
        },
    }
}

pub open spec fn setattr_spec(s: SessionView, body: Seq<u8>, answers: Seq<Answer>) -> Turn {
    match setattr_fields(body) {
        Err(error) => refused(s, error),
        Ok((fid, valid, size)) => if valid & !ATTR_SIZE != 0 {
            refused(s, Errno::NotSupported)
        } else {
            match fid_spec(s, fid) {
                Err(error) => refused(s, error),
                Ok(record) => if valid & ATTR_SIZE == 0 {
                    turn(Seq::empty(), s, Ok(Seq::empty()))
                } else {
                    turn(
                        seq![Operation::SetLen(record.path, size)],
                        s,
                        match answers[0]->Done_0 {
                            Err(error) => Err(error),
                            Ok(_) => Ok(Seq::empty()),
                        },
                    )
                },
            }
        },
    }
}

pub open spec fn stats_bytes(stats: crate::ninep::FileSystemStats) -> Seq<u8> {
    bytes::le_bytes(STATFS_TYPE as nat, 4) + bytes::le_bytes(stats.block_size as nat, 4) + u64s(
        seq![
            stats.blocks,
            stats.blocks_free,
            stats.blocks_available,
            stats.files,
            stats.files_free,
            1,
        ],
    ) + bytes::le_bytes(MAX_NAME_BYTES as nat, 4)
}

pub open spec fn statfs_spec(s: SessionView, body: Seq<u8>, answers: Seq<Answer>) -> Turn {
    match ninep_wire::u32_at(body, 0) {
        Err(error) => refused(s, error),
        Ok((fid, at)) => match fid_spec(s, fid) {
            Err(error) => refused(s, error),
            Ok(_) => if at != body.len() {
                refused(s, Errno::InvalidArgument)
            } else {
                turn(
                    seq![Operation::StatFs],
                    s,
                    match answers[0]->Stats_0 {
                        Err(error) => Err(error),
                        Ok(stats) => Ok(stats_bytes(stats)),
                    },
                )
            },
        },
    }
}

/// One entry of a directory reply.
pub open spec fn entry_bytes(qid: Qid, index: int, entry: EntryView) -> Seq<u8> {
    ninep_wire::qid_bytes(qid) + bytes::le_bytes((index + 1) as nat, 8) + seq![
        match entry.metadata.kind {
            NodeKind::Directory => DT_DIRECTORY,
            NodeKind::File => DT_REGULAR,
        },
    ] + ninep_wire::text_bytes(entry.name)
}

#[verifier::ext_equal]
pub struct Listed {
    pub after: SessionView,
    pub encoded: Seq<u8>,
    pub course: Course,
}

/// `count` entries from `offset` on, as far as they fit.
pub open spec fn listed(
    s: SessionView,
    path: Seq<char>,
    entries: Seq<EntryView>,
    offset: nat,
    count: nat,
    maximum: int,
) -> Listed
    decreases count,
{
    if count == 0 {
        Listed { after: s, encoded: Seq::empty(), course: Course::Going }
    } else {
        let l = listed(s, path, entries, offset, (count - 1) as nat, maximum);
        if !(l.course is Going) {
            l
        } else {
            let index = offset + count - 1;
            let entry = entries[index];
            let (after, qid) = qid_spec(l.after, child(path, entry.name), entry.metadata);
            match qid {
                Err(error) => Listed { after, course: Course::Failed(error), ..l },
                Ok(qid) => {
                    let encoded = l.encoded + entry_bytes(qid, index, entry);
                    if encoded.len() > maximum {
                        Listed { after, course: Course::Stopped, ..l }
                    } else {
                        Listed { after, encoded, course: Course::Going }
                    }
                },
            }
        }
    }
}

/// The reply to a listing that the filesystem gave.
pub open spec fn listing_reply(
    s: SessionView,
    path: Seq<char>,
    entries: Seq<EntryView>,
    offset: u64,
    maximum: int,
) -> (SessionView, Result<Seq<u8>, Errno>) {
    if entries.len() > MAX_DIRECTORY_ENTRIES {
        (s, Err(Errno::NoSpace))
    } else {
        let ordered = sorted(entries);
        match listing_refusal(ordered) {
            Some(error) => (s, Err(error)),
            None => {
                let count = if offset < ordered.len() {
                    (ordered.len() - offset) as nat
                } else {
                    0
                };
                let l = listed(s, path, ordered, offset as nat, count, maximum);
                match l.course {
                    Course::Failed(error) => (l.after, Err(error)),
                    _ => (l.after, Ok(counted_bytes(l.encoded))),
                }
            },
        }
    }
}

/// FID, offset and count of a readdir request; an offset that memory cannot
/// index is malformed.
pub open spec fn readdir_fields(body: Seq<u8>) -> Result<(u32, u64, u32), Errno> {
    match ninep_wire::u32_at(body, 0) {
        Err(error) => Err(error),
        Ok((fid, at)) => match ninep_wire::u64_at(body, at) {
            Err(error) => Err(error),
            Ok((offset, at)) => if offset > usize::MAX {
                Err(Errno::InvalidArgument)
            } else {
                read_fields(body)
            },
        },
    }
}

pub open spec fn readdir_spec(s: SessionView, body: Seq<u8>, answers: Seq<Answer>) -> Turn {
    match readdir_fields(body) {
        Err(error) => refused(s, error),
        Ok((fid, offset, requested)) => match fid_spec(s, fid) {
            Err(error) => refused(s, error),
            Ok(record) => if record.open_flags is None {
                refused(s, Errno::BadFileDescriptor)
            } else {
                let looked = seq![Operation::Metadata(record.path)];
                match answers[0]->Metadata_0 {
                    Err(error) => turn(looked, s, Err(error)),
                    Ok(metadata) => if metadata.kind != NodeKind::Directory {
                        turn(looked, s, Err(Errno::NotDirectory))
                    } else {
                        let asked = looked.push(Operation::ReadDir(record.path));
                        match answers[1]->Entries_0 {
                            Err(error) => turn(asked, s, Err(error)),
                            Ok(entries) => {
                                let (after, reply) = listing_reply(
                                    s,
                                    record.path,
                                    entries,
                                    offset,
                                    payload_limit(s, requested),
                                );
                                turn(asked, after, reply)
                            },
                        }
                    },
                }
            },
        },
    }
}

pub open spec fn fsync_spec(s: SessionView, body: Seq<u8>, answers: Seq<Answer>) -> Turn {
    match two_words(body) {
        Err(error) => refused(s, error),
        Ok((fid, data_only)) => match fid_spec(s, fid) {
            Err(error) => refused(s, error),
            Ok(record) => if record.open_flags is None {
                refused(s, Errno::BadFileDescriptor)
            } else {
                turn(
                    seq![Operation::Sync(record.path, data_only != 0)],
                    s,
                    match answers[0]->Done_0 {
                        Err(error) => Err(error),
                        Ok(_) => Ok(Seq::empty()),
                    },
                )
            },
        },
    }
}

/// FID, name and mode of a mkdir request.
pub open spec fn mkdir_fields(body: Seq<u8>) -> Result<(u32, Seq<char>, u32), Errno> {
    match ninep_wire::u32_at(body, 0) {
        Err(error) => Err(error),
        Ok((fid, at)) => match ninep_wire::text_at(body, at) {
            Err(error) => Err(error),
            Ok((name, at)) => match ninep_wire::u32_at(body, at) {
                Err(error) => Err(error),
                Ok((mode, at)) => match ninep_wire::u32_at(body, at) {
                    Err(error) => Err(error),
                    Ok((_, at)) => if at != body.len() {
                        Err(Errno::InvalidArgument)
                    } else {
                        Ok((fid, name, mode))
                    },
                },
            },
        },
    }
}

pub open spec fn mkdir_spec(s: SessionView, body: Seq<u8>, answers: Seq<Answer>) -> Turn {
    match mkdir_fields(body) {
        Err(error) => refused(s, error),
        Ok((fid, name, mode)) => match fid_spec(s, fid) {
            Err(error) => refused(s, error),
            Ok(record) => {
                let looked = seq![Operation::Metadata(record.path)];
                match answers[0]->Metadata_0 {
                    Err(error) => turn(looked, s, Err(error)),
                    Ok(metadata) => if metadata.kind != NodeKind::Directory {
                        turn(looked, s, Err(Errno::NotDirectory))
                    } else {
                        match child_spec(record.path, name) {
                            Err(error) => turn(looked, s, Err(error)),
                            Ok(path) => {
                                let made = looked.push(Operation::CreateDir(path, mode));
                                match answers[1]->Done_0 {
                                    Err(error) => turn(made, s, Err(error)),
                                    Ok(_) => {
                                        let asked = made.push(Operation::Metadata(path));
                                        match answers[2]->Metadata_0 {
                                            Err(error) => turn(asked, s, Err(error)),
                                            Ok(metadata) => {
                                                let (after, qid) = qid_spec(s, path, metadata);
                                                turn(
                                                    asked,
                                                    after,
                                                    match qid {
                                                        Err(error) => Err(error),
                                                        Ok(qid) => Ok(ninep_wire::qid_bytes(qid)),
                                                    },
                                                )
                                            },
                                        }
                                    },
                                }
                            },
                        }
                    },
                }
            },
        },
    }
}

/// Both ends of a rename request. Each directory is looked up as soon as its
/// FID is read.
pub open spec fn rename_fields(s: SessionView, body: Seq<u8>) -> Result<
    (Seq<char>, Seq<char>),
    Errno,
> {
    match ninep_wire::u32_at(body, 0) {
        Err(error) => Err(error),
        Ok((old_fid, at)) => match fid_spec(s, old_fid) {
            Err(error) => Err(error),
            Ok(old_directory) => match ninep_wire::text_at(body, at) {
                Err(error) => Err(error),
                Ok((old_name, at)) => match ninep_wire::u32_at(body, at) {
                    Err(error) => Err(error),
                    Ok((new_fid, at)) => match fid_spec(s, new_fid) {
                        Err(error) => Err(error),
                        Ok(new_directory) => match ninep_wire::text_at(body, at) {
                            Err(error) => Err(error),
                            Ok((new_name, at)) => if at != body.len() {
                                Err(Errno::InvalidArgument)
                            } else {
                                match child_spec(old_directory.path, old_name) {
                                    Err(error) => Err(error),
                                    Ok(source) => match child_spec(new_directory.path, new_name) {
                                        Err(error) => Err(error),
                                        Ok(destination) => Ok((source, destination)),
                                    },
                                }
                            },
                        },
                    },
                },
            },
        },
    }
}

/// A rename may replace the destination, whose own FIDs then go stale; those
/// of the source follow it.
pub open spec fn renameat_spec(s: SessionView, body: Seq<u8>, answers: Seq<Answer>) -> Turn {
    match rename_fields(s, body) {
        Err(error) => refused(s, error),
        Ok((source, destination)) => if source == destination {
            turn(Seq::empty(), s, Ok(Seq::empty()))
        } else {
            let asked = seq![Operation::Rename(source, destination)];
            match answers[0]->Done_0 {
                Err(error) => turn(asked, s, Err(error)),
                Ok(_) => turn(
                    asked,
                    renamed(forgotten(s, destination), source, destination),
                    Ok(Seq::empty()),
                ),
            }
        },
    }
}

/// Path and flags of an unlink request.
pub open spec fn unlink_fields(s: SessionView, body: Seq<u8>) -> Result<(Seq<char>, u32), Errno> {
    match ninep_wire::u32_at(body, 0) {
        Err(error) => Err(error),
        Ok((fid, at)) => match fid_spec(s, fid) {
            Err(error) => Err(error),
            Ok(directory) => match ninep_wire::text_at(body, at) {
                Err(error) => Err(error),
                Ok((name, at)) => match ninep_wire::u32_at(body, at) {
                    Err(error) => Err(error),
                    Ok((flags, at)) => if at != body.len() || flags & !AT_REMOVE_DIR != 0 {
                        Err(Errno::InvalidArgument)
                    } else {
                        match child_spec(directory.path, name) {
                            Err(error) => Err(error),
                            Ok(path) => Ok((path, flags)),
                        }
                    },
                },
            },
        },
    }
}

pub open spec fn unlinkat_spec(s: SessionView, body: Seq<u8>, answers: Seq<Answer>) -> Turn {
    match unlink_fields(s, body) {
        Err(error) => refused(s, error),
        Ok((path, flags)) => {
            let asked = seq![
                if flags & AT_REMOVE_DIR != 0 {
                    Operation::RemoveDir(path)
                } else {
                    Operation::RemoveFile(path)
                },
            ];
            match answers[0]->Done_0 {
                Err(error) => turn(asked, s, Err(error)),
                Ok(_) => turn(asked, forgotten(s, path), Ok(Seq::empty())),
            }
        },
    }
}

/// The request of one type.
#[verifier::opaque]
pub open spec fn dispatch_spec(
    s: SessionView,
    message_type: u8,
    body: Seq<u8>,
    answers: Seq<Answer>,
) -> Turn {
    if message_type == TVERSION {
        version_spec(s, body)
    } else if message_type == TATTACH {
        attach_spec(s, body, answers)
    } else if message_type == TFLUSH {
        flush_spec(s, body)
    } else if message_type == TWALK {
        walk_spec(s, body, answers)
    } else if message_type == TLOPEN {
        open_spec(s, body, answers)
    } else if message_type == TLCREATE {
        create_spec(s, body, answers)
    } else if message_type == TREAD {
        read_spec(s, body, answers)
    } else if message_type == TWRITE {
        write_spec(s, body, answers)
    } else if message_type == TCLUNK {
        clunk_spec(s, body)
    } else if message_type == TREMOVE {
        remove_spec(s, body, answers)
    } else if message_type == TGETATTR {
        getattr_spec(s, body, answers)
    } else if message_type == TSETATTR {
        setattr_spec(s, body, answers)
    } else if message_type == TSTATFS {
        statfs_spec(s, body, answers)
    } else if message_type == TREADDIR {
        readdir_spec(s, body, answers)
    } else if message_type == TFSYNC {
        fsync_spec(s, body, answers)
    } else if message_type == TMKDIR {
        mkdir_spec(s, body, answers)
    } else if message_type == TRENAMEAT {
        renameat_spec(s, body, answers)
    } else if message_type == TUNLINKAT {
        unlinkat_spec(s, body, answers)
    } else {
        refused(s, Errno::NotSupported)
    }
}

/// The tag of a request; a request without one is answered with no tag.
pub open spec fn request_tag(request: Seq<u8>) -> u16 {
    if request.len() >= HEADER_BYTES {
        bytes::le_value(request.subrange(5, 7)) as u16
    } else {
        NOTAG
    }
}

/// Why a request is turned down by its header alone.
pub open spec fn header_refusal(s: SessionView, request: Seq<u8>) -> Option<Errno> {
    if request.len() < HEADER_BYTES || request.len() > s.message_size {
        Some(Errno::MessageTooLarge)
    } else if bytes::le_value(request.subrange(0, 4)) != request.len() {
        Some(Errno::InvalidArgument)
    } else if request[4] == TVERSION && request_tag(request) != NOTAG {
        Some(Errno::InvalidArgument)
    } else {
        None
    }
}

/// Serving one request, up to the framing of the reply.
pub open spec fn request_spec(s: SessionView, request: Seq<u8>, answers: Seq<Answer>) -> Turn {
    match header_refusal(s, request) {
        Some(error) => refused(s, error),
        None => {
            let t = dispatch_spec(s, request[4], request.skip(HEADER_BYTES as int), answers);
            match t.reply {
                Err(_) => t,
                Ok(body) => if HEADER_BYTES + body.len() > t.after.message_size {
                    Turn { reply: Err(Errno::MessageTooLarge), ..t }
                } else {
                    t
                },
            }
        },
    }
}

/// The message that answers a request.
pub open spec fn response_bytes(request: Seq<u8>, reply: Result<Seq<u8>, Errno>) -> Seq<u8> {
    match reply {
        Ok(body) => ninep_wire::message(
            ((request[4] + 1) % 256) as u8,
            request_tag(request),
            body,
        ),
        Err(error) => ninep_wire::message(
            RLERROR,
            request_tag(request),
            bytes::le_bytes(error.number() as nat, 4),
        ),
    }
}

/// One complete message that answers a request: its size field is its length,
/// its tag is that of the request or `NOTAG` where the request is too short to
/// hold one, its type is `RLERROR` with a class or the one behind the
/// request's, and it fits the limit.
pub open spec fn answers_request(request: Seq<u8>, response: Seq<u8>, limit: int) -> bool {
    &&& HEADER_BYTES <= response.len() <= limit
    &&& bytes::le_value(response.subrange(0, 4)) == response.len()
    &&& bytes::le_value(response.subrange(5, 7)) == request_tag(request)
    &&& {
        ||| response[4] == RLERROR && response.len() == HEADER_BYTES + 4
        ||| request.len() >= HEADER_BYTES && response[4] == (request[4] + 1) % 256
    }
}

// What always holds of a session.

pub open spec fn fids_unique(fids: Seq<(u32, FidView)>) -> bool {
    forall|i: int, j: int|
        0 <= i < j < fids.len() ==> (#[trigger] fids[i]).0 != (#[trigger] fids[j]).0
}

pub open spec fn qids_unique(qids: Seq<(Seq<char>, u64)>) -> bool {
    forall|i: int, j: int|
        0 <= i < j < qids.len() ==> (#[trigger] qids[i]).0 != (#[trigger] qids[j]).0 && qids[i].1
            != qids[j].1
}

/// Bounded tables, one record for each FID, and one identity for each path.
pub open spec fn session_sound(s: SessionView) -> bool {
    &&& MIN_MESSAGE_BYTES <= s.message_size <= MAX_MESSAGE_BYTES
    &&& s.fids.len() <= MAX_FIDS
    &&& s.qids.len() <= MAX_QID_PATHS
    &&& fids_unique(s.fids)
    &&& qids_unique(s.qids)
    &&& forall|i: int| 0 <= i < s.qids.len() ==> (#[trigger] s.qids[i]).1 < s.next_qid
}

/// Why an export name is refused.
pub open spec fn valid_export(name: Seq<char>) -> bool {
    &&& 0 < name.len()
    &&& vstd::utf8::encode_utf8(name).len() <= MAX_NAME_BYTES
    &&& forall|i: int|
        0 <= i < name.len() ==> #[trigger] name[i] != '/' && !text::is_control(name[i])
}

pub open spec fn fresh_session(export_name: Seq<char>) -> SessionView {
    SessionView {
        export_name,
        message_size: MAX_MESSAGE_BYTES,
        fids: Seq::empty(),
        qids: seq![(Seq::empty(), 1)],
        next_qid: 2,
    }
}

} // verus!
