//! Stateful 9P2000.L server for one Linux mount and one export.

use crate::bytes;
use crate::kernel_model;
use crate::ninep;
use crate::ninep::{
    Answer, DirectoryEntry, EntryView, Errno, FileSystem, FileSystemStats, Metadata, NodeKind,
    Operation, Qid, ATTR_SIZE, AT_REMOVE_DIR, DT_DIRECTORY, DT_REGULAR, HEADER_BYTES,
    MAX_DIRECTORY_ENTRIES, MAX_FIDS, MAX_MESSAGE_BYTES, MAX_NAME_BYTES, MAX_QID_PATHS,
    MAX_WALK_ELEMENTS, MIN_MESSAGE_BYTES, NOFID, NOTAG, OPEN_ACCESS_MASK, OPEN_EXCLUSIVE,
    OPEN_READ_WRITE, OPEN_TRUNCATE, OPEN_WRITE_ONLY, RLERROR, STATFS_TYPE, STATS_BASIC, TATTACH,
    TCLUNK, TFLUSH, TFSYNC, TGETATTR, TLCREATE, TLOPEN, TMKDIR, TREAD, TREADDIR, TREMOVE,
    TRENAMEAT, TSETATTR, TSTATFS, TUNLINKAT, TVERSION, TWALK, TWRITE,
};
use crate::ninep_containment;
use crate::ninep_laws;
use crate::ninep_model;
use crate::ninep_model::{Course, FidView, Listed, SessionView, Turn};
use crate::ninep_paths::{
    child_path, is_beneath, join, moved_path, plain_text, protocol_mode, sort_entries,
    validate_name, walk_path,
};
use crate::ninep_wire;
use crate::ninep_wire::{Reader, Writer};
use crate::text::{chars_of, same_text};
use vstd::prelude::*;
use vstd::slice::slice_subrange;
use vstd::string::*;

verus! {

/// One client handle.
#[derive(Debug)]
pub struct Fid {
    pub path: String,
    pub open_flags: Option<u32>,
    pub stale: bool,
}

impl Fid {
    pub open spec fn view(&self) -> FidView {
        FidView { path: self.path@, open_flags: self.open_flags, stale: self.stale }
    }
}

pub open spec fn fid_views(fids: Seq<(u32, Fid)>) -> Seq<(u32, FidView)> {
    Seq::new(fids.len(), |i: int| (fids[i].0, fids[i].1.view()))
}

pub open spec fn qid_views(qids: Seq<(String, u64)>) -> Seq<(Seq<char>, u64)> {
    Seq::new(qids.len(), |i: int| (qids[i].0@, qids[i].1))
}

/// One call into the filesystem, with the states around it.
pub struct Exchange<F> {
    pub before: F,
    pub operation: Operation,
    pub answer: Answer,
    pub after: F,
}

/// Whether the filesystem answers so. A capacity that is not measured is
/// reported as such, and asking for it changes nothing.
pub open spec fn allowed<F: FileSystem>(e: Exchange<F>) -> bool {
    ||| F::answers(&e.before, e.operation, e.answer, &e.after)
    ||| e.operation is StatFs && e.answer == Answer::Stats(Ok(FileSystemStats::unmeasured()))
        && e.after == e.before
}

/// Whether a run of calls takes the filesystem from one state to another.
pub open spec fn linked<F: FileSystem>(start: F, calls: Seq<Exchange<F>>, end: F) -> bool
    decreases calls.len(),
{
    if calls.len() == 0 {
        start == end
    } else {
        &&& calls.last().after == end
        &&& allowed(calls.last())
        &&& linked(start, calls.drop_last(), calls.last().before)
    }
}

pub open spec fn operations<F>(calls: Seq<Exchange<F>>) -> Seq<Operation> {
    Seq::new(calls.len(), |i: int| calls[i].operation)
}

pub open spec fn answers<F>(calls: Seq<Exchange<F>>) -> Seq<Answer> {
    Seq::new(calls.len(), |i: int| calls[i].answer)
}

/// Stateful server for one Linux mount and one already-authorized export.
pub struct Session<F> {
    pub filesystem: F,
    pub export_name: String,
    pub message_size: usize,
    pub fids: Vec<(u32, Fid)>,
    pub qid_paths: Vec<(String, u64)>,
    pub next_qid_path: u64,
    /// The calls made for the latest request.
    pub calls: Ghost<Seq<Exchange<F>>>,
}

/// One call on the filesystem and nothing else.
pub open spec fn asked<F: FileSystem>(
    before: Session<F>,
    after: Session<F>,
    operation: Operation,
    answer: Answer,
) -> bool {
    &&& after@ == before@
    &&& after.calls@ == before.calls@.push(
        Exchange { before: before.filesystem, operation, answer, after: after.filesystem },
    )
    &&& forall|start: F|
        linked(start, before.calls@, before.filesystem) ==> #[trigger] linked(
            start,
            after.calls@,
            after.filesystem,
        )
}

/// The state changed, but no call was made.
pub open spec fn quiet<F>(before: Session<F>, after: Session<F>) -> bool {
    after.filesystem == before.filesystem && after.calls == before.calls
}

/// Whether an operation went as its turn says.
pub open spec fn went<F: FileSystem>(
    before: Session<F>,
    after: Session<F>,
    r: Result<Writer, Errno>,
    t: Turn,
) -> bool {
    &&& linked(before.filesystem, after.calls@, after.filesystem)
    &&& operations(after.calls@) =~= t.asked
    &&& after@ =~= t.after
    &&& match (r, t.reply) {
        (Ok(body), Ok(model)) => body@ == model,
        (Err(error), Err(model)) => error == model,
        _ => false,
    }
}

proof fn lemma_linked<F: FileSystem>(before: Session<F>, after: Session<F>, e: Exchange<F>)
    requires
        after.calls@ == before.calls@.push(e),
        e.before == before.filesystem,
        e.after == after.filesystem,
        allowed(e),
    ensures
        forall|start: F|
            linked(start, before.calls@, before.filesystem) ==> #[trigger] linked(
                start,
                after.calls@,
                after.filesystem,
            ),
{
    assert(after.calls@.drop_last() =~= before.calls@);
}

fn nothing() -> (r: Result<Writer, Errno>)
    ensures
        r matches Ok(body) && body@ == Seq::<u8>::empty(),
{
    Ok(Writer::plain())
}

impl<F: FileSystem> Session<F> {
    pub open spec fn view(&self) -> SessionView {
        SessionView {
            export_name: self.export_name@,
            message_size: self.message_size,
            fids: fid_views(self.fids@),
            qids: qid_views(self.qid_paths@),
            next_qid: self.next_qid_path,
        }
    }

    pub open spec fn wf(&self) -> bool {
        ninep_model::session_sound(self@) && ninep_containment::session_contained(self@)
    }

    /// Construct an unmounted 9P2000.L session for one exact `aname` export.
    pub fn new(filesystem: F, export_name: &str) -> (r: Result<Self, Errno>)
        ensures
            match r {
                Ok(session) => ninep_model::valid_export(export_name@) && session.wf() && session@
                    == ninep_model::fresh_session(export_name@) && session.filesystem
                    == filesystem,
                Err(error) => !ninep_model::valid_export(export_name@) && error
                    == Errno::InvalidArgument,
            },
    {
        if chars_of(export_name).len() == 0 || export_name.as_bytes().len() > MAX_NAME_BYTES
            || !plain_text(export_name) {
            return Err(Errno::InvalidArgument);
        }
        let mut qid_paths: Vec<(String, u64)> = Vec::new();
        qid_paths.push((String::new(), 1));
        let session = Session {
            filesystem,
            export_name: export_name.to_owned(),
            message_size: MAX_MESSAGE_BYTES,
            fids: Vec::new(),
            qid_paths,
            next_qid_path: 2,
            calls: Ghost(Seq::empty()),
        };
        proof {
            ninep_laws::fresh_session_is_sound(export_name@);
            ninep_containment::fresh_sessions_hold_the_root(export_name@);
            let model = ninep_model::fresh_session(export_name@);
            assert(session.qid_paths@[0].0@ =~= Seq::<char>::empty());
            assert(session@.qids =~= model.qids);
            assert(session@.fids =~= model.fids);
        }
        Ok(session)
    }

    /// Borrow the backing filesystem for status or test inspection.
    pub fn filesystem(&self) -> (r: &F)
        ensures
            *r == self.filesystem,
    {
        &self.filesystem
    }

    /// Mutably borrow the backing filesystem.
    pub fn filesystem_mut(&mut self) -> (r: &mut F)
        ensures
            *r == old(self).filesystem,
            final(self).filesystem == *final(r),
            final(self)@ == old(self)@,
    {
        &mut self.filesystem
    }

    /// Parse and execute exactly one complete request message.
    ///
    /// The returned buffer is always a complete 9P response. Protocol and
    /// backend errors use `Rlerror`.
    pub fn serve(&mut self, request: &[u8]) -> (r: Vec<u8>)
        requires
            old(self).wf(),
        ensures
            final(self).wf(),
            linked(old(self).filesystem, final(self).calls@, final(self).filesystem),
            ninep_containment::all_contained(operations(final(self).calls@)),
            ({
                let t = ninep_model::request_spec(
                    old(self)@,
                    request@,
                    answers(final(self).calls@),
                );
                &&& operations(final(self).calls@) == t.asked
                &&& final(self)@ == t.after
                &&& r@ == ninep_model::response_bytes(request@, t.reply)
            }),
            ninep_model::answers_request(request@, r@, final(self).message_size as int),
            final(self).message_size <= MAX_MESSAGE_BYTES,
    {
        let tag: u16 = if request.len() >= HEADER_BYTES {
            read_tag(request)
        } else {
            NOTAG
        };
        let reply = self.serve_inner(request, tag);
        proof {
            ninep_laws::requests_keep_the_session_sound(
                old(self)@,
                request@,
                answers(self.calls@),
            );
            ninep_laws::answers_are_complete(old(self)@, request@, answers(self.calls@));
            ninep_containment::requests_stay_beneath_the_root(
                old(self)@,
                request@,
                answers(self.calls@),
            );
        }
        match reply {
            Ok(response) => response,
            Err(errno) => error_response(tag, errno),
        }
    }

    fn serve_inner(&mut self, request: &[u8], tag: u16) -> (r: Result<Vec<u8>, Errno>)
        requires
            old(self).wf(),
            tag == ninep_model::request_tag(request@),
        ensures
            linked(old(self).filesystem, final(self).calls@, final(self).filesystem),
            ({
                let t = ninep_model::request_spec(
                    old(self)@,
                    request@,
                    answers(final(self).calls@),
                );
                &&& operations(final(self).calls@) == t.asked
                &&& final(self)@ == t.after
                &&& match (r, t.reply) {
                    (Ok(response), Ok(body)) => response@ == ninep_model::response_bytes(
                        request@,
                        t.reply,
                    ),
                    (Err(error), Err(model)) => error == model,
                    _ => false,
                }
            }),
    {
        self.calls = Ghost(Seq::empty());
        assert(operations(self.calls@) =~= Seq::<Operation>::empty());
        if request.len() < HEADER_BYTES || request.len() > self.message_size {
            return Err(Errno::MessageTooLarge);
        }
        let declared: u64 = bytes::read_le(request, 0, 4);
        if declared != request.len() as u64 {
            return Err(Errno::InvalidArgument);
        }
        let message_type: u8 = request[4];
        if message_type == TVERSION && tag != NOTAG {
            return Err(Errno::InvalidArgument);
        }
        let body = slice_subrange(request, HEADER_BYTES, request.len());
        assert(body@ =~= request@.skip(HEADER_BYTES as int));
        let reply = self.dispatch(message_type, body)?;
        proof {
            ninep_laws::requests_keep_the_session_sound(
                old(self)@,
                request@,
                answers(self.calls@),
            );
        }
        let mut response = Writer::response(message_type.wrapping_add(1), tag);
        response.extend(reply.bytes.as_slice());
        let finished = response.finish(self.message_size);
        proof {
            let kind = ((request@[4] + 1) % 256) as u8;
            bytes::lemma_le_bytes_len(0, 4);
            bytes::lemma_le_bytes_len(tag as nat, 2);
            assert(response@.len() == HEADER_BYTES + reply@.len());
            if finished is Ok {
                assert(response@.skip(4) =~= seq![kind] + bytes::le_bytes(tag as nat, 2) + reply@);
                assert(finished->Ok_0@ =~= ninep_wire::message(kind, tag, reply@));
            }
        }
        finished
    }

    fn dispatch(&mut self, message_type: u8, body: &[u8]) -> (r: Result<Writer, Errno>)
        requires
            old(self).wf(),
            old(self).calls@.len() == 0,
        ensures
            went(
                *old(self),
                *final(self),
                r,
                ninep_model::dispatch_spec(
                    old(self)@,
                    message_type,
                    body@,
                    answers(final(self).calls@),
                ),
            ),
    {
        proof {
            reveal(ninep_model::dispatch_spec);
        }
        if message_type == TVERSION {
            self.version(body)
        } else if message_type == TATTACH {
            self.attach(body)
        } else if message_type == TFLUSH {
            self.flush(body)
        } else if message_type == TWALK {
            self.walk(body)
        } else if message_type == TLOPEN {
            self.open(body)
        } else if message_type == TLCREATE {
            self.create(body)
        } else if message_type == TREAD {
            self.read(body)
        } else if message_type == TWRITE {
            self.write(body)
        } else if message_type == TCLUNK {
            self.clunk(body)
        } else if message_type == TREMOVE {
            self.remove(body)
        } else if message_type == TGETATTR {
            self.getattr(body)
        } else if message_type == TSETATTR {
            self.setattr(body)
        } else if message_type == TSTATFS {
            self.statfs(body)
        } else if message_type == TREADDIR {
            self.readdir(body)
        } else if message_type == TFSYNC {
            self.fsync(body)
        } else if message_type == TMKDIR {
            self.mkdir(body)
        } else if message_type == TRENAMEAT {
            self.renameat(body)
        } else if message_type == TUNLINKAT {
            self.unlinkat(body)
        } else {
            Err(Errno::NotSupported)
        }
    }

    // Calls on the filesystem.

    fn ask_metadata(&mut self, path: &str) -> (r: Result<Metadata, Errno>)
        ensures
            asked(*old(self), *final(self), Operation::Metadata(path@), Answer::Metadata(r)),
    {
        let ghost before = self.filesystem;
        let r = self.filesystem.metadata(path);
        self.note(
            Ghost(
                Exchange {
                    before,
                    operation: Operation::Metadata(path@),
                    answer: Answer::Metadata(r),
                    after: self.filesystem,
                },
            ),
            Ghost(*old(self)),
        );
        r
    }

    /// Adds a call to the record of this request.
    fn note(&mut self, call: Ghost<Exchange<F>>, start: Ghost<Session<F>>)
        requires
            allowed(call@),
            call@.before == start@.filesystem,
            call@.after == old(self).filesystem,
            start@.calls == old(self).calls,
            start@@ == old(self)@,
        ensures
            final(self).filesystem == old(self).filesystem,
            final(self)@ == old(self)@,
            final(self).calls@ == old(self).calls@.push(call@),
            asked(start@, *final(self), call@.operation, call@.answer),
    {
        self.calls = Ghost(self.calls@.push(call@));
        proof {
            lemma_linked(start@, *self, call@);
        }
    }

    fn ask_read_dir(&mut self, path: &str) -> (r: Result<Vec<DirectoryEntry>, Errno>)
        ensures
            asked(*old(self), *final(self), Operation::ReadDir(path@), ninep::entries_answer(r)),
    {
        let ghost before = self.filesystem;
        let r = self.filesystem.read_dir(path);
        self.note(
            Ghost(
                Exchange {
                    before,
                    operation: Operation::ReadDir(path@),
                    answer: ninep::entries_answer(r),
                    after: self.filesystem,
                },
            ),
            Ghost(*old(self)),
        );
        r
    }

    fn ask_read(&mut self, path: &str, offset: u64, count: u32) -> (r: Result<Vec<u8>, Errno>)
        ensures
            asked(
                *old(self),
                *final(self),
                Operation::Read(path@, offset, count),
                ninep::bytes_answer(r),
            ),
    {
        let ghost before = self.filesystem;
        let r = self.filesystem.read(path, offset, count);
        self.note(
            Ghost(
                Exchange {
                    before,
                    operation: Operation::Read(path@, offset, count),
                    answer: ninep::bytes_answer(r),
                    after: self.filesystem,
                },
            ),
            Ghost(*old(self)),
        );
        r
    }

    fn ask_write(&mut self, path: &str, offset: u64, data: &[u8]) -> (r: Result<u32, Errno>)
        ensures
            asked(
                *old(self),
                *final(self),
                Operation::Write(path@, offset, data@),
                Answer::Count(r),
            ),
    {
        let ghost before = self.filesystem;
        let r = self.filesystem.write(path, offset, data);
        self.note(
            Ghost(
                Exchange {
                    before,
                    operation: Operation::Write(path@, offset, data@),
                    answer: Answer::Count(r),
                    after: self.filesystem,
                },
            ),
            Ghost(*old(self)),
        );
        r
    }

    fn ask_create_file(&mut self, path: &str, mode: u32, exclusive: bool, truncate: bool) -> (r:
        Result<(), Errno>)
        ensures
            asked(
                *old(self),
                *final(self),
                Operation::CreateFile(path@, mode, exclusive, truncate),
                Answer::Done(r),
            ),
    {
        let ghost before = self.filesystem;
        let r = self.filesystem.create_file(path, mode, exclusive, truncate);
        self.note(
            Ghost(
                Exchange {
                    before,
                    operation: Operation::CreateFile(path@, mode, exclusive, truncate),
                    answer: Answer::Done(r),
                    after: self.filesystem,
                },
            ),
            Ghost(*old(self)),
        );
        r
    }

    fn ask_create_dir(&mut self, path: &str, mode: u32) -> (r: Result<(), Errno>)
        ensures
            asked(*old(self), *final(self), Operation::CreateDir(path@, mode), Answer::Done(r)),
    {
        let ghost before = self.filesystem;
        let r = self.filesystem.create_dir(path, mode);
        self.note(
            Ghost(
                Exchange {
                    before,
                    operation: Operation::CreateDir(path@, mode),
                    answer: Answer::Done(r),
                    after: self.filesystem,
                },
            ),
            Ghost(*old(self)),
        );
        r
    }

    fn ask_set_len(&mut self, path: &str, len: u64) -> (r: Result<(), Errno>)
        ensures
            asked(*old(self), *final(self), Operation::SetLen(path@, len), Answer::Done(r)),
    {
        let ghost before = self.filesystem;
        let r = self.filesystem.set_len(path, len);
        self.note(
            Ghost(
                Exchange {
                    before,
                    operation: Operation::SetLen(path@, len),
                    answer: Answer::Done(r),
                    after: self.filesystem,
                },
            ),
            Ghost(*old(self)),
        );
        r
    }

    fn ask_remove(&mut self, path: &str, directory: bool) -> (r: Result<(), Errno>)
        ensures
            asked(
                *old(self),
                *final(self),
                if directory {
                    Operation::RemoveDir(path@)
                } else {
                    Operation::RemoveFile(path@)
                },
                Answer::Done(r),
            ),
    {
        let ghost before = self.filesystem;
        let r = if directory {
            self.filesystem.remove_dir(path)
        } else {
            self.filesystem.remove_file(path)
        };
        self.note(
            Ghost(
                Exchange {
                    before,
                    operation: if directory {
                        Operation::RemoveDir(path@)
                    } else {
                        Operation::RemoveFile(path@)
                    },
                    answer: Answer::Done(r),
                    after: self.filesystem,
                },
            ),
            Ghost(*old(self)),
        );
        r
    }

    fn ask_rename(&mut self, source: &str, destination: &str) -> (r: Result<(), Errno>)
        ensures
            asked(
                *old(self),
                *final(self),
                Operation::Rename(source@, destination@),
                Answer::Done(r),
            ),
    {
        let ghost before = self.filesystem;
        let r = self.filesystem.rename(source, destination);
        self.note(
            Ghost(
                Exchange {
                    before,
                    operation: Operation::Rename(source@, destination@),
                    answer: Answer::Done(r),
                    after: self.filesystem,
                },
            ),
            Ghost(*old(self)),
        );
        r
    }

    fn ask_sync(&mut self, path: &str, data_only: bool) -> (r: Result<(), Errno>)
        ensures
            asked(*old(self), *final(self), Operation::Sync(path@, data_only), Answer::Done(r)),
    {
        let ghost before = self.filesystem;
        let r = self.filesystem.sync(path, data_only);
        self.note(
            Ghost(
                Exchange {
                    before,
                    operation: Operation::Sync(path@, data_only),
                    answer: Answer::Done(r),
                    after: self.filesystem,
                },
            ),
            Ghost(*old(self)),
        );
        r
    }

    fn ask_statfs(&mut self) -> (r: Result<FileSystemStats, Errno>)
        ensures
            asked(*old(self), *final(self), Operation::StatFs, Answer::Stats(r)),
    {
        let ghost before = self.filesystem;
        let r = self.filesystem.statfs();
        self.note(
            Ghost(
                Exchange {
                    before,
                    operation: Operation::StatFs,
                    answer: Answer::Stats(r),
                    after: self.filesystem,
                },
            ),
            Ghost(*old(self)),
        );
        r
    }

    // The tables.

    fn fid_index(&self, fid: u32) -> (r: Option<usize>)
        ensures
            match (r, ninep_model::find_fid(self@.fids, fid)) {
                (Some(i), Some(found)) => i == found && i < self.fids@.len(),
                (None, None) => true,
                _ => false,
            },
    {
        let ghost all = self@.fids;
        let mut i: usize = self.fids.len();
        assert(all.subrange(0, all.len() as int) =~= all);
        while i > 0
            invariant
                i <= self.fids@.len(),
                all == fid_views(self.fids@),
                ninep_model::find_fid(all, fid) == ninep_model::find_fid(
                    all.subrange(0, i as int),
                    fid,
                ),
            decreases i,
        {
            proof {
                let prefix = all.subrange(0, i as int);
                assert(prefix.drop_last() =~= all.subrange(0, i - 1));
                assert(prefix.last() == all[i - 1]);
            }
            if self.fids[i - 1].0 == fid {
                return Some(i - 1);
            }
            i = i - 1;
        }
        None
    }

    /// The live record of a FID.
    pub fn fid(&self, fid: u32) -> (r: Result<&Fid, Errno>)
        ensures
            match (r, ninep_model::fid_spec(self@, fid)) {
                (Ok(record), Ok(model)) => record@ == model,
                (Err(error), Err(model)) => error == model,
                _ => false,
            },
    {
        match self.fid_index(fid) {
            None => Err(Errno::BadFileDescriptor),
            Some(i) => if self.fids[i].1.stale {
                Err(Errno::Stale)
            } else {
                Ok(&self.fids[i].1)
            },
        }
    }

    /// Gives a FID that is there another record.
    fn replace_fid(&mut self, fid: u32, record: Fid)
        requires
            ninep_model::find_fid(old(self)@.fids, fid) is Some,
        ensures
            quiet(*old(self), *final(self)),
            final(self)@ == ninep_model::replaced_fid(old(self)@, fid, record@),
    {
        if let Some(i) = self.fid_index(fid) {
            self.fids[i] = (fid, record);
            assert(self@.fids =~= ninep_model::replaced_fid(old(self)@, fid, record@).fids);
        }
    }

    fn insert_fid(&mut self, fid: u32, record: Fid) -> (r: Result<(), Errno>)
        ensures
            quiet(*old(self), *final(self)),
            match (r, ninep_model::inserted_fid(old(self)@, fid, record@)) {
                (Ok(_), Ok(after)) => final(self)@ == after,
                (Err(error), Err(model)) => error == model && final(self)@ == old(self)@,
                _ => false,
            },
    {
        if self.fid_index(fid).is_some() {
            return Err(Errno::AlreadyExists);
        }
        if self.fids.len() == MAX_FIDS {
            return Err(Errno::TooManyOpenFiles);
        }
        self.fids.push((fid, record));
        assert(self@.fids =~= old(self)@.fids.push((fid, record@)));
        Ok(())
    }

    /// The identity of a path; a path seen for the first time gets the next one.
    pub fn qid_for(&mut self, path: &str, metadata: &Metadata) -> (r: Result<Qid, Errno>)
        ensures
            quiet(*old(self), *final(self)),
            (final(self)@, r) == ninep_model::qid_spec(old(self)@, path@, *metadata),
    {
        let ghost all = self@.qids;
        let key: String = path.to_owned();
        let version: u32 = if metadata.generation > 0xffff_ffff {
            0xffff_ffff
        } else {
            metadata.generation as u32
        };
        let mut i: usize = self.qid_paths.len();
        assert(all.subrange(0, all.len() as int) =~= all);
        while i > 0
            invariant
                i <= self.qid_paths@.len(),
                *self == *old(self),
                all == qid_views(self.qid_paths@),
                all == old(self)@.qids,
                key@ == path@,
                ninep_model::qid_of(*metadata, 0) == (Qid { kind: metadata.kind, version, path: 0 }),
                ninep_model::find_qid(all, path@) == ninep_model::find_qid(
                    all.subrange(0, i as int),
                    path@,
                ),
            decreases i,
        {
            proof {
                let prefix = all.subrange(0, i as int);
                assert(prefix.drop_last() =~= all.subrange(0, i - 1));
                assert(prefix.last() == all[i - 1]);
            }
            if self.qid_paths[i - 1].0 == key {
                let identity: u64 = self.qid_paths[i - 1].1;
                return Ok(Qid { kind: metadata.kind, version, path: identity });
            }
            i = i - 1;
        }
        if self.qid_paths.len() == MAX_QID_PATHS || self.next_qid_path == u64::MAX {
            return Err(Errno::NoSpace);
        }
        let identity: u64 = self.next_qid_path;
        self.next_qid_path = identity + 1;
        self.qid_paths.push((key, identity));
        assert(self@.qids =~= all.push((path@, identity)));
        Ok(Qid { kind: metadata.kind, version, path: identity })
    }

    /// Drops the identities at and beneath a path; FIDs there go stale.
    fn forget_qid_path(&mut self, path: &str)
        ensures
            quiet(*old(self), *final(self)),
            final(self)@ == ninep_model::forgotten(old(self)@, path@),
    {
        let ghost all = self@.qids;
        let ghost was = self@.fids;
        let mut kept: Vec<(String, u64)> = Vec::new();
        let mut n: usize = 0;
        assert(qid_views(kept@) =~= ninep_model::kept_qids(all.subrange(0, 0), path@));
        while n < self.qid_paths.len()
            invariant
                n <= self.qid_paths@.len(),
                *self == *old(self),
                all == qid_views(self.qid_paths@),
                qid_views(kept@) == ninep_model::kept_qids(all.subrange(0, n as int), path@),
            decreases self.qid_paths@.len() - n,
        {
            proof {
                let prefix = all.subrange(0, n + 1);
                assert(prefix.drop_last() =~= all.subrange(0, n as int));
                assert(prefix.last() == all[n as int]);
            }
            let ghost before = qid_views(kept@);
            if !is_beneath(path, self.qid_paths[n].0.as_str()) {
                kept.push((self.qid_paths[n].0.clone(), self.qid_paths[n].1));
                assert(qid_views(kept@) =~= before.push(all[n as int]));
            }
            n = n + 1;
        }
        assert(all.subrange(0, n as int) =~= all);
        self.qid_paths = kept;
        let mut i: usize = 0;
        while i < self.fids.len()
            invariant
                i <= self.fids@.len(),
                self.fids@.len() == was.len(),
                was == old(self)@.fids,
                quiet(*old(self), *self),
                self@ == (SessionView {
                    qids: ninep_model::kept_qids(all, path@),
                    fids: self@.fids,
                    ..old(self)@
                }),
                forall|j: int|
                    0 <= j < i ==> (#[trigger] self.fids@[j]).0 == was[j].0
                        && self.fids@[j].1.view() == ninep_model::staled(was[j].1, path@),
                forall|j: int|
                    i <= j < self.fids@.len() ==> (#[trigger] self.fids@[j]).0 == was[j].0
                        && self.fids@[j].1.view() == was[j].1,
            decreases self.fids@.len() - i,
        {
            assert(self.fids@[i as int].1.view() == was[i as int].1);
            if is_beneath(path, self.fids[i].1.path.as_str()) {
                self.fids[i].1.stale = true;
            }
            i = i + 1;
        }
        assert(self@.fids =~= ninep_model::forgotten(old(self)@, path@).fids);
    }

    /// Identities and FIDs of a renamed node follow it.
    fn rename_retained_paths(&mut self, source: &str, destination: &str)
        ensures
            quiet(*old(self), *final(self)),
            final(self)@ == ninep_model::renamed(old(self)@, source@, destination@),
    {
        let ghost model = ninep_model::renamed(self@, source@, destination@);
        let ghost all = self@.qids;
        let ghost was = self@.fids;
        let mut n: usize = 0;
        while n < self.qid_paths.len()
            invariant
                n <= self.qid_paths@.len(),
                self.qid_paths@.len() == all.len(),
                all == old(self)@.qids,
                quiet(*old(self), *self),
                self@ == (SessionView { qids: self@.qids, ..old(self)@ }),
                self.fids == old(self).fids,
                forall|j: int|
                    0 <= j < n ==> (#[trigger] self.qid_paths@[j]).0@ == ninep_model::moved(
                        all[j].0,
                        source@,
                        destination@,
                    ) && self.qid_paths@[j].1 == all[j].1,
                forall|j: int|
                    n <= j < self.qid_paths@.len() ==> (#[trigger] self.qid_paths@[j]).0@
                        == all[j].0 && self.qid_paths@[j].1 == all[j].1,
            decreases self.qid_paths@.len() - n,
        {
            assert(self.qid_paths@[n as int].0@ == all[n as int].0);
            let there = moved_path(self.qid_paths[n].0.as_str(), source, destination);
            self.qid_paths[n].0 = there;
            n = n + 1;
        }
        assert(self@.qids =~= model.qids);
        let mut i: usize = 0;
        while i < self.fids.len()
            invariant
                i <= self.fids@.len(),
                self.fids@.len() == was.len(),
                was == old(self)@.fids,
                quiet(*old(self), *self),
                self@ == (SessionView { qids: model.qids, fids: self@.fids, ..old(self)@ }),
                forall|j: int|
                    0 <= j < i ==> (#[trigger] self.fids@[j]).0 == was[j].0
                        && self.fids@[j].1.view() == (FidView {
                        path: ninep_model::moved(was[j].1.path, source@, destination@),
                        ..was[j].1
                    }),
                forall|j: int|
                    i <= j < self.fids@.len() ==> (#[trigger] self.fids@[j]).0 == was[j].0
                        && self.fids@[j].1.view() == was[j].1,
            decreases self.fids@.len() - i,
        {
            assert(self.fids@[i as int].1.view() == was[i as int].1);
            let there = moved_path(self.fids[i].1.path.as_str(), source, destination);
            self.fids[i].1.path = there;
            i = i + 1;
        }
        assert(self@.fids =~= model.fids);
    }

    // The requests.

    fn version(&mut self, body: &[u8]) -> (r: Result<Writer, Errno>)
        requires
            old(self).calls@.len() == 0,
        ensures
            went(*old(self), *final(self), r, ninep_model::version_spec(old(self)@, body@)),
    {
        let mut reader = Reader::new(body);
        let requested: u32 = reader.u32()?;
        let version = reader.string()?;
        reader.finish()?;
        if !same_text(version, "9P2000.L") {
            return Err(Errno::ProtocolNotSupported);
        }
        if (requested as usize) < MIN_MESSAGE_BYTES {
            return Err(Errno::InvalidArgument);
        }
        let size: usize = if (requested as usize) < MAX_MESSAGE_BYTES {
            requested as usize
        } else {
            MAX_MESSAGE_BYTES
        };
        self.message_size = size;
        self.fids = Vec::new();
        self.qid_paths = Vec::new();
        self.qid_paths.push((String::new(), 1));
        self.next_qid_path = 2;
        let mut reply = Writer::plain();
        reply.u32(size as u32);
        proof {
            broadcast use vstd::string::is_ascii_spec_bytes;

            reveal_strlit("9P2000.L");
            assert(vstd::string::is_ascii("9P2000.L"));
            assert("9P2000.L".spec_bytes().len() == 8);
            let root: (Seq<char>, u64) = (Seq::empty(), 1);
            assert(self.qid_paths@[0].0@ =~= Seq::<char>::empty());
            assert(self@.qids =~= seq![root]);
            assert(self@.fids =~= Seq::<(u32, FidView)>::empty());
        }
        reply.string("9P2000.L")?;
        assert(reply@ =~= bytes::le_bytes(size as nat, 4) + ninep_wire::text_bytes("9P2000.L"@));
        Ok(reply)
    }

    fn attach(&mut self, body: &[u8]) -> (r: Result<Writer, Errno>)
        requires
            old(self).calls@.len() == 0,
        ensures
            went(
                *old(self),
                *final(self),
                r,
                ninep_model::attach_spec(old(self)@, body@, answers(final(self).calls@)),
            ),
    {
        let mut reader = Reader::new(body);
        let fid: u32 = reader.u32()?;
        let afid: u32 = reader.u32()?;
        let _ = reader.string()?;
        let aname = reader.string()?;
        let _ = reader.u32()?;
        reader.finish()?;
        if afid != NOFID || !same_text(aname, self.export_name.as_str()) {
            return Err(Errno::Permission);
        }
        let root = String::new();
        assert(root@ =~= Seq::<char>::empty());
        let metadata = self.ask_metadata(root.as_str())?;
        if metadata.kind != NodeKind::Directory {
            return Err(Errno::NotDirectory);
        }
        let qid = self.qid_for(root.as_str(), &metadata)?;
        self.insert_fid(fid, Fid { path: root, open_flags: None, stale: false })?;
        let mut reply = Writer::plain();
        reply.qid(qid);
        assert(reply@ =~= ninep_wire::qid_bytes(qid));
        Ok(reply)
    }

    fn flush(&mut self, body: &[u8]) -> (r: Result<Writer, Errno>)
        requires
            old(self).calls@.len() == 0,
        ensures
            went(*old(self), *final(self), r, ninep_model::flush_spec(old(self)@, body@)),
    {
        let mut reader = Reader::new(body);
        let _ = reader.u16()?;
        reader.finish()?;
        nothing()
    }

    fn walk(&mut self, body: &[u8]) -> (r: Result<Writer, Errno>)
        requires
            old(self).calls@.len() == 0,
        ensures
            went(
                *old(self),
                *final(self),
                r,
                ninep_model::walk_spec(old(self)@, body@, answers(final(self).calls@)),
            ),
    {
        let mut reader = Reader::new(body);
        let fid: u32 = reader.u32()?;
        let new_fid: u32 = reader.u32()?;
        let count: u16 = reader.u16()?;
        if count as usize > MAX_WALK_ELEMENTS {
            return Err(Errno::InvalidArgument);
        }
        let names = read_names(&mut reader, count as usize)?;
        reader.finish()?;
        if new_fid != fid && self.fid_index(new_fid).is_some() {
            return Err(Errno::AlreadyExists);
        }
        let start = self.fid(fid)?.path.clone();
        let (path, qids) = self.follow(start, &names)?;
        let record = Fid { path, open_flags: None, stale: false };
        if new_fid == fid {
            self.replace_fid(fid, record);
        } else {
            self.insert_fid(new_fid, record)?;
        }
        let mut reply = Writer::plain();
        reply.u16(qids.len() as u16);
        push_qids(&mut reply, &qids);
        assert(reply@ =~= bytes::le_bytes(qids@.len(), 2) + ninep_model::qids_bytes(qids@));
        Ok(reply)
    }

    /// Follows the names of a walk as far as there are nodes.
    fn follow(&mut self, start: String, names: &Vec<String>) -> (r: Result<
        (String, Vec<Qid>),
        Errno,
    >)
        requires
            old(self).calls@.len() == 0,
        ensures
            linked(old(self).filesystem, final(self).calls@, final(self).filesystem),
            ({
                let w = ninep_model::walked(
                    old(self)@,
                    start@,
                    name_views(names@),
                    names@.len(),
                    answers(final(self).calls@),
                );
                &&& operations(final(self).calls@) =~= w.asked
                &&& final(self)@ == w.after
                &&& w.after.fids == old(self)@.fids
                &&& match r {
                    Ok((path, qids)) => !(w.course is Failed) && path@ == w.path && qids@ == w.qids
                        && qids@.len() <= names@.len(),
                    Err(error) => w.course == Course::Failed(error),
                }
            }),
    {
        let ghost model = name_views(names@);
        let mut path = start;
        let mut qids: Vec<Qid> = Vec::new();
        let mut i: usize = 0;
        while i < names.len()
            invariant
                i <= names@.len(),
                model == name_views(names@),
                linked(old(self).filesystem, self.calls@, self.filesystem),
                qids@.len() <= i,
                self@.fids == old(self)@.fids,
                ({
                    let w = ninep_model::walked(
                        old(self)@,
                        start@,
                        model,
                        i as nat,
                        answers(self.calls@),
                    );
                    &&& operations(self.calls@) =~= w.asked
                    &&& self@ == w.after
                    &&& path@ == w.path
                    &&& qids@ == w.qids
                    &&& w.course is Going
                }),
            decreases names@.len() - i,
        {
            let ghost calls = self.calls@;
            let ghost so_far = ninep_model::walked(
                old(self)@,
                start@,
                model,
                i as nat,
                answers(calls),
            );
            let candidate = match walk_path(path.as_str(), names[i].as_str()) {
                Ok(candidate) => candidate,
                Err(error) => {
                    proof {
                        lemma_walk_ends(
                            old(self)@,
                            start@,
                            model,
                            (i + 1) as nat,
                            names@.len(),
                            answers(calls),
                        );
                    }
                    return Err(error);
                },
            };
            let looked = self.ask_metadata(candidate.as_str());
            proof {
                assert(so_far.asked.len() == calls.len());
                lemma_walk_answers(
                    old(self)@,
                    start@,
                    model,
                    i as nat,
                    answers(calls),
                    answers(self.calls@),
                );
                assert(answers(self.calls@)[calls.len() as int] == Answer::Metadata(looked));
            }
            match looked {
                Ok(metadata) => {
                    let qid = match self.qid_for(candidate.as_str(), &metadata) {
                        Ok(qid) => qid,
                        Err(error) => {
                            proof {
                                lemma_walk_ends(
                                    old(self)@,
                                    start@,
                                    model,
                                    (i + 1) as nat,
                                    names@.len(),
                                    answers(self.calls@),
                                );
                            }
                            return Err(error);
                        },
                    };
                    path = candidate;
                    qids.push(qid);
                },
                Err(error) => {
                    proof {
                        lemma_walk_ends(
                            old(self)@,
                            start@,
                            model,
                            (i + 1) as nat,
                            names@.len(),
                            answers(self.calls@),
                        );
                    }
                    if qids.len() == 0 {
                        return Err(error);
                    }
                    return Ok((path, qids));
                },
            }
            i = i + 1;
        }
        Ok((path, qids))
    }

    fn open(&mut self, body: &[u8]) -> (r: Result<Writer, Errno>)
        requires
            old(self).calls@.len() == 0,
        ensures
            went(
                *old(self),
                *final(self),
                r,
                ninep_model::open_spec(old(self)@, body@, answers(final(self).calls@)),
            ),
    {
        let mut reader = Reader::new(body);
        let fid: u32 = reader.u32()?;
        let flags: u32 = reader.u32()?;
        reader.finish()?;
        let record = self.fid(fid)?;
        if record.open_flags.is_some() {
            return Err(Errno::InvalidArgument);
        }
        let path = record.path.clone();
        let mut metadata = self.ask_metadata(path.as_str())?;
        let access: u32 = flags & OPEN_ACCESS_MASK;
        if metadata.kind == NodeKind::Directory {
            if access == OPEN_WRITE_ONLY || access == OPEN_READ_WRITE {
                return Err(Errno::IsDirectory);
            }
        } else if flags & OPEN_TRUNCATE != 0 {
            if access == 0 {
                return Err(Errno::Permission);
            }
            self.ask_set_len(path.as_str(), 0)?;
            metadata = self.ask_metadata(path.as_str())?;
        }
        self.hold(fid, path, flags, &metadata)
    }

    /// The end of a successful open.
    fn hold(&mut self, fid: u32, path: String, flags: u32, metadata: &Metadata) -> (r: Result<
        Writer,
        Errno,
    >)
        requires
            ninep_model::find_fid(old(self)@.fids, fid) is Some,
        ensures
            quiet(*old(self), *final(self)),
            ({
                let t = ninep_model::opened(
                    old(self)@,
                    Seq::empty(),
                    fid,
                    ninep_model::fresh_record(path@),
                    flags,
                    *metadata,
                );
                &&& final(self)@ == t.after
                &&& match (r, t.reply) {
                    (Ok(body), Ok(model)) => body@ == model,
                    (Err(error), Err(model)) => error == model,
                    _ => false,
                }
            }),
    {
        self.replace_fid(fid, Fid { path: path.clone(), open_flags: Some(flags), stale: false });
        let qid = self.qid_for(path.as_str(), metadata)?;
        let mut reply = Writer::plain();
        reply.qid(qid);
        reply.u32(0);
        assert(reply@ =~= ninep_wire::qid_bytes(qid) + bytes::le_bytes(0, 4));
        Ok(reply)
    }

    fn create(&mut self, body: &[u8]) -> (r: Result<Writer, Errno>)
        requires
            old(self).calls@.len() == 0,
        ensures
            went(
                *old(self),
                *final(self),
                r,
                ninep_model::create_spec(old(self)@, body@, answers(final(self).calls@)),
            ),
    {
        let mut reader = Reader::new(body);
        let fid: u32 = reader.u32()?;
        let name = reader.string()?;
        let flags: u32 = reader.u32()?;
        let mode: u32 = reader.u32()?;
        let _ = reader.u32()?;
        reader.finish()?;
        let parent = self.fid(fid)?.path.clone();
        let metadata = self.ask_metadata(parent.as_str())?;
        if metadata.kind != NodeKind::Directory {
            return Err(Errno::NotDirectory);
        }
        let path = child_path(parent.as_str(), name)?;
        self.ask_create_file(
            path.as_str(),
            mode,
            flags & OPEN_EXCLUSIVE != 0,
            flags & OPEN_TRUNCATE != 0,
        )?;
        let made = self.ask_metadata(path.as_str())?;
        self.hold(fid, path, flags, &made)
    }

    fn read(&mut self, body: &[u8]) -> (r: Result<Writer, Errno>)
        requires
            old(self).wf(),
            old(self).calls@.len() == 0,
        ensures
            went(
                *old(self),
                *final(self),
                r,
                ninep_model::read_spec(old(self)@, body@, answers(final(self).calls@)),
            ),
    {
        let mut reader = Reader::new(body);
        let fid: u32 = reader.u32()?;
        let offset: u64 = reader.u64()?;
        let requested: u32 = reader.u32()?;
        reader.finish()?;
        let record = self.fid(fid)?;
        let flags: u32 = match record.open_flags {
            Some(flags) => flags,
            None => {
                return Err(Errno::BadFileDescriptor);
            },
        };
        if flags & OPEN_ACCESS_MASK == OPEN_WRITE_ONLY {
            return Err(Errno::BadFileDescriptor);
        }
        let path = record.path.clone();
        let metadata = self.ask_metadata(path.as_str())?;
        if metadata.kind == NodeKind::Directory {
            return Err(Errno::IsDirectory);
        }
        let maximum: usize = self.payload_limit(requested);
        let data = self.ask_read(path.as_str(), offset, maximum as u32)?;
        if data.len() > maximum {
            return Err(Errno::Io);
        }
        let mut reply = Writer::plain();
        reply.bytes_with_u32_len(data.as_slice())?;
        assert(reply@ =~= ninep_model::counted_bytes(data@));
        Ok(reply)
    }

    fn payload_limit(&self, requested: u32) -> (r: usize)
        requires
            self.wf(),
        ensures
            r == ninep_model::payload_limit(self@, requested),
            r <= u32::MAX,
    {
        let room: usize = self.message_size - (HEADER_BYTES + 4);
        if room < requested as usize {
            room
        } else {
            requested as usize
        }
    }

    fn write(&mut self, body: &[u8]) -> (r: Result<Writer, Errno>)
        requires
            old(self).calls@.len() == 0,
        ensures
            went(
                *old(self),
                *final(self),
                r,
                ninep_model::write_spec(old(self)@, body@, answers(final(self).calls@)),
            ),
    {
        let mut reader = Reader::new(body);
        let fid: u32 = reader.u32()?;
        let offset: u64 = reader.u64()?;
        let count: u32 = reader.u32()?;
        let data = reader.bytes(count as usize)?;
        reader.finish()?;
        let record = self.fid(fid)?;
        let flags: u32 = match record.open_flags {
            Some(flags) => flags,
            None => {
                return Err(Errno::BadFileDescriptor);
            },
        };
        if flags & OPEN_ACCESS_MASK == 0 {
            return Err(Errno::BadFileDescriptor);
        }
        let path = record.path.clone();
        let metadata = self.ask_metadata(path.as_str())?;
        if metadata.kind == NodeKind::Directory {
            return Err(Errno::IsDirectory);
        }
        let written: u32 = self.ask_write(path.as_str(), offset, data)?;
        if written as usize > data.len() {
            return Err(Errno::Io);
        }
        let mut reply = Writer::plain();
        reply.u32(written);
        assert(reply@ =~= bytes::le_bytes(written as nat, 4));
        Ok(reply)
    }

    fn clunk(&mut self, body: &[u8]) -> (r: Result<Writer, Errno>)
        requires
            old(self).calls@.len() == 0,
        ensures
            went(*old(self), *final(self), r, ninep_model::clunk_spec(old(self)@, body@)),
    {
        let mut reader = Reader::new(body);
        let fid: u32 = reader.u32()?;
        reader.finish()?;
        match self.fid_index(fid) {
            None => Err(Errno::BadFileDescriptor),
            Some(i) => {
                let _ = self.fids.remove(i);
                assert(self@.fids =~= old(self)@.fids.remove(i as int));
                nothing()
            },
        }
    }

    fn remove(&mut self, body: &[u8]) -> (r: Result<Writer, Errno>)
        requires
            old(self).calls@.len() == 0,
        ensures
            went(
                *old(self),
                *final(self),
                r,
                ninep_model::remove_spec(old(self)@, body@, answers(final(self).calls@)),
            ),
    {
        let mut reader = Reader::new(body);
        let fid: u32 = reader.u32()?;
        reader.finish()?;
        let i: usize = match self.fid_index(fid) {
            Some(i) => i,
            None => {
                return Err(Errno::BadFileDescriptor);
            },
        };
        let (_, record) = self.fids.remove(i);
        assert(self@.fids =~= old(self)@.fids.remove(i as int));
        let path = record.path;
        if chars_of(path.as_str()).len() == 0 {
            return Err(Errno::Permission);
        }
        let metadata = self.ask_metadata(path.as_str())?;
        self.ask_remove(path.as_str(), metadata.kind == NodeKind::Directory)?;
        self.forget_qid_path(path.as_str());
        nothing()
    }

    fn getattr(&mut self, body: &[u8]) -> (r: Result<Writer, Errno>)
        requires
            old(self).calls@.len() == 0,
        ensures
            went(
                *old(self),
                *final(self),
                r,
                ninep_model::getattr_spec(old(self)@, body@, answers(final(self).calls@)),
            ),
    {
        let mut reader = Reader::new(body);
        let fid: u32 = reader.u32()?;
        let _ = reader.u64()?;
        reader.finish()?;
        let path = self.fid(fid)?.path.clone();
        let metadata = self.ask_metadata(path.as_str())?;
        let qid = self.qid_for(path.as_str(), &metadata)?;
        Ok(attributes(qid, &metadata))
    }

    fn setattr(&mut self, body: &[u8]) -> (r: Result<Writer, Errno>)
        requires
            old(self).calls@.len() == 0,
        ensures
            went(
                *old(self),
                *final(self),
                r,
                ninep_model::setattr_spec(old(self)@, body@, answers(final(self).calls@)),
            ),
    {
        let mut reader = Reader::new(body);
        let fid: u32 = reader.u32()?;
        let valid: u32 = reader.u32()?;
        let _ = reader.bytes(12)?;
        let size: u64 = reader.u64()?;
        let _ = reader.bytes(32)?;
        reader.finish()?;
        if valid & !ATTR_SIZE != 0 {
            return Err(Errno::NotSupported);
        }
        let path = self.fid(fid)?.path.clone();
        if valid & ATTR_SIZE != 0 {
            self.ask_set_len(path.as_str(), size)?;
        }
        nothing()
    }

    fn statfs(&mut self, body: &[u8]) -> (r: Result<Writer, Errno>)
        requires
            old(self).calls@.len() == 0,
        ensures
            went(
                *old(self),
                *final(self),
                r,
                ninep_model::statfs_spec(old(self)@, body@, answers(final(self).calls@)),
            ),
    {
        let mut reader = Reader::new(body);
        let fid: u32 = reader.u32()?;
        let _ = self.fid(fid)?;
        reader.finish()?;
        let stats = self.ask_statfs()?;
        Ok(capacity(&stats))
    }

    fn readdir(&mut self, body: &[u8]) -> (r: Result<Writer, Errno>)
        requires
            old(self).wf(),
            old(self).calls@.len() == 0,
        ensures
            went(
                *old(self),
                *final(self),
                r,
                ninep_model::readdir_spec(old(self)@, body@, answers(final(self).calls@)),
            ),
    {
        let mut reader = Reader::new(body);
        let fid: u32 = reader.u32()?;
        let offset: u64 = reader.u64()?;
        if offset > usize::MAX as u64 {
            return Err(Errno::InvalidArgument);
        }
        let requested: u32 = reader.u32()?;
        reader.finish()?;
        let record = self.fid(fid)?;
        if record.open_flags.is_none() {
            return Err(Errno::BadFileDescriptor);
        }
        let path = record.path.clone();
        let metadata = self.ask_metadata(path.as_str())?;
        if metadata.kind != NodeKind::Directory {
            return Err(Errno::NotDirectory);
        }
        let entries = self.ask_read_dir(path.as_str())?;
        let maximum: usize = self.payload_limit(requested);
        self.list(path.as_str(), &entries, offset as usize, maximum)
    }

    /// The reply to a listing that the filesystem gave.
    fn list(&mut self, path: &str, entries: &Vec<DirectoryEntry>, offset: usize, maximum: usize) -> (
    r: Result<Writer, Errno>)
        requires
            maximum <= u32::MAX,
        ensures
            quiet(*old(self), *final(self)),
            ({
                let (after, reply) = ninep_model::listing_reply(
                    old(self)@,
                    path@,
                    ninep::entry_views(entries@),
                    offset as u64,
                    maximum as int,
                );
                &&& final(self)@ == after
                &&& match (r, reply) {
                    (Ok(body), Ok(model)) => body@ == model,
                    (Err(error), Err(model)) => error == model,
                    _ => false,
                }
            }),
    {
        assert(ninep::entry_views(entries@).len() == entries@.len());
        if entries.len() > MAX_DIRECTORY_ENTRIES {
            return Err(Errno::NoSpace);
        }
        let ordered = sort_entries(entries);
        let ghost model = ninep::entry_views(ordered@);
        proof {
            lemma_sorted_len(ninep::entry_views(entries@));
        }
        validate_entries(&ordered)?;
        let encoded = self.fill(path, &ordered, offset, maximum)?;
        let mut reply = Writer::plain();
        reply.bytes_with_u32_len(encoded.bytes.as_slice())?;
        assert(reply@ =~= ninep_model::counted_bytes(encoded@));
        Ok(reply)
    }

    /// As many entries as fit, from an offset on.
    fn fill(
        &mut self,
        path: &str,
        ordered: &Vec<DirectoryEntry>,
        offset: usize,
        maximum: usize,
    ) -> (r: Result<Writer, Errno>)
        requires
            ordered@.len() <= MAX_DIRECTORY_ENTRIES,
            ninep_model::listing_refusal(ninep::entry_views(ordered@)) is None,
        ensures
            quiet(*old(self), *final(self)),
            ({
                let l = ninep_model::listed(
                    old(self)@,
                    path@,
                    ninep::entry_views(ordered@),
                    offset as nat,
                    rest(ordered@.len(), offset),
                    maximum as int,
                );
                &&& final(self)@ == l.after
                &&& match r {
                    Ok(encoded) => encoded@ == l.encoded && encoded@.len() <= maximum && !(
                    l.course is Failed),
                    Err(error) => l.course == Course::Failed(error),
                }
            }),
    {
        let ghost model = ninep::entry_views(ordered@);
        let ghost start = self@;
        let ghost count = rest(ordered@.len(), offset);
        let mut encoded = Writer::plain();
        let mut done: usize = 0;
        let total: usize = if offset < ordered.len() {
            ordered.len() - offset
        } else {
            0
        };
        while done < total
            invariant
                done <= total,
                total == count,
                count == rest(ordered@.len(), offset),
                start == old(self)@,
                model == ninep::entry_views(ordered@),
                ordered@.len() <= MAX_DIRECTORY_ENTRIES,
                encoded@.len() <= maximum,
                ninep_model::listing_refusal(model) is None,
                quiet(*old(self), *self),
                ninep_model::listed(
                    start,
                    path@,
                    model,
                    offset as nat,
                    done as nat,
                    maximum as int,
                ) == (Listed { after: self@, encoded: encoded@, course: Course::Going }),
            decreases total - done,
        {
            let index: usize = offset + done;
            proof {
                assert(model[index as int] == ordered@[index as int]@);
                lemma_listing_names(model, index as int);
            }
            let candidate = match self.entry(path, &ordered[index], index) {
                Ok(candidate) => candidate,
                Err(error) => {
                    proof {
                        lemma_listing_ends(
                            start,
                            path@,
                            model,
                            offset as nat,
                            (done + 1) as nat,
                            count,
                            maximum as int,
                        );
                    }
                    return Err(error);
                },
            };
            if candidate.len() > maximum || encoded.len() > maximum - candidate.len() {
                proof {
                    lemma_listing_ends(
                        start,
                        path@,
                        model,
                        offset as nat,
                        (done + 1) as nat,
                        count,
                        maximum as int,
                    );
                }
                return Ok(encoded);
            }
            encoded.extend(candidate.bytes.as_slice());
            done = done + 1;
        }
        Ok(encoded)
    }

    /// One entry of a directory reply.
    fn entry(&mut self, path: &str, entry: &DirectoryEntry, index: usize) -> (r: Result<
        Writer,
        Errno,
    >)
        requires
            index < usize::MAX,
            vstd::utf8::encode_utf8(entry.name@).len() <= MAX_NAME_BYTES,
        ensures
            quiet(*old(self), *final(self)),
            ({
                let (after, qid) = ninep_model::qid_spec(
                    old(self)@,
                    ninep_model::child(path@, entry.name@),
                    entry.metadata,
                );
                &&& final(self)@ == after
                &&& match (r, qid) {
                    (Ok(bytes), Ok(qid)) => bytes@ == ninep_model::entry_bytes(
                        qid,
                        index as int,
                        entry@,
                    ),
                    (Err(error), Err(model)) => error == model,
                    _ => false,
                }
            }),
    {
        let child = join(path, entry.name.as_str());
        let metadata: Metadata = entry.metadata;
        let qid = self.qid_for(child.as_str(), &metadata)?;
        let mut candidate = Writer::plain();
        candidate.qid(qid);
        candidate.u64((index + 1) as u64);
        candidate.u8(
            match metadata.kind {
                NodeKind::Directory => DT_DIRECTORY,
                NodeKind::File => DT_REGULAR,
            },
        );
        candidate.string(entry.name.as_str())?;
        assert(candidate@ =~= ninep_model::entry_bytes(qid, index as int, entry@));
        Ok(candidate)
    }

    fn fsync(&mut self, body: &[u8]) -> (r: Result<Writer, Errno>)
        requires
            old(self).calls@.len() == 0,
        ensures
            went(
                *old(self),
                *final(self),
                r,
                ninep_model::fsync_spec(old(self)@, body@, answers(final(self).calls@)),
            ),
    {
        let mut reader = Reader::new(body);
        let fid: u32 = reader.u32()?;
        let data_only: u32 = reader.u32()?;
        reader.finish()?;
        let record = self.fid(fid)?;
        if record.open_flags.is_none() {
            return Err(Errno::BadFileDescriptor);
        }
        let path = record.path.clone();
        self.ask_sync(path.as_str(), data_only != 0)?;
        nothing()
    }

    fn mkdir(&mut self, body: &[u8]) -> (r: Result<Writer, Errno>)
        requires
            old(self).calls@.len() == 0,
        ensures
            went(
                *old(self),
                *final(self),
                r,
                ninep_model::mkdir_spec(old(self)@, body@, answers(final(self).calls@)),
            ),
    {
        let mut reader = Reader::new(body);
        let fid: u32 = reader.u32()?;
        let name = reader.string()?;
        let mode: u32 = reader.u32()?;
        let _ = reader.u32()?;
        reader.finish()?;
        let parent = self.fid(fid)?.path.clone();
        let metadata = self.ask_metadata(parent.as_str())?;
        if metadata.kind != NodeKind::Directory {
            return Err(Errno::NotDirectory);
        }
        let path = child_path(parent.as_str(), name)?;
        self.ask_create_dir(path.as_str(), mode)?;
        let made = self.ask_metadata(path.as_str())?;
        let qid = self.qid_for(path.as_str(), &made)?;
        let mut reply = Writer::plain();
        reply.qid(qid);
        assert(reply@ =~= ninep_wire::qid_bytes(qid));
        Ok(reply)
    }

    fn renameat(&mut self, body: &[u8]) -> (r: Result<Writer, Errno>)
        requires
            old(self).calls@.len() == 0,
        ensures
            went(
                *old(self),
                *final(self),
                r,
                ninep_model::renameat_spec(old(self)@, body@, answers(final(self).calls@)),
            ),
    {
        let mut reader = Reader::new(body);
        let old_fid: u32 = reader.u32()?;
        let old_directory = self.fid(old_fid)?.path.clone();
        let old_name = reader.string()?;
        let new_fid: u32 = reader.u32()?;
        let new_directory = self.fid(new_fid)?.path.clone();
        let new_name = reader.string()?;
        reader.finish()?;
        let source = child_path(old_directory.as_str(), old_name)?;
        let destination = child_path(new_directory.as_str(), new_name)?;
        if source == destination {
            return nothing();
        }
        self.ask_rename(source.as_str(), destination.as_str())?;
        // A backend may atomically replace the destination. Path-backed FIDs
        // to that prior node must become stale rather than silently retargeting
        // to the renamed source.
        self.forget_qid_path(destination.as_str());
        self.rename_retained_paths(source.as_str(), destination.as_str());
        nothing()
    }

    fn unlinkat(&mut self, body: &[u8]) -> (r: Result<Writer, Errno>)
        requires
            old(self).calls@.len() == 0,
        ensures
            went(
                *old(self),
                *final(self),
                r,
                ninep_model::unlinkat_spec(old(self)@, body@, answers(final(self).calls@)),
            ),
    {
        let mut reader = Reader::new(body);
        let fid: u32 = reader.u32()?;
        let directory = self.fid(fid)?.path.clone();
        let name = reader.string()?;
        let flags: u32 = reader.u32()?;
        reader.finish()?;
        if flags & !AT_REMOVE_DIR != 0 {
            return Err(Errno::InvalidArgument);
        }
        let path = child_path(directory.as_str(), name)?;
        self.ask_remove(path.as_str(), flags & AT_REMOVE_DIR != 0)?;
        self.forget_qid_path(path.as_str());
        nothing()
    }
}

fn read_tag(request: &[u8]) -> (r: u16)
    requires
        request@.len() >= HEADER_BYTES,
    ensures
        r == ninep_model::request_tag(request@),
{
    proof {
        bytes::lemma_le_value_bound(request@.subrange(5, 7));
        bytes::lemma_limits();
    }
    bytes::read_le(request, 5, 2) as u16
}

fn error_response(tag: u16, errno: Errno) -> (r: Vec<u8>)
    ensures
        r@ == ninep_wire::message(RLERROR, tag, bytes::le_bytes(errno.number() as nat, 4)),
{
    let mut response: Vec<u8> = Vec::new();
    bytes::push_le(&mut response, 11, 4);
    response.push(RLERROR);
    bytes::push_le(&mut response, tag as u64, 2);
    bytes::push_le(&mut response, errno.code() as u64, 4);
    proof {
        let body = bytes::le_bytes(errno.number() as nat, 4);
        bytes::lemma_le_bytes_len(errno.number() as nat, 4);
        assert(response@ =~= ninep_wire::message(RLERROR, tag, body));
    }
    response
}

/// Appends some 64-bit numbers.
fn push_u64s(out: &mut Writer, values: &[u64])
    ensures
        final(out)@ == old(out)@ + ninep_model::u64s(values@),
{
    let ghost start = out@;
    let mut i: usize = 0;
    assert(out@ =~= start + ninep_model::u64s(values@.subrange(0, 0)));
    while i < values.len()
        invariant
            i <= values@.len(),
            out@ == start + ninep_model::u64s(values@.subrange(0, i as int)),
        decreases values@.len() - i,
    {
        let ghost before = out@;
        out.u64(values[i]);
        proof {
            let prefix = values@.subrange(0, i + 1);
            assert(prefix.drop_last() =~= values@.subrange(0, i as int));
            assert(prefix.last() == values@[i as int]);
            assert(out@ =~= start + ninep_model::u64s(prefix));
        }
        i = i + 1;
    }
    assert(values@.subrange(0, i as int) =~= values@);
}

fn attributes(qid: Qid, metadata: &Metadata) -> (r: Writer)
    ensures
        r@ == ninep_model::attribute_bytes(qid, *metadata),
{
    let mut reply = Writer::plain();
    reply.u64(STATS_BASIC);
    reply.qid(qid);
    reply.u32(protocol_mode(metadata));
    reply.u32(1000);
    reply.u32(1000);
    let links: u64 = if metadata.kind == NodeKind::Directory {
        2
    } else {
        1
    };
    let blocks: u64 = metadata.len / 512 + if metadata.len % 512 == 0 {
        0
    } else {
        1
    };
    let modified: u64 = metadata.modified_seconds;
    let values: [u64; 15] = [
        links,
        0,
        metadata.len,
        4096,
        blocks,
        modified,
        0,
        modified,
        0,
        modified,
        0,
        0,
        0,
        metadata.generation,
        metadata.generation,
    ];
    push_u64s(&mut reply, &values);
    proof {
        assert(values@ =~= ninep_model::attribute_values(*metadata));
        assert(reply@ =~= ninep_model::attribute_bytes(qid, *metadata));
    }
    reply
}

fn capacity(stats: &FileSystemStats) -> (r: Writer)
    ensures
        r@ == ninep_model::stats_bytes(*stats),
{
    let mut reply = Writer::plain();
    reply.u32(STATFS_TYPE);
    reply.u32(stats.block_size);
    let values: [u64; 6] = [
        stats.blocks,
        stats.blocks_free,
        stats.blocks_available,
        stats.files,
        stats.files_free,
        1,
    ];
    push_u64s(&mut reply, &values);
    reply.u32(MAX_NAME_BYTES as u32);
    proof {
        assert(values@ =~= seq![
            stats.blocks,
            stats.blocks_free,
            stats.blocks_available,
            stats.files,
            stats.files_free,
            1,
        ]);
        assert(reply@ =~= ninep_model::stats_bytes(*stats));
    }
    reply
}

pub open spec fn name_views(names: Seq<String>) -> Seq<Seq<char>> {
    Seq::new(names.len(), |i: int| names[i]@)
}

fn read_names(reader: &mut Reader, count: usize) -> (r: Result<Vec<String>, Errno>)
    requires
        old(reader).wf(),
    ensures
        final(reader).bytes == old(reader).bytes,
        final(reader).wf(),
        match (
            r,
            ninep_model::names_at(
                old(reader).bytes@,
                old(reader).offset as int,
                count as nat,
            ),
        ) {
            (Ok(names), Ok((model, next))) => name_views(names@) == model && final(reader).offset
                == next && names@.len() == count,
            (Err(error), Err(model)) => error == model,
            _ => false,
        },
{
    let ghost body = reader.bytes@;
    let ghost at = reader.offset as int;
    let mut names: Vec<String> = Vec::new();
    let mut i: usize = 0;
    assert(name_views(names@) =~= Seq::<Seq<char>>::empty());
    while i < count
        invariant
            i <= count,
            names@.len() == i,
            reader.wf(),
            reader.bytes == old(reader).bytes,
            body == old(reader).bytes@,
            at == old(reader).offset,
            ninep_model::names_at(body, at, i as nat) == Ok::<_, Errno>(
                (name_views(names@), reader.offset as int),
            ),
        decreases count - i,
    {
        let ghost before = name_views(names@);
        match reader.string() {
            Ok(name) => {
                names.push(name.to_owned());
                assert(name_views(names@) =~= before.push(name@));
            },
            Err(error) => {
                proof {
                    lemma_names_end(body, at, (i + 1) as nat, count as nat, error);
                }
                return Err(error);
            },
        }
        i = i + 1;
    }
    Ok(names)
}

/// Once a name is malformed, so is every list that goes on beyond it.
proof fn lemma_names_end(body: Seq<u8>, at: int, first: nat, count: nat, error: Errno)
    requires
        first <= count,
        ninep_model::names_at(body, at, first) == Err::<(Seq<Seq<char>>, int), Errno>(error),
    ensures
        ninep_model::names_at(body, at, count) == Err::<(Seq<Seq<char>>, int), Errno>(error),
    decreases count,
{
    if first < count {
        lemma_names_end(body, at, first, (count - 1) as nat, error);
    }
}

/// A walk that came to its end stays there.
proof fn lemma_walk_ends(
    s: SessionView,
    path: Seq<char>,
    names: Seq<Seq<char>>,
    first: nat,
    count: nat,
    answers: Seq<Answer>,
)
    requires
        first <= count,
        !(ninep_model::walked(s, path, names, first, answers).course is Going),
    ensures
        ninep_model::walked(s, path, names, count, answers) == ninep_model::walked(
            s,
            path,
            names,
            first,
            answers,
        ),
    decreases count,
{
    if first < count {
        lemma_walk_ends(s, path, names, first, (count - 1) as nat, answers);
    }
}

/// A walk depends on the answers to its own questions only.
proof fn lemma_walk_answers(
    s: SessionView,
    path: Seq<char>,
    names: Seq<Seq<char>>,
    count: nat,
    short: Seq<Answer>,
    long: Seq<Answer>,
)
    requires
        ninep_model::walked(s, path, names, count, short).asked.len() <= short.len(),
        short.len() <= long.len(),
        forall|i: int| 0 <= i < short.len() ==> short[i] == long[i],
    ensures
        ninep_model::walked(s, path, names, count, long) == ninep_model::walked(
            s,
            path,
            names,
            count,
            short,
        ),
        count > 0 ==> ninep_model::walked(s, path, names, (count - 1) as nat, short).asked.len()
            <= ninep_model::walked(s, path, names, count, short).asked.len(),
    decreases count,
{
    if count > 0 {
        let w = ninep_model::walked(s, path, names, (count - 1) as nat, short);
        assert(w.asked.len() <= ninep_model::walked(s, path, names, count, short).asked.len());
        lemma_walk_answers(s, path, names, (count - 1) as nat, short, long);
    }
}

fn push_qids(out: &mut Writer, qids: &Vec<Qid>)
    ensures
        final(out)@ == old(out)@ + ninep_model::qids_bytes(qids@),
{
    let ghost start = out@;
    let mut i: usize = 0;
    assert(out@ =~= start + ninep_model::qids_bytes(qids@.subrange(0, 0)));
    while i < qids.len()
        invariant
            i <= qids@.len(),
            out@ == start + ninep_model::qids_bytes(qids@.subrange(0, i as int)),
        decreases qids@.len() - i,
    {
        out.qid(qids[i]);
        proof {
            let prefix = qids@.subrange(0, i + 1);
            assert(prefix.drop_last() =~= qids@.subrange(0, i as int));
            assert(prefix.last() == qids@[i as int]);
            assert(out@ =~= start + ninep_model::qids_bytes(prefix));
        }
        i = i + 1;
    }
    assert(qids@.subrange(0, i as int) =~= qids@);
}

fn validate_entries(entries: &Vec<DirectoryEntry>) -> (r: Result<(), Errno>)
    ensures
        match ninep_model::listing_refusal(ninep::entry_views(entries@)) {
            Some(error) => r == Err::<(), Errno>(error),
            None => r is Ok,
        },
{
    let ghost all = ninep::entry_views(entries@);
    let mut i: usize = 0;
    while i < entries.len()
        invariant
            i <= entries@.len(),
            all == ninep::entry_views(entries@),
            ninep_model::listing_refusal(all.subrange(0, i as int)) is None,
        decreases entries@.len() - i,
    {
        proof {
            let prefix = all.subrange(0, i + 1);
            assert(prefix.drop_last() =~= all.subrange(0, i as int));
            assert(prefix.last() == all[i as int]);
        }
        match validate_name(entries[i].name.as_str()) {
            Ok(_) => {},
            Err(error) => {
                proof {
                    lemma_refusal_stays(all, i + 1, error);
                }
                return Err(error);
            },
        }
        i = i + 1;
    }
    assert(all.subrange(0, i as int) =~= all);
    Ok(())
}

proof fn lemma_refusal_stays(entries: Seq<EntryView>, n: int, error: Errno)
    requires
        0 <= n <= entries.len(),
        ninep_model::listing_refusal(entries.subrange(0, n)) == Some(error),
    ensures
        ninep_model::listing_refusal(entries) == Some(error),
    decreases entries.len(),
{
    if n == entries.len() {
        assert(entries.subrange(0, n) =~= entries);
    } else {
        assert(entries.drop_last().subrange(0, n) =~= entries.subrange(0, n));
        lemma_refusal_stays(entries.drop_last(), n, error);
    }
}

/// Every name of a listing that is not refused is short.
proof fn lemma_listing_names(entries: Seq<EntryView>, i: int)
    requires
        ninep_model::listing_refusal(entries) is None,
        0 <= i < entries.len(),
    ensures
        ninep_model::name_refusal(entries[i].name) is None,
        vstd::utf8::encode_utf8(entries[i].name).len() <= MAX_NAME_BYTES,
    decreases entries.len(),
{
    if i < entries.len() - 1 {
        lemma_listing_names(entries.drop_last(), i);
    }
}

proof fn lemma_sorted_len(entries: Seq<EntryView>)
    ensures
        ninep_model::sorted(entries).len() == entries.len(),
    decreases entries.len(),
{
    if entries.len() > 0 {
        let front = ninep_model::sorted(entries.drop_last());
        lemma_sorted_len(entries.drop_last());
        ninep_laws::lemma_slot_bound(front, entries.last());
    }
}

/// Number of entries from an offset on.
pub open spec fn rest(length: nat, offset: usize) -> nat {
    if offset < length {
        (length - offset) as nat
    } else {
        0
    }
}

/// A listing that came to its end stays there.
proof fn lemma_listing_ends(
    s: SessionView,
    path: Seq<char>,
    entries: Seq<EntryView>,
    offset: nat,
    first: nat,
    count: nat,
    maximum: int,
)
    requires
        first <= count,
        !(ninep_model::listed(s, path, entries, offset, first, maximum).course is Going),
    ensures
        ninep_model::listed(s, path, entries, offset, count, maximum) == ninep_model::listed(
            s,
            path,
            entries,
            offset,
            first,
            maximum,
        ),
    decreases count,
{
    if first < count {
        lemma_listing_ends(s, path, entries, offset, first, (count - 1) as nat, maximum);
    }
}

} // verus!
