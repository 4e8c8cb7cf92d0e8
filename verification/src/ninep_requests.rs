//! What each request asks of the filesystem and answers its client, told from
//! the fields of its message.

use crate::bits;
use crate::bytes;
use crate::ninep;
use crate::ninep::{Answer, Errno, Metadata, NodeKind, Operation, HEADER_BYTES, NOTAG};
use crate::ninep_laws;
use crate::ninep_model;
use crate::ninep_model::{FidView, SessionView, Turn};
use crate::ninep_wire;
use vstd::prelude::*;

verus! {

// Messages.

/// A field of four bytes, the lowest first.
pub open spec fn word(value: u32) -> Seq<u8> {
    bytes::le_bytes(value as nat, 4)
}

pub open spec fn long(value: u64) -> Seq<u8> {
    bytes::le_bytes(value as nat, 8)
}

/// What a session does with a message of a type.
pub open spec fn served(
    s: SessionView,
    message_type: u8,
    tag: u16,
    body: Seq<u8>,
    answers: Seq<Answer>,
) -> Turn {
    ninep_model::request_spec(s, ninep_wire::message(message_type, tag, body), answers)
}

/// A message that its session takes: it fits the negotiated size.
pub open spec fn fits(s: SessionView, body: Seq<u8>) -> bool {
    ninep_model::session_sound(s) && 7 + body.len() <= s.message_size
}

proof fn lemma_message(s: SessionView, message_type: u8, tag: u16, body: Seq<u8>)
    requires
        fits(s, body),
        message_type == ninep::TVERSION ==> tag == NOTAG,
    ensures
        ({
            let request = ninep_wire::message(message_type, tag, body);
            &&& ninep_model::header_refusal(s, request) is None
            &&& request[4] == message_type
            &&& request.skip(HEADER_BYTES as int) == body
            &&& ninep_model::request_tag(request) == tag
        }),
{
    let request = ninep_wire::message(message_type, tag, body);
    let size = (HEADER_BYTES + body.len()) as nat;
    bytes::lemma_limits();
    bytes::le_value_of_bytes(size, 4);
    bytes::le_value_of_bytes(tag as nat, 2);
    assert(request.len() == size);
    assert(request.subrange(0, 4) =~= bytes::le_bytes(size, 4));
    assert(request.subrange(5, 7) =~= bytes::le_bytes(tag as nat, 2));
    assert(request.skip(7) =~= body);
}

/// The fields that stand at some place.
proof fn lemma_word_at(body: Seq<u8>, before: Seq<u8>, value: u32, after: Seq<u8>)
    requires
        body == before + word(value) + after,
        body.len() <= 0x1_0000,
    ensures
        ninep_wire::u32_at(body, before.len() as int) == Ok::<(u32, int), Errno>(
            (value, before.len() as int + 4),
        ),
{
    bytes::lemma_limits();
    bytes::le_value_of_bytes(value as nat, 4);
    assert(body.subrange(before.len() as int, before.len() as int + 4) =~= word(value));
}

proof fn lemma_long_at(body: Seq<u8>, before: Seq<u8>, value: u64, after: Seq<u8>)
    requires
        body == before + long(value) + after,
        body.len() <= 0x1_0000,
    ensures
        ninep_wire::u64_at(body, before.len() as int) == Ok::<(u64, int), Errno>(
            (value, before.len() as int + 8),
        ),
{
    bytes::lemma_limits();
    bytes::le_value_of_bytes(value as nat, 8);
    assert(body.subrange(before.len() as int, before.len() as int + 8) =~= long(value));
}

proof fn lemma_text_at(body: Seq<u8>, before: Seq<u8>, text: Seq<char>, after: Seq<u8>)
    requires
        body == before + ninep_wire::text_bytes(text) + after,
        body.len() <= 0x1_0000,
        vstd::utf8::encode_utf8(text).len() <= u16::MAX,
    ensures
        ninep_wire::text_at(body, before.len() as int) == Ok::<(Seq<char>, int), Errno>(
            (text, (before.len() + ninep_wire::text_bytes(text).len()) as int),
        ),
        ninep_wire::text_bytes(text).len() == 2 + vstd::utf8::encode_utf8(text).len(),
{
    bytes::lemma_le_bytes_len(vstd::utf8::encode_utf8(text).len(), 2);
    ninep_wire::text_reads_back(before, text, after);
}

// FIDs.

/// A FID stands for a path.
pub open spec fn stands_for(s: SessionView, fid: u32, path: Seq<char>) -> bool {
    ninep_model::fid_spec(s, fid) matches Ok(record) && record.path == path
}

/// A FID stands for a path and was opened with some flags.
pub open spec fn opened(s: SessionView, fid: u32, path: Seq<char>, flags: u32) -> bool {
    ninep_model::fid_spec(s, fid) matches Ok(record) && record.path == path && record.open_flags
        == Some(flags)
}

/// The lowest two bits of the flags say what a FID was opened for: nothing but
/// reading is zero, nothing but writing is one.
pub open spec fn reads(flags: u32) -> bool {
    flags % 4 != 1
}

pub open spec fn writes(flags: u32) -> bool {
    flags % 4 != 0
}

proof fn lemma_flags(flags: u32)
    ensures
        flags & ninep::OPEN_ACCESS_MASK == flags % 4,
{
    bits::lemma_word_masks(flags);
}

// Reading and writing.

pub open spec fn read_body(fid: u32, offset: u64, count: u32) -> Seq<u8> {
    word(fid) + long(offset) + word(count)
}

proof fn lemma_read_body(fid: u32, offset: u64, count: u32)
    ensures
        read_body(fid, offset, count).len() == 16,
        ninep_model::read_fields(read_body(fid, offset, count)) == Ok::<(u32, u64, u32), Errno>(
            (fid, offset, count),
        ),
{
    let body = read_body(fid, offset, count);
    bytes::lemma_le_bytes_len(fid as nat, 4);
    bytes::lemma_le_bytes_len(offset as nat, 8);
    bytes::lemma_le_bytes_len(count as nat, 4);
    assert(body =~= Seq::<u8>::empty() + word(fid) + (long(offset) + word(count)));
    lemma_word_at(body, Seq::empty(), fid, long(offset) + word(count));
    lemma_long_at(body, word(fid), offset, word(count));
    assert(body =~= (word(fid) + long(offset)) + word(count) + Seq::<u8>::empty());
    lemma_word_at(body, word(fid) + long(offset), count, Seq::empty());
}

/// A read asks for the bytes of the message: from its offset, at most as many as
/// it says and as a reply can hold. What comes back is the data of the reply. A
/// FID that is not open for reading is refused without asking.
pub proof fn reads_ask_for_the_range_of_the_message(
    s: SessionView,
    tag: u16,
    fid: u32,
    path: Seq<char>,
    flags: u32,
    offset: u64,
    count: u32,
    answers: Seq<Answer>,
)
    requires
        ninep_model::session_sound(s),
        opened(s, fid, path, flags),
    ensures
        ({
            let t = served(s, ninep::TREAD, tag, read_body(fid, offset, count), answers);
            let most = if count <= s.message_size - 11 {
                count as int
            } else {
                s.message_size - 11
            };
            &&& t.after == s
            &&& !reads(flags) ==> t.asked.len() == 0 && t.reply == Err::<Seq<u8>, Errno>(
                Errno::BadFileDescriptor,
            )
            &&& reads(flags) ==> match answers[0]->Metadata_0 {
                Err(error) => t.asked == seq![Operation::Metadata(path)] && t.reply == Err::<
                    Seq<u8>,
                    Errno,
                >(error),
                Ok(metadata) => if metadata.kind == NodeKind::Directory {
                    t.reply == Err::<Seq<u8>, Errno>(Errno::IsDirectory)
                } else {
                    &&& t.asked == seq![
                        Operation::Metadata(path),
                        Operation::Read(path, offset, most as u32),
                    ]
                    &&& match answers[1]->Bytes_0 {
                        Err(error) => t.reply == Err::<Seq<u8>, Errno>(error),
                        Ok(data) => data.len() <= most ==> t.reply == Ok::<Seq<u8>, Errno>(
                            word(data.len() as u32) + data,
                        ),
                    }
                },
            }
        }),
{
    let body = read_body(fid, offset, count);
    reveal(ninep_model::dispatch_spec);
    lemma_read_body(fid, offset, count);
    lemma_message(s, ninep::TREAD, tag, body);
    lemma_flags(flags);
    let t = ninep_model::read_spec(s, body, answers);
    assert(ninep_model::dispatch_spec(s, ninep::TREAD, body, answers) == t);
    if let Ok(reply) = t.reply {
        let data = (answers[1]->Bytes_0)->Ok_0;
        bytes::lemma_le_bytes_len(data.len(), 4);
    }
    let looked = seq![Operation::Metadata(path)];
    assert(looked.push(
        Operation::Read(path, offset, ninep_model::payload_limit(s, count) as u32),
    ) =~= seq![
        Operation::Metadata(path),
        Operation::Read(path, offset, ninep_model::payload_limit(s, count) as u32),
    ]);
}

pub open spec fn write_body(fid: u32, offset: u64, data: Seq<u8>) -> Seq<u8> {
    word(fid) + long(offset) + word(data.len() as u32) + data
}

proof fn lemma_write_body(fid: u32, offset: u64, data: Seq<u8>)
    requires
        data.len() <= 0xfff0,
    ensures
        write_body(fid, offset, data).len() == 16 + data.len(),
        ninep_model::write_fields(write_body(fid, offset, data)) == Ok::<
            (u32, u64, Seq<u8>),
            Errno,
        >((fid, offset, data)),
{
    let body = write_body(fid, offset, data);
    let count = data.len() as u32;
    bytes::lemma_le_bytes_len(fid as nat, 4);
    bytes::lemma_le_bytes_len(offset as nat, 8);
    bytes::lemma_le_bytes_len(count as nat, 4);
    assert(body =~= Seq::<u8>::empty() + word(fid) + (long(offset) + word(count) + data));
    lemma_word_at(body, Seq::empty(), fid, long(offset) + word(count) + data);
    assert(body =~= word(fid) + long(offset) + (word(count) + data));
    lemma_long_at(body, word(fid), offset, word(count) + data);
    assert(body =~= (word(fid) + long(offset)) + word(count) + data);
    lemma_word_at(body, word(fid) + long(offset), count, data);
    assert(body.subrange(16, 16 + data.len() as int) =~= data);
}

/// A write asks to store the bytes of the message at its offset, and answers how
/// many were. A FID that is not open for writing is refused without asking.
pub proof fn writes_ask_to_store_the_data_of_the_message(
    s: SessionView,
    tag: u16,
    fid: u32,
    path: Seq<char>,
    flags: u32,
    offset: u64,
    data: Seq<u8>,
    answers: Seq<Answer>,
)
    requires
        ninep_model::session_sound(s),
        23 + data.len() <= s.message_size,
        opened(s, fid, path, flags),
    ensures
        ({
            let t = served(s, ninep::TWRITE, tag, write_body(fid, offset, data), answers);
            &&& t.after == s
            &&& !writes(flags) ==> t.asked.len() == 0 && t.reply == Err::<Seq<u8>, Errno>(
                Errno::BadFileDescriptor,
            )
            &&& writes(flags) ==> match answers[0]->Metadata_0 {
                Err(error) => t.asked == seq![Operation::Metadata(path)] && t.reply == Err::<
                    Seq<u8>,
                    Errno,
                >(error),
                Ok(metadata) => if metadata.kind == NodeKind::Directory {
                    t.reply == Err::<Seq<u8>, Errno>(Errno::IsDirectory)
                } else {
                    &&& t.asked == seq![
                        Operation::Metadata(path),
                        Operation::Write(path, offset, data),
                    ]
                    &&& match answers[1]->Count_0 {
                        Err(error) => t.reply == Err::<Seq<u8>, Errno>(error),
                        Ok(written) => written <= data.len() ==> t.reply == Ok::<Seq<u8>, Errno>(
                            word(written),
                        ),
                    }
                },
            }
        }),
{
    let body = write_body(fid, offset, data);
    reveal(ninep_model::dispatch_spec);
    lemma_write_body(fid, offset, data);
    lemma_message(s, ninep::TWRITE, tag, body);
    lemma_flags(flags);
    let t = ninep_model::write_spec(s, body, answers);
    assert(ninep_model::dispatch_spec(s, ninep::TWRITE, body, answers) == t);
    if let Ok(reply) = t.reply {
        bytes::lemma_le_bytes_len((answers[1]->Count_0)->Ok_0 as nat, 4);
    }
    let looked = seq![Operation::Metadata(path)];
    assert(looked.push(Operation::Write(path, offset, data)) =~= seq![
        Operation::Metadata(path),
        Operation::Write(path, offset, data),
    ]);
}

// A filesystem of byte strings.

/// The bytes of a file from an offset on, at most so many.
pub open spec fn read_from(content: Seq<u8>, offset: int, count: int) -> Seq<u8> {
    let from = if offset < content.len() {
        offset
    } else {
        content.len() as int
    };
    let upto = if from + count < content.len() {
        from + count
    } else {
        content.len() as int
    };
    content.subrange(from, upto)
}

/// A file once bytes were put at an offset; a gap before them is zero.
pub open spec fn written_at(content: Seq<u8>, offset: int, data: Seq<u8>) -> Seq<u8> {
    let end = offset + data.len();
    Seq::new(
        if end > content.len() && data.len() > 0 {
            end as nat
        } else {
            content.len()
        },
        |i: int|
            if offset <= i < end {
                data[i - offset]
            } else if i < content.len() {
                content[i]
            } else {
                0u8
            },
    )
}

/// What the files are after an operation.
pub open spec fn performed(files: Map<Seq<char>, Seq<u8>>, operation: Operation) -> Map<
    Seq<char>,
    Seq<u8>,
> {
    match operation {
        Operation::Write(path, offset, data) => files.insert(
            path,
            written_at(files[path], offset as int, data),
        ),
        Operation::SetLen(path, len) => files.insert(
            path,
            read_from(files[path], 0, len as int) + Seq::new(
                (if len > files[path].len() {
                    len - files[path].len()
                } else {
                    0
                }) as nat,
                |i: int| 0u8,
            ),
        ),
        _ => files,
    }
}

/// What a read of the files gives.
pub open spec fn fetched(files: Map<Seq<char>, Seq<u8>>, operation: Operation) -> Seq<u8> {
    match operation {
        Operation::Read(path, offset, count) => read_from(
            files[path],
            offset as int,
            count as int,
        ),
        _ => Seq::empty(),
    }
}

/// Over files that are byte strings, the reply to a read holds the content from
/// the requested offset on.
pub proof fn reads_give_the_content_at_the_offset(
    s: SessionView,
    files: Map<Seq<char>, Seq<u8>>,
    tag: u16,
    fid: u32,
    path: Seq<char>,
    flags: u32,
    offset: u64,
    count: u32,
    metadata: Metadata,
)
    requires
        ninep_model::session_sound(s),
        opened(s, fid, path, flags),
        reads(flags),
        metadata.kind == NodeKind::File,
        count <= s.message_size - 11,
    ensures
        ({
            let body = read_body(fid, offset, count);
            let asked = served(
                s,
                ninep::TREAD,
                tag,
                body,
                seq![Answer::Metadata(Ok(metadata)), Answer::Bytes(Ok(Seq::empty()))],
            ).asked;
            let data = fetched(files, asked.last());
            let t = served(
                s,
                ninep::TREAD,
                tag,
                body,
                seq![Answer::Metadata(Ok(metadata)), Answer::Bytes(Ok(data))],
            );
            &&& t.asked == asked
            &&& t.reply == Ok::<Seq<u8>, Errno>(
                word(read_from(files[path], offset as int, count as int).len() as u32) + read_from(
                    files[path],
                    offset as int,
                    count as int,
                ),
            )
        }),
{
    let data = read_from(files[path], offset as int, count as int);
    reads_ask_for_the_range_of_the_message(
        s,
        tag,
        fid,
        path,
        flags,
        offset,
        count,
        seq![Answer::Metadata(Ok(metadata)), Answer::Bytes(Ok(Seq::empty()))],
    );
    reads_ask_for_the_range_of_the_message(
        s,
        tag,
        fid,
        path,
        flags,
        offset,
        count,
        seq![Answer::Metadata(Ok(metadata)), Answer::Bytes(Ok(data))],
    );
    let asked = seq![Operation::Metadata(path), Operation::Read(path, offset, count)];
    assert(asked.last() == Operation::Read(path, offset, count));
}

/// What was written at an offset is read back there.
pub proof fn written_bytes_are_read_back(
    s: SessionView,
    files: Map<Seq<char>, Seq<u8>>,
    tag: u16,
    fid: u32,
    path: Seq<char>,
    flags: u32,
    offset: u64,
    data: Seq<u8>,
    metadata: Metadata,
)
    requires
        ninep_model::session_sound(s),
        opened(s, fid, path, flags),
        reads(flags),
        writes(flags),
        metadata.kind == NodeKind::File,
        23 + data.len() <= s.message_size,
    ensures
        ({
            let stored = served(
                s,
                ninep::TWRITE,
                tag,
                write_body(fid, offset, data),
                seq![Answer::Metadata(Ok(metadata)), Answer::Count(Ok(data.len() as u32))],
            );
            let after = performed(files, stored.asked.last());
            let read = served(
                stored.after,
                ninep::TREAD,
                tag,
                read_body(fid, offset, data.len() as u32),
                seq![
                    Answer::Metadata(Ok(metadata)),
                    Answer::Bytes(
                        Ok(
                            fetched(
                                after,
                                Operation::Read(path, offset, data.len() as u32),
                            ),
                        ),
                    ),
                ],
            );
            &&& stored.reply == Ok::<Seq<u8>, Errno>(word(data.len() as u32))
            &&& read.asked.last() == Operation::Read(path, offset, data.len() as u32)
            &&& read.reply == Ok::<Seq<u8>, Errno>(word(data.len() as u32) + data)
        }),
{
    let answers = seq![Answer::Metadata(Ok(metadata)), Answer::Count(Ok(data.len() as u32))];
    writes_ask_to_store_the_data_of_the_message(s, tag, fid, path, flags, offset, data, answers);
    let asked = seq![Operation::Metadata(path), Operation::Write(path, offset, data)];
    assert(asked.last() == Operation::Write(path, offset, data));
    let after = performed(files, asked.last());
    let count = data.len() as u32;
    assert(read_from(after[path], offset as int, count as int) =~= data);
    let replies = seq![
        Answer::Metadata(Ok(metadata)),
        Answer::Bytes(Ok(fetched(after, Operation::Read(path, offset, count)))),
    ];
    reads_ask_for_the_range_of_the_message(s, tag, fid, path, flags, offset, count, replies);
    let wanted = seq![Operation::Metadata(path), Operation::Read(path, offset, count)];
    assert(wanted.last() == Operation::Read(path, offset, count));
}

// FIDs and nodes.

proof fn lemma_updated(fids: Seq<(u32, FidView)>, fid: u32, record: FidView)
    requires
        ninep_model::find_fid(fids, fid) is Some,
    ensures
        ({
            let i = ninep_model::find_fid(fids, fid)->Some_0;
            &&& 0 <= i < fids.len()
            &&& fids[i].0 == fid
            &&& ninep_model::find_fid(fids.update(i, (fid, record)), fid) == Some(i)
        }),
    decreases fids.len(),
{
    let i = ninep_model::find_fid(fids, fid)->Some_0;
    if fids.last().0 != fid {
        lemma_updated(fids.drop_last(), fid, record);
        assert(fids.update(i, (fid, record)).drop_last() =~= fids.drop_last().update(
            i,
            (fid, record),
        ));
    } else {
        assert(fids.update(i, (fid, record)).last() == (fid, record));
    }
}

proof fn lemma_replaced(s: SessionView, fid: u32, record: FidView)
    requires
        ninep_model::find_fid(s.fids, fid) is Some,
        !record.stale,
    ensures
        ninep_model::fid_spec(ninep_model::replaced_fid(s, fid, record), fid) == Ok::<
            FidView,
            Errno,
        >(record),
{
    lemma_updated(s.fids, fid, record);
}

proof fn lemma_inserted(s: SessionView, fid: u32, record: FidView)
    requires
        ninep_model::inserted_fid(s, fid, record) is Ok,
        !record.stale,
    ensures
        ninep_model::fid_spec(ninep_model::inserted_fid(s, fid, record)->Ok_0, fid) == Ok::<
            FidView,
            Errno,
        >(record),
{
    let after = ninep_model::inserted_fid(s, fid, record)->Ok_0;
    assert(after.fids.last() == (fid, record));
}

/// An identity message: a byte for the kind, the version and the number.
proof fn lemma_identity_len(qid: ninep::Qid)
    ensures
        ninep_wire::qid_bytes(qid).len() == 13,
{
    bytes::lemma_le_bytes_len(qid.version as nat, 4);
    bytes::lemma_le_bytes_len(qid.path as nat, 8);
}

/// An identity can be given to one more path.
pub open spec fn has_room(s: SessionView) -> bool {
    s.qids.len() < ninep::MAX_QID_PATHS && s.next_qid < u64::MAX
}

proof fn lemma_two_words(a: u32, b: u32)
    ensures
        (word(a) + word(b)).len() == 8,
        ninep_model::two_words(word(a) + word(b)) == Ok::<(u32, u32), Errno>((a, b)),
{
    let body = word(a) + word(b);
    bytes::lemma_le_bytes_len(a as nat, 4);
    bytes::lemma_le_bytes_len(b as nat, 4);
    assert(body =~= Seq::<u8>::empty() + word(a) + word(b));
    lemma_word_at(body, Seq::empty(), a, word(b));
    assert(body =~= word(a) + word(b) + Seq::<u8>::empty());
    lemma_word_at(body, word(a), b, Seq::empty());
}

/// Opening looks the node up and leaves the FID open with the flags of the
/// message. A directory is opened for reading only. Where the flags say so, a
/// file that is opened for writing is cut to nothing first.
pub proof fn opening_keeps_the_flags(
    s: SessionView,
    tag: u16,
    fid: u32,
    path: Seq<char>,
    flags: u32,
    metadata: Metadata,
)
    requires
        ninep_model::session_sound(s),
        has_room(s),
        ninep_model::fid_spec(s, fid) matches Ok(record) && record.path == path
            && record.open_flags is None,
    ensures
        ({
            let looked = Answer::Metadata(Ok::<Metadata, Errno>(metadata));
            let cuts = (flags / 0x200) % 2 == 1;
            let t = served(
                s,
                ninep::TLOPEN,
                tag,
                word(fid) + word(flags),
                seq![looked, Answer::Done(Ok(())), looked],
            );
            if metadata.kind == NodeKind::Directory {
                if flags % 4 == 1 || flags % 4 == 2 {
                    t.reply == Err::<Seq<u8>, Errno>(Errno::IsDirectory) && t.after == s
                } else {
                    t.reply is Ok && opened(t.after, fid, path, flags) && t.asked == seq![
                        Operation::Metadata(path),
                    ]
                }
            } else if !cuts {
                t.reply is Ok && opened(t.after, fid, path, flags) && t.asked == seq![
                    Operation::Metadata(path),
                ]
            } else if !writes(flags) {
                t.reply == Err::<Seq<u8>, Errno>(Errno::Permission) && t.after == s
            } else {
                t.reply is Ok && opened(t.after, fid, path, flags) && t.asked == seq![
                    Operation::Metadata(path),
                    Operation::SetLen(path, 0),
                    Operation::Metadata(path),
                ]
            }
        }),
{
    reveal(ninep_model::dispatch_spec);
    let body = word(fid) + word(flags);
    let looked = Answer::Metadata(Ok::<Metadata, Errno>(metadata));
    let answers = seq![looked, Answer::Done(Ok(())), looked];
    lemma_two_words(fid, flags);
    lemma_message(s, ninep::TLOPEN, tag, body);
    lemma_flags(flags);
    bits::lemma_word_masks(flags);
    let record = ninep_model::fid_spec(s, fid)->Ok_0;
    let held = FidView { open_flags: Some(flags), ..record };
    lemma_replaced(s, fid, held);
    let t = ninep_model::open_spec(s, body, answers);
    assert(ninep_model::dispatch_spec(s, ninep::TLOPEN, body, answers) == t);
    let after = ninep_model::replaced_fid(s, fid, held);
    let (known, qid) = ninep_model::qid_spec(after, path, metadata);
    assert(known.fids == after.fids);
    assert(qid is Ok);
    lemma_identity_len(qid->Ok_0);
    bytes::lemma_le_bytes_len(0, 4);
    let one = seq![Operation::Metadata(path)];
    assert(one.push(Operation::SetLen(path, 0)).push(Operation::Metadata(path)) =~= seq![
        Operation::Metadata(path),
        Operation::SetLen(path, 0),
        Operation::Metadata(path),
    ]);
}

/// A name that a directory can hold.
pub open spec fn plain(name: Seq<char>) -> bool {
    ninep_model::name_refusal(name) is None
}

proof fn lemma_plain(name: Seq<char>)
    requires
        plain(name),
    ensures
        vstd::utf8::encode_utf8(name).len() <= 255,
        ninep_wire::text_bytes(name).len() <= 257,
        ninep_wire::text_bytes(name).len() == 2 + vstd::utf8::encode_utf8(name).len(),
{
    bytes::lemma_le_bytes_len(vstd::utf8::encode_utf8(name).len(), 2);
}

pub open spec fn create_body(fid: u32, name: Seq<char>, flags: u32, mode: u32, group: u32) -> Seq<
    u8,
> {
    word(fid) + ninep_wire::text_bytes(name) + word(flags) + word(mode) + word(group)
}

proof fn lemma_create_body(fid: u32, name: Seq<char>, flags: u32, mode: u32, group: u32)
    requires
        plain(name),
    ensures
        create_body(fid, name, flags, mode, group).len() <= 273,
        ninep_model::create_fields(create_body(fid, name, flags, mode, group)) == Ok::<
            (u32, Seq<char>, u32, u32),
            Errno,
        >((fid, name, flags, mode)),
{
    let body = create_body(fid, name, flags, mode, group);
    let text = ninep_wire::text_bytes(name);
    lemma_plain(name);
    bytes::lemma_le_bytes_len(fid as nat, 4);
    bytes::lemma_le_bytes_len(flags as nat, 4);
    bytes::lemma_le_bytes_len(mode as nat, 4);
    bytes::lemma_le_bytes_len(group as nat, 4);
    assert(body =~= Seq::<u8>::empty() + word(fid) + (text + word(flags) + word(mode) + word(
        group,
    )));
    lemma_word_at(body, Seq::empty(), fid, text + word(flags) + word(mode) + word(group));
    assert(body =~= word(fid) + text + (word(flags) + word(mode) + word(group)));
    lemma_text_at(body, word(fid), name, word(flags) + word(mode) + word(group));
    assert(body =~= (word(fid) + text) + word(flags) + (word(mode) + word(group)));
    lemma_word_at(body, word(fid) + text, flags, word(mode) + word(group));
    lemma_word_at(body, word(fid) + text + word(flags), mode, word(group));
    assert(body =~= (word(fid) + text + word(flags) + word(mode)) + word(group)
        + Seq::<u8>::empty());
    lemma_word_at(body, word(fid) + text + word(flags) + word(mode), group, Seq::empty());
}

/// Creating makes the named file in the directory of the FID, with the mode of
/// the message, and exclusively or cut to nothing as its flags say. The FID then
/// stands for the new file, open with the flags.
pub proof fn creating_makes_the_named_file(
    s: SessionView,
    tag: u16,
    fid: u32,
    directory: Seq<char>,
    name: Seq<char>,
    flags: u32,
    mode: u32,
    group: u32,
    above: Metadata,
    made: Metadata,
)
    requires
        ninep_model::session_sound(s),
        has_room(s),
        stands_for(s, fid, directory),
        plain(name),
        above.kind == NodeKind::Directory,
    ensures
        ({
            let t = served(
                s,
                ninep::TLCREATE,
                tag,
                create_body(fid, name, flags, mode, group),
                seq![
                    Answer::Metadata(Ok::<Metadata, Errno>(above)),
                    Answer::Done(Ok(())),
                    Answer::Metadata(Ok(made)),
                ],
            );
            let path = ninep_model::child(directory, name);
            &&& t.reply is Ok
            &&& t.asked == seq![
                Operation::Metadata(directory),
                Operation::CreateFile(
                    path,
                    mode,
                    (flags / 0x80) % 2 == 1,
                    (flags / 0x200) % 2 == 1,
                ),
                Operation::Metadata(path),
            ]
            &&& opened(t.after, fid, path, flags)
        }),
{
    reveal(ninep_model::dispatch_spec);
    let body = create_body(fid, name, flags, mode, group);
    let answers = seq![
        Answer::Metadata(Ok::<Metadata, Errno>(above)),
        Answer::Done(Ok(())),
        Answer::Metadata(Ok(made)),
    ];
    lemma_create_body(fid, name, flags, mode, group);
    lemma_message(s, ninep::TLCREATE, tag, body);
    bits::lemma_word_masks(flags);
    let path = ninep_model::child(directory, name);
    let held = FidView { open_flags: Some(flags), ..ninep_model::fresh_record(path) };
    lemma_replaced(s, fid, held);
    let t = ninep_model::create_spec(s, body, answers);
    assert(ninep_model::dispatch_spec(s, ninep::TLCREATE, body, answers) == t);
    let after = ninep_model::replaced_fid(s, fid, held);
    let (known, qid) = ninep_model::qid_spec(after, path, made);
    assert(known.fids == after.fids);
    lemma_identity_len(qid->Ok_0);
    bytes::lemma_le_bytes_len(0, 4);
    let create = Operation::CreateFile(
        path,
        mode,
        (flags / 0x80) % 2 == 1,
        (flags / 0x200) % 2 == 1,
    );
    assert(seq![Operation::Metadata(directory)].push(create).push(Operation::Metadata(path))
        =~= seq![Operation::Metadata(directory), create, Operation::Metadata(path)]);
}

pub open spec fn mkdir_body(fid: u32, name: Seq<char>, mode: u32, group: u32) -> Seq<u8> {
    word(fid) + ninep_wire::text_bytes(name) + word(mode) + word(group)
}

proof fn lemma_mkdir_body(fid: u32, name: Seq<char>, mode: u32, group: u32)
    requires
        plain(name),
    ensures
        mkdir_body(fid, name, mode, group).len() <= 269,
        ninep_model::mkdir_fields(mkdir_body(fid, name, mode, group)) == Ok::<
            (u32, Seq<char>, u32),
            Errno,
        >((fid, name, mode)),
{
    let body = mkdir_body(fid, name, mode, group);
    let text = ninep_wire::text_bytes(name);
    lemma_plain(name);
    bytes::lemma_le_bytes_len(fid as nat, 4);
    bytes::lemma_le_bytes_len(mode as nat, 4);
    bytes::lemma_le_bytes_len(group as nat, 4);
    assert(body =~= Seq::<u8>::empty() + word(fid) + (text + word(mode) + word(group)));
    lemma_word_at(body, Seq::empty(), fid, text + word(mode) + word(group));
    assert(body =~= word(fid) + text + (word(mode) + word(group)));
    lemma_text_at(body, word(fid), name, word(mode) + word(group));
    lemma_word_at(body, word(fid) + text, mode, word(group));
    assert(body =~= (word(fid) + text + word(mode)) + word(group) + Seq::<u8>::empty());
    lemma_word_at(body, word(fid) + text + word(mode), group, Seq::empty());
}

/// Making a directory makes the named one in the directory of the FID.
#[verifier::rlimit(50)]
#[verifier::spinoff_prover]
pub proof fn mkdir_makes_the_named_directory(
    s: SessionView,
    tag: u16,
    fid: u32,
    directory: Seq<char>,
    name: Seq<char>,
    mode: u32,
    group: u32,
    above: Metadata,
    made: Metadata,
)
    requires
        ninep_model::session_sound(s),
        has_room(s),
        stands_for(s, fid, directory),
        plain(name),
        above.kind == NodeKind::Directory,
    ensures
        ({
            let t = served(
                s,
                ninep::TMKDIR,
                tag,
                mkdir_body(fid, name, mode, group),
                seq![
                    Answer::Metadata(Ok::<Metadata, Errno>(above)),
                    Answer::Done(Ok(())),
                    Answer::Metadata(Ok(made)),
                ],
            );
            let path = ninep_model::child(directory, name);
            &&& t.reply is Ok
            &&& t.asked == seq![
                Operation::Metadata(directory),
                Operation::CreateDir(path, mode),
                Operation::Metadata(path),
            ]
            &&& t.after.fids == s.fids
        }),
{
    reveal(ninep_model::dispatch_spec);
    let body = mkdir_body(fid, name, mode, group);
    let answers = seq![
        Answer::Metadata(Ok::<Metadata, Errno>(above)),
        Answer::Done(Ok(())),
        Answer::Metadata(Ok(made)),
    ];
    lemma_mkdir_body(fid, name, mode, group);
    lemma_message(s, ninep::TMKDIR, tag, body);
    let path = ninep_model::child(directory, name);
    let t = ninep_model::mkdir_spec(s, body, answers);
    assert(ninep_model::dispatch_spec(s, ninep::TMKDIR, body, answers) == t);
    let (known, qid) = ninep_model::qid_spec(s, path, made);
    lemma_identity_len(qid->Ok_0);
    assert(seq![Operation::Metadata(directory)].push(Operation::CreateDir(path, mode)).push(
        Operation::Metadata(path),
    ) =~= seq![
        Operation::Metadata(directory),
        Operation::CreateDir(path, mode),
        Operation::Metadata(path),
    ]);
}

pub open spec fn rename_body(from: u32, old: Seq<char>, to: u32, new: Seq<char>) -> Seq<u8> {
    word(from) + ninep_wire::text_bytes(old) + word(to) + ninep_wire::text_bytes(new)
}

/// A rename moves the first name, in the directory of the first FID, to the
/// second name in that of the second.
pub proof fn renames_go_from_the_first_to_the_second(
    s: SessionView,
    tag: u16,
    from: u32,
    source: Seq<char>,
    old_name: Seq<char>,
    to: u32,
    destination: Seq<char>,
    new_name: Seq<char>,
    answers: Seq<Answer>,
)
    requires
        ninep_model::session_sound(s),
        stands_for(s, from, source),
        stands_for(s, to, destination),
        plain(old_name),
        plain(new_name),
        ninep_model::child(source, old_name) != ninep_model::child(destination, new_name),
    ensures
        ({
            let t = served(
                s,
                ninep::TRENAMEAT,
                tag,
                rename_body(from, old_name, to, new_name),
                answers,
            );
            &&& t.asked == seq![
                Operation::Rename(
                    ninep_model::child(source, old_name),
                    ninep_model::child(destination, new_name),
                ),
            ]
            &&& match answers[0]->Done_0 {
                Ok(_) => t.reply == Ok::<Seq<u8>, Errno>(Seq::empty()),
                Err(error) => t.reply == Err::<Seq<u8>, Errno>(error) && t.after == s,
            }
        }),
{
    reveal(ninep_model::dispatch_spec);
    let body = rename_body(from, old_name, to, new_name);
    let a = ninep_wire::text_bytes(old_name);
    let b = ninep_wire::text_bytes(new_name);
    lemma_plain(old_name);
    lemma_plain(new_name);
    bytes::lemma_le_bytes_len(from as nat, 4);
    bytes::lemma_le_bytes_len(to as nat, 4);
    assert(body =~= Seq::<u8>::empty() + word(from) + (a + word(to) + b));
    lemma_word_at(body, Seq::empty(), from, a + word(to) + b);
    assert(body =~= word(from) + a + (word(to) + b));
    lemma_text_at(body, word(from), old_name, word(to) + b);
    lemma_word_at(body, word(from) + a, to, b);
    assert(body =~= (word(from) + a + word(to)) + b + Seq::<u8>::empty());
    lemma_text_at(body, word(from) + a + word(to), new_name, Seq::empty());
    lemma_message(s, ninep::TRENAMEAT, tag, body);
    let t = ninep_model::renameat_spec(s, body, answers);
    assert(ninep_model::dispatch_spec(s, ninep::TRENAMEAT, body, answers) == t);
}

pub open spec fn unlink_body(fid: u32, name: Seq<char>, flags: u32) -> Seq<u8> {
    word(fid) + ninep_wire::text_bytes(name) + word(flags)
}

/// Unlinking removes the named file of the directory, or the named directory
/// where the flags say so; other flags are refused.
pub proof fn unlinks_remove_the_named_node(
    s: SessionView,
    tag: u16,
    fid: u32,
    directory: Seq<char>,
    name: Seq<char>,
    flags: u32,
    answers: Seq<Answer>,
)
    requires
        ninep_model::session_sound(s),
        stands_for(s, fid, directory),
        plain(name),
    ensures
        ({
            let t = served(s, ninep::TUNLINKAT, tag, unlink_body(fid, name, flags), answers);
            let path = ninep_model::child(directory, name);
            if flags != 0 && flags != 0x200 {
                t.asked.len() == 0 && t.after == s && t.reply == Err::<Seq<u8>, Errno>(
                    Errno::InvalidArgument,
                )
            } else {
                &&& t.asked == seq![
                    if flags == 0 {
                        Operation::RemoveFile(path)
                    } else {
                        Operation::RemoveDir(path)
                    },
                ]
                &&& match answers[0]->Done_0 {
                    Ok(_) => t.reply == Ok::<Seq<u8>, Errno>(Seq::empty()),
                    Err(error) => t.reply == Err::<Seq<u8>, Errno>(error) && t.after == s,
                }
            }
        }),
{
    reveal(ninep_model::dispatch_spec);
    let body = unlink_body(fid, name, flags);
    let text = ninep_wire::text_bytes(name);
    lemma_plain(name);
    bytes::lemma_le_bytes_len(fid as nat, 4);
    bytes::lemma_le_bytes_len(flags as nat, 4);
    assert(body =~= Seq::<u8>::empty() + word(fid) + (text + word(flags)));
    lemma_word_at(body, Seq::empty(), fid, text + word(flags));
    lemma_text_at(body, word(fid), name, word(flags));
    assert(body =~= (word(fid) + text) + word(flags) + Seq::<u8>::empty());
    lemma_word_at(body, word(fid) + text, flags, Seq::empty());
    lemma_message(s, ninep::TUNLINKAT, tag, body);
    bits::lemma_word_masks(flags);
    let t = ninep_model::unlinkat_spec(s, body, answers);
    assert(ninep_model::dispatch_spec(s, ninep::TUNLINKAT, body, answers) == t);
}

/// A synchronisation names the file, and whether its data alone will do.
pub proof fn syncs_name_the_file(
    s: SessionView,
    tag: u16,
    fid: u32,
    path: Seq<char>,
    flags: u32,
    data_only: u32,
    answers: Seq<Answer>,
)
    requires
        ninep_model::session_sound(s),
        opened(s, fid, path, flags),
    ensures
        ({
            let t = served(s, ninep::TFSYNC, tag, word(fid) + word(data_only), answers);
            &&& t.asked == seq![Operation::Sync(path, data_only != 0)]
            &&& t.after == s
            &&& match answers[0]->Done_0 {
                Ok(_) => t.reply == Ok::<Seq<u8>, Errno>(Seq::empty()),
                Err(error) => t.reply == Err::<Seq<u8>, Errno>(error),
            }
        }),
{
    reveal(ninep_model::dispatch_spec);
    let body = word(fid) + word(data_only);
    lemma_two_words(fid, data_only);
    lemma_message(s, ninep::TFSYNC, tag, body);
    let t = ninep_model::fsync_spec(s, body, answers);
    assert(ninep_model::dispatch_spec(s, ninep::TFSYNC, body, answers) == t);
}

/// Giving a FID up makes it unknown.
pub proof fn clunked_fids_are_unknown(s: SessionView, tag: u16, fid: u32)
    requires
        ninep_model::session_sound(s),
        ninep_model::find_fid(s.fids, fid) is Some,
    ensures
        ({
            let t = served(s, ninep::TCLUNK, tag, word(fid), Seq::empty());
            &&& t.asked.len() == 0
            &&& t.reply == Ok::<Seq<u8>, Errno>(Seq::empty())
            &&& t.after.fids.len() == s.fids.len() - 1
            &&& ninep_model::fid_spec(t.after, fid) == Err::<FidView, Errno>(
                Errno::BadFileDescriptor,
            )
        }),
{
    reveal(ninep_model::dispatch_spec);
    let body = word(fid);
    bytes::lemma_le_bytes_len(fid as nat, 4);
    assert(body =~= Seq::<u8>::empty() + word(fid) + Seq::<u8>::empty());
    lemma_word_at(body, Seq::empty(), fid, Seq::empty());
    lemma_message(s, ninep::TCLUNK, tag, body);
    let t = ninep_model::clunk_spec(s, body);
    assert(ninep_model::dispatch_spec(s, ninep::TCLUNK, body, Seq::empty()) == t);
    let i = ninep_model::find_fid(s.fids, fid)->Some_0;
    lemma_updated(s.fids, fid, s.fids[i].1);
    let rest = s.fids.remove(i);
    lemma_absent(rest, fid);
    assert(ninep_model::find_fid(rest, fid) is None) by {
        assert forall|j: int| 0 <= j < rest.len() implies (#[trigger] rest[j]).0 != fid by {
            if j < i {
                assert(rest[j] == s.fids[j]);
            } else {
                assert(rest[j] == s.fids[j + 1]);
            }
        }
    }
}

proof fn lemma_absent(fids: Seq<(u32, FidView)>, fid: u32)
    ensures
        (forall|j: int| 0 <= j < fids.len() ==> (#[trigger] fids[j]).0 != fid)
            ==> ninep_model::find_fid(fids, fid) is None,
    decreases fids.len(),
{
    if fids.len() > 0 {
        lemma_absent(fids.drop_last(), fid);
        if forall|j: int| 0 <= j < fids.len() ==> (#[trigger] fids[j]).0 != fid {
            assert forall|j: int| 0 <= j < fids.drop_last().len() implies (
            #[trigger] fids.drop_last()[j]).0 != fid by {
                assert(fids.drop_last()[j] == fids[j]);
            }
            assert(fids.last().0 != fid);
        }
    }
}

pub open spec fn walk_body(fid: u32, new_fid: u32, name: Seq<char>) -> Seq<u8> {
    word(fid) + word(new_fid) + bytes::le_bytes(1, 2) + ninep_wire::text_bytes(name)
}

/// A walk of one name looks up that name in the directory of the FID, and binds
/// the new FID to it.
pub proof fn walks_bind_the_named_node(
    s: SessionView,
    tag: u16,
    fid: u32,
    new_fid: u32,
    directory: Seq<char>,
    name: Seq<char>,
    metadata: Metadata,
)
    requires
        ninep_model::session_sound(s),
        has_room(s),
        stands_for(s, fid, directory),
        plain(name),
        ninep_model::find_fid(s.fids, new_fid) is None,
        s.fids.len() < ninep::MAX_FIDS,
    ensures
        ({
            let t = served(
                s,
                ninep::TWALK,
                tag,
                walk_body(fid, new_fid, name),
                seq![Answer::Metadata(Ok::<Metadata, Errno>(metadata))],
            );
            let path = ninep_model::child(directory, name);
            &&& t.asked == seq![Operation::Metadata(path)]
            &&& t.reply is Ok
            &&& stands_for(t.after, new_fid, path)
            &&& t.after.fids.len() == s.fids.len() + 1
            &&& t.after.fids.drop_last() == s.fids
        }),
{
    reveal(ninep_model::dispatch_spec);
    let body = walk_body(fid, new_fid, name);
    let text = ninep_wire::text_bytes(name);
    let one = bytes::le_bytes(1, 2);
    let answers = seq![Answer::Metadata(Ok::<Metadata, Errno>(metadata))];
    lemma_plain(name);
    bytes::lemma_limits();
    bytes::le_value_of_bytes(1, 2);
    bytes::lemma_le_bytes_len(fid as nat, 4);
    bytes::lemma_le_bytes_len(new_fid as nat, 4);
    assert(body =~= Seq::<u8>::empty() + word(fid) + (word(new_fid) + one + text));
    lemma_word_at(body, Seq::empty(), fid, word(new_fid) + one + text);
    assert(body =~= word(fid) + word(new_fid) + (one + text));
    lemma_word_at(body, word(fid), new_fid, one + text);
    assert(body.subrange(8, 10) =~= one);
    assert(body =~= (word(fid) + word(new_fid) + one) + text + Seq::<u8>::empty());
    lemma_text_at(body, word(fid) + word(new_fid) + one, name, Seq::empty());
    reveal_with_fuel(ninep_model::names_at, 2);
    let names = Seq::<Seq<char>>::empty().push(name);
    assert(ninep_model::walk_fields(body) == Ok::<(u32, u32, Seq<Seq<char>>), Errno>(
        (fid, new_fid, names),
    ));
    lemma_message(s, ninep::TWALK, tag, body);
    reveal_with_fuel(ninep_model::walked, 2);
    let path = ninep_model::child(directory, name);
    let t = ninep_model::walk_spec(s, body, answers);
    assert(ninep_model::dispatch_spec(s, ninep::TWALK, body, answers) == t);
    let (known, qid) = ninep_model::qid_spec(s, path, metadata);
    assert(known.fids == s.fids);
    lemma_inserted(known, new_fid, ninep_model::fresh_record(path));
    assert(!(name =~= seq!['.']) && !(name =~= seq!['.', '.']));
    let w = ninep_model::walked(s, directory, names, 1, answers);
    assert(w.path == path);
    assert(w.asked =~= seq![Operation::Metadata(path)]);
    reveal_with_fuel(ninep_model::qids_bytes, 3);
    lemma_identity_len(qid->Ok_0);
    bytes::lemma_le_bytes_len(1, 2);
    assert(t.after.fids.drop_last() =~= s.fids);
}

/// The size that a client may set goes to the filesystem.
pub open spec fn setattr_body(fid: u32, valid: u32, between: Seq<u8>, size: u64, behind: Seq<u8>) -> Seq<
    u8,
> {
    word(fid) + word(valid) + between + long(size) + behind
}

/// Setting the size of a node asks for the size of the message; other
/// attributes are refused.
pub proof fn sizes_are_set_as_asked(
    s: SessionView,
    tag: u16,
    fid: u32,
    path: Seq<char>,
    between: Seq<u8>,
    size: u64,
    behind: Seq<u8>,
    answers: Seq<Answer>,
)
    requires
        ninep_model::session_sound(s),
        stands_for(s, fid, path),
        between.len() == 12,
        behind.len() == 32,
    ensures
        ({
            let t = served(
                s,
                ninep::TSETATTR,
                tag,
                setattr_body(fid, 8, between, size, behind),
                answers,
            );
            &&& t.asked == seq![Operation::SetLen(path, size)]
            &&& t.after == s
            &&& match answers[0]->Done_0 {
                Ok(_) => t.reply == Ok::<Seq<u8>, Errno>(Seq::empty()),
                Err(error) => t.reply == Err::<Seq<u8>, Errno>(error),
            }
        }),
{
    reveal(ninep_model::dispatch_spec);
    let body = setattr_body(fid, 8, between, size, behind);
    bytes::lemma_le_bytes_len(fid as nat, 4);
    bytes::lemma_le_bytes_len(8, 4);
    bytes::lemma_le_bytes_len(size as nat, 8);
    assert(body =~= Seq::<u8>::empty() + word(fid) + (word(8) + between + long(size) + behind));
    lemma_word_at(body, Seq::empty(), fid, word(8) + between + long(size) + behind);
    assert(body =~= word(fid) + word(8) + (between + long(size) + behind));
    lemma_word_at(body, word(fid), 8, between + long(size) + behind);
    lemma_long_at(body, word(fid) + word(8) + between, size, behind);
    lemma_message(s, ninep::TSETATTR, tag, body);
    bits::lemma_word_masks(8);
    let t = ninep_model::setattr_spec(s, body, answers);
    assert(ninep_model::dispatch_spec(s, ninep::TSETATTR, body, answers) == t);
}

/// The attributes of a node: its length in bytes, in half-kilobyte blocks, and
/// its time, at their places in the reply.
pub proof fn attributes_are_those_of_the_node(
    s: SessionView,
    tag: u16,
    fid: u32,
    path: Seq<char>,
    mask: u64,
    metadata: Metadata,
)
    requires
        ninep_model::session_sound(s),
        has_room(s),
        stands_for(s, fid, path),
    ensures
        ({
            let t = served(
                s,
                ninep::TGETATTR,
                tag,
                word(fid) + long(mask),
                seq![Answer::Metadata(Ok::<Metadata, Errno>(metadata))],
            );
            &&& t.asked == seq![Operation::Metadata(path)]
            &&& t.reply matches Ok(reply) && reply.len() == 153 && bytes::le_value(
                reply.subrange(49, 57),
            ) == metadata.len && bytes::le_value(reply.subrange(65, 73)) == ((metadata.len + 511)
                / 512) as int % 0x1_0000_0000_0000_0000 && bytes::le_value(reply.subrange(89, 97))
                == metadata.modified_seconds
        }),
{
    reveal(ninep_model::dispatch_spec);
    let body = word(fid) + long(mask);
    let answers = seq![Answer::Metadata(Ok::<Metadata, Errno>(metadata))];
    bytes::lemma_le_bytes_len(fid as nat, 4);
    bytes::lemma_le_bytes_len(mask as nat, 8);
    assert(body =~= Seq::<u8>::empty() + word(fid) + long(mask));
    lemma_word_at(body, Seq::empty(), fid, long(mask));
    assert(body =~= word(fid) + long(mask) + Seq::<u8>::empty());
    lemma_long_at(body, word(fid), mask, Seq::empty());
    lemma_message(s, ninep::TGETATTR, tag, body);
    let t = ninep_model::getattr_spec(s, body, answers);
    assert(ninep_model::dispatch_spec(s, ninep::TGETATTR, body, answers) == t);
    let (known, qid) = ninep_model::qid_spec(s, path, metadata);
    lemma_attributes(qid->Ok_0, metadata);
}

proof fn lemma_u64s(values: Seq<u64>, k: int)
    requires
        0 <= k < values.len(),
    ensures
        ninep_model::u64s(values).len() == 8 * values.len(),
        ninep_model::u64s(values).subrange(8 * k, 8 * k + 8) == long(values[k]),
    decreases values.len(),
{
    reveal_with_fuel(ninep_model::u64s, 2);
    let front = values.drop_last();
    bytes::lemma_le_bytes_len(values.last() as nat, 8);
    if front.len() > 0 {
        lemma_u64s(front, 0);
    }
    if k < front.len() {
        lemma_u64s(front, k);
        assert(ninep_model::u64s(values).subrange(8 * k, 8 * k + 8) =~= ninep_model::u64s(
            front,
        ).subrange(8 * k, 8 * k + 8));
    } else {
        assert(ninep_model::u64s(values).subrange(8 * k, 8 * k + 8) =~= long(values.last()));
    }
}

proof fn lemma_attributes(qid: ninep::Qid, metadata: Metadata)
    ensures
        ({
            let reply = ninep_model::attribute_bytes(qid, metadata);
            &&& reply.len() == 153
            &&& bytes::le_value(reply.subrange(49, 57)) == metadata.len
            &&& bytes::le_value(reply.subrange(65, 73)) == ((metadata.len + 511) / 512) as int
                % 0x1_0000_0000_0000_0000
            &&& bytes::le_value(reply.subrange(89, 97)) == metadata.modified_seconds
        }),
{
    let reply = ninep_model::attribute_bytes(qid, metadata);
    let values = ninep_model::attribute_values(metadata);
    let tail = ninep_model::u64s(values);
    lemma_identity_len(qid);
    bytes::lemma_limits();
    bytes::lemma_le_bytes_len(ninep::STATS_BASIC as nat, 8);
    bytes::lemma_le_bytes_len(ninep_model::mode_spec(metadata) as nat, 4);
    bytes::lemma_le_bytes_len(1000, 4);
    lemma_u64s(values, 2);
    lemma_u64s(values, 4);
    lemma_u64s(values, 7);
    assert(values.len() == 15);
    assert(reply.len() == 33 + tail.len());
    assert(reply.subrange(49, 57) =~= tail.subrange(16, 24));
    assert(reply.subrange(65, 73) =~= tail.subrange(32, 40));
    assert(reply.subrange(89, 97) =~= tail.subrange(56, 64));
    bytes::le_value_of_bytes(values[2] as nat, 8);
    bytes::le_value_of_bytes(values[4] as nat, 8);
    bytes::le_value_of_bytes(values[7] as nat, 8);
}

/// A removal takes the file or the directory away, whichever it is, and gives
/// the FID up in any case.
pub proof fn removals_take_the_node_away(
    s: SessionView,
    tag: u16,
    fid: u32,
    path: Seq<char>,
    metadata: Metadata,
)
    requires
        ninep_model::session_sound(s),
        stands_for(s, fid, path),
        path.len() > 0,
    ensures
        ({
            let t = served(
                s,
                ninep::TREMOVE,
                tag,
                word(fid),
                seq![Answer::Metadata(Ok::<Metadata, Errno>(metadata)), Answer::Done(Ok(()))],
            );
            &&& t.reply == Ok::<Seq<u8>, Errno>(Seq::empty())
            &&& t.asked == seq![
                Operation::Metadata(path),
                if metadata.kind == NodeKind::Directory {
                    Operation::RemoveDir(path)
                } else {
                    Operation::RemoveFile(path)
                },
            ]
            &&& t.after.fids.len() == s.fids.len() - 1
        }),
{
    reveal(ninep_model::dispatch_spec);
    let body = word(fid);
    let answers = seq![
        Answer::Metadata(Ok::<Metadata, Errno>(metadata)),
        Answer::Done(Ok(())),
    ];
    bytes::lemma_le_bytes_len(fid as nat, 4);
    assert(body =~= Seq::<u8>::empty() + word(fid) + Seq::<u8>::empty());
    lemma_word_at(body, Seq::empty(), fid, Seq::empty());
    lemma_message(s, ninep::TREMOVE, tag, body);
    ninep_laws::lemma_find_fid(s.fids, fid);
    let t = ninep_model::remove_spec(s, body, answers);
    assert(ninep_model::dispatch_spec(s, ninep::TREMOVE, body, answers) == t);
    assert(t.asked =~= seq![
        Operation::Metadata(path),
        if metadata.kind == NodeKind::Directory {
            Operation::RemoveDir(path)
        } else {
            Operation::RemoveFile(path)
        },
    ]);
}

/// A session agrees on the one version of the protocol, and on the smaller of
/// the size that the client offers and its own; it then knows no FID. A client
/// with another version, or with too small a size, is refused.
pub proof fn sessions_agree_on_the_smaller_size(s: SessionView, size: u32, version: Seq<char>)
    requires
        ninep_model::session_sound(s),
        vstd::utf8::encode_utf8(version).len() <= 255,
    ensures
        ({
            let body = word(size) + ninep_wire::text_bytes(version);
            let t = served(s, ninep::TVERSION, NOTAG, body, Seq::empty());
            let agreed = if size < 65536 {
                size
            } else {
                65536
            };
            &&& t.asked.len() == 0
            &&& if version != "9P2000.L"@ {
                t.after == s && t.reply == Err::<Seq<u8>, Errno>(Errno::ProtocolNotSupported)
            } else if size < 4096 {
                t.after == s && t.reply == Err::<Seq<u8>, Errno>(Errno::InvalidArgument)
            } else {
                &&& t.reply == Ok::<Seq<u8>, Errno>(word(agreed) + ninep_wire::text_bytes(version))
                &&& t.after.message_size == agreed
                &&& t.after.fids.len() == 0
            }
        }),
{
    reveal(ninep_model::dispatch_spec);
    let text = ninep_wire::text_bytes(version);
    let body = word(size) + text;
    bytes::lemma_le_bytes_len(size as nat, 4);
    bytes::lemma_le_bytes_len(65536, 4);
    bytes::lemma_le_bytes_len(vstd::utf8::encode_utf8(version).len(), 2);
    assert(body =~= Seq::<u8>::empty() + word(size) + text);
    lemma_word_at(body, Seq::empty(), size, text);
    assert(body =~= word(size) + text + Seq::<u8>::empty());
    lemma_text_at(body, word(size), version, Seq::empty());
    lemma_message(s, ninep::TVERSION, NOTAG, body);
    let t = ninep_model::version_spec(s, body);
    assert(ninep_model::dispatch_spec(s, ninep::TVERSION, body, Seq::empty()) == t);
}

/// The numbers of a filesystem, at their places in the reply: the size of a
/// block, then the blocks, the free ones, those that can be had, the files and
/// the free ones of them.
pub proof fn filesystem_numbers_are_passed_on(
    s: SessionView,
    tag: u16,
    fid: u32,
    path: Seq<char>,
    stats: ninep::FileSystemStats,
)
    requires
        ninep_model::session_sound(s),
        stands_for(s, fid, path),
    ensures
        ({
            let t = served(
                s,
                ninep::TSTATFS,
                tag,
                word(fid),
                seq![Answer::Stats(Ok::<ninep::FileSystemStats, Errno>(stats))],
            );
            &&& t.asked == seq![Operation::StatFs]
            &&& t.after == s
            &&& t.reply matches Ok(reply) && bytes::le_value(reply.subrange(4, 8))
                == stats.block_size && bytes::le_value(reply.subrange(8, 16)) == stats.blocks
                && bytes::le_value(reply.subrange(16, 24)) == stats.blocks_free && bytes::le_value(
                reply.subrange(24, 32),
            ) == stats.blocks_available && bytes::le_value(reply.subrange(32, 40)) == stats.files
                && bytes::le_value(reply.subrange(40, 48)) == stats.files_free
        }),
{
    reveal(ninep_model::dispatch_spec);
    let body = word(fid);
    let answers = seq![Answer::Stats(Ok::<ninep::FileSystemStats, Errno>(stats))];
    bytes::lemma_le_bytes_len(fid as nat, 4);
    assert(body =~= Seq::<u8>::empty() + word(fid) + Seq::<u8>::empty());
    lemma_word_at(body, Seq::empty(), fid, Seq::empty());
    lemma_message(s, ninep::TSTATFS, tag, body);
    let t = ninep_model::statfs_spec(s, body, answers);
    assert(ninep_model::dispatch_spec(s, ninep::TSTATFS, body, answers) == t);
    lemma_stats(stats);
}

proof fn lemma_stats(stats: ninep::FileSystemStats)
    ensures
        ({
            let reply = ninep_model::stats_bytes(stats);
            &&& reply.len() == 60
            &&& bytes::le_value(reply.subrange(4, 8)) == stats.block_size
            &&& bytes::le_value(reply.subrange(8, 16)) == stats.blocks
            &&& bytes::le_value(reply.subrange(16, 24)) == stats.blocks_free
            &&& bytes::le_value(reply.subrange(24, 32)) == stats.blocks_available
            &&& bytes::le_value(reply.subrange(32, 40)) == stats.files
            &&& bytes::le_value(reply.subrange(40, 48)) == stats.files_free
        }),
{
    let values = seq![
        stats.blocks,
        stats.blocks_free,
        stats.blocks_available,
        stats.files,
        stats.files_free,
        1u64,
    ];
    let reply = ninep_model::stats_bytes(stats);
    let middle = ninep_model::u64s(values);
    bytes::lemma_limits();
    bytes::le_value_of_bytes(stats.block_size as nat, 4);
    bytes::lemma_le_bytes_len(ninep::STATFS_TYPE as nat, 4);
    bytes::lemma_le_bytes_len(ninep::MAX_NAME_BYTES as nat, 4);
    assert(values.len() == 6);
    lemma_u64s(values, 0);
    lemma_u64s(values, 1);
    lemma_u64s(values, 2);
    lemma_u64s(values, 3);
    lemma_u64s(values, 4);
    assert(reply.subrange(4, 8) =~= word(stats.block_size));
    assert(reply.subrange(8, 16) =~= middle.subrange(0, 8));
    assert(reply.subrange(16, 24) =~= middle.subrange(8, 16));
    assert(reply.subrange(24, 32) =~= middle.subrange(16, 24));
    assert(reply.subrange(32, 40) =~= middle.subrange(24, 32));
    assert(reply.subrange(40, 48) =~= middle.subrange(32, 40));
    bytes::le_value_of_bytes(stats.blocks as nat, 8);
    bytes::le_value_of_bytes(stats.blocks_free as nat, 8);
    bytes::le_value_of_bytes(stats.blocks_available as nat, 8);
    bytes::le_value_of_bytes(stats.files as nat, 8);
    bytes::le_value_of_bytes(stats.files_free as nat, 8);
}

} // verus!
