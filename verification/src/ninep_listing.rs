//! Directory listings read reply by reply.

use crate::bytes;
use crate::ninep::{
    Answer, EntryView, Errno, Metadata, NodeKind, Operation, Qid, HEADER_BYTES,
    MAX_DIRECTORY_ENTRIES, MAX_QID_PATHS, TREADDIR,
};
use crate::ninep_laws;
use crate::ninep_model;
use crate::ninep_model::SessionView;
use crate::ninep_wire;
use vstd::prelude::*;

verus! {

/// Bytes that the longest entry of a listing takes: an identity of thirteen, a
/// cookie of eight, a kind, and a name behind its length.
pub const LONGEST_ENTRY_BYTES: usize = 279;

/// The identities that a listing of `count` entries from `offset` on gives out,
/// one for each entry that it holds.
pub open spec fn identities(
    s: SessionView,
    path: Seq<char>,
    entries: Seq<EntryView>,
    offset: nat,
    count: nat,
    maximum: int,
) -> Seq<Qid>
    decreases count,
{
    if count == 0 {
        Seq::empty()
    } else {
        let front = identities(s, path, entries, offset, (count - 1) as nat, maximum);
        let l = ninep_model::listed(s, path, entries, offset, (count - 1) as nat, maximum);
        let index = offset + count - 1;
        let entry = entries[index];
        match ninep_model::qid_spec(
            l.after,
            ninep_model::child(path, entry.name),
            entry.metadata,
        ).1 {
            Ok(qid) => if l.course is Going && l.encoded.len() + ninep_model::entry_bytes(
                qid,
                index,
                entry,
            ).len() <= maximum {
                front.push(qid)
            } else {
                front
            },
            Err(_) => front,
        }
    }
}

/// The entries from `offset` on, one for each identity. The entry at place `i`
/// of the directory carries the cookie `i + 1`.
pub open spec fn page(entries: Seq<EntryView>, qids: Seq<Qid>, offset: nat) -> Seq<u8>
    decreases qids.len(),
{
    if qids.len() == 0 {
        Seq::empty()
    } else {
        let index = offset + qids.len() - 1;
        page(entries, qids.drop_last(), offset) + ninep_model::entry_bytes(
            qids.last(),
            index,
            entries[index],
        )
    }
}

/// How many of the entries from `from` on have no identity yet.
pub open spec fn unknown(
    qids: Seq<(Seq<char>, u64)>,
    path: Seq<char>,
    entries: Seq<EntryView>,
    from: nat,
) -> nat
    decreases entries.len() - from,
{
    if from >= entries.len() {
        0
    } else {
        let rest = unknown(qids, path, entries, from + 1);
        if ninep_model::find_qid(
            qids,
            ninep_model::child(path, entries[from as int].name),
        ) is None {
            rest + 1
        } else {
            rest
        }
    }
}

/// The identity table has room for the entries from `from` on.
pub open spec fn room(
    s: SessionView,
    path: Seq<char>,
    entries: Seq<EntryView>,
    from: nat,
) -> bool {
    &&& s.qids.len() + unknown(s.qids, path, entries, from) <= MAX_QID_PATHS
    &&& s.next_qid + unknown(s.qids, path, entries, from) <= u64::MAX
}

proof fn lemma_more_known(
    qids: Seq<(Seq<char>, u64)>,
    known: (Seq<char>, u64),
    path: Seq<char>,
    entries: Seq<EntryView>,
    from: nat,
)
    ensures
        unknown(qids.push(known), path, entries, from) <= unknown(qids, path, entries, from),
    decreases entries.len() - from,
{
    if from < entries.len() {
        lemma_more_known(qids, known, path, entries, from + 1);
        assert(qids.push(known).drop_last() =~= qids);
    }
}

proof fn lemma_entry_len(qid: Qid, index: int, entry: EntryView)
    requires
        ninep_model::name_refusal(entry.name) is None,
    ensures
        ninep_model::entry_bytes(qid, index, entry).len() <= LONGEST_ENTRY_BYTES,
{
    bytes::lemma_le_bytes_len(qid.version as nat, 4);
    bytes::lemma_le_bytes_len(qid.path as nat, 8);
    bytes::lemma_le_bytes_len((index + 1) as nat, 8);
    bytes::lemma_le_bytes_len(vstd::utf8::encode_utf8(entry.name).len(), 2);
}

proof fn lemma_names(entries: Seq<EntryView>)
    requires
        ninep_model::listing_refusal(entries) is None,
    ensures
        forall|i: int|
            0 <= i < entries.len() ==> ninep_model::name_refusal(
                (#[trigger] entries[i]).name,
            ) is None,
    decreases entries.len(),
{
    if entries.len() > 0 {
        lemma_names(entries.drop_last());
        assert forall|i: int| 0 <= i < entries.len() implies ninep_model::name_refusal(
            (#[trigger] entries[i]).name,
        ) is None by {
            if i < entries.len() - 1 {
                assert(entries.drop_last()[i] == entries[i]);
            }
        }
    }
}

/// A listing holds the entries from `offset` on, whole and in order, as many as
/// fit, and at least one where there is one.
proof fn lemma_listed(
    s: SessionView,
    path: Seq<char>,
    entries: Seq<EntryView>,
    offset: nat,
    count: nat,
    maximum: int,
)
    requires
        offset + count <= entries.len(),
        LONGEST_ENTRY_BYTES <= maximum,
        room(s, path, entries, offset),
        forall|i: int|
            0 <= i < entries.len() ==> ninep_model::name_refusal(
                (#[trigger] entries[i]).name,
            ) is None,
    ensures
        ({
            let l = ninep_model::listed(s, path, entries, offset, count, maximum);
            let qids = identities(s, path, entries, offset, count, maximum);
            &&& !(l.course is Failed)
            &&& l.encoded == page(entries, qids, offset)
            &&& l.encoded.len() <= maximum
            &&& l.course is Going ==> qids.len() == count
            &&& l.course is Stopped ==> qids.len() < count
            &&& count > 0 ==> qids.len() > 0
            &&& room(l.after, path, entries, offset + qids.len())
        }),
    decreases count,
{
    if count > 0 {
        lemma_listed(s, path, entries, offset, (count - 1) as nat, maximum);
        let l = ninep_model::listed(s, path, entries, offset, (count - 1) as nat, maximum);
        let front = identities(s, path, entries, offset, (count - 1) as nat, maximum);
        if l.course is Going {
            let index = offset + count - 1;
            let entry = entries[index];
            let target = ninep_model::child(path, entry.name);
            let (after, qid) = ninep_model::qid_spec(l.after, target, entry.metadata);
            assert(unknown(l.after.qids, path, entries, index as nat) == unknown(
                l.after.qids,
                path,
                entries,
                (index + 1) as nat,
            ) + if ninep_model::find_qid(l.after.qids, target) is None {
                1nat
            } else {
                0nat
            });
            if ninep_model::find_qid(l.after.qids, target) is None {
                let known = (target, l.after.next_qid);
                lemma_more_known(l.after.qids, known, path, entries, (index + 1) as nat);
                assert(l.after.qids.push(known).last().0 == target);
                assert(unknown(l.after.qids.push(known), path, entries, index as nat) == unknown(
                    l.after.qids.push(known),
                    path,
                    entries,
                    (index + 1) as nat,
                ));
            }
            assert(qid is Ok);
            lemma_entry_len(qid->Ok_0, index, entry);
            assert(front.push(qid->Ok_0).drop_last() =~= front);
        }
    }
}

/// The names at the places from `from` up to `upto`.
pub open spec fn names(entries: Seq<EntryView>, from: nat, upto: nat) -> Seq<Seq<char>> {
    Seq::new((upto - from) as nat, |i: int| entries[from + i].name)
}

/// A directory that can be listed: its names are names, there are not too many
/// of them, and the identity table has room for them.
pub open spec fn listable(
    s: SessionView,
    path: Seq<char>,
    entries: Seq<EntryView>,
    offset: nat,
) -> bool {
    &&& entries.len() <= MAX_DIRECTORY_ENTRIES
    &&& ninep_model::listing_refusal(ninep_model::sorted(entries)) is None
    &&& room(s, path, ninep_model::sorted(entries), offset)
}

/// The identities in the reply for `offset`.
pub open spec fn replied(
    s: SessionView,
    path: Seq<char>,
    entries: Seq<EntryView>,
    offset: nat,
    maximum: int,
) -> Seq<Qid> {
    let ordered = ninep_model::sorted(entries);
    let count = if offset < ordered.len() {
        (ordered.len() - offset) as nat
    } else {
        0
    };
    identities(s, path, ordered, offset, count, maximum)
}

/// A reply to a listing holds whole entries, from its offset on in name order,
/// in no more bytes than were asked for; it is empty only behind the last entry.
pub proof fn replies_hold_whole_entries(
    s: SessionView,
    path: Seq<char>,
    entries: Seq<EntryView>,
    offset: u64,
    maximum: int,
)
    requires
        listable(s, path, entries, offset as nat),
        LONGEST_ENTRY_BYTES <= maximum,
    ensures
        ({
            let ordered = ninep_model::sorted(entries);
            let qids = replied(s, path, entries, offset as nat, maximum);
            let (after, reply) = ninep_model::listing_reply(s, path, entries, offset, maximum);
            &&& reply == Ok::<Seq<u8>, Errno>(
                ninep_model::counted_bytes(page(ordered, qids, offset as nat)),
            )
            &&& page(ordered, qids, offset as nat).len() <= maximum
            &&& qids.len() == 0 <==> offset >= ordered.len()
            &&& qids.len() > 0 ==> offset + qids.len() <= ordered.len()
            &&& listable(after, path, entries, offset as nat + qids.len())
        }),
{
    lemma_sorted_len(entries);
    let ordered = ninep_model::sorted(entries);
    lemma_names(ordered);
    let count = if offset < ordered.len() {
        (ordered.len() - offset) as nat
    } else {
        0
    };
    if offset < ordered.len() {
        lemma_listed(s, path, ordered, offset as nat, count, maximum);
    }
}

/// A request for as many bytes as the longest entry takes is granted them.
pub proof fn the_longest_entry_is_granted(s: SessionView, requested: u32)
    requires
        ninep_model::session_sound(s),
        LONGEST_ENTRY_BYTES <= requested,
    ensures
        LONGEST_ENTRY_BYTES <= ninep_model::payload_limit(s, requested),
{
}

proof fn lemma_sorted_len(entries: Seq<EntryView>)
    ensures
        ninep_model::sorted(entries).len() == entries.len(),
    decreases entries.len(),
{
    if entries.len() > 0 {
        lemma_sorted_len(entries.drop_last());
        ninep_laws::lemma_slot_bound(
            ninep_model::sorted(entries.drop_last()),
            entries.last(),
        );
    }
}

/// A message that asks for the entries of an open directory from a cookie on.
pub open spec fn readdir_request(tag: u16, fid: u32, offset: u64, requested: u32) -> Seq<u8> {
    ninep_wire::message(
        TREADDIR,
        tag,
        bytes::le_bytes(fid as nat, 4) + bytes::le_bytes(offset as nat, 8) + bytes::le_bytes(
            requested as nat,
            4,
        ),
    )
}

/// The file is a directory with these entries.
pub open spec fn listing_answers(metadata: Metadata, entries: Seq<EntryView>) -> Seq<Answer> {
    seq![Answer::Metadata(Ok(metadata)), Answer::Entries(Ok(entries))]
}

/// A FID stands for a path, and is open.
pub open spec fn opened(s: SessionView, fid: u32, path: Seq<char>) -> bool {
    ninep_model::fid_spec(s, fid) matches Ok(record) && record.path == path
        && record.open_flags is Some
}

proof fn lemma_readdir_fields(fid: u32, offset: u64, requested: u32)
    requires
        offset <= usize::MAX,
    ensures
        ({
            let body = bytes::le_bytes(fid as nat, 4) + bytes::le_bytes(offset as nat, 8)
                + bytes::le_bytes(requested as nat, 4);
            &&& body.len() == 16
            &&& ninep_model::readdir_fields(body) == Ok::<(u32, u64, u32), Errno>(
                (fid, offset, requested),
            )
        }),
{
    bytes::lemma_limits();
    bytes::le_value_of_bytes(fid as nat, 4);
    bytes::le_value_of_bytes(offset as nat, 8);
    bytes::le_value_of_bytes(requested as nat, 4);
    let body = bytes::le_bytes(fid as nat, 4) + bytes::le_bytes(offset as nat, 8)
        + bytes::le_bytes(requested as nat, 4);
    assert(body.subrange(0, 4) =~= bytes::le_bytes(fid as nat, 4));
    assert(body.subrange(4, 12) =~= bytes::le_bytes(offset as nat, 8));
    assert(body.subrange(12, 16) =~= bytes::le_bytes(requested as nat, 4));
}

/// Listing changes the identity table only.
proof fn lemma_listed_keeps(
    s: SessionView,
    path: Seq<char>,
    entries: Seq<EntryView>,
    offset: nat,
    count: nat,
    maximum: int,
)
    ensures
        ninep_model::listed(s, path, entries, offset, count, maximum).after.fids == s.fids,
        ninep_model::listed(s, path, entries, offset, count, maximum).after.message_size
            == s.message_size,
    decreases count,
{
    if count > 0 {
        lemma_listed_keeps(s, path, entries, offset, (count - 1) as nat, maximum);
    }
}

/// A request for the entries of an open directory asks the filesystem for its
/// kind and its entries, and is answered with the listing of what came back.
pub proof fn readdir_requests_are_answered_with_the_listing(
    s: SessionView,
    path: Seq<char>,
    metadata: Metadata,
    entries: Seq<EntryView>,
    tag: u16,
    fid: u32,
    offset: u64,
    requested: u32,
)
    requires
        ninep_model::session_sound(s),
        opened(s, fid, path),
        metadata.kind == NodeKind::Directory,
        listable(s, path, entries, offset as nat),
        offset <= usize::MAX,
        LONGEST_ENTRY_BYTES <= requested,
    ensures
        ({
            let t = ninep_model::request_spec(
                s,
                readdir_request(tag, fid, offset, requested),
                listing_answers(metadata, entries),
            );
            let maximum = ninep_model::payload_limit(s, requested);
            let ordered = ninep_model::sorted(entries);
            let qids = replied(s, path, entries, offset as nat, maximum);
            &&& t.asked == seq![Operation::Metadata(path), Operation::ReadDir(path)]
            &&& t.reply == Ok::<Seq<u8>, Errno>(
                ninep_model::counted_bytes(page(ordered, qids, offset as nat)),
            )
            &&& qids.len() == 0 <==> offset >= ordered.len()
            &&& qids.len() > 0 ==> offset + qids.len() <= ordered.len()
            &&& ninep_model::session_sound(t.after)
            &&& opened(t.after, fid, path)
            &&& t.after.message_size == s.message_size
            &&& listable(t.after, path, entries, offset as nat + qids.len())
        }),
{
    let request = readdir_request(tag, fid, offset, requested);
    let answers = listing_answers(metadata, entries);
    let maximum = ninep_model::payload_limit(s, requested);
    let ordered = ninep_model::sorted(entries);
    let qids = replied(s, path, entries, offset as nat, maximum);
    let body = request.skip(HEADER_BYTES as int);
    reveal(ninep_model::dispatch_spec);
    bytes::lemma_limits();
    bytes::lemma_le_bytes_len(tag as nat, 2);
    lemma_readdir_fields(fid, offset, requested);
    bytes::le_value_of_bytes(23, 4);
    assert(request.len() == 23);
    assert(request.subrange(0, 4) =~= bytes::le_bytes(23, 4));
    assert(body =~= bytes::le_bytes(fid as nat, 4) + bytes::le_bytes(offset as nat, 8)
        + bytes::le_bytes(requested as nat, 4));
    the_longest_entry_is_granted(s, requested);
    replies_hold_whole_entries(s, path, entries, offset, maximum);
    lemma_sorted_len(entries);
    let count = if offset < ordered.len() {
        (ordered.len() - offset) as nat
    } else {
        0
    };
    lemma_listed_keeps(s, path, ordered, offset as nat, count, maximum);
    bytes::lemma_le_bytes_len(page(ordered, qids, offset as nat).len(), 4);
    assert(request[4] == TREADDIR);
    assert(ninep_model::header_refusal(s, request) is None);
    let t = ninep_model::readdir_spec(s, body, answers);
    assert(ninep_model::dispatch_spec(s, TREADDIR, body, answers) == t);
    assert(t.asked =~= seq![Operation::Metadata(path), Operation::ReadDir(path)]);
    ninep_laws::requests_keep_the_session_sound(s, request, answers);
}

/// The names that a client is given which asks from `offset` on and goes on
/// with the cookie of the last entry of each reply, until a reply is empty.
pub open spec fn followed(
    s: SessionView,
    path: Seq<char>,
    metadata: Metadata,
    entries: Seq<EntryView>,
    tag: u16,
    fid: u32,
    offset: nat,
    requested: u32,
) -> Seq<Seq<char>>
    decreases ninep_model::sorted(entries).len() - offset,
{
    let ordered = ninep_model::sorted(entries);
    let t = ninep_model::request_spec(
        s,
        readdir_request(tag, fid, offset as u64, requested),
        listing_answers(metadata, entries),
    );
    let qids = replied(s, path, entries, offset, ninep_model::payload_limit(s, requested));
    let cookie = offset + qids.len();
    if t.reply != Ok::<Seq<u8>, Errno>(ninep_model::counted_bytes(page(ordered, qids, offset)))
        || qids.len() == 0 || cookie > ordered.len() {
        Seq::empty()
    } else {
        names(ordered, offset, cookie) + followed(
            t.after,
            path,
            metadata,
            entries,
            tag,
            fid,
            cookie,
            requested,
        )
    }
}

/// Following the cookies from the start of an open directory that does not
/// change gives each of its names exactly once, in order.
pub proof fn cookies_lead_through_the_directory(
    s: SessionView,
    path: Seq<char>,
    metadata: Metadata,
    entries: Seq<EntryView>,
    tag: u16,
    fid: u32,
    requested: u32,
)
    requires
        ninep_model::session_sound(s),
        opened(s, fid, path),
        metadata.kind == NodeKind::Directory,
        listable(s, path, entries, 0),
        LONGEST_ENTRY_BYTES <= requested,
    ensures
        followed(s, path, metadata, entries, tag, fid, 0, requested) == names(
            ninep_model::sorted(entries),
            0,
            ninep_model::sorted(entries).len(),
        ),
        ninep_model::sorted(entries).to_multiset() == entries.to_multiset(),
{
    lemma_followed(s, path, metadata, entries, tag, fid, 0, requested);
    ninep_laws::listings_keep_their_entries(entries);
}

proof fn lemma_followed(
    s: SessionView,
    path: Seq<char>,
    metadata: Metadata,
    entries: Seq<EntryView>,
    tag: u16,
    fid: u32,
    offset: nat,
    requested: u32,
)
    requires
        ninep_model::session_sound(s),
        opened(s, fid, path),
        metadata.kind == NodeKind::Directory,
        listable(s, path, entries, offset),
        offset <= ninep_model::sorted(entries).len(),
        LONGEST_ENTRY_BYTES <= requested,
    ensures
        followed(s, path, metadata, entries, tag, fid, offset, requested) == names(
            ninep_model::sorted(entries),
            offset,
            ninep_model::sorted(entries).len(),
        ),
    decreases ninep_model::sorted(entries).len() - offset,
{
    let ordered = ninep_model::sorted(entries);
    lemma_sorted_len(entries);
    readdir_requests_are_answered_with_the_listing(
        s,
        path,
        metadata,
        entries,
        tag,
        fid,
        offset as u64,
        requested,
    );
    let qids = replied(s, path, entries, offset, ninep_model::payload_limit(s, requested));
    if qids.len() > 0 {
        let cookie = offset + qids.len();
        let after = ninep_model::request_spec(
            s,
            readdir_request(tag, fid, offset as u64, requested),
            listing_answers(metadata, entries),
        ).after;
        lemma_followed(after, path, metadata, entries, tag, fid, cookie, requested);
        assert(names(ordered, offset, cookie) + names(ordered, cookie, ordered.len()) =~= names(
            ordered,
            offset,
            ordered.len(),
        ));
    } else {
        assert(names(ordered, offset, ordered.len()) =~= Seq::<Seq<char>>::empty());
    }
}

} // verus!
