//! What holds of every 9P session.

use crate::bytes;
use crate::ninep::{Answer, EntryView, Errno, Metadata, Operation, Qid, HEADER_BYTES};
use crate::ninep_model;
use crate::ninep_model::{FidView, SessionView};
use crate::ninep_wire;
use vstd::prelude::*;

verus! {

// Looking things up.

pub proof fn lemma_find_fid(fids: Seq<(u32, FidView)>, fid: u32)
    ensures
        match ninep_model::find_fid(fids, fid) {
            Some(i) => 0 <= i < fids.len() && fids[i].0 == fid,
            None => forall|i: int| 0 <= i < fids.len() ==> (#[trigger] fids[i]).0 != fid,
        },
    decreases fids.len(),
{
    if fids.len() > 0 {
        let front = fids.drop_last();
        lemma_find_fid(front, fid);
        if ninep_model::find_fid(fids, fid) is None {
            assert forall|i: int| 0 <= i < fids.len() implies (#[trigger] fids[i]).0 != fid by {
                if i < front.len() {
                    assert(front[i] == fids[i]);
                }
            }
        }
    }
}

pub proof fn lemma_find_qid(qids: Seq<(Seq<char>, u64)>, path: Seq<char>)
    ensures
        match ninep_model::find_qid(qids, path) {
            Some(i) => 0 <= i < qids.len() && qids[i].0 == path,
            None => forall|i: int| 0 <= i < qids.len() ==> (#[trigger] qids[i]).0 != path,
        },
    decreases qids.len(),
{
    if qids.len() > 0 {
        let front = qids.drop_last();
        lemma_find_qid(front, path);
        if ninep_model::find_qid(qids, path) is None {
            assert forall|i: int| 0 <= i < qids.len() implies (#[trigger] qids[i]).0 != path by {
                if i < front.len() {
                    assert(front[i] == qids[i]);
                }
            }
        }
    }
}

// What every request keeps.

proof fn lemma_qid_keeps_sound(s: SessionView, path: Seq<char>, metadata: Metadata)
    requires
        ninep_model::session_sound(s),
    ensures
        ninep_model::session_sound(ninep_model::qid_spec(s, path, metadata).0),
        ninep_model::qid_spec(s, path, metadata).0.fids == s.fids,
{
    lemma_find_qid(s.qids, path);
}

proof fn lemma_replaced_keeps_sound(s: SessionView, fid: u32, record: FidView)
    requires
        ninep_model::session_sound(s),
        ninep_model::find_fid(s.fids, fid) is Some,
    ensures
        ninep_model::session_sound(ninep_model::replaced_fid(s, fid, record)),
{
    lemma_find_fid(s.fids, fid);
}

proof fn lemma_inserted_keeps_sound(s: SessionView, fid: u32, record: FidView)
    requires
        ninep_model::session_sound(s),
    ensures
        ninep_model::inserted_fid(s, fid, record) matches Ok(after)
            ==> ninep_model::session_sound(after),
{
    lemma_find_fid(s.fids, fid);
}

proof fn lemma_without_keeps_sound(s: SessionView, i: int)
    requires
        ninep_model::session_sound(s),
        0 <= i < s.fids.len(),
    ensures
        ninep_model::session_sound(ninep_model::without_fid(s, i)),
{
    let left = s.fids.remove(i);
    assert forall|a: int, b: int| 0 <= a < b < left.len() implies (#[trigger] left[a]).0 != (
    #[trigger] left[b]).0 by {
        let p = if a < i {
            a
        } else {
            a + 1
        };
        let q = if b < i {
            b
        } else {
            b + 1
        };
        assert(left[a] == s.fids[p]);
        assert(left[b] == s.fids[q]);
    }
}

proof fn lemma_kept(qids: Seq<(Seq<char>, u64)>, path: Seq<char>)
    requires
        ninep_model::qids_unique(qids),
    ensures
        ninep_model::kept_qids(qids, path).len() <= qids.len(),
        ninep_model::qids_unique(ninep_model::kept_qids(qids, path)),
        forall|i: int|
            0 <= i < ninep_model::kept_qids(qids, path).len() ==> qids.contains(
                #[trigger] ninep_model::kept_qids(qids, path)[i],
            ) && !ninep_model::beneath(path, ninep_model::kept_qids(qids, path)[i].0),
    decreases qids.len(),
{
    if qids.len() > 0 {
        let front = qids.drop_last();
        let last = qids.last();
        let before = ninep_model::kept_qids(front, path);
        let kept = ninep_model::kept_qids(qids, path);
        assert(ninep_model::qids_unique(front)) by {
            assert forall|i: int, j: int| 0 <= i < j < front.len() implies (#[trigger] front[i]).0
                != (#[trigger] front[j]).0 && front[i].1 != front[j].1 by {
                assert(front[i] == qids[i] && front[j] == qids[j]);
            }
        }
        lemma_kept(front, path);
        assert forall|i: int| 0 <= i < before.len() implies qids.contains(#[trigger] before[i])
            && before[i].0 != last.0 && before[i].1 != last.1 by {
            assert(front.contains(before[i]));
            let k = choose|k: int| 0 <= k < front.len() && front[k] == before[i];
            assert(qids[k] == before[i]);
            assert(qids[qids.len() - 1] == last);
        }
        assert forall|i: int| 0 <= i < kept.len() implies qids.contains(#[trigger] kept[i])
            && !ninep_model::beneath(path, kept[i].0) by {
            if i < before.len() {
                assert(kept[i] == before[i]);
            } else {
                assert(kept[i] == qids[qids.len() - 1]);
            }
        }
        assert forall|i: int, j: int| 0 <= i < j < kept.len() implies (#[trigger] kept[i]).0 != (
        #[trigger] kept[j]).0 && kept[i].1 != kept[j].1 by {
            assert(kept[i] == before[i]);
            if j < before.len() {
                assert(kept[j] == before[j]);
            }
        }
    }
}

proof fn lemma_forgotten_keeps_sound(s: SessionView, path: Seq<char>)
    requires
        ninep_model::session_sound(s),
    ensures
        ninep_model::session_sound(ninep_model::forgotten(s, path)),
{
    lemma_kept(s.qids, path);
    let after = ninep_model::forgotten(s, path);
    assert forall|i: int| 0 <= i < after.qids.len() implies (#[trigger] after.qids[i]).1
        < after.next_qid by {
        assert(s.qids.contains(after.qids[i]));
    }
    assert forall|i: int, j: int| 0 <= i < j < after.fids.len() implies (#[trigger] after.fids[i]).0
        != (#[trigger] after.fids[j]).0 by {
        assert(after.fids[i].0 == s.fids[i].0);
        assert(after.fids[j].0 == s.fids[j].0);
    }
}

/// A path beneath the source of a move ends up beneath its destination.
proof fn lemma_moved(path: Seq<char>, source: Seq<char>, destination: Seq<char>)
    requires
        ninep_model::beneath(source, path),
    ensures
        ninep_model::beneath(destination, ninep_model::moved(path, source, destination)),
        path == source + path.skip(source.len() as int),
{
    let suffix = path.skip(source.len() as int);
    let there = destination + suffix;
    if path == source {
        assert(suffix =~= Seq::<char>::empty());
        assert(there =~= destination);
    } else {
        let prefix = source.push('/');
        assert(prefix =~= path.subrange(0, prefix.len() as int));
        assert(prefix[source.len() as int] == path[source.len() as int]);
        assert(there.subrange(0, destination.len() as int + 1) =~= destination.push('/'));
    }
    assert forall|i: int| 0 <= i < source.len() implies source[i] == path[i] by {
        if path != source {
            let prefix = source.push('/');
            assert(prefix[i] == path.subrange(0, prefix.len() as int)[i]);
        }
    }
    assert(path =~= source + suffix);
}

proof fn lemma_renamed_keeps_sound(s: SessionView, source: Seq<char>, destination: Seq<char>)
    requires
        ninep_model::session_sound(s),
        forall|i: int|
            0 <= i < s.qids.len() ==> !ninep_model::beneath(
                destination,
                (#[trigger] s.qids[i]).0,
            ),
    ensures
        ninep_model::session_sound(ninep_model::renamed(s, source, destination)),
{
    let after = ninep_model::renamed(s, source, destination);
    assert forall|i: int, j: int| 0 <= i < j < after.qids.len() implies (#[trigger] after.qids[i]).0
        != (#[trigger] after.qids[j]).0 && after.qids[i].1 != after.qids[j].1 by {
        let a = s.qids[i].0;
        let b = s.qids[j].0;
        let n = destination.len() as int;
        if ninep_model::beneath(source, a) {
            lemma_moved(a, source, destination);
            if ninep_model::beneath(source, b) {
                lemma_moved(b, source, destination);
                let c = after.qids[i].0;
                let d = after.qids[j].0;
                if c == d {
                    assert(c.skip(n) =~= a.skip(source.len() as int));
                    assert(d.skip(n) =~= b.skip(source.len() as int));
                }
            }
        } else if ninep_model::beneath(source, b) {
            lemma_moved(b, source, destination);
        }
    }
    assert forall|i: int| 0 <= i < after.qids.len() implies (#[trigger] after.qids[i]).1
        < after.next_qid by {
        assert(after.qids[i].1 == s.qids[i].1);
    }
    assert forall|i: int, j: int| 0 <= i < j < after.fids.len() implies (#[trigger] after.fids[i]).0
        != (#[trigger] after.fids[j]).0 by {
        assert(after.fids[i].0 == s.fids[i].0);
        assert(after.fids[j].0 == s.fids[j].0);
    }
}

proof fn lemma_walked_keeps_sound(
    s: SessionView,
    path: Seq<char>,
    names: Seq<Seq<char>>,
    count: nat,
    answers: Seq<Answer>,
)
    requires
        ninep_model::session_sound(s),
    ensures
        ninep_model::session_sound(ninep_model::walked(s, path, names, count, answers).after),
        ninep_model::walked(s, path, names, count, answers).after.fids == s.fids,
    decreases count,
{
    if count > 0 {
        lemma_walked_keeps_sound(s, path, names, (count - 1) as nat, answers);
        let w = ninep_model::walked(s, path, names, (count - 1) as nat, answers);
        if let Ok(candidate) = ninep_model::walk_path_spec(w.path, names[count - 1]) {
            if let Ok(metadata) = answers[w.asked.len() as int]->Metadata_0 {
                lemma_qid_keeps_sound(w.after, candidate, metadata);
            }
        }
    }
}

proof fn lemma_listed_keeps_sound(
    s: SessionView,
    path: Seq<char>,
    entries: Seq<EntryView>,
    offset: nat,
    count: nat,
    maximum: int,
)
    requires
        ninep_model::session_sound(s),
    ensures
        ninep_model::session_sound(
            ninep_model::listed(s, path, entries, offset, count, maximum).after,
        ),
    decreases count,
{
    if count > 0 {
        lemma_listed_keeps_sound(s, path, entries, offset, (count - 1) as nat, maximum);
        let l = ninep_model::listed(s, path, entries, offset, (count - 1) as nat, maximum);
        let entry = entries[offset + count - 1];
        lemma_qid_keeps_sound(l.after, ninep_model::child(path, entry.name), entry.metadata);
    }
}

proof fn lemma_opened_keeps_sound(
    s: SessionView,
    asked: Seq<Operation>,
    fid: u32,
    record: FidView,
    flags: u32,
    metadata: Metadata,
)
    requires
        ninep_model::session_sound(s),
        ninep_model::find_fid(s.fids, fid) is Some,
    ensures
        ninep_model::session_sound(
            ninep_model::opened(s, asked, fid, record, flags, metadata).after,
        ),
{
    let held = FidView { open_flags: Some(flags), ..record };
    lemma_replaced_keeps_sound(s, fid, held);
    lemma_qid_keeps_sound(ninep_model::replaced_fid(s, fid, held), record.path, metadata);
}

proof fn lemma_attach_keeps_sound(s: SessionView, body: Seq<u8>, answers: Seq<Answer>)
    requires
        ninep_model::session_sound(s),
    ensures
        ninep_model::session_sound(ninep_model::attach_spec(s, body, answers).after),
{
    let root = Seq::<char>::empty();
    if let Ok((fid, _, _)) = ninep_model::attach_fields(body) {
        if let Ok(metadata) = answers[0]->Metadata_0 {
            lemma_qid_keeps_sound(s, root, metadata);
            lemma_inserted_keeps_sound(
                ninep_model::qid_spec(s, root, metadata).0,
                fid,
                ninep_model::fresh_record(root),
            );
        }
    }
}

proof fn lemma_walk_keeps_sound(s: SessionView, body: Seq<u8>, answers: Seq<Answer>)
    requires
        ninep_model::session_sound(s),
    ensures
        ninep_model::session_sound(ninep_model::walk_spec(s, body, answers).after),
{
    if let Ok((fid, new_fid, names)) = ninep_model::walk_fields(body) {
        if let Ok(record) = ninep_model::fid_spec(s, fid) {
            lemma_walked_keeps_sound(s, record.path, names, names.len(), answers);
            let w = ninep_model::walked(s, record.path, names, names.len(), answers);
            lemma_replaced_keeps_sound(w.after, fid, ninep_model::fresh_record(w.path));
            lemma_inserted_keeps_sound(w.after, new_fid, ninep_model::fresh_record(w.path));
        }
    }
}

proof fn lemma_open_keeps_sound(s: SessionView, body: Seq<u8>, answers: Seq<Answer>)
    requires
        ninep_model::session_sound(s),
    ensures
        ninep_model::session_sound(ninep_model::open_spec(s, body, answers).after),
{
    if let Ok((fid, flags)) = ninep_model::two_words(body) {
        if let Ok(record) = ninep_model::fid_spec(s, fid) {
            let looked = seq![Operation::Metadata(record.path)];
            let asked = looked.push(Operation::SetLen(record.path, 0)).push(
                Operation::Metadata(record.path),
            );
            if let Ok(metadata) = answers[0]->Metadata_0 {
                lemma_opened_keeps_sound(s, looked, fid, record, flags, metadata);
            }
            if let Ok(metadata) = answers[2]->Metadata_0 {
                lemma_opened_keeps_sound(s, asked, fid, record, flags, metadata);
            }
        }
    }
}

proof fn lemma_create_keeps_sound(s: SessionView, body: Seq<u8>, answers: Seq<Answer>)
    requires
        ninep_model::session_sound(s),
    ensures
        ninep_model::session_sound(ninep_model::create_spec(s, body, answers).after),
{
    if let Ok((fid, name, flags, mode)) = ninep_model::create_fields(body) {
        if let Ok(record) = ninep_model::fid_spec(s, fid) {
            if let Ok(path) = ninep_model::child_spec(record.path, name) {
                if let Ok(metadata) = answers[2]->Metadata_0 {
                    let t = ninep_model::create_spec(s, body, answers);
                    lemma_opened_keeps_sound(
                        s,
                        t.asked,
                        fid,
                        ninep_model::fresh_record(path),
                        flags,
                        metadata,
                    );
                }
            }
        }
    }
}

proof fn lemma_remove_keeps_sound(s: SessionView, body: Seq<u8>, answers: Seq<Answer>)
    requires
        ninep_model::session_sound(s),
    ensures
        ninep_model::session_sound(ninep_model::remove_spec(s, body, answers).after),
        ninep_model::session_sound(ninep_model::clunk_spec(s, body).after),
{
    if let Ok(fid) = ninep_model::one_word(body) {
        lemma_find_fid(s.fids, fid);
        if let Some(i) = ninep_model::find_fid(s.fids, fid) {
            lemma_without_keeps_sound(s, i);
            lemma_forgotten_keeps_sound(ninep_model::without_fid(s, i), s.fids[i].1.path);
        }
    }
}

proof fn lemma_readdir_keeps_sound(s: SessionView, body: Seq<u8>, answers: Seq<Answer>)
    requires
        ninep_model::session_sound(s),
    ensures
        ninep_model::session_sound(ninep_model::readdir_spec(s, body, answers).after),
{
    if let Ok((fid, offset, requested)) = ninep_model::readdir_fields(body) {
        if let Ok(record) = ninep_model::fid_spec(s, fid) {
            if let Ok(entries) = answers[1]->Entries_0 {
                let ordered = ninep_model::sorted(entries);
                let count = if offset < ordered.len() {
                    (ordered.len() - offset) as nat
                } else {
                    0
                };
                lemma_listed_keeps_sound(
                    s,
                    record.path,
                    ordered,
                    offset as nat,
                    count,
                    ninep_model::payload_limit(s, requested),
                );
            }
        }
    }
}

proof fn lemma_attributes_keep_sound(s: SessionView, body: Seq<u8>, answers: Seq<Answer>)
    requires
        ninep_model::session_sound(s),
    ensures
        ninep_model::session_sound(ninep_model::getattr_spec(s, body, answers).after),
        ninep_model::session_sound(ninep_model::mkdir_spec(s, body, answers).after),
{
    if let Ok(fid) = ninep_model::getattr_fields(body) {
        if let Ok(record) = ninep_model::fid_spec(s, fid) {
            if let Ok(metadata) = answers[0]->Metadata_0 {
                lemma_qid_keeps_sound(s, record.path, metadata);
            }
        }
    }
    if let Ok((fid, name, mode)) = ninep_model::mkdir_fields(body) {
        if let Ok(record) = ninep_model::fid_spec(s, fid) {
            if let Ok(path) = ninep_model::child_spec(record.path, name) {
                if let Ok(metadata) = answers[2]->Metadata_0 {
                    lemma_qid_keeps_sound(s, path, metadata);
                }
            }
        }
    }
}

proof fn lemma_rename_keeps_sound(s: SessionView, body: Seq<u8>, answers: Seq<Answer>)
    requires
        ninep_model::session_sound(s),
    ensures
        ninep_model::session_sound(ninep_model::renameat_spec(s, body, answers).after),
        ninep_model::session_sound(ninep_model::unlinkat_spec(s, body, answers).after),
{
    if let Ok((source, destination)) = ninep_model::rename_fields(s, body) {
        lemma_forgotten_keeps_sound(s, destination);
        lemma_kept(s.qids, destination);
        lemma_renamed_keeps_sound(ninep_model::forgotten(s, destination), source, destination);
    }
    if let Ok((path, _)) = ninep_model::unlink_fields(s, body) {
        lemma_forgotten_keeps_sound(s, path);
    }
}

/// Whatever is requested, and whatever the filesystem answers, the tables stay
/// within their bounds, no two FIDs share a record, and no two paths an
/// identity.
pub proof fn requests_keep_the_session_sound(
    s: SessionView,
    request: Seq<u8>,
    answers: Seq<Answer>,
)
    requires
        ninep_model::session_sound(s),
    ensures
        ninep_model::session_sound(ninep_model::request_spec(s, request, answers).after),
{
    reveal(ninep_model::dispatch_spec);
    if ninep_model::header_refusal(s, request) is None {
        let body = request.skip(HEADER_BYTES as int);
        lemma_attach_keeps_sound(s, body, answers);
        lemma_walk_keeps_sound(s, body, answers);
        lemma_open_keeps_sound(s, body, answers);
        lemma_create_keeps_sound(s, body, answers);
        lemma_remove_keeps_sound(s, body, answers);
        lemma_readdir_keeps_sound(s, body, answers);
        lemma_attributes_keep_sound(s, body, answers);
        lemma_rename_keeps_sound(s, body, answers);
        let t = ninep_model::dispatch_spec(s, request[4], body, answers);
        if request[4] == crate::ninep::TVERSION {
            assert(ninep_model::session_sound(t.after));
        }
    }
}

pub proof fn fresh_session_is_sound(export_name: Seq<char>)
    ensures
        ninep_model::session_sound(ninep_model::fresh_session(export_name)),
{
}

// What the service promises its client.

/// A request that its header turns down changes nothing and reaches no
/// filesystem.
pub proof fn malformed_headers_change_nothing(
    s: SessionView,
    request: Seq<u8>,
    answers: Seq<Answer>,
)
    requires
        ninep_model::header_refusal(s, request) is Some,
    ensures
        ninep_model::request_spec(s, request, answers).after == s,
        ninep_model::request_spec(s, request, answers).asked.len() == 0,
        ninep_model::request_spec(s, request, answers).reply is Err,
{
}

/// Every answer is one complete message for its request and fits the negotiated
/// size.
pub proof fn answers_are_complete(s: SessionView, request: Seq<u8>, answers: Seq<Answer>)
    requires
        ninep_model::session_sound(s),
    ensures
        ({
            let t = ninep_model::request_spec(s, request, answers);
            let response = ninep_model::response_bytes(request, t.reply);
            ninep_model::answers_request(request, response, t.after.message_size as int)
        }),
{
    requests_keep_the_session_sound(s, request, answers);
    let t = ninep_model::request_spec(s, request, answers);
    let response = ninep_model::response_bytes(request, t.reply);
    let tag = ninep_model::request_tag(request);
    let size = response.len();
    bytes::lemma_limits();
    bytes::lemma_le_bytes_len(tag as nat, 2);
    let body = match t.reply {
        Ok(body) => body,
        Err(error) => bytes::le_bytes(error.number() as nat, 4),
    };
    if let Err(error) = t.reply {
        bytes::lemma_le_bytes_len(error.number() as nat, 4);
    }
    bytes::lemma_le_bytes_len((HEADER_BYTES + body.len()) as nat, 4);
    assert(response.len() == HEADER_BYTES + body.len());
    bytes::le_value_of_bytes(size, 4);
    bytes::le_value_of_bytes(tag as nat, 2);
    assert(response.subrange(0, 4) =~= bytes::le_bytes(size, 4));
    assert(response.subrange(5, 7) =~= bytes::le_bytes(tag as nat, 2));
}

/// Success is answered with the type behind the request's, failure with an
/// error message that names the class.
pub proof fn answers_carry_the_outcome(request: Seq<u8>, reply: Result<Seq<u8>, Errno>)
    requires
        request.len() >= HEADER_BYTES,
        reply matches Ok(body) ==> body.len() < 0x1_0000,
    ensures
        ({
            let response = ninep_model::response_bytes(request, reply);
            match reply {
                Ok(body) => response[4] == (request[4] + 1) % 256 && response.skip(
                    HEADER_BYTES as int,
                ) == body,
                Err(error) => response[4] == crate::ninep::RLERROR && bytes::le_value(
                    response.skip(HEADER_BYTES as int),
                ) == error.number(),
            }
        }),
{
    let response = ninep_model::response_bytes(request, reply);
    bytes::lemma_limits();
    bytes::lemma_le_bytes_len(ninep_model::request_tag(request) as nat, 2);
    match reply {
        Ok(body) => {
            bytes::lemma_le_bytes_len((HEADER_BYTES + body.len()) as nat, 4);
            assert(response.skip(HEADER_BYTES as int) =~= body);
        },
        Err(error) => {
            let body = bytes::le_bytes(error.number() as nat, 4);
            bytes::lemma_le_bytes_len((HEADER_BYTES + body.len()) as nat, 4);
            assert(response.skip(HEADER_BYTES as int) =~= body);
            bytes::le_value_of_bytes(error.number() as nat, 4);
        },
    }
}

proof fn lemma_find_qid_prefix(qids: Seq<(Seq<char>, u64)>, entry: (Seq<char>, u64), path: Seq<char>)
    requires
        entry.0 != path,
    ensures
        ninep_model::find_qid(qids.push(entry), path) == ninep_model::find_qid(qids, path),
{
    assert(qids.push(entry).drop_last() =~= qids);
}

/// A path keeps its identity whatever other paths are seen later.
pub proof fn identities_are_stable(
    s: SessionView,
    path: Seq<char>,
    first: Metadata,
    other: Seq<char>,
    between: Metadata,
    second: Metadata,
)
    requires
        ninep_model::qid_spec(s, path, first).1 is Ok,
    ensures
        ({
            let (seen, qid) = ninep_model::qid_spec(s, path, first);
            let later = ninep_model::qid_spec(seen, other, between).0;
            ninep_model::qid_spec(later, path, second) == (
                later,
                Ok::<Qid, Errno>(ninep_model::qid_of(second, qid->Ok_0.path)),
            )
        }),
{
    let (seen, qid) = ninep_model::qid_spec(s, path, first);
    lemma_find_qid(s.qids, path);
    lemma_find_qid(seen.qids, path);
    assert(ninep_model::find_qid(seen.qids, path) is Some);
    assert(seen.qids[ninep_model::find_qid(seen.qids, path)->Some_0].1 == qid->Ok_0.path);
    let later = ninep_model::qid_spec(seen, other, between).0;
    if later != seen {
        lemma_find_qid(seen.qids, other);
        lemma_find_qid_prefix(seen.qids, (other, seen.next_qid), path);
    }
}

/// Different paths have different identities.
pub proof fn identities_are_distinct(
    s: SessionView,
    a: Seq<char>,
    b: Seq<char>,
    first: Metadata,
    second: Metadata,
)
    requires
        ninep_model::session_sound(s),
        a != b,
    ensures
        ({
            let (seen, one) = ninep_model::qid_spec(s, a, first);
            let two = ninep_model::qid_spec(seen, b, second).1;
            one is Ok && two is Ok ==> one->Ok_0.path != two->Ok_0.path
        }),
{
    let (seen, one) = ninep_model::qid_spec(s, a, first);
    lemma_qid_keeps_sound(s, a, first);
    lemma_find_qid(s.qids, a);
    lemma_find_qid(seen.qids, a);
    lemma_find_qid(seen.qids, b);
    if one is Ok {
        let i = ninep_model::find_qid(s.qids, a);
        let k = if i is Some {
            i->Some_0
        } else {
            seen.qids.len() - 1
        };
        assert(seen.qids[k].0 == a && seen.qids[k].1 == one->Ok_0.path);
        if let Some(j) = ninep_model::find_qid(seen.qids, b) {
            assert(j != k);
            if j < k {
                assert(seen.qids[j].1 != seen.qids[k].1);
            } else {
                assert(seen.qids[k].1 != seen.qids[j].1);
            }
        }
    }
}

proof fn lemma_find_fid_unique(fids: Seq<(u32, FidView)>, i: int)
    requires
        ninep_model::fids_unique(fids),
        0 <= i < fids.len(),
    ensures
        ninep_model::find_fid(fids, fids[i].0) == Some(i),
{
    lemma_find_fid(fids, fids[i].0);
    let found = ninep_model::find_fid(fids, fids[i].0);
    assert(found is Some) by {
        if found is None {
            assert(fids[i].0 != fids[i].0);
        }
    }
    let j = found->Some_0;
    if j < i {
        assert(fids[j].0 != fids[i].0);
    } else if i < j {
        assert(fids[i].0 != fids[j].0);
    }
}

/// Once a node is removed, every FID on it or beneath it is refused as stale.
pub proof fn removed_nodes_go_stale(s: SessionView, path: Seq<char>, fid: u32)
    requires
        ninep_model::session_sound(s),
        ninep_model::find_fid(s.fids, fid) matches Some(i) && ninep_model::beneath(
            path,
            s.fids[i].1.path,
        ),
    ensures
        ninep_model::fid_spec(ninep_model::forgotten(s, path), fid) == Err::<FidView, Errno>(
            Errno::Stale,
        ),
{
    lemma_find_fid(s.fids, fid);
    let i = ninep_model::find_fid(s.fids, fid)->Some_0;
    let after = ninep_model::forgotten(s, path);
    lemma_forgotten_keeps_sound(s, path);
    assert(after.fids[i].0 == fid);
    lemma_find_fid_unique(after.fids, i);
}

/// A rename carries the FIDs of the source along and leaves those elsewhere
/// where they were.
pub proof fn renamed_nodes_keep_their_fids(
    s: SessionView,
    source: Seq<char>,
    destination: Seq<char>,
    fid: u32,
)
    requires
        ninep_model::session_sound(s),
        ninep_model::fid_spec(s, fid) matches Ok(record) && !ninep_model::beneath(
            destination,
            record.path,
        ),
    ensures
        ({
            let record = ninep_model::fid_spec(s, fid)->Ok_0;
            let after = ninep_model::renamed(
                ninep_model::forgotten(s, destination),
                source,
                destination,
            );
            ninep_model::fid_spec(after, fid) == Ok::<FidView, Errno>(
                FidView {
                    path: ninep_model::moved(record.path, source, destination),
                    ..record
                },
            )
        }),
{
    lemma_find_fid(s.fids, fid);
    let i = ninep_model::find_fid(s.fids, fid)->Some_0;
    let cleared = ninep_model::forgotten(s, destination);
    let after = ninep_model::renamed(cleared, source, destination);
    lemma_forgotten_keeps_sound(s, destination);
    lemma_kept(s.qids, destination);
    lemma_renamed_keeps_sound(cleared, source, destination);
    assert(cleared.fids[i] == (fid, ninep_model::staled(s.fids[i].1, destination)));
    assert(after.fids[i].0 == fid);
    lemma_find_fid_unique(after.fids, i);
}

proof fn lemma_keeps_the_others(qids: Seq<(Seq<char>, u64)>, path: Seq<char>, i: int)
    requires
        0 <= i < qids.len(),
        !ninep_model::beneath(path, qids[i].0),
    ensures
        ninep_model::kept_qids(qids, path).contains(qids[i]),
    decreases qids.len(),
{
    let kept = ninep_model::kept_qids(qids, path);
    let before = ninep_model::kept_qids(qids.drop_last(), path);
    if i == qids.len() - 1 {
        assert(kept[before.len() as int] == qids[i]);
    } else {
        lemma_keeps_the_others(qids.drop_last(), path, i);
        let k = choose|k: int| 0 <= k < before.len() && before[k] == qids[i];
        assert(kept[k] == qids[i]);
    }
}

/// A renamed node keeps its identity under its new path.
pub proof fn renamed_nodes_keep_their_identity(
    s: SessionView,
    source: Seq<char>,
    destination: Seq<char>,
    path: Seq<char>,
    metadata: Metadata,
)
    requires
        ninep_model::session_sound(s),
        ninep_model::find_qid(s.qids, path) is Some,
        ninep_model::beneath(source, path),
        !ninep_model::beneath(destination, path),
    ensures
        ({
            let identity = s.qids[ninep_model::find_qid(s.qids, path)->Some_0].1;
            let after = ninep_model::renamed(
                ninep_model::forgotten(s, destination),
                source,
                destination,
            );
            ninep_model::qid_spec(
                after,
                ninep_model::moved(path, source, destination),
                metadata,
            ) == (after, Ok::<Qid, Errno>(ninep_model::qid_of(metadata, identity)))
        }),
{
    lemma_find_qid(s.qids, path);
    let at = ninep_model::find_qid(s.qids, path)->Some_0;
    let cleared = ninep_model::forgotten(s, destination);
    lemma_forgotten_keeps_sound(s, destination);
    lemma_kept(s.qids, destination);
    lemma_keeps_the_others(s.qids, destination, at);
    let i = choose|i: int| 0 <= i < cleared.qids.len() && cleared.qids[i] == s.qids[at];
    let after = ninep_model::renamed(cleared, source, destination);
    let there = ninep_model::moved(path, source, destination);
    lemma_renamed_keeps_sound(cleared, source, destination);
    lemma_find_qid(after.qids, there);
    assert(after.qids[i] == (there, s.qids[at].1));
    let found = ninep_model::find_qid(after.qids, there);
    assert(found is Some) by {
        if found is None {
            assert(after.qids[i].0 != there);
        }
    }
    let j = found->Some_0;
    if j < i {
        assert(after.qids[j].0 != after.qids[i].0);
    } else if i < j {
        assert(after.qids[i].0 != after.qids[j].0);
    }
    assert(j == i);
}

// Directory listings.

proof fn lemma_before_irreflexive(a: Seq<u8>)
    ensures
        !ninep_model::comes_before(a, a),
    decreases a.len(),
{
    if a.len() > 0 {
        lemma_before_irreflexive(a.drop_first());
    }
}

/// If `a` is before `b`, then `c` is before `b` or `a` is before `c`.
proof fn lemma_before_splits(a: Seq<u8>, b: Seq<u8>, c: Seq<u8>)
    requires
        ninep_model::comes_before(a, b),
    ensures
        ninep_model::comes_before(c, b) || ninep_model::comes_before(a, c),
    decreases b.len(),
{
    if a.len() > 0 && b.len() > 0 && c.len() > 0 && a[0] == b[0] && c[0] == b[0] {
        lemma_before_splits(a.drop_first(), b.drop_first(), c.drop_first());
    }
}

proof fn lemma_slot(front: Seq<EntryView>, entry: EntryView)
    requires
        forall|i: int, j: int|
            0 <= i < j < front.len() ==> !ninep_model::entry_before(
                #[trigger] front[j],
                #[trigger] front[i],
            ),
    ensures
        ninep_model::slot(front, entry) <= front.len(),
        forall|i: int|
            0 <= i < ninep_model::slot(front, entry) ==> !ninep_model::entry_before(
                entry,
                #[trigger] front[i],
            ),
        forall|i: int|
            ninep_model::slot(front, entry) <= i < front.len() ==> ninep_model::entry_before(
                entry,
                #[trigger] front[i],
            ),
    decreases front.len(),
{
    if front.len() > 0 {
        let rest = front.drop_last();
        assert forall|i: int, j: int| 0 <= i < j < rest.len() implies !ninep_model::entry_before(
            #[trigger] rest[j],
            #[trigger] rest[i],
        ) by {
            assert(rest[i] == front[i] && rest[j] == front[j]);
        }
        lemma_slot(rest, entry);
        if ninep_model::entry_before(entry, front.last()) {
            assert forall|i: int|
                0 <= i < ninep_model::slot(front, entry) implies !ninep_model::entry_before(
                entry,
                #[trigger] front[i],
            ) by {
                assert(rest[i] == front[i]);
            }
            assert forall|i: int|
                ninep_model::slot(front, entry) <= i < front.len() implies ninep_model::entry_before(
                entry,
                #[trigger] front[i],
            ) by {
                if i < rest.len() {
                    assert(rest[i] == front[i]);
                }
            }
        } else {
            assert forall|i: int| 0 <= i < front.len() implies !ninep_model::entry_before(
                entry,
                #[trigger] front[i],
            ) by {
                if i < front.len() - 1 && ninep_model::entry_before(entry, front[i]) {
                    let last = front[front.len() - 1];
                    lemma_before_splits(
                        vstd::utf8::encode_utf8(entry.name),
                        vstd::utf8::encode_utf8(front[i].name),
                        vstd::utf8::encode_utf8(last.name),
                    );
                    assert(!ninep_model::entry_before(last, front[i]));
                }
            }
        }
    }
}

/// A listing is in name order.
pub proof fn listings_are_ordered(entries: Seq<EntryView>)
    ensures
        forall|i: int, j: int|
            0 <= i < j < ninep_model::sorted(entries).len() ==> !ninep_model::entry_before(
                #[trigger] ninep_model::sorted(entries)[j],
                #[trigger] ninep_model::sorted(entries)[i],
            ),
    decreases entries.len(),
{
    if entries.len() > 0 {
        let entry = entries.last();
        let front = ninep_model::sorted(entries.drop_last());
        listings_are_ordered(entries.drop_last());
        lemma_slot(front, entry);
        let at = ninep_model::slot(front, entry) as int;
        let all = front.insert(at, entry);
        assert forall|i: int, j: int| 0 <= i < j < all.len() implies !ninep_model::entry_before(
            #[trigger] all[j],
            #[trigger] all[i],
        ) by {
            if j < at {
                assert(all[j] == front[j] && all[i] == front[i]);
            } else if i > at {
                assert(all[j] == front[j - 1] && all[i] == front[i - 1]);
            } else if j == at {
                assert(all[i] == front[i]);
            } else if i == at {
                assert(all[j] == front[j - 1]);
                lemma_before_irreflexive(vstd::utf8::encode_utf8(entry.name));
                if ninep_model::entry_before(all[j], entry) {
                    lemma_before_splits(
                        vstd::utf8::encode_utf8(all[j].name),
                        vstd::utf8::encode_utf8(entry.name),
                        vstd::utf8::encode_utf8(all[j].name),
                    );
                    lemma_before_asymmetric(
                        vstd::utf8::encode_utf8(entry.name),
                        vstd::utf8::encode_utf8(all[j].name),
                    );
                }
            } else {
                assert(all[j] == front[j - 1] && all[i] == front[i]);
            }
        }
    }
}

proof fn lemma_before_asymmetric(a: Seq<u8>, b: Seq<u8>)
    requires
        ninep_model::comes_before(a, b),
    ensures
        !ninep_model::comes_before(b, a),
    decreases a.len(),
{
    if a.len() > 0 && b.len() > 0 && a[0] == b[0] {
        lemma_before_asymmetric(a.drop_first(), b.drop_first());
    }
}

/// A listing holds the entries that the filesystem gave, and no others.
pub proof fn listings_keep_their_entries(entries: Seq<EntryView>)
    ensures
        ninep_model::sorted(entries).to_multiset() == entries.to_multiset(),
    decreases entries.len(),
{
    broadcast use vstd::seq_lib::group_to_multiset_ensures;

    if entries.len() > 0 {
        let entry = entries.last();
        let front = ninep_model::sorted(entries.drop_last());
        listings_keep_their_entries(entries.drop_last());
        lemma_slot_bound(front, entry);
        assert(entries =~= entries.drop_last().push(entry));
        let at = ninep_model::slot(front, entry) as int;
        vstd::seq_lib::to_multiset_insert(front, at, entry);
    }
}

pub proof fn lemma_slot_bound(front: Seq<EntryView>, entry: EntryView)
    ensures
        ninep_model::slot(front, entry) <= front.len(),
    decreases front.len(),
{
    if front.len() > 0 {
        lemma_slot_bound(front.drop_last(), entry);
    }
}

} // verus!
