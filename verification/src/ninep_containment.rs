//! The paths that the 9P service hands to the filesystem stay beneath its root.

use crate::ninep::{Answer, EntryView, Errno, Metadata, Operation, HEADER_BYTES};
use crate::ninep_laws;
use crate::ninep_model;
use crate::ninep_model::{FidView, SessionView, Turn};
use crate::text;
use vstd::prelude::*;

verus! {

/// A relative path of plain components: none is empty, `.` or `..`. The root is
/// the empty path.
pub open spec fn normalized(path: Seq<char>) -> bool {
    path.len() == 0 || forall|i: int|
        0 <= i < text::parts(path, '/').len() ==> ninep_model::name_refusal(
            #[trigger] text::parts(path, '/')[i],
        ) is None
}

/// Every path of a call on the filesystem is normalized.
pub open spec fn contained(operation: Operation) -> bool {
    match operation {
        Operation::Metadata(path) => normalized(path),
        Operation::ReadDir(path) => normalized(path),
        Operation::Read(path, _, _) => normalized(path),
        Operation::Write(path, _, _) => normalized(path),
        Operation::CreateFile(path, _, _, _) => normalized(path),
        Operation::CreateDir(path, _) => normalized(path),
        Operation::SetLen(path, _) => normalized(path),
        Operation::RemoveFile(path) => normalized(path),
        Operation::RemoveDir(path) => normalized(path),
        Operation::Rename(source, destination) => normalized(source) && normalized(destination),
        Operation::Sync(path, _) => normalized(path),
        Operation::StatFs => true,
    }
}

pub open spec fn all_contained(asked: Seq<Operation>) -> bool {
    forall|i: int| 0 <= i < asked.len() ==> contained(#[trigger] asked[i])
}

/// Every path that the session remembers is normalized.
pub open spec fn session_contained(s: SessionView) -> bool {
    &&& forall|i: int| 0 <= i < s.fids.len() ==> normalized((#[trigger] s.fids[i]).1.path)
    &&& forall|i: int| 0 <= i < s.qids.len() ==> normalized((#[trigger] s.qids[i]).0)
}

#[verifier::opaque]
pub open spec fn turn_contained(t: Turn) -> bool {
    all_contained(t.asked) && session_contained(t.after)
}

// Components.

proof fn lemma_parts_present(s: Seq<char>)
    ensures
        text::parts(s, '/').len() > 0,
    decreases s.len(),
{
    if s.len() > 0 {
        lemma_parts_present(s.drop_last());
    }
}

/// The components of a joined path are those of its two sides.
proof fn lemma_parts_joined(a: Seq<char>, b: Seq<char>)
    ensures
        text::parts(a.push('/') + b, '/') == text::parts(a, '/') + text::parts(b, '/'),
    decreases b.len(),
{
    let whole = a.push('/') + b;
    let left = text::parts(a, '/');
    let right = text::parts(b, '/');
    if b.len() == 0 {
        assert(whole =~= a.push('/'));
        assert(whole.drop_last() =~= a);
        assert(text::parts(whole, '/') =~= left + right);
    } else {
        let front = b.drop_last();
        lemma_parts_joined(a, front);
        lemma_parts_present(front);
        assert(whole.drop_last() =~= a.push('/') + front);
        assert(whole.last() == b.last());
        assert(text::parts(whole, '/') =~= left + right);
    }
}

proof fn lemma_single_part(name: Seq<char>)
    requires
        forall|i: int| 0 <= i < name.len() ==> #[trigger] name[i] != '/',
    ensures
        text::parts(name, '/') == seq![name],
    decreases name.len(),
{
    if name.len() > 0 {
        let front = name.drop_last();
        assert forall|i: int| 0 <= i < front.len() implies #[trigger] front[i] != '/' by {
            assert(front[i] == name[i]);
        }
        lemma_single_part(front);
        assert(front.push(name.last()) =~= name);
    } else {
        assert(name =~= Seq::<char>::empty());
    }
    assert(text::parts(name, '/') =~= seq![name]);
}

proof fn lemma_plain_name(name: Seq<char>)
    requires
        ninep_model::name_refusal(name) is None,
    ensures
        text::parts(name, '/') == seq![name],
        normalized(name),
{
    assert forall|i: int| 0 <= i < name.len() implies #[trigger] name[i] != '/' by {
        if name[i] == '/' {
            assert(ninep_model::name_refusal(name) is Some);
        }
    }
    lemma_single_part(name);
}

/// Both sides of a normalized path are normalized.
proof fn lemma_sides(a: Seq<char>, b: Seq<char>)
    requires
        normalized(a.push('/') + b),
    ensures
        normalized(a),
        a.len() > 0,
        forall|i: int|
            0 <= i < text::parts(b, '/').len() ==> ninep_model::name_refusal(
                #[trigger] text::parts(b, '/')[i],
            ) is None,
{
    lemma_parts_joined(a, b);
    lemma_parts_present(a);
    let whole = text::parts(a.push('/') + b, '/');
    let left = text::parts(a, '/');
    let right = text::parts(b, '/');
    assert forall|i: int| 0 <= i < left.len() implies ninep_model::name_refusal(
        #[trigger] left[i],
    ) is None by {
        assert(whole[i] == left[i]);
    }
    assert forall|i: int| 0 <= i < right.len() implies ninep_model::name_refusal(
        #[trigger] right[i],
    ) is None by {
        assert(whole[left.len() + i] == right[i]);
    }
    if a.len() == 0 {
        assert(left[0] == Seq::<char>::empty());
    }
}

proof fn lemma_joined(a: Seq<char>, b: Seq<char>)
    requires
        normalized(a),
        a.len() > 0,
        forall|i: int|
            0 <= i < text::parts(b, '/').len() ==> ninep_model::name_refusal(
                #[trigger] text::parts(b, '/')[i],
            ) is None,
    ensures
        normalized(a.push('/') + b),
{
    lemma_parts_joined(a, b);
    let whole = text::parts(a.push('/') + b, '/');
    let left = text::parts(a, '/');
    assert forall|i: int| 0 <= i < whole.len() implies ninep_model::name_refusal(
        #[trigger] whole[i],
    ) is None by {
        if i >= left.len() {
            assert(whole[i] == text::parts(b, '/')[i - left.len()]);
        } else {
            assert(whole[i] == left[i]);
        }
    }
}

// The ways to a new path.

proof fn lemma_child_contained(parent: Seq<char>, name: Seq<char>)
    requires
        normalized(parent),
        ninep_model::name_refusal(name) is None,
    ensures
        normalized(ninep_model::child(parent, name)),
{
    lemma_plain_name(name);
    if parent.len() > 0 {
        lemma_joined(parent, name);
    }
}

proof fn lemma_ancestor_splits(path: Seq<char>)
    ensures
        ninep_model::ancestor(path).len() == 0 || ({
            let above = ninep_model::ancestor(path);
            path == above.push('/') + path.skip(above.len() as int + 1)
        }),
        ninep_model::ancestor(path).len() <= path.len(),
    decreases path.len(),
{
    if path.len() > 0 {
        let front = path.drop_last();
        let above = ninep_model::ancestor(path);
        if path.last() == '/' {
            assert(path =~= above.push('/') + path.skip(above.len() as int + 1));
        } else {
            lemma_ancestor_splits(front);
            if above.len() > 0 {
                assert(front.len() == (above.push('/') + front.skip(above.len() as int + 1)).len());
                assert forall|i: int| 0 <= i <= above.len() implies #[trigger] above.push('/')[i]
                    == path[i] by {
                    assert(front[i] == path[i]);
                    assert((above.push('/') + front.skip(above.len() as int + 1))[i] == front[i]);
                }
                assert(path =~= above.push('/') + path.skip(above.len() as int + 1));
            }
        }
    }
}

proof fn lemma_ancestor_contained(path: Seq<char>)
    requires
        normalized(path),
    ensures
        normalized(ninep_model::ancestor(path)),
{
    lemma_ancestor_splits(path);
    let above = ninep_model::ancestor(path);
    if above.len() > 0 {
        lemma_sides(above, path.skip(above.len() as int + 1));
    }
}

proof fn lemma_step_contained(parent: Seq<char>, name: Seq<char>)
    requires
        normalized(parent),
    ensures
        ninep_model::walk_path_spec(parent, name) matches Ok(path) ==> normalized(path),
{
    lemma_ancestor_contained(parent);
    if ninep_model::name_refusal(name) is None {
        lemma_child_contained(parent, name);
    }
}

proof fn lemma_moved_contained(path: Seq<char>, source: Seq<char>, destination: Seq<char>)
    requires
        normalized(path),
        normalized(destination),
        destination.len() > 0,
    ensures
        normalized(ninep_model::moved(path, source, destination)),
{
    if path == source {
        assert(destination + path.skip(source.len() as int) =~= destination);
    } else if ninep_model::beneath(source, path) {
        let rest = path.skip(source.len() as int + 1);
        assert(source.push('/') =~= path.subrange(0, source.len() as int + 1));
        assert(path =~= source.push('/') + rest);
        lemma_sides(source, rest);
        lemma_joined(destination, rest);
        assert(path[source.len() as int] == '/') by {
            assert(source.push('/')[source.len() as int] == '/');
        }
        assert(destination + path.skip(source.len() as int) =~= destination.push('/') + rest);
    }
}

// The tables.

proof fn lemma_qid_contained(s: SessionView, path: Seq<char>, metadata: Metadata)
    requires
        session_contained(s),
        normalized(path),
    ensures
        session_contained(ninep_model::qid_spec(s, path, metadata).0),
        ninep_model::qid_spec(s, path, metadata).0.fids == s.fids,
{
}

proof fn lemma_fid_contained(s: SessionView, fid: u32)
    requires
        session_contained(s),
    ensures
        ninep_model::fid_spec(s, fid) matches Ok(record) ==> normalized(record.path)
            && ninep_model::find_fid(s.fids, fid) is Some,
{
    ninep_laws::lemma_find_fid(s.fids, fid);
}

proof fn lemma_replaced_contained(s: SessionView, fid: u32, record: FidView)
    requires
        session_contained(s),
        ninep_model::find_fid(s.fids, fid) is Some,
        normalized(record.path),
    ensures
        session_contained(ninep_model::replaced_fid(s, fid, record)),
{
    ninep_laws::lemma_find_fid(s.fids, fid);
}

proof fn lemma_inserted_contained(s: SessionView, fid: u32, record: FidView)
    requires
        session_contained(s),
        normalized(record.path),
    ensures
        ninep_model::inserted_fid(s, fid, record) matches Ok(after) ==> session_contained(after),
{
}

proof fn lemma_without_contained(s: SessionView, i: int)
    requires
        session_contained(s),
        0 <= i < s.fids.len(),
    ensures
        session_contained(ninep_model::without_fid(s, i)),
{
    let left = s.fids.remove(i);
    assert forall|k: int| 0 <= k < left.len() implies normalized((#[trigger] left[k]).1.path) by {
        if k < i {
            assert(left[k] == s.fids[k]);
        } else {
            assert(left[k] == s.fids[k + 1]);
        }
    }
}

proof fn lemma_kept_contained(qids: Seq<(Seq<char>, u64)>, path: Seq<char>)
    requires
        forall|i: int| 0 <= i < qids.len() ==> normalized((#[trigger] qids[i]).0),
    ensures
        forall|i: int|
            0 <= i < ninep_model::kept_qids(qids, path).len() ==> normalized(
                (#[trigger] ninep_model::kept_qids(qids, path)[i]).0,
            ),
    decreases qids.len(),
{
    if qids.len() > 0 {
        let front = qids.drop_last();
        assert forall|i: int| 0 <= i < front.len() implies normalized(
            (#[trigger] front[i]).0,
        ) by {
            assert(front[i] == qids[i]);
        }
        lemma_kept_contained(front, path);
        let before = ninep_model::kept_qids(front, path);
        let kept = ninep_model::kept_qids(qids, path);
        assert forall|i: int| 0 <= i < kept.len() implies normalized((#[trigger] kept[i]).0) by {
            if i < before.len() {
                assert(kept[i] == before[i]);
            } else {
                assert(kept[i] == qids[qids.len() - 1]);
            }
        }
    }
}

proof fn lemma_forgotten_contained(s: SessionView, path: Seq<char>)
    requires
        session_contained(s),
    ensures
        session_contained(ninep_model::forgotten(s, path)),
{
    lemma_kept_contained(s.qids, path);
    let after = ninep_model::forgotten(s, path);
    assert forall|i: int| 0 <= i < after.fids.len() implies normalized(
        (#[trigger] after.fids[i]).1.path,
    ) by {
        assert(normalized(s.fids[i].1.path));
    }
}

proof fn lemma_renamed_contained(s: SessionView, source: Seq<char>, destination: Seq<char>)
    requires
        session_contained(s),
        normalized(destination),
        destination.len() > 0,
    ensures
        session_contained(ninep_model::renamed(s, source, destination)),
{
    let after = ninep_model::renamed(s, source, destination);
    assert forall|i: int| 0 <= i < after.fids.len() implies normalized(
        (#[trigger] after.fids[i]).1.path,
    ) by {
        lemma_moved_contained(s.fids[i].1.path, source, destination);
    }
    assert forall|i: int| 0 <= i < after.qids.len() implies normalized(
        (#[trigger] after.qids[i]).0,
    ) by {
        lemma_moved_contained(s.qids[i].0, source, destination);
    }
}

// The requests.

proof fn lemma_opened_contained(
    s: SessionView,
    asked: Seq<Operation>,
    fid: u32,
    record: FidView,
    flags: u32,
    metadata: Metadata,
)
    requires
        session_contained(s),
        all_contained(asked),
        ninep_model::find_fid(s.fids, fid) is Some,
        normalized(record.path),
    ensures
        turn_contained(ninep_model::opened(s, asked, fid, record, flags, metadata)),
{
    reveal(turn_contained);
    let held = FidView { open_flags: Some(flags), ..record };
    lemma_replaced_contained(s, fid, held);
    lemma_qid_contained(ninep_model::replaced_fid(s, fid, held), record.path, metadata);
}

proof fn lemma_attach_contained(s: SessionView, body: Seq<u8>, answers: Seq<Answer>)
    requires
        session_contained(s),
    ensures
        turn_contained(ninep_model::attach_spec(s, body, answers)),
{
    reveal(turn_contained);
    let root = Seq::<char>::empty();
    if let Ok((fid, _, _)) = ninep_model::attach_fields(body) {
        if let Ok(metadata) = answers[0]->Metadata_0 {
            lemma_qid_contained(s, root, metadata);
            lemma_inserted_contained(
                ninep_model::qid_spec(s, root, metadata).0,
                fid,
                ninep_model::fresh_record(root),
            );
        }
    }
}

proof fn lemma_walked_contained(
    s: SessionView,
    path: Seq<char>,
    names: Seq<Seq<char>>,
    count: nat,
    answers: Seq<Answer>,
)
    requires
        session_contained(s),
        normalized(path),
    ensures
        ({
            let w = ninep_model::walked(s, path, names, count, answers);
            &&& all_contained(w.asked)
            &&& session_contained(w.after)
            &&& normalized(w.path)
            &&& w.after.fids == s.fids
        }),
    decreases count,
{
    if count > 0 {
        lemma_walked_contained(s, path, names, (count - 1) as nat, answers);
        let w = ninep_model::walked(s, path, names, (count - 1) as nat, answers);
        lemma_step_contained(w.path, names[count - 1]);
        if let Ok(candidate) = ninep_model::walk_path_spec(w.path, names[count - 1]) {
            if let Ok(metadata) = answers[w.asked.len() as int]->Metadata_0 {
                lemma_qid_contained(w.after, candidate, metadata);
            }
        }
    }
}

proof fn lemma_walk_contained(s: SessionView, body: Seq<u8>, answers: Seq<Answer>)
    requires
        session_contained(s),
    ensures
        turn_contained(ninep_model::walk_spec(s, body, answers)),
{
    reveal(turn_contained);
    if let Ok((fid, new_fid, names)) = ninep_model::walk_fields(body) {
        lemma_fid_contained(s, fid);
        if let Ok(record) = ninep_model::fid_spec(s, fid) {
            lemma_walked_contained(s, record.path, names, names.len(), answers);
            let w = ninep_model::walked(s, record.path, names, names.len(), answers);
            lemma_replaced_contained(w.after, fid, ninep_model::fresh_record(w.path));
            lemma_inserted_contained(w.after, new_fid, ninep_model::fresh_record(w.path));
        }
    }
}

proof fn lemma_open_contained(s: SessionView, body: Seq<u8>, answers: Seq<Answer>)
    requires
        session_contained(s),
    ensures
        turn_contained(ninep_model::open_spec(s, body, answers)),
{
    reveal(turn_contained);
    if let Ok((fid, flags)) = ninep_model::two_words(body) {
        lemma_fid_contained(s, fid);
        if let Ok(record) = ninep_model::fid_spec(s, fid) {
            let looked = seq![Operation::Metadata(record.path)];
            let cut = looked.push(Operation::SetLen(record.path, 0));
            let asked = cut.push(Operation::Metadata(record.path));
            assert(all_contained(looked) && all_contained(cut) && all_contained(asked));
            if let Ok(metadata) = answers[0]->Metadata_0 {
                lemma_opened_contained(s, looked, fid, record, flags, metadata);
            }
            if let Ok(metadata) = answers[2]->Metadata_0 {
                lemma_opened_contained(s, asked, fid, record, flags, metadata);
            }
        }
    }
}

proof fn lemma_create_contained(s: SessionView, body: Seq<u8>, answers: Seq<Answer>)
    requires
        session_contained(s),
    ensures
        turn_contained(ninep_model::create_spec(s, body, answers)),
{
    reveal(turn_contained);
    if let Ok((fid, name, flags, mode)) = ninep_model::create_fields(body) {
        lemma_fid_contained(s, fid);
        if let Ok(record) = ninep_model::fid_spec(s, fid) {
            if let Ok(path) = ninep_model::child_spec(record.path, name) {
                lemma_child_contained(record.path, name);
                if let Ok(metadata) = answers[2]->Metadata_0 {
                    let t = ninep_model::create_spec(s, body, answers);
                    assert(all_contained(t.asked));
                    lemma_opened_contained(
                        s,
                        t.asked,
                        fid,
                        ninep_model::fresh_record(path),
                        flags,
                        metadata,
                    );
                }
            }
        }
    }
}

proof fn lemma_data_contained(s: SessionView, body: Seq<u8>, answers: Seq<Answer>)
    requires
        session_contained(s),
    ensures
        turn_contained(ninep_model::read_spec(s, body, answers)),
        turn_contained(ninep_model::write_spec(s, body, answers)),
        turn_contained(ninep_model::fsync_spec(s, body, answers)),
        turn_contained(ninep_model::setattr_spec(s, body, answers)),
{
    reveal(turn_contained);
    if let Ok((fid, _, _)) = ninep_model::read_fields(body) {
        lemma_fid_contained(s, fid);
    }
    if let Ok((fid, _, _)) = ninep_model::write_fields(body) {
        lemma_fid_contained(s, fid);
    }
    if let Ok((fid, _)) = ninep_model::two_words(body) {
        lemma_fid_contained(s, fid);
    }
    if let Ok((fid, _, _)) = ninep_model::setattr_fields(body) {
        lemma_fid_contained(s, fid);
    }
}

proof fn lemma_remove_contained(s: SessionView, body: Seq<u8>, answers: Seq<Answer>)
    requires
        session_contained(s),
    ensures
        turn_contained(ninep_model::remove_spec(s, body, answers)),
        turn_contained(ninep_model::clunk_spec(s, body)),
{
    reveal(turn_contained);
    if let Ok(fid) = ninep_model::one_word(body) {
        ninep_laws::lemma_find_fid(s.fids, fid);
        if let Some(i) = ninep_model::find_fid(s.fids, fid) {
            lemma_without_contained(s, i);
            lemma_forgotten_contained(ninep_model::without_fid(s, i), s.fids[i].1.path);
        }
    }
}

proof fn lemma_listing_plain(entries: Seq<EntryView>, i: int)
    requires
        ninep_model::listing_refusal(entries) is None,
        0 <= i < entries.len(),
    ensures
        ninep_model::name_refusal(entries[i].name) is None,
    decreases entries.len(),
{
    if i < entries.len() - 1 {
        lemma_listing_plain(entries.drop_last(), i);
    }
}

proof fn lemma_listed_contained(
    s: SessionView,
    path: Seq<char>,
    entries: Seq<EntryView>,
    offset: nat,
    count: nat,
    maximum: int,
)
    requires
        session_contained(s),
        normalized(path),
        ninep_model::listing_refusal(entries) is None,
        count == 0 || offset + count <= entries.len(),
    ensures
        session_contained(ninep_model::listed(s, path, entries, offset, count, maximum).after),
    decreases count,
{
    if count > 0 {
        lemma_listed_contained(s, path, entries, offset, (count - 1) as nat, maximum);
        let l = ninep_model::listed(s, path, entries, offset, (count - 1) as nat, maximum);
        let entry = entries[offset + count - 1];
        lemma_listing_plain(entries, offset + count - 1);
        lemma_child_contained(path, entry.name);
        lemma_qid_contained(l.after, ninep_model::child(path, entry.name), entry.metadata);
    }
}

proof fn lemma_readdir_contained(s: SessionView, body: Seq<u8>, answers: Seq<Answer>)
    requires
        session_contained(s),
    ensures
        turn_contained(ninep_model::readdir_spec(s, body, answers)),
{
    reveal(turn_contained);
    if let Ok((fid, offset, requested)) = ninep_model::readdir_fields(body) {
        lemma_fid_contained(s, fid);
        if let Ok(record) = ninep_model::fid_spec(s, fid) {
            if let Ok(entries) = answers[1]->Entries_0 {
                let ordered = ninep_model::sorted(entries);
                let count = if offset < ordered.len() {
                    (ordered.len() - offset) as nat
                } else {
                    0
                };
                if ninep_model::listing_refusal(ordered) is None {
                    lemma_listed_contained(
                        s,
                        record.path,
                        ordered,
                        offset as nat,
                        count,
                        ninep_model::payload_limit(s, requested),
                    );
                }
            }
        }
    }
}

proof fn lemma_attributes_contained(s: SessionView, body: Seq<u8>, answers: Seq<Answer>)
    requires
        session_contained(s),
    ensures
        turn_contained(ninep_model::getattr_spec(s, body, answers)),
        turn_contained(ninep_model::mkdir_spec(s, body, answers)),
{
    reveal(turn_contained);
    if let Ok(fid) = ninep_model::getattr_fields(body) {
        lemma_fid_contained(s, fid);
        if let Ok(record) = ninep_model::fid_spec(s, fid) {
            if let Ok(metadata) = answers[0]->Metadata_0 {
                lemma_qid_contained(s, record.path, metadata);
            }
        }
    }
    if let Ok((fid, name, mode)) = ninep_model::mkdir_fields(body) {
        lemma_fid_contained(s, fid);
        if let Ok(record) = ninep_model::fid_spec(s, fid) {
            if let Ok(path) = ninep_model::child_spec(record.path, name) {
                lemma_child_contained(record.path, name);
                if let Ok(metadata) = answers[2]->Metadata_0 {
                    lemma_qid_contained(s, path, metadata);
                }
            }
        }
    }
}

/// Both ends of a rename, and the target of an unlink, are normalized and not
/// the root.
proof fn lemma_targets_contained(s: SessionView, body: Seq<u8>)
    requires
        session_contained(s),
    ensures
        ninep_model::rename_fields(s, body) matches Ok((source, destination)) ==> normalized(source)
            && normalized(destination) && destination.len() > 0,
        ninep_model::unlink_fields(s, body) matches Ok((path, _)) ==> normalized(path),
{
    assert forall|fid: u32, name: Seq<char>|
        ninep_model::fid_spec(s, fid) is Ok && ninep_model::name_refusal(
            name,
        ) is None implies normalized(
        #[trigger] ninep_model::child(ninep_model::fid_spec(s, fid)->Ok_0.path, name),
    ) && ninep_model::child(ninep_model::fid_spec(s, fid)->Ok_0.path, name).len() > 0 by {
        lemma_fid_contained(s, fid);
        lemma_child_contained(ninep_model::fid_spec(s, fid)->Ok_0.path, name);
    }
}

proof fn lemma_rename_contained(s: SessionView, body: Seq<u8>, answers: Seq<Answer>)
    requires
        session_contained(s),
    ensures
        turn_contained(ninep_model::renameat_spec(s, body, answers)),
        turn_contained(ninep_model::unlinkat_spec(s, body, answers)),
{
    reveal(turn_contained);
    lemma_targets_contained(s, body);
    if let Ok((source, destination)) = ninep_model::rename_fields(s, body) {
        lemma_forgotten_contained(s, destination);
        lemma_renamed_contained(ninep_model::forgotten(s, destination), source, destination);
    }
    if let Ok((path, _)) = ninep_model::unlink_fields(s, body) {
        lemma_forgotten_contained(s, path);
    }
}

proof fn lemma_plain_requests_contained(s: SessionView, body: Seq<u8>, answers: Seq<Answer>)
    requires
        session_contained(s),
    ensures
        turn_contained(ninep_model::version_spec(s, body)),
        turn_contained(ninep_model::flush_spec(s, body)),
        turn_contained(ninep_model::statfs_spec(s, body, answers)),
        turn_contained(ninep_model::refused(s, Errno::NotSupported)),
{
    reveal(turn_contained);
}

proof fn lemma_dispatch_contained(
    s: SessionView,
    message_type: u8,
    body: Seq<u8>,
    answers: Seq<Answer>,
)
    requires
        session_contained(s),
    ensures
        turn_contained(ninep_model::dispatch_spec(s, message_type, body, answers)),
{
    reveal(ninep_model::dispatch_spec);
    lemma_plain_requests_contained(s, body, answers);
    lemma_attach_contained(s, body, answers);
    lemma_walk_contained(s, body, answers);
    lemma_open_contained(s, body, answers);
    lemma_create_contained(s, body, answers);
    lemma_data_contained(s, body, answers);
    lemma_remove_contained(s, body, answers);
    lemma_readdir_contained(s, body, answers);
    lemma_attributes_contained(s, body, answers);
    lemma_rename_contained(s, body, answers);
}

/// Whatever is requested, and whatever the filesystem answers, every path that
/// the filesystem is called with is relative to the root and normalized, with no
/// `.` or `..` component, and so is every path that the session remembers.
pub proof fn requests_stay_beneath_the_root(
    s: SessionView,
    request: Seq<u8>,
    answers: Seq<Answer>,
)
    requires
        session_contained(s),
    ensures
        all_contained(ninep_model::request_spec(s, request, answers).asked),
        session_contained(ninep_model::request_spec(s, request, answers).after),
{
    reveal(turn_contained);
    if ninep_model::header_refusal(s, request) is None {
        lemma_dispatch_contained(s, request[4], request.skip(HEADER_BYTES as int), answers);
    }
}

/// A fresh session remembers the root alone.
pub proof fn fresh_sessions_hold_the_root(export_name: Seq<char>)
    ensures
        session_contained(ninep_model::fresh_session(export_name)),
{
}

/// A normalized path holds no `..` component, and none that is empty.
pub proof fn normalized_paths_do_not_climb(path: Seq<char>, i: int)
    requires
        normalized(path),
        path.len() > 0,
        0 <= i < text::parts(path, '/').len(),
    ensures
        text::parts(path, '/')[i].len() > 0,
        text::parts(path, '/')[i] != seq!['.'],
        text::parts(path, '/')[i] != seq!['.', '.'],
{
    assert(ninep_model::name_refusal(text::parts(path, '/')[i]) is None);
}

} // verus!
