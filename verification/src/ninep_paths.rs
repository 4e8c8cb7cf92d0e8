//! Names and paths of the 9P service.

use crate::ninep;
use crate::ninep::{DirectoryEntry, Errno, Metadata, NodeKind, MAX_NAME_BYTES};
use crate::ninep::{MODE_DIRECTORY, MODE_REGULAR};
use crate::ninep_model;
use crate::text::{chars_of, control, same_text, string_of};
use crate::text;
use vstd::prelude::*;
use vstd::string::*;

verus! {

/// Whether a text is free of slashes and control characters.
pub fn plain_text(text: &str) -> (r: bool)
    ensures
        r == (forall|i: int|
            0 <= i < text@.len() ==> #[trigger] text@[i] != '/' && !text::is_control(
                text@[i],
            )),
{
    let chars = chars_of(text);
    let mut i: usize = 0;
    while i < chars.len()
        invariant
            i <= chars@.len(),
            chars@ == text@,
            forall|j: int|
                0 <= j < i ==> #[trigger] text@[j] != '/' && !text::is_control(text@[j]),
        decreases chars@.len() - i,
    {
        if chars[i] == '/' || control(chars[i]) {
            assert(!(text@[i as int] != '/' && !text::is_control(text@[i as int])));
            return false;
        }
        i = i + 1;
    }
    true
}

proof fn lemma_dots()
    ensures
        "."@ == seq!['.'],
        ".."@ == seq!['.', '.'],
{
    reveal_strlit(".");
    reveal_strlit("..");
    assert("."@ =~= seq!['.']);
    assert(".."@ =~= seq!['.', '.']);
}

/// Whether a name is a single path component.
pub fn validate_name(name: &str) -> (r: Result<(), Errno>)
    ensures
        match ninep_model::name_refusal(name@) {
            Some(error) => r == Err::<(), Errno>(error),
            None => r is Ok,
        },
{
    proof {
        lemma_dots();
    }
    let length: usize = name.as_bytes().len();
    if chars_of(name).len() == 0 || same_text(name, ".") || same_text(name, "..") {
        return Err(Errno::InvalidArgument);
    }
    if !plain_text(name) {
        return Err(Errno::InvalidArgument);
    }
    if length > MAX_NAME_BYTES {
        return Err(Errno::NameTooLong);
    }
    Ok(())
}

/// The path of a named child.
pub fn child_path(parent: &str, name: &str) -> (r: Result<String, Errno>)
    ensures
        match (r, ninep_model::child_spec(parent@, name@)) {
            (Ok(path), Ok(model)) => path@ == model,
            (Err(error), Err(model)) => error == model,
            _ => false,
        },
{
    validate_name(name)?;
    Ok(join(parent, name))
}

pub fn join(parent: &str, name: &str) -> (r: String)
    ensures
        r@ == ninep_model::child(parent@, name@),
{
    if chars_of(parent).len() == 0 {
        name.to_owned()
    } else {
        let mut path: String = parent.to_owned();
        path.push('/');
        path.append(name);
        path
    }
}

/// The path that one walk element leads to.
pub fn walk_path(parent: &str, name: &str) -> (r: Result<String, Errno>)
    ensures
        match (r, ninep_model::walk_path_spec(parent@, name@)) {
            (Ok(path), Ok(model)) => path@ == model,
            (Err(error), Err(model)) => error == model,
            _ => false,
        },
{
    proof {
        lemma_dots();
    }
    if same_text(name, ".") {
        Ok(parent.to_owned())
    } else if same_text(name, "..") {
        Ok(ancestor(parent))
    } else {
        child_path(parent, name)
    }
}

fn ancestor(path: &str) -> (r: String)
    ensures
        r@ == ninep_model::ancestor(path@),
{
    let mut chars = chars_of(path);
    while chars.len() > 0
        invariant
            ninep_model::ancestor(path@) == ninep_model::ancestor(chars@),
        decreases chars@.len(),
    {
        let ghost before = chars@;
        if let Some(last) = chars.pop() {
            assert(chars@ =~= before.drop_last());
            if last == '/' {
                return string_of(&chars);
            }
        }
    }
    string_of(&chars)
}

/// Whether `candidate` is `path` or lies beneath it.
pub fn is_beneath(path: &str, candidate: &str) -> (r: bool)
    ensures
        r == ninep_model::beneath(path@, candidate@),
{
    let above = chars_of(path);
    let below = chars_of(candidate);
    let length: usize = above.len();
    if below.len() < length {
        return false;
    }
    let mut i: usize = 0;
    while i < length
        invariant
            i <= length,
            length == above@.len(),
            above@ == path@,
            below@ == candidate@,
            length <= below@.len(),
            forall|j: int| 0 <= j < i ==> above@[j] == below@[j],
        decreases length - i,
    {
        if above[i] != below[i] {
            proof {
                assert(above@[i as int] != below@[i as int]);
                if above@.push('/').is_prefix_of(below@) {
                    assert(above@.push('/')[i as int] == above@[i as int]);
                    assert(below@.subrange(0, above@.len() as int + 1)[i as int]
                        == below@[i as int]);
                }
            }
            return false;
        }
        i = i + 1;
    }
    if below.len() == length {
        assert(below@ =~= above@);
        return true;
    }
    proof {
        let prefix = above@.push('/');
        let start = below@.subrange(0, length as int + 1);
        if below@[length as int] == '/' {
            assert(start =~= prefix);
        } else {
            assert(start[length as int] != prefix[length as int]);
        }
    }
    below[length] == '/'
}

/// Where a path is after `source` went to `destination`.
pub fn moved_path(path: &str, source: &str, destination: &str) -> (r: String)
    ensures
        r@ == ninep_model::moved(path@, source@, destination@),
{
    if is_beneath(source, path) {
        let chars = chars_of(path);
        let length: usize = chars_of(source).len();
        let mut out: String = destination.to_owned();
        let mut i: usize = length;
        proof {
            assert(source@.len() <= path@.len());
            assert(out@ =~= destination@ + path@.subrange(length as int, length as int));
        }
        while i < chars.len()
            invariant
                length <= i <= chars@.len(),
                chars@ == path@,
                out@ == destination@ + path@.subrange(length as int, i as int),
            decreases chars@.len() - i,
        {
            out.push(chars[i]);
            i = i + 1;
            assert(out@ =~= destination@ + path@.subrange(length as int, i as int));
        }
        assert(path@.subrange(length as int, path@.len() as int) =~= path@.skip(length as int));
        out
    } else {
        path.to_owned()
    }
}

/// File type and permission bits of a node.
pub fn protocol_mode(metadata: &Metadata) -> (r: u32)
    ensures
        r == ninep_model::mode_spec(*metadata),
{
    let kind: u32 = match metadata.kind {
        NodeKind::File => MODE_REGULAR,
        NodeKind::Directory => MODE_DIRECTORY,
    };
    kind | (metadata.mode & 0o7777)
}

/// Whether one byte string comes before another in dictionary order.
pub fn bytes_before(a: &[u8], b: &[u8]) -> (r: bool)
    ensures
        r == ninep_model::comes_before(a@, b@),
{
    let mut i: usize = 0;
    assert(a@.skip(0) =~= a@);
    assert(b@.skip(0) =~= b@);
    while i < a.len() && i < b.len()
        invariant
            i <= a@.len(),
            i <= b@.len(),
            ninep_model::comes_before(a@, b@) == ninep_model::comes_before(
                a@.skip(i as int),
                b@.skip(i as int),
            ),
        decreases a@.len() - i,
    {
        proof {
            assert(a@.skip(i as int).drop_first() =~= a@.skip(i + 1));
            assert(b@.skip(i as int).drop_first() =~= b@.skip(i + 1));
        }
        if a[i] != b[i] {
            return a[i] < b[i];
        }
        i = i + 1;
    }
    i < b.len()
}

/// Entries in name order; equal names keep their order.
pub fn sort_entries(entries: &Vec<DirectoryEntry>) -> (r: Vec<DirectoryEntry>)
    ensures
        ninep::entry_views(r@) == ninep_model::sorted(ninep::entry_views(entries@)),
{
    let ghost all = ninep::entry_views(entries@);
    let mut out: Vec<DirectoryEntry> = Vec::new();
    let mut n: usize = 0;
    assert(ninep::entry_views(out@) =~= all.subrange(0, 0));
    while n < entries.len()
        invariant
            n <= entries@.len(),
            all == ninep::entry_views(entries@),
            ninep::entry_views(out@) == ninep_model::sorted(all.subrange(0, n as int)),
        decreases entries@.len() - n,
    {
        let entry = DirectoryEntry {
            name: entries[n].name.clone(),
            metadata: entries[n].metadata,
        };
        let ghost before = ninep::entry_views(out@);
        let mut i: usize = out.len();
        assert(before.subrange(0, before.len() as int) =~= before);
        while i > 0 && bytes_before(entry.name.as_str().as_bytes(), out[i - 1].name.as_str().as_bytes())
            invariant
                i <= out@.len(),
                before == ninep::entry_views(out@),
                ninep_model::slot(before, entry@) == ninep_model::slot(
                    before.subrange(0, i as int),
                    entry@,
                ),
            decreases i,
        {
            proof {
                let prefix = before.subrange(0, i as int);
                assert(prefix.drop_last() =~= before.subrange(0, i - 1));
                assert(prefix.last() == before[i - 1]);
            }
            i = i - 1;
        }
        proof {
            let prefix = before.subrange(0, i as int);
            if i > 0 {
                assert(prefix.last() == before[i - 1]);
            }
            assert(ninep_model::slot(before, entry@) == i);
            let taken = all.subrange(0, n + 1);
            assert(taken.drop_last() =~= all.subrange(0, n as int));
            assert(taken.last() == all[n as int]);
            assert(entry@ =~= all[n as int]);
        }
        out.insert(i, entry);
        assert(ninep::entry_views(out@) =~= before.insert(i as int, all[n as int]));
        n = n + 1;
    }
    assert(all.subrange(0, n as int) =~= all);
    out
}

} // verus!
