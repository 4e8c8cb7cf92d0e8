//! Capsule-authoring forge: names, manual, skeletons, interface summaries and
//! diagnoses.

use crate::json;
use crate::json::{parse_json, Json, JsonView};
use crate::manifest;
use crate::manifest::{parse_toml, Toml, TomlView};
use crate::ninep_model;
use crate::ninep_paths::bytes_before;
use crate::scaffold;
use crate::scaffold::tool_skeleton;
use crate::text;
use crate::text::{
    alphanumeric, ascii_lower, begins_with, chars_of, ends_with, holds, join_texts, lines_of,
    push_decimal, same_text, slice_text, trim,
};
use vstd::prelude::*;
use vstd::string::*;

verus! {

/// Capsule directory under the principal home.
pub const CAPSULES_DIR: &'static str = "home://.local/capsules";

/// Directory of the interface contracts.
pub const WIT_DIR: &'static str = "home://wit";

/// Guidance appended to every diagnosis.
pub const DOCTOR_GUIDANCE: &'static str = "If a tool is declared in the manifest but the model \
isn't seeing it, it is almost certainly a manifest problem — check that each tool \
has its own `tool.v1.execute.<tool>` subscribe row with a `tool_execute_<tool>` \
handler, and that `tool.v1.execute.*.result` + `tool.v1.response.describe.*` are \
in [publish]. (The old describe fan-out race on first prompt after boot is fixed \
in the current kernel.)";

pub const GUIDE_TITLE: &'static str = "# Unicity AOS Author Manual\n\n\
Call `forge_guide` again with one `topic`. \
Load only the chapters relevant to the current decision.\n\n";

// Arguments of the tools.

#[derive(Debug)]
pub struct EmptyArgs {}

#[derive(Debug)]
pub struct ForgeGuideArgs {
    /// Manual topic to read. Omit it, or use `index`, to list every topic.
    pub topic: Option<String>,
}

#[derive(Debug)]
pub struct ScaffoldArgs {
    /// Capsule name, e.g. `aos-weather`. Becomes the crate name.
    pub name: String,
    /// Capsule kind. Only `"tool"` is supported (the default).
    pub kind: Option<String>,
}

#[derive(Debug)]
pub struct ExplainArgs {
    /// Interface filename, e.g. `tool` or `llm.wit`.
    pub name: String,
}

#[derive(Debug)]
pub struct IntentArgs {
    /// Plain-English description of what the capsule should be able to do.
    pub intent: String,
}

#[derive(Debug)]
pub struct ManifestArgs {
    /// The full contents of a `Capsule.toml` to lint.
    pub toml: String,
}

#[derive(Debug)]
pub struct DoctorArgs {
    /// Installed capsule name, e.g. `aos-system`.
    pub name: String,
}

// Names.

/// Whether a name could lead out of its directory.
pub open spec fn traverses(name: Seq<char>) -> bool {
    text::contains(name, "/"@) || text::contains(name, "\\"@) || text::contains(name, ".."@)
}

/// Rejects empty names and path-traversal characters.
pub fn validate_name(name: &str) -> (r: Result<(), &'static str>)
    ensures
        match r {
            Ok(_) => name@.len() > 0 && !traverses(name@),
            Err(error) => if name@.len() == 0 {
                error@ == "Name cannot be empty"@
            } else {
                traverses(name@) && error@ == "Invalid name — path traversal rejected"@
            },
        },
{
    if chars_of(name).len() == 0 {
        return Err("Name cannot be empty");
    }
    if holds(name, "/") || holds(name, "\\") || holds(name, "..") {
        return Err("Invalid name — path traversal rejected");
    }
    Ok(())
}

// The manual.

/// One chapter of the author manual.
#[derive(Clone, Copy, Debug)]
pub struct GuideChapter {
    pub topic: &'static str,
    pub summary: &'static str,
}

pub open spec fn chapters() -> Seq<(Seq<char>, Seq<char>)> {
    seq![
        ("foundations"@, "AOS, Astrid Runtime, capsules, skills, harnesses, plugins, and artifact choice"@),
        ("workspace"@, "portable source locations, repository discovery, scratch candidates, and ownership"@),
        ("capsule"@, "project anatomy, Rust macros, SDK modules, lifecycle, state, and principals"@),
        ("manifest"@, "complete Capsule.toml surface, packaging, environment, commands, and MCP"@),
        ("capabilities"@, "all capability fields, least authority, VFS paths, and host-call gates"@),
        ("ipc"@, "tool flow, topics, ACL matching, handlers, fan-out, layering, and priority"@),
        ("wit"@, "typed contracts, imports, exports, composition, and interface inspection"@),
        ("skills"@, "natural Skill design, capsule distribution, host plugins, precedence, and references"@),
        ("authority"@, "initiative, presentation, source changes, install, grants, consent, and activation"@),
        ("build"@, "scaffold, build, install, grant, test, diagnose, upgrade, and release loops"@),
        ("security"@, "untrusted inputs, failure semantics, limits, reliability, evaluation, and review"@),
        ("meta-harness"@, "proactive world extension and building a meta-harness from first principles"@),
    ]
}

pub open spec fn chapter_views(list: Seq<GuideChapter>) -> Seq<(Seq<char>, Seq<char>)> {
    Seq::new(list.len(), |i: int| (list[i].topic@, list[i].summary@))
}

/// The chapters of the manual.
pub fn guide_chapters() -> (r: [GuideChapter; 12])
    ensures
        chapter_views(r@) == chapters(),
{
    let list = [
        GuideChapter {
            topic: "foundations",
            summary: "AOS, Astrid Runtime, capsules, skills, harnesses, plugins, and artifact choice",
        },
        GuideChapter {
            topic: "workspace",
            summary: "portable source locations, repository discovery, scratch candidates, and ownership",
        },
        GuideChapter {
            topic: "capsule",
            summary: "project anatomy, Rust macros, SDK modules, lifecycle, state, and principals",
        },
        GuideChapter {
            topic: "manifest",
            summary: "complete Capsule.toml surface, packaging, environment, commands, and MCP",
        },
        GuideChapter {
            topic: "capabilities",
            summary: "all capability fields, least authority, VFS paths, and host-call gates",
        },
        GuideChapter {
            topic: "ipc",
            summary: "tool flow, topics, ACL matching, handlers, fan-out, layering, and priority",
        },
        GuideChapter {
            topic: "wit",
            summary: "typed contracts, imports, exports, composition, and interface inspection",
        },
        GuideChapter {
            topic: "skills",
            summary: "natural Skill design, capsule distribution, host plugins, precedence, and references",
        },
        GuideChapter {
            topic: "authority",
            summary: "initiative, presentation, source changes, install, grants, consent, and activation",
        },
        GuideChapter {
            topic: "build",
            summary: "scaffold, build, install, grant, test, diagnose, upgrade, and release loops",
        },
        GuideChapter {
            topic: "security",
            summary: "untrusted inputs, failure semantics, limits, reliability, evaluation, and review",
        },
        GuideChapter {
            topic: "meta-harness",
            summary: "proactive world extension and building a meta-harness from first principles",
        },
    ];
    assert(chapter_views(list@) =~= chapters());
    list
}

pub open spec fn index_line(topic: Seq<char>, summary: Seq<char>) -> Seq<char> {
    "- `"@ + topic + "` — "@ + summary + "\n"@
}

/// Title and the first `n` chapters.
pub open spec fn index_of(n: nat) -> Seq<char>
    decreases n,
{
    if n == 0 {
        GUIDE_TITLE@
    } else {
        index_of((n - 1) as nat) + index_line(chapters()[n - 1].0, chapters()[n - 1].1)
    }
}

/// The list of all chapters.
pub fn guide_index() -> (r: String)
    ensures
        r@ == index_of(12),
{
    let list = guide_chapters();
    let mut index: String = GUIDE_TITLE.to_owned();
    let mut i: usize = 0;
    while i < 12
        invariant
            i <= 12,
            list@.len() == 12,
            chapter_views(list@) == chapters(),
            index@ == index_of(i as nat),
        decreases 12 - i,
    {
        assert(chapters()[i as int] == (list@[i as int].topic@, list@[i as int].summary@));
        index.append("- `");
        index.append(list[i].topic);
        index.append("` — ");
        index.append(list[i].summary);
        index.append("\n");
        i = i + 1;
        assert(index@ =~= index_of(i as nat));
    }
    index
}

/// The index names every chapter, with its summary.
pub proof fn every_chapter_is_listed(n: nat, i: int)
    requires
        0 <= i < n <= chapters().len(),
    ensures
        text::contains(index_of(n), index_line(chapters()[i].0, chapters()[i].1)),
    decreases n,
{
    let line = index_line(chapters()[i].0, chapters()[i].1);
    let front = index_of((n - 1) as nat);
    let all = index_of(n);
    let at = if i == n - 1 {
        front.len() as int
    } else {
        every_chapter_is_listed((n - 1) as nat, i);
        choose|at: int| text::occurs_at(front, line, at)
    };
    if i < n - 1 {
        assert(all.subrange(at, at + line.len()) =~= front.subrange(at, at + line.len()));
    } else {
        assert(all.subrange(at, at + line.len()) =~= line);
    }
    assert(text::occurs_at(all, line, at));
}

/// A topic in lower case, with hyphens for underscores and spaces.
pub open spec fn normal_char(c: char) -> char {
    if c == '_' || c == ' ' {
        '-'
    } else {
        text::ascii_lower_of(c)
    }
}

pub open spec fn normalized(topic: Seq<char>) -> Seq<char> {
    topic.map_values(|c: char| normal_char(c))
}

fn normalize(topic: &[char]) -> (r: String)
    ensures
        r@ == normalized(topic@),
{
    let mut out = String::new();
    let mut i: usize = 0;
    while i < topic.len()
        invariant
            i <= topic@.len(),
            out@ == normalized(topic@).subrange(0, i as int),
        decreases topic@.len() - i,
    {
        let c: char = topic[i];
        if c == '_' || c == ' ' {
            out.push('-');
        } else {
            out.push(ascii_lower(c));
        }
        i = i + 1;
        assert(out@ =~= normalized(topic@).subrange(0, i as int));
    }
    assert(out@ =~= normalized(topic@));
    out
}

/// What a look into the manual gives.
#[derive(Debug)]
pub enum GuideReply {
    /// The chapter of this number.
    Chapter(usize),
    /// A text of the forge's own.
    Text(String),
}

pub open spec fn asked_topic(args: ForgeGuideArgs) -> Seq<char> {
    text::trimmed(
        match args.topic {
            Some(topic) => topic@,
            None => "index"@,
        },
    )
}

pub open spec fn asks_for_index(topic: Seq<char>) -> bool {
    topic.len() == 0 || topic == "index"@ || topic == "list"@ || topic == "help"@
}

// Directory listings.

/// Number of names at the front that do not come behind `name`.
pub open spec fn name_slot(sorted: Seq<Seq<char>>, name: Seq<char>) -> nat
    decreases sorted.len(),
{
    if sorted.len() == 0 {
        0
    } else if ninep_model::comes_before(
        vstd::utf8::encode_utf8(name),
        vstd::utf8::encode_utf8(sorted.last()),
    ) {
        name_slot(sorted.drop_last(), name)
    } else {
        sorted.len()
    }
}

/// Names in dictionary order of their bytes.
pub open spec fn sorted_names(names: Seq<Seq<char>>) -> Seq<Seq<char>>
    decreases names.len(),
{
    if names.len() == 0 {
        names
    } else {
        let front = sorted_names(names.drop_last());
        front.insert(name_slot(front, names.last()) as int, names.last())
    }
}

/// The names of a directory, sorted.
pub fn list_entries(names: &Vec<String>) -> (r: Vec<String>)
    ensures
        text::texts(r@) == sorted_names(text::texts(names@)),
{
    let ghost all = text::texts(names@);
    let mut out: Vec<String> = Vec::new();
    let mut n: usize = 0;
    assert(text::texts(out@) =~= all.subrange(0, 0));
    while n < names.len()
        invariant
            n <= names@.len(),
            all == text::texts(names@),
            text::texts(out@) == sorted_names(all.subrange(0, n as int)),
        decreases names@.len() - n,
    {
        let name = names[n].clone();
        let ghost before = text::texts(out@);
        let mut i: usize = out.len();
        assert(before.subrange(0, before.len() as int) =~= before);
        while i > 0 && bytes_before(name.as_str().as_bytes(), out[i - 1].as_str().as_bytes())
            invariant
                i <= out@.len(),
                before == text::texts(out@),
                name_slot(before, name@) == name_slot(before.subrange(0, i as int), name@),
            decreases i,
        {
            proof {
                let prefix = before.subrange(0, i as int);
                assert(prefix.drop_last() =~= before.subrange(0, i - 1));
                assert(prefix.last() == before[i - 1]);
            }
            i = i - 1;
        }
        proof {
            let prefix = before.subrange(0, i as int);
            if i > 0 {
                assert(prefix.last() == before[i - 1]);
            }
            assert(name_slot(before, name@) == i);
            let taken = all.subrange(0, n + 1);
            assert(taken.drop_last() =~= all.subrange(0, n as int));
            assert(taken.last() == all[n as int]);
        }
        out.insert(i, name);
        assert(text::texts(out@) =~= before.insert(i as int, all[n as int]));
        n = n + 1;
    }
    assert(all.subrange(0, n as int) =~= all);
    out
}

// Interfaces.

/// A file name without its extension.
pub open spec fn without_wit(name: Seq<char>) -> Seq<char> {
    if text::ends(name, ".wit"@) {
        name.take(name.len() - 4)
    } else {
        name
    }
}

/// The interface that a file name stands for.
pub fn interface_lookup_name(name: &str) -> (r: String)
    ensures
        r@ == without_wit(name@),
{
    let chars = chars_of(name);
    proof {
        reveal_strlit(".wit");
    }
    if ends_with(&chars, &chars_of(".wit")) {
        let kept = slice_text(&chars, 0, chars.len() - 4);
        assert(kept@ =~= name@.take(name@.len() - 4));
        kept
    } else {
        name.to_owned()
    }
}

/// Whether a directory entry holds interfaces.
pub fn is_wit_file(name: &str) -> (r: bool)
    ensures
        r == text::ends(name@, ".wit"@),
{
    ends_with(&chars_of(name), &chars_of(".wit"))
}

pub open spec fn name_char(c: char) -> bool {
    text::alphanumeric_of(c) || c == '-' || c == '_'
}

/// The characters of a name at the front of a text.
pub open spec fn leading_name(text: Seq<char>) -> Seq<char>
    decreases text.len(),
{
    if text.len() > 0 && name_char(text[0]) {
        seq![text[0]] + leading_name(text.drop_first())
    } else {
        Seq::empty()
    }
}

/// The name that a line declares behind a keyword.
pub open spec fn declared(line: Seq<char>, keyword: Seq<char>) -> Option<Seq<char>> {
    if text::begins(line, keyword) {
        let name = leading_name(line.skip(keyword.len() as int));
        if name.len() == 0 {
            None
        } else {
            Some(name)
        }
    } else {
        None
    }
}

pub open spec fn maybe_string(s: Option<String>) -> Option<Seq<char>> {
    match s {
        Some(s) => Some(s@),
        None => None,
    }
}

/// The declared name of a line like `interface foo {` or `record bar {`.
pub fn wit_decl_name(line: &str, keyword: &str) -> (r: Option<String>)
    ensures
        maybe_string(r) == declared(line@, keyword@),
{
    let chars = chars_of(line);
    let prefix = chars_of(keyword);
    if !begins_with(&chars, &prefix) {
        return None;
    }
    let start: usize = prefix.len();
    let ghost rest = line@.skip(start as int);
    let mut out = String::new();
    let mut i: usize = start;
    proof {
        assert(out@ =~= Seq::<char>::empty());
        assert(out@ + leading_name(rest) =~= leading_name(rest));
    }
    while i < chars.len() && (alphanumeric(chars[i]) || chars[i] == '-' || chars[i] == '_')
        invariant
            start <= i <= chars@.len(),
            chars@ == line@,
            rest == line@.skip(start as int),
            out@ + leading_name(line@.skip(i as int)) == leading_name(rest),
        decreases chars@.len() - i,
    {
        let ghost before = out@;
        out.push(chars[i]);
        proof {
            let here = line@.skip(i as int);
            assert(here.drop_first() =~= line@.skip(i + 1));
            assert(out@ + leading_name(line@.skip(i + 1)) =~= before + leading_name(here));
        }
        i = i + 1;
    }
    proof {
        assert(leading_name(line@.skip(i as int)) =~= Seq::<char>::empty());
        assert(out@ =~= leading_name(rest));
    }
    if chars_of(out.as_str()).len() == 0 {
        None
    } else {
        Some(out)
    }
}

pub open spec fn line_declares(line: Seq<char>, name: Seq<char>) -> bool {
    let kept = text::trimmed(line);
    declared(kept, "interface "@) == Some(name) || declared(kept, "world "@) == Some(name)
}

fn declares(line: &str, keyword: &str, name: &str) -> (r: bool)
    ensures
        r == (declared(line@, keyword@) == Some(name@)),
{
    match wit_decl_name(line, keyword) {
        Some(found) => same_text(found.as_str(), name),
        None => false,
    }
}

/// Whether some line of a text declares an interface or a world of this name.
pub open spec fn text_declares(wit: Seq<char>, name: Seq<char>) -> bool {
    exists|i: int|
        0 <= i < text::lines(wit).len() && line_declares(#[trigger] text::lines(wit)[i], name)
}

/// Whether a text declares an interface or a world of this name.
pub fn wit_declares(wit: &str, name: &str) -> (r: bool)
    ensures
        r == text_declares(wit@, name@),
{
    let lines = lines_of(wit);
    let ghost model = text::lines(wit@);
    assert(model.len() == lines@.len());
    let mut i: usize = 0;
    while i < lines.len()
        invariant
            i <= lines@.len(),
            model == text::lines(wit@),
            model == text::texts(lines@),
            forall|j: int| 0 <= j < i ==> !line_declares(#[trigger] model[j], name@),
        decreases lines@.len() - i,
    {
        assert(model[i as int] == lines@[i as int]@);
        let line = trim(&chars_of(lines[i].as_str()));
        if declares(line.as_str(), "interface ", name) || declares(line.as_str(), "world ", name) {
            assert(line_declares(model[i as int], name@));
            return true;
        }
        i = i + 1;
    }
    false
}

/// Whether a directory entry, with its text where it could be read, is an
/// interface file that declares this name.
pub open spec fn file_declares(file: (String, Option<String>), name: Seq<char>) -> bool {
    text::ends(file.0@, ".wit"@) && match file.1 {
        Some(wit) => text_declares(wit@, name),
        None => false,
    }
}

/// The first file that declares an interface, for contracts that are bundled
/// rather than kept in one file per interface.
pub fn find_declared_interface(name: &str, files: &Vec<(String, Option<String>)>) -> (r: Option<
    usize,
>)
    ensures
        match r {
            Some(i) => {
                &&& i < files@.len()
                &&& file_declares(files@[i as int], name@)
                &&& forall|j: int| 0 <= j < i ==> !file_declares(#[trigger] files@[j], name@)
            },
            None => forall|j: int|
                0 <= j < files@.len() ==> !file_declares(#[trigger] files@[j], name@),
        },
{
    let mut i: usize = 0;
    while i < files.len()
        invariant
            i <= files@.len(),
            forall|j: int| 0 <= j < i ==> !file_declares(#[trigger] files@[j], name@),
        decreases files@.len() - i,
    {
        if is_wit_file(files[i].0.as_str()) {
            if let Some(wit) = &files[i].1 {
                if wit_declares(wit.as_str(), name) {
                    return Some(i);
                }
            }
        }
        i = i + 1;
    }
    None
}

/// A text without semicolons at its end.
pub open spec fn without_semicolons(s: Seq<char>) -> Seq<char>
    decreases s.len(),
{
    if s.len() > 0 && s.last() == ';' {
        without_semicolons(s.drop_last())
    } else {
        s
    }
}

/// The package that a line names.
pub open spec fn package_of(line: Seq<char>) -> Option<Seq<char>> {
    if text::begins(line, "package "@) {
        Some(text::trimmed(without_semicolons(line.skip("package "@.len() as int))))
    } else {
        None
    }
}

/// Package, interfaces and records of the first `n` lines.
#[verifier::ext_equal]
pub struct WitView {
    pub package: Option<Seq<char>>,
    pub interfaces: Seq<Seq<char>>,
    pub records: Seq<Seq<char>>,
}

pub open spec fn wit_of(lines: Seq<Seq<char>>, n: nat) -> WitView
    decreases n,
{
    if n == 0 {
        WitView { package: None, interfaces: Seq::empty(), records: Seq::empty() }
    } else {
        let w = wit_of(lines, (n - 1) as nat);
        let line = text::trimmed(lines[n - 1]);
        match package_of(line) {
            Some(package) => WitView { package: Some(package), ..w },
            None => match declared(line, "interface "@) {
                Some(name) => WitView { interfaces: w.interfaces.push(name), ..w },
                None => match declared(line, "record "@) {
                    Some(name) => WitView { records: w.records.push(name), ..w },
                    None => w,
                },
            },
        }
    }
}

pub open spec fn names_or_none(names: Seq<Seq<char>>) -> Seq<char> {
    if names.len() == 0 {
        "(none)"@
    } else {
        text::joined(names, ", "@)
    }
}

pub open spec fn wit_summary(w: WitView) -> Seq<char> {
    "package: "@ + (match w.package {
        Some(package) => package,
        None => "(none)"@,
    }) + "\ninterfaces ("@ + text::decimal(w.interfaces.len()) + "): "@ + names_or_none(
        w.interfaces,
    ) + "\nrecords ("@ + text::decimal(w.records.len()) + "): "@ + names_or_none(w.records)
}

fn package_name(line: &str) -> (r: Option<String>)
    ensures
        maybe_string(r) == package_of(line@),
{
    let chars = chars_of(line);
    let prefix = chars_of("package ");
    if !begins_with(&chars, &prefix) {
        return None;
    }
    let start: usize = prefix.len();
    let ghost rest = line@.skip(start as int);
    let mut end: usize = chars.len();
    assert(chars@.subrange(start as int, end as int) =~= rest);
    while end > start && chars[end - 1] == ';'
        invariant
            start <= end <= chars@.len(),
            without_semicolons(rest) == without_semicolons(
                chars@.subrange(start as int, end as int),
            ),
        decreases end,
    {
        assert(chars@.subrange(start as int, end as int).drop_last() =~= chars@.subrange(
            start as int,
            end - 1,
        ));
        end = end - 1;
    }
    Some(trim(vstd::slice::slice_subrange(&chars, start, end)))
}

fn push_names(out: &mut String, names: &Vec<String>)
    ensures
        final(out)@ == old(out)@ + names_or_none(text::texts(names@)),
{
    if names.len() == 0 {
        out.append("(none)");
    } else {
        let list = join_texts(names.as_slice(), ", ");
        out.append(list.as_str());
    }
}

/// The package, interface and record names of a contract. Not a real parser:
/// just enough to orient the reader.
pub fn summarize_wit(wit: &str) -> (r: String)
    ensures
        r@ == wit_summary(wit_of(text::lines(wit@), text::lines(wit@).len())),
{
    let lines = lines_of(wit);
    let ghost model = text::lines(wit@);
    assert(model.len() == lines@.len());
    let mut package: Option<String> = None;
    let mut interfaces: Vec<String> = Vec::new();
    let mut records: Vec<String> = Vec::new();
    let mut i: usize = 0;
    assert(text::texts(interfaces@) =~= Seq::<Seq<char>>::empty());
    while i < lines.len()
        invariant
            i <= lines@.len(),
            model == text::texts(lines@),
            wit_of(model, i as nat) == (WitView {
                package: maybe_string(package),
                interfaces: text::texts(interfaces@),
                records: text::texts(records@),
            }),
        decreases lines@.len() - i,
    {
        assert(model[i as int] == lines@[i as int]@);
        let ghost before = wit_of(model, i as nat);
        let line = trim(&chars_of(lines[i].as_str()));
        if let Some(name) = package_name(line.as_str()) {
            package = Some(name);
        } else if let Some(name) = wit_decl_name(line.as_str(), "interface ") {
            interfaces.push(name);
            assert(text::texts(interfaces@) =~= before.interfaces.push(name@));
        } else if let Some(name) = wit_decl_name(line.as_str(), "record ") {
            records.push(name);
            assert(text::texts(records@) =~= before.records.push(name@));
        }
        i = i + 1;
    }
    let mut out: String = "package: ".to_owned();
    match &package {
        Some(name) => out.append(name.as_str()),
        None => out.append("(none)"),
    }
    out.append("\ninterfaces (");
    push_decimal(&mut out, interfaces.len() as u128);
    out.append("): ");
    push_names(&mut out, &interfaces);
    out.append("\nrecords (");
    push_decimal(&mut out, records.len() as u128);
    out.append("): ");
    push_names(&mut out, &records);
    out
}

pub open spec fn wit_page(filename: Seq<char>, wit: Seq<char>) -> Seq<char> {
    "=== "@ + filename + " ===\n"@ + wit + "\n\n=== summary ===\n"@ + wit_summary(
        wit_of(text::lines(wit), text::lines(wit).len()),
    )
}

/// A contract and its summary.
pub fn format_wit(filename: &str, wit: &str) -> (r: String)
    ensures
        r@ == wit_page(filename@, wit@),
{
    let summary = summarize_wit(wit);
    let mut out: String = "=== ".to_owned();
    out.append(filename);
    out.append(" ===\n");
    out.append(wit);
    out.append("\n\n=== summary ===\n");
    out.append(summary.as_str());
    out
}

// Diagnoses.

/// One finding of a diagnosis.
#[derive(Debug)]
pub struct Finding {
    pub level: &'static str,
    pub message: String,
    pub fix: String,
}

#[verifier::ext_equal]
pub struct FindingView {
    pub level: Seq<char>,
    pub message: Seq<char>,
    pub fix: Seq<char>,
}

impl Finding {
    pub open spec fn view(&self) -> FindingView {
        FindingView { level: self.level@, message: self.message@, fix: self.fix@ }
    }
}

pub open spec fn finding_views(findings: Seq<Finding>) -> Seq<FindingView> {
    Seq::new(findings.len(), |i: int| findings[i].view())
}

pub open spec fn missing_import(import: Seq<char>) -> FindingView {
    FindingView {
        level: "error"@,
        message: "Import `"@ + import + "` is not exported by any installed capsule."@,
        fix: "Install a capsule that exports `"@ + import + "` before this one boots."@,
    }
}

/// Findings after the first `n` imports are looked at: one for each that
/// nothing exports.
pub open spec fn diagnosed(
    before: Seq<FindingView>,
    imports: Seq<Seq<char>>,
    exports: Seq<Seq<char>>,
    n: nat,
) -> Seq<FindingView>
    decreases n,
{
    if n == 0 {
        before
    } else {
        let found = diagnosed(before, imports, exports, (n - 1) as nat);
        if exports.contains(imports[n - 1]) {
            found
        } else {
            found.push(missing_import(imports[n - 1]))
        }
    }
}

fn listed(names: &Vec<String>, name: &str) -> (r: bool)
    ensures
        r == text::texts(names@).contains(name@),
{
    let ghost all = text::texts(names@);
    let mut i: usize = 0;
    while i < names.len()
        invariant
            i <= names@.len(),
            all == text::texts(names@),
            forall|j: int| 0 <= j < i ==> #[trigger] all[j] != name@,
        decreases names@.len() - i,
    {
        if same_text(names[i].as_str(), name) {
            assert(all[i as int] == name@);
            return true;
        }
        i = i + 1;
    }
    false
}

/// Adds a finding for each import that nothing exports.
pub fn report_imports(
    imports: &Vec<String>,
    exports: &Vec<String>,
    findings: &mut Vec<Finding>,
)
    ensures
        finding_views(final(findings)@) == diagnosed(
            finding_views(old(findings)@),
            text::texts(imports@),
            text::texts(exports@),
            imports@.len(),
        ),
{
    let ghost wanted = text::texts(imports@);
    let ghost start = finding_views(findings@);
    let mut i: usize = 0;
    while i < imports.len()
        invariant
            i <= imports@.len(),
            wanted == text::texts(imports@),
            start == finding_views(old(findings)@),
            finding_views(findings@) == diagnosed(
                start,
                wanted,
                text::texts(exports@),
                i as nat,
            ),
        decreases imports@.len() - i,
    {
        assert(wanted[i as int] == imports@[i as int]@);
        if !listed(exports, imports[i].as_str()) {
            let ghost before = finding_views(findings@);
            let mut message: String = "Import `".to_owned();
            message.append(imports[i].as_str());
            message.append("` is not exported by any installed capsule.");
            let mut fix: String = "Install a capsule that exports `".to_owned();
            fix.append(imports[i].as_str());
            fix.append("` before this one boots.");
            findings.push(Finding { level: "error", message, fix });
            assert(finding_views(findings@) =~= before.push(missing_import(wanted[i as int])));
        }
        i = i + 1;
    }
}

/// An import that nothing exports is always reported.
pub proof fn missing_imports_are_reported(
    before: Seq<FindingView>,
    imports: Seq<Seq<char>>,
    exports: Seq<Seq<char>>,
    n: nat,
    i: int,
)
    requires
        0 <= i < n <= imports.len(),
        !exports.contains(imports[i]),
    ensures
        diagnosed(before, imports, exports, n).contains(missing_import(imports[i])),
    decreases n,
{
    let found = diagnosed(before, imports, exports, n);
    let front = diagnosed(before, imports, exports, (n - 1) as nat);
    if i == n - 1 {
        assert(found[found.len() - 1] == missing_import(imports[i]));
    } else {
        missing_imports_are_reported(before, imports, exports, (n - 1) as nat, i);
        let k = choose|k: int| 0 <= k < front.len() && front[k] == missing_import(imports[i]);
        assert(found[k] == missing_import(imports[i]));
    }
}

/// Nothing else is reported, and earlier findings stay in front.
pub proof fn only_missing_imports_are_reported(
    before: Seq<FindingView>,
    imports: Seq<Seq<char>>,
    exports: Seq<Seq<char>>,
    n: nat,
    k: int,
)
    requires
        n <= imports.len(),
        0 <= k < diagnosed(before, imports, exports, n).len(),
    ensures
        ({
            let found = diagnosed(before, imports, exports, n);
            &&& before.len() <= found.len()
            &&& if k < before.len() {
                found[k] == before[k]
            } else {
                exists|i: int|
                    0 <= i < n && !exports.contains(#[trigger] imports[i]) && found[k]
                        == missing_import(imports[i])
            }
        }),
    decreases n,
{
    if n > 0 {
        let front = diagnosed(before, imports, exports, (n - 1) as nat);
        let found = diagnosed(before, imports, exports, n);
        if k < front.len() {
            only_missing_imports_are_reported(before, imports, exports, (n - 1) as nat, k);
            assert(found[k] == front[k]);
        } else {
            assert(!exports.contains(imports[n - 1]));
            lemma_findings_grow(before, imports, exports, (n - 1) as nat);
        }
    }
}

proof fn lemma_findings_grow(
    before: Seq<FindingView>,
    imports: Seq<Seq<char>>,
    exports: Seq<Seq<char>>,
    n: nat,
)
    ensures
        before.len() <= diagnosed(before, imports, exports, n).len(),
    decreases n,
{
    if n > 0 {
        lemma_findings_grow(before, imports, exports, (n - 1) as nat);
    }
}

/// The interfaces that a manifest imports: the keys of its `imports` table.
/// A malformed manifest imports none.
pub open spec fn imports_of(document: Option<TomlView>) -> Seq<Seq<char>> {
    match document {
        Some(document) => manifest::table_keys_of(document, "imports"@),
        None => Seq::empty(),
    }
}

/// The interfaces that a manifest imports.
pub fn manifest_imports(manifest: &str) -> (r: Vec<String>)
    ensures
        text::texts(r@) == imports_of(manifest::toml_of(manifest@)),
{
    document_imports(&parse_toml(manifest))
}

/// The interfaces that a parsed manifest imports.
pub fn document_imports(document: &Option<Toml>) -> (r: Vec<String>)
    ensures
        text::texts(r@) == imports_of(manifest::maybe_view(*document)),
{
    match document {
        Some(document) => document.table_keys("imports"),
        None => {
            let none: Vec<String> = Vec::new();
            assert(text::texts(none@) =~= Seq::<Seq<char>>::empty());
            none
        },
    }
}

/// `namespace:name` for the first `n` fields of one namespace.
pub open spec fn namespace_keys(
    namespace: Seq<char>,
    fields: Seq<(Seq<char>, JsonView)>,
    n: nat,
) -> Seq<Seq<char>>
    decreases n,
{
    if n == 0 {
        Seq::empty()
    } else {
        namespace_keys(namespace, fields, (n - 1) as nat).push(
            namespace + ":"@ + fields[n - 1].0,
        )
    }
}

/// The exported interfaces in the first `n` namespaces.
pub open spec fn export_keys(fields: Seq<(Seq<char>, JsonView)>, n: nat) -> Seq<Seq<char>>
    decreases n,
{
    if n == 0 {
        Seq::empty()
    } else {
        let front = export_keys(fields, (n - 1) as nat);
        match fields[n - 1].1 {
            JsonView::Object(inner) => front + namespace_keys(
                fields[n - 1].0,
                inner,
                inner.len(),
            ),
            _ => front,
        }
    }
}

/// The exported interfaces that the metadata of a capsule lists.
pub open spec fn exports_of(metadata: JsonView) -> Seq<Seq<char>> {
    match json::field_of(metadata, "exports"@) {
        Some(JsonView::Object(fields)) => export_keys(fields, fields.len()),
        _ => Seq::empty(),
    }
}

fn push_namespace(namespace: &str, fields: &Vec<(String, Json)>, out: &mut Vec<String>)
    ensures
        text::texts(final(out)@) == text::texts(old(out)@) + namespace_keys(
            namespace@,
            json::field_views(fields@),
            fields@.len(),
        ),
{
    let ghost start = text::texts(out@);
    let ghost model = json::field_views(fields@);
    proof {
        json::lemma_field_views(fields@);
    }
    let mut i: usize = 0;
    assert(start + namespace_keys(namespace@, model, 0) =~= start);
    while i < fields.len()
        invariant
            i <= fields@.len(),
            model.len() == fields@.len(),
            forall|j: int| 0 <= j < model.len() ==> (#[trigger] model[j]).0 == fields@[j].0@,
            text::texts(out@) == start + namespace_keys(namespace@, model, i as nat),
        decreases fields@.len() - i,
    {
        let ghost before = text::texts(out@);
        let mut key: String = namespace.to_owned();
        key.append(":");
        key.append(fields[i].0.as_str());
        out.push(key);
        i = i + 1;
        proof {
            assert(text::texts(out@) =~= before.push(key@));
            assert(text::texts(out@) =~= start + namespace_keys(namespace@, model, i as nat));
        }
    }
}

/// Adds the exported interfaces that the metadata of a capsule lists.
pub fn collect_export_keys(metadata: &Json, out: &mut Vec<String>)
    ensures
        text::texts(final(out)@) == text::texts(old(out)@) + exports_of(metadata@),
{
    let ghost start = text::texts(out@);
    assert(start + Seq::<Seq<char>>::empty() =~= start);
    if let Some(Json::Object(fields)) = metadata.get("exports") {
        let ghost model = json::field_views(fields@);
        proof {
            json::lemma_field_views(fields@);
        }
        let mut i: usize = 0;
        assert(start + export_keys(model, 0) =~= start);
        while i < fields.len()
            invariant
                i <= fields@.len(),
                model.len() == fields@.len(),
                forall|j: int|
                    0 <= j < model.len() ==> #[trigger] model[j] == (
                        fields@[j].0@,
                        fields@[j].1.view(),
                    ),
                text::texts(out@) == start + export_keys(model, i as nat),
            decreases fields@.len() - i,
        {
            assert(model[i as int] == (fields@[i as int].0@, fields@[i as int].1.view()));
            if let Json::Object(inner) = &fields[i].1 {
                let ghost before = text::texts(out@);
                push_namespace(fields[i].0.as_str(), inner, out);
                proof {
                    json::lemma_field_views(inner@);
                    assert(text::texts(out@) =~= start + export_keys(model, (i + 1) as nat));
                }
            }
            i = i + 1;
        }
    }
}

/// The exports of the first `n` installed capsules but the target. A capsule
/// whose metadata could not be read or parsed exports nothing.
pub open spec fn installed_exports(
    target: Seq<char>,
    installed: Seq<(Seq<char>, Option<JsonView>)>,
    n: nat,
) -> Seq<Seq<char>>
    decreases n,
{
    if n == 0 {
        Seq::empty()
    } else {
        let front = installed_exports(target, installed, (n - 1) as nat);
        let (name, metadata) = installed[n - 1];
        match metadata {
            Some(metadata) => if name == target {
                front
            } else {
                front + exports_of(metadata)
            },
            None => front,
        }
    }
}

/// Names and documents of the installed capsules.
pub open spec fn metadata_views(installed: Seq<(String, Option<Json>)>) -> Seq<
    (Seq<char>, Option<JsonView>),
> {
    Seq::new(installed.len(), |i: int| (installed[i].0@, json::maybe_view(installed[i].1)))
}

/// Names of the installed capsules, and the documents that their metadata files
/// hold; a file that could not be read holds none.
pub open spec fn parsed_metadata(files: Seq<(String, Option<String>)>) -> Seq<
    (Seq<char>, Option<JsonView>),
> {
    Seq::new(
        files.len(),
        |i: int|
            (
                files[i].0@,
                match files[i].1 {
                    Some(content) => json::json_of(content@),
                    None => None,
                },
            ),
    )
}

/// Every exported interface of the installed capsules but the target, read from
/// the texts of their metadata files.
pub fn all_installed_exports(target: &str, files: &Vec<(String, Option<String>)>) -> (r: Vec<
    String,
>)
    ensures
        text::texts(r@) == installed_exports(target@, parsed_metadata(files@), files@.len()),
{
    let mut installed: Vec<(String, Option<Json>)> = Vec::new();
    let mut i: usize = 0;
    while i < files.len()
        invariant
            i <= files@.len(),
            metadata_views(installed@) == parsed_metadata(files@).subrange(0, i as int),
        decreases files@.len() - i,
    {
        let metadata: Option<Json> = match &files[i].1 {
            Some(content) => parse_json(content.as_str()),
            None => None,
        };
        let ghost before = metadata_views(installed@);
        let name: String = files[i].0.as_str().to_owned();
        installed.push((name, metadata));
        i = i + 1;
        proof {
            assert(metadata_views(installed@) =~= before.push(
                (name@, json::maybe_view(metadata)),
            ));
            assert(metadata_views(installed@) =~= parsed_metadata(files@).subrange(0, i as int));
        }
    }
    assert(metadata_views(installed@) =~= parsed_metadata(files@));
    exports_of_documents(target, &installed)
}

/// Every exported interface of the installed capsules but the target, read from
/// their parsed metadata.
pub fn exports_of_documents(target: &str, installed: &Vec<(String, Option<Json>)>) -> (r: Vec<
    String,
>)
    ensures
        text::texts(r@) == installed_exports(
            target@,
            metadata_views(installed@),
            installed@.len(),
        ),
{
    let mut exports: Vec<String> = Vec::new();
    let mut i: usize = 0;
    assert(text::texts(exports@) =~= Seq::<Seq<char>>::empty());
    while i < installed.len()
        invariant
            i <= installed@.len(),
            text::texts(exports@) == installed_exports(
                target@,
                metadata_views(installed@),
                i as nat,
            ),
        decreases installed@.len() - i,
    {
        if !same_text(installed[i].0.as_str(), target) {
            if let Some(metadata) = &installed[i].1 {
                collect_export_keys(metadata, &mut exports);
            }
        }
        i = i + 1;
    }
    exports
}

/// Cross-checks the imports of a manifest against what the other installed
/// capsules export, given the texts of their metadata files.
pub fn diagnose_imports(
    target: &str,
    manifest: &str,
    files: &Vec<(String, Option<String>)>,
    findings: &mut Vec<Finding>,
)
    ensures
        ({
            let imports = imports_of(manifest::toml_of(manifest@));
            finding_views(final(findings)@) == diagnosed(
                finding_views(old(findings)@),
                imports,
                installed_exports(target@, parsed_metadata(files@), files@.len()),
                imports.len(),
            )
        }),
{
    let imports = manifest_imports(manifest);
    let exports = all_installed_exports(target, files);
    assert(text::texts(imports@).len() == imports@.len());
    report_imports(&imports, &exports, findings);
}

// The tools.

/// Tools for writing capsules.
#[derive(Debug)]
pub struct ForgeTools;

/// What a request for a skeleton gives.
#[derive(Debug)]
pub enum Scaffolded {
    /// Path and content of each file.
    Files(Vec<(&'static str, String)>),
    /// Why there is none for this kind.
    Unsupported(String),
}

/// What explaining an interface needs first.
pub open spec fn wit_filename(name: Seq<char>) -> Seq<char> {
    if text::ends(name, ".wit"@) {
        name
    } else {
        name + ".wit"@
    }
}

pub const NO_INTERFACES: &'static str = "(none — the WIT store fills from installed capsules; inspect the project's pinned WIT source or install the required provider)";

impl ForgeTools {
    /// One chapter of the manual, or the list of them.
    pub fn forge_guide(&self, args: &ForgeGuideArgs) -> (r: GuideReply)
        ensures
            ({
                let topic = asked_topic(*args);
                let wanted = normalized(topic);
                match r {
                    GuideReply::Text(reply) => if asks_for_index(wanted) {
                        reply@ == index_of(12)
                    } else {
                        &&& forall|i: int|
                            0 <= i < chapters().len() ==> (#[trigger] chapters()[i]).0 != wanted
                        &&& reply@ == "Unknown Forge guide topic '"@ + topic + "'.\n\n"@
                            + index_of(12)
                    },
                    GuideReply::Chapter(i) => !asks_for_index(wanted) && i < chapters().len()
                        && chapters()[i as int].0 == wanted,
                }
            }),
    {
        let asked: &str = match &args.topic {
            Some(topic) => topic.as_str(),
            None => "index",
        };
        let topic = trim(&chars_of(asked));
        let ghost model = asked_topic(*args);
        let wanted = normalize(&chars_of(topic.as_str()));
        if chars_of(wanted.as_str()).len() == 0 || same_text(wanted.as_str(), "index")
            || same_text(wanted.as_str(), "list") || same_text(wanted.as_str(), "help") {
            return GuideReply::Text(guide_index());
        }
        let list = guide_chapters();
        let mut i: usize = 0;
        while i < 12
            invariant
                i <= 12,
                list@.len() == 12,
                chapter_views(list@) == chapters(),
                !asks_for_index(wanted@),
                topic@ == model,
                wanted@ == normalized(model),
                model == asked_topic(*args),
                forall|j: int| 0 <= j < i ==> (#[trigger] chapters()[j]).0 != wanted@,
            decreases 12 - i,
        {
            assert(chapters()[i as int].0 == list@[i as int].topic@);
            if same_text(list[i].topic, wanted.as_str()) {
                return GuideReply::Chapter(i);
            }
            i = i + 1;
        }
        let mut reply: String = "Unknown Forge guide topic '".to_owned();
        reply.append(topic.as_str());
        reply.append("'.\n\n");
        let index = guide_index();
        reply.append(index.as_str());
        GuideReply::Text(reply)
    }

    /// A complete, compiling tool-capsule skeleton.
    pub fn scaffold_capsule(&self, args: &ScaffoldArgs) -> (r: Result<Scaffolded, &'static str>)
        ensures
            ({
                let name = text::trimmed(args.name@);
                let kind = match args.kind {
                    Some(kind) => kind@,
                    None => "tool"@,
                };
                match r {
                    Err(error) => if name.len() == 0 {
                        error@ == "Name cannot be empty"@
                    } else {
                        traverses(name) && error@ == "Invalid name — path traversal rejected"@
                    },
                    Ok(Scaffolded::Files(files)) => name.len() > 0 && !traverses(name) && kind
                        == "tool"@ && scaffold::file_views(files@) == scaffold::skeleton(name),
                    Ok(Scaffolded::Unsupported(note)) => name.len() > 0 && !traverses(name)
                        && kind != "tool"@ && note@ == "kind \""@ + kind
                        + "\" is not supported in v1; only \"tool\" is available."@,
                }
            }),
    {
        let name = trim(&chars_of(args.name.as_str()));
        validate_name(name.as_str())?;
        let kind: &str = match &args.kind {
            Some(kind) => kind.as_str(),
            None => "tool",
        };
        if !same_text(kind, "tool") {
            let mut note: String = "kind \"".to_owned();
            note.append(kind);
            note.append("\" is not supported in v1; only \"tool\" is available.");
            return Ok(Scaffolded::Unsupported(note));
        }
        Ok(Scaffolded::Files(tool_skeleton(name.as_str())))
    }

    /// The file in which an interface is looked for first.
    pub fn explain_interface(&self, args: &ExplainArgs) -> (r: Result<String, &'static str>)
        ensures
            ({
                let name = text::trimmed(args.name@);
                match r {
                    Ok(filename) => name.len() > 0 && !traverses(name) && filename@
                        == wit_filename(name),
                    Err(error) => if name.len() == 0 {
                        error@ == "Name cannot be empty"@
                    } else {
                        traverses(name) && error@ == "Invalid name — path traversal rejected"@
                    },
                }
            }),
    {
        let name = trim(&chars_of(args.name.as_str()));
        validate_name(name.as_str())?;
        if is_wit_file(name.as_str()) {
            Ok(name)
        } else {
            let mut filename = name;
            filename.append(".wit");
            Ok(filename)
        }
    }

    /// The page of an interface that was found inside a bundle.
    pub fn explain_bundled(&self, name: &str, bundle: &str, wit: &str) -> (r: String)
        ensures
            r@ == "Interface '"@ + name@ + "' is declared inside bundled file '"@ + bundle@
                + "'.\n\n"@ + wit_page(bundle@, wit@),
    {
        let page = format_wit(bundle, wit);
        let mut out: String = "Interface '".to_owned();
        out.append(name);
        out.append("' is declared inside bundled file '");
        out.append(bundle);
        out.append("'.\n\n");
        out.append(page.as_str());
        out
    }

    /// The answer where an interface was not found.
    pub fn explain_missing(&self, filename: &str, available: &Vec<String>) -> (r: String)
        ensures
            r@ == "Interface '"@ + filename@ + "' not found.\nAvailable interfaces:\n"@ + (
            if available@.len() == 0 {
                NO_INTERFACES@
            } else {
                text::joined(text::texts(available@), "\n"@)
            }),
    {
        let mut out: String = "Interface '".to_owned();
        out.append(filename);
        out.append("' not found.\nAvailable interfaces:\n");
        if available.len() == 0 {
            out.append(NO_INTERFACES);
        } else {
            let list = join_texts(available.as_slice(), "\n");
            out.append(list.as_str());
        }
        out
    }

    /// Where the manifest of an installed capsule lies.
    pub fn capsule_doctor(&self, args: &DoctorArgs) -> (r: Result<String, &'static str>)
        ensures
            ({
                let name = text::trimmed(args.name@);
                match r {
                    Ok(path) => name.len() > 0 && !traverses(name) && path@ == CAPSULES_DIR@ + "/"@
                        + name + "/Capsule.toml"@,
                    Err(error) => if name.len() == 0 {
                        error@ == "Name cannot be empty"@
                    } else {
                        traverses(name) && error@ == "Invalid name — path traversal rejected"@
                    },
                }
            }),
    {
        let name = trim(&chars_of(args.name.as_str()));
        validate_name(name.as_str())?;
        let mut path: String = CAPSULES_DIR.to_owned();
        path.append("/");
        path.append(name.as_str());
        path.append("/Capsule.toml");
        Ok(path)
    }

    /// The answer where a capsule is not installed.
    pub fn missing_capsule(&self, name: &str, path: &str) -> (r: String)
        ensures
            r@ == "Capsule '"@ + name@ + "' not found at "@ + path@
                + ". Run the `list_capsules` tool (system capsule) to see installed names."@,
    {
        let mut out: String = "Capsule '".to_owned();
        out.append(name);
        out.append("' not found at ");
        out.append(path);
        out.append(". Run the `list_capsules` tool (system capsule) to see installed names.");
        out
    }
}

} // verus!
