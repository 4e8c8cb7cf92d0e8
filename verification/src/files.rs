//! File tools: what they compute, and when they refuse.

use crate::grep;
use crate::grep::GrepWalk;
use crate::text;
use crate::text::{chars_of, find_from, join_texts, lines_of, push_decimal, slice_text};
use vstd::prelude::*;
use vstd::string::*;

verus! {

/// Largest file that is moved through memory (10 MB).
pub const MOVE_FILE_MAX_BYTES: u64 = 10_485_760;

#[derive(Debug)]
pub struct ReadFileArgs {
    pub file_path: String,
    pub start_line: Option<usize>,
    pub end_line: Option<usize>,
}

#[derive(Debug)]
pub struct WriteFileArgs {
    pub file_path: String,
    pub content: String,
}

#[derive(Debug)]
pub struct ReplaceInFileArgs {
    pub file_path: String,
    pub old_string: String,
    pub new_string: String,
}

#[derive(Debug)]
pub struct ListDirectoryArgs {
    pub dir_path: String,
}

#[derive(Debug)]
pub struct GrepSearchArgs {
    pub dir_path: Option<String>,
    pub pattern: String,
}

#[derive(Debug)]
pub struct CreateDirectoryArgs {
    pub dir_path: String,
}

#[derive(Debug)]
pub struct DeleteFileArgs {
    /// The path to the file to delete.
    pub file_path: String,
}

#[derive(Debug)]
pub struct MoveFileArgs {
    /// The source path of the file to move.
    pub source_path: String,
    /// The destination path for the file.
    pub destination_path: String,
}

/// What is known of a path.
#[derive(Clone, Copy, Debug)]
pub struct FileStat {
    pub is_dir: bool,
    pub size: u64,
}

// Line ranges.

/// Lines `start` to `end`, numbered from one, of a text.
pub open spec fn line_range(content: Seq<char>, start: Option<usize>, end: Option<usize>) -> Seq<
    char,
> {
    let lines = text::lines(content);
    let first = match start {
        Some(line) => if line == 0 {
            0
        } else {
            line - 1
        },
        None => 0,
    };
    let last = match end {
        Some(line) => if line < lines.len() {
            line as int
        } else {
            lines.len() as int
        },
        None => lines.len() as int,
    };
    if first >= last {
        Seq::empty()
    } else {
        text::joined(lines.subrange(first, last), "\n"@)
    }
}

// Replacing.

/// Occurrences of a text from `at` on that do not overlap. An empty text
/// occurs at every place.
pub open spec fn occurrences(content: Seq<char>, needle: Seq<char>, at: int) -> nat
    decreases content.len() + 1 - at,
{
    if at < 0 || at > content.len() {
        0
    } else if text::occurs_at(content, needle, at) {
        1 + occurrences(
            content,
            needle,
            at + if needle.len() == 0 {
                1
            } else {
                needle.len() as int
            },
        )
    } else {
        occurrences(content, needle, at + 1)
    }
}

/// Whether a text occurs at `i` and nowhere before.
pub open spec fn first_occurrence(content: Seq<char>, needle: Seq<char>, i: int) -> bool {
    text::occurs_at(content, needle, i) && forall|j: int|
        0 <= j < i ==> !text::occurs_at(content, needle, j)
}

/// A text with the part of `length` characters at `at` replaced.
pub open spec fn replaced(content: Seq<char>, at: int, length: int, new: Seq<char>) -> Seq<char> {
    content.subrange(0, at) + new + content.skip(at + length)
}

pub open spec fn not_found_message(path: Seq<char>) -> Seq<char> {
    "Exact string not found in "@ + path
}

pub open spec fn ambiguous_message(count: nat, path: Seq<char>) -> Seq<char> {
    "Found "@ + text::decimal(count) + " occurrences of string in "@ + path
        + ". Please be more specific."@
}

/// Where a text without occurrence begins, none is found further on.
proof fn lemma_no_occurrence(content: Seq<char>, needle: Seq<char>, at: int)
    requires
        0 <= at,
        forall|j: int| at <= j ==> !text::occurs_at(content, needle, j),
    ensures
        occurrences(content, needle, at) == 0,
    decreases content.len() + 1 - at,
{
    if at <= content.len() {
        lemma_no_occurrence(content, needle, at + 1);
    }
}

proof fn lemma_first_occurrence(content: Seq<char>, needle: Seq<char>, at: int, found: int)
    requires
        0 <= at <= found,
        text::occurs_at(content, needle, found),
        forall|j: int| at <= j < found ==> !text::occurs_at(content, needle, j),
    ensures
        occurrences(content, needle, at) == occurrences(content, needle, found),
    decreases found - at,
{
    if at < found {
        lemma_first_occurrence(content, needle, at + 1, found);
    }
}

fn count_occurrences(content: &[char], needle: &[char]) -> (r: u128)
    ensures
        r == occurrences(content@, needle@, 0),
{
    let total: usize = content.len();
    let length: usize = needle.len();
    let mut count: u128 = 0;
    let mut at: usize = 0;
    loop
        invariant
            total == content@.len(),
            length == needle@.len(),
            count <= at <= total,
            count + occurrences(content@, needle@, at as int) == occurrences(
                content@,
                needle@,
                0,
            ),
        decreases total - at,
    {
        let found: usize = match find_from(content, needle, at) {
            None => {
                proof {
                    lemma_no_occurrence(content@, needle@, at as int);
                }
                return count;
            },
            Some(found) => found,
        };
        proof {
            lemma_first_occurrence(content@, needle@, at as int, found as int);
        }
        count = count + 1;
        if length == 0 {
            if found == total {
                assert(occurrences(content@, needle@, total + 1) == 0);
                return count;
            }
            at = found + 1;
        } else {
            at = found + length;
        }
    }
}

/// What `serde_json::to_string` writes for a list of texts.
pub uninterp spec fn json_list_of(names: Seq<Seq<char>>) -> Result<Seq<char>, Seq<char>>;

/// `serde_json::to_string` on a list of strings: the list as one line of JSON,
/// or the text of the error. The encoding itself is not stated.
#[verifier::external_body]
fn json_list(names: &Vec<String>) -> (r: Result<String, String>)
    ensures
        match (r, json_list_of(text::texts(names@))) {
            (Ok(out), Ok(model)) => out@ == model,
            (Err(error), Err(model)) => error@ == model,
            _ => false,
        },
{
    serde_json::to_string(names).map_err(|e| e.to_string())
}

/// Sandboxed filesystem tools for reading, writing, searching, and managing
/// files.
#[derive(Debug)]
pub struct FsTools;

/// A fixed text with another behind it.
fn with_tail(head: &str, tail: &str) -> (r: String)
    ensures
        r@ == head@ + tail@,
{
    let mut out: String = head.to_owned();
    out.append(tail);
    out
}

impl FsTools {
    /// The requested lines of a file's text.
    pub fn read_file(&self, args: &ReadFileArgs, content: &str) -> (r: String)
        ensures
            r@ == line_range(content@, args.start_line, args.end_line),
    {
        let lines = lines_of(content);
        let ghost model = text::lines(content@);
        assert(model.len() == lines@.len());
        let start: usize = match args.start_line {
            Some(line) => if line == 0 {
                0
            } else {
                line - 1
            },
            None => 0,
        };
        let end: usize = match args.end_line {
            Some(line) => if line < lines.len() {
                line
            } else {
                lines.len()
            },
            None => lines.len(),
        };
        if start >= lines.len() || start >= end {
            let empty = String::new();
            assert(empty@ =~= Seq::<char>::empty());
            return empty;
        }
        let chosen = vstd::slice::slice_subrange(lines.as_slice(), start, end);
        assert(text::texts(chosen@) =~= model.subrange(start as int, end as int));
        join_texts(chosen, "\n")
    }

    /// The report on a written file.
    pub fn write_file(&self, args: &WriteFileArgs) -> (r: String)
        ensures
            r@ == "Successfully wrote to "@ + args.file_path@,
    {
        with_tail("Successfully wrote to ", args.file_path.as_str())
    }

    /// The text of a file after the replacement, and the report on it. The old
    /// string must occur exactly once.
    pub fn replace_in_file(&self, args: &ReplaceInFileArgs, content: &str) -> (r: Result<
        (String, String),
        String,
    >)
        ensures
            ({
                let old_text = args.old_string@;
                let count = occurrences(content@, old_text, 0);
                match r {
                    Ok((after, report)) => {
                        &&& count == 1
                        &&& exists|i: int|
                            #[trigger] first_occurrence(content@, old_text, i) && after@
                                == replaced(
                                content@,
                                i,
                                old_text.len() as int,
                                args.new_string@,
                            )
                        &&& report@ == "Successfully replaced text in "@ + args.file_path@
                    },
                    Err(error) => {
                        &&& count != 1
                        &&& error@ == (if count == 0 {
                            not_found_message(args.file_path@)
                        } else {
                            ambiguous_message(count, args.file_path@)
                        })
                    },
                }
            }),
    {
        let chars = chars_of(content);
        let needle = chars_of(args.old_string.as_str());
        let total: usize = chars.len();
        let count: u128 = count_occurrences(&chars, &needle);
        if count > 1 {
            let mut error: String = "Found ".to_owned();
            push_decimal(&mut error, count);
            error.append(" occurrences of string in ");
            error.append(args.file_path.as_str());
            error.append(". Please be more specific.");
            return Err(error);
        }
        match find_from(&chars, &needle, 0) {
            None => {
                proof {
                    lemma_no_occurrence(content@, args.old_string@, 0);
                }
                Err(with_tail("Exact string not found in ", args.file_path.as_str()))
            },
            Some(at) => {
                proof {
                    lemma_first_occurrence(content@, args.old_string@, 0, at as int);
                }
                let mut after: String = slice_text(&chars, 0, at);
                after.append(args.new_string.as_str());
                let rest = slice_text(&chars, at + needle.len(), total);
                after.append(rest.as_str());
                proof {
                    assert(first_occurrence(content@, args.old_string@, at as int));
                    assert(after@ =~= replaced(
                        content@,
                        at as int,
                        args.old_string@.len() as int,
                        args.new_string@,
                    ));
                }
                Ok((after, with_tail("Successfully replaced text in ", args.file_path.as_str())))
            },
        }
    }

    /// The names of a directory as a JSON list.
    pub fn list_directory(&self, names: &Vec<String>) -> (r: Result<String, String>)
        ensures
            match (r, json_list_of(text::texts(names@))) {
                (Ok(out), Ok(model)) => out@ == model,
                (Err(error), Err(model)) => error@ == model,
                _ => false,
            },
    {
        json_list(names)
    }

    /// The search for a pattern, ready to walk.
    pub fn grep_search(&self, args: &GrepSearchArgs) -> (r: Result<GrepWalk, String>)
        ensures
            match r {
                Ok(walk) => args.pattern@.len() > 0 && walk.wf() && walk@ == grep::started(
                    match args.dir_path {
                        Some(path) => path@,
                        None => "."@,
                    },
                    args.pattern@,
                ),
                Err(error) => args.pattern@.len() == 0 && error@ == "pattern must not be empty"@,
            },
    {
        if chars_of(args.pattern.as_str()).len() == 0 {
            return Err("pattern must not be empty".to_owned());
        }
        let root: &str = match &args.dir_path {
            Some(path) => path.as_str(),
            None => ".",
        };
        Ok(GrepWalk::start(root, args.pattern.as_str()))
    }

    /// What a search found.
    pub fn grep_report(&self, walk: &GrepWalk) -> (r: String)
        ensures
            r@ == (if walk@.matches.len() == 0 {
                "No matches found."@
            } else {
                text::joined(walk@.matches, "\n"@)
            }),
    {
        if walk.matches.len() == 0 {
            return "No matches found.".to_owned();
        }
        join_texts(walk.matches.as_slice(), "\n")
    }

    /// The report on a new directory.
    pub fn create_directory(&self, args: &CreateDirectoryArgs) -> (r: String)
        ensures
            r@ == "Successfully created directory "@ + args.dir_path@,
    {
        with_tail("Successfully created directory ", args.dir_path.as_str())
    }

    /// Whether a path can be deleted: the report on it, or why not.
    pub fn delete_file(&self, args: &DeleteFileArgs, stat: Option<FileStat>) -> (r: Result<
        String,
        String,
    >)
        ensures
            match stat {
                None => r matches Err(error) && error@ == "file does not exist: "@
                    + args.file_path@,
                Some(stat) => if stat.is_dir {
                    r matches Err(error) && error@ == args.file_path@
                        + " is a directory, not a file; delete_file only supports files"@
                } else {
                    r matches Ok(report) && report@ == "Successfully deleted "@ + args.file_path@
                },
            },
    {
        match stat {
            None => Err(with_tail("file does not exist: ", args.file_path.as_str())),
            Some(stat) => if stat.is_dir {
                Err(
                    with_tail(
                        args.file_path.as_str(),
                        " is a directory, not a file; delete_file only supports files",
                    ),
                )
            } else {
                Ok(with_tail("Successfully deleted ", args.file_path.as_str()))
            },
        }
    }

    /// Whether the source of a move can be moved.
    pub fn check_move_source(&self, args: &MoveFileArgs, stat: Option<FileStat>) -> (r: Result<
        (),
        String,
    >)
        ensures
            match stat {
                None => r matches Err(error) && error@ == "source path does not exist: "@
                    + args.source_path@,
                Some(stat) => if stat.is_dir {
                    r matches Err(error) && error@ == args.source_path@
                        + " is a directory, not a file; move_file only supports files"@
                } else if stat.size > MOVE_FILE_MAX_BYTES {
                    r matches Err(error) && error@ == too_large_message(stat.size)
                } else {
                    r is Ok
                },
            },
    {
        match stat {
            None => Err(with_tail("source path does not exist: ", args.source_path.as_str())),
            Some(stat) => {
                if stat.is_dir {
                    return Err(
                        with_tail(
                            args.source_path.as_str(),
                            " is a directory, not a file; move_file only supports files",
                        ),
                    );
                }
                if stat.size > MOVE_FILE_MAX_BYTES {
                    let mut error: String = "source file is too large to move (".to_owned();
                    push_decimal(&mut error, stat.size as u128);
                    error.append(" bytes, limit is ");
                    push_decimal(&mut error, MOVE_FILE_MAX_BYTES as u128);
                    error.append(" bytes)");
                    return Err(error);
                }
                Ok(())
            },
        }
    }

    /// Whether the destination of a move is free.
    pub fn check_move_destination(&self, args: &MoveFileArgs, taken: bool) -> (r: Result<
        (),
        String,
    >)
        ensures
            if taken {
                r matches Err(error) && error@ == "destination already exists: "@
                    + args.destination_path@
            } else {
                r is Ok
            },
    {
        if taken {
            Err(with_tail("destination already exists: ", args.destination_path.as_str()))
        } else {
            Ok(())
        }
    }

    /// The end of a move: the report on it, or that it was rolled back because
    /// the source could not be removed.
    pub fn move_file(&self, args: &MoveFileArgs, failure: Option<&str>) -> (r: Result<
        String,
        String,
    >)
        ensures
            match failure {
                None => r matches Ok(report) && report@ == "Successfully moved "@
                    + args.source_path@ + " to "@ + args.destination_path@,
                Some(cause) => r matches Err(error) && error@
                    == "move failed: source could not be removed ("@ + cause@
                    + "); destination write was rolled back"@,
            },
    {
        match failure {
            None => {
                let mut report = with_tail("Successfully moved ", args.source_path.as_str());
                report.append(" to ");
                report.append(args.destination_path.as_str());
                Ok(report)
            },
            Some(cause) => {
                let mut error = with_tail("move failed: source could not be removed (", cause);
                error.append("); destination write was rolled back");
                Err(error)
            },
        }
    }
}

pub open spec fn too_large_message(size: u64) -> Seq<char> {
    "source file is too large to move ("@ + text::decimal(size as nat) + " bytes, limit is "@
        + text::decimal(MOVE_FILE_MAX_BYTES as nat) + " bytes)"@
}

/// A replacement can be undone by the opposite one at the same place.
pub proof fn replacements_can_be_undone(
    content: Seq<char>,
    needle: Seq<char>,
    i: int,
    new: Seq<char>,
)
    requires
        text::occurs_at(content, needle, i),
    ensures
        text::occurs_at(replaced(content, i, needle.len() as int, new), new, i),
        replaced(
            replaced(content, i, needle.len() as int, new),
            i,
            new.len() as int,
            needle,
        ) == content,
{
    let after = replaced(content, i, needle.len() as int, new);
    assert(after.subrange(i, i + new.len()) =~= new);
    assert(content.subrange(i, i + needle.len()) =~= needle);
    let back = replaced(after, i, new.len() as int, needle);
    assert(back.len() == content.len());
    assert forall|k: int| 0 <= k < content.len() implies back[k] == content[k] by {
        if i <= k < i + needle.len() {
            assert(needle[k - i] == content.subrange(i, i + needle.len())[k - i]);
        }
    }
    assert(back =~= content);
}

// Moving, step by step.

/// What a move waits for.
#[derive(Clone, Copy, Debug, PartialEq, Eq, Structural)]
pub enum MoveStage {
    /// What is known of the source.
    SourceStat,
    /// Whether something is at the destination.
    DestinationProbe,
    /// The bytes of the source.
    SourceBytes,
    /// That the destination holds the bytes.
    DestinationWritten,
    /// That the source is gone.
    SourceRemoved,
    /// That the destination is cleaned up again.
    DestinationRemoved,
    /// Nothing: the move is over.
    Nothing,
}

/// A move under way.
#[derive(Debug)]
pub struct MoveTask {
    pub args: MoveFileArgs,
    pub content: Vec<u8>,
    pub stage: MoveStage,
    pub failure: Option<String>,
    pub outcome: Option<Result<String, String>>,
}

#[verifier::ext_equal]
pub struct MoveView {
    pub source: Seq<char>,
    pub destination: Seq<char>,
    pub content: Seq<u8>,
    pub stage: MoveStage,
    pub failure: Option<Seq<char>>,
    pub outcome: Option<Result<Seq<char>, Seq<char>>>,
}

pub open spec fn moving(source: Seq<char>, destination: Seq<char>) -> MoveView {
    MoveView {
        source,
        destination,
        content: Seq::empty(),
        stage: MoveStage::SourceStat,
        failure: None,
        outcome: None,
    }
}

pub open spec fn source_refusal(source: Seq<char>, stat: Option<FileStat>) -> Option<Seq<char>> {
    match stat {
        None => Some("source path does not exist: "@ + source),
        Some(stat) => if stat.is_dir {
            Some(source + " is a directory, not a file; move_file only supports files"@)
        } else if stat.size > MOVE_FILE_MAX_BYTES {
            Some(too_large_message(stat.size))
        } else {
            None
        },
    }
}

pub open spec fn moved_report(source: Seq<char>, destination: Seq<char>) -> Seq<char> {
    "Successfully moved "@ + source + " to "@ + destination
}

pub open spec fn rolled_back_message(cause: Seq<char>) -> Seq<char> {
    "move failed: source could not be removed ("@ + cause
        + "); destination write was rolled back"@
}

pub open spec fn move_ended(m: MoveView, outcome: Result<Seq<char>, Seq<char>>) -> MoveView {
    MoveView { stage: MoveStage::Nothing, outcome: Some(outcome), ..m }
}

pub open spec fn with_stat(m: MoveView, stat: Option<FileStat>) -> MoveView {
    match source_refusal(m.source, stat) {
        Some(error) => move_ended(m, Err(error)),
        None => MoveView { stage: MoveStage::DestinationProbe, ..m },
    }
}

pub open spec fn with_probe(m: MoveView, taken: bool) -> MoveView {
    if taken {
        move_ended(m, Err("destination already exists: "@ + m.destination))
    } else {
        MoveView { stage: MoveStage::SourceBytes, ..m }
    }
}

pub open spec fn with_bytes(m: MoveView, content: Seq<u8>) -> MoveView {
    MoveView { content, stage: MoveStage::DestinationWritten, ..m }
}

pub open spec fn with_written(m: MoveView) -> MoveView {
    MoveView { stage: MoveStage::SourceRemoved, ..m }
}

/// Whether the source is gone, or why it is not.
pub open spec fn with_removal(m: MoveView, failure: Option<Seq<char>>) -> MoveView {
    match failure {
        None => move_ended(m, Ok(moved_report(m.source, m.destination))),
        Some(cause) => MoveView {
            stage: MoveStage::DestinationRemoved,
            failure: Some(cause),
            ..m
        },
    }
}

pub open spec fn with_rollback(m: MoveView) -> MoveView {
    move_ended(m, Err(rolled_back_message(m.failure->Some_0)))
}

pub open spec fn outcome_view(outcome: Option<Result<String, String>>) -> Option<
    Result<Seq<char>, Seq<char>>,
> {
    match outcome {
        None => None,
        Some(Ok(report)) => Some(Ok(report@)),
        Some(Err(error)) => Some(Err(error@)),
    }
}

impl MoveTask {
    pub open spec fn view(&self) -> MoveView {
        MoveView {
            source: self.args.source_path@,
            destination: self.args.destination_path@,
            content: self.content@,
            stage: self.stage,
            failure: match self.failure {
                Some(cause) => Some(cause@),
                None => None,
            },
            outcome: outcome_view(self.outcome),
        }
    }

    /// Once the destination is to be cleaned up, the cause is known.
    pub open spec fn wf(&self) -> bool {
        self.stage == MoveStage::DestinationRemoved ==> self.failure is Some
    }

    pub fn start(args: MoveFileArgs) -> (r: Self)
        ensures
            r.wf(),
            r@ == moving(args.source_path@, args.destination_path@),
    {
        let task = MoveTask {
            args,
            content: Vec::new(),
            stage: MoveStage::SourceStat,
            failure: None,
            outcome: None,
        };
        assert(task@ =~= moving(args.source_path@, args.destination_path@));
        task
    }

    fn end(&mut self, outcome: Result<String, String>)
        ensures
            final(self)@ == (MoveView {
                stage: MoveStage::Nothing,
                outcome: outcome_view(Some(outcome)),
                ..old(self)@
            }),
            final(self).wf(),
    {
        self.stage = MoveStage::Nothing;
        self.outcome = Some(outcome);
    }

    /// Takes what is known of the source.
    pub fn take_stat(&mut self, stat: Option<FileStat>)
        requires
            old(self).wf(),
            old(self).stage == MoveStage::SourceStat,
        ensures
            final(self).wf(),
            final(self)@ == with_stat(old(self)@, stat),
    {
        match FsTools.check_move_source(&self.args, stat) {
            Err(error) => self.end(Err(error)),
            Ok(()) => {
                self.stage = MoveStage::DestinationProbe;
            },
        }
    }

    /// Takes whether something is at the destination.
    pub fn take_probe(&mut self, taken: bool)
        requires
            old(self).wf(),
            old(self).stage == MoveStage::DestinationProbe,
        ensures
            final(self).wf(),
            final(self)@ == with_probe(old(self)@, taken),
    {
        match FsTools.check_move_destination(&self.args, taken) {
            Err(error) => self.end(Err(error)),
            Ok(()) => {
                self.stage = MoveStage::SourceBytes;
            },
        }
    }

    /// Takes the bytes of the source.
    pub fn take_bytes(&mut self, content: Vec<u8>)
        requires
            old(self).wf(),
            old(self).stage == MoveStage::SourceBytes,
        ensures
            final(self).wf(),
            final(self)@ == with_bytes(old(self)@, content@),
    {
        self.content = content;
        self.stage = MoveStage::DestinationWritten;
    }

    /// Takes that the destination holds the bytes.
    pub fn take_written(&mut self)
        requires
            old(self).wf(),
            old(self).stage == MoveStage::DestinationWritten,
        ensures
            final(self).wf(),
            final(self)@ == with_written(old(self)@),
    {
        self.stage = MoveStage::SourceRemoved;
    }

    /// Takes that the source is gone, or why it is not.
    pub fn take_removal(&mut self, failure: Option<String>)
        requires
            old(self).wf(),
            old(self).stage == MoveStage::SourceRemoved,
        ensures
            final(self).wf(),
            final(self)@ == with_removal(
                old(self)@,
                match failure {
                    Some(cause) => Some(cause@),
                    None => None,
                },
            ),
    {
        match failure {
            None => {
                let outcome = FsTools.move_file(&self.args, None);
                self.end(outcome);
            },
            Some(cause) => {
                self.failure = Some(cause);
                self.stage = MoveStage::DestinationRemoved;
            },
        }
    }

    /// Takes that the clean-up was tried.
    pub fn take_rollback(&mut self)
        requires
            old(self).wf(),
            old(self).stage == MoveStage::DestinationRemoved,
        ensures
            final(self).wf(),
            final(self)@ == with_rollback(old(self)@),
    {
        let outcome = match &self.failure {
            Some(cause) => FsTools.move_file(&self.args, Some(cause.as_str())),
            None => FsTools.move_file(&self.args, None),
        };
        self.end(outcome);
    }

    /// The report on a move that is over, or why it failed.
    pub fn finish(self) -> (r: Result<String, String>)
        requires
            self.outcome is Some,
        ensures
            outcome_view(Some(r)) == self@.outcome,
    {
        self.outcome.unwrap()
    }
}

/// Files as a map from paths to bytes, after the step that a move waits for was
/// taken.
pub open spec fn stepped(m: MoveView, files: Map<Seq<char>, Seq<u8>>) -> Map<Seq<char>, Seq<u8>> {
    match m.stage {
        MoveStage::DestinationWritten => files.insert(m.destination, m.content),
        MoveStage::SourceRemoved => files.remove(m.source),
        MoveStage::DestinationRemoved => files.remove(m.destination),
        _ => files,
    }
}

/// A move is all or nothing: either the destination holds the bytes of the
/// source, which is gone, or, once a source that could not be removed has led to
/// a clean-up, every file is as it was. Only the first is reported as a success.
pub proof fn moves_are_all_or_nothing(
    files: Map<Seq<char>, Seq<u8>>,
    source: Seq<char>,
    destination: Seq<char>,
    stat: FileStat,
    cause: Seq<char>,
)
    requires
        files.contains_key(source),
        !files.contains_key(destination),
        source_refusal(source, Some(stat)) is None,
    ensures
        ({
            let known = with_stat(moving(source, destination), Some(stat));
            let probed = with_probe(known, files.contains_key(destination));
            let read = with_bytes(probed, files[source]);
            let copied = stepped(read, files);
            let written = with_written(read);
            let done = with_removal(written, None);
            let failed = with_removal(written, Some(cause));
            let ended = with_rollback(failed);
            &&& probed.stage == MoveStage::SourceBytes
            &&& stepped(written, copied) == files.remove(source).insert(destination, files[source])
            &&& done.outcome == Some(
                Ok::<Seq<char>, Seq<char>>(moved_report(source, destination)),
            )
            &&& stepped(failed, copied) == files
            &&& ended.outcome == Some(Err::<Seq<char>, Seq<char>>(rolled_back_message(cause)))
        }),
{
    let known = with_stat(moving(source, destination), Some(stat));
    let probed = with_probe(known, false);
    let read = with_bytes(probed, files[source]);
    let copied = stepped(read, files);
    let written = with_written(read);
    let failed = with_removal(written, Some(cause));
    assert(stepped(written, copied) =~= files.remove(source).insert(destination, files[source]));
    assert(stepped(failed, copied) =~= files);
}

} // verus!
