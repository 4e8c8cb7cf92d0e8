//! Bounded text search over a directory tree.

use crate::text;
use crate::text::{holds, lines_of, push_decimal};
use vstd::prelude::*;
use vstd::string::*;

verus! {

/// Most matching lines that a search returns.
pub const GREP_MAX_MATCHES: usize = 100;

/// Most files that a search visits.
pub const GREP_MAX_FILES: usize = 1000;

/// Deepest directory that a search reads.
pub const GREP_MAX_DEPTH: usize = 20;

/// `path:line_number:line`.
pub open spec fn match_line(path: Seq<char>, number: nat, line: Seq<char>) -> Seq<char> {
    path + ":"@ + text::decimal(number) + ":"@ + line
}

/// Matches after the first `n` lines of a file are searched too.
pub open spec fn grepped(
    before: Seq<Seq<char>>,
    path: Seq<char>,
    lines: Seq<Seq<char>>,
    pattern: Seq<char>,
    n: nat,
) -> Seq<Seq<char>>
    decreases n,
{
    if n == 0 {
        before
    } else {
        let found = grepped(before, path, lines, pattern, (n - 1) as nat);
        if found.len() < GREP_MAX_MATCHES && text::contains(lines[n - 1], pattern) {
            found.push(match_line(path, n, lines[n - 1]))
        } else {
            found
        }
    }
}

/// Matches after a whole file is searched too.
pub open spec fn file_grepped(
    before: Seq<Seq<char>>,
    path: Seq<char>,
    content: Seq<char>,
    pattern: Seq<char>,
) -> Seq<Seq<char>> {
    let lines = text::lines(content);
    grepped(before, path, lines, pattern, lines.len())
}

/// Once the list is full, nothing is added.
proof fn lemma_full(
    before: Seq<Seq<char>>,
    path: Seq<char>,
    lines: Seq<Seq<char>>,
    pattern: Seq<char>,
    first: nat,
    n: nat,
)
    requires
        first <= n,
        grepped(before, path, lines, pattern, first).len() >= GREP_MAX_MATCHES,
    ensures
        grepped(before, path, lines, pattern, n) == grepped(before, path, lines, pattern, first),
    decreases n,
{
    if first < n {
        lemma_full(before, path, lines, pattern, first, (n - 1) as nat);
    }
}

/// A file never takes a list over its limit.
pub proof fn matches_are_bounded(
    before: Seq<Seq<char>>,
    path: Seq<char>,
    lines: Seq<Seq<char>>,
    pattern: Seq<char>,
    n: nat,
)
    ensures
        before.len() <= GREP_MAX_MATCHES ==> grepped(before, path, lines, pattern, n).len()
            <= GREP_MAX_MATCHES,
        before.len() <= grepped(before, path, lines, pattern, n).len(),
    decreases n,
{
    if n > 0 {
        matches_are_bounded(before, path, lines, pattern, (n - 1) as nat);
    }
}

/// Every line that holds the pattern is reported while there is room.
pub proof fn matching_lines_are_reported(
    path: Seq<char>,
    lines: Seq<Seq<char>>,
    pattern: Seq<char>,
    n: nat,
    i: int,
)
    requires
        n <= lines.len(),
        0 <= i < n,
        grepped(Seq::empty(), path, lines, pattern, n).len() < GREP_MAX_MATCHES,
    ensures
        text::contains(lines[i], pattern) ==> grepped(
            Seq::empty(),
            path,
            lines,
            pattern,
            n,
        ).contains(match_line(path, (i + 1) as nat, lines[i])),
    decreases n,
{
    let found = grepped(Seq::empty(), path, lines, pattern, n);
    let front = grepped(Seq::empty(), path, lines, pattern, (n - 1) as nat);
    if i == n - 1 {
        if text::contains(lines[i], pattern) {
            assert(found.last() == match_line(path, n, lines[i]));
            assert(found[found.len() - 1] == found.last());
        }
    } else {
        matching_lines_are_reported(path, lines, pattern, (n - 1) as nat, i);
        let line = match_line(path, (i + 1) as nat, lines[i]);
        if text::contains(lines[i], pattern) {
            let k = choose|k: int| 0 <= k < front.len() && front[k] == line;
            assert(found[k] == line);
        }
    }
}

/// No other line is reported, and what was found before stays in front.
pub proof fn only_matching_lines_are_reported(
    before: Seq<Seq<char>>,
    path: Seq<char>,
    lines: Seq<Seq<char>>,
    pattern: Seq<char>,
    n: nat,
    k: int,
)
    requires
        n <= lines.len(),
        0 <= k < grepped(before, path, lines, pattern, n).len(),
    ensures
        ({
            let found = grepped(before, path, lines, pattern, n);
            if k < before.len() {
                found[k] == before[k]
            } else {
                exists|i: int|
                    0 <= i < n && text::contains(#[trigger] lines[i], pattern) && found[k]
                        == match_line(path, (i + 1) as nat, lines[i])
            }
        }),
    decreases n,
{
    if n > 0 {
        let front = grepped(before, path, lines, pattern, (n - 1) as nat);
        let found = grepped(before, path, lines, pattern, n);
        matches_are_bounded(before, path, lines, pattern, (n - 1) as nat);
        if k < front.len() {
            only_matching_lines_are_reported(before, path, lines, pattern, (n - 1) as nat, k);
            assert(found[k] == front[k]);
        } else {
            assert(found[k] == match_line(path, n, lines[n - 1]));
            assert(text::contains(lines[n - 1], pattern));
        }
    }
}

/// Scans `content` line by line for `pattern`, appending
/// `path:line_number:line` to `matches`.
pub fn grep_content(path: &str, content: &str, pattern: &str, matches: &mut Vec<String>)
    ensures
        text::texts(final(matches)@) == file_grepped(
            text::texts(old(matches)@),
            path@,
            content@,
            pattern@,
        ),
{
    let lines = lines_of(content);
    let ghost model = text::lines(content@);
    let ghost before = text::texts(matches@);
    let mut i: usize = 0;
    while i < lines.len()
        invariant
            i <= lines@.len(),
            text::texts(lines@) == model,
            before == text::texts(old(matches)@),
            model == text::lines(content@),
            text::texts(matches@) == grepped(before, path@, model, pattern@, i as nat),
        decreases lines@.len() - i,
    {
        assert(model[i as int] == lines@[i as int]@);
        assert(model.len() == lines@.len());
        if matches.len() >= GREP_MAX_MATCHES {
            proof {
                lemma_full(before, path@, model, pattern@, i as nat, model.len());
            }
            return ;
        }
        if holds(lines[i].as_str(), pattern) {
            let ghost had = text::texts(matches@);
            let mut entry: String = path.to_owned();
            entry.append(":");
            push_decimal(&mut entry, i as u128 + 1);
            entry.append(":");
            entry.append(lines[i].as_str());
            matches.push(entry);
            assert(text::texts(matches@) =~= had.push(
                match_line(path@, (i + 1) as nat, model[i as int]),
            ));
        }
        i = i + 1;
    }
    assert(model.len() == lines@.len());
}

// Walking a directory tree.

/// What a walk waits for.
#[derive(Debug)]
pub enum Awaiting {
    /// The entries of a directory.
    Entries(String),
    /// Whether a path is a directory.
    Kind(String),
    /// The text of a file.
    Content(String),
    /// Nothing: the walk is over.
    Nothing,
}

pub enum AwaitingView {
    Entries(Seq<char>),
    Kind(Seq<char>),
    Content(Seq<char>),
    Nothing,
}

impl Awaiting {
    pub open spec fn view(&self) -> AwaitingView {
        match self {
            Awaiting::Entries(path) => AwaitingView::Entries(path@),
            Awaiting::Kind(path) => AwaitingView::Kind(path@),
            Awaiting::Content(path) => AwaitingView::Content(path@),
            Awaiting::Nothing => AwaitingView::Nothing,
        }
    }
}

/// A search under way. What is still to be visited of each directory on the
/// way down lies in `frames`, next entry last.
#[derive(Debug)]
pub struct GrepWalk {
    pub pattern: String,
    pub matches: Vec<String>,
    pub files_visited: usize,
    pub frames: Vec<Vec<String>>,
    pub awaiting: Awaiting,
}

#[verifier::ext_equal]
pub struct WalkView {
    pub pattern: Seq<char>,
    pub matches: Seq<Seq<char>>,
    pub files_visited: usize,
    pub frames: Seq<Seq<Seq<char>>>,
    pub awaiting: AwaitingView,
}

pub open spec fn frame_views(frames: Seq<Vec<String>>) -> Seq<Seq<Seq<char>>> {
    Seq::new(frames.len(), |i: int| text::texts(frames[i]@))
}

pub open spec fn exhausted(w: WalkView) -> bool {
    w.matches.len() >= GREP_MAX_MATCHES || w.files_visited >= GREP_MAX_FILES
}

/// On to the next entry, up through the directories that have none left.
pub open spec fn resumed(w: WalkView) -> WalkView
    decreases w.frames.len(),
{
    if exhausted(w) || w.frames.len() == 0 {
        WalkView { awaiting: AwaitingView::Nothing, ..w }
    } else if w.frames.last().len() == 0 {
        resumed(WalkView { frames: w.frames.drop_last(), ..w })
    } else {
        WalkView {
            frames: w.frames.drop_last().push(w.frames.last().drop_last()),
            awaiting: AwaitingView::Kind(w.frames.last().last()),
            ..w
        }
    }
}

/// Down into a directory, unless that is too deep.
pub open spec fn entered(w: WalkView, path: Seq<char>) -> WalkView {
    if w.frames.len() >= GREP_MAX_DEPTH || exhausted(w) {
        resumed(w)
    } else {
        WalkView { awaiting: AwaitingView::Entries(path), ..w }
    }
}

pub open spec fn started(root: Seq<char>, pattern: Seq<char>) -> WalkView {
    WalkView {
        pattern,
        matches: Seq::empty(),
        files_visited: 0,
        frames: Seq::empty(),
        awaiting: AwaitingView::Entries(root),
    }
}

/// The entries of the awaited directory; without them it is skipped.
pub open spec fn with_entries(w: WalkView, entries: Option<Seq<Seq<char>>>) -> WalkView {
    match entries {
        None => resumed(w),
        Some(entries) => resumed(WalkView { frames: w.frames.push(entries.reverse()), ..w }),
    }
}

/// Whether the awaited path is a directory; an unknown one is skipped.
pub open spec fn with_kind(w: WalkView, path: Seq<char>, directory: Option<bool>) -> WalkView {
    match directory {
        None => resumed(w),
        Some(true) => entered(w, path),
        Some(false) => WalkView {
            files_visited: (w.files_visited + 1) as usize,
            awaiting: AwaitingView::Content(path),
            ..w
        },
    }
}

/// The text of the awaited file; an unreadable one is skipped.
pub open spec fn with_content(w: WalkView, path: Seq<char>, content: Option<Seq<char>>) -> WalkView {
    match content {
        None => resumed(w),
        Some(content) => resumed(
            WalkView { matches: file_grepped(w.matches, path, content, w.pattern), ..w },
        ),
    }
}

/// The limits of a search.
pub open spec fn within_limits(w: WalkView) -> bool {
    &&& w.matches.len() <= GREP_MAX_MATCHES
    &&& w.files_visited <= GREP_MAX_FILES
    &&& w.frames.len() <= GREP_MAX_DEPTH
    &&& w.awaiting is Entries ==> w.frames.len() < GREP_MAX_DEPTH
    &&& w.awaiting is Kind ==> w.files_visited < GREP_MAX_FILES
}

proof fn lemma_resumed_within_limits(w: WalkView)
    requires
        w.matches.len() <= GREP_MAX_MATCHES,
        w.files_visited <= GREP_MAX_FILES,
        w.frames.len() <= GREP_MAX_DEPTH,
    ensures
        within_limits(resumed(w)),
    decreases w.frames.len(),
{
    if !exhausted(w) && w.frames.len() > 0 && w.frames.last().len() == 0 {
        lemma_resumed_within_limits(WalkView { frames: w.frames.drop_last(), ..w });
    }
}

/// Whatever the file system answers, a search stays within its limits on
/// matches, files and depth.
pub proof fn walks_stay_within_limits(
    w: WalkView,
    path: Seq<char>,
    entries: Option<Seq<Seq<char>>>,
    directory: Option<bool>,
    content: Option<Seq<char>>,
)
    requires
        within_limits(w),
    ensures
        w.awaiting is Entries ==> within_limits(with_entries(w, entries)),
        w.awaiting is Kind ==> within_limits(with_kind(w, path, directory)),
        w.awaiting is Content ==> within_limits(with_content(w, path, content)),
{
    lemma_resumed_within_limits(w);
    if w.awaiting is Entries && entries is Some {
        lemma_resumed_within_limits(
            WalkView { frames: w.frames.push(entries->Some_0.reverse()), ..w },
        );
    }
    if content is Some {
        let lines = text::lines(content->Some_0);
        matches_are_bounded(w.matches, path, lines, w.pattern, lines.len());
        lemma_resumed_within_limits(
            WalkView { matches: file_grepped(w.matches, path, content->Some_0, w.pattern), ..w },
        );
    }
}

fn reversed(mut entries: Vec<String>) -> (r: Vec<String>)
    ensures
        text::texts(r@) == text::texts(entries@).reverse(),
{
    let ghost all = entries@;
    let mut out: Vec<String> = Vec::new();
    while entries.len() > 0
        invariant
            entries@.len() + out@.len() == all.len(),
            entries@ == all.subrange(0, entries@.len() as int),
            forall|i: int| 0 <= i < out@.len() ==> #[trigger] out@[i] == all[all.len() - 1 - i],
        decreases entries@.len(),
    {
        if let Some(entry) = entries.pop() {
            out.push(entry);
        }
    }
    assert(text::texts(out@) =~= text::texts(all).reverse());
    out
}

impl GrepWalk {
    pub open spec fn view(&self) -> WalkView {
        WalkView {
            pattern: self.pattern@,
            matches: text::texts(self.matches@),
            files_visited: self.files_visited,
            frames: frame_views(self.frames@),
            awaiting: self.awaiting@,
        }
    }

    pub open spec fn wf(&self) -> bool {
        within_limits(self@)
    }

    /// A search for a pattern beneath a directory.
    pub fn start(root: &str, pattern: &str) -> (r: Self)
        ensures
            r.wf(),
            r@ == started(root@, pattern@),
    {
        let walk = GrepWalk {
            pattern: pattern.to_owned(),
            matches: Vec::new(),
            files_visited: 0,
            frames: Vec::new(),
            awaiting: Awaiting::Entries(root.to_owned()),
        };
        assert(walk@ =~= started(root@, pattern@));
        walk
    }

    fn resume(&mut self)
        ensures
            final(self)@ == resumed(old(self)@),
    {
        let ghost goal = resumed(self@);
        while self.matches.len() < GREP_MAX_MATCHES && self.files_visited < GREP_MAX_FILES
            && self.frames.len() > 0
            invariant
                resumed(self@) == goal,
                goal == resumed(old(self)@),
            decreases self.frames@.len(),
        {
            let ghost before = self@;
            if let Some(mut frame) = self.frames.pop() {
                assert(self@.frames =~= before.frames.drop_last());
                let ghost left = text::texts(frame@);
                assert(left == before.frames.last());
                if let Some(path) = frame.pop() {
                    assert(text::texts(frame@) =~= left.drop_last());
                    self.frames.push(frame);
                    self.awaiting = Awaiting::Kind(path);
                    assert(self@.frames =~= before.frames.drop_last().push(left.drop_last()));
                    assert(self@ =~= goal);
                    return ;
                }
            }
        }
        self.awaiting = Awaiting::Nothing;
        assert(self@ =~= goal);
    }

    /// Takes the entries of the awaited directory.
    pub fn take_entries(&mut self, entries: Option<Vec<String>>)
        requires
            old(self).wf(),
            old(self).awaiting is Entries,
        ensures
            final(self).wf(),
            final(self)@ == with_entries(
                old(self)@,
                text::maybe_texts(entries),
            ),
    {
        proof {
            let model = text::maybe_texts(entries);
            walks_stay_within_limits(self@, Seq::empty(), model, None, None);
        }
        if let Some(entries) = entries {
            let ghost before = self@;
            self.frames.push(reversed(entries));
            assert(self@.frames =~= before.frames.push(text::texts(entries@).reverse()));
        }
        self.resume();
    }

    /// Takes the kind of the awaited path.
    pub fn take_kind(&mut self, directory: Option<bool>)
        requires
            old(self).wf(),
            old(self).awaiting is Kind,
        ensures
            final(self).wf(),
            final(self)@ == with_kind(
                old(self)@,
                old(self).awaiting->Kind_0@,
                directory,
            ),
    {
        proof {
            walks_stay_within_limits(self@, self.awaiting->Kind_0@, None, directory, None);
        }
        match directory {
            None => {
                self.resume();
            },
            Some(down) => {
                let mut path = String::new();
                if let Awaiting::Kind(awaited) = &self.awaiting {
                    path = awaited.clone();
                }
                if !down {
                    self.files_visited = self.files_visited + 1;
                    self.awaiting = Awaiting::Content(path);
                } else if self.frames.len() >= GREP_MAX_DEPTH || self.matches.len()
                    >= GREP_MAX_MATCHES || self.files_visited >= GREP_MAX_FILES {
                    self.resume();
                } else {
                    self.awaiting = Awaiting::Entries(path);
                }
            },
        }
    }

    /// Takes the text of the awaited file.
    pub fn take_content(&mut self, content: Option<&str>)
        requires
            old(self).wf(),
            old(self).awaiting is Content,
        ensures
            final(self).wf(),
            final(self)@ == with_content(
                old(self)@,
                old(self).awaiting->Content_0@,
                text::maybe(content),
            ),
    {
        proof {
            let model = text::maybe(content);
            walks_stay_within_limits(self@, self.awaiting->Content_0@, None, None, model);
        }
        if let Some(content) = content {
            let mut path = String::new();
            if let Awaiting::Content(awaited) = &self.awaiting {
                path = awaited.clone();
            }
            let pattern = self.pattern.clone();
            grep_content(path.as_str(), content, pattern.as_str(), &mut self.matches);
        }
        self.resume();
    }
}

} // verus!
