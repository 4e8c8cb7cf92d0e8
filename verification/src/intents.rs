//! From a plain-English intent to the capability lines of a manifest.

use crate::forge::{ForgeTools, IntentArgs};
use crate::text;
use crate::text::{begins_with, chars_of, ends_with, found_at, lowercase, space, trim};
use vstd::prelude::*;
use vstd::string::*;

verus! {

/// Capability lines for one recognised intent.
#[derive(Clone, Copy, Debug)]
pub struct Suggestion {
    pub matched: &'static str,
    pub manifest: &'static str,
    pub note: &'static str,
}

#[verifier::ext_equal]
pub struct SuggestionView {
    pub matched: Seq<char>,
    pub manifest: Seq<char>,
    pub note: Seq<char>,
}

impl Suggestion {
    pub open spec fn view(&self) -> SuggestionView {
        SuggestionView { matched: self.matched@, manifest: self.manifest@, note: self.note@ }
    }
}

pub open spec fn views(suggestions: Seq<Suggestion>) -> Seq<SuggestionView> {
    Seq::new(suggestions.len(), |i: int| suggestions[i].view())
}

pub open spec fn word_views(words: Seq<&'static str>) -> Seq<Seq<char>> {
    Seq::new(words.len(), |i: int| words[i]@)
}

// Negation.

/// The last place at or before `i` where a text holds another.
pub open spec fn last_from(s: Seq<char>, needle: Seq<char>, i: int) -> Option<int>
    decreases i + 1,
{
    if i < 0 {
        None
    } else if text::occurs_at(s, needle, i) {
        Some(i)
    } else {
        last_from(s, needle, i - 1)
    }
}

/// The place behind the last occurrence of a separator; zero without one.
pub open spec fn behind(before: Seq<char>, separator: Seq<char>) -> int {
    match last_from(before, separator, before.len() as int) {
        Some(i) => i + separator.len(),
        None => 0,
    }
}

pub open spec fn larger(a: int, b: int) -> int {
    if a < b {
        b
    } else {
        a
    }
}

/// Where the clause that a text ends with starts.
pub open spec fn clause_start(before: Seq<char>) -> int {
    larger(
        larger(
            larger(behind(before, "."@), behind(before, ","@)),
            larger(behind(before, ";"@), behind(before, "\n"@)),
        ),
        larger(behind(before, " but "@), behind(before, " however "@)),
    )
}

pub open spec fn negations() -> Seq<Seq<char>> {
    seq!["no"@, "not"@, "never"@, "without"@, "avoid"@, "avoids"@, "avoiding"@, "exclude"@, "excluding"@, "don't"@, "doesn't"@, "do not"@, "does not"@, "will not"@, "won't"@]
}

/// Whether a clause is a negation, or has one at its start or end.
pub open spec fn negated_by(clause: Seq<char>, word: Seq<char>) -> bool {
    let n = word.len() as int;
    ||| clause == word
    ||| text::begins(clause, word) && n < clause.len() && text::is_space(clause[n])
    ||| text::ends(clause, word) && n < clause.len() && text::is_space(
        clause[clause.len() - n - 1],
    )
}

pub open spec fn negated_clause(clause: Seq<char>) -> bool {
    exists|i: int|
        0 <= i < negations().len() && negated_by(clause, #[trigger] negations()[i])
}

/// Whether what stands at `index` is plainly negated by the clause before it.
pub open spec fn negated_at(intent: Seq<char>, index: int) -> bool {
    let before = intent.take(index);
    negated_clause(text::trimmed(before.skip(clause_start(before))))
}

/// Whether a word is mentioned from `at` on without being negated.
pub open spec fn mentioned_from(intent: Seq<char>, word: Seq<char>, at: int) -> bool
    decreases intent.len() + 1 - at,
{
    if at < 0 || at > intent.len() {
        false
    } else if text::occurs_at(intent, word, at) {
        !negated_at(intent, at) || mentioned_from(
            intent,
            word,
            at + if word.len() == 0 {
                1
            } else {
                word.len() as int
            },
        )
    } else {
        mentioned_from(intent, word, at + 1)
    }
}

/// Whether some word of a list is mentioned without being negated.
pub open spec fn mentions(intent: Seq<char>, words: Seq<Seq<char>>) -> bool {
    exists|i: int| 0 <= i < words.len() && mentioned_from(intent, #[trigger] words[i], 0)
}

fn find_last(s: &[char], needle: &[char]) -> (r: Option<usize>)
    ensures
        match (r, last_from(s@, needle@, s@.len() as int)) {
            (Some(i), Some(found)) => i == found && i + needle@.len() <= s@.len(),
            (None, None) => true,
            _ => false,
        },
{
    let mut i: usize = s.len();
    if found_at(s, needle, i) {
        return Some(i);
    }
    while i > 0
        invariant
            i <= s@.len(),
            last_from(s@, needle@, s@.len() as int) == last_from(s@, needle@, i - 1),
        decreases i,
    {
        i = i - 1;
        if found_at(s, needle, i) {
            return Some(i);
        }
    }
    None
}

fn start_behind(before: &[char], separator: &str) -> (r: usize)
    ensures
        r == behind(before@, separator@),
        r <= before@.len(),
{
    let needle = chars_of(separator);
    let total: usize = before.len();
    match find_last(before, &needle) {
        Some(i) => i + needle.len(),
        None => 0,
    }
}

fn max(a: usize, b: usize) -> (r: usize)
    ensures
        r == larger(a as int, b as int),
{
    if a < b {
        b
    } else {
        a
    }
}

fn is_negated_by(clause: &[char], word: &[char]) -> (r: bool)
    ensures
        r == negated_by(clause@, word@),
{
    let n: usize = word.len();
    if clause.len() == n {
        let same = found_at(clause, word, 0);
        proof {
            assert(clause@.subrange(0, n as int) =~= clause@);
        }
        return same;
    }
    if clause.len() < n {
        return false;
    }
    (begins_with(clause, word) && space(clause[n])) || (ends_with(clause, word) && space(
        clause[clause.len() - n - 1],
    ))
}

/// Whether what stands at a place of an intent is plainly negated.
pub fn occurrence_is_negated(intent: &[char], index: usize) -> (r: bool)
    requires
        index <= intent@.len(),
    ensures
        r == negated_at(intent@, index as int),
{
    let before = vstd::slice::slice_subrange(intent, 0, index);
    assert(before@ =~= intent@.take(index as int));
    let start: usize = max(
        max(
            max(start_behind(before, "."), start_behind(before, ",")),
            max(start_behind(before, ";"), start_behind(before, "\n")),
        ),
        max(start_behind(before, " but "), start_behind(before, " however ")),
    );
    let tail = vstd::slice::slice_subrange(before, start, before.len());
    assert(tail@ =~= before@.skip(start as int));
    let clause = chars_of(trim(tail).as_str());
    let ghost model = text::trimmed(before@.skip(clause_start(before@)));
    let words: [&'static str; 15] = ["no", "not", "never", "without", "avoid", "avoids", "avoiding", "exclude", "excluding", "don't", "doesn't", "do not", "does not", "will not", "won't"];
    assert(word_views(words@) =~= negations());
    let mut i: usize = 0;
    while i < 15
        invariant
            i <= 15,
            words@.len() == 15,
            word_views(words@) == negations(),
            clause@ == model,
            negated_at(intent@, index as int) == negated_clause(model),
            forall|j: int| 0 <= j < i ==> !negated_by(clause@, #[trigger] negations()[j]),
        decreases 15 - i,
    {
        assert(negations()[i as int] == words@[i as int]@);
        if is_negated_by(&clause, &chars_of(words[i])) {
            assert(negated_by(clause@, negations()[i as int]));
            return true;
        }
        i = i + 1;
    }
    assert(negations().len() == 15);
    false
}

fn mentions_word(intent: &[char], word: &[char]) -> (r: bool)
    ensures
        r == mentioned_from(intent@, word@, 0),
{
    let total: usize = intent.len();
    let length: usize = word.len();
    let mut at: usize = 0;
    loop
        invariant
            total == intent@.len(),
            length == word@.len(),
            at <= total,
            mentioned_from(intent@, word@, 0) == mentioned_from(intent@, word@, at as int),
        decreases total - at,
    {
        if found_at(intent, word, at) {
            if !occurrence_is_negated(intent, at) {
                return true;
            }
            if length > 0 {
                at = at + length;
                continue ;
            }
        }
        if at == total {
            assert(!mentioned_from(intent@, word@, total + 1));
            return false;
        }
        at = at + 1;
    }
}

/// Whether some word of a list is mentioned without being plainly negated.
pub fn mentions_positive(intent: &[char], words: &[&'static str]) -> (r: bool)
    ensures
        r == mentions(intent@, word_views(words@)),
{
    let ghost all = word_views(words@);
    let mut i: usize = 0;
    while i < words.len()
        invariant
            i <= words@.len(),
            all == word_views(words@),
            forall|j: int| 0 <= j < i ==> !mentioned_from(intent@, #[trigger] all[j], 0),
        decreases words@.len() - i,
    {
        if mentions_word(intent, &chars_of(words[i])) {
            assert(mentioned_from(intent@, all[i as int], 0));
            return true;
        }
        i = i + 1;
    }
    false
}

// The rules.

/// Suggestions after one rule is applied.
pub open spec fn with_rule(
    before: Seq<SuggestionView>,
    intent: Seq<char>,
    words: Seq<Seq<char>>,
    entry: SuggestionView,
) -> Seq<SuggestionView> {
    if mentions(intent, words) {
        before.push(entry)
    } else {
        before
    }
}

pub open spec fn read_files_words() -> Seq<Seq<char>> {
    seq!["read file"@, "read files"@, "read a file"@, "load file"@]
}

pub open spec fn read_files_entry() -> SuggestionView {
    SuggestionView {
        matched: "read files"@,
        manifest: "[capabilities]\nfs_read = [\"home://\"]"@,
        note: "Read under home://. Narrow the prefix to the smallest path you need."@,
    }
}

pub open spec fn write_files_words() -> Seq<Seq<char>> {
    seq!["write file"@, "write files"@, "save file"@, "write to disk"@]
}

pub open spec fn write_files_entry() -> SuggestionView {
    SuggestionView {
        matched: "write files"@,
        manifest: "[capabilities]\nfs_write = [\"home://data/\"]"@,
        note: "Write under the narrowest prefix that contains the capsule's mutable data."@,
    }
}

pub open spec fn outbound_http_words() -> Seq<Seq<char>> {
    seq!["http"@, "rest api"@, "web request"@, "fetch url"@, "call an api"@]
}

pub open spec fn outbound_http_entry() -> SuggestionView {
    SuggestionView {
        matched: "outbound http"@,
        manifest: "[capabilities]\nnet = [\"api.example.com\"]"@,
        note: "Outbound HTTP via astrid_sdk::http. List each concrete hostname; use [\"*\"] only if the host set is open."@,
    }
}

pub open spec fn outbound_tcp_words() -> Seq<Seq<char>> {
    seq!["tcp"@, "socket connect"@, "outbound connection"@, "connect to"@]
}

pub open spec fn outbound_tcp_entry() -> SuggestionView {
    SuggestionView {
        matched: "outbound tcp"@,
        manifest: "[capabilities]\nnet_connect = [\"host:port\"]"@,
        note: "Raw outbound TCP. List the concrete host:port targets."@,
    }
}

pub open spec fn kv_store_words() -> Seq<Seq<char>> {
    seq!["key-value"@, "key value"@, "kv store"@, "persist state"@, "store state"@]
}

pub open spec fn kv_store_entry() -> SuggestionView {
    SuggestionView {
        matched: "kv store"@,
        manifest: "# No capability entry required for ordinary capsule KV."@,
        note: "The kv manifest field is reserved and not the active gate. astrid_sdk::kv is already scoped per capsule and principal; stateful tools also auto-persist self."@,
    }
}

pub open spec fn spawn_process_words() -> Seq<Seq<char>> {
    seq!["spawn"@, "run a process"@, "subprocess"@, "shell out"@, "exec"@]
}

pub open spec fn spawn_process_entry() -> SuggestionView {
    SuggestionView {
        matched: "spawn a process"@,
        manifest: "[capabilities]\nhost_process = [\"git\", \"cargo\"]\n# add allow_persistent = true for reattachable persistent processes"@,
        note: "Name each allowed binary. allow_persistent adds host-owned reattachable processes."@,
    }
}

pub open spec fn bind_socket_words() -> Seq<Seq<char>> {
    seq!["bind a socket"@, "listen"@, "unix socket"@, "server socket"@, "accept connections"@]
}

pub open spec fn bind_socket_entry() -> SuggestionView {
    SuggestionView {
        matched: "bind a socket"@,
        manifest: "[capabilities]\nnet_bind = [\"...\"]"@,
        note: "Bind a listening socket (e.g. a Unix-socket uplink). Rare; most capsules are bus-only."@,
    }
}

pub open spec fn identity_operations_words() -> Seq<Seq<char>> {
    seq!["identity"@, "sign"@, "signature"@, "keypair"@, "ed25519"@]
}

pub open spec fn identity_operations_entry() -> SuggestionView {
    SuggestionView {
        matched: "identity ops"@,
        manifest: "[capabilities]\nidentity = [\"resolve\"]"@,
        note: "Identity operations via astrid_sdk::identity. A list of resolve < link < admin (each implies the lesser)."@,
    }
}

pub open spec fn persistent_process_words() -> Seq<Seq<char>> {
    seq!["persistent process"@, "process survives"@, "outlive the capsule"@, "reattachable process"@]
}

pub open spec fn persistent_process_entry() -> SuggestionView {
    SuggestionView {
        matched: "persistent host process"@,
        manifest: "[capabilities]\nhost_process = [\"program\"]\nallow_persistent = true"@,
        note: "Persistent process authority is an explicit boolean sub-grant on top of the executable allowlist."@,
    }
}

pub open spec fn uplink_words() -> Seq<Seq<char>> {
    seq!["uplink"@, "platform bridge"@, "external message bridge"@, "publish as another principal"@]
}

pub open spec fn uplink_entry() -> SuggestionView {
    SuggestionView {
        matched: "uplink"@,
        manifest: "[capabilities]\nuplink = true"@,
        note: "Uplink authority enables attributed publishing and long-lived execution semantics. Use it only for a real protocol edge."@,
    }
}

pub open spec fn prompt_injection_words() -> Seq<Seq<char>> {
    seq!["inject system prompt"@, "modify system prompt"@, "prompt injection hook"@]
}

pub open spec fn prompt_injection_entry() -> SuggestionView {
    SuggestionView {
        matched: "system prompt injection"@,
        manifest: "[capabilities]\nallow_prompt_injection = true"@,
        note: "This permits hook output to affect system-prompt construction. Ordinary tool responses do not need it."@,
    }
}

pub open spec fn llm_provider_words() -> Seq<Seq<char>> {
    seq!["be a provider"@, "llm provider"@, "serve an llm"@, "expose a model"@, "provide a model"@]
}

pub open spec fn llm_provider_entry() -> SuggestionView {
    SuggestionView {
        matched: "be an LLM provider"@,
        manifest: "[exports]\n\"astrid:llm\" = \"1.0.0\"\n\n[capabilities]\nnet = [\"*\"]\n\n[publish]\n\"llm.v1.stream.<provider>\" = { wit = \"@unicity-astrid/wit/llm/stream-event\" }\n\"llm.v1.response.describe\" = { wit = \"@unicity-astrid/wit/llm/describe-response\" }\n\n[subscribe]\n\"llm.v1.request.describe\" = { wit = \"@unicity-astrid/wit/llm/describe-request\", handler = \"llm_describe\" }\n\"llm.v1.request.generate.<provider>\" = { wit = \"@unicity-astrid/wit/llm/generate-request\", handler = \"handle_llm_request\" }"@,
        note: "Export astrid:llm, subscribe generate.<provider> + request.describe, publish a stream + describe-response. The registry fans out to the unsuffixed describe topic. Mirrors aos-openai-compat."@,
    }
}

pub open spec fn llm_consumer_words() -> Seq<Seq<char>> {
    seq!["call an llm"@, "call the llm"@, "use an llm"@, "ask the model"@, "generate text"@]
}

pub open spec fn llm_consumer_entry() -> SuggestionView {
    SuggestionView {
        matched: "call an LLM (consumer)"@,
        manifest: "[imports]\n\"astrid:llm\" = \"^1.0\"\n\n[publish]\n\"llm.v1.request.generate.*\" = { wit = \"@unicity-astrid/wit/llm/generate-request\" }\n\n[subscribe]\n\"llm.v1.stream.*\" = { wit = \"@unicity-astrid/wit/llm/stream-event\", handler = \"handle_llm_stream\" }"@,
        note: "Import astrid:llm, publish a generate request to the active provider's topic, subscribe its stream. Mirrors how aos-react drives a provider."@,
    }
}

/// What an intent in lower case calls for.
pub open spec fn suggested(intent: Seq<char>) -> Seq<SuggestionView> {
    let s0 = Seq::<SuggestionView>::empty();
    let s1 = with_rule(s0, intent, read_files_words(), read_files_entry());
    let s2 = with_rule(s1, intent, write_files_words(), write_files_entry());
    let s3 = with_rule(s2, intent, outbound_http_words(), outbound_http_entry());
    let s4 = with_rule(s3, intent, outbound_tcp_words(), outbound_tcp_entry());
    let s5 = with_rule(s4, intent, kv_store_words(), kv_store_entry());
    let s6 = with_rule(s5, intent, spawn_process_words(), spawn_process_entry());
    let s7 = with_rule(s6, intent, bind_socket_words(), bind_socket_entry());
    let s8 = with_rule(s7, intent, identity_operations_words(), identity_operations_entry());
    let s9 = with_rule(s8, intent, persistent_process_words(), persistent_process_entry());
    let s10 = with_rule(s9, intent, uplink_words(), uplink_entry());
    let s11 = with_rule(s10, intent, prompt_injection_words(), prompt_injection_entry());
    let s12 = with_rule(s11, intent, llm_provider_words(), llm_provider_entry());
    let s13 = with_rule(s12, intent, llm_consumer_words(), llm_consumer_entry());
    s13
}

pub open spec fn unrecognised_entry() -> SuggestionView {
    SuggestionView {
        matched: "(no keywords recognised)"@,
        manifest: ""@,
        note: "Describe a concrete action: read/write files, http, tcp, kv, spawn a process, bind a socket, identity, or call/serve an LLM."@,
    }
}

fn suggest_read_files(intent: &[char], out: &mut Vec<Suggestion>)
    ensures
        views(final(out)@) == with_rule(
            views(old(out)@),
            intent@,
            read_files_words(),
            read_files_entry(),
        ),
{
    let words: [&'static str; 4] = ["read file", "read files", "read a file", "load file"];
    proof {
        let model = read_files_words();
        assert(word_views(words@) =~= model);
    }
    if mentions_positive(intent, &words) {
        let ghost before = views(out@);
        out.push(
            Suggestion {
                matched: "read files",
                manifest: "[capabilities]\nfs_read = [\"home://\"]",
                note: "Read under home://. Narrow the prefix to the smallest path you need.",
            },
        );
        assert(views(out@) =~= before.push(read_files_entry()));
    }
}

fn suggest_write_files(intent: &[char], out: &mut Vec<Suggestion>)
    ensures
        views(final(out)@) == with_rule(
            views(old(out)@),
            intent@,
            write_files_words(),
            write_files_entry(),
        ),
{
    let words: [&'static str; 4] = ["write file", "write files", "save file", "write to disk"];
    proof {
        let model = write_files_words();
        assert(word_views(words@) =~= model);
    }
    if mentions_positive(intent, &words) {
        let ghost before = views(out@);
        out.push(
            Suggestion {
                matched: "write files",
                manifest: "[capabilities]\nfs_write = [\"home://data/\"]",
                note: "Write under the narrowest prefix that contains the capsule's mutable data.",
            },
        );
        assert(views(out@) =~= before.push(write_files_entry()));
    }
}

fn suggest_outbound_http(intent: &[char], out: &mut Vec<Suggestion>)
    ensures
        views(final(out)@) == with_rule(
            views(old(out)@),
            intent@,
            outbound_http_words(),
            outbound_http_entry(),
        ),
{
    let words: [&'static str; 5] = ["http", "rest api", "web request", "fetch url", "call an api"];
    proof {
        let model = outbound_http_words();
        assert(word_views(words@) =~= model);
    }
    if mentions_positive(intent, &words) {
        let ghost before = views(out@);
        out.push(
            Suggestion {
                matched: "outbound http",
                manifest: "[capabilities]\nnet = [\"api.example.com\"]",
                note: "Outbound HTTP via astrid_sdk::http. List each concrete hostname; use [\"*\"] only if the host set is open.",
            },
        );
        assert(views(out@) =~= before.push(outbound_http_entry()));
    }
}

fn suggest_outbound_tcp(intent: &[char], out: &mut Vec<Suggestion>)
    ensures
        views(final(out)@) == with_rule(
            views(old(out)@),
            intent@,
            outbound_tcp_words(),
            outbound_tcp_entry(),
        ),
{
    let words: [&'static str; 4] = ["tcp", "socket connect", "outbound connection", "connect to"];
    proof {
        let model = outbound_tcp_words();
        assert(word_views(words@) =~= model);
    }
    if mentions_positive(intent, &words) {
        let ghost before = views(out@);
        out.push(
            Suggestion {
                matched: "outbound tcp",
                manifest: "[capabilities]\nnet_connect = [\"host:port\"]",
                note: "Raw outbound TCP. List the concrete host:port targets.",
            },
        );
        assert(views(out@) =~= before.push(outbound_tcp_entry()));
    }
}

fn suggest_kv_store(intent: &[char], out: &mut Vec<Suggestion>)
    ensures
        views(final(out)@) == with_rule(
            views(old(out)@),
            intent@,
            kv_store_words(),
            kv_store_entry(),
        ),
{
    let words: [&'static str; 5] = ["key-value", "key value", "kv store", "persist state", "store state"];
    proof {
        let model = kv_store_words();
        assert(word_views(words@) =~= model);
    }
    if mentions_positive(intent, &words) {
        let ghost before = views(out@);
        out.push(
            Suggestion {
                matched: "kv store",
                manifest: "# No capability entry required for ordinary capsule KV.",
                note: "The kv manifest field is reserved and not the active gate. astrid_sdk::kv is already scoped per capsule and principal; stateful tools also auto-persist self.",
            },
        );
        assert(views(out@) =~= before.push(kv_store_entry()));
    }
}

fn suggest_spawn_process(intent: &[char], out: &mut Vec<Suggestion>)
    ensures
        views(final(out)@) == with_rule(
            views(old(out)@),
            intent@,
            spawn_process_words(),
            spawn_process_entry(),
        ),
{
    let words: [&'static str; 5] = ["spawn", "run a process", "subprocess", "shell out", "exec"];
    proof {
        let model = spawn_process_words();
        assert(word_views(words@) =~= model);
    }
    if mentions_positive(intent, &words) {
        let ghost before = views(out@);
        out.push(
            Suggestion {
                matched: "spawn a process",
                manifest: "[capabilities]\nhost_process = [\"git\", \"cargo\"]\n# add allow_persistent = true for reattachable persistent processes",
                note: "Name each allowed binary. allow_persistent adds host-owned reattachable processes.",
            },
        );
        assert(views(out@) =~= before.push(spawn_process_entry()));
    }
}

fn suggest_bind_socket(intent: &[char], out: &mut Vec<Suggestion>)
    ensures
        views(final(out)@) == with_rule(
            views(old(out)@),
            intent@,
            bind_socket_words(),
            bind_socket_entry(),
        ),
{
    let words: [&'static str; 5] = ["bind a socket", "listen", "unix socket", "server socket", "accept connections"];
    proof {
        let model = bind_socket_words();
        assert(word_views(words@) =~= model);
    }
    if mentions_positive(intent, &words) {
        let ghost before = views(out@);
        out.push(
            Suggestion {
                matched: "bind a socket",
                manifest: "[capabilities]\nnet_bind = [\"...\"]",
                note: "Bind a listening socket (e.g. a Unix-socket uplink). Rare; most capsules are bus-only.",
            },
        );
        assert(views(out@) =~= before.push(bind_socket_entry()));
    }
}

fn suggest_identity_operations(intent: &[char], out: &mut Vec<Suggestion>)
    ensures
        views(final(out)@) == with_rule(
            views(old(out)@),
            intent@,
            identity_operations_words(),
            identity_operations_entry(),
        ),
{
    let words: [&'static str; 5] = ["identity", "sign", "signature", "keypair", "ed25519"];
    proof {
        let model = identity_operations_words();
        assert(word_views(words@) =~= model);
    }
    if mentions_positive(intent, &words) {
        let ghost before = views(out@);
        out.push(
            Suggestion {
                matched: "identity ops",
                manifest: "[capabilities]\nidentity = [\"resolve\"]",
                note: "Identity operations via astrid_sdk::identity. A list of resolve < link < admin (each implies the lesser).",
            },
        );
        assert(views(out@) =~= before.push(identity_operations_entry()));
    }
}

fn suggest_persistent_process(intent: &[char], out: &mut Vec<Suggestion>)
    ensures
        views(final(out)@) == with_rule(
            views(old(out)@),
            intent@,
            persistent_process_words(),
            persistent_process_entry(),
        ),
{
    let words: [&'static str; 4] = ["persistent process", "process survives", "outlive the capsule", "reattachable process"];
    proof {
        let model = persistent_process_words();
        assert(word_views(words@) =~= model);
    }
    if mentions_positive(intent, &words) {
        let ghost before = views(out@);
        out.push(
            Suggestion {
                matched: "persistent host process",
                manifest: "[capabilities]\nhost_process = [\"program\"]\nallow_persistent = true",
                note: "Persistent process authority is an explicit boolean sub-grant on top of the executable allowlist.",
            },
        );
        assert(views(out@) =~= before.push(persistent_process_entry()));
    }
}

fn suggest_uplink(intent: &[char], out: &mut Vec<Suggestion>)
    ensures
        views(final(out)@) == with_rule(
            views(old(out)@),
            intent@,
            uplink_words(),
            uplink_entry(),
        ),
{
    let words: [&'static str; 4] = ["uplink", "platform bridge", "external message bridge", "publish as another principal"];
    proof {
        let model = uplink_words();
        assert(word_views(words@) =~= model);
    }
    if mentions_positive(intent, &words) {
        let ghost before = views(out@);
        out.push(
            Suggestion {
                matched: "uplink",
                manifest: "[capabilities]\nuplink = true",
                note: "Uplink authority enables attributed publishing and long-lived execution semantics. Use it only for a real protocol edge.",
            },
        );
        assert(views(out@) =~= before.push(uplink_entry()));
    }
}

fn suggest_prompt_injection(intent: &[char], out: &mut Vec<Suggestion>)
    ensures
        views(final(out)@) == with_rule(
            views(old(out)@),
            intent@,
            prompt_injection_words(),
            prompt_injection_entry(),
        ),
{
    let words: [&'static str; 3] = ["inject system prompt", "modify system prompt", "prompt injection hook"];
    proof {
        let model = prompt_injection_words();
        assert(word_views(words@) =~= model);
    }
    if mentions_positive(intent, &words) {
        let ghost before = views(out@);
        out.push(
            Suggestion {
                matched: "system prompt injection",
                manifest: "[capabilities]\nallow_prompt_injection = true",
                note: "This permits hook output to affect system-prompt construction. Ordinary tool responses do not need it.",
            },
        );
        assert(views(out@) =~= before.push(prompt_injection_entry()));
    }
}

fn suggest_llm_provider(intent: &[char], out: &mut Vec<Suggestion>)
    ensures
        views(final(out)@) == with_rule(
            views(old(out)@),
            intent@,
            llm_provider_words(),
            llm_provider_entry(),
        ),
{
    let words: [&'static str; 5] = ["be a provider", "llm provider", "serve an llm", "expose a model", "provide a model"];
    proof {
        let model = llm_provider_words();
        assert(word_views(words@) =~= model);
    }
    if mentions_positive(intent, &words) {
        let ghost before = views(out@);
        out.push(
            Suggestion {
                matched: "be an LLM provider",
                manifest: "[exports]\n\"astrid:llm\" = \"1.0.0\"\n\n[capabilities]\nnet = [\"*\"]\n\n[publish]\n\"llm.v1.stream.<provider>\" = { wit = \"@unicity-astrid/wit/llm/stream-event\" }\n\"llm.v1.response.describe\" = { wit = \"@unicity-astrid/wit/llm/describe-response\" }\n\n[subscribe]\n\"llm.v1.request.describe\" = { wit = \"@unicity-astrid/wit/llm/describe-request\", handler = \"llm_describe\" }\n\"llm.v1.request.generate.<provider>\" = { wit = \"@unicity-astrid/wit/llm/generate-request\", handler = \"handle_llm_request\" }",
                note: "Export astrid:llm, subscribe generate.<provider> + request.describe, publish a stream + describe-response. The registry fans out to the unsuffixed describe topic. Mirrors aos-openai-compat.",
            },
        );
        assert(views(out@) =~= before.push(llm_provider_entry()));
    }
}

fn suggest_llm_consumer(intent: &[char], out: &mut Vec<Suggestion>)
    ensures
        views(final(out)@) == with_rule(
            views(old(out)@),
            intent@,
            llm_consumer_words(),
            llm_consumer_entry(),
        ),
{
    let words: [&'static str; 5] = ["call an llm", "call the llm", "use an llm", "ask the model", "generate text"];
    proof {
        let model = llm_consumer_words();
        assert(word_views(words@) =~= model);
    }
    if mentions_positive(intent, &words) {
        let ghost before = views(out@);
        out.push(
            Suggestion {
                matched: "call an LLM (consumer)",
                manifest: "[imports]\n\"astrid:llm\" = \"^1.0\"\n\n[publish]\n\"llm.v1.request.generate.*\" = { wit = \"@unicity-astrid/wit/llm/generate-request\" }\n\n[subscribe]\n\"llm.v1.stream.*\" = { wit = \"@unicity-astrid/wit/llm/stream-event\", handler = \"handle_llm_stream\" }",
                note: "Import astrid:llm, publish a generate request to the active provider's topic, subscribe its stream. Mirrors how aos-react drives a provider.",
            },
        );
        assert(views(out@) =~= before.push(llm_consumer_entry()));
    }
}

/// Maps the keywords of an intent in lower case to manifest lines.
pub fn suggest_from_intent(intent: &str) -> (r: Vec<Suggestion>)
    ensures
        views(r@) == suggested(intent@),
{
    let chars = chars_of(intent);
    suggest_all(&chars)
}

fn suggest_all(intent: &[char]) -> (r: Vec<Suggestion>)
    ensures
        views(r@) == suggested(intent@),
{
    let mut out: Vec<Suggestion> = Vec::new();
    assert(views(out@) =~= Seq::<SuggestionView>::empty());
    suggest_read_files(intent, &mut out);
    suggest_write_files(intent, &mut out);
    suggest_outbound_http(intent, &mut out);
    suggest_outbound_tcp(intent, &mut out);
    suggest_kv_store(intent, &mut out);
    suggest_spawn_process(intent, &mut out);
    suggest_bind_socket(intent, &mut out);
    suggest_identity_operations(intent, &mut out);
    suggest_persistent_process(intent, &mut out);
    suggest_uplink(intent, &mut out);
    suggest_prompt_injection(intent, &mut out);
    suggest_llm_provider(intent, &mut out);
    suggest_llm_consumer(intent, &mut out);
    out
}

impl ForgeTools {
    /// The suggestions for an intent in any case; there is always at least one.
    pub fn suggest_capabilities(&self, args: &IntentArgs) -> (r: Vec<Suggestion>)
        ensures
            ({
                let found = suggested(text::lowercase_of(args.intent@));
                views(r@) == (if found.len() == 0 {
                    seq![unrecognised_entry()]
                } else {
                    found
                })
            }),
    {
        let lower = lowercase(args.intent.as_str());
        let mut out = suggest_from_intent(lower.as_str());
        if out.len() == 0 {
            out.push(
                Suggestion {
                    matched: "(no keywords recognised)",
                    manifest: "",
                    note: "Describe a concrete action: read/write files, http, tcp, kv, spawn a process, bind a socket, identity, or call/serve an LLM.",
                },
            );
            assert(views(out@) =~= seq![unrecognised_entry()]);
        }
        out
    }
}

/// A word counts only where it is not negated: whenever it is mentioned from
/// `at` on, some occurrence there stands in a clause without negation.
pub proof fn only_positive_mentions_count(intent: Seq<char>, word: Seq<char>, at: int)
    requires
        0 <= at,
        mentioned_from(intent, word, at),
    ensures
        exists|i: int|
            at <= i && #[trigger] text::occurs_at(intent, word, i) && !negated_at(intent, i),
    decreases intent.len() + 1 - at,
{
    if text::occurs_at(intent, word, at) {
        if negated_at(intent, at) {
            let step = if word.len() == 0 {
                1
            } else {
                word.len() as int
            };
            only_positive_mentions_count(intent, word, at + step);
        }
    } else {
        only_positive_mentions_count(intent, word, at + 1);
    }
}

} // verus!
