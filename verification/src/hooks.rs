//! Hook bridge: maps lifecycle events to semantic hooks and merges what the
//! subscribers answer.

use crate::json;
use crate::json::{parse_json, Json, JsonView};
use crate::text;
use crate::text::{holds, same_text};
use vstd::prelude::*;
use vstd::string::*;

verus! {

/// Longest time for collecting the responses of one dispatch, in milliseconds.
pub const HOOK_COLLECT_DEADLINE_MS: u64 = 5_000;

/// How the responses to a hook are merged.
#[derive(Clone, Copy, Debug)]
pub enum MergeSemantics {
    /// Fire-and-forget: responses are discarded.
    Discard,
    /// Any `skip: true` skips; the last non-null `modified_params` wins.
    ToolCallBefore,
    /// The last non-null value of the named field wins.
    LastNonNull { field: &'static str },
}

pub enum MergeView {
    Discard,
    ToolCallBefore,
    LastNonNull(Seq<char>),
}

impl MergeSemantics {
    pub open spec fn view(&self) -> MergeView {
        match self {
            MergeSemantics::Discard => MergeView::Discard,
            MergeSemantics::ToolCallBefore => MergeView::ToolCallBefore,
            MergeSemantics::LastNonNull { field } => MergeView::LastNonNull(field@),
        }
    }
}

/// The hook of a lifecycle event.
#[derive(Clone, Copy, Debug)]
pub struct HookMapping {
    pub hook_name: &'static str,
    pub merge: MergeSemantics,
}

/// Hook name and merge strategy of each lifecycle event.
pub open spec fn mapping(event: Seq<char>) -> Option<(Seq<char>, MergeView)> {
    if event == "astrid.v1.lifecycle.session_created"@ {
        Some(("session_start"@, MergeView::Discard))
    } else if event == "astrid.v1.lifecycle.session_ended"@ {
        Some(("session_end"@, MergeView::Discard))
    } else if event == "astrid.v1.lifecycle.tool_call_started"@ {
        Some(("before_tool_call"@, MergeView::ToolCallBefore))
    } else if event == "astrid.v1.lifecycle.tool_call_completed"@ {
        Some(("after_tool_call"@, MergeView::LastNonNull("modified_result"@)))
    } else if event == "astrid.v1.lifecycle.tool_result_persisting"@ {
        Some(("tool_result_persist"@, MergeView::LastNonNull("transformed_result"@)))
    } else if event == "astrid.v1.lifecycle.message_received"@ {
        Some(("message_received"@, MergeView::Discard))
    } else if event == "astrid.v1.lifecycle.message_sending"@ {
        Some(("message_sending"@, MergeView::LastNonNull("modified_content"@)))
    } else if event == "astrid.v1.lifecycle.message_sent"@ {
        Some(("message_sent"@, MergeView::Discard))
    } else if event == "astrid.v1.lifecycle.sub_agent_spawned"@ {
        Some(("subagent_start"@, MergeView::Discard))
    } else if event == "astrid.v1.lifecycle.sub_agent_completed"@ {
        Some(("subagent_stop"@, MergeView::Discard))
    } else if event == "astrid.v1.lifecycle.sub_agent_failed"@ {
        Some(("subagent_stop"@, MergeView::Discard))
    } else if event == "astrid.v1.lifecycle.sub_agent_cancelled"@ {
        Some(("subagent_stop"@, MergeView::Discard))
    } else if event == "astrid.v1.lifecycle.context_compaction_started"@ {
        Some(("on_compaction_started"@, MergeView::Discard))
    } else if event == "astrid.v1.lifecycle.context_compaction_completed"@ {
        Some(("on_compaction_completed"@, MergeView::Discard))
    } else if event == "astrid.v1.lifecycle.kernel_started"@ {
        Some(("kernel_start"@, MergeView::Discard))
    } else if event == "astrid.v1.lifecycle.kernel_shutdown"@ {
        Some(("kernel_stop"@, MergeView::Discard))
    } else {
        None
    }
}

/// The hook mapping of an event; `None` where there is no hook.
pub fn mapping_for_event(event_type: &str) -> (r: Option<HookMapping>)
    ensures
        match (r, mapping(event_type@)) {
            (Some(found), Some((hook, merge))) => found.hook_name@ == hook && found.merge@ == merge,
            (None, None) => true,
            _ => false,
        },
{
    if same_text(event_type, "astrid.v1.lifecycle.session_created") {
        Some(HookMapping { hook_name: "session_start", merge: MergeSemantics::Discard })
    } else if same_text(event_type, "astrid.v1.lifecycle.session_ended") {
        Some(HookMapping { hook_name: "session_end", merge: MergeSemantics::Discard })
    } else if same_text(event_type, "astrid.v1.lifecycle.tool_call_started") {
        Some(HookMapping { hook_name: "before_tool_call", merge: MergeSemantics::ToolCallBefore })
    } else if same_text(event_type, "astrid.v1.lifecycle.tool_call_completed") {
        Some(
            HookMapping {
                hook_name: "after_tool_call",
                merge: MergeSemantics::LastNonNull { field: "modified_result" },
            },
        )
    } else if same_text(event_type, "astrid.v1.lifecycle.tool_result_persisting") {
        Some(
            HookMapping {
                hook_name: "tool_result_persist",
                merge: MergeSemantics::LastNonNull { field: "transformed_result" },
            },
        )
    } else if same_text(event_type, "astrid.v1.lifecycle.message_received") {
        Some(HookMapping { hook_name: "message_received", merge: MergeSemantics::Discard })
    } else if same_text(event_type, "astrid.v1.lifecycle.message_sending") {
        Some(
            HookMapping {
                hook_name: "message_sending",
                merge: MergeSemantics::LastNonNull { field: "modified_content" },
            },
        )
    } else if same_text(event_type, "astrid.v1.lifecycle.message_sent") {
        Some(HookMapping { hook_name: "message_sent", merge: MergeSemantics::Discard })
    } else if same_text(event_type, "astrid.v1.lifecycle.sub_agent_spawned") {
        Some(HookMapping { hook_name: "subagent_start", merge: MergeSemantics::Discard })
    } else if same_text(event_type, "astrid.v1.lifecycle.sub_agent_completed") {
        Some(HookMapping { hook_name: "subagent_stop", merge: MergeSemantics::Discard })
    } else if same_text(event_type, "astrid.v1.lifecycle.sub_agent_failed") {
        Some(HookMapping { hook_name: "subagent_stop", merge: MergeSemantics::Discard })
    } else if same_text(event_type, "astrid.v1.lifecycle.sub_agent_cancelled") {
        Some(HookMapping { hook_name: "subagent_stop", merge: MergeSemantics::Discard })
    } else if same_text(event_type, "astrid.v1.lifecycle.context_compaction_started") {
        Some(HookMapping { hook_name: "on_compaction_started", merge: MergeSemantics::Discard })
    } else if same_text(event_type, "astrid.v1.lifecycle.context_compaction_completed") {
        Some(HookMapping { hook_name: "on_compaction_completed", merge: MergeSemantics::Discard })
    } else if same_text(event_type, "astrid.v1.lifecycle.kernel_started") {
        Some(HookMapping { hook_name: "kernel_start", merge: MergeSemantics::Discard })
    } else if same_text(event_type, "astrid.v1.lifecycle.kernel_shutdown") {
        Some(HookMapping { hook_name: "kernel_stop", merge: MergeSemantics::Discard })
    } else {
        None
    }
}

// Merging.

/// Merged result of a fan-out.
#[derive(Debug)]
pub struct HookResult<'a> {
    pub skip: Option<bool>,
    pub data: Option<&'a Json>,
}

pub open spec fn data_view(data: Option<&Json>) -> Option<JsonView> {
    match data {
        Some(value) => Some(value@),
        None => None,
    }
}

/// Whether some response asks to skip.
pub open spec fn any_skip(responses: Seq<JsonView>) -> bool {
    exists|i: int| 0 <= i < responses.len() && json::flag_of(#[trigger] responses[i], "skip"@)
}

/// The last value of a field that is not null.
pub open spec fn last_value(responses: Seq<JsonView>, field: Seq<char>) -> Option<JsonView>
    decreases responses.len(),
{
    if responses.len() == 0 {
        None
    } else {
        match json::field_of(responses.last(), field) {
            Some(value) => if value is Null {
                last_value(responses.drop_last(), field)
            } else {
                Some(value)
            },
            None => last_value(responses.drop_last(), field),
        }
    }
}

/// Skip flag and data of a merge.
pub open spec fn merged(merge: MergeView, responses: Seq<JsonView>) -> (
    Option<bool>,
    Option<JsonView>,
) {
    match merge {
        MergeView::Discard => (None, None),
        MergeView::ToolCallBefore => (
            if any_skip(responses) {
                Some(true)
            } else {
                None
            },
            last_value(responses, "modified_params"@),
        ),
        MergeView::LastNonNull(field) => (None, last_value(responses, field)),
    }
}

fn find_skip(responses: &[Json]) -> (r: bool)
    ensures
        r == any_skip(json::item_views(responses@)),
{
    let ghost all = json::item_views(responses@);
    proof {
        json::lemma_item_views(responses@);
    }
    let mut i: usize = 0;
    while i < responses.len()
        invariant
            i <= responses@.len(),
            all == json::item_views(responses@),
            all.len() == responses@.len(),
            forall|j: int| 0 <= j < all.len() ==> #[trigger] all[j] == responses@[j]@,
            forall|j: int| 0 <= j < i ==> !json::flag_of(#[trigger] all[j], "skip"@),
        decreases responses@.len() - i,
    {
        if responses[i].flag_field("skip") {
            assert(json::flag_of(all[i as int], "skip"@));
            return true;
        }
        i = i + 1;
    }
    false
}

fn find_value<'a>(responses: &'a [Json], field: &str) -> (r: Option<&'a Json>)
    ensures
        data_view(r) == last_value(json::item_views(responses@), field@),
{
    let ghost all = json::item_views(responses@);
    proof {
        json::lemma_item_views(responses@);
        assert(all.subrange(0, all.len() as int) =~= all);
    }
    let mut i: usize = responses.len();
    while i > 0
        invariant
            i <= responses@.len(),
            all == json::item_views(responses@),
            all.len() == responses@.len(),
            forall|j: int| 0 <= j < all.len() ==> #[trigger] all[j] == responses@[j]@,
            last_value(all, field@) == last_value(all.subrange(0, i as int), field@),
        decreases i,
    {
        proof {
            let prefix = all.subrange(0, i as int);
            assert(prefix.drop_last() =~= all.subrange(0, i - 1));
            assert(prefix.last() == all[i - 1]);
        }
        if let Some(value) = responses[i - 1].get(field) {
            if !value.is_null() {
                return Some(value);
            }
        }
        i = i - 1;
    }
    None
}

/// Applies merge semantics to a list of subscriber responses.
pub fn apply_merge<'a>(merge: &MergeSemantics, responses: &'a [Json]) -> (r: HookResult<'a>)
    ensures
        (r.skip, data_view(r.data)) == merged(merge@, json::item_views(responses@)),
{
    match merge {
        MergeSemantics::Discard => HookResult { skip: None, data: None },
        MergeSemantics::ToolCallBefore => HookResult {
            skip: if find_skip(responses) {
                Some(true)
            } else {
                None
            },
            data: find_value(responses, "modified_params"),
        },
        MergeSemantics::LastNonNull { field } => HookResult {
            skip: None,
            data: find_value(responses, field),
        },
    }
}

/// Once a response asks to skip, no later one takes that back.
pub proof fn skips_are_final(responses: Seq<JsonView>, later: JsonView)
    requires
        merged(MergeView::ToolCallBefore, responses).0 == Some(true),
    ensures
        merged(MergeView::ToolCallBefore, responses.push(later)).0 == Some(true),
{
    let i = choose|i: int|
        0 <= i < responses.len() && json::flag_of(#[trigger] responses[i], "skip"@);
    let all = responses.push(later);
    assert(json::flag_of(all[i], "skip"@));
}

/// A later response wins with a value that is not null, and changes nothing
/// without one.
pub proof fn last_value_wins(responses: Seq<JsonView>, later: JsonView, field: Seq<char>)
    ensures
        last_value(responses.push(later), field) == (match json::field_of(later, field) {
            Some(value) => if value is Null {
                last_value(responses, field)
            } else {
                Some(value)
            },
            None => last_value(responses, field),
        }),
{
    assert(responses.push(later).drop_last() =~= responses);
}

// Dispatching.

pub open spec fn event_topic_of(hook: Seq<char>) -> Seq<char> {
    "hook.v1.event."@ + hook
}

pub open spec fn reply_topic_of(hook: Seq<char>, correlation_id: Seq<char>) -> Seq<char> {
    "hook.v1.response."@ + hook + "."@ + correlation_id
}

/// What is done about a lifecycle event.
#[derive(Debug)]
pub enum Dispatch {
    /// No hook: nothing to do.
    Nothing,
    /// Publish on the topic and expect no answer.
    Announce { topic: String, hook: &'static str },
    /// Publish on the topic with a correlation id, and collect the answers.
    Collect { topic: String, hook: &'static str, merge: MergeSemantics },
}

/// Whether an event is dispatched as its hook asks.
pub open spec fn dispatched(event: Seq<char>, dispatch: Dispatch) -> bool {
    match mapping(event) {
        None => dispatch is Nothing,
        Some((name, merging)) => match dispatch {
            Dispatch::Nothing => false,
            Dispatch::Announce { topic, hook } => merging is Discard && topic@ == event_topic_of(
                name,
            ) && hook@ == name,
            Dispatch::Collect { topic, hook, merge } => !(merging is Discard) && topic@
                == event_topic_of(name) && hook@ == name && merge@ == merging,
        },
    }
}

/// How an event is dispatched.
pub fn dispatch_hook(event_type: &str) -> (r: Dispatch)
    ensures
        dispatched(event_type@, r),
{
    match mapping_for_event(event_type) {
        None => Dispatch::Nothing,
        Some(found) => {
            let mut topic: String = "hook.v1.event.".to_owned();
            topic.append(found.hook_name);
            match found.merge {
                MergeSemantics::Discard => Dispatch::Announce { topic, hook: found.hook_name },
                _ => Dispatch::Collect { topic, hook: found.hook_name, merge: found.merge },
            }
        },
    }
}

/// The bridge from lifecycle events to hooks, one handler for each event.
#[derive(Debug)]
pub struct HookBridge;

impl HookBridge {
    pub fn on_session_created(&self) -> (r: Dispatch)
        ensures
            dispatched("astrid.v1.lifecycle.session_created"@, r),
    {
        dispatch_hook("astrid.v1.lifecycle.session_created")
    }

    pub fn on_session_ended(&self) -> (r: Dispatch)
        ensures
            dispatched("astrid.v1.lifecycle.session_ended"@, r),
    {
        dispatch_hook("astrid.v1.lifecycle.session_ended")
    }

    pub fn on_tool_call_started(&self) -> (r: Dispatch)
        ensures
            dispatched("astrid.v1.lifecycle.tool_call_started"@, r),
    {
        dispatch_hook("astrid.v1.lifecycle.tool_call_started")
    }

    pub fn on_tool_call_completed(&self) -> (r: Dispatch)
        ensures
            dispatched("astrid.v1.lifecycle.tool_call_completed"@, r),
    {
        dispatch_hook("astrid.v1.lifecycle.tool_call_completed")
    }

    pub fn on_tool_result_persisting(&self) -> (r: Dispatch)
        ensures
            dispatched("astrid.v1.lifecycle.tool_result_persisting"@, r),
    {
        dispatch_hook("astrid.v1.lifecycle.tool_result_persisting")
    }

    pub fn on_message_received(&self) -> (r: Dispatch)
        ensures
            dispatched("astrid.v1.lifecycle.message_received"@, r),
    {
        dispatch_hook("astrid.v1.lifecycle.message_received")
    }

    pub fn on_message_sending(&self) -> (r: Dispatch)
        ensures
            dispatched("astrid.v1.lifecycle.message_sending"@, r),
    {
        dispatch_hook("astrid.v1.lifecycle.message_sending")
    }

    pub fn on_message_sent(&self) -> (r: Dispatch)
        ensures
            dispatched("astrid.v1.lifecycle.message_sent"@, r),
    {
        dispatch_hook("astrid.v1.lifecycle.message_sent")
    }

    pub fn on_subagent_spawned(&self) -> (r: Dispatch)
        ensures
            dispatched("astrid.v1.lifecycle.sub_agent_spawned"@, r),
    {
        dispatch_hook("astrid.v1.lifecycle.sub_agent_spawned")
    }

    pub fn on_subagent_completed(&self) -> (r: Dispatch)
        ensures
            dispatched("astrid.v1.lifecycle.sub_agent_completed"@, r),
    {
        dispatch_hook("astrid.v1.lifecycle.sub_agent_completed")
    }

    pub fn on_subagent_failed(&self) -> (r: Dispatch)
        ensures
            dispatched("astrid.v1.lifecycle.sub_agent_failed"@, r),
    {
        dispatch_hook("astrid.v1.lifecycle.sub_agent_failed")
    }

    pub fn on_subagent_cancelled(&self) -> (r: Dispatch)
        ensures
            dispatched("astrid.v1.lifecycle.sub_agent_cancelled"@, r),
    {
        dispatch_hook("astrid.v1.lifecycle.sub_agent_cancelled")
    }

    pub fn on_compaction_started(&self) -> (r: Dispatch)
        ensures
            dispatched("astrid.v1.lifecycle.context_compaction_started"@, r),
    {
        dispatch_hook("astrid.v1.lifecycle.context_compaction_started")
    }

    pub fn on_compaction_completed(&self) -> (r: Dispatch)
        ensures
            dispatched("astrid.v1.lifecycle.context_compaction_completed"@, r),
    {
        dispatch_hook("astrid.v1.lifecycle.context_compaction_completed")
    }

    pub fn on_kernel_started(&self) -> (r: Dispatch)
        ensures
            dispatched("astrid.v1.lifecycle.kernel_started"@, r),
    {
        dispatch_hook("astrid.v1.lifecycle.kernel_started")
    }

    pub fn on_kernel_shutdown(&self) -> (r: Dispatch)
        ensures
            dispatched("astrid.v1.lifecycle.kernel_shutdown"@, r),
    {
        dispatch_hook("astrid.v1.lifecycle.kernel_shutdown")
    }
}

/// The topic on which a hook is answered.
pub fn reply_topic(hook: &str, correlation_id: &str) -> (r: String)
    ensures
        r@ == reply_topic_of(hook@, correlation_id@),
{
    let mut topic: String = "hook.v1.response.".to_owned();
    topic.append(hook);
    topic.append(".");
    topic.append(correlation_id);
    topic
}

pub open spec fn hex_char(value: int) -> char {
    if value < 10 {
        (48 + value) as u8 as char
    } else {
        (87 + value) as u8 as char
    }
}

/// Bytes in lower-case hexadecimal.
pub open spec fn hex_text(bytes: Seq<u8>) -> Seq<char>
    decreases bytes.len(),
{
    if bytes.len() == 0 {
        Seq::empty()
    } else {
        hex_text(bytes.drop_last()).push(hex_char(bytes.last() as int / 16)).push(
            hex_char(bytes.last() as int % 16),
        )
    }
}

fn hex_digit(value: u8) -> (r: char)
    requires
        value < 16,
    ensures
        r == hex_char(value as int),
{
    if value < 10 {
        (48 + value) as char
    } else {
        (87 + value) as char
    }
}

/// A correlation id made of random bytes.
pub fn correlation_id(bytes: &[u8]) -> (r: String)
    ensures
        r@ == hex_text(bytes@),
{
    let mut out = String::new();
    let mut i: usize = 0;
    assert(out@ =~= hex_text(bytes@.subrange(0, 0)));
    while i < bytes.len()
        invariant
            i <= bytes@.len(),
            out@ == hex_text(bytes@.subrange(0, i as int)),
        decreases bytes@.len() - i,
    {
        proof {
            let prefix = bytes@.subrange(0, i + 1);
            assert(prefix.drop_last() =~= bytes@.subrange(0, i as int));
            assert(prefix.last() == bytes@[i as int]);
        }
        out.push(hex_digit(bytes[i] / 16));
        out.push(hex_digit(bytes[i] % 16));
        i = i + 1;
    }
    assert(bytes@.subrange(0, i as int) =~= bytes@);
    out
}

/// Time left for collecting after `elapsed_ms`; `None` once the window is
/// closed.
pub fn remaining_ms(elapsed_ms: u128) -> (r: Option<u64>)
    ensures
        match r {
            Some(left) => elapsed_ms < HOOK_COLLECT_DEADLINE_MS && left + elapsed_ms
                == HOOK_COLLECT_DEADLINE_MS,
            None => elapsed_ms >= HOOK_COLLECT_DEADLINE_MS,
        },
{
    if elapsed_ms >= HOOK_COLLECT_DEADLINE_MS as u128 {
        None
    } else {
        Some(HOOK_COLLECT_DEADLINE_MS - elapsed_ms as u64)
    }
}

/// Whether collecting goes on, is over, or failed.
#[derive(Clone, Copy, Debug, PartialEq, Eq, Structural)]
pub enum Collecting {
    Open,
    Over,
    Failed,
}

/// Responses to one dispatch.
#[derive(Debug)]
pub struct Collector {
    pub merge: MergeSemantics,
    pub responses: Vec<Json>,
}

/// The documents that the first `n` texts of a batch hold; a malformed text
/// holds none.
pub open spec fn parsed(batch: Seq<String>, n: nat) -> Seq<JsonView>
    decreases n,
{
    if n == 0 {
        Seq::empty()
    } else {
        let front = parsed(batch, (n - 1) as nat);
        match json::json_of(batch[n - 1]@) {
            Some(document) => front.push(document),
            None => front,
        }
    }
}

/// The well-formed messages of a batch.
pub open spec fn well_formed(batch: Seq<Option<Json>>) -> Seq<JsonView>
    decreases batch.len(),
{
    if batch.len() == 0 {
        Seq::empty()
    } else {
        let front = well_formed(batch.drop_last());
        match batch.last() {
            Some(value) => front.push(value@),
            None => front,
        }
    }
}

impl Collector {
    pub open spec fn view(&self) -> Seq<JsonView> {
        json::item_views(self.responses@)
    }

    pub fn new(merge: MergeSemantics) -> (r: Self)
        ensures
            r.merge == merge,
            r@ == Seq::<JsonView>::empty(),
    {
        Collector { merge, responses: Vec::new() }
    }

    /// Takes the texts of a batch of replies. Malformed ones are dropped; an
    /// empty batch ends the collection.
    pub fn take_replies(&mut self, replies: &Vec<String>) -> (r: Collecting)
        ensures
            final(self).merge == old(self).merge,
            final(self)@ == old(self)@ + parsed(replies@, replies@.len()),
            r == (if replies@.len() == 0 {
                Collecting::Over
            } else {
                Collecting::Open
            }),
    {
        let mut batch: Vec<Option<Json>> = Vec::new();
        let mut i: usize = 0;
        while i < replies.len()
            invariant
                i <= replies@.len(),
                batch@.len() == i,
                well_formed(batch@) == parsed(replies@, i as nat),
            decreases replies@.len() - i,
        {
            let ghost before = batch@;
            batch.push(parse_json(replies[i].as_str()));
            i = i + 1;
            assert(batch@.drop_last() =~= before);
        }
        self.take_batch(batch)
    }

    /// Takes a batch of replies, of which malformed ones are `None`. An empty
    /// batch ends the collection.
    pub fn take_batch(&mut self, batch: Vec<Option<Json>>) -> (r: Collecting)
        ensures
            final(self).merge == old(self).merge,
            final(self)@ == old(self)@ + well_formed(batch@),
            r == (if batch@.len() == 0 {
                Collecting::Over
            } else {
                Collecting::Open
            }),
    {
        let ghost all = batch@;
        let ghost start = self@;
        let mut rest: Vec<Option<Json>> = reversed(batch);
        let over: bool = rest.len() == 0;
        let ghost mut n: int = 0;
        assert(start + well_formed(all.subrange(0, 0)) =~= start);
        while rest.len() > 0
            invariant
                self.merge == old(self).merge,
                0 <= n <= all.len(),
                rest@.len() + n == all.len(),
                forall|i: int|
                    0 <= i < rest@.len() ==> #[trigger] rest@[i] == all[all.len() - 1 - i],
                self@ == start + well_formed(all.subrange(0, n)),
            decreases rest@.len(),
        {
            proof {
                let prefix = all.subrange(0, n + 1);
                assert(prefix.drop_last() =~= all.subrange(0, n));
                assert(prefix.last() == all[n]);
            }
            let ghost before = self.responses@;
            let ghost had = self@;
            if let Some(message) = rest.pop() {
                assert(message == all[n]);
                if let Some(value) = message {
                    self.responses.push(value);
                    proof {
                        assert(self.responses@.drop_last() =~= before);
                        assert(self@ =~= start + well_formed(all.subrange(0, n + 1)));
                    }
                }
                proof {
                    n = n + 1;
                }
            }
        }
        assert(all.subrange(0, n) =~= all);
        if over {
            Collecting::Over
        } else {
            Collecting::Open
        }
    }

    /// Takes a failed poll. A host that reports a timeout has no more replies;
    /// any other failure is one of the dispatch.
    pub fn take_error(&self, host_error: Option<&str>) -> (r: Collecting)
        ensures
            r == (match host_error {
                Some(message) => if text::contains(message@, "Timeout"@) {
                    Collecting::Over
                } else {
                    Collecting::Failed
                },
                None => Collecting::Failed,
            }),
    {
        match host_error {
            Some(message) => if holds(message, "Timeout") {
                Collecting::Over
            } else {
                Collecting::Failed
            },
            None => Collecting::Failed,
        }
    }

    /// The merge of what was collected.
    pub fn finish(&self) -> (r: HookResult<'_>)
        ensures
            (r.skip, data_view(r.data)) == merged(self.merge@, self@),
    {
        apply_merge(&self.merge, self.responses.as_slice())
    }
}

fn reversed(mut batch: Vec<Option<Json>>) -> (r: Vec<Option<Json>>)
    ensures
        r@.len() == batch@.len(),
        forall|i: int|
            0 <= i < r@.len() ==> #[trigger] r@[i] == batch@[batch@.len() - 1 - i],
{
    let ghost all = batch@;
    let mut out: Vec<Option<Json>> = Vec::new();
    while batch.len() > 0
        invariant
            batch@.len() + out@.len() == all.len(),
            batch@ == all.subrange(0, batch@.len() as int),
            forall|i: int| 0 <= i < out@.len() ==> #[trigger] out@[i] == all[all.len() - 1 - i],
        decreases batch@.len(),
    {
        if let Some(message) = batch.pop() {
            out.push(message);
        }
    }
    out
}

} // verus!
