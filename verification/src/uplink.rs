//! Routing rules of the command-line uplink: which principal a connection
//! speaks for, who receives a message, and how a streamed reply is completed.

use crate::json;
use crate::json::{Json, JsonView};
use crate::text;
use crate::text::{begins_with, chars_of, same_text, slice_text};
use vstd::prelude::*;
use vstd::string::*;

verus! {

/// Principal of a connection that names none.
pub const DEFAULT_PRINCIPAL: &'static str = "default";

/// Topic of a user's prompt.
pub const CHAT_REQUEST_TOPIC: &'static str = "user.v1.prompt";

/// Topic of an agent's reply.
pub const CHAT_RESPONSE_TOPIC: &'static str = "agent.v1.response";

/// Topic of a streamed piece of a reply.
pub const CHAT_DELTA_TOPIC: &'static str = "agent.v1.stream.delta";

/// Handles that one readiness poll takes.
pub const MAX_POLL_HANDLES: usize = 255;

/// Longest principal name.
pub const MAX_PRINCIPAL_CHARS: usize = 64;

/// Clients that can be polled beside `reserved` other handles.
pub fn max_polled_clients(reserved: usize) -> (r: usize)
    ensures
        r == (if reserved < MAX_POLL_HANDLES {
            MAX_POLL_HANDLES - reserved
        } else {
            0
        }),
{
    if reserved < MAX_POLL_HANDLES {
        MAX_POLL_HANDLES - reserved
    } else {
        0
    }
}

pub open spec fn principal_char(c: char) -> bool {
    'a' <= c <= 'z' || 'A' <= c <= 'Z' || '0' <= c <= '9' || c == '_' || c == '-'
}

pub open spec fn valid_principal(name: Seq<char>) -> bool {
    &&& 1 <= name.len() <= MAX_PRINCIPAL_CHARS
    &&& forall|i: int| 0 <= i < name.len() ==> principal_char(#[trigger] name[i])
}

/// Whether a text can name a principal.
pub fn is_valid_principal(name: &str) -> (r: bool)
    ensures
        r == valid_principal(name@),
{
    let chars = chars_of(name);
    if chars.len() == 0 || chars.len() > MAX_PRINCIPAL_CHARS {
        return false;
    }
    let mut i: usize = 0;
    while i < chars.len()
        invariant
            i <= chars@.len(),
            chars@ == name@,
            forall|j: int| 0 <= j < i ==> principal_char(#[trigger] name@[j]),
        decreases chars@.len() - i,
    {
        let c: char = chars[i];
        if !(('a' <= c && c <= 'z') || ('A' <= c && c <= 'Z') || ('0' <= c && c <= '9') || c == '_'
            || c == '-') {
            assert(!principal_char(name@[i as int]));
            return false;
        }
        i = i + 1;
    }
    true
}

/// Why an incoming message is dropped.
#[derive(Clone, Debug, PartialEq, Eq)]
pub enum DropReason {
    InvalidPrincipal(String),
    PrincipalConflict { bound: String, claimed: String },
}

/// What becomes of an incoming message.
#[derive(Clone, Debug, PartialEq, Eq)]
pub enum IngressDecision {
    /// Bind the connection to the principal and forward under it.
    Bind(String),
    /// Forward under the bound principal.
    ForwardAs(String),
    Drop { reason: DropReason },
}

pub enum IngressView {
    Bind(Seq<char>),
    ForwardAs(Seq<char>),
    InvalidPrincipal(Seq<char>),
    PrincipalConflict(Seq<char>, Seq<char>),
}

impl IngressDecision {
    pub open spec fn view(&self) -> IngressView {
        match self {
            IngressDecision::Bind(name) => IngressView::Bind(name@),
            IngressDecision::ForwardAs(name) => IngressView::ForwardAs(name@),
            IngressDecision::Drop { reason: DropReason::InvalidPrincipal(
                name,
            ) } => IngressView::InvalidPrincipal(name@),
            IngressDecision::Drop {
                reason: DropReason::PrincipalConflict { bound, claimed },
            } => IngressView::PrincipalConflict(bound@, claimed@),
        }
    }
}

/// The first message binds a connection. From then on it speaks for that
/// principal only.
pub open spec fn ingress(bound: Option<Seq<char>>, claimed: Option<Seq<char>>) -> IngressView {
    match (bound, claimed) {
        (None, None) => IngressView::Bind(DEFAULT_PRINCIPAL@),
        (None, Some(name)) => if valid_principal(name) {
            IngressView::Bind(name)
        } else {
            IngressView::InvalidPrincipal(name)
        },
        (Some(name), None) => IngressView::ForwardAs(name),
        (Some(name), Some(other)) => if name == other {
            IngressView::ForwardAs(name)
        } else {
            IngressView::PrincipalConflict(name, other)
        },
    }
}

/// What becomes of a message on a connection.
pub fn decide_ingress(bound: Option<&str>, claimed: Option<&str>) -> (r: IngressDecision)
    ensures
        r@ == ingress(text::maybe(bound), text::maybe(claimed)),
{
    match bound {
        None => match claimed {
            None => IngressDecision::Bind(DEFAULT_PRINCIPAL.to_owned()),
            Some(name) => if is_valid_principal(name) {
                IngressDecision::Bind(name.to_owned())
            } else {
                IngressDecision::Drop { reason: DropReason::InvalidPrincipal(name.to_owned()) }
            },
        },
        Some(name) => match claimed {
            None => IngressDecision::ForwardAs(name.to_owned()),
            Some(other) => if same_text(name, other) {
                IngressDecision::ForwardAs(name.to_owned())
            } else {
                IngressDecision::Drop {
                    reason: DropReason::PrincipalConflict {
                        bound: name.to_owned(),
                        claimed: other.to_owned(),
                    },
                }
            },
        },
    }
}

/// A bound connection is never bound again, and forwards under its own
/// principal or not at all.
pub proof fn bindings_are_final(bound: Seq<char>, claimed: Option<Seq<char>>)
    ensures
        match ingress(Some(bound), claimed) {
            IngressView::ForwardAs(name) => name == bound,
            IngressView::PrincipalConflict(name, other) => name == bound && claimed == Some(other),
            _ => false,
        },
{
}

/// A connection can only be bound to a well-formed principal.
pub proof fn bound_principals_are_valid(claimed: Option<Seq<char>>)
    ensures
        ingress(None, claimed) matches IngressView::Bind(name) ==> valid_principal(name),
{
    reveal_strlit("default");
    assert(valid_principal(DEFAULT_PRINCIPAL@)) by {
        assert forall|i: int| 0 <= i < DEFAULT_PRINCIPAL@.len() implies principal_char(
            #[trigger] DEFAULT_PRINCIPAL@[i],
        ) by {}
    }
}

/// A message with a principal goes to that principal's clients, and one with a
/// session to that session's. Without either there is no such condition.
pub open spec fn delivered(
    principal: Option<Seq<char>>,
    session: Option<Seq<char>>,
    client_principal: Option<Seq<char>>,
    client_session: Option<Seq<char>>,
) -> bool {
    &&& principal is Some ==> client_principal == principal
    &&& session is Some ==> client_session == session
}

fn same_option(a: Option<&str>, b: Option<&str>) -> (r: bool)
    ensures
        r == (text::maybe(a) == text::maybe(b)),
{
    match a {
        None => b.is_none(),
        Some(x) => match b {
            None => false,
            Some(y) => same_text(x, y),
        },
    }
}

/// Whether a client receives a message.
pub fn should_deliver(
    message_principal: Option<&str>,
    message_session: Option<&str>,
    client_principal: Option<&str>,
    client_session: Option<&str>,
) -> (r: bool)
    ensures
        r == delivered(
            text::maybe(message_principal),
            text::maybe(message_session),
            text::maybe(client_principal),
            text::maybe(client_session),
        ),
{
    (message_principal.is_none() || same_option(client_principal, message_principal)) && (
    message_session.is_none() || same_option(client_session, message_session))
}

/// No message of a session reaches a client on another.
pub proof fn sessions_do_not_mix(
    principal: Option<Seq<char>>,
    session: Seq<char>,
    client_principal: Option<Seq<char>>,
    client_session: Option<Seq<char>>,
)
    requires
        client_session != Some(session),
    ensures
        !delivered(principal, Some(session), client_principal, client_session),
{
}

/// The session that a payload names.
pub open spec fn session_of(payload: JsonView) -> Option<Seq<char>> {
    json::text_of(payload, "session_id"@)
}

/// The session that a payload names.
pub fn payload_session_id(payload: &Json) -> (r: Option<&str>)
    ensures
        text::maybe(r) == session_of(payload@),
{
    payload.text_field("session_id")
}

/// The session that an incoming message binds its connection to: only a prompt
/// does.
pub fn ingress_session_bind<'a>(topic: &str, payload: &'a Json) -> (r: Option<&'a str>)
    ensures
        text::maybe(r) == (if topic@ == CHAT_REQUEST_TOPIC@ {
            session_of(payload@)
        } else {
            None
        }),
{
    if same_text(topic, CHAT_REQUEST_TOPIC) {
        payload_session_id(payload)
    } else {
        None
    }
}

/// The session that an outgoing message is confined to: only replies and their
/// streamed pieces are.
pub fn outbound_session_scope<'a>(topic: &str, payload: &'a Json) -> (r: Option<&'a str>)
    ensures
        text::maybe(r) == (if topic@ == CHAT_RESPONSE_TOPIC@ || topic@ == CHAT_DELTA_TOPIC@ {
            session_of(payload@)
        } else {
            None
        }),
{
    if same_text(topic, CHAT_RESPONSE_TOPIC) || same_text(topic, CHAT_DELTA_TOPIC) {
        payload_session_id(payload)
    } else {
        None
    }
}

/// Who a message on the bus comes from.
#[derive(Clone, Debug, PartialEq, Eq)]
pub enum PrincipalAttribution {
    Verified(String),
    Claimed(String),
    System,
}

/// The principal that a message is meant for.
pub fn attribution_target(attribution: &PrincipalAttribution) -> (r: Option<&str>)
    ensures
        match attribution {
            PrincipalAttribution::Verified(name) => text::maybe(r) == Some(name@),
            PrincipalAttribution::Claimed(name) => text::maybe(r) == Some(name@),
            PrincipalAttribution::System => r is None,
        },
{
    match attribution {
        PrincipalAttribution::Verified(name) => Some(name.as_str()),
        PrincipalAttribution::Claimed(name) => Some(name.as_str()),
        PrincipalAttribution::System => None,
    }
}

// Streamed replies.

/// Text streamed so far, by session.
#[derive(Debug)]
pub struct StreamAccumulator {
    pub streams: Vec<(String, String)>,
}

pub open spec fn stream_views(streams: Seq<(String, String)>) -> Seq<(Seq<char>, Seq<char>)> {
    Seq::new(streams.len(), |i: int| (streams[i].0@, streams[i].1@))
}

pub open spec fn find_stream(streams: Seq<(Seq<char>, Seq<char>)>, session: Seq<char>) -> Option<int>
    decreases streams.len(),
{
    if streams.len() == 0 {
        None
    } else if streams.last().0 == session {
        Some(streams.len() - 1)
    } else {
        find_stream(streams.drop_last(), session)
    }
}

/// Text streamed so far in a session.
pub open spec fn streamed(streams: Seq<(Seq<char>, Seq<char>)>, session: Seq<char>) -> Option<
    Seq<char>,
> {
    match find_stream(streams, session) {
        Some(i) => Some(streams[i].1),
        None => None,
    }
}

/// Streams with one more piece.
pub open spec fn extended(
    streams: Seq<(Seq<char>, Seq<char>)>,
    session: Seq<char>,
    piece: Seq<char>,
) -> Seq<(Seq<char>, Seq<char>)> {
    match find_stream(streams, session) {
        Some(i) => streams.update(i, (session, streams[i].1 + piece)),
        None => streams.push((session, piece)),
    }
}

/// What is left of a reply behind the text that was streamed. A reply that does
/// not go on from there leaves nothing.
pub open spec fn remainder(full: Seq<char>, sent: Seq<char>) -> Seq<char> {
    if text::begins(full, sent) {
        full.skip(sent.len() as int)
    } else {
        Seq::empty()
    }
}

/// A payload as the client gets it, and the streams behind it.
pub open spec fn reconciled(
    topic: Seq<char>,
    payload: JsonView,
    streams: Seq<(Seq<char>, Seq<char>)>,
) -> (JsonView, Seq<(Seq<char>, Seq<char>)>) {
    match session_of(payload) {
        None => (payload, streams),
        Some(session) => if topic == CHAT_DELTA_TOPIC@ {
            match json::text_of(payload, "text"@) {
                None => (payload, streams),
                Some(piece) => (payload, extended(streams, session, piece)),
            }
        } else if topic == CHAT_RESPONSE_TOPIC@ && json::flag_of(payload, "is_final"@) {
            match find_stream(streams, session) {
                None => (payload, streams),
                Some(i) => (
                    match json::text_of(payload, "text"@) {
                        None => payload,
                        Some(full) => json::with_text(
                            payload,
                            "text"@,
                            remainder(full, streams[i].1),
                        ),
                    },
                    streams.remove(i),
                ),
            }
        } else {
            (payload, streams)
        },
    }
}

impl StreamAccumulator {
    pub open spec fn view(&self) -> Seq<(Seq<char>, Seq<char>)> {
        stream_views(self.streams@)
    }

    pub fn new() -> (r: Self)
        ensures
            r@ == Seq::<(Seq<char>, Seq<char>)>::empty(),
    {
        let accumulator = StreamAccumulator { streams: Vec::new() };
        assert(accumulator@ =~= Seq::<(Seq<char>, Seq<char>)>::empty());
        accumulator
    }

    pub fn is_empty(&self) -> (r: bool)
        ensures
            r == (self@.len() == 0),
    {
        self.streams.len() == 0
    }

    fn find(&self, session: &str) -> (r: Option<usize>)
        ensures
            match (r, find_stream(self@, session@)) {
                (Some(i), Some(found)) => i == found && i < self.streams@.len(),
                (None, None) => true,
                _ => false,
            },
    {
        let ghost all = self@;
        let mut i: usize = self.streams.len();
        assert(all.subrange(0, all.len() as int) =~= all);
        while i > 0
            invariant
                i <= self.streams@.len(),
                all == stream_views(self.streams@),
                find_stream(all, session@) == find_stream(all.subrange(0, i as int), session@),
            decreases i,
        {
            proof {
                let prefix = all.subrange(0, i as int);
                assert(prefix.drop_last() =~= all.subrange(0, i - 1));
                assert(prefix.last() == all[i - 1]);
            }
            if same_text(self.streams[i - 1].0.as_str(), session) {
                return Some(i - 1);
            }
            i = i - 1;
        }
        None
    }

    /// Text streamed so far in a session.
    pub fn get(&self, session: &str) -> (r: Option<&str>)
        ensures
            text::maybe(r) == streamed(self@, session@),
    {
        match self.find(session) {
            Some(i) => Some(self.streams[i].1.as_str()),
            None => None,
        }
    }

    fn add(&mut self, session: &str, piece: &str)
        ensures
            final(self)@ == extended(old(self)@, session@, piece@),
    {
        match self.find(session) {
            Some(i) => {
                let mut text: String = self.streams[i].1.clone();
                text.append(piece);
                self.streams[i] = (session.to_owned(), text);
            },
            None => {
                self.streams.push((session.to_owned(), piece.to_owned()));
            },
        }
        assert(self@ =~= extended(old(self)@, session@, piece@));
    }
}

/// What is left of a reply behind the text that was streamed.
fn rest_of(full: &str, sent: &str) -> (r: String)
    ensures
        r@ == remainder(full@, sent@),
{
    let all = chars_of(full);
    let front = chars_of(sent);
    if begins_with(&all, &front) {
        let rest = slice_text(&all, front.len(), all.len());
        assert(rest@ =~= full@.skip(sent@.len() as int));
        rest
    } else {
        let rest = String::new();
        assert(rest@ =~= Seq::<char>::empty());
        rest
    }
}

/// Rewrites the end of a streamed reply to what the client has not got yet.
pub fn reconcile_stream_payload(
    topic: &str,
    payload: &mut Json,
    streams: &mut StreamAccumulator,
)
    ensures
        (final(payload)@, final(streams)@) == reconciled(topic@, old(payload)@, old(streams)@),
{
    let session: String = match payload_session_id(payload) {
        Some(session) => session.to_owned(),
        None => {
            return ;
        },
    };
    if same_text(topic, CHAT_DELTA_TOPIC) {
        if let Some(piece) = payload.text_field("text") {
            streams.add(session.as_str(), piece);
        }
    } else if same_text(topic, CHAT_RESPONSE_TOPIC) && payload.flag_field("is_final") {
        if let Some(i) = streams.find(session.as_str()) {
            let ghost before = streams@;
            let (_, sent) = streams.streams.remove(i);
            assert(streams@ =~= before.remove(i as int));
            let rest: Option<String> = match payload.text_field("text") {
                Some(full) => Some(rest_of(full, sent.as_str())),
                None => None,
            };
            if let Some(rest) = rest {
                payload.set_text("text", rest.as_str());
            }
        }
    }
}

proof fn lemma_find_stream(streams: Seq<(Seq<char>, Seq<char>)>, session: Seq<char>)
    ensures
        match find_stream(streams, session) {
            Some(i) => 0 <= i < streams.len() && streams[i].0 == session,
            None => forall|i: int| 0 <= i < streams.len() ==> (#[trigger] streams[i]).0 != session,
        },
    decreases streams.len(),
{
    if streams.len() > 0 {
        let front = streams.drop_last();
        lemma_find_stream(front, session);
        if find_stream(streams, session) is None {
            assert forall|i: int| 0 <= i < streams.len() implies (#[trigger] streams[i]).0
                != session by {
                if i < front.len() {
                    assert(front[i] == streams[i]);
                }
            }
        }
    }
}

proof fn lemma_update_elsewhere(
    streams: Seq<(Seq<char>, Seq<char>)>,
    i: int,
    entry: (Seq<char>, Seq<char>),
    other: Seq<char>,
)
    requires
        0 <= i < streams.len(),
        streams[i].0 == entry.0,
        entry.0 != other,
    ensures
        streamed(streams.update(i, entry), other) == streamed(streams, other),
        find_stream(streams.update(i, entry), other) == find_stream(streams, other),
    decreases streams.len(),
{
    if i < streams.len() - 1 {
        assert(streams.update(i, entry).drop_last() =~= streams.drop_last().update(i, entry));
        lemma_update_elsewhere(streams.drop_last(), i, entry, other);
    } else {
        assert(streams.update(i, entry).drop_last() =~= streams.drop_last());
    }
    lemma_find_stream(streams, other);
}

proof fn lemma_remove_elsewhere(streams: Seq<(Seq<char>, Seq<char>)>, i: int, other: Seq<char>)
    requires
        0 <= i < streams.len(),
        streams[i].0 != other,
    ensures
        streamed(streams.remove(i), other) == streamed(streams, other),
    decreases streams.len(),
{
    lemma_find_stream(streams, other);
    lemma_find_stream(streams.remove(i), other);
    if i == streams.len() - 1 {
        assert(streams.remove(i) =~= streams.drop_last());
    } else if streams.last().0 == other {
        assert(streams.remove(i).last() == streams.last());
    } else {
        assert(streams.remove(i).drop_last() =~= streams.drop_last().remove(i));
        lemma_remove_elsewhere(streams.drop_last(), i, other);
        lemma_find_stream(streams.drop_last(), other);
        lemma_find_stream(streams.drop_last().remove(i), other);
    }
}

/// A message of one session leaves what other sessions have streamed alone.
pub proof fn streams_do_not_mix(
    topic: Seq<char>,
    payload: JsonView,
    streams: Seq<(Seq<char>, Seq<char>)>,
    other: Seq<char>,
)
    requires
        session_of(payload) != Some(other),
    ensures
        streamed(reconciled(topic, payload, streams).1, other) == streamed(streams, other),
{
    if let Some(session) = session_of(payload) {
        lemma_find_stream(streams, session);
        let piece = json::text_of(payload, "text"@);
        if let Some(i) = find_stream(streams, session) {
            lemma_remove_elsewhere(streams, i, other);
            if piece is Some {
                lemma_update_elsewhere(
                    streams,
                    i,
                    (session, streams[i].1 + piece->Some_0),
                    other,
                );
            }
        } else if piece is Some {
            let added = streams.push((session, piece->Some_0));
            assert(added.drop_last() =~= streams);
            lemma_find_stream(streams, other);
        }
    }
}

/// The client shows a reply exactly once: the text it has streamed, followed by
/// the body of the final message, is the whole reply whenever the streamed text
/// begins the reply; and without any streamed text the reply comes whole.
pub proof fn replies_are_rendered_once(
    payload: JsonView,
    streams: Seq<(Seq<char>, Seq<char>)>,
    session: Seq<char>,
    full: Seq<char>,
)
    requires
        session_of(payload) == Some(session),
        json::flag_of(payload, "is_final"@),
        json::text_of(payload, "text"@) == Some(full),
        streamed(streams, session) matches Some(sent) ==> text::begins(full, sent),
    ensures
        ({
            let after = reconciled(CHAT_RESPONSE_TOPIC@, payload, streams).0;
            let sent = match streamed(streams, session) {
                Some(sent) => sent,
                None => Seq::empty(),
            };
            json::text_of(after, "text"@) matches Some(body) && sent + body == full
        }),
{
    reveal_strlit("agent.v1.response");
    reveal_strlit("agent.v1.stream.delta");
    assert(CHAT_RESPONSE_TOPIC@ != CHAT_DELTA_TOPIC@) by {
        assert(CHAT_RESPONSE_TOPIC@.len() != CHAT_DELTA_TOPIC@.len());
    }
    match streamed(streams, session) {
        Some(sent) => {
            let rest = remainder(full, sent);
            assert(sent + rest =~= full) by {
                assert(full.subrange(0, sent.len() as int) =~= sent);
            }
            let fields = payload->Object_0;
            let i = json::find_field(fields, "text"@)->Some_0;
            json::lemma_find_field(fields, "text"@);
            json::lemma_find_updated(fields, i, JsonView::Text(rest), "text"@);
        },
        None => {
            assert(Seq::<char>::empty() + full =~= full);
        },
    }
}

} // verus!
