//! The conversation about the receiver's volume: which messages go out, and
//! what is made of those that come in. Levels themselves are floating-point
//! numbers and stay with the program.

use vstd::prelude::*;

use crate::encoder::text_in;
use crate::pipeline::str_in;
use crate::text::same;
use crate::time::{elapsed, Duration, Instant};

verus! {

/// The program's id on this connection. Two connections sharing an id look like
/// one virtual connection to the device, so a separate id keeps this one from
/// disrupting the cast session.
pub const SENDER_ID: &'static str = "sender-gsc-volume";

/// The receiver's own id.
pub const RECEIVER_ID: &'static str = "receiver-0";

pub const NS_CONNECTION: &'static str = "urn:x-cast:com.google.cast.tp.connection";

pub const NS_HEARTBEAT: &'static str = "urn:x-cast:com.google.cast.tp.heartbeat";

pub const NS_RECEIVER: &'static str = "urn:x-cast:com.google.cast.receiver";

/// Socket read timeout, in milliseconds; also paces the loop, so a requested
/// volume is applied within roughly this long.
pub const READ_TIMEOUT_MILLIS: u64 = 200;

/// How often the connection is kept alive, in seconds.
pub const PING_INTERVAL_SECS: u64 = 5;

/// How many times the program looks for a stop request before it tries to
/// connect again.
pub const BACKOFF_STEPS: u32 = 10;

/// The pause before each such look, in milliseconds.
pub const BACKOFF_STEP_MILLIS: u64 = 200;

/// The text under a key of the object that a JSON text holds; `None` when the
/// text is not JSON, holds no object, or has no text under that key.
pub uninterp spec fn json_member(text: Seq<char>, key: Seq<char>) -> Option<Seq<char>>;

/// Calls `serde_json::from_str` for a `serde_json::Value`, and on that
/// `Value::get` and `Value::as_str`. What they find depends on the text and the
/// key alone.
#[verifier::external_body]
fn read_member(text: &str, key: &str) -> (member: Option<String>)
    ensures
        text_in(member) == json_member(text@, key@),
{
    let value: serde_json::Value = serde_json::from_str(text).ok()?;
    value.get(key)?.as_str().map(|member| member.to_owned())
}

/// The JSON text of an object with a text member, and a further text member and
/// a number member as far as given.
pub uninterp spec fn json_object(
    first: (Seq<char>, Seq<char>),
    second: Option<(Seq<char>, Seq<char>)>,
    number: Option<(Seq<char>, u32)>,
) -> Seq<char>;

/// The contents of an optional text member.
pub open spec fn member_in(member: Option<(&str, &str)>) -> Option<(Seq<char>, Seq<char>)> {
    match member {
        Some((key, value)) => Some((key@, value@)),
        None => None,
    }
}

/// The contents of an optional number member.
pub open spec fn number_in(member: Option<(&str, u32)>) -> Option<(Seq<char>, u32)> {
    match member {
        Some((key, value)) => Some((key@, value)),
        None => None,
    }
}

/// Whether the members of an object have different keys.
pub open spec fn distinct_keys(
    first: (Seq<char>, Seq<char>),
    second: Option<(Seq<char>, Seq<char>)>,
    number: Option<(Seq<char>, u32)>,
) -> bool {
    &&& second matches Some((key, _)) ==> key != first.0
    &&& number matches Some((key, _)) ==> key != first.0
    &&& second matches Some((key, _)) ==> (number matches Some((other, _)) ==> key != other)
}

/// The text under a key of an object with some members.
pub open spec fn text_under(
    first: (Seq<char>, Seq<char>),
    second: Option<(Seq<char>, Seq<char>)>,
    key: Seq<char>,
) -> Option<Seq<char>> {
    if key == first.0 {
        Some(first.1)
    } else {
        match second {
            Some((name, value)) => if key == name {
                Some(value)
            } else {
                None
            },
            None => None,
        }
    }
}

/// Fills a `serde_json::Map` and calls `to_string` on the `serde_json::Value`
/// made of it. The text depends on the members alone, and reading it finds every
/// text member again and no other.
#[verifier::external_body]
fn write_object(first: (&str, &str), second: Option<(&str, &str)>, number: Option<(&str, u32)>) -> (json:
    String)
    requires
        distinct_keys((first.0@, first.1@), member_in(second), number_in(number)),
    ensures
        json@ == json_object((first.0@, first.1@), member_in(second), number_in(number)),
        forall|key: Seq<char>|
            #[trigger] json_member(json@, key) == text_under(
                (first.0@, first.1@),
                member_in(second),
                key,
            ),
{
    let mut object = serde_json::Map::new();
    object.insert(first.0.to_owned(), serde_json::Value::from(first.1));
    object.extend(second.map(|(key, value)| (key.to_owned(), serde_json::Value::from(value))));
    object.extend(number.map(|(key, value)| (key.to_owned(), serde_json::Value::from(value))));
    serde_json::Value::Object(object).to_string()
}

/// A message to the receiver.
pub struct Outgoing {
    pub namespace: &'static str,
    pub destination: String,
    pub payload: String,
}

/// The contents of a message.
pub struct OutgoingView {
    pub namespace: Seq<char>,
    pub destination: Seq<char>,
    pub payload: Seq<char>,
}

impl View for Outgoing {
    type V = OutgoingView;

    open spec fn view(&self) -> OutgoingView {
        OutgoingView {
            namespace: self.namespace@,
            destination: self.destination@,
            payload: self.payload@,
        }
    }
}

/// The message that opens the connection.
pub open spec fn connect_view() -> OutgoingView {
    OutgoingView {
        namespace: NS_CONNECTION@,
        destination: RECEIVER_ID@,
        payload: json_object(
            ("type"@, "CONNECT"@),
            Some(("userAgent"@, "gnome-shell-cast"@)),
            None,
        ),
    }
}

/// The message that asks for the receiver's status.
pub open spec fn status_view(request_id: u32) -> OutgoingView {
    OutgoingView {
        namespace: NS_RECEIVER@,
        destination: RECEIVER_ID@,
        payload: json_object(("type"@, "GET_STATUS"@), None, Some(("requestId"@, request_id))),
    }
}

/// The message that keeps the connection alive.
pub open spec fn ping_view() -> OutgoingView {
    OutgoingView {
        namespace: NS_HEARTBEAT@,
        destination: RECEIVER_ID@,
        payload: json_object(("type"@, "PING"@), None, None),
    }
}

/// The message that answers a sender's ping.
pub open spec fn pong_view(source: Seq<char>) -> OutgoingView {
    OutgoingView {
        namespace: NS_HEARTBEAT@,
        destination: source,
        payload: json_object(("type"@, "PONG"@), None, None),
    }
}

/// The message that opens the connection.
pub fn connect_message() -> (message: Outgoing)
    ensures
        message@ == connect_view(),
        json_member(message@.payload, "type"@) == Some("CONNECT"@),
        json_member(message@.payload, "userAgent"@) == Some("gnome-shell-cast"@),
{
    proof {
        lemma_keys_are_not_type();
    }
    Outgoing {
        namespace: NS_CONNECTION,
        destination: RECEIVER_ID.to_owned(),
        payload: write_object(
            ("type", "CONNECT"),
            Some(("userAgent", "gnome-shell-cast")),
            None,
        ),
    }
}

proof fn lemma_keys_are_not_type()
    ensures
        "userAgent"@ != "type"@,
        "requestId"@ != "type"@,
{
    reveal_strlit("userAgent");
    reveal_strlit("requestId");
    reveal_strlit("type");
    assert("userAgent"@.len() == 9);
    assert("requestId"@.len() == 9);
    assert("type"@.len() == 4);
}

/// What a message from the receiver calls for.
#[derive(Clone, Copy, PartialEq, Eq, Structural, Debug)]
pub enum Reaction {
    /// It is a ping; answer it.
    Pong,
    /// It may carry the receiver's volume, under `status`, `volume`, `level`.
    ReportLevel,
    Ignore,
}

/// What a message of a namespace and a type calls for.
pub open spec fn reaction(namespace: Seq<char>, kind: Option<Seq<char>>) -> Reaction {
    if namespace == NS_HEARTBEAT@ && kind == Some("PING"@) {
        Reaction::Pong
    } else if namespace == NS_RECEIVER@ && kind == Some("RECEIVER_STATUS"@) {
        Reaction::ReportLevel
    } else {
        Reaction::Ignore
    }
}

/// What a message of a namespace and a type calls for.
pub fn react_to(namespace: &str, kind: Option<&str>) -> (what: Reaction)
    ensures
        what == reaction(namespace@, str_in(kind)),
{
    match kind {
        Some(kind) => {
            if same(namespace, NS_HEARTBEAT) && same(kind, "PING") {
                Reaction::Pong
            } else if same(namespace, NS_RECEIVER) && same(kind, "RECEIVER_STATUS") {
                Reaction::ReportLevel
            } else {
                Reaction::Ignore
            }
        },
        None => Reaction::Ignore,
    }
}

/// What a message calls for: its type is the `type` member of its payload. A
/// binary payload (`None`), like one that is no JSON, calls for nothing.
pub fn handle(namespace: &str, payload: Option<&str>) -> (what: Reaction)
    ensures
        what == match payload {
            Some(text) => reaction(namespace@, json_member(text@, "type"@)),
            None => Reaction::Ignore,
        },
{
    match payload {
        Some(text) => match read_member(text, "type") {
            Some(kind) => react_to(namespace, Some(kind.as_str())),
            None => Reaction::Ignore,
        },
        None => Reaction::Ignore,
    }
}

/// The answer to a ping from `source`.
pub fn pong_message(source: &str) -> (message: Outgoing)
    ensures
        message@ == pong_view(source@),
        json_member(message@.payload, "type"@) == Some("PONG"@),
{
    Outgoing {
        namespace: NS_HEARTBEAT,
        destination: source.to_owned(),
        payload: write_object(("type", "PONG"), None, None),
    }
}

/// How reading from the connection ended.
#[derive(Clone, Copy, PartialEq, Eq, Structural, Debug)]
pub enum ReadOutcome {
    Message,
    /// Nothing came in within the read timeout.
    TimedOut,
    Failed,
}

/// Whether the connection is still good.
pub fn stays_connected(outcome: ReadOutcome) -> (stays: bool)
    ensures
        stays == (outcome != ReadOutcome::Failed),
{
    match outcome {
        ReadOutcome::Failed => false,
        _ => true,
    }
}

/// Where the conversation with a receiver stands.
pub struct VolumeSession {
    request_id: u32,
    last_ping: Instant,
}

/// The number of the last request, and when the connection was last kept alive.
pub struct SessionView {
    pub request_id: u32,
    pub last_ping: int,
}

impl View for VolumeSession {
    type V = SessionView;

    closed spec fn view(&self) -> SessionView {
        SessionView { request_id: self.request_id, last_ping: self.last_ping@ }
    }
}

impl SessionView {
    /// The number of the next request, around the end of the numbers.
    pub open spec fn next_id(self) -> u32 {
        if self.request_id < u32::MAX {
            (self.request_id + 1) as u32
        } else {
            0
        }
    }

    /// Whether it is time to keep the connection alive.
    pub open spec fn ping_due(self, now: int) -> bool {
        elapsed(self.last_ping, now) >= PING_INTERVAL_SECS * 1_000_000_000
    }
}

impl VolumeSession {
    pub fn new(now: Instant) -> (session: VolumeSession)
        ensures
            session@ == (SessionView { request_id: 0, last_ping: now@ }),
    {
        VolumeSession { request_id: 0, last_ping: now }
    }

    /// The number for a request.
    pub fn next_request_id(&mut self) -> (id: u32)
        ensures
            id == old(self)@.next_id(),
            final(self)@ == (SessionView { request_id: id, ..old(self)@ }),
    {
        self.request_id = self.request_id.wrapping_add(1);
        self.request_id
    }

    /// Takes note of a new connection; returns the message that reads the
    /// current volume up front.
    pub fn connected(&mut self, now: Instant) -> (message: Outgoing)
        ensures
            final(self)@ == (SessionView {
                request_id: old(self)@.next_id(),
                last_ping: now@,
            }),
            message@ == status_view(old(self)@.next_id()),
            json_member(message@.payload, "type"@) == Some("GET_STATUS"@),
    {
        let id: u32 = self.next_request_id();
        self.last_ping = now;
        proof {
            lemma_keys_are_not_type();
        }
        Outgoing {
            namespace: NS_RECEIVER,
            destination: RECEIVER_ID.to_owned(),
            payload: write_object(("type", "GET_STATUS"), None, Some(("requestId", id))),
        }
    }

    /// The message that keeps the connection alive, when it is time for one, so
    /// that the device does not drop it.
    pub fn due_ping(&mut self, now: Instant) -> (message: Option<Outgoing>)
        ensures
            message is Some <==> old(self)@.ping_due(now@),
            message matches Some(ping) ==> ping@ == ping_view(),
            message matches Some(ping) ==> json_member(ping@.payload, "type"@) == Some("PING"@),
            final(self)@ == if old(self)@.ping_due(now@) {
                SessionView { last_ping: now@, ..old(self)@ }
            } else {
                old(self)@
            },
    {
        if now.saturating_duration_since(self.last_ping).nanos < Duration::from_secs(
            PING_INTERVAL_SECS,
        ).nanos {
            return None;
        }
        self.last_ping = now;
        Some(
            Outgoing {
                namespace: NS_HEARTBEAT,
                destination: RECEIVER_ID.to_owned(),
                payload: write_object(("type", "PING"), None, None),
            },
        )
    }
}

/// A ping is answered, and its answer is not: a payload with the type `PING`
/// calls for a pong, one with the type `PONG` for nothing.
pub proof fn law_pings_are_answered_once(payload: Seq<char>)
    ensures
        json_member(payload, "type"@) == Some("PING"@) ==> reaction(
            NS_HEARTBEAT@,
            json_member(payload, "type"@),
        ) == Reaction::Pong,
        json_member(payload, "type"@) == Some("PONG"@) ==> reaction(
            NS_HEARTBEAT@,
            json_member(payload, "type"@),
        ) == Reaction::Ignore,
{
    reveal_strlit("PING");
    reveal_strlit("PONG");
    reveal_strlit("RECEIVER_STATUS");
    assert("PING"@[1] == 'I');
    assert("PONG"@[1] == 'O');
    assert("RECEIVER_STATUS"@.len() == 15);
    assert("PONG"@.len() == 4);
}

/// The connection is kept alive at most once in each interval.
pub proof fn law_pings_are_spaced(session: SessionView, now: int, later: int)
    ensures
        (SessionView { last_ping: now, ..session }).ping_due(later) <==> later - now
            >= PING_INTERVAL_SECS * 1_000_000_000,
{
}

/// No request has the number of the one before it.
pub proof fn law_requests_are_told_apart(session: SessionView)
    ensures
        session.next_id() != session.request_id,
{
}

/// Requests are numbered one after the other, from 1 on for a new session, and
/// start over at 0 once the numbers run out. A number taken leaves the time of
/// the last ping alone.
pub proof fn law_requests_are_numbered_in_a_row(session: &mut VolumeSession, id: u32)
    requires
        call_ensures(VolumeSession::next_request_id, (session,), id),
    ensures
        old(session)@.request_id < u32::MAX ==> id == old(session)@.request_id + 1,
        old(session)@.request_id == u32::MAX ==> id == 0,
        final(session)@.request_id == id,
        final(session)@.last_ping == old(session)@.last_ping,
{
}

/// A new session has numbered no request, and counts from when it was made.
pub proof fn law_a_session_starts_unnumbered(now: Instant, session: VolumeSession)
    requires
        call_ensures(VolumeSession::new, (now,), session),
    ensures
        session@.request_id == 0,
        session@.last_ping == now.nanos,
{
}

/// A connection asks for the volume at once, under a number of its own, and
/// counts its pings from then on.
pub proof fn law_connections_ask_for_the_volume(
    session: &mut VolumeSession,
    now: Instant,
    message: Outgoing,
)
    requires
        call_ensures(VolumeSession::connected, (session, now), message),
    ensures
        json_member(message.payload@, "type"@) == Some("GET_STATUS"@),
        message.payload@ == json_object(
            ("type"@, "GET_STATUS"@),
            None,
            Some(("requestId"@, final(session)@.request_id)),
        ),
        message.namespace@ == "urn:x-cast:com.google.cast.receiver"@,
        message.destination@ == "receiver-0"@,
        final(session)@.request_id != old(session)@.request_id,
        old(session)@.request_id < u32::MAX ==> final(session)@.request_id
            == old(session)@.request_id + 1,
        final(session)@.last_ping == now.nanos,
{
}

/// Once five seconds have gone by since the last ping, and not before, the next
/// one goes out; whether it does or not, the numbering of requests goes on where
/// it was, and time counts from the last ping.
pub proof fn law_pings_go_out_every_five_seconds(
    session: &mut VolumeSession,
    now: Instant,
    message: Option<Outgoing>,
)
    requires
        call_ensures(VolumeSession::due_ping, (session, now), message),
    ensures
        message is Some <==> now.nanos - old(session)@.last_ping >= 5_000_000_000,
        message matches Some(ping) ==> {
            &&& json_member(ping.payload@, "type"@) == Some("PING"@)
            &&& ping.namespace@ == "urn:x-cast:com.google.cast.tp.heartbeat"@
            &&& ping.destination@ == "receiver-0"@
        },
        final(session)@.last_ping == if message is Some {
            now.nanos as int
        } else {
            old(session)@.last_ping
        },
        final(session)@.request_id == old(session)@.request_id,
{
}

/// A ping is answered to whoever sent it, and what the answer says calls for
/// nothing: two programs that both answer pings do not answer each other forever.
pub proof fn law_answers_are_not_answered(
    source: &str,
    answer: Outgoing,
    payload: &str,
    what: Reaction,
)
    requires
        call_ensures(pong_message, (source,), answer),
        payload@ == answer.payload@,
        call_ensures(handle, (answer.namespace, Some(payload)), what),
    ensures
        json_member(answer.payload@, "type"@) == Some("PONG"@),
        answer.namespace@ == "urn:x-cast:com.google.cast.tp.heartbeat"@,
        answer.destination@ == source@,
        what == Reaction::Ignore,
{
    law_pings_are_answered_once(payload@);
}

/// What a message calls for goes by its namespace and the type it states: a ping
/// on the heartbeat is answered, a status from the receiver is read, and nothing
/// else is looked at - neither a message whose payload is no text or states no
/// type, nor one on another namespace.
pub proof fn law_messages_are_told_by_namespace_and_type(
    namespace: &str,
    payload: Option<&str>,
    what: Reaction,
)
    requires
        call_ensures(handle, (namespace, payload), what),
    ensures
        what == Reaction::Pong <==> namespace@ == "urn:x-cast:com.google.cast.tp.heartbeat"@ && (
        payload matches Some(text) && json_member(text@, "type"@) == Some("PING"@)),
        what == Reaction::ReportLevel <==> namespace@ == "urn:x-cast:com.google.cast.receiver"@ && (
        payload matches Some(text) && json_member(text@, "type"@) == Some("RECEIVER_STATUS"@)),
{
    reveal_strlit("PING");
    reveal_strlit("RECEIVER_STATUS");
    assert("PING"@.len() != "RECEIVER_STATUS"@.len());
}

/// Only a failure loses the connection; a silent receiver keeps it.
pub proof fn law_silence_does_not_disconnect(outcome: ReadOutcome, stays: bool)
    requires
        call_ensures(stays_connected, (outcome,), stays),
    ensures
        !stays <==> outcome == ReadOutcome::Failed,
{
}

/// A connection is opened with the receiver itself, by a message that says so.
pub proof fn law_connections_are_opened_with_the_receiver(message: Outgoing)
    requires
        call_ensures(connect_message, (), message),
    ensures
        json_member(message.payload@, "type"@) == Some("CONNECT"@),
        json_member(message.payload@, "userAgent"@) == Some("gnome-shell-cast"@),
        message.namespace@ == "urn:x-cast:com.google.cast.tp.connection"@,
        message.destination@ == "receiver-0"@,
{
}

/// What a message calls for follows from its namespace and its type alone.
pub proof fn law_reactions_go_by_namespace_and_type(
    namespace: &str,
    kind: Option<&str>,
    what: Reaction,
)
    requires
        call_ensures(react_to, (namespace, kind), what),
    ensures
        what == Reaction::Pong <==> namespace@ == "urn:x-cast:com.google.cast.tp.heartbeat"@ && (
        kind matches Some(text) && text@ == "PING"@),
        what == Reaction::ReportLevel <==> namespace@ == "urn:x-cast:com.google.cast.receiver"@ && (
        kind matches Some(text) && text@ == "RECEIVER_STATUS"@),
{
    reveal_strlit("PING");
    reveal_strlit("RECEIVER_STATUS");
    assert("PING"@.len() != "RECEIVER_STATUS"@.len());
}

} // verus!
