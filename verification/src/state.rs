//! Application state: the registry of live servers, the start attempts in
//! flight, and the event stream that the UI observes.

use std::collections::HashMap;

use vstd::prelude::*;

use crate::db::ServerId;
use crate::json;
use crate::json::{member, Json, JsonView};
use crate::process::KillHandle;
use crate::protocol::{HandshakeView, ServerHandshake};
use crate::text;
use crate::text::{concat, u64_text};

verus! {

broadcast use {vstd::string::group_string_axioms, vstd::std_specs::hash::group_hash_axioms};

/// UI event fan-out capacity; lagged subscribers drop stale events instead of
/// back-pressuring the producers.
pub const EVENT_CAPACITY: usize = 1024;

/// Lifecycle of a server: the UI may only issue tool calls in `Running`.
#[derive(Debug, PartialEq)]
pub enum ServerStatus {
    Stopped,
    Starting,
    Initializing,
    Running,
    Errored { message: String },
}

#[verifier::ext_equal]
pub enum StatusView {
    Stopped,
    Starting,
    Initializing,
    Running,
    Errored { message: Seq<char> },
}

impl View for ServerStatus {
    type V = StatusView;

    open spec fn view(&self) -> StatusView {
        match *self {
            ServerStatus::Stopped => StatusView::Stopped,
            ServerStatus::Starting => StatusView::Starting,
            ServerStatus::Initializing => StatusView::Initializing,
            ServerStatus::Running => StatusView::Running,
            ServerStatus::Errored { message } => StatusView::Errored { message: message@ },
        }
    }
}

impl Clone for ServerStatus {
    fn clone(&self) -> (r: ServerStatus)
        ensures
            r@ == self@,
    {
        match self {
            ServerStatus::Stopped => ServerStatus::Stopped,
            ServerStatus::Starting => ServerStatus::Starting,
            ServerStatus::Initializing => ServerStatus::Initializing,
            ServerStatus::Running => ServerStatus::Running,
            ServerStatus::Errored { message } => ServerStatus::Errored { message: message.clone() },
        }
    }
}

impl StatusView {
    /// A start is under way.
    pub open spec fn starting(self) -> bool {
        self is Starting || self is Initializing
    }

    /// The wire shape: the state by name, and the message of a failure.
    pub open spec fn json(self) -> JsonView {
        match self {
            StatusView::Stopped => JsonView::Object(seq![("state"@, JsonView::Str("stopped"@))]),
            StatusView::Starting => JsonView::Object(seq![("state"@, JsonView::Str("starting"@))]),
            StatusView::Initializing => JsonView::Object(
                seq![("state"@, JsonView::Str("initializing"@))],
            ),
            StatusView::Running => JsonView::Object(seq![("state"@, JsonView::Str("running"@))]),
            StatusView::Errored { message } => JsonView::Object(
                seq![
                    ("message"@, JsonView::Str(message)),
                    ("state"@, JsonView::Str("errored"@)),
                ],
            ),
        }
    }
}

impl ServerStatus {
    pub fn to_json(&self) -> (r: Json)
        ensures
            r@ == self@.json(),
            r@.wf(),
    {
        broadcast use json::group_json_views;

        let mut members: Vec<(String, Json)> = Vec::new();
        match self {
            ServerStatus::Stopped => {
                members.push(member("state", Json::string("stopped")));
            },
            ServerStatus::Starting => {
                members.push(member("state", Json::string("starting")));
            },
            ServerStatus::Initializing => {
                members.push(member("state", Json::string("initializing")));
            },
            ServerStatus::Running => {
                members.push(member("state", Json::string("running")));
            },
            ServerStatus::Errored { message } => {
                members.push(member("message", Json::string(message.as_str())));
                members.push(member("state", Json::string("errored")));
            },
        }
        proof {
            lemma_event_names();
            assert(json::entries_view(members@) =~= self@.json()->Object_0);
            json::lemma_object_wf(self@.json()->Object_0);
        }
        Json::Object(members)
    }
}

#[derive(Clone, Copy, Debug, PartialEq, Eq, Structural)]
pub enum LogStream {
    Stdout,
    Stderr,
}

impl LogStream {
    pub open spec fn spec_name(self) -> Seq<char> {
        match self {
            LogStream::Stdout => "stdout"@,
            LogStream::Stderr => "stderr"@,
        }
    }

    /// The stream's name on the wire.
    pub fn name(&self) -> (r: &'static str)
        ensures
            r@ == self.spec_name(),
    {
        match self {
            LogStream::Stdout => "stdout",
            LogStream::Stderr => "stderr",
        }
    }
}

/// Everything the UI observes.
#[derive(Debug, PartialEq)]
pub enum AppEvent {
    StatusChanged { server_id: ServerId, status: ServerStatus },
    Log { server_id: ServerId, stream: LogStream, line: String },
    /// Lines lost to backpressure or the line-length cap; the log viewer
    /// renders this as a dropped-lines marker.
    LogGap { server_id: ServerId, stream: LogStream, dropped: u64 },
    /// A server-initiated JSON-RPC notification, forwarded verbatim.
    Notification { server_id: ServerId, payload: Json },
    /// Notifications lost to backpressure.
    NotificationGap { server_id: ServerId, dropped: u64 },
}

#[verifier::ext_equal]
pub enum EventView {
    StatusChanged { server_id: ServerId, status: StatusView },
    Log { server_id: ServerId, stream: LogStream, line: Seq<char> },
    LogGap { server_id: ServerId, stream: LogStream, dropped: u64 },
    Notification { server_id: ServerId, payload: JsonView },
    NotificationGap { server_id: ServerId, dropped: u64 },
}

impl View for AppEvent {
    type V = EventView;

    open spec fn view(&self) -> EventView {
        match *self {
            AppEvent::StatusChanged { server_id, status } => EventView::StatusChanged {
                server_id,
                status: status@,
            },
            AppEvent::Log { server_id, stream, line } => EventView::Log {
                server_id,
                stream,
                line: line@,
            },
            AppEvent::LogGap { server_id, stream, dropped } => EventView::LogGap {
                server_id,
                stream,
                dropped,
            },
            AppEvent::Notification { server_id, payload } => EventView::Notification {
                server_id,
                payload: payload@,
            },
            AppEvent::NotificationGap { server_id, dropped } => EventView::NotificationGap {
                server_id,
                dropped,
            },
        }
    }
}

impl Clone for AppEvent {
    fn clone(&self) -> (r: AppEvent)
        ensures
            r@ == self@,
    {
        match self {
            AppEvent::StatusChanged { server_id, status } => AppEvent::StatusChanged {
                server_id: *server_id,
                status: status.clone(),
            },
            AppEvent::Log { server_id, stream, line } => AppEvent::Log {
                server_id: *server_id,
                stream: *stream,
                line: line.clone(),
            },
            AppEvent::LogGap { server_id, stream, dropped } => AppEvent::LogGap {
                server_id: *server_id,
                stream: *stream,
                dropped: *dropped,
            },
            AppEvent::Notification { server_id, payload } => AppEvent::Notification {
                server_id: *server_id,
                payload: payload.clone(),
            },
            AppEvent::NotificationGap { server_id, dropped } => AppEvent::NotificationGap {
                server_id: *server_id,
                dropped: *dropped,
            },
        }
    }
}

impl EventView {
    /// The stable wire shape of an event.
    pub open spec fn json(self) -> JsonView {
        match self {
            EventView::StatusChanged { server_id, status } => JsonView::Object(
                seq![
                    ("server_id"@, JsonView::Number(json::number_of_i64(server_id))),
                    ("status"@, status.json()),
                    ("type"@, JsonView::Str("status_changed"@)),
                ],
            ),
            EventView::Log { server_id, stream, line } => JsonView::Object(
                seq![
                    ("line"@, JsonView::Str(line)),
                    ("server_id"@, JsonView::Number(json::number_of_i64(server_id))),
                    ("stream"@, JsonView::Str(stream.spec_name())),
                    ("type"@, JsonView::Str("log"@)),
                ],
            ),
            EventView::LogGap { server_id, stream, dropped } => JsonView::Object(
                seq![
                    ("dropped"@, JsonView::Number(json::number_of_u64(dropped))),
                    ("server_id"@, JsonView::Number(json::number_of_i64(server_id))),
                    ("stream"@, JsonView::Str(stream.spec_name())),
                    ("type"@, JsonView::Str("log_gap"@)),
                ],
            ),
            EventView::Notification { server_id, payload } => JsonView::Object(
                seq![
                    ("payload"@, payload),
                    ("server_id"@, JsonView::Number(json::number_of_i64(server_id))),
                    ("type"@, JsonView::Str("notification"@)),
                ],
            ),
            EventView::NotificationGap { server_id, dropped } => JsonView::Object(
                seq![
                    ("dropped"@, JsonView::Number(json::number_of_u64(dropped))),
                    ("server_id"@, JsonView::Number(json::number_of_i64(server_id))),
                    ("type"@, JsonView::Str("notification_gap"@)),
                ],
            ),
        }
    }

    /// What the event carries is well-formed.
    pub open spec fn wf(self) -> bool {
        self matches EventView::Notification { payload, .. } ==> payload.wf()
    }
}

proof fn lemma_event_names()
    ensures
        text::text_lt("message"@, "state"@),
        text::text_lt("server_id"@, "status"@),
        text::text_lt("server_id"@, "stream"@),
        text::text_lt("server_id"@, "type"@),
        text::text_lt("status"@, "type"@),
        text::text_lt("stream"@, "type"@),
        text::text_lt("line"@, "server_id"@),
        text::text_lt("line"@, "stream"@),
        text::text_lt("line"@, "type"@),
        text::text_lt("dropped"@, "server_id"@),
        text::text_lt("dropped"@, "stream"@),
        text::text_lt("dropped"@, "type"@),
        text::text_lt("payload"@, "server_id"@),
        text::text_lt("payload"@, "type"@),
{
    reveal_strlit("message");
    reveal_strlit("state");
    reveal_strlit("server_id");
    reveal_strlit("status");
    reveal_strlit("stream");
    reveal_strlit("type");
    reveal_strlit("line");
    reveal_strlit("dropped");
    reveal_strlit("payload");
    let a = "server_id"@.drop_first();
    assert(a[0] == 'e');
    assert("status"@.drop_first()[0] == 't' && "stream"@.drop_first()[0] == 't');
    assert(text::text_lt(a, "status"@.drop_first()));
    assert(text::text_lt(a, "stream"@.drop_first()));
}

impl AppEvent {
    /// The stable wire shape.
    pub fn to_json(&self) -> (r: Json)
        ensures
            r@ == self@.json(),
            self@.wf() ==> r@.wf(),
    {
        broadcast use json::group_json_views;

        let mut members: Vec<(String, Json)> = Vec::new();
        match self {
            AppEvent::StatusChanged { server_id, status } => {
                members.push(member("server_id", Json::from_i64(*server_id)));
                members.push(member("status", status.to_json()));
                members.push(member("type", Json::string("status_changed")));
            },
            AppEvent::Log { server_id, stream, line } => {
                members.push(member("line", Json::string(line.as_str())));
                members.push(member("server_id", Json::from_i64(*server_id)));
                members.push(member("stream", Json::string(stream.name())));
                members.push(member("type", Json::string("log")));
            },
            AppEvent::LogGap { server_id, stream, dropped } => {
                members.push(member("dropped", Json::from_u64(*dropped)));
                members.push(member("server_id", Json::from_i64(*server_id)));
                members.push(member("stream", Json::string(stream.name())));
                members.push(member("type", Json::string("log_gap")));
            },
            AppEvent::Notification { server_id, payload } => {
                members.push(member("payload", payload.clone()));
                members.push(member("server_id", Json::from_i64(*server_id)));
                members.push(member("type", Json::string("notification")));
            },
            AppEvent::NotificationGap { server_id, dropped } => {
                members.push(member("dropped", Json::from_u64(*dropped)));
                members.push(member("server_id", Json::from_i64(*server_id)));
                members.push(member("type", Json::string("notification_gap")));
            },
        }
        proof {
            lemma_event_names();
            assert(json::entries_view(members@) =~= self@.json()->Object_0);
            lemma_status_wf();
            if self@.wf() {
                json::lemma_object_wf(self@.json()->Object_0);
            }
        }
        Json::Object(members)
    }
}

proof fn lemma_status_wf()
    ensures
        forall|s: StatusView| #[trigger] s.json().wf(),
{
    lemma_event_names();
    assert forall|s: StatusView| #[trigger] s.json().wf() by {
        json::lemma_object_wf(s.json()->Object_0);
    }
}

/// The marker for a subscriber that fell behind.
pub open spec fn lagged_text(missed: u64) -> Seq<char> {
    "{\"type\":\"lagged\",\"missed\":"@ + text::decimal(missed as int) + "}"@
}

/// The payload of one event on the stream: the event, or the marker for a
/// subscriber that missed some instead of silence.
pub fn sse_payload(event: Result<AppEvent, u64>) -> (r: String)
    ensures
        match event {
            Ok(event) => event@.wf() ==> r@ == json::json_print(event@.json()),
            Err(missed) => r@ == lagged_text(missed),
        },
        !r@.contains('\n'),
{
    match event {
        Ok(event) => event.to_json().to_text(),
        Err(missed) => {
            let count = u64_text(missed);
            let head = concat("{\"type\":\"lagged\",\"missed\":", count.as_str());
            proof {
                reveal_strlit("{\"type\":\"lagged\",\"missed\":");
                reveal_strlit("}");
                text::lemma_digits_are_digits(missed as nat);
            }
            concat(head.as_str(), "}")
        },
    }
}

/// The number by which a start attempt, and the run that comes of it, is known.
pub type Ticket = u64;

/// Observer side of an in-flight start: `stop` and `remove` cancel it and wait
/// until it has settled before re-inspecting the registry.
#[derive(Clone, Copy, Debug, PartialEq, Eq, Structural)]
pub struct StartHandle {
    pub ticket: Ticket,
}

/// Held by the start task for its whole run; handed back to [`AppState::settle`]
/// on every exit path, and only after the final status write.
#[derive(Debug, PartialEq, Eq)]
pub struct StartGuard {
    ticket: Ticket,
}

impl StartGuard {
    pub closed spec fn spec_token(self) -> Ticket {
        self.ticket
    }

    /// By which the attempt's cancellation is asked for.
    pub fn token(&self) -> (r: Ticket)
        ensures
            r == self.spec_token(),
    {
        self.ticket
    }
}

/// What is known of one start attempt and the run that comes of it.
#[derive(Clone, Copy, Debug, PartialEq, Eq, Structural)]
pub struct Attempt {
    /// A stop was asked for while it was starting.
    pub cancelled: bool,
    /// The start task has written its final status.
    pub settled: bool,
    /// A stop was asked for while it was running.
    pub stopping: bool,
}

/// Plain handles to a live server. The child itself is owned by the exit
/// waiter.
#[derive(Debug, PartialEq)]
pub struct RunningServer {
    pub pid: u32,
    pub ticket: Ticket,
    pub kill: KillHandle,
    pub handshake: ServerHandshake,
}

#[verifier::ext_equal]
pub struct RuntimeView {
    pub pid: u32,
    pub ticket: Ticket,
    pub kill: KillHandle,
    pub handshake: HandshakeView,
}

impl View for RunningServer {
    type V = RuntimeView;

    open spec fn view(&self) -> RuntimeView {
        RuntimeView {
            pid: self.pid,
            ticket: self.ticket,
            kill: self.kill,
            handshake: self.handshake@,
        }
    }
}

impl Clone for RunningServer {
    fn clone(&self) -> (r: RunningServer)
        ensures
            r@ == self@,
    {
        RunningServer {
            pid: self.pid,
            ticket: self.ticket,
            kill: self.kill,
            handshake: self.handshake.clone(),
        }
    }
}

/// Registry entry of a live server; `runtime` is installed when the handshake
/// succeeds and cleared by the first non-`Running` status write (crash
/// included), and `start` is there from [`AppState::try_begin_start`] until the
/// runtime is installed or the start ends without one.
#[derive(Debug, PartialEq)]
pub struct ServerEntry {
    pub status: ServerStatus,
    pub runtime: Option<RunningServer>,
    pub start: Option<StartHandle>,
}

#[verifier::ext_equal]
pub struct EntryView {
    pub status: StatusView,
    pub runtime: Option<RuntimeView>,
    pub start: Option<Ticket>,
}

/// The view of an optional runtime.
pub open spec fn runtime_option(r: Option<RunningServer>) -> Option<RuntimeView> {
    match r {
        Some(x) => Some(x@),
        None => None,
    }
}

/// The ticket of an optional start.
pub open spec fn start_option(s: Option<StartHandle>) -> Option<Ticket> {
    match s {
        Some(h) => Some(h.ticket),
        None => None,
    }
}

impl View for ServerEntry {
    type V = EntryView;

    open spec fn view(&self) -> EntryView {
        EntryView {
            status: self.status@,
            runtime: runtime_option(self.runtime),
            start: start_option(self.start),
        }
    }
}

impl Clone for ServerEntry {
    fn clone(&self) -> (r: ServerEntry)
        ensures
            r@ == self@,
    {
        ServerEntry {
            status: self.status.clone(),
            runtime: match &self.runtime {
                Some(x) => Some(x.clone()),
                None => None,
            },
            start: self.start,
        }
    }
}

/// The live servers, by id.
pub type Registry = dashmap::DashMap<i64, ServerEntry>;

/// What the registry holds.
pub uninterp spec fn registered(registry: Registry) -> Map<i64, EntryView>;

/// A registry without entries.
pub open spec fn no_servers() -> Map<i64, EntryView> {
    Map::empty()
}

/// `DashMap::new`: no server is live.
#[verifier::external_body]
fn new_registry() -> (r: Registry)
    ensures
        registered(r) == no_servers(),
{
    dashmap::DashMap::new()
}

/// `DashMap::get`: a copy of the entry under `id`.
#[verifier::external_body]
fn entry_of(registry: &Registry, id: i64) -> (r: Option<ServerEntry>)
    ensures
        match r {
            Some(entry) => registered(*registry).contains_key(id) && registered(*registry)[id]
                == entry@,
            None => !registered(*registry).contains_key(id),
        },
{
    registry.get(&id).map(|entry| entry.clone())
}

/// `DashMap::insert`: the entry is under `id`, in the place of what was there.
#[verifier::external_body]
fn put_entry(registry: &mut Registry, id: i64, entry: ServerEntry)
    ensures
        registered(*final(registry)) == registered(*old(registry)).insert(id, entry@),
{
    registry.insert(id, entry);
}

/// `DashMap::remove`: nothing is under `id`.
#[verifier::external_body]
fn drop_entry(registry: &mut Registry, id: i64)
    ensures
        registered(*final(registry)) == registered(*old(registry)).remove(id),
{
    registry.remove(&id);
}

/// `DashMap::is_empty`: no server is live.
#[verifier::external_body]
fn nothing_registered(registry: &Registry) -> (r: bool)
    ensures
        r == (registered(*registry) == no_servers()),
{
    registry.is_empty()
}

/// `tokio::sync::broadcast::Sender`; what was handed to it is [`published`].
#[verifier::external_type_specification]
#[verifier::external_body]
#[verifier::reject_recursive_types(T)]
pub struct ExBroadcastSender<T>(tokio::sync::broadcast::Sender<T>);

/// `tokio::sync::broadcast::Receiver`; where it joined the stream is
/// [`joined_after`].
#[verifier::external_type_specification]
#[verifier::external_body]
#[verifier::reject_recursive_types(T)]
pub struct ExBroadcastReceiver<T>(tokio::sync::broadcast::Receiver<T>);

/// The side of the event stream that events are handed to.
pub type Events = tokio::sync::broadcast::Sender<AppEvent>;

/// Every event handed to the stream so far, in order.
pub uninterp spec fn published(events: Events) -> Seq<EventView>;

/// `tokio::sync::broadcast::channel`: a stream to which nothing was handed yet.
/// Panics on a capacity of zero or over half of the address space, which is
/// left out.
#[verifier::external_body]
fn new_events(capacity: usize) -> (r: Events)
    requires
        0 < capacity <= usize::MAX / 2,
    ensures
        published(r) == Seq::<EventView>::empty(),
{
    tokio::sync::broadcast::channel(capacity).0
}

/// `tokio::sync::broadcast::Sender::send`: hand an event over. With no
/// subscribers the event is simply dropped.
#[verifier::external_body]
fn hand_over(events: &mut Events, event: AppEvent)
    ensures
        published(*final(events)) == published(*old(events)).push(event@),
{
    let _ = events.send(event);
}

/// The events that had been handed to the stream when the receiver joined it.
/// The receiver gets none of these, only what is handed over behind them.
pub uninterp spec fn joined_after(
    receiver: tokio::sync::broadcast::Receiver<AppEvent>,
) -> Seq<EventView>;

/// `tokio::sync::broadcast::Sender::subscribe`: the receiver joins the stream
/// behind everything handed over so far. Which of the later events it still
/// finds depends on how far it falls behind, and is not claimed. (It panics
/// where a quarter of the address space counts as receivers already.)
#[verifier::external_body]
fn subscription(events: &Events) -> (r: tokio::sync::broadcast::Receiver<AppEvent>)
    ensures
        joined_after(r) == published(*events),
{
    events.subscribe()
}

/// Application state.
pub struct AppState {
    registry: Registry,
    attempts: HashMap<u64, Attempt>,
    next_ticket: Ticket,
    events: Events,
}

/// The mathematical model of [`AppState`].
#[verifier::ext_equal]
pub struct StateView {
    /// Live servers.
    pub registry: Map<i64, EntryView>,
    /// Every start attempt so far.
    pub attempts: Map<Ticket, Attempt>,
    /// The ticket that the next attempt gets.
    pub next_ticket: Ticket,
    /// Every event so far.
    pub events: Seq<EventView>,
}

impl View for AppState {
    type V = StateView;

    closed spec fn view(&self) -> StateView {
        StateView {
            registry: registered(self.registry),
            attempts: self.attempts@,
            next_ticket: self.next_ticket,
            events: published(self.events),
        }
    }
}

impl StateView {
    /// What every operation keeps: a registered server is not stopped, one with
    /// a runtime is running, one with a start is starting or initializing, and
    /// runtimes and starts belong to known attempts.
    pub open spec fn wf(self) -> bool {
        &&& forall|id: i64| #[trigger]
            self.registry.contains_key(id) ==> {
                &&& !(self.registry[id].status is Stopped)
                &&& self.registry[id].runtime matches Some(r) ==> self.registry[id].status is Running
                    && self.known(r)
                &&& self.registry[id].start matches Some(t) ==> self.attempts.contains_key(t)
                    && self.registry[id].status.starting()
            }
        &&& forall|t: Ticket| #[trigger] self.attempts.contains_key(t) ==> t < self.next_ticket
    }

    /// A runtime comes of a known attempt and has a process group.
    pub open spec fn known(self, runtime: RuntimeView) -> bool {
        self.attempts.contains_key(runtime.ticket) && runtime.kill.group() > 0
    }

    /// The status of a server; one absent from the registry is stopped.
    pub open spec fn status(self, id: i64) -> StatusView {
        if self.registry.contains_key(id) {
            self.registry[id].status
        } else {
            StatusView::Stopped
        }
    }

    /// The runtime of a server.
    pub open spec fn runtime(self, id: i64) -> Option<RuntimeView> {
        if self.registry.contains_key(id) {
            self.registry[id].runtime
        } else {
            None
        }
    }

    /// The in-flight start of a server: one that has not settled.
    pub open spec fn start(self, id: i64) -> Option<Ticket> {
        if self.registry.contains_key(id) {
            match self.registry[id].start {
                Some(t) => if self.attempts.contains_key(t) && self.attempts[t].settled {
                    None
                } else {
                    Some(t)
                },
                None => None,
            }
        } else {
            None
        }
    }

    /// The event handed over.
    pub open spec fn publish(self, event: EventView) -> StateView {
        StateView { events: self.events.push(event), ..self }
    }

    /// The status of `id` written and broadcast. `Stopped` takes the entry out;
    /// any other status but `Running` drops the runtime, and any but `Starting`
    /// and `Initializing` the start.
    pub open spec fn set_status(self, id: i64, status: StatusView) -> StateView {
        let registry = if status is Stopped {
            self.registry.remove(id)
        } else if self.registry.contains_key(id) {
            self.registry.insert(
                id,
                EntryView {
                    status,
                    runtime: if status is Running {
                        self.registry[id].runtime
                    } else {
                        None
                    },
                    start: if status.starting() {
                        self.registry[id].start
                    } else {
                        None
                    },
                },
            )
        } else {
            self.registry.insert(id, EntryView { status, runtime: None, start: None })
        };
        StateView { registry, ..self }.publish(EventView::StatusChanged { server_id: id, status })
    }

    /// A start may be claimed: the server is absent or errored.
    pub open spec fn can_start(self, id: i64) -> bool {
        self.status(id) is Stopped || self.status(id) is Errored
    }

    /// A start claimed under the next ticket.
    pub open spec fn begin_start(self, id: i64) -> StateView {
        StateView {
            registry: self.registry.insert(
                id,
                EntryView {
                    status: StatusView::Starting,
                    runtime: None,
                    start: Some(self.next_ticket),
                },
            ),
            attempts: self.attempts.insert(
                self.next_ticket,
                Attempt { cancelled: false, settled: false, stopping: false },
            ),
            next_ticket: (self.next_ticket + 1) as u64,
            events: self.events,
        }.publish(
            EventView::StatusChanged { server_id: id, status: StatusView::Starting },
        )
    }

    /// A start is in flight and nobody asked for its cancellation.
    pub open spec fn can_install(self, id: i64) -> bool {
        &&& self.start(id) is Some
        &&& !self.attempts[self.start(id)->0].cancelled
    }

    /// The runtime installed: the server is running, and no start is in flight.
    pub open spec fn install(self, id: i64, runtime: RuntimeView) -> StateView {
        StateView {
            registry: self.registry.insert(
                id,
                EntryView {
                    status: StatusView::Running,
                    runtime: Some(runtime),
                    start: None,
                },
            ),
            ..self
        }.publish(EventView::StatusChanged { server_id: id, status: StatusView::Running })
    }

    /// What is known of one attempt changed.
    pub open spec fn note(self, ticket: Ticket, attempt: Attempt) -> StateView {
        StateView { attempts: self.attempts.insert(ticket, attempt), ..self }
    }
}

impl AppState {
    pub fn new() -> (r: AppState)
        ensures
            r@ == (StateView {
                registry: Map::empty(),
                attempts: Map::empty(),
                next_ticket: 0,
                events: Seq::empty(),
            }),
            r@.wf(),
    {
        let r = AppState {
            registry: new_registry(),
            attempts: HashMap::new(),
            next_ticket: 0,
            events: new_events(EVENT_CAPACITY),
        };
        assert(r@.attempts =~= Map::empty());
        r
    }

    /// Subscribe to the UI event stream, from the next event on.
    pub fn subscribe(&self) -> (r: tokio::sync::broadcast::Receiver<AppEvent>)
        ensures
            joined_after(r) == self@.events,
    {
        subscription(&self.events)
    }

    /// Publish an event; this never fails.
    pub fn publish(&mut self, event: AppEvent)
        ensures
            final(self)@ == old(self)@.publish(event@),
    {
        hand_over(&mut self.events, event);
    }

    /// No server is live.
    pub fn is_empty(&self) -> (r: bool)
        ensures
            r == (self@.registry == no_servers()),
    {
        nothing_registered(&self.registry)
    }

    /// Current status; servers absent from the registry are `Stopped`.
    pub fn status(&self, id: ServerId) -> (r: ServerStatus)
        ensures
            r@ == self@.status(id),
    {
        match entry_of(&self.registry, id) {
            Some(entry) => entry.status,
            None => ServerStatus::Stopped,
        }
    }

    /// Update the registry and broadcast the change to the UI. `Stopped`
    /// removes the entry so the registry only holds live servers; any other
    /// non-`Running` status drops the runtime, so a crashed server's stale
    /// handles can't be reached; and a server that is no longer starting has no
    /// start in flight.
    pub fn set_status(&mut self, id: ServerId, status: ServerStatus)
        ensures
            final(self)@ == old(self)@.set_status(id, status@),
            old(self)@.wf() ==> final(self)@.wf(),
    {
        match &status {
            ServerStatus::Stopped => {
                drop_entry(&mut self.registry, id);
            },
            _ => {
                let running = match &status {
                    ServerStatus::Running => true,
                    _ => false,
                };
                let starting = match &status {
                    ServerStatus::Starting => true,
                    ServerStatus::Initializing => true,
                    _ => false,
                };
                let entry = match entry_of(&self.registry, id) {
                    Some(entry) => ServerEntry {
                        status: status.clone(),
                        runtime: if running {
                            entry.runtime
                        } else {
                            None
                        },
                        start: if starting {
                            entry.start
                        } else {
                            None
                        },
                    },
                    None => ServerEntry { status: status.clone(), runtime: None, start: None },
                };
                put_entry(&mut self.registry, id, entry);
            },
        }
        self.publish(AppEvent::StatusChanged { server_id: id, status });
        assert(self@ =~= old(self)@.set_status(id, status@));
        proof {
            if old(self)@.wf() {
                law_writing_a_status_keeps_the_state_valid(old(self)@, id, status@);
            }
        }
    }

    /// Whether there is a ticket for another attempt.
    pub fn has_tickets(&self) -> (r: bool)
        ensures
            r == (self@.next_ticket < u64::MAX),
    {
        self.next_ticket < u64::MAX
    }

    /// Claim the right to start `id`: succeeds when the server is absent
    /// (Stopped) or Errored, fails while any start or run is in flight, so
    /// concurrent toggles can't double-spawn. On success the status is
    /// `Starting` (broadcast) and a fresh attempt is in flight.
    pub fn try_begin_start(&mut self, id: ServerId) -> (r: Option<StartGuard>)
        requires
            old(self)@.wf(),
            old(self)@.next_ticket < u64::MAX,
        ensures
            final(self)@.wf(),
            r is Some == old(self)@.can_start(id),
            match r {
                Some(guard) => guard.spec_token() == old(self)@.next_ticket && final(self)@
                    == old(self)@.begin_start(id),
                None => final(self)@ == old(self)@,
            },
    {
        match entry_of(&self.registry, id) {
            Some(entry) => match entry.status {
                ServerStatus::Errored { .. } => {},
                _ => {
                    return None;
                },
            },
            None => {},
        }
        let ticket: Ticket = self.next_ticket;
        self.next_ticket = ticket + 1;
        self.attempts.insert(
            ticket,
            Attempt { cancelled: false, settled: false, stopping: false },
        );
        put_entry(
            &mut self.registry,
            id,
            ServerEntry {
                status: ServerStatus::Starting,
                runtime: None,
                start: Some(StartHandle { ticket }),
            },
        );
        self.publish(AppEvent::StatusChanged { server_id: id, status: ServerStatus::Starting });
        assert(self@ =~= old(self)@.begin_start(id));
        Some(StartGuard { ticket })
    }

    /// The in-flight start of `id`, if any: there during `Starting` and
    /// `Initializing`, until the start settles.
    pub fn start_handle(&self, id: ServerId) -> (r: Option<StartHandle>)
        ensures
            start_option(r) == self@.start(id),
    {
        match entry_of(&self.registry, id) {
            Some(entry) => match entry.start {
                Some(start) => if self.is_settled(start.ticket) {
                    None
                } else {
                    Some(start)
                },
                None => None,
            },
            None => None,
        }
    }

    /// What is known of an attempt.
    pub fn attempt(&self, ticket: Ticket) -> (r: Option<Attempt>)
        ensures
            match r {
                Some(a) => self@.attempts.contains_key(ticket) && self@.attempts[ticket] == a,
                None => !self@.attempts.contains_key(ticket),
            },
    {
        match self.attempts.get(&ticket) {
            Some(a) => Some(*a),
            None => None,
        }
    }

    /// Ask for the cancellation of an attempt.
    pub fn cancel(&mut self, ticket: Ticket)
        requires
            old(self)@.attempts.contains_key(ticket),
        ensures
            final(self)@ == old(self)@.note(
                ticket,
                Attempt { cancelled: true, ..old(self)@.attempts[ticket] },
            ),
            old(self)@.wf() ==> final(self)@.wf(),
    {
        match self.attempt(ticket) {
            Some(a) => {
                self.attempts.insert(
                    ticket,
                    Attempt { cancelled: true, settled: a.settled, stopping: a.stopping },
                );
            },
            None => {},
        }
    }

    /// Whether cancellation was asked for.
    pub fn is_cancelled(&self, ticket: Ticket) -> (r: bool)
        ensures
            r == (self@.attempts.contains_key(ticket) && self@.attempts[ticket].cancelled),
    {
        match self.attempt(ticket) {
            Some(a) => a.cancelled,
            None => false,
        }
    }

    /// The start task is over: whoever waits for it may look at the registry.
    pub fn settle(&mut self, guard: StartGuard)
        requires
            old(self)@.attempts.contains_key(guard.spec_token()),
        ensures
            final(self)@ == old(self)@.note(
                guard.spec_token(),
                Attempt { settled: true, ..old(self)@.attempts[guard.spec_token()] },
            ),
            old(self)@.wf() ==> final(self)@.wf(),
    {
        match self.attempt(guard.ticket) {
            Some(a) => {
                self.attempts.insert(
                    guard.ticket,
                    Attempt { cancelled: a.cancelled, settled: true, stopping: a.stopping },
                );
            },
            None => {},
        }
    }

    /// Whether the start task is over.
    pub fn is_settled(&self, ticket: Ticket) -> (r: bool)
        ensures
            r == (self@.attempts.contains_key(ticket) && self@.attempts[ticket].settled),
    {
        match self.attempt(ticket) {
            Some(a) => a.settled,
            None => false,
        }
    }

    /// Mark a run as being stopped on request, so that its exit is told from a
    /// crash.
    pub fn mark_stopping(&mut self, ticket: Ticket)
        requires
            old(self)@.attempts.contains_key(ticket),
        ensures
            final(self)@ == old(self)@.note(
                ticket,
                Attempt { stopping: true, ..old(self)@.attempts[ticket] },
            ),
            old(self)@.wf() ==> final(self)@.wf(),
    {
        match self.attempt(ticket) {
            Some(a) => {
                self.attempts.insert(
                    ticket,
                    Attempt { cancelled: a.cancelled, settled: a.settled, stopping: true },
                );
            },
            None => {},
        }
    }

    /// Whether a run is being stopped on request.
    pub fn is_stopping(&self, ticket: Ticket) -> (r: bool)
        ensures
            r == (self@.attempts.contains_key(ticket) && self@.attempts[ticket].stopping),
    {
        match self.attempt(ticket) {
            Some(a) => a.stopping,
            None => false,
        }
    }

    /// Promote a successfully-handshaken start to Running. Succeeds only while
    /// the entry still holds an uncancelled start, so a concurrent `stop` or
    /// `remove` (which cancels first) can never be resurrected by a late
    /// install. On failure the caller owns the child and must kill it.
    pub fn try_install_runtime(&mut self, id: ServerId, runtime: RunningServer) -> (r: bool)
        requires
            old(self)@.wf(),
            old(self)@.known(runtime@),
        ensures
            final(self)@.wf(),
            r == old(self)@.can_install(id),
            r ==> final(self)@ == old(self)@.install(id, runtime@),
            !r ==> final(self)@ == old(self)@,
    {
        let start = match self.start_handle(id) {
            Some(start) => start,
            None => {
                return false;
            },
        };
        assert(self@.registry.contains_key(id));
        assert(self@.attempts.contains_key(start.ticket));
        if self.is_cancelled(start.ticket) {
            return false;
        }
        put_entry(
            &mut self.registry,
            id,
            ServerEntry { status: ServerStatus::Running, runtime: Some(runtime), start: None },
        );
        self.publish(AppEvent::StatusChanged { server_id: id, status: ServerStatus::Running });
        assert(self@ =~= old(self)@.install(id, runtime@));
        true
    }

    /// The runtime of `id`, if it is running.
    pub fn runtime(&self, id: ServerId) -> (r: Option<RunningServer>)
        ensures
            runtime_option(r) == self@.runtime(id),
    {
        match entry_of(&self.registry, id) {
            Some(entry) => entry.runtime,
            None => None,
        }
    }
}

/// Writing any status keeps the state valid.
pub proof fn law_writing_a_status_keeps_the_state_valid(s: StateView, id: i64, status: StatusView)
    requires
        s.wf(),
    ensures
        s.set_status(id, status).wf(),
{
    let t = s.set_status(id, status);
    assert forall|k: i64| #[trigger] t.registry.contains_key(k) implies {
        &&& !(t.registry[k].status is Stopped)
        &&& t.registry[k].runtime matches Some(r) ==> t.registry[k].status is Running && t.known(r)
        &&& t.registry[k].start matches Some(x) ==> t.attempts.contains_key(x)
            && t.registry[k].status.starting()
    } by {
        if k != id {
            assert(s.registry.contains_key(k));
        }
    }
}

/// A runtime is reachable only while the status is `Running`.
pub proof fn law_only_running_servers_have_a_runtime(s: StateView, id: i64)
    requires
        s.wf(),
        s.runtime(id) is Some,
    ensures
        s.status(id) is Running,
{
}

/// A start cannot be claimed twice: as long as nothing else is written, the
/// second claim fails.
pub proof fn law_no_double_start(s: StateView, id: i64)
    requires
        s.can_start(id),
    ensures
        !s.begin_start(id).can_start(id),
{
}

/// A claimed start has a fresh ticket that nobody cancelled.
pub proof fn law_a_start_is_fresh(s: StateView, id: i64)
    requires
        s.wf(),
    ensures
        !s.attempts.contains_key(s.next_ticket),
        s.begin_start(id).can_install(id),
{
    if s.attempts.contains_key(s.next_ticket) {
        assert(s.next_ticket < s.next_ticket);
    }
}

/// A cancelled start never becomes `Running`: whatever else is noted of its
/// attempt, installing is refused as long as its start is in flight.
pub proof fn law_a_cancelled_start_is_never_installed(
    s: StateView,
    id: i64,
    ticket: Ticket,
    attempt: Attempt,
)
    requires
        s.start(id) == Some(ticket),
        attempt.cancelled,
    ensures
        !s.note(ticket, attempt).can_install(id),
{
}

/// `Stopped` takes the entry out, with its runtime and its start.
pub proof fn law_stopped_clears_the_entry(s: StateView, id: i64)
    ensures
        ({
            let t = s.set_status(id, StatusView::Stopped);
            &&& t.status(id) is Stopped
            &&& t.runtime(id) is None
            &&& t.start(id) is None
            &&& !t.registry.contains_key(id)
        }),
{
}

/// A start that has settled, or whose server has any status but `Starting` and
/// `Initializing`, is not in flight.
pub proof fn law_an_ended_start_is_not_in_flight(s: StateView, id: i64, status: StatusView)
    requires
        s.wf(),
    ensures
        s.start(id) matches Some(t) ==> s.status(id).starting() && !s.attempts[t].settled,
        !status.starting() ==> s.set_status(id, status).start(id) is None,
        forall|t: Ticket, a: Attempt|
            a.settled ==> (#[trigger] s.note(t, a)).start(id) != Some(t),
{
}

/// A crashed server's handles can't be reached: any status but `Running` drops
/// the runtime.
pub proof fn law_a_crash_drops_the_runtime(s: StateView, id: i64, status: StatusView)
    requires
        !(status is Running),
    ensures
        s.set_status(id, status).runtime(id) is None,
{
}

/// What is written of one server leaves every other as it was.
pub proof fn law_servers_do_not_interfere(s: StateView, id: i64, other: i64, status: StatusView)
    requires
        s.wf(),
        id != other,
    ensures
        s.set_status(id, status).status(other) == s.status(other),
        s.set_status(id, status).runtime(other) == s.runtime(other),
        s.set_status(id, status).start(other) == s.start(other),
        s.begin_start(id).status(other) == s.status(other),
        s.begin_start(id).runtime(other) == s.runtime(other),
        s.begin_start(id).start(other) == s.start(other),
{
    if s.registry.contains_key(other) && s.registry[other].start is Some {
        assert(s.attempts.contains_key(s.registry[other].start->0));
    }
}

/// Every status write is broadcast, once and as it was written.
pub proof fn law_every_write_is_broadcast(s: StateView, id: i64, status: StatusView)
    ensures
        s.set_status(id, status).events == s.events.push(
            EventView::StatusChanged { server_id: id, status },
        ),
        s.set_status(id, status).status(id) == status,
{
}

/// A status write changes the status of its server, takes the runtime from a
/// server that does not run and the start from one that is not starting, and
/// keeps both where they still hold; no attempt and no ticket changes with it.
pub proof fn law_what_a_status_write_keeps(s: StateView, id: i64, status: StatusView)
    requires
        s.wf(),
    ensures
        ({
            let t = s.set_status(id, status);
            &&& t.status(id) == status
            &&& status is Running ==> t.runtime(id) == s.runtime(id)
            &&& status is Starting || status is Initializing ==> t.start(id) == s.start(id)
            &&& !(status is Starting || status is Initializing) ==> t.start(id) is None
            &&& !(status is Running) ==> t.runtime(id) is None
            &&& t.attempts == s.attempts && t.next_ticket == s.next_ticket
            &&& t.events.len() == s.events.len() + 1 && t.events.drop_last() == s.events
            &&& t.events.last() == (EventView::StatusChanged { server_id: id, status })
            &&& t.registry.contains_key(id) <==> !(status is Stopped)
        }),
{
    assert(s.set_status(id, status).events.drop_last() =~= s.events);
    if s.registry.contains_key(id) && s.registry[id].start is Some {
        assert(s.attempts.contains_key(s.registry[id].start->0));
    }
}

/// A start is claimed exactly for a server that is neither starting nor running,
/// and makes it starting, under a ticket of its own that nobody has cancelled or
/// settled; every other attempt stays as it is.
pub proof fn law_a_claim_starts_the_server(s: StateView, id: i64)
    requires
        s.wf(),
        s.next_ticket < u64::MAX,
    ensures
        s.can_start(id) <==> !(s.status(id) is Starting) && !(s.status(id) is Initializing) && !(
        s.status(id) is Running),
        ({
            let t = s.begin_start(id);
            &&& t.status(id) is Starting
            &&& t.start(id) == Some(s.next_ticket)
            &&& t.runtime(id) is None
            &&& t.next_ticket == s.next_ticket + 1
            &&& !t.attempts[s.next_ticket].cancelled && !t.attempts[s.next_ticket].settled
                && !t.attempts[s.next_ticket].stopping
            &&& forall|other: Ticket|
                other != s.next_ticket ==> (#[trigger] t.attempts.contains_key(other)
                    == s.attempts.contains_key(other)) && t.attempts[other] == s.attempts[other]
            &&& t.events.len() == s.events.len() + 1 && t.events.drop_last() == s.events
            &&& t.events.last() == (EventView::StatusChanged {
                server_id: id,
                status: StatusView::Starting,
            })
        }),
{
    assert(s.begin_start(id).events.drop_last() =~= s.events);
}

/// A runtime is installed exactly where the server's start is in flight and not
/// cancelled. Then the server is running with that very runtime, no start is in
/// flight, the write is broadcast, and no other server and no attempt changes.
pub proof fn law_an_install_makes_the_server_run(
    s: StateView,
    id: i64,
    other: i64,
    runtime: RuntimeView,
    ticket: Ticket,
)
    requires
        s.start(id) == Some(ticket),
    ensures
        s.can_install(id) <==> !s.attempts[ticket].cancelled,
        ({
            let t = s.install(id, runtime);
            &&& t.status(id) is Running
            &&& t.runtime(id) == Some(runtime)
            &&& t.start(id) is None
            &&& t.attempts == s.attempts && t.next_ticket == s.next_ticket
            &&& t.events.len() == s.events.len() + 1 && t.events.drop_last() == s.events
            &&& t.events.last() == (EventView::StatusChanged {
                server_id: id,
                status: StatusView::Running,
            })
            &&& other != id ==> t.status(other) == s.status(other) && t.runtime(other) == s.runtime(
                other,
            ) && t.start(other) == s.start(other)
        }),
{
    assert(s.install(id, runtime).events.drop_last() =~= s.events);
}

/// Without a start in flight nothing is installed.
pub proof fn law_nothing_is_installed_without_a_start(s: StateView, id: i64)
    requires
        s.start(id) is None,
    ensures
        !s.can_install(id),
{
}

/// A note on an attempt changes what is known of that attempt, and nothing else.
pub proof fn law_a_note_is_on_one_attempt(
    s: StateView,
    ticket: Ticket,
    attempt: Attempt,
    other: Ticket,
    id: i64,
)
    ensures
        ({
            let t = s.note(ticket, attempt);
            &&& t.attempts.contains_key(ticket) && t.attempts[ticket] == attempt
            &&& other != ticket ==> t.attempts.contains_key(other) == s.attempts.contains_key(other)
                && t.attempts[other] == s.attempts[other]
            &&& t.registry == s.registry && t.events == s.events && t.next_ticket == s.next_ticket
            &&& t.status(id) == s.status(id) && t.runtime(id) == s.runtime(id)
        }),
{
}

/// A status goes over the wire by its name, and a failure with its very message.
pub proof fn law_statuses_go_over_the_wire(message: Seq<char>)
    ensures
        StatusView::Stopped.json().get("state"@) == Some(JsonView::Str("stopped"@)),
        StatusView::Starting.json().get("state"@) == Some(JsonView::Str("starting"@)),
        StatusView::Initializing.json().get("state"@) == Some(JsonView::Str("initializing"@)),
        StatusView::Running.json().get("state"@) == Some(JsonView::Str("running"@)),
        (StatusView::Errored { message }).json().get("state"@) == Some(JsonView::Str("errored"@)),
        (StatusView::Errored { message }).json().get("message"@) == Some(JsonView::Str(message)),
        StatusView::Running.json().get("message"@) is None,
{
    lemma_event_names();
    text::lemma_text_lt_irreflexive("state"@);
    let stopped = StatusView::Stopped.json()->Object_0;
    let starting = StatusView::Starting.json()->Object_0;
    let initializing = StatusView::Initializing.json()->Object_0;
    let running = StatusView::Running.json()->Object_0;
    let errored = (StatusView::Errored { message }).json()->Object_0;
    assert(stopped[0].0 == "state"@ && starting[0].0 == "state"@ && initializing[0].0 == "state"@);
    assert(running[0].0 == "state"@ && errored[0].0 == "message"@ && errored[1].0 == "state"@);
    json::law_members_are_found_by_name(stopped, "state"@);
    json::law_members_are_found_by_name(starting, "state"@);
    json::law_members_are_found_by_name(initializing, "state"@);
    json::law_members_are_found_by_name(running, "state"@);
    json::law_members_are_found_by_name(running, "message"@);
    json::law_members_are_found_by_name(errored, "state"@);
    json::law_members_are_found_by_name(errored, "message"@);
}

/// An event goes over the wire with its kind, its server and all that it tells:
/// the status, the very line and its stream, how many lines or notifications
/// were lost, or the notification as it came.
pub proof fn law_events_go_over_the_wire(
    server_id: ServerId,
    status: StatusView,
    stream: LogStream,
    line: Seq<char>,
    dropped: u64,
    payload: JsonView,
)
    ensures
        ({
            let id = Some(JsonView::Number(json::number_of_i64(server_id)));
            let lost = Some(JsonView::Number(json::number_of_u64(dropped)));
            let name = Some(
                JsonView::Str(
                    if stream == LogStream::Stdout {
                        "stdout"@
                    } else {
                        "stderr"@
                    },
                ),
            );
            let a = (EventView::StatusChanged { server_id, status }).json();
            let b = (EventView::Log { server_id, stream, line }).json();
            let c = (EventView::LogGap { server_id, stream, dropped }).json();
            let d = (EventView::Notification { server_id, payload }).json();
            let e = (EventView::NotificationGap { server_id, dropped }).json();
            &&& a.get("type"@) == Some(JsonView::Str("status_changed"@))
            &&& b.get("type"@) == Some(JsonView::Str("log"@))
            &&& c.get("type"@) == Some(JsonView::Str("log_gap"@))
            &&& d.get("type"@) == Some(JsonView::Str("notification"@))
            &&& e.get("type"@) == Some(JsonView::Str("notification_gap"@))
            &&& a.get("server_id"@) == id && b.get("server_id"@) == id && c.get("server_id"@) == id
            &&& d.get("server_id"@) == id && e.get("server_id"@) == id
            &&& a.get("status"@) == Some(status.json())
            &&& b.get("line"@) == Some(JsonView::Str(line)) && b.get("stream"@) == name
            &&& c.get("dropped"@) == lost && c.get("stream"@) == name
            &&& d.get("payload"@) == Some(payload)
            &&& e.get("dropped"@) == lost
        }),
{
    lemma_event_names();
    let a = (EventView::StatusChanged { server_id, status }).json()->Object_0;
    let b = (EventView::Log { server_id, stream, line }).json()->Object_0;
    let c = (EventView::LogGap { server_id, stream, dropped }).json()->Object_0;
    let d = (EventView::Notification { server_id, payload }).json()->Object_0;
    let e = (EventView::NotificationGap { server_id, dropped }).json()->Object_0;
    json::lemma_names_ascend(a);
    json::lemma_names_ascend(b);
    json::lemma_names_ascend(c);
    json::lemma_names_ascend(d);
    json::lemma_names_ascend(e);
    json::lemma_ascending_names_differ(a);
    json::lemma_ascending_names_differ(b);
    json::lemma_ascending_names_differ(c);
    json::lemma_ascending_names_differ(d);
    json::lemma_ascending_names_differ(e);
    assert(a[0].0 == "server_id"@ && a[1].0 == "status"@ && a[2].0 == "type"@);
    assert(b[0].0 == "line"@ && b[1].0 == "server_id"@ && b[2].0 == "stream"@ && b[3].0 == "type"@);
    assert(c[0].0 == "dropped"@ && c[1].0 == "server_id"@ && c[2].0 == "stream"@ && c[3].0
        == "type"@);
    assert(d[0].0 == "payload"@ && d[1].0 == "server_id"@ && d[2].0 == "type"@);
    assert(e[0].0 == "dropped"@ && e[1].0 == "server_id"@ && e[2].0 == "type"@);
    json::law_members_are_found_by_name(a, "type"@);
    json::law_members_are_found_by_name(a, "server_id"@);
    json::law_members_are_found_by_name(a, "status"@);
    json::law_members_are_found_by_name(b, "type"@);
    json::law_members_are_found_by_name(b, "server_id"@);
    json::law_members_are_found_by_name(b, "line"@);
    json::law_members_are_found_by_name(b, "stream"@);
    json::law_members_are_found_by_name(c, "type"@);
    json::law_members_are_found_by_name(c, "server_id"@);
    json::law_members_are_found_by_name(c, "dropped"@);
    json::law_members_are_found_by_name(c, "stream"@);
    json::law_members_are_found_by_name(d, "type"@);
    json::law_members_are_found_by_name(d, "server_id"@);
    json::law_members_are_found_by_name(d, "payload"@);
    json::law_members_are_found_by_name(e, "type"@);
    json::law_members_are_found_by_name(e, "server_id"@);
    json::law_members_are_found_by_name(e, "dropped"@);
}

/// A subscriber that fell behind is told how many events it missed.
pub proof fn law_laggards_are_told_how_much_they_missed(missed: u64)
    ensures
        lagged_text(missed) == "{\"type\":\"lagged\",\"missed\":"@ + text::decimal(missed as int)
            + seq!['}'],
{
    reveal_strlit("}");
    assert("}"@ =~= seq!['}']);
}

/// Of two claims on a server, one behind the other, at most one succeeds: the
/// second finds the server starting, and leaves everything as it is.
pub proof fn law_one_of_two_claims_wins(
    first: &mut AppState,
    second: &mut AppState,
    id: ServerId,
    a: Option<StartGuard>,
    b: Option<StartGuard>,
)
    requires
        old(first)@.wf(),
        old(first)@.next_ticket < u64::MAX - 1,
        call_ensures(AppState::try_begin_start, (first, id), a),
        final(first)@ == old(second)@,
        call_ensures(AppState::try_begin_start, (second, id), b),
    ensures
        b is None,
        final(second)@ == final(first)@,
        final(second)@.status(id) is Starting || a is None,
{
}

/// A cancelled start is not installed: after the cancel the install is refused
/// and changes nothing.
pub proof fn law_a_cancel_prevents_the_install(
    cancelling: &mut AppState,
    installing: &mut AppState,
    id: ServerId,
    ticket: Ticket,
    runtime: RunningServer,
    r: bool,
)
    requires
        old(cancelling)@.wf(),
        old(cancelling)@.start(id) == Some(ticket),
        call_ensures(AppState::cancel, (cancelling, ticket), ()),
        final(cancelling)@ == old(installing)@,
        call_ensures(AppState::try_install_runtime, (installing, id, runtime), r),
    ensures
        !r,
        final(installing)@ == old(installing)@,
        final(cancelling)@.attempts[ticket].cancelled,
        final(cancelling)@.registry == old(cancelling)@.registry,
{
}

/// What is installed is what is found: the very runtime, of a server that runs.
pub proof fn law_an_installed_runtime_is_found(
    installing: &mut AppState,
    after: AppState,
    id: ServerId,
    runtime: RunningServer,
    found: Option<RunningServer>,
    status: ServerStatus,
)
    requires
        call_ensures(AppState::try_install_runtime, (installing, id, runtime), true),
        after == *final(installing),
        call_ensures(AppState::runtime, (&after, id), found),
        call_ensures(AppState::status, (&after, id), status),
    ensures
        found matches Some(f) && f.pid == runtime.pid && f.ticket == runtime.ticket && f.kill
            == runtime.kill && f.handshake@ == runtime.handshake@,
        status is Running,
{
}

/// Each flag of an attempt is set by the one who is to set it, and stays as it
/// was otherwise: a cancel, the settling of the start, and the mark of a stop.
pub proof fn law_each_flag_is_set_alone(
    cancelling: &mut AppState,
    settling: &mut AppState,
    stopping: &mut AppState,
    guard: StartGuard,
    ticket: Ticket,
)
    requires
        ticket == guard.spec_token(),
        call_ensures(AppState::cancel, (cancelling, ticket), ()),
        call_ensures(AppState::settle, (settling, guard), ()),
        call_ensures(AppState::mark_stopping, (stopping, ticket), ()),
    ensures
        ({
            let was = old(cancelling)@.attempts[ticket];
            let now = final(cancelling)@.attempts[ticket];
            now.cancelled && now.settled == was.settled && now.stopping == was.stopping
        }),
        ({
            let was = old(settling)@.attempts[ticket];
            let now = final(settling)@.attempts[ticket];
            now.settled && now.cancelled == was.cancelled && now.stopping == was.stopping
        }),
        ({
            let was = old(stopping)@.attempts[ticket];
            let now = final(stopping)@.attempts[ticket];
            now.stopping && now.cancelled == was.cancelled && now.settled == was.settled
        }),
        final(cancelling)@.registry == old(cancelling)@.registry,
        final(settling)@.registry == old(settling)@.registry,
        final(stopping)@.registry == old(stopping)@.registry,
{
}

/// Every event that is published is handed over, once and as it is, and changes
/// nothing else.
pub proof fn law_every_event_is_published(state: &mut AppState, event: AppEvent, id: i64)
    requires
        call_ensures(AppState::publish, (state, event), ()),
    ensures
        final(state)@.events.len() == old(state)@.events.len() + 1,
        final(state)@.events.last() == event@,
        final(state)@.events.drop_last() == old(state)@.events,
        final(state)@.registry == old(state)@.registry,
        final(state)@.attempts == old(state)@.attempts,
        final(state)@.status(id) == old(state)@.status(id),
{
    assert(final(state)@.events.drop_last() =~= old(state)@.events);
}

/// A server that nobody registered is stopped, without a runtime and without a
/// start; one that is registered has what its entry says.
pub proof fn law_the_registry_tells_what_lives(s: StateView, id: i64)
    ensures
        !s.registry.contains_key(id) ==> s.status(id) is Stopped && s.runtime(id) is None && s.start(
            id,
        ) is None,
        s.registry.contains_key(id) ==> s.status(id) == s.registry[id].status && s.runtime(id)
            == s.registry[id].runtime,
        s.registry.contains_key(id) ==> (s.registry[id].start matches Some(t) ==> (
        !s.attempts[t].settled ==> s.start(id) == Some(t))),
        s.start(id) matches Some(t) ==> s.registry[id].start == Some(t),
{
}

/// A subscriber gets every event in its wire shape, on one line, or is told how
/// many it missed.
pub proof fn law_subscribers_get_events_or_a_count(
    event: AppEvent,
    missed: u64,
    sent: String,
    lagged: String,
)
    requires
        event@.wf(),
        call_ensures(sse_payload, (Ok(event),), sent),
        call_ensures(sse_payload, (Err(missed),), lagged),
    ensures
        sent@ == json::json_print(event@.json()),
        !sent@.contains('\n'),
        lagged@ == "{\"type\":\"lagged\",\"missed\":"@ + text::decimal(missed as int) + seq!['}'],
{
    law_laggards_are_told_how_much_they_missed(missed);
}

} // verus!
