//! JSON-RPC over stdio: request/response correlation, the MCP `initialize`
//! handshake, and stdout routing.
//!
//! stdout is the protocol channel; stderr is logs. Every stdout line that is a
//! JSON-RPC object (has `"jsonrpc"`) goes to the dispatcher; anything else
//! falls back into the log buffer instead of being lost. Responses resolve
//! pending requests by id; a server's `ping` gets an empty result and its other
//! requests a polite `-32601`; notifications fan out to the UI stream.

use vstd::prelude::*;

use crate::error::{AppError, AppResult, ErrorView};
use crate::json;
use crate::json::{member, parse_json, Json, JsonView};
use crate::stream;
use crate::stream::{json_candidate, GapEvent, SendOutcome, StreamEvent};
use crate::text;
use crate::text::{concat, same_text};

verus! {

broadcast use vstd::string::group_string_axioms;

/// Advertised MCP protocol version.
pub const PROTOCOL_VERSION: &'static str = "2025-06-18";

/// Bound on a request, in seconds, where the caller names none.
pub const DEFAULT_REQUEST_TIMEOUT: u64 = 30;

/// Capacity of the notification channel.
pub const NOTIFICATION_CAPACITY: usize = 256;

/// The JSON-RPC code for a method that is not supported.
pub const METHOD_NOT_FOUND: i64 = -32601;

/// What the `initialize` handshake yields, kept for the UI.
#[derive(Debug, PartialEq)]
pub struct ServerHandshake {
    pub protocol_version: String,
    pub capabilities: Json,
    pub server_info: Json,
}

#[verifier::ext_equal]
pub struct HandshakeView {
    pub protocol_version: Seq<char>,
    pub capabilities: JsonView,
    pub server_info: JsonView,
}

impl View for ServerHandshake {
    type V = HandshakeView;

    open spec fn view(&self) -> HandshakeView {
        HandshakeView {
            protocol_version: self.protocol_version@,
            capabilities: self.capabilities@,
            server_info: self.server_info@,
        }
    }
}

impl Clone for ServerHandshake {
    fn clone(&self) -> (r: ServerHandshake)
        ensures
            r@ == self@,
    {
        ServerHandshake {
            protocol_version: self.protocol_version.clone(),
            capabilities: self.capabilities.clone(),
            server_info: self.server_info.clone(),
        }
    }
}

/// A server notification on its way to the UI.
#[derive(Debug, PartialEq)]
pub enum NotificationEvent {
    Frame(Json),
    /// Notifications lost since the last delivered event.
    Gap(u64),
}

/// Every notification event that was offered to the channel through this
/// handle, in order.
pub uninterp spec fn notifications_offered(
    tx: tokio::sync::mpsc::Sender<NotificationEvent>,
) -> Seq<NotificationEvent>;

/// Every notification event that the channel took through this handle, in
/// order.
pub uninterp spec fn notifications_taken(
    tx: tokio::sync::mpsc::Sender<NotificationEvent>,
) -> Seq<NotificationEvent>;

/// `tokio::sync::mpsc::Sender::try_send`: the event is offered to the channel,
/// which takes it, or has no room, or has no receiver any more. Which of these
/// depends on the receiver; an event that was not taken is dropped.
#[verifier::external_body]
fn try_send_notification(
    tx: &mut tokio::sync::mpsc::Sender<NotificationEvent>,
    event: NotificationEvent,
) -> (r: SendOutcome)
    ensures
        notifications_offered(*final(tx)) == notifications_offered(*old(tx)).push(event),
        notifications_taken(*final(tx)) == if r == SendOutcome::Sent {
            notifications_taken(*old(tx)).push(event)
        } else {
            notifications_taken(*old(tx))
        },
{
    match tx.try_send(event) {
        Ok(()) => SendOutcome::Sent,
        Err(tokio::sync::mpsc::error::TrySendError::Full(_)) => SendOutcome::Full,
        Err(tokio::sync::mpsc::error::TrySendError::Closed(_)) => SendOutcome::Closed,
    }
}

impl GapEvent for NotificationEvent {
    open spec fn gap(lost: u64) -> NotificationEvent {
        NotificationEvent::Gap(lost)
    }

    open spec fn tells_of(self) -> int {
        match self {
            NotificationEvent::Frame(_) => 1,
            NotificationEvent::Gap(n) => n as int,
        }
    }

    proof fn lemma_gap(lost: u64) {
    }

    open spec fn offered(tx: tokio::sync::mpsc::Sender<NotificationEvent>) -> Seq<
        NotificationEvent,
    > {
        notifications_offered(tx)
    }

    open spec fn taken(tx: tokio::sync::mpsc::Sender<NotificationEvent>) -> Seq<
        NotificationEvent,
    > {
        notifications_taken(tx)
    }

    fn marker(lost: u64) -> (r: NotificationEvent) {
        NotificationEvent::Gap(lost)
    }

    fn hand_over(
        tx: &mut tokio::sync::mpsc::Sender<NotificationEvent>,
        event: NotificationEvent,
    ) -> (r: SendOutcome) {
        try_send_notification(tx, event)
    }
}

/// A text is a protocol frame by itself.
pub open spec fn direct_frame(line: Seq<char>) -> Option<JsonView> {
    match json::json_text(line) {
        Ok(j) => if j.get("jsonrpc"@) is Some {
            Some(j)
        } else {
            None
        },
        Err(_) => None,
    }
}

/// A stdout line is protocol iff it parses to a JSON object with `"jsonrpc"`,
/// directly or after trimming garbage before the first `{`.
pub open spec fn frame_of(line: Seq<char>) -> Option<JsonView> {
    match direct_frame(line) {
        Some(j) => Some(j),
        None => match stream::from_brace(line) {
            Some(rest) => direct_frame(rest),
            None => None,
        },
    }
}

/// What is left of a parse: the value, if it is a protocol frame.
pub fn as_frame(parsed: Result<Json, String>) -> (r: Option<Json>)
    ensures
        match parsed {
            Ok(j) => if j@.get("jsonrpc"@) is Some {
                r == Some(j)
            } else {
                r is None
            },
            Err(_) => r is None,
        },
{
    match parsed {
        Ok(j) => if j.has("jsonrpc") {
            Some(j)
        } else {
            None
        },
        Err(_) => None,
    }
}

/// The view of an optional frame.
pub open spec fn frame_option(r: Option<Json>) -> Option<JsonView> {
    match r {
        Some(j) => Some(j@),
        None => None,
    }
}

/// The protocol frame that a stdout line holds.
pub fn parse_frame(line: &str) -> (r: Option<Json>)
    ensures
        frame_option(r) == frame_of(line@),
        r matches Some(j) ==> j@.wf(),
{
    match as_frame(parse_json(line)) {
        Some(j) => Some(j),
        None => match json_candidate(line) {
            Some(rest) => as_frame(parse_json(rest)),
            None => None,
        },
    }
}

/// `{"id": .., "jsonrpc": "2.0", "method": .., "params": ..}`.
pub open spec fn request_json(id: i64, method: Seq<char>, params: JsonView) -> JsonView {
    JsonView::Object(
        seq![
            ("id"@, JsonView::Number(json::number_of_i64(id))),
            ("jsonrpc"@, JsonView::Str("2.0"@)),
            ("method"@, JsonView::Str(method)),
            ("params"@, params),
        ],
    )
}

/// `{"jsonrpc": "2.0", "method": .., "params": ..}`.
pub open spec fn notification_json(method: Seq<char>, params: JsonView) -> JsonView {
    JsonView::Object(
        seq![
            ("jsonrpc"@, JsonView::Str("2.0"@)),
            ("method"@, JsonView::Str(method)),
            ("params"@, params),
        ],
    )
}

/// `{"id": .., "jsonrpc": "2.0", "result": ..}`.
pub open spec fn result_json(id: JsonView, result: JsonView) -> JsonView {
    JsonView::Object(
        seq![("id"@, id), ("jsonrpc"@, JsonView::Str("2.0"@)), ("result"@, result)],
    )
}

/// `{"error": {"code": .., "message": ..}, "id": .., "jsonrpc": "2.0"}`.
pub open spec fn error_json(id: JsonView, code: i64, message: Seq<char>) -> JsonView {
    JsonView::Object(
        seq![
            (
                "error"@,
                JsonView::Object(
                    seq![
                        ("code"@, JsonView::Number(json::number_of_i64(code))),
                        ("message"@, JsonView::Str(message)),
                    ],
                ),
            ),
            ("id"@, id),
            ("jsonrpc"@, JsonView::Str("2.0"@)),
        ],
    )
}

proof fn lemma_names()
    ensures
        text::text_lt("code"@, "message"@),
        text::text_lt("error"@, "id"@),
        text::text_lt("error"@, "jsonrpc"@),
        text::text_lt("id"@, "jsonrpc"@),
        text::text_lt("id"@, "method"@),
        text::text_lt("id"@, "params"@),
        text::text_lt("id"@, "result"@),
        text::text_lt("jsonrpc"@, "method"@),
        text::text_lt("jsonrpc"@, "params"@),
        text::text_lt("jsonrpc"@, "result"@),
        text::text_lt("method"@, "params"@),
        text::text_lt("name"@, "version"@),
        text::text_lt("capabilities"@, "clientInfo"@),
        text::text_lt("capabilities"@, "protocolVersion"@),
        text::text_lt("clientInfo"@, "protocolVersion"@),
{
    reveal_strlit("code");
    reveal_strlit("message");
    reveal_strlit("error");
    reveal_strlit("id");
    reveal_strlit("jsonrpc");
    reveal_strlit("method");
    reveal_strlit("params");
    reveal_strlit("result");
    reveal_strlit("name");
    reveal_strlit("version");
    reveal_strlit("capabilities");
    reveal_strlit("clientInfo");
    reveal_strlit("protocolVersion");
    let a = "capabilities"@;
    let b = "clientInfo"@;
    assert(a.drop_first()[0] == 'a' && b.drop_first()[0] == 'l');
    assert(text::text_lt(a.drop_first(), b.drop_first()));
}

/// The frames are well-formed where what they carry is.
pub proof fn lemma_frames_wf(id: i64, any: JsonView, method: Seq<char>, body: JsonView)
    requires
        any.wf(),
        body.wf(),
    ensures
        request_json(id, method, body).wf(),
        notification_json(method, body).wf(),
        result_json(any, body).wf(),
        error_json(any, id, method).wf(),
{
    lemma_names();
    json::lemma_object_wf(request_json(id, method, body)->Object_0);
    json::lemma_object_wf(notification_json(method, body)->Object_0);
    json::lemma_object_wf(result_json(any, body)->Object_0);
    json::lemma_object_wf(error_json(any, id, method)->Object_0[0].1->Object_0);
    json::lemma_object_wf(error_json(any, id, method)->Object_0);
}

/// The frame of a request.
pub fn request_frame(id: i64, method: &str, params: Json) -> (r: String)
    ensures
        params@.wf() ==> r@ == json::json_print(request_json(id, method@, params@)),
        !r@.contains('\n'),
{
    broadcast use json::group_json_views;

    let mut members: Vec<(String, Json)> = Vec::new();
    members.push(member("id", Json::from_i64(id)));
    members.push(member("jsonrpc", Json::string("2.0")));
    members.push(member("method", Json::string(method)));
    members.push(member("params", params));
    let ghost whole = json::entries_view(members@);
    assert(whole =~= request_json(id, method@, params@)->Object_0);
    proof {
        if params@.wf() {
            lemma_frames_wf(id, JsonView::Null, method@, params@);
        }
    }
    Json::Object(members).to_text()
}

/// The frame of a notification.
pub fn notification_frame(method: &str, params: Json) -> (r: String)
    ensures
        params@.wf() ==> r@ == json::json_print(notification_json(method@, params@)),
        !r@.contains('\n'),
{
    broadcast use json::group_json_views;

    let mut members: Vec<(String, Json)> = Vec::new();
    members.push(member("jsonrpc", Json::string("2.0")));
    members.push(member("method", Json::string(method)));
    members.push(member("params", params));
    let ghost whole = json::entries_view(members@);
    assert(whole =~= notification_json(method@, params@)->Object_0);
    proof {
        if params@.wf() {
            lemma_frames_wf(0, JsonView::Null, method@, params@);
        }
    }
    Json::Object(members).to_text()
}

/// A response that carries a result.
pub fn result_envelope(id: Json, result: Json) -> (r: Json)
    ensures
        r@ == result_json(id@, result@),
        id@.wf() && result@.wf() ==> r@.wf(),
{
    broadcast use json::group_json_views;

    let mut members: Vec<(String, Json)> = Vec::new();
    members.push(member("id", id));
    members.push(member("jsonrpc", Json::string("2.0")));
    members.push(member("result", result));
    let ghost whole = json::entries_view(members@);
    assert(whole =~= result_json(id@, result@)->Object_0);
    proof {
        if id@.wf() && result@.wf() {
            lemma_frames_wf(0, id@, Seq::empty(), result@);
        }
    }
    Json::Object(members)
}

/// A response that carries an error.
pub fn error_envelope(id: Json, code: i64, message: &str) -> (r: Json)
    ensures
        r@ == error_json(id@, code, message@),
        id@.wf() ==> r@.wf(),
{
    broadcast use json::group_json_views;

    let mut error: Vec<(String, Json)> = Vec::new();
    error.push(member("code", Json::from_i64(code)));
    error.push(member("message", Json::string(message)));
    let ghost inner = json::entries_view(error@);
    assert(inner =~= error_json(id@, code, message@)->Object_0[0].1->Object_0);
    let mut members: Vec<(String, Json)> = Vec::new();
    members.push(member("error", Json::Object(error)));
    members.push(member("id", id));
    members.push(member("jsonrpc", Json::string("2.0")));
    let ghost whole = json::entries_view(members@);
    assert(whole =~= error_json(id@, code, message@)->Object_0);
    proof {
        if id@.wf() {
            lemma_frames_wf(code, id@, message@, JsonView::Null);
        }
    }
    Json::Object(members)
}

/// The name and the version under which the panel introduces itself.
pub const CLIENT_NAME: &'static str = "mcpanel";

pub const CLIENT_VERSION: &'static str = "0.1.0";

/// The parameters of `initialize`.
pub open spec fn initialize_json() -> JsonView {
    JsonView::Object(
        seq![
            ("capabilities"@, JsonView::Object(Seq::empty())),
            (
                "clientInfo"@,
                JsonView::Object(
                    seq![
                        ("name"@, JsonView::Str("mcpanel"@)),
                        ("version"@, JsonView::Str("0.1.0"@)),
                    ],
                ),
            ),
            ("protocolVersion"@, JsonView::Str("2025-06-18"@)),
        ],
    )
}

/// The parameters of `initialize`: the advertised version, no capabilities, and
/// who is asking.
pub fn initialize_params() -> (r: Json)
    ensures
        r@ == initialize_json(),
        r@.wf(),
{
    broadcast use json::group_json_views;

    let mut info: Vec<(String, Json)> = Vec::new();
    info.push(member("name", Json::string(CLIENT_NAME)));
    info.push(member("version", Json::string(CLIENT_VERSION)));
    assert(json::entries_view(info@) =~= initialize_json()->Object_0[1].1->Object_0);
    let mut members: Vec<(String, Json)> = Vec::new();
    members.push(member("capabilities", Json::empty_object()));
    members.push(member("clientInfo", Json::Object(info)));
    members.push(member("protocolVersion", Json::string(PROTOCOL_VERSION)));
    assert(json::entries_view(members@) =~= initialize_json()->Object_0);
    proof {
        lemma_names();
        json::lemma_object_wf(Seq::empty());
        json::lemma_object_wf(initialize_json()->Object_0[1].1->Object_0);
        json::lemma_object_wf(initialize_json()->Object_0);
    }
    Json::Object(members)
}

/// A protocol revision that the panel speaks.
pub open spec fn supported_version(v: Seq<char>) -> bool {
    v == "2025-06-18"@ || v == "2025-03-26"@ || v == "2024-11-05"@
}

/// The version that an `initialize` result names, or the empty text.
pub open spec fn version_of(result: JsonView) -> Seq<char> {
    match result.get("protocolVersion"@) {
        Some(JsonView::Str(v)) => v,
        _ => Seq::empty(),
    }
}

/// A member of the result, or the empty object.
pub open spec fn member_or_empty(result: JsonView, name: Seq<char>) -> JsonView {
    match result.get(name) {
        Some(j) => j,
        None => JsonView::Object(Seq::empty()),
    }
}

/// What an `initialize` result yields. A revision that the panel does not speak
/// (or none at all) fails the handshake.
pub open spec fn handshake_result(result: JsonView) -> Result<HandshakeView, ErrorView> {
    let v = version_of(result);
    if supported_version(v) {
        Ok(
            HandshakeView {
                protocol_version: v,
                capabilities: member_or_empty(result, "capabilities"@),
                server_info: member_or_empty(result, "serverInfo"@),
            },
        )
    } else {
        Err(ErrorView::Handshake("unsupported protocol version: "@ + v))
    }
}

fn copy_member(result: &Json, name: &str) -> (r: Json)
    ensures
        r@ == member_or_empty(result@, name@),
{
    match result.get(name) {
        Some(j) => j.clone(),
        None => Json::empty_object(),
    }
}

/// The frame that ends a handshake.
pub open spec fn initialized_text() -> Seq<char> {
    json::json_print(
        notification_json("notifications/initialized"@, JsonView::Object(Seq::empty())),
    )
}

/// The outcome of the handshake, given the answer to `initialize`, and on
/// success the frame to write next. Only after that may the UI issue tool calls.
pub fn handshake(reply: AppResult<Json>) -> (r: AppResult<(ServerHandshake, String)>)
    ensures
        match reply {
            Err(e) => r == Err::<(ServerHandshake, String), AppError>(e),
            Ok(result) => match r {
                Ok((h, frame)) => {
                    &&& handshake_result(result@) == Ok::<HandshakeView, ErrorView>(h@)
                    &&& frame@ == initialized_text()
                },
                Err(e) => handshake_result(result@) == Err::<HandshakeView, ErrorView>(e@),
            },
        },
{
    let result = match reply {
        Ok(result) => result,
        Err(e) => {
            return Err(e);
        },
    };
    let version = match result.get("protocolVersion") {
        Some(Json::Str(v)) => v.clone(),
        _ => String::new(),
    };
    assert(version@ =~= version_of(result@));
    if same_text(version.as_str(), "2025-06-18") || same_text(version.as_str(), "2025-03-26")
        || same_text(version.as_str(), "2024-11-05") {
        proof {
            json::lemma_object_wf(Seq::empty());
        }
        let shaken = ServerHandshake {
            protocol_version: version,
            capabilities: copy_member(&result, "capabilities"),
            server_info: copy_member(&result, "serverInfo"),
        };
        let frame = notification_frame("notifications/initialized", Json::empty_object());
        Ok((shaken, frame))
    } else {
        Err(AppError::Handshake(concat("unsupported protocol version: ", version.as_str())))
    }
}

/// What a frame from the server is.
pub enum Frame {
    /// The answer to a request, by its id.
    Response { id: i64, outcome: AppResult<Json> },
    /// A request of the server's own.
    Request { caller: Json, ping: bool },
    Notification(Json),
    /// An answer whose id is not one of ours, or a frame without any meaning.
    Unroutable,
}

#[verifier::ext_equal]
pub enum FrameView {
    Response { id: i64, outcome: Result<JsonView, ErrorView> },
    Request { caller: JsonView, ping: bool },
    Notification(JsonView),
    Unroutable,
}

/// The view of an outcome.
pub open spec fn outcome_view(outcome: AppResult<Json>) -> Result<JsonView, ErrorView> {
    match outcome {
        Ok(j) => Ok(j@),
        Err(e) => Err(e@),
    }
}

impl View for Frame {
    type V = FrameView;

    open spec fn view(&self) -> FrameView {
        match *self {
            Frame::Response { id, outcome } => FrameView::Response {
                id,
                outcome: outcome_view(outcome),
            },
            Frame::Request { caller, ping } => FrameView::Request { caller: caller@, ping },
            Frame::Notification(j) => FrameView::Notification(j@),
            Frame::Unroutable => FrameView::Unroutable,
        }
    }
}

/// What a response carries: the error, with its code and message as far as it
/// has them, or the result.
pub open spec fn response_outcome(frame: JsonView) -> Result<JsonView, ErrorView> {
    match frame.get("error"@) {
        Some(error) => Err(
            ErrorView::Rpc {
                code: match error.get("code"@) {
                    Some(c) => match c.as_i64() {
                        Some(k) => k,
                        None => 0,
                    },
                    None => 0,
                },
                message: match error.get("message"@) {
                    Some(JsonView::Str(m)) => m,
                    _ => Seq::empty(),
                },
            },
        ),
        None => Ok(
            match frame.get("result"@) {
                Some(result) => result,
                None => JsonView::Null,
            },
        ),
    }
}

/// What a frame is.
pub open spec fn classified(frame: JsonView) -> FrameView {
    let answers = frame.get("result"@) is Some || frame.get("error"@) is Some;
    match frame.get("id"@) {
        Some(id) => if answers {
            match id.as_i64() {
                Some(k) => FrameView::Response { id: k, outcome: response_outcome(frame) },
                None => FrameView::Unroutable,
            }
        } else if frame.get("method"@) is Some {
            FrameView::Request {
                caller: id,
                ping: frame.get("method"@) == Some(JsonView::Str("ping"@)),
            }
        } else {
            FrameView::Unroutable
        },
        None => if frame.get("method"@) is Some {
            FrameView::Notification(frame)
        } else {
            FrameView::Unroutable
        },
    }
}

fn outcome_of(frame: &Json) -> (r: AppResult<Json>)
    ensures
        outcome_view(r) == response_outcome(frame@),
{
    match frame.get("error") {
        Some(error) => {
            let code: i64 = match error.get("code") {
                Some(c) => match c.as_i64() {
                    Some(k) => k,
                    None => 0,
                },
                None => 0,
            };
            let message = match error.get("message") {
                Some(Json::Str(m)) => m.clone(),
                _ => String::new(),
            };
            assert(message@ =~= response_outcome(frame@)->Err_0->message);
            Err(AppError::Rpc { code, message })
        },
        None => Ok(
            match frame.get("result") {
                Some(result) => result.clone(),
                None => Json::Null,
            },
        ),
    }
}

/// Sort a frame out.
pub fn classify(frame: Json) -> (r: Frame)
    ensures
        r@ == classified(frame@),
{
    let answers = frame.has("result") || frame.has("error");
    let id = match frame.get("id") {
        Some(id) => Some(id.clone()),
        None => None,
    };
    match id {
        Some(id) => if answers {
            match id.as_i64() {
                Some(k) => Frame::Response { id: k, outcome: outcome_of(&frame) },
                None => Frame::Unroutable,
            }
        } else {
            match frame.get("method") {
                Some(Json::Str(m)) => {
                    let ping = same_text(m.as_str(), "ping");
                    Frame::Request { caller: id, ping }
                },
                Some(_) => Frame::Request { caller: id, ping: false },
                None => Frame::Unroutable,
            }
        },
        None => if frame.has("method") {
            Frame::Notification(frame)
        } else {
            Frame::Unroutable
        },
    }
}

/// The answer to a request of the server's own.
pub open spec fn reply_json(id: JsonView, ping: bool) -> JsonView {
    if ping {
        result_json(id, JsonView::Object(Seq::empty()))
    } else {
        error_json(id, METHOD_NOT_FOUND, "method not supported by MCPanel"@)
    }
}

/// Answer a request of the server's own so that the server isn't left waiting:
/// a `ping` gets an empty result, anything else a polite refusal.
pub fn reply_frame(id: Json, ping: bool) -> (r: String)
    ensures
        id@.wf() ==> r@ == json::json_print(reply_json(id@, ping)),
        !r@.contains('\n'),
{
    if ping {
        proof {
            json::lemma_object_wf(Seq::empty());
        }
        result_envelope(id, Json::empty_object()).to_text()
    } else {
        error_envelope(id, METHOD_NOT_FOUND, "method not supported by MCPanel").to_text()
    }
}

/// Where a stdout event goes.
pub enum Routed {
    /// A protocol frame, for the dispatcher.
    Dispatch(Json),
    /// Not JSON-RPC, for the log buffer.
    Log(String),
    /// A dropped stdout line may have been a response; the pending request will
    /// hit its timeout. The gap is surfaced in the logs.
    Lose(u64),
}

/// Route a stdout event.
pub fn route(event: StreamEvent) -> (r: Routed)
    ensures
        match event {
            StreamEvent::Dropped(n) => r == Routed::Lose(n),
            StreamEvent::Line(line) => match frame_of(line@) {
                Some(j) => r is Dispatch && r->Dispatch_0@ == j && j.wf(),
                None => r == Routed::Log(line),
            },
        },
{
    match event {
        StreamEvent::Line(line) => match parse_frame(line.as_str()) {
            Some(frame) => Routed::Dispatch(frame),
            None => Routed::Log(line),
        },
        StreamEvent::Dropped(n) => Routed::Lose(n),
    }
}

/// `dashmap::DashMap`; what it holds is named for each use.
#[verifier::external_type_specification]
#[verifier::external_body]
#[verifier::reject_recursive_types(K)]
#[verifier::reject_recursive_types(V)]
#[verifier::reject_recursive_types(S)]
pub struct ExDashMap<K, V, S>(dashmap::DashMap<K, V, S>);

/// `tokio::sync::oneshot::Sender`; opaque.
#[verifier::external_type_specification]
#[verifier::external_body]
#[verifier::reject_recursive_types(T)]
pub struct ExOneshotSender<T>(tokio::sync::oneshot::Sender<T>);

/// Whoever waits for an answer.
pub type Waiter = tokio::sync::oneshot::Sender<AppResult<Json>>;

/// The requests that wait for an answer, by id.
pub type Pending = dashmap::DashMap<i64, Waiter>;

/// Who waits under which id.
pub uninterp spec fn waiting(pending: Pending) -> Map<i64, Waiter>;

/// Nobody waits.
pub open spec fn nobody() -> Map<i64, Waiter> {
    Map::empty()
}

/// `DashMap::new`: nobody waits.
#[verifier::external_body]
fn no_pending() -> (r: Pending)
    ensures
        waiting(r) == nobody(),
{
    dashmap::DashMap::new()
}

/// `DashMap::insert`: the waiter is under `id`, in the place of whoever was
/// there.
#[verifier::external_body]
fn await_answer(pending: &mut Pending, id: i64, waiter: Waiter)
    ensures
        waiting(*final(pending)) == waiting(*old(pending)).insert(id, waiter),
{
    pending.insert(id, waiter);
}

/// `DashMap::remove`: whoever waits under `id` is taken out and handed back.
#[verifier::external_body]
fn take_waiter(pending: &mut Pending, id: i64) -> (r: Option<Waiter>)
    ensures
        match r {
            Some(waiter) => waiting(*old(pending)).contains_key(id) && waiting(*old(pending))[id]
                == waiter,
            None => !waiting(*old(pending)).contains_key(id),
        },
        waiting(*final(pending)) == waiting(*old(pending)).remove(id),
{
    pending.remove(&id).map(|entry| entry.1)
}

/// `DashMap::iter`: every id under which somebody waits, once each, in no
/// particular order.
#[verifier::external_body]
fn waiting_ids(pending: &Pending) -> (r: Vec<i64>)
    ensures
        r@.to_set() == waiting(*pending).dom(),
        r@.no_duplicates(),
{
    pending.iter().map(|entry| *entry.key()).collect()
}

/// What became of a waiter when it was sent to: the outcome that was handed over,
/// or `None` where nobody waited any more. Sending uses the waiter up, so that
/// there is at most one such outcome.
pub uninterp spec fn told(waiter: Waiter) -> Option<Result<JsonView, ErrorView>>;

/// `tokio::sync::oneshot::Sender::send`: the outcome is handed over to whoever
/// waits, or handed back where nobody does any more. Which of these depends on
/// the receiving side.
#[verifier::external_body]
fn settle(waiter: Waiter, outcome: AppResult<Json>) -> (r: Result<(), AppResult<Json>>)
    ensures
        r is Ok ==> told(waiter) == Some(outcome_view(outcome)),
        r matches Err(back) ==> back == outcome && told(waiter) is None,
{
    waiter.send(outcome)
}

/// Correlation state of one connection: monotonic ids, who waits for which, and
/// whether the server's stdout is gone.
pub struct McpClient {
    next_id: i64,
    pending: Pending,
    closed: bool,
}

/// What became of a request that was sent.
pub enum Waited {
    /// The answer arrived.
    Answered(AppResult<Json>),
    /// The waiter was dropped without an answer.
    Dropped,
    /// The bound passed.
    TimedOut,
}

/// What a frame calls for.
pub enum Resolution {
    /// Hand the outcome to whoever waits for the request with this id.
    Answer { id: i64, waiter: Waiter, outcome: AppResult<Json> },
    /// A response for an unknown or timed-out request.
    Unknown(i64),
    /// A frame to write to the server.
    Reply(String),
    /// A notification for the UI stream.
    Notify(Json),
    Unroutable,
}

/// What the dispatcher did with a frame.
pub enum Dispatched {
    /// The pending request with this id was answered.
    Resolved(i64),
    /// The pending request with this id has its answer, but whoever made it is
    /// gone.
    Abandoned(i64),
    /// A response for an unknown or timed-out request.
    Unknown(i64),
    /// A frame to write to the server.
    Reply(String),
    /// A notification for the UI stream.
    Notify(Json),
    Unroutable,
}

/// The entries of a map, once each: every pair is one of them, and every one of
/// them is there.
pub open spec fn lists(pairs: Seq<(i64, Waiter)>, map: Map<i64, Waiter>) -> bool {
    &&& forall|i: int|
        0 <= i < pairs.len() ==> map.contains_key((#[trigger] pairs[i]).0) && map[pairs[i].0]
            == pairs[i].1
    &&& forall|id: i64| #[trigger]
        map.contains_key(id) ==> exists|i: int| 0 <= i < pairs.len() && (#[trigger] pairs[i]).0 == id
    &&& forall|i: int, j: int|
        0 <= i < j < pairs.len() ==> (#[trigger] pairs[i]).0 != (#[trigger] pairs[j]).0
}

/// What somebody is told whose connection ended.
pub open spec fn connection_closed() -> Option<Result<JsonView, ErrorView>> {
    Some(Err(ErrorView::ConnectionClosed))
}

/// The mathematical model of [`McpClient`].
#[verifier::ext_equal]
pub struct ClientView {
    /// The id that the next request gets.
    pub next: i64,
    /// The requests in flight: who waits for which id.
    pub in_flight: Map<i64, Waiter>,
    pub closed: bool,
}

impl ClientView {
    /// Ids in flight were given out, and none is in flight once the connection
    /// is closed.
    pub open spec fn wf(self) -> bool {
        &&& forall|id: i64| #[trigger] self.in_flight.contains_key(id) ==> 1 <= id < self.next
        &&& self.closed ==> self.in_flight == nobody()
        &&& self.next >= 1
    }

    /// A request begun: its maker waits under a fresh id.
    pub open spec fn begun(self, waiter: Waiter) -> ClientView {
        ClientView {
            next: (self.next + 1) as i64,
            in_flight: self.in_flight.insert(self.next, waiter),
            closed: self.closed,
        }
    }

    /// The request with this id is no longer in flight.
    pub open spec fn without(self, id: i64) -> ClientView {
        ClientView { in_flight: self.in_flight.remove(id), ..self }
    }

    /// Nothing is in flight, and nothing will be.
    pub open spec fn ended(self) -> ClientView {
        ClientView { in_flight: nobody(), closed: true, ..self }
    }

    /// What a frame from the server leaves in flight.
    pub open spec fn after(self, frame: JsonView) -> ClientView {
        match classified(frame) {
            FrameView::Response { id, .. } => self.without(id),
            _ => self,
        }
    }
}

/// Taking a request out keeps the state valid.
proof fn lemma_without(s: ClientView, id: i64)
    requires
        s.wf(),
    ensures
        s.without(id).wf(),
{
    let t = s.without(id);
    assert forall|x: i64| #[trigger] t.in_flight.contains_key(x) implies 1 <= x < t.next by {
        assert(s.in_flight.contains_key(x));
    }
    if t.closed {
        assert(t.in_flight =~= nobody());
    }
}

impl View for McpClient {
    type V = ClientView;

    closed spec fn view(&self) -> ClientView {
        ClientView {
            next: self.next_id,
            in_flight: waiting(self.pending),
            closed: self.closed,
        }
    }
}

impl McpClient {
    pub fn new() -> (r: McpClient)
        ensures
            r@ == (ClientView { next: 1, in_flight: nobody(), closed: false }),
            r@.wf(),
    {
        McpClient { next_id: 1, pending: no_pending(), closed: false }
    }

    /// Whether there is an id for another request.
    pub fn has_ids(&self) -> (r: bool)
        ensures
            r == (self@.next < i64::MAX),
    {
        self.next_id < i64::MAX
    }

    /// Begin a request: its id and the frame to write. Fails at once when the
    /// connection is closed, instead of timing out against a dead server.
    pub fn request(&mut self, method: &str, params: Json, waiter: Waiter) -> (r: AppResult<
        (i64, String),
    >)
        requires
            old(self)@.wf(),
            old(self)@.next < i64::MAX,
        ensures
            final(self)@.wf(),
            if old(self)@.closed {
                &&& r is Err
                &&& r->Err_0@ == ErrorView::ConnectionClosed
                &&& final(self)@ == old(self)@
            } else {
                &&& r is Ok
                &&& r->Ok_0.0 == old(self)@.next
                &&& params@.wf() ==> r->Ok_0.1@ == json::json_print(
                    request_json(old(self)@.next, method@, params@),
                )
                &&& !r->Ok_0.1@.contains('\n')
                &&& final(self)@ == old(self)@.begun(waiter)
            },
    {
        if self.closed {
            return Err(AppError::ConnectionClosed);
        }
        let id: i64 = self.next_id;
        self.next_id = id + 1;
        await_answer(&mut self.pending, id, waiter);
        let frame = request_frame(id, method, params);
        assert forall|x: i64| #[trigger] self@.in_flight.contains_key(x) implies 1 <= x
            < self@.next by {
            if x != id {
                assert(old(self)@.in_flight.contains_key(x));
            }
        }
        Ok((id, frame))
    }

    /// The request could not be written: nobody waits for it any more.
    pub fn unsent(&mut self, id: i64) -> (r: AppError)
        requires
            old(self)@.wf(),
        ensures
            final(self)@.wf(),
            final(self)@ == old(self)@.without(id),
            r@ == ErrorView::ConnectionClosed,
    {
        let _ = take_waiter(&mut self.pending, id);
        proof {
            lemma_without(old(self)@, id);
        }
        AppError::ConnectionClosed
    }

    /// The outcome of a request that was sent. One that timed out is no longer
    /// in flight.
    pub fn finish_request(&mut self, id: i64, method: &str, waited: Waited) -> (r: AppResult<Json>)
        requires
            old(self)@.wf(),
        ensures
            final(self)@.wf(),
            match waited {
                Waited::Answered(outcome) => r == outcome && final(self)@ == old(self)@,
                Waited::Dropped => r is Err && r->Err_0@ == ErrorView::ConnectionClosed
                    && final(self)@ == old(self)@,
                Waited::TimedOut => r is Err && r->Err_0@ == ErrorView::Timeout(method@)
                    && final(self)@ == old(self)@.without(id),
            },
    {
        match waited {
            Waited::Answered(outcome) => outcome,
            Waited::Dropped => Err(AppError::ConnectionClosed),
            Waited::TimedOut => {
                let _ = take_waiter(&mut self.pending, id);
                proof {
                    lemma_without(old(self)@, id);
                }
                Err(AppError::Timeout(method.to_owned()))
            },
        }
    }

    /// Decide on a frame from the server. A response takes the request that has
    /// its id out of those in flight, and no other; whoever made that request is
    /// to get what the response carries.
    pub fn resolve(&mut self, frame: Json) -> (r: Resolution)
        requires
            old(self)@.wf(),
        ensures
            final(self)@.wf(),
            final(self)@ == old(self)@.after(frame@),
            match classified(frame@) {
                FrameView::Response { id, outcome } => if old(self)@.in_flight.contains_key(id) {
                    &&& r is Answer
                    &&& r->id == id
                    &&& r->waiter == old(self)@.in_flight[id]
                    &&& outcome_view(r->outcome) == outcome
                } else {
                    r == Resolution::Unknown(id)
                },
                FrameView::Request { caller, ping } => {
                    &&& r is Reply
                    &&& caller.wf() ==> r->Reply_0@ == json::json_print(reply_json(caller, ping))
                    &&& !r->Reply_0@.contains('\n')
                },
                FrameView::Notification(j) => r is Notify && r->Notify_0@ == j,
                FrameView::Unroutable => r == Resolution::Unroutable,
            },
    {
        match classify(frame) {
            Frame::Response { id, outcome } => {
                let waiter = take_waiter(&mut self.pending, id);
                proof {
                    lemma_without(old(self)@, id);
                }
                match waiter {
                    Some(waiter) => Resolution::Answer { id, waiter, outcome },
                    None => Resolution::Unknown(id),
                }
            },
            Frame::Request { caller, ping } => Resolution::Reply(reply_frame(caller, ping)),
            Frame::Notification(j) => Resolution::Notify(j),
            Frame::Unroutable => Resolution::Unroutable,
        }
    }

    /// Act on a frame from the server: whoever waits for the answer is told what
    /// [`McpClient::resolve`] says.
    pub fn dispatch(&mut self, frame: Json) -> (r: Dispatched)
        requires
            old(self)@.wf(),
        ensures
            final(self)@.wf(),
            final(self)@ == old(self)@.after(frame@),
            match classified(frame@) {
                FrameView::Response { id, outcome } => if old(self)@.in_flight.contains_key(id) {
                    match told(old(self)@.in_flight[id]) {
                        Some(o) => o == outcome && r == Dispatched::Resolved(id),
                        None => r == Dispatched::Abandoned(id),
                    }
                } else {
                    r == Dispatched::Unknown(id)
                },
                FrameView::Request { caller, ping } => {
                    &&& r is Reply
                    &&& caller.wf() ==> r->Reply_0@ == json::json_print(reply_json(caller, ping))
                    &&& !r->Reply_0@.contains('\n')
                },
                FrameView::Notification(j) => r is Notify && r->Notify_0@ == j,
                FrameView::Unroutable => r == Dispatched::Unroutable,
            },
    {
        match self.resolve(frame) {
            Resolution::Answer { id, waiter, outcome } => {
                match settle(waiter, outcome) {
                    Ok(_) => Dispatched::Resolved(id),
                    Err(_) => Dispatched::Abandoned(id),
                }
            },
            Resolution::Unknown(id) => Dispatched::Unknown(id),
            Resolution::Reply(frame) => Dispatched::Reply(frame),
            Resolution::Notify(j) => Dispatched::Notify(j),
            Resolution::Unroutable => Dispatched::Unroutable,
        }
    }

    /// Nothing is in flight any more, and nothing will be: everybody who was
    /// waiting, under their ids.
    fn abandon(&mut self) -> (r: Vec<(i64, Waiter)>)
        requires
            old(self)@.wf(),
        ensures
            final(self)@.wf(),
            final(self)@ == old(self)@.ended(),
            lists(r@, old(self)@.in_flight),
    {
        let ids = waiting_ids(&self.pending);
        let ghost all = ids@;
        let ghost held = waiting(self.pending);
        let mut out: Vec<(i64, Waiter)> = Vec::new();
        let mut i: usize = 0;
        while i < ids.len()
            invariant
                i <= ids.len(),
                ids@ == all,
                all.no_duplicates(),
                all.to_set() == held.dom(),
                self.next_id == old(self).next_id,
                held == old(self)@.in_flight,
                out@.len() == i,
                forall|j: int|
                    0 <= j < i ==> (#[trigger] out@[j]).0 == all[j] && held.contains_key(all[j])
                        && out@[j].1 == held[all[j]],
                forall|id: i64|
                    #![trigger waiting(self.pending).contains_key(id)]
                    waiting(self.pending).contains_key(id) == (held.contains_key(id)
                        && !all.take(i as int).contains(id)),
                forall|id: i64| #[trigger]
                    waiting(self.pending).contains_key(id) ==> waiting(self.pending)[id] == held[id],
            decreases ids.len() - i,
        {
            let id: i64 = ids[i];
            assert(all.to_set().contains(id));
            assert(!all.take(i as int).contains(id));
            assert(all.take(i + 1) =~= all.take(i as int).push(id));
            match take_waiter(&mut self.pending, id) {
                Some(waiter) => {
                    out.push((id, waiter));
                },
                None => {},
            }
            assert forall|x: i64| #[trigger]
                waiting(self.pending).contains_key(x) == (held.contains_key(x) && !all.take(
                    i + 1,
                ).contains(x)) by {
                if all.take(i as int).contains(x) {
                    let k = all.take(i as int).index_of(x);
                    assert(all.take(i + 1)[k] == x);
                }
                assert(all.take(i + 1)[i as int] == id);
            }
            i = i + 1;
        }
        self.closed = true;
        assert(all.take(i as int) =~= all);
        assert(waiting(self.pending) =~= nobody()) by {
            assert forall|x: i64| !waiting(self.pending).contains_key(x) by {
                assert(held.dom().contains(x) == all.to_set().contains(x));
            }
        }
        assert forall|id: i64| #[trigger] held.contains_key(id) implies exists|k: int|
            0 <= k < out@.len() && (#[trigger] out@[k]).0 == id by {
            assert(all.to_set().contains(id));
            let k = all.index_of(id);
            assert(out@[k].0 == id);
        }
        out
    }

    /// The server's stdout reached its end: everybody who was waiting, each with
    /// the failure that they are to be told.
    pub fn closing(&mut self) -> (r: Vec<(i64, Waiter, AppResult<Json>)>)
        requires
            old(self)@.wf(),
        ensures
            final(self)@.wf(),
            final(self)@ == old(self)@.ended(),
            lists(r@.map_values(|t: (i64, Waiter, AppResult<Json>)| (t.0, t.1)), old(self)@.in_flight),
            forall|i: int|
                0 <= i < r@.len() ==> outcome_view((#[trigger] r@[i]).2) == Err::<
                    JsonView,
                    ErrorView,
                >(ErrorView::ConnectionClosed),
    {
        let waiters = self.abandon();
        let ghost all = waiters@;
        let ghost pair = |t: (i64, Waiter, AppResult<Json>)| (t.0, t.1);
        let mut out: Vec<(i64, Waiter, AppResult<Json>)> = Vec::new();
        for entry in iter: waiters
            invariant
                iter.seq() == all,
                pair == (|t: (i64, Waiter, AppResult<Json>)| (t.0, t.1)),
                out@.map_values(pair) =~= all.take(iter.index()),
                forall|i: int|
                    0 <= i < out@.len() ==> outcome_view((#[trigger] out@[i]).2) == Err::<
                        JsonView,
                        ErrorView,
                    >(ErrorView::ConnectionClosed),
        {
            assert(all[iter.index()] == entry);
            let ghost before = out@;
            out.push((entry.0, entry.1, Err(AppError::ConnectionClosed)));
            assert(out@.map_values(pair) =~= before.map_values(pair).push(entry));
            assert(all.take(iter.index() + 1) =~= all.take(iter.index()).push(entry));
        }
        assert(all.take(all.len() as int) =~= all);
        out
    }

    /// The server's stdout reached its end: fail all requests in flight, and
    /// everything after them. Whoever is still there is told what
    /// [`McpClient::closing`] says; hands out their ids.
    pub fn close(&mut self) -> (r: Vec<i64>)
        requires
            old(self)@.wf(),
        ensures
            final(self)@.wf(),
            final(self)@ == old(self)@.ended(),
            forall|id: i64| #[trigger]
                old(self)@.in_flight.contains_key(id) ==> {
                    ||| told(old(self)@.in_flight[id]) is None
                    ||| told(old(self)@.in_flight[id]) == connection_closed()
                },
            r@.no_duplicates(),
            forall|id: i64| #[trigger]
                r@.contains(id) == (old(self)@.in_flight.contains_key(id) && told(
                    old(self)@.in_flight[id],
                ) is Some),
    {
        let ghost held = self@.in_flight;
        let waiters = self.closing();
        let ghost all = waiters@;
        let ghost pairs = all.map_values(|t: (i64, Waiter, AppResult<Json>)| (t.0, t.1));
        let mut reached: Vec<i64> = Vec::new();
        for entry in iter: waiters
            invariant
                iter.seq() == all,
                pairs == all.map_values(|t: (i64, Waiter, AppResult<Json>)| (t.0, t.1)),
                lists(pairs, held),
                forall|i: int|
                    0 <= i < all.len() ==> Some(outcome_view((#[trigger] all[i]).2))
                        == connection_closed(),
                forall|i: int|
                    0 <= i < iter.index() ==> {
                        ||| told((#[trigger] pairs[i]).1) is None
                        ||| told(pairs[i].1) == connection_closed()
                    },
                forall|i: int|
                    0 <= i < iter.index() ==> reached@.contains((#[trigger] pairs[i]).0) == told(
                        pairs[i].1,
                    ) is Some,
                forall|x: i64| #[trigger]
                    reached@.contains(x) ==> exists|i: int|
                        0 <= i < iter.index() && (#[trigger] pairs[i]).0 == x,
                reached@.no_duplicates(),
        {
            let ghost at = iter.index();
            assert(all[at] == entry);
            assert(pairs[at] == (entry.0, entry.1));
            let ghost before = reached@;
            assert(!before.contains(entry.0));
            let (id, waiter, outcome) = entry;
            match settle(waiter, outcome) {
                Ok(_) => {
                    reached.push(id);
                    assert(reached@[before.len() as int] == id);
                    assert forall|i: int| 0 <= i < at implies reached@.contains(
                        (#[trigger] pairs[i]).0,
                    ) == before.contains(pairs[i].0) by {
                        if before.contains(pairs[i].0) {
                            let j = choose|j: int| 0 <= j < before.len() && before[j] == pairs[i].0;
                            assert(reached@[j] == pairs[i].0);
                        }
                    }
                    assert forall|x: i64| #[trigger] reached@.contains(x) implies exists|i: int|
                        0 <= i < at + 1 && (#[trigger] pairs[i]).0 == x by {
                        let j = choose|j: int| 0 <= j < reached@.len() && reached@[j] == x;
                        if j < before.len() {
                            assert(before[j] == x);
                            assert(before.contains(x));
                        } else {
                            assert(pairs[at].0 == x);
                        }
                    }
                },
                Err(_) => {},
            }
        }
        reached
    }
}

/// An answer reaches whoever asked: the maker of a request waits under the id
/// that it was given, and still does after any other request was begun and after
/// any frame that is not its answer.
pub proof fn law_an_answer_reaches_who_asked(
    s: ClientView,
    waiter: Waiter,
    other: Waiter,
    frame: JsonView,
)
    requires
        s.wf(),
        s.next < i64::MAX - 1,
        !(classified(frame) matches FrameView::Response { id, .. } && id == s.next),
    ensures
        s.begun(waiter).in_flight.contains_pair(s.next, waiter),
        s.begun(waiter).begun(other).in_flight.contains_pair(s.next, waiter),
        s.begun(waiter).after(frame).in_flight.contains_pair(s.next, waiter),
{
}

/// Ids are not given out twice: nobody waits under the next one, and no frame
/// and no answer brings an id back.
pub proof fn law_ids_are_fresh(s: ClientView, waiter: Waiter, frame: JsonView)
    requires
        s.wf(),
        s.next < i64::MAX,
    ensures
        !s.in_flight.contains_key(s.next),
        s.begun(waiter).next > s.next,
        s.after(frame).next == s.next,
{
}

/// A request is answered at most once: behind its answer nobody waits under its
/// id.
pub proof fn law_a_request_is_answered_once(s: ClientView, frame: JsonView, id: i64)
    requires
        classified(frame) matches FrameView::Response { id: k, .. } && k == id,
    ensures
        !s.after(frame).in_flight.contains_key(id),
        s.after(frame).after(frame) == s.after(frame),
{
    assert(s.after(frame).after(frame).in_flight =~= s.after(frame).in_flight);
}

proof fn lemma_words()
    ensures
        "code"@ != "message"@,
        "error"@ != "id"@,
        "error"@ != "jsonrpc"@,
        "error"@ != "method"@,
        "error"@ != "params"@,
        "error"@ != "result"@,
        "id"@ != "jsonrpc"@,
        "id"@ != "method"@,
        "id"@ != "params"@,
        "id"@ != "result"@,
        "jsonrpc"@ != "method"@,
        "jsonrpc"@ != "params"@,
        "jsonrpc"@ != "result"@,
        "method"@ != "params"@,
        "method"@ != "result"@,
        "params"@ != "result"@,
        "name"@ != "version"@,
        "capabilities"@ != "clientInfo"@,
        "capabilities"@ != "protocolVersion"@,
        "clientInfo"@ != "protocolVersion"@,
{
    reveal_strlit("code");
    reveal_strlit("message");
    reveal_strlit("error");
    reveal_strlit("id");
    reveal_strlit("jsonrpc");
    reveal_strlit("method");
    reveal_strlit("params");
    reveal_strlit("result");
    reveal_strlit("name");
    reveal_strlit("version");
    reveal_strlit("capabilities");
    reveal_strlit("clientInfo");
    reveal_strlit("protocolVersion");
    assert("error"@[0] == 'e' && "id"@[0] == 'i' && "jsonrpc"@[0] == 'j');
    assert("method"@[0] == 'm' && "params"@[0] == 'p' && "result"@[0] == 'r');
    assert("capabilities"@[1] == 'a' && "clientInfo"@[1] == 'l');
    assert("protocolVersion"@[0] == 'p' && "name"@[0] == 'n' && "version"@[0] == 'v');
    assert("code"@[0] == 'c' && "message"@[0] == 'm');
}

/// A frame with the integer `k` as its `"id"` that has a `"result"` or an
/// `"error"` answers the request with the id `k`, and no other: that request is
/// no longer in flight, every other one still is with the same maker, and the
/// ids to come are as they were.
pub proof fn law_a_response_answers_the_request_with_its_id(
    s: ClientView,
    frame: JsonView,
    n: serde_json::Number,
    k: i64,
)
    requires
        frame.get("id"@) == Some(JsonView::Number(n)),
        json::number_i64_of(n) == Some(k),
        frame.get("result"@) is Some || frame.get("error"@) is Some,
    ensures
        classified(frame) matches FrameView::Response { id, .. } && id == k,
        s.after(frame).in_flight == s.in_flight.remove(k),
        s.after(frame).next == s.next,
        s.after(frame).closed == s.closed,
{
}

/// A request stays in flight, with its maker, behind every frame that does not
/// carry its id as an integer, and behind every frame that has neither a
/// `"result"` nor an `"error"`.
pub proof fn law_only_its_own_answer_ends_a_request(s: ClientView, frame: JsonView, k: i64)
    requires
        s.in_flight.contains_key(k),
        !(frame.get("id"@) matches Some(JsonView::Number(n)) && json::number_i64_of(n) == Some(k))
            || (frame.get("result"@) is None && frame.get("error"@) is None),
    ensures
        s.after(frame).in_flight.contains_key(k),
        s.after(frame).in_flight[k] == s.in_flight[k],
{
}

/// Whoever made the request gets what the response carries: the very result,
/// where there is no error, or else the error's code and message, which are 0
/// and empty where the error does not have them as an integer and a text.
pub proof fn law_a_response_carries_its_result_or_error(
    frame: JsonView,
    n: serde_json::Number,
    k: i64,
    error: JsonView,
    code: serde_json::Number,
    c: i64,
    message: Seq<char>,
)
    requires
        frame.get("id"@) == Some(JsonView::Number(n)),
        json::number_i64_of(n) == Some(k),
    ensures
        frame.get("error"@) is None ==> (frame.get("result"@) matches Some(v) ==> classified(frame)
            == (FrameView::Response { id: k, outcome: Ok(v) })),
        frame.get("error"@) == Some(error) ==> {
            &&& classified(frame) is Response
            &&& classified(frame)->outcome matches Err(ErrorView::Rpc { code: got, message: text })
            &&& error.get("code"@) == Some(JsonView::Number(code)) && json::number_i64_of(code)
                == Some(c) ==> got == c
            &&& error.get("code"@) is None ==> got == 0
            &&& (error.get("code"@) matches Some(j) && !(j is Number)) ==> got == 0
            &&& error.get("code"@) == Some(JsonView::Number(code)) && json::number_i64_of(code)
                is None ==> got == 0
            &&& error.get("message"@) == Some(JsonView::Str(message)) ==> text == message
            &&& error.get("message"@) is None ==> text.len() == 0
            &&& (error.get("message"@) matches Some(j) && !(j is Str)) ==> text.len() == 0
        },
{
}

/// What else a frame can be. With an `"id"` and a `"method"` and no answer it is
/// a request of the server's own, a `ping` exactly where the method is that
/// text; without an `"id"` and with a `"method"` it is a notification, handed on
/// as it is. A response whose `"id"` is no integer, a frame with neither an
/// answer nor a method, and an answer without an `"id"` go nowhere.
pub proof fn law_requests_and_notifications_are_told_apart(frame: JsonView)
    ensures
        (frame.get("result"@) is None && frame.get("error"@) is None) ==> (frame.get("id"@) matches Some(
            id,
        ) ==> (frame.get("method"@) matches Some(m) ==> classified(frame) == (FrameView::Request {
            caller: id,
            ping: m == JsonView::Str("ping"@),
        }))),
        frame.get("id"@) is None && frame.get("method"@) is Some ==> classified(frame)
            == FrameView::Notification(frame),
        frame.get("id"@) is None && frame.get("method"@) is None ==> classified(frame)
            == FrameView::Unroutable,
        frame.get("result"@) is None && frame.get("error"@) is None && frame.get("method"@) is None
            ==> classified(frame) == FrameView::Unroutable,
        (frame.get("result"@) is Some || frame.get("error"@) is Some) ==> ((frame.get("id"@) matches Some(
            id,
        ) && !(id matches JsonView::Number(n) && json::number_i64_of(n) is Some)) ==> classified(
            frame,
        ) == FrameView::Unroutable),
{
}

/// A request of the server's own is answered under its own id: a `ping` with an
/// empty result and no error, anything else with the error for a method that is
/// not supported and no result.
pub proof fn law_the_server_gets_its_answer(id: JsonView)
    ensures
        reply_json(id, true).get("id"@) == Some(id),
        reply_json(id, true).get("jsonrpc"@) == Some(JsonView::Str("2.0"@)),
        reply_json(id, true).get("result"@) == Some(JsonView::Object(Seq::empty())),
        reply_json(id, true).get("error"@) is None,
        reply_json(id, false).get("id"@) == Some(id),
        reply_json(id, false).get("jsonrpc"@) == Some(JsonView::Str("2.0"@)),
        reply_json(id, false).get("result"@) is None,
        reply_json(id, false).get("error"@) matches Some(error) && {
            &&& error.get("code"@) == Some(JsonView::Number(json::number_of_i64((-32601) as i64)))
            &&& error.get("message"@) == Some(JsonView::Str("method not supported by MCPanel"@))
        },
{
    lemma_words();
    let ok = reply_json(id, true)->Object_0;
    assert(ok[0].0 == "id"@ && ok[1].0 == "jsonrpc"@ && ok[2].0 == "result"@);
    json::law_members_are_found_by_name(ok, "id"@);
    json::law_members_are_found_by_name(ok, "jsonrpc"@);
    json::law_members_are_found_by_name(ok, "result"@);
    json::law_members_are_found_by_name(ok, "error"@);
    let no = reply_json(id, false)->Object_0;
    assert(no[0].0 == "error"@ && no[1].0 == "id"@ && no[2].0 == "jsonrpc"@);
    json::law_members_are_found_by_name(no, "id"@);
    json::law_members_are_found_by_name(no, "jsonrpc"@);
    json::law_members_are_found_by_name(no, "result"@);
    json::law_members_are_found_by_name(no, "error"@);
    let error = no[0].1->Object_0;
    assert(error[0].0 == "code"@ && error[1].0 == "message"@);
    json::law_members_are_found_by_name(error, "code"@);
    json::law_members_are_found_by_name(error, "message"@);
}

/// A request goes out with its id, its method and its parameters, a notification
/// with the same but for the id, and neither with anything else.
pub proof fn law_frames_carry_what_is_asked(id: i64, method: Seq<char>, params: JsonView)
    ensures
        ({
            let j = request_json(id, method, params);
            &&& j.get("jsonrpc"@) == Some(JsonView::Str("2.0"@))
            &&& j.get("id"@) == Some(JsonView::Number(json::number_of_i64(id)))
            &&& j.get("method"@) == Some(JsonView::Str(method))
            &&& j.get("params"@) == Some(params)
            &&& j->Object_0.len() == 4
        }),
        ({
            let j = notification_json(method, params);
            &&& j.get("jsonrpc"@) == Some(JsonView::Str("2.0"@))
            &&& j.get("id"@) is None
            &&& j.get("method"@) == Some(JsonView::Str(method))
            &&& j.get("params"@) == Some(params)
            &&& j->Object_0.len() == 3
        }),
{
    lemma_words();
    let q = request_json(id, method, params)->Object_0;
    assert(q[0].0 == "id"@ && q[1].0 == "jsonrpc"@ && q[2].0 == "method"@ && q[3].0 == "params"@);
    json::law_members_are_found_by_name(q, "jsonrpc"@);
    json::law_members_are_found_by_name(q, "id"@);
    json::law_members_are_found_by_name(q, "method"@);
    json::law_members_are_found_by_name(q, "params"@);
    let n = notification_json(method, params)->Object_0;
    assert(n[0].0 == "jsonrpc"@ && n[1].0 == "method"@ && n[2].0 == "params"@);
    json::law_members_are_found_by_name(n, "jsonrpc"@);
    json::law_members_are_found_by_name(n, "id"@);
    json::law_members_are_found_by_name(n, "method"@);
    json::law_members_are_found_by_name(n, "params"@);
}

/// The other side of a request: what the panel asks of a server is a request to
/// whoever sorts it out by the same rules, under the id that was given out, and
/// the answer under that id resolves it with the very result.
pub proof fn law_an_answer_in_kind_resolves_the_request(
    s: ClientView,
    waiter: Waiter,
    method: Seq<char>,
    params: JsonView,
    result: JsonView,
)
    requires
        s.wf(),
        s.next < i64::MAX,
    ensures
        json::number_i64_of(json::number_of_i64(s.next)) == Some(s.next) ==> ({
            let asked = request_json(s.next, method, params);
            let answer = result_json(asked.get("id"@)->0, result);
            &&& classified(asked) is Request
            &&& classified(asked)->caller == asked.get("id"@)->0
            &&& classified(answer) == (FrameView::Response { id: s.next, outcome: Ok(result) })
            &&& s.begun(waiter).in_flight.contains_pair(s.next, waiter)
            &&& s.begun(waiter).after(answer).in_flight == s.in_flight
            &&& s.begun(waiter).after(answer).next == s.next + 1
        }),
{
    lemma_words();
    law_frames_carry_what_is_asked(s.next, method, params);
    let q = request_json(s.next, method, params)->Object_0;
    assert(q[0].0 == "id"@ && q[1].0 == "jsonrpc"@ && q[2].0 == "method"@ && q[3].0 == "params"@);
    json::law_members_are_found_by_name(q, "result"@);
    json::law_members_are_found_by_name(q, "error"@);
    let id = JsonView::Number(json::number_of_i64(s.next));
    let a = result_json(id, result)->Object_0;
    assert(a[0].0 == "id"@ && a[1].0 == "jsonrpc"@ && a[2].0 == "result"@);
    json::law_members_are_found_by_name(a, "id"@);
    json::law_members_are_found_by_name(a, "result"@);
    json::law_members_are_found_by_name(a, "error"@);
    assert(s.begun(waiter).in_flight.remove(s.next) =~= s.in_flight);
}

/// The panel introduces itself with its version of the protocol, its name and no
/// capabilities, and ends the handshake with the notification that it is
/// initialized.
pub proof fn law_the_panel_introduces_itself()
    ensures
        initialize_json().get("protocolVersion"@) == Some(JsonView::Str("2025-06-18"@)),
        initialize_json().get("capabilities"@) == Some(JsonView::Object(Seq::empty())),
        initialize_json().get("clientInfo"@) matches Some(info) && {
            &&& info.get("name"@) == Some(JsonView::Str("mcpanel"@))
            &&& info.get("version"@) == Some(JsonView::Str("0.1.0"@))
        },
        exists|j: JsonView| #[trigger]
            json::json_print(j) == initialized_text() && j.get("method"@) == Some(
                JsonView::Str("notifications/initialized"@),
            ) && j.get("jsonrpc"@) == Some(JsonView::Str("2.0"@)) && j.get("id"@) is None,
{
    lemma_words();
    let p = initialize_json()->Object_0;
    assert(p[0].0 == "capabilities"@ && p[1].0 == "clientInfo"@ && p[2].0 == "protocolVersion"@);
    json::law_members_are_found_by_name(p, "protocolVersion"@);
    json::law_members_are_found_by_name(p, "capabilities"@);
    json::law_members_are_found_by_name(p, "clientInfo"@);
    let info = p[1].1->Object_0;
    assert(info[0].0 == "name"@ && info[1].0 == "version"@);
    json::law_members_are_found_by_name(info, "name"@);
    json::law_members_are_found_by_name(info, "version"@);
    let method = "notifications/initialized"@;
    law_frames_carry_what_is_asked(0, method, JsonView::Object(Seq::empty()));
    let j = notification_json(method, JsonView::Object(Seq::empty()));
    assert(json::json_print(j) == initialized_text());
}

/// The handshake succeeds exactly with a server that names one of the three
/// revisions of the protocol that the panel speaks, and keeps what the server
/// said of itself, with an empty object for what it left out. Any other server
/// is refused with the revision it named, or with none.
pub proof fn law_the_handshake_asks_for_a_known_revision(result: JsonView, v: Seq<char>)
    requires
        match result.get("protocolVersion"@) {
            Some(JsonView::Str(named)) => v == named,
            _ => v.len() == 0,
        },
    ensures
        handshake_result(result) is Ok <==> (v == "2024-11-05"@ || v == "2025-03-26"@ || v
            == "2025-06-18"@),
        handshake_result(result) matches Ok(h) ==> {
            &&& h.protocol_version == v
            &&& result.get("capabilities"@) matches Some(j) ==> h.capabilities == j
            &&& result.get("capabilities"@) is None ==> h.capabilities == JsonView::Object(
                Seq::empty(),
            )
            &&& result.get("serverInfo"@) matches Some(j) ==> h.server_info == j
            &&& result.get("serverInfo"@) is None ==> h.server_info == JsonView::Object(
                Seq::empty(),
            )
        },
        handshake_result(result) matches Err(e) ==> e == ErrorView::Handshake(
            "unsupported protocol version: "@ + v,
        ),
{
    reveal_strlit("2024-11-05");
    reveal_strlit("2025-03-26");
    reveal_strlit("2025-06-18");
    if v.len() == 0 {
        assert(v =~= Seq::empty());
    }
    assert(version_of(result) =~= v);
}

/// A line that parses to an object with `"jsonrpc"` is that frame; one that does
/// not, but does from its first `{` on, is the frame that begins there, whatever
/// stands before it. Any other line is no frame.
pub proof fn law_frames_are_found_behind_garbage(p: Seq<char>, t: Seq<char>)
    requires
        !p.contains('{'),
    ensures
        ({
            let line = p + seq!['{'] + t;
            let from = seq!['{'] + t;
            let whole = json::json_text(line) matches Ok(j) && j.get("jsonrpc"@) is Some;
            let rest = json::json_text(from) matches Ok(j) && j.get("jsonrpc"@) is Some;
            &&& whole ==> frame_of(line) == Some(json::json_text(line)->Ok_0)
            &&& !whole && rest ==> frame_of(line) == Some(json::json_text(from)->Ok_0)
            &&& !whole && !rest ==> frame_of(line) is None
        }),
        (json::json_text(p) matches Ok(j) ==> j.get("jsonrpc"@) is None) ==> frame_of(p) is None,
{
    stream::law_the_payload_begins_at_the_first_brace(p, t);
}

/// Ids are given out one after the other, each to the maker of its request, and
/// the end of the connection leaves nobody waiting.
pub proof fn law_ids_go_up_by_one(s: ClientView, a: Waiter, b: Waiter, id: i64)
    requires
        s.wf(),
        s.next < i64::MAX - 1,
    ensures
        s.begun(a).next == s.next + 1,
        s.begun(a).begun(b).in_flight == s.in_flight.insert(s.next, a).insert(
            (s.next + 1) as i64,
            b,
        ),
        s.begun(a).closed == s.closed,
        s.ended().closed,
        !s.ended().in_flight.contains_key(id),
        s.ended().next == s.next,
        s.without(id).in_flight == s.in_flight.remove(id),
        s.without(id).next == s.next,
        s.without(id).closed == s.closed,
{
}

/// An answer is carried under the id it is for: a result as it is, an error with
/// its code and message, and never both.
pub proof fn law_envelopes_carry_the_answer(
    id: JsonView,
    result: JsonView,
    code: i64,
    message: Seq<char>,
)
    ensures
        result_json(id, result).get("id"@) == Some(id),
        result_json(id, result).get("result"@) == Some(result),
        result_json(id, result).get("error"@) is None,
        result_json(id, result).get("jsonrpc"@) == Some(JsonView::Str("2.0"@)),
        error_json(id, code, message).get("id"@) == Some(id),
        error_json(id, code, message).get("result"@) is None,
        error_json(id, code, message).get("jsonrpc"@) == Some(JsonView::Str("2.0"@)),
        error_json(id, code, message).get("error"@) matches Some(error) && error.get("code"@)
            == Some(JsonView::Number(json::number_of_i64(code))) && error.get("message"@) == Some(
            JsonView::Str(message),
        ),
{
    lemma_words();
    let ok = result_json(id, result)->Object_0;
    assert(ok[0].0 == "id"@ && ok[1].0 == "jsonrpc"@ && ok[2].0 == "result"@);
    json::law_members_are_found_by_name(ok, "id"@);
    json::law_members_are_found_by_name(ok, "jsonrpc"@);
    json::law_members_are_found_by_name(ok, "result"@);
    json::law_members_are_found_by_name(ok, "error"@);
    let no = error_json(id, code, message)->Object_0;
    assert(no[0].0 == "error"@ && no[1].0 == "id"@ && no[2].0 == "jsonrpc"@);
    json::law_members_are_found_by_name(no, "id"@);
    json::law_members_are_found_by_name(no, "jsonrpc"@);
    json::law_members_are_found_by_name(no, "result"@);
    json::law_members_are_found_by_name(no, "error"@);
    let error = no[0].1->Object_0;
    assert(error[0].0 == "code"@ && error[1].0 == "message"@);
    json::law_members_are_found_by_name(error, "code"@);
    json::law_members_are_found_by_name(error, "message"@);
}

/// A request and its answer: what is told to the maker of a request, if they are
/// still there, is the very result in the frame that carries the id which the
/// request was begun under; the request is resolved then, and no other.
pub proof fn law_the_maker_is_told_the_result(
    asking: &mut McpClient,
    answering: &mut McpClient,
    method: &str,
    params: Json,
    waiter: Waiter,
    id: i64,
    sent: String,
    frame: Json,
    n: serde_json::Number,
    result: JsonView,
    r: Dispatched,
)
    requires
        old(asking)@.wf(),
        call_ensures(
            McpClient::request,
            (asking, method, params, waiter),
            Ok::<(i64, String), AppError>((id, sent)),
        ),
        final(asking)@ == old(answering)@,
        frame@.get("id"@) == Some(JsonView::Number(n)),
        json::number_i64_of(n) == Some(id),
        frame@.get("error"@) is None,
        frame@.get("result"@) == Some(result),
        call_ensures(McpClient::dispatch, (answering, frame), r),
    ensures
        id == old(asking)@.next,
        params@.wf() ==> sent@ == json::json_print(request_json(id, method@, params@)),
        told(waiter) matches Some(outcome) ==> outcome == Ok::<JsonView, ErrorView>(result) && r
            == Dispatched::Resolved(id),
        told(waiter) is None ==> r == Dispatched::Abandoned(id),
        final(answering)@.in_flight == old(asking)@.in_flight,
{
    assert(old(answering)@.in_flight.remove(id) =~= old(asking)@.in_flight);
}

/// An answer to a request that is not in flight reaches nobody, and changes
/// nothing.
pub proof fn law_a_late_answer_reaches_nobody(
    client: &mut McpClient,
    frame: Json,
    n: serde_json::Number,
    id: i64,
    r: Dispatched,
)
    requires
        frame@.get("id"@) == Some(JsonView::Number(n)),
        json::number_i64_of(n) == Some(id),
        frame@.get("result"@) is Some || frame@.get("error"@) is Some,
        !old(client)@.in_flight.contains_key(id),
        call_ensures(McpClient::dispatch, (client, frame), r),
    ensures
        r == Dispatched::Unknown(id),
        final(client)@.in_flight == old(client)@.in_flight,
{
    assert(old(client)@.in_flight.remove(id) =~= old(client)@.in_flight);
}

/// On a closed connection a request fails at once and begins nothing.
pub proof fn law_a_closed_connection_fails_fast(
    client: &mut McpClient,
    method: &str,
    params: Json,
    waiter: Waiter,
    r: AppResult<(i64, String)>,
)
    requires
        old(client)@.closed,
        call_ensures(McpClient::request, (client, method, params, waiter), r),
    ensures
        r matches Err(e) && e@ == ErrorView::ConnectionClosed,
        final(client)@ == old(client)@,
{
}

/// A request ends as the wait for it ended: with the answer as it came, with the
/// connection where nobody can answer any more, or with a timeout that names the
/// method, after which nobody waits for it.
pub proof fn law_a_request_ends_as_the_wait_for_it(
    client: &mut McpClient,
    id: i64,
    method: &str,
    waited: Waited,
    r: AppResult<Json>,
)
    requires
        call_ensures(McpClient::finish_request, (client, id, method, waited), r),
    ensures
        waited matches Waited::Answered(outcome) ==> r == outcome && final(client)@ == old(client)@,
        waited is Dropped ==> (r matches Err(e) && e@ == ErrorView::ConnectionClosed),
        waited is TimedOut ==> (r matches Err(e) && e@ == ErrorView::Timeout(method@)) && !final(client)@.in_flight.contains_key(id),
{
}

/// The end of the connection fails every request in flight with its end, each
/// once, and no other.
pub proof fn law_the_end_fails_everybody(
    client: &mut McpClient,
    failing: Vec<(i64, Waiter, AppResult<Json>)>,
    id: i64,
)
    requires
        call_ensures(McpClient::closing, (client,), failing),
    ensures
        old(client)@.in_flight.contains_key(id) <==> exists|i: int|
            0 <= i < failing@.len() && (#[trigger] failing@[i]).0 == id,
        forall|i: int|
            0 <= i < failing@.len() ==> (#[trigger] failing@[i]).1 == old(client)@.in_flight[failing@[i].0] && (failing@[i].2 matches Err(e) && e@
                == ErrorView::ConnectionClosed),
        !final(client)@.in_flight.contains_key(id),
        final(client)@.closed,
{
    let f = |t: (i64, Waiter, AppResult<Json>)| (t.0, t.1);
    let pairs = failing@.map_values(f);
    let held = old(client)@.in_flight;
    assert forall|i: int| 0 <= i < failing@.len() implies (#[trigger] failing@[i]).1
        == held[failing@[i].0] && held.contains_key(failing@[i].0) && (failing@[i].2 matches Err(
        e,
    ) && e@ == ErrorView::ConnectionClosed) by {
        assert(pairs[i] == (failing@[i].0, failing@[i].1));
        assert(outcome_view(failing@[i].2) is Err);
    }
    if held.contains_key(id) {
        let i = choose|i: int| 0 <= i < pairs.len() && (#[trigger] pairs[i]).0 == id;
        assert(failing@[i].0 == id);
    }
}

/// A line of the server's output goes to the dispatcher where it is a frame, and
/// otherwise to the log as it is; a gap stays a gap of its size.
pub proof fn law_no_output_is_lost(line: String, n: u64, routed: Routed, gap: Routed)
    requires
        call_ensures(route, (StreamEvent::Line(line),), routed),
        call_ensures(route, (StreamEvent::Dropped(n),), gap),
    ensures
        gap == Routed::Lose(n),
        (json::json_text(line@) matches Ok(j) && j.get("jsonrpc"@) is Some) ==> routed is Dispatch
            && routed->Dispatch_0@ == json::json_text(line@)->Ok_0,
        routed is Dispatch || routed == Routed::Log(line),
        (!line@.contains('{') && (json::json_text(line@) matches Ok(j) ==> j.get("jsonrpc"@)
            is None)) ==> routed == Routed::Log(line),
{
    if !line@.contains('{') {
        law_frames_are_found_behind_garbage(line@, Seq::empty());
    }
}

/// A gap in the notifications tells of as many as were lost, and a notification
/// of itself.
pub proof fn law_a_gap_tells_how_many_are_lost(lost: u64, frame: Json)
    ensures
        <NotificationEvent as GapEvent>::gap(lost) == NotificationEvent::Gap(lost),
        NotificationEvent::Gap(lost).tells_of() == lost,
        NotificationEvent::Frame(frame).tells_of() == 1,
        <StreamEvent as GapEvent>::gap(lost) == StreamEvent::Dropped(lost),
        StreamEvent::Dropped(lost).tells_of() == lost,
{
}

/// A handshake ends with what the server said and the notification that is due,
/// or with the refusal; a failure to get an answer stays what it is.
pub proof fn law_a_handshake_ends_as_answered(
    result: Json,
    r: AppResult<(ServerHandshake, String)>,
    e: AppError,
    failed: AppResult<(ServerHandshake, String)>,
)
    requires
        call_ensures(handshake, (Ok(result),), r),
        call_ensures(handshake, (Err(e),), failed),
    ensures
        failed == Err::<(ServerHandshake, String), AppError>(e),
        r matches Ok((h, frame)) ==> {
            &&& result@.get("protocolVersion"@) == Some(JsonView::Str(h.protocol_version@))
            &&& h.protocol_version@ == "2024-11-05"@ || h.protocol_version@ == "2025-03-26"@
                || h.protocol_version@ == "2025-06-18"@
            &&& result@.get("capabilities"@) matches Some(j) ==> h.capabilities@ == j
            &&& result@.get("serverInfo"@) matches Some(j) ==> h.server_info@ == j
            &&& frame@ == initialized_text()
        },
        r matches Err(x) ==> x@ is Handshake,
        result@.get("protocolVersion"@) matches Some(JsonView::Str(v)) ==> (v == "2024-11-05"@ || v
            == "2025-03-26"@ || v == "2025-06-18"@ ==> r is Ok),
{
    reveal_strlit("2024-11-05");
    reveal_strlit("2025-03-26");
    reveal_strlit("2025-06-18");
    let v = version_of(result@);
    law_the_handshake_asks_for_a_known_revision(result@, v);
    assert("2024-11-05"@.len() == 10 && "2025-03-26"@.len() == 10 && "2025-06-18"@.len() == 10);
}

} // verus!
