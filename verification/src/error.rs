//! The single error funnel: infrastructure failures arrive as text, domain
//! failures as explicit variants.

use vstd::prelude::*;

use crate::json;
use crate::json::{member, Json, JsonView};
use crate::text;
use crate::text::{concat, i64_text};

verus! {

broadcast use vstd::string::group_string_axioms;

pub type AppResult<T> = Result<T, AppError>;

/// Everything that can go wrong, as the caller sees it.
#[derive(Debug, PartialEq)]
pub enum AppError {
    /// The server has no record, or is not running where a running one is needed.
    ServerNotFound(String),
    /// The MCP handshake did not succeed.
    Handshake(String),
    /// An operation outlived its bound.
    Timeout(String),
    /// The caller did not authenticate.
    Unauthorized,
    /// The server answered with a JSON-RPC error.
    Rpc { code: i64, message: String },
    /// The server's pipe is gone.
    ConnectionClosed,
    /// The caller's input was rejected.
    InvalidInput(String),
    /// The request collides with what exists.
    Conflict(String),
    /// One of the panel's own tasks died.
    Internal(String),
    /// An I/O failure.
    Io(String),
    /// A database failure.
    Db(String),
    /// A text that is not the JSON it should be.
    Json(String),
    /// A credential store failure.
    Keyring(String),
}

/// The mathematical model of an [`AppError`].
#[verifier::ext_equal]
pub enum ErrorView {
    ServerNotFound(Seq<char>),
    Handshake(Seq<char>),
    Timeout(Seq<char>),
    Unauthorized,
    Rpc { code: i64, message: Seq<char> },
    ConnectionClosed,
    InvalidInput(Seq<char>),
    Conflict(Seq<char>),
    Internal(Seq<char>),
    Io(Seq<char>),
    Db(Seq<char>),
    Json(Seq<char>),
    Keyring(Seq<char>),
}

impl View for AppError {
    type V = ErrorView;

    open spec fn view(&self) -> ErrorView {
        match *self {
            AppError::ServerNotFound(text) => ErrorView::ServerNotFound(text@),
            AppError::Handshake(text) => ErrorView::Handshake(text@),
            AppError::Timeout(text) => ErrorView::Timeout(text@),
            AppError::Unauthorized => ErrorView::Unauthorized,
            AppError::Rpc { code, message } => ErrorView::Rpc { code, message: message@ },
            AppError::ConnectionClosed => ErrorView::ConnectionClosed,
            AppError::InvalidInput(text) => ErrorView::InvalidInput(text@),
            AppError::Conflict(text) => ErrorView::Conflict(text@),
            AppError::Internal(text) => ErrorView::Internal(text@),
            AppError::Io(text) => ErrorView::Io(text@),
            AppError::Db(text) => ErrorView::Db(text@),
            AppError::Json(text) => ErrorView::Json(text@),
            AppError::Keyring(text) => ErrorView::Keyring(text@),
        }
    }
}

impl ErrorView {
    /// The stable machine-readable code.
    pub open spec fn code(self) -> Seq<char> {
        match self {
            ErrorView::ServerNotFound(_) => "server_not_found"@,
            ErrorView::Handshake(_) => "handshake"@,
            ErrorView::Timeout(_) => "timeout"@,
            ErrorView::Unauthorized => "unauthorized"@,
            ErrorView::Rpc { .. } => "rpc"@,
            ErrorView::ConnectionClosed => "connection_closed"@,
            ErrorView::InvalidInput(_) => "invalid_input"@,
            ErrorView::Conflict(_) => "conflict"@,
            ErrorView::Internal(_) => "internal"@,
            ErrorView::Io(_) => "io"@,
            ErrorView::Db(_) => "db"@,
            ErrorView::Json(_) => "json"@,
            ErrorView::Keyring(_) => "keyring"@,
        }
    }

    /// The HTTP status.
    pub open spec fn status(self) -> u16 {
        match self {
            ErrorView::ServerNotFound(_) => 404,
            ErrorView::Handshake(_) => 502,
            ErrorView::Timeout(_) => 504,
            ErrorView::Unauthorized => 401,
            ErrorView::Rpc { .. } => 502,
            ErrorView::ConnectionClosed => 502,
            ErrorView::InvalidInput(_) => 400,
            ErrorView::Conflict(_) => 409,
            ErrorView::Internal(_) => 500,
            ErrorView::Io(_) => 500,
            ErrorView::Db(_) => 500,
            ErrorView::Json(_) => 502,
            ErrorView::Keyring(_) => 500,
        }
    }

    /// The human-readable message.
    pub open spec fn message(self) -> Seq<char> {
        match self {
            ErrorView::ServerNotFound(text) => "server not found: "@ + text,
            ErrorView::Handshake(text) => "MCP handshake failed: "@ + text,
            ErrorView::Timeout(text) => "operation timed out: "@ + text,
            ErrorView::Unauthorized => "unauthorized"@,
            ErrorView::Rpc { code, message } => "JSON-RPC error "@ + text::decimal(code as int) + ": "@
                + message,
            ErrorView::ConnectionClosed => "server connection closed"@,
            ErrorView::InvalidInput(text) => "invalid input: "@ + text,
            ErrorView::Conflict(text) => "conflict: "@ + text,
            ErrorView::Internal(text) => "internal error: "@ + text,
            ErrorView::Io(text) => "I/O error: "@ + text,
            ErrorView::Db(text) => "database error: "@ + text,
            ErrorView::Json(text) => "JSON error: "@ + text,
            ErrorView::Keyring(text) => "credential store error: "@ + text,
        }
    }

    /// What goes over the wire: the code and the message, and nothing else.
    pub open spec fn json(self) -> JsonView {
        JsonView::Object(
            seq![
                ("code"@, JsonView::Str(self.code())),
                ("message"@, JsonView::Str(self.message())),
            ],
        )
    }
}

impl AppError {
    /// Stable machine-readable code; the frontend matches on this, never on
    /// the human-readable message.
    pub fn code(&self) -> (r: &'static str)
        ensures
            r@ == self@.code(),
    {
        match self {
            AppError::ServerNotFound(_) => "server_not_found",
            AppError::Handshake(_) => "handshake",
            AppError::Timeout(_) => "timeout",
            AppError::Unauthorized => "unauthorized",
            AppError::Rpc { .. } => "rpc",
            AppError::ConnectionClosed => "connection_closed",
            AppError::InvalidInput(_) => "invalid_input",
            AppError::Conflict(_) => "conflict",
            AppError::Internal(_) => "internal",
            AppError::Io(_) => "io",
            AppError::Db(_) => "db",
            AppError::Json(_) => "json",
            AppError::Keyring(_) => "keyring",
        }
    }

    /// The HTTP status a gateway answers with. The child MCP server is the
    /// gateway's upstream, so what it does wrong is a bad gateway.
    pub fn status(&self) -> (r: u16)
        ensures
            r == self@.status(),
    {
        match self {
            AppError::ServerNotFound(_) => 404,
            AppError::Handshake(_) => 502,
            AppError::Timeout(_) => 504,
            AppError::Unauthorized => 401,
            AppError::Rpc { .. } => 502,
            AppError::ConnectionClosed => 502,
            AppError::InvalidInput(_) => 400,
            AppError::Conflict(_) => 409,
            AppError::Internal(_) => 500,
            AppError::Io(_) => 500,
            AppError::Db(_) => 500,
            AppError::Json(_) => 502,
            AppError::Keyring(_) => 500,
        }
    }

    /// The human-readable message.
    pub fn message(&self) -> (r: String)
        ensures
            r@ == self@.message(),
    {
        match self {
            AppError::ServerNotFound(text) => concat("server not found: ", text.as_str()),
            AppError::Handshake(text) => concat("MCP handshake failed: ", text.as_str()),
            AppError::Timeout(text) => concat("operation timed out: ", text.as_str()),
            AppError::Unauthorized => "unauthorized".to_owned(),
            AppError::Rpc { code, message } => {
                let number = i64_text(*code);
                let head = concat("JSON-RPC error ", number.as_str());
                let head = concat(head.as_str(), ": ");
                concat(head.as_str(), message.as_str())
            },
            AppError::ConnectionClosed => "server connection closed".to_owned(),
            AppError::InvalidInput(text) => concat("invalid input: ", text.as_str()),
            AppError::Conflict(text) => concat("conflict: ", text.as_str()),
            AppError::Internal(text) => concat("internal error: ", text.as_str()),
            AppError::Io(text) => concat("I/O error: ", text.as_str()),
            AppError::Db(text) => concat("database error: ", text.as_str()),
            AppError::Json(text) => concat("JSON error: ", text.as_str()),
            AppError::Keyring(text) => concat("credential store error: ", text.as_str()),
        }
    }

    /// The wire shape: `{"code": .., "message": ..}`.
    pub fn to_json(&self) -> (r: Json)
        ensures
            r@ == self@.json(),
            r@.wf(),
    {
        broadcast use json::group_json_views;

        let mut members: Vec<(String, Json)> = Vec::new();
        members.push(member("code", Json::string(self.code())));
        let message = self.message();
        members.push(member("message", Json::Str(message)));
        proof {
            lemma_error_names();
            assert(json::entries_view(members@) =~= self@.json()->Object_0);
            json::lemma_object_wf(self@.json()->Object_0);
        }
        Json::Object(members)
    }
}

proof fn lemma_error_names()
    ensures
        text::text_lt("code"@, "message"@),
{
    reveal_strlit("code");
    reveal_strlit("message");
}

/// A failure is told by its code, and its message by what it is about: whoever
/// reads the one can tell the kind, and the other ends in the particulars.
pub proof fn law_failures_say_what_they_are(t: Seq<char>, code: i64)
    ensures
        ErrorView::ServerNotFound(t).message() == "server not found: "@ + t,
        ErrorView::Handshake(t).message() == "MCP handshake failed: "@ + t,
        ErrorView::Timeout(t).message() == "operation timed out: "@ + t,
        ErrorView::InvalidInput(t).message() == "invalid input: "@ + t,
        ErrorView::Conflict(t).message() == "conflict: "@ + t,
        ErrorView::Internal(t).message() == "internal error: "@ + t,
        ErrorView::Io(t).message() == "I/O error: "@ + t,
        ErrorView::Db(t).message() == "database error: "@ + t,
        ErrorView::Json(t).message() == "JSON error: "@ + t,
        ErrorView::Keyring(t).message() == "credential store error: "@ + t,
        (ErrorView::Rpc { code, message: t }).message() == "JSON-RPC error "@ + text::decimal(
            code as int,
        ) + ": "@ + t,
        ErrorView::Unauthorized.message() == "unauthorized"@,
        ErrorView::ConnectionClosed.message() == "server connection closed"@,
{
}

/// The status tells whose fault a failure is: 4xx the caller's, and which; 502
/// and 504 the server's behind the gateway; 500 the panel's own.
pub proof fn law_statuses_tell_whose_fault_it_is(e: ErrorView)
    ensures
        e is Unauthorized <==> e.status() == 401,
        e is ServerNotFound <==> e.status() == 404,
        e is Conflict <==> e.status() == 409,
        e is InvalidInput <==> e.status() == 400,
        e is Timeout <==> e.status() == 504,
        (e is Handshake || e is Rpc || e is ConnectionClosed || e is Json) <==> e.status() == 502,
        (e is Internal || e is Io || e is Db || e is Keyring) <==> e.status() == 500,
{
}

/// The code of a failure is the one that callers know its kind by.
pub proof fn law_codes_tell_the_kind(e: ErrorView)
    ensures
        e is ServerNotFound ==> e.code() == "server_not_found"@,
        e is Handshake ==> e.code() == "handshake"@,
        e is Timeout ==> e.code() == "timeout"@,
        e is Unauthorized ==> e.code() == "unauthorized"@,
        e is Rpc ==> e.code() == "rpc"@,
        e is ConnectionClosed ==> e.code() == "connection_closed"@,
        e is InvalidInput ==> e.code() == "invalid_input"@,
        e is Conflict ==> e.code() == "conflict"@,
        e is Internal ==> e.code() == "internal"@,
        e is Io ==> e.code() == "io"@,
        e is Db ==> e.code() == "db"@,
        e is Json ==> e.code() == "json"@,
        e is Keyring ==> e.code() == "keyring"@,
{
}

/// Over the wire goes the code and the message of a failure, and nothing else.
pub proof fn law_the_wire_carries_code_and_message(e: ErrorView)
    ensures
        e.json().get("code"@) == Some(JsonView::Str(e.code())),
        e.json().get("message"@) == Some(JsonView::Str(e.message())),
        e.json()->Object_0.len() == 2,
{
    reveal_strlit("code");
    reveal_strlit("message");
    let m = e.json()->Object_0;
    assert("code"@[0] == 'c' && "message"@[0] == 'm');
    assert(m[0].0 == "code"@ && m[1].0 == "message"@);
    json::law_members_are_found_by_name(m, "code"@);
    json::law_members_are_found_by_name(m, "message"@);
}

/// Every failure is seen as what it is, with its very text.
pub proof fn law_failures_are_seen_as_they_are(t: String, code: i64)
    ensures
        AppError::ServerNotFound(t)@ == ErrorView::ServerNotFound(t@),
        AppError::Handshake(t)@ == ErrorView::Handshake(t@),
        AppError::Timeout(t)@ == ErrorView::Timeout(t@),
        AppError::InvalidInput(t)@ == ErrorView::InvalidInput(t@),
        AppError::Conflict(t)@ == ErrorView::Conflict(t@),
        AppError::Internal(t)@ == ErrorView::Internal(t@),
        AppError::Io(t)@ == ErrorView::Io(t@),
        AppError::Db(t)@ == ErrorView::Db(t@),
        AppError::Json(t)@ == ErrorView::Json(t@),
        AppError::Keyring(t)@ == ErrorView::Keyring(t@),
        (AppError::Rpc { code, message: t })@ == (ErrorView::Rpc { code, message: t@ }),
        AppError::Unauthorized@ == ErrorView::Unauthorized,
        AppError::ConnectionClosed@ == ErrorView::ConnectionClosed,
{
}

} // verus!
