//! A tiny MCP server to try the panel on: it speaks just enough of the protocol,
//! with flags for the ways in which real servers fail.

use vstd::prelude::*;

use crate::json;
use crate::json::{member, parse_json, Json, JsonView};
use crate::protocol;
use crate::protocol::{error_envelope, result_envelope, METHOD_NOT_FOUND};
use crate::text;
use crate::text::{chars_of, same_text, trim};

verus! {

broadcast use vstd::string::group_string_axioms;

/// How the server behaves once it serves.
#[derive(Clone, Copy, Debug, PartialEq, Eq, Structural)]
pub struct Flags {
    /// Never answers.
    pub no_handshake: bool,
    /// Answers `initialize` with a bogus protocol version.
    pub wrong_version: bool,
    /// Emits a notification after `initialized`.
    pub notify: bool,
    /// Emits [`FLOOD`] notifications after `initialized`.
    pub notify_flood: bool,
    /// Sends a ping of its own after `initialized`.
    pub ping_client: bool,
}

/// How many notifications a flood has.
pub const FLOOD: usize = 400;

/// A flag is among the arguments.
pub open spec fn given(args: Seq<String>, flag: Seq<char>) -> bool {
    text::texts(args).contains(flag)
}

/// Whether `flag` is among the arguments.
pub fn has(args: &Vec<String>, flag: &str) -> (r: bool)
    ensures
        r == given(args@, flag@),
{
    let mut i: usize = 0;
    while i < args.len()
        invariant
            i <= args.len(),
            forall|j: int| 0 <= j < i ==> #[trigger] text::texts(args@)[j] != flag@,
        decreases args.len() - i,
    {
        assert(text::texts(args@)[i as int] == args@[i as int]@);
        if same_text(args[i].as_str(), flag) {
            return true;
        }
        i = i + 1;
    }
    false
}

/// The flags among the arguments.
pub fn flags_of(args: &Vec<String>) -> (r: Flags)
    ensures
        r == (Flags {
            no_handshake: given(args@, "--no-handshake"@),
            wrong_version: given(args@, "--wrong-version"@),
            notify: given(args@, "--notify"@),
            notify_flood: given(args@, "--notify-flood"@),
            ping_client: given(args@, "--ping-client"@),
        }),
{
    Flags {
        no_handshake: has(args, "--no-handshake"),
        wrong_version: has(args, "--wrong-version"),
        notify: has(args, "--notify"),
        notify_flood: has(args, "--notify-flood"),
        ping_client: has(args, "--ping-client"),
    }
}

/// The message that a line holds. Blank lines and lines that are not JSON are
/// passed over, and so is everything where the server never answers.
pub fn read_message(flags: &Flags, line: &str) -> (r: Option<Json>)
    ensures
        protocol::frame_option(r) == if text::spec_trim(line@).len() == 0 || flags.no_handshake {
            None::<JsonView>
        } else {
            match json::json_text(line@) {
                Ok(j) => Some(j),
                Err(_) => None,
            }
        },
        r matches Some(j) ==> j@.wf(),
{
    let trimmed = trim(line);
    if chars_of(trimmed.as_str()).len() == 0 || flags.no_handshake {
        return None;
    }
    match parse_json(line) {
        Ok(j) => Some(j),
        Err(_) => None,
    }
}

/// The answer to `initialize`.
pub open spec fn initialize_result(wrong_version: bool) -> JsonView {
    JsonView::Object(
        seq![
            (
                "capabilities"@,
                JsonView::Object(seq![("tools"@, JsonView::Object(Seq::empty()))]),
            ),
            (
                "protocolVersion"@,
                JsonView::Str(
                    if wrong_version {
                        "1999-01-01"@
                    } else {
                        "2025-06-18"@
                    },
                ),
            ),
            (
                "serverInfo"@,
                JsonView::Object(
                    seq![
                        ("name"@, JsonView::Str("mock-mcp-server"@)),
                        ("version"@, JsonView::Str("0.1.0"@)),
                    ],
                ),
            ),
        ],
    )
}

/// The answer to `tools/list`: one tool.
pub open spec fn tools_result() -> JsonView {
    JsonView::Object(
        seq![
            (
                "tools"@,
                JsonView::Array(
                    seq![
                        JsonView::Object(
                            seq![
                                ("description"@, JsonView::Str("echoes its input"@)),
                                (
                                    "inputSchema"@,
                                    JsonView::Object(
                                        seq![("type"@, JsonView::Str("object"@))],
                                    ),
                                ),
                                ("name"@, JsonView::Str("echo"@)),
                            ],
                        ),
                    ],
                ),
            ),
        ],
    )
}

/// The notification that is emitted after `initialized`.
pub open spec fn hello_json() -> JsonView {
    protocol::notification_json(
        "notifications/message"@,
        JsonView::Object(
            seq![
                ("data"@, JsonView::Str("hello from mock"@)),
                ("level"@, JsonView::Str("info"@)),
            ],
        ),
    )
}

/// The server's own ping.
pub open spec fn ping_json() -> JsonView {
    JsonView::Object(
        seq![
            ("id"@, JsonView::Str("srv-ping-1"@)),
            ("jsonrpc"@, JsonView::Str("2.0"@)),
            ("method"@, JsonView::Str("ping"@)),
        ],
    )
}

/// What is emitted after `initialized`.
pub open spec fn after_initialized(flags: Flags) -> Seq<JsonView> {
    (if flags.notify {
        seq![hello_json()]
    } else {
        Seq::empty()
    }) + (if flags.notify_flood {
        Seq::new(FLOOD as nat, |i: int| hello_json())
    } else {
        Seq::empty()
    }) + (if flags.ping_client {
        seq![ping_json()]
    } else {
        Seq::empty()
    })
}

/// The method of a message, or the empty text.
pub open spec fn method_of(message: JsonView) -> Seq<char> {
    match message.get("method"@) {
        Some(JsonView::Str(m)) => m,
        _ => Seq::empty(),
    }
}

/// A message answers something that this server asked.
pub open spec fn is_answer(message: JsonView) -> bool {
    method_of(message).len() == 0 && message.get("result"@) is Some
}

/// The frames that a message is answered with.
pub open spec fn answers(flags: Flags, message: JsonView) -> Seq<JsonView> {
    let method = method_of(message);
    if is_answer(message) {
        Seq::empty()
    } else if method == "notifications/initialized"@ {
        after_initialized(flags)
    } else {
        match message.get("id"@) {
            None => Seq::empty(),
            Some(id) => seq![
                if method == "initialize"@ {
                    protocol::result_json(id, initialize_result(flags.wrong_version))
                } else if method == "tools/list"@ {
                    protocol::result_json(id, tools_result())
                } else if method == "ping"@ {
                    protocol::result_json(id, JsonView::Object(Seq::empty()))
                } else {
                    protocol::error_json(id, METHOD_NOT_FOUND, "method not found"@)
                },
            ],
        }
    }
}

fn initialize_body(wrong_version: bool) -> (r: Json)
    ensures
        r@ == initialize_result(wrong_version),
{
    broadcast use json::group_json_views;

    let ghost want = initialize_result(wrong_version)->Object_0;
    let mut capabilities: Vec<(String, Json)> = Vec::new();
    capabilities.push(member("tools", Json::empty_object()));
    assert(json::entries_view(capabilities@) =~= want[0].1->Object_0);
    let mut info: Vec<(String, Json)> = Vec::new();
    info.push(member("name", Json::string("mock-mcp-server")));
    info.push(member("version", Json::string("0.1.0")));
    assert(json::entries_view(info@) =~= want[2].1->Object_0);
    let version = if wrong_version {
        "1999-01-01"
    } else {
        "2025-06-18"
    };
    let mut members: Vec<(String, Json)> = Vec::new();
    members.push(member("capabilities", Json::Object(capabilities)));
    members.push(member("protocolVersion", Json::string(version)));
    members.push(member("serverInfo", Json::Object(info)));
    assert(json::entries_view(members@) =~= want);
    Json::Object(members)
}

fn tools_body() -> (r: Json)
    ensures
        r@ == tools_result(),
{
    broadcast use json::group_json_views;

    let ghost list = tools_result()->Object_0[0].1->Array_0;
    let ghost tool = list[0]->Object_0;
    let mut schema: Vec<(String, Json)> = Vec::new();
    schema.push(member("type", Json::string("object")));
    assert(json::entries_view(schema@) =~= tool[1].1->Object_0);
    let mut echo: Vec<(String, Json)> = Vec::new();
    echo.push(member("description", Json::string("echoes its input")));
    echo.push(member("inputSchema", Json::Object(schema)));
    echo.push(member("name", Json::string("echo")));
    assert(json::entries_view(echo@) =~= tool);
    let mut tools: Vec<Json> = Vec::new();
    tools.push(Json::Object(echo));
    assert(json::items_view(tools@) =~= list);
    let mut members: Vec<(String, Json)> = Vec::new();
    members.push(member("tools", Json::Array(tools)));
    assert(json::entries_view(members@) =~= tools_result()->Object_0);
    Json::Object(members)
}

fn hello() -> (r: Json)
    ensures
        r@ == hello_json(),
{
    broadcast use json::group_json_views;

    let ghost want = hello_json()->Object_0;
    let mut params: Vec<(String, Json)> = Vec::new();
    params.push(member("data", Json::string("hello from mock")));
    params.push(member("level", Json::string("info")));
    assert(json::entries_view(params@) =~= want[2].1->Object_0);
    let mut members: Vec<(String, Json)> = Vec::new();
    members.push(member("jsonrpc", Json::string("2.0")));
    members.push(member("method", Json::string("notifications/message")));
    members.push(member("params", Json::Object(params)));
    assert(json::entries_view(members@) =~= want);
    Json::Object(members)
}

fn ping() -> (r: Json)
    ensures
        r@ == ping_json(),
{
    broadcast use json::group_json_views;

    let mut members: Vec<(String, Json)> = Vec::new();
    members.push(member("id", Json::string("srv-ping-1")));
    members.push(member("jsonrpc", Json::string("2.0")));
    members.push(member("method", Json::string("ping")));
    assert(json::entries_view(members@) =~= ping_json()->Object_0);
    Json::Object(members)
}

fn initialized(flags: &Flags) -> (r: Vec<Json>)
    ensures
        json::items_view(r@) == after_initialized(*flags),
{
    let mut out: Vec<Json> = Vec::new();
    if flags.notify {
        out.push(hello());
    }
    let ghost head = json::items_view(out@);
    assert(head =~= if flags.notify {
        seq![hello_json()]
    } else {
        Seq::empty()
    });
    let ghost flood = Seq::new(FLOOD as nat, |i: int| hello_json());
    if flags.notify_flood {
        let mut i: usize = 0;
        assert(head + flood.take(0) =~= head);
        while i < FLOOD
            invariant
                i <= FLOOD,
                flood == Seq::new(FLOOD as nat, |k: int| hello_json()),
                json::items_view(out@) == head + flood.take(i as int),
            decreases FLOOD - i,
        {
            let ghost before = out@;
            let frame = hello();
            out.push(frame);
            assert(json::items_view(out@) =~= json::items_view(before).push(frame@));
            assert(head + flood.take(i + 1) =~= (head + flood.take(i as int)).push(frame@));
            i = i + 1;
        }
        assert(flood.take(flood.len() as int) =~= flood);
    }
    let ghost middle = out@;
    if flags.ping_client {
        let frame = ping();
        out.push(frame);
        assert(json::items_view(out@) =~= json::items_view(middle).push(frame@));
    }
    assert(json::items_view(out@) =~= after_initialized(*flags));
    out
}

/// Answer a message: the frames to write, in order.
pub fn serve(flags: &Flags, message: &Json) -> (r: Vec<Json>)
    ensures
        json::items_view(r@) == answers(*flags, message@),
{
    let mut out: Vec<Json> = Vec::new();
    assert(json::items_view(out@) =~= Seq::empty());
    let method = match message.get("method") {
        Some(Json::Str(m)) => m.clone(),
        _ => String::new(),
    };
    assert(method@ =~= method_of(message@));
    if chars_of(method.as_str()).len() == 0 && message.has("result") {
        return out;
    }
    if same_text(method.as_str(), "notifications/initialized") {
        return initialized(flags);
    }
    let id = match message.get("id") {
        Some(id) => id.clone(),
        None => {
            return out;
        },
    };
    let frame = if same_text(method.as_str(), "initialize") {
        result_envelope(id, initialize_body(flags.wrong_version))
    } else if same_text(method.as_str(), "tools/list") {
        result_envelope(id, tools_body())
    } else if same_text(method.as_str(), "ping") {
        result_envelope(id, Json::empty_object())
    } else {
        error_envelope(id, METHOD_NOT_FOUND, "method not found")
    };
    out.push(frame);
    assert(json::items_view(out@) =~= seq![frame@]);
    out
}

/// Whether a message is the answer to the server's own ping.
pub fn answers_ping(message: &Json) -> (r: bool)
    ensures
        r == (is_answer(message@) && message@.get("id"@) == Some(JsonView::Str("srv-ping-1"@))),
{
    let method = match message.get("method") {
        Some(Json::Str(m)) => m.clone(),
        _ => String::new(),
    };
    assert(method@ =~= method_of(message@));
    if chars_of(method.as_str()).len() != 0 || !message.has("result") {
        return false;
    }
    match message.get("id") {
        Some(Json::Str(id)) => same_text(id.as_str(), "srv-ping-1"),
        _ => false,
    }
}

/// The panel's handshake succeeds with this server, unless the server is told
/// to name a version that the panel does not speak.
pub proof fn law_the_panel_shakes_hands(wrong_version: bool)
    ensures
        protocol::handshake_result(initialize_result(wrong_version)) is Ok == !wrong_version,
{
    reveal_strlit("capabilities");
    reveal_strlit("protocolVersion");
    reveal_strlit("1999-01-01");
    reveal_strlit("2025-06-18");
    reveal_strlit("2025-03-26");
    reveal_strlit("2024-11-05");
    let members = initialize_result(wrong_version)->Object_0;
    let rest = members.drop_first();
    assert("capabilities"@[0] == 'c' && "protocolVersion"@[0] == 'p');
    assert(members[0].0 != "protocolVersion"@);
    assert(rest[0] == members[1]);
    assert(json::lookup(members, "protocolVersion"@) == json::lookup(rest, "protocolVersion"@));
    assert(json::lookup(rest, "protocolVersion"@) == Some(rest[0].1));
    assert("1999-01-01"@[0] == '1' && "2025-06-18"@[0] == '2' && "2025-03-26"@[0] == '2'
        && "2024-11-05"@[0] == '2');
}

/// A message with a method and an id is answered once, under its own id: the
/// handshake and the list of tools with what they ask for, a ping with an empty
/// result, and anything else with the error for an unknown method. A message
/// without an id is not answered, and neither is an answer.
pub proof fn law_every_request_is_answered_once(flags: Flags, message: JsonView, m: Seq<char>)
    requires
        message.get("method"@) == Some(JsonView::Str(m)),
        m.len() > 0,
        m != "notifications/initialized"@,
    ensures
        message.get("id"@) is None ==> answers(flags, message).len() == 0,
        message.get("id"@) matches Some(id) ==> answers(flags, message).len() == 1 && {
            let reply = answers(flags, message)[0];
            &&& reply.get("id"@) == Some(id)
            &&& reply.get("jsonrpc"@) == Some(JsonView::Str("2.0"@))
            &&& m == "initialize"@ ==> reply.get("result"@) == Some(
                initialize_result(flags.wrong_version),
            )
            &&& m == "tools/list"@ ==> reply.get("result"@) == Some(tools_result())
            &&& m == "ping"@ ==> reply.get("result"@) == Some(JsonView::Object(Seq::empty()))
            &&& m != "initialize"@ && m != "tools/list"@ && m != "ping"@ ==> reply.get("result"@)
                is None && (reply.get("error"@) matches Some(error) && error.get("code"@) == Some(
                JsonView::Number(json::number_of_i64((-32601) as i64)),
            ) && error.get("message"@) == Some(JsonView::Str("method not found"@)))
        },
{
    reveal_strlit("initialize");
    reveal_strlit("tools/list");
    reveal_strlit("ping");
    assert("initialize"@[0] == 'i' && "tools/list"@[0] == 't' && "ping"@[0] == 'p');
    if message.get("id"@) is Some {
        let id = message.get("id"@)->0;
        protocol::law_envelopes_carry_the_answer(
            id,
            initialize_result(flags.wrong_version),
            METHOD_NOT_FOUND,
            "method not found"@,
        );
        protocol::law_envelopes_carry_the_answer(id, tools_result(), 0, Seq::empty());
        protocol::law_envelopes_carry_the_answer(
            id,
            JsonView::Object(Seq::empty()),
            0,
            Seq::empty(),
        );
    }
}

/// What answers something is not answered.
pub proof fn law_answers_are_not_answered(flags: Flags, message: JsonView)
    requires
        message.get("method"@) is None,
        message.get("result"@) is Some,
    ensures
        answers(flags, message).len() == 0,
        is_answer(message),
{
}

/// After the handshake come the notifications that the flags ask for, one or a
/// flood of four hundred or both, and behind them the server's own ping.
pub proof fn law_what_follows_the_handshake(flags: Flags, message: JsonView, i: int)
    requires
        message.get("method"@) == Some(JsonView::Str("notifications/initialized"@)),
    ensures
        ({
            let out = answers(flags, message);
            let notes = (if flags.notify {
                1int
            } else {
                0
            }) + (if flags.notify_flood {
                400int
            } else {
                0
            });
            &&& out.len() == notes + (if flags.ping_client {
                1int
            } else {
                0
            })
            &&& 0 <= i < notes ==> out[i].get("method"@) == Some(
                JsonView::Str("notifications/message"@),
            ) && out[i].get("id"@) is None
            &&& flags.ping_client ==> out[notes].get("method"@) == Some(JsonView::Str("ping"@))
                && out[notes].get("id"@) == Some(JsonView::Str("srv-ping-1"@))
        }),
{
    reveal_strlit("notifications/initialized");
    assert("notifications/initialized"@.len() == 25);
    let params = hello_json()->Object_0[2].1;
    protocol::law_frames_carry_what_is_asked(0, "notifications/message"@, params);
    assert(hello_json() == protocol::notification_json("notifications/message"@, params));
    reveal_strlit("id");
    reveal_strlit("jsonrpc");
    reveal_strlit("method");
    let p = ping_json()->Object_0;
    assert("id"@[0] == 'i' && "jsonrpc"@[0] == 'j' && "method"@[0] == 'm');
    assert(p[0].0 == "id"@ && p[1].0 == "jsonrpc"@ && p[2].0 == "method"@);
    json::law_members_are_found_by_name(p, "method"@);
    json::law_members_are_found_by_name(p, "id"@);
}

/// A flag is set exactly where it is among the arguments, wherever it stands.
pub proof fn law_flags_are_found_anywhere(args: Seq<String>, flag: Seq<char>)
    ensures
        given(args, flag) <==> exists|i: int| 0 <= i < args.len() && (#[trigger] args[i])@ == flag,
{
    if given(args, flag) {
        let i = choose|i: int| 0 <= i < text::texts(args).len() && text::texts(args)[i] == flag;
        assert(args[i]@ == flag);
    }
    if exists|i: int| 0 <= i < args.len() && (#[trigger] args[i])@ == flag {
        let i = choose|i: int| 0 <= i < args.len() && (#[trigger] args[i])@ == flag;
        assert(text::texts(args)[i] == flag);
    }
}

/// The flags are those of the command line, each by its own word.
pub proof fn law_flags_go_by_their_words(args: Vec<String>, r: Flags)
    requires
        call_ensures(flags_of, (&args,), r),
    ensures
        r.no_handshake <==> text::texts(args@).contains("--no-handshake"@),
        r.wrong_version <==> text::texts(args@).contains("--wrong-version"@),
        r.notify <==> text::texts(args@).contains("--notify"@),
        r.notify_flood <==> text::texts(args@).contains("--notify-flood"@),
        r.ping_client <==> text::texts(args@).contains("--ping-client"@),
{
}

/// A line is a message where it parses, unless it is blank or the server never
/// answers; and a message answers the server's ping exactly where it has a
/// result, no method and the ping's id.
pub proof fn law_what_the_server_hears(
    flags: Flags,
    line: &str,
    heard: Option<Json>,
    message: Json,
    pong: bool,
)
    requires
        call_ensures(read_message, (&flags, line), heard),
        call_ensures(answers_ping, (&message,), pong),
    ensures
        flags.no_handshake ==> heard is None,
        (forall|i: int| 0 <= i < line@.len() ==> text::blank(#[trigger] line@[i])) ==> heard is None,
        json::json_text(line@) is Err ==> heard is None,
        !flags.no_handshake && json::json_text(line@) is Ok && (exists|i: int|
            0 <= i < line@.len() && !text::blank(#[trigger] line@[i])) ==> (heard matches Some(j)
            && j@ == json::json_text(line@)->Ok_0),
        pong ==> message@.get("result"@) is Some && message@.get("id"@) == Some(
            JsonView::Str("srv-ping-1"@),
        ),
        message@.get("method"@) is None && message@.get("result"@) is Some && message@.get("id"@)
            == Some(JsonView::Str("srv-ping-1"@)) ==> pong,
{
    text::law_only_white_space_trims_to_nothing(line@);
}

} // verus!
