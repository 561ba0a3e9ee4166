use mcpanel::error::AppError;
use mcpanel::fixture::{answers_ping, flags_of, read_message, serve, Flags};
use mcpanel::json::{parse_json, Json};
use mcpanel::protocol::{
    as_frame, classify, handshake, initialize_params, notification_frame, parse_frame, reply_frame,
    request_frame, route, Dispatched, Frame, McpClient, NotificationEvent, Resolution, Routed, Waited,
    NOTIFICATION_CAPACITY, PROTOCOL_VERSION,
};
use mcpanel::stream::{BoundedForwarder, StreamEvent};
use tokio::sync::{mpsc, oneshot};

type Outcome = Result<Json, AppError>;

fn json(text: &str) -> Json {
    parse_json(text).unwrap()
}

fn flags(args: &[&str]) -> Flags {
    flags_of(&args.iter().map(|arg| arg.to_string()).collect())
}

/// One exchange with the fixture: the request is written, answered, and the
/// answer dispatched.
fn exchange(client: &mut McpClient, flags: &Flags, method: &str, params: Json) -> Outcome {
    let (tx, mut rx) = oneshot::channel();
    let (id, frame) = client.request(method, params, tx)?;
    let replies = match read_message(flags, &frame) {
        Some(message) => serve(flags, &message),
        None => vec![],
    };
    for reply in replies {
        let parsed = parse_frame(&reply.to_text()).expect("a protocol frame");
        match client.dispatch(parsed) {
            Dispatched::Resolved(resolved) => assert_eq!(resolved, id),
            _ => panic!("the answer resolves the request"),
        }
    }
    let waited = match rx.try_recv() {
        Ok(outcome) => Waited::Answered(outcome),
        Err(oneshot::error::TryRecvError::Closed) => Waited::Dropped,
        Err(oneshot::error::TryRecvError::Empty) => Waited::TimedOut,
    };
    client.finish_request(id, method, waited)
}

fn initialize(client: &mut McpClient, flags: &Flags) -> Result<mcpanel::protocol::ServerHandshake, AppError> {
    let (shaken, frame) = handshake(exchange(client, flags, "initialize", initialize_params()))?;
    assert_eq!(frame, r#"{"jsonrpc":"2.0","method":"notifications/initialized","params":{}}"#);
    Ok(shaken)
}

#[test]
fn parse_frame_accepts_protocol_and_salvages_garbage_prefixes() {
    assert!(parse_frame(r#"{"jsonrpc":"2.0","id":1,"result":{}}"#).is_some());
    assert!(parse_frame(r#"junk>>{"jsonrpc":"2.0","id":1,"result":{}}"#).is_some());
    assert!(parse_frame(r#"{"not":"jsonrpc"}"#).is_none());
    assert!(parse_frame("plain log line").is_none());
    assert!(parse_frame(r#"["jsonrpc"]"#).is_none());
    assert!(as_frame(Ok(json(r#"{"jsonrpc":null}"#))).is_some());
    assert!(as_frame(Err("no".into())).is_none());
}

#[test]
fn handshake_happy_path_then_requests() {
    let mut client = McpClient::new();
    let flags = flags(&[]);
    let hs = initialize(&mut client, &flags).expect("handshake");
    assert_eq!(hs.protocol_version, PROTOCOL_VERSION);
    assert_eq!(hs.server_info.get("name").and_then(|n| n.as_str()), Some("mock-mcp-server"));
    assert!(hs.capabilities.get("tools").is_some(), "capabilities captured");

    let pong = exchange(&mut client, &flags, "ping", Json::empty_object()).expect("ping");
    assert_eq!(pong, json("{}"));

    let tools = exchange(&mut client, &flags, "tools/list", Json::empty_object()).expect("tools/list");
    assert_eq!(
        tools,
        json(
            r#"{"tools":[{"name":"echo","description":"echoes its input",
                "inputSchema":{"type":"object"}}]}"#
        )
    );
}

#[test]
fn handshake_timeout_with_unresponsive_server() {
    let mut client = McpClient::new();
    match initialize(&mut client, &flags(&["--no-handshake"])) {
        Err(AppError::Timeout(method)) => assert_eq!(method, "initialize"),
        _ => panic!("expected Timeout(initialize)"),
    }
}

#[test]
fn jsonrpc_errors_surface_as_rpc_variant() {
    let mut client = McpClient::new();
    let flags = flags(&[]);
    assert!(initialize(&mut client, &flags).is_ok());
    match exchange(&mut client, &flags, "bogus/method", Json::empty_object()) {
        Err(AppError::Rpc { code: -32601, message }) => assert_eq!(message, "method not found"),
        other => panic!("expected Rpc(-32601), got {other:?}"),
    }
}

#[test]
fn requests_fail_cleanly_after_stop() {
    let mut client = McpClient::new();
    let flags = flags(&[]);
    assert!(initialize(&mut client, &flags).is_ok());

    // One request is still in flight when stdout ends.
    let (tx, mut rx) = oneshot::channel();
    let (id, _) = client.request("ping", Json::Null, tx).ok().unwrap();
    assert_eq!(client.close(), [id]);
    match rx.try_recv() {
        Ok(outcome) => assert_eq!(
            client.finish_request(id, "ping", Waited::Answered(outcome)),
            Err(AppError::ConnectionClosed)
        ),
        Err(_) => panic!("the request in flight is failed"),
    }
    assert_eq!(
        exchange(&mut client, &flags, "ping", Json::empty_object()),
        Err(AppError::ConnectionClosed)
    );
}

#[test]
fn server_notifications_fan_out() {
    let mut client = McpClient::new();
    let flags = flags(&["--notify"]);
    let message = json(r#"{"jsonrpc":"2.0","method":"notifications/initialized","params":{}}"#);
    let frames = serve(&flags, &message);
    assert_eq!(frames.len(), 1);
    let payload = match client.dispatch(frames.into_iter().next().unwrap()) {
        Dispatched::Notify(payload) => payload,
        _ => panic!("expected a notification"),
    };
    assert_eq!(
        payload,
        json(
            r#"{"jsonrpc":"2.0","method":"notifications/message",
                "params":{"level":"info","data":"hello from mock"}}"#
        )
    );
}

#[test]
fn server_initiated_ping_gets_empty_result() {
    let mut client = McpClient::new();
    let flags = flags(&["--ping-client"]);
    let message = json(r#"{"jsonrpc":"2.0","method":"notifications/initialized"}"#);
    let mut frames = serve(&flags, &message);
    assert_eq!(frames.len(), 1);
    let reply = match client.dispatch(frames.remove(0)) {
        Dispatched::Reply(reply) => reply,
        _ => panic!("a ping is answered"),
    };
    assert_eq!(reply, r#"{"id":"srv-ping-1","jsonrpc":"2.0","result":{}}"#);
    let pong = read_message(&flags, &reply).unwrap();
    assert!(answers_ping(&pong));
    assert!(serve(&flags, &pong).is_empty());
    assert!(!answers_ping(&json(r#"{"id":"other","result":{}}"#)));
}

#[test]
fn other_server_requests_are_refused_politely() {
    assert_eq!(
        reply_frame(Json::from_i64(5), false),
        r#"{"error":{"code":-32601,"message":"method not supported by MCPanel"},"id":5,"jsonrpc":"2.0"}"#
    );
}

#[test]
fn handshake_rejects_unsupported_protocol_version() {
    let mut client = McpClient::new();
    match initialize(&mut client, &flags(&["--wrong-version"])) {
        Err(AppError::Handshake(message)) => assert!(message.contains("1999-01-01")),
        _ => panic!("expected Handshake mentioning the bad version"),
    }
    for version in ["2025-06-18", "2025-03-26", "2024-11-05"] {
        let result = json(&format!(r#"{{"protocolVersion":"{version}"}}"#));
        let (hs, _) = handshake(Ok(result)).ok().unwrap();
        assert_eq!(hs.protocol_version, version);
        assert_eq!(hs.capabilities, Json::empty_object());
    }
    assert!(handshake(Ok(json("{}"))).is_err());
    assert!(handshake(Ok(json(r#"{"protocolVersion":20250618}"#))).is_err());
    assert!(matches!(
        handshake(Err(AppError::ConnectionClosed)),
        Err(AppError::ConnectionClosed)
    ));
}

#[test]
fn notification_overflow_is_surfaced_as_gap() {
    let mut client = McpClient::new();
    let flags = flags(&["--notify-flood"]);
    let message = json(r#"{"jsonrpc":"2.0","method":"notifications/initialized"}"#);
    let (tx, mut rx) = mpsc::channel(NOTIFICATION_CAPACITY);
    let mut forwarder = BoundedForwarder::new(tx);
    for frame in serve(&flags, &message) {
        match client.dispatch(frame) {
            Dispatched::Notify(payload) => {
                assert!(forwarder.offer(NotificationEvent::Frame(payload)))
            }
            _ => panic!("expected a notification"),
        }
    }
    let mut frames = 0u64;
    let mut gaps = 0u64;
    let mut count = |event: NotificationEvent| match event {
        NotificationEvent::Frame(_) => frames += 1,
        NotificationEvent::Gap(n) => gaps += n,
    };
    // Drain what's buffered (making room for the EOF gap flush)…
    while let Ok(event) = rx.try_recv() {
        count(event);
    }
    // …then EOF flushes whatever loss was still pending.
    let (tx, marker) = forwarder.finish();
    if let Some(marker) = marker {
        assert!(tx.try_send(marker).is_ok());
    }
    while let Ok(event) = rx.try_recv() {
        count(event);
    }
    assert!(gaps > 0, "flood must overflow the advisory channel");
    assert_eq!(frames + gaps, 400, "every notification is either delivered or accounted for");
}

#[test]
fn garbage_stdout_falls_back_to_logs_while_protocol_works() {
    let routed = route(StreamEvent::Line("mock-mcp-server booting...".into()));
    match routed {
        Routed::Log(line) => assert_eq!(line, "mock-mcp-server booting..."),
        _ => panic!("boot line missing from log fallback"),
    }
    match route(StreamEvent::Line(r#"junk {"jsonrpc":"2.0","id":1,"result":7}"#.into())) {
        Routed::Dispatch(frame) => assert_eq!(frame, json(r#"{"id":1,"jsonrpc":"2.0","result":7}"#)),
        _ => panic!("a frame is dispatched"),
    }
    assert!(matches!(route(StreamEvent::Dropped(4)), Routed::Lose(4)));
}

#[test]
fn frames_have_their_shapes() {
    assert_eq!(
        request_frame(7, "m", json(r#"{"b":1,"a":[]}"#)),
        r#"{"id":7,"jsonrpc":"2.0","method":"m","params":{"a":[],"b":1}}"#
    );
    assert_eq!(
        notification_frame("notifications/initialized", Json::empty_object()),
        r#"{"jsonrpc":"2.0","method":"notifications/initialized","params":{}}"#
    );
    assert_eq!(
        initialize_params().to_text(),
        r#"{"capabilities":{},"clientInfo":{"name":"mcpanel","version":"0.1.0"},"protocolVersion":"2025-06-18"}"#
    );
    let multiline = request_frame(1, "a\nb", Json::string("c\nd"));
    assert!(!multiline.contains('\n'), "one frame is one line");
}

#[test]
fn frames_are_classified() {
    let of = |text: &str| classify(json(text));
    match of(r#"{"id":3,"error":{"code":"x"}}"#) {
        Frame::Response { id: 3, outcome } => {
            assert_eq!(outcome, Err(AppError::Rpc { code: 0, message: "".into() }))
        }
        _ => panic!("an error is a response"),
    }
    match of(r#"{"id":3,"result":null,"method":"m"}"#) {
        Frame::Response { id: 3, outcome } => assert_eq!(outcome, Ok(Json::Null)),
        _ => panic!("a result is a response"),
    }
    assert!(matches!(of(r#"{"id":"3","result":1}"#), Frame::Unroutable));
    assert!(matches!(of(r#"{"id":3}"#), Frame::Unroutable));
    assert!(matches!(of(r#"{"result":1}"#), Frame::Unroutable));
    assert!(matches!(of(r#"{"id":3,"method":"roots/list"}"#), Frame::Request { ping: false, .. }));
    assert!(matches!(of(r#"{"id":3,"method":"ping"}"#), Frame::Request { ping: true, .. }));
    assert!(matches!(of(r#"{"method":"m","result":1}"#), Frame::Notification(_)));
}

#[test]
fn a_response_resolves_its_own_request_and_no_other() {
    let mut client = McpClient::new();
    let (tx1, mut rx1) = oneshot::channel();
    let (tx2, mut rx2) = oneshot::channel();
    assert!(client.has_ids());
    let (first, _) = client.request("a", Json::Null, tx1).ok().unwrap();
    let (second, _) = client.request("b", Json::Null, tx2).ok().unwrap();
    assert_eq!((first, second), (1, 2));
    match client.resolve(json(r#"{"jsonrpc":"2.0","id":2,"result":"two"}"#)) {
        Resolution::Answer { id, waiter, outcome } => {
            assert_eq!(id, 2);
            assert_eq!(outcome, Ok(Json::string("two")));
            assert!(waiter.send(outcome).is_ok());
        }
        _ => panic!("the second request is answered"),
    }
    assert_eq!(rx2.try_recv().unwrap(), Ok(Json::string("two")));
    assert!(rx1.try_recv().is_err());
    // A second answer comes too late.
    assert!(matches!(
        client.dispatch(json(r#"{"id":2,"result":1}"#)),
        Dispatched::Unknown(2)
    ));
    // So does the answer to a request that timed out.
    assert_eq!(
        client.finish_request(first, "a", Waited::TimedOut),
        Err(AppError::Timeout("a".into()))
    );
    assert!(matches!(
        client.dispatch(json(r#"{"id":1,"result":1}"#)),
        Dispatched::Unknown(1)
    ));
}

#[test]
fn everybody_who_waits_is_handed_out_at_the_end() {
    let mut client = McpClient::new();
    let mut receivers = Vec::new();
    for _ in 0..3 {
        let (tx, rx) = oneshot::channel();
        client.request("a", Json::Null, tx).ok().unwrap();
        receivers.push(rx);
    }
    assert!(matches!(client.dispatch(json(r#"{"id":2,"result":0}"#)), Dispatched::Resolved(2)));
    let mut waiters = client.closing();
    waiters.sort_by_key(|entry| entry.0);
    let ids: Vec<i64> = waiters.iter().map(|entry| entry.0).collect();
    assert_eq!(ids, [1, 3]);
    for (id, waiter, outcome) in waiters {
        assert_eq!(outcome, Err(AppError::ConnectionClosed));
        assert!(waiter.send(outcome).is_ok());
        let told = receivers[id as usize - 1].try_recv().unwrap();
        assert_eq!(told, Err(AppError::ConnectionClosed));
    }
    assert!(client.closing().is_empty());
    assert!(client.close().is_empty());
}

#[test]
fn an_answer_for_somebody_who_left_is_dropped() {
    let mut client = McpClient::new();
    let (tx, rx) = oneshot::channel();
    client.request("a", Json::Null, tx).ok().unwrap();
    drop(rx);
    assert!(matches!(client.dispatch(json(r#"{"id":1,"result":0}"#)), Dispatched::Abandoned(1)));
    assert!(matches!(client.dispatch(json(r#"{"id":1,"result":0}"#)), Dispatched::Unknown(1)));
}

#[test]
fn a_request_that_cannot_be_written_is_not_in_flight() {
    let mut client = McpClient::new();
    let (tx, mut rx) = oneshot::channel();
    let (id, _) = client.request("a", Json::Null, tx).ok().unwrap();
    assert_eq!(client.unsent(id), AppError::ConnectionClosed);
    assert!(matches!(rx.try_recv(), Err(oneshot::error::TryRecvError::Closed)));
    assert_eq!(
        client.finish_request(id, "a", Waited::Dropped),
        Err(AppError::ConnectionClosed)
    );
}

#[test]
fn the_fixture_passes_over_what_it_does_not_understand() {
    let quiet = flags(&[]);
    assert!(read_message(&quiet, "   ").is_none());
    assert!(read_message(&quiet, "{not json").is_none());
    assert!(serve(&quiet, &json(r#"{"method":"unknown"}"#)).is_empty());
    assert!(serve(&quiet, &json(r#"{"method":"notifications/initialized"}"#)).is_empty());
    let both = flags(&["--notify", "--ping-client", "--notify-flood"]);
    assert_eq!(serve(&both, &json(r#"{"method":"notifications/initialized"}"#)).len(), 402);
}
