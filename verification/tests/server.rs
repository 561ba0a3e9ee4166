use mcpanel::commands::gateway_info;
use mcpanel::error::AppError;
use mcpanel::json::{parse_json, Json};
use mcpanel::process::KillHandle;
use mcpanel::protocol::{ServerHandshake, DEFAULT_REQUEST_TIMEOUT};
use mcpanel::server::{
    accepted, authorize, cors_layer, forward_reply, forward_timeout, host_allowed, mcp_forward,
    AuthToken, Forward, ForwardRequest, Gateway, GATEWAY_BACKSTOP_TIMEOUT, MAX_FORWARD_TIMEOUT,
    TOKEN_BYTES,
};
use mcpanel::state::RunningServer;

const TEST_HOST: &str = "127.0.0.1:4321";

fn test_gateway() -> Gateway {
    Gateway {
        token: AuthToken::generate().expect("random bytes"),
        host: TEST_HOST.into(),
    }
}

fn bearer(gateway: &Gateway) -> String {
    format!("Bearer {}", gateway.token.expose())
}

fn status_of(result: Result<(), AppError>) -> u16 {
    match result {
        Ok(()) => 200,
        Err(error) => error.status(),
    }
}

fn forward_status(result: Result<Forward, AppError>) -> u16 {
    status_of(result.map(|_| ()))
}

fn ping() -> Result<ForwardRequest, String> {
    Ok(ForwardRequest {
        method: "ping".into(),
        params: Json::Null,
        id: Some(Json::from_i64(1)),
    })
}

fn running() -> Option<RunningServer> {
    Some(RunningServer {
        pid: 5,
        ticket: 0,
        kill: KillHandle::of_child(5),
        handshake: ServerHandshake {
            protocol_version: "2025-06-18".into(),
            capabilities: Json::empty_object(),
            server_info: Json::empty_object(),
        },
    })
}

#[test]
fn tokens_are_unique_and_self_matching() {
    let a = AuthToken::generate().expect("random bytes");
    let b = AuthToken::generate().expect("random bytes");
    assert_eq!(a.expose().len(), TOKEN_BYTES * 2);
    assert!(a.matches(a.expose()));
    assert!(!a.matches(b.expose()));
}

#[test]
fn tokens_are_lower_case_hexadecimal() {
    let token = AuthToken::from_bytes(&vec![0x00, 0x0f, 0xa0, 0xff, 0x9b]);
    assert_eq!(token.expose(), "000fa0ff9b");
    assert!(token.matches("000fa0ff9b"));
    assert!(!token.matches("000fa0ff9B"));
    assert!(!token.matches("000fa0ff9"));
    assert!(!token.matches(""));
}

#[test]
fn a_failed_generator_makes_no_token() {
    assert!(AuthToken::from_random(None).is_none());
    assert_eq!(AuthToken::from_random(Some(vec![0xc0, 0x07])).unwrap().expose(), "c007");
}

#[test]
fn sse_rejects_missing_and_wrong_tokens() {
    let gateway = test_gateway();
    assert_eq!(status_of(authorize(Some(TEST_HOST), None, None, &gateway)), 401);
    assert_eq!(status_of(authorize(Some(TEST_HOST), None, Some("deadbeef"), &gateway)), 401);
}

#[test]
fn sse_accepts_query_token_and_bearer_header() {
    let gateway = test_gateway();
    let token = gateway.token.expose().to_string();
    assert_eq!(status_of(authorize(Some(TEST_HOST), None, Some(&token), &gateway)), 200);
    assert_eq!(
        status_of(authorize(Some(TEST_HOST), Some(&bearer(&gateway)), None, &gateway)),
        200
    );
}

#[test]
fn a_header_without_bearer_falls_back_to_the_query() {
    let gateway = test_gateway();
    let token = gateway.token.expose().to_string();
    assert_eq!(status_of(authorize(Some(TEST_HOST), Some("Basic x"), Some(&token), &gateway)), 200);
    assert_eq!(status_of(authorize(Some(TEST_HOST), Some("Bearer x"), Some(&token), &gateway)), 401);
    assert_eq!(status_of(authorize(Some(TEST_HOST), Some(&token), None, &gateway)), 401);
}

#[test]
fn foreign_or_missing_host_is_rejected() {
    let gateway = test_gateway();
    let token = gateway.token.expose().to_string();
    assert_eq!(
        status_of(authorize(Some("evil.example:4321"), None, Some(&token), &gateway)),
        401
    );
    assert_eq!(status_of(authorize(None, None, Some(&token), &gateway)), 401);
    // The localhost spelling of the bound port is legitimate.
    assert_eq!(status_of(authorize(Some("localhost:4321"), None, Some(&token), &gateway)), 200);
}

#[test]
fn the_port_is_what_follows_the_last_colon() {
    let gateway = Gateway {
        token: AuthToken::from_bytes(&vec![1]),
        host: "[::1]:99".into(),
    };
    assert!(host_allowed(Some("[::1]:99"), &gateway));
    assert!(host_allowed(Some("localhost:99"), &gateway));
    assert!(!host_allowed(Some("localhost:1]:99"), &gateway));
    let bare = Gateway {
        token: AuthToken::from_bytes(&vec![1]),
        host: "panel".into(),
    };
    assert!(host_allowed(Some("localhost:panel"), &bare));
}

#[test]
fn mcp_post_rejects_query_token() {
    // A token that opens `/sse` in the URL opens nothing for a POST, whose
    // decision does not look at the URL at all.
    let gateway = test_gateway();
    let token = gateway.token.expose().to_string();
    assert_eq!(status_of(authorize(Some(TEST_HOST), None, Some(&token), &gateway)), 200);
    assert_eq!(
        forward_status(mcp_forward(&gateway, Some(TEST_HOST), None, 1, None, ping(), &running())),
        401
    );
}

#[test]
fn mcp_post_requires_token_and_running_server() {
    let gateway = test_gateway();
    assert_eq!(
        forward_status(mcp_forward(&gateway, Some(TEST_HOST), None, 1, None, ping(), &None)),
        401
    );
    let header = bearer(&gateway);
    let refused = mcp_forward(&gateway, Some(TEST_HOST), Some(&header), 1, None, ping(), &None);
    match &refused {
        Err(AppError::ServerNotFound(id)) => assert_eq!(id, "1"),
        _ => panic!("a server that is not running is not found"),
    }
    assert_eq!(forward_status(refused), 404);
}

#[test]
fn forward_timeout_clamps_to_gateway_bounds() {
    assert_eq!(forward_timeout(None), DEFAULT_REQUEST_TIMEOUT);
    assert_eq!(forward_timeout(Some(0)), 1);
    assert_eq!(forward_timeout(Some(1)), 1);
    assert_eq!(forward_timeout(Some(42)), 42);
    assert_eq!(forward_timeout(Some(300)), MAX_FORWARD_TIMEOUT);
    assert_eq!(forward_timeout(Some(u64::MAX)), MAX_FORWARD_TIMEOUT);
    // The clamp ceiling must stay strictly below the backstop.
    assert!(MAX_FORWARD_TIMEOUT < GATEWAY_BACKSTOP_TIMEOUT);
}

#[test]
fn every_route_rejects_unauthenticated_requests() {
    let gateway = test_gateway();
    assert_eq!(status_of(authorize(Some(TEST_HOST), None, None, &gateway)), 401);
    assert_eq!(
        forward_status(mcp_forward(&gateway, Some(TEST_HOST), None, 1, None, ping(), &running())),
        401
    );
}

#[test]
fn malformed_body_is_rejected_only_after_auth() {
    let gateway = test_gateway();
    let malformed = || Err("expected ident at line 1 column 2".to_string());
    assert_eq!(
        forward_status(mcp_forward(&gateway, Some(TEST_HOST), None, 1, None, malformed(), &None)),
        401
    );
    let header = bearer(&gateway);
    let refused =
        mcp_forward(&gateway, Some(TEST_HOST), Some(&header), 1, None, malformed(), &None);
    match &refused {
        Err(AppError::InvalidInput(message)) => {
            assert_eq!(message, "invalid JSON-RPC body: expected ident at line 1 column 2")
        }
        _ => panic!("a malformed body is invalid input"),
    }
    assert_eq!(forward_status(refused), 400);
}

#[test]
fn forwards_jsonrpc_to_a_running_server() {
    let gateway = test_gateway();
    let header = bearer(&gateway);
    let decide = |body| {
        mcp_forward(&gateway, Some(TEST_HOST), Some(&header), 3, Some(900), body, &running())
    };

    // Request: caller id echoed, result forwarded.
    let caller = match decide(Ok(ForwardRequest {
        method: "ping".into(),
        params: Json::empty_object(),
        id: Some(Json::from_i64(7)),
    })) {
        Ok(Forward::Request { method, params, caller, timeout }) => {
            assert_eq!(method, "ping");
            assert_eq!(params, Json::empty_object());
            assert_eq!(timeout, 300);
            caller
        }
        _ => panic!("a request is awaited"),
    };
    let reply = forward_reply(caller, Ok(Json::empty_object())).ok().unwrap();
    assert_eq!(reply, parse_json(r#"{"jsonrpc":"2.0","id":7,"result":{}}"#).unwrap());

    // RPC errors come back as JSON-RPC envelopes, not HTTP errors.
    let refused = Err(AppError::Rpc { code: -32601, message: "method not found".into() });
    let reply = forward_reply(Json::from_i64(8), refused).ok().unwrap();
    assert_eq!(
        reply,
        parse_json(
            r#"{"jsonrpc":"2.0","id":8,"error":{"code":-32601,"message":"method not found"}}"#
        )
        .unwrap()
    );

    // Transport failures stay failures.
    let failed = forward_reply(Json::from_i64(9), Err(AppError::Timeout("ping".into())));
    assert_eq!(failed.err().unwrap().status(), 504);

    // Notifications (no id) are accepted fire-and-forget.
    match decide(Ok(ForwardRequest {
        method: "notifications/whatever".into(),
        params: Json::Null,
        id: None,
    })) {
        Ok(Forward::Notify { method, .. }) => assert_eq!(method, "notifications/whatever"),
        _ => panic!("a notification is not awaited"),
    }
    assert_eq!(accepted(), parse_json(r#"{"accepted": true}"#).unwrap());
}

#[test]
fn cors_grants_the_webview_origins() {
    assert_eq!(cors_layer(false), ["tauri://localhost", "http://tauri.localhost"]);
    assert_eq!(
        cors_layer(true),
        ["tauri://localhost", "http://tauri.localhost", "http://localhost:1420"]
    );
}

#[test]
fn cors_grants_nothing_to_foreign_origins() {
    assert!(!cors_layer(true).contains(&"http://evil.example"));
}

#[test]
fn gateway_info_names_the_bound_address() {
    let token = AuthToken::from_bytes(&vec![0xab]);
    let info = gateway_info("127.0.0.1:55", &token);
    assert_eq!(info.url, "http://127.0.0.1:55");
    assert_eq!(info.to_json().to_text(), r#"{"token":"ab","url":"http://127.0.0.1:55"}"#);
}
