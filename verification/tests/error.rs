use mcpanel::error::AppError;
use mcpanel::json::parse_json;

#[test]
fn serializes_to_code_and_message() {
    let err = AppError::ServerNotFound("mock".into());
    assert_eq!(
        err.to_json(),
        parse_json(r#"{"code":"server_not_found","message":"server not found: mock"}"#).unwrap()
    );
}

#[test]
fn every_variant_has_its_code_status_and_message() {
    let cases = [
        (AppError::ServerNotFound("a".into()), "server_not_found", 404, "server not found: a"),
        (AppError::Handshake("a".into()), "handshake", 502, "MCP handshake failed: a"),
        (AppError::Timeout("a".into()), "timeout", 504, "operation timed out: a"),
        (AppError::Unauthorized, "unauthorized", 401, "unauthorized"),
        (
            AppError::Rpc { code: -32601, message: "a".into() },
            "rpc",
            502,
            "JSON-RPC error -32601: a",
        ),
        (AppError::ConnectionClosed, "connection_closed", 502, "server connection closed"),
        (AppError::InvalidInput("a".into()), "invalid_input", 400, "invalid input: a"),
        (AppError::Conflict("a".into()), "conflict", 409, "conflict: a"),
        (AppError::Internal("a".into()), "internal", 500, "internal error: a"),
        (AppError::Io("a".into()), "io", 500, "I/O error: a"),
        (AppError::Db("a".into()), "db", 500, "database error: a"),
        (AppError::Json("a".into()), "json", 502, "JSON error: a"),
        (AppError::Keyring("a".into()), "keyring", 500, "credential store error: a"),
    ];
    for (error, code, status, message) in cases {
        assert_eq!(error.code(), code);
        assert_eq!(error.status(), status);
        assert_eq!(error.message(), message);
        assert_eq!(
            error.to_json().to_text(),
            format!(r#"{{"code":"{code}","message":"{message}"}}"#)
        );
    }
}
