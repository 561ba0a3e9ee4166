use mcpanel::fixture::{answers_ping, flags_of, has, read_message, serve, Flags, FLOOD};
use mcpanel::json::{parse_json, Json};
use mcpanel::protocol::handshake;

fn json(text: &str) -> Json {
    parse_json(text).unwrap()
}

fn flags(args: &[&str]) -> Flags {
    flags_of(&args.iter().map(|arg| arg.to_string()).collect())
}

fn texts(frames: Vec<Json>) -> Vec<String> {
    frames.into_iter().map(|frame| frame.to_text()).collect()
}

#[test]
fn flags_are_found_anywhere_among_the_arguments() {
    let args = vec!["--notify-flood".to_string(), "x".to_string(), "--no-handshake".to_string()];
    assert!(has(&args, "--no-handshake"));
    assert!(!has(&args, "--notify"));
    assert_eq!(
        flags_of(&args),
        Flags {
            no_handshake: true,
            wrong_version: false,
            notify: false,
            notify_flood: true,
            ping_client: false,
        }
    );
}

#[test]
fn every_method_has_its_answer() {
    let quiet = flags(&[]);
    let answer = |text: &str| texts(serve(&quiet, &json(text)));
    assert_eq!(
        answer(r#"{"id":"a","method":"ping"}"#),
        [r#"{"id":"a","jsonrpc":"2.0","result":{}}"#]
    );
    assert_eq!(
        answer(r#"{"id":null,"method":7}"#),
        [r#"{"error":{"code":-32601,"message":"method not found"},"id":null,"jsonrpc":"2.0"}"#]
    );
    assert!(answer(r#"{"method":"initialize"}"#).is_empty(), "nobody to answer");
    assert!(answer(r#"{"id":1,"result":{}}"#).is_empty(), "an answer is not answered");
    assert_eq!(answer(r#"{"id":1,"method":"tools/list"}"#).len(), 1);
}

#[test]
fn the_version_is_the_one_that_was_asked_for() {
    for (args, accepted) in [(&[][..], true), (&["--wrong-version"][..], false)] {
        let mut frames = serve(&flags(args), &json(r#"{"id":1,"method":"initialize"}"#));
        let result = frames.remove(0).get("result").unwrap().clone();
        assert_eq!(handshake(Ok(result)).is_ok(), accepted);
    }
}

#[test]
fn the_order_behind_initialized_is_fixed() {
    let all = flags(&["--ping-client", "--notify-flood", "--notify"]);
    let frames = texts(serve(&all, &json(r#"{"id":4,"method":"notifications/initialized"}"#)));
    assert_eq!(frames.len(), FLOOD + 2);
    assert_eq!(frames[FLOOD + 1], r#"{"id":"srv-ping-1","jsonrpc":"2.0","method":"ping"}"#);
    for frame in &frames[..FLOOD + 1] {
        assert_eq!(
            frame,
            r#"{"jsonrpc":"2.0","method":"notifications/message","params":{"data":"hello from mock","level":"info"}}"#
        );
    }
}

#[test]
fn only_an_answer_is_a_pong() {
    assert!(answers_ping(&json(r#"{"id":"srv-ping-1","result":null}"#)));
    assert!(!answers_ping(&json(r#"{"id":"srv-ping-1","method":"m","result":{}}"#)));
    assert!(!answers_ping(&json(r#"{"id":"srv-ping-1","error":{}}"#)));
}

#[test]
fn a_mute_server_reads_and_says_nothing() {
    assert!(read_message(&flags(&["--no-handshake"]), r#"{"id":1,"method":"ping"}"#).is_none());
    assert!(read_message(&flags(&[]), r#" {"id":1,"method":"ping"} "#).is_some());
}
