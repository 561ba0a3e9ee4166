use std::borrow::Cow;

use bytes::BytesMut;
use mcpanel::stream::{
    json_candidate, pump, strip_ansi, BoundedForwarder, CappedLines, Losses, Offer, RawLine,
    SendOutcome, StreamEvent, CHANNEL_CAPACITY, MAX_LINE_LENGTH,
};
use tokio::sync::mpsc;

#[test]
fn strips_csi_colors_and_stray_controls() {
    assert_eq!(
        strip_ansi("\x1b[1;31merror:\x1b[0m fine \x1b[4munderlined\x1b[0m"),
        "error: fine underlined"
    );
    assert_eq!(strip_ansi("\u{1}\u{2}\u{7f} pre-JSON garbage"), " pre-JSON garbage");
    assert_eq!(strip_ansi("\x1b]0;window title\x07visible"), "visible");
    assert_eq!(strip_ansi("keep\tthe tab"), "keep\tthe tab");
    assert!(matches!(strip_ansi("already clean"), Cow::Borrowed(_)));
}

#[test]
fn strips_unfinished_and_nested_escapes() {
    assert_eq!(strip_ansi("a\x1b"), "a");
    assert_eq!(strip_ansi("a\x1b[12"), "a");
    assert_eq!(strip_ansi("a\x1b]title"), "a");
    assert_eq!(strip_ansi("a\x1b]title\x1b\\b"), "ab");
    assert_eq!(strip_ansi("a\x1bcb"), "ab");
    assert_eq!(strip_ansi("é\u{85}ü"), "éü");
    assert!(matches!(strip_ansi("tab\tonly"), Cow::Owned(_)));
}

#[test]
fn stripping_twice_is_stripping_once() {
    for raw in ["\x1b\x1b[31mx", "\x1b]a\x1bb\x1b[0mc", "x\u{1}\t\u{9f}y"] {
        let once = strip_ansi(raw).into_owned();
        assert_eq!(strip_ansi(&once), once);
    }
}

#[test]
fn stderr_ansi_is_stripped() {
    let item = RawLine::Line(
        "\x1b[1;31merror:\x1b[0m \x1b[32mall good actually\x1b[0m \x1b[4munderlined\x1b[0m".into(),
    );
    let line = pump(item).unwrap();
    assert!(!line.contains('\x1b'), "ANSI escape survived: {line:?}");
    assert_eq!(line, "error: all good actually underlined");
}

#[test]
fn stdout_garbage_bytes_are_stripped() {
    assert_eq!(
        pump(RawLine::Line("mock-mcp-server booting...".into())).unwrap(),
        "mock-mcp-server booting..."
    );
    let line = pump(RawLine::Line("\u{1}\u{2}\u{7f} pre-JSON garbage bytes".into())).unwrap();
    assert!(line.chars().all(|c| !c.is_control()), "control bytes survived: {line:?}");
    assert_eq!(line, " pre-JSON garbage bytes");
    assert_eq!(pump(RawLine::Oversized), None);
}

#[test]
fn json_candidate_trims_garbage_prefixes() {
    assert_eq!(
        json_candidate("junk>>{\"jsonrpc\":\"2.0\"}"),
        Some("{\"jsonrpc\":\"2.0\"}")
    );
    assert_eq!(json_candidate("no json here"), None);
    assert_eq!(json_candidate("ü{é{"), Some("{é{"));
}

fn drain(lines: &mut CappedLines, buf: &mut BytesMut) -> Vec<RawLine> {
    let mut out = Vec::new();
    while let Some(item) = lines.decode(buf) {
        out.push(item);
    }
    out
}

fn line(text: &str) -> RawLine {
    RawLine::Line(text.into())
}

/// Pump bytes through the framing, the sanitizer and a forwarder, as the pump
/// task does, with nobody draining the channel meanwhile.
fn pump_into(input: &[u8], capacity: usize) -> Vec<StreamEvent> {
    let (tx, mut rx) = mpsc::channel(capacity);
    let mut lines = CappedLines::default();
    let mut forwarder = BoundedForwarder::new(tx);
    let mut buf = BytesMut::from(input);
    loop {
        let item = match lines.decode_eof(&mut buf) {
            Some(item) => item,
            None => break,
        };
        match pump(item) {
            Some(line) => assert!(forwarder.offer(StreamEvent::Line(line))),
            None => forwarder.lose(1),
        }
    }
    let (tx, marker) = forwarder.finish();
    let mut events = Vec::new();
    while let Ok(event) = rx.try_recv() {
        events.push(event);
    }
    // The channel is drained, so there is room for the final marker.
    if let Some(marker) = marker {
        tx.try_send(marker).unwrap();
    }
    while let Ok(event) = rx.try_recv() {
        events.push(event);
    }
    events
}

#[test]
fn full_channel_drops_lines_and_reports_the_gap() {
    let input: Vec<u8> = (0..100).flat_map(|n| format!("line {n}\n").into_bytes()).collect();
    let mut lines = 0u64;
    let mut dropped = 0u64;
    for event in pump_into(&input, 4) {
        match event {
            StreamEvent::Line(_) => lines += 1,
            StreamEvent::Dropped(n) => dropped += n,
        }
    }
    assert_eq!(lines + dropped, 100, "no line may vanish unaccounted");
    assert!(lines <= 5, "channel bound was not respected: {lines}");
    assert!(dropped >= 95);
}

#[test]
fn oversized_lines_are_discarded_and_counted() {
    let mut input = b"before\n".to_vec();
    input.extend(std::iter::repeat(b'x').take(MAX_LINE_LENGTH + 100));
    input.extend(b"\nafter\n");
    assert_eq!(
        pump_into(&input, 16),
        vec![
            StreamEvent::Line("before".into()),
            StreamEvent::Dropped(1),
            StreamEvent::Line("after".into()),
        ]
    );
}

#[test]
fn flooding_server_is_bounded_not_buffered() {
    let input: Vec<u8> = (1..5000).flat_map(|n| format!("{{\"spam\":{n}}}\n").into_bytes()).collect();
    let mut lines = 0usize;
    let mut dropped = 0u64;
    for event in pump_into(&input, CHANNEL_CAPACITY) {
        match event {
            StreamEvent::Line(_) => lines += 1,
            StreamEvent::Dropped(n) => dropped += n,
        }
    }
    assert!(lines <= CHANNEL_CAPACITY + 1, "buffered {lines} lines — bound not enforced");
    assert!(dropped > 0, "a flood should overflow the channel");
    assert_eq!(lines as u64 + dropped, 4999);
}

#[test]
fn frames_lines_with_either_line_ending() {
    let mut lines = CappedLines::default();
    let mut buf = BytesMut::from(&b"one\r\ntwo\n\n\r\nrest"[..]);
    assert_eq!(
        drain(&mut lines, &mut buf),
        vec![line("one"), line("two"), line(""), line("")]
    );
    assert_eq!(&buf[..], b"rest");
    assert_eq!(lines.decode_eof(&mut buf), Some(line("rest")));
    assert_eq!(lines.decode_eof(&mut buf), None);
}

#[test]
fn invalid_utf8_is_replaced() {
    let mut lines = CappedLines::default();
    let mut buf = BytesMut::from(&b"a\xffb\n"[..]);
    assert_eq!(lines.decode(&mut buf), Some(line("a\u{fffd}b")));
}

#[test]
fn framing_does_not_depend_on_the_chunks() {
    let mut input = b"first\r\n".to_vec();
    input.extend(std::iter::repeat(b'x').take(MAX_LINE_LENGTH + 1));
    input.extend(b"\nlast\nopen");
    let mut whole = CappedLines::default();
    let mut buf = BytesMut::from(&input[..]);
    let expected = drain(&mut whole, &mut buf);
    assert_eq!(expected, vec![line("first"), RawLine::Oversized, line("last")]);
    for at in [1, 6, 7, 500, MAX_LINE_LENGTH + 7, MAX_LINE_LENGTH + 8, MAX_LINE_LENGTH + 9] {
        let mut lines = CappedLines::default();
        let mut buf = BytesMut::from(&input[..at]);
        let mut items = drain(&mut lines, &mut buf);
        buf.extend_from_slice(&input[at..]);
        items.extend(drain(&mut lines, &mut buf));
        assert_eq!(items, expected, "split at {at}");
        assert_eq!(&buf[..], b"open");
    }
}

#[test]
fn a_line_on_the_brink_depends_on_when_its_line_feed_arrives() {
    let mut bytes = vec![b'x'; MAX_LINE_LENGTH];
    bytes.extend(b"\r");
    let mut early = CappedLines::default();
    let mut buf = BytesMut::from(&bytes[..]);
    assert_eq!(early.decode(&mut buf), Some(RawLine::Oversized));
    bytes.extend(b"\n");
    let mut late = CappedLines::default();
    let mut buf = BytesMut::from(&bytes[..]);
    assert!(matches!(late.decode(&mut buf), Some(RawLine::Line(_))));
}

#[test]
fn an_oversized_tail_is_skipped_without_a_second_report() {
    let mut lines = CappedLines::default();
    let mut buf = BytesMut::from(&vec![b'x'; MAX_LINE_LENGTH + 1][..]);
    assert_eq!(drain(&mut lines, &mut buf), vec![RawLine::Oversized]);
    buf.extend_from_slice(b"more of it");
    assert_eq!(drain(&mut lines, &mut buf), vec![]);
    assert_eq!(lines.decode_eof(&mut buf), None);
    buf.extend_from_slice(b"tail\nnext\n");
    assert_eq!(drain(&mut lines, &mut buf), vec![line("next")]);
}

#[test]
fn a_marker_goes_out_before_the_next_item() {
    let mut losses = Losses { lost: 3 };
    assert_eq!(losses.offer(), Offer::SendMarker(3));
    assert_eq!(losses.marker_offered(SendOutcome::Sent), Offer::SendItem);
    assert_eq!(losses.lost, 0);
    assert_eq!(losses.item_offered(SendOutcome::Full), Offer::Settled(true));
    assert_eq!(losses.lost, 1);
    assert_eq!(losses.marker_offered(SendOutcome::Full), Offer::Settled(true));
    assert_eq!(losses.lost, 2);
    assert_eq!(losses.marker_offered(SendOutcome::Closed), Offer::Settled(false));
    assert_eq!(losses.item_offered(SendOutcome::Closed), Offer::Settled(false));
    losses.lose(5);
    assert_eq!(losses.lost, 7);
}

#[test]
fn a_gone_receiver_is_noticed() {
    let (tx, rx) = mpsc::channel(1);
    drop(rx);
    let mut forwarder = BoundedForwarder::new(tx);
    assert!(!forwarder.offer(StreamEvent::Line("x".into())));
    assert_eq!(forwarder.lost(), 0);
}
