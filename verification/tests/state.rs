use mcpanel::json::{parse_json, Json};
use mcpanel::process::KillHandle;
use mcpanel::protocol::ServerHandshake;
use mcpanel::state::{sse_payload, AppEvent, AppState, LogStream, RunningServer, ServerStatus};

fn runtime(ticket: u64) -> RunningServer {
    RunningServer {
        pid: 77,
        ticket,
        kill: KillHandle::of_child(77),
        handshake: ServerHandshake {
            protocol_version: "2025-06-18".into(),
            capabilities: Json::empty_object(),
            server_info: Json::empty_object(),
        },
    }
}

#[test]
fn unknown_servers_are_stopped() {
    assert_eq!(AppState::new().status(42), ServerStatus::Stopped);
}

#[test]
fn set_status_updates_registry_and_broadcasts() {
    let mut state = AppState::new();
    let mut events = state.subscribe();

    state.set_status(1, ServerStatus::Starting);
    assert_eq!(state.status(1), ServerStatus::Starting);
    assert!(matches!(
        events.try_recv().unwrap(),
        AppEvent::StatusChanged {
            server_id: 1,
            status: ServerStatus::Starting
        }
    ));

    state.set_status(1, ServerStatus::Stopped);
    assert_eq!(state.status(1), ServerStatus::Stopped);
    assert!(state.is_empty());
}

#[test]
fn start_guard_settles_on_drop_and_blocks_double_start() {
    let mut state = AppState::new();
    assert!(state.has_tickets());

    let guard = state.try_begin_start(1).expect("first claim");
    assert_eq!(state.status(1), ServerStatus::Starting);
    let handle = state.start_handle(1).expect("handle during Starting");
    assert!(!state.is_settled(handle.ticket));

    // A second claim while a start is in flight must fail.
    assert!(state.try_begin_start(1).is_none());

    state.settle(guard);
    assert!(state.is_settled(handle.ticket), "the start is settled");
}

#[test]
fn stopped_clears_the_start_handle() {
    let mut state = AppState::new();
    let _guard = state.try_begin_start(1).expect("claim");
    assert!(state.start_handle(1).is_some());

    state.set_status(1, ServerStatus::Stopped);
    assert!(state.start_handle(1).is_none());
    assert!(state.is_empty());
}

#[test]
fn errored_entry_can_be_reclaimed_with_a_fresh_handle() {
    let mut state = AppState::new();
    let guard = state.try_begin_start(1).expect("claim");
    state.cancel(guard.token());
    state.set_status(
        1,
        ServerStatus::Errored {
            message: "boom".into(),
        },
    );
    state.settle(guard);

    let fresh = state.try_begin_start(1).expect("reclaim after Errored");
    assert!(
        !state.is_cancelled(fresh.token()),
        "reclaim must install a fresh, uncancelled token"
    );
}

#[test]
fn a_cancelled_start_is_never_installed() {
    let mut state = AppState::new();
    let guard = state.try_begin_start(1).expect("claim");
    state.cancel(guard.token());
    assert!(!state.try_install_runtime(1, runtime(guard.token())));
    assert_eq!(state.status(1), ServerStatus::Starting);
    assert!(!state.try_install_runtime(2, runtime(guard.token())), "no entry at all");
}

#[test]
fn a_crash_drops_the_runtime() {
    let mut state = AppState::new();
    let guard = state.try_begin_start(1).expect("claim");
    assert!(state.try_install_runtime(1, runtime(guard.token())));
    assert_eq!(state.status(1), ServerStatus::Running);
    assert_eq!(state.runtime(1).unwrap().pid, 77);
    assert!(state.start_handle(1).is_none());
    assert!(state.try_begin_start(1).is_none(), "running servers are not started again");

    state.set_status(1, ServerStatus::Errored { message: "gone".into() });
    assert!(state.runtime(1).is_none());
}

#[test]
fn servers_do_not_interfere() {
    let mut state = AppState::new();
    let _one = state.try_begin_start(1).expect("claim");
    let two = state.try_begin_start(2).expect("claim");
    state.cancel(two.token());
    state.set_status(2, ServerStatus::Stopped);
    assert_eq!(state.status(1), ServerStatus::Starting);
    assert!(!state.is_cancelled(state.start_handle(1).unwrap().ticket));
}

#[test]
fn events_serialize_to_stable_ui_shape() {
    let event = AppEvent::Log {
        server_id: 7,
        stream: LogStream::Stderr,
        line: "boot ok".into(),
    };
    assert_eq!(
        event.to_json(),
        parse_json(r#"{"type":"log","server_id":7,"stream":"stderr","line":"boot ok"}"#).unwrap()
    );

    let event = AppEvent::StatusChanged {
        server_id: 7,
        status: ServerStatus::Errored {
            message: "handshake timeout".into(),
        },
    };
    assert_eq!(
        event.to_json(),
        parse_json(
            r#"{"type":"status_changed","server_id":7,
                "status":{"state":"errored","message":"handshake timeout"}}"#
        )
        .unwrap()
    );
}

#[test]
fn every_event_and_status_has_its_shape() {
    let shape = |event: AppEvent| event.to_json().to_text();
    assert_eq!(
        shape(AppEvent::LogGap { server_id: 3, stream: LogStream::Stdout, dropped: 412 }),
        r#"{"dropped":412,"server_id":3,"stream":"stdout","type":"log_gap"}"#
    );
    assert_eq!(
        shape(AppEvent::Notification {
            server_id: 3,
            payload: parse_json(r#"{"jsonrpc":"2.0","method":"m"}"#).unwrap(),
        }),
        r#"{"payload":{"jsonrpc":"2.0","method":"m"},"server_id":3,"type":"notification"}"#
    );
    assert_eq!(
        shape(AppEvent::NotificationGap { server_id: 3, dropped: u64::MAX }),
        r#"{"dropped":18446744073709551615,"server_id":3,"type":"notification_gap"}"#
    );
    for (status, name) in [
        (ServerStatus::Stopped, "stopped"),
        (ServerStatus::Starting, "starting"),
        (ServerStatus::Initializing, "initializing"),
        (ServerStatus::Running, "running"),
    ] {
        assert_eq!(status.to_json().to_text(), format!(r#"{{"state":"{name}"}}"#));
    }
    assert_eq!(sse_payload(Err(42)), r#"{"type":"lagged","missed":42}"#);
    assert_eq!(
        sse_payload(Ok(AppEvent::StatusChanged { server_id: 3, status: ServerStatus::Running })),
        r#"{"server_id":3,"status":{"state":"running"},"type":"status_changed"}"#
    );
}

#[test]
fn a_subscriber_joins_behind_what_was_published() {
    let gap = |dropped| AppEvent::NotificationGap { server_id: 1, dropped };
    let mut state = AppState::new();
    let mut early = state.subscribe();
    state.publish(gap(1));
    let mut late = state.subscribe();
    assert!(late.try_recv().is_err(), "nothing was published since");
    state.publish(gap(2));
    assert_eq!(late.try_recv().unwrap(), gap(2));
    assert!(late.try_recv().is_err());
    assert_eq!(early.try_recv().unwrap(), gap(1));
    assert_eq!(early.try_recv().unwrap(), gap(2));
}

#[test]
fn a_start_that_ended_without_a_runtime_is_not_in_flight() {
    let mut state = AppState::new();
    let guard = state.try_begin_start(1).unwrap();
    state.set_status(1, ServerStatus::Initializing);
    assert!(state.start_handle(1).is_some());
    state.set_status(1, ServerStatus::Errored { message: "boom".into() });
    assert!(state.start_handle(1).is_none());
    state.settle(guard);
    assert!(state.start_handle(1).is_none());

    // One that settles without a status of its own is not in flight either.
    let guard = state.try_begin_start(2).unwrap();
    let ticket = guard.token();
    state.settle(guard);
    assert!(state.start_handle(2).is_none());
    assert!(!state.try_install_runtime(2, runtime(ticket)));
}
