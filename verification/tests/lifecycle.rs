use std::collections::BTreeMap;

use mcpanel::db::{require_changed, EnvValue, NewServer, ServerRecord};
use mcpanel::error::{AppError, AppResult};
use mcpanel::fixture::{flags_of, read_message, serve, Flags};
use mcpanel::json::{parse_json, Json};
use mcpanel::lifecycle::{
    add, delete_secret, exited, fan_out_lines, fan_out_notifications, grace_ended, kill_confirmed,
    list, remove, remove_loaded, remove_step, set_secret, start, start_auto_servers, start_settled,
    stop, update, AfterHandshake, AfterLoad, AfterResolve, AfterSpawn, Handshaking, Raced,
    RemoveStep, Removed, StopStep, CANCEL_SETTLE_TIMEOUT, KILL_CONFIRM_TIMEOUT,
};
use mcpanel::process::{KillHandle, ProcessConfig, Signal, SignalPlan, SHUTDOWN_GRACE};
use mcpanel::protocol::{
    handshake, initialize_params, route, Dispatched, McpClient, NotificationEvent, Routed, Waited,
};
use mcpanel::secrets::resolve_env;
use mcpanel::server::{mcp_forward, AuthToken, ForwardRequest, Gateway};
use mcpanel::state::{sse_payload, AppEvent, AppState, LogStream, ServerStatus, EVENT_CAPACITY};
use mcpanel::stream::{pump, RawLine, StreamEvent};
use mcpanel::strmap::StrMap;
use tokio::sync::broadcast::error::TryRecvError;
use tokio::sync::oneshot;

/// The panel on a simulated machine: rows in a map, and children that are
/// process ids until a kill reaches their group.
struct Panel {
    state: AppState,
    rows: BTreeMap<i64, ServerRecord>,
    alive: Vec<i32>,
    next_id: i64,
    next_pid: u32,
}

fn server(name: &str, args: &[&str], auto_start: bool) -> NewServer {
    NewServer {
        name: name.into(),
        command: "mock-mcp-server".into(),
        args: args.iter().map(|a| a.to_string()).collect(),
        env: StrMap::new(),
        cwd: None,
        auto_start,
    }
}

impl Panel {
    fn new() -> Panel {
        Panel {
            state: AppState::new(),
            rows: BTreeMap::new(),
            alive: Vec::new(),
            next_id: 1,
            next_pid: 1000,
        }
    }

    fn add(&mut self, new: NewServer) -> i64 {
        assert!(add(&new, true).is_ok());
        let id = self.next_id;
        self.next_id += 1;
        let record = ServerRecord {
            id,
            name: new.name,
            command: new.command,
            args: new.args,
            env: new.env,
            cwd: new.cwd,
            auto_start: new.auto_start,
        };
        self.rows.insert(id, record);
        id
    }

    fn load(&self, id: i64) -> AppResult<ServerRecord> {
        match self.rows.get(&id) {
            Some(record) => Ok(record.clone()),
            None => Err(AppError::ServerNotFound(id.to_string())),
        }
    }

    fn spawn(&mut self, config: &ProcessConfig) -> AppResult<u32> {
        if config.command != "mock-mcp-server" {
            return Err(AppError::Io("No such file or directory (os error 2)".into()));
        }
        let pid = self.next_pid;
        self.next_pid += 1;
        self.alive.push(pid as i32);
        Ok(pid)
    }

    fn signal(&mut self, plan: SignalPlan, obeys: bool) {
        assert!(plan.target < 0, "the whole group is signalled");
        if plan.signal == Signal::Kill || obeys {
            self.alive.retain(|pid| *pid != -plan.target);
        }
    }

    /// Everything of a start up to the handshake.
    fn begin(&mut self, id: i64) -> Result<Option<(Handshaking, Flags)>, AppError> {
        let loading = match start(&mut self.state, id) {
            Some(loading) => loading,
            None => return Ok(None),
        };
        let row = self.load(id);
        let (resolving, record) = match loading.loaded(&mut self.state, Raced::Ready(row)) {
            AfterLoad::Resolve(resolving, record) => (resolving, record),
            AfterLoad::Finished(end) => return end.map(|()| None),
        };
        let mut resolver = resolve_env(&record);
        assert!(resolver.next_account().is_none(), "no secrets here");
        let env = resolver.finish();
        let (spawning, config) = match resolving.resolved(&mut self.state, Raced::Ready(Ok(env))) {
            AfterResolve::Spawn(spawning, config) => (spawning, config),
            AfterResolve::Finished(end) => return end.map(|()| None),
        };
        assert_eq!(config.args, record.args);
        let child = self.spawn(&config);
        match spawning.spawned(&mut self.state, child) {
            AfterSpawn::Handshake(handshaking) => Ok(Some((handshaking, flags_of(&config.args)))),
            AfterSpawn::Finished(end) => end.map(|()| None),
        }
    }

    fn end(&mut self, handshaking: Handshaking, reply: Raced<AppResult<mcpanel::protocol::ServerHandshake>>) -> AppResult<()> {
        match handshaking.handshaken(&mut self.state, reply) {
            AfterHandshake::Running(end) => end,
            AfterHandshake::TearDown { tearing, plan, wait } => {
                assert_eq!((plan.signal, wait), (Signal::Kill, KILL_CONFIRM_TIMEOUT));
                self.signal(plan, true);
                tearing.torn_down(&mut self.state)
            }
        }
    }

    fn start(&mut self, id: i64) -> AppResult<()> {
        match self.begin(id)? {
            Some((handshaking, flags)) => {
                let shaken = shake(&flags);
                self.end(handshaking, Raced::Ready(shaken))
            }
            None => Ok(()),
        }
    }

    /// A stop, where the child exits at the polite signal or does not.
    fn stop(&mut self, id: i64, obeys: bool) -> AppResult<()> {
        let step = stop(&mut self.state, id);
        self.carry_on(id, step, obeys)
    }

    fn carry_on(&mut self, id: i64, step: StopStep, obeys: bool) -> AppResult<()> {
        match step {
            StopStep::AwaitSettled(_) => panic!("no start is in flight"),
            StopStep::Finished(end) => end,
            StopStep::Signal { plan, kill, wait } => {
                assert_eq!((plan.signal, wait), (Signal::Terminate, SHUTDOWN_GRACE));
                let ticket = self.state.runtime(id).unwrap().ticket;
                self.signal(plan, obeys);
                if obeys {
                    exited(&mut self.state, id, ticket, "signal: 15 (SIGTERM)");
                }
                match grace_ended(kill, obeys) {
                    StopStep::Finished(end) => end,
                    StopStep::Signal { plan, kill: _, wait } => {
                        assert_eq!((plan.signal, wait), (Signal::Kill, KILL_CONFIRM_TIMEOUT));
                        self.signal(plan, false);
                        exited(&mut self.state, id, ticket, "signal: 9 (SIGKILL)");
                        kill_confirmed(id, true)
                    }
                    StopStep::AwaitSettled(_) => panic!("there is nothing to await"),
                }
            }
        }
    }

    /// A removal of a server without a start in flight.
    fn remove(&mut self, id: i64) -> AppResult<()> {
        let mut step = remove();
        loop {
            step = match step {
                RemoveStep::StopFirst => {
                    let stopped = self.stop(id, true);
                    remove_step(Removed::StoppedFirst, stopped)
                }
                RemoveStep::Load => remove_loaded(self.load(id)),
                RemoveStep::DeleteSecrets(accounts) => {
                    assert!(accounts.is_empty());
                    remove_step(Removed::SecretsDeleted, Ok(()))
                }
                RemoveStep::DeleteRow => {
                    let changed = self.rows.remove(&id).map_or(0, |_| 1);
                    remove_step(Removed::RowDeleted, require_changed(changed, id))
                }
                RemoveStep::StopAgain => {
                    let stopped = self.stop(id, true);
                    remove_step(Removed::StoppedAgain, stopped)
                }
                RemoveStep::Finished(end) => return end,
            };
        }
    }

    fn listed(&self) -> usize {
        list(&self.state, self.rows.values().cloned().collect()).len()
    }
}

/// The handshake with the fixture, over its wire format.
fn shake(flags: &Flags) -> AppResult<mcpanel::protocol::ServerHandshake> {
    let mut client = McpClient::new();
    let (tx, mut rx) = oneshot::channel();
    let (id, frame) = client.request("initialize", initialize_params(), tx)?;
    if let Some(message) = read_message(flags, &frame) {
        for reply in serve(flags, &message) {
            match route(StreamEvent::Line(reply.to_text())) {
                Routed::Dispatch(frame) => {
                    assert!(matches!(client.dispatch(frame), Dispatched::Resolved(_)))
                }
                _ => panic!("a frame is dispatched"),
            }
        }
    }
    let waited = match rx.try_recv() {
        Ok(outcome) => Waited::Answered(outcome),
        Err(_) => Waited::TimedOut,
    };
    handshake(client.finish_request(id, "initialize", waited)).map(|(shaken, _)| shaken)
}

fn statuses(events: &mut tokio::sync::broadcast::Receiver<AppEvent>, id: i64) -> Vec<ServerStatus> {
    let mut seen = Vec::new();
    while let Ok(event) = events.try_recv() {
        if let AppEvent::StatusChanged { server_id, status } = event {
            assert_eq!(server_id, id);
            seen.push(status);
        }
    }
    seen
}

#[test]
fn full_lifecycle_walks_the_state_machine() {
    let mut panel = Panel::new();
    let mut events = panel.state.subscribe();
    let id = panel.add(server("happy", &[], false));

    panel.start(id).expect("start");
    assert_eq!(panel.state.status(id), ServerStatus::Running);

    let runtime = panel.state.runtime(id).expect("runtime installed");
    assert_eq!(
        runtime.handshake.server_info.get("name").and_then(|n| n.as_str()),
        Some("mock-mcp-server")
    );
    assert!(panel.alive.contains(&(runtime.pid as i32)), "server process running");

    // The UI saw the whole state machine, in order.
    assert_eq!(
        statuses(&mut events, id),
        vec![ServerStatus::Starting, ServerStatus::Initializing, ServerStatus::Running]
    );

    // Idempotent start while running is a no-op.
    panel.start(id).expect("noop start");
    assert_eq!(panel.state.status(id), ServerStatus::Running);
    assert_eq!(panel.alive.len(), 1);

    panel.stop(id, true).expect("stop");
    assert_eq!(panel.state.status(id), ServerStatus::Stopped);
    assert!(panel.state.runtime(id).is_none(), "registry entry cleared");
    assert!(panel.alive.is_empty());
}

#[test]
fn a_stubborn_server_is_killed_after_the_grace_period() {
    let mut panel = Panel::new();
    let id = panel.add(server("stubborn", &[], false));
    panel.start(id).expect("start");
    panel.stop(id, false).expect("stop");
    assert_eq!(panel.state.status(id), ServerStatus::Stopped);
    assert!(panel.alive.is_empty());
    assert_eq!(kill_confirmed(3, false), Err(AppError::Timeout("stopping server 3".into())));
}

#[test]
fn handshake_failure_tears_down_and_marks_errored() {
    let mut panel = Panel::new();
    let id = panel.add(server("mute", &["--no-handshake"], false));

    let err = panel.start(id).expect_err("handshake must time out");
    assert!(matches!(err, AppError::Timeout(_)));
    match panel.state.status(id) {
        ServerStatus::Errored { message } => assert_eq!(message, "operation timed out: initialize"),
        _ => panic!("a failed start is errored"),
    }
    assert!(panel.state.runtime(id).is_none(), "no runtime for a failed start");
    assert!(panel.alive.is_empty(), "the tree is torn down");

    // Stop clears the Errored entry back to Stopped, and a restart is allowed
    // (it fails the same way, but the guard lets it through).
    panel.stop(id, true).expect("clear errored");
    assert_eq!(panel.state.status(id), ServerStatus::Stopped);
    assert!(panel.start(id).is_err());
}

#[test]
fn crash_is_reported_as_errored() {
    let mut panel = Panel::new();
    let id = panel.add(server("crashy", &[], false));
    panel.start(id).expect("start");

    let ticket = panel.state.runtime(id).expect("runtime").ticket;
    exited(&mut panel.state, id, ticket, "signal: 9 (SIGKILL)");
    match panel.state.status(id) {
        ServerStatus::Errored { message } => {
            assert!(message.contains("unexpectedly"), "got: {message}");
            assert_eq!(message, "server exited unexpectedly (signal: 9 (SIGKILL))");
        }
        other => panic!("expected Errored, got {other:?}"),
    }
    assert!(panel.start(id).is_ok(), "a crashed server can be started again");
}

#[test]
fn crashed_server_returns_not_found() {
    let mut panel = Panel::new();
    let gateway = Gateway {
        token: AuthToken::from_bytes(&vec![1, 2, 3]),
        host: "127.0.0.1:4321".into(),
    };
    let id = panel.add(server("gw-crash", &[], false));
    panel.start(id).expect("start");
    let ticket = panel.state.runtime(id).expect("runtime").ticket;

    let post = |state: &AppState| {
        let body = Ok(ForwardRequest {
            method: "ping".into(),
            params: Json::Null,
            id: Some(Json::from_i64(1)),
        });
        let runtime = state.runtime(id);
        mcp_forward(&gateway, Some("127.0.0.1:4321"), Some("Bearer 010203"), id, None, body, &runtime)
    };
    assert!(post(&panel.state).is_ok());
    exited(&mut panel.state, id, ticket, "exit status: 1");
    assert!(matches!(panel.state.status(id), ServerStatus::Errored { .. }));
    match post(&panel.state) {
        Err(error) => assert_eq!(error.status(), 404),
        Ok(_) => panic!("nothing is forwarded to a dead child"),
    }
}

#[test]
fn sse_delivers_ready_events_and_lagged_markers() {
    let mut state = AppState::new();
    let mut events = state.subscribe();

    // A published event arrives serialized.
    state.publish(AppEvent::StatusChanged { server_id: 7, status: ServerStatus::Running });
    let seen = sse_payload(Ok(events.try_recv().unwrap()));
    assert!(seen.contains(r#""type":"status_changed""#), "{seen}");
    assert!(seen.contains(r#""server_id":7"#), "payload intact: {seen}");

    // Overflow the channel: the loss surfaces as a lagged marker, not silence.
    for i in 0..2000u64 {
        state.publish(AppEvent::LogGap { server_id: 7, stream: LogStream::Stdout, dropped: i });
    }
    let missed = match events.try_recv() {
        Err(TryRecvError::Lagged(missed)) => missed,
        other => panic!("expected a lag, got {other:?}"),
    };
    let lagged = sse_payload(Err(missed));
    assert!(lagged.contains(r#""type":"lagged""#), "{lagged}");
    let mut left = 0;
    while events.try_recv().is_ok() {
        left += 1;
    }
    assert_eq!(missed + left, 2000);
    assert!(left as usize >= EVENT_CAPACITY);
}

#[test]
fn logs_and_notifications_fan_out_to_app_events() {
    let id = 6;
    let raw = "\u{1b}[1;31merror:\u{1b}[0m all good actually";
    let line = pump(RawLine::Line(raw.into())).unwrap();
    match fan_out_lines(id, LogStream::Stderr, StreamEvent::Line(line)) {
        AppEvent::Log { server_id: 6, stream: LogStream::Stderr, line } => {
            assert!(!line.contains('\u{1b}'), "ANSI reached the UI: {line:?}");
            assert!(line.contains("error: all good actually"));
        }
        _ => panic!("a line becomes a log event"),
    }
    let booting = match route(StreamEvent::Line("mock-mcp-server booting...".into())) {
        Routed::Log(line) => line,
        _ => panic!("garbage falls back to the log"),
    };
    match fan_out_lines(id, LogStream::Stdout, StreamEvent::Line(booting)) {
        AppEvent::Log { stream: LogStream::Stdout, line, .. } => assert!(line.contains("booting")),
        _ => panic!("a line becomes a log event"),
    }
    assert!(matches!(
        fan_out_lines(id, LogStream::Stdout, StreamEvent::Dropped(5)),
        AppEvent::LogGap { server_id: 6, stream: LogStream::Stdout, dropped: 5 }
    ));
    let flags = flags_of(&vec!["--notify".to_string()]);
    let initialized = parse_json(r#"{"method":"notifications/initialized"}"#).unwrap();
    let frame = serve(&flags, &initialized).remove(0);
    match McpClient::new().dispatch(frame) {
        Dispatched::Notify(payload) => {
            match fan_out_notifications(id, NotificationEvent::Frame(payload)) {
                AppEvent::Notification { server_id: 6, payload } => assert_eq!(
                    payload.get("method").and_then(|m| m.as_str()),
                    Some("notifications/message")
                ),
                _ => panic!("a frame becomes a notification event"),
            }
        }
        _ => panic!("expected a notification"),
    }
    assert!(matches!(
        fan_out_notifications(id, NotificationEvent::Gap(3)),
        AppEvent::NotificationGap { server_id: 6, dropped: 3 }
    ));
}

#[test]
fn start_unknown_server_fails_without_ghost_entry() {
    let mut panel = Panel::new();
    let err = panel.start(4242).expect_err("unknown id");
    assert!(matches!(err, AppError::ServerNotFound(_)));
    assert_eq!(panel.state.status(4242), ServerStatus::Stopped);
    assert!(panel.state.is_empty());
}

#[test]
fn remove_stops_then_deletes() {
    let mut panel = Panel::new();
    let id = panel.add(server("doomed", &[], false));
    panel.start(id).expect("start");

    panel.remove(id).expect("remove");
    assert!(panel.alive.is_empty());
    assert_eq!(panel.listed(), 0);
    assert!(matches!(panel.remove(id), Err(AppError::ServerNotFound(_))));
}

#[test]
fn auto_start_sweep_starts_only_marked_servers() {
    let mut panel = Panel::new();
    let auto = panel.add(server("auto", &[], true));
    let manual = panel.add(server("manual", &[], false));
    let mut broken = server("auto-broken", &[], true);
    broken.command = "/nonexistent/binary".into();
    let broken = panel.add(broken);

    let sweep = start_auto_servers(&panel.rows.values().cloned().collect());
    assert_eq!(sweep, [auto, broken]);
    for id in sweep {
        let _ = panel.start(id);
    }

    assert_eq!(panel.state.status(auto), ServerStatus::Running);
    assert_eq!(panel.state.status(manual), ServerStatus::Stopped);
    assert!(
        matches!(panel.state.status(broken), ServerStatus::Errored { .. }),
        "broken auto-start server is Errored, not fatal"
    );
    panel.stop(auto, true).expect("cleanup");
}

#[test]
fn stop_cancels_start_during_initializing() {
    let mut panel = Panel::new();
    let id = panel.add(server("hung", &["--no-handshake"], false));
    let (handshaking, _) = panel.begin(id).ok().unwrap().expect("in flight");
    assert_eq!(panel.state.status(id), ServerStatus::Initializing);

    let ticket = match stop(&mut panel.state, id) {
        StopStep::AwaitSettled(ticket) => ticket,
        _ => panic!("a start in flight is cancelled first"),
    };
    assert!(panel.state.is_cancelled(ticket));
    assert!(!panel.state.is_settled(ticket));

    // The start task notices, kills the tree and settles.
    let started = panel.end(handshaking, Raced::Cancelled);
    started.expect("cancelled start returns Ok — the stop won");
    assert!(panel.state.is_settled(ticket));
    let step = start_settled(&mut panel.state, id, true);
    panel.carry_on(id, step, true).expect("cancel via stop");

    assert_eq!(panel.state.status(id), ServerStatus::Stopped);
    assert!(panel.state.runtime(id).is_none(), "no runtime after cancel");
    assert!(panel.alive.is_empty());
}

#[test]
fn a_cancel_that_comes_late_still_wins() {
    // The handshake succeeded, but the cancel came before the install.
    let mut panel = Panel::new();
    let id = panel.add(server("late", &[], false));
    let (handshaking, flags) = panel.begin(id).ok().unwrap().expect("in flight");
    assert!(matches!(stop(&mut panel.state, id), StopStep::AwaitSettled(_)));
    panel.end(handshaking, Raced::Ready(shake(&flags))).expect("the stop won");
    assert_eq!(panel.state.status(id), ServerStatus::Stopped);
    assert!(panel.alive.is_empty());
    // A failure behind a cancel is an artifact of the teardown.
    let (handshaking, _) = panel.begin(id).ok().unwrap().expect("in flight");
    assert!(matches!(stop(&mut panel.state, id), StopStep::AwaitSettled(_)));
    panel.end(handshaking, Raced::Ready(Err(AppError::ConnectionClosed))).expect("the stop won");
    assert_eq!(panel.state.status(id), ServerStatus::Stopped);
    // A start that does not settle in time is reported.
    match start_settled(&mut panel.state, id, false) {
        StopStep::Finished(Err(AppError::Timeout(what))) => {
            assert_eq!(what, format!("cancelling start of server {id}"))
        }
        _ => panic!("expected a timeout"),
    }
    assert!(CANCEL_SETTLE_TIMEOUT > KILL_CONFIRM_TIMEOUT);
}

#[test]
fn a_cancel_before_the_spawn_abandons_the_start() {
    let mut panel = Panel::new();
    let id = panel.add(server("early", &[], false));
    let loading = start(&mut panel.state, id).expect("claimed");
    assert!(matches!(stop(&mut panel.state, id), StopStep::AwaitSettled(t) if t == loading.token()));
    match loading.loaded(&mut panel.state, Raced::Cancelled) {
        AfterLoad::Finished(Ok(())) => {}
        _ => panic!("a cancelled start is abandoned"),
    }
    assert_eq!(panel.state.status(id), ServerStatus::Stopped);

    let loading = start(&mut panel.state, id).expect("claimed");
    let row = panel.load(id);
    match loading.loaded(&mut panel.state, Raced::Ready(row)) {
        AfterLoad::Resolve(resolving, _) => {
            match resolving.resolved(&mut panel.state, Raced::Cancelled) {
                AfterResolve::Finished(Ok(())) => {}
                _ => panic!("a cancelled start is abandoned"),
            }
        }
        AfterLoad::Finished(_) => panic!("the row is there"),
    }
    assert!(panel.state.is_empty());
    assert!(panel.alive.is_empty());
}

#[test]
fn remove_while_starting_leaves_no_process_and_no_row() {
    let mut panel = Panel::new();
    let id = panel.add(server("doomed-early", &["--no-handshake"], false));
    let (handshaking, _) = panel.begin(id).ok().unwrap().expect("in flight");

    assert!(matches!(remove(), RemoveStep::StopFirst));
    assert!(matches!(stop(&mut panel.state, id), StopStep::AwaitSettled(_)));
    panel.end(handshaking, Raced::Cancelled).expect("cancelled start is Ok");
    let step = start_settled(&mut panel.state, id, true);
    panel.carry_on(id, step, true).expect("stopped");
    panel.remove(id).expect("remove");

    assert_eq!(panel.listed(), 0);
    assert_eq!(panel.state.status(id), ServerStatus::Stopped);
    assert!(panel.alive.is_empty());
}

#[test]
fn concurrent_start_and_remove_settle_clean() {
    // The removal overtakes the start at each of its waits.
    for round in 0..4 {
        let mut panel = Panel::new();
        let id = panel.add(server(&format!("racer-{round}"), &["--no-handshake"], false));
        let result = match round {
            0 => {
                panel.remove(id).expect("remove succeeds");
                panel.start(id)
            }
            1 => {
                // The row goes between the claim and the lookup.
                let loading = start(&mut panel.state, id).expect("claimed");
                panel.rows.remove(&id);
                let row = panel.load(id);
                match loading.loaded(&mut panel.state, Raced::Ready(row)) {
                    AfterLoad::Finished(end) => end,
                    AfterLoad::Resolve(..) => panic!("the row is gone"),
                }
            }
            2 => {
                let (handshaking, _) = panel.begin(id).ok().unwrap().expect("in flight");
                assert!(matches!(stop(&mut panel.state, id), StopStep::AwaitSettled(_)));
                let end = panel.end(handshaking, Raced::Cancelled);
                panel.remove(id).expect("remove succeeds");
                end
            }
            _ => {
                // The row goes first; the stop behind the delete catches the start.
                let (handshaking, flags) = panel.begin(id).ok().unwrap().expect("in flight");
                panel.rows.remove(&id);
                assert!(matches!(stop(&mut panel.state, id), StopStep::AwaitSettled(_)));
                let end = panel.end(handshaking, Raced::Ready(shake(&flags)));
                let step = start_settled(&mut panel.state, id, true);
                panel.carry_on(id, step, true).expect("stopped");
                end
            }
        };
        match result {
            // Cancelled mid-flight (Ok) or lost the row race entirely.
            Ok(()) => {}
            Err(AppError::ServerNotFound(_)) => {}
            Err(other) => panic!("round {round}: unexpected start error: {other:?}"),
        }
        assert_eq!(panel.listed(), 0, "round {round}: row must be gone");
        assert_eq!(panel.state.status(id), ServerStatus::Stopped, "round {round}");
        assert!(panel.state.is_empty(), "round {round}: no ghost registry entry");
        assert!(panel.alive.is_empty());
    }
}

#[test]
fn a_missing_working_directory_is_refused() {
    let mut new = server("n", &[], false);
    assert!(add(&new, false).is_ok(), "no directory, nothing to miss");
    new.cwd = Some("/no/such".into());
    assert!(add(&new, true).is_ok());
    let refused = || AppError::InvalidInput("working directory does not exist: /no/such".into());
    assert_eq!(add(&new, false), Err(refused()));

    let mut panel = Panel::new();
    let id = panel.add(server("n", &[], false));
    let stored = panel.load(id).unwrap();
    let mut edited = stored.clone();
    edited.cwd = Some("/no/such".into());
    match update(&stored, &edited, false) {
        Err(error) => assert_eq!(error, refused()),
        Ok(_) => panic!("the directory is missing"),
    }
}

#[test]
fn an_update_takes_the_entries_of_lost_markers_with_it() {
    let mut panel = Panel::new();
    let id = panel.add(server("n", &[], false));
    let mut stored = panel.load(id).unwrap();
    for key in ["A", "B", "C"] {
        stored = set_secret(stored, key.to_string()).expect("a new marker");
    }
    assert!(set_secret(stored.clone(), "A".to_string()).is_none(), "marked already");
    let mut edited = delete_secret(stored.clone(), "A").expect("the marker goes");
    assert!(delete_secret(edited.clone(), "A").is_none());
    edited.env.insert("B".to_string(), EnvValue::Plain { value: "v".into() });
    let plan = update(&stored, &edited, true).ok().unwrap();
    assert_eq!(plan.delete, [format!("{id}/A"), format!("{id}/B")]);
    assert_eq!(plan.row.env, r#"{"B":{"kind":"plain","value":"v"},"C":{"kind":"secret"}}"#);
}

#[test]
fn overviews_join_records_and_statuses() {
    let mut panel = Panel::new();
    let first = panel.add(server("a", &["-v"], false));
    panel.add(server("b", &[], true));
    panel.state.set_status(first, ServerStatus::Errored { message: "boom".into() });
    let listed = list(&panel.state, panel.rows.values().cloned().collect());
    assert_eq!(
        listed[0].to_json().to_text(),
        r#"{"args":["-v"],"auto_start":false,"command":"mock-mcp-server","cwd":null,"env":{},"id":1,"name":"a","status":{"message":"boom","state":"errored"}}"#
    );
    assert_eq!(listed[1].status, ServerStatus::Stopped);
}

#[test]
fn signals_go_to_the_whole_group() {
    let kill = KillHandle::of_child(4321);
    assert_eq!(kill.signal_graceful(), SignalPlan { target: -4321, signal: Signal::Terminate });
    assert_eq!(kill.kill_now(), SignalPlan { target: -4321, signal: Signal::Kill });
    assert_eq!(kill.shutdown(true), None);
    assert_eq!(kill.shutdown(false), Some(kill.kill_now()));
    let config = ProcessConfig::default();
    assert_eq!((config.command.as_str(), config.args.len(), config.cwd), ("", 0, None));
}
