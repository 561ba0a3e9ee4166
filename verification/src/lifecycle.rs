//! Server lifecycle orchestration: `Stopped`, `Starting`, `Initializing`,
//! `Running`, `Errored`.
//!
//! Starting, stopping and removing alternate waiting (on the database, the
//! credential store, the child, other tasks) with decisions. Each decision is a
//! function here, over the application state and what the wait yielded; the
//! type of what it returns says what may come next.

use vstd::prelude::*;

use crate::db;
use crate::db::{EnvValue, EnvView, NewServer, RecordView, Row, ServerId, ServerRecord, ServerView};
use crate::error::{AppError, AppResult, ErrorView};
use crate::json;
use crate::json::{member, Json, JsonView};
use crate::process::{KillHandle, ProcessConfig, ProcessView, Signal, SignalPlan, SHUTDOWN_GRACE};
use crate::protocol::{HandshakeView, NotificationEvent, ServerHandshake};
use crate::secrets;
use crate::secrets::{delete_keys_best_effort, delete_server_secrets};
use crate::state::{
    AppEvent, AppState, Attempt, EventView, LogStream, RunningServer, RuntimeView, ServerStatus,
    StartGuard, StateView, StatusView, Ticket,
};
use crate::stream::StreamEvent;
use crate::strmap;
use crate::strmap::StrMap;
use crate::text;
use crate::text::{concat, i64_text};

verus! {

broadcast use vstd::string::group_string_axioms;

/// After the grace-period hard kill, how long to wait for the exit waiter to
/// confirm death before giving up, in seconds.
pub const KILL_CONFIRM_TIMEOUT: u64 = 5;

/// Bound on waiting for a cancelled start to settle, in seconds: covers a hard
/// kill, the reap, and margin; never the handshake, which the cancel
/// interrupts.
pub const CANCEL_SETTLE_TIMEOUT: u64 = 10;

/// What a wait yielded that a cancellation can interrupt.
pub enum Raced<T> {
    Cancelled,
    Ready(T),
}

/// How a startup ended.
pub enum StartOutcome {
    /// The server reached `Running`.
    Running,
    /// A concurrent stop or remove cancelled the attempt, and any spawned child
    /// is already dead.
    Cancelled,
    Failed(AppError),
}

#[verifier::ext_equal]
pub enum OutcomeView {
    Running,
    Cancelled,
    Failed(ErrorView),
}

impl View for StartOutcome {
    type V = OutcomeView;

    open spec fn view(&self) -> OutcomeView {
        match *self {
            StartOutcome::Running => OutcomeView::Running,
            StartOutcome::Cancelled => OutcomeView::Cancelled,
            StartOutcome::Failed(e) => OutcomeView::Failed(e@),
        }
    }
}

/// The view of a result without a value.
pub open spec fn unit_result(r: AppResult<()>) -> Result<(), ErrorView> {
    match r {
        Ok(_) => Ok(()),
        Err(e) => Err(e@),
    }
}

/// The attempt marked as settled.
pub open spec fn settled(s: StateView, ticket: Ticket) -> StateView {
    s.note(ticket, Attempt { settled: true, ..s.attempts[ticket] })
}

/// What the end of a startup makes of the state, and what the caller is told.
/// The stop's outcome (`Stopped`) wins over a startup error that is a teardown
/// artifact of it, and an unknown server leaves no ghost entry.
pub open spec fn concluded(
    s: StateView,
    id: ServerId,
    ticket: Ticket,
    outcome: OutcomeView,
) -> (StateView, Result<(), ErrorView>) {
    match outcome {
        OutcomeView::Running => (settled(s, ticket), Ok(())),
        OutcomeView::Cancelled => (
            settled(s.set_status(id, StatusView::Stopped), ticket),
            Ok(()),
        ),
        OutcomeView::Failed(e) => if s.attempts[ticket].cancelled {
            (settled(s.set_status(id, StatusView::Stopped), ticket), Ok(()))
        } else if e is ServerNotFound {
            (settled(s.set_status(id, StatusView::Stopped), ticket), Err(e))
        } else {
            (
                settled(
                    s.set_status(id, StatusView::Errored { message: e.message() }),
                    ticket,
                ),
                Err(e),
            )
        },
    }
}

fn conclude(state: &mut AppState, id: ServerId, guard: StartGuard, outcome: StartOutcome) -> (r:
    AppResult<()>)
    requires
        old(state)@.wf(),
        old(state)@.attempts.contains_key(guard.spec_token()),
    ensures
        final(state)@.wf(),
        (final(state)@, unit_result(r)) == concluded(
            old(state)@,
            id,
            guard.spec_token(),
            outcome@,
        ),
{
    let result = match outcome {
        StartOutcome::Running => Ok(()),
        StartOutcome::Cancelled => {
            state.set_status(id, ServerStatus::Stopped);
            Ok(())
        },
        StartOutcome::Failed(error) => {
            if state.is_cancelled(guard.token()) {
                state.set_status(id, ServerStatus::Stopped);
                Ok(())
            } else {
                match &error {
                    AppError::ServerNotFound(_) => {
                        state.set_status(id, ServerStatus::Stopped);
                    },
                    _ => {
                        let message = error.message();
                        state.set_status(id, ServerStatus::Errored { message });
                    },
                }
                Err(error)
            }
        },
    };
    state.settle(guard);
    result
}

/// A claimed start whose record is being loaded.
pub struct Loading {
    id: ServerId,
    guard: StartGuard,
}

/// A start whose environment is being resolved.
pub struct Resolving {
    id: ServerId,
    guard: StartGuard,
    command: String,
    args: Vec<String>,
    cwd: Option<String>,
}

/// A start whose process is being spawned.
pub struct Spawning {
    id: ServerId,
    guard: StartGuard,
}

/// A start with a live child that is being shaken hands with.
pub struct Handshaking {
    id: ServerId,
    guard: StartGuard,
    pid: u32,
}

/// A start whose child is being torn down.
pub struct TearingDown {
    id: ServerId,
    guard: StartGuard,
    outcome: StartOutcome,
}

impl Loading {
    pub closed spec fn server(self) -> ServerId {
        self.id
    }

    pub closed spec fn ticket(self) -> Ticket {
        self.guard.spec_token()
    }

    /// By which the attempt's cancellation is known.
    pub fn token(&self) -> (r: Ticket)
        ensures
            r == self.ticket(),
    {
        self.guard.token()
    }
}

impl Resolving {
    pub closed spec fn server(self) -> ServerId {
        self.id
    }

    pub closed spec fn ticket(self) -> Ticket {
        self.guard.spec_token()
    }

    /// What will be spawned, given the resolved environment.
    pub closed spec fn config(self, env: Seq<(Seq<char>, Seq<char>)>) -> ProcessView {
        ProcessView {
            command: self.command@,
            args: text::texts(self.args@),
            env,
            cwd: text::text_option(self.cwd),
        }
    }
}

impl Spawning {
    pub closed spec fn server(self) -> ServerId {
        self.id
    }

    pub closed spec fn ticket(self) -> Ticket {
        self.guard.spec_token()
    }
}

impl Handshaking {
    pub closed spec fn server(self) -> ServerId {
        self.id
    }

    pub closed spec fn ticket(self) -> Ticket {
        self.guard.spec_token()
    }

    /// The child.
    pub closed spec fn child(self) -> u32 {
        self.pid
    }

    /// A child has a process id.
    pub open spec fn wf(self) -> bool {
        1 <= self.child() <= i32::MAX
    }
}

impl TearingDown {
    pub closed spec fn server(self) -> ServerId {
        self.id
    }

    pub closed spec fn ticket(self) -> Ticket {
        self.guard.spec_token()
    }

    pub closed spec fn ends_in(self) -> OutcomeView {
        self.outcome@
    }
}

/// Claim a start. Nothing to do while one is starting or running: toggles are
/// idempotent.
pub fn start(state: &mut AppState, id: ServerId) -> (r: Option<Loading>)
    requires
        old(state)@.wf(),
        old(state)@.next_ticket < u64::MAX,
    ensures
        final(state)@.wf(),
        r is Some == old(state)@.can_start(id),
        match r {
            Some(loading) => {
                &&& loading.server() == id
                &&& loading.ticket() == old(state)@.next_ticket
                &&& final(state)@ == old(state)@.begin_start(id)
                &&& final(state)@.attempts.contains_key(loading.ticket())
            },
            None => final(state)@ == old(state)@,
        },
{
    match state.try_begin_start(id) {
        Some(guard) => Some(Loading { id, guard }),
        None => None,
    }
}

/// What follows the loading of the record.
pub enum AfterLoad {
    /// Resolve the environment of the record.
    Resolve(Resolving, ServerRecord),
    Finished(AppResult<()>),
}

/// What follows the resolution of the environment.
pub enum AfterResolve {
    Spawn(Spawning, ProcessConfig),
    Finished(AppResult<()>),
}

/// What follows the spawn.
pub enum AfterSpawn {
    /// Shake hands with the child.
    Handshake(Handshaking),
    Finished(AppResult<()>),
}

/// What follows the handshake.
pub enum AfterHandshake {
    /// The server is running; its exit is to be waited for.
    Running(AppResult<()>),
    /// Signal the tree and wait for the child, for at most `wait` seconds.
    TearDown { tearing: TearingDown, plan: SignalPlan, wait: u64 },
}

impl Loading {
    /// The record was looked up, or the start was cancelled meanwhile. Before
    /// the child exists a cancel simply abandons the attempt.
    pub fn loaded(self, state: &mut AppState, reply: Raced<AppResult<ServerRecord>>) -> (r:
        AfterLoad)
        requires
            old(state)@.wf(),
            old(state)@.attempts.contains_key(self.ticket()),
        ensures
            final(state)@.wf(),
            match reply {
                Raced::Ready(Ok(record)) => {
                    &&& final(state)@ == old(state)@
                    &&& r is Resolve
                    &&& r->Resolve_0.server() == self.server()
                    &&& r->Resolve_0.ticket() == self.ticket()
                    &&& r->Resolve_1 == record
                    &&& forall|env: Seq<(Seq<char>, Seq<char>)>|
                        #[trigger] r->Resolve_0.config(env) == (ProcessView {
                            command: record@.server.command,
                            args: record@.server.args,
                            env,
                            cwd: record@.server.cwd,
                        })
                },
                Raced::Ready(Err(e)) => r is Finished && (
                    final(state)@,
                    unit_result(r->Finished_0),
                ) == concluded(
                    old(state)@,
                    self.server(),
                    self.ticket(),
                    OutcomeView::Failed(e@),
                ),
                Raced::Cancelled => r is Finished && (
                    final(state)@,
                    unit_result(r->Finished_0),
                ) == concluded(
                    old(state)@,
                    self.server(),
                    self.ticket(),
                    OutcomeView::Cancelled,
                ),
            },
    {
        match reply {
            Raced::Cancelled => AfterLoad::Finished(
                conclude(state, self.id, self.guard, StartOutcome::Cancelled),
            ),
            Raced::Ready(Err(e)) => AfterLoad::Finished(
                conclude(state, self.id, self.guard, StartOutcome::Failed(e)),
            ),
            Raced::Ready(Ok(record)) => {
                let next = Resolving {
                    id: self.id,
                    guard: self.guard,
                    command: record.command.clone(),
                    args: text::copy_texts(&record.args),
                    cwd: text::copy_option(&record.cwd),
                };
                AfterLoad::Resolve(next, record)
            },
        }
    }
}

impl Resolving {
    /// The environment was resolved, or the start was cancelled meanwhile. The
    /// resolved values exist only in what is handed to the spawn.
    pub fn resolved(self, state: &mut AppState, reply: Raced<AppResult<StrMap<String>>>) -> (r:
        AfterResolve)
        requires
            old(state)@.wf(),
            old(state)@.attempts.contains_key(self.ticket()),
        ensures
            final(state)@.wf(),
            match reply {
                Raced::Ready(Ok(env)) => {
                    &&& final(state)@ == old(state)@
                    &&& r is Spawn
                    &&& r->Spawn_0.server() == self.server()
                    &&& r->Spawn_0.ticket() == self.ticket()
                    &&& r->Spawn_1@ == self.config(env.items())
                },
                Raced::Ready(Err(e)) => r is Finished && (
                    final(state)@,
                    unit_result(r->Finished_0),
                ) == concluded(
                    old(state)@,
                    self.server(),
                    self.ticket(),
                    OutcomeView::Failed(e@),
                ),
                Raced::Cancelled => r is Finished && (
                    final(state)@,
                    unit_result(r->Finished_0),
                ) == concluded(
                    old(state)@,
                    self.server(),
                    self.ticket(),
                    OutcomeView::Cancelled,
                ),
            },
    {
        match reply {
            Raced::Cancelled => AfterResolve::Finished(
                conclude(state, self.id, self.guard, StartOutcome::Cancelled),
            ),
            Raced::Ready(Err(e)) => AfterResolve::Finished(
                conclude(state, self.id, self.guard, StartOutcome::Failed(e)),
            ),
            Raced::Ready(Ok(env)) => AfterResolve::Spawn(
                Spawning { id: self.id, guard: self.guard },
                ProcessConfig { command: self.command, args: self.args, env, cwd: self.cwd },
            ),
        }
    }
}

impl Spawning {
    /// The process was spawned: the server is initializing.
    pub fn spawned(self, state: &mut AppState, reply: AppResult<u32>) -> (r: AfterSpawn)
        requires
            old(state)@.wf(),
            old(state)@.attempts.contains_key(self.ticket()),
            reply matches Ok(pid) ==> 1 <= pid <= i32::MAX,
        ensures
            final(state)@.wf(),
            match reply {
                Ok(pid) => {
                    &&& final(state)@ == old(state)@.set_status(
                        self.server(),
                        StatusView::Initializing,
                    )
                    &&& r is Handshake
                    &&& r->Handshake_0.wf()
                    &&& r->Handshake_0.server() == self.server()
                    &&& r->Handshake_0.ticket() == self.ticket()
                    &&& r->Handshake_0.child() == pid
                },
                Err(e) => r is Finished && (final(state)@, unit_result(r->Finished_0))
                    == concluded(
                    old(state)@,
                    self.server(),
                    self.ticket(),
                    OutcomeView::Failed(e@),
                ),
            },
    {
        match reply {
            Ok(pid) => {
                state.set_status(self.id, ServerStatus::Initializing);
                AfterSpawn::Handshake(Handshaking { id: self.id, guard: self.guard, pid })
            },
            Err(e) => AfterSpawn::Finished(
                conclude(state, self.id, self.guard, StartOutcome::Failed(e)),
            ),
        }
    }
}

/// The runtime that a successful handshake installs.
pub open spec fn runtime_of(
    pid: u32,
    ticket: Ticket,
    kill: KillHandle,
    handshake: HandshakeView,
) -> RuntimeView {
    RuntimeView { pid, ticket, kill, handshake }
}

impl Handshaking {
    /// The handshake ended, or the start was cancelled meanwhile. From the
    /// spawn on, every way out but a successful install tears the process tree
    /// down: no runtime exists yet, so nobody else can.
    pub fn handshaken(self, state: &mut AppState, reply: Raced<AppResult<ServerHandshake>>) -> (r:
        AfterHandshake)
        requires
            old(state)@.wf(),
            self.wf(),
            old(state)@.attempts.contains_key(self.ticket()),
        ensures
            final(state)@.wf(),
            final(state)@.attempts.contains_key(self.ticket()),
            match reply {
                Raced::Ready(Ok(h)) => if old(state)@.can_install(self.server()) {
                    &&& r is Running
                    &&& r->Running_0 is Ok
                    &&& exists|kill: KillHandle|
                        kill.group() == self.child() && final(state)@ == settled(
                            old(state)@.install(
                                self.server(),
                                #[trigger] runtime_of(self.child(), self.ticket(), kill, h@),
                            ),
                            self.ticket(),
                        )
                } else {
                    &&& final(state)@ == old(state)@
                    &&& tears_down(self, r, OutcomeView::Cancelled)
                },
                Raced::Ready(Err(e)) => {
                    &&& final(state)@ == old(state)@
                    &&& tears_down(self, r, OutcomeView::Failed(e@))
                },
                Raced::Cancelled => {
                    &&& final(state)@ == old(state)@
                    &&& tears_down(self, r, OutcomeView::Cancelled)
                },
            },
    {
        let kill = KillHandle::of_child(self.pid);
        match reply {
            Raced::Cancelled => {
                let tearing = TearingDown {
                    id: self.id,
                    guard: self.guard,
                    outcome: StartOutcome::Cancelled,
                };
                AfterHandshake::TearDown {
                    tearing,
                    plan: kill.kill_now(),
                    wait: KILL_CONFIRM_TIMEOUT,
                }
            },
            Raced::Ready(Err(e)) => {
                let tearing = TearingDown {
                    id: self.id,
                    guard: self.guard,
                    outcome: StartOutcome::Failed(e),
                };
                AfterHandshake::TearDown {
                    tearing,
                    plan: kill.kill_now(),
                    wait: KILL_CONFIRM_TIMEOUT,
                }
            },
            Raced::Ready(Ok(handshake)) => {
                let ticket: Ticket = self.guard.token();
                let runtime = RunningServer { pid: self.pid, ticket, kill, handshake };
                let ghost seen = runtime@;
                if state.try_install_runtime(self.id, runtime) {
                    let done = conclude(state, self.id, self.guard, StartOutcome::Running);
                    assert(seen == runtime_of(self.child(), self.ticket(), kill, handshake@));
                    AfterHandshake::Running(done)
                } else {
                    let tearing = TearingDown {
                        id: self.id,
                        guard: self.guard,
                        outcome: StartOutcome::Cancelled,
                    };
                    AfterHandshake::TearDown {
                    tearing,
                    plan: kill.kill_now(),
                    wait: KILL_CONFIRM_TIMEOUT,
                }
                }
            },
        }
    }
}

/// The child's whole group is killed and waited for, for a bounded time, and the
/// startup then ends as said.
pub open spec fn tears_down(from: Handshaking, r: AfterHandshake, outcome: OutcomeView) -> bool {
    match r {
        AfterHandshake::TearDown { tearing, plan, wait } => {
            &&& tearing.server() == from.server()
            &&& tearing.ticket() == from.ticket()
            &&& tearing.ends_in() == outcome
            &&& plan == SignalPlan { target: (-(from.child() as int)) as i32, signal: Signal::Kill }
            &&& wait == KILL_CONFIRM_TIMEOUT
        },
        _ => false,
    }
}

impl TearingDown {
    /// The child is gone (or the bound on waiting for it passed).
    pub fn torn_down(self, state: &mut AppState) -> (r: AppResult<()>)
        requires
            old(state)@.wf(),
            old(state)@.attempts.contains_key(self.ticket()),
        ensures
            final(state)@.wf(),
            (final(state)@, unit_result(r)) == concluded(
                old(state)@,
                self.server(),
                self.ticket(),
                self.ends_in(),
            ),
    {
        conclude(state, self.id, self.guard, self.outcome)
    }
}

/// The message for a server that exited without being asked to.
pub open spec fn unexpected_exit(detail: Seq<char>) -> Seq<char> {
    "server exited unexpectedly ("@ + detail + ")"@
}

/// What the exit of the child makes of the state: a requested stop ends in
/// `Stopped`, a crash in `Errored`.
pub open spec fn after_exit(
    s: StateView,
    id: ServerId,
    ticket: Ticket,
    detail: Seq<char>,
) -> StateView {
    s.set_status(
        id,
        if s.attempts[ticket].stopping {
            StatusView::Stopped
        } else {
            StatusView::Errored { message: unexpected_exit(detail) }
        },
    )
}

/// The exit waiter reaped the child.
pub fn exited(state: &mut AppState, id: ServerId, ticket: Ticket, detail: &str)
    requires
        old(state)@.wf(),
        old(state)@.attempts.contains_key(ticket),
    ensures
        final(state)@.wf(),
        final(state)@ == after_exit(old(state)@, id, ticket, detail@),
{
    if state.is_stopping(ticket) {
        state.set_status(id, ServerStatus::Stopped);
    } else {
        let head = concat("server exited unexpectedly (", detail);
        let message = concat(head.as_str(), ")");
        state.set_status(id, ServerStatus::Errored { message });
    }
}

/// What a stop does next.
pub enum StopStep {
    /// Wait until the start with this ticket has settled, for at most
    /// [`CANCEL_SETTLE_TIMEOUT`].
    AwaitSettled(Ticket),
    /// Signal the tree, and wait for the exit for at most this many seconds.
    Signal { plan: SignalPlan, kill: KillHandle, wait: u64 },
    Finished(AppResult<()>),
}

/// What the second half of a stop makes of the state: a running server is
/// marked as being stopped; a lingering entry of one that is not running is
/// cleared.
pub open spec fn stop_running(s: StateView, id: ServerId) -> StateView {
    match s.runtime(id) {
        Some(r) => s.note(r.ticket, Attempt { stopping: true, ..s.attempts[r.ticket] }),
        None => if s.status(id) is Stopped {
            s
        } else {
            s.set_status(id, StatusView::Stopped)
        },
    }
}

/// Begin a stop. A start still in flight is cancelled first: the start task
/// kills anything it spawned and writes the final status before it settles.
pub fn stop(state: &mut AppState, id: ServerId) -> (r: StopStep)
    requires
        old(state)@.wf(),
    ensures
        final(state)@.wf(),
        match old(state)@.start(id) {
            Some(t) => r == StopStep::AwaitSettled(t) && final(state)@ == old(state)@.note(
                t,
                Attempt { cancelled: true, ..old(state)@.attempts[t] },
            ),
            None => stops(old(state)@, final(state)@, id, r),
        },
{
    match state.start_handle(id) {
        Some(start) => {
            assert(state@.registry.contains_key(id));
            state.cancel(start.ticket);
            StopStep::AwaitSettled(start.ticket)
        },
        None => stop_live(state, id),
    }
}

/// The second half of a stop was decided.
pub open spec fn stops(before: StateView, after: StateView, id: ServerId, r: StopStep) -> bool {
    &&& after == stop_running(before, id)
    &&& match before.runtime(id) {
        Some(runtime) => r == (StopStep::Signal {
            plan: SignalPlan {
                target: (-runtime.kill.group()) as i32,
                signal: Signal::Terminate,
            },
            kill: runtime.kill,
            wait: SHUTDOWN_GRACE,
        }),
        None => r is Finished && r->Finished_0 is Ok,
    }
}

fn stop_live(state: &mut AppState, id: ServerId) -> (r: StopStep)
    requires
        old(state)@.wf(),
    ensures
        final(state)@.wf(),
        stops(old(state)@, final(state)@, id, r),
{
    match state.runtime(id) {
        Some(runtime) => {
            assert(state@.registry.contains_key(id));
            state.mark_stopping(runtime.ticket);
            StopStep::Signal {
                plan: runtime.kill.signal_graceful(),
                kill: runtime.kill,
                wait: SHUTDOWN_GRACE,
            }
        },
        None => {
            let stopped = match state.status(id) {
                ServerStatus::Stopped => true,
                _ => false,
            };
            if !stopped {
                state.set_status(id, ServerStatus::Stopped);
            }
            StopStep::Finished(Ok(()))
        },
    }
}

/// The wait for the cancelled start ended. What it left behind is inspected
/// anew: a runtime installed just before the cancel is stopped like any other.
pub fn start_settled(state: &mut AppState, id: ServerId, in_time: bool) -> (r: StopStep)
    requires
        old(state)@.wf(),
    ensures
        final(state)@.wf(),
        in_time ==> stops(old(state)@, final(state)@, id, r),
        !in_time ==> final(state)@ == old(state)@ && r is Finished && unit_result(r->Finished_0)
            == Err::<(), ErrorView>(
            ErrorView::Timeout("cancelling start of server "@ + text::decimal(id as int)),
        ),
{
    if in_time {
        stop_live(state, id)
    } else {
        let number = i64_text(id);
        StopStep::Finished(
            Err(AppError::Timeout(concat("cancelling start of server ", number.as_str()))),
        )
    }
}

/// The grace period ended: nothing more to do where the child exited in it, the
/// hard kill otherwise.
pub fn grace_ended(kill: KillHandle, exited: bool) -> (r: StopStep)
    requires
        kill.group() > 0,
    ensures
        exited ==> r is Finished && r->Finished_0 is Ok,
        !exited ==> r == (StopStep::Signal {
            plan: SignalPlan { target: (-kill.group()) as i32, signal: Signal::Kill },
            kill,
            wait: KILL_CONFIRM_TIMEOUT,
        }),
{
    match kill.shutdown(exited) {
        Some(plan) => StopStep::Signal { plan, kill, wait: KILL_CONFIRM_TIMEOUT },
        None => StopStep::Finished(Ok(())),
    }
}

/// The wait behind the hard kill ended.
pub fn kill_confirmed(id: ServerId, confirmed: bool) -> (r: AppResult<()>)
    ensures
        confirmed ==> r is Ok,
        !confirmed ==> unit_result(r) == Err::<(), ErrorView>(
            ErrorView::Timeout("stopping server "@ + text::decimal(id as int)),
        ),
{
    if confirmed {
        Ok(())
    } else {
        let number = i64_text(id);
        Err(AppError::Timeout(concat("stopping server ", number.as_str())))
    }
}

/// However a startup ends, it is settled, and the server is running, stopped or
/// errored: never starting or initializing.
pub proof fn law_a_startup_always_settles(
    s: StateView,
    id: ServerId,
    ticket: Ticket,
    outcome: OutcomeView,
)
    requires
        outcome is Running ==> s.status(id) is Running,
    ensures
        ({
            let (t, _) = concluded(s, id, ticket, outcome);
            &&& t.attempts[ticket].settled
            &&& t.status(id) is Running || t.status(id) is Stopped || t.status(id) is Errored
        }),
{
}

/// A cancelled start ends in `Stopped` and counts as a success, unless the
/// server was running before the cancel.
pub proof fn law_a_stop_wins_over_a_start(
    s: StateView,
    id: ServerId,
    ticket: Ticket,
    outcome: OutcomeView,
)
    requires
        s.attempts[ticket].cancelled,
        !(outcome is Running),
    ensures
        concluded(s, id, ticket, outcome).0.status(id) is Stopped,
        concluded(s, id, ticket, outcome).0.runtime(id) is None,
        concluded(s, id, ticket, outcome).1 is Ok,
{
}

/// Starting an unknown server fails without leaving an entry.
pub proof fn law_an_unknown_server_leaves_no_ghost(
    s: StateView,
    id: ServerId,
    ticket: Ticket,
    name: Seq<char>,
)
    ensures
        ({
            let (t, r) = concluded(
                s,
                id,
                ticket,
                OutcomeView::Failed(ErrorView::ServerNotFound(name)),
            );
            &&& !t.registry.contains_key(id)
            &&& t.status(id) is Stopped
            &&& !s.attempts[ticket].cancelled ==> r is Err
        }),
{
}

/// A failed start is reported in the status, with the message of the failure.
pub proof fn law_a_failed_start_is_errored(
    s: StateView,
    id: ServerId,
    ticket: Ticket,
    e: ErrorView,
)
    requires
        !s.attempts[ticket].cancelled,
        !(e is ServerNotFound),
    ensures
        ({
            let (t, r) = concluded(s, id, ticket, OutcomeView::Failed(e));
            &&& t.status(id) == StatusView::Errored { message: e.message() }
            &&& t.runtime(id) is None
            &&& t.can_start(id)
            &&& r == Err::<(), ErrorView>(e)
        }),
{
}

/// A stop of a server that is not running, and has no start in flight, leaves
/// it stopped.
pub proof fn law_stop_clears_what_is_not_running(s: StateView, id: ServerId)
    requires
        s.wf(),
        s.runtime(id) is None,
    ensures
        stop_running(s, id).status(id) is Stopped,
        !stop_running(s, id).registry.contains_key(id),
{
}

/// A requested stop is told from a crash: the exit of a run that was marked
/// ends in `Stopped`, with nothing left of the run.
pub proof fn law_a_requested_stop_is_no_crash(s: StateView, id: ServerId, detail: Seq<char>)
    requires
        s.runtime(id) is Some,
    ensures
        ({
            let marked = stop_running(s, id);
            let gone = after_exit(marked, id, s.runtime(id)->0.ticket, detail);
            &&& marked.status(id) == s.status(id)
            &&& gone.status(id) is Stopped
            &&& gone.runtime(id) is None
            &&& !gone.registry.contains_key(id)
        }),
{
}

/// An exit that nobody asked for is reported as a crash: the status says how
/// the server exited, nothing is forwarded to it any more, and it can be started
/// again.
pub proof fn law_a_crash_is_errored(
    s: StateView,
    id: ServerId,
    ticket: Ticket,
    detail: Seq<char>,
)
    requires
        !s.attempts[ticket].stopping,
    ensures
        ({
            let gone = after_exit(s, id, ticket, detail);
            &&& gone.status(id) == StatusView::Errored { message: unexpected_exit(detail) }
            &&& gone.runtime(id) is None
            &&& gone.can_start(id)
        }),
{
}

/// The whole walk of a start that succeeds: the UI sees `Starting`,
/// `Initializing`, `Running`, in this order and nothing else.
pub proof fn law_a_start_walks_the_state_machine(
    s: StateView,
    id: ServerId,
    runtime: RuntimeView,
)
    requires
        s.wf(),
        s.can_start(id),
        s.next_ticket < u64::MAX,
    ensures
        ({
            let ticket = s.next_ticket;
            let starting = s.begin_start(id);
            let initializing = starting.set_status(id, StatusView::Initializing);
            let running = settled(initializing.install(id, runtime), ticket);
            &&& initializing.can_install(id)
            &&& running.events == s.events + seq![
                EventView::StatusChanged { server_id: id, status: StatusView::Starting },
                EventView::StatusChanged { server_id: id, status: StatusView::Initializing },
                EventView::StatusChanged { server_id: id, status: StatusView::Running },
            ]
            &&& running.status(id) is Running
            &&& running.runtime(id) == Some(runtime)
            &&& !running.can_start(id)
        }),
{
    let ticket = s.next_ticket;
    let starting = s.begin_start(id);
    let initializing = starting.set_status(id, StatusView::Initializing);
    let running = settled(initializing.install(id, runtime), ticket);
    assert(running.events =~= s.events + seq![
        EventView::StatusChanged { server_id: id, status: StatusView::Starting },
        EventView::StatusChanged { server_id: id, status: StatusView::Initializing },
        EventView::StatusChanged { server_id: id, status: StatusView::Running },
    ]);
}

/// A stop during a start, whatever comes first of the start's own end and the
/// cancel: once the start has settled, the second half of the stop leaves the
/// server stopped, or marked for it.
pub proof fn law_a_stop_is_never_lost(
    s: StateView,
    id: ServerId,
    ticket: Ticket,
    outcome: OutcomeView,
)
    requires
        s.attempts[ticket].cancelled,
    ensures
        ({
            let t = stop_running(concluded(s, id, ticket, outcome).0, id);
            match concluded(s, id, ticket, outcome).0.runtime(id) {
                Some(r) => t.attempts[r.ticket].stopping,
                None => t.status(id) is Stopped,
            }
        }),
{
}

/// A config record joined with its live status: what the server list shows.
#[derive(Debug, PartialEq)]
pub struct ServerOverview {
    pub record: ServerRecord,
    pub status: ServerStatus,
}

/// The records with their live statuses, in order.
pub fn list(state: &AppState, records: Vec<ServerRecord>) -> (r: Vec<ServerOverview>)
    ensures
        r@.len() == records@.len(),
        forall|i: int|
            0 <= i < r@.len() ==> (#[trigger] r@[i]).record == records@[i] && r@[i].status@
                == state@.status(records@[i].id),
{
    let mut out: Vec<ServerOverview> = Vec::new();
    for record in iter: records
        invariant
            iter.seq() == records@,
            out@.len() == iter.index(),
            forall|i: int|
                0 <= i < out@.len() ==> (#[trigger] out@[i]).record == records@[i]
                    && out@[i].status@ == state@.status(records@[i].id),
    {
        assert(records@[iter.index()] == record);
        let status = state.status(record.id);
        out.push(ServerOverview { record, status });
    }
    out
}

/// The wire shape of a listed server: the members of its record, and its
/// status.
pub open spec fn overview_json(
    id: ServerId,
    server: ServerView,
    env: Seq<(Seq<char>, EnvView)>,
    status: StatusView,
) -> JsonView {
    JsonView::Object(
        seq![
            ("args"@, db::args_json(server.args)),
            ("auto_start"@, JsonView::Bool(server.auto_start)),
            ("command"@, JsonView::Str(server.command)),
            (
                "cwd"@,
                match server.cwd {
                    Some(c) => JsonView::Str(c),
                    None => JsonView::Null,
                },
            ),
            ("env"@, db::env_json(env)),
            ("id"@, JsonView::Number(json::number_of_i64(id))),
            ("name"@, JsonView::Str(server.name)),
            ("status"@, status.json()),
        ],
    )
}

proof fn lemma_overview_names(
    id: ServerId,
    server: ServerView,
    env: Seq<(Seq<char>, EnvView)>,
    status: StatusView,
)
    ensures
        json::names_ascend(overview_json(id, server, env, status)->Object_0),
{
    reveal_strlit("args");
    reveal_strlit("auto_start");
    reveal_strlit("command");
    reveal_strlit("cwd");
    reveal_strlit("env");
    reveal_strlit("id");
    reveal_strlit("name");
    reveal_strlit("status");
    assert("args"@.drop_first()[0] == 'r' && "auto_start"@.drop_first()[0] == 'u');
    assert(text::text_lt("args"@.drop_first(), "auto_start"@.drop_first()));
    assert(text::text_lt("args"@, "auto_start"@));
    assert("command"@.drop_first()[0] == 'o' && "cwd"@.drop_first()[0] == 'w');
    assert(text::text_lt("command"@.drop_first(), "cwd"@.drop_first()));
    assert(text::text_lt("command"@, "cwd"@));
    json::lemma_names_ascend(overview_json(id, server, env, status)->Object_0);
}

impl ServerOverview {
    /// The wire shape.
    pub fn to_json(&self) -> (r: Json)
        ensures
            r@ == overview_json(
                self.record@.id,
                self.record@.server,
                self.record.env.items(),
                self.status@,
            ),
            r@.wf(),
    {
        broadcast use json::group_json_views;

        let mut members: Vec<(String, Json)> = Vec::new();
        members.push(member("args", db::args_to_json(&self.record.args)));
        members.push(member("auto_start", Json::Bool(self.record.auto_start)));
        members.push(member("command", Json::string(self.record.command.as_str())));
        let cwd = match &self.record.cwd {
            Some(c) => Json::string(c.as_str()),
            None => Json::Null,
        };
        members.push(member("cwd", cwd));
        members.push(member("env", db::env_to_json(&self.record.env)));
        members.push(member("id", Json::from_i64(self.record.id)));
        members.push(member("name", Json::string(self.record.name.as_str())));
        members.push(member("status", self.status.to_json()));
        proof {
            let whole = overview_json(
                self.record@.id,
                self.record@.server,
                self.record.env.items(),
                self.status@,
            )->Object_0;
            assert(json::entries_view(members@) =~= whole);
            lemma_overview_names(
                self.record@.id,
                self.record@.server,
                self.record.env.items(),
                self.status@,
            );
            json::lemma_object_wf(whole);
        }
        Json::Object(members)
    }
}

/// The ids of the records marked for starting at launch, in order.
pub open spec fn auto_ids(records: Seq<ServerRecord>) -> Seq<ServerId>
    decreases records.len(),
{
    if records.len() == 0 {
        Seq::empty()
    } else if records.last().auto_start {
        auto_ids(records.drop_last()).push(records.last().id)
    } else {
        auto_ids(records.drop_last())
    }
}

/// The launch-time sweep: the servers to start, each on its own, so that one
/// failing never aborts the others.
pub fn start_auto_servers(records: &Vec<ServerRecord>) -> (r: Vec<ServerId>)
    ensures
        r@ == auto_ids(records@),
{
    let mut out: Vec<ServerId> = Vec::new();
    let mut i: usize = 0;
    assert(out@ =~= auto_ids(records@.take(0)));
    while i < records.len()
        invariant
            i <= records.len(),
            out@ == auto_ids(records@.take(i as int)),
        decreases records.len() - i,
    {
        let ghost now = records@.take(i + 1);
        assert(now.drop_last() =~= records@.take(i as int));
        assert(now.last() == records@[i as int]);
        if records[i].auto_start {
            out.push(records[i].id);
        }
        i = i + 1;
    }
    assert(records@.take(records@.len() as int) =~= records@);
    out
}

/// The sweep takes exactly the marked servers.
pub proof fn law_the_sweep_takes_the_marked_servers(records: Seq<ServerRecord>, id: ServerId)
    ensures
        auto_ids(records).contains(id) == exists|i: int|
            0 <= i < records.len() && (#[trigger] records[i]).auto_start && records[i].id == id,
    decreases records.len(),
{
    if records.len() > 0 {
        let rest = records.drop_last();
        let last = records.len() - 1;
        law_the_sweep_takes_the_marked_servers(rest, id);
        let ids = auto_ids(rest);
        if auto_ids(records).contains(id) {
            let j = choose|j: int| 0 <= j < auto_ids(records).len() && auto_ids(records)[j] == id;
            if j < ids.len() {
                assert(ids[j] == id);
                let i = choose|i: int|
                    0 <= i < rest.len() && (#[trigger] rest[i]).auto_start && rest[i].id == id;
                assert(records[i] == rest[i]);
            } else {
                assert(records[last].auto_start && records[last].id == id);
            }
        }
        if exists|i: int|
            0 <= i < records.len() && (#[trigger] records[i]).auto_start && records[i].id == id {
            let i = choose|i: int|
                0 <= i < records.len() && (#[trigger] records[i]).auto_start && records[i].id == id;
            if i < last {
                assert(rest[i] == records[i]);
                assert(ids.contains(id));
                let j = choose|j: int| 0 <= j < ids.len() && ids[j] == id;
                assert(auto_ids(records)[j] == id);
            } else {
                assert(auto_ids(records).last() == id);
            }
        }
    }
}

/// Whether a server's working directory, if it has one, is there.
pub open spec fn directory_fault(cwd: Option<Seq<char>>, exists: bool) -> Option<ErrorView> {
    match cwd {
        Some(path) => if exists {
            None
        } else {
            Some(ErrorView::InvalidInput("working directory does not exist: "@ + path))
        },
        None => None,
    }
}

fn check_directory(cwd: &Option<String>, exists: bool) -> (r: AppResult<()>)
    ensures
        match directory_fault(text::text_option(*cwd), exists) {
            None => r is Ok,
            Some(e) => r is Err && r->Err_0@ == e,
        },
{
    match cwd {
        Some(path) => if exists {
            Ok(())
        } else {
            Err(
                AppError::InvalidInput(
                    concat("working directory does not exist: ", path.as_str()),
                ),
            )
        },
        None => Ok(()),
    }
}

/// Whether a new server can be stored. `exists` says whether its working
/// directory is there.
pub fn add(new: &NewServer, exists: bool) -> (r: AppResult<()>)
    ensures
        match directory_fault(new@.cwd, exists) {
            None => r is Ok,
            Some(e) => r is Err && r->Err_0@ == e,
        },
{
    check_directory(&new.cwd, exists)
}

/// The keys that an update takes the secret marker from, in order.
pub open spec fn dropped_secrets(
    old_env: Seq<(Seq<char>, EnvView)>,
    new_env: Map<Seq<char>, EnvView>,
) -> Seq<Seq<char>>
    decreases old_env.len(),
{
    if old_env.len() == 0 {
        Seq::empty()
    } else {
        let rest = dropped_secrets(old_env.drop_last(), new_env);
        let key = old_env.last().0;
        if old_env.last().1 is Secret && !(new_env.contains_key(key) && new_env[key] is Secret) {
            rest.push(key)
        } else {
            rest
        }
    }
}

/// What an update does: the columns to write, and then the keyring entries to
/// delete.
pub struct UpdatePlan {
    pub row: Row,
    pub delete: Vec<String>,
}

/// Decide on an update. Secret keys whose marker disappears would leave their
/// keyring entries orphaned: they are deleted after the write.
pub fn update(old_record: &ServerRecord, record: &ServerRecord, exists: bool) -> (r: AppResult<
    UpdatePlan,
>)
    ensures
        match directory_fault(record@.server.cwd, exists) {
            Some(e) => r is Err && r->Err_0@ == e,
            None => {
                &&& r is Ok
                &&& db::row_holds(r->Ok_0.row, record@.id, record@.server)
                &&& text::texts(r->Ok_0.delete@) == dropped_secrets(
                    old_record.env.items(),
                    record.env@,
                ).map_values(|k: Seq<char>| secrets::spec_account(record@.id, k))
            },
        },
{
    match check_directory(&record.cwd, exists) {
        Ok(_) => {},
        Err(e) => {
            return Err(e);
        },
    }
    let ghost items = old_record.env.items();
    let count: usize = old_record.env.len();
    let mut removed: Vec<String> = Vec::new();
    let mut i: usize = 0;
    assert(text::texts(removed@) =~= dropped_secrets(items.take(0), record.env@));
    while i < count
        invariant
            i <= count,
            count == items.len(),
            items == old_record.env.items(),
            text::texts(removed@) == dropped_secrets(items.take(i as int), record.env@),
        decreases count - i,
    {
        let ghost now = items.take(i + 1);
        assert(now.drop_last() =~= items.take(i as int));
        assert(now.last() == items[i as int]);
        let key = old_record.env.key_at(i);
        if old_record.env.value_at(i).is_secret() {
            let kept = match record.env.get(key) {
                Some(v) => v.is_secret(),
                None => false,
            };
            if !kept {
                let ghost before = removed@;
                let name = key.to_owned();
                removed.push(name);
                assert(text::texts(removed@) =~= text::texts(before).push(name@));
            }
        }
        i = i + 1;
    }
    assert(items.take(items.len() as int) =~= items);
    let delete = delete_keys_best_effort(record.id, &removed);
    let row = db::update_server(record);
    Ok(UpdatePlan { row, delete })
}

/// An update that keeps a marker keeps the credential: its entry is not among
/// those to delete, whatever else changed (the name, above all).
pub proof fn law_kept_secrets_survive_an_update(
    old_env: Seq<(Seq<char>, EnvView)>,
    new_env: Map<Seq<char>, EnvView>,
    key: Seq<char>,
)
    requires
        new_env.contains_key(key),
        new_env[key] is Secret,
    ensures
        !dropped_secrets(old_env, new_env).contains(key),
    decreases old_env.len(),
{
    if old_env.len() > 0 {
        let rest = old_env.drop_last();
        law_kept_secrets_survive_an_update(rest, new_env, key);
        let all = dropped_secrets(old_env, new_env);
        if all.contains(key) {
            let i = choose|i: int| 0 <= i < all.len() && all[i] == key;
            if i < dropped_secrets(rest, new_env).len() {
                assert(dropped_secrets(rest, new_env)[i] == key);
            }
        }
    }
}

/// What removing a server does, one step after the other.
pub enum RemoveStep {
    /// Stop the server (cancelling an in-flight start if there is one).
    StopFirst,
    /// Load its record.
    Load,
    /// Delete these keyring entries, best-effort.
    DeleteSecrets(Vec<String>),
    /// Delete its row.
    DeleteRow,
    /// Stop once more: a start that read the row before the delete registered
    /// itself before the delete too.
    StopAgain,
    Finished(AppResult<()>),
}

/// The step of a removal that ended.
#[derive(Clone, Copy, Debug, PartialEq, Eq, Structural)]
pub enum Removed {
    StoppedFirst,
    SecretsDeleted,
    RowDeleted,
    StoppedAgain,
}

/// A removal begins with a stop.
pub fn remove() -> (r: RemoveStep)
    ensures
        r == RemoveStep::StopFirst,
{
    RemoveStep::StopFirst
}

/// The record was loaded: its keyring entries go.
pub fn remove_loaded(reply: AppResult<ServerRecord>) -> (r: RemoveStep)
    ensures
        match reply {
            Ok(record) => {
                &&& r is DeleteSecrets
                &&& text::texts(r->DeleteSecrets_0@) == secrets::secret_keys_of(
                    record.env.items(),
                ).map_values(|k: Seq<char>| secrets::spec_account(record@.id, k))
            },
            Err(e) => r == RemoveStep::Finished(Err(e)),
        },
{
    match reply {
        Ok(record) => RemoveStep::DeleteSecrets(delete_server_secrets(&record)),
        Err(e) => RemoveStep::Finished(Err(e)),
    }
}

/// A step of a removal ended: a failure ends the whole, and otherwise the next
/// one is due. The keyring entries go before the row, and the stops bracket
/// both.
pub fn remove_step(ended: Removed, reply: AppResult<()>) -> (r: RemoveStep)
    ensures
        match reply {
            Err(e) => r == RemoveStep::Finished(Err(e)),
            Ok(_) => r == match ended {
                Removed::StoppedFirst => RemoveStep::Load,
                Removed::SecretsDeleted => RemoveStep::DeleteRow,
                Removed::RowDeleted => RemoveStep::StopAgain,
                Removed::StoppedAgain => RemoveStep::Finished(Ok::<(), AppError>(())),
            },
        },
{
    match reply {
        Err(e) => RemoveStep::Finished(Err(e)),
        Ok(_) => match ended {
            Removed::StoppedFirst => RemoveStep::Load,
            Removed::SecretsDeleted => RemoveStep::DeleteRow,
            Removed::RowDeleted => RemoveStep::StopAgain,
            Removed::StoppedAgain => RemoveStep::Finished(Ok(())),
        },
    }
}

/// A secret value is in the credential store: mark its key in the record. The
/// record to write, or nothing where the key is marked already. The value
/// itself never touches the record.
pub fn set_secret(record: ServerRecord, key: String) -> (r: Option<ServerRecord>)
    ensures
        r is None == (record.env@.contains_key(key@) && record.env@[key@] is Secret),
        r matches Some(updated) ==> updated@ == (RecordView {
            id: record@.id,
            server: ServerView {
                env: record.env@.insert(key@, EnvView::Secret),
                ..record@.server
            },
        }),
{
    let marked = match record.env.get(key.as_str()) {
        Some(v) => v.is_secret(),
        None => false,
    };
    if marked {
        None
    } else {
        let mut record = record;
        record.env.insert(key, EnvValue::Secret);
        Some(record)
    }
}

/// A secret is gone from the credential store: drop its marker. The record to
/// write, or nothing where it has no such variable.
pub fn delete_secret(record: ServerRecord, key: &str) -> (r: Option<ServerRecord>)
    ensures
        r is Some == record.env@.contains_key(key@),
        r matches Some(updated) ==> updated@ == (RecordView {
            id: record@.id,
            server: ServerView { env: record.env@.remove(key@), ..record@.server },
        }),
{
    let mut record = record;
    if record.env.remove(key) {
        Some(record)
    } else {
        None
    }
}

/// Deleting a secret that was just set leaves the variables as they were, where
/// the key had none.
pub proof fn law_deleting_undoes_setting(env: Map<Seq<char>, EnvView>, key: Seq<char>)
    requires
        !env.contains_key(key),
    ensures
        env.insert(key, EnvView::Secret).remove(key) == env,
{
    assert(env.insert(key, EnvView::Secret).remove(key) =~= env);
}

/// What the UI is told of a line, or of a gap in the lines.
pub fn fan_out_lines(server_id: ServerId, stream: LogStream, event: StreamEvent) -> (r: AppEvent)
    ensures
        r == match event {
            StreamEvent::Line(line) => AppEvent::Log { server_id, stream, line },
            StreamEvent::Dropped(dropped) => AppEvent::LogGap { server_id, stream, dropped },
        },
{
    match event {
        StreamEvent::Line(line) => AppEvent::Log { server_id, stream, line },
        StreamEvent::Dropped(dropped) => AppEvent::LogGap { server_id, stream, dropped },
    }
}

/// What the UI is told of a notification, or of a gap in them.
pub fn fan_out_notifications(server_id: ServerId, event: NotificationEvent) -> (r: AppEvent)
    ensures
        r == match event {
            NotificationEvent::Frame(payload) => AppEvent::Notification { server_id, payload },
            NotificationEvent::Gap(dropped) => AppEvent::NotificationGap { server_id, dropped },
        },
{
    match event {
        NotificationEvent::Frame(payload) => AppEvent::Notification { server_id, payload },
        NotificationEvent::Gap(dropped) => AppEvent::NotificationGap { server_id, dropped },
    }
}

/// What a startup leaves behind when it ends: a server that runs goes on running,
/// a cancelled start is stopped and counts as done, and no other server is
/// touched; the attempt is settled either way, with what else is known of it.
pub proof fn law_what_the_end_of_a_start_leaves(
    s: StateView,
    id: ServerId,
    ticket: Ticket,
    other: ServerId,
    e: ErrorView,
)
    requires
        s.wf(),
        id != other,
    ensures
        ({
            let (t, r) = concluded(s, id, ticket, OutcomeView::Running);
            &&& r is Ok
            &&& t.registry == s.registry && t.events == s.events
            &&& t.attempts[ticket].settled
            &&& t.attempts[ticket].cancelled == s.attempts[ticket].cancelled
            &&& t.attempts[ticket].stopping == s.attempts[ticket].stopping
        }),
        ({
            let (t, r) = concluded(s, id, ticket, OutcomeView::Cancelled);
            &&& r is Ok
            &&& t.status(id) is Stopped
            &&& t.attempts[ticket].settled
            &&& t.status(other) == s.status(other) && t.runtime(other) == s.runtime(other)
            &&& t.events.last() == (EventView::StatusChanged {
                server_id: id,
                status: StatusView::Stopped,
            })
        }),
        ({
            let (t, r) = concluded(s, id, ticket, OutcomeView::Failed(e));
            &&& t.attempts[ticket].settled
            &&& t.status(other) == s.status(other) && t.runtime(other) == s.runtime(other)
            &&& s.attempts[ticket].cancelled ==> r is Ok && t.status(id) is Stopped
            &&& !s.attempts[ticket].cancelled ==> r == Err::<(), ErrorView>(e)
            &&& !s.attempts[ticket].cancelled && e is ServerNotFound ==> t.status(id) is Stopped
            &&& !s.attempts[ticket].cancelled && !(e is ServerNotFound) ==> t.status(id) == (
            StatusView::Errored { message: e.message() })
        }),
{
}

/// A failed or cancelled handshake kills the whole group of the child, waits for
/// it for five seconds, and ends the start as it failed.
pub proof fn law_a_failed_handshake_kills_the_tree(
    from: Handshaking,
    r: AfterHandshake,
    outcome: OutcomeView,
)
    requires
        from.wf(),
        tears_down(from, r, outcome),
    ensures
        r is TearDown,
        r->plan.target == -(from.child() as int),
        r->plan.signal == Signal::Kill,
        r->TearDown_wait == 5,
        r->tearing.server() == from.server(),
        r->tearing.ticket() == from.ticket(),
        r->tearing.ends_in() == outcome,
{
}

/// A stop asks the whole tree of a running server to exit, gives it two
/// seconds, and marks that run and no other as being stopped; a server that is
/// not running is stopped at once.
pub proof fn law_a_stop_asks_the_tree_first(
    before: StateView,
    after: StateView,
    id: ServerId,
    r: StopStep,
    other: Ticket,
)
    requires
        before.wf(),
        stops(before, after, id, r),
    ensures
        before.runtime(id) matches Some(run) ==> {
            &&& r is Signal
            &&& r->plan.target == -(run.kill.group() as int)
            &&& r->plan.signal == Signal::Terminate
            &&& r->kill == run.kill
            &&& r->Signal_wait == 2
            &&& after.attempts[run.ticket].stopping
            &&& after.attempts[run.ticket].cancelled == before.attempts[run.ticket].cancelled
            &&& other != run.ticket ==> after.attempts[other] == before.attempts[other]
            &&& after.registry == before.registry && after.events == before.events
        },
        before.runtime(id) is None ==> {
            &&& r is Finished && r->Finished_0 is Ok
            &&& after.status(id) is Stopped
            &&& after.attempts == before.attempts
            &&& before.status(id) is Stopped ==> after == before
        },
{
    if before.runtime(id) is Some {
        assert(before.registry.contains_key(id));
    }
}

/// When the grace period ends, a child that is still there is killed with its
/// whole tree and waited for; one that is gone needs nothing more. A kill that
/// is not confirmed is reported as a timeout that names the server.
pub proof fn law_a_stubborn_server_is_killed(
    kill: KillHandle,
    gone: StopStep,
    there: StopStep,
    id: ServerId,
    confirmed: AppResult<()>,
    unconfirmed: AppResult<()>,
)
    requires
        kill.group() > 0,
        call_ensures(grace_ended, (kill, true), gone),
        call_ensures(grace_ended, (kill, false), there),
        call_ensures(kill_confirmed, (id, true), confirmed),
        call_ensures(kill_confirmed, (id, false), unconfirmed),
    ensures
        gone is Finished && gone->Finished_0 is Ok,
        there is Signal && there->plan.target == -(kill.group() as int) && there->plan.signal
            == Signal::Kill && there->kill == kill && there->Signal_wait == 5,
        confirmed is Ok,
        unconfirmed matches Err(e) && e@ == ErrorView::Timeout(
            "stopping server "@ + text::decimal(id as int),
        ),
{
}

/// An exit that nobody asked for is reported with how the server exited.
pub proof fn law_a_crash_says_how(s: StateView, id: ServerId, ticket: Ticket, detail: Seq<char>)
    ensures
        !s.attempts[ticket].stopping ==> after_exit(s, id, ticket, detail).status(id) == (
        StatusView::Errored { message: "server exited unexpectedly ("@ + detail + seq![')'] }),
        s.attempts[ticket].stopping ==> after_exit(s, id, ticket, detail).status(id) is Stopped,
        after_exit(s, id, ticket, detail).events.len() == s.events.len() + 1,
        after_exit(s, id, ticket, detail).attempts == s.attempts,
{
    reveal_strlit(")");
    assert(")"@ =~= seq![')']);
}

/// An update deletes the credentials of exactly those keys that were marked and
/// are not any more.
pub proof fn law_an_update_drops_what_is_no_longer_marked(
    old_env: Seq<(Seq<char>, EnvView)>,
    new_env: Map<Seq<char>, EnvView>,
    key: Seq<char>,
)
    ensures
        dropped_secrets(old_env, new_env).contains(key) <==> (exists|i: int|
            0 <= i < old_env.len() && #[trigger] old_env[i] == (key, EnvView::Secret)) && !(
        new_env.contains_key(key) && new_env[key] == EnvView::Secret),
        dropped_secrets(old_env, new_env).len() <= old_env.len(),
    decreases old_env.len(),
{
    if old_env.len() > 0 {
        let rest = old_env.drop_last();
        let last = old_env.len() - 1;
        let head = dropped_secrets(rest, new_env);
        let all = dropped_secrets(old_env, new_env);
        law_an_update_drops_what_is_no_longer_marked(rest, new_env, key);
        assert(old_env.last() == old_env[last]);
        if all.contains(key) {
            let n = choose|n: int| 0 <= n < all.len() && all[n] == key;
            if n < head.len() {
                assert(head[n] == key);
                assert(head.contains(key));
                let i = choose|i: int|
                    0 <= i < rest.len() && #[trigger] rest[i] == (key, EnvView::Secret);
                assert(old_env[i] == (key, EnvView::Secret));
            } else {
                assert(old_env[last] == (key, EnvView::Secret));
            }
        }
        if (exists|i: int|
            0 <= i < old_env.len() && #[trigger] old_env[i] == (key, EnvView::Secret)) && !(
        new_env.contains_key(key) && new_env[key] == EnvView::Secret) {
            let i = choose|i: int|
                0 <= i < old_env.len() && #[trigger] old_env[i] == (key, EnvView::Secret);
            if i < last {
                assert(rest[i] == (key, EnvView::Secret));
                let n = choose|n: int| 0 <= n < head.len() && head[n] == key;
                assert(all[n] == key);
            } else {
                assert(all[all.len() - 1] == key);
            }
        }
    }
}

/// A working directory must be there, where one is named: a missing one is
/// refused by its name, for a new server and for an update alike.
pub proof fn law_a_working_directory_must_exist(path: Seq<char>)
    ensures
        directory_fault(None, true) is None,
        directory_fault(None, false) is None,
        directory_fault(Some(path), true) is None,
        directory_fault(Some(path), false) == Some(
            ErrorView::InvalidInput("working directory does not exist: "@ + path),
        ),
{
}

/// The sweep goes through the records in their order, one by one.
pub proof fn law_the_sweep_keeps_the_order(
    a: Seq<ServerRecord>,
    b: Seq<ServerRecord>,
    record: ServerRecord,
)
    ensures
        auto_ids(a + b) == auto_ids(a) + auto_ids(b),
        auto_ids(seq![record]) == (if record.auto_start {
            seq![record.id]
        } else {
            Seq::<ServerId>::empty()
        }),
    decreases b.len(),
{
    let one = seq![record];
    assert(one.drop_last() =~= Seq::empty());
    assert(one.last() == record);
    assert(auto_ids(one.drop_last()) =~= Seq::empty());
    assert(record.auto_start ==> auto_ids(one) =~= seq![record.id]);
    if b.len() == 0 {
        assert(a + b =~= a);
        assert(auto_ids(a) + auto_ids(b) =~= auto_ids(a));
    } else {
        let rest = b.drop_last();
        law_the_sweep_keeps_the_order(a, rest, record);
        assert((a + b).drop_last() =~= a + rest);
        assert((a + b).last() == b.last());
        assert(auto_ids(a + b) =~= auto_ids(a) + auto_ids(b));
    }
}

/// A listed server shows its record and its live status, each under its name.
pub proof fn law_the_list_shows_record_and_status(
    id: ServerId,
    server: ServerView,
    env: Seq<(Seq<char>, EnvView)>,
    status: StatusView,
)
    ensures
        ({
            let j = overview_json(id, server, env, status);
            &&& j.get("id"@) == Some(JsonView::Number(json::number_of_i64(id)))
            &&& j.get("name"@) == Some(JsonView::Str(server.name))
            &&& j.get("command"@) == Some(JsonView::Str(server.command))
            &&& j.get("auto_start"@) == Some(JsonView::Bool(server.auto_start))
            &&& j.get("args"@) == Some(db::args_json(server.args))
            &&& j.get("env"@) == Some(db::env_json(env))
            &&& j.get("status"@) == Some(status.json())
            &&& server.cwd matches Some(path) ==> j.get("cwd"@) == Some(JsonView::Str(path))
            &&& server.cwd is None ==> j.get("cwd"@) == Some(JsonView::Null)
            &&& j->Object_0.len() == 8
        }),
{
    lemma_overview_names(id, server, env, status);
    let m = overview_json(id, server, env, status)->Object_0;
    json::lemma_ascending_names_differ(m);
    assert(m[0].0 == "args"@ && m[1].0 == "auto_start"@ && m[2].0 == "command"@);
    assert(m[3].0 == "cwd"@ && m[4].0 == "env"@ && m[5].0 == "id"@);
    assert(m[6].0 == "name"@ && m[7].0 == "status"@);
    json::law_members_are_found_by_name(m, "args"@);
    json::law_members_are_found_by_name(m, "auto_start"@);
    json::law_members_are_found_by_name(m, "command"@);
    json::law_members_are_found_by_name(m, "cwd"@);
    json::law_members_are_found_by_name(m, "env"@);
    json::law_members_are_found_by_name(m, "id"@);
    json::law_members_are_found_by_name(m, "name"@);
    json::law_members_are_found_by_name(m, "status"@);
}

/// A removal deletes the entries of every marked key of the record, and no
/// others.
pub proof fn law_a_removal_leaves_no_secret(
    record: ServerRecord,
    r: RemoveStep,
    account: Seq<char>,
)
    requires
        strmap::ascending(record.env.items()),
        call_ensures(remove_loaded, (Ok(record),), r),
    ensures
        r is DeleteSecrets,
        text::texts(r->DeleteSecrets_0@).contains(account) <==> exists|k: Seq<char>|
            record.env@.contains_key(k) && record.env@[k] == EnvView::Secret
                && #[trigger] secrets::spec_account(record.id, k) == account,
{
    let items = record.env.items();
    let keys = secrets::secret_keys_of(items);
    let all = text::texts(r->DeleteSecrets_0@);
    if all.contains(account) {
        let n = choose|n: int| 0 <= n < all.len() && all[n] == account;
        assert(secrets::spec_account(record.id, keys[n]) == account);
        assert(keys.contains(keys[n]));
        secrets::law_the_secret_keys_are_the_marked_ones(items, keys[n]);
    }
    if exists|k: Seq<char>|
        record.env@.contains_key(k) && record.env@[k] == EnvView::Secret
            && #[trigger] secrets::spec_account(record.id, k) == account {
        let k = choose|k: Seq<char>|
            record.env@.contains_key(k) && record.env@[k] == EnvView::Secret
                && #[trigger] secrets::spec_account(record.id, k) == account;
        secrets::law_the_secret_keys_are_the_marked_ones(items, k);
        let n = choose|n: int| 0 <= n < keys.len() && keys[n] == k;
        assert(all[n] == account);
    }
}

/// A removal stops the server, loads its record, deletes its credentials, then
/// its row, and stops once more; whatever fails ends it with that failure.
pub proof fn law_a_removal_goes_step_by_step(
    e: AppError,
    ended: Removed,
    first: RemoveStep,
    then: RemoveStep,
    next: RemoveStep,
    last: RemoveStep,
    failed: RemoveStep,
)
    requires
        call_ensures(remove_step, (Removed::StoppedFirst, Ok(())), first),
        call_ensures(remove_step, (Removed::SecretsDeleted, Ok(())), then),
        call_ensures(remove_step, (Removed::RowDeleted, Ok(())), next),
        call_ensures(remove_step, (Removed::StoppedAgain, Ok(())), last),
        call_ensures(remove_step, (ended, Err(e)), failed),
    ensures
        first is Load,
        then is DeleteRow,
        next is StopAgain,
        last == RemoveStep::Finished(Ok::<(), AppError>(())),
        failed == RemoveStep::Finished(Err::<(), AppError>(e)),
{
}

/// Setting a secret marks its key and deleting it takes the variable out; every
/// other variable, and all else of the record, stays as it is.
pub proof fn law_markers_come_and_go_alone(
    record: ServerRecord,
    key: String,
    name: &str,
    set: Option<ServerRecord>,
    gone: Option<ServerRecord>,
    other: Seq<char>,
)
    requires
        call_ensures(set_secret, (record, key), set),
        call_ensures(delete_secret, (record, name), gone),
    ensures
        set is None <==> record.env@.contains_key(key@) && record.env@[key@] == EnvView::Secret,
        set matches Some(t) ==> {
            &&& t.env@.contains_key(key@) && t.env@[key@] == EnvView::Secret
            &&& other != key@ ==> t.env@.contains_key(other) == record.env@.contains_key(other)
            &&& other != key@ && record.env@.contains_key(other) ==> t.env@[other]
                == record.env@[other]
            &&& t.id == record.id && t.name@ == record.name@ && t.command@ == record.command@
            &&& text::texts(t.args@) == text::texts(record.args@) && t.auto_start
                == record.auto_start
            &&& text::text_option(t.cwd) == text::text_option(record.cwd)
        },
        gone is None <==> !record.env@.contains_key(name@),
        gone matches Some(t) ==> {
            &&& !t.env@.contains_key(name@)
            &&& other != name@ ==> t.env@.contains_key(other) == record.env@.contains_key(other)
            &&& other != name@ && record.env@.contains_key(other) ==> t.env@[other]
                == record.env@[other]
            &&& t.id == record.id && t.name@ == record.name@ && t.command@ == record.command@
            &&& text::texts(t.args@) == text::texts(record.args@) && t.auto_start
                == record.auto_start
            &&& text::text_option(t.cwd) == text::text_option(record.cwd)
        },
{
    if set is Some {
        let t = set->0;
        assert(t@.server.env == t.env@);
        assert(t@.server.name == t.name@ && t@.server.command == t.command@);
        assert(t@.server.args == text::texts(t.args@));
    }
    if gone is Some {
        let t = gone->0;
        assert(t@.server.env == t.env@);
        assert(t@.server.name == t.name@ && t@.server.command == t.command@);
        assert(t@.server.args == text::texts(t.args@));
    }
}

/// The UI is told of every line and notification as it is, of its server and its
/// stream, and of every gap with its size.
pub proof fn law_the_ui_is_told_as_it_is(
    server_id: ServerId,
    stream: LogStream,
    line: String,
    lost: u64,
    frame: Json,
    said: AppEvent,
    gap: AppEvent,
    noted: AppEvent,
    missed: AppEvent,
)
    requires
        call_ensures(fan_out_lines, (server_id, stream, StreamEvent::Line(line)), said),
        call_ensures(fan_out_lines, (server_id, stream, StreamEvent::Dropped(lost)), gap),
        call_ensures(
            fan_out_notifications,
            (server_id, NotificationEvent::Frame(frame)),
            noted,
        ),
        call_ensures(fan_out_notifications, (server_id, NotificationEvent::Gap(lost)), missed),
    ensures
        said@ == (EventView::Log { server_id, stream, line: line@ }),
        gap@ == (EventView::LogGap { server_id, stream, dropped: lost }),
        noted@ == (EventView::Notification { server_id, payload: frame@ }),
        missed@ == (EventView::NotificationGap { server_id, dropped: lost }),
{
}

/// The process that is spawned is what the record says: its command, all its
/// arguments in order, its directory, and the environment as it was resolved.
pub proof fn law_the_record_is_what_is_spawned(
    loading: Loading,
    loaded_in: &mut AppState,
    record: ServerRecord,
    resolving: Resolving,
    kept: ServerRecord,
    resolved_in: &mut AppState,
    env: StrMap<String>,
    spawning: Spawning,
    config: ProcessConfig,
)
    requires
        call_ensures(
            Loading::loaded,
            (loading, loaded_in, Raced::Ready(Ok(record))),
            AfterLoad::Resolve(resolving, kept),
        ),
        call_ensures(
            Resolving::resolved,
            (resolving, resolved_in, Raced::Ready(Ok(env))),
            AfterResolve::Spawn(spawning, config),
        ),
    ensures
        kept == record,
        config@.command == record.command@,
        config@.args == text::texts(record.args@),
        config@.cwd == text::text_option(record.cwd),
        config@.env == env.items(),
        spawning.server() == loading.server(),
        spawning.ticket() == loading.ticket(),
        final(resolved_in)@ == old(resolved_in)@,
{
    assert(resolving.config(env.items()).command == record@.server.command);
}

/// A child that is spawned makes its server initializing, and a handshake that
/// succeeds while nobody cancelled makes it running, as that very child, with
/// what it said of itself; the start is settled then.
pub proof fn law_a_good_handshake_makes_the_server_run(
    spawning: Spawning,
    spawned_in: &mut AppState,
    pid: u32,
    handshaking: Handshaking,
    shaken_in: &mut AppState,
    shaken: ServerHandshake,
    r: AfterHandshake,
)
    requires
        1 <= pid <= i32::MAX,
        old(spawned_in)@.wf(),
        call_ensures(
            Spawning::spawned,
            (spawning, spawned_in, Ok(pid)),
            AfterSpawn::Handshake(handshaking),
        ),
        final(spawned_in)@ == old(shaken_in)@,
        old(shaken_in)@.can_install(spawning.server()),
        call_ensures(
            Handshaking::handshaken,
            (handshaking, shaken_in, Raced::Ready(Ok(shaken))),
            r,
        ),
    ensures
        final(spawned_in)@.status(spawning.server()) is Initializing,
        r is Running && r->Running_0 is Ok,
        final(shaken_in)@.status(spawning.server()) is Running,
        final(shaken_in)@.runtime(spawning.server()) matches Some(run) && run.pid == pid
            && run.ticket == spawning.ticket() && run.kill.group() == pid && run.handshake
            == shaken@,
        final(shaken_in)@.attempts[spawning.ticket()].settled,
{
    let kill = choose|kill: KillHandle|
        kill.group() == handshaking.child() && final(shaken_in)@ == settled(
            old(shaken_in)@.install(
                handshaking.server(),
                #[trigger] runtime_of(handshaking.child(), handshaking.ticket(), kill, shaken@),
            ),
            handshaking.ticket(),
        );
    assert(final(shaken_in)@.runtime(spawning.server()) == Some(
        runtime_of(pid, spawning.ticket(), kill, shaken@),
    ));
}

/// Any other end of a handshake leaves the state alone and takes the child down,
/// whoever it was that ended it.
pub proof fn law_no_child_is_left_behind(
    handshaking: Handshaking,
    failing_in: &mut AppState,
    e: AppError,
    failed: AfterHandshake,
    cancelled_in: &mut AppState,
    cancelled: AfterHandshake,
    late_in: &mut AppState,
    shaken: ServerHandshake,
    late: AfterHandshake,
)
    requires
        handshaking.wf(),
        call_ensures(
            Handshaking::handshaken,
            (handshaking, failing_in, Raced::Ready(Err(e))),
            failed,
        ),
        call_ensures(
            Handshaking::handshaken,
            (handshaking, cancelled_in, Raced::Cancelled),
            cancelled,
        ),
        !old(late_in)@.can_install(handshaking.server()),
        call_ensures(
            Handshaking::handshaken,
            (handshaking, late_in, Raced::Ready(Ok(shaken))),
            late,
        ),
    ensures
        failed is TearDown && failed->plan.target == -(handshaking.child() as int)
            && failed->plan.signal == Signal::Kill && failed->tearing.ends_in()
            == OutcomeView::Failed(e@),
        cancelled is TearDown && cancelled->plan.target == -(handshaking.child() as int)
            && cancelled->plan.signal == Signal::Kill && cancelled->tearing.ends_in()
            == OutcomeView::Cancelled,
        late is TearDown && late->plan.target == -(handshaking.child() as int)
            && late->plan.signal == Signal::Kill && late->tearing.ends_in()
            == OutcomeView::Cancelled,
        final(failing_in)@ == old(failing_in)@,
        final(cancelled_in)@ == old(cancelled_in)@,
        final(late_in)@ == old(late_in)@,
{
}

/// A stop of a server that is starting cancels that start, and waits for it; a
/// start that does not settle in time is reported as a timeout that names the
/// server.
pub proof fn law_a_stop_cancels_the_start(
    stopping: &mut AppState,
    id: ServerId,
    ticket: Ticket,
    r: StopStep,
    waiting: &mut AppState,
    late: StopStep,
)
    requires
        old(stopping)@.wf(),
        old(stopping)@.start(id) == Some(ticket),
        call_ensures(stop, (stopping, id), r),
        call_ensures(start_settled, (waiting, id, false), late),
    ensures
        r == StopStep::AwaitSettled(ticket),
        final(stopping)@.attempts[ticket].cancelled,
        final(stopping)@.registry == old(stopping)@.registry,
        late is Finished && (late->Finished_0 matches Err(e) && e@ == ErrorView::Timeout(
            "cancelling start of server "@ + text::decimal(id as int),
        )),
        final(waiting)@ == old(waiting)@,
{
}

/// An update writes the record as it is, and deletes exactly the credentials of
/// the keys that were marked and are not any more.
pub proof fn law_an_update_writes_and_cleans_up(
    was: ServerRecord,
    record: ServerRecord,
    plan: UpdatePlan,
    read: AppResult<ServerRecord>,
    account: Seq<char>,
)
    requires
        call_ensures(update, (&was, &record, true), Ok::<UpdatePlan, AppError>(plan)),
        call_ensures(db::row_to_record, (plan.row,), read),
    ensures
        read matches Ok(stored) && stored@ == record@,
        text::texts(plan.delete@).contains(account) <==> exists|k: Seq<char>| #[trigger]
            secrets::spec_account(record.id, k) == account && (exists|i: int|
                0 <= i < was.env.items().len() && #[trigger] was.env.items()[i] == (
                    k,
                    EnvView::Secret,
                )) && !(record.env@.contains_key(k) && record.env@[k] == EnvView::Secret),
{
    db::law_reading_a_row_gives_back_the_record(plan.row, record.id, record@.server);
    let items = was.env.items();
    let keys = dropped_secrets(items, record.env@);
    let all = text::texts(plan.delete@);
    if all.contains(account) {
        let n = choose|n: int| 0 <= n < all.len() && all[n] == account;
        assert(secrets::spec_account(record.id, keys[n]) == account);
        assert(keys.contains(keys[n]));
        law_an_update_drops_what_is_no_longer_marked(items, record.env@, keys[n]);
    }
    if exists|k: Seq<char>| #[trigger]
        secrets::spec_account(record.id, k) == account && (exists|i: int|
            0 <= i < items.len() && #[trigger] items[i] == (k, EnvView::Secret)) && !(
        record.env@.contains_key(k) && record.env@[k] == EnvView::Secret) {
        let k = choose|k: Seq<char>| #[trigger]
            secrets::spec_account(record.id, k) == account && (exists|i: int|
                0 <= i < items.len() && #[trigger] items[i] == (k, EnvView::Secret)) && !(
            record.env@.contains_key(k) && record.env@[k] == EnvView::Secret);
        law_an_update_drops_what_is_no_longer_marked(items, record.env@, k);
        let n = choose|n: int| 0 <= n < keys.len() && keys[n] == k;
        assert(all[n] == account);
    }
}

/// The list has every record in its order, each with the status that its server
/// has now.
pub proof fn law_the_list_joins_record_and_status(
    state: AppState,
    records: Vec<ServerRecord>,
    r: Vec<ServerOverview>,
    i: int,
)
    requires
        call_ensures(list, (&state, records), r),
    ensures
        r@.len() == records@.len(),
        0 <= i < r@.len() ==> r@[i].record == records@[i] && r@[i].status@ == state@.status(
            records@[i].id,
        ),
{
}

/// A step of a start that fails ends the start with that failure, which the
/// caller is told and the status shows, unless the start was cancelled: then it
/// is stopped, and nobody is told of a failure.
pub proof fn law_a_failing_step_ends_the_start(
    loading: Loading,
    a: &mut AppState,
    resolving: Resolving,
    b: &mut AppState,
    spawning: Spawning,
    c: &mut AppState,
    e: AppError,
    x: AfterLoad,
    y: AfterResolve,
    z: AfterSpawn,
)
    requires
        !(e@ is ServerNotFound),
        call_ensures(Loading::loaded, (loading, a, Raced::Ready(Err(e))), x),
        call_ensures(Resolving::resolved, (resolving, b, Raced::Ready(Err(e))), y),
        call_ensures(Spawning::spawned, (spawning, c, Err(e)), z),
    ensures
        x is Finished && y is Finished && z is Finished,
        !old(a)@.attempts[loading.ticket()].cancelled ==> unit_result(x->Finished_0) == Err::<
            (),
            ErrorView,
        >(e@) && final(a)@.status(loading.server()) == (StatusView::Errored {
            message: e@.message(),
        }),
        old(a)@.attempts[loading.ticket()].cancelled ==> x->Finished_0 is Ok && final(a)@.status(
            loading.server(),
        ) is Stopped,
        !old(b)@.attempts[resolving.ticket()].cancelled ==> unit_result(y->Finished_0) == Err::<
            (),
            ErrorView,
        >(e@) && final(b)@.status(resolving.server()) == (StatusView::Errored {
            message: e@.message(),
        }),
        old(b)@.attempts[resolving.ticket()].cancelled ==> y->Finished_0 is Ok && final(b)@.status(
            resolving.server(),
        ) is Stopped,
        !old(c)@.attempts[spawning.ticket()].cancelled ==> unit_result(z->Finished_0) == Err::<
            (),
            ErrorView,
        >(e@) && final(c)@.status(spawning.server()) == (StatusView::Errored {
            message: e@.message(),
        }),
        old(c)@.attempts[spawning.ticket()].cancelled ==> z->Finished_0 is Ok && final(c)@.status(
            spawning.server(),
        ) is Stopped,
        final(a)@.attempts[loading.ticket()].settled,
        final(b)@.attempts[resolving.ticket()].settled,
        final(c)@.attempts[spawning.ticket()].settled,
{
}

/// A cancel before there is a child stops the server and counts as done.
pub proof fn law_an_early_cancel_stops_the_server(
    loading: Loading,
    a: &mut AppState,
    resolving: Resolving,
    b: &mut AppState,
    x: AfterLoad,
    y: AfterResolve,
)
    requires
        call_ensures(Loading::loaded, (loading, a, Raced::Cancelled), x),
        call_ensures(Resolving::resolved, (resolving, b, Raced::Cancelled), y),
    ensures
        x is Finished && x->Finished_0 is Ok,
        final(a)@.status(loading.server()) is Stopped,
        final(a)@.attempts[loading.ticket()].settled,
        y is Finished && y->Finished_0 is Ok,
        final(b)@.status(resolving.server()) is Stopped,
        final(b)@.attempts[resolving.ticket()].settled,
{
}

/// A start is begun exactly for a server that is neither starting nor running,
/// for that server and under a ticket of its own.
pub proof fn law_a_start_is_begun_once(
    state: &mut AppState,
    id: ServerId,
    r: Option<Loading>,
)
    requires
        old(state)@.wf(),
        old(state)@.next_ticket < u64::MAX,
        call_ensures(start, (state, id), r),
    ensures
        r is Some <==> old(state)@.status(id) is Stopped || old(state)@.status(id) is Errored,
        r matches Some(loading) ==> loading.server() == id && loading.ticket()
            == old(state)@.next_ticket && final(state)@.status(id) is Starting,
        r is None ==> final(state)@ == old(state)@,
{
}

} // verus!
