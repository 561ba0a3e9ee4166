//! Supervision of MCP server processes: what is spawned, and which signals go
//! to which processes.
//!
//! The child becomes the leader of its own process group, and the whole tree is
//! signalled through the group, so grandchildren (`npx` starting `node`) die
//! too.

use vstd::prelude::*;

use crate::strmap::StrMap;
use crate::text;

verus! {

broadcast use vstd::string::group_string_axioms;

/// Graceful-stop window between the polite signal and the hard kill, in
/// seconds.
pub const SHUTDOWN_GRACE: u64 = 2;

/// A process to spawn. The environment holds fully resolved values; nothing
/// here is ever logged.
#[derive(Debug, PartialEq)]
pub struct ProcessConfig {
    pub command: String,
    pub args: Vec<String>,
    pub env: StrMap<String>,
    pub cwd: Option<String>,
}

#[verifier::ext_equal]
pub struct ProcessView {
    pub command: Seq<char>,
    pub args: Seq<Seq<char>>,
    pub env: Seq<(Seq<char>, Seq<char>)>,
    pub cwd: Option<Seq<char>>,
}

impl View for ProcessConfig {
    type V = ProcessView;

    open spec fn view(&self) -> ProcessView {
        ProcessView {
            command: self.command@,
            args: text::texts(self.args@),
            env: self.env.items(),
            cwd: text::text_option(self.cwd),
        }
    }
}

impl Default for ProcessConfig {
    fn default() -> (r: ProcessConfig)
        ensures
            r@ == (ProcessView {
                command: Seq::empty(),
                args: Seq::empty(),
                env: Seq::empty(),
                cwd: None,
            }),
    {
        let r = ProcessConfig {
            command: String::new(),
            args: Vec::new(),
            env: StrMap::new(),
            cwd: None,
        };
        assert(r@.args =~= Seq::empty());
        assert(r@.command =~= Seq::empty());
        r
    }
}

/// A signal to a process group.
#[derive(Clone, Copy, Debug, PartialEq, Eq, Structural)]
pub enum Signal {
    /// Ask to exit.
    Terminate,
    /// Kill at once.
    Kill,
}

/// A signal and where it goes, in the manner of `kill(2)`: a negative target
/// is the group of that number.
#[derive(Clone, Copy, Debug, PartialEq, Eq, Structural)]
pub struct SignalPlan {
    pub target: i32,
    pub signal: Signal,
}

/// The handle by which a whole process tree is signalled. Deliberately separate
/// from the child: the exit waiter owns the child, while stop paths only need
/// this.
#[derive(Clone, Copy, Debug, PartialEq, Eq, Structural)]
pub struct KillHandle {
    pgid: i32,
}

impl KillHandle {
    /// The process group.
    pub closed spec fn group(self) -> i32 {
        self.pgid
    }

    /// The handle of a spawned child, which leads its own group. A process id
    /// is a positive `i32`.
    pub fn of_child(pid: u32) -> (r: KillHandle)
        requires
            1 <= pid <= i32::MAX,
        ensures
            r.group() == pid,
    {
        KillHandle { pgid: pid as i32 }
    }

    /// Ask the whole tree to exit.
    pub fn signal_graceful(&self) -> (r: SignalPlan)
        requires
            self.group() > 0,
        ensures
            r == (SignalPlan { target: (-self.group()) as i32, signal: Signal::Terminate }),
    {
        SignalPlan { target: -self.pgid, signal: Signal::Terminate }
    }

    /// Kill the whole tree immediately, grandchildren included.
    pub fn kill_now(&self) -> (r: SignalPlan)
        requires
            self.group() > 0,
        ensures
            r == (SignalPlan { target: (-self.group()) as i32, signal: Signal::Kill }),
    {
        SignalPlan { target: -self.pgid, signal: Signal::Kill }
    }

    /// What follows the grace period of a shutdown: nothing where the child
    /// exited in it, the hard kill otherwise.
    pub fn shutdown(&self, exited: bool) -> (r: Option<SignalPlan>)
        requires
            self.group() > 0,
        ensures
            r == (if exited {
                None::<SignalPlan>
            } else {
                Some(SignalPlan { target: (-self.group()) as i32, signal: Signal::Kill })
            }),
    {
        if exited {
            None
        } else {
            Some(self.kill_now())
        }
    }
}

/// A signal goes to the whole group of the child and to no single process: a
/// polite one, a hard one, and at the end of the grace period the hard one
/// exactly where the child is still there.
pub proof fn law_signals_reach_the_whole_tree(
    handle: KillHandle,
    pid: u32,
    polite: SignalPlan,
    hard: SignalPlan,
    late: Option<SignalPlan>,
    needless: Option<SignalPlan>,
)
    requires
        1 <= pid <= i32::MAX,
        call_ensures(KillHandle::of_child, (pid,), handle),
        call_ensures(KillHandle::signal_graceful, (&handle,), polite),
        call_ensures(KillHandle::kill_now, (&handle,), hard),
        call_ensures(KillHandle::shutdown, (&handle, false), late),
        call_ensures(KillHandle::shutdown, (&handle, true), needless),
    ensures
        polite.target == -(pid as int) && polite.signal == Signal::Terminate,
        hard.target == -(pid as int) && hard.signal == Signal::Kill,
        late == Some(hard),
        needless is None,
{
}

} // verus!
