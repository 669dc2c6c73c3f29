//! The supervising loop: which readiness event leads to which action, and
//! which status the supervisor reports when the child is gone.
//!
//! The loop itself blocks in system calls, so it is written as a machine:
//! the embedding program performs an [`Action`], reports what happened as an
//! [`Event`], and [`ServerState::step`] answers with the next action.

use vstd::prelude::*;

verus! {

/// The status reported for a child that a signal terminated, whichever
/// signal it was.
pub const SIGNALED_STATUS: i32 = -1;

/// The token under which the termination notification is registered with
/// the readiness wait.
pub const SIGNAL_TOKEN: u64 = 0;

/// The token under which the listening socket is registered with the
/// readiness wait.
pub const LISTENER_TOKEN: u64 = 1;

/// What a non-blocking look at the child found.
#[derive(Clone, Copy, Debug, PartialEq, Eq, Structural)]
pub enum ChildStatus {
    /// The child left by itself, with this exit code.
    Exited(i32),
    /// A signal terminated the child.
    Signaled,
    /// The child is still running.
    StillAlive,
}

/// The fields of a termination notification that the loop reads.
#[derive(Clone, Copy, Debug, PartialEq, Eq, Structural)]
pub struct SignalInfo {
    /// The number of the signal that was delivered.
    pub signo: u32,
    /// Why the signal was sent.
    pub code: i32,
    /// The exit code, where `code` says that the child exited.
    pub status: i32,
}

/// The numbers by which this platform tells the ends of a child apart.
#[derive(Clone, Copy, Debug, PartialEq, Eq, Structural)]
pub struct SignalCodes {
    /// The number of the signal that announces a change in a child.
    pub sigchld: u32,
    /// The code of a child that exited.
    pub exited: i32,
    /// The code of a child that a signal killed.
    pub killed: i32,
    /// The code of a child that a signal killed and that dumped core.
    pub dumped: i32,
}

/// `nix::sys::signal::Signal::SIGCHLD` as a number: the signal that tells
/// a parent of a change in one of its children.
///
/// The number differs between architectures, so nothing is claimed of it.
#[verifier::external_body]
fn sigchld_number() -> (n: u32) {
    nix::sys::signal::Signal::SIGCHLD as u32
}

/// `libc::CLD_EXITED`, `libc::CLD_KILLED` and `libc::CLD_DUMPED`, in this
/// order: the codes by which a notification says that a child exited, that
/// a signal killed it, and that a signal killed it and it dumped core.
///
/// Which numbers they are differs between platforms, so none is claimed.
/// What is claimed is what libc's definitions show on every platform that
/// has the three: no two of them are the same number. Without that a
/// notification could not say which of the three ends a child took.
#[verifier::external_body]
fn child_codes() -> (codes: (i32, i32, i32))
    ensures
        codes.0 != codes.1,
        codes.0 != codes.2,
        codes.1 != codes.2,
{
    (libc::CLD_EXITED, libc::CLD_KILLED, libc::CLD_DUMPED)
}

impl SignalCodes {
    /// The numbers of the platform the program was built for. Which numbers
    /// they are is the platform's business, and every function that reads
    /// them is verified for all values. On every platform they tell the
    /// three ends of a child apart.
    pub fn platform() -> (codes: SignalCodes)
        ensures
            codes.tells_apart(),
            codes.killed != codes.dumped,
    {
        let (exited, killed, dumped): (i32, i32, i32) = child_codes();
        SignalCodes { sigchld: sigchld_number(), exited, killed, dumped }
    }

    /// Whether the codes tell an exit from a termination by a signal, as
    /// those of every platform do.
    pub open spec fn tells_apart(&self) -> bool {
        self.exited != self.killed && self.exited != self.dumped
    }

    /// The status that a notification settles, if it settles one: the exit
    /// code of a child that exited, [`SIGNALED_STATUS`] for one that a
    /// signal terminated, and nothing for any other notification.
    pub open spec fn spec_exit_status(&self, info: SignalInfo) -> Option<i32> {
        if info.signo != self.sigchld {
            None
        } else if info.code == self.exited {
            Some(info.status)
        } else if info.code == self.killed || info.code == self.dumped {
            Some(SIGNALED_STATUS)
        } else {
            None
        }
    }

    /// Reads a termination notification.
    pub fn exit_status(&self, info: &SignalInfo) -> (status: Option<i32>)
        ensures
            status == self.spec_exit_status(*info),
    {
        if info.signo != self.sigchld {
            None
        } else if info.code == self.exited {
            Some(info.status)
        } else if info.code == self.killed || info.code == self.dumped {
            Some(SIGNALED_STATUS)
        } else {
            None
        }
    }
}

/// One of the two sources that the readiness wait watches.
#[derive(Clone, Copy, Debug, PartialEq, Eq, Structural)]
pub enum Source {
    /// The termination notification.
    Signal,
    /// The listening socket.
    Listener,
}

impl Source {
    /// The token this source is registered under.
    pub open spec fn spec_token(self) -> u64 {
        match self {
            Source::Signal => SIGNAL_TOKEN,
            Source::Listener => LISTENER_TOKEN,
        }
    }

    /// The token this source is registered under.
    pub fn token(self) -> (t: u64)
        ensures
            t == self.spec_token(),
    {
        match self {
            Source::Signal => SIGNAL_TOKEN,
            Source::Listener => LISTENER_TOKEN,
        }
    }

    /// The source registered under `token`; `None` for a token that no
    /// source was registered under.
    pub fn from_token(token: u64) -> (source: Option<Source>)
        ensures
            token == SIGNAL_TOKEN ==> source == Some(Source::Signal),
            token == LISTENER_TOKEN ==> source == Some(Source::Listener),
            token != SIGNAL_TOKEN && token != LISTENER_TOKEN ==> source is None,
    {
        if token == SIGNAL_TOKEN {
            Some(Source::Signal)
        } else if token == LISTENER_TOKEN {
            Some(Source::Listener)
        } else {
            None
        }
    }
}

/// What the embedding program reports back to the loop.
#[derive(Clone, Copy, Debug, PartialEq, Eq, Structural)]
pub enum Event {
    /// The wait returned with no source ready.
    Idle,
    /// The wait returned, and this source is the one it delivered.
    Ready(Source),
    /// One pending connection was accepted and handed to a worker.
    Accepted,
    /// The notification was read; `None` if there was none to read.
    Signal(Option<SignalInfo>),
}

/// What the embedding program is to do next.
#[derive(Clone, Copy, Debug, PartialEq, Eq, Structural)]
pub enum Action {
    /// Block in the readiness wait, without a timeout.
    Wait,
    /// Accept exactly one pending connection and hand it to a worker.
    Accept,
    /// Read the payload of the termination notification.
    ReadSignal,
    /// Stop watching, drain the live connections, and report this status.
    Drain(i32),
}

/// The state of the supervising loop.
#[derive(Clone, Copy, Debug, PartialEq, Eq, Structural)]
pub enum ServerState {
    /// The child runs; connections are accepted.
    Running,
    /// The child is gone and this status was captured. The state is final.
    ShuttingDown(i32),
}

impl ServerState {
    /// The state in which the loop starts, given a look at the child taken
    /// before the first wait.
    pub open spec fn spec_start(child: ChildStatus) -> ServerState {
        match child {
            ChildStatus::Exited(code) => ServerState::ShuttingDown(code),
            ChildStatus::Signaled => ServerState::ShuttingDown(SIGNALED_STATUS),
            ChildStatus::StillAlive => ServerState::Running,
        }
    }

    /// The action that belongs to a state when no event is at hand.
    pub open spec fn spec_pending_action(self) -> Action {
        match self {
            ServerState::Running => Action::Wait,
            ServerState::ShuttingDown(status) => Action::Drain(status),
        }
    }

    /// The status that was captured, once the child is gone.
    pub open spec fn spec_status(self) -> Option<i32> {
        match self {
            ServerState::Running => None,
            ServerState::ShuttingDown(status) => Some(status),
        }
    }

    /// The state and the action that follow `event`.
    pub open spec fn spec_step(self, codes: SignalCodes, event: Event) -> (ServerState, Action) {
        match self {
            ServerState::ShuttingDown(status) => (self, Action::Drain(status)),
            ServerState::Running => match event {
                Event::Idle => (ServerState::Running, Action::Wait),
                Event::Ready(Source::Listener) => (ServerState::Running, Action::Accept),
                Event::Ready(Source::Signal) => (ServerState::Running, Action::ReadSignal),
                Event::Accepted => (ServerState::Running, Action::Wait),
                Event::Signal(None) => (ServerState::Running, Action::Wait),
                Event::Signal(Some(info)) => match codes.spec_exit_status(info) {
                    Some(status) => (ServerState::ShuttingDown(status), Action::Drain(status)),
                    None => (ServerState::Running, Action::Wait),
                },
            },
        }
    }

    /// Starts the loop. A child that is already gone puts the loop into its
    /// final state at once, so that no wait is ever entered for it.
    pub fn start(child: ChildStatus) -> (r: (ServerState, Action))
        ensures
            r.0 == Self::spec_start(child),
            r.1 == r.0.spec_pending_action(),
    {
        match child {
            ChildStatus::Exited(code) => (ServerState::ShuttingDown(code), Action::Drain(code)),
            ChildStatus::Signaled => (
                ServerState::ShuttingDown(SIGNALED_STATUS),
                Action::Drain(SIGNALED_STATUS),
            ),
            ChildStatus::StillAlive => (ServerState::Running, Action::Wait),
        }
    }

    /// The status that was captured, once the child is gone.
    pub fn status(&self) -> (status: Option<i32>)
        ensures
            status == self.spec_status(),
    {
        match self {
            ServerState::Running => None,
            ServerState::ShuttingDown(status) => Some(*status),
        }
    }

    /// Answers one event with the next state and the next action.
    pub fn step(self, codes: &SignalCodes, event: Event) -> (r: (ServerState, Action))
        ensures
            r == self.spec_step(*codes, event),
    {
        match self {
            ServerState::ShuttingDown(status) => (self, Action::Drain(status)),
            ServerState::Running => match event {
                Event::Idle => (ServerState::Running, Action::Wait),
                Event::Ready(Source::Listener) => (ServerState::Running, Action::Accept),
                Event::Ready(Source::Signal) => (ServerState::Running, Action::ReadSignal),
                Event::Accepted => (ServerState::Running, Action::Wait),
                Event::Signal(None) => (ServerState::Running, Action::Wait),
                Event::Signal(Some(info)) => match codes.exit_status(&info) {
                    Some(status) => (ServerState::ShuttingDown(status), Action::Drain(status)),
                    None => (ServerState::Running, Action::Wait),
                },
            },
        }
    }
}

impl Event {
    /// The status that this event settles, if it settles one. Only a
    /// notification that was read can do so.
    pub open spec fn spec_settles(self, codes: SignalCodes) -> Option<i32> {
        match self {
            Event::Signal(Some(info)) => codes.spec_exit_status(info),
            _ => None,
        }
    }
}

/// None of `events` settles a status.
pub open spec fn nothing_settles(codes: SignalCodes, events: Seq<Event>) -> bool {
    forall|j: int| 0 <= j < events.len() ==> (#[trigger] events[j]).spec_settles(codes) is None
}

/// The state of a loop that started with `child` and has answered `events`,
/// one after the other.
pub open spec fn spec_run(codes: SignalCodes, child: ChildStatus, events: Seq<Event>) -> ServerState
    decreases events.len(),
{
    if events.len() == 0 {
        ServerState::spec_start(child)
    } else {
        spec_run(codes, child, events.drop_last()).spec_step(codes, events.last()).0
    }
}

/// Runs the supervising loop over a recorded sequence of events and returns
/// the status it reports: `None` while the child is still running when the
/// events end. The loop stops at the first event that settles a status.
pub fn run_server(codes: &SignalCodes, child: ChildStatus, events: &Vec<Event>) -> (status: Option<i32>)
    ensures
        status == spec_run(*codes, child, events@).spec_status(),
        child matches ChildStatus::Exited(code) ==> status == Some(code),
        child is Signaled ==> status == Some(SIGNALED_STATUS),
        child is StillAlive ==> (status is None <==> nothing_settles(*codes, events@)),
        child is StillAlive ==> forall|i: int|
            0 <= i < events@.len() && (#[trigger] events@[i]).spec_settles(*codes) is Some
                && nothing_settles(*codes, events@.take(i)) ==> status == events@[i].spec_settles(
                *codes,
            ),
{
    let (mut state, _) = ServerState::start(child);
    let mut i: usize = 0;
    while i < events.len() && state.status().is_none()
        invariant
            0 <= i <= events.len(),
            state == spec_run(*codes, child, events@.take(i as int)),
        decreases events.len() - i,
    {
        let (next, _) = state.step(codes, events[i]);
        proof {
            let upto = events@.take(i + 1);
            assert(upto.drop_last() =~= events@.take(i as int));
            assert(upto.last() == events@[i as int]);
        }
        state = next;
        i += 1;
    }
    proof {
        if i < events.len() {
            lemma_shutdown_is_final(*codes, child, events@, i as int);
        } else {
            assert(events@.take(i as int) =~= events@);
        }
        match child {
            ChildStatus::StillAlive => {
                if spec_run(*codes, child, events@) is Running {
                    lemma_running_means_nothing_settled(*codes, events@);
                }
                if nothing_settles(*codes, events@) {
                    lemma_runs_until_settled(*codes, events@);
                }
                assert forall|i: int|
                    0 <= i < events@.len()
                        && (#[trigger] events@[i]).spec_settles(*codes) is Some
                        && nothing_settles(*codes, events@.take(i))
                    implies state.spec_status() == events@[i].spec_settles(*codes) by {
                    let settled = events@[i].spec_settles(*codes).unwrap();
                    lemma_first_settled_is_reported(*codes, events@, i, settled);
                }
            },
            _ => {
                lemma_gone_at_start_is_reported(*codes, events@);
            },
        }
    }
    state.status()
}

/// A loop that is still running has met no event that settles a status.
pub proof fn lemma_running_means_nothing_settled(codes: SignalCodes, events: Seq<Event>)
    requires
        spec_run(codes, ChildStatus::StillAlive, events) is Running,
    ensures
        nothing_settles(codes, events),
    decreases events.len(),
{
    if events.len() > 0 {
        let before = events.drop_last();
        if spec_run(codes, ChildStatus::StillAlive, before) is ShuttingDown {
            assert(events.take(events.len() - 1) =~= before);
            lemma_shutdown_is_final(codes, ChildStatus::StillAlive, events, events.len() - 1);
        }
        lemma_running_means_nothing_settled(codes, before);
        assert forall|j: int| 0 <= j < events.len() implies (#[trigger] events[j]).spec_settles(
            codes,
        ) is None by {
            if j < events.len() - 1 {
                assert(events[j] == before[j]);
            }
        }
    }
}

/// Shutdown is final: once a status is captured, no later event changes the
/// state or the status.
pub proof fn lemma_shutdown_is_final(codes: SignalCodes, child: ChildStatus, events: Seq<Event>, i: int)
    requires
        0 <= i <= events.len(),
        spec_run(codes, child, events.take(i)) is ShuttingDown,
    ensures
        spec_run(codes, child, events) == spec_run(codes, child, events.take(i)),
    decreases events.len(),
{
    if i == events.len() {
        assert(events.take(i) =~= events);
    } else {
        assert(events.drop_last().take(i) =~= events.take(i));
        lemma_shutdown_is_final(codes, child, events.drop_last(), i);
    }
}

/// While no event settles a status, a loop that started with a running
/// child keeps running.
pub proof fn lemma_runs_until_settled(codes: SignalCodes, events: Seq<Event>)
    requires
        nothing_settles(codes, events),
    ensures
        spec_run(codes, ChildStatus::StillAlive, events) == ServerState::Running,
    decreases events.len(),
{
    if events.len() > 0 {
        lemma_runs_until_settled(codes, events.drop_last());
    }
}

/// The loop reports the status of the first event that settles one,
/// whatever comes after it.
pub proof fn lemma_first_settled_is_reported(codes: SignalCodes, events: Seq<Event>, i: int, status: i32)
    requires
        0 <= i < events.len(),
        events[i].spec_settles(codes) == Some(status),
        nothing_settles(codes, events.take(i)),
    ensures
        spec_run(codes, ChildStatus::StillAlive, events).spec_status() == Some(status),
{
    let before = events.take(i);
    let upto = events.take(i + 1);
    lemma_runs_until_settled(codes, before);
    assert(upto.drop_last() =~= before);
    assert(upto.last() == events[i]);
    lemma_shutdown_is_final(codes, ChildStatus::StillAlive, events, i + 1);
}

/// A child that was gone before the loop started has its status reported
/// whatever the events are: its exit code, or [`SIGNALED_STATUS`].
pub proof fn lemma_gone_at_start_is_reported(codes: SignalCodes, events: Seq<Event>)
    ensures
        forall|k: i32|
            (#[trigger] spec_run(codes, ChildStatus::Exited(k), events)).spec_status() == Some(k),
        spec_run(codes, ChildStatus::Signaled, events).spec_status() == Some(SIGNALED_STATUS),
{
    assert(events.take(0).len() == 0);
    assert forall|k: i32|
        (#[trigger] spec_run(codes, ChildStatus::Exited(k), events)).spec_status() == Some(k) by {
        lemma_shutdown_is_final(codes, ChildStatus::Exited(k), events, 0);
    }
    lemma_shutdown_is_final(codes, ChildStatus::Signaled, events, 0);
}

/// A child that exits with code `k` has `k` reported: the notification of
/// its exit is the first event that settles a status.
pub proof fn lemma_exit_code_is_reported(codes: SignalCodes, events: Seq<Event>, i: int, k: i32)
    requires
        0 <= i < events.len(),
        events[i] == Event::Signal(
            Some(SignalInfo { signo: codes.sigchld, code: codes.exited, status: k }),
        ),
        nothing_settles(codes, events.take(i)),
    ensures
        spec_run(codes, ChildStatus::StillAlive, events).spec_status() == Some(k),
{
    lemma_first_settled_is_reported(codes, events, i, k);
}

/// A child that a signal terminated has [`SIGNALED_STATUS`] reported,
/// whichever signal it was and whatever the notification holds as status.
pub proof fn lemma_signal_is_reported_as_sentinel(
    codes: SignalCodes,
    events: Seq<Event>,
    i: int,
    info: SignalInfo,
)
    requires
        codes.tells_apart(),
        0 <= i < events.len(),
        events[i] == Event::Signal(Some(info)),
        info.signo == codes.sigchld,
        info.code == codes.killed || info.code == codes.dumped,
        nothing_settles(codes, events.take(i)),
    ensures
        spec_run(codes, ChildStatus::StillAlive, events).spec_status() == Some(SIGNALED_STATUS),
{
    lemma_first_settled_is_reported(codes, events, i, SIGNALED_STATUS);
}

/// After shutdown nothing is accepted: every event is answered with the
/// order to drain, and the captured status stays.
pub proof fn lemma_no_accept_after_shutdown(codes: SignalCodes, status: i32, event: Event)
    ensures
        ServerState::ShuttingDown(status).spec_step(codes, event) == (
            ServerState::ShuttingDown(status),
            Action::Drain(status),
        ),
{
}

} // verus!
