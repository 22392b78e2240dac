//! The client's tunnel supervisor: which path to try, what to tell the
//! scorer, and when to come back after a failure or a lost tunnel.
//!
//! The supervisor connects to nothing and waits for nothing. It is told
//! what happened and answers with what to do; the caller does it and
//! reports back.

use crate::router::{
    best, distinct_names, failed, lemma_applied, lemma_best_is_lowest, lemma_position,
    position, stats_of, succeeded, PathRecord, Router, ScorerEvent, HANDSHAKE_LATENCY_US,
    LOSS_ONE,
};
use crate::transport::TransportKind;
use vstd::prelude::*;

verus! {

/// Milliseconds to wait before the next attempt, after a failed one and
/// after a tunnel has been lost.
pub const RECONNECT_BACKOFF_MS: u64 = 1000;

/// Why a tunnel's data loop ended.
#[derive(Debug, Clone, Copy, PartialEq, Eq, Structural)]
pub enum DisconnectReason {
    /// The session ended between records.
    Eof,
    /// Receiving from the session failed.
    ReadError,
    /// Sending on the session failed.
    WriteError,
    /// The peer sent what is no frame.
    Malformed,
}

impl DisconnectReason {
    /// The reason in words, for the log.
    pub fn describe(self) -> (text: &'static str)
        ensures
            text@ == match self {
                DisconnectReason::Eof => "Tunnel Closed (EOF)"@,
                DisconnectReason::ReadError => "Tunnel Error (Read)"@,
                DisconnectReason::WriteError => "Tunnel Error (Write)"@,
                DisconnectReason::Malformed => "Tunnel Error (Malformed frame)"@,
            },
    {
        match self {
            DisconnectReason::Eof => "Tunnel Closed (EOF)",
            DisconnectReason::ReadError => "Tunnel Error (Read)",
            DisconnectReason::WriteError => "Tunnel Error (Write)",
            DisconnectReason::Malformed => "Tunnel Error (Malformed frame)",
        }
    }
}

/// What the supervisor is doing.
#[derive(Debug, Clone, Copy, PartialEq, Eq, Structural)]
pub enum Phase {
    /// Nothing yet.
    Idle,
    /// A connect attempt is under way.
    Connecting,
    /// The handshake is under way.
    Handshaking,
    /// The tunnel is up.
    Running,
    /// Waiting before the next attempt.
    Backoff,
    /// Shut down.
    Stopped,
}

/// What the caller reports.
#[derive(Debug, Clone, Copy, PartialEq, Eq, Structural)]
pub enum SupervisorEvent {
    /// The supervisor is to start.
    Start,
    /// The connect attempt failed.
    ConnectFailed,
    /// The connect attempt succeeded.
    Connected,
    /// The handshake failed.
    HandshakeFailed,
    /// The handshake succeeded.
    HandshakeDone,
    /// The tunnel's data loop ended.
    Disconnected(DisconnectReason),
    /// The wait before the next attempt is over.
    BackoffElapsed,
    /// The user asks for shutdown.
    Shutdown,
}

/// What the caller is to do.
#[derive(Debug, Clone, PartialEq, Eq)]
pub enum SupervisorAction {
    /// Connect over `transport`, the transport of the path named `path`.
    /// It is attempt number `attempt` since the last tunnel.
    Connect { transport: TransportKind, path: String, attempt: u64 },
    /// Run the handshake as client, behind the HTTP mimic.
    Handshake,
    /// Run the tunnel's data loop.
    Run,
    /// Wait this many milliseconds, then report `BackoffElapsed`.
    Sleep(u64),
    /// Switch the system proxy off and leave.
    Exit,
    /// Nothing: the event does not fit what the supervisor is doing.
    Nothing,
}

/// An action as a mathematical value.
pub enum ActionView {
    Connect { transport: TransportKind, path: Seq<char>, attempt: u64 },
    Handshake,
    Run,
    Sleep(u64),
    Exit,
    Nothing,
}

impl View for SupervisorAction {
    type V = ActionView;

    open spec fn view(&self) -> ActionView {
        match self {
            SupervisorAction::Connect { transport, path, attempt } => ActionView::Connect {
                transport: *transport,
                path: path@,
                attempt: *attempt,
            },
            SupervisorAction::Handshake => ActionView::Handshake,
            SupervisorAction::Run => ActionView::Run,
            SupervisorAction::Sleep(ms) => ActionView::Sleep(*ms),
            SupervisorAction::Exit => ActionView::Exit,
            SupervisorAction::Nothing => ActionView::Nothing,
        }
    }
}

/// A supervisor as a mathematical value.
pub struct SupervisorView {
    /// The scorer's registry.
    pub paths: Seq<PathRecord>,
    /// What the supervisor is doing.
    pub phase: Phase,
    /// The path of the attempt or tunnel at hand.
    pub current: Seq<char>,
    /// Attempts since the last tunnel.
    pub attempts: u64,
}

/// The path to try: the scorer's best, or `TCP` if none is registered.
pub open spec fn chosen(paths: Seq<PathRecord>) -> Seq<char> {
    match best(paths) {
        Some(b) => paths[b].name,
        None => "TCP"@,
    }
}

/// One more attempt, counted without overflow.
pub open spec fn counted(attempts: u64) -> u64 {
    if attempts == u64::MAX {
        attempts
    } else {
        (attempts + 1) as u64
    }
}

/// The supervisor's rules: where `event`, reported at time `now_ms`,
/// leads from `v`, and what is to be done.
///
/// An attempt goes to the scorer's best path. A failed connect and a
/// failed handshake count as a failure of that path, and a completed
/// handshake as a success of 50 ms; after either failure and after a lost
/// tunnel the next attempt waits a second. Shutdown ends everything.
pub open spec fn step(v: SupervisorView, event: SupervisorEvent, now_ms: u64) -> (
    SupervisorView,
    ActionView,
) {
    let attempt = (
        SupervisorView {
            phase: Phase::Connecting,
            current: chosen(v.paths),
            attempts: counted(v.attempts),
            ..v
        },
        ActionView::Connect {
            transport: TransportKind::spec_from_name(chosen(v.paths)),
            path: chosen(v.paths),
            attempt: counted(v.attempts),
        },
    );
    let penalty = (
        SupervisorView { paths: failed(v.paths, v.current, now_ms), phase: Phase::Backoff, ..v },
        ActionView::Sleep(RECONNECT_BACKOFF_MS),
    );
    match (v.phase, event) {
        (Phase::Stopped, _) => (v, ActionView::Nothing),
        (_, SupervisorEvent::Shutdown) => (
            SupervisorView { phase: Phase::Stopped, ..v },
            ActionView::Exit,
        ),
        (Phase::Idle, SupervisorEvent::Start) => attempt,
        (Phase::Backoff, SupervisorEvent::BackoffElapsed) => attempt,
        (Phase::Connecting, SupervisorEvent::ConnectFailed) => penalty,
        (Phase::Connecting, SupervisorEvent::Connected) => (
            SupervisorView { phase: Phase::Handshaking, ..v },
            ActionView::Handshake,
        ),
        (Phase::Handshaking, SupervisorEvent::HandshakeFailed) => penalty,
        (Phase::Handshaking, SupervisorEvent::HandshakeDone) => (
            SupervisorView {
                paths: succeeded(v.paths, v.current, HANDSHAKE_LATENCY_US, now_ms),
                phase: Phase::Running,
                attempts: 0,
                ..v
            },
            ActionView::Run,
        ),
        (Phase::Running, SupervisorEvent::Disconnected(_)) => (
            SupervisorView { phase: Phase::Backoff, ..v },
            ActionView::Sleep(RECONNECT_BACKOFF_MS),
        ),
        _ => (v, ActionView::Nothing),
    }
}

/// The client's tunnel supervisor.
pub struct Supervisor {
    router: Router,
    phase: Phase,
    current: String,
    attempts: u64,
}

impl View for Supervisor {
    type V = SupervisorView;

    closed spec fn view(&self) -> SupervisorView {
        SupervisorView {
            paths: self.router@,
            phase: self.phase,
            current: self.current@,
            attempts: self.attempts,
        }
    }
}

impl Supervisor {
    /// What holds of every supervisor that `new` made, whatever was done
    /// with it since: its registry is well-formed.
    pub closed spec fn wf(&self) -> bool {
        self.router.wf()
    }

    /// A supervisor that has not started, with the scorer's registry as
    /// given.
    pub fn new(router: Router) -> (s: Supervisor)
        requires
            router.wf(),
        ensures
            s.wf(),
            s@ == (SupervisorView {
                paths: router@,
                phase: Phase::Idle,
                current: Seq::<char>::empty(),
                attempts: 0,
            }),
    {
        Supervisor { router, phase: Phase::Idle, current: String::new(), attempts: 0 }
    }

    /// What the supervisor is doing.
    pub fn phase(&self) -> (p: Phase)
        ensures
            p == self@.phase,
    {
        self.phase
    }

    /// The scorer's registry.
    pub fn router(&self) -> (r: &Router)
        requires
            self.wf(),
        ensures
            r@ == self@.paths,
            r.wf(),
    {
        &self.router
    }

    /// Picks the path of the next attempt.
    fn attempt(&mut self) -> (action: SupervisorAction)
        requires
            old(self).wf(),
        ensures
            final(self).wf(),
            final(self)@ == (SupervisorView {
                phase: Phase::Connecting,
                current: chosen(old(self)@.paths),
                attempts: counted(old(self)@.attempts),
                ..old(self)@
            }),
            action@ == (ActionView::Connect {
                transport: TransportKind::spec_from_name(chosen(old(self)@.paths)),
                path: chosen(old(self)@.paths),
                attempt: counted(old(self)@.attempts),
            }),
    {
        let path: String = match self.router.get_best_path() {
            Some(name) => name,
            None => "TCP".to_owned(),
        };
        let transport = TransportKind::from_name(path.as_str());
        if self.attempts < u64::MAX {
            self.attempts = self.attempts + 1;
        }
        self.current = path.clone();
        self.phase = Phase::Connecting;
        SupervisorAction::Connect { transport, path, attempt: self.attempts }
    }

    /// Counts a failure against the path at hand and asks for the wait.
    fn penalize(&mut self, now_ms: u64) -> (action: SupervisorAction)
        requires
            old(self).wf(),
        ensures
            final(self).wf(),
            final(self)@ == (SupervisorView {
                paths: failed(old(self)@.paths, old(self)@.current, now_ms),
                phase: Phase::Backoff,
                ..old(self)@
            }),
            action@ == ActionView::Sleep(RECONNECT_BACKOFF_MS),
    {
        self.router.report_failure(self.current.as_str(), now_ms);
        self.phase = Phase::Backoff;
        SupervisorAction::Sleep(RECONNECT_BACKOFF_MS)
    }

    /// Takes note of `event`, which happened at `now_ms`, and says what is
    /// to be done.
    pub fn on_event(&mut self, event: SupervisorEvent, now_ms: u64) -> (action: SupervisorAction)
        requires
            old(self).wf(),
        ensures
            final(self).wf(),
            final(self)@ == step(old(self)@, event, now_ms).0,
            action@ == step(old(self)@, event, now_ms).1,
    {
        match (self.phase, event) {
            (Phase::Stopped, _) => SupervisorAction::Nothing,
            (_, SupervisorEvent::Shutdown) => {
                self.phase = Phase::Stopped;
                SupervisorAction::Exit
            },
            (Phase::Idle, SupervisorEvent::Start) => self.attempt(),
            (Phase::Backoff, SupervisorEvent::BackoffElapsed) => self.attempt(),
            (Phase::Connecting, SupervisorEvent::ConnectFailed) => self.penalize(now_ms),
            (Phase::Connecting, SupervisorEvent::Connected) => {
                self.phase = Phase::Handshaking;
                SupervisorAction::Handshake
            },
            (Phase::Handshaking, SupervisorEvent::HandshakeFailed) => self.penalize(now_ms),
            (Phase::Handshaking, SupervisorEvent::HandshakeDone) => {
                self.router.update_latency(self.current.as_str(), HANDSHAKE_LATENCY_US, now_ms);
                self.phase = Phase::Running;
                self.attempts = 0;
                SupervisorAction::Run
            },
            (Phase::Running, SupervisorEvent::Disconnected(_)) => {
                self.phase = Phase::Backoff;
                SupervisorAction::Sleep(RECONNECT_BACKOFF_MS)
            },
            _ => SupervisorAction::Nothing,
        }
    }
}

/// A path that has just failed is not tried again while another does
/// better: if the attempt on the path at hand fails, and some registered
/// path scores under 1000, the next attempt goes to another path than the
/// one that failed.
pub proof fn lemma_fallback(v: SupervisorView, other: Seq<char>, failed_at: u64, retry_at: u64)
    requires
        distinct_names(v.paths),
        v.phase == Phase::Connecting || v.phase == Phase::Handshaking,
        position(v.paths, v.current) is Some,
        other != v.current,
        stats_of(v.paths, other) matches Some(stats) && stats.spec_score() < 1000,
    ensures
        ({
            let event = if v.phase == Phase::Connecting {
                SupervisorEvent::ConnectFailed
            } else {
                SupervisorEvent::HandshakeFailed
            };
            let waiting = step(v, event, failed_at);
            let retrying = step(waiting.0, SupervisorEvent::BackoffElapsed, retry_at);
            &&& waiting.1 == ActionView::Sleep(RECONNECT_BACKOFF_MS)
            &&& stats_of(waiting.0.paths, v.current) matches Some(stats) && stats.loss_ppm
                == LOSS_ONE && stats.spec_score() >= 1000
            &&& retrying.1 matches ActionView::Connect { path, .. } && path != v.current
        }),
{
    let after = failed(v.paths, v.current, failed_at);
    let event = ScorerEvent::Failure { name: v.current, now_ms: failed_at };
    assert(after == crate::router::applied(v.paths, event));
    lemma_applied(v.paths, event, v.current);
    lemma_applied(v.paths, event, other);
    lemma_best_is_lowest(after);
    lemma_position(after, v.current);
    lemma_position(after, other);
    let b = best(after)->Some_0;
    let at_current = position(after, v.current)->Some_0;
    let at_other = position(after, other)->Some_0;
    assert(after[b].stats.spec_score() <= after[at_other].stats.spec_score());
    assert(after[at_current].stats.spec_score() >= 1000);
    assert(b != at_current);
    if b < at_current {
        assert(after[b].name != after[at_current].name);
    } else {
        assert(after[at_current].name != after[b].name);
    }
}

} // verus!
