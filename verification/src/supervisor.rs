//! The session supervisor: the three-state lifecycle machine that keeps the
//! relay alive forever, the fatal/per-event error split, and the pacer that
//! delivers a plan strictly in order with a fixed delay between sends.
use vstd::prelude::*;
use vstd::string::StringExecFns;

verus! {

/// Time units the supervisor waits after a failure before reconnecting.
pub const BACKOFF_UNITS: u64 = 30;

/// Nanoseconds the pacer waits between consecutive sends.
pub const PACE_DELAY_NANOS: u32 = 750;

/// Where the supervisor stands in one session's lifecycle.
#[derive(Clone, Copy, PartialEq, Eq, Structural, Debug)]
pub enum SupervisorState {
    /// No connection held; waiting to (re)connect.
    Idle,
    /// Establishing the transport connection and handshake.
    Connecting,
    /// Consuming the inbound event stream.
    Streaming,
}

/// What the outside world reports to the supervisor.
#[derive(Clone, Copy, PartialEq, Eq, Structural, Debug)]
pub enum SessionEvent {
    /// The backoff delay has elapsed (or the first run starts).
    BackoffElapsed,
    /// Connection and handshake succeeded.
    ConnectSucceeded,
    /// Connection or handshake failed.
    ConnectFailed,
    /// The inbound stream terminated (disconnect).
    StreamEnded,
    /// A fatal transport/protocol/service-construction error mid-stream.
    FatalError,
}

/// What the supervisor asks its runner to do next.
#[derive(Clone, Copy, PartialEq, Eq, Structural, Debug)]
pub enum SupervisorAction {
    /// Establish the transport connection and identify.
    Connect,
    /// Consume the inbound event stream.
    Stream,
    /// Wait `BACKOFF_UNITS` time units, then report `BackoffElapsed`.
    Backoff,
    /// Nothing: the event does not apply to the state.
    Hold,
}

/// The supervisor's transition relation. Any failure — connecting or
/// streaming — leads back to `Idle` with a backoff; there is no retry limit,
/// so the machine cycles `Idle -> Connecting -> Streaming -> Idle` forever.
/// The conversation store lives outside the machine and is untouched by
/// every transition.
pub open spec fn step_model(s: SupervisorState, e: SessionEvent) -> (
    SupervisorState,
    SupervisorAction,
) {
    match (s, e) {
        (SupervisorState::Idle, SessionEvent::BackoffElapsed) => (
            SupervisorState::Connecting,
            SupervisorAction::Connect,
        ),
        (SupervisorState::Connecting, SessionEvent::ConnectSucceeded) => (
            SupervisorState::Streaming,
            SupervisorAction::Stream,
        ),
        (SupervisorState::Connecting, SessionEvent::ConnectFailed) => (
            SupervisorState::Idle,
            SupervisorAction::Backoff,
        ),
        (SupervisorState::Streaming, SessionEvent::StreamEnded) => (
            SupervisorState::Idle,
            SupervisorAction::Backoff,
        ),
        (SupervisorState::Streaming, SessionEvent::FatalError) => (
            SupervisorState::Idle,
            SupervisorAction::Backoff,
        ),
        _ => (s, SupervisorAction::Hold),
    }
}

/// Advances the supervisor by one observed event.
pub fn supervisor_step(s: SupervisorState, e: SessionEvent) -> (r: (
    SupervisorState,
    SupervisorAction,
))
    ensures
        r == step_model(s, e),
{
    match (s, e) {
        (SupervisorState::Idle, SessionEvent::BackoffElapsed) => (
            SupervisorState::Connecting,
            SupervisorAction::Connect,
        ),
        (SupervisorState::Connecting, SessionEvent::ConnectSucceeded) => (
            SupervisorState::Streaming,
            SupervisorAction::Stream,
        ),
        (SupervisorState::Connecting, SessionEvent::ConnectFailed) => (
            SupervisorState::Idle,
            SupervisorAction::Backoff,
        ),
        (SupervisorState::Streaming, SessionEvent::StreamEnded) => (
            SupervisorState::Idle,
            SupervisorAction::Backoff,
        ),
        (SupervisorState::Streaming, SessionEvent::FatalError) => (
            SupervisorState::Idle,
            SupervisorAction::Backoff,
        ),
        (_, _) => (s, SupervisorAction::Hold),
    }
}

/// However the machine is driven from `Streaming`, a stream end or a fatal
/// error puts it in `Idle` demanding a backoff, and once the backoff has
/// elapsed it re-enters `Connecting`: the relay never stops retrying.
pub proof fn lemma_stream_failure_recovers(e: SessionEvent)
    requires
        e == SessionEvent::StreamEnded || e == SessionEvent::FatalError,
    ensures
        step_model(SupervisorState::Streaming, e) == (
            SupervisorState::Idle,
            SupervisorAction::Backoff,
        ),
        step_model(SupervisorState::Idle, SessionEvent::BackoffElapsed) == (
            SupervisorState::Connecting,
            SupervisorAction::Connect,
        ),
{
}

/// An error of the relay, split by blast radius.
#[derive(Debug)]
pub enum RelayError {
    /// A transport failure (connect, handshake, stream, send): fatal to the
    /// whole session; the supervisor backs off and reconnects.
    Transport(String),
    /// A completion-service failure (request construction, remote call):
    /// fatal only to the triggering event; the stream goes on.
    Completion(String),
}

/// Whether an error tears the session down.
pub open spec fn fatal_model(e: RelayError) -> bool {
    e is Transport
}

impl RelayError {
    /// True exactly for the errors that end the session.
    pub fn is_fatal(&self) -> (r: bool)
        ensures
            r == fatal_model(*self),
    {
        match self {
            RelayError::Transport(_) => true,
            RelayError::Completion(_) => false,
        }
    }

    /// The operator-facing description of the error.
    pub fn describe(&self) -> (r: String)
        ensures
            match self {
                RelayError::Transport(d) => r@ == "IRC error: "@ + d@,
                RelayError::Completion(d) => r@ == "OpenAI error: "@ + d@,
            },
    {
        match self {
            RelayError::Transport(d) => {
                let mut s = "IRC error: ".to_owned();
                s.append(d.as_str());
                s
            },
            RelayError::Completion(d) => {
                let mut s = "OpenAI error: ".to_owned();
                s.append(d.as_str());
                s
            },
        }
    }
}

/// Sequential delivery of one plan: chunks go out one at a time, in plan
/// order, each exactly once, with the fixed delay after each send. A send
/// failure aborts the remainder; the caller propagates it as fatal.
pub struct Pacer {
    delivered: usize,
}

impl Pacer {
    /// How many chunks of the plan have been sent.
    pub closed spec fn count(self) -> int {
        self.delivered as int
    }

    /// A pacer that has sent nothing.
    pub fn new() -> (r: Pacer)
        ensures
            r.count() == 0,
    {
        Pacer { delivered: 0 }
    }

    /// The chunk to send next: always the earliest unsent chunk of the plan,
    /// or nothing once the plan is exhausted.
    pub fn next_to_send<'a>(&self, plan: &'a Vec<(String, String)>) -> (r: Option<
        &'a (String, String),
    >)
        ensures
            match r {
                Some(c) => self.count() < plan@.len() && *c == plan@[self.count()],
                None => self.count() >= plan@.len(),
            },
    {
        if self.delivered < plan.len() {
            Some(&plan[self.delivered])
        } else {
            None
        }
    }

    /// Records that the chunk handed out by `next_to_send` went out.
    pub fn mark_sent(&mut self, plan: &Vec<(String, String)>)
        requires
            old(self).count() < plan@.len(),
        ensures
            final(self).count() == old(self).count() + 1,
    {
        let n = plan.len();
        proof {
            assert(self.delivered < n);
        }
        self.delivered = self.delivered + 1;
    }
}

} // verus!
