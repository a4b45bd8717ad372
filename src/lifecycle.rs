//! The decisions of the server's lifecycle. The controller that owns the
//! background worker asks `stop` what to do and does it; the worker drives
//! its phase through `advance` as events come.
use vstd::prelude::*;

verus! {

/// What the controller still holds: the one-shot cancellation signal, not
/// yet sent, and the worker, not yet joined.
#[derive(Debug, Clone, Copy, PartialEq, Eq, Structural)]
pub struct Lifecycle {
    pub signal_pending: bool,
    pub worker_running: bool,
}

/// What a stop request asks of the controller, in this order.
#[derive(Debug, Clone, Copy, PartialEq, Eq, Structural)]
pub struct StopPlan {
    pub send_signal: bool,
    pub join_worker: bool,
}

pub open spec fn stop_plan(s: Lifecycle) -> StopPlan {
    StopPlan { send_signal: s.signal_pending, join_worker: s.worker_running }
}

pub open spec fn stopped() -> Lifecycle {
    Lifecycle { signal_pending: false, worker_running: false }
}

impl Lifecycle {
    /// A server that has just been started.
    pub fn started() -> (r: Lifecycle)
        ensures
            r.signal_pending,
            r.worker_running,
    {
        Lifecycle { signal_pending: true, worker_running: true }
    }

    /// Takes what the controller still holds: the signal is sent at most
    /// once over all calls, and the worker joined at most once.
    pub fn stop(&mut self) -> (plan: StopPlan)
        ensures
            plan == stop_plan(*old(self)),
            *final(self) == stopped(),
    {
        let plan = StopPlan { send_signal: self.signal_pending, join_worker: self.worker_running };
        self.signal_pending = false;
        self.worker_running = false;
        plan
    }

    pub fn is_stopped(&self) -> (r: bool)
        ensures
            r == (*self == stopped()),
    {
        !self.signal_pending && !self.worker_running
    }
}

/// A second stop does nothing: it neither sends the signal again nor joins
/// the worker again, so over two stops the signal goes out at most once.
pub proof fn lemma_second_stop_is_noop(s: Lifecycle)
    ensures
        stop_plan(stopped()) == (StopPlan { send_signal: false, join_worker: false }),
        (if stop_plan(s).send_signal { 1int } else { 0 }) + (if stop_plan(stopped()).send_signal {
            1int
        } else {
            0
        }) <= 1,
{
}

/// The phases of the background server.
#[derive(Debug, Clone, Copy, PartialEq, Eq, Structural)]
pub enum Phase {
    Starting,
    Serving,
    Draining,
    Stopped,
}

/// What the background server observes.
#[derive(Debug, Clone, Copy, PartialEq, Eq, Structural)]
pub enum Event {
    /// The listening socket is bound.
    Bound,
    /// Binding the socket failed.
    BindFailed,
    /// A request arrived before the shutdown signal.
    Request,
    /// The shutdown signal arrived.
    Shutdown,
    /// The socket is closed and the execution context has wound down.
    Closed,
}

pub open spec fn next_phase(p: Phase, e: Event) -> Phase {
    match (p, e) {
        (Phase::Starting, Event::Bound) => Phase::Serving,
        (Phase::Starting, Event::BindFailed) => Phase::Stopped,
        (Phase::Starting, Event::Shutdown) => Phase::Draining,
        (Phase::Serving, Event::Shutdown) => Phase::Draining,
        (Phase::Serving, Event::Closed) => Phase::Stopped,
        (Phase::Draining, Event::Closed) => Phase::Stopped,
        (Phase::Starting, Event::Closed) => Phase::Stopped,
        _ => p,
    }
}

impl Phase {
    /// The phase after `e`.
    pub fn advance(self, e: Event) -> (r: Phase)
        ensures
            r == next_phase(self, e),
    {
        match (self, e) {
            (Phase::Starting, Event::Bound) => Phase::Serving,
            (Phase::Starting, Event::BindFailed) => Phase::Stopped,
            (Phase::Starting, Event::Shutdown) => Phase::Draining,
            (Phase::Serving, Event::Shutdown) => Phase::Draining,
            (Phase::Serving, Event::Closed) => Phase::Stopped,
            (Phase::Draining, Event::Closed) => Phase::Stopped,
            (Phase::Starting, Event::Closed) => Phase::Stopped,
            _ => self,
        }
    }

    /// Whether a request that arrives now is handled.
    pub fn accepts_requests(self) -> (r: bool)
        ensures
            r == (self == Phase::Serving),
    {
        self == Phase::Serving
    }
}

/// Once the shutdown signal is observed no request is accepted again, and a
/// stopped server stays stopped.
pub proof fn lemma_no_requests_after_shutdown(p: Phase, e: Event)
    ensures
        next_phase(p, Event::Shutdown) != Phase::Serving,
        p == Phase::Draining ==> next_phase(p, e) == Phase::Draining || next_phase(p, e) == Phase::Stopped,
        p == Phase::Stopped ==> next_phase(p, e) == Phase::Stopped,
{
}

} // verus!
