use meta_fastdl::lifecycle::{Event, Lifecycle, Phase, StopPlan};

#[test]
fn stop_sends_signal_then_joins_once() {
    let mut s = Lifecycle::started();
    assert!(!s.is_stopped());
    let plan = s.stop();
    assert_eq!(plan, StopPlan { send_signal: true, join_worker: true });
    assert!(s.is_stopped());
}

#[test]
fn second_stop_is_noop() {
    let mut s = Lifecycle::started();
    s.stop();
    let plan = s.stop();
    assert_eq!(plan, StopPlan { send_signal: false, join_worker: false });
    assert!(s.is_stopped());
}

#[test]
fn phases_follow_events() {
    let p = Phase::Starting;
    assert!(!p.accepts_requests());
    let p = p.advance(Event::Bound);
    assert_eq!(p, Phase::Serving);
    assert!(p.accepts_requests());
    let p = p.advance(Event::Request);
    assert_eq!(p, Phase::Serving);
    let p = p.advance(Event::Shutdown);
    assert_eq!(p, Phase::Draining);
    assert!(!p.accepts_requests());
    let p = p.advance(Event::Request);
    assert_eq!(p, Phase::Draining);
    let p = p.advance(Event::Closed);
    assert_eq!(p, Phase::Stopped);
    assert_eq!(p.advance(Event::Bound), Phase::Stopped);
}

#[test]
fn bind_failure_stops() {
    assert_eq!(Phase::Starting.advance(Event::BindFailed), Phase::Stopped);
    assert_eq!(Phase::Starting.advance(Event::Shutdown), Phase::Draining);
}
