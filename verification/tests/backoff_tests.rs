use aprocess::backoff::{BackoffConfig, ReconnectAction, ReconnectState};

fn cfg(base: u64, max_attempts: u32, cap: Option<u64>) -> BackoffConfig {
    BackoffConfig { base_delay_ms: base, max_attempts, max_delay_ms: cap }
}

#[test]
fn delays_double_per_consecutive_failure() {
    let c = cfg(100, 5, None);
    let mut s = ReconnectState::initial();
    let mut seen: Vec<u64> = Vec::new();
    for _ in 0..4 {
        match s.on_failure(&c) {
            ReconnectAction::Sleep(d) => seen.push(d),
            other => panic!("expected a sleep, got {:?}", other),
        }
        assert_eq!(s.on_retry_timer(), ReconnectAction::StartConnect);
    }
    assert_eq!(seen, vec![100, 200, 400, 800]);
}

#[test]
fn delay_is_capped_when_configured() {
    let c = cfg(100, 5, Some(250));
    let mut s = ReconnectState::initial();
    let mut seen: Vec<u64> = Vec::new();
    for _ in 0..4 {
        match s.on_failure(&c) {
            ReconnectAction::Sleep(d) => seen.push(d),
            other => panic!("expected a sleep, got {:?}", other),
        }
        assert_eq!(s.on_retry_timer(), ReconnectAction::StartConnect);
    }
    assert_eq!(seen, vec![100, 200, 250, 250]);
}

#[test]
fn terminal_failure_after_max_attempts_reported_once() {
    let c = cfg(10, 3, None);
    let mut s = ReconnectState::initial();
    assert!(matches!(s.on_failure(&c), ReconnectAction::Sleep(10)));
    assert_eq!(s.on_retry_timer(), ReconnectAction::StartConnect);
    assert!(matches!(s.on_failure(&c), ReconnectAction::Sleep(20)));
    assert_eq!(s.on_retry_timer(), ReconnectAction::StartConnect);
    // third consecutive failure spends the budget
    assert_eq!(s.on_failure(&c), ReconnectAction::ReportFailure);
    assert_eq!(s, ReconnectState::Failed);
    // terminal state absorbs every further event silently
    assert_eq!(s.on_failure(&c), ReconnectAction::Ignore);
    assert_eq!(s.on_retry_timer(), ReconnectAction::Ignore);
    assert_eq!(s.on_connected(), ReconnectAction::Ignore);
    assert_eq!(s, ReconnectState::Failed);
}

#[test]
fn single_attempt_budget_fails_immediately() {
    let c = cfg(10, 1, None);
    let mut s = ReconnectState::initial();
    assert_eq!(s.on_failure(&c), ReconnectAction::ReportFailure);
    assert_eq!(s, ReconnectState::Failed);
}

#[test]
fn success_resets_the_backoff() {
    let c = cfg(100, 4, None);
    let mut s = ReconnectState::initial();
    assert!(matches!(s.on_failure(&c), ReconnectAction::Sleep(100)));
    assert_eq!(s.on_retry_timer(), ReconnectAction::StartConnect);
    assert!(matches!(s.on_failure(&c), ReconnectAction::Sleep(200)));
    assert_eq!(s.on_retry_timer(), ReconnectAction::StartConnect);
    assert_eq!(s.on_connected(), ReconnectAction::RunPumps);
    assert_eq!(s, ReconnectState::Connected);
    // the next drop starts the ladder over at the base delay
    assert!(matches!(s.on_failure(&c), ReconnectAction::Sleep(100)));
}

#[test]
fn events_out_of_place_are_ignored() {
    let c = cfg(100, 4, None);
    let mut s = ReconnectState::initial();
    // connecting: a retry timer means nothing
    assert_eq!(s.on_retry_timer(), ReconnectAction::Ignore);
    assert_eq!(s.on_connected(), ReconnectAction::RunPumps);
    // connected: so does a second success
    assert_eq!(s.on_connected(), ReconnectAction::Ignore);
    assert_eq!(s, ReconnectState::Connected);
}
