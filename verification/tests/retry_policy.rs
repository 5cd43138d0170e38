use orthoterm::retry::{FetchAction, FetchEvent, RetryPolicy};

#[test]
fn three_timeouts_then_success_applies_three_delays() {
    let mut policy = RetryPolicy::new(None);
    let mut delays = Vec::new();
    for _ in 0..3 {
        match policy.on_event(FetchEvent::TransientError) {
            FetchAction::RetryAfter(secs) => delays.push(secs),
            other => panic!("expected a retry, got {:?}", other),
        }
    }
    assert_eq!(delays, vec![5, 10, 20]);
    assert_eq!(policy.on_event(FetchEvent::Success), FetchAction::Deliver);
}

#[test]
fn bounded_policy_gives_up_at_budget() {
    let mut policy = RetryPolicy::new(Some(3));
    assert_eq!(
        policy.on_event(FetchEvent::TransientError),
        FetchAction::RetryAfter(5)
    );
    assert_eq!(
        policy.on_event(FetchEvent::TransientError),
        FetchAction::RetryAfter(10)
    );
    assert_eq!(policy.on_event(FetchEvent::TransientError), FetchAction::GiveUp);
}

#[test]
fn permanent_errors_are_not_retried() {
    let mut policy = RetryPolicy::new(None);
    assert_eq!(policy.on_event(FetchEvent::PermanentError), FetchAction::GiveUp);
    assert_eq!(policy.attempts, 0);
}

#[test]
fn backoff_exponent_is_capped() {
    let mut policy = RetryPolicy::new(None);
    let mut last = 0u64;
    for _ in 0..20 {
        match policy.on_event(FetchEvent::TransientError) {
            FetchAction::RetryAfter(secs) => last = secs,
            other => panic!("expected a retry, got {:?}", other),
        }
    }
    assert_eq!(last, 5 * 1024);
}
