use potato_core::turn::{
    add_usage, anchors, iteration_limit, outcome, retry_smaller, turn_step, Outcome, TurnAction, TurnEvent, TurnState,
    Usage, UsageTotals,
};

#[test]
fn iteration_limit_is_clamped() {
    assert_eq!(iteration_limit(None), 100);
    assert_eq!(iteration_limit(Some(0)), 1);
    assert_eq!(iteration_limit(Some(5000)), 1000);
    assert_eq!(iteration_limit(Some(7)), 7);
}

#[test]
fn only_an_empty_overflow_is_retried() {
    assert!(retry_smaller(Some(413), true, true, true));
    assert!(!retry_smaller(Some(413), false, true, true));
    assert!(!retry_smaller(Some(413), true, true, false));
    assert!(!retry_smaller(Some(502), true, true, true));
    assert!(!retry_smaller(None, true, true, true));
}

#[test]
fn outcome_prefers_cancellation() {
    assert_eq!(outcome(true, true), Outcome::Cancelled);
    assert_eq!(outcome(false, true), Outcome::Failed);
    assert_eq!(outcome(false, false).name(), "completed");
    assert_eq!(Outcome::Failed.name(), "failed");
}

#[test]
fn usage_totals_accumulate() {
    let empty = UsageTotals {
        input_tokens: None,
        output_tokens: None,
        cached_input_tokens: None,
        reported_requests: None,
        cache_observed_input_tokens: None,
        cache_observed_requests: None,
    };
    let one = add_usage(empty, Usage { input_tokens: Some(100), output_tokens: Some(20), cached_input_tokens: Some(40) });
    assert_eq!(
        one,
        UsageTotals {
            input_tokens: Some(100),
            output_tokens: Some(20),
            cached_input_tokens: Some(40),
            reported_requests: Some(1),
            cache_observed_input_tokens: Some(100),
            cache_observed_requests: Some(1),
        }
    );
    let two = add_usage(one, Usage { input_tokens: Some(u64::MAX), output_tokens: None, cached_input_tokens: None });
    assert_eq!(two.input_tokens, Some(u64::MAX));
    assert_eq!(two.output_tokens, Some(20));
    assert_eq!(two.reported_requests, Some(2));
    assert_eq!(two.cache_observed_requests, Some(1));
    assert!(anchors(true, Some(Usage { input_tokens: Some(1), output_tokens: None, cached_input_tokens: None })));
    assert!(!anchors(false, Some(Usage { input_tokens: Some(1), output_tokens: None, cached_input_tokens: None })));
    assert!(!anchors(true, None));
}

#[test]
fn a_turn_runs_until_an_answer_without_calls_finishes() {
    let s = TurnState::new(iteration_limit(Some(2)));
    let (s, a) = turn_step(s, TurnEvent::Ready { cancelled: false });
    assert!(matches!(a, TurnAction::CallModel));
    assert_eq!(s.requests, 1);
    let (s, a) = turn_step(s, TurnEvent::Answered { ok: true, has_calls: true });
    assert!(matches!(a, TurnAction::ExecuteCalls));
    let (s, a) = turn_step(s, TurnEvent::Executed);
    assert!(matches!(a, TurnAction::Next));
    let (s, a) = turn_step(s, TurnEvent::Ready { cancelled: false });
    assert!(matches!(a, TurnAction::CallModel));
    assert_eq!(s.requests, 2);
    let (s, a) = turn_step(s, TurnEvent::Answered { ok: true, has_calls: false });
    assert!(matches!(a, TurnAction::TryFinish));
    let (_, a) = turn_step(s, TurnEvent::Settled { finished: true });
    assert!(matches!(a, TurnAction::Done));
}

#[test]
fn a_turn_stops_at_its_request_limit() {
    let s = TurnState::new(1);
    let (s, _) = turn_step(s, TurnEvent::Ready { cancelled: false });
    let (s, a) = turn_step(s, TurnEvent::Answered { ok: true, has_calls: false });
    assert!(matches!(a, TurnAction::TryFinish));
    let (s, a) = turn_step(s, TurnEvent::Settled { finished: false });
    assert!(matches!(a, TurnAction::Next));
    match turn_step(s, TurnEvent::Ready { cancelled: true }).1 {
        TurnAction::Fail(e) => {
            assert_eq!(e.status, 422);
            assert_eq!(e.message, "Tool turn limit reached (1 model calls)");
        }
        other => panic!("unexpected {other:?}"),
    }
}

#[test]
fn a_cancelled_or_failed_turn_ends() {
    match turn_step(TurnState::new(100), TurnEvent::Ready { cancelled: true }).1 {
        TurnAction::Fail(e) => {
            assert_eq!(e.status, 499);
            assert_eq!(e.message, "Turn cancelled");
        }
        other => panic!("unexpected {other:?}"),
    }
    let (s, _) = turn_step(TurnState::new(100), TurnEvent::Ready { cancelled: false });
    assert!(matches!(turn_step(s, TurnEvent::Answered { ok: false, has_calls: true }).1, TurnAction::Stop));
}
