use ctag::retry::{parse_u64, retry_after_ms, Attempt, RetryAction, RetryState};

fn status(code: u16) -> Attempt {
    Attempt::Response { status: code, retry_after: None }
}

#[test]
fn four_server_errors_then_success_delivers_success() {
    let mut state = RetryState::new();
    for _ in 0..4 {
        let (action, next) = state.decide(&status(503), 0);
        assert!(matches!(action, RetryAction::Wait(_)));
        state = next;
    }
    let (action, next) = state.decide(&status(200), 0);
    assert_eq!(action, RetryAction::Deliver);
    assert_eq!(next.attempts, 5);
}

#[test]
fn backoff_doubles_up_to_cap() {
    let mut state = RetryState::new();
    let mut waits = Vec::new();
    for _ in 0..5 {
        let (action, next) = state.decide(&status(500), 7);
        if let RetryAction::Wait(ms) = action {
            waits.push(ms);
        }
        state = next;
    }
    assert_eq!(waits, vec![1007, 2007, 4007, 8007, 16007]);
    let (action, _) = state.decide(&status(500), 7);
    assert_eq!(action, RetryAction::Deliver);
    let capped = RetryState { attempts: 0, delay_ms: 20000 };
    assert_eq!(capped.decide(&status(500), 0).1.delay_ms, 30000);
}

#[test]
fn transport_error_gives_up_after_sixth_attempt() {
    let mut state = RetryState::new();
    for _ in 0..5 {
        let (action, next) = state.decide(&Attempt::TransportError, 0);
        assert!(matches!(action, RetryAction::Wait(_)));
        state = next;
    }
    assert_eq!(state.decide(&Attempt::TransportError, 0).0, RetryAction::GiveUp);
}

#[test]
fn rate_limit_honours_retry_after() {
    let state = RetryState::new();
    let attempt = Attempt::Response { status: 429, retry_after: Some("2".to_string()) };
    let (action, _) = state.next_action(&attempt);
    match action {
        RetryAction::Wait(ms) => assert!((2000..3000).contains(&ms), "waited {}", ms),
        other => panic!("expected a wait, got {:?}", other),
    }
    let unparsable = Attempt::Response { status: 429, retry_after: Some("soon".to_string()) };
    assert_eq!(state.decide(&unparsable, 5).0, RetryAction::Wait(1005));
}

#[test]
fn client_errors_are_not_retried() {
    let state = RetryState::new();
    assert_eq!(state.decide(&status(404), 0).0, RetryAction::Deliver);
    assert_eq!(state.decide(&status(200), 0).0, RetryAction::Deliver);
}

#[test]
fn parse_u64_follows_from_str() {
    assert_eq!(parse_u64("2"), Some(2));
    assert_eq!(parse_u64("+17"), Some(17));
    assert_eq!(parse_u64("18446744073709551615"), Some(u64::MAX));
    assert_eq!(parse_u64("18446744073709551616"), None);
    assert_eq!(parse_u64(""), None);
    assert_eq!(parse_u64("+"), None);
    assert_eq!(parse_u64("-1"), None);
    assert_eq!(parse_u64(" 1"), None);
    assert_eq!(retry_after_ms(&Some("3".to_string())), Some(3000));
    assert_eq!(retry_after_ms(&Some("18446744073709551615".to_string())), Some(u64::MAX));
    assert_eq!(retry_after_ms(&None), None);
}
