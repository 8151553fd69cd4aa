use agent_store::retry::{Delivery, FailureKind, Outcome, RetryPolicy, Step};

fn failed() -> Outcome {
    Outcome::Failed { permanent: false, detail: "smtp: connection reset".to_string() }
}

#[test]
fn fails_twice_then_delivers_in_three_attempts() {
    let mut d = Delivery::new(RetryPolicy::notification());
    let mut calls = 0;
    let mut delays = Vec::new();
    let mut elapsed = 0u64;
    loop {
        calls += 1;
        let outcome = if calls <= 2 { failed() } else { Outcome::Delivered };
        match d.on_outcome(outcome, elapsed) {
            Step::Done => break,
            Step::Wait { delay_ms } => {
                delays.push(delay_ms);
                elapsed += delay_ms;
            },
            Step::GiveUp(e) => panic!("gave up: {:?}", e),
        }
    }
    assert_eq!(calls, 3);
    assert_eq!(delays.len(), 2);
    assert!(delays[0] <= 10);
    assert!(delays[1] <= 100);
}

#[test]
fn always_failing_gives_up_after_three_attempts() {
    let mut d = Delivery::new(RetryPolicy::notification());
    let mut calls = 0;
    let err = loop {
        calls += 1;
        match d.on_outcome(failed(), 0) {
            Step::Done => panic!("delivered"),
            Step::Wait { .. } => {},
            Step::GiveUp(e) => break e,
        }
    };
    assert_eq!(calls, 3);
    assert_eq!(err.kind, FailureKind::Exhausted);
    assert_eq!(err.attempts, 3);
    assert_eq!(err.detail, "smtp: connection reset");
}

#[test]
fn exact_schedule_strictly_grows() {
    let p = RetryPolicy::notification();
    // With the undisturbed exponential schedule the waits are 10 and 100.
    assert_eq!(p.next_step(1, failed(), 0, 10), Step::Wait { delay_ms: 10 });
    assert_eq!(p.next_step(2, failed(), 10, 100), Step::Wait { delay_ms: 100 });
    match p.next_step(3, failed(), 110, 1000) {
        Step::GiveUp(e) => assert_eq!(e.kind, FailureKind::Exhausted),
        other => panic!("{:?}", other),
    }
}

#[test]
fn permanent_failure_and_deadline() {
    let p = RetryPolicy { max_attempts: 5, base_delay_ms: 10, deadline_ms: 50 };
    match p.next_step(1, Outcome::Failed { permanent: true, detail: "bad address".to_string() }, 0, 10) {
        Step::GiveUp(e) => {
            assert_eq!(e.kind, FailureKind::Permanent);
            assert_eq!(e.attempts, 1);
        },
        other => panic!("{:?}", other),
    }
    match p.next_step(2, failed(), 45, 10) {
        Step::GiveUp(e) => assert_eq!(e.kind, FailureKind::Timeout),
        other => panic!("{:?}", other),
    }
    assert_eq!(p.next_step(2, failed(), 40, 10), Step::Wait { delay_ms: 10 });
    assert_eq!(p.next_step(4, Outcome::Delivered, 40, 10), Step::Done);
}

#[test]
fn delays_follow_the_exponential_schedule_with_jitter() {
    let p = RetryPolicy { max_attempts: 5, base_delay_ms: 10, deadline_ms: 1_000_000 };
    let mut below = false;
    for _ in 0..50 {
        assert!(p.delay_after(1) <= 10);
        assert!(p.delay_after(2) <= 100);
        let d = p.delay_after(3);
        assert!(d <= 1000);
        below |= d < 1000;
    }
    assert!(below);
    let mut larger = false;
    for _ in 0..50 {
        larger |= p.delay_after(3) > 100;
    }
    assert!(larger);
}
