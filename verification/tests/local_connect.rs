use ciri::local_connect::{after_connect_attempt, ConnectStep, CONNECT_ATTEMPTS};

#[test]
fn connect_attempts_are_bounded() {
    assert_eq!(after_connect_attempt(0, true), ConnectStep::Connected);
    assert_eq!(after_connect_attempt(0, false), ConnectStep::Retry { wait_ms: 20 });
    assert_eq!(after_connect_attempt(48, false), ConnectStep::Retry { wait_ms: 20 });
    assert_eq!(after_connect_attempt(49, false), ConnectStep::GiveUp { wait_ms: 20 });
    assert_eq!(after_connect_attempt(49, true), ConnectStep::Connected);
    assert_eq!(CONNECT_ATTEMPTS, 50);
    // Stepping from the first attempt gives exactly fifty tries.
    let mut attempt = 0;
    while let ConnectStep::Retry { .. } = after_connect_attempt(attempt, false) {
        attempt += 1;
    }
    assert_eq!(attempt + 1, CONNECT_ATTEMPTS);
}
