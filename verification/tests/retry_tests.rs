use gamedig::error::{GDError, NetworkProtocol};
use gamedig::retry::{retry_decide, retry_on_timeout, RetryDecision};

fn timeout_err() -> GDError {
    GDError::TimeoutElapsedError {
        protocol: NetworkProtocol::Tcp,
        address: String::from("203.0.113.1:25565"),
    }
}

#[test]
fn succeeds_after_k_timeouts_when_attempts_remain() {
    // Two timeouts then a success; three attempts allowed.
    let outcomes: Vec<Result<u32, GDError>> =
        vec![Err(timeout_err()), Err(timeout_err()), Ok(7), Ok(99)];
    let (result, attempts) = retry_on_timeout(4, outcomes);
    assert_eq!(result.unwrap(), 7);
    assert_eq!(attempts, 3);
}

#[test]
fn exhausts_attempts_and_returns_last_timeout() {
    // Three timeouts but only two attempts allowed.
    let outcomes: Vec<Result<u32, GDError>> =
        vec![Err(timeout_err()), Err(timeout_err()), Err(timeout_err())];
    let (result, attempts) = retry_on_timeout(2, outcomes);
    assert!(matches!(result, Err(GDError::TimeoutElapsedError { .. })));
    assert_eq!(attempts, 2);
}

#[test]
fn single_attempt_returns_first_outcome() {
    let outcomes: Vec<Result<u32, GDError>> = vec![Err(timeout_err()), Ok(1)];
    let (result, attempts) = retry_on_timeout(1, outcomes);
    assert!(matches!(result, Err(GDError::TimeoutElapsedError { .. })));
    assert_eq!(attempts, 1);
}

#[test]
fn non_timeout_failure_propagates_after_one_attempt() {
    let outcomes: Vec<Result<u32, GDError>> = vec![Err(GDError::PacketBad), Ok(5), Ok(6)];
    let (result, attempts) = retry_on_timeout(3, outcomes);
    assert_eq!(result, Err(GDError::PacketBad));
    assert_eq!(attempts, 1);
}

#[test]
fn immediate_success_takes_one_attempt() {
    let outcomes: Vec<Result<u32, GDError>> = vec![Ok(42), Err(GDError::PacketBad)];
    let (result, attempts) = retry_on_timeout(2, outcomes);
    assert_eq!(result.unwrap(), 42);
    assert_eq!(attempts, 1);
}

#[test]
fn decide_retries_only_timeouts_with_attempts_left() {
    assert_eq!(retry_decide(&timeout_err(), 1), RetryDecision::RetryAgain);
    assert_eq!(retry_decide(&timeout_err(), 0), RetryDecision::GiveUp);
    assert_eq!(retry_decide(&GDError::PacketBad, 5), RetryDecision::GiveUp);
    assert_eq!(
        retry_decide(
            &GDError::ReadError {
                protocol: NetworkProtocol::Udp,
                address: String::from("203.0.113.1:27960"),
            },
            5
        ),
        RetryDecision::GiveUp
    );
}
