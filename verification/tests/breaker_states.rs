//! The circuit breaker: tripping, failing fast, probing, recovery, and
//! failure classification.

use user_storage::breaker::{
    BreakerConfig, BreakerState, CallDecision, CircuitBreaker,
};
use user_storage::error::Error;

fn cfg() -> BreakerConfig {
    BreakerConfig {
        max_failures: 3,
        cooldown_ms: 100,
    }
}

fn pool_err() -> Error {
    Error::PoolError("no route to the store".to_string())
}

#[test]
fn starts_closed_and_passes() {
    let mut cb = CircuitBreaker::new(cfg());
    assert_eq!(cb.state, BreakerState::Closed { failures: 0 });
    assert_eq!(cb.on_request(0), CallDecision::Pass);
}

#[test]
fn consecutive_countable_failures_open_the_circuit() {
    let mut cb = CircuitBreaker::new(cfg());
    cb.on_failure(&pool_err(), 10);
    cb.on_failure(&pool_err(), 20);
    assert_eq!(cb.state, BreakerState::Closed { failures: 2 });
    cb.on_failure(&pool_err(), 30);
    assert_eq!(cb.state, BreakerState::Open { opened_at: 30 });
}

#[test]
fn open_circuit_fails_fast_within_cooldown() {
    let mut cb = CircuitBreaker::new(cfg());
    cb.on_failure(&pool_err(), 0);
    cb.on_failure(&pool_err(), 0);
    cb.on_failure(&pool_err(), 0);
    // The next calls within the cooldown window fail immediately and
    // leave the circuit open.
    for t in [1u64, 50, 99] {
        assert_eq!(cb.on_request(t), CallDecision::FailFast);
        assert_eq!(cb.state, BreakerState::Open { opened_at: 0 });
    }
}

#[test]
fn probe_after_cooldown_then_recovery() {
    let mut cb = CircuitBreaker::new(cfg());
    cb.on_failure(&pool_err(), 0);
    cb.on_failure(&pool_err(), 0);
    cb.on_failure(&pool_err(), 0);
    assert_eq!(cb.on_request(100), CallDecision::Probe);
    // Concurrent callers fail fast while the probe is in flight.
    assert_eq!(cb.on_request(101), CallDecision::FailFast);
    // A successful probe closes the circuit and reinitializes the pool.
    let reinit = cb.on_success();
    assert!(reinit);
    assert_eq!(cb.state, BreakerState::Closed { failures: 0 });
    assert_eq!(cb.on_request(102), CallDecision::Pass);
}

#[test]
fn failed_probe_reopens_and_restarts_cooldown() {
    let mut cb = CircuitBreaker::new(cfg());
    cb.on_failure(&pool_err(), 0);
    cb.on_failure(&pool_err(), 0);
    cb.on_failure(&pool_err(), 0);
    assert_eq!(cb.on_request(100), CallDecision::Probe);
    let reinit = cb.on_failure(&pool_err(), 100);
    assert!(!reinit);
    assert_eq!(cb.state, BreakerState::Open { opened_at: 100 });
    assert_eq!(cb.on_request(150), CallDecision::FailFast);
    assert_eq!(cb.on_request(200), CallDecision::Probe);
}

#[test]
fn success_resets_the_failure_count() {
    let mut cb = CircuitBreaker::new(cfg());
    cb.on_failure(&pool_err(), 0);
    cb.on_failure(&pool_err(), 0);
    cb.on_success();
    assert_eq!(cb.state, BreakerState::Closed { failures: 0 });
    cb.on_failure(&pool_err(), 10);
    cb.on_failure(&pool_err(), 20);
    // Still closed: the failures were not consecutive across the success.
    assert_eq!(cb.state, BreakerState::Closed { failures: 2 });
}

#[test]
fn caller_mistakes_never_trip_the_circuit() {
    let mut cb = CircuitBreaker::new(cfg());
    let bad_input = Error::ValidationError("key".to_string(), None);
    let missing = Error::KeyNotFound("k".to_string());
    let corrupt = Error::SerializationError("bad record".to_string());
    for _ in 0..10 {
        cb.on_failure(&bad_input, 0);
        cb.on_failure(&missing, 0);
        cb.on_failure(&corrupt, 0);
    }
    assert_eq!(cb.state, BreakerState::Closed { failures: 0 });
    assert_eq!(cb.on_request(0), CallDecision::Pass);
}

#[test]
fn classification_of_failures() {
    assert!(Error::PoolError("x".to_string()).is_countable());
    assert!(Error::GeneralError("x".to_string()).is_countable());
    assert!(!Error::ValidationError("x".to_string(), None).is_countable());
    assert!(!Error::KeyNotFound("x".to_string()).is_countable());
    assert!(!Error::SerializationError("x".to_string()).is_countable());
    assert!(!Error::DriverError("x".to_string()).is_countable());
    assert!(!Error::CircuitOpen.is_countable());
    assert!(!Error::LoadConfigFailed("x".to_string()).is_countable());
}
