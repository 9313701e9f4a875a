use std::time::Duration;

use async_rate_limiter::{RateLimiter, TimedAcquire};

fn delay(duration: Duration) {
    tokio::runtime::Builder::new_current_thread()
        .enable_time()
        .build()
        .unwrap()
        .block_on(async move { tokio::time::sleep(duration).await });
}

#[test]
fn test_try_acquire() {
    let rl = RateLimiter::new(3);
    rl.burst(5);

    rl.try_acquire().unwrap();

    let duration = rl.try_acquire().unwrap_err();
    assert!(duration > Duration::from_millis(330));
    assert!(duration < Duration::from_millis(340));

    delay(duration);

    rl.try_acquire().unwrap();
}

#[test]
fn limiter_clones_share_one_bucket() {
    let rl = RateLimiter::new(3);
    let rl2 = rl.clone();
    rl.try_acquire().unwrap();
    let duration = rl2.try_acquire().unwrap_err();
    assert!(duration > Duration::from_millis(330));
    assert!(duration <= Duration::from_nanos(333_333_333));
}

#[test]
fn limiter_reserve_promises_next_period() {
    let rl = RateLimiter::new(3);
    assert_eq!(rl.reserve(), None);
    let wait = rl.reserve().unwrap();
    assert!(wait > 300_000_000 && wait <= 333_333_333);
    // The following token comes a period later still: more than a timeout of
    // one millisecond away.
    assert_eq!(rl.reserve_with_timeout(1_000_000), TimedAcquire::TimedOut);
    // The refused wait promised nothing, so the next one is two periods away.
    match rl.reserve_with_timeout(5_000_000_000) {
        TimedAcquire::Wait(w) => assert!(w > 600_000_000 && w <= 666_666_666),
        other => panic!("unexpected {:?}", other),
    }
}

#[test]
fn limiter_returned_token_can_be_taken() {
    let rl = RateLimiter::new(3);
    rl.try_acquire().unwrap();
    assert!(rl.try_acquire().is_err());
    rl.return_token();
    rl.try_acquire().unwrap();
}

#[test]
fn limiter_burst_returns_the_limiter() {
    let rl = RateLimiter::new(2);
    let same = rl.burst(7);
    same.try_acquire().unwrap();
    assert!(rl.try_acquire().is_err());
}
