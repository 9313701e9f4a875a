use async_rate_limiter::{saturating_wait, TimedAcquire, TokenBucket, NANOS_PER_SEC};

fn bucket(tokens: usize, last: u64, burst: usize, period_ns: u64) -> TokenBucket {
    TokenBucket { tokens, last, burst, period_ns }
}

#[test]
fn new_bucket_holds_one_token() {
    assert_eq!(TokenBucket::new(3), bucket(1, 0, 3, 333_333_333));
    assert_eq!(TokenBucket::new(1), bucket(1, 0, 1, NANOS_PER_SEC));
    assert_eq!(TokenBucket::new(1_000_000_000), bucket(1, 0, 1_000_000_000, 1));
    assert_eq!(TokenBucket::new(7).period_ns, 142_857_142);
    // Rates above one per nanosecond get the shortest period.
    assert_eq!(TokenBucket::new(2_000_000_000), bucket(1, 0, 2_000_000_000, 1));
}

#[test]
fn tokens_since_last_counts_whole_periods() {
    let b = bucket(0, 1000, 3, 100);
    assert_eq!(b.tokens_since_last(1250), Ok((2, 200)));
    assert_eq!(b.tokens_since_last(1100), Ok((1, 100)));
    assert_eq!(b.tokens_since_last(1099), Err(100));
    // A clock reading before `last` counts as no time at all.
    assert_eq!(b.tokens_since_last(10), Err(100));
}

#[test]
fn set_num_tokens_caps_at_burst() {
    let mut b = bucket(0, 0, 5, 100);
    b.set_num_tokens(7);
    assert_eq!(b.tokens, 5);
    b.set_num_tokens(3);
    assert_eq!(b.tokens, 3);
}

#[test]
fn dec_num_tokens_stops_at_zero() {
    let mut b = bucket(2, 0, 5, 100);
    assert_eq!(b.dec_num_tokens(), Some(1));
    assert_eq!(b.dec_num_tokens(), Some(0));
    assert_eq!(b.dec_num_tokens(), None);
    assert_eq!(b, bucket(0, 0, 5, 100));
}

#[test]
fn inc_num_tokens_caps_at_burst() {
    let mut b = bucket(4, 0, 5, 100);
    assert_eq!(b.inc_num_tokens(), 5);
    assert_eq!(b.inc_num_tokens(), 5);
    let mut full = bucket(usize::MAX, 0, 5, 100);
    assert_eq!(full.inc_num_tokens(), usize::MAX);
    assert_eq!(full.tokens, usize::MAX);
}

#[test]
fn try_acquire_inner_stores_produced_tokens_first() {
    let mut b = bucket(2, 0, 3, 100);
    assert_eq!(b.try_acquire_inner(5000), Ok(()));
    assert_eq!(b, bucket(2, 5000, 3, 100));
    // Within a period, a stored token is taken and `last` stays.
    let mut c = bucket(2, 0, 3, 100);
    assert_eq!(c.try_acquire_inner(50), Ok(()));
    assert_eq!(c, bucket(1, 0, 3, 100));
}

#[test]
fn burst_one_allows_one_at_an_instant() {
    // One per second, then ten idle seconds: one try succeeds, the next at
    // the same instant waits a whole period.
    let mut b = TokenBucket::new(1);
    assert_eq!(b.try_acquire_inner(10 * NANOS_PER_SEC), Ok(()));
    assert_eq!(b.try_acquire_inner(10 * NANOS_PER_SEC), Err(11 * NANOS_PER_SEC));
    let mut at = TokenBucket::new(1);
    assert_eq!(at.try_acquire_at(10 * NANOS_PER_SEC), Ok(()));
    assert_eq!(at.try_acquire_at(10 * NANOS_PER_SEC), Err(NANOS_PER_SEC));
}

#[test]
fn try_acquire_inner_refills_up_to_burst() {
    let mut b = bucket(0, 0, 3, 100);
    assert_eq!(b.try_acquire_inner(1050), Ok(()));
    // Ten periods passed; three are stored, one is taken, and accrual starts
    // again at the last whole period.
    assert_eq!(b, bucket(2, 1000, 3, 100));
}

#[test]
fn try_acquire_inner_refuses_within_a_period() {
    let mut b = bucket(0, 1000, 3, 100);
    assert_eq!(b.try_acquire_inner(1050), Err(1100));
    assert_eq!(b, bucket(0, 1000, 3, 100));
}

#[test]
fn acquire_inner_promises_next_period() {
    let mut b = bucket(0, 1000, 3, 100);
    assert_eq!(b.acquire_inner(1030), Some(70));
    assert_eq!(b, bucket(0, 1100, 3, 100));
    // The next caller waits one period more.
    assert_eq!(b.acquire_inner(1030), Some(170));
    assert_eq!(b, bucket(0, 1200, 3, 100));
    // Once that instant has come, the token is there.
    let mut ready = bucket(1, 0, 3, 100);
    assert_eq!(ready.acquire_inner(0), None);
    assert_eq!(ready, bucket(0, 0, 3, 100));
}

#[test]
fn acquire_with_timeout_refusal_promises_nothing() {
    let mut b = bucket(0, 1000, 3, 100);
    assert_eq!(b.acquire_with_timeout_inner(1050, 10), TimedAcquire::TimedOut);
    assert_eq!(b, bucket(0, 1000, 3, 100));
    // The period that was refused is still there for the next caller.
    assert_eq!(b.try_acquire_inner(1100), Ok(()));
}

#[test]
fn acquire_with_timeout_waits_within_timeout() {
    let mut b = bucket(0, 1000, 3, 100);
    assert_eq!(b.acquire_with_timeout_inner(1050, 50), TimedAcquire::Wait(50));
    assert_eq!(b, bucket(0, 1100, 3, 100));
    let mut stored = bucket(1, 1000, 3, 100);
    assert_eq!(stored.acquire_with_timeout_inner(1050, 0), TimedAcquire::Acquired);
    assert_eq!(stored, bucket(0, 1000, 3, 100));
}

#[test]
fn return_token_undoes_a_promise() {
    let mut b = bucket(0, 1000, 3, 100);
    assert_eq!(b.acquire_inner(1050), Some(50));
    b.return_token();
    assert_eq!(b, bucket(1, 1100, 3, 100));
    // From the promised instant on, as many tokens are available as before.
    let mut again = b;
    assert_eq!(again.try_acquire_inner(1150), Ok(()));
    assert_eq!(again.try_acquire_inner(1199), Err(1200));
}

#[test]
fn return_token_caps_at_burst() {
    let mut b = bucket(3, 0, 3, 100);
    b.return_token();
    assert_eq!(b.tokens, 3);
}

#[test]
fn saturating_wait_stops_at_zero() {
    assert_eq!(saturating_wait(100, 30), 70);
    assert_eq!(saturating_wait(100, 100), 0);
    assert_eq!(saturating_wait(100, 130), 0);
}

#[test]
fn step_beyond_clock_range_holds_wait() {
    let b = bucket(0, u64::MAX - 10, 3, 100);
    assert!(!b.can_step(5));
    assert_eq!(b.clamped_wait_for_next(5), u64::MAX);
    let mut t = b;
    assert_eq!(t.try_acquire_at(5), Err(u64::MAX));
    assert_eq!(t, b);
    assert_eq!(t.acquire_at(5), Some(u64::MAX));
    assert_eq!(t.acquire_with_timeout_at(5, 10), TimedAcquire::TimedOut);
    assert_eq!(t.acquire_with_timeout_at(5, u128::MAX), TimedAcquire::Wait(u64::MAX));
    assert_eq!(t, b);
    let near = bucket(0, u64::MAX - 200, 3, 100);
    assert_eq!(near.clamped_wait_for_next(u64::MAX - 150), 50);
}

#[test]
fn try_acquire_at_reports_wait() {
    let mut b = bucket(0, 1000, 3, 100);
    assert_eq!(b.try_acquire_at(1040), Err(60));
    assert_eq!(b.try_acquire_at(1100), Ok(()));
    assert_eq!(b, bucket(0, 1100, 3, 100));
}

#[test]
fn rate_limit_over_many_calls() {
    // One token stored, one per 100 ns: by 1000 ns at most 1 + 10 calls get one.
    let mut b = bucket(1, 0, 3, 100);
    let mut granted = 0;
    let mut now = 0;
    while now <= 1000 {
        if b.try_acquire_inner(now).is_ok() {
            granted += 1;
        }
        now += 5;
    }
    assert_eq!(granted, 11);
}

#[test]
fn burst_limit_at_one_instant() {
    // Ten periods have passed, but one instant gets only the burst.
    let mut b = bucket(0, 0, 3, 100);
    let mut granted = 0;
    for _ in 0..10 {
        if b.try_acquire_inner(1000).is_ok() {
            granted += 1;
        }
    }
    assert_eq!(granted, 3);
}

#[test]
fn acquire_sequence_like_a_client() {
    // Three per second; start at the origin with one token.
    let mut b = TokenBucket::new(3);
    let p = 333_333_333u64;
    assert_eq!(b.acquire_inner(1_000), None);
    assert_eq!(b.acquire_inner(2_000), Some(p - 2_000));
    assert_eq!(b.acquire_inner(p), Some(p));
    assert_eq!(b.acquire_with_timeout_inner(2 * p, 5_000_000_000), TimedAcquire::Wait(p));
    assert_eq!(b.acquire_with_timeout_inner(3 * p, 10_000_000), TimedAcquire::TimedOut);
}

#[test]
fn set_burst_caps_stored_tokens() {
    let mut b = bucket(4, 10, 5, 100);
    b.set_burst(2);
    assert_eq!(b, bucket(2, 10, 2, 100));
    b.set_burst(6);
    assert_eq!(b, bucket(2, 10, 6, 100));
    // The next refill stores no more than the new burst.
    let mut empty = bucket(0, 0, 5, 100);
    empty.set_burst(2);
    assert_eq!(empty.try_acquire_inner(1000), Ok(()));
    assert_eq!(empty.tokens, 1);
}

#[test]
fn timeout_refusal_keeps_bucket() {
    let start = bucket(0, 1000, 3, 100);
    let mut plain = start;
    let waited = plain.acquire_inner(1020);
    assert_eq!(waited, Some(80));
    for timeout in [0u128, 79, 80, 1_000] {
        let mut timed = start;
        let answer = timed.acquire_with_timeout_inner(1020, timeout);
        if timeout < 80 {
            assert_eq!(answer, TimedAcquire::TimedOut);
            assert_eq!(timed, start);
        } else {
            assert_eq!(answer, TimedAcquire::Wait(80));
            assert_eq!(timed, plain);
        }
    }
}

#[test]
fn tokens_stay_within_burst() {
    let mut b = bucket(3, 0, 3, 100);
    assert_eq!(b.try_acquire_inner(10_000), Ok(()));
    assert!(b.tokens <= 3);
    b.return_token();
    b.return_token();
    assert_eq!(b.tokens, 3);
    let mut empty = bucket(0, 0, 3, 100);
    assert_eq!(empty.try_acquire_inner(1_000_000), Ok(()));
    assert_eq!(empty.tokens, 2);
}

#[test]
fn ready_exactly_when_a_token_is_available() {
    let mut b = bucket(0, 1000, 3, 100);
    assert!(b.try_acquire_inner(1099).is_err());
    assert!(b.try_acquire_inner(1100).is_ok());
    assert!(b.try_acquire_inner(1100).is_err());
}

#[test]
fn returned_wait_is_exact() {
    let start = bucket(0, 1000, 3, 100);
    let mut b = start;
    assert_eq!(b.try_acquire_at(1030), Err(70));
    assert_eq!(b, start);
    let mut early = start;
    assert_eq!(early.try_acquire_at(1099), Err(1));
    let mut on_time = start;
    assert_eq!(on_time.try_acquire_at(1100), Ok(()));
}

#[test]
fn successive_waiters_get_successive_periods() {
    let mut b = bucket(0, 1000, 3, 100);
    let mut grants = Vec::new();
    for now in [1001u64, 1020, 1050, 1099] {
        let wait = b.acquire_inner(now).unwrap();
        grants.push(now + wait);
    }
    assert_eq!(grants, vec![1100, 1200, 1300, 1400]);
    assert_eq!(b, bucket(0, 1400, 3, 100));
}

#[test]
fn rate_limit_holds_across_burst_changes() {
    // One token stored, one per 100 ns, the burst raised and lowered on the
    // way: by 1000 ns at most 1 + 10 calls get a token.
    let mut b = bucket(1, 0, 3, 100);
    let mut granted = 0;
    let mut now = 0;
    while now <= 1000 {
        if now % 200 == 0 {
            b.set_burst(if now % 400 == 0 { 50 } else { 1 });
        }
        if b.try_acquire_inner(now).is_ok() {
            granted += 1;
        }
        now += 25;
    }
    assert!(granted <= 11);
    assert_eq!(granted, 11);
}
