use std::sync::Arc;
use std::time::{Duration, Instant};

use vstd::prelude::*;
use vstd::rwlock::{RwLock, RwLockPredicate};

use crate::bucket::{period_for, TimedAcquire, TokenBucket};
use crate::clock::{
    duration_as_nanos, duration_from_nanos, duration_of_nanos, instant_elapsed, instant_now,
};

verus! {

/// What the shared bucket always satisfies: it is well formed, and its period
/// is the limiter's.
pub struct BucketInvariant {
    pub period_ns: u64,
}

impl RwLockPredicate<TokenBucket> for BucketInvariant {
    open spec fn inv(self, v: TokenBucket) -> bool {
        v.wf() && v.period_ns == self.period_ns
    }
}

/// A token bucket rate limiter. Clones share one bucket, so that they limit
/// together.
pub struct TokenBucketRateLimiter {
    inner: Arc<RwLock<TokenBucket, BucketInvariant>>,
    origin: Instant,
    period_ns: u64,
}

impl TokenBucketRateLimiter {
    #[verifier::type_invariant]
    spec fn shares_period(self) -> bool {
        self.inner.pred() == (BucketInvariant { period_ns: self.period_ns })
    }

    /// Nanoseconds that it takes to produce one token.
    pub closed spec fn period(self) -> u64 {
        self.period_ns
    }

    /// Both limiters hold the same lock, and so the same bucket.
    pub closed spec fn same_bucket(self, other: Self) -> bool {
        self.inner == other.inner
    }

    /// Creates a new [`TokenBucketRateLimiter`].
    ///
    /// `rate` specifies the average number of operations allowed per second.
    /// It must be greater than zero; rates above one per nanosecond get a
    /// period of one nanosecond. The bucket starts with one token, and
    /// `burst` is `rate`.
    pub fn new(rate: usize) -> (r: TokenBucketRateLimiter)
        requires
            0 < rate,
        ensures
            r.period() == period_for(rate),
    {
        let bucket = TokenBucket::new(rate);
        let period_ns = bucket.period_ns;
        let origin = instant_now();
        let lock = RwLock::new(bucket, Ghost(BucketInvariant { period_ns }));
        TokenBucketRateLimiter { inner: Arc::new(lock), origin, period_ns }
    }

    /// The clock, in nanoseconds since the limiter was created, held to
    /// `u64::MAX`.
    fn now_ns(&self) -> u64 {
        let nanos = duration_as_nanos(&instant_elapsed(&self.origin));
        if nanos > u64::MAX as u128 {
            u64::MAX
        } else {
            nanos as u64
        }
    }

    /// `burst` specifies the maximum burst number of operations allowed. The
    /// default value of `burst` is same as `rate`. It must be greater than
    /// zero. Stored tokens beyond the new burst are dropped.
    pub fn burst(&self, burst: usize) -> (r: &TokenBucketRateLimiter)
        requires
            burst > 0,
        ensures
            r == self,
    {
        proof {
            use_type_invariant(self);
        }
        let (mut bucket, handle) = self.inner.acquire_write();
        bucket.set_burst(burst);
        handle.release_write(bucket);
        self
    }

    /// Try to acquire a token. Return `Ok` if the token is successfully
    /// acquired, it means that you can safely perform frequency-controlled
    /// operations. Otherwise `Err(duration)` is returned, `duration` is the
    /// minimum time to wait.
    pub fn try_acquire(&self) -> (r: Result<(), Duration>)
        ensures
            exists|b: TokenBucket, now: u64|
                {
                    &&& b.wf()
                    &&& b.period_ns == self.period()
                    &&& match (r, #[trigger] b.step_try_acquire_at(now).1) {
                        (Ok(()), Ok(())) => true,
                        (Err(d), Err(w)) => d == duration_of_nanos(w),
                        _ => false,
                    }
                },
    {
        proof {
            use_type_invariant(self);
        }
        let (mut bucket, handle) = self.inner.acquire_write();
        let now = self.now_ns();
        let ghost before = bucket;
        let outcome = bucket.try_acquire_at(now);
        handle.release_write(bucket);
        let r = match outcome {
            Ok(()) => Ok(()),
            Err(w) => Err(duration_from_nanos(w)),
        };
        assert(before.step_try_acquire_at(now).1 == outcome);
        r
    }

    /// The locked part of an acquisition: takes a token (`None`), or promises
    /// the next one and returns the nanoseconds until it.
    pub fn reserve(&self) -> (r: Option<u64>)
        ensures
            exists|b: TokenBucket, now: u64|
                {
                    &&& b.wf()
                    &&& b.period_ns == self.period()
                    &&& r == (#[trigger] b.step_acquire_at(now)).1
                },
    {
        proof {
            use_type_invariant(self);
        }
        let (mut bucket, handle) = self.inner.acquire_write();
        let now = self.now_ns();
        let ghost before = bucket;
        let r = bucket.acquire_at(now);
        handle.release_write(bucket);
        assert(r == before.step_acquire_at(now).1);
        r
    }

    /// The locked part of an acquisition with a timeout of `timeout_ns`
    /// nanoseconds.
    pub fn reserve_with_timeout(&self, timeout_ns: u128) -> (r: TimedAcquire)
        ensures
            exists|b: TokenBucket, now: u64|
                {
                    &&& b.wf()
                    &&& b.period_ns == self.period()
                    &&& r == (#[trigger] b.step_acquire_with_timeout_at(now, timeout_ns)).1
                },
    {
        proof {
            use_type_invariant(self);
        }
        let (mut bucket, handle) = self.inner.acquire_write();
        let now = self.now_ns();
        let ghost before = bucket;
        let r = bucket.acquire_with_timeout_at(now, timeout_ns);
        handle.release_write(bucket);
        assert(r == before.step_acquire_with_timeout_at(now, timeout_ns).1);
        r
    }

    /// Gives back a promised token that was not used: one token more, up to
    /// `burst`. A bucket whose count cannot grow is left as it is.
    pub fn return_token(&self) {
        proof {
            use_type_invariant(self);
        }
        let (mut bucket, handle) = self.inner.acquire_write();
        if bucket.tokens < usize::MAX {
            bucket.return_token();
        }
        handle.release_write(bucket);
    }
}

impl Clone for TokenBucketRateLimiter {
    /// Another handle on the same bucket.
    fn clone(&self) -> (r: Self)
        ensures
            r.period() == self.period(),
            r.same_bucket(*self),
    {
        proof {
            use_type_invariant(self);
        }
        TokenBucketRateLimiter {
            inner: self.inner.clone(),
            origin: self.origin,
            period_ns: self.period_ns,
        }
    }
}

} // verus!
