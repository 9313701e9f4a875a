use vstd::prelude::*;

verus! {

/// Nanoseconds in one second.
pub const NANOS_PER_SEC: u64 = 1_000_000_000;

/// The state of a token bucket. Time is a count of nanoseconds from the
/// origin that the owner of the bucket chose (its creation).
#[derive(PartialEq, Eq, Structural, Debug, Clone, Copy)]
pub struct TokenBucket {
    /// Tokens stored and ready to be taken.
    pub tokens: usize,
    /// The instant from which new tokens accrue.
    pub last: u64,
    /// The most tokens that one refill stores.
    pub burst: usize,
    /// Nanoseconds that it takes to produce one token.
    pub period_ns: u64,
}

/// Nanoseconds from `last` to `now`, or zero when `now` is not after `last`.
pub open spec fn elapsed_since(last: u64, now: u64) -> nat {
    if last <= now {
        (now - last) as nat
    } else {
        0
    }
}

/// Nanoseconds from `now` until `next`, or zero when `next` has passed.
pub open spec fn wait_until(next: u64, now: u64) -> u64 {
    if now <= next {
        (next - now) as u64
    } else {
        0
    }
}

/// What an acquisition with a timeout decided.
#[derive(PartialEq, Eq, Structural, Debug, Clone, Copy)]
pub enum TimedAcquire {
    /// A token was taken; nothing to wait for.
    Acquired,
    /// The token would come after the timeout; none was taken.
    TimedOut,
    /// A token is promised after this many nanoseconds.
    Wait(u64),
}

/// `count` as a `usize`, held to `usize::MAX`.
pub open spec fn saturated_count(count: nat) -> usize {
    if count > usize::MAX {
        usize::MAX
    } else {
        count as usize
    }
}

/// Nanoseconds per token at `rate` tokens per second: `10^9 / rate`, but at
/// least one.
pub open spec fn period_for(rate: usize) -> u64 {
    if NANOS_PER_SEC < rate as u64 {
        1
    } else {
        (NANOS_PER_SEC / (rate as u64)) as u64
    }
}

/// `min(burst, num)`.
pub open spec fn capped(burst: usize, num: usize) -> usize {
    if burst <= num {
        burst
    } else {
        num
    }
}

impl TokenBucket {
    /// Both rates are positive, and no more tokens are stored than a burst
    /// may take.
    pub open spec fn wf(self) -> bool {
        &&& self.burst > 0
        &&& self.period_ns > 0
        &&& self.tokens <= self.burst
    }

    /// Whole periods that have passed at `now` since `last`.
    pub open spec fn periods_since_last(self, now: u64) -> nat {
        elapsed_since(self.last, now) / (self.period_ns as nat)
    }

    /// The tokens that the bucket could hand out at `now`: those stored and
    /// those produced since `last`, before any cap.
    pub open spec fn available(self, now: u64) -> nat {
        self.tokens as nat + self.periods_since_last(now)
    }

    /// The bucket with `num` tokens, but no more than `burst`.
    pub open spec fn refilled(self, num: usize) -> TokenBucket {
        TokenBucket { tokens: capped(self.burst, num), ..self }
    }

    /// The bucket with `burst` as its burst, and no more stored tokens than
    /// that.
    pub open spec fn with_burst(self, burst: usize) -> TokenBucket {
        TokenBucket { burst, tokens: capped(burst, self.tokens), ..self }
    }

    /// The bucket with `count` more tokens, but no more than `burst`.
    pub open spec fn topped_up(self, count: usize) -> TokenBucket {
        TokenBucket {
            tokens: if self.tokens + count >= self.burst {
                self.burst
            } else {
                (self.tokens + count) as usize
            },
            ..self
        }
    }

    /// The bucket after the tokens produced by `now` are stored: where a
    /// whole period has passed, the periods since `last` are added (up to
    /// `burst`) and `last` moves on by them; otherwise it is unchanged.
    pub open spec fn refill(self, now: u64) -> TokenBucket {
        if self.period_ns <= elapsed_since(self.last, now) {
            let q = self.periods_since_last(now);
            TokenBucket {
                last: (self.last + q * self.period_ns) as u64,
                ..self.topped_up(saturated_count(q))
            }
        } else {
            self
        }
    }

    /// The bucket with one token less, or unchanged when it holds none.
    pub open spec fn taken(self) -> TokenBucket {
        if self.tokens >= 1 {
            TokenBucket { tokens: (self.tokens - 1) as usize, ..self }
        } else {
            self
        }
    }

    /// The bucket with one token more, up to `burst`; unchanged where the
    /// count cannot grow.
    pub open spec fn incremented(self) -> TokenBucket {
        if self.tokens < usize::MAX {
            self.refilled((self.tokens + 1) as usize)
        } else {
            self
        }
    }

    /// A token can be had at `now`: one is stored, or a whole period has
    /// passed since `last`.
    pub open spec fn ready(self, now: u64) -> bool {
        self.tokens >= 1 || self.period_ns <= elapsed_since(self.last, now)
    }

    /// The end of the current period is a representable instant.
    pub open spec fn next_fits(self) -> bool {
        self.last + self.period_ns <= u64::MAX
    }

    /// What `tokens_since_last` returns at `now`: the whole periods since
    /// `last` and the time they took, or the length of one period when none
    /// has passed.
    pub open spec fn spec_tokens_since_last(self, now: u64) -> Result<(usize, u64), u64> {
        let q = self.periods_since_last(now);
        if self.period_ns <= elapsed_since(self.last, now) {
            Ok((saturated_count(q), (q * self.period_ns) as u64))
        } else {
            Err(self.period_ns)
        }
    }

    /// One attempt to take a token at `now`: the bucket after it, and `Ok`,
    /// or `Err` with the instant at which the next token is produced.
    pub open spec fn step_try_acquire(self, now: u64) -> (TokenBucket, Result<(), u64>) {
        let refilled = self.refill(now);
        if refilled.tokens >= 1 {
            (refilled.taken(), Ok(()))
        } else {
            (self, Err((self.last + self.period_ns) as u64))
        }
    }

    /// The bucket after a token is promised for `next`: accrual restarts at
    /// `next`, and one token is added (up to `burst`) and taken again.
    pub open spec fn reserved(self, next: u64) -> TokenBucket {
        TokenBucket { last: next, ..self }.incremented().taken()
    }

    /// One acquisition at `now`: the bucket after it, and `None` where a
    /// token was taken at once, or `Some` with the nanoseconds to wait for
    /// the token promised at the end of the current period.
    pub open spec fn step_acquire(self, now: u64) -> (TokenBucket, Option<u64>) {
        let (s1, r) = self.step_try_acquire(now);
        match r {
            Ok(_) => (s1, None),
            Err(next) => (s1.reserved(next), Some(wait_until(next, now))),
        }
    }

    /// One acquisition at `now` that may wait no longer than `timeout_ns`.
    /// A token that would come later is refused, and then nothing is promised:
    /// the bucket stays as the refused attempt left it.
    pub open spec fn step_acquire_with_timeout(self, now: u64, timeout_ns: u128) -> (
        TokenBucket,
        TimedAcquire,
    ) {
        let (s1, r) = self.step_try_acquire(now);
        match r {
            Ok(_) => (s1, TimedAcquire::Acquired),
            Err(next) => {
                let w = wait_until(next, now);
                if w > timeout_ns {
                    (s1, TimedAcquire::TimedOut)
                } else {
                    let s2 = s1.reserved(next);
                    if w == 0 {
                        (s2, TimedAcquire::Acquired)
                    } else {
                        (s2, TimedAcquire::Wait(w))
                    }
                }
            },
        }
    }

    /// Nanoseconds from `now` to the end of the current period, counted
    /// beyond the range of the clock and then held to `u64::MAX`.
    pub open spec fn clamped_next_wait(self, now: u64) -> u64 {
        let next = self.last + self.period_ns;
        if next <= now {
            0
        } else if next - now > u64::MAX {
            u64::MAX
        } else {
            (next - now) as u64
        }
    }

    /// `try_acquire_at`: the bucket after it, and `Ok` or `Err` with the
    /// nanoseconds until the next token.
    pub open spec fn step_try_acquire_at(self, now: u64) -> (TokenBucket, Result<(), u64>) {
        if self.ready(now) || self.next_fits() {
            let (s1, r) = self.step_try_acquire(now);
            (s1, match r {
                Ok(_) => Ok(()),
                Err(next) => Err(wait_until(next, now)),
            })
        } else {
            (self, Err(self.clamped_next_wait(now)))
        }
    }

    /// `acquire_at`: as `step_acquire`, but where the end of the current
    /// period lies beyond the clock's range the bucket is left as it is and
    /// the wait is held to `u64::MAX`.
    pub open spec fn step_acquire_at(self, now: u64) -> (TokenBucket, Option<u64>) {
        if self.ready(now) || self.next_fits() {
            self.step_acquire(now)
        } else {
            (self, Some(self.clamped_next_wait(now)))
        }
    }

    /// `acquire_with_timeout_at`: as `step_acquire_with_timeout`, but where
    /// the end of the current period lies beyond the clock's range the bucket
    /// is left as it is and the wait is held to `u64::MAX`.
    pub open spec fn step_acquire_with_timeout_at(self, now: u64, timeout_ns: u128) -> (
        TokenBucket,
        TimedAcquire,
    ) {
        if self.ready(now) || self.next_fits() {
            self.step_acquire_with_timeout(now, timeout_ns)
        } else if self.clamped_next_wait(now) as u128 > timeout_ns {
            (self, TimedAcquire::TimedOut)
        } else {
            (self, TimedAcquire::Wait(self.clamped_next_wait(now)))
        }
    }

    /// A new bucket for `rate` operations per second: one token stored,
    /// accrual from the origin, and a burst as large as the rate.
    pub open spec fn fresh(rate: usize) -> TokenBucket {
        TokenBucket { tokens: 1, last: 0, burst: rate, period_ns: period_for(rate) }
    }

    /// A bucket that allows `rate` operations per second: one token stored,
    /// accrual from the origin, and a burst as large as the rate. Rates above
    /// one per nanosecond get a period of one nanosecond.
    pub fn new(rate: usize) -> (b: TokenBucket)
        requires
            0 < rate,
        ensures
            b == TokenBucket::fresh(rate),
            b.wf(),
    {
        let r = rate as u64;
        let period_ns = if NANOS_PER_SEC < r {
            1
        } else {
            NANOS_PER_SEC / r
        };
        proof {
            lemma_period_for_positive(rate);
        }
        TokenBucket { tokens: 1, last: 0, burst: rate, period_ns }
    }
}

impl TokenBucket {
    /// The tokens produced since `last` at `now`, with the time that they
    /// took to produce; or, where not one has been produced yet, `Err` with
    /// the length of a period.
    pub fn tokens_since_last(&self, now: u64) -> (r: Result<(usize, u64), u64>)
        requires
            self.wf(),
        ensures
            r == self.spec_tokens_since_last(now),
    {
        let since: u64 = match now.checked_sub(self.last) {
            Some(d) => d,
            None => 0,
        };
        assert(since as nat == elapsed_since(self.last, now));
        if since >= self.period_ns {
            let tokens: u64 = since / self.period_ns;
            proof {
                lemma_whole_periods_fit(since as nat, self.period_ns as nat);
            }
            let count: usize = if tokens > usize::MAX as u64 {
                usize::MAX
            } else {
                tokens as usize
            };
            Ok((count, tokens * self.period_ns))
        } else {
            Err(self.period_ns)
        }
    }

    /// Sets the most tokens that one instant may take; stored tokens beyond
    /// it are dropped.
    pub fn set_burst(&mut self, burst: usize)
        requires
            burst > 0,
        ensures
            *final(self) == old(self).with_burst(burst),
    {
        self.burst = burst;
        if self.tokens > burst {
            self.tokens = burst;
        }
    }

    /// Stores `count` more tokens, but no more than `burst`.
    pub fn add_num_tokens(&mut self, count: usize)
        requires
            old(self).tokens <= old(self).burst,
        ensures
            *final(self) == old(self).topped_up(count),
    {
        let room = self.burst - self.tokens;
        if count >= room {
            self.tokens = self.burst;
        } else {
            self.tokens = self.tokens + count;
        }
    }

    /// Stores `num` tokens, but no more than `burst`.
    pub fn set_num_tokens(&mut self, num: usize)
        ensures
            *final(self) == old(self).refilled(num),
    {
        self.tokens = if self.burst <= num {
            self.burst
        } else {
            num
        };
    }

    /// Takes one stored token and returns how many remain; `None`, with the
    /// bucket unchanged, when none is stored.
    pub fn dec_num_tokens(&mut self) -> (r: Option<usize>)
        ensures
            *final(self) == old(self).taken(),
            r == (if old(self).tokens >= 1 {
                Some((old(self).tokens - 1) as usize)
            } else {
                None
            }),
    {
        if let Some(num) = self.tokens.checked_sub(1) {
            self.tokens = num;
            Some(num)
        } else {
            None
        }
    }

    /// Adds one token, up to `burst`, and returns the count.
    pub fn inc_num_tokens(&mut self) -> (r: usize)
        ensures
            *final(self) == old(self).incremented(),
            r == final(self).tokens,
    {
        if let Some(num) = self.tokens.checked_add(1) {
            self.set_num_tokens(num);
        }
        self.tokens
    }

    /// Takes a token at `now`. Where a whole period has passed since `last`,
    /// the tokens produced are stored first (up to `burst`) and `last` moves
    /// on by the whole periods used; then a stored token is taken. Where no
    /// token can be had, returns `Err` with the instant at which the next one
    /// is produced.
    pub fn try_acquire_inner(&mut self, now: u64) -> (r: Result<(), u64>)
        requires
            old(self).wf(),
            old(self).ready(now) || old(self).next_fits(),
        ensures
            *final(self) == old(self).step_try_acquire(now).0,
            r == old(self).step_try_acquire(now).1,
            final(self).wf(),
    {
        if let Ok((tokens, duration)) = self.tokens_since_last(now) {
            proof {
                lemma_whole_periods_fit(elapsed_since(self.last, now), self.period_ns as nat);
            }
            self.add_num_tokens(tokens);
            self.last = self.last + duration;
        }
        match self.dec_num_tokens() {
            Some(_) => Ok(()),
            None => Err(self.last + self.period_ns),
        }
    }
}

impl TokenBucket {
    /// Acquires a token at `now`: takes one if it can (`None`), or else
    /// promises the one produced at the end of the current period and returns
    /// the nanoseconds until then.
    pub fn acquire_inner(&mut self, now: u64) -> (r: Option<u64>)
        requires
            old(self).wf(),
            old(self).ready(now) || old(self).next_fits(),
        ensures
            *final(self) == old(self).step_acquire(now).0,
            r == old(self).step_acquire(now).1,
            final(self).wf(),
    {
        match self.try_acquire_inner(now) {
            Ok(()) => None,
            Err(next) => {
                self.last = next;
                self.inc_num_tokens();
                self.dec_num_tokens();
                Some(saturating_wait(next, now))
            },
        }
    }

    /// Acquires a token at `now`, waiting no longer than `timeout_ns`.
    pub fn acquire_with_timeout_inner(&mut self, now: u64, timeout_ns: u128) -> (r: TimedAcquire)
        requires
            old(self).wf(),
            old(self).ready(now) || old(self).next_fits(),
        ensures
            *final(self) == old(self).step_acquire_with_timeout(now, timeout_ns).0,
            r == old(self).step_acquire_with_timeout(now, timeout_ns).1,
            final(self).wf(),
    {
        match self.try_acquire_inner(now) {
            Ok(()) => TimedAcquire::Acquired,
            Err(next) => {
                let need_to_wait = saturating_wait(next, now);
                if need_to_wait as u128 > timeout_ns {
                    return TimedAcquire::TimedOut;
                }
                self.last = next;
                self.inc_num_tokens();
                self.dec_num_tokens();
                if need_to_wait == 0 {
                    return TimedAcquire::Acquired;
                }
                TimedAcquire::Wait(need_to_wait)
            },
        }
    }

    /// Gives back a promised token that was never used: one token more, up to
    /// `burst`.
    pub fn return_token(&mut self)
        requires
            old(self).tokens < usize::MAX,
        ensures
            *final(self) == old(self).incremented(),
    {
        let num = self.tokens + 1;
        self.set_num_tokens(num);
    }
}

impl TokenBucket {
    /// Whether a step at `now` stays within the clock's range: a token is
    /// ready, or the end of the current period is representable.
    pub fn can_step(&self, now: u64) -> (r: bool)
        ensures
            r == (self.ready(now) || self.next_fits()),
    {
        let since: u64 = match now.checked_sub(self.last) {
            Some(d) => d,
            None => 0,
        };
        self.tokens >= 1 || since >= self.period_ns || self.last <= u64::MAX - self.period_ns
    }

    /// Nanoseconds from `now` to the end of the current period, held to
    /// `u64::MAX`.
    pub fn clamped_wait_for_next(&self, now: u64) -> (r: u64)
        ensures
            r == self.clamped_next_wait(now),
    {
        let next: u128 = self.last as u128 + self.period_ns as u128;
        let now_wide: u128 = now as u128;
        if next <= now_wide {
            0
        } else if next - now_wide > u64::MAX as u128 {
            u64::MAX
        } else {
            (next - now_wide) as u64
        }
    }

    /// Tries to take a token at `now`; on `Err`, the nanoseconds until the
    /// next one.
    pub fn try_acquire_at(&mut self, now: u64) -> (r: Result<(), u64>)
        requires
            old(self).wf(),
        ensures
            *final(self) == old(self).step_try_acquire_at(now).0,
            r == old(self).step_try_acquire_at(now).1,
            final(self).wf(),
    {
        if self.can_step(now) {
            match self.try_acquire_inner(now) {
                Ok(()) => Ok(()),
                Err(next) => Err(saturating_wait(next, now)),
            }
        } else {
            Err(self.clamped_wait_for_next(now))
        }
    }

    /// Acquires a token at `now`, or promises the next one and returns the
    /// nanoseconds until it.
    pub fn acquire_at(&mut self, now: u64) -> (r: Option<u64>)
        requires
            old(self).wf(),
        ensures
            *final(self) == old(self).step_acquire_at(now).0,
            r == old(self).step_acquire_at(now).1,
            final(self).wf(),
    {
        if self.can_step(now) {
            self.acquire_inner(now)
        } else {
            Some(self.clamped_wait_for_next(now))
        }
    }

    /// Acquires a token at `now`, waiting no longer than `timeout_ns`.
    pub fn acquire_with_timeout_at(&mut self, now: u64, timeout_ns: u128) -> (r: TimedAcquire)
        requires
            old(self).wf(),
        ensures
            *final(self) == old(self).step_acquire_with_timeout_at(now, timeout_ns).0,
            r == old(self).step_acquire_with_timeout_at(now, timeout_ns).1,
            final(self).wf(),
    {
        if self.can_step(now) {
            self.acquire_with_timeout_inner(now, timeout_ns)
        } else {
            let w = self.clamped_wait_for_next(now);
            if w as u128 > timeout_ns {
                TimedAcquire::TimedOut
            } else {
                TimedAcquire::Wait(w)
            }
        }
    }
}

/// Nanoseconds from `now` until `next`, or zero when `next` has passed.
pub fn saturating_wait(next: u64, now: u64) -> (r: u64)
    ensures
        r == wait_until(next, now),
{
    next.saturating_sub(now)
}

/// Every positive rate has a positive period.
pub proof fn lemma_period_for_positive(rate: usize)
    requires
        rate > 0,
    ensures
        period_for(rate) > 0,
        TokenBucket::fresh(rate).wf(),
{
    let r = rate as u64;
    if r <= NANOS_PER_SEC {
        vstd::arithmetic::div_mod::lemma_div_is_ordered(r as int, NANOS_PER_SEC as int, r as int);
        vstd::arithmetic::div_mod::lemma_div_by_self(r as int);
    }
}

/// Whole periods fit in the time they divide: `(x / p) * p <= x`.
pub proof fn lemma_whole_periods_fit(x: nat, p: nat)
    requires
        p > 0,
    ensures
        (x / p) * p <= x,
        x >= p ==> x / p >= 1,
{
    vstd::arithmetic::div_mod::lemma_fundamental_div_mod(x as int, p as int);
    vstd::arithmetic::mul::lemma_mul_is_commutative(p as int, (x / p) as int);
    if x >= p {
        vstd::arithmetic::div_mod::lemma_div_is_ordered(p as int, x as int, p as int);
        vstd::arithmetic::div_mod::lemma_div_by_self(p as int);
    }
}

} // verus!
