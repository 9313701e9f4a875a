use vstd::prelude::*;

use crate::bucket::{elapsed_since, period_for, wait_until, TimedAcquire, TokenBucket};

verus! {

/// Taking whole multiples of `d` off `x` takes as many off its quotient.
proof fn lemma_div_sub_multiple(x: int, k: int, d: int)
    requires
        d > 0,
        k >= 0,
        x >= k * d,
    ensures
        (x - k * d) / d == x / d - k,
{
    vstd::arithmetic::div_mod::lemma_fundamental_div_mod(x, d);
    let q = x / d;
    let r = x % d;
    vstd::arithmetic::mul::lemma_mul_is_distributive_sub_other_way(d, q, k);
    vstd::arithmetic::mul::lemma_mul_is_commutative(d, q);
    vstd::arithmetic::mul::lemma_mul_is_commutative(d, k);
    vstd::arithmetic::mul::lemma_mul_is_commutative(d, q - k);
    vstd::arithmetic::div_mod::lemma_fundamental_div_mod_converse_div(x - k * d, d, q - k, r);
}

/// A token can be had exactly where at least one is available.
pub proof fn law_ready_iff_available(s: TokenBucket, now: u64)
    requires
        s.wf(),
    ensures
        s.ready(now) <==> s.available(now) >= 1,
{
    let e = elapsed_since(s.last, now) as int;
    let p = s.period_ns as int;
    if p <= e {
        vstd::arithmetic::div_mod::lemma_div_is_ordered(p, e, p);
        vstd::arithmetic::div_mod::lemma_div_by_self(p);
    } else {
        assert(e / p == 0) by {
            vstd::arithmetic::div_mod::lemma_basic_div_specific_divisor(p);
        }
    }
}

/// Storing what was produced by `now` keeps the bucket well formed, adds
/// nothing to what is available at any later instant, leaves no whole period
/// pending at `now`, and stores the tokens held plus the periods passed, but
/// no more than `burst`. It yields a token exactly where one is ready, and
/// changes nothing where none is.
proof fn lemma_refill(s: TokenBucket, now: u64, t: u64)
    requires
        s.wf(),
        now <= t,
    ensures
        s.refill(now).wf(),
        s.refill(now).burst == s.burst,
        s.refill(now).period_ns == s.period_ns,
        s.refill(now).available(t) <= s.available(t),
        s.refill(now).periods_since_last(now) == 0,
        s.refill(now).tokens as nat == (if s.tokens + s.periods_since_last(now) >= s.burst {
            s.burst as nat
        } else {
            s.tokens as nat + s.periods_since_last(now)
        }),
        s.refill(now).tokens >= 1 <==> s.ready(now),
        !s.ready(now) ==> s.refill(now) == s,
{
    let p = s.period_ns as int;
    let e = elapsed_since(s.last, now) as int;
    let q = e / p;
    let r = s.refill(now);
    if p <= e {
        crate::bucket::lemma_whole_periods_fit(e as nat, p as nat);
        vstd::arithmetic::mul::lemma_mul_is_commutative(q, p);
        assert(r.last == s.last + q * p);
        let big_e = elapsed_since(s.last, t) as int;
        assert(elapsed_since(r.last, t) == big_e - q * p);
        lemma_div_sub_multiple(big_e, q, p);
        assert(elapsed_since(r.last, now) == e - q * p);
        lemma_div_sub_multiple(e, q, p);
        assert(r.periods_since_last(now) == 0);
    } else {
        assert(e / p == 0) by {
            vstd::arithmetic::div_mod::lemma_basic_div_specific_divisor(p);
        }
    }
}

/// An attempt to take a token succeeds exactly where one is available, and
/// each success uses up one available token for every later instant; a
/// refused attempt leaves the bucket as it was.
pub proof fn law_try_acquire_consumes_one(s: TokenBucket, now: u64, t: u64)
    requires
        s.wf(),
        now <= t,
    ensures
        s.step_try_acquire(now).1 is Ok <==> s.available(now) >= 1,
        s.step_try_acquire(now).0.wf(),
        s.step_try_acquire(now).1 is Ok ==> s.step_try_acquire(now).0.available(t) + 1 <= s.available(t),
        s.step_try_acquire(now).1 is Err ==> s.step_try_acquire(now).0 == s,
{
    law_ready_iff_available(s, now);
    lemma_refill(s, now, t);
}

/// A wait that an attempt returns is exact: where the end of the current
/// period is representable and an attempt at `now` is refused with a wait
/// `d`, the bucket is unchanged, and a later attempt at `t` is refused
/// before `now + d` and succeeds from then on.
pub proof fn law_wait_is_exact(s: TokenBucket, now: u64, t: u64)
    requires
        s.wf(),
        s.next_fits(),
        s.step_try_acquire_at(now).1 is Err,
        now <= t,
    ensures
        s.step_try_acquire_at(now).0 == s,
        s.step_try_acquire_at(now).1 matches Err(d) && (s.step_try_acquire_at(t).1 is Ok <==> now + d <= t),
{
    lemma_refill(s, now, t);
    lemma_refill(s, t, t);
    law_ready_iff_available(s, now);
}
/// A promise made with no token stored restarts accrual at `next` and keeps
/// the count at zero; promising the same instant again changes nothing.
proof fn lemma_reserved_shape(s: TokenBucket, next: u64)
    requires
        s.wf(),
        s.tokens == 0,
    ensures
        s.reserved(next) == (TokenBucket { last: next, ..s }),
        s.reserved(next).reserved(next) == s.reserved(next),
{
}

/// Where no token is available at `now`, the next one is produced at the end
/// of the current period, which lies after `now`.
proof fn lemma_refused_next(s: TokenBucket, now: u64)
    requires
        s.wf(),
        s.next_fits(),
        !s.ready(now),
    ensures
        s.step_try_acquire(now).1 == Err::<(), u64>((s.last + s.period_ns) as u64),
        now < s.last + s.period_ns,
        now + wait_until((s.last + s.period_ns) as u64, now) == s.last + s.period_ns,
{
}

/// A bucket whose accrual starts one period later has one token fewer
/// available from then on.
proof fn lemma_one_period_later(s: TokenBucket, t: u64)
    requires
        s.wf(),
        s.next_fits(),
        s.last + s.period_ns <= t,
    ensures
        (TokenBucket { last: (s.last + s.period_ns) as u64, ..s }).periods_since_last(t) + 1
            == s.periods_since_last(t),
{
    let p = s.period_ns as int;
    let e = elapsed_since(s.last, t) as int;
    vstd::arithmetic::mul::lemma_mul_basics(p);
    lemma_div_sub_multiple(e, 1, p);
}

/// An acquisition takes a token at once exactly where one is available.
/// Otherwise it promises the token produced at the end of the current period:
/// it returns the wait until that instant, leaves no token stored, restarts
/// accrual there, and uses up one available token for every instant from
/// then on. Giving the promised token back, where it is not used, restores
/// what was available from that instant on.
pub proof fn law_acquire_promises_next_period(s: TokenBucket, now: u64, t: u64)
    requires
        s.wf(),
        s.ready(now) || s.next_fits(),
        now <= t,
    ensures
        s.step_acquire(now).1 is None <==> s.available(now) >= 1,
        s.step_acquire(now).0.wf(),
        s.step_acquire(now).1 is None ==> s.step_acquire(now).0 == s.step_try_acquire(now).0,
        s.step_acquire(now).1 matches Some(w) ==> {
            &&& now + w == s.last + s.period_ns
            &&& s.step_acquire(now).0.tokens == 0
            &&& s.step_acquire(now).0.last == s.last + s.period_ns
            &&& (now + w <= t ==> s.step_acquire(now).0.available(t) + 1 == s.available(t))
            &&& (now + w <= t ==> s.step_acquire(now).0.incremented().available(t) == s.available(t))
        },
{
    law_try_acquire_consumes_one(s, now, t);
    law_ready_iff_available(s, now);
    if !s.ready(now) {
        lemma_refused_next(s, now);
        let next = (s.last + s.period_ns) as u64;
        lemma_reserved_shape(s, next);
        if next <= t {
            lemma_one_period_later(s, t);
        }
    }
}

/// An acquisition with a timeout answers `Acquired` where no wait is needed,
/// `TimedOut` exactly where the wait would exceed the timeout, and otherwise
/// the wait, which is within it. A refusal obtains nothing and promises
/// nothing: the bucket is left as it was. Otherwise the bucket changes
/// exactly as with an acquisition without a timeout.
pub proof fn law_timeout_refusal_keeps_bucket(s: TokenBucket, now: u64, timeout_ns: u128)
    requires
        s.wf(),
        s.ready(now) || s.next_fits(),
    ensures
        s.step_acquire_with_timeout(now, timeout_ns).1 is TimedOut ==> s.step_acquire_with_timeout(
            now,
            timeout_ns,
        ).0 == s,
        !(s.step_acquire_with_timeout(now, timeout_ns).1 is TimedOut) ==> s.step_acquire_with_timeout(
            now,
            timeout_ns,
        ).0 == s.step_acquire(now).0,
        s.step_acquire_with_timeout(now, timeout_ns).1 == (match s.step_acquire(now).1 {
            None => TimedAcquire::Acquired,
            Some(w) => if w > timeout_ns {
                TimedAcquire::TimedOut
            } else if w == 0 {
                TimedAcquire::Acquired
            } else {
                TimedAcquire::Wait(w)
            },
        }),
{
    if !s.ready(now) {
        lemma_refused_next(s, now);
        lemma_reserved_shape(s, (s.last + s.period_ns) as u64);
    }
}

/// A call on the bucket.
pub enum Call {
    /// `try_acquire_inner`.
    TryAcquire,
    /// `acquire_inner`.
    Acquire,
    /// `acquire_with_timeout_inner` with this timeout in nanoseconds.
    AcquireWithTimeout(u128),
    /// `set_burst` with this burst.
    SetBurst(usize),
}

/// One call at `now`: the bucket after it, and the instant from which the
/// caller holds a token, where it gets one.
pub open spec fn step_call(s: TokenBucket, now: u64, c: Call) -> (TokenBucket, Option<u64>) {
    match c {
        Call::TryAcquire => {
            let (s1, r) = s.step_try_acquire(now);
            (s1, if r is Ok { Some(now) } else { None })
        },
        Call::Acquire => {
            let (s1, r) = s.step_acquire(now);
            (s1, match r {
                None => Some(now),
                Some(w) => Some((now + w) as u64),
            })
        },
        Call::AcquireWithTimeout(timeout_ns) => {
            let (s1, r) = s.step_acquire_with_timeout(now, timeout_ns);
            (s1, match r {
                TimedAcquire::Acquired => Some(now),
                TimedAcquire::TimedOut => None,
                TimedAcquire::Wait(w) => Some((now + w) as u64),
            })
        },
        Call::SetBurst(burst) => (s.with_burst(burst), None),
    }
}

/// The call can be made on `s` at `now`: a burst is positive, and an
/// acquisition finds a token ready or a representable end of the period.
pub open spec fn call_allowed(s: TokenBucket, now: u64, c: Call) -> bool {
    match c {
        Call::SetBurst(burst) => burst > 0,
        _ => s.ready(now) || s.next_fits(),
    }
}

/// One where the call's token is held by `horizon`, else zero.
pub open spec fn held_by(grant: Option<u64>, horizon: u64) -> nat {
    match grant {
        Some(at) => if at <= horizon {
            1
        } else {
            0
        },
        None => 0,
    }
}

/// The bucket after the calls, each at its instant, in order.
pub open spec fn run_calls(s: TokenBucket, calls: Seq<(u64, Call)>) -> TokenBucket
    decreases calls.len(),
{
    if calls.len() == 0 {
        s
    } else {
        run_calls(step_call(s, calls[0].0, calls[0].1).0, calls.drop_first())
    }
}

/// For each call, the instant from which it holds a token, where it gets one.
pub open spec fn grant_times(s: TokenBucket, calls: Seq<(u64, Call)>) -> Seq<Option<u64>>
    decreases calls.len(),
{
    if calls.len() == 0 {
        Seq::empty()
    } else {
        let (s1, g) = step_call(s, calls[0].0, calls[0].1);
        seq![g] + grant_times(s1, calls.drop_first())
    }
}

/// How many of the calls hold a token by `horizon`.
pub open spec fn grants_by(s: TokenBucket, calls: Seq<(u64, Call)>, horizon: u64) -> nat
    decreases calls.len(),
{
    if calls.len() == 0 {
        0
    } else {
        let (s1, g) = step_call(s, calls[0].0, calls[0].1);
        held_by(g, horizon) + grants_by(s1, calls.drop_first(), horizon)
    }
}

/// Each call in turn is one that the bucket can take.
pub open spec fn calls_allowed(s: TokenBucket, calls: Seq<(u64, Call)>) -> bool
    decreases calls.len(),
{
    if calls.len() == 0 {
        true
    } else {
        &&& call_allowed(s, calls[0].0, calls[0].1)
        &&& calls_allowed(step_call(s, calls[0].0, calls[0].1).0, calls.drop_first())
    }
}

/// Where no token is ready, an acquisition of either kind either promises
/// the end of the current period, leaving no token stored and accrual
/// restarting there, or (with a timeout too short) obtains nothing and leaves
/// the bucket as it was. One without a timeout always promises.
proof fn lemma_refused_acquisition(s: TokenBucket, now: u64, c: Call)
    requires
        s.wf(),
        s.next_fits(),
        !s.ready(now),
        !(c is TryAcquire),
        !(c is SetBurst),
    ensures
        (step_call(s, now, c).0 == (TokenBucket { last: (s.last + s.period_ns) as u64, ..s })
            && step_call(s, now, c).1 == Some((s.last + s.period_ns) as u64)) || (step_call(
            s,
            now,
            c,
        ).0 == s && step_call(s, now, c).1 is None),
        c is Acquire ==> step_call(s, now, c).0 == (TokenBucket {
            last: (s.last + s.period_ns) as u64,
            ..s
        }),
        now < s.last + s.period_ns,
{
    lemma_refused_next(s, now);
    lemma_reserved_shape(s, (s.last + s.period_ns) as u64);
    match c {
        Call::AcquireWithTimeout(timeout_ns) => {
            law_timeout_refusal_keeps_bucket(s, now, timeout_ns);
        },
        _ => {},
    }
}

/// One call at `now <= horizon` keeps the bucket well formed and hands out no
/// more than it uses up of what is available at `horizon`.
proof fn lemma_step_call_bounded(s: TokenBucket, now: u64, c: Call, horizon: u64)
    requires
        s.wf(),
        call_allowed(s, now, c),
        now <= horizon,
    ensures
        step_call(s, now, c).0.wf(),
        held_by(step_call(s, now, c).1, horizon) + step_call(s, now, c).0.available(horizon)
            <= s.available(horizon),
{
    if c is SetBurst {
        return;
    }
    law_try_acquire_consumes_one(s, now, horizon);
    law_acquire_promises_next_period(s, now, horizon);
    match c {
        Call::AcquireWithTimeout(timeout_ns) => {
            law_timeout_refusal_keeps_bucket(s, now, timeout_ns);
        },
        _ => {},
    }
    if !s.ready(now) && !(c is TryAcquire) {
        lemma_refused_acquisition(s, now, c);
        let s1 = step_call(s, now, c).0;
        if horizon < s.last + s.period_ns && s1 != s {
            assert(elapsed_since(s1.last, horizon) == 0);
            assert(s1.available(horizon) == 0);
        }
    }
}

/// The rate limit: over any calls made no later than `horizon`, the burst
/// changed between them or not, those that hold a token by `horizon` number
/// at most the tokens stored at the start plus the whole periods from `last`
/// to `horizon`, that is, one per `period_ns` nanoseconds.
pub proof fn law_rate_limit(s: TokenBucket, calls: Seq<(u64, Call)>, horizon: u64)
    requires
        s.wf(),
        calls_allowed(s, calls),
        forall|i: int| 0 <= i < calls.len() ==> #[trigger] calls[i].0 <= horizon,
    ensures
        grants_by(s, calls, horizon) + run_calls(s, calls).available(horizon) <= s.available(horizon),
        grants_by(s, calls, horizon) <= s.tokens + elapsed_since(s.last, horizon) / (s.period_ns as nat),
    decreases calls.len(),
{
    if calls.len() > 0 {
        let (now, c) = calls[0];
        assert(calls[0].0 <= horizon);
        lemma_step_call_bounded(s, now, c, horizon);
        let s1 = step_call(s, now, c).0;
        let rest = calls.drop_first();
        assert forall|i: int| 0 <= i < rest.len() implies #[trigger] rest[i].0 <= horizon by {
            assert(rest[i] == calls[i + 1]);
        }
        law_rate_limit(s1, rest, horizon);
    }
}

/// The rate limit from creation: a limiter made for `rate` operations per
/// second hands out, by `horizon` nanoseconds after its creation, at most one
/// token plus one per period of `10^9 / rate` nanoseconds.
pub proof fn law_rate_from_new(rate: usize, calls: Seq<(u64, Call)>, horizon: u64)
    requires
        rate > 0,
        calls_allowed(TokenBucket::fresh(rate), calls),
        forall|i: int| 0 <= i < calls.len() ==> #[trigger] calls[i].0 <= horizon,
    ensures
        grants_by(TokenBucket::fresh(rate), calls, horizon) <= 1 + (horizon as nat) / (period_for(rate) as nat),
{
    crate::bucket::lemma_period_for_positive(rate);
    law_rate_limit(TokenBucket::fresh(rate), calls, horizon);
}

/// The tokens that calls at the single instant `now` can have, where no burst
/// above `bound` is set: those stored and those produced since `last`, but
/// no more than `bound` in all.
pub open spec fn burst_available(s: TokenBucket, now: u64, bound: nat) -> nat {
    let all = s.tokens as nat + s.periods_since_last(now);
    if all <= bound {
        all
    } else {
        bound
    }
}

/// One call at `now` hands out, at `now`, no more than it uses up of what a
/// burst of at most `bound` at `now` can have.
proof fn lemma_step_call_burst(s: TokenBucket, now: u64, c: Call, bound: nat)
    requires
        s.wf(),
        call_allowed(s, now, c),
        s.burst <= bound,
        c matches Call::SetBurst(b) ==> b <= bound,
    ensures
        step_call(s, now, c).0.wf(),
        step_call(s, now, c).0.burst <= bound,
        held_by(step_call(s, now, c).1, now) + burst_available(step_call(s, now, c).0, now, bound)
            <= burst_available(s, now, bound),
{
    if c is SetBurst {
        return;
    }
    lemma_refill(s, now, now);
    law_try_acquire_consumes_one(s, now, now);
    law_acquire_promises_next_period(s, now, now);
    match c {
        Call::AcquireWithTimeout(timeout_ns) => {
            law_timeout_refusal_keeps_bucket(s, now, timeout_ns);
        },
        _ => {},
    }
    let s1 = step_call(s, now, c).0;
    if s.ready(now) {
        assert(s1 == s.refill(now).taken());
    } else if !(c is TryAcquire) {
        lemma_refused_acquisition(s, now, c);
        if s1 != s {
            assert(elapsed_since(s1.last, now) == 0);
        }
    }
}

/// The burst limit: calls that all come at one instant, where no burst above
/// `bound` is set before or between them, get a token at that instant at
/// most `bound` times; with the burst left as it is, at most `burst` times.
pub proof fn law_burst_limit(s: TokenBucket, calls: Seq<(u64, Call)>, now: u64, bound: nat)
    requires
        s.wf(),
        calls_allowed(s, calls),
        s.burst <= bound,
        forall|i: int| 0 <= i < calls.len() ==> #[trigger] calls[i].0 == now,
        forall|i: int|
            0 <= i < calls.len() ==> (#[trigger] calls[i].1 matches Call::SetBurst(b) ==> b <= bound),
    ensures
        grants_by(s, calls, now) + burst_available(run_calls(s, calls), now, bound) <= burst_available(
            s,
            now,
            bound,
        ),
        grants_by(s, calls, now) <= bound,
    decreases calls.len(),
{
    if calls.len() > 0 {
        let (t0, c) = calls[0];
        assert(calls[0].0 == now);
        assert(calls[0].1 matches Call::SetBurst(b) ==> b <= bound);
        lemma_step_call_burst(s, now, c, bound);
        let s1 = step_call(s, now, c).0;
        let rest = calls.drop_first();
        assert forall|i: int| 0 <= i < rest.len() implies #[trigger] rest[i].0 == now by {
            assert(rest[i] == calls[i + 1]);
        }
        assert forall|i: int| 0 <= i < rest.len() implies (#[trigger] rest[i].1 matches Call::SetBurst(
            b,
        ) ==> b <= bound) by {
            assert(rest[i] == calls[i + 1]);
        }
        law_burst_limit(s1, rest, now, bound);
    }
}

/// Every call keeps the stored tokens within the burst, and so does giving a
/// token back.
pub proof fn law_tokens_within_burst(s: TokenBucket, now: u64, c: Call)
    requires
        s.wf(),
        call_allowed(s, now, c),
    ensures
        step_call(s, now, c).0.tokens <= step_call(s, now, c).0.burst,
        s.incremented().tokens <= s.burst,
{
    lemma_step_call_bounded(s, now, c, now);
}

/// Successive waiters get successive periods: where no token is stored,
/// acquisitions that all start before the end of the current period are
/// promised the ends of the following periods in turn, one period apart, and
/// accrual then restarts after the last of them.
pub proof fn law_successive_waiters(s: TokenBucket, calls: Seq<(u64, Call)>)
    requires
        s.wf(),
        s.tokens == 0,
        s.last + calls.len() * s.period_ns <= u64::MAX,
        forall|i: int| 0 <= i < calls.len() ==> #[trigger] calls[i].1 == Call::Acquire,
        forall|i: int| 0 <= i < calls.len() ==> #[trigger] calls[i].0 < s.last + s.period_ns,
    ensures
        calls_allowed(s, calls),
        run_calls(s, calls) == (TokenBucket {
            last: (s.last + calls.len() * s.period_ns) as u64,
            ..s
        }),
        grant_times(s, calls).len() == calls.len(),
        forall|i: int|
            0 <= i < calls.len() ==> #[trigger] grant_times(s, calls)[i] == Some(
                (s.last + (i + 1) * s.period_ns) as u64,
            ),
    decreases calls.len(),
{
    let p = s.period_ns as int;
    if calls.len() == 0 {
        assert(s == (TokenBucket { last: (s.last + 0 * p) as u64, ..s }));
    } else {
        let k = calls.len() as int;
        let (t0, c) = calls[0];
        assert(calls[0].1 == Call::Acquire);
        assert(calls[0].0 < s.last + p);
        assert(k * p >= p) by (nonlinear_arith)
            requires
                k >= 1,
                p > 0,
        ;
        assert(s.next_fits());
        assert(!s.ready(t0));
        lemma_refused_acquisition(s, t0, c);
        let s1 = step_call(s, t0, c).0;
        let rest = calls.drop_first();
        assert(s1.last + rest.len() * p == s.last + k * p) by (nonlinear_arith)
            requires
                s1.last == s.last + p,
                rest.len() == k - 1,
        ;
        assert forall|i: int| 0 <= i < rest.len() implies #[trigger] rest[i].1 == Call::Acquire by {
            assert(rest[i] == calls[i + 1]);
        }
        assert forall|i: int| 0 <= i < rest.len() implies #[trigger] rest[i].0 < s1.last + p by {
            assert(rest[i] == calls[i + 1]);
        }
        law_successive_waiters(s1, rest);
        let g = grant_times(s, calls);
        assert(g == seq![step_call(s, t0, c).1] + grant_times(s1, rest));
        lemma_refused_next(s, t0);
        law_acquire_promises_next_period(s, t0, t0);
        assert(step_call(s, t0, c).1 == Some((s.last + p) as u64));
        assert forall|i: int| 0 <= i < calls.len() implies #[trigger] g[i] == Some(
            (s.last + (i + 1) * p) as u64,
        ) by {
            if i == 0 {
                assert(g[0] == step_call(s, t0, c).1);
                assert((i + 1) * p == p) by (nonlinear_arith)
                    requires
                        i == 0,
                ;
            } else {
                assert(g[i] == grant_times(s1, rest)[i - 1]);
                assert(grant_times(s1, rest)[i - 1] == Some(
                    (s1.last + ((i - 1) + 1) * s1.period_ns) as u64,
                ));
                assert(s1.last + i * p == s.last + (i + 1) * p) by (nonlinear_arith)
                    requires
                        s1.last == s.last + p,
                ;
            }
        }
    }
}

/// An acquisition one period or more after `last` needs no wait: trying,
/// acquiring and acquiring with any timeout all get a token at once.
pub proof fn law_due_acquisition_is_immediate(s: TokenBucket, now: u64, timeout_ns: u128)
    requires
        s.wf(),
        s.last + s.period_ns <= now,
    ensures
        s.step_try_acquire_at(now).1 is Ok,
        s.step_acquire_at(now).1 is None,
        s.step_acquire_with_timeout_at(now, timeout_ns).1 is Acquired,
{
    lemma_refill(s, now, now);
    law_acquire_promises_next_period(s, now, now);
    law_timeout_refusal_keeps_bucket(s, now, timeout_ns);
    law_ready_iff_available(s, now);
}

/// Two acquisitions with a timeout at one instant that both have to wait
/// are promised instants one period apart: the first promise is recorded,
/// so the second caller waits one period longer.
pub proof fn law_timed_waiters_one_period_apart(
    s: TokenBucket,
    now: u64,
    timeout1: u128,
    timeout2: u128,
)
    requires
        s.wf(),
        s.step_acquire_with_timeout_at(now, timeout1).1 is Wait,
        s.step_acquire_with_timeout_at(now, timeout1).0.next_fits(),
        s.step_acquire_with_timeout_at(now, timeout1).0.step_acquire_with_timeout_at(
            now,
            timeout2,
        ).1 is Wait,
    ensures
        s.step_acquire_with_timeout_at(now, timeout1).1 matches TimedAcquire::Wait(w1)
            && s.step_acquire_with_timeout_at(now, timeout1).0.step_acquire_with_timeout_at(
            now,
            timeout2,
        ).1 matches TimedAcquire::Wait(w2) && w2 == w1 + s.period_ns,
{
    let s1 = s.step_acquire_with_timeout_at(now, timeout1).0;
    law_ready_iff_available(s, now);
    lemma_refill(s, now, now);
    if !(s.ready(now) || s.next_fits()) {
        assert(s1 == s);
        assert(false);
    }
    law_timeout_refusal_keeps_bucket(s, now, timeout1);
    law_acquire_promises_next_period(s, now, now);
    lemma_refused_next(s, now);
    lemma_reserved_shape(s, (s.last + s.period_ns) as u64);
    assert(s1 == (TokenBucket { last: (s.last + s.period_ns) as u64, ..s }));
    assert(!s1.ready(now));
    lemma_refused_next(s1, now);
    law_timeout_refusal_keeps_bucket(s1, now, timeout2);
}

/// `k` attempts to take a token, all at the instant `now`.
pub open spec fn tries_at(now: u64, k: nat) -> Seq<(u64, Call)> {
    Seq::new(k, |i: int| (now, Call::TryAcquire))
}

/// A burst is granted in full: at an instant where the stored tokens and the
/// periods passed come to at least `k`, and `k` is within the burst, `k`
/// attempts at that instant all get a token.
pub proof fn law_burst_granted(s: TokenBucket, now: u64, k: nat)
    requires
        s.wf(),
        k <= burst_available(s, now, s.burst as nat),
    ensures
        calls_allowed(s, tries_at(now, k)),
        grants_by(s, tries_at(now, k), now) == k,
    decreases k,
{
    if k > 0 {
        let calls = tries_at(now, k);
        law_ready_iff_available(s, now);
        lemma_refill(s, now, now);
        law_try_acquire_consumes_one(s, now, now);
        assert(s.ready(now));
        let s1 = s.step_try_acquire(now).0;
        assert(s1 == s.refill(now).taken());
        assert(s1.periods_since_last(now) == 0);
        assert(burst_available(s1, now, s1.burst as nat) + 1 == burst_available(s, now, s.burst as nat));
        assert(calls[0] == (now, Call::TryAcquire));
        assert(calls.drop_first() =~= tries_at(now, (k - 1) as nat));
        law_burst_granted(s1, now, (k - 1) as nat);
    }
}

/// Setting the burst sets the largest burst: where at least `burst` tokens
/// are stored or produced by `now`, `burst` attempts at `now` after the
/// change all get a token, and no more than `burst` calls at `now` do.
pub proof fn law_set_burst_sets_largest_burst(
    s: TokenBucket,
    burst: usize,
    now: u64,
    calls: Seq<(u64, Call)>,
)
    requires
        s.wf(),
        burst > 0,
        s.with_burst(burst).tokens + s.periods_since_last(now) >= burst,
        calls_allowed(s.with_burst(burst), calls),
        forall|i: int| 0 <= i < calls.len() ==> #[trigger] calls[i].0 == now,
        forall|i: int|
            0 <= i < calls.len() ==> (#[trigger] calls[i].1 matches Call::SetBurst(b) ==> b <= burst),
    ensures
        s.with_burst(burst).burst == burst,
        grants_by(s.with_burst(burst), tries_at(now, burst as nat), now) == burst,
        grants_by(s.with_burst(burst), calls, now) <= burst,
{
    let s1 = s.with_burst(burst);
    assert(s1.periods_since_last(now) == s.periods_since_last(now));
    law_burst_granted(s1, now, burst as nat);
    law_burst_limit(s1, calls, now, burst as nat);
}

/// A new limiter's burst is its rate: once enough time has passed for the
/// stored token and the periods produced to reach `rate`, `rate` attempts at
/// one instant all get a token.
pub proof fn law_new_burst_is_rate(rate: usize, now: u64)
    requires
        rate > 0,
        1 + TokenBucket::fresh(rate).periods_since_last(now) >= rate,
    ensures
        TokenBucket::fresh(rate).burst == rate,
        grants_by(TokenBucket::fresh(rate), tries_at(now, rate as nat), now) == rate,
{
    crate::bucket::lemma_period_for_positive(rate);
    law_burst_granted(TokenBucket::fresh(rate), now, rate as nat);
}

} // verus!
