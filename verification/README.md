# async-rate-limiter

A token bucket rate limiter: `rate` operations per second on average, and at
most `burst` at once.

- `src/bucket.rs`: the bucket on plain numbers. Time is nanoseconds from the
  limiter's creation; each step (take a token, promise the next one, give one
  back) is an exact function of the bucket and the clock reading.
- `src/laws.rs`: what the bucket keeps over any calls: a success uses up one
  available token, a promise is made for the end of the current period,
  successive waiters get successive periods, and over any calls (burst
  changes among them) the tokens handed out by an instant are bounded by the
  tokens stored plus the periods passed (the rate), and by `burst` at a single
  instant.
- `src/token_bucket.rs`: `TokenBucketRateLimiter` (exported as `RateLimiter`),
  which shares one bucket between clones behind a verified lock and reads the
  clock.
- `src/clock.rs`: the std clock and duration calls the limiter makes.
- `app/`: the tokio side: `acquire` and `acquire_with_timeout` sleep for the
  wait the library returned, and give a token back when the wait is dropped.
