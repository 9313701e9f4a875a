//! A token bucket that limits how often an operation may run.
//!
//! `bucket` holds the algorithm on plain numbers: time is counted in
//! nanoseconds from a fixed origin, and every step is a function of the
//! bucket and of the clock reading handed to it. `token_bucket` shares one
//! bucket between clones behind a lock and reads the clock. `laws` states
//! what the algorithm keeps over any number of calls.
mod bucket;
mod clock;
pub mod laws;
mod rt;
mod token_bucket;

pub use bucket::{period_for, saturating_wait, TimedAcquire, TokenBucket, NANOS_PER_SEC};
pub use clock::duration_of_nanos;
pub use rt::JoinHandle;
pub use token_bucket::{BucketInvariant, TokenBucketRateLimiter};
pub use token_bucket::TokenBucketRateLimiter as RateLimiter;
