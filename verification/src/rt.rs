use vstd::prelude::*;

verus! {

/// A task that the runtime runs, which its owner may cancel.
pub trait JoinHandle: Send + Sync {
    /// Stops the task; its result, if any, is dropped.
    fn cancel(&mut self);
}

} // verus!
