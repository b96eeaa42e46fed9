use vstd::prelude::*;

verus! {

/// The scheduler's bookkeeping handle for one worker execution context.
///
/// A worker is an opaque, independently scheduled unit reachable only by
/// one-way message delivery.  The scheduler tracks it by its
/// process-unique id; the outbound channel that actually reaches the
/// execution context is owned by the embedding runtime, keyed by this id.
pub struct WorkerHandle {
    id: u32,
}

impl View for WorkerHandle {
    type V = u32;

    closed spec fn view(&self) -> u32 {
        self.id
    }
}

impl WorkerHandle {
    /// Wrap a worker id in a handle.
    pub fn new(id: u32) -> (r: WorkerHandle)
        ensures
            r@ == id,
    {
        WorkerHandle { id }
    }

    /// The process-unique id of this worker.
    pub fn id(&self) -> (r: u32)
        ensures
            r == self@,
    {
        self.id
    }
}

} // verus!
