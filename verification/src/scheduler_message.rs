use vstd::prelude::*;

verus! {

/// Content-addressed identifier of a compiled executable artifact.
///
/// The artifact itself is opaque to the scheduler; only its hash is ever
/// compared, and the module cache is kept in increasing hash order.
pub type ModuleHash = u64;

/// Payload of the reserved [`SchedulerMessage::Markers`] variant.  It
/// cannot be constructed outside this crate and the crate never
/// constructs one, so the variant can never be observed at run time; it
/// exists purely to force exhaustive handling as the message set
/// evolves.
pub struct Reserved {
    marker: (),
}

/// A message delivered to the scheduler through its mailbox.
///
/// `P` is the opaque task payload handed through to a worker; `M` is the
/// opaque compiled-artifact representation.  The scheduler never inspects
/// either beyond routing them.
pub enum SchedulerMessage<P, M> {
    /// Submit a non-blocking unit of work.
    SpawnAsync(P),
    /// Submit a unit of work that may block its worker for a long time.
    SpawnBlocking(P),
    /// Insert an artifact into the module cache and broadcast it to every
    /// current worker.
    CacheModule { hash: ModuleHash, module: M },
    /// Submit a unit of work bound to a specific compiled artifact.
    SpawnWithModule { module: M, task: P },
    /// Submit a unit of work bound to a compiled artifact and a
    /// preallocated linear-memory instance (carried inside the task).
    SpawnWithModuleAndMemory { module: M, task: P },
    /// A worker reports that it is about to block and cannot accept work.
    WorkerBusy { worker_id: u32 },
    /// A worker reports that it can accept work again.
    WorkerIdle { worker_id: u32 },
    /// Reserved marker variant; never constructed.
    Markers { uninhabited: Reserved },
}

/// A payload delivered to a single worker over its one-way channel.
pub enum PostMessagePayload<P, M> {
    /// Run a non-blocking unit of work.
    SpawnAsync(P),
    /// Run a unit of work that may block the worker.
    SpawnBlocking(P),
    /// Add an artifact to the worker's local module cache.
    CacheModule { hash: ModuleHash, module: M },
    /// Run a unit of work bound to a compiled artifact.
    SpawnWithModule { module: M, task: P },
    /// Run a unit of work bound to a compiled artifact and a memory.
    SpawnWithModuleAndMemory { module: M, task: P },
}

/// An error reported by the scheduler while handling one message.
///
/// Per-message errors are contained: the embedding loop logs them and
/// keeps dequeuing.  Delivery and worker-creation failures happen in the
/// runtime, outside the scheduler's own state transitions.
#[derive(Clone, Copy, Debug, PartialEq, Eq, Structural)]
pub enum SchedulerError {
    /// A status report named a worker id that is not present in the queue
    /// it would have to leave: a protocol violation by the reporter.
    UnknownWorker { worker_id: u32 },
    /// The reserved marker message was observed.  No [`Reserved`] value
    /// can be constructed, so seeing this error means an internal
    /// invariant was violated.
    ReservedMessage,
}

/// What the embedding runtime must do after the scheduler handled one
/// message.  The scheduler itself performs no delivery: it only decides.
pub enum Action<P, M> {
    /// Send `payload` to the worker with id `worker_id`.
    Deliver { worker_id: u32, payload: PostMessagePayload<P, M> },
    /// Create a new worker with id `worker_id`; replay the cached modules
    /// whose hashes are listed in `replay` (in increasing hash order) to
    /// it; deliver `payload` to it; then report the successful creation
    /// back with `Scheduler::admit_worker`.  On creation failure, report
    /// nothing: the pool is unchanged and no partially created worker is
    /// admitted.
    StartWorker { worker_id: u32, replay: Vec<ModuleHash>, payload: PostMessagePayload<P, M> },
    /// Send a cache update for `hash` to every worker listed, idle ones
    /// first, in queue order.
    Broadcast { hash: ModuleHash, worker_ids: Vec<u32> },
}

} // verus!
