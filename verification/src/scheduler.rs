use vstd::prelude::*;

use crate::module_cache::cache_contains_hash;
use crate::module_cache::cache_insert;
use crate::module_cache::cache_key_list;
use crate::module_cache::cache_keys;
use crate::module_cache::cache_lookup;
use crate::module_cache::cache_sorted;
use crate::module_cache::insert_module;
use crate::scheduler_message::Action;
use crate::scheduler_message::ModuleHash;
use crate::scheduler_message::PostMessagePayload;
use crate::scheduler_message::SchedulerError;
use crate::scheduler_message::SchedulerMessage;
use crate::worker_handle::WorkerHandle;

verus! {

/// The mathematical model of a scheduler: the fixed capacity, the two
/// FIFO queues of worker ids that partition the pool, the next worker id
/// to be assigned, and the module cache as a hash-ordered sequence of
/// entries.
#[verifier::ext_equal]
pub struct SchedulerView<M> {
    pub capacity: int,
    pub idle: Seq<u32>,
    pub busy: Seq<u32>,
    pub next_id: u32,
    pub cache: Seq<(ModuleHash, M)>,
}

/// The worker ids of both queues, idle first: the whole pool.
pub open spec fn pool<M>(s: SchedulerView<M>) -> Seq<u32> {
    s.idle + s.busy
}

/// Well-formedness of a scheduler state.  This holds of every reachable
/// state:
/// - the pool never exceeds the fixed capacity;
/// - every worker id appears in exactly one of the two queues (the pool
///   has no duplicate ids);
/// - ids are assigned from 1 upward by a never-reused counter, so every
///   id in the pool is positive and below `next_id`, and `next_id` counts
///   exactly the workers created so far;
/// - the module cache is in strictly increasing hash order.
pub open spec fn scheduler_wf<M>(s: SchedulerView<M>) -> bool {
    &&& 1 <= s.capacity <= 0xFFFF_FFFEu32
    &&& s.idle.len() + s.busy.len() <= s.capacity
    &&& s.next_id == 1 + s.idle.len() + s.busy.len()
    &&& pool(s).no_duplicates()
    &&& forall|i: int| 0 <= i < pool(s).len() ==> 1 <= #[trigger] pool(s)[i] < s.next_id
    &&& cache_sorted(s.cache)
}

/// Which of the three routing branches a task submission takes.
pub enum RouteDecision {
    /// An idle worker is available: the task goes to the front idle
    /// worker, which is rotated to the back of the idle queue.
    UseIdle,
    /// No idle worker, but the pool is below capacity: a new worker is
    /// created for the task.
    UseNew,
    /// The pool is saturated and nobody is idle: the task is delivered to
    /// the front busy worker anyway (overload fallback), which is rotated
    /// to the back of the busy queue.
    UseBusy,
}

/// The routing branch taken from state `s`, in policy order: prefer an
/// idle worker, then growth, then the overload fallback.
pub open spec fn route_decision<M>(s: SchedulerView<M>) -> RouteDecision {
    if s.idle.len() > 0 {
        RouteDecision::UseIdle
    } else if s.idle.len() + s.busy.len() < s.capacity {
        RouteDecision::UseNew
    } else {
        RouteDecision::UseBusy
    }
}

/// The id of the worker that receives the task routed from state `s`.
pub open spec fn route_target<M>(s: SchedulerView<M>) -> u32 {
    match route_decision(s) {
        RouteDecision::UseIdle => s.idle[0],
        RouteDecision::UseNew => s.next_id,
        RouteDecision::UseBusy => s.busy[0],
    }
}

/// A FIFO rotation: the front element moves to the back.
pub open spec fn rotate(q: Seq<u32>) -> Seq<u32> {
    q.drop_first().push(q[0])
}

/// The state after routing one task from state `s`.  Dispatching a task
/// does not reclassify a worker — the chosen queue only rotates; a newly
/// created worker enters the pool separately, once the runtime reports
/// its creation (see [`Scheduler::admit_worker`]).
pub open spec fn route_next<M>(s: SchedulerView<M>) -> SchedulerView<M> {
    match route_decision(s) {
        RouteDecision::UseIdle => SchedulerView { idle: rotate(s.idle), ..s },
        RouteDecision::UseNew => s,
        RouteDecision::UseBusy => SchedulerView { busy: rotate(s.busy), ..s },
    }
}

/// The state after a newly created worker is admitted: it joins the back
/// of the idle queue and the id counter moves on.
pub open spec fn admit_next<M>(s: SchedulerView<M>) -> SchedulerView<M> {
    SchedulerView { idle: s.idle.push(s.next_id), next_id: (s.next_id + 1) as u32, ..s }
}

/// The state after caching an artifact.
pub open spec fn cache_next<M>(s: SchedulerView<M>, hash: ModuleHash, module: M) -> SchedulerView<
    M,
> {
    SchedulerView { cache: cache_insert(s.cache, hash, module), ..s }
}

/// The payload that a task-submission message hands to its worker.
pub open spec fn task_payload<P, M>(msg: SchedulerMessage<P, M>) -> PostMessagePayload<P, M> {
    match msg {
        SchedulerMessage::SpawnAsync(t) => PostMessagePayload::SpawnAsync(t),
        SchedulerMessage::SpawnBlocking(t) => PostMessagePayload::SpawnBlocking(t),
        SchedulerMessage::SpawnWithModule { module, task } => PostMessagePayload::SpawnWithModule {
            module,
            task,
        },
        SchedulerMessage::SpawnWithModuleAndMemory {
            module,
            task,
        } => PostMessagePayload::SpawnWithModuleAndMemory { module, task },
        SchedulerMessage::CacheModule { hash, module } => PostMessagePayload::CacheModule {
            hash,
            module,
        },
        _ => PostMessagePayload::SpawnAsync(vstd::pervasive::arbitrary()),
    }
}

/// What the action returned for a routed task must be: the payload goes,
/// unchanged, to the worker picked by the routing policy; a new worker is
/// announced with the next never-used id and the full current module
/// cache, in hash order.
pub open spec fn route_action<P, M>(
    pre: SchedulerView<M>,
    payload: PostMessagePayload<P, M>,
    a: Action<P, M>,
) -> bool {
    match route_decision(pre) {
        RouteDecision::UseIdle => a matches Action::Deliver { worker_id, payload: p }
            && worker_id == pre.idle[0] && p == payload,
        RouteDecision::UseNew => a matches Action::StartWorker { worker_id, replay, payload: p }
            && worker_id == pre.next_id && replay@ == cache_keys(pre.cache) && p == payload,
        RouteDecision::UseBusy => a matches Action::Deliver { worker_id, payload: p }
            && worker_id == pre.busy[0] && p == payload,
    }
}

/// The full contract of [`Scheduler::execute`]: for every message kind,
/// the state transition and the result it must produce.
pub open spec fn execute_spec<P, M>(
    pre: SchedulerView<M>,
    msg: SchedulerMessage<P, M>,
    post: SchedulerView<M>,
    r: Result<Option<Action<P, M>>, SchedulerError>,
) -> bool {
    match msg {
        SchedulerMessage::SpawnAsync(_)
        | SchedulerMessage::SpawnBlocking(_)
        | SchedulerMessage::SpawnWithModule { .. }
        | SchedulerMessage::SpawnWithModuleAndMemory { .. } => {
            &&& post == route_next(pre)
            &&& (r matches Ok(o) && o matches Some(act) && route_action(
                pre,
                task_payload(msg),
                act,
            ))
        },
        SchedulerMessage::CacheModule { hash, module } => {
            &&& post == cache_next(pre, hash, module)
            &&& (r matches Ok(o) && o matches Some(act) && act matches Action::Broadcast {
                hash: h,
                worker_ids,
            } && h == hash && worker_ids@ == pre.idle + pre.busy)
        },
        SchedulerMessage::WorkerBusy { worker_id } => {
            let i = find_worker(pre.idle, worker_id);
            if i >= 0 {
                &&& post == (SchedulerView {
                    idle: pre.idle.remove(i),
                    busy: pre.busy.push(worker_id),
                    ..pre
                })
                &&& r == Ok::<Option<Action<P, M>>, SchedulerError>(None)
            } else {
                &&& post == pre
                &&& r == Err::<Option<Action<P, M>>, SchedulerError>(
                    SchedulerError::UnknownWorker { worker_id },
                )
            }
        },
        SchedulerMessage::WorkerIdle { worker_id } => {
            let i = find_worker(pre.busy, worker_id);
            if i >= 0 {
                &&& post == (SchedulerView {
                    idle: pre.idle.push(worker_id),
                    busy: pre.busy.remove(i),
                    ..pre
                })
                &&& r == Ok::<Option<Action<P, M>>, SchedulerError>(None)
            } else {
                &&& post == pre
                &&& r == Err::<Option<Action<P, M>>, SchedulerError>(
                    SchedulerError::UnknownWorker { worker_id },
                )
            }
        },
        SchedulerMessage::Markers { .. } => {
            &&& post == pre
            &&& r == Err::<Option<Action<P, M>>, SchedulerError>(SchedulerError::ReservedMessage)
        },
    }
}

/// The state after `n` consecutive task routings.
pub open spec fn route_iter<M>(s: SchedulerView<M>, n: nat) -> SchedulerView<M>
    decreases n,
{
    if n == 0 {
        s
    } else {
        route_iter(route_next(s), (n - 1) as nat)
    }
}

/// The ids that receive the tasks of `n` consecutive task routings, in
/// order of submission.
pub open spec fn route_targets<M>(s: SchedulerView<M>, n: nat) -> Seq<u32>
    decreases n,
{
    if n == 0 {
        Seq::empty()
    } else {
        seq![route_target(s)] + route_targets(route_next(s), (n - 1) as nat)
    }
}

/// Law (round-robin rotation): with at least `n` workers idle, `n`
/// consecutive task submissions with no intervening status report reach
/// the first `n` idle workers, one task each and none twice, in the FIFO
/// order the idle queue had at submission time.  Afterwards the idle
/// queue is the same queue rotated `n` places and the busy queue is
/// untouched — so `n == len(idle)` returns the idle queue to its
/// original order, and no worker starves.
pub proof fn lemma_round_robin<M>(s: SchedulerView<M>, n: nat)
    requires
        scheduler_wf(s),
        n <= s.idle.len(),
    ensures
        route_targets(s, n).len() == n,
        forall|k: int| 0 <= k < n ==> route_targets(s, n)[k] == s.idle[k],
        route_targets(s, n).no_duplicates(),
        route_iter(s, n) == (SchedulerView {
            idle: s.idle.skip(n as int) + s.idle.take(n as int),
            ..s
        }),
        scheduler_wf(route_iter(s, n)),
    decreases n,
{
    let len = s.idle.len() as int;
    if n == 0 {
        assert(s.idle.skip(0) + s.idle.take(0) =~= s.idle);
        assert(route_iter(s, n) =~= (SchedulerView {
            idle: s.idle.skip(n as int) + s.idle.take(n as int),
            ..s
        }));
    } else {
        let s1 = route_next(s);
        lemma_wf_rotate_idle(s);
        assert(s1 == SchedulerView { idle: rotate(s.idle), ..s });
        assert forall|j: int| 0 <= j < len implies rotate(s.idle)[j] == (if j < len - 1 {
            s.idle[j + 1]
        } else {
            s.idle[0]
        }) by {}
        lemma_round_robin(s1, (n - 1) as nat);
        assert forall|k: int| 0 <= k < n implies route_targets(s, n)[k] == s.idle[k] by {
            if k > 0 {
                assert(route_targets(s, n)[k] == route_targets(s1, (n - 1) as nat)[k - 1]);
                assert(route_targets(s1, (n - 1) as nat)[k - 1] == s1.idle[k - 1]);
            }
        }
        assert forall|k1: int, k2: int|
            0 <= k1 < n && 0 <= k2 < n && k1 != k2 implies route_targets(s, n)[k1]
            != route_targets(s, n)[k2] by {
            assert(pool(s)[k1] == s.idle[k1]);
            assert(pool(s)[k2] == s.idle[k2]);
        }
        let t = route_iter(s, n);
        assert(t == route_iter(s1, (n - 1) as nat));
        let m: int = n - 1;
        assert(t.idle == rotate(s.idle).skip(m) + rotate(s.idle).take(m));
        assert forall|j: int| 0 <= j < len implies t.idle[j] == (s.idle.skip(n as int)
            + s.idle.take(n as int))[j] by {
            if j < len - m {
                assert(t.idle[j] == rotate(s.idle)[j + m]);
            } else {
                assert(t.idle[j] == rotate(s.idle)[j - (len - m)]);
            }
        }
        assert(t.idle =~= s.idle.skip(n as int) + s.idle.take(n as int));
        assert(t =~= (SchedulerView { idle: s.idle.skip(n as int) + s.idle.take(n as int), ..s }));
    }
}

/// Law (fallback under saturation): when no worker is idle and the pool
/// is at capacity — in particular with capacity 1 and the only worker
/// busy — a submitted task is neither rejected nor left pending: it is
/// routed to the front busy worker, which then rotates to the back of
/// the busy queue.  The busy queue is provably non-empty here because
/// the capacity is positive.
pub proof fn lemma_saturated_fallback<M>(s: SchedulerView<M>)
    requires
        scheduler_wf(s),
        s.idle.len() == 0,
        s.idle.len() + s.busy.len() >= s.capacity,
    ensures
        s.busy.len() >= 1,
        route_decision(s) == RouteDecision::UseBusy,
        route_target(s) == s.busy[0],
        route_next(s) == (SchedulerView { busy: rotate(s.busy), ..s }),
{
}

/// Law (complete cache handoff): a worker announced while a task is
/// being handled is announced together with the entire module cache
/// accumulated up to that point, in hash order, with its first task —
/// the runtime replays those entries to it before delivering the task,
/// so the worker carries a full cache snapshot before executing
/// anything.
pub proof fn lemma_new_worker_carries_full_cache<P, M>(
    pre: SchedulerView<M>,
    payload: PostMessagePayload<P, M>,
    a: Action<P, M>,
)
    requires
        route_decision(pre) == RouteDecision::UseNew,
        route_action(pre, payload, a),
    ensures
        a matches Action::StartWorker { worker_id, replay, payload: p } && worker_id
            == pre.next_id && replay@ == cache_keys(pre.cache) && p == payload,
{
}

/// Law (cache monotonicity across the actor): no message handling
/// removes a module cache entry — every hash the cache contains before
/// a step of [`Scheduler::execute`] it still contains after it, so once
/// a hash enters the cache it stays there forever.  (Admitting a worker
/// does not touch the cache at all.)
pub proof fn lemma_cache_monotonic_step<P, M>(
    pre: SchedulerView<M>,
    msg: SchedulerMessage<P, M>,
    post: SchedulerView<M>,
    r: Result<Option<Action<P, M>>, SchedulerError>,
)
    requires
        scheduler_wf(pre),
        execute_spec(pre, msg, post, r),
    ensures
        forall|h: ModuleHash|
            cache_contains_hash(pre.cache, h) ==> cache_contains_hash(post.cache, h),
{
    match msg {
        SchedulerMessage::CacheModule { hash, module } => {
            crate::module_cache::lemma_cache_insert_monotonic(pre.cache, hash, module);
        },
        _ => {
            assert(post.cache == pre.cache);
        },
    }
}

/// The mutable state of a scheduler, held behind [`Scheduler`] so that
/// transitions can be computed on an owned value and written back in one
/// step.
struct SchedulerState<M> {
    capacity: usize,
    idle: Vec<WorkerHandle>,
    busy: Vec<WorkerHandle>,
    next_id: u32,
    cached_modules: Vec<(ModuleHash, M)>,
}

/// The ids of a queue of worker handles.
pub open spec fn ids(q: Seq<WorkerHandle>) -> Seq<u32> {
    q.map_values(|w: WorkerHandle| w@)
}

impl<M> SchedulerState<M> {
    spec fn view_spec(&self) -> SchedulerView<M> {
        SchedulerView {
            capacity: self.capacity as int,
            idle: ids(self.idle@),
            busy: ids(self.busy@),
            next_id: self.next_id,
            cache: self.cached_modules@,
        }
    }
}

impl<M> View for SchedulerState<M> {
    type V = SchedulerView<M>;

    closed spec fn view(&self) -> SchedulerView<M> {
        self.view_spec()
    }
}

/// The actor in charge of the worker pool.
///
/// It owns the pool partition (idle and busy queues), the module cache,
/// and the id counter; it interprets one mailbox message at a time and
/// never performs any delivery itself — every transition returns the
/// [`Action`] the embedding runtime must carry out.
pub struct Scheduler<M> {
    state: SchedulerState<M>,
}

impl<M> View for Scheduler<M> {
    type V = SchedulerView<M>;

    closed spec fn view(&self) -> SchedulerView<M> {
        self.state@
    }
}

impl<M> Scheduler<M> {
    #[verifier::type_invariant]
    spec fn inv(self) -> bool {
        scheduler_wf(self@)
    }

    /// Create a scheduler with no workers, an empty module cache, and the
    /// given fixed capacity.
    ///
    /// The capacity must be positive; it is also bounded so that worker
    /// ids, which are assigned from 1 upward and never reused, always fit
    /// in a `u32`.
    pub fn new(capacity: usize) -> (r: Scheduler<M>)
        requires
            1 <= capacity <= 0xFFFF_FFFEusize,
        ensures
            r@ == (SchedulerView {
                capacity: capacity as int,
                idle: Seq::<u32>::empty(),
                busy: Seq::<u32>::empty(),
                next_id: 1u32,
                cache: Seq::<(ModuleHash, M)>::empty(),
            }),
            scheduler_wf(r@),
    {
        let state = SchedulerState {
            capacity,
            idle: Vec::new(),
            busy: Vec::new(),
            next_id: 1,
            cached_modules: Vec::new(),
        };
        proof {
            assert(ids(state.idle@) =~= Seq::<u32>::empty());
            assert(ids(state.busy@) =~= Seq::<u32>::empty());
        }
        Scheduler { state }
    }

    /// The fixed capacity this scheduler was created with.
    pub fn capacity(&self) -> (r: usize)
        ensures
            r == self@.capacity,
    {
        self.state.capacity
    }

    /// How many workers are currently classified idle.
    pub fn idle_count(&self) -> (r: usize)
        ensures
            r == self@.idle.len(),
    {
        self.state.idle.len()
    }

    /// How many workers are currently classified busy.
    pub fn busy_count(&self) -> (r: usize)
        ensures
            r == self@.busy.len(),
    {
        self.state.busy.len()
    }

    /// The ids in the idle queue, front first.
    pub fn idle_ids(&self) -> (r: Vec<u32>)
        ensures
            r@ == self@.idle,
    {
        queue_ids(&self.state.idle)
    }

    /// The ids in the busy queue, front first.
    pub fn busy_ids(&self) -> (r: Vec<u32>)
        ensures
            r@ == self@.busy,
    {
        queue_ids(&self.state.busy)
    }

    /// The artifact cached under `hash`, if any.  The runtime reads
    /// modules back here when it replays the cache to a new worker.
    pub fn cached_module(&self, hash: ModuleHash) -> (r: Option<&M>)
        ensures
            match r {
                Some(m) => cache_lookup(self@.cache, hash) == Some(*m),
                None => cache_lookup(self@.cache, hash) is None,
            },
    {
        let n = self.state.cached_modules.len();
        let mut i: usize = 0;
        while i < n
            invariant
                n == self@.cache.len(),
                0 <= i <= n,
                forall|j: int| 0 <= j < i ==> self@.cache[j].0 != hash,
            decreases n - i,
        {
            if self.state.cached_modules[i].0 == hash {
                proof {
                    use_type_invariant(&*self);
                    crate::module_cache::lemma_cache_lookup_at(self@.cache, i as int);
                }
                return Some(&self.state.cached_modules[i].1);
            }
            i += 1;
        }
        proof {
            crate::module_cache::lemma_cache_lookup_absent(self@.cache, hash);
        }
        None
    }

    /// Take the state out, leaving a trivial well-formed placeholder
    /// behind, so that a transition can be computed on an owned value and
    /// written back in a single step.
    fn take_state(&mut self) -> (r: SchedulerState<M>)
        ensures
            r@ == old(self)@,
            scheduler_wf(r@),
    {
        proof {
            use_type_invariant(&*self);
        }
        let mut st = SchedulerState {
            capacity: 1,
            idle: Vec::new(),
            busy: Vec::new(),
            next_id: 1,
            cached_modules: Vec::new(),
        };
        proof {
            assert(ids(st.idle@) =~= Seq::<u32>::empty());
            assert(ids(st.busy@) =~= Seq::<u32>::empty());
            assert(pool(st@) =~= Seq::<u32>::empty());
        }
        core::mem::swap(&mut st, &mut self.state);
        st
    }

    /// Write a transitioned state back.
    fn set_state(&mut self, st: SchedulerState<M>)
        requires
            scheduler_wf(st@),
        ensures
            final(self)@ == st@,
    {
        self.state = st;
    }

    /// The announcement for a worker about to be created: the id it will
    /// carry — the next value of the never-reused counter — and the full
    /// current module cache, in hash order, to replay to it before any
    /// task, so that it starts with a complete cache snapshot.
    pub fn start_worker(&self) -> (r: (u32, Vec<ModuleHash>))
        ensures
            r.0 == self@.next_id,
            r.1@ == cache_keys(self@.cache),
    {
        (self.state.next_id, cache_key_list(&self.state.cached_modules))
    }

    /// Admit the worker announced by the last
    /// [`Action::StartWorker`][crate::Action::StartWorker]: the runtime
    /// calls this once the execution context exists and has received its
    /// cache replay and its first task.  The new worker joins the back of
    /// the idle queue and the id counter moves on.  If the pool is
    /// already at capacity, nothing changes and `None` is returned (the
    /// scheduler never announces a worker in that situation).
    ///
    /// On worker-creation failure the runtime simply does not call this:
    /// the pool is left unchanged and no partially created worker is
    /// admitted.
    pub fn admit_worker(&mut self) -> (r: Option<u32>)
        ensures
            if old(self)@.idle.len() + old(self)@.busy.len() < old(self)@.capacity {
                &&& r == Some(old(self)@.next_id)
                &&& final(self)@ == admit_next(old(self)@)
            } else {
                &&& r == None::<u32>
                &&& final(self)@ == old(self)@
            },
            scheduler_wf(final(self)@),
    {
        let mut st = self.take_state();
        if st.idle.len() + st.busy.len() < st.capacity {
            let id = st.next_id;
            let ghost pre = st@;
            st.idle.push(WorkerHandle::new(id));
            st.next_id = id + 1;
            proof {
                assert(ids(st.idle@) =~= pre.idle.push(id));
                assert(st@ =~= admit_next(pre));
                lemma_wf_admit(pre);
            }
            self.set_state(st);
            Some(id)
        } else {
            self.set_state(st);
            None
        }
    }

    /// Route one task payload to a worker, preferring workers that are
    /// not doing blocking work: the front idle worker if any (rotated to
    /// the back of the idle queue — dispatching does not by itself
    /// reclassify a worker); otherwise a new worker if the pool is below
    /// capacity; otherwise, as overload fallback, the front busy worker
    /// (rotated to the back of the busy queue).  The task is always
    /// accepted and always assigned somewhere.
    pub fn post_message<P>(&mut self, msg: PostMessagePayload<P, M>) -> (a: Action<P, M>)
        ensures
            final(self)@ == route_next(old(self)@),
            route_action(old(self)@, msg, a),
            scheduler_wf(final(self)@),
    {
        let mut st = self.take_state();
        let ghost pre = st@;
        if st.idle.len() > 0 {
            let w = st.idle.remove(0);
            let worker_id = w.id();
            st.idle.push(w);
            proof {
                assert(ids(st.idle@) =~= rotate(pre.idle));
                assert(st@ =~= route_next(pre));
                lemma_wf_rotate_idle(pre);
            }
            self.set_state(st);
            Action::Deliver { worker_id, payload: msg }
        } else if st.busy.len() < st.capacity {
            let worker_id = st.next_id;
            let replay = cache_key_list(&st.cached_modules);
            proof {
                assert(st@ =~= route_next(pre));
            }
            self.set_state(st);
            Action::StartWorker { worker_id, replay, payload: msg }
        } else {
            let w = st.busy.remove(0);
            let worker_id = w.id();
            st.busy.push(w);
            proof {
                assert(ids(st.busy@) =~= rotate(pre.busy));
                assert(st@ =~= route_next(pre));
                lemma_wf_rotate_busy(pre);
            }
            self.set_state(st);
            Action::Deliver { worker_id, payload: msg }
        }
    }

    /// Interpret one mailbox message: route a task submission, cache and
    /// broadcast an artifact, or move a worker between the queues as it
    /// reports its own status.  Errors are reported to the caller and
    /// leave the pool partition unchanged; the actor loop logs them and
    /// continues.
    pub fn execute<P>(&mut self, message: SchedulerMessage<P, M>) -> (r: Result<
        Option<Action<P, M>>,
        SchedulerError,
    >)
        ensures
            execute_spec(old(self)@, message, final(self)@, r),
            scheduler_wf(final(self)@),
    {
        proof {
            use_type_invariant(&*self);
        }
        match message {
            SchedulerMessage::SpawnAsync(task) => Ok(
                Some(self.post_message(PostMessagePayload::SpawnAsync(task))),
            ),
            SchedulerMessage::SpawnBlocking(task) => Ok(
                Some(self.post_message(PostMessagePayload::SpawnBlocking(task))),
            ),
            SchedulerMessage::SpawnWithModule { module, task } => Ok(
                Some(self.post_message(PostMessagePayload::SpawnWithModule { module, task })),
            ),
            SchedulerMessage::SpawnWithModuleAndMemory { module, task } => Ok(
                Some(
                    self.post_message(
                        PostMessagePayload::SpawnWithModuleAndMemory { module, task },
                    ),
                ),
            ),
            SchedulerMessage::CacheModule { hash, module } => {
                let mut st = self.take_state();
                let ghost pre = st@;
                insert_module(&mut st.cached_modules, hash, module);
                let mut worker_ids = queue_ids(&st.idle);
                let mut busy_part = queue_ids(&st.busy);
                worker_ids.append(&mut busy_part);
                proof {
                    assert(st@ =~= cache_next(pre, hash, module));
                }
                self.set_state(st);
                Ok(Some(Action::Broadcast { hash, worker_ids }))
            },
            SchedulerMessage::WorkerBusy { worker_id } => {
                let mut st = self.take_state();
                let ghost pre = st@;
                let ghost idle0 = st.idle@;
                let ghost busy0 = st.busy@;
                let moved = move_worker(worker_id, &mut st.idle, &mut st.busy);
                match moved {
                    Ok(()) => {
                        proof {
                            let i = find_worker(pre.idle, worker_id);
                            lemma_find_worker_props(pre.idle, worker_id);
                            lemma_ids_remove(idle0, i);
                            lemma_ids_push(busy0, idle0[i]);
                            assert(st@ =~= (SchedulerView {
                                idle: pre.idle.remove(i),
                                busy: pre.busy.push(worker_id),
                                ..pre
                            }));
                            lemma_wf_move_to_busy(pre, i);
                        }
                        self.set_state(st);
                        Ok(None)
                    },
                    Err(e) => {
                        self.set_state(st);
                        Err(e)
                    },
                }
            },
            SchedulerMessage::WorkerIdle { worker_id } => {
                let mut st = self.take_state();
                let ghost pre = st@;
                let ghost idle0 = st.idle@;
                let ghost busy0 = st.busy@;
                let moved = move_worker(worker_id, &mut st.busy, &mut st.idle);
                match moved {
                    Ok(()) => {
                        proof {
                            let i = find_worker(pre.busy, worker_id);
                            lemma_find_worker_props(pre.busy, worker_id);
                            lemma_ids_remove(busy0, i);
                            lemma_ids_push(idle0, busy0[i]);
                            assert(st@ =~= (SchedulerView {
                                idle: pre.idle.push(worker_id),
                                busy: pre.busy.remove(i),
                                ..pre
                            }));
                            lemma_wf_move_to_idle(pre, i);
                        }
                        self.set_state(st);
                        Ok(None)
                    },
                    Err(e) => {
                        self.set_state(st);
                        Err(e)
                    },
                }
            },
            SchedulerMessage::Markers { uninhabited: _ } => Err(SchedulerError::ReservedMessage),
        }
    }
}

/// Collect the ids of a queue of worker handles, front first.
fn queue_ids(q: &Vec<WorkerHandle>) -> (r: Vec<u32>)
    ensures
        r@ == ids(q@),
{
    let n = q.len();
    let mut r: Vec<u32> = Vec::new();
    let mut i: usize = 0;
    while i < n
        invariant
            n == q@.len(),
            0 <= i <= n,
            r@.len() == i,
            forall|j: int| 0 <= j < i ==> r@[j] == ids(q@)[j],
        decreases n - i,
    {
        let id = q[i].id();
        r.push(id);
        i += 1;
    }
    proof {
        assert(r@ =~= ids(q@));
    }
    r
}

/// Taking ids commutes with removing a queue element.
proof fn lemma_ids_remove(q: Seq<WorkerHandle>, i: int)
    requires
        0 <= i < q.len(),
    ensures
        ids(q.remove(i)) =~= ids(q).remove(i),
{
}

/// Taking ids commutes with appending a queue element.
proof fn lemma_ids_push(q: Seq<WorkerHandle>, w: WorkerHandle)
    ensures
        ids(q.push(w)) =~= ids(q).push(w@),
{
}

/// The first-occurrence search stays in range and, when it finds an
/// index, that index holds the id searched for.
proof fn lemma_find_worker_props(q: Seq<u32>, id: u32)
    ensures
        -1 <= find_worker(q, id) < q.len(),
        find_worker(q, id) >= 0 ==> q[find_worker(q, id)] == id,
    decreases q.len(),
{
    if q.len() > 0 && q[0] != id {
        lemma_find_worker_props(q.drop_first(), id);
    }
}

/// A state whose pool holds exactly the same ids (as a multiset) as a
/// well-formed state, with everything else preserved, is well-formed.
proof fn lemma_wf_pool_permuted<M>(s: SchedulerView<M>, s2: SchedulerView<M>)
    requires
        scheduler_wf(s),
        pool(s2).to_multiset() == pool(s).to_multiset(),
        s2.capacity == s.capacity,
        s2.next_id == s.next_id,
        cache_sorted(s2.cache),
        s2.idle.len() + s2.busy.len() == s.idle.len() + s.busy.len(),
    ensures
        scheduler_wf(s2),
{
    broadcast use vstd::seq_lib::group_to_multiset_ensures;
    broadcast use vstd::multiset::group_multiset_axioms;

    pool(s).lemma_multiset_has_no_duplicates();
    assert forall|x: u32| pool(s2).to_multiset().contains(x) implies pool(
        s2,
    ).to_multiset().count(x) == 1 by {
        assert(pool(s).to_multiset().count(x) > 0);
        assert(pool(s).contains(x));
    }
    pool(s2).lemma_multiset_has_no_duplicates_conv();
    assert forall|k: int| 0 <= k < pool(s2).len() implies 1 <= #[trigger] pool(s2)[k]
        < s2.next_id by {
        assert(pool(s2).contains(pool(s2)[k]));
        assert(pool(s2).to_multiset().count(pool(s2)[k]) > 0);
        assert(pool(s).contains(pool(s2)[k]));
        let k0 = choose|k0: int| 0 <= k0 < pool(s).len() && pool(s)[k0] == pool(s2)[k];
        assert(1 <= pool(s)[k0] < s.next_id);
    }
}

/// Rotating the idle queue preserves well-formedness.
proof fn lemma_wf_rotate_idle<M>(s: SchedulerView<M>)
    requires
        scheduler_wf(s),
        s.idle.len() > 0,
    ensures
        scheduler_wf(SchedulerView { idle: rotate(s.idle), ..s }),
{
    broadcast use vstd::seq_lib::group_to_multiset_ensures;
    broadcast use vstd::multiset::group_multiset_axioms;

    let s2 = SchedulerView { idle: rotate(s.idle), ..s };
    let a = s.idle;
    assert(a.drop_first() =~= a.remove(0));
    assert(a.remove(0).to_multiset() =~= a.to_multiset().remove(a[0]));
    assert(rotate(a).to_multiset() =~= a.to_multiset().remove(a[0]).insert(a[0]));
    assert(a.contains(a[0]));
    assert(a.to_multiset().count(a[0]) > 0);
    assert(a.to_multiset().remove(a[0]).insert(a[0]) =~= a.to_multiset());
    vstd::seq_lib::lemma_multiset_commutative(rotate(a), s.busy);
    vstd::seq_lib::lemma_multiset_commutative(a, s.busy);
    assert(pool(s2).to_multiset() =~= pool(s).to_multiset());
    lemma_wf_pool_permuted(s, s2);
}

/// Rotating the busy queue preserves well-formedness.
proof fn lemma_wf_rotate_busy<M>(s: SchedulerView<M>)
    requires
        scheduler_wf(s),
        s.busy.len() > 0,
    ensures
        scheduler_wf(SchedulerView { busy: rotate(s.busy), ..s }),
{
    broadcast use vstd::seq_lib::group_to_multiset_ensures;
    broadcast use vstd::multiset::group_multiset_axioms;

    let s2 = SchedulerView { busy: rotate(s.busy), ..s };
    let b = s.busy;
    assert(b.drop_first() =~= b.remove(0));
    assert(b.remove(0).to_multiset() =~= b.to_multiset().remove(b[0]));
    assert(rotate(b).to_multiset() =~= b.to_multiset().remove(b[0]).insert(b[0]));
    assert(b.contains(b[0]));
    assert(b.to_multiset().count(b[0]) > 0);
    assert(b.to_multiset().remove(b[0]).insert(b[0]) =~= b.to_multiset());
    vstd::seq_lib::lemma_multiset_commutative(s.idle, rotate(b));
    vstd::seq_lib::lemma_multiset_commutative(s.idle, b);
    assert(pool(s2).to_multiset() =~= pool(s).to_multiset());
    lemma_wf_pool_permuted(s, s2);
}

/// Moving the idle worker at index `i` to the back of the busy queue
/// preserves well-formedness.
proof fn lemma_wf_move_to_busy<M>(s: SchedulerView<M>, i: int)
    requires
        scheduler_wf(s),
        0 <= i < s.idle.len(),
    ensures
        scheduler_wf(
            SchedulerView { idle: s.idle.remove(i), busy: s.busy.push(s.idle[i]), ..s },
        ),
{
    broadcast use vstd::seq_lib::group_to_multiset_ensures;
    broadcast use vstd::multiset::group_multiset_axioms;

    let x = s.idle[i];
    let s2 = SchedulerView { idle: s.idle.remove(i), busy: s.busy.push(x), ..s };
    assert(s.idle.remove(i).to_multiset() =~= s.idle.to_multiset().remove(x));
    assert(s.busy.push(x).to_multiset() =~= s.busy.to_multiset().insert(x));
    assert(s.idle.contains(x));
    assert(s.idle.to_multiset().count(x) > 0);
    vstd::seq_lib::lemma_multiset_commutative(s.idle.remove(i), s.busy.push(x));
    vstd::seq_lib::lemma_multiset_commutative(s.idle, s.busy);
    assert(pool(s2).to_multiset() =~= pool(s).to_multiset());
    lemma_wf_pool_permuted(s, s2);
}

/// Moving the busy worker at index `i` to the back of the idle queue
/// preserves well-formedness.
proof fn lemma_wf_move_to_idle<M>(s: SchedulerView<M>, i: int)
    requires
        scheduler_wf(s),
        0 <= i < s.busy.len(),
    ensures
        scheduler_wf(
            SchedulerView { idle: s.idle.push(s.busy[i]), busy: s.busy.remove(i), ..s },
        ),
{
    broadcast use vstd::seq_lib::group_to_multiset_ensures;
    broadcast use vstd::multiset::group_multiset_axioms;

    let x = s.busy[i];
    let s2 = SchedulerView { idle: s.idle.push(x), busy: s.busy.remove(i), ..s };
    assert(s.busy.remove(i).to_multiset() =~= s.busy.to_multiset().remove(x));
    assert(s.idle.push(x).to_multiset() =~= s.idle.to_multiset().insert(x));
    assert(s.busy.contains(x));
    assert(s.busy.to_multiset().count(x) > 0);
    vstd::seq_lib::lemma_multiset_commutative(s.idle.push(x), s.busy.remove(i));
    vstd::seq_lib::lemma_multiset_commutative(s.idle, s.busy);
    assert(pool(s2).to_multiset() =~= pool(s).to_multiset());
    lemma_wf_pool_permuted(s, s2);
}

/// Admitting the announced worker preserves well-formedness: its id is
/// the never-used `next_id`, so the pool stays duplicate-free, and the
/// pool was strictly below capacity.
proof fn lemma_wf_admit<M>(s: SchedulerView<M>)
    requires
        scheduler_wf(s),
        s.idle.len() + s.busy.len() < s.capacity,
    ensures
        scheduler_wf(admit_next(s)),
{
    let s2 = admit_next(s);
    let la = s.idle.len() as int;
    assert forall|k: int| 0 <= k < pool(s2).len() implies 1 <= #[trigger] pool(s2)[k]
        < s2.next_id by {
        if k < la {
            assert(pool(s2)[k] == pool(s)[k]);
        } else if k == la {
            assert(pool(s2)[k] == s.next_id);
        } else {
            assert(pool(s2)[k] == pool(s)[k - 1]);
        }
    }
    assert forall|p: int, q: int|
        0 <= p < pool(s2).len() && 0 <= q < pool(s2).len() && p != q implies pool(s2)[p] != pool(
        s2,
    )[q] by {
        let p0: int = if p < la {
            p
        } else if p == la {
            -1
        } else {
            p - 1
        };
        let q0: int = if q < la {
            q
        } else if q == la {
            -1
        } else {
            q - 1
        };
        if p0 == -1 {
            assert(pool(s2)[p] == s.next_id);
            assert(pool(s2)[q] == pool(s)[q0] && pool(s)[q0] < s.next_id);
        } else if q0 == -1 {
            assert(pool(s2)[q] == s.next_id);
            assert(pool(s2)[p] == pool(s)[p0] && pool(s)[p0] < s.next_id);
        } else {
            assert(pool(s2)[p] == pool(s)[p0]);
            assert(pool(s2)[q] == pool(s)[q0]);
            assert(p0 != q0);
        }
    }
}

/// Remove the first handle with id `worker_id` from `from` and append it
/// to the back of `to`.
///
/// If no handle in `from` carries that id, both queues are left unchanged
/// and the protocol violation is reported as an error.
pub fn move_worker(
    worker_id: u32,
    from: &mut Vec<WorkerHandle>,
    to: &mut Vec<WorkerHandle>,
) -> (r: Result<(), SchedulerError>)
    ensures
        ({
            let i = find_worker(ids(old(from)@), worker_id);
            if i >= 0 {
                &&& r == Ok::<(), SchedulerError>(())
                &&& final(from)@ == old(from)@.remove(i)
                &&& final(to)@ == old(to)@.push(old(from)@[i])
            } else {
                &&& r == Err::<(), SchedulerError>(SchedulerError::UnknownWorker { worker_id })
                &&& final(from)@ == old(from)@
                &&& final(to)@ == old(to)@
            }
        }),
{
    let n = from.len();
    let mut ix: usize = 0;
    while ix < n
        invariant
            n == from@.len(),
            0 <= ix <= n,
            forall|j: int| 0 <= j < ix ==> ids(from@)[j] != worker_id,
            *from == *old(from),
            *to == *old(to),
        decreases n - ix,
    {
        if from[ix].id() == worker_id {
            proof {
                lemma_find_worker_at(ids(from@), worker_id, ix as int);
            }
            let w = from.remove(ix);
            to.push(w);
            return Ok(());
        }
        proof {
            assert(ids(from@)[ix as int] == from@[ix as int]@);
        }
        ix += 1;
    }
    proof {
        lemma_find_worker_absent(ids(from@), worker_id);
    }
    Err(SchedulerError::UnknownWorker { worker_id })
}

/// The index of the first occurrence of `id` in `q`, or `-1` if `id`
/// does not occur.
pub open spec fn find_worker(q: Seq<u32>, id: u32) -> int
    decreases q.len(),
{
    if q.len() == 0 {
        -1
    } else if q[0] == id {
        0
    } else if find_worker(q.drop_first(), id) < 0 {
        -1
    } else {
        1 + find_worker(q.drop_first(), id)
    }
}

/// If `q[i] == id` and nothing before `i` equals `id`, then `i` is the
/// first occurrence.
proof fn lemma_find_worker_at(q: Seq<u32>, id: u32, i: int)
    requires
        0 <= i < q.len(),
        q[i] == id,
        forall|j: int| 0 <= j < i ==> q[j] != id,
    ensures
        find_worker(q, id) == i,
    decreases q.len(),
{
    if i == 0 {
    } else {
        assert(q.drop_first()[i - 1] == q[i]);
        assert(forall|j: int| 0 <= j < i - 1 ==> q.drop_first()[j] == q[j + 1]);
        lemma_find_worker_at(q.drop_first(), id, i - 1);
    }
}

/// If `id` occurs nowhere in `q`, the search reports `-1`.
proof fn lemma_find_worker_absent(q: Seq<u32>, id: u32)
    requires
        forall|j: int| 0 <= j < q.len() ==> q[j] != id,
    ensures
        find_worker(q, id) == -1,
    decreases q.len(),
{
    if q.len() > 0 {
        assert(forall|j: int| 0 <= j < q.drop_first().len() ==> q.drop_first()[j] == q[j + 1]);
        lemma_find_worker_absent(q.drop_first(), id);
    }
}

} // verus!
