//! A verified scheduling core for a bounded, dynamically grown pool of
//! worker execution contexts.
//!
//! The scheduler is a single-threaded actor: it owns the pool partition
//! (idle and busy queues), a monotonically growing module cache, and it
//! interprets one mailbox message at a time.  Everything the actor decides
//! — which worker a task goes to, when a new worker is created, which
//! workers a cached artifact is broadcast to, how worker status reports
//! move handles between the queues — is implemented and proved here.
//!
//! All outside work (channels, spawning real execution contexts, payload
//! delivery, logging) is left to the embedding runtime: the scheduler
//! returns an [`Action`] describing the deliveries to perform, and the
//! runtime carries them out.

mod module_cache;
mod scheduler;
mod scheduler_message;
mod worker_handle;

pub use module_cache::cache_contains_hash;
pub use module_cache::cache_insert;
pub use module_cache::cache_key_list;
pub use module_cache::cache_keys;
pub use module_cache::cache_lookup;
pub use module_cache::cache_sorted;
pub use module_cache::insert_module;
pub use module_cache::lemma_cache_insert_monotonic;
pub use module_cache::lemma_cache_lookup_absent;
pub use module_cache::lemma_cache_lookup_at;
pub use scheduler::RouteDecision;
pub use scheduler::Scheduler;
pub use scheduler::SchedulerView;
pub use scheduler::admit_next;
pub use scheduler::cache_next;
pub use scheduler::execute_spec;
pub use scheduler::find_worker;
pub use scheduler::ids;
pub use scheduler::lemma_cache_monotonic_step;
pub use scheduler::lemma_new_worker_carries_full_cache;
pub use scheduler::lemma_round_robin;
pub use scheduler::lemma_saturated_fallback;
pub use scheduler::move_worker;
pub use scheduler::pool;
pub use scheduler::rotate;
pub use scheduler::route_action;
pub use scheduler::route_decision;
pub use scheduler::route_iter;
pub use scheduler::route_next;
pub use scheduler::route_target;
pub use scheduler::route_targets;
pub use scheduler::scheduler_wf;
pub use scheduler::task_payload;
pub use scheduler_message::Action;
pub use scheduler_message::ModuleHash;
pub use scheduler_message::PostMessagePayload;
pub use scheduler_message::Reserved;
pub use scheduler_message::SchedulerError;
pub use scheduler_message::SchedulerMessage;
pub use worker_handle::WorkerHandle;
