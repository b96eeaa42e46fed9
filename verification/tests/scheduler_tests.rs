use worker_pool::Action;
use worker_pool::PostMessagePayload;
use worker_pool::Scheduler;
use worker_pool::SchedulerError;
use worker_pool::SchedulerMessage;

type Artifact = Vec<u8>;
type Msg = SchedulerMessage<i32, Artifact>;

/// Submit a throwaway task so the scheduler announces a new worker, then
/// report the creation; returns the new worker's id.  Panics if the
/// scheduler routed the task to an existing worker instead.
fn grow_pool(s: &mut Scheduler<Artifact>) -> u32 {
    match s.execute(Msg::SpawnAsync(0)) {
        Ok(Some(Action::StartWorker { worker_id, .. })) => {
            let admitted = s.admit_worker().expect("pool should be below capacity");
            assert_eq!(admitted, worker_id);
            worker_id
        }
        _ => panic!("expected a new worker to be announced"),
    }
}

fn report_busy(s: &mut Scheduler<Artifact>, worker_id: u32) {
    let r = s.execute::<i32>(SchedulerMessage::WorkerBusy { worker_id });
    assert!(matches!(r, Ok(None)));
}

fn report_idle(s: &mut Scheduler<Artifact>, worker_id: u32) {
    let r = s.execute::<i32>(SchedulerMessage::WorkerIdle { worker_id });
    assert!(matches!(r, Ok(None)));
}

#[test]
fn spawn_an_async_function() {
    let mut scheduler = Scheduler::<Artifact>::new(1);
    let mut ran: Option<i32> = None;
    let message: SchedulerMessage<Box<dyn FnOnce() -> i32>, Artifact> =
        SchedulerMessage::SpawnAsync(Box::new(move || 42));

    // we start off with no workers
    assert_eq!(scheduler.idle_count(), 0);
    assert_eq!(scheduler.busy_count(), 0);

    // then we run the message, which should start up a worker and send it
    // the job
    match scheduler.execute(message).unwrap() {
        Some(Action::StartWorker { worker_id, replay, payload }) => {
            assert_eq!(worker_id, 1);
            assert!(replay.is_empty());
            // the runtime would create the execution context and deliver
            // the payload; here the task runs in place
            match payload {
                PostMessagePayload::SpawnAsync(task) => ran = Some(task()),
                _ => panic!("the payload must be the submitted task"),
            }
            scheduler.admit_worker().unwrap();
        }
        _ => panic!("expected a new worker"),
    }

    // One worker should have been created and added to the "ready" queue
    // because it's just handling async workloads.
    assert_eq!(scheduler.idle_count(), 1);
    assert_eq!(scheduler.busy_count(), 0);

    // Make sure the task actually ran and handed us back a result
    assert_eq!(ran, Some(42));
}

#[test]
fn new_scheduler_is_empty() {
    let s = Scheduler::<Artifact>::new(7);
    assert_eq!(s.capacity(), 7);
    assert_eq!(s.idle_count(), 0);
    assert_eq!(s.busy_count(), 0);
    assert!(s.idle_ids().is_empty());
    assert!(s.busy_ids().is_empty());
}

#[test]
fn round_robin_over_idle_workers() {
    let mut s = Scheduler::<Artifact>::new(3);
    let w1 = grow_pool(&mut s);
    report_busy(&mut s, w1);
    let w2 = grow_pool(&mut s);
    report_busy(&mut s, w2);
    let w3 = grow_pool(&mut s);
    report_idle(&mut s, w1);
    report_idle(&mut s, w2);
    assert_eq!(s.idle_ids(), vec![w3, w1, w2]);

    // three submissions with no intervening status reports: each of the
    // three idle workers receives exactly one task, in FIFO order
    let mut targets = Vec::new();
    for task in 0..3 {
        match s.execute(Msg::SpawnAsync(task)).unwrap() {
            Some(Action::Deliver { worker_id, .. }) => targets.push(worker_id),
            _ => panic!("an idle worker must take the task"),
        }
    }
    assert_eq!(targets, vec![w3, w1, w2]);
    // the idle queue is back in its original order: nobody starves
    assert_eq!(s.idle_ids(), vec![w3, w1, w2]);
    assert_eq!(s.busy_count(), 0);
}

#[test]
fn dispatch_rotates_idle_worker_to_tail() {
    let mut s = Scheduler::<Artifact>::new(3);
    let w1 = grow_pool(&mut s);
    report_busy(&mut s, w1);
    let w2 = grow_pool(&mut s);
    report_idle(&mut s, w1);
    assert_eq!(s.idle_ids(), vec![w2, w1]);
    match s.execute(Msg::SpawnAsync(5)).unwrap() {
        Some(Action::Deliver { worker_id, .. }) => assert_eq!(worker_id, w2),
        _ => panic!("the front idle worker must take the task"),
    }
    // dispatching does not reclassify the worker: it goes to the back of
    // the idle queue, not to busy
    assert_eq!(s.idle_ids(), vec![w1, w2]);
    assert_eq!(s.busy_count(), 0);
}

#[test]
fn saturated_pool_falls_back_to_busy_worker() {
    let mut s = Scheduler::<Artifact>::new(1);
    let w1 = grow_pool(&mut s);
    report_busy(&mut s, w1);
    assert_eq!(s.idle_count(), 0);
    assert_eq!(s.busy_ids(), vec![w1]);

    // capacity 1, the only worker busy: the task is still accepted and
    // goes to that same busy worker
    match s.execute(Msg::SpawnBlocking(9)).unwrap() {
        Some(Action::Deliver { worker_id, .. }) => assert_eq!(worker_id, w1),
        _ => panic!("the busy worker must take the task"),
    }
    assert_eq!(s.busy_ids(), vec![w1]);
}

#[test]
fn saturated_busy_queue_rotates() {
    let mut s = Scheduler::<Artifact>::new(2);
    let w1 = grow_pool(&mut s);
    report_busy(&mut s, w1);
    let w2 = grow_pool(&mut s);
    report_busy(&mut s, w2);
    assert_eq!(s.busy_ids(), vec![w1, w2]);

    match s.execute(Msg::SpawnAsync(1)).unwrap() {
        Some(Action::Deliver { worker_id, .. }) => assert_eq!(worker_id, w1),
        _ => panic!("expected delivery to the front busy worker"),
    }
    assert_eq!(s.busy_ids(), vec![w2, w1]);
    match s.execute(Msg::SpawnAsync(2)).unwrap() {
        Some(Action::Deliver { worker_id, .. }) => assert_eq!(worker_id, w2),
        _ => panic!("expected delivery to the front busy worker"),
    }
    assert_eq!(s.busy_ids(), vec![w1, w2]);
}

#[test]
fn busy_then_idle_worker_ends_at_idle_tail() {
    let mut s = Scheduler::<Artifact>::new(2);
    let w1 = grow_pool(&mut s);
    report_busy(&mut s, w1);
    let w2 = grow_pool(&mut s);
    assert_eq!(s.idle_ids(), vec![w2]);
    assert_eq!(s.busy_ids(), vec![w1]);

    report_idle(&mut s, w1);
    assert_eq!(s.idle_ids(), vec![w2, w1]);
    assert!(s.busy_ids().is_empty());
}

#[test]
fn unknown_worker_report_leaves_queues_unchanged() {
    let mut s = Scheduler::<Artifact>::new(2);
    let w1 = grow_pool(&mut s);
    assert_eq!(s.idle_ids(), vec![w1]);

    // an id the scheduler has never seen
    let r = s.execute::<i32>(SchedulerMessage::WorkerBusy { worker_id: 99 });
    assert!(matches!(r, Err(SchedulerError::UnknownWorker { worker_id: 99 })));

    // a known id, but reported from the wrong queue: w1 is idle, so an
    // "idle" report for it names no busy worker
    let r = s.execute::<i32>(SchedulerMessage::WorkerIdle { worker_id: w1 });
    assert!(matches!(r, Err(SchedulerError::UnknownWorker { worker_id }) if worker_id == w1));

    assert_eq!(s.idle_ids(), vec![w1]);
    assert!(s.busy_ids().is_empty());
}

#[test]
fn pool_never_exceeds_capacity() {
    let mut s = Scheduler::<Artifact>::new(2);
    for task in 0..6 {
        match s.execute(Msg::SpawnAsync(task)).unwrap() {
            Some(Action::StartWorker { .. }) => {
                s.admit_worker().unwrap();
            }
            Some(Action::Deliver { .. }) => {}
            _ => panic!("a task submission must be routed"),
        }
        assert!(s.idle_count() + s.busy_count() <= s.capacity());
        if let Some(&front) = s.idle_ids().first() {
            report_busy(&mut s, front);
        }
        assert!(s.idle_count() + s.busy_count() <= s.capacity());
    }
    assert_eq!(s.busy_count(), 2);
}

#[test]
fn admit_worker_at_capacity_is_refused() {
    let mut s = Scheduler::<Artifact>::new(1);
    let w1 = grow_pool(&mut s);
    assert_eq!(s.admit_worker(), None);
    assert_eq!(s.idle_ids(), vec![w1]);
    assert_eq!(s.busy_count(), 0);
}

#[test]
fn task_payload_is_forwarded_unchanged() {
    let mut s = Scheduler::<Artifact>::new(1);
    let w1 = grow_pool(&mut s);
    let msg: Msg = SchedulerMessage::SpawnWithModule { module: vec![0xDE, 0xAD], task: 17 };
    match s.execute(msg).unwrap() {
        Some(Action::Deliver { worker_id, payload }) => {
            assert_eq!(worker_id, w1);
            match payload {
                PostMessagePayload::SpawnWithModule { module, task } => {
                    assert_eq!(module, vec![0xDE, 0xAD]);
                    assert_eq!(task, 17);
                }
                _ => panic!("the payload must keep its kind and contents"),
            }
        }
        _ => panic!("expected delivery to the idle worker"),
    }

    let msg: Msg = SchedulerMessage::SpawnWithModuleAndMemory { module: vec![7], task: 23 };
    match s.execute(msg).unwrap() {
        Some(Action::Deliver { payload, .. }) => match payload {
            PostMessagePayload::SpawnWithModuleAndMemory { module, task } => {
                assert_eq!(module, vec![7]);
                assert_eq!(task, 23);
            }
            _ => panic!("the payload must keep its kind and contents"),
        },
        _ => panic!("expected delivery to the idle worker"),
    }
}
