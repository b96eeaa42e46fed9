use worker_pool::Action;
use worker_pool::Scheduler;
use worker_pool::SchedulerMessage;

type Artifact = Vec<u8>;
type Msg = SchedulerMessage<i32, Artifact>;

const H1: u64 = 0x1111;
const H2: u64 = 0x2222;

fn cache(s: &mut Scheduler<Artifact>, hash: u64, module: Artifact) -> Vec<u32> {
    match s.execute::<i32>(SchedulerMessage::CacheModule { hash, module }).unwrap() {
        Some(Action::Broadcast { hash: h, worker_ids }) => {
            assert_eq!(h, hash);
            worker_ids
        }
        _ => panic!("caching must broadcast to the current workers"),
    }
}

#[test]
fn cache_broadcasts_to_all_workers_and_replays_to_new_ones() {
    let mut s = Scheduler::<Artifact>::new(3);

    // one idle worker and one busy worker
    let w1 = match s.execute(Msg::SpawnAsync(0)).unwrap() {
        Some(Action::StartWorker { worker_id, .. }) => {
            s.admit_worker().unwrap();
            worker_id
        }
        _ => panic!("expected a new worker"),
    };
    assert!(matches!(s.execute::<i32>(SchedulerMessage::WorkerBusy { worker_id: w1 }), Ok(None)));
    let w2 = match s.execute(Msg::SpawnAsync(0)).unwrap() {
        Some(Action::StartWorker { worker_id, .. }) => {
            s.admit_worker().unwrap();
            worker_id
        }
        _ => panic!("expected a new worker"),
    };
    assert_eq!(s.idle_ids(), vec![w2]);
    assert_eq!(s.busy_ids(), vec![w1]);

    // both current workers receive the cache update, idle ones first
    let receivers = cache(&mut s, H1, vec![1, 2, 3]);
    assert_eq!(receivers, vec![w2, w1]);

    // a worker created afterwards receives the artifact as part of its
    // startup handoff, with no further cache message
    assert!(matches!(s.execute::<i32>(SchedulerMessage::WorkerBusy { worker_id: w2 }), Ok(None)));
    match s.execute(Msg::SpawnAsync(0)).unwrap() {
        Some(Action::StartWorker { worker_id, replay, .. }) => {
            assert_eq!(worker_id, 3);
            assert_eq!(replay, vec![H1]);
            assert_eq!(s.cached_module(H1), Some(&vec![1, 2, 3]));
        }
        _ => panic!("expected a new worker"),
    }
}

#[test]
fn cache_broadcast_with_no_workers_reaches_nobody() {
    let mut s = Scheduler::<Artifact>::new(1);
    let receivers = cache(&mut s, H1, vec![9]);
    assert!(receivers.is_empty());
}

#[test]
fn cache_only_grows_and_stays_in_hash_order() {
    let mut s = Scheduler::<Artifact>::new(1);
    cache(&mut s, H2, vec![2]);
    cache(&mut s, H1, vec![1]);

    // the startup handoff lists the accumulated cache in hash order
    let (_, replay) = s.start_worker();
    assert_eq!(replay, vec![H1, H2]);

    // re-inserting H2 replaces its artifact but removes nothing else
    cache(&mut s, H2, vec![2, 2]);
    let (_, replay) = s.start_worker();
    assert_eq!(replay, vec![H1, H2]);
    assert_eq!(s.cached_module(H1), Some(&vec![1]));
    assert_eq!(s.cached_module(H2), Some(&vec![2, 2]));
    assert_eq!(s.cached_module(0x3333), None);
}
