use worker_pool::SchedulerError;
use worker_pool::WorkerHandle;
use worker_pool::move_worker;

fn handles(ids: &[u32]) -> Vec<WorkerHandle> {
    ids.iter().map(|&id| WorkerHandle::new(id)).collect()
}

fn ids_of(q: &[WorkerHandle]) -> Vec<u32> {
    q.iter().map(|w| w.id()).collect()
}

#[test]
fn move_worker_moves_the_named_handle_to_the_tail() {
    let mut from = handles(&[1, 2, 3]);
    let mut to = handles(&[9]);
    let r = move_worker(2, &mut from, &mut to);
    assert!(r.is_ok());
    assert_eq!(ids_of(&from), vec![1, 3]);
    assert_eq!(ids_of(&to), vec![9, 2]);
}

#[test]
fn move_worker_unknown_id_changes_nothing() {
    let mut from = handles(&[1, 2, 3]);
    let mut to = handles(&[9]);
    let r = move_worker(5, &mut from, &mut to);
    assert_eq!(r, Err(SchedulerError::UnknownWorker { worker_id: 5 }));
    assert_eq!(ids_of(&from), vec![1, 2, 3]);
    assert_eq!(ids_of(&to), vec![9]);
}

#[test]
fn worker_handle_keeps_its_id() {
    let w = WorkerHandle::new(17);
    assert_eq!(w.id(), 17);
}
