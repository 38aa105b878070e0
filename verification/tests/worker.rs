use sqlens::db::Query;
use sqlens::worker::{next_request, superseded, Worker};

#[test]
fn the_newest_request_is_taken_up() {
    let mut worker = Worker::new();
    assert_eq!(worker.request(Query::new("a".into()), None), 1);
    assert_eq!(worker.request(Query::new("b".into()), Some("x".into())), 2);
    let mut requests = worker.take_requests();
    assert_eq!(requests.len(), 2);
    assert!(worker.take_requests().is_empty());
    let first = requests.remove(0);
    let request = next_request(first, requests, worker.generation).unwrap();
    assert_eq!((request.id, request.query.table.as_str()), (2, "b"));
    assert_eq!(request.add.as_deref(), Some("x"));
    assert!(!superseded(worker.generation, 2));
    assert!(superseded(worker.generation, 1));
}

#[test]
fn a_cancelled_request_is_not_taken_up() {
    let mut worker = Worker::new();
    let id = worker.request(Query::new("a".into()), None);
    worker.cancel();
    assert!(superseded(worker.generation, id));
    let mut requests = worker.take_requests();
    let first = requests.remove(0);
    assert!(next_request(first, requests, worker.generation).is_none());
}

#[test]
fn numbers_wrap_around() {
    let mut worker = Worker::new();
    worker.generation = u64::MAX;
    assert_eq!(worker.request(Query::new("a".into()), None), 0);
}

#[test]
fn a_whole_run_answers_in_order_and_ends_with_the_last_request() {
    let mut worker = Worker::new();
    let mut waiting = Vec::new();
    let mut answered = Vec::new();
    // Requests per round, whether a cancellation follows, and how many are taken up.
    for (requests, cancel, taken) in [(1, false, 1), (3, false, 3), (2, true, 2), (3, false, 1), (0, false, 2)] {
        for _ in 0..requests {
            worker.request(Query::new("t".into()), None);
        }
        if cancel {
            worker.cancel();
        }
        waiting.extend(worker.take_requests());
        let mut now: Vec<_> = waiting.drain(..taken).collect();
        let first = now.remove(0);
        if let Some(request) = next_request(first, now, worker.generation) {
            answered.push(request.id);
        }
    }
    assert!(waiting.is_empty());
    assert_eq!(answered, [1, 4, 10]);
    assert_eq!(worker.generation, 10);
}
