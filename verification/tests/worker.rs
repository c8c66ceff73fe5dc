use thread_pool::{Dispatch, Received, Worker, WorkerState};

#[test]
fn new_worker_is_idle_and_joinable() {
    let worker = Worker::new(3);
    assert_eq!(worker.id(), 3);
    assert_eq!(worker.state(), WorkerState::Idle);
    assert!(worker.has_thread());
}

#[test]
fn worker_with_a_task_executes_then_idles() {
    let mut worker = Worker::new(0);
    assert_eq!(worker.on_receive(Received::Task(9u32)), Dispatch::Run(9));
    assert_eq!(worker.state(), WorkerState::Executing);
    assert_eq!(worker.id(), 0);
    worker.finish();
    assert_eq!(worker.state(), WorkerState::Idle);
    assert!(worker.has_thread());
}

#[test]
fn worker_keeps_waiting_on_an_empty_queue() {
    let mut worker = Worker::new(1);
    assert_eq!(worker.on_receive(Received::<u32>::Empty), Dispatch::Wait);
    assert_eq!(worker.state(), WorkerState::Idle);
}

#[test]
fn worker_stops_on_the_closed_signal() {
    let mut worker = Worker::new(2);
    assert_eq!(worker.on_receive(Received::<u32>::Closed), Dispatch::Exit);
    assert_eq!(worker.state(), WorkerState::Stopped);
    assert_eq!(worker.id(), 2);
}

#[test]
fn worker_thread_is_taken_once() {
    let mut worker = Worker::new(4);
    assert!(worker.take_thread());
    assert!(!worker.has_thread());
    assert!(!worker.take_thread());
    assert_eq!(worker.id(), 4);
    assert_eq!(worker.state(), WorkerState::Idle);
}
