use thread_pool::{Received, TaskQueue};

#[test]
fn new_queue_is_open_and_empty() {
    let queue: TaskQueue<u8> = TaskQueue::new();
    assert!(queue.has_producer());
    assert!(queue.is_empty());
    assert_eq!(queue.len(), 0);
}

#[test]
fn queue_hands_tasks_out_oldest_first() {
    let mut queue: TaskQueue<u8> = TaskQueue::new();
    queue.send(3);
    queue.send(1);
    queue.send(2);
    assert_eq!(queue.len(), 3);
    assert!(!queue.is_empty());
    assert_eq!(queue.recv(), Received::Task(3));
    assert_eq!(queue.recv(), Received::Task(1));
    assert_eq!(queue.len(), 1);
    assert_eq!(queue.recv(), Received::Task(2));
    assert_eq!(queue.recv(), Received::Empty);
}

#[test]
fn empty_open_queue_reports_empty() {
    let mut queue: TaskQueue<u8> = TaskQueue::new();
    assert_eq!(queue.recv(), Received::Empty);
    assert_eq!(queue.recv(), Received::Empty);
    assert!(queue.has_producer());
}

#[test]
fn closed_queue_drains_before_it_reports_closed() {
    let mut queue: TaskQueue<u8> = TaskQueue::new();
    queue.send(5);
    queue.close();
    assert!(!queue.has_producer());
    assert_eq!(queue.len(), 1);
    assert_eq!(queue.recv(), Received::Task(5));
    assert_eq!(queue.recv(), Received::Closed);
    assert_eq!(queue.recv(), Received::Closed);
    queue.close();
    assert!(!queue.has_producer());
}
