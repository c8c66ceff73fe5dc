use thread_pool::{Dispatch, Join, ThreadPool, WorkerState};

/// Lets worker `id` take its next step and records the task that ends, if
/// one does. Returns whether the worker did anything.
fn advance(pool: &mut ThreadPool<u32>, id: usize, running: &mut Vec<Option<u32>>, done: &mut Vec<u32>) -> bool {
    match pool.worker_state(id) {
        WorkerState::Idle => match pool.receive(id) {
            Dispatch::Run(task) => {
                running[id] = Some(task);
                true
            }
            Dispatch::Wait => false,
            Dispatch::Exit => true,
        },
        WorkerState::Executing => {
            pool.complete(id);
            done.push(running[id].take().unwrap());
            true
        }
        WorkerState::Stopped => false,
    }
}

#[test]
fn new_pool_has_one_live_worker_per_id() {
    for size in [1usize, 2, 4, 17] {
        let pool: ThreadPool<u32> = ThreadPool::new(size);
        assert_eq!(pool.size(), size);
        assert!(pool.is_open());
        assert_eq!(pool.pending(), 0);
        assert_eq!(pool.joined(), 0);
        for id in 0..size {
            let worker = pool.worker(id);
            assert_eq!(worker.id(), id);
            assert_eq!(worker.state(), WorkerState::Idle);
            assert!(worker.has_thread());
            assert_eq!(pool.worker_state(id), WorkerState::Idle);
        }
    }
}

#[test]
fn single_worker_runs_tasks_in_submission_order() {
    let mut pool: ThreadPool<&'static str> = ThreadPool::new(1);
    let mut recorded: Vec<&'static str> = Vec::new();
    pool.execute("A");
    let first = match pool.receive(0) {
        Dispatch::Run(task) => task,
        other => panic!("expected a task, got {:?}", other),
    };
    pool.execute("B");
    assert_eq!(pool.pending(), 1);
    assert_eq!(pool.worker_state(0), WorkerState::Executing);
    recorded.push(first);
    pool.complete(0);
    let second = match pool.receive(0) {
        Dispatch::Run(task) => task,
        other => panic!("expected a task, got {:?}", other),
    };
    recorded.push(second);
    pool.complete(0);
    pool.close();
    assert_eq!(pool.receive(0), Dispatch::Exit);
    assert_eq!(pool.join(), Join::Joined(0));
    assert_eq!(pool.join(), Join::Done);
    assert_eq!(recorded, vec!["A", "B"]);
}

#[test]
fn fifth_task_waits_until_a_worker_is_free() {
    let mut pool: ThreadPool<u32> = ThreadPool::new(4);
    for task in 1..=4u32 {
        pool.execute(task);
    }
    for id in 0..4usize {
        assert_eq!(pool.receive(id), Dispatch::Run(id as u32 + 1));
    }
    pool.execute(5);
    assert_eq!(pool.pending(), 1);
    for id in 0..4usize {
        assert_eq!(pool.worker_state(id), WorkerState::Executing);
    }
    pool.complete(2);
    assert_eq!(pool.worker_state(2), WorkerState::Idle);
    assert_eq!(pool.pending(), 1);
    assert_eq!(pool.receive(2), Dispatch::Run(5));
    assert_eq!(pool.pending(), 0);
}

#[test]
fn teardown_without_tasks_ends_at_once() {
    let mut pool: ThreadPool<u32> = ThreadPool::new(2);
    pool.close();
    assert!(!pool.is_open());
    assert_eq!(pool.receive(0), Dispatch::Exit);
    assert_eq!(pool.receive(1), Dispatch::Exit);
    assert_eq!(pool.worker_state(0), WorkerState::Stopped);
    assert_eq!(pool.worker_state(1), WorkerState::Stopped);
    assert_eq!(pool.join(), Join::Joined(0));
    assert_eq!(pool.join(), Join::Joined(1));
    assert_eq!(pool.join(), Join::Done);
    assert_eq!(pool.joined(), 2);
    assert!(!pool.worker(0).has_thread());
    assert!(!pool.worker(1).has_thread());
}

#[test]
fn every_task_runs_exactly_once() {
    let size = 3usize;
    let tasks = 10u32;
    let mut pool: ThreadPool<u32> = ThreadPool::new(size);
    let mut running: Vec<Option<u32>> = vec![None; size];
    let mut done: Vec<u32> = Vec::new();
    let mut turn = 0usize;
    for task in 0..tasks {
        pool.execute(task);
        // An uneven schedule: the workers take turns of different lengths.
        for _ in 0..(task as usize % 3) {
            advance(&mut pool, turn % size, &mut running, &mut done);
            turn += 2;
        }
    }
    pool.close();
    loop {
        match pool.join() {
            Join::Done => break,
            Join::Joined(_) => {}
            Join::Pending(id) => {
                assert!(advance(&mut pool, id, &mut running, &mut done));
            }
        }
    }
    let mut counts = vec![0u32; tasks as usize];
    for task in &done {
        counts[*task as usize] += 1;
    }
    assert_eq!(counts, vec![1u32; tasks as usize]);
    assert_eq!(done.len(), tasks as usize);
    assert_eq!(pool.pending(), 0);
}

#[test]
fn tasks_leave_the_queue_in_submission_order() {
    let mut pool: ThreadPool<u32> = ThreadPool::new(3);
    for task in [30u32, 10, 20, 10] {
        pool.execute(task);
    }
    assert_eq!(pool.receive(2), Dispatch::Run(30));
    assert_eq!(pool.receive(0), Dispatch::Run(10));
    pool.complete(2);
    assert_eq!(pool.receive(2), Dispatch::Run(20));
    assert_eq!(pool.receive(1), Dispatch::Run(10));
    assert_eq!(pool.pending(), 0);
}

#[test]
fn receive_on_an_empty_open_queue_waits() {
    let mut pool: ThreadPool<u32> = ThreadPool::new(2);
    assert_eq!(pool.receive(1), Dispatch::Wait);
    assert_eq!(pool.worker_state(1), WorkerState::Idle);
    pool.execute(8);
    assert_eq!(pool.receive(1), Dispatch::Run(8));
    assert_eq!(pool.receive(0), Dispatch::Wait);
}

#[test]
fn close_keeps_the_pending_tasks() {
    let mut pool: ThreadPool<u32> = ThreadPool::new(1);
    pool.execute(1);
    pool.execute(2);
    pool.close();
    assert_eq!(pool.pending(), 2);
    assert_eq!(pool.receive(0), Dispatch::Run(1));
    pool.complete(0);
    assert_eq!(pool.receive(0), Dispatch::Run(2));
    pool.complete(0);
    assert_eq!(pool.receive(0), Dispatch::Exit);
    assert_eq!(pool.worker_state(0), WorkerState::Stopped);
}

#[test]
fn closing_twice_changes_nothing() {
    let mut pool: ThreadPool<u32> = ThreadPool::new(2);
    pool.execute(4);
    pool.close();
    pool.close();
    assert!(!pool.is_open());
    assert_eq!(pool.pending(), 1);
    assert_eq!(pool.joined(), 0);
    assert_eq!(pool.worker_state(0), WorkerState::Idle);
}

#[test]
fn join_waits_for_a_worker_that_has_not_stopped() {
    let mut pool: ThreadPool<u32> = ThreadPool::new(2);
    assert_eq!(pool.join(), Join::Pending(0));
    pool.execute(6);
    assert_eq!(pool.receive(0), Dispatch::Run(6));
    pool.close();
    assert_eq!(pool.receive(1), Dispatch::Exit);
    // Worker 1 has stopped, but worker 0 comes first and still runs its task.
    assert_eq!(pool.join(), Join::Pending(0));
    assert_eq!(pool.joined(), 0);
    pool.complete(0);
    assert_eq!(pool.join(), Join::Pending(0));
    assert_eq!(pool.receive(0), Dispatch::Exit);
    assert_eq!(pool.join(), Join::Joined(0));
    assert!(!pool.worker(0).has_thread());
    assert!(pool.worker(1).has_thread());
    assert_eq!(pool.join(), Join::Joined(1));
    assert_eq!(pool.join(), Join::Done);
}

#[test]
fn teardown_takes_the_counted_number_of_steps() {
    // Three pending tasks, one worker running a task and one idle: two steps
    // for each pending task, two for the running worker, one for the idle
    // one, and two joins.
    let mut pool: ThreadPool<u32> = ThreadPool::new(2);
    let mut running: Vec<Option<u32>> = vec![None; 2];
    let mut done: Vec<u32> = Vec::new();
    for task in 0..4u32 {
        pool.execute(task);
    }
    assert!(advance(&mut pool, 1, &mut running, &mut done));
    pool.close();
    let mut steps = 0u32;
    loop {
        match pool.join() {
            Join::Done => break,
            Join::Joined(_) => steps += 1,
            Join::Pending(id) => {
                assert!(advance(&mut pool, id, &mut running, &mut done));
                steps += 1;
            }
        }
    }
    assert_eq!(steps, 2 * 3 + 2 + 1 + 2);
    assert_eq!(done.len(), 4);
}
