//! The pool's protocol as a state machine over mathematical values.
//!
//! A [`PoolState`] describes the whole system at one instant: the shared
//! queue, what every worker is doing, how far teardown has come, and a record
//! of what has happened so far. An [`Event`] is one atomic step. The
//! executable pool refines this machine step by step.
use vstd::prelude::*;

verus! {

/// What one worker is doing.
pub enum Phase {
    /// Waiting on the shared queue.
    Idle,
    /// Running the task with this ticket. A task's ticket is its position in
    /// the order of submission, counted from zero.
    Executing(int),
    /// Left its loop after the closed signal; this is final.
    Stopped,
}

/// One atomic step of the system.
pub enum Event<T> {
    /// The producer enqueues a task.
    Submit(T),
    /// The worker with this id holds the lock and its receive resolves, to
    /// the oldest pending task or to the closed signal.
    Receive(int),
    /// The task that the worker with this id is running comes to its end.
    Complete(int),
    /// Teardown releases the producer side.
    Close,
    /// Teardown joins the next worker in index order.
    Join,
}

/// The system at one instant.
pub struct PoolState<T> {
    /// Whether the producer side of the queue is still held.
    pub open: bool,
    /// The pending tasks, oldest first.
    pub queue: Seq<T>,
    /// What each worker is doing, by worker id.
    pub workers: Seq<Phase>,
    /// How many workers teardown has joined: those with ids below this.
    pub joined: nat,
    /// Every task submitted so far, in order of submission.
    pub submitted: Seq<T>,
    /// For each ticket handed out so far, the id of the worker that received
    /// it.
    pub assigned: Seq<int>,
    /// The tickets of the tasks that have run to their end, in the order in
    /// which they ended.
    pub finished: Seq<int>,
}

/// The steps that a worker in this phase still has to take before it has
/// stopped, once nothing is pending: an executing worker ends its task and
/// then sees the closed signal, an idle one only sees the signal.
pub open spec fn steps_of(phase: Phase) -> nat {
    match phase {
        Phase::Idle => 1,
        Phase::Executing(_) => 2,
        Phase::Stopped => 0,
    }
}

/// The sum of [`steps_of`] over all workers.
pub open spec fn worker_steps(workers: Seq<Phase>) -> nat
    decreases workers.len(),
{
    if workers.len() == 0 {
        0
    } else {
        worker_steps(workers.drop_last()) + steps_of(workers.last())
    }
}

/// The number of workers that are running a task.
pub open spec fn running(workers: Seq<Phase>) -> nat
    decreases workers.len(),
{
    if workers.len() == 0 {
        0
    } else {
        running(workers.drop_last()) + (if workers.last() is Executing {
            1nat
        } else {
            0nat
        })
    }
}

impl<T> PoolState<T> {
    /// The state right after construction with `size` workers.
    pub open spec fn init(size: nat) -> Self {
        PoolState {
            open: true,
            queue: Seq::empty(),
            workers: Seq::new(size, |w: int| Phase::Idle),
            joined: 0,
            submitted: Seq::empty(),
            assigned: Seq::empty(),
            finished: Seq::empty(),
        }
    }

    /// The number of workers.
    pub open spec fn size(self) -> nat {
        self.workers.len()
    }

    /// Whether `w` is the id of a worker.
    pub open spec fn is_worker(self, w: int) -> bool {
        0 <= w < self.workers.len()
    }

    /// The number of tasks handed to workers so far, which is also the ticket
    /// of the oldest pending task.
    pub open spec fn dispatched(self) -> nat {
        self.assigned.len()
    }

    /// The number of tasks that a worker has received and not yet run to
    /// their end.
    pub open spec fn in_flight(self) -> int {
        self.assigned.len() - self.finished.len()
    }

    /// The tasks that have run to their end, in the order in which they ended.
    pub open spec fn executed(self) -> Seq<T> {
        Seq::new(self.finished.len(), |i: int| self.submitted[self.finished[i]])
    }

    /// How often the task with ticket `k` has run to its end.
    pub open spec fn executions(self, k: int) -> nat {
        self.finished.to_multiset().count(k)
    }

    /// Teardown is over: the producer side is released and every worker has
    /// been joined.
    pub open spec fn torn_down(self) -> bool {
        !self.open && self.joined == self.size()
    }

    /// The number of steps that remain before teardown is over, once the
    /// producer side is released: two for each pending task (its dequeue and
    /// its end), those of each worker, and one join for each worker.
    pub open spec fn steps_left(self) -> nat {
        (2 * self.queue.len() + worker_steps(self.workers) + (self.size() - self.joined)) as nat
    }

    /// After `task` is submitted.
    pub open spec fn submit(self, task: T) -> Self {
        PoolState {
            queue: self.queue.push(task),
            submitted: self.submitted.push(task),
            ..self
        }
    }

    /// After worker `w` has taken the oldest pending task.
    pub open spec fn take(self, w: int) -> Self {
        PoolState {
            queue: self.queue.drop_first(),
            workers: self.workers.update(w, Phase::Executing(self.dispatched() as int)),
            assigned: self.assigned.push(w),
            ..self
        }
    }

    /// After worker `w` has seen the closed signal.
    pub open spec fn stop(self, w: int) -> Self {
        PoolState { workers: self.workers.update(w, Phase::Stopped), ..self }
    }

    /// After one receive attempt of worker `w`: it takes the oldest pending
    /// task if there is one, stops if nothing is pending and the producer
    /// side is released, and otherwise keeps waiting.
    pub open spec fn receive(self, w: int) -> Self {
        if self.queue.len() > 0 {
            self.take(w)
        } else if !self.open {
            self.stop(w)
        } else {
            self
        }
    }

    /// After the task that worker `w` is running has come to its end.
    pub open spec fn complete(self, w: int) -> Self {
        match self.workers[w] {
            Phase::Executing(k) => PoolState {
                workers: self.workers.update(w, Phase::Idle),
                finished: self.finished.push(k),
                ..self
            },
            _ => self,
        }
    }

    /// After the producer side is released.
    pub open spec fn close(self) -> Self {
        PoolState { open: false, ..self }
    }

    /// After the next worker in index order is joined.
    pub open spec fn join(self) -> Self {
        PoolState { joined: self.joined + 1, ..self }
    }

    /// Whether `event` can happen in this state. A receive that would only
    /// keep waiting is no step; a join has to wait until its worker has
    /// stopped.
    pub open spec fn enabled(self, event: Event<T>) -> bool {
        match event {
            Event::Submit(_) => self.open,
            Event::Receive(w) => {
                &&& self.is_worker(w)
                &&& self.workers[w] is Idle
                &&& (self.queue.len() > 0 || !self.open)
            },
            Event::Complete(w) => self.is_worker(w) && self.workers[w] is Executing,
            Event::Close => self.open,
            Event::Join => self.joined < self.size() && self.workers[self.joined as int] is Stopped,
        }
    }

    /// The state after `event`.
    pub open spec fn next(self, event: Event<T>) -> Self {
        match event {
            Event::Submit(task) => self.submit(task),
            Event::Receive(w) => self.receive(w),
            Event::Complete(w) => self.complete(w),
            Event::Close => self.close(),
            Event::Join => self.join(),
        }
    }

    /// Whether the events can happen one after the other, starting here.
    pub open spec fn can_run(self, events: Seq<Event<T>>) -> bool
        decreases events.len(),
    {
        events.len() > 0 ==> self.enabled(events[0]) && self.next(events[0]).can_run(
            events.drop_first(),
        )
    }

    /// The state after the events have happened one after the other.
    pub open spec fn run(self, events: Seq<Event<T>>) -> Self
        decreases events.len(),
    {
        if events.len() == 0 {
            self
        } else {
            self.next(events[0]).run(events.drop_first())
        }
    }

    /// The step that teardown is waiting for: the next worker to be joined
    /// stops if it is idle, ends its task if it runs one, and is joined once
    /// it has stopped.
    pub open spec fn awaited(self) -> Event<T> {
        let w = self.joined as int;
        match self.workers[w] {
            Phase::Idle => Event::Receive(w),
            Phase::Executing(_) => Event::Complete(w),
            Phase::Stopped => Event::Join,
        }
    }

    /// The queue holds exactly the submitted tasks that have not been handed
    /// out, in order of submission.
    pub open spec fn fifo(self) -> bool {
        &&& self.queue.len() + self.assigned.len() == self.submitted.len()
        &&& self.queue =~= self.submitted.skip(self.assigned.len() as int)
    }

    /// Every ticket handed out went to one worker, and that worker is either
    /// still running it or has finished it, once.
    pub open spec fn accounted(self) -> bool {
        &&& forall|k: int|
            0 <= k < self.assigned.len() ==> self.is_worker(#[trigger] self.assigned[k])
        &&& forall|w: int|
            self.is_worker(w) ==> (#[trigger] self.workers[w] matches Phase::Executing(k) ==> 0
                <= k < self.assigned.len() && self.assigned[k] == w)
        &&& self.finished.no_duplicates()
        &&& forall|i: int|
            0 <= i < self.finished.len() ==> 0 <= #[trigger] self.finished[i]
                < self.assigned.len()
        &&& forall|k: int|
            0 <= k < self.assigned.len() ==> (self.finished.contains(k)
                <==> self.workers[#[trigger] self.assigned[k]] != Phase::Executing(k))
    }

    /// Workers stop only on the closed signal, and teardown joins them in
    /// index order, each after it has stopped.
    pub open spec fn orderly(self) -> bool {
        &&& self.joined <= self.size()
        &&& forall|w: int|
            self.is_worker(w) && #[trigger] self.workers[w] is Stopped ==> !self.open
                && self.queue.len() == 0
        &&& forall|w: int| 0 <= w < self.joined ==> #[trigger] self.workers[w] is Stopped
    }

    /// The tasks in flight are those that the workers are running.
    pub open spec fn balanced(self) -> bool {
        self.in_flight() == running(self.workers)
    }

    /// With one worker, tasks end in the order of their tickets.
    pub open spec fn sequential_if_single(self) -> bool {
        self.size() == 1 ==> forall|i: int|
            0 <= i < self.finished.len() ==> #[trigger] self.finished[i] == i
    }

    /// What holds of every state that the pool can reach.
    pub open spec fn inv(self) -> bool {
        &&& self.size() > 0
        &&& self.fifo()
        &&& self.accounted()
        &&& self.orderly()
        &&& self.balanced()
        &&& self.sequential_if_single()
    }
}

/// Changing one worker's phase changes the number of running workers by the
/// difference between the two phases.
pub proof fn lemma_running_update(workers: Seq<Phase>, w: int, phase: Phase)
    requires
        0 <= w < workers.len(),
    ensures
        running(workers.update(w, phase)) + (if workers[w] is Executing {
            1nat
        } else {
            0nat
        }) == running(workers) + (if phase is Executing {
            1nat
        } else {
            0nat
        }),
    decreases workers.len(),
{
    let updated = workers.update(w, phase);
    if w == workers.len() - 1 {
        assert(updated.drop_last() =~= workers.drop_last());
    } else {
        assert(updated.drop_last() =~= workers.drop_last().update(w, phase));
        lemma_running_update(workers.drop_last(), w, phase);
    }
}

/// No more workers are running a task than there are workers, and none is
/// where none is executing.
pub proof fn lemma_running_bound(workers: Seq<Phase>)
    ensures
        running(workers) <= workers.len(),
        (forall|w: int| 0 <= w < workers.len() ==> !(#[trigger] workers[w] is Executing))
            ==> running(workers) == 0,
    decreases workers.len(),
{
    if workers.len() > 0 {
        lemma_running_bound(workers.drop_last());
        if forall|w: int| 0 <= w < workers.len() ==> !(#[trigger] workers[w] is Executing) {
            assert forall|w: int| 0 <= w < workers.drop_last().len() implies !(
            #[trigger] workers.drop_last()[w] is Executing) by {
                assert(!(workers[w] is Executing));
            }
            assert(!(workers.last() is Executing));
        }
    }
}

/// A new pool is in a valid state.
pub proof fn lemma_init_inv<T>(size: nat)
    requires
        size > 0,
    ensures
        PoolState::<T>::init(size).inv(),
{
    lemma_running_bound(PoolState::<T>::init(size).workers);
}

/// Every step that can happen leads from a valid state to a valid state, and
/// the number of workers never changes.
pub proof fn lemma_next_inv<T>(s: PoolState<T>, event: Event<T>)
    requires
        s.inv(),
        s.enabled(event),
    ensures
        s.next(event).inv(),
        s.next(event).size() == s.size(),
{
    let t = s.next(event);
    match event {
        Event::Submit(task) => {},
        Event::Receive(w) => {
            lemma_running_update(s.workers, w, t.workers[w]);
        },
        Event::Complete(w) => {
            let k = s.workers[w]->Executing_0;
            assert(s.assigned[k] == w);
            assert(!s.finished.contains(k));
            assert(t.finished.no_duplicates());
            assert forall|j: int| 0 <= j < t.assigned.len() implies (t.finished.contains(j)
                <==> t.workers[#[trigger] t.assigned[j]] != Phase::Executing(j)) by {
                if j == k {
                    assert(t.finished[s.finished.len() as int] == k);
                } else if s.finished.contains(j) {
                    let i = choose|i: int| 0 <= i < s.finished.len() && s.finished[i] == j;
                    assert(t.finished[i] == j);
                }
            }
            lemma_running_update(s.workers, w, Phase::Idle);
            if s.size() == 1 {
                lemma_running_bound(s.workers);
                if k < s.finished.len() {
                    assert(s.finished[k] == k);
                }
            }
        },
        Event::Close => {},
        Event::Join => {},
    }
}

/// A run of steps that can happen leads from a valid state to a valid state
/// with the same number of workers.
pub proof fn lemma_run_inv<T>(s: PoolState<T>, events: Seq<Event<T>>)
    requires
        s.inv(),
        s.can_run(events),
    ensures
        s.run(events).inv(),
        s.run(events).size() == s.size(),
    decreases events.len(),
{
    if events.len() > 0 {
        lemma_next_inv(s, events[0]);
        lemma_run_inv(s.next(events[0]), events.drop_first());
    }
}

/// Changing one worker's phase changes the sum of the workers' steps by the
/// difference between the two phases.
pub proof fn lemma_worker_steps_update(workers: Seq<Phase>, w: int, phase: Phase)
    requires
        0 <= w < workers.len(),
    ensures
        worker_steps(workers.update(w, phase)) + steps_of(workers[w]) == worker_steps(workers)
            + steps_of(phase),
    decreases workers.len(),
{
    let updated = workers.update(w, phase);
    if w == workers.len() - 1 {
        assert(updated.drop_last() =~= workers.drop_last());
    } else {
        assert(updated.drop_last() =~= workers.drop_last().update(w, phase));
        lemma_worker_steps_update(workers.drop_last(), w, phase);
    }
}

/// The workers have no steps left exactly when all of them have stopped.
pub proof fn lemma_worker_steps_zero(workers: Seq<Phase>)
    ensures
        worker_steps(workers) == 0 <==> forall|w: int|
            0 <= w < workers.len() ==> #[trigger] workers[w] is Stopped,
    decreases workers.len(),
{
    if workers.len() > 0 {
        lemma_worker_steps_zero(workers.drop_last());
        if worker_steps(workers) == 0 {
            assert forall|w: int| 0 <= w < workers.len() implies #[trigger] workers[w] is Stopped by {
                if w < workers.len() - 1 {
                    assert(workers.drop_last()[w] is Stopped);
                }
            }
        }
        if forall|w: int| 0 <= w < workers.len() ==> #[trigger] workers[w] is Stopped {
            assert forall|w: int| 0 <= w < workers.drop_last().len() implies #[trigger] workers.drop_last()[w] is Stopped by {
                assert(workers[w] is Stopped);
            }
            assert(workers.last() is Stopped);
        }
    }
}

} // verus!
