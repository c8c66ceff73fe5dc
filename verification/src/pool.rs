//! The pool: a fixed set of workers, the shared queue, and teardown.
use crate::protocol::{lemma_init_inv, lemma_next_inv, Event, PoolState};
use crate::queue::TaskQueue;
use crate::worker::{dispatch_of, state_of, Dispatch, Worker, WorkerState, WorkerView};
use vstd::prelude::*;

verus! {

/// How an attempt to join the next worker in index order ended.
#[derive(Clone, Copy, Debug, PartialEq, Eq, Structural)]
pub enum Join {
    /// The worker with this id had stopped, and has now been joined.
    Joined(usize),
    /// The worker with this id has not stopped yet: teardown has to wait for
    /// it.
    Pending(usize),
    /// Every worker has been joined already.
    Done,
}

/// What has happened so far, kept for the proofs only.
struct Record<T> {
    submitted: Seq<T>,
    assigned: Seq<int>,
    finished: Seq<int>,
    tickets: Seq<int>,
}

/// A pool of a fixed number of workers that share one task queue.
///
/// Its view is the [`PoolState`] of the protocol, and each method is one step
/// of the protocol.
pub struct ThreadPool<T> {
    workers: Vec<Worker>,
    queue: TaskQueue<T>,
    joined: usize,
    record: Ghost<Record<T>>,
}

impl<T> View for ThreadPool<T> {
    type V = PoolState<T>;

    closed spec fn view(&self) -> PoolState<T> {
        PoolState {
            open: self.queue.is_open(),
            queue: self.queue@,
            workers: Seq::new(
                self.workers@.len(),
                |w: int| self.workers@[w]@.state.phase(self.record@.tickets[w]),
            ),
            joined: self.joined as nat,
            submitted: self.record@.submitted,
            assigned: self.record@.assigned,
            finished: self.record@.finished,
        }
    }
}

impl<T> ThreadPool<T> {
    /// The pool is well formed: worker `w` has id `w`, the workers whose
    /// threads are gone are those that teardown has joined, and the pool's
    /// state is a valid state of the protocol.
    pub closed spec fn wf(&self) -> bool {
        &&& self.record@.tickets.len() == self.workers@.len()
        &&& forall|w: int|
            0 <= w < self.workers@.len() ==> {
                &&& (#[trigger] self.workers@[w])@.id == w
                &&& self.workers@[w]@.has_thread == (w >= self.joined)
            }
        &&& self@.inv()
    }

    /// A well-formed pool is in a valid state of the protocol.
    pub proof fn lemma_wf_inv(&self)
        requires
            self.wf(),
        ensures
            self@.inv(),
    {
    }

    /// Builds a pool of `size` workers with ids `0..size`, all of them live
    /// and idle, over an empty queue whose producer side the pool holds.
    pub fn new(size: usize) -> (pool: Self)
        requires
            size > 0,
        ensures
            pool.wf(),
            pool@ == PoolState::<T>::init(size as nat),
    {
        let mut workers: Vec<Worker> = Vec::new();
        for id in 0..size
            invariant
                workers@.len() == id,
                forall|w: int|
                    0 <= w < id ==> (#[trigger] workers@[w])@ == (WorkerView {
                        id: w as nat,
                        state: WorkerState::Idle,
                        has_thread: true,
                    }),
        {
            workers.push(Worker::new(id));
        }
        let pool = ThreadPool {
            workers,
            queue: TaskQueue::new(),
            joined: 0,
            record: Ghost(
                Record {
                    submitted: Seq::empty(),
                    assigned: Seq::empty(),
                    finished: Seq::empty(),
                    tickets: Seq::new(size as nat, |w: int| 0int),
                },
            ),
        };
        proof {
            lemma_init_inv::<T>(size as nat);
            assert(pool@.workers =~= PoolState::<T>::init(size as nat).workers);
        }
        pool
    }

    /// The number of workers.
    pub fn size(&self) -> (size: usize)
        ensures
            size == self@.size(),
    {
        self.workers.len()
    }

    /// Whether the pool still holds the producer side of the queue.
    pub fn is_open(&self) -> (open: bool)
        ensures
            open == self@.open,
    {
        self.queue.has_producer()
    }

    /// The number of pending tasks.
    pub fn pending(&self) -> (pending: usize)
        ensures
            pending == self@.queue.len(),
    {
        self.queue.len()
    }

    /// The number of workers that teardown has joined.
    pub fn joined(&self) -> (joined: usize)
        ensures
            joined == self@.joined,
    {
        self.joined
    }

    /// Where the worker with this id stands in its loop.
    pub fn worker_state(&self, id: usize) -> (state: WorkerState)
        requires
            id < self@.size(),
        ensures
            state == state_of(self@.workers[id as int]),
    {
        self.workers[id].state()
    }

    /// The worker with this id.
    pub fn worker(&self, id: usize) -> (worker: Worker)
        requires
            self.wf(),
            id < self@.size(),
        ensures
            worker@ == (WorkerView {
                id: id as nat,
                state: state_of(self@.workers[id as int]),
                has_thread: id >= self@.joined,
            }),
    {
        self.workers[id]
    }

    /// Submits `task`: it is enqueued behind every pending task.
    pub fn execute(&mut self, task: T)
        requires
            old(self).wf(),
            old(self)@.open,
        ensures
            final(self).wf(),
            final(self)@ == old(self)@.submit(task),
    {
        let ghost submitted = self.record@.submitted.push(task);
        self.queue.send(task);
        self.record = Ghost(Record { submitted, ..self.record@ });
        proof {
            assert(self@.workers =~= old(self)@.workers);
            assert(self@ == old(self)@.next(Event::Submit(task)));
            lemma_next_inv(old(self)@, Event::Submit(task));
        }
    }

    /// One receive attempt of the idle worker `id`, made while it holds the
    /// lock on the consumer side: the worker takes the oldest pending task if
    /// there is one, stops if nothing is pending and the producer side is
    /// released, and otherwise has to wait.
    pub fn receive(&mut self, id: usize) -> (dispatch: Dispatch<T>)
        requires
            old(self).wf(),
            id < old(self)@.size(),
            old(self)@.workers[id as int] is Idle,
        ensures
            final(self).wf(),
            final(self)@ == old(self)@.receive(id as int),
            dispatch == dispatch_of(TaskQueue::outcome(old(self)@.queue, old(self)@.open)),
    {
        let ghost ticket = self@.dispatched() as int;
        let received = self.queue.recv();
        let mut worker = self.workers[id];
        let dispatch = worker.on_receive(received);
        self.workers.set(id, worker);
        if let Dispatch::Run(_) = &dispatch {
            self.record = Ghost(
                Record {
                    assigned: self.record@.assigned.push(id as int),
                    tickets: self.record@.tickets.update(id as int, ticket),
                    ..self.record@
                },
            );
        }
        proof {
            assert(self@.workers =~= old(self)@.receive(id as int).workers);
            if old(self)@.enabled(Event::Receive(id as int)) {
                lemma_next_inv(old(self)@, Event::Receive(id as int));
            } else {
                assert(self@ == old(self)@);
            }
        }
        dispatch
    }

    /// The task that worker `id` was executing has come to its end.
    pub fn complete(&mut self, id: usize)
        requires
            old(self).wf(),
            id < old(self)@.size(),
            old(self)@.workers[id as int] is Executing,
        ensures
            final(self).wf(),
            final(self)@ == old(self)@.complete(id as int),
    {
        let mut worker = self.workers[id];
        worker.finish();
        self.workers.set(id, worker);
        self.record = Ghost(
            Record {
                finished: self.record@.finished.push(self.record@.tickets[id as int]),
                ..self.record@
            },
        );
        proof {
            assert(self@.workers =~= old(self)@.complete(id as int).workers);
            lemma_next_inv(old(self)@, Event::Complete(id as int));
        }
    }

    /// The first step of teardown: releases the producer side of the queue.
    /// Pending tasks stay and will still be run. Releasing is one-way, and
    /// releasing again changes nothing.
    pub fn close(&mut self)
        requires
            old(self).wf(),
        ensures
            final(self).wf(),
            final(self)@ == old(self)@.close(),
    {
        self.queue.close();
        proof {
            assert(self@.workers =~= old(self)@.workers);
            if old(self)@.open {
                lemma_next_inv(old(self)@, Event::Close);
            } else {
                assert(self@ == old(self)@);
            }
        }
    }

    /// One step of teardown after the producer side is released: joins the
    /// next worker in index order if it has stopped, taking its thread.
    pub fn join(&mut self) -> (outcome: Join)
        requires
            old(self).wf(),
        ensures
            final(self).wf(),
            outcome == (if old(self)@.joined == old(self)@.size() {
                Join::Done
            } else if old(self)@.workers[old(self)@.joined as int] is Stopped {
                Join::Joined(old(self)@.joined as usize)
            } else {
                Join::Pending(old(self)@.joined as usize)
            }),
            final(self)@ == (if outcome is Joined {
                old(self)@.join()
            } else {
                old(self)@
            }),
    {
        let id = self.joined;
        if id == self.workers.len() {
            return Join::Done;
        }
        let mut worker = self.workers[id];
        match worker.state() {
            WorkerState::Stopped => {
                worker.take_thread();
                self.workers.set(id, worker);
                self.joined = id + 1;
                proof {
                    assert(self@.workers =~= old(self)@.workers);
                    lemma_next_inv(old(self)@, Event::Join);
                }
                Join::Joined(id)
            },
            _ => Join::Pending(id),
        }
    }
}

} // verus!
