//! A worker: its identity, whether its thread can still be joined, and the
//! decisions of its loop.
use crate::protocol::Phase;
use crate::queue::Received;
use vstd::prelude::*;

verus! {

/// Where a worker stands in its loop.
#[derive(Clone, Copy, Debug, PartialEq, Eq, Structural)]
pub enum WorkerState {
    /// Waiting on the shared queue.
    Idle,
    /// Running one task.
    Executing,
    /// Out of its loop after the closed signal.
    Stopped,
}

/// What a worker does after one receive attempt.
#[derive(Debug, PartialEq, Eq)]
pub enum Dispatch<T> {
    /// The worker owns the task now: it runs it to its end, outside the lock.
    Run(T),
    /// Nothing is pending yet: the worker waits and tries again.
    Wait,
    /// The queue is closed for good: the worker leaves its loop.
    Exit,
}

impl WorkerState {
    /// The phase of a worker in this state, where `ticket` is that of the
    /// task it runs if it runs one.
    pub open spec fn phase(self, ticket: int) -> Phase {
        match self {
            WorkerState::Idle => Phase::Idle,
            WorkerState::Executing => Phase::Executing(ticket),
            WorkerState::Stopped => Phase::Stopped,
        }
    }
}

/// The state of a worker in this phase.
pub open spec fn state_of(phase: Phase) -> WorkerState {
    match phase {
        Phase::Idle => WorkerState::Idle,
        Phase::Executing(_) => WorkerState::Executing,
        Phase::Stopped => WorkerState::Stopped,
    }
}

/// What an idle worker does with the outcome of its receive attempt.
pub open spec fn dispatch_of<T>(received: Received<T>) -> Dispatch<T> {
    match received {
        Received::Task(task) => Dispatch::Run(task),
        Received::Empty => Dispatch::Wait,
        Received::Closed => Dispatch::Exit,
    }
}

/// The state of an idle worker after its receive attempt had this outcome.
pub open spec fn state_after<T>(received: Received<T>) -> WorkerState {
    match received {
        Received::Task(_) => WorkerState::Executing,
        Received::Empty => WorkerState::Idle,
        Received::Closed => WorkerState::Stopped,
    }
}

/// A worker as a mathematical value.
pub struct WorkerView {
    /// The worker's id.
    pub id: nat,
    /// Where the worker stands in its loop.
    pub state: WorkerState,
    /// Whether the worker's thread has not been joined yet.
    pub has_thread: bool,
}

/// One worker of a pool.
#[derive(Clone, Copy, Debug)]
pub struct Worker {
    id: usize,
    state: WorkerState,
    thread: bool,
}

impl View for Worker {
    type V = WorkerView;

    closed spec fn view(&self) -> WorkerView {
        WorkerView { id: self.id as nat, state: self.state, has_thread: self.thread }
    }
}

impl Worker {
    /// A worker that has just started: it waits on the queue, and its thread
    /// can be joined.
    pub fn new(id: usize) -> (worker: Worker)
        ensures
            worker@ == (WorkerView { id: id as nat, state: WorkerState::Idle, has_thread: true }),
    {
        Worker { id, state: WorkerState::Idle, thread: true }
    }

    /// The worker's id.
    pub fn id(&self) -> (id: usize)
        ensures
            id == self@.id,
    {
        self.id
    }

    /// Where the worker stands in its loop.
    pub fn state(&self) -> (state: WorkerState)
        ensures
            state == self@.state,
    {
        self.state
    }

    /// Whether the worker's thread has not been joined yet.
    pub fn has_thread(&self) -> (present: bool)
        ensures
            present == self@.has_thread,
    {
        self.thread
    }

    /// The decision of an idle worker once its receive attempt has resolved
    /// and the lock is released: with a task it starts executing, on the
    /// closed signal it stops, and otherwise it stays idle.
    pub fn on_receive<T>(&mut self, received: Received<T>) -> (dispatch: Dispatch<T>)
        requires
            old(self)@.state is Idle,
        ensures
            dispatch == dispatch_of(received),
            final(self)@ == (WorkerView { state: state_after(received), ..old(self)@ }),
    {
        match received {
            Received::Task(task) => {
                self.state = WorkerState::Executing;
                Dispatch::Run(task)
            },
            Received::Empty => Dispatch::Wait,
            Received::Closed => {
                self.state = WorkerState::Stopped;
                Dispatch::Exit
            },
        }
    }

    /// The task that the worker was executing has come to its end: the worker
    /// is idle again.
    pub fn finish(&mut self)
        requires
            old(self)@.state is Executing,
        ensures
            final(self)@ == (WorkerView { state: WorkerState::Idle, ..old(self)@ }),
    {
        self.state = WorkerState::Idle;
    }

    /// Gives up the worker's thread for joining. The thread is there to be
    /// taken once: the result says whether it still was.
    pub fn take_thread(&mut self) -> (taken: bool)
        ensures
            taken == old(self)@.has_thread,
            final(self)@ == (WorkerView { has_thread: false, ..old(self)@ }),
    {
        let taken = self.thread;
        self.thread = false;
        taken
    }
}

} // verus!
