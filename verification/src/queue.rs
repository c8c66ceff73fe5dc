//! The shared task queue: an unbounded first-in, first-out channel with one
//! producer side and one consumer side.
use std::collections::VecDeque;
use vstd::prelude::*;

verus! {

/// How one receive attempt on the consumer side resolved.
#[derive(Debug, PartialEq, Eq)]
pub enum Received<T> {
    /// The oldest pending task, now owned by the receiver.
    Task(T),
    /// Nothing is pending but the producer side is still held: the receiver
    /// has to wait.
    Empty,
    /// Nothing is pending and the producer side has been released: nothing
    /// will ever arrive again.
    Closed,
}

/// A first-in, first-out channel of tasks.
///
/// Its view is the sequence of pending tasks, oldest first.
pub struct TaskQueue<T> {
    pending: VecDeque<T>,
    open: bool,
}

impl<T> View for TaskQueue<T> {
    type V = Seq<T>;

    closed spec fn view(&self) -> Seq<T> {
        self.pending@
    }
}

impl<T> TaskQueue<T> {
    /// Whether the producer side is still held.
    pub closed spec fn is_open(&self) -> bool {
        self.open
    }

    /// What a receive attempt yields on a channel with these pending tasks.
    pub open spec fn outcome(pending: Seq<T>, open: bool) -> Received<T> {
        if pending.len() > 0 {
            Received::Task(pending[0])
        } else if open {
            Received::Empty
        } else {
            Received::Closed
        }
    }

    /// An empty channel whose producer side is held.
    pub fn new() -> (queue: Self)
        ensures
            queue@ == Seq::<T>::empty(),
            queue.is_open(),
    {
        TaskQueue { pending: VecDeque::new(), open: true }
    }

    /// Whether the producer side is still held.
    pub fn has_producer(&self) -> (open: bool)
        ensures
            open == self.is_open(),
    {
        self.open
    }

    /// The number of pending tasks.
    pub fn len(&self) -> (n: usize)
        ensures
            n == self@.len(),
    {
        self.pending.len()
    }

    /// Whether no task is pending.
    pub fn is_empty(&self) -> (empty: bool)
        ensures
            empty == (self@.len() == 0),
    {
        self.pending.len() == 0
    }

    /// Enqueues `task` behind every pending task.
    pub fn send(&mut self, task: T)
        requires
            old(self).is_open(),
        ensures
            final(self)@ == old(self)@.push(task),
            final(self).is_open(),
    {
        self.pending.push_back(task);
    }

    /// Releases the producer side. Pending tasks stay; the transition is
    /// one-way, and releasing twice changes nothing.
    pub fn close(&mut self)
        ensures
            final(self)@ == old(self)@,
            !final(self).is_open(),
    {
        self.open = false;
    }

    /// One receive attempt: takes the oldest pending task if there is one,
    /// and otherwise reports whether more can still arrive.
    pub fn recv(&mut self) -> (received: Received<T>)
        ensures
            received == Self::outcome(old(self)@, old(self).is_open()),
            final(self)@ == (if old(self)@.len() > 0 {
                old(self)@.drop_first()
            } else {
                old(self)@
            }),
            final(self).is_open() == old(self).is_open(),
    {
        match self.pending.pop_front() {
            Some(task) => Received::Task(task),
            None => if self.open {
                Received::Empty
            } else {
                Received::Closed
            },
        }
    }
}

} // verus!
