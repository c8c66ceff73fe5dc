//! A verified model of a fixed-size worker pool.
//!
//! The pool owns a fixed set of workers and the producer side of a shared
//! first-in, first-out task queue. A task is an opaque, single-use unit of
//! work of type `T`; the pool never looks inside it. Everything here is
//! sequential and deterministic: each method is one atomic step of the
//! pool's protocol (a submission, one worker's dequeue under the lock, a task
//! running to its end, the release of the producer side, a join), and the
//! threads that perform those steps live with the caller.
//!
//! [`protocol`] defines the pool as a state machine over mathematical values,
//! [`pool`], [`queue`] and [`worker`] hold the executable pool that follows it
//! step by step, and [`guarantees`] proves what holds of every pool: tasks
//! leave the queue in order, no task runs twice, teardown ends, and once it
//! has ended every submitted task has run exactly once.
pub mod guarantees;
pub mod pool;
pub mod protocol;
pub mod queue;
pub mod worker;

pub use pool::{Join, ThreadPool};
pub use queue::{Received, TaskQueue};
pub use worker::{Dispatch, Worker, WorkerState};
