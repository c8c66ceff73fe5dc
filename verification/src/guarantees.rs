//! What the protocol guarantees, proved of every valid state.
use crate::protocol::{
    lemma_init_inv, lemma_next_inv, lemma_run_inv, lemma_running_bound, lemma_worker_steps_update,
    lemma_worker_steps_zero, running, Event, Phase, PoolState,
};
use vstd::prelude::*;
use vstd::seq_lib::{to_multiset_build, to_multiset_insert};
use vstd::set_lib::{lemma_int_range, set_int_range};

verus! {

/// A new pool has exactly as many workers as asked for, each under its own
/// id and each live, that is waiting on the queue; nothing is pending, nothing
/// has been submitted or run, and nobody has been joined.
pub proof fn lemma_new_pool_is_live<T>(size: nat)
    requires
        size > 0,
    ensures
        PoolState::<T>::init(size).inv(),
        PoolState::<T>::init(size).size() == size,
        forall|w: int| 0 <= w < size ==> PoolState::<T>::init(size).workers[w] is Idle,
        PoolState::<T>::init(size).open,
        PoolState::<T>::init(size).queue.len() == 0,
        PoolState::<T>::init(size).submitted.len() == 0,
        PoolState::<T>::init(size).finished.len() == 0,
        PoolState::<T>::init(size).joined == 0,
{
    lemma_init_inv::<T>(size);
}

/// No task runs twice, and no two workers run the same task: a ticket that is
/// being run is run by the one worker that received it and has not ended
/// before, and no ticket has ended more than once.
pub proof fn lemma_no_task_runs_twice<T>(s: PoolState<T>)
    requires
        s.inv(),
    ensures
        forall|a: int, b: int|
            s.is_worker(a) && s.is_worker(b) && #[trigger] s.workers[a] is Executing
                && s.workers[a] == #[trigger] s.workers[b] ==> a == b,
        forall|w: int|
            s.is_worker(w) ==> (#[trigger] s.workers[w] matches Phase::Executing(k) ==> 0 <= k
                < s.dispatched() && s.assigned[k] == w && s.executions(k) == 0),
        forall|k: int| #[trigger] s.executions(k) <= 1,
        forall|k: int| #[trigger] s.executions(k) == 1 ==> 0 <= k < s.dispatched(),
{
    broadcast use vstd::seq_lib::group_to_multiset_ensures;

    s.finished.lemma_multiset_has_no_duplicates();
    assert forall|k: int| #[trigger] s.executions(k) == 1 implies 0 <= k < s.dispatched() by {
        assert(s.finished.contains(k));
    }
}

/// Tasks leave the queue in the order of submission: the tickets handed out
/// so far are those of the first submitted tasks, and the pending tasks are
/// the rest, in order.
pub proof fn lemma_first_in_first_out<T>(s: PoolState<T>)
    requires
        s.inv(),
    ensures
        s.dispatched() + s.queue.len() == s.submitted.len(),
        s.submitted =~= s.submitted.take(s.dispatched() as int) + s.queue,
        s.queue.len() > 0 ==> s.queue[0] == s.submitted[s.dispatched() as int],
{
}

/// Never are more tasks in flight than there are workers, and a worker takes
/// a task only while it is idle: with every worker busy, a pending task
/// waits until one of the running tasks has come to its end.
pub proof fn lemma_bounded_concurrency<T>(s: PoolState<T>)
    requires
        s.inv(),
    ensures
        0 <= s.in_flight() <= s.size(),
        forall|w: int| #[trigger] s.enabled(Event::Receive(w)) ==> s.workers[w] is Idle,
        s.in_flight() == s.size() ==> forall|w: int| !#[trigger] s.enabled(Event::Receive(w)),
{
    lemma_running_bound(s.workers);
    if s.in_flight() == s.size() {
        lemma_all_running(s.workers);
    }
}

/// Where as many workers are running a task as there are workers, each one
/// is.
proof fn lemma_all_running(workers: Seq<Phase>)
    requires
        running(workers) == workers.len(),
    ensures
        forall|w: int| 0 <= w < workers.len() ==> #[trigger] workers[w] is Executing,
    decreases workers.len(),
{
    if workers.len() > 0 {
        lemma_running_bound(workers.drop_last());
        lemma_all_running(workers.drop_last());
        assert forall|w: int| 0 <= w < workers.len() implies #[trigger] workers[w] is Executing by {
            if w < workers.len() - 1 {
                assert(workers.drop_last()[w] is Executing);
            }
        }
    }
}

/// A sequence that holds each index of `tasks` once picks out the tasks of
/// `tasks`, each once.
proof fn lemma_permuted_tasks<T>(order: Seq<int>, tasks: Seq<T>)
    requires
        order.len() == tasks.len(),
        order.no_duplicates(),
        forall|i: int| 0 <= i < order.len() ==> 0 <= #[trigger] order[i] < tasks.len(),
        forall|k: int| 0 <= k < tasks.len() ==> order.contains(k),
    ensures
        Seq::new(order.len(), |i: int| tasks[order[i]]).to_multiset() =~= tasks.to_multiset(),
    decreases tasks.len(),
{
    let picked = Seq::new(order.len(), |i: int| tasks[order[i]]);
    if tasks.len() == 0 {
        assert(picked =~= tasks);
    } else {
        let n = tasks.len() - 1;
        assert(order.contains(n));
        let j = choose|j: int| 0 <= j < order.len() && order[j] == n;
        let rest = order.remove(j);
        let fewer = tasks.drop_last();
        assert forall|k: int| 0 <= k < fewer.len() implies rest.contains(k) by {
            assert(order.contains(k));
            let i = choose|i: int| 0 <= i < order.len() && order[i] == k;
            if i < j {
                assert(rest[i] == k);
            } else {
                assert(rest[i - 1] == k);
            }
        }
        assert forall|i: int| 0 <= i < rest.len() implies 0 <= #[trigger] rest[i] < fewer.len() by {
            if i < j {
                assert(rest[i] == order[i]);
            } else {
                assert(rest[i] == order[i + 1]);
            }
        }
        lemma_permuted_tasks(rest, fewer);
        let picked_rest = Seq::new(rest.len(), |i: int| fewer[rest[i]]);
        assert(picked.remove(j) =~= picked_rest);
        assert(picked =~= picked_rest.insert(j, tasks[n]));
        to_multiset_insert(picked_rest, j, tasks[n]);
        assert(tasks =~= fewer.push(tasks[n]));
        to_multiset_build(fewer, tasks[n]);
    }
}

/// Once teardown is over, every submitted task has run to its end exactly
/// once: none was lost and none ran twice. The tasks that ran are the tasks
/// that were submitted, in some order; with a single worker, in the order of
/// submission.
pub proof fn lemma_teardown_runs_each_task_once<T>(s: PoolState<T>)
    requires
        s.inv(),
        s.torn_down(),
    ensures
        s.queue.len() == 0,
        forall|w: int| s.is_worker(w) ==> s.workers[w] is Stopped,
        s.finished.len() == s.submitted.len(),
        forall|k: int| 0 <= k < s.submitted.len() ==> #[trigger] s.executions(k) == 1,
        s.executed().to_multiset() =~= s.submitted.to_multiset(),
        s.size() == 1 ==> s.executed() =~= s.submitted,
{
    broadcast use vstd::seq_lib::group_to_multiset_ensures;

    assert(s.workers[0] is Stopped);
    let n = s.submitted.len() as int;
    assert forall|k: int| 0 <= k < n implies s.finished.contains(k) by {
        assert(s.workers[s.assigned[k]] is Stopped);
    }
    assert(s.finished.len() == n) by {
        lemma_int_range(0, n);
        s.finished.unique_seq_to_set();
        assert(s.finished.to_set() =~= set_int_range(0, n));
    }
    s.finished.lemma_multiset_has_no_duplicates();
    lemma_permuted_tasks(s.finished, s.submitted);
}

/// The whole life of a pool: however the submissions, the workers' steps and
/// teardown interleave, once teardown is over every submitted task has run
/// exactly once.
pub proof fn lemma_pool_runs_each_task_once<T>(size: nat, events: Seq<Event<T>>)
    requires
        size > 0,
        PoolState::<T>::init(size).can_run(events),
        PoolState::<T>::init(size).run(events).torn_down(),
    ensures
        ({
            let end = PoolState::<T>::init(size).run(events);
            &&& end.finished.len() == end.submitted.len()
            &&& forall|k: int| 0 <= k < end.submitted.len() ==> #[trigger] end.executions(k) == 1
            &&& end.executed().to_multiset() =~= end.submitted.to_multiset()
            &&& size == 1 ==> end.executed() =~= end.submitted
        }),
{
    lemma_init_inv::<T>(size);
    lemma_run_inv(PoolState::<T>::init(size), events);
    lemma_teardown_runs_each_task_once(PoolState::<T>::init(size).run(events));
}

/// Releasing the producer side is final: whatever happens afterwards, it
/// stays released, nothing more is submitted, and the queue only shrinks.
/// Releasing it again changes nothing.
pub proof fn lemma_release_is_final<T>(s: PoolState<T>, events: Seq<Event<T>>)
    requires
        !s.open,
        s.can_run(events),
    ensures
        !s.run(events).open,
        s.run(events).submitted == s.submitted,
        s.run(events).queue.len() <= s.queue.len(),
        s.close() == s,
    decreases events.len(),
{
    if events.len() > 0 {
        lemma_release_is_final(s.next(events[0]), events.drop_first());
    }
}

/// Once the producer side is released, every step that can happen brings
/// teardown exactly one step closer to its end, and the producer side stays
/// released.
pub proof fn lemma_shutdown_step_counts_down<T>(s: PoolState<T>, event: Event<T>)
    requires
        s.inv(),
        !s.open,
        s.enabled(event),
    ensures
        !s.next(event).open,
        s.next(event).steps_left() + 1 == s.steps_left(),
{
    match event {
        Event::Receive(w) => {
            if s.queue.len() > 0 {
                lemma_worker_steps_update(s.workers, w, Phase::Executing(s.dispatched() as int));
            } else {
                lemma_worker_steps_update(s.workers, w, Phase::Stopped);
            }
        },
        Event::Complete(w) => {
            lemma_worker_steps_update(s.workers, w, Phase::Idle);
        },
        _ => {},
    }
}

/// Teardown cannot get stuck: once the producer side is released and until
/// every worker is joined, the step that teardown is waiting for can happen.
pub proof fn lemma_shutdown_is_never_stuck<T>(s: PoolState<T>)
    requires
        s.inv(),
        !s.open,
        !s.torn_down(),
    ensures
        s.enabled(s.awaited()),
{
}

/// Teardown is over exactly when no step is left.
pub proof fn lemma_no_steps_left<T>(s: PoolState<T>)
    requires
        s.inv(),
        !s.open,
    ensures
        s.steps_left() == 0 <==> s.torn_down(),
{
    lemma_worker_steps_zero(s.workers);
    if s.torn_down() {
        lemma_teardown_runs_each_task_once(s);
    }
}

/// Teardown ends: once the producer side is released, no run of steps is
/// longer than the number of steps left, and a run of that length ends with
/// every worker stopped and joined.
pub proof fn lemma_shutdown_terminates<T>(s: PoolState<T>, events: Seq<Event<T>>)
    requires
        s.inv(),
        !s.open,
        s.can_run(events),
    ensures
        !s.run(events).open,
        events.len() <= s.steps_left(),
        s.run(events).steps_left() + events.len() == s.steps_left(),
        events.len() == s.steps_left() <==> s.run(events).torn_down(),
    decreases events.len(),
{
    if events.len() == 0 {
        lemma_no_steps_left(s);
    } else {
        lemma_shutdown_step_counts_down(s, events[0]);
        lemma_next_inv(s, events[0]);
        lemma_shutdown_terminates(s.next(events[0]), events.drop_first());
    }
}

} // verus!
