use vstd::prelude::*;
use vstd::seq_lib::lemma_multiset_commutative;
use vstd::multiset::Multiset;
use crate::scheduler::{
    SchedulerModel,
    Step,
    TaskStatus,
    model_wf,
    no_running,
    has_pending,
    parked,
    wake_spec,
    finish_spec,
    next_spec,
    polls_entry,
    lemma_next_step,
};

verus! {

/// A run from state `m` with no wake arriving from outside: each `Poll` step is
/// answered by the next entry of `outcomes` (true: the future returned ready).
/// The result is the final state, the ids polled in order, and the step the run
/// ended on: `Stop` or `Wait`, or a `Poll` left unanswered once `outcomes` ran out.
pub open spec fn drive(m: SchedulerModel, outcomes: Seq<bool>) -> (SchedulerModel, Seq<usize>, Step)
    decreases outcomes.len(),
{
    let (m1, a) = next_spec(m);
    match a {
        Step::Poll(id) => {
            if outcomes.len() == 0 {
                (m, Seq::empty(), a)
            } else {
                let r = drive(finish_spec(m1, id, outcomes[0]), outcomes.drop_first());
                (r.0, seq![id] + r.1, r.2)
            }
        },
        _ => (m1, Seq::empty(), a),
    }
}

/// After a poll step and its outcome, the state is well formed and idle again.
pub proof fn lemma_finish_after_poll(m: SchedulerModel, id: usize, ready: bool)
    requires
        model_wf(m),
        no_running(m),
        next_spec(m).1 == Step::Poll(id),
    ensures
        model_wf(finish_spec(next_spec(m).0, id, ready)),
        no_running(finish_spec(next_spec(m).0, id, ready)),
        finish_spec(next_spec(m).0, id, ready).status.len() == m.status.len(),
{
    lemma_next_step(m);
}

/// Progress: a task that is not dropped and has an entry in the ready queue is
/// polled before a run that receives no further wake returns or blocks.
pub proof fn lemma_queued_task_is_polled(m: SchedulerModel, id: usize, outcomes: Seq<bool>)
    requires
        model_wf(m),
        no_running(m),
        (id as int) < m.status.len(),
        m.status[id as int] != TaskStatus::Dropped,
        m.queue.contains(id),
        !(drive(m, outcomes).2 is Poll),
    ensures
        drive(m, outcomes).1.contains(id),
    decreases outcomes.len(),
{
    lemma_next_step(m);
    let i = choose|i: int| 0 <= i < m.queue.len() && m.queue[i] == id;
    match next_spec(m).1 {
        Step::Poll(x) => {
            if outcomes.len() > 0 {
                let ps = drive(m, outcomes).1;
                if x == id {
                    assert(ps[0] == id);
                } else {
                    let k = choose|k: int| polls_entry(m, next_spec(m).0, k, x);
                    lemma_finish_after_poll(m, x, outcomes[0]);
                    let m2 = finish_spec(next_spec(m).0, x, outcomes[0]);
                    assert(i > k);
                    assert(m2.queue[i - k - 1] == id);
                    lemma_queued_task_is_polled(m2, id, outcomes.drop_first());
                    let ps2 = drive(m2, outcomes.drop_first()).1;
                    let j = choose|j: int| 0 <= j < ps2.len() && ps2[j] == id;
                    assert(ps[j + 1] == id);
                }
            }
        },
        _ => {
            assert(m.status[m.queue[i] as int] == TaskStatus::Dropped);
        },
    }
}

/// Termination: when every live task waits in the ready queue, no wake arrives,
/// and every poll returns ready, the run stops after at most as many polls as
/// the queue has entries.
pub proof fn lemma_run_terminates(m: SchedulerModel, outcomes: Seq<bool>)
    requires
        model_wf(m),
        no_running(m),
        forall|t: usize| (t as int) < m.status.len() && m.status[t as int] == TaskStatus::Pending
            ==> m.queue.contains(t),
        outcomes.len() >= m.queue.len(),
        forall|i: int| 0 <= i < outcomes.len() ==> outcomes[i],
    ensures
        drive(m, outcomes).2 == Step::Stop,
        drive(m, outcomes).1.len() <= m.queue.len(),
    decreases m.queue.len(),
{
    lemma_next_step(m);
    match next_spec(m).1 {
        Step::Poll(x) => {
            let k = choose|k: int| polls_entry(m, next_spec(m).0, k, x);
            lemma_finish_after_poll(m, x, outcomes[0]);
            let m2 = finish_spec(next_spec(m).0, x, outcomes[0]);
            assert forall|t: usize| (t as int) < m2.status.len() && m2.status[t as int] == TaskStatus::Pending
                implies m2.queue.contains(t) by {
                assert(t != x);
                assert(m.status[t as int] == TaskStatus::Pending);
                let i = choose|i: int| 0 <= i < m.queue.len() && m.queue[i] == t;
                assert(m.status[m.queue[i] as int] == TaskStatus::Pending);
                assert(i > k);
                assert(m2.queue[i - k - 1] == t);
            }
            let rest = outcomes.drop_first();
            assert forall|i: int| 0 <= i < rest.len() implies rest[i] by {
                assert(rest[i] == outcomes[i + 1]);
            }
            lemma_run_terminates(m2, rest);
        },
        Step::Wait => {
            let t = choose|t: usize| (t as int) < m.status.len() && m.status[t as int] == TaskStatus::Pending;
            assert(m.queue.contains(t));
            let i = choose|i: int| 0 <= i < m.queue.len() && m.queue[i] == t;
            assert(m.status[m.queue[i] as int] == TaskStatus::Dropped);
        },
        Step::Stop => {},
    }
}

/// The queue is served in order: when a task `a` that is not dropped has an entry that comes
/// before every entry of `b`, a run that receives no further wake polls `a`
/// before it polls `b`.
pub proof fn lemma_earlier_entry_polled_first(m: SchedulerModel, a: usize, b: usize, ia: int, outcomes: Seq<bool>)
    requires
        model_wf(m),
        no_running(m),
        a != b,
        (a as int) < m.status.len(),
        m.status[a as int] != TaskStatus::Dropped,
        0 <= ia < m.queue.len(),
        m.queue[ia] == a,
        forall|j: int| 0 <= j <= ia ==> m.queue[j] != b,
    ensures
        forall|k: int| 0 <= k < drive(m, outcomes).1.len() && drive(m, outcomes).1[k] == b
            ==> exists|j: int| 0 <= j < k && drive(m, outcomes).1[j] == a,
    decreases outcomes.len(),
{
    lemma_next_step(m);
    match next_spec(m).1 {
        Step::Poll(x) => {
            if outcomes.len() > 0 {
                let ps = drive(m, outcomes).1;
                let k = choose|k: int| polls_entry(m, next_spec(m).0, k, x);
                assert(k <= ia);
                assert(ps[0] == x);
                if x == a {
                    assert forall|kk: int| 0 <= kk < ps.len() && ps[kk] == b
                        implies exists|j: int| 0 <= j < kk && ps[j] == a by {
                        assert(ps[0] == a);
                    }
                } else {
                    lemma_finish_after_poll(m, x, outcomes[0]);
                    let m2 = finish_spec(next_spec(m).0, x, outcomes[0]);
                    let ia2 = ia - k - 1;
                    assert(m2.queue[ia2] == a);
                    assert forall|j: int| 0 <= j <= ia2 implies m2.queue[j] != b by {
                        assert(m2.queue[j] == m.queue[j + k + 1]);
                    }
                    lemma_earlier_entry_polled_first(m2, a, b, ia2, outcomes.drop_first());
                    let ps2 = drive(m2, outcomes.drop_first()).1;
                    assert forall|kk: int| 0 <= kk < ps.len() && ps[kk] == b
                        implies exists|j: int| 0 <= j < kk && ps[j] == a by {
                        assert(kk > 0);
                        assert(ps2[kk - 1] == b);
                        let j2 = choose|j: int| 0 <= j < kk - 1 && ps2[j] == a;
                        assert(ps[j2 + 1] == a);
                    }
                }
            }
        },
        _ => {},
    }
}

/// FIFO: when a task `a` that is not dropped and then a task `b` with no entry in the queue
/// are woken, `a` is polled before `b` in the run that follows.
pub proof fn lemma_fifo(m: SchedulerModel, a: usize, b: usize, outcomes: Seq<bool>)
    requires
        model_wf(m),
        no_running(m),
        a != b,
        (a as int) < m.status.len(),
        (b as int) < m.status.len(),
        m.status[a as int] != TaskStatus::Dropped,
        !m.queue.contains(b),
    ensures
        ({
            let polls = drive(wake_spec(wake_spec(m, a), b), outcomes).1;
            forall|k: int| 0 <= k < polls.len() && polls[k] == b
                ==> exists|j: int| 0 <= j < k && polls[j] == a
        }),
{
    let m2 = wake_spec(wake_spec(m, a), b);
    let ia = m.queue.len() as int;
    assert forall|j: int| 0 <= j <= ia implies m2.queue[j] != b by {
        if j < ia {
            assert(m2.queue[j] == m.queue[j]);
        }
    }
    assert(model_wf(m2));
    lemma_earlier_entry_polled_first(m2, a, b, ia, outcomes);
}

/// Progress: a parked task that is woken is polled again before the run that
/// follows returns or blocks.
pub proof fn lemma_woken_task_is_polled(m: SchedulerModel, id: usize, outcomes: Seq<bool>)
    requires
        model_wf(m),
        no_running(m),
        parked(m, id),
        !(drive(wake_spec(m, id), outcomes).2 is Poll),
    ensures
        drive(wake_spec(m, id), outcomes).1.contains(id),
{
    let m2 = wake_spec(m, id);
    assert(m2.queue[m.queue.len() as int] == id);
    lemma_queued_task_is_polled(m2, id, outcomes);
}

/// Re-entrant wake: a task that wakes itself during its poll and then returns
/// not ready is polled again before the run that follows returns or blocks.
pub proof fn lemma_self_wake_repolls(m: SchedulerModel, id: usize, outcomes: Seq<bool>)
    requires
        model_wf(m),
        (id as int) < m.status.len(),
        m.status[id as int] == TaskStatus::Running,
        forall|t: int| 0 <= t < m.status.len() && t != id as int ==> m.status[t] != TaskStatus::Running,
        !(drive(finish_spec(wake_spec(m, id), id, false), outcomes).2 is Poll),
    ensures
        drive(finish_spec(wake_spec(m, id), id, false), outcomes).1.contains(id),
{
    let m2 = finish_spec(wake_spec(m, id), id, false);
    assert(m2.queue[m.queue.len() as int] == id);
    lemma_queued_task_is_polled(m2, id, outcomes);
}

/// One poll per entry: in a run that receives no further wake, a task is polled
/// at most once per entry it has in the queue; exactly once per entry when it is
/// not dropped and the run ends by waiting or stopping; never when it is dropped.
pub proof fn lemma_one_poll_per_entry(m: SchedulerModel, id: usize, outcomes: Seq<bool>)
    requires
        model_wf(m),
        no_running(m),
        (id as int) < m.status.len(),
    ensures
        drive(m, outcomes).1.to_multiset().count(id) <= m.queue.to_multiset().count(id),
        m.status[id as int] != TaskStatus::Dropped && !(drive(m, outcomes).2 is Poll)
            ==> drive(m, outcomes).1.to_multiset().count(id) == m.queue.to_multiset().count(id),
        m.status[id as int] == TaskStatus::Dropped ==> !drive(m, outcomes).1.contains(id),
    decreases outcomes.len(),
{
    broadcast use vstd::seq_lib::group_to_multiset_ensures;

    lemma_next_step(m);
    match next_spec(m).1 {
        Step::Poll(x) => {
            if outcomes.len() > 0 {
                let k = choose|k: int| polls_entry(m, next_spec(m).0, k, x);
                lemma_finish_after_poll(m, x, outcomes[0]);
                let m2 = finish_spec(next_spec(m).0, x, outcomes[0]);
                assert(m2.status[id as int] == TaskStatus::Dropped <==> m.status[id as int]
                    == TaskStatus::Dropped);
                lemma_one_poll_per_entry(m2, id, outcomes.drop_first());
                let ps2 = drive(m2, outcomes.drop_first()).1;
                let ps = drive(m, outcomes).1;
                let before = m.queue.subrange(0, k);
                let pre = m.queue.subrange(0, k + 1);
                assert(m.queue =~= pre + m2.queue);
                assert(pre =~= before.push(x));
                lemma_multiset_commutative(pre, m2.queue);
                lemma_multiset_commutative(seq![x], ps2);
                assert(seq![x] =~= Seq::<usize>::empty().push(x));
                assert(Seq::<usize>::empty().to_multiset() =~= Multiset::empty());
                if m.status[id as int] != TaskStatus::Dropped {
                    assert(!before.contains(id));
                } else {
                    assert(x != id);
                    assert forall|j: int| 0 <= j < ps.len() implies ps[j] != id by {
                        if j > 0 {
                            assert(ps[j] == ps2[j - 1]);
                        }
                    }
                }
            }
        },
        _ => {
            if m.status[id as int] != TaskStatus::Dropped {
                assert(!m.queue.contains(id));
            }
            assert(Seq::<usize>::empty().to_multiset() =~= Multiset::empty());
        },
    }
}

/// `n` wakes of task `id` in a row.
pub open spec fn wake_times(m: SchedulerModel, id: usize, n: nat) -> SchedulerModel
    decreases n,
{
    if n == 0 {
        m
    } else {
        wake_spec(wake_times(m, id, (n - 1) as nat), id)
    }
}

proof fn lemma_wake_times(m: SchedulerModel, id: usize, n: nat)
    requires
        model_wf(m),
        (id as int) < m.status.len(),
    ensures
        model_wf(wake_times(m, id, n)),
        wake_times(m, id, n).status == m.status,
        wake_times(m, id, n).queue.to_multiset().count(id) == m.queue.to_multiset().count(id) + n,
    decreases n,
{
    broadcast use vstd::seq_lib::group_to_multiset_ensures;

    if n > 0 {
        lemma_wake_times(m, id, (n - 1) as nat);
        let prev = wake_times(m, id, (n - 1) as nat);
        assert(wake_times(m, id, n).queue == prev.queue.push(id));
    }
}

/// Spurious wakes: `n` extra wakes of a task cause at most `n` extra polls of it
/// in the run that follows, and none is lost: when the task is not dropped and
/// the run ends by waiting or stopping, each of them gave exactly one poll.
pub proof fn lemma_extra_wakes(m: SchedulerModel, id: usize, n: nat, outcomes: Seq<bool>)
    requires
        model_wf(m),
        no_running(m),
        (id as int) < m.status.len(),
    ensures
        drive(wake_times(m, id, n), outcomes).1.to_multiset().count(id) <= m.queue.to_multiset().count(id) + n,
        m.status[id as int] != TaskStatus::Dropped && !(drive(wake_times(m, id, n), outcomes).2 is Poll)
            ==> drive(wake_times(m, id, n), outcomes).1.to_multiset().count(id)
            == m.queue.to_multiset().count(id) + n,
{
    lemma_wake_times(m, id, n);
    lemma_one_poll_per_entry(wake_times(m, id, n), id, outcomes);
}

/// A single wake, from whatever thread it came, of a parked task gives exactly
/// one more poll of it before the run that follows returns or blocks.
pub proof fn lemma_one_wake_one_poll(m: SchedulerModel, id: usize, outcomes: Seq<bool>)
    requires
        model_wf(m),
        no_running(m),
        parked(m, id),
        !(drive(wake_spec(m, id), outcomes).2 is Poll),
    ensures
        drive(wake_spec(m, id), outcomes).1.to_multiset().count(id) == 1,
{
    broadcast use vstd::seq_lib::group_to_multiset_ensures;

    lemma_woken_task_is_polled(m, id, outcomes);
    lemma_one_poll_per_entry(wake_spec(m, id), id, outcomes);
    assert(m.queue.to_multiset().count(id) == 0);
}

/// A run that receives no further wake polls at most once per queue entry,
/// whatever the futures return; given an outcome for each of those polls it
/// ends by waiting or stopping.
pub proof fn lemma_run_is_bounded(m: SchedulerModel, outcomes: Seq<bool>)
    requires
        model_wf(m),
        no_running(m),
    ensures
        drive(m, outcomes).1.len() <= m.queue.len(),
        outcomes.len() >= m.queue.len() ==> !(drive(m, outcomes).2 is Poll),
    decreases m.queue.len(),
{
    lemma_next_step(m);
    match next_spec(m).1 {
        Step::Poll(x) => {
            if outcomes.len() > 0 {
                lemma_finish_after_poll(m, x, outcomes[0]);
                lemma_run_is_bounded(finish_spec(next_spec(m).0, x, outcomes[0]), outcomes.drop_first());
            }
        },
        _ => {},
    }
}

} // verus!
