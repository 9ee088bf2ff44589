use vstd::prelude::*;
use std::collections::VecDeque;
use crossbeam::channel::Receiver;
use crate::inbox::{waiting, take_waiting};

verus! {

/// Where a task stands in its life.
#[derive(Clone, Copy, Debug, PartialEq, Eq, Structural)]
pub enum TaskStatus {
    /// Live and not being polled: either waiting in the ready queue or parked.
    Pending,
    /// Dequeued and inside a poll of its future.
    Running,
    /// Its future returned ready. Each later wake still gives it one poll.
    Done,
    /// Parked with no wake handle left; it can never be revived.
    Dropped,
}

/// What the run loop must do next.
#[derive(Clone, Copy, Debug, PartialEq, Eq, Structural)]
pub enum Step {
    /// Poll the future of the task with this id.
    Poll(usize),
    /// Nothing is ready, but a parked task may still be woken: block until a wake arrives.
    Wait,
    /// Nothing is ready and no task can ever be woken again: the run is over.
    Stop,
}

/// The abstract state of a scheduler: the status of every task ever spawned
/// (indexed by task id) and the ready queue, front first. A task id may stand
/// in the queue several times, once per wake.
pub struct SchedulerModel {
    pub status: Seq<TaskStatus>,
    pub queue: Seq<usize>,
}

/// Every queue entry names a spawned task.
pub open spec fn model_wf(m: SchedulerModel) -> bool {
    forall|i: int| 0 <= i < m.queue.len() ==> (m.queue[i] as int) < m.status.len()
}

/// No task is inside a poll.
pub open spec fn no_running(m: SchedulerModel) -> bool {
    forall|i: int| 0 <= i < m.status.len() ==> m.status[i] != TaskStatus::Running
}

/// Some task is live and not being polled.
pub open spec fn has_pending(m: SchedulerModel) -> bool {
    exists|t: usize| (t as int) < m.status.len() && m.status[t as int] == TaskStatus::Pending
}

/// A task is parked: live, not being polled, and absent from the ready queue.
pub open spec fn parked(m: SchedulerModel, id: usize) -> bool {
    &&& (id as int) < m.status.len()
    &&& m.status[id as int] == TaskStatus::Pending
    &&& !m.queue.contains(id)
}

/// A new task: pending, and placed at the tail of the ready queue.
pub open spec fn spawn_spec(m: SchedulerModel) -> SchedulerModel {
    SchedulerModel {
        status: m.status.push(TaskStatus::Pending),
        queue: m.queue.push(m.status.len() as usize),
    }
}

/// A wake appends one more entry for the task at the tail of the queue,
/// whatever the task's status: two wakes give two entries.
pub open spec fn wake_spec(m: SchedulerModel, id: usize) -> SchedulerModel {
    SchedulerModel { status: m.status, queue: m.queue.push(id) }
}

/// The end of a poll: a task whose future returned ready is done; otherwise it is
/// pending again (queued if it was woken meanwhile, parked if not).
pub open spec fn finish_spec(m: SchedulerModel, id: usize, ready: bool) -> SchedulerModel {
    SchedulerModel {
        status: m.status.update(
            id as int,
            if ready {
                TaskStatus::Done
            } else {
                TaskStatus::Pending
            },
        ),
        queue: m.queue,
    }
}

/// A parked task whose last wake handle is gone can never run again.
pub open spec fn abandon_spec(m: SchedulerModel, id: usize) -> SchedulerModel {
    if parked(m, id) {
        SchedulerModel { status: m.status.update(id as int, TaskStatus::Dropped), queue: m.queue }
    } else {
        m
    }
}

/// The status of task `t` once every parked task whose flag in `held` is false
/// (no wake handle left) has been dropped.
pub open spec fn settled_status(m: SchedulerModel, held: Seq<bool>, t: int) -> TaskStatus {
    if t < held.len() && !held[t] && parked(m, t as usize) {
        TaskStatus::Dropped
    } else {
        m.status[t]
    }
}

/// Dequeue from the front, discarding entries of dropped tasks, until an entry of
/// a task that is not dropped is found: it is the one to poll. With the queue
/// drained, wait if some task is still pending (parked), else stop.
pub open spec fn next_spec(m: SchedulerModel) -> (SchedulerModel, Step)
    decreases m.queue.len(),
{
    if m.queue.len() == 0 {
        (m, if has_pending(m) { Step::Wait } else { Step::Stop })
    } else {
        let id = m.queue[0];
        if m.status[id as int] != TaskStatus::Dropped {
            (
                SchedulerModel {
                    status: m.status.update(id as int, TaskStatus::Running),
                    queue: m.queue.drop_first(),
                },
                Step::Poll(id),
            )
        } else {
            next_spec(SchedulerModel { status: m.status, queue: m.queue.drop_first() })
        }
    }
}

/// Entry `k` of the queue is the first whose task is not dropped, it names task
/// `id`, and the step that polls it leaves `m1`: the entries after `k`, with `id`
/// running.
pub open spec fn polls_entry(m: SchedulerModel, m1: SchedulerModel, k: int, id: usize) -> bool {
    &&& 0 <= k < m.queue.len()
    &&& m.queue[k] == id
    &&& m.status[id as int] != TaskStatus::Dropped
    &&& forall|j: int| 0 <= j < k ==> m.status[m.queue[j] as int] == TaskStatus::Dropped
    &&& m1.queue == m.queue.subrange(k + 1, m.queue.len() as int)
    &&& m1.status == m.status.update(id as int, TaskStatus::Running)
}

/// What a step of a run does, stated directly: `Poll(id)` takes the first entry
/// of a task that is not dropped and drops the entries before it; `Wait` and
/// `Stop` come once every entry names a dropped task, and empty the queue.
pub open spec fn step_done(m: SchedulerModel, m1: SchedulerModel, r: Step) -> bool {
    if r is Poll {
        exists|k: int| polls_entry(m, m1, k, r->Poll_0)
    } else {
        &&& r == (if has_pending(m) { Step::Wait } else { Step::Stop })
        &&& m1.status == m.status
        &&& m1.queue.len() == 0
        &&& forall|j: int| 0 <= j < m.queue.len() ==> m.status[m.queue[j] as int] == TaskStatus::Dropped
    }
}

/// `next_spec` stated directly, and it keeps the state well formed.
pub proof fn lemma_next_step(m: SchedulerModel)
    requires
        model_wf(m),
    ensures
        model_wf(next_spec(m).0),
        step_done(m, next_spec(m).0, next_spec(m).1),
    decreases m.queue.len(),
{
    if m.queue.len() > 0 {
        let id = m.queue[0];
        let rest = SchedulerModel { status: m.status, queue: m.queue.drop_first() };
        assert(m.queue.drop_first() =~= m.queue.subrange(1, m.queue.len() as int));
        assert forall|i: int| 0 <= i < rest.queue.len() implies (rest.queue[i] as int) < rest.status.len() by {
            assert(rest.queue[i] == m.queue[i + 1]);
        }
        if m.status[id as int] != TaskStatus::Dropped {
            let r = next_spec(m).1;
            assert(r->Poll_0 == id);
            assert(polls_entry(m, next_spec(m).0, 0, r->Poll_0));
        } else {
            lemma_next_step(rest);
            let m1 = next_spec(rest).0;
            match next_spec(rest).1 {
                Step::Poll(id2) => {
                    let k2 = choose|k: int| polls_entry(rest, m1, k, id2);
                    assert(rest.queue.subrange(k2 + 1, rest.queue.len() as int) =~= m.queue.subrange(
                        k2 + 2,
                        m.queue.len() as int,
                    ));
                    assert forall|j: int| 0 <= j < k2 + 1 implies m.status[m.queue[j] as int] == TaskStatus::Dropped by {
                        if j > 0 {
                            assert(m.queue[j] == rest.queue[j - 1]);
                        }
                    }
                    assert(polls_entry(m, m1, k2 + 1, id2));
                },
                _ => {
                    assert forall|j: int| 0 <= j < m.queue.len() implies m.status[m.queue[j] as int] == TaskStatus::Dropped by {
                        if j > 0 {
                            assert(m.queue[j] == rest.queue[j - 1]);
                        }
                    }
                    assert(has_pending(rest) == has_pending(m));
                },
            }
        }
    }
}

/// The ready-queue scheduler that decides, step by step, which task a run polls.
pub struct Scheduler {
    status: Vec<TaskStatus>,
    queue: VecDeque<usize>,
}

impl View for Scheduler {
    type V = SchedulerModel;

    closed spec fn view(&self) -> SchedulerModel {
        SchedulerModel { status: self.status@, queue: self.queue@ }
    }
}

impl Scheduler {
    pub open spec fn wf(&self) -> bool {
        model_wf(self@)
    }

    /// An empty scheduler: no task, empty queue.
    pub fn new() -> (r: Self)
        ensures
            r.wf(),
            r@.status.len() == 0,
            r@.queue.len() == 0,
    {
        Scheduler { status: Vec::new(), queue: VecDeque::new() }
    }

    /// Registers a new task and queues it; returns its id.
    pub fn spawn(&mut self) -> (id: usize)
        requires
            old(self).wf(),
        ensures
            final(self).wf(),
            id as int == old(self)@.status.len(),
            final(self)@ == spawn_spec(old(self)@),
    {
        let id = self.status.len();
        self.status.push(TaskStatus::Pending);
        self.queue.push_back(id);
        proof {
            assert forall|i: int| 0 <= i < self@.queue.len() implies (self@.queue[i] as int)
                < self@.status.len() by {
                if i < old(self)@.queue.len() {
                    assert(self@.queue[i] == old(self)@.queue[i]);
                }
            }
        }
        id
    }

    /// Appends an entry for task `id` to the tail of the ready queue.
    pub fn wake(&mut self, id: usize)
        requires
            old(self).wf(),
            (id as int) < old(self)@.status.len(),
        ensures
            final(self).wf(),
            final(self)@ == wake_spec(old(self)@, id),
    {
        self.queue.push_back(id);
    }

    /// Records the outcome of the poll of task `id`.
    pub fn finish(&mut self, id: usize, ready: bool)
        requires
            old(self).wf(),
            (id as int) < old(self)@.status.len(),
            old(self)@.status[id as int] == TaskStatus::Running,
        ensures
            final(self).wf(),
            final(self)@ == finish_spec(old(self)@, id, ready),
    {
        let s = if ready {
            TaskStatus::Done
        } else {
            TaskStatus::Pending
        };
        self.status.set(id, s);
        assert(self@.queue == old(self)@.queue);
        assert(self@.status.len() == old(self)@.status.len());
    }

    /// Whether task `id` is parked: pending, and with no entry in the queue.
    pub fn is_parked(&self, id: usize) -> (r: bool)
        requires
            self.wf(),
        ensures
            r == parked(self@, id),
    {
        if id >= self.status.len() || self.status[id] != TaskStatus::Pending {
            return false;
        }
        let mut i: usize = 0;
        while i < self.queue.len()
            invariant
                i <= self.queue@.len(),
                forall|j: int| 0 <= j < i ==> self.queue@[j] != id,
            decreases self.queue@.len() - i,
        {
            if self.queue[i] == id {
                return false;
            }
            i += 1;
        }
        true
    }

    /// Marks a parked task as dropped, once its last wake handle is gone;
    /// a task in any other state is left as it is.
    pub fn abandon(&mut self, id: usize)
        requires
            old(self).wf(),
        ensures
            final(self).wf(),
            final(self)@ == abandon_spec(old(self)@, id),
    {
        if self.is_parked(id) {
            self.status.set(id, TaskStatus::Dropped);
        }
    }

    fn any_pending(&self) -> (r: bool)
        ensures
            r == has_pending(self@),
    {
        let mut i: usize = 0;
        while i < self.status.len()
            invariant
                i <= self.status@.len(),
                forall|j: int| 0 <= j < i ==> self.status@[j] != TaskStatus::Pending,
            decreases self.status@.len() - i,
        {
            if self.status[i] == TaskStatus::Pending {
                return true;
            }
            i += 1;
        }
        false
    }

    /// Handles one message taken from the wake channel: queues task `id` again
    /// when the message is `Some(id)` and `id` names a spawned task; anything
    /// else is ignored. Tells whether it queued.
    pub fn accept_wake(&mut self, msg: Option<usize>) -> (queued: bool)
        requires
            old(self).wf(),
        ensures
            final(self).wf(),
            queued == (msg is Some && (msg->0 as int) < old(self)@.status.len()),
            final(self)@ == (if queued {
                wake_spec(old(self)@, msg->0)
            } else {
                old(self)@
            }),
    {
        match msg {
            Some(id) => {
                if id < self.status.len() {
                    self.wake(id);
                    true
                } else {
                    false
                }
            },
            None => false,
        }
    }

    /// Takes the wake messages (task ids) waiting in `inbox` when the call
    /// starts and hands each, in the order received, to `accept_wake`; returns
    /// the ids it queued. Messages sent meanwhile wait for the
    /// next call.
    pub fn drain_wakes(&mut self, inbox: &Receiver<usize>) -> (woken: Vec<usize>)
        requires
            old(self).wf(),
        ensures
            final(self).wf(),
            final(self)@.status == old(self)@.status,
            final(self)@.queue == old(self)@.queue + woken@,
            forall|i: int| 0 <= i < woken@.len() ==> (woken@[i] as int) < old(self)@.status.len(),
    {
        let n = waiting(inbox);
        let mut woken: Vec<usize> = Vec::new();
        let mut i: usize = 0;
        while i < n
            invariant
                self.wf(),
                self@.status == old(self)@.status,
                self@.queue == old(self)@.queue + woken@,
                forall|j: int| 0 <= j < woken@.len() ==> (woken@[j] as int) < old(self)@.status.len(),
            decreases n - i,
        {
            let msg = take_waiting(inbox);
            if msg.is_none() {
                break;
            }
            if self.accept_wake(msg) {
                let id = msg.unwrap();
                woken.push(id);
                assert(self@.queue =~= old(self)@.queue + woken@);
            }
            i += 1;
        }
        woken
    }

    /// For a run with nothing ready: queues the wakes waiting in `inbox` (as
    /// `drain_wakes` does), then drops every task that is still parked and whose
    /// flag in `held` is false. `held[t]` tells whether task `t` still had a wake
    /// handle; read the flags before the call, so that a wake sent just before the
    /// last handle went is found in the inbox. Returns the ids queued.
    pub fn settle(&mut self, inbox: &Receiver<usize>, held: &Vec<bool>) -> (woken: Vec<usize>)
        requires
            old(self).wf(),
        ensures
            final(self).wf(),
            forall|i: int| 0 <= i < woken@.len() ==> (woken@[i] as int) < old(self)@.status.len(),
            final(self)@.queue == old(self)@.queue + woken@,
            final(self)@.status.len() == old(self)@.status.len(),
            forall|t: int| 0 <= t < old(self)@.status.len() ==> final(self)@.status[t] == settled_status(
                SchedulerModel { status: old(self)@.status, queue: old(self)@.queue + woken@ },
                held@,
                t,
            ),
    {
        let woken = self.drain_wakes(inbox);
        let ghost mid = self@;
        let mut t: usize = 0;
        while t < self.status.len()
            invariant
                self.wf(),
                mid.queue == old(self)@.queue + woken@,
                mid.status == old(self)@.status,
                self@.queue == mid.queue,
                self@.status.len() == mid.status.len(),
                t <= self@.status.len(),
                forall|j: int| 0 <= j < t ==> self@.status[j] == settled_status(mid, held@, j),
                forall|j: int| t <= j < self@.status.len() ==> self@.status[j] == mid.status[j],
            decreases self@.status.len() - t,
        {
            if t < held.len() && !held[t] {
                proof {
                    assert(parked(self@, t) == parked(mid, t));
                }
                self.abandon(t);
            }
            t += 1;
        }
        woken
    }

    /// Decides the next step of a run, dequeuing as it goes.
    pub fn next(&mut self) -> (r: Step)
        requires
            old(self).wf(),
            no_running(old(self)@),
        ensures
            final(self).wf(),
            (final(self)@, r) == next_spec(old(self)@),
            step_done(old(self)@, final(self)@, r),
    {
        proof {
            lemma_next_step(old(self)@);
        }
        loop
            invariant
                self.wf(),
                next_spec(self@) == next_spec(old(self)@),
                step_done(old(self)@, next_spec(old(self)@).0, next_spec(old(self)@).1),
            decreases self.queue@.len(),
        {
            match self.queue.pop_front() {
                None => {
                    return if self.any_pending() {
                        Step::Wait
                    } else {
                        Step::Stop
                    };
                },
                Some(id) => {
                    if self.status[id] != TaskStatus::Dropped {
                        self.status.set(id, TaskStatus::Running);
                        return Step::Poll(id);
                    }
                },
            }
        }
    }

    /// The status of task `id`.
    pub fn status(&self, id: usize) -> (r: TaskStatus)
        requires
            (id as int) < self@.status.len(),
        ensures
            r == self@.status[id as int],
    {
        self.status[id]
    }

    /// How many tasks were ever spawned.
    pub fn task_count(&self) -> (r: usize)
        ensures
            r as int == self@.status.len(),
    {
        self.status.len()
    }

    /// How many entries the ready queue holds.
    pub fn queued(&self) -> (r: usize)
        ensures
            r as int == self@.queue.len(),
    {
        self.queue.len()
    }
}

} // verus!
