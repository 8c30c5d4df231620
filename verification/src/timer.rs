//! The quiet-period timer: a queue of firings in deadline order.
//!
//! The timer keeps no clock. Whoever drives it passes the current time, in
//! milliseconds, when arming a firing and when collecting the firings that
//! are due.

use vstd::prelude::*;
use crate::model::TimerSlot;
use crate::model::TimerView;
use crate::model::due_prefix;
use crate::model::fires_before;
use crate::model::ignore;
use crate::model::schedule;
use crate::model::timer_wf;
use crate::event::PathView;

verus! {

/// A firing that has left the queue.
#[derive(Debug)]
pub struct Firing {
    pub deadline: u64,
    pub id: u64,
    pub path: String,
    /// The firing was cancelled and must have no effect.
    pub cancelled: bool,
}

impl View for Firing {
    type V = TimerSlot;

    open spec fn view(&self) -> TimerSlot {
        TimerSlot {
            deadline: self.deadline as nat,
            id: self.id as nat,
            path: self.path@,
            cancelled: self.cancelled,
        }
    }
}

/// The timer of a debouncer.
pub struct WatchTimer {
    queue: Vec<Firing>,
    next_id: u64,
    delay: u64,
}

impl View for WatchTimer {
    type V = TimerView;

    closed spec fn view(&self) -> TimerView {
        TimerView {
            queue: Seq::new(self.queue.len() as nat, |i: int| self.queue[i]@),
            next_id: self.next_id as nat,
            delay: self.delay as nat,
        }
    }
}

/// Where every slot before `i` is due at `deadline` and the slot at `i`, if
/// there is one, is not, the due prefix has length `i`.
pub proof fn lemma_due_prefix_is(queue: Seq<TimerSlot>, deadline: nat, i: int)
    requires
        0 <= i <= queue.len(),
        forall|k: int| 0 <= k < i ==> (#[trigger] queue[k]).deadline <= deadline,
        i < queue.len() ==> queue[i].deadline > deadline,
    ensures
        due_prefix(queue, deadline) == i,
    decreases queue.len(),
{
    if i > 0 {
        assert(queue[0].deadline <= deadline);
        let rest = queue.drop_first();
        assert forall|k: int| 0 <= k < i - 1 implies (#[trigger] rest[k]).deadline <= deadline by {
            assert(rest[k] == queue[k + 1]);
        }
        lemma_due_prefix_is(rest, deadline, i - 1);
    }
}

/// The due prefix is a prefix, its slots are due, and the slot after it is
/// not.
pub proof fn lemma_due_prefix_bounds(queue: Seq<TimerSlot>, deadline: nat)
    ensures
        due_prefix(queue, deadline) <= queue.len(),
        forall|k: int|
            0 <= k < due_prefix(queue, deadline) ==> (#[trigger] queue[k]).deadline <= deadline,
        due_prefix(queue, deadline) < queue.len() ==> queue[due_prefix(queue, deadline) as int].deadline
            > deadline,
    decreases queue.len(),
{
    if queue.len() > 0 && queue[0].deadline <= deadline {
        let rest = queue.drop_first();
        lemma_due_prefix_bounds(rest, deadline);
        assert forall|k: int| 0 <= k < due_prefix(queue, deadline) implies (
        #[trigger] queue[k]).deadline <= deadline by {
            if k > 0 {
                assert(rest[k - 1] == queue[k]);
            }
        }
        if due_prefix(queue, deadline) < queue.len() {
            assert(rest[due_prefix(rest, deadline) as int] == queue[due_prefix(queue, deadline) as int]);
        }
    }
}

/// Arming a firing keeps the timer well formed.
pub proof fn lemma_schedule_wf(t: TimerView, path: PathView, now: nat)
    requires
        timer_wf(t),
    ensures
        timer_wf(schedule(t, path, now)),
{
    reveal(schedule);
    let deadline = (now + t.delay) as nat;
    let at = due_prefix(t.queue, deadline) as int;
    lemma_due_prefix_bounds(t.queue, deadline);
    let after = schedule(t, path, now);
    assert forall|i: int, j: int| 0 <= i < j < after.queue.len() implies fires_before(
        #[trigger] after.queue[i],
        #[trigger] after.queue[j],
    ) && after.queue[i].id != after.queue[j].id by {
        let i0 = if i < at { i } else { i - 1 };
        let j0 = if j < at { j } else { j - 1 };
        if i == at {
            assert(after.queue[j] == t.queue[j0]);
            assert(fires_before(t.queue[at], t.queue[j0]) || at == j0);
            assert(t.queue[j0].id < t.next_id);
        } else if j == at {
            assert(after.queue[i] == t.queue[i0]);
            assert(t.queue[i0].id < t.next_id);
        } else {
            assert(after.queue[i] == t.queue[i0]);
            assert(after.queue[j] == t.queue[j0]);
            assert(fires_before(t.queue[i0], t.queue[j0]));
        }
    }
    assert forall|i: int| 0 <= i < after.queue.len() implies (#[trigger] after.queue[i]).id
        < after.next_id by {
        let i0 = if i < at { i } else { i - 1 };
        if i != at {
            assert(after.queue[i] == t.queue[i0]);
        }
    }
}

/// Cancelling a firing keeps the timer well formed.
pub proof fn lemma_ignore_wf(t: TimerView, id: nat)
    requires
        timer_wf(t),
    ensures
        timer_wf(ignore(t, id)),
{
    reveal(ignore);
    let after = ignore(t, id);
    assert forall|i: int, j: int| 0 <= i < j < after.queue.len() implies fires_before(
        #[trigger] after.queue[i],
        #[trigger] after.queue[j],
    ) && after.queue[i].id != after.queue[j].id by {
        assert(fires_before(t.queue[i], t.queue[j]));
    }
    assert forall|i: int| 0 <= i < after.queue.len() implies (#[trigger] after.queue[i]).id
        < after.next_id by {
        assert(t.queue[i].id < t.next_id);
    }
}

impl WatchTimer {
    /// The queue is in firing order, and every id in it was handed out, once.
    pub open spec fn wf(&self) -> bool {
        timer_wf(self@)
    }

    /// A timer with nothing armed.
    pub fn new(delay: u64) -> (r: WatchTimer)
        requires
            delay > 0,
        ensures
            r.wf(),
            r@ == (TimerView { queue: Seq::empty(), next_id: 0, delay: delay as nat }),
    {
        let r = WatchTimer { queue: Vec::new(), next_id: 0, delay };
        assert(r@.queue =~= Seq::empty());
        r
    }

    /// The quiet period, in milliseconds.
    pub fn delay(&self) -> (r: u64)
        ensures
            r == self@.delay,
    {
        self.delay
    }

    /// The id that the next firing will get.
    pub fn next_id(&self) -> (r: u64)
        ensures
            r == self@.next_id,
    {
        self.next_id
    }

    /// Arms a one-shot firing for `path` at `now` plus the delay, and returns
    /// its id. Ids grow by one with each call.
    pub fn schedule(&mut self, path: String, now: u64) -> (id: u64)
        requires
            old(self)@.next_id < u64::MAX,
            now + old(self)@.delay <= u64::MAX,
        ensures
            id == old(self)@.next_id,
            final(self)@ == schedule(old(self)@, path@, now as nat),
            final(self)@.next_id == old(self)@.next_id + 1,
            final(self)@.delay == old(self)@.delay,
            old(self).wf() ==> final(self).wf(),
    {
        proof {
            reveal(schedule);
        }
        let ghost before = self@;
        let deadline: u64 = now + self.delay;
        let mut at: usize = 0;
        while at < self.queue.len() && self.queue[at].deadline <= deadline
            invariant
                at <= self.queue.len(),
                forall|k: int| 0 <= k < at ==> (#[trigger] self.queue[k]).deadline <= deadline,
            decreases self.queue.len() - at,
        {
            at += 1;
        }
        let id: u64 = self.next_id;
        proof {
            assert forall|k: int| 0 <= k < at implies (#[trigger] before.queue[k]).deadline
                <= deadline by {
                assert(self.queue[k].deadline <= deadline);
            }
            lemma_due_prefix_is(before.queue, deadline as nat, at as int);
        }
        self.queue.insert(at, Firing { deadline, id, path, cancelled: false });
        self.next_id = self.next_id + 1;
        proof {
            assert(self@.queue =~= schedule(before, path@, now as nat).queue);
            if timer_wf(before) {
                lemma_schedule_wf(before, path@, now as nat);
            }
        }
        id
    }

    /// Cancels the firing with this id: at its deadline it will have no
    /// effect. An id that is not queued is left alone.
    pub fn ignore(&mut self, id: u64)
        ensures
            final(self)@ == ignore(old(self)@, id as nat),
            final(self)@.next_id == old(self)@.next_id,
            final(self)@.delay == old(self)@.delay,
            old(self).wf() ==> final(self).wf(),
    {
        proof {
            reveal(ignore);
        }
        let ghost before = self@;
        let mut i: usize = 0;
        while i < self.queue.len()
            invariant
                i <= self.queue.len(),
                self.queue.len() == before.queue.len(),
                self.next_id == before.next_id,
                self.delay == before.delay,
                forall|k: int| 0 <= k < i ==> (#[trigger] self.queue[k])@ == ignore(before, id as nat).queue[k],
                forall|k: int|
                    i <= k < self.queue.len() ==> (#[trigger] self.queue[k])@ == before.queue[k],
            decreases self.queue.len() - i,
        {
            proof {
                reveal(ignore);
            }
            if self.queue[i].id == id {
                self.queue[i].cancelled = true;
            }
            i += 1;
        }
        proof {
            reveal(ignore);
            assert(self@.queue =~= ignore(before, id as nat).queue);
            if timer_wf(before) {
                lemma_ignore_wf(before, id as nat);
            }
        }
    }

    /// The deadline of the firing at the head of the queue, cancelled or not.
    pub fn next_deadline(&self) -> (r: Option<u64>)
        ensures
            match r {
                Some(d) => self@.queue.len() > 0 && d == self@.queue[0].deadline,
                None => self@.queue.len() == 0,
            },
    {
        if self.queue.len() > 0 {
            Some(self.queue[0].deadline)
        } else {
            None
        }
    }

    /// Takes the head of the queue out if its deadline is at most `now`.
    pub fn pop_due(&mut self, now: u64) -> (r: Option<Firing>)
        ensures
            match r {
                Some(f) => {
                    &&& old(self)@.queue.len() > 0
                    &&& old(self)@.queue[0].deadline <= now
                    &&& f@ == old(self)@.queue[0]
                    &&& final(self)@ == (TimerView {
                        queue: old(self)@.queue.drop_first(),
                        ..old(self)@
                    })
                },
                None => {
                    &&& !(old(self)@.queue.len() > 0 && old(self)@.queue[0].deadline <= now)
                    &&& final(self)@ == old(self)@
                },
            },
            old(self).wf() ==> final(self).wf(),
    {
        let ghost before = self@;
        if self.queue.len() > 0 && self.queue[0].deadline <= now {
            let f = self.queue.remove(0);
            proof {
                assert(self@.queue =~= before.queue.drop_first());
                if timer_wf(before) {
                    assert forall|i: int, j: int| 0 <= i < j < self@.queue.len() implies fires_before(
                        #[trigger] self@.queue[i],
                        #[trigger] self@.queue[j],
                    ) && self@.queue[i].id != self@.queue[j].id by {
                        assert(fires_before(before.queue[i + 1], before.queue[j + 1]));
                    }
                    assert forall|i: int| 0 <= i < self@.queue.len() implies (
                    #[trigger] self@.queue[i]).id < self@.next_id by {
                        assert(before.queue[i + 1].id < before.next_id);
                    }
                }
            }
            Some(f)
        } else {
            None
        }
    }
}

} // verus!
