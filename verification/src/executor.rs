//! The cooperative task executor: a task table keyed by stable numeric
//! ids, a ready queue, and the wake protocol that parks the CPU without
//! losing wakeups.
//!
//! Tasks themselves — the suspended units of work — live outside this
//! crate: the caller polls the task a popped id names and reports the
//! outcome back. Wakes arrive from interrupt context into a pending list;
//! `sleep_if_idle` models the atomic disable-interrupts, re-check, halt
//! sequence by draining that list before deciding to halt, which is what
//! closes the missed-wakeup race.

use vstd::prelude::*;

verus! {

/// What polling a task produced: still waiting, or finished.
#[derive(Clone, Copy, Debug, PartialEq, Eq, Structural)]
pub enum PollOutcome {
    Pending,
    Done,
}

/// The position of `id` in a sequence, searching from `i`.
pub open spec fn spec_id_index_from(s: Seq<u64>, id: u64, i: int) -> Option<int>
    decreases s.len() - i when 0 <= i <= s.len()
{
    if i >= s.len() {
        None
    } else if s[i] == id {
        Some(i)
    } else {
        spec_id_index_from(s, id, i + 1)
    }
}

/// The position of the first occurrence of `id`, if any.
pub open spec fn spec_id_index(s: Seq<u64>, id: u64) -> Option<int> {
    spec_id_index_from(s, id, 0)
}

/// Draining the pending wakes into the ready queue, oldest first: a woken
/// id joins the queue when it names a live task that is not already
/// queued; anything else is dropped.
pub open spec fn spec_drain(ready: Seq<u64>, woken: Seq<u64>, live: Seq<u64>) -> Seq<u64>
    decreases woken.len(),
{
    if woken.len() == 0 {
        ready
    } else {
        let next = if live.contains(woken[0]) && !ready.contains(woken[0]) {
            ready.push(woken[0])
        } else {
            ready
        };
        spec_drain(next, woken.drop_first(), live)
    }
}

/// Draining never drops an id that is already in the ready queue.
pub proof fn lemma_drain_keeps_ready(ready: Seq<u64>, woken: Seq<u64>, live: Seq<u64>, id: u64)
    requires
        ready.contains(id),
    ensures
        spec_drain(ready, woken, live).contains(id),
    decreases woken.len(),
{
    if woken.len() > 0 {
        let next = if live.contains(woken[0]) && !ready.contains(woken[0]) {
            ready.push(woken[0])
        } else {
            ready
        };
        assert(next.contains(id)) by {
            let k = choose|k: int| 0 <= k < ready.len() && ready[k] == id;
            assert(next[k] == id);
        }
        lemma_drain_keeps_ready(next, woken.drop_first(), live, id);
    }
}

/// A live task woken before the idle check is never missed: after the
/// drain it stands in the ready queue, so the executor does not halt
/// while it is runnable.
pub proof fn lemma_no_missed_wakeup(ready: Seq<u64>, woken: Seq<u64>, live: Seq<u64>, id: u64)
    requires
        woken.contains(id),
        live.contains(id),
    ensures
        spec_drain(ready, woken, live).contains(id),
        spec_drain(ready, woken, live).len() > 0,
    decreases woken.len(),
{
    let next = if live.contains(woken[0]) && !ready.contains(woken[0]) {
        ready.push(woken[0])
    } else {
        ready
    };
    if woken[0] == id {
        assert(next.contains(id)) by {
            if ready.contains(woken[0]) {
            } else {
                assert(next[next.len() - 1] == id);
            }
        }
        lemma_drain_keeps_ready(next, woken.drop_first(), live, id);
    } else {
        assert(woken.drop_first().contains(id)) by {
            let k = choose|k: int| 0 <= k < woken.len() && woken[k] == id;
            assert(woken.drop_first()[k - 1] == id);
        }
        lemma_no_missed_wakeup(next, woken.drop_first(), live, id);
    }
    assert(spec_drain(ready, woken, live).len() > 0) by {
        let j = choose|j: int|
            0 <= j < spec_drain(ready, woken, live).len() && spec_drain(ready, woken, live)[j]
                == id;
    }
}

/// The executor state: live task ids, the ready queue, the wakes pending
/// from interrupt context, and the next id to hand out.
pub struct Executor {
    live: Vec<u64>,
    ready: Vec<u64>,
    woken: Vec<u64>,
    next_id: u64,
}

impl Executor {
    /// The ids of tasks spawned and not yet completed.
    pub closed spec fn live(&self) -> Seq<u64> {
        self.live@
    }

    /// The ids queued for polling, front first.
    pub closed spec fn ready(&self) -> Seq<u64> {
        self.ready@
    }

    /// The wakes delivered from interrupt context and not yet drained.
    pub closed spec fn woken(&self) -> Seq<u64> {
        self.woken@
    }

    /// The id the next spawn will use.
    pub closed spec fn next_id(&self) -> u64 {
        self.next_id
    }

    /// Ids are unique and below `next_id`; the ready queue holds live
    /// ids, each at most once.
    pub closed spec fn wf(&self) -> bool {
        &&& (forall|i: int, j: int|
            0 <= i < j < self.live@.len() ==> self.live@[i] != self.live@[j])
        &&& (forall|i: int| 0 <= i < self.live@.len() ==> #[trigger] self.live@[i] < self.next_id)
        &&& (forall|i: int| 0 <= i < self.ready@.len() ==> self.live@.contains(
            #[trigger] self.ready@[i],
        ))
        &&& (forall|i: int, j: int|
            0 <= i < j < self.ready@.len() ==> self.ready@[i] != self.ready@[j])
    }

    /// An executor with no tasks.
    pub fn new() -> (e: Executor)
        ensures
            e.wf(),
            e.live() == Seq::<u64>::empty(),
            e.ready() == Seq::<u64>::empty(),
            e.woken() == Seq::<u64>::empty(),
            e.next_id() == 0,
    {
        Executor { live: Vec::new(), ready: Vec::new(), woken: Vec::new(), next_id: 0 }
    }

    /// Spawn a task: it gets a fresh stable id and is queued to be polled
    /// at least once before anything else happens to it.
    pub fn spawn(&mut self) -> (id: u64)
        requires
            old(self).wf(),
            old(self).next_id() < u64::MAX,
        ensures
            final(self).wf(),
            id == old(self).next_id(),
            final(self).live() == old(self).live().push(id),
            final(self).ready() == old(self).ready().push(id),
            final(self).woken() == old(self).woken(),
            final(self).next_id() == old(self).next_id() + 1,
    {
        let id = self.next_id;
        self.next_id = self.next_id + 1;
        self.live.push(id);
        self.ready.push(id);
        proof {
            assert(forall|i: int|
                0 <= i < old(self).ready().len() ==> old(self).live().contains(
                    #[trigger] old(self).ready()[i],
                ) ==> self.live@.contains(old(self).ready()[i])) by {
                assert(forall|i: int|
                    0 <= i < old(self).live().len() ==> self.live@[i] == #[trigger] old(
                        self,
                    ).live()[i]);
            }
            assert(forall|i: int|
                0 <= i < self.ready@.len() ==> self.live@.contains(#[trigger] self.ready@[i]))
                by {
                assert(self.live@[self.live@.len() - 1] == id);
                assert(forall|k: int|
                    0 <= k < old(self).live().len() ==> self.live@[k] == #[trigger] old(
                        self,
                    ).live()[k]);
                assert forall|i: int| 0 <= i < self.ready@.len() implies self.live@.contains(
                    #[trigger] self.ready@[i],
                ) by {
                    if i < self.ready@.len() - 1 {
                        assert(old(self).live().contains(self.ready@[i]));
                        let k = choose|k: int|
                            0 <= k < old(self).live().len() && old(self).live()[k]
                                == self.ready@[i];
                        assert(self.live@[k] == self.ready@[i]);
                    } else {
                        assert(self.live@[self.live@.len() - 1] == self.ready@[i]);
                    }
                }
            }
        }
        id
    }

    /// Pop the next ready id for polling, or `None` exactly when nothing
    /// is runnable. The popped task stays live until its poll outcome is
    /// reported.
    pub fn pop_ready(&mut self) -> (r: Option<u64>)
        requires
            old(self).wf(),
        ensures
            final(self).wf(),
            final(self).live() == old(self).live(),
            final(self).woken() == old(self).woken(),
            final(self).next_id() == old(self).next_id(),
            old(self).ready().len() == 0 ==> r is None && final(self).ready() == old(self).ready(),
            old(self).ready().len() > 0 ==> r == Some(old(self).ready()[0]) && final(self).ready()
                == old(self).ready().drop_first(),
    {
        if self.ready.len() == 0 {
            return None;
        }
        let id = self.ready.remove(0);
        proof {
            assert(self.ready@ =~= old(self).ready().drop_first());
        }
        Some(id)
    }

    /// Report the outcome of polling task `id`: a finished task is
    /// removed from the table and from the ready queue; a pending one
    /// stays live and waits for its waker.
    pub fn report_poll(&mut self, id: u64, outcome: PollOutcome)
        requires
            old(self).wf(),
        ensures
            final(self).wf(),
            final(self).woken() == old(self).woken(),
            final(self).next_id() == old(self).next_id(),
            outcome == PollOutcome::Pending ==> final(self).live() == old(self).live()
                && final(self).ready() == old(self).ready(),
            outcome == PollOutcome::Done ==> !final(self).live().contains(id)
                && !final(self).ready().contains(id) && (match spec_id_index(
                old(self).live(),
                id,
            ) {
                Some(k) => final(self).live() == old(self).live().remove(k),
                None => final(self).live() == old(self).live(),
            }) && (match spec_id_index(old(self).ready(), id) {
                Some(k) => final(self).ready() == old(self).ready().remove(k),
                None => final(self).ready() == old(self).ready(),
            }),
    {
        match outcome {
            PollOutcome::Pending => {},
            PollOutcome::Done => {
                self.remove_ready(id);
                self.remove_live(id);
            },
        }
    }

    fn remove_live(&mut self, id: u64)
        requires
            old(self).wf(),
            !old(self).ready().contains(id),
        ensures
            final(self).wf(),
            final(self).ready() == old(self).ready(),
            final(self).woken() == old(self).woken(),
            final(self).next_id() == old(self).next_id(),
            !final(self).live().contains(id),
            match spec_id_index(old(self).live(), id) {
                Some(k) => final(self).live() == old(self).live().remove(k),
                None => final(self).live() == old(self).live(),
            },
    {
        let ghost all = self.live@;
        let mut i: usize = 0;
        while i < self.live.len()
            invariant
                old(self).wf(),
                self == old(self),
                !old(self).ready().contains(id),
                all == self.live@,
                i <= all.len(),
                forall|j: int| 0 <= j < i ==> all[j] != id,
                spec_id_index(all, id) == spec_id_index_from(all, id, i as int),
            decreases all.len() - i,
        {
            if self.live[i] == id {
                self.live.remove(i);
                proof {
                    let t = self.live@;
                    assert(t =~= all.remove(i as int));
                    assert(all[i as int] == id);
                    assert(forall|a: int, b: int|
                        0 <= a < b < all.len() ==> all[a] != all[b]);
                    assert(forall|j: int| 0 <= j < i ==> t[j] == all[j]);
                    assert(forall|j: int| i <= j < t.len() ==> t[j] == all[j + 1]);
                    assert forall|j: int| 0 <= j < t.len() implies #[trigger] t[j] != id by {
                        if j >= i {
                            assert(all[i as int] != all[j + 1]);
                        }
                    }
                    assert(!t.contains(id)) by {
                        if t.contains(id) {
                            let k = choose|k: int| 0 <= k < t.len() && t[k] == id;
                            assert(t[k] != id);
                        }
                    }
                    assert forall|a: int, b: int| 0 <= a < b < t.len() implies t[a] != t[b] by {
                        if b < i {
                        } else if a < i {
                            assert(t[a] == all[a] && t[b] == all[b + 1]);
                        } else {
                            assert(t[a] == all[a + 1] && t[b] == all[b + 1]);
                        }
                    }
                    assert forall|r: int| 0 <= r < self.ready@.len() implies t.contains(
                        #[trigger] self.ready@[r],
                    ) by {
                        assert(all.contains(self.ready@[r]));
                        if self.ready@[r] == id {
                            assert(old(self).ready().contains(id)) by {
                                assert(old(self).ready()[r] == id);
                            }
                        }
                        let k = choose|k: int| 0 <= k < all.len() && all[k] == self.ready@[r];
                        if k < i {
                            assert(t[k] == self.ready@[r]);
                        } else {
                            assert(k != i);
                            assert(t[k - 1] == self.ready@[r]);
                        }
                    }
                }
                return;
            }
            i = i + 1;
        }
        proof {
            if all.contains(id) {
                let k = choose|k: int| 0 <= k < all.len() && all[k] == id;
                assert(false);
            }
        }
    }

    fn remove_ready(&mut self, id: u64)
        requires
            old(self).wf(),
        ensures
            final(self).wf(),
            final(self).live() == old(self).live(),
            final(self).woken() == old(self).woken(),
            final(self).next_id() == old(self).next_id(),
            !final(self).ready().contains(id),
            match spec_id_index(old(self).ready(), id) {
                Some(k) => final(self).ready() == old(self).ready().remove(k),
                None => final(self).ready() == old(self).ready(),
            },
    {
        let ghost all = self.ready@;
        let mut i: usize = 0;
        while i < self.ready.len()
            invariant
                old(self).wf(),
                self == old(self),
                all == self.ready@,
                i <= all.len(),
                forall|j: int| 0 <= j < i ==> all[j] != id,
                spec_id_index(all, id) == spec_id_index_from(all, id, i as int),
            decreases all.len() - i,
        {
            if self.ready[i] == id {
                self.ready.remove(i);
                proof {
                    let t = self.ready@;
                    assert(t =~= all.remove(i as int));
                    assert(all[i as int] == id);
                    assert(forall|a: int, b: int|
                        0 <= a < b < all.len() ==> all[a] != all[b]);
                    assert(forall|j: int| 0 <= j < i ==> t[j] == all[j]);
                    assert(forall|j: int| i <= j < t.len() ==> t[j] == all[j + 1]);
                    assert forall|j: int| 0 <= j < t.len() implies #[trigger] t[j] != id by {
                        if j >= i {
                            assert(all[i as int] != all[j + 1]);
                        }
                    }
                    assert(!t.contains(id)) by {
                        if t.contains(id) {
                            let k = choose|k: int| 0 <= k < t.len() && t[k] == id;
                            assert(t[k] != id);
                        }
                    }
                    assert forall|a: int, b: int| 0 <= a < b < t.len() implies t[a] != t[b] by {
                        if b < i {
                        } else if a < i {
                            assert(t[a] == all[a] && t[b] == all[b + 1]);
                        } else {
                            assert(t[a] == all[a + 1] && t[b] == all[b + 1]);
                        }
                    }
                    assert forall|r: int| 0 <= r < t.len() implies self.live@.contains(
                        #[trigger] t[r],
                    ) by {
                        if r < i {
                            assert(t[r] == all[r]);
                        } else {
                            assert(t[r] == all[r + 1]);
                        }
                        assert(all.contains(t[r])) by {
                            if r < i {
                                assert(all[r] == t[r]);
                            } else {
                                assert(all[r + 1] == t[r]);
                            }
                        }
                    }
                }
                return;
            }
            i = i + 1;
        }
        proof {
            if all.contains(id) {
                let k = choose|k: int| 0 <= k < all.len() && all[k] == id;
                assert(false);
            }
        }
    }

    /// Record a wake for task `id`. Called from interrupt context: it
    /// only appends to the pending list, and never blocks or allocates
    /// beyond the push.
    pub fn wake(&mut self, id: u64)
        requires
            old(self).wf(),
        ensures
            final(self).wf(),
            final(self).live() == old(self).live(),
            final(self).ready() == old(self).ready(),
            final(self).next_id() == old(self).next_id(),
            final(self).woken() == old(self).woken().push(id),
    {
        self.woken.push(id);
    }

    /// The idle-halt decision: with interrupts disabled, drain the
    /// pending wakes into the ready queue and halt only if it is still
    /// empty. A task woken before this check is in the queue when the
    /// decision falls, so it is never missed — omitting this re-check is
    /// the classic missed-wakeup deadlock.
    pub fn sleep_if_idle(&mut self) -> (halt: bool)
        requires
            old(self).wf(),
        ensures
            final(self).wf(),
            final(self).live() == old(self).live(),
            final(self).next_id() == old(self).next_id(),
            final(self).woken() == Seq::<u64>::empty(),
            final(self).ready() == spec_drain(
                old(self).ready(),
                old(self).woken(),
                old(self).live(),
            ),
            halt == (final(self).ready().len() == 0),
            forall|id: u64|
                old(self).woken().contains(id) && old(self).live().contains(id) ==> !halt
                    && final(self).ready().contains(id),
    {
        let ghost ready0 = self.ready@;
        let ghost woken0 = self.woken@;
        let ghost live0 = self.live@;
        proof {
            assert(woken0.skip(0) =~= woken0);
        }
        let mut i: usize = 0;
        while i < self.woken.len()
            invariant
                self.wf(),
                self.live@ == live0,
                self.woken@ == woken0,
                self.next_id == old(self).next_id(),
                i <= woken0.len(),
                spec_drain(ready0, woken0, live0) == spec_drain(
                    self.ready@,
                    woken0.skip(i as int),
                    live0,
                ),
            decreases woken0.len() - i,
        {
            proof {
                vstd::seq_lib::lemma_seq_skip_index(woken0, i as int, 0);
                assert(woken0.skip(i as int).drop_first() =~= woken0.skip(i + 1));
            }
            let id = self.woken[i];
            if self.contains_live(id) && !self.contains_ready(id) {
                let ghost before = self.ready@;
                self.ready.push(id);
                proof {
                    assert forall|r: int| 0 <= r < self.ready@.len() implies live0.contains(
                        #[trigger] self.ready@[r],
                    ) by {
                        if r < self.ready@.len() - 1 {
                            assert(self.ready@[r] == before[r]);
                        } else {
                            assert(self.ready@[r] == id);
                        }
                    }
                    assert forall|a: int, b: int|
                        0 <= a < b < self.ready@.len() implies self.ready@[a] != self.ready@[b]
                    by {
                        if b < self.ready@.len() - 1 {
                            assert(self.ready@[a] == before[a] && self.ready@[b] == before[b]);
                        } else {
                            assert(self.ready@[b] == id && !before.contains(id));
                            assert(self.ready@[a] == before[a]);
                        }
                    }
                }
            }
            i = i + 1;
        }
        proof {
            assert(woken0.skip(woken0.len() as int) =~= Seq::<u64>::empty());
        }
        self.woken = Vec::new();
        let halt = self.ready.len() == 0;
        proof {
            assert forall|id: u64|
                old(self).woken().contains(id) && old(self).live().contains(id) implies !halt
                && self.ready@.contains(id) by {
                lemma_no_missed_wakeup(ready0, woken0, live0, id);
            }
        }
        halt
    }

    /// How many tasks are live, for the caller's run loop.
    pub fn task_count(&self) -> (n: usize)
        ensures
            n == self.live().len(),
    {
        self.live.len()
    }

    fn contains_live(&self, id: u64) -> (r: bool)
        ensures
            r == self.live().contains(id),
    {
        let mut i: usize = 0;
        while i < self.live.len()
            invariant
                i <= self.live@.len(),
                forall|j: int| 0 <= j < i ==> self.live@[j] != id,
            decreases self.live@.len() - i,
        {
            if self.live[i] == id {
                return true;
            }
            i = i + 1;
        }
        proof {
            if self.live@.contains(id) {
                let k = choose|k: int| 0 <= k < self.live@.len() && self.live@[k] == id;
                assert(false);
            }
        }
        false
    }

    fn contains_ready(&self, id: u64) -> (r: bool)
        ensures
            r == self.ready().contains(id),
    {
        let mut i: usize = 0;
        while i < self.ready.len()
            invariant
                i <= self.ready@.len(),
                forall|j: int| 0 <= j < i ==> self.ready@[j] != id,
            decreases self.ready@.len() - i,
        {
            if self.ready[i] == id {
                return true;
            }
            i = i + 1;
        }
        proof {
            if self.ready@.contains(id) {
                let k = choose|k: int| 0 <= k < self.ready@.len() && self.ready@[k] == id;
                assert(false);
            }
        }
        false
    }
}

} // verus!
