//! The timers of `mplug.every` and `mplug.after`: a queue ordered by
//! deadline, the ids cancelled from Lua, and which timers fire when.
//!
//! Time is given in milliseconds of a monotonic clock; the callbacks stay
//! with the caller, keyed by timer id.

use vstd::prelude::*;
use std::collections::HashSet;

verus! {

broadcast use vstd::std_specs::hash::group_hash_axioms;

/// How long the event loop waits when no timer is queued.
pub const IDLE_TIMEOUT_MS: u64 = 3600 * 1000;

/// A queued timer.
#[derive(Debug, Clone, Copy, PartialEq, Eq, Structural)]
pub struct TimerEntry {
    /// When it fires.
    pub deadline_ms: u64,
    /// The id that `mplug.every` / `mplug.after` returned for it.
    pub id: u64,
    /// The period of a repeating timer; `None` for a one-shot timer.
    pub interval_ms: Option<u64>,
}

/// Whether `a` fires no later than `b`: by deadline, then by id.
pub open spec fn entry_before(a: TimerEntry, b: TimerEntry) -> bool {
    a.deadline_ms < b.deadline_ms || (a.deadline_ms == b.deadline_ms && a.id <= b.id)
}

/// The entries are in firing order.
pub open spec fn in_firing_order(s: Seq<TimerEntry>) -> bool {
    forall|i: int, j: int| 0 <= i < j < s.len() ==> entry_before(#[trigger] s[i], #[trigger] s[j])
}

/// `s` with `e` placed after every entry that fires no later than it.
pub open spec fn enqueue(s: Seq<TimerEntry>, e: TimerEntry) -> Seq<TimerEntry>
    decreases s.len(),
{
    if s.len() == 0 {
        seq![e]
    } else if entry_before(s.last(), e) {
        s.push(e)
    } else {
        enqueue(s.drop_last(), e).push(s.last())
    }
}

/// How many entries at the front of `s` are due at `now_ms`.
pub open spec fn due_count(s: Seq<TimerEntry>, now_ms: u64) -> nat
    decreases s.len(),
{
    if s.len() > 0 && s[0].deadline_ms <= now_ms {
        1 + due_count(s.drop_first(), now_ms)
    } else {
        0
    }
}

/// What the next due timer comes to.
#[derive(Debug, Clone, Copy, PartialEq, Eq, Structural)]
pub enum DueTimer {
    /// Its callback runs now; it was not cancelled.
    Fire(TimerEntry),
    /// It was cancelled before its turn: it is dropped, its id leaves the
    /// cancelled set, and its callback can go.
    Reaped(u64),
}

/// What became of a timer after its callback ran.
#[derive(Debug, Clone, Copy, PartialEq, Eq, Structural)]
pub enum Finish {
    /// It was cancelled meanwhile and is gone, its id out of the cancelled set.
    Cancelled,
    /// It repeats and is queued again one period after its last deadline.
    Rescheduled,
    /// It was a one-shot timer and is gone.
    Done,
}

/// The timer queue: the timers waiting for their deadline, those that came
/// due and wait for their turn to fire, and the ids cancelled from Lua.
pub struct TimerQueue {
    entries: Vec<TimerEntry>,
    firing: Vec<TimerEntry>,
    cancelled: HashSet<u64>,
    next_id: u64,
}

impl TimerQueue {
    #[verifier::type_invariant]
    spec fn well_kept(self) -> bool {
        &&& in_firing_order(self.entries@)
        &&& forall|i: int| 0 <= i < self.entries@.len() ==> #[trigger] self.entries@[i].id < self.next_id
        &&& forall|i: int| 0 <= i < self.firing@.len() ==> #[trigger] self.firing@[i].id < self.next_id
    }

    /// The timers waiting for their deadline, in firing order.
    pub closed spec fn queued(&self) -> Seq<TimerEntry> {
        self.entries@
    }

    /// The timers that came due and wait for their turn, in firing order.
    pub closed spec fn due(&self) -> Seq<TimerEntry> {
        self.firing@
    }

    /// The ids cancelled and not yet reaped.
    pub closed spec fn cancelled_ids(&self) -> Set<u64> {
        self.cancelled@
    }

    /// The id the next timer gets.
    pub closed spec fn next(&self) -> u64 {
        self.next_id
    }

    /// An empty queue; the first timer gets id 0.
    pub fn new() -> (r: TimerQueue)
        ensures
            r.queued() == Seq::<TimerEntry>::empty(),
            r.due() == Seq::<TimerEntry>::empty(),
            r.cancelled_ids() == Set::<u64>::empty(),
            r.next() == 0,
    {
        TimerQueue { entries: Vec::new(), firing: Vec::new(), cancelled: HashSet::new(), next_id: 0 }
    }

    /// How many timers wait for their deadline.
    pub fn pending(&self) -> (r: usize)
        ensures
            r == self.queued().len(),
    {
        self.entries.len()
    }

    /// How many cancelled ids wait to be reaped.
    pub fn cancelled_count(&self) -> (r: usize)
        ensures
            r == self.cancelled_ids().len(),
    {
        self.cancelled.len()
    }

    /// Whether the timer with this id was cancelled and not yet reaped.
    pub fn is_cancelled(&self, id: u64) -> (r: bool)
        ensures
            r == self.cancelled_ids().contains(id),
    {
        self.cancelled.contains(&id)
    }

    /// Queues `e` in firing order.
    fn push_entry(&mut self, e: TimerEntry)
        requires
            e.id < old(self).next(),
        ensures
            final(self).queued() == enqueue(old(self).queued(), e),
            final(self).cancelled_ids() == old(self).cancelled_ids(),
            final(self).due() == old(self).due(),
            final(self).next() == old(self).next(),
    {
        proof {
            use_type_invariant(&*self);
        }
        let mut j = self.entries.len();
        while j > 0 && !(self.entries[j - 1].deadline_ms < e.deadline_ms || (self.entries[j - 1].deadline_ms
            == e.deadline_ms && self.entries[j - 1].id <= e.id))
            invariant
                j <= self.entries.len(),
                in_firing_order(self.entries@),
                e.id < self.next_id,
                forall|i: int| 0 <= i < self.entries@.len() ==> #[trigger] self.entries@[i].id < self.next_id,
                forall|m: int| j <= m < self.entries.len() ==> !entry_before(#[trigger] self.entries@[m], e),
            decreases j,
        {
            j = j - 1;
        }
        let ghost before = self.entries@;
        proof {
            lemma_enqueue_at(before, e, j as int);
        }
        let mut entries: Vec<TimerEntry> = Vec::new();
        std::mem::swap(&mut entries, &mut self.entries);
        entries.insert(j, e);
        proof {
            assert forall|i: int| 0 <= i < entries@.len() implies #[trigger] entries@[i].id < self.next_id by {
                if i < j {
                    assert(entries@[i] == before[i]);
                } else if i > j {
                    assert(entries@[i] == before[i - 1]);
                }
            }
            assert(entries@ =~= before.take(j as int).push(e) + before.skip(j as int));
            assert forall|a: int, b: int| 0 <= a < b < entries@.len() implies entry_before(
                #[trigger] entries@[a],
                #[trigger] entries@[b],
            ) by {
                if b < j {
                    assert(entries@[a] == before[a] && entries@[b] == before[b]);
                } else if b == j {
                    assert(entries@[a] == before[a]);
                    assert(entry_before(before[a], before[j - 1]) || a == j - 1);
                } else if a < j {
                    assert(entries@[a] == before[a] && entries@[b] == before[b - 1]);
                } else if a == j {
                    assert(entries@[b] == before[b - 1]);
                } else {
                    assert(entries@[a] == before[a - 1] && entries@[b] == before[b - 1]);
                }
            }
        }
        self.entries = entries;
    }

    /// `mplug.every` / `mplug.after`: queues a timer due `delay_ms` from
    /// `now_ms`, repeating every `interval_ms` if given, and returns its id.
    pub fn add(&mut self, now_ms: u64, delay_ms: u64, interval_ms: Option<u64>) -> (id: u64)
        requires
            now_ms + delay_ms <= u64::MAX,
            old(self).next() < u64::MAX,
        ensures
            id == old(self).next(),
            forall|i: int| 0 <= i < old(self).queued().len() ==> #[trigger] old(self).queued()[i].id != id,
            final(self).next() == old(self).next() + 1,
            final(self).queued() == enqueue(
                old(self).queued(),
                TimerEntry { deadline_ms: (now_ms + delay_ms) as u64, id, interval_ms },
            ),
            final(self).cancelled_ids() == old(self).cancelled_ids(),
            final(self).due() == old(self).due(),
    {
        proof {
            use_type_invariant(&*self);
        }
        let id = self.next_id;
        self.next_id = self.next_id + 1;
        self.push_entry(TimerEntry { deadline_ms: now_ms + delay_ms, id, interval_ms });
        id
    }

    /// The handle's `cancel`: the timer with this id does not fire again.
    pub fn cancel(&mut self, id: u64)
        ensures
            final(self).cancelled_ids() == old(self).cancelled_ids().insert(id),
            final(self).queued() == old(self).queued(),
            final(self).due() == old(self).due(),
            final(self).next() == old(self).next(),
    {
        proof {
            use_type_invariant(&*self);
        }
        let mut c: HashSet<u64> = HashSet::new();
        std::mem::swap(&mut c, &mut self.cancelled);
        c.insert(id);
        self.cancelled = c;
    }

    /// How long the event loop may wait at `now_ms`: until the earliest
    /// deadline (zero when it has passed), or an hour when no timer is queued.
    pub fn next_timeout_ms(&self, now_ms: u64) -> (r: u64)
        ensures
            self.queued().len() == 0 ==> r == IDLE_TIMEOUT_MS,
            self.queued().len() > 0 ==> r == if self.queued()[0].deadline_ms <= now_ms {
                0
            } else {
                self.queued()[0].deadline_ms - now_ms
            },
            forall|i: int| 0 <= i < self.queued().len() ==> self.queued()[0].deadline_ms
                <= #[trigger] self.queued()[i].deadline_ms,
    {
        proof {
            use_type_invariant(self);
            assert forall|i: int| 0 <= i < self.entries@.len() implies self.entries@[0].deadline_ms
                <= #[trigger] self.entries@[i].deadline_ms by {
                if i > 0 {
                    assert(entry_before(self.entries@[0], self.entries@[i]));
                }
            }
        }
        if self.entries.len() == 0 {
            IDLE_TIMEOUT_MS
        } else if self.entries[0].deadline_ms <= now_ms {
            0
        } else {
            self.entries[0].deadline_ms - now_ms
        }
    }

    /// The timers due at `now_ms` leave the queue and wait, in firing
    /// order, for their turn to fire.
    pub fn expire(&mut self, now_ms: u64)
        ensures
            final(self).queued() == old(self).queued().skip(due_count(old(self).queued(), now_ms) as int),
            final(self).due() == old(self).due() + old(self).queued().take(
                due_count(old(self).queued(), now_ms) as int,
            ),
            final(self).cancelled_ids() == old(self).cancelled_ids(),
            final(self).next() == old(self).next(),
            forall|i: int|
                0 <= i < final(self).queued().len() ==> now_ms < #[trigger] final(self).queued()[i].deadline_ms,
    {
        proof {
            use_type_invariant(&*self);
        }
        let ghost all = self.entries@;
        let n = self.entries.len();
        let mut k: usize = 0;
        while k < n && self.entries[k].deadline_ms <= now_ms
            invariant
                k <= n == self.entries.len(),
                all == self.entries@,
                forall|i: int| 0 <= i < k ==> #[trigger] all[i].deadline_ms <= now_ms,
            decreases n - k,
        {
            k = k + 1;
        }
        proof {
            lemma_due_count(all, now_ms, k as int);
            assert forall|i: int| k <= i < all.len() implies now_ms < #[trigger] all[i].deadline_ms by {
                if i > k {
                    assert(entry_before(all[k as int], all[i]));
                }
            }
        }
        let ghost firing_before = self.firing@;
        let mut prefix: Vec<TimerEntry> = Vec::new();
        std::mem::swap(&mut prefix, &mut self.entries);
        let rest = prefix.split_off(k);
        proof {
            assert(rest@ =~= all.skip(k as int));
            assert(prefix@ =~= all.take(k as int));
            assert forall|a: int, b: int| 0 <= a < b < rest@.len() implies entry_before(
                #[trigger] rest@[a],
                #[trigger] rest@[b],
            ) by {
                assert(rest@[a] == all[a + k] && rest@[b] == all[b + k]);
            }
            assert forall|i: int| 0 <= i < rest@.len() implies #[trigger] rest@[i].id < self.next_id by {
                assert(rest@[i] == all[i + k]);
            }
        }
        self.entries = rest;
        let mut firing: Vec<TimerEntry> = Vec::new();
        std::mem::swap(&mut firing, &mut self.firing);
        firing.append(&mut prefix);
        proof {
            assert(firing@ =~= firing_before + all.take(k as int));
            assert forall|i: int| 0 <= i < firing@.len() implies #[trigger] firing@[i].id < self.next_id by {
                if i >= firing_before.len() {
                    assert(firing@[i] == all[i - firing_before.len()]);
                }
            }
        }
        self.firing = firing;
    }

    /// The next due timer, at its turn: one whose id was cancelled by then
    /// (before it came due, or by an earlier callback) is reaped, its id
    /// leaving the cancelled set; any other fires. `None` when no timer is
    /// due.
    pub fn pop_due(&mut self) -> (r: Option<DueTimer>)
        ensures
            final(self).queued() == old(self).queued(),
            final(self).next() == old(self).next(),
            old(self).due().len() == 0 ==> r is None && final(self).due() == old(self).due()
                && final(self).cancelled_ids() == old(self).cancelled_ids(),
            old(self).due().len() > 0 ==> final(self).due() == old(self).due().drop_first() && if old(
                self,
            ).cancelled_ids().contains(old(self).due()[0].id) {
                r == Some(DueTimer::Reaped(old(self).due()[0].id)) && final(self).cancelled_ids()
                    == old(self).cancelled_ids().remove(old(self).due()[0].id)
            } else {
                r == Some(DueTimer::Fire(old(self).due()[0])) && final(self).cancelled_ids()
                    == old(self).cancelled_ids()
            },
            r matches Some(DueTimer::Fire(e)) ==> e.id < final(self).next(),
    {
        proof {
            use_type_invariant(&*self);
        }
        if self.firing.len() == 0 {
            return None;
        }
        let ghost before = self.firing@;
        let mut firing: Vec<TimerEntry> = Vec::new();
        std::mem::swap(&mut firing, &mut self.firing);
        let e = firing.remove(0);
        proof {
            assert(firing@ =~= before.drop_first());
            assert(e == before[0]);
            assert forall|i: int| 0 <= i < firing@.len() implies #[trigger] firing@[i].id < self.next_id by {
                assert(firing@[i] == before[i + 1]);
            }
        }
        self.firing = firing;
        let mut c: HashSet<u64> = HashSet::new();
        std::mem::swap(&mut c, &mut self.cancelled);
        let was = c.remove(&e.id);
        self.cancelled = c;
        if was {
            Some(DueTimer::Reaped(e.id))
        } else {
            Some(DueTimer::Fire(e))
        }
    }

    /// After the callback of `entry` ran: a timer cancelled meanwhile is
    /// dropped and its id leaves the cancelled set; a repeating timer is
    /// queued again one period after its deadline; a one-shot timer is done.
    pub fn finish(&mut self, entry: TimerEntry) -> (r: Finish)
        requires
            entry.id < old(self).next(),
            !old(self).cancelled_ids().contains(entry.id) ==> match entry.interval_ms {
                Some(p) => entry.deadline_ms + p <= u64::MAX,
                None => true,
            },
        ensures
            final(self).next() == old(self).next(),
            final(self).due() == old(self).due(),
            old(self).cancelled_ids().contains(entry.id) ==> r == Finish::Cancelled
                && final(self).cancelled_ids() == old(self).cancelled_ids().remove(entry.id)
                && final(self).queued() == old(self).queued(),
            !old(self).cancelled_ids().contains(entry.id) ==> final(self).cancelled_ids()
                == old(self).cancelled_ids() && match entry.interval_ms {
                Some(p) => r == Finish::Rescheduled && final(self).queued() == enqueue(
                    old(self).queued(),
                    TimerEntry {
                        deadline_ms: (entry.deadline_ms + p) as u64,
                        id: entry.id,
                        interval_ms: entry.interval_ms,
                    },
                ),
                None => r == Finish::Done && final(self).queued() == old(self).queued(),
            },
    {
        proof {
            use_type_invariant(&*self);
        }
        let mut c: HashSet<u64> = HashSet::new();
        std::mem::swap(&mut c, &mut self.cancelled);
        let was = c.remove(&entry.id);
        self.cancelled = c;
        if was {
            return Finish::Cancelled;
        }
        match entry.interval_ms {
            Some(p) => {
                self.push_entry(
                    TimerEntry {
                        deadline_ms: entry.deadline_ms + p,
                        id: entry.id,
                        interval_ms: entry.interval_ms,
                    },
                );
                Finish::Rescheduled
            },
            None => Finish::Done,
        }
    }
}

proof fn lemma_due_count(s: Seq<TimerEntry>, now_ms: u64, k: int)
    requires
        0 <= k <= s.len(),
        forall|i: int| 0 <= i < k ==> #[trigger] s[i].deadline_ms <= now_ms,
        k == s.len() || now_ms < s[k].deadline_ms,
    ensures
        due_count(s, now_ms) == k,
    decreases k,
{
    if k > 0 {
        let d = s.drop_first();
        assert forall|i: int| 0 <= i < k - 1 implies #[trigger] d[i].deadline_ms <= now_ms by {
            assert(d[i] == s[i + 1]);
        }
        if k < s.len() {
            assert(d[k - 1] == s[k]);
        }
        lemma_due_count(d, now_ms, k - 1);
    }
}

proof fn lemma_enqueue_at(s: Seq<TimerEntry>, e: TimerEntry, j: int)
    requires
        0 <= j <= s.len(),
        in_firing_order(s),
        forall|m: int| j <= m < s.len() ==> !entry_before(#[trigger] s[m], e),
        j == 0 || entry_before(s[j - 1], e),
    ensures
        enqueue(s, e) == s.take(j).push(e) + s.skip(j),
    decreases s.len(),
{
    if j == s.len() {
        if s.len() == 0 {
            assert(s.take(j).push(e) + s.skip(j) =~= seq![e]);
        } else {
            assert(s.take(j).push(e) + s.skip(j) =~= s.push(e));
        }
    } else {
        assert(!entry_before(s[s.len() - 1], e));
        let d = s.drop_last();
        assert forall|m: int| j <= m < d.len() implies !entry_before(#[trigger] d[m], e) by {
            assert(d[m] == s[m]);
        }
        assert forall|a: int, b: int| 0 <= a < b < d.len() implies entry_before(#[trigger] d[a], #[trigger] d[b]) by {
            assert(d[a] == s[a] && d[b] == s[b]);
        }
        if j > 0 {
            assert(d[j - 1] == s[j - 1]);
        }
        lemma_enqueue_at(d, e, j);
        assert((d.take(j).push(e) + d.skip(j)).push(s.last()) =~= s.take(j).push(e) + s.skip(j));
    }
}

} // verus!
