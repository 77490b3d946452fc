//! Toast notifications of the world map: each news entry of the session shows once,
//! expires after a while unless hovered, and never comes back from history.
use crate::world::SimulationEvent;
use vstd::prelude::*;

verus! {

/// How long a toast stays, in nanoseconds of wall-clock time not spent hovered.
pub const TOAST_NANOS: u64 = 6_000_000_000;

/// At most this many toasts show at once, the most recent ones.
pub const MAX_TOASTS: usize = 3;

/// A numbered news entry of a session.
pub struct NotificationEntry {
    pub sequence: u64,
    pub day: u64,
    pub event: SimulationEvent,
}

impl NotificationEntry {
    pub fn copied(&self) -> (copy: NotificationEntry)
        ensures
            copy == *self,
    {
        NotificationEntry { sequence: self.sequence, day: self.day, event: self.event.copied() }
    }
}

pub struct Toast {
    pub entry: NotificationEntry,
    /// Time left before it expires.
    pub remaining: u64,
}

pub struct NotificationState {
    pub session: u128,
    /// The highest sequence number received from this session.
    pub seen: u64,
    pub active: Vec<Toast>,
}

/// The toasts that the entries above `seen` make, in order, each with a full time.
pub open spec fn fresh_toasts(entries: Seq<NotificationEntry>, seen: u64) -> Seq<Toast>
    decreases entries.len(),
{
    if entries.len() == 0 {
        Seq::empty()
    } else {
        let earlier = fresh_toasts(entries.drop_last(), seen);
        if entries.last().sequence > seen {
            earlier.push(Toast { entry: entries.last(), remaining: TOAST_NANOS })
        } else {
            earlier
        }
    }
}

/// The most recent `MAX_TOASTS` toasts.
pub open spec fn keep_latest(toasts: Seq<Toast>) -> Seq<Toast> {
    if toasts.len() > MAX_TOASTS {
        toasts.subrange(toasts.len() - MAX_TOASTS, toasts.len() as int)
    } else {
        toasts
    }
}

/// The toasts left after `nanos` of time, where `hovered[i]` tells whether toast
/// `i` was under the pointer: hovered toasts keep their time, the others lose it;
/// a toast leaves once its time is used up.
pub open spec fn aged(toasts: Seq<Toast>, nanos: u64, hovered: Seq<bool>) -> Seq<Toast>
    decreases toasts.len(),
{
    if toasts.len() == 0 {
        Seq::empty()
    } else {
        let n = toasts.len() - 1;
        let earlier = aged(toasts.drop_last(), nanos, hovered);
        let toast = toasts[n];
        if hovered[n] && toast.remaining > 0 {
            earlier.push(toast)
        } else if !hovered[n] && toast.remaining > nanos {
            earlier.push(Toast { entry: toast.entry, remaining: (toast.remaining - nanos) as u64 })
        } else {
            earlier
        }
    }
}

/// The toasts other than those of entry `sequence`, in order.
pub open spec fn without(toasts: Seq<Toast>, sequence: u64) -> Seq<Toast>
    decreases toasts.len(),
{
    if toasts.len() == 0 {
        Seq::empty()
    } else {
        let earlier = without(toasts.drop_last(), sequence);
        if toasts.last().entry.sequence != sequence {
            earlier.push(toasts.last())
        } else {
            earlier
        }
    }
}

impl NotificationState {
    /// No session yet: nothing seen, nothing showing.
    pub fn new() -> (state: NotificationState)
        ensures
            state.session == 0,
            state.seen == 0,
            state.active@.len() == 0,
    {
        NotificationState { session: 0, seen: 0, active: Vec::new() }
    }

    /// Lets `nanos` of wall-clock time pass. Toasts that `hovered` reports under
    /// the pointer keep their time; the others lose it and expire when it is used up.
    pub fn advance<F: Fn(u64) -> bool>(&mut self, nanos: u64, hovered: F)
        requires
            forall|sequence: u64| hovered.requires((sequence,)),
        ensures
            final(self).session == old(self).session,
            final(self).seen == old(self).seen,
            exists|answers: Seq<bool>|
                {
                    &&& answers.len() == old(self).active@.len()
                    &&& forall|i: int|
                        0 <= i < answers.len() ==> hovered.ensures(
                            (old(self).active@[i].entry.sequence,),
                            #[trigger] answers[i],
                        )
                    &&& final(self).active@ == aged(old(self).active@, nanos, answers)
                },
    {
        let ghost mut answers: Seq<bool> = Seq::empty();
        let mut kept: Vec<Toast> = Vec::new();
        let mut k: usize = 0;
        while k < self.active.len()
            invariant
                k <= self.active@.len(),
                self.active@ == old(self).active@,
                self.session == old(self).session,
                self.seen == old(self).seen,
                forall|sequence: u64| hovered.requires((sequence,)),
                answers.len() == k,
                forall|i: int|
                    0 <= i < k ==> hovered.ensures(
                        (old(self).active@[i].entry.sequence,),
                        #[trigger] answers[i],
                    ),
                kept@ == aged(old(self).active@.take(k as int), nanos, answers),
            decreases self.active@.len() - k,
        {
            let toast = &self.active[k];
            let under_pointer = hovered(toast.entry.sequence);
            let ghost before = answers;
            proof {
                answers = answers.push(under_pointer);
                lemma_aged_answers(old(self).active@.take(k as int), nanos, before, answers);
                assert(old(self).active@.take(k + 1).drop_last() =~= old(self).active@.take(k as int));
            }
            if under_pointer {
                if toast.remaining > 0 {
                    kept.push(Toast { entry: toast.entry.copied(), remaining: toast.remaining });
                }
            } else if toast.remaining > nanos {
                kept.push(Toast { entry: toast.entry.copied(), remaining: toast.remaining - nanos });
            }
            k = k + 1;
        }
        proof {
            assert(old(self).active@.take(k as int) =~= old(self).active@);
        }
        self.active = kept;
    }

    /// Closes the toast of entry `sequence`.
    pub fn dismiss(&mut self, sequence: u64)
        ensures
            final(self).session == old(self).session,
            final(self).seen == old(self).seen,
            final(self).active@ == without(old(self).active@, sequence),
    {
        let mut kept: Vec<Toast> = Vec::new();
        let mut k: usize = 0;
        while k < self.active.len()
            invariant
                k <= self.active@.len(),
                self.active@ == old(self).active@,
                kept@ == without(self.active@.take(k as int), sequence),
            decreases self.active.len() - k,
        {
            proof {
                assert(self.active@.take(k + 1).drop_last() =~= self.active@.take(k as int));
            }
            if self.active[k].entry.sequence != sequence {
                kept.push(Toast { entry: self.active[k].entry.copied(), remaining: self.active[k].remaining });
            }
            k = k + 1;
        }
        proof {
            assert(self.active@.take(self.active@.len() as int) =~= self.active@);
        }
        self.active = kept;
    }

    /// Receives the session's numbered news. Another session starts over. Entries
    /// numbered above everything seen so far become toasts; the highest number
    /// seen moves up to the last entry; at most the latest three toasts stay.
    pub fn receive(&mut self, session: u128, entries: &Vec<NotificationEntry>)
        ensures
            ({
                let (seen, active) = if old(self).session == session {
                    (old(self).seen, old(self).active@)
                } else {
                    (0u64, Seq::<Toast>::empty())
                };
                &&& final(self).session == session
                &&& final(self).active@ == keep_latest(active + fresh_toasts(entries@, seen))
                &&& final(self).seen == if entries@.len() > 0 && entries@.last().sequence > seen {
                    entries@.last().sequence
                } else {
                    seen
                }
            }),
    {
        if self.session != session {
            *self = NotificationState { session, seen: 0, active: Vec::new() };
        }
        let ghost base = self.active@;
        let ghost seen = self.seen;
        assert(base == if old(self).session == session { old(self).active@ } else { Seq::<Toast>::empty() });
        assert(seen == if old(self).session == session { old(self).seen } else { 0u64 });
        let mut k: usize = 0;
        while k < entries.len()
            invariant
                k <= entries.len(),
                self.session == session,
                self.seen == seen,
                self.active@ == base + fresh_toasts(entries@.take(k as int), self.seen),
            decreases entries.len() - k,
        {
            proof {
                assert(entries@.take(k + 1).drop_last() =~= entries@.take(k as int));
            }
            if entries[k].sequence > self.seen {
                self.active.push(Toast { entry: entries[k].copied(), remaining: TOAST_NANOS });
            }
            k = k + 1;
        }
        proof {
            assert(entries@.take(k as int) =~= entries@);
        }
        if entries.len() > 0 {
            let last = entries[entries.len() - 1].sequence;
            if last > self.seen {
                self.seen = last;
            }
        }
        if self.active.len() > MAX_TOASTS {
            let latest = self.active.split_off(self.active.len() - MAX_TOASTS);
            self.active = latest;
        }
    }
}

/// Never more than `MAX_TOASTS` toasts show, and they are the latest ones, in order.
pub proof fn lemma_toasts_bounded(toasts: Seq<Toast>)
    ensures
        keep_latest(toasts).len() <= MAX_TOASTS,
        forall|i: int|
            0 <= i < keep_latest(toasts).len() ==> #[trigger] keep_latest(toasts)[i]
                == toasts[toasts.len() - keep_latest(toasts).len() + i],
{
}

/// Entries numbered at or below what was seen make no toasts: history never comes back.
pub proof fn lemma_seen_entries_make_no_toasts(entries: Seq<NotificationEntry>, seen: u64)
    requires
        forall|i: int| 0 <= i < entries.len() ==> #[trigger] entries[i].sequence <= seen,
    ensures
        fresh_toasts(entries, seen).len() == 0,
    decreases entries.len(),
{
    if entries.len() > 0 {
        assert(entries.last() == entries[entries.len() - 1]);
        lemma_seen_entries_make_no_toasts(entries.drop_last(), seen);
    }
}

/// Receiving the same numbered history twice from a session shows nothing new the
/// second time: with entries numbered in increasing order, the first receipt sees
/// up to the last number, so the second adds no toast and leaves what was seen.
pub proof fn lemma_history_received_once(entries: Seq<NotificationEntry>, seen: u64)
    requires
        forall|i: int, j: int|
            0 <= i < j < entries.len() ==> #[trigger] entries[i].sequence <= #[trigger] entries[j].sequence,
    ensures
        ({
            let seen_after = if entries.len() > 0 && entries.last().sequence > seen {
                entries.last().sequence
            } else {
                seen
            };
            &&& fresh_toasts(entries, seen_after).len() == 0
            &&& (if entries.len() > 0 && entries.last().sequence > seen_after {
                entries.last().sequence
            } else {
                seen_after
            }) == seen_after
        }),
{
    let seen_after = if entries.len() > 0 && entries.last().sequence > seen {
        entries.last().sequence
    } else {
        seen
    };
    assert forall|i: int| 0 <= i < entries.len() implies #[trigger] entries[i].sequence <= seen_after by {
        if i < entries.len() - 1 {
            assert(entries[i].sequence <= entries[entries.len() - 1].sequence);
        }
    }
    lemma_seen_entries_make_no_toasts(entries, seen_after);
}

proof fn lemma_aged_answers(toasts: Seq<Toast>, nanos: u64, a: Seq<bool>, b: Seq<bool>)
    requires
        toasts.len() <= a.len(),
        toasts.len() <= b.len(),
        forall|i: int| 0 <= i < toasts.len() ==> a[i] == b[i],
    ensures
        aged(toasts, nanos, a) == aged(toasts, nanos, b),
    decreases toasts.len(),
{
    if toasts.len() > 0 {
        lemma_aged_answers(toasts.drop_last(), nanos, a, b);
    }
}

} // verus!
