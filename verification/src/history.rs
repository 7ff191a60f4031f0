//! Snapshot history: a time-ordered log of document states that backs
//! undo. Recording coalesces rapid successive changes into one entry so
//! that a drag gesture leaves a single undo step; undo walks back from
//! the entry matching the current state without removing anything.

use vstd::pervasive::VecAdditionalExecFns;
use vstd::prelude::*;

use crate::document::{DocView, Document};

verus! {

/// One stored state with the logical time it was first recorded at.
pub struct Snapshot {
    pub time: u64,
    pub state: Document,
}

/// The undo log. `min_interval` is the smallest elapsed logical time
/// between two distinct stored entries; faster changes coalesce.
pub struct SnapshotHistory {
    pub min_interval: u64,
    pub entries: Vec<Snapshot>,
}

/// What recording `(t, d)` does to the stored entries: seed an empty
/// history, ignore an unchanged state, append after a quiet spell, and
/// otherwise overwrite the newest entry's state keeping its time.
pub open spec fn record_spec(
    h: Seq<(u64, DocView)>,
    min_interval: u64,
    t: u64,
    d: DocView,
) -> Seq<(u64, DocView)> {
    if h.len() == 0 {
        seq![(t, d)]
    } else if h.last().1 == d {
        h
    } else if t >= h.last().0 + min_interval {
        h.push((t, d))
    } else {
        h.update(h.len() - 1, (h.last().0, d))
    }
}

/// Index of the newest entry holding `cur`, or `-1` if none does.
pub open spec fn last_match(h: Seq<(u64, DocView)>, cur: DocView) -> int
    decreases h.len(),
{
    if h.len() == 0 {
        -1
    } else if h.last().1 == cur {
        h.len() - 1
    } else {
        last_match(h.drop_last(), cur)
    }
}

/// What undo returns: the state stored just before the newest entry
/// matching `cur`, or nothing when `cur` is unknown or the oldest state.
pub open spec fn undo_spec(h: Seq<(u64, DocView)>, cur: DocView) -> Option<DocView> {
    let i = last_match(h, cur);
    if i <= 0 {
        None
    } else {
        Some(h[i - 1].1)
    }
}

proof fn lemma_last_match(h: Seq<(u64, DocView)>, cur: DocView)
    ensures
        -1 <= last_match(h, cur) < h.len(),
        last_match(h, cur) >= 0 ==> h[last_match(h, cur)].1 == cur,
        forall|j: int| last_match(h, cur) < j < h.len() ==> h[j].1 != cur,
    decreases h.len(),
{
    if h.len() > 0 && h.last().1 != cur {
        lemma_last_match(h.drop_last(), cur);
        assert(forall|j: int| 0 <= j < h.len() - 1 ==> h[j] == h.drop_last()[j]);
    }
}

impl SnapshotHistory {
    /// The entries as time/state pairs.
    pub open spec fn view(&self) -> Seq<(u64, DocView)> {
        self.entries@.map_values(|s: Snapshot| (s.time, s.state@))
    }

    /// Entries stand in non-decreasing logical-time order.
    pub open spec fn wf(&self) -> bool {
        forall|i: int| 0 <= i < self@.len() - 1 ==> (#[trigger] self@[i]).0 <= self@[i + 1].0
    }

    /// A fresh, empty history with the given coalescing interval.
    pub fn new(min_interval: u64) -> (h: SnapshotHistory)
        ensures
            h@ =~= Seq::<(u64, DocView)>::empty(),
            h.min_interval == min_interval,
            h.wf(),
    {
        SnapshotHistory { min_interval, entries: Vec::new() }
    }

    /// Feeds the current state at logical time `t` into the log.
    pub fn record(&mut self, t: u64, state: Document)
        requires
            old(self).wf(),
            old(self)@.len() > 0 ==> t >= old(self)@.last().0,
        ensures
            final(self)@ == record_spec(old(self)@, old(self).min_interval, t, state@),
            final(self).min_interval == old(self).min_interval,
            final(self).wf(),
            final(self)@.len() > 0 && final(self)@.last().0 <= t,
    {
        let n = self.entries.len();
        if n == 0 {
            self.entries.push(Snapshot { time: t, state });
            proof {
                assert(self@ =~= seq![(t, state@)]);
            }
        } else {
            proof {
                assert(self@[n - 1] == (self.entries@[n - 1].time, self.entries@[n - 1].state@));
            }
            if self.entries[n - 1].state.same_as(&state) {
                proof {
                    assert(self@ =~= record_spec(self@, self.min_interval, t, state@));
                }
            } else {
                let last_time = self.entries[n - 1].time;
                if t - last_time >= self.min_interval {
                    self.entries.push(Snapshot { time: t, state });
                    proof {
                        assert(self@ =~= old(self)@.push((t, state@)));
                    }
                } else {
                    self.entries.set(n - 1, Snapshot { time: last_time, state });
                    proof {
                        assert(self@ =~= old(self)@.update(
                            old(self)@.len() - 1,
                            (old(self)@.last().0, state@),
                        ));
                    }
                }
            }
        }
    }

    /// Returns the state stored just before the newest entry equal to
    /// `current`, without removing anything.
    pub fn undo(&self, current: &Document) -> (r: Option<Document>)
        ensures
            match r {
                Some(doc) => undo_spec(self@, current@) == Some(doc@),
                None => undo_spec(self@, current@) == None::<DocView>,
            },
    {
        proof {
            lemma_last_match(self@, current@);
        }
        let n = self.entries.len();
        let mut i = n;
        while i > 0
            invariant
                i <= n,
                n == self.entries@.len(),
                forall|j: int| i <= j < n ==> self@[j].1 != current@,
            decreases i,
        {
            i -= 1;
            if self.entries[i].state.same_as(current) {
                proof {
                    lemma_last_match(self@, current@);
                    assert(self@[i as int].1 == current@);
                    let ghost m = last_match(self@, current@);
                    if m > i {
                        assert(self@[m].1 != current@);
                        assert(false);
                    }
                    if m < i {
                        assert(self@[i as int].1 != current@);
                        assert(false);
                    }
                }
                if i == 0 {
                    return None;
                }
                return Some(self.entries[i - 1].state.duplicate());
            }
        }
        proof {
            assert(last_match(self@, current@) == -1);
        }
        None
    }
}

/// With exactly one stored entry, undo yields nothing, whatever the
/// current state is.
pub proof fn lemma_undo_single_entry(h: Seq<(u64, DocView)>, cur: DocView)
    requires
        h.len() == 1,
    ensures
        undo_spec(h, cur) == None::<DocView>,
{
    assert(h.drop_last().len() == 0);
    assert(last_match(h.drop_last(), cur) == -1);
}

/// Two differing states recorded within the coalescing interval leave one
/// entry: the second state under the first time stamp.
pub proof fn lemma_record_coalesces(min_interval: u64, t: u64, t2: u64, d1: DocView, d2: DocView)
    requires
        d1 != d2,
        t <= t2,
        t2 < t + min_interval,
    ensures
        record_spec(
            record_spec(Seq::<(u64, DocView)>::empty(), min_interval, t, d1),
            min_interval,
            t2,
            d2,
        ) == seq![(t, d2)],
{
    let h1 = record_spec(Seq::<(u64, DocView)>::empty(), min_interval, t, d1);
    assert(h1 == seq![(t, d1)]);
    assert(record_spec(h1, min_interval, t2, d2) =~= seq![(t, d2)]);
}

/// Two differing states recorded at least the coalescing interval apart
/// leave two entries, each under its own time stamp.
pub proof fn lemma_record_appends(min_interval: u64, t: u64, t2: u64, d1: DocView, d2: DocView)
    requires
        d1 != d2,
        t2 >= t + min_interval,
    ensures
        record_spec(
            record_spec(Seq::<(u64, DocView)>::empty(), min_interval, t, d1),
            min_interval,
            t2,
            d2,
        ) == seq![(t, d1), (t2, d2)],
{
    let h1 = record_spec(Seq::<(u64, DocView)>::empty(), min_interval, t, d1);
    assert(h1 == seq![(t, d1)]);
    assert(record_spec(h1, min_interval, t2, d2) =~= seq![(t, d1), (t2, d2)]);
}

} // verus!
