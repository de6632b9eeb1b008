//! The delta timer queue itself.

use vstd::prelude::*;

use crate::laws::lemma_add_preserves_due_times;
use crate::laws::lemma_removal_preserves_due_times;
use crate::laws::lemma_update_shifts_due_times;
use crate::model::due_time;
use crate::model::first_match_at;
use crate::model::gaps_after_add;
use crate::model::gaps_after_removal;
use crate::model::gaps_after_update;
use crate::model::insertion_index;
use crate::model::lemma_first_match_found;
use crate::model::lemma_first_match_none;
use crate::model::lemma_insertion_index_unique;
use crate::model::lemma_prefix_sum_congruent;
use crate::model::lemma_prefix_sum_drop_first;
use crate::model::lemma_prefix_sum_monotonic;
use crate::model::lemma_prefix_sum_nonneg;
use crate::model::prefix_sum;
use crate::model::saturate_u32;
use vstd::std_specs::cmp::PartialEqSpec;

verus! {

/// An ordered collection of pending timed events. Each entry stores the gap
/// between the moment its predecessor fires (or "now", for the front entry)
/// and the moment it fires itself, never an absolute deadline. The front
/// entry's gap alone is therefore the time until the next event.
#[derive(Debug, Clone)]
pub struct PullTimer<T> {
    gaps: Vec<u32>,
    events: Vec<T>,
}

impl<T> PullTimer<T> {
    /// The gaps of the entries, front (earliest) to back (latest).
    pub closed spec fn gaps(self) -> Seq<u32> {
        self.gaps@
    }

    /// The payloads of the entries, in the same order as their gaps.
    pub closed spec fn events(self) -> Seq<T> {
        self.events@
    }

    /// Every gap is paired with a payload, and the total pending time — the
    /// due time of the last entry — fits in `u32`. Scheduling takes a `u32`
    /// deadline and nothing ever pushes a due time up, so every reachable
    /// queue satisfies this, and the saturating duration arithmetic inside
    /// the operations never actually clips.
    pub open spec fn wf(self) -> bool {
        &&& self.gaps().len() == self.events().len()
        &&& prefix_sum(self.gaps(), self.gaps().len() as int) <= u32::MAX
    }

    /// An empty queue.
    pub fn new() -> (timer: PullTimer<T>)
        ensures
            timer.wf(),
            timer.gaps() == Seq::<u32>::empty(),
            timer.events() == Seq::<T>::empty(),
    {
        PullTimer { gaps: Vec::new(), events: Vec::new() }
    }

    /// Time from now until the earliest pending event fires, or `None` on an
    /// empty queue. By the delta encoding this is the front gap alone.
    pub fn next_in(&self) -> (r: Option<u32>)
        ensures
            r == (if self.gaps().len() > 0 {
                Some(self.gaps()[0])
            } else {
                None::<u32>
            }),
    {
        if self.gaps.len() > 0 {
            Some(self.gaps[0])
        } else {
            None
        }
    }

    /// Advances logical time by `elapsed`: walks the entries from the front,
    /// each entry absorbing up to its own gap's worth of the elapsed time and
    /// giving up that much of its gap, until all of `elapsed` is consumed.
    /// Every entry's absolute due time moves down by exactly `elapsed`,
    /// stopping at zero; an `elapsed` larger than the sum of all gaps simply
    /// zeroes every gap.
    #[verifier::loop_isolation(false)]
    pub fn update(&mut self, elapsed: u32)
        requires
            old(self).wf(),
        ensures
            final(self).wf(),
            final(self).events() == old(self).events(),
            final(self).gaps() == gaps_after_update(old(self).gaps(), elapsed as int),
            forall|j: int|
                0 <= j < old(self).gaps().len() ==> #[trigger] due_time(final(self).gaps(), j) == (
                if due_time(old(self).gaps(), j) >= elapsed {
                    due_time(old(self).gaps(), j) - elapsed
                } else {
                    0
                }),
    {
        let ghost s = self.gaps@;
        let mut remaining = elapsed;
        let mut i: usize = 0;
        let n = self.gaps.len();
        while i < n && remaining != 0
            invariant
                i <= n,
                self.gaps@.len() == n,
                self.events@ == old(self).events@,
                remaining == saturate_u32(elapsed - prefix_sum(s, i as int)),
                forall|j: int|
                    0 <= j < i ==> self.gaps@[j] == gaps_after_update(s, elapsed as int)[j],
                forall|j: int| i <= j < n ==> self.gaps@[j] == s[j],
            decreases n - i,
        {
            proof {
                lemma_prefix_sum_nonneg(s, i as int);
            }
            let g = self.gaps[i];
            self.gaps[i] = g.saturating_sub(remaining);
            remaining = remaining.saturating_sub(g);
            i = i + 1;
        }
        proof {
            if i < n {
                // The walk stopped because all of `elapsed` was consumed:
                // every entry from `i` on has a due time of at least `elapsed`
                // and keeps its gap.
                assert forall|j: int| i <= j < n implies self.gaps@[j] == gaps_after_update(
                    s,
                    elapsed as int,
                )[j] by {
                    lemma_prefix_sum_nonneg(s, i as int);
                    lemma_prefix_sum_monotonic(s, i as int, j);
                }
            }
            assert(self.gaps@ =~= gaps_after_update(s, elapsed as int));
            lemma_update_shifts_due_times(s, elapsed as int);
            if n > 0 {
                lemma_prefix_sum_nonneg(s, n as int);
                assert(due_time(gaps_after_update(s, elapsed as int), n - 1) <= due_time(
                    s,
                    n - 1,
                ));
            }
        }
    }

    /// Schedules `event` to fire `deadline` time-units from now: scans from
    /// the front for the last place whose running sum of gaps stays at or
    /// below `deadline` (so an existing entry due at exactly `deadline` keeps
    /// its place ahead of the new one), gives the new entry the remainder of
    /// `deadline` as its gap, and takes that much off the gap of the entry it
    /// displaces, whose due time is thereby preserved.
    #[verifier::loop_isolation(false)]
    pub fn add(&mut self, deadline: u32, event: T)
        requires
            old(self).wf(),
        ensures
            final(self).wf(),
            final(self).gaps() == gaps_after_add(old(self).gaps(), deadline as int),
            final(self).events() == old(self).events().insert(
                insertion_index(old(self).gaps(), deadline as int),
                event,
            ),
    {
        let ghost s = self.gaps@;
        let mut sum: u32 = 0;
        let mut k: usize = 0;
        let n = self.gaps.len();
        while k < n && self.gaps[k] <= deadline - sum
            invariant
                k <= n,
                sum == prefix_sum(s, k as int),
                sum <= deadline,
            decreases n - k,
        {
            sum = sum + self.gaps[k];
            k = k + 1;
        }
        proof {
            lemma_insertion_index_unique(s, deadline as int, k as int);
        }
        let gap = deadline - sum;
        if k < n {
            let next = self.gaps[k];
            self.gaps[k] = next.saturating_sub(gap);
        }
        self.gaps.insert(k, gap);
        self.events.insert(k, event);
        proof {
            assert(self.gaps@ =~= gaps_after_add(s, deadline as int));
            // The total pending time stays within `u32`: a tail insertion's
            // due time is the `u32` deadline itself, and any other insertion
            // leaves the last entry's due time unchanged.
            lemma_add_preserves_due_times(s, deadline as int);
            if (k as int) < s.len() {
                assert(due_time(gaps_after_add(s, deadline as int), s.len() as int) == due_time(
                    s,
                    s.len() - 1,
                ));
            }
        }
    }

    /// Cancels the earliest entry whose payload equals `event` and returns
    /// its absolute due time from now; `None`, with the queue unchanged,
    /// where no payload matches. A following entry takes the removed entry's
    /// gap onto its own, preserving its due time. Which entry "equals" the
    /// argument is pinned down wherever the payload type's `==` obeys its
    /// specification (`obeys_eq_spec`); whatever `==` answered, the result
    /// can only be a splice of one entry, with its due time returned.
    #[verifier::loop_isolation(false)]
    pub fn remove(&mut self, event: T) -> (r: Option<u32>) where T: PartialEq
        requires
            old(self).wf(),
        ensures
            final(self).wf(),
            (match r {
                Option::None => final(self).gaps() == old(self).gaps() && final(self).events()
                    == old(self).events(),
                Option::Some(x) => exists|m: int|
                    {
                        &&& 0 <= m < old(self).events().len()
                        &&& x as int == due_time(old(self).gaps(), m)
                        &&& final(self).gaps() == #[trigger] gaps_after_removal(
                            old(self).gaps(),
                            m,
                        )
                        &&& final(self).events() == old(self).events().remove(m)
                    },
            }),
            T::obeys_eq_spec() ==> (if first_match_at(old(self).events(), event) >= 0 {
                let m = first_match_at(old(self).events(), event);
                &&& r == Some((due_time(old(self).gaps(), m)) as u32)
                &&& final(self).gaps() == gaps_after_removal(old(self).gaps(), m)
                &&& final(self).events() == old(self).events().remove(m)
            } else {
                r == None::<u32>
            }),
    {
        let ghost s = self.gaps@;
        let ghost v = self.events@;
        let mut sum: u32 = 0;
        let mut m: usize = 0;
        let n = self.gaps.len();
        while m < n
            invariant
                m <= n,
                self.gaps@ == s,
                self.events@ == v,
                sum == prefix_sum(s, m as int),
                T::obeys_eq_spec() ==> forall|j: int|
                    0 <= j < m ==> !(#[trigger] v[j].eq_spec(&event)),
            decreases n - m,
        {
            proof {
                lemma_prefix_sum_nonneg(s, m as int);
                lemma_prefix_sum_monotonic(s, m as int + 1, n as int);
            }
            sum = sum + self.gaps[m];
            if self.events[m] == event {
                proof {
                    if T::obeys_eq_spec() {
                        lemma_first_match_found(v, event, m as int);
                    }
                    lemma_removal_preserves_due_times(s, m as int);
                    s.remove_ensures(m as int);
                }
                let gap = self.gaps.remove(m);
                self.events.remove(m);
                if m < self.gaps.len() {
                    proof {
                        // The merged pair of gaps is bounded by the total
                        // pending time, so the splice cannot overflow.
                        assert(self.gaps@[m as int] == s[m as int + 1]);
                        assert(prefix_sum(s, m as int + 2) == prefix_sum(s, m as int + 1) + s[m
                            as int + 1]);
                        lemma_prefix_sum_monotonic(s, m as int + 2, n as int);
                    }
                    let next = self.gaps[m];
                    self.gaps[m] = next + gap;
                }
                proof {
                    assert(self.gaps@ =~= gaps_after_removal(s, m as int));
                    // The total pending time only shrinks: the follower, if
                    // any, keeps its due time, and every later entry keeps
                    // its own.
                    if m as int + 1 < n {
                        assert(due_time(gaps_after_removal(s, m as int), n - 2) == due_time(
                            s,
                            n - 1,
                        ));
                    } else {
                        lemma_prefix_sum_congruent(gaps_after_removal(s, m as int), s, n - 1);
                        lemma_prefix_sum_monotonic(s, n - 1, n as int);
                    }
                }
                return Some(sum);
            }
            m = m + 1;
        }
        proof {
            if T::obeys_eq_spec() {
                lemma_first_match_none(v, event);
            }
        }
        None
    }

    /// Fires the front entry if it is due: when the front gap is exactly zero
    /// the entry is removed and its payload returned. Otherwise — front not
    /// yet due, or queue empty — returns `None` and changes nothing; by the
    /// delta encoding no later entry can be due before the front one.
    /// Repeated calls drain simultaneously due entries one at a time, in
    /// insertion order.
    pub fn poll(&mut self) -> (r: Option<T>)
        requires
            old(self).wf(),
        ensures
            final(self).wf(),
            (if old(self).gaps().len() > 0 && old(self).gaps()[0] == 0 {
                &&& r == Some(old(self).events()[0])
                &&& final(self).gaps() == old(self).gaps().drop_first()
                &&& final(self).events() == old(self).events().drop_first()
            } else {
                &&& r == None::<T>
                &&& final(self).gaps() == old(self).gaps()
                &&& final(self).events() == old(self).events()
            }),
    {
        if self.gaps.len() == 0 {
            return None;
        }
        if self.gaps[0] == 0 {
            self.gaps.remove(0);
            let event = self.events.remove(0);
            proof {
                assert(self.gaps@ =~= old(self).gaps@.drop_first());
                assert(self.events@ =~= old(self).events@.drop_first());
                lemma_prefix_sum_drop_first(old(self).gaps@, old(self).gaps@.len() - 1);
            }
            Some(event)
        } else {
            None
        }
    }
}

} // verus!
