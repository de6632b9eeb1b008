//! Laws of the delta timer queue, stated over the model and proved: how due
//! times are preserved and ordered across the operations.

use vstd::prelude::*;

use crate::model::due_time;
use crate::model::gaps_after_add;
use crate::model::gaps_after_removal;
use crate::model::gaps_after_update;
use crate::model::insertion_index;
use crate::model::lemma_insertion_index_props;
use crate::model::lemma_insertion_index_unique;
use crate::model::lemma_prefix_sum_congruent;
use crate::model::lemma_prefix_sum_monotonic;
use crate::model::lemma_prefix_sum_nonneg;
use crate::model::lemma_prefix_sum_offset;
use crate::model::lemma_update_prefix_sums;
use crate::model::prefix_sum;
use crate::model::saturate_u32;

verus! {

/// Entries stand in order of absolute due time: an entry never becomes due
/// before one ahead of it, so firing from the front respects deadlines.
pub proof fn lemma_due_times_nondecreasing(s: Seq<u32>, i: int, j: int)
    requires
        0 <= i <= j,
    ensures
        due_time(s, i) <= due_time(s, j),
{
    lemma_prefix_sum_monotonic(s, i + 1, j + 1);
}

/// The front gap alone is the time from now until the earliest pending event:
/// no summation is needed to answer what comes next.
pub proof fn lemma_front_gap_is_next_due(s: Seq<u32>)
    requires
        s.len() > 0,
    ensures
        due_time(s, 0) == s[0],
{
    assert(prefix_sum(s, 1) == prefix_sum(s, 0) + s[0]);
}

/// Scheduling an entry with a due time of `d` gives it exactly that due time
/// and leaves the due time of every entry already present unchanged: those
/// ahead of the new entry keep their index, those behind it move back by one.
pub proof fn lemma_add_preserves_due_times(s: Seq<u32>, d: int)
    requires
        0 <= d <= u32::MAX,
    ensures
        ({
            let k = insertion_index(s, d);
            let s2 = gaps_after_add(s, d);
            &&& s2.len() == s.len() + 1
            &&& due_time(s2, k) == d
            &&& forall|j: int| 0 <= j < k ==> #[trigger] due_time(s2, j) == due_time(s, j)
            &&& forall|j: int| k <= j < s.len() ==> due_time(s2, j + 1) == #[trigger] due_time(s, j)
        }),
{
    let k = insertion_index(s, d);
    let s2 = gaps_after_add(s, d);
    lemma_insertion_index_props(s, d);
    lemma_prefix_sum_nonneg(s, k);
    let g = saturate_u32(d - prefix_sum(s, k));
    assert(g == d - prefix_sum(s, k));
    if k == s.len() {
        assert forall|j: int| 0 <= j < k implies #[trigger] due_time(s2, j) == due_time(s, j) by {
            lemma_prefix_sum_congruent(s2, s, j + 1);
        }
        lemma_prefix_sum_congruent(s2, s, k);
        assert(prefix_sum(s2, k + 1) == prefix_sum(s2, k) + s2[k]);
    } else {
        let h = saturate_u32(s[k] - g);
        assert(h == s[k] - g);
        s.insert_ensures(k, g);
        let si = s.insert(k, g);
        assert(s2 == si.update(k + 1, h));
        assert(forall|j: int| 0 <= j < k ==> s2[j] == s[j]);
        assert(s2[k] == g);
        assert(s2[k + 1] == h);
        assert(forall|j: int| k + 1 < j < s2.len() ==> s2[j] == s[j - 1]);
        assert forall|j: int| 0 <= j < k implies #[trigger] due_time(s2, j) == due_time(s, j) by {
            lemma_prefix_sum_congruent(s2, s, j + 1);
        }
        lemma_prefix_sum_congruent(s2, s, k);
        assert(prefix_sum(s2, k + 1) == prefix_sum(s2, k) + s2[k]);
        assert(prefix_sum(s2, k + 2) == prefix_sum(s2, k + 1) + s2[k + 1]);
        assert(prefix_sum(s, k + 1) == prefix_sum(s, k) + s[k]);
        assert(prefix_sum(s2, k + 2) == prefix_sum(s, k + 1));
        assert forall|j: int| k <= j < s.len() implies due_time(s2, j + 1) == #[trigger] due_time(
            s,
            j,
        ) by {
            lemma_prefix_sum_offset(s2, s, k + 2, -1, j + 2);
        }
    }
}

/// The tie-break among equal due times: a new entry due at `d` comes to stand
/// immediately after an entry already due at exactly `d`, never before it.
pub proof fn lemma_equal_deadline_inserts_after(s: Seq<u32>, d: int)
    requires
        0 <= d <= u32::MAX,
    ensures
        insertion_index(gaps_after_add(s, d), d) == insertion_index(s, d) + 1,
{
    let k = insertion_index(s, d);
    let s2 = gaps_after_add(s, d);
    lemma_insertion_index_props(s, d);
    lemma_add_preserves_due_times(s, d);
    if k + 1 < s2.len() {
        assert(due_time(s2, k + 1) == due_time(s, k));
    }
    lemma_insertion_index_unique(s2, d, k + 1);
}

/// Insertion order (FIFO) among equal due times: scheduling `e1` and then
/// `e2`, both due at `d`, leaves `e1` standing immediately ahead of `e2`,
/// both due at exactly `d` — so they fire in the order they were added.
pub proof fn lemma_equal_deadlines_fifo<T>(g: Seq<u32>, v: Seq<T>, d: int, e1: T, e2: T)
    requires
        0 <= d <= u32::MAX,
        g.len() == v.len(),
    ensures
        ({
            let k = insertion_index(g, d);
            let g1 = gaps_after_add(g, d);
            let v1 = v.insert(k, e1);
            let g2 = gaps_after_add(g1, d);
            let v2 = v1.insert(insertion_index(g1, d), e2);
            &&& insertion_index(g1, d) == k + 1
            &&& v2[k] == e1
            &&& v2[k + 1] == e2
            &&& due_time(g2, k) == d
            &&& due_time(g2, k + 1) == d
        }),
{
    let k = insertion_index(g, d);
    let g1 = gaps_after_add(g, d);
    let v1 = v.insert(k, e1);
    lemma_insertion_index_props(g, d);
    lemma_add_preserves_due_times(g, d);
    lemma_equal_deadline_inserts_after(g, d);
    lemma_add_preserves_due_times(g1, d);
    v.insert_ensures(k, e1);
    v1.insert_ensures(k + 1, e2);
}

/// The front entry fires exactly on time: advancing by `elapsed` makes it due
/// exactly when `elapsed` reaches its due time, never earlier, and until then
/// its remaining time is its due time less `elapsed`.
pub proof fn lemma_front_fires_on_time(s: Seq<u32>, elapsed: int)
    requires
        s.len() > 0,
        0 <= elapsed,
    ensures
        gaps_after_update(s, elapsed)[0] == 0 <==> due_time(s, 0) <= elapsed,
        due_time(s, 0) >= elapsed ==> gaps_after_update(s, elapsed)[0] == due_time(s, 0) - elapsed,
{
    lemma_front_gap_is_next_due(s);
}

/// Exact-time firing: advancing by `elapsed` moves every entry's absolute due
/// time down by exactly `elapsed`, stopping at zero. An entry therefore
/// becomes due exactly when the time advanced so far reaches its due time,
/// and never earlier.
pub proof fn lemma_update_shifts_due_times(s: Seq<u32>, e: int)
    requires
        0 <= e,
    ensures
        forall|j: int|
            0 <= j < s.len() ==> #[trigger] due_time(gaps_after_update(s, e), j) == (if due_time(
                s,
                j,
            ) >= e {
                due_time(s, j) - e
            } else {
                0
            }),
{
    assert forall|j: int| 0 <= j < s.len() implies #[trigger] due_time(
        gaps_after_update(s, e),
        j,
    ) == (if due_time(s, j) >= e {
        due_time(s, j) - e
    } else {
        0
    }) by {
        lemma_update_prefix_sums(s, e, j + 1);
    }
}

/// Advancing time is additive: advancing by `a` and then by `b` leaves the
/// queue exactly as a single advance by `a + b` does.
pub proof fn lemma_update_additive(s: Seq<u32>, a: int, b: int)
    requires
        0 <= a,
        0 <= b,
    ensures
        gaps_after_update(gaps_after_update(s, a), b) == gaps_after_update(s, a + b),
{
    let s1 = gaps_after_update(s, a);
    assert forall|j: int| 0 <= j < s.len() implies gaps_after_update(s1, b)[j]
        == gaps_after_update(s, a + b)[j] by {
        lemma_update_prefix_sums(s, a, j);
        lemma_prefix_sum_nonneg(s, j);
    }
    assert(gaps_after_update(s1, b) =~= gaps_after_update(s, a + b));
}

/// Cancelling the entry at index `m` leaves the due time of every other entry
/// unchanged: entries ahead of it keep their index, entries behind it move up
/// by one. The total pending time fitting in `u32` — the queue's validity —
/// keeps the spliced pair of gaps within `u32`, so the splice never saturates.
pub proof fn lemma_removal_preserves_due_times(s: Seq<u32>, m: int)
    requires
        0 <= m < s.len(),
        prefix_sum(s, s.len() as int) <= u32::MAX,
    ensures
        gaps_after_removal(s, m).len() == s.len() - 1,
        forall|j: int|
            0 <= j < m ==> #[trigger] due_time(gaps_after_removal(s, m), j) == due_time(s, j),
        forall|j: int|
            m < j < s.len() ==> due_time(gaps_after_removal(s, m), j - 1) == #[trigger] due_time(
                s,
                j,
            ),
{
    let s2 = gaps_after_removal(s, m);
    s.remove_ensures(m);
    assert forall|j: int| 0 <= j < m implies #[trigger] due_time(s2, j) == due_time(s, j) by {
        lemma_prefix_sum_congruent(s2, s, j + 1);
    }
    if m + 1 < s.len() {
        lemma_prefix_sum_nonneg(s, m);
        lemma_prefix_sum_monotonic(s, m + 2, s.len() as int);
        assert(prefix_sum(s, m + 1) == prefix_sum(s, m) + s[m]);
        assert(prefix_sum(s, m + 2) == prefix_sum(s, m + 1) + s[m + 1]);
        assert(s2[m] == s[m] + s[m + 1]);
        assert(forall|j: int| m < j < s2.len() ==> s2[j] == s[j + 1]);
        lemma_prefix_sum_congruent(s2, s, m);
        assert(prefix_sum(s2, m + 1) == prefix_sum(s2, m) + s2[m]);
        assert(prefix_sum(s2, m + 1) == prefix_sum(s, m + 2));
        assert forall|j: int| m < j < s.len() implies due_time(s2, j - 1) == #[trigger] due_time(
            s,
            j,
        ) by {
            lemma_prefix_sum_offset(s2, s, m + 1, 1, j);
        }
    }
}

/// An advance past the due time of every pending entry simply zeroes every
/// gap; how much elapsed time was left unconsumed is not recorded.
pub proof fn lemma_update_overshoot(s: Seq<u32>, e: int)
    requires
        forall|j: int| 0 <= j < s.len() ==> #[trigger] due_time(s, j) <= e,
    ensures
        forall|j: int| 0 <= j < s.len() ==> #[trigger] gaps_after_update(s, e)[j] == 0,
{
    assert forall|j: int| 0 <= j < s.len() implies #[trigger] gaps_after_update(s, e)[j] == 0 by {
        lemma_prefix_sum_nonneg(s, j);
        assert(due_time(s, j) == prefix_sum(s, j) + s[j]);
    }
}

/// Advancing time by nothing changes nothing.
pub proof fn lemma_update_zero_is_noop(s: Seq<u32>)
    ensures
        gaps_after_update(s, 0) == s,
{
    assert forall|j: int| 0 <= j < s.len() implies gaps_after_update(s, 0)[j] == s[j] by {
        lemma_prefix_sum_nonneg(s, j);
    }
    assert(gaps_after_update(s, 0) =~= s);
}

} // verus!
