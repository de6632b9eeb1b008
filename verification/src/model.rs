//! The mathematical model of the delta timer queue: a sequence of gaps
//! (`Seq<u32>`) beside a sequence of payloads, and spec functions giving the
//! effect of each operation on the gaps.

use vstd::prelude::*;
use vstd::std_specs::cmp::PartialEqSpec;

verus! {

/// `x` clamped to the range of `u32`: saturating duration arithmetic lands here.
pub open spec fn saturate_u32(x: int) -> u32 {
    if x < 0 {
        0u32
    } else if x > u32::MAX {
        u32::MAX
    } else {
        x as u32
    }
}

/// Sum of the first `i` gaps of `s`: the time from now at which the entry at
/// index `i - 1` fires, and the base from which the gap of entry `i` counts.
pub open spec fn prefix_sum(s: Seq<u32>, i: int) -> int
    decreases i,
{
    if i <= 0 {
        0
    } else {
        prefix_sum(s, i - 1) + s[i - 1]
    }
}

/// The absolute time-from-now at which the entry at index `i` is due: the sum
/// of the gaps of entries `0..=i`. This is the defining reading of the delta
/// encoding.
pub open spec fn due_time(s: Seq<u32>, i: int) -> int {
    prefix_sum(s, i + 1)
}

/// Where an entry with a due time of `d` comes to stand: after every entry
/// whose own due time is at most `d` (so that entries sharing a due time keep
/// their insertion order) and before all the rest.
pub open spec fn insertion_index(s: Seq<u32>, d: int) -> int
    decreases s.len(),
{
    if s.len() == 0 || s[0] > d {
        0
    } else {
        1 + insertion_index(s.drop_first(), d - s[0])
    }
}

/// The gaps after scheduling a new entry with a due time of `d`. The new
/// entry's own gap is what is left of `d` after the gaps ahead of it, and the
/// entry it displaces gives up that much of its own gap, so that its due time
/// is unchanged.
pub open spec fn gaps_after_add(s: Seq<u32>, d: int) -> Seq<u32> {
    let k = insertion_index(s, d);
    let g = saturate_u32(d - prefix_sum(s, k));
    if k == s.len() {
        s.push(g)
    } else {
        s.insert(k, g).update(k + 1, saturate_u32(s[k] - g))
    }
}

/// The gaps after splicing out the entry at index `m`: a following entry, if
/// any, takes the removed entry's gap onto its own (saturating), so that its
/// due time — and with it every later due time — is preserved.
pub open spec fn gaps_after_removal(s: Seq<u32>, m: int) -> Seq<u32> {
    if m == s.len() - 1 {
        s.remove(m)
    } else {
        s.remove(m).update(m, saturate_u32(s[m] + s[m + 1]))
    }
}

/// The index of the first entry of `s` equal to `e`, under the payload type's
/// own notion of equality, or `-1` where none is.
pub open spec fn first_match_at<T: PartialEq>(s: Seq<T>, e: T) -> int
    decreases s.len(),
{
    if s.len() == 0 {
        -1
    } else if s[0].eq_spec(&e) {
        0
    } else if first_match_at(s.drop_first(), e) < 0 {
        -1
    } else {
        1 + first_match_at(s.drop_first(), e)
    }
}

/// The gaps after advancing logical time by `elapsed`. The entries ahead of
/// entry `j` absorb `prefix_sum(s, j)` of the elapsed time; entry `j`'s own
/// gap gives up what remains, saturating at zero. Every absolute due time
/// thereby moves down by exactly `elapsed`, stopping at zero
/// (`laws::lemma_update_shifts_due_times`); an entry whose predecessors
/// absorb all of `elapsed` keeps its gap.
pub open spec fn gaps_after_update(s: Seq<u32>, elapsed: int) -> Seq<u32> {
    Seq::new(
        s.len(),
        |j: int|
            if prefix_sum(s, j) < elapsed {
                saturate_u32(s[j] - (elapsed - prefix_sum(s, j)))
            } else {
                s[j]
            },
    )
}

/// A sum of unsigned gaps is never negative.
pub proof fn lemma_prefix_sum_nonneg(s: Seq<u32>, i: int)
    ensures
        prefix_sum(s, i) >= 0,
    decreases i,
{
    if i > 0 {
        lemma_prefix_sum_nonneg(s, i - 1);
    }
}

/// Prefix sums of nonnegative gaps never decrease along the sequence.
pub proof fn lemma_prefix_sum_monotonic(s: Seq<u32>, i: int, j: int)
    requires
        i <= j,
    ensures
        prefix_sum(s, i) <= prefix_sum(s, j),
    decreases j - i,
{
    if i < j {
        lemma_prefix_sum_monotonic(s, i, j - 1);
    }
}

/// Sequences that agree on their first `i` elements have the same `i`-th
/// prefix sum.
pub proof fn lemma_prefix_sum_congruent(s1: Seq<u32>, s2: Seq<u32>, i: int)
    requires
        forall|j: int| 0 <= j < i ==> s1[j] == s2[j],
    ensures
        prefix_sum(s1, i) == prefix_sum(s2, i),
    decreases i,
{
    if i > 0 {
        lemma_prefix_sum_congruent(s1, s2, i - 1);
    }
}

/// Sequences whose elements agree from position `k` on, up to a shift of
/// `off`, and whose prefix sums agree at `k`, have agreeing prefix sums from
/// there on.
pub proof fn lemma_prefix_sum_offset(s1: Seq<u32>, s2: Seq<u32>, k: int, off: int, i: int)
    requires
        0 <= k <= i,
        0 <= k + off,
        prefix_sum(s1, k) == prefix_sum(s2, k + off),
        forall|j: int| k <= j < i ==> s1[j] == s2[j + off],
    ensures
        prefix_sum(s1, i) == prefix_sum(s2, i + off),
    decreases i - k,
{
    if i > k {
        lemma_prefix_sum_offset(s1, s2, k, off, i - 1);
        assert(s1[i - 1] == s2[i - 1 + off]);
        assert(prefix_sum(s1, i) == prefix_sum(s1, i - 1) + s1[i - 1]);
        assert(prefix_sum(s2, i + off) == prefix_sum(s2, i + off - 1) + s2[i + off - 1]);
    }
}

/// Dropping the front entry shifts every prefix sum down by the front gap.
pub proof fn lemma_prefix_sum_drop_first(s: Seq<u32>, i: int)
    requires
        s.len() > 0,
        0 <= i <= s.len() - 1,
    ensures
        prefix_sum(s.drop_first(), i) == prefix_sum(s, i + 1) - s[0],
    decreases i,
{
    if i > 0 {
        lemma_prefix_sum_drop_first(s, i - 1);
        assert(s.drop_first()[i - 1] == s[i]);
    } else {
        assert(prefix_sum(s, 1) == prefix_sum(s, 0) + s[0]);
    }
}

/// Advancing time by `e` moves every prefix sum of the gaps down by exactly
/// `e`, stopping at zero.
pub proof fn lemma_update_prefix_sums(s: Seq<u32>, e: int, j: int)
    requires
        0 <= e,
        0 <= j <= s.len(),
    ensures
        prefix_sum(gaps_after_update(s, e), j) == (if prefix_sum(s, j) >= e {
            prefix_sum(s, j) - e
        } else {
            0
        }),
    decreases j,
{
    if j > 0 {
        lemma_update_prefix_sums(s, e, j - 1);
        lemma_prefix_sum_nonneg(s, j - 1);
        let s2 = gaps_after_update(s, e);
        assert(prefix_sum(s2, j) == prefix_sum(s2, j - 1) + s2[j - 1]);
        assert(prefix_sum(s, j) == prefix_sum(s, j - 1) + s[j - 1]);
    }
}

/// The insertion index for a due time of `d` is the place in the sequence
/// where the running sum of gaps last stays at or below `d`.
pub proof fn lemma_insertion_index_props(s: Seq<u32>, d: int)
    requires
        0 <= d,
    ensures
        0 <= insertion_index(s, d) <= s.len(),
        prefix_sum(s, insertion_index(s, d)) <= d,
        insertion_index(s, d) < s.len() ==> prefix_sum(s, insertion_index(s, d) + 1) > d,
    decreases s.len(),
{
    let k = insertion_index(s, d);
    if s.len() == 0 || s[0] > d {
        if s.len() > 0 {
            assert(prefix_sum(s, 1) == prefix_sum(s, 0) + s[0]);
        }
    } else {
        let t = s.drop_first();
        lemma_insertion_index_props(t, d - s[0]);
        let k2 = insertion_index(t, d - s[0]);
        lemma_prefix_sum_drop_first(s, k2);
        if k < s.len() {
            lemma_prefix_sum_drop_first(s, k2 + 1);
        }
    }
}

/// The properties of `lemma_insertion_index_props` pin the insertion index
/// down: a scan that stops at such a place has found it.
pub proof fn lemma_insertion_index_unique(s: Seq<u32>, d: int, k: int)
    requires
        0 <= d,
        0 <= k <= s.len(),
        prefix_sum(s, k) <= d,
        k < s.len() ==> prefix_sum(s, k + 1) > d,
    ensures
        k == insertion_index(s, d),
{
    let ki = insertion_index(s, d);
    lemma_insertion_index_props(s, d);
    if k < ki {
        lemma_prefix_sum_monotonic(s, k + 1, ki);
        assert(false);
    } else if ki < k {
        lemma_prefix_sum_monotonic(s, ki + 1, k);
        assert(false);
    }
}

/// A scan from the front that has seen no equal payload before index `m` and
/// one at `m` has found the first match.
pub proof fn lemma_first_match_found<T: PartialEq>(s: Seq<T>, e: T, m: int)
    requires
        0 <= m < s.len(),
        forall|j: int| 0 <= j < m ==> !(#[trigger] s[j].eq_spec(&e)),
        s[m].eq_spec(&e),
    ensures
        first_match_at(s, e) == m,
    decreases m,
{
    if m > 0 {
        assert forall|j: int| 0 <= j < m - 1 implies !(#[trigger] s.drop_first()[j].eq_spec(
            &e,
        )) by {
            assert(s.drop_first()[j] == s[j + 1]);
        }
        assert(s.drop_first()[m - 1] == s[m]);
        lemma_first_match_found(s.drop_first(), e, m - 1);
    }
}

/// A scan from the front that has seen no equal payload at all has found no
/// match.
pub proof fn lemma_first_match_none<T: PartialEq>(s: Seq<T>, e: T)
    requires
        forall|j: int| 0 <= j < s.len() ==> !(#[trigger] s[j].eq_spec(&e)),
    ensures
        first_match_at(s, e) < 0,
    decreases s.len(),
{
    if s.len() > 0 {
        assert forall|j: int| 0 <= j < s.len() - 1 implies !(#[trigger] s.drop_first()[j].eq_spec(
            &e,
        )) by {
            assert(s.drop_first()[j] == s[j + 1]);
        }
        lemma_first_match_none(s.drop_first(), e);
    }
}

} // verus!
