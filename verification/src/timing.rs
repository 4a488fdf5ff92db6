//! How long the runs of a benchmark took.

use vstd::prelude::*;

verus! {

/// The same times, from the shortest to the longest.
pub open spec fn is_sorted_from(sorted: Seq<u64>, times: Seq<u64>) -> bool {
    &&& sorted.to_multiset() == times.to_multiset()
    &&& forall|i: int, j: int| 0 <= i <= j < sorted.len() ==> sorted[i] <= sorted[j]
}

/// Sorts numbers.
pub fn sort_times(times: Vec<u64>) -> (r: Vec<u64>)
    ensures
        is_sorted_from(r@, times@),
{
    let mut sorted: Vec<u64> = Vec::new();
    let mut k: usize = 0;
    proof {
        assert(times@.take(0) =~= Seq::<u64>::empty());
    }
    while k < times.len()
        invariant
            k <= times@.len(),
            sorted@.to_multiset() == times@.take(k as int).to_multiset(),
            forall|i: int, j: int| 0 <= i <= j < sorted@.len() ==> sorted@[i] <= sorted@[j],
        decreases times@.len() - k,
    {
        let time: u64 = times[k];
        let ghost before = sorted@;
        let mut at: usize = 0;
        while at < sorted.len() && sorted[at] <= time
            invariant
                at <= sorted@.len(),
                sorted@ == before,
                forall|i: int| 0 <= i < at ==> before[i] <= time,
            decreases sorted@.len() - at,
        {
            at += 1;
        }
        sorted.insert(at, time);
        proof {
            vstd::seq_lib::to_multiset_insert(before, at as int, time);
            vstd::seq_lib::to_multiset_build(times@.take(k as int), time);
            assert(times@.take(k + 1) =~= times@.take(k as int).push(time));
        }
        k += 1;
    }
    proof {
        assert(times@.take(times@.len() as int) =~= times@);
    }
    sorted
}

/// The place of a percentile among so many times in order: the whole part of so many
/// hundredths of their number.
pub open spec fn percentile_place(len: nat, percent: nat) -> nat {
    len * percent / 100
}

/// The times of one method in order, with the shortest, the longest, and the ones
/// below which a twentieth of the times and all but a twentieth lie.
#[derive(Clone, Debug, PartialEq, Eq)]
pub struct Timing {
    pub times: Vec<u64>,
    pub min: u64,
    pub max: u64,
    pub p5: u64,
    pub p95: u64,
}

/// The ranks of times.
pub fn rank_times(times: Vec<u64>) -> (r: Timing)
    requires
        times@.len() > 0,
    ensures
        is_sorted_from(r.times@, times@),
        r.min == r.times@[0],
        r.max == r.times@.last(),
        r.p5 == r.times@[percentile_place(times@.len(), 5) as int],
        r.p95 == r.times@[percentile_place(times@.len(), 95) as int],
        r.min <= r.p5 <= r.p95 <= r.max,
{
    let ghost given = times@;
    let sorted = sort_times(times);
    proof {
        vstd::seq_lib::to_multiset_len(sorted@);
        vstd::seq_lib::to_multiset_len(given);
    }
    let len: usize = sorted.len();
    let low: usize = len / 20;
    let high: usize = len / 20 * 19 + len % 20 * 19 / 20;
    let min: u64 = sorted[0];
    let max: u64 = sorted[len - 1];
    let p5: u64 = sorted[low];
    let p95: u64 = sorted[high];
    Timing { times: sorted, min, max, p5, p95 }
}

/// Sorting keeps every time as often as it is there, and puts none before a shorter one.
pub proof fn law_sorting_keeps_the_times(sorted: Seq<u64>, times: Seq<u64>)
    requires
        is_sorted_from(sorted, times),
    ensures
        sorted.len() == times.len(),
        forall|t: u64| #[trigger] sorted.to_multiset().count(t) == times.to_multiset().count(t),
        forall|i: int, j: int|
            0 <= i < j < sorted.len() ==> #[trigger] sorted[i] <= #[trigger] sorted[j],
{
    vstd::seq_lib::to_multiset_len(sorted);
    vstd::seq_lib::to_multiset_len(times);
}

/// A percentile stands at the whole part of its hundredths of the number of times.
pub proof fn law_percentiles_stand_at_hundredths(len: nat, percent: nat)
    ensures
        100 * percentile_place(len, percent) <= len * percent < 100 * (percentile_place(
            len,
            percent,
        ) + 1),
{
}

} // verus!
