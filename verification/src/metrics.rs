//! Counts of what a campaign did.

use vstd::prelude::*;

use crate::ordered::OrderedMap;

verus! {

/// Counts for one selector.
#[derive(Clone, Copy, Debug, PartialEq, Eq, Structural)]
pub struct InvariantMetrics {
    /// Calls of the selector.
    pub calls: usize,
    /// Calls that reverted.
    pub reverts: usize,
    /// Calls that an assumption discarded.
    pub discards: usize,
}

impl Default for InvariantMetrics {
    fn default() -> (r: Self)
        ensures
            r == InvariantMetrics::none(),
    {
        InvariantMetrics { calls: 0, reverts: 0, discards: 0 }
    }
}

impl InvariantMetrics {
    /// No calls.
    pub open spec fn none() -> InvariantMetrics {
        InvariantMetrics { calls: 0, reverts: 0, discards: 0 }
    }

    /// A call counts once, as a revert or as a discard or as neither.
    pub open spec fn consistent(self) -> bool {
        self.reverts + self.discards <= self.calls
    }

    /// The counts with one call more. A discarded call does not count as a revert.
    pub open spec fn record(self, reverted: bool, discarded: bool) -> InvariantMetrics {
        InvariantMetrics {
            calls: (self.calls + 1) as usize,
            reverts: if reverted && !discarded {
                (self.reverts + 1) as usize
            } else {
                self.reverts
            },
            discards: if discarded {
                (self.discards + 1) as usize
            } else {
                self.discards
            },
        }
    }

    /// One call more of this outcome is representable.
    pub open spec fn fits_record(self, reverted: bool, discarded: bool) -> bool {
        &&& self.calls < usize::MAX
        &&& discarded ==> self.discards < usize::MAX
        &&& reverted && !discarded ==> self.reverts < usize::MAX
    }

    /// The sums of the counts.
    pub open spec fn plus(self, other: InvariantMetrics) -> InvariantMetrics {
        InvariantMetrics {
            calls: (self.calls + other.calls) as usize,
            reverts: (self.reverts + other.reverts) as usize,
            discards: (self.discards + other.discards) as usize,
        }
    }

    /// The sums of the counts are representable.
    pub open spec fn fits_with(self, other: InvariantMetrics) -> bool {
        &&& self.calls + other.calls <= usize::MAX
        &&& self.reverts + other.reverts <= usize::MAX
        &&& self.discards + other.discards <= usize::MAX
    }
}

/// Counts per selector.
pub type MetricsMap = OrderedMap<String, InvariantMetrics>;

/// The counts under `key`, which are zero where there are none.
pub open spec fn metrics_at(metrics: Map<Seq<char>, InvariantMetrics>, key: Seq<char>) -> InvariantMetrics {
    if metrics.dom().contains(key) {
        metrics[key]
    } else {
        InvariantMetrics::none()
    }
}

/// The counts with one call more under `key`, if there is a key.
pub open spec fn record_call(
    metrics: Map<Seq<char>, InvariantMetrics>,
    key: Option<Seq<char>>,
    reverted: bool,
    discarded: bool,
) -> Map<Seq<char>, InvariantMetrics> {
    match key {
        Some(key) => metrics.insert(key, metrics_at(metrics, key).record(reverted, discarded)),
        None => metrics,
    }
}

/// Every count is consistent.
pub open spec fn all_consistent(metrics: Map<Seq<char>, InvariantMetrics>) -> bool {
    forall|key: Seq<char>| #[trigger] metrics.dom().contains(key) ==> metrics[key].consistent()
}

/// No selector has more reverts and discards than calls: one call more, of any outcome, keeps
/// that.
pub proof fn recorded_calls_stay_consistent(
    metrics: Map<Seq<char>, InvariantMetrics>,
    key: Option<Seq<char>>,
    reverted: bool,
    discarded: bool,
)
    requires
        all_consistent(metrics),
        key matches Some(k) ==> metrics_at(metrics, k).fits_record(reverted, discarded),
    ensures
        all_consistent(record_call(metrics, key, reverted, discarded)),
{
}

/// Every call under a key counts once, as a revert or as a discarded call or as neither, and nothing
/// is counted under other keys.
pub proof fn every_call_counts_once(
    metrics: Map<Seq<char>, InvariantMetrics>,
    key: Seq<char>,
    other: Seq<char>,
    reverted: bool,
    discarded: bool,
)
    requires
        metrics_at(metrics, key).fits_record(reverted, discarded),
    ensures
        ({
            let before = metrics_at(metrics, key);
            let after = metrics_at(record_call(metrics, Some(key), reverted, discarded), key);
            &&& after.calls == before.calls + 1
            &&& after.discards == before.discards + if discarded { 1int } else { 0int }
            &&& after.reverts == before.reverts + if reverted && !discarded { 1int } else { 0int }
        }),
        other != key ==> metrics_at(record_call(metrics, Some(key), reverted, discarded), other) == metrics_at(
            metrics,
            other,
        ),
{
}

/// Sums of consistent counts are consistent.
pub proof fn summed_metrics_stay_consistent(a: InvariantMetrics, b: InvariantMetrics)
    requires
        a.consistent(),
        b.consistent(),
        a.fits_with(b),
    ensures
        a.plus(b).consistent(),
{
}

/// What is counted under `key`.
pub fn metrics_of(metrics: &MetricsMap, key: &String) -> (r: InvariantMetrics)
    requires
        metrics.wf(),
    ensures
        r == metrics_at(metrics@, key@),
{
    match metrics.get(key) {
        Some(m) => *m,
        None => InvariantMetrics { calls: 0, reverts: 0, discards: 0 },
    }
}

/// Counts one call more under `key`. A discarded call does not count as a revert.
pub fn count_call(metrics: &mut MetricsMap, key: String, reverted: bool, discarded: bool)
    requires
        old(metrics).wf(),
        metrics_at(old(metrics)@, key@).fits_record(reverted, discarded),
    ensures
        final(metrics).wf(),
        final(metrics)@ == record_call(old(metrics)@, Some(key@), reverted, discarded),
{
    let mut m = metrics_of(metrics, &key);
    m.calls += 1;
    if discarded {
        m.discards += 1;
    } else if reverted {
        m.reverts += 1;
    }
    metrics.insert(key, m);
}

/// Counts are added one by one: the calls to the calls, the reverts to the reverts and the discarded calls to
/// the discarded calls.
pub proof fn counts_are_added_one_by_one(a: InvariantMetrics, b: InvariantMetrics)
    requires
        a.calls + b.calls <= usize::MAX,
        a.reverts + b.reverts <= usize::MAX,
        a.discards + b.discards <= usize::MAX,
    ensures
        a.fits_with(b),
        a.plus(b).calls == a.calls + b.calls,
        a.plus(b).reverts == a.reverts + b.reverts,
        a.plus(b).discards == a.discards + b.discards,
{
}

/// Where nothing was counted under a key, all of its counts are zero; and a call of a selector that is not
/// known is not counted at all.
pub proof fn nothing_is_counted_without_a_key(
    metrics: Map<Seq<char>, InvariantMetrics>,
    key: Seq<char>,
    reverted: bool,
    discarded: bool,
)
    ensures
        metrics.dom().contains(key) ==> metrics_at(metrics, key) == metrics[key],
        !metrics.dom().contains(key) ==> metrics_at(metrics, key) == (InvariantMetrics {
            calls: 0,
            reverts: 0,
            discards: 0,
        }),
        record_call(metrics, None, reverted, discarded) == metrics,
        forall|other: Seq<char>|
            #[trigger] record_call(metrics, Some(key), reverted, discarded).dom().contains(other) == (other == key
                || metrics.dom().contains(other)),
{
}

/// A count may grow by one call exactly where each of its numbers that grows stays representable.
pub proof fn counts_grow_while_they_fit(metrics: InvariantMetrics, reverted: bool, discarded: bool)
    ensures
        metrics.fits_record(reverted, discarded) <==> {
            &&& metrics.calls + 1 <= usize::MAX
            &&& discarded ==> metrics.discards + 1 <= usize::MAX
            &&& reverted && !discarded ==> metrics.reverts + 1 <= usize::MAX
        },
{
}

} // verus!
