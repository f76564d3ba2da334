//! Hybrid logical clock: a wall-clock reading paired with a counter for
//! same-millisecond ordering and a node id to break remaining ties.  Local
//! issuance is strictly monotonic, and merging with a remote clock yields a
//! value strictly greater than both operands.

use vstd::prelude::*;

use crate::runtime::now_ms;
use crate::text::spec_str_lt;
use crate::text::str_eq;
use crate::text::str_lt;

verus! {

/// Hybrid Logical Clock: combines the wall clock with a counter for ordering.
#[derive(Debug, Clone, PartialEq, Eq, PartialOrd, Ord, Hash)]
pub struct HLC {
    /// Wall clock timestamp in milliseconds.
    pub timestamp_ms: i64,
    /// Counter for same-millisecond ordering.
    pub counter: u32,
    /// Node id to break ties.
    pub node_id: String,
}

/// The total order on clock values: lexicographic by timestamp, then
/// counter, then node id (by code point).
pub open spec fn spec_hlc_lt(a: HLC, b: HLC) -> bool {
    ||| a.timestamp_ms < b.timestamp_ms
    ||| (a.timestamp_ms == b.timestamp_ms && a.counter < b.counter)
    ||| (a.timestamp_ms == b.timestamp_ms && a.counter == b.counter && spec_str_lt(
        a.node_id@,
        b.node_id@,
    ))
}

/// Equality of clock values, field by field.
pub open spec fn spec_hlc_eq(a: HLC, b: HLC) -> bool {
    a.timestamp_ms == b.timestamp_ms && a.counter == b.counter && a.node_id@ == b.node_id@
}

/// The timestamp a merge settles on: the maximum of the wall reading and
/// both operands' timestamps.
pub open spec fn spec_merged_timestamp(l: HLC, r: HLC, now: i64) -> i64 {
    if now > l.timestamp_ms && now > r.timestamp_ms {
        now
    } else if l.timestamp_ms >= r.timestamp_ms {
        l.timestamp_ms
    } else {
        r.timestamp_ms
    }
}

/// The counter a merge settles on: zero when the wall reading strictly
/// exceeds both operands, else one past the counters involved at the
/// maximal timestamp.
pub open spec fn spec_merged_counter(l: HLC, r: HLC, now: i64) -> int {
    if now > l.timestamp_ms && now > r.timestamp_ms {
        0
    } else if l.timestamp_ms > r.timestamp_ms {
        l.counter + 1
    } else if r.timestamp_ms > l.timestamp_ms {
        r.counter + 1
    } else if l.counter >= r.counter {
        l.counter + 1
    } else {
        r.counter + 1
    }
}

impl HLC {
    /// A view of the clock as a triple of plain values.
    pub open spec fn spec_parts(self) -> (i64, u32, Seq<char>) {
        (self.timestamp_ms, self.counter, self.node_id@)
    }

    /// Construct a clock for this node, starting at the given wall time.
    pub fn new_at(node_id: &str, now: i64) -> (r: HLC)
        ensures
            r.timestamp_ms == now,
            r.counter == 0,
            r.node_id@ == node_id@,
    {
        HLC { timestamp_ms: now, counter: 0, node_id: node_id.to_owned() }
    }

    /// Construct a clock for this node, starting at the platform clock.
    pub fn new(node_id: &str) -> (r: HLC)
        ensures
            r.counter == 0,
            r.node_id@ == node_id@,
    {
        let now: i64 = now_ms();
        HLC::new_at(node_id, now)
    }

    /// An exact copy of this clock value.
    pub fn duplicate(&self) -> (r: HLC)
        ensures
            r == *self,
    {
        HLC {
            timestamp_ms: self.timestamp_ms,
            counter: self.counter,
            node_id: self.node_id.clone(),
        }
    }

    /// Advance the clock against a wall-time reading `now`: adopt `now` when
    /// it moved past the stored timestamp, else bump the counter.  The new
    /// value is strictly greater than the old one, whatever `now` is.
    pub fn next_at(&mut self, now: i64) -> (r: HLC)
        requires
            old(self).counter < u32::MAX,
        ensures
            spec_hlc_lt(*old(self), *final(self)),
            final(self).node_id@ == old(self).node_id@,
            now > old(self).timestamp_ms ==> final(self).timestamp_ms == now
                && final(self).counter == 0,
            now <= old(self).timestamp_ms ==> final(self).timestamp_ms == old(self).timestamp_ms
                && final(self).counter == old(self).counter + 1,
            r == *final(self),
    {
        if now > self.timestamp_ms {
            self.timestamp_ms = now;
            self.counter = 0;
        } else {
            self.counter = self.counter + 1;
        }
        self.duplicate()
    }

    /// Generate the next timestamp from the platform clock, ensuring a
    /// monotonic increase.
    pub fn next(&mut self) -> (r: HLC)
        requires
            old(self).counter < u32::MAX,
        ensures
            spec_hlc_lt(*old(self), *final(self)),
            final(self).node_id@ == old(self).node_id@,
            r == *final(self),
    {
        let now: i64 = now_ms();
        self.next_at(now)
    }

    /// Merge with a remote clock against a wall-time reading `now`: the new
    /// timestamp is the maximum of the three readings, the counter resets to
    /// zero when the wall reading strictly exceeds both operands and
    /// otherwise advances past the counters at the maximal timestamp, so the
    /// result is strictly greater than both operands; the node id is kept.
    pub fn merge_at(&mut self, remote: &HLC, now: i64)
        requires
            old(self).counter < u32::MAX,
            remote.counter < u32::MAX,
        ensures
            final(self).timestamp_ms == spec_merged_timestamp(*old(self), *remote, now),
            final(self).counter == spec_merged_counter(*old(self), *remote, now),
            spec_hlc_lt(*old(self), *final(self)),
            final(self).timestamp_ms > remote.timestamp_ms || (final(self).timestamp_ms
                == remote.timestamp_ms && final(self).counter > remote.counter),
            final(self).timestamp_ms >= now,
            final(self).node_id@ == old(self).node_id@,
    {
        if now > self.timestamp_ms && now > remote.timestamp_ms {
            self.timestamp_ms = now;
            self.counter = 0;
        } else if self.timestamp_ms > remote.timestamp_ms {
            self.counter = self.counter + 1;
        } else if remote.timestamp_ms > self.timestamp_ms {
            self.timestamp_ms = remote.timestamp_ms;
            self.counter = remote.counter + 1;
        } else {
            let c: u32 = if self.counter > remote.counter {
                self.counter
            } else {
                remote.counter
            };
            self.counter = c + 1;
        }
    }

    /// Merge with a remote clock, taking the wall time from the platform:
    /// for whatever the clock read, the merged value follows the exact
    /// merge formula at that reading.
    pub fn merge(&mut self, remote: &HLC)
        requires
            old(self).counter < u32::MAX,
            remote.counter < u32::MAX,
        ensures
            exists|t: i64|
                final(self).timestamp_ms == spec_merged_timestamp(*old(self), *remote, t)
                    && final(self).counter == #[trigger] spec_merged_counter(
                    *old(self),
                    *remote,
                    t,
                ),
            spec_hlc_lt(*old(self), *final(self)),
            final(self).timestamp_ms > remote.timestamp_ms || (final(self).timestamp_ms
                == remote.timestamp_ms && final(self).counter > remote.counter),
            final(self).node_id@ == old(self).node_id@,
    {
        let now: i64 = now_ms();
        self.merge_at(remote, now)
    }
}

/// Whether `a` comes strictly before `b` in the clock order.
pub fn hlc_lt(a: &HLC, b: &HLC) -> (r: bool)
    ensures
        r == spec_hlc_lt(*a, *b),
{
    if a.timestamp_ms < b.timestamp_ms {
        true
    } else if a.timestamp_ms > b.timestamp_ms {
        false
    } else if a.counter < b.counter {
        true
    } else if a.counter > b.counter {
        false
    } else {
        str_lt(a.node_id.as_str(), b.node_id.as_str())
    }
}

/// Whether two clock values are equal, field by field.
pub fn hlc_eq(a: &HLC, b: &HLC) -> (r: bool)
    ensures
        r == spec_hlc_eq(*a, *b),
{
    a.timestamp_ms == b.timestamp_ms && a.counter == b.counter && str_eq(
        a.node_id.as_str(),
        b.node_id.as_str(),
    )
}

/// The clock order never holds both ways at once.
pub proof fn lemma_hlc_lt_asymmetric(a: HLC, b: HLC)
    ensures
        !(spec_hlc_lt(a, b) && spec_hlc_lt(b, a)),
{
    if spec_hlc_lt(a, b) && spec_hlc_lt(b, a) {
        crate::text::lemma_str_lt_asymmetric(a.node_id@, b.node_id@);
    }
}

/// The clock order is transitive.  Together with the step contracts of
/// `next` and `merge`, each of which yields a value strictly greater than
/// the clock's previous value, this shows that after any finite interleaving
/// of `next` and `merge` calls, every issued value is strictly greater than
/// every value the same clock issued before it.
pub proof fn lemma_hlc_lt_transitive(a: HLC, b: HLC, c: HLC)
    requires
        spec_hlc_lt(a, b),
        spec_hlc_lt(b, c),
    ensures
        spec_hlc_lt(a, c),
{
    if a.timestamp_ms == c.timestamp_ms && a.counter == c.counter {
        crate::text::lemma_str_lt_transitive(a.node_id@, b.node_id@, c.node_id@);
    }
}

} // verus!
