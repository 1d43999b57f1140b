//! Runtime counters of the data plane and the immutable snapshots taken of
//! them. Every counter saturates at `u64::MAX`, so no recording ever makes a
//! counter go down.
use vstd::prelude::*;
use crate::clock::wall_clock_ms;

verus! {

/// `x` clipped to the range of `u64`.
pub open spec fn sat(x: int) -> u64 {
    if x > u64::MAX as int {
        u64::MAX
    } else {
        x as u64
    }
}

/// Sum of the recorded samples.
pub open spec fn seq_sum(s: Seq<u64>) -> nat
    decreases s.len(),
{
    if s.len() == 0 {
        0
    } else {
        seq_sum(s.drop_last()) + s.last() as nat
    }
}

/// Largest recorded sample (0 when there is none).
pub open spec fn seq_max(s: Seq<u64>) -> u64
    decreases s.len(),
{
    if s.len() == 0 {
        0
    } else if s.last() > seq_max(s.drop_last()) {
        s.last()
    } else {
        seq_max(s.drop_last())
    }
}

/// Smallest recorded sample (0 when there is none).
pub open spec fn seq_min(s: Seq<u64>) -> u64
    decreases s.len(),
{
    if s.len() == 0 {
        0
    } else if s.len() == 1 {
        s[0]
    } else if s.last() < seq_min(s.drop_last()) {
        s.last()
    } else {
        seq_min(s.drop_last())
    }
}

/// Average of the samples as the collector reports it: the saturated sum
/// divided by the saturated count, 0 when nothing was recorded.
pub open spec fn average_of(s: Seq<u64>) -> u64 {
    if s.len() == 0 {
        0
    } else {
        (sat(seq_sum(s) as int) / sat(s.len() as int)) as u64
    }
}

/// Abstract state of a collector: the counters, the start time, and every
/// latency sample recorded since creation or the last reset.
pub struct CollectorView {
    pub packets_processed: u64,
    pub bytes_processed: u64,
    pub packets_dropped: u64,
    pub packets_forwarded: u64,
    pub packets_routed: u64,
    pub errors: u64,
    pub start_time_ms: u64,
    pub latencies: Seq<u64>,
}

/// No counter of `b` is below the same counter of `a`, and `b`'s samples
/// extend `a`'s.
pub open spec fn counters_le(a: CollectorView, b: CollectorView) -> bool {
    &&& a.packets_processed <= b.packets_processed
    &&& a.bytes_processed <= b.bytes_processed
    &&& a.packets_dropped <= b.packets_dropped
    &&& a.packets_forwarded <= b.packets_forwarded
    &&& a.packets_routed <= b.packets_routed
    &&& a.errors <= b.errors
    &&& a.latencies.len() <= b.latencies.len()
    &&& a.latencies == b.latencies.subrange(0, a.latencies.len() as int)
}

/// Whole seconds from `start_ms` to `now_ms` (0 when `now_ms` is earlier).
pub open spec fn uptime_at(start_ms: u64, now_ms: u64) -> u64 {
    if now_ms >= start_ms {
        ((now_ms - start_ms) / 1000) as u64
    } else {
        0
    }
}

/// The snapshot of the counters `v` taken at `now_ms`. Rates are per whole
/// second of uptime, 0 before the first second has passed.
pub open spec fn snapshot_of(v: CollectorView, now_ms: u64) -> Metrics {
    let up = uptime_at(v.start_time_ms, now_ms);
    Metrics {
        packets_processed: v.packets_processed,
        bytes_processed: v.bytes_processed,
        packets_dropped: v.packets_dropped,
        packets_forwarded: v.packets_forwarded,
        packets_routed: v.packets_routed,
        errors: v.errors,
        uptime_seconds: up,
        packets_per_second: if up == 0 {
            0
        } else {
            (v.packets_processed / up) as u64
        },
        bytes_per_second: if up == 0 {
            0
        } else {
            (v.bytes_processed / up) as u64
        },
        average_latency_ns: average_of(v.latencies),
        max_latency_ns: seq_max(v.latencies),
        min_latency_ns: seq_min(v.latencies),
        routing_table_size: 0,
        active_neighbors: 0,
        active_interfaces: 0,
    }
}

/// A snapshot of the counters. Created on read, never changed afterwards.
#[derive(Debug, Clone, Copy)]
pub struct Metrics {
    pub packets_processed: u64,
    pub bytes_processed: u64,
    pub packets_dropped: u64,
    pub packets_forwarded: u64,
    pub packets_routed: u64,
    pub errors: u64,
    pub uptime_seconds: u64,
    pub packets_per_second: u64,
    pub bytes_per_second: u64,
    pub average_latency_ns: u64,
    pub max_latency_ns: u64,
    pub min_latency_ns: u64,
    pub routing_table_size: u64,
    pub active_neighbors: u32,
    pub active_interfaces: u32,
}

impl Metrics {
    /// A snapshot with every counter at zero.
    pub fn zeroed() -> (m: Metrics)
        ensures
            m.packets_processed == 0 && m.bytes_processed == 0 && m.packets_dropped == 0,
            m.packets_forwarded == 0 && m.packets_routed == 0 && m.errors == 0,
            m.uptime_seconds == 0 && m.packets_per_second == 0 && m.bytes_per_second == 0,
            m.average_latency_ns == 0 && m.max_latency_ns == 0 && m.min_latency_ns == 0,
            m.routing_table_size == 0 && m.active_neighbors == 0 && m.active_interfaces == 0,
    {
        Metrics {
            packets_processed: 0,
            bytes_processed: 0,
            packets_dropped: 0,
            packets_forwarded: 0,
            packets_routed: 0,
            errors: 0,
            uptime_seconds: 0,
            packets_per_second: 0,
            bytes_per_second: 0,
            average_latency_ns: 0,
            max_latency_ns: 0,
            min_latency_ns: 0,
            routing_table_size: 0,
            active_neighbors: 0,
            active_interfaces: 0,
        }
    }
}

impl Default for Metrics {
    fn default() -> (m: Metrics)
        ensures
            m.packets_processed == 0 && m.bytes_processed == 0 && m.packets_dropped == 0,
            m.average_latency_ns == 0 && m.max_latency_ns == 0 && m.min_latency_ns == 0,
    {
        Metrics::zeroed()
    }
}

/// Collector of the data-plane counters.
pub struct MetricsCollector {
    packets_processed: u64,
    bytes_processed: u64,
    packets_dropped: u64,
    packets_forwarded: u64,
    packets_routed: u64,
    errors: u64,
    start_time_ms: u64,
    latency_sum: u64,
    latency_count: u64,
    max_latency: u64,
    min_latency: u64,
    latencies: Ghost<Seq<u64>>,
}

impl View for MetricsCollector {
    type V = CollectorView;

    closed spec fn view(&self) -> CollectorView {
        CollectorView {
            packets_processed: self.packets_processed,
            bytes_processed: self.bytes_processed,
            packets_dropped: self.packets_dropped,
            packets_forwarded: self.packets_forwarded,
            packets_routed: self.packets_routed,
            errors: self.errors,
            start_time_ms: self.start_time_ms,
            latencies: self.latencies@,
        }
    }
}

proof fn lemma_push_unfold(s: Seq<u64>, x: u64)
    ensures
        s.push(x).drop_last() == s,
        s.push(x).last() == x,
        s.push(x).len() == s.len() + 1,
{
    assert(s.push(x).drop_last() =~= s);
}

impl MetricsCollector {
    /// The latency accumulators agree with the recorded samples.
    pub closed spec fn wf(&self) -> bool {
        &&& self.latency_sum == sat(seq_sum(self.latencies@) as int)
        &&& self.latency_count == sat(self.latencies@.len() as int)
        &&& self.max_latency == seq_max(self.latencies@)
        &&& self.min_latency == seq_min(self.latencies@)
    }

    /// A collector with every counter at zero, started at `now_ms`.
    pub fn new_at(now_ms: u64) -> (c: MetricsCollector)
        ensures
            c.wf(),
            c@.packets_processed == 0 && c@.bytes_processed == 0 && c@.packets_dropped == 0,
            c@.packets_forwarded == 0 && c@.packets_routed == 0 && c@.errors == 0,
            c@.latencies.len() == 0,
            c@.start_time_ms == now_ms,
    {
        MetricsCollector {
            packets_processed: 0,
            bytes_processed: 0,
            packets_dropped: 0,
            packets_forwarded: 0,
            packets_routed: 0,
            errors: 0,
            start_time_ms: now_ms,
            latency_sum: 0,
            latency_count: 0,
            max_latency: 0,
            min_latency: 0,
            latencies: Ghost(Seq::empty()),
        }
    }

    /// A collector with every counter at zero, started now.
    pub fn new() -> (c: MetricsCollector)
        ensures
            c.wf(),
            c@.packets_processed == 0 && c@.bytes_processed == 0 && c@.packets_dropped == 0,
            c@.packets_forwarded == 0 && c@.packets_routed == 0 && c@.errors == 0,
            c@.latencies.len() == 0,
    {
        MetricsCollector::new_at(wall_clock_ms())
    }

    /// Counts one processed packet of `size` bytes.
    pub fn record_packet_processed(&mut self, size: u64)
        requires
            old(self).wf(),
        ensures
            final(self).wf(),
            final(self)@ == (CollectorView {
                packets_processed: sat(old(self)@.packets_processed + 1),
                bytes_processed: sat(old(self)@.bytes_processed + size),
                ..old(self)@
            }),
            counters_le(old(self)@, final(self)@),
    {
        self.packets_processed = self.packets_processed.saturating_add(1);
        self.bytes_processed = self.bytes_processed.saturating_add(size);
        assert(self@.latencies =~= self@.latencies.subrange(0, self@.latencies.len() as int));
    }

    /// Counts one dropped packet.
    pub fn record_packet_dropped(&mut self)
        requires
            old(self).wf(),
        ensures
            final(self).wf(),
            final(self)@ == (CollectorView {
                packets_dropped: sat(old(self)@.packets_dropped + 1),
                ..old(self)@
            }),
            counters_le(old(self)@, final(self)@),
    {
        self.packets_dropped = self.packets_dropped.saturating_add(1);
        assert(self@.latencies =~= self@.latencies.subrange(0, self@.latencies.len() as int));
    }

    /// Counts one forwarded packet.
    pub fn record_packet_forwarded(&mut self)
        requires
            old(self).wf(),
        ensures
            final(self).wf(),
            final(self)@ == (CollectorView {
                packets_forwarded: sat(old(self)@.packets_forwarded + 1),
                ..old(self)@
            }),
            counters_le(old(self)@, final(self)@),
    {
        self.packets_forwarded = self.packets_forwarded.saturating_add(1);
        assert(self@.latencies =~= self@.latencies.subrange(0, self@.latencies.len() as int));
    }

    /// Counts one routed packet.
    pub fn record_packet_routed(&mut self)
        requires
            old(self).wf(),
        ensures
            final(self).wf(),
            final(self)@ == (CollectorView {
                packets_routed: sat(old(self)@.packets_routed + 1),
                ..old(self)@
            }),
            counters_le(old(self)@, final(self)@),
    {
        self.packets_routed = self.packets_routed.saturating_add(1);
        assert(self@.latencies =~= self@.latencies.subrange(0, self@.latencies.len() as int));
    }

    /// Counts one error.
    pub fn record_error(&mut self)
        requires
            old(self).wf(),
        ensures
            final(self).wf(),
            final(self)@ == (CollectorView { errors: sat(old(self)@.errors + 1), ..old(self)@ }),
            counters_le(old(self)@, final(self)@),
    {
        self.errors = self.errors.saturating_add(1);
        assert(self@.latencies =~= self@.latencies.subrange(0, self@.latencies.len() as int));
    }

    /// Records one processing-latency sample, in nanoseconds.
    pub fn record_latency(&mut self, latency_ns: u64)
        requires
            old(self).wf(),
        ensures
            final(self).wf(),
            final(self)@ == (CollectorView {
                latencies: old(self)@.latencies.push(latency_ns),
                ..old(self)@
            }),
            counters_le(old(self)@, final(self)@),
    {
        let ghost before = self.latencies@;
        proof {
            lemma_push_unfold(before, latency_ns);
        }
        let first = self.latency_count == 0;
        self.latency_sum = self.latency_sum.saturating_add(latency_ns);
        self.latency_count = self.latency_count.saturating_add(1);
        if latency_ns > self.max_latency {
            self.max_latency = latency_ns;
        }
        if first || latency_ns < self.min_latency {
            self.min_latency = latency_ns;
        }
        self.latencies = Ghost(before.push(latency_ns));
        assert(before =~= self.latencies@.subrange(0, before.len() as int));
    }

    /// A snapshot of the counters, taken at `now_ms`. Rates are per whole
    /// second of uptime, 0 before the first second has passed.
    pub fn get_metrics_at(&self, now_ms: u64) -> (m: Metrics)
        requires
            self.wf(),
        ensures
            m == snapshot_of(self@, now_ms),
    {
        let uptime_seconds: u64 = if now_ms >= self.start_time_ms {
            (now_ms - self.start_time_ms) / 1000
        } else {
            0
        };
        let packets_per_second: u64 = if uptime_seconds == 0 {
            0
        } else {
            self.packets_processed / uptime_seconds
        };
        let bytes_per_second: u64 = if uptime_seconds == 0 {
            0
        } else {
            self.bytes_processed / uptime_seconds
        };
        let average_latency_ns: u64 = if self.latency_count == 0 {
            0
        } else {
            self.latency_sum / self.latency_count
        };
        Metrics {
            packets_processed: self.packets_processed,
            bytes_processed: self.bytes_processed,
            packets_dropped: self.packets_dropped,
            packets_forwarded: self.packets_forwarded,
            packets_routed: self.packets_routed,
            errors: self.errors,
            uptime_seconds,
            packets_per_second,
            bytes_per_second,
            average_latency_ns,
            max_latency_ns: self.max_latency,
            min_latency_ns: self.min_latency,
            routing_table_size: 0,
            active_neighbors: 0,
            active_interfaces: 0,
        }
    }

    /// A snapshot of the counters, taken now.
    pub fn get_metrics(&self) -> (m: Metrics)
        requires
            self.wf(),
        ensures
            m.packets_processed == self@.packets_processed,
            m.bytes_processed == self@.bytes_processed,
            m.packets_dropped == self@.packets_dropped,
            m.packets_forwarded == self@.packets_forwarded,
            m.packets_routed == self@.packets_routed,
            m.errors == self@.errors,
            m.average_latency_ns == average_of(self@.latencies),
            m.max_latency_ns == seq_max(self@.latencies),
            m.min_latency_ns == seq_min(self@.latencies),
            exists|now_ms: u64| m == #[trigger] snapshot_of(self@, now_ms),
    {
        self.get_metrics_at(wall_clock_ms())
    }

    /// Sets every counter back to zero and forgets the latency samples; the
    /// start time stays.
    pub fn reset(&mut self)
        requires
            old(self).wf(),
        ensures
            final(self).wf(),
            final(self)@ == (CollectorView {
                packets_processed: 0,
                bytes_processed: 0,
                packets_dropped: 0,
                packets_forwarded: 0,
                packets_routed: 0,
                errors: 0,
                start_time_ms: old(self)@.start_time_ms,
                latencies: Seq::empty(),
            }),
    {
        self.packets_processed = 0;
        self.bytes_processed = 0;
        self.packets_dropped = 0;
        self.packets_forwarded = 0;
        self.packets_routed = 0;
        self.errors = 0;
        self.latency_sum = 0;
        self.latency_count = 0;
        self.max_latency = 0;
        self.min_latency = 0;
        self.latencies = Ghost(Seq::empty());
    }
}

/// Every recorded latency sample lies between the smallest and the largest
/// latency that a snapshot reports.
pub proof fn latency_extremes_bound_samples(s: Seq<u64>)
    ensures
        forall|i: int| 0 <= i < s.len() ==> seq_min(s) <= #[trigger] s[i] <= seq_max(s),
    decreases s.len(),
{
    if s.len() > 0 {
        let p = s.drop_last();
        latency_extremes_bound_samples(p);
        assert forall|i: int| 0 <= i < s.len() implies seq_min(s) <= #[trigger] s[i] <= seq_max(
            s,
        ) by {
            if i < s.len() - 1 {
                assert(s[i] == p[i]);
            }
        }
    }
}

/// Counters never go down along any sequence of recordings: the order
/// `counters_le` that each recording keeps is transitive.
pub proof fn counters_monotone(a: CollectorView, b: CollectorView, c: CollectorView)
    requires
        counters_le(a, b),
        counters_le(b, c),
    ensures
        counters_le(a, c),
{
    assert(a.latencies =~= c.latencies.subrange(0, a.latencies.len() as int));
}

proof fn lemma_max_is_sample(s: Seq<u64>)
    requires
        s.len() > 0,
    ensures
        exists|i: int| 0 <= i < s.len() && s[i] == seq_max(s),
    decreases s.len(),
{
    let p = s.drop_last();
    if s.last() > seq_max(p) || p.len() == 0 {
        if p.len() == 0 {
            assert(seq_max(p) == 0);
        }
        assert(s[s.len() - 1] == seq_max(s));
    } else {
        lemma_max_is_sample(p);
        let i = choose|i: int| 0 <= i < p.len() && p[i] == seq_max(p);
        assert(s[i] == seq_max(s));
    }
}

/// A later snapshot never reports less than an earlier one: along any
/// sequence of recordings (without a reset) the processed, byte and dropped
/// counters and the largest latency only grow.
pub proof fn snapshots_monotone(a: CollectorView, b: CollectorView, t1: u64, t2: u64)
    requires
        counters_le(a, b),
    ensures
        snapshot_of(a, t1).packets_processed <= snapshot_of(b, t2).packets_processed,
        snapshot_of(a, t1).bytes_processed <= snapshot_of(b, t2).bytes_processed,
        snapshot_of(a, t1).packets_dropped <= snapshot_of(b, t2).packets_dropped,
        snapshot_of(a, t1).max_latency_ns <= snapshot_of(b, t2).max_latency_ns,
{
    if a.latencies.len() > 0 {
        lemma_max_is_sample(a.latencies);
        let i = choose|i: int| 0 <= i < a.latencies.len() && a.latencies[i] == seq_max(a.latencies);
        assert(a.latencies[i] == b.latencies[i]);
        latency_extremes_bound_samples(b.latencies);
    }
}

} // verus!
