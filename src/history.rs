//! The most recent per-route summary records, kept for the analytics sink.
use vstd::prelude::*;

verus! {

/// How many route records the history keeps.
pub const ROUTE_HISTORY_LEN: usize = 1000;

/// A per-route summary record. Times are milliseconds.
#[derive(Debug)]
pub struct RouteMetrics {
    pub timestamp_ms: u64,
    pub network: String,
    pub prefix_length: u8,
    pub next_hop: String,
    pub metric: u32,
    pub protocol: String,
    pub as_path_length: u32,
    pub communities: String,
    pub is_active: bool,
    pub age_ms: u64,
    pub packet_count: u32,
    pub byte_count: u64,
}

/// The last `n` records of `s` (all of them when there are fewer).
pub open spec fn last_n<T>(s: Seq<T>, n: nat) -> Seq<T> {
    if s.len() > n {
        s.subrange(s.len() - n, s.len() as int)
    } else {
        s
    }
}

/// The most recent route records, oldest first.
pub struct RouteHistory {
    records: Vec<RouteMetrics>,
}

impl RouteHistory {
    /// The records kept, oldest first.
    pub closed spec fn records(&self) -> Seq<RouteMetrics> {
        self.records@
    }

    pub closed spec fn wf(&self) -> bool {
        self.records@.len() <= ROUTE_HISTORY_LEN
    }

    /// An empty history.
    pub fn new() -> (h: RouteHistory)
        ensures
            h.wf(),
            h.records() == Seq::<RouteMetrics>::empty(),
    {
        RouteHistory { records: Vec::new() }
    }

    /// Adds a record; only the last `ROUTE_HISTORY_LEN` records are kept.
    pub fn add_route_metrics(&mut self, metrics: RouteMetrics)
        requires
            old(self).wf(),
        ensures
            final(self).wf(),
            final(self).records() == last_n(
                old(self).records().push(metrics),
                ROUTE_HISTORY_LEN as nat,
            ),
    {
        let ghost s = self.records@.push(metrics);
        self.records.push(metrics);
        if self.records.len() > ROUTE_HISTORY_LEN {
            self.records.remove(0);
            assert(self.records@ =~= s.subrange(s.len() - ROUTE_HISTORY_LEN, s.len() as int));
        }
    }

    /// The records kept, oldest first.
    pub fn get_route_metrics(&self) -> (r: &Vec<RouteMetrics>)
        ensures
            r@ == self.records(),
    {
        &self.records
    }
}

} // verus!
