//! The per-packet pipeline of the router: a captured frame is copied into a
//! pooled buffer, parsed, classified as local or transit, routed, accounted
//! in the flow table and the counters, and turned into a decision.
use vstd::prelude::*;
use crate::frame::{address_text, format_address, frame_spec, parse_frame, DropReason, IpAddress, ParsedFrame};
use crate::memory_pool::{lease_fails, pool_ok, swept, MemoryPool, PoolView};
use crate::clock::wall_clock_ms;
use crate::metrics::{
    average_of, sat, seq_max, seq_min, snapshot_of, CollectorView, Metrics,
    MetricsCollector,
};
use crate::packet_engine::{
    absorbed, interfaces_absorbed, live_flows, EngineView, PacketEngine, PacketView,
};
use crate::routing_table::{
    EntryView,
    count_where, entry_of, has_key, index_of_key, inserted, key_of_text, lpm, route_valid, Route,
    RouteView, RoutingStats, RoutingTable, Selection, TableView,
};

verus! {

/// Standard storage of a pooled packet buffer, in bytes.
pub const STANDARD_BUFFER_SIZE: usize = 2048;

/// Most buffers the router's pool keeps.
pub const MAX_POOLED_BUFFERS: usize = 1024;

/// Seconds after which an idle flow is evicted.
pub const FLOW_IDLE_TIMEOUT_SECS: u64 = 300;

/// What becomes of a packet.
#[derive(Debug)]
pub enum Decision {
    /// Send it to `next_hop` through `interface`.
    Forward { next_hop: String, interface: String },
    /// It is addressed to this router.
    Local,
    /// Drop it.
    Drop(DropReason),
}

/// A packet handed to the router with its header fields already known.
#[derive(Debug)]
pub struct Packet {
    pub id: u64,
    pub size: u32,
    pub priority: u32,
    pub source_ip: String,
    pub dest_ip: String,
    pub source_port: u16,
    pub dest_port: u16,
    pub protocol: u8,
    pub timestamp: u64,
}

impl Packet {
    /// A packet stamped with the current time.
    pub fn new(
        id: u64,
        size: u32,
        priority: u32,
        source_ip: String,
        dest_ip: String,
        source_port: u16,
        dest_port: u16,
        protocol: u8,
    ) -> (p: Packet)
        ensures
            p.id == id && p.size == size && p.priority == priority,
            p.source_ip@ == source_ip@ && p.dest_ip@ == dest_ip@,
            p.source_port == source_port && p.dest_port == dest_port && p.protocol == protocol,
    {
        Packet {
            id,
            size,
            priority,
            source_ip,
            dest_ip,
            source_port,
            dest_port,
            protocol,
            timestamp: wall_clock_ms(),
        }
    }
}

/// Where a destination goes: delivered here, forwarded along a route, or
/// nowhere.
pub enum Outcome {
    Local,
    Forward(RouteView),
    NoRoute,
}

/// The decision for a destination given the routes and the local addresses.
pub open spec fn outcome(routes: Seq<EntryView>, locals: Seq<IpAddress>, dst: IpAddress) -> Outcome {
    if locals.contains(dst) {
        Outcome::Local
    } else {
        match lpm(routes, dst) {
            Some(r) => Outcome::Forward(r),
            None => Outcome::NoRoute,
        }
    }
}

/// The flow-table view of a parsed frame that arrived on `interface` at
/// `now_ms`.
pub open spec fn frame_packet(
    p: ParsedFrame,
    interface: Seq<char>,
    router_id: Seq<char>,
    now_ms: u64,
) -> PacketView {
    PacketView {
        timestamp: now_ms,
        source_ip: address_text(p.src),
        dest_ip: address_text(p.dst),
        source_port: p.src_port,
        dest_port: p.dst_port,
        protocol: p.protocol,
        size: if p.length > u32::MAX { u32::MAX } else { p.length as u32 },
        interface,
        router_id,
        flow_id: Seq::empty(),
        priority: 0,
        dscp: p.dscp,
    }
}

/// The flow-table view of a packet handed to the router.
pub open spec fn packet_view(p: &Packet, router_id: Seq<char>) -> PacketView {
    PacketView {
        timestamp: p.timestamp,
        source_ip: p.source_ip@,
        dest_ip: p.dest_ip@,
        source_port: p.source_port,
        dest_port: p.dest_port,
        protocol: p.protocol,
        size: p.size,
        interface: Seq::empty(),
        router_id,
        flow_id: Seq::empty(),
        priority: if p.priority > 255 { 255 } else { p.priority as u8 },
        dscp: 0,
    }
}

/// What one frame does to the router: `pre` before, `post` after, `d` the
/// decision (see `RouterAnalytics::ingest_at`).
pub open spec fn ingested(
    pre: RouterAnalytics,
    post: RouterAnalytics,
    frame: Seq<u8>,
    interface: Seq<char>,
    now_ms: u64,
    d: Decision,
) -> bool {
    &&& post.table_state().routes == pre.table_state().routes
    &&& post.local_addresses() == pre.local_addresses()
    &&& (lease_fails(pre.pool_state(), frame.len() as usize) ==> {
        &&& d == Decision::Drop(DropReason::RateLimited)
        &&& post.engine_state() == pre.engine_state()
        &&& post.metrics_state() == (CollectorView {
            packets_dropped: sat(pre.metrics_state().packets_dropped + 1),
            errors: sat(pre.metrics_state().errors + 1),
            ..pre.metrics_state()
        })
    })
    &&& (!lease_fails(pre.pool_state(), frame.len() as usize) ==> match frame_spec(frame) {
        Err(reason) => {
            &&& d == Decision::Drop(reason)
            &&& post.engine_state() == pre.engine_state()
            &&& post.metrics_state() == (CollectorView {
                packets_dropped: sat(pre.metrics_state().packets_dropped + 1),
                ..pre.metrics_state()
            })
        },
        Ok(p) => {
            let pv = frame_packet(p, interface, pre.router_id(), now_ms);
            let m0 = pre.metrics_state();
            let m1 = CollectorView {
                packets_processed: sat(m0.packets_processed + 1),
                bytes_processed: sat(m0.bytes_processed + p.length),
                ..m0
            };
            &&& post.engine_state() == (EngineView {
                flows: absorbed(pre.engine_state().flows, pv, now_ms / 1000),
                interfaces: interfaces_absorbed(pre.engine_state().interfaces, pv),
                total_packets: sat(pre.engine_state().total_packets + 1),
                total_bytes: sat(pre.engine_state().total_bytes + pv.size),
                ..pre.engine_state()
            })
            &&& match outcome(pre.table_state().routes, pre.local_addresses(), p.dst) {
                Outcome::Local => d == Decision::Local && post.metrics_state() == m1,
                Outcome::Forward(r) => (d matches Decision::Forward {
                    next_hop,
                    interface: out,
                } && next_hop@ == r.gateway && out@ == r.interface)
                    && post.metrics_state() == (CollectorView {
                    packets_forwarded: sat(m1.packets_forwarded + 1),
                    packets_routed: sat(m1.packets_routed + 1),
                    ..m1
                }),
                Outcome::NoRoute => d == Decision::Drop(DropReason::NoRoute)
                    && post.metrics_state() == (CollectorView {
                    packets_dropped: sat(m1.packets_dropped + 1),
                    ..m1
                }),
            }
        },
    })
}

/// The router: routing table, flow accounting, counters and buffer pool.
pub struct RouterAnalytics {
    router_id: String,
    engine: PacketEngine,
    table: RoutingTable,
    metrics: MetricsCollector,
    pool: MemoryPool,
    local_addresses: Vec<IpAddress>,
}

impl RouterAnalytics {
    pub closed spec fn wf(&self) -> bool {
        &&& self.engine.wf()
        &&& self.table.wf()
        &&& self.metrics.wf()
        &&& pool_ok(self.pool@)
        &&& self.engine@.router_id == self.router_id@
    }

    pub closed spec fn engine_state(&self) -> EngineView {
        self.engine@
    }

    pub closed spec fn table_state(&self) -> TableView {
        self.table@
    }

    pub closed spec fn metrics_state(&self) -> CollectorView {
        self.metrics@
    }

    pub closed spec fn pool_state(&self) -> PoolView {
        self.pool@
    }

    pub closed spec fn local_addresses(&self) -> Seq<IpAddress> {
        self.local_addresses@
    }

    pub closed spec fn router_id(&self) -> Seq<char> {
        self.router_id@
    }

    /// A router named `router_id` with no routes, no flows and no local
    /// address.
    pub fn with_id(router_id: String) -> (r: RouterAnalytics)
        ensures
            r.wf(),
            r.router_id() == router_id@,
            r.table_state().routes.len() == 0,
            r.engine_state().flows.len() == 0,
            r.local_addresses().len() == 0,
            r.metrics_state().packets_processed == 0,
    {
        let engine = PacketEngine::new(router_id.clone(), FLOW_IDLE_TIMEOUT_SECS);
        RouterAnalytics {
            router_id,
            engine,
            table: RoutingTable::new(),
            metrics: MetricsCollector::new(),
            pool: MemoryPool::new(MAX_POOLED_BUFFERS, STANDARD_BUFFER_SIZE),
            local_addresses: Vec::new(),
        }
    }

    /// A router with no routes, no flows and no local address.
    pub fn new() -> (r: RouterAnalytics)
        ensures
            r.wf(),
            r.table_state().routes.len() == 0,
            r.engine_state().flows.len() == 0,
            r.local_addresses().len() == 0,
    {
        RouterAnalytics::with_id("router".to_string())
    }

    /// Makes `addr` one of the router's own addresses.
    pub fn add_local_address(&mut self, addr: IpAddress)
        requires
            old(self).wf(),
        ensures
            final(self).wf(),
            final(self).local_addresses() == old(self).local_addresses().push(addr),
            final(self).table_state() == old(self).table_state(),
            final(self).engine_state() == old(self).engine_state(),
            final(self).metrics_state() == old(self).metrics_state(),
    {
        self.local_addresses.push(addr);
    }

    fn is_local(&self, addr: IpAddress) -> (r: bool)
        ensures
            r == self.local_addresses@.contains(addr),
    {
        let mut i: usize = 0;
        while i < self.local_addresses.len()
            invariant
                i <= self.local_addresses@.len(),
                forall|k: int| 0 <= k < i ==> self.local_addresses@[k] != addr,
            decreases self.local_addresses@.len() - i,
        {
            if self.local_addresses[i] == addr {
                assert(self.local_addresses@[i as int] == addr);
                return true;
            }
            i = i + 1;
        }
        false
    }

    /// Decides what becomes of the frame `frame` captured on `interface` at
    /// `now_ms`. A frame that cannot be parsed, or whose network protocol
    /// is not handled, is dropped and counted as dropped without touching
    /// the flow table. A parsed frame is counted as processed and accounted
    /// in its flow; it is then delivered locally when its destination is one
    /// of the router's addresses, forwarded along the longest matching
    /// route otherwise, and dropped for want of a route when there is none.
    /// When the buffer pool cannot lease a buffer the frame is dropped and
    /// counted as an error.
    pub fn ingest_at(&mut self, frame: &[u8], interface: &str, now_ms: u64) -> (d: Decision)
        requires
            old(self).wf(),
        ensures
            final(self).wf(),
            ingested(*old(self), *final(self), frame@, interface@, now_ms, d),
    {
        let leased = self.pool.get_packet_at(frame.len(), now_ms);
        let mut buffer = match leased {
            Err(_) => {
                self.metrics.record_packet_dropped();
                self.metrics.record_error();
                return Decision::Drop(DropReason::RateLimited);
            },
            Ok(b) => b,
        };
        buffer.copy_from(frame, now_ms);
        let parsed = parse_frame(buffer.data());
        assert(buffer.data@.subrange(0, buffer.size as int) =~= frame@);
        self.pool.return_packet_at(buffer, now_ms);
        let p = match parsed {
            Err(reason) => {
                self.metrics.record_packet_dropped();
                return Decision::Drop(reason);
            },
            Ok(p) => p,
        };
        let size: u32 = if p.length > u32::MAX as usize {
            u32::MAX
        } else {
            p.length as u32
        };
        let packet = crate::packet_engine::Packet {
            timestamp: now_ms,
            source_ip: format_address(p.src),
            dest_ip: format_address(p.dst),
            source_port: p.src_port,
            dest_port: p.dst_port,
            protocol: p.protocol,
            size,
            interface: interface.to_string(),
            router_id: self.router_id.clone(),
            flow_id: String::new(),
            priority: 0,
            dscp: p.dscp,
        };
        self.engine.process_packet_at(&packet, now_ms / 1000);
        self.metrics.record_packet_processed(p.length as u64);
        if self.is_local(p.dst) {
            return Decision::Local;
        }
        match self.table.lookup_address(p.dst) {
            Some(route) => {
                self.metrics.record_packet_forwarded();
                self.metrics.record_packet_routed();
                Decision::Forward { next_hop: route.gateway, interface: route.interface }
            },
            None => {
                self.metrics.record_packet_dropped();
                Decision::Drop(DropReason::NoRoute)
            },
        }
    }

    /// Decides what becomes of a frame captured on `interface` now.
    pub fn ingest(&mut self, frame: &[u8], interface: &str) -> (d: Decision)
        requires
            old(self).wf(),
        ensures
            final(self).wf(),
            exists|now_ms: u64| #[trigger]
                ingested(*old(self), *final(self), frame@, interface@, now_ms, d),
    {
        self.ingest_at(frame, interface, wall_clock_ms())
    }

    /// Accounts a packet whose header fields are already known: its flow
    /// (on no particular interface), the flow table's totals and the
    /// processed counters. Never fails.
    pub fn process_packet(&mut self, packet: &Packet) -> (r: Result<(), String>)
        requires
            old(self).wf(),
        ensures
            final(self).wf(),
            r is Ok,
            final(self).table_state() == old(self).table_state(),
            final(self).local_addresses() == old(self).local_addresses(),
            exists|now: u64|
                final(self).engine_state() == (EngineView {
                    flows: #[trigger] absorbed(
                        old(self).engine_state().flows,
                        packet_view(packet, old(self).router_id()),
                        now,
                    ),
                    interfaces: interfaces_absorbed(
                        old(self).engine_state().interfaces,
                        packet_view(packet, old(self).router_id()),
                    ),
                    total_packets: sat(old(self).engine_state().total_packets + 1),
                    total_bytes: sat(old(self).engine_state().total_bytes + packet.size),
                    ..old(self).engine_state()
                }),
            final(self).metrics_state() == (CollectorView {
                packets_processed: sat(old(self).metrics_state().packets_processed + 1),
                bytes_processed: sat(old(self).metrics_state().bytes_processed + packet.size),
                ..old(self).metrics_state()
            }),
    {
        let p = crate::packet_engine::Packet {
            timestamp: packet.timestamp,
            source_ip: packet.source_ip.clone(),
            dest_ip: packet.dest_ip.clone(),
            source_port: packet.source_port,
            dest_port: packet.dest_port,
            protocol: packet.protocol,
            size: packet.size,
            interface: String::new(),
            router_id: self.router_id.clone(),
            flow_id: String::new(),
            priority: if packet.priority > 255 {
                255
            } else {
                packet.priority as u8
            },
            dscp: 0,
        };
        let now = wall_clock_ms() / 1000;
        assert(p@ == packet_view(packet, self.router_id@));
        self.engine.process_packet_at(&p, now);
        self.metrics.record_packet_processed(packet.size as u64);
        assert(self.engine_state() == (EngineView {
            flows: absorbed(
                old(self).engine_state().flows,
                packet_view(packet, old(self).router_id()),
                now,
            ),
            interfaces: interfaces_absorbed(
                old(self).engine_state().interfaces,
                packet_view(packet, old(self).router_id()),
            ),
            total_packets: sat(old(self).engine_state().total_packets + 1),
            total_bytes: sat(old(self).engine_state().total_bytes + packet.size),
            ..old(self).engine_state()
        }));
        Ok(())
    }

    /// Adds a route to the table (see `RoutingTable::add_route`).
    pub fn add_route(&mut self, route: &Route) -> (r: Result<(), String>)
        requires
            old(self).wf(),
        ensures
            final(self).wf(),
            r is Ok <==> route_valid(route@),
            r is Ok ==> final(self).table_state().routes == inserted(
                old(self).table_state().routes,
                entry_of(route@),
            ),
            r is Err ==> final(self).table_state() == old(self).table_state(),
            final(self).engine_state() == old(self).engine_state(),
            final(self).local_addresses() == old(self).local_addresses(),
    {
        self.table.add_route(route)
    }

    /// Removes the route for a CIDR prefix (see `RoutingTable::remove_route`).
    pub fn remove_route(&mut self, destination: &str) -> (r: Result<(), String>)
        requires
            old(self).wf(),
        ensures
            final(self).wf(),
            r is Ok <==> (key_of_text(destination@) matches Some(k) && has_key(
                old(self).table_state().routes,
                k,
            )),
            r is Ok ==> final(self).table_state().routes == old(self).table_state().routes.remove(
                index_of_key(old(self).table_state().routes, key_of_text(destination@)->Some_0),
            ),
            r is Err ==> final(self).table_state() == old(self).table_state(),
            final(self).engine_state() == old(self).engine_state(),
            final(self).local_addresses() == old(self).local_addresses(),
    {
        self.table.remove_route(destination)
    }

    /// Route counts of the table.
    pub fn get_routing_stats(&self) -> (r: Result<RoutingStats, String>)
        requires
            self.wf(),
        ensures
            r matches Ok(s) && s.total_routes == self.table_state().routes.len()
                && s.active_routes == count_where(self.table_state().routes, Selection::Active)
                && s.last_update == self.table_state().last_update,
    {
        Ok(self.table.get_stats())
    }

    /// A snapshot of the data-plane counters.
    pub fn metrics_snapshot(&self) -> (m: Metrics)
        requires
            self.wf(),
        ensures
            m.packets_processed == self.metrics_state().packets_processed,
            m.bytes_processed == self.metrics_state().bytes_processed,
            m.packets_dropped == self.metrics_state().packets_dropped,
            m.packets_forwarded == self.metrics_state().packets_forwarded,
            m.packets_routed == self.metrics_state().packets_routed,
            m.errors == self.metrics_state().errors,
            m.average_latency_ns == average_of(self.metrics_state().latencies),
            m.max_latency_ns == seq_max(self.metrics_state().latencies),
            m.min_latency_ns == seq_min(self.metrics_state().latencies),
            exists|now_ms: u64| m == #[trigger] snapshot_of(self.metrics_state(), now_ms),
    {
        self.metrics.get_metrics()
    }

    /// A snapshot of the data-plane counters, taken at `now_ms`.
    pub fn metrics_snapshot_at(&self, now_ms: u64) -> (m: Metrics)
        requires
            self.wf(),
        ensures
            m == snapshot_of(self.metrics_state(), now_ms),
    {
        self.metrics.get_metrics_at(now_ms)
    }

    /// Sweeps the buffer pool at `now_ms` (see `MemoryPool::cleanup_at`).
    pub fn cleanup_pool_at(&mut self, now_ms: u64)
        requires
            old(self).wf(),
        ensures
            final(self).wf(),
            final(self).pool_state() == (PoolView {
                buffers: swept(old(self).pool_state().buffers, now_ms),
                ..old(self).pool_state()
            }),
            final(self).table_state() == old(self).table_state(),
            final(self).engine_state() == old(self).engine_state(),
            final(self).metrics_state() == old(self).metrics_state(),
    {
        self.pool.cleanup_at(now_ms);
    }

    /// Records how long the processing of one packet took.
    pub fn record_latency(&mut self, latency_ns: u64)
        requires
            old(self).wf(),
        ensures
            final(self).wf(),
            final(self).metrics_state() == (CollectorView {
                latencies: old(self).metrics_state().latencies.push(latency_ns),
                ..old(self).metrics_state()
            }),
            final(self).table_state() == old(self).table_state(),
            final(self).engine_state() == old(self).engine_state(),
    {
        self.metrics.record_latency(latency_ns);
    }

    /// Copies of every flow, in table order.
    pub fn get_flows(&self) -> (r: Vec<crate::packet_engine::FlowStats>)
        requires
            self.wf(),
        ensures
            r@.map_values(|f: crate::packet_engine::FlowStats| f@) == self.engine_state().flows,
    {
        let r = self.engine.get_all_flows();
        proof {
            crate::packet_engine::lemma_flows_where_all(self.engine@.flows);
        }
        r
    }

    /// Evicts the flows idle for the flow timeout at `now_ms`.
    pub fn cleanup_flows_at(&mut self, now_ms: u64)
        requires
            old(self).wf(),
        ensures
            final(self).wf(),
            final(self).table_state() == old(self).table_state(),
            final(self).engine_state() == (EngineView {
                flows: live_flows(
                    old(self).engine_state().flows,
                    now_ms / 1000,
                    old(self).engine_state().flow_timeout,
                ),
                ..old(self).engine_state()
            }),
    {
        self.engine.cleanup_expired_flows(now_ms / 1000);
    }

    /// Forgets every flow, zeroes the counters and the table's update
    /// counters; the routes stay.
    pub fn reset(&mut self) -> (r: Result<(), String>)
        requires
            old(self).wf(),
        ensures
            final(self).wf(),
            r is Ok,
            final(self).table_state() == (TableView {
                last_update: 0,
                total_updates: 0,
                ..old(self).table_state()
            }),
            final(self).engine_state() == (EngineView {
                flows: Seq::empty(),
                interfaces: Seq::empty(),
                total_packets: 0,
                total_bytes: 0,
                total_drops: 0,
                total_errors: 0,
                ..old(self).engine_state()
            }),
            final(self).metrics_state() == (CollectorView {
                packets_processed: 0,
                bytes_processed: 0,
                packets_dropped: 0,
                packets_forwarded: 0,
                packets_routed: 0,
                errors: 0,
                start_time_ms: old(self).metrics_state().start_time_ms,
                latencies: Seq::empty(),
            }),
            final(self).local_addresses() == old(self).local_addresses(),
    {
        self.engine.reset_stats();
        self.table.reset();
        self.metrics.reset();
        Ok(())
    }
}

} // verus!
