//! Per-flow and per-interface accounting of the packets that the data plane
//! sees. A flow is keyed by its 5-tuple (source and destination address,
//! source and destination port, protocol); every packet of a known 5-tuple
//! updates that flow, the first packet of a new one creates it.
use vstd::prelude::*;
use crate::classify::{
    classify_traffic, conversation_label, detect_application, service_port, traffic_class_label,
};
use crate::frame::{decimal_text, push_decimal};
use crate::memory_pool::elapsed;
use crate::clock::wall_clock_ms;
use crate::metrics::sat;
use crate::select::{
    is_top_selection, keys_unique, tally_byte, tally_text, text_pairs, top_bytes, top_indices, top_of,
    top_text, totals,
};
use crate::text::{has_prefix, starts_with, text_eq};

verus! {

/// A packet as the accounting sees it.
#[derive(Debug)]
pub struct Packet {
    pub timestamp: u64,
    pub source_ip: String,
    pub dest_ip: String,
    pub source_port: u16,
    pub dest_port: u16,
    pub protocol: u8,
    pub size: u32,
    pub interface: String,
    pub router_id: String,
    pub flow_id: String,
    pub priority: u8,
    pub dscp: u8,
}

/// Abstract value of a packet.
pub struct PacketView {
    pub timestamp: u64,
    pub source_ip: Seq<char>,
    pub dest_ip: Seq<char>,
    pub source_port: u16,
    pub dest_port: u16,
    pub protocol: u8,
    pub size: u32,
    pub interface: Seq<char>,
    pub router_id: Seq<char>,
    pub flow_id: Seq<char>,
    pub priority: u8,
    pub dscp: u8,
}

impl View for Packet {
    type V = PacketView;

    open spec fn view(&self) -> PacketView {
        PacketView {
            timestamp: self.timestamp,
            source_ip: self.source_ip@,
            dest_ip: self.dest_ip@,
            source_port: self.source_port,
            dest_port: self.dest_port,
            protocol: self.protocol,
            size: self.size,
            interface: self.interface@,
            router_id: self.router_id@,
            flow_id: self.flow_id@,
            priority: self.priority,
            dscp: self.dscp,
        }
    }
}

/// The 5-tuple of a flow.
pub type FlowKey = (Seq<char>, Seq<char>, u16, u16, u8);

pub open spec fn packet_key(p: PacketView) -> FlowKey {
    (p.source_ip, p.dest_ip, p.source_port, p.dest_port, p.protocol)
}

/// Abstract state of a flow.
pub struct FlowView {
    pub key: FlowKey,
    pub flow_id: Seq<char>,
    pub packets: u64,
    pub bytes: u64,
    pub start_time: u64,
    pub last_seen: u64,
    pub interface: Seq<char>,
    pub application: Seq<char>,
    pub traffic_class: Seq<char>,
}

/// Counters of one flow.
#[derive(Debug)]
pub struct FlowStats {
    pub flow_id: String,
    pub packets: u64,
    pub bytes: u64,
    pub start_time: u64,
    pub last_seen: u64,
    pub source_ip: String,
    pub dest_ip: String,
    pub source_port: u16,
    pub dest_port: u16,
    pub protocol: u8,
    pub interface: String,
    pub application: String,
    pub traffic_class: String,
}

impl View for FlowStats {
    type V = FlowView;

    open spec fn view(&self) -> FlowView {
        FlowView {
            key: (self.source_ip@, self.dest_ip@, self.source_port, self.dest_port, self.protocol),
            flow_id: self.flow_id@,
            packets: self.packets,
            bytes: self.bytes,
            start_time: self.start_time,
            last_seen: self.last_seen,
            interface: self.interface@,
            application: self.application@,
            traffic_class: self.traffic_class@,
        }
    }
}

impl FlowStats {
    /// A copy of the counters.
    pub fn copy(&self) -> (r: FlowStats)
        ensures
            r@ == self@,
    {
        FlowStats {
            flow_id: self.flow_id.clone(),
            packets: self.packets,
            bytes: self.bytes,
            start_time: self.start_time,
            last_seen: self.last_seen,
            source_ip: self.source_ip.clone(),
            dest_ip: self.dest_ip.clone(),
            source_port: self.source_port,
            dest_port: self.dest_port,
            protocol: self.protocol,
            interface: self.interface.clone(),
            application: self.application.clone(),
            traffic_class: self.traffic_class.clone(),
        }
    }
}

/// Abstract state of an interface's counters.
pub struct InterfaceView {
    pub interface: Seq<char>,
    pub packets_in: u64,
    pub packets_out: u64,
    pub bytes_in: u64,
    pub bytes_out: u64,
    pub drops: u64,
    pub errors: u64,
}

/// Counters of one interface.
#[derive(Debug)]
pub struct InterfaceStats {
    pub interface: String,
    pub packets_in: u64,
    pub packets_out: u64,
    pub bytes_in: u64,
    pub bytes_out: u64,
    pub drops: u64,
    pub errors: u64,
}

impl View for InterfaceStats {
    type V = InterfaceView;

    open spec fn view(&self) -> InterfaceView {
        InterfaceView {
            interface: self.interface@,
            packets_in: self.packets_in,
            packets_out: self.packets_out,
            bytes_in: self.bytes_in,
            bytes_out: self.bytes_out,
            drops: self.drops,
            errors: self.errors,
        }
    }
}

impl InterfaceStats {
    /// A copy of the counters.
    pub fn copy(&self) -> (r: InterfaceStats)
        ensures
            r@ == self@,
    {
        InterfaceStats {
            interface: self.interface.clone(),
            packets_in: self.packets_in,
            packets_out: self.packets_out,
            bytes_in: self.bytes_in,
            bytes_out: self.bytes_out,
            drops: self.drops,
            errors: self.errors,
        }
    }
}

/// Totals of the router.
#[derive(Debug)]
pub struct RouterStats {
    pub router_id: String,
    pub total_packets: u64,
    pub total_bytes: u64,
    pub total_drops: u64,
    pub total_errors: u64,
    pub active_flows: u32,
    pub interfaces: Vec<InterfaceStats>,
}

/// The flow that the first packet of a 5-tuple creates at `now`.
pub open spec fn new_flow(p: PacketView, now: u64) -> FlowView {
    FlowView {
        key: packet_key(p),
        flow_id: p.flow_id,
        packets: 1,
        bytes: p.size as u64,
        start_time: now,
        last_seen: now,
        interface: p.interface,
        application: conversation_label(p.protocol, p.source_port, p.dest_port),
        traffic_class: traffic_class_label(p.dscp),
    }
}

pub open spec fn has_flow(flows: Seq<FlowView>, k: FlowKey) -> bool {
    exists|i: int| 0 <= i < flows.len() && (#[trigger] flows[i]).key == k
}

pub open spec fn flow_index(flows: Seq<FlowView>, k: FlowKey) -> int {
    choose|i: int| 0 <= i < flows.len() && (#[trigger] flows[i]).key == k
}

/// The flow table after accounting packet `p` at `now`: the flow of its
/// 5-tuple counts one more packet and `p.size` more bytes and was last seen
/// at `now`; a new 5-tuple appends a new flow.
pub open spec fn absorbed(flows: Seq<FlowView>, p: PacketView, now: u64) -> Seq<FlowView> {
    if has_flow(flows, packet_key(p)) {
        let i = flow_index(flows, packet_key(p));
        flows.update(
            i,
            FlowView {
                packets: sat(flows[i].packets + 1),
                bytes: sat(flows[i].bytes + p.size),
                last_seen: now,
                ..flows[i]
            },
        )
    } else {
        flows.push(new_flow(p, now))
    }
}

/// At most one flow per 5-tuple.
pub open spec fn flows_ok(flows: Seq<FlowView>) -> bool {
    forall|i: int, j: int|
        0 <= i < flows.len() && 0 <= j < flows.len() && i != j ==> (#[trigger] flows[i]).key
            != (#[trigger] flows[j]).key
}

/// A packet from a private source network counts as received on its
/// interface; any other as sent.
pub open spec fn inbound(source: Seq<char>) -> bool {
    has_prefix(source, "192.168."@) || has_prefix(source, "10."@)
}

pub open spec fn has_interface(ifs: Seq<InterfaceView>, name: Seq<char>) -> bool {
    exists|i: int| 0 <= i < ifs.len() && (#[trigger] ifs[i]).interface == name
}

pub open spec fn interface_index(ifs: Seq<InterfaceView>, name: Seq<char>) -> int {
    choose|i: int| 0 <= i < ifs.len() && (#[trigger] ifs[i]).interface == name
}

/// Counters of an interface after one more packet of `size` bytes.
pub open spec fn bumped(s: InterfaceView, size: u32, is_in: bool) -> InterfaceView {
    if is_in {
        InterfaceView {
            packets_in: sat(s.packets_in + 1),
            bytes_in: sat(s.bytes_in + size),
            ..s
        }
    } else {
        InterfaceView {
            packets_out: sat(s.packets_out + 1),
            bytes_out: sat(s.bytes_out + size),
            ..s
        }
    }
}

pub open spec fn zero_interface(name: Seq<char>) -> InterfaceView {
    InterfaceView {
        interface: name,
        packets_in: 0,
        packets_out: 0,
        bytes_in: 0,
        bytes_out: 0,
        drops: 0,
        errors: 0,
    }
}

/// The interface table after accounting packet `p`.
pub open spec fn interfaces_absorbed(ifs: Seq<InterfaceView>, p: PacketView) -> Seq<InterfaceView> {
    if has_interface(ifs, p.interface) {
        let i = interface_index(ifs, p.interface);
        ifs.update(i, bumped(ifs[i], p.size, inbound(p.source_ip)))
    } else {
        ifs.push(bumped(zero_interface(p.interface), p.size, inbound(p.source_ip)))
    }
}

/// At most one entry per interface name.
pub open spec fn interfaces_ok(ifs: Seq<InterfaceView>) -> bool {
    forall|i: int, j: int|
        0 <= i < ifs.len() && 0 <= j < ifs.len() && i != j ==> (#[trigger] ifs[i]).interface
            != (#[trigger] ifs[j]).interface
}

/// A flow is still live at `now`: it was seen less than `timeout` ago.
pub open spec fn live(f: FlowView, now: u64, timeout: u64) -> bool {
    elapsed(f.last_seen, now) < timeout
}

/// The flows that survive an eviction pass at `now`, in their order.
pub open spec fn live_flows(flows: Seq<FlowView>, now: u64, timeout: u64) -> Seq<FlowView>
    decreases flows.len(),
{
    if flows.len() == 0 {
        flows
    } else if live(flows.last(), now, timeout) {
        live_flows(flows.drop_last(), now, timeout).push(flows.last())
    } else {
        live_flows(flows.drop_last(), now, timeout)
    }
}

/// Abstract state of the engine.
pub struct EngineView {
    pub router_id: Seq<char>,
    pub flows: Seq<FlowView>,
    pub interfaces: Seq<InterfaceView>,
    pub total_packets: u64,
    pub total_bytes: u64,
    pub total_drops: u64,
    pub total_errors: u64,
    pub flow_timeout: u64,
}

/// Flow and interface accounting.
pub struct PacketEngine {
    router_id: String,
    flows: Vec<FlowStats>,
    interfaces: Vec<InterfaceStats>,
    total_packets: u64,
    total_bytes: u64,
    total_drops: u64,
    total_errors: u64,
    flow_timeout: u64,
}

impl View for PacketEngine {
    type V = EngineView;

    closed spec fn view(&self) -> EngineView {
        EngineView {
            router_id: self.router_id@,
            flows: self.flows@.map_values(|f: FlowStats| f@),
            interfaces: self.interfaces@.map_values(|s: InterfaceStats| s@),
            total_packets: self.total_packets,
            total_bytes: self.total_bytes,
            total_drops: self.total_drops,
            total_errors: self.total_errors,
            flow_timeout: self.flow_timeout,
        }
    }
}

fn sat_add(a: u64, b: u64) -> (r: u64)
    ensures
        r == sat(a + b),
{
    a.saturating_add(b)
}

impl PacketEngine {
    /// Flows and interfaces are each unique by key.
    pub open spec fn wf(&self) -> bool {
        flows_ok(self@.flows) && interfaces_ok(self@.interfaces)
    }

    /// An engine with no flows, evicting flows idle for `flow_timeout` or
    /// longer.
    pub fn new(router_id: String, flow_timeout: u64) -> (e: PacketEngine)
        ensures
            e.wf(),
            e@ == (EngineView {
                router_id: router_id@,
                flows: Seq::empty(),
                interfaces: Seq::empty(),
                total_packets: 0,
                total_bytes: 0,
                total_drops: 0,
                total_errors: 0,
                flow_timeout,
            }),
    {
        let e = PacketEngine {
            router_id,
            flows: Vec::new(),
            interfaces: Vec::new(),
            total_packets: 0,
            total_bytes: 0,
            total_drops: 0,
            total_errors: 0,
            flow_timeout,
        };
        assert(e@.flows =~= Seq::<FlowView>::empty());
        assert(e@.interfaces =~= Seq::<InterfaceView>::empty());
        e
    }

    fn find_flow(&self, p: &Packet) -> (r: Option<usize>)
        ensures
            r is None <==> !has_flow(self@.flows, packet_key(p@)),
            r matches Some(i) ==> i < self@.flows.len() && self@.flows[i as int].key == packet_key(
                p@,
            ),
    {
        let mut i: usize = 0;
        while i < self.flows.len()
            invariant
                i <= self.flows@.len(),
                self@.flows.len() == self.flows@.len(),
                forall|k: int| 0 <= k < i ==> (#[trigger] self@.flows[k]).key != packet_key(p@),
            decreases self.flows@.len() - i,
        {
            let f = &self.flows[i];
            assert(self@.flows[i as int] == f@);
            if f.source_port == p.source_port && f.dest_port == p.dest_port && f.protocol
                == p.protocol && text_eq(f.source_ip.as_str(), p.source_ip.as_str()) && text_eq(
                f.dest_ip.as_str(),
                p.dest_ip.as_str(),
            ) {
                return Some(i);
            }
            i = i + 1;
        }
        None
    }

    fn find_interface(&self, name: &str) -> (r: Option<usize>)
        ensures
            r is None <==> !has_interface(self@.interfaces, name@),
            r matches Some(i) ==> i < self@.interfaces.len() && self@.interfaces[i as int].interface
                == name@,
    {
        let mut i: usize = 0;
        while i < self.interfaces.len()
            invariant
                i <= self.interfaces@.len(),
                self@.interfaces.len() == self.interfaces@.len(),
                forall|k: int|
                    0 <= k < i ==> (#[trigger] self@.interfaces[k]).interface != name@,
            decreases self.interfaces@.len() - i,
        {
            assert(self@.interfaces[i as int] == self.interfaces@[i as int]@);
            if text_eq(self.interfaces[i].interface.as_str(), name) {
                return Some(i);
            }
            i = i + 1;
        }
        None
    }

    fn update_flow_stats(&mut self, p: &Packet, now: u64)
        requires
            flows_ok(old(self)@.flows),
        ensures
            flows_ok(final(self)@.flows),
            final(self)@ == (EngineView { flows: absorbed(old(self)@.flows, p@, now), ..old(self)@ }),
    {
        let ghost t = self@.flows;
        match self.find_flow(p) {
            Some(i) => {
                let ghost c = flow_index(t, packet_key(p@));
                assert(t[c].key == t[i as int].key);
                assert(c == i as int);
                let old_flow = &self.flows[i];
                assert(t[i as int] == old_flow@);
                let updated = FlowStats {
                    flow_id: old_flow.flow_id.clone(),
                    packets: sat_add(old_flow.packets, 1),
                    bytes: sat_add(old_flow.bytes, p.size as u64),
                    start_time: old_flow.start_time,
                    last_seen: now,
                    source_ip: old_flow.source_ip.clone(),
                    dest_ip: old_flow.dest_ip.clone(),
                    source_port: old_flow.source_port,
                    dest_port: old_flow.dest_port,
                    protocol: old_flow.protocol,
                    interface: old_flow.interface.clone(),
                    application: old_flow.application.clone(),
                    traffic_class: old_flow.traffic_class.clone(),
                };
                self.flows.set(i, updated);
                assert(self@.flows =~= absorbed(t, p@, now));
                assert forall|a: int, b: int|
                    0 <= a < self@.flows.len() && 0 <= b < self@.flows.len() && a != b implies (
                    #[trigger] self@.flows[a]).key != (#[trigger] self@.flows[b]).key by {
                    assert(self@.flows[a].key == t[a].key);
                    assert(self@.flows[b].key == t[b].key);
                }
            },
            None => {
                let flow = FlowStats {
                    flow_id: p.flow_id.clone(),
                    packets: 1,
                    bytes: p.size as u64,
                    start_time: now,
                    last_seen: now,
                    source_ip: p.source_ip.clone(),
                    dest_ip: p.dest_ip.clone(),
                    source_port: p.source_port,
                    dest_port: p.dest_port,
                    protocol: p.protocol,
                    interface: p.interface.clone(),
                    application: detect_application(
                        p.protocol,
                        service_port(p.protocol, p.source_port, p.dest_port),
                    ),
                    traffic_class: classify_traffic(p.dscp, p.protocol),
                };
                self.flows.push(flow);
                assert(self@.flows =~= t.push(new_flow(p@, now)));
                assert forall|a: int, b: int|
                    0 <= a < self@.flows.len() && 0 <= b < self@.flows.len() && a != b implies (
                    #[trigger] self@.flows[a]).key != (#[trigger] self@.flows[b]).key by {
                    if a < t.len() && b < t.len() {
                        assert(self@.flows[a] == t[a]);
                        assert(self@.flows[b] == t[b]);
                    } else if a < t.len() {
                        assert(self@.flows[a] == t[a]);
                    } else {
                        assert(self@.flows[b] == t[b]);
                    }
                }
            },
        }
    }

    fn update_interface_stats(&mut self, p: &Packet)
        requires
            interfaces_ok(old(self)@.interfaces),
        ensures
            interfaces_ok(final(self)@.interfaces),
            final(self)@ == (EngineView {
                interfaces: interfaces_absorbed(old(self)@.interfaces, p@),
                ..old(self)@
            }),
    {
        let ghost t = self@.interfaces;
        let is_in = starts_with(p.source_ip.as_str(), "192.168.") || starts_with(
            p.source_ip.as_str(),
            "10.",
        );
        let (mut s, idx) = match self.find_interface(p.interface.as_str()) {
            Some(i) => {
                let ghost c = interface_index(t, p.interface@);
                assert(t[c].interface == t[i as int].interface);
                assert(c == i as int);
                assert(t[i as int] == self.interfaces@[i as int]@);
                (self.interfaces[i].copy(), Some(i))
            },
            None => (
                InterfaceStats {
                    interface: p.interface.clone(),
                    packets_in: 0,
                    packets_out: 0,
                    bytes_in: 0,
                    bytes_out: 0,
                    drops: 0,
                    errors: 0,
                },
                None,
            ),
        };
        let ghost s0 = s@;
        if is_in {
            s.packets_in = sat_add(s.packets_in, 1);
            s.bytes_in = sat_add(s.bytes_in, p.size as u64);
        } else {
            s.packets_out = sat_add(s.packets_out, 1);
            s.bytes_out = sat_add(s.bytes_out, p.size as u64);
        }
        assert(s@ == bumped(s0, p.size, inbound(p.source_ip@)));
        match idx {
            Some(i) => {
                self.interfaces.set(i, s);
                assert(self@.interfaces =~= interfaces_absorbed(t, p@));
                assert forall|a: int, b: int|
                    0 <= a < self@.interfaces.len() && 0 <= b < self@.interfaces.len() && a != b
                        implies (#[trigger] self@.interfaces[a]).interface != (
                    #[trigger] self@.interfaces[b]).interface by {
                    assert(self@.interfaces[a].interface == t[a].interface);
                    assert(self@.interfaces[b].interface == t[b].interface);
                }
            },
            None => {
                self.interfaces.push(s);
                assert(self@.interfaces =~= interfaces_absorbed(t, p@));
                assert forall|a: int, b: int|
                    0 <= a < self@.interfaces.len() && 0 <= b < self@.interfaces.len() && a != b
                        implies (#[trigger] self@.interfaces[a]).interface != (
                    #[trigger] self@.interfaces[b]).interface by {
                    if a < t.len() {
                        assert(self@.interfaces[a] == t[a]);
                    }
                    if b < t.len() {
                        assert(self@.interfaces[b] == t[b]);
                    }
                }
            },
        }
    }

    /// Accounts one packet at `now`: its flow, its interface, and the
    /// router's totals. Flows are not evicted here.
    pub fn process_packet_at(&mut self, packet: &Packet, now: u64)
        requires
            old(self).wf(),
        ensures
            final(self).wf(),
            final(self)@ == (EngineView {
                flows: absorbed(old(self)@.flows, packet@, now),
                interfaces: interfaces_absorbed(old(self)@.interfaces, packet@),
                total_packets: sat(old(self)@.total_packets + 1),
                total_bytes: sat(old(self)@.total_bytes + packet.size),
                ..old(self)@
            }),
    {
        self.update_flow_stats(packet, now);
        self.update_interface_stats(packet);
        self.total_packets = sat_add(self.total_packets, 1);
        self.total_bytes = sat_add(self.total_bytes, packet.size as u64);
    }

    /// Accounts one packet now. Never fails.
    pub fn process_packet(&mut self, packet: Packet) -> (r: Result<(), String>)
        requires
            old(self).wf(),
        ensures
            final(self).wf(),
            r is Ok,
            exists|now: u64|
                final(self)@ == (EngineView {
                    flows: #[trigger] absorbed(old(self)@.flows, packet@, now),
                    interfaces: interfaces_absorbed(old(self)@.interfaces, packet@),
                    total_packets: sat(old(self)@.total_packets + 1),
                    total_bytes: sat(old(self)@.total_bytes + packet.size),
                    ..old(self)@
                }),
    {
        let now = wall_clock_ms() / 1000;
        self.process_packet_at(&packet, now);
        Ok(())
    }

    /// Evicts, at `current_time`, every flow seen `flow_timeout` or more
    /// ago; the others keep their order.
    pub fn cleanup_expired_flows(&mut self, current_time: u64)
        requires
            old(self).wf(),
        ensures
            final(self).wf(),
            final(self)@ == (EngineView {
                flows: live_flows(old(self)@.flows, current_time, old(self)@.flow_timeout),
                ..old(self)@
            }),
            forall|i: int|
                0 <= i < final(self)@.flows.len() ==> live(
                    #[trigger] final(self)@.flows[i],
                    current_time,
                    old(self)@.flow_timeout,
                ),
    {
        let ghost t = self@.flows;
        let timeout = self.flow_timeout;
        let mut old_vec: Vec<FlowStats> = Vec::new();
        std::mem::swap(&mut old_vec, &mut self.flows);
        assert(old_vec@.map_values(|f: FlowStats| f@) == t);
        assert(self@.flows =~= Seq::<FlowView>::empty());
        assert(t.take(0) =~= Seq::<FlowView>::empty());
        let mut i: usize = 0;
        while i < old_vec.len()
            invariant
                i <= old_vec@.len(),
                old_vec@.map_values(|f: FlowStats| f@) == t,
                timeout == old(self)@.flow_timeout,
                self@ == (EngineView { flows: live_flows(t.take(i as int), current_time, timeout), ..old(self)@ }),
            decreases old_vec@.len() - i,
        {
            let ghost before = self@.flows;
            assert(t.take(i + 1).drop_last() =~= t.take(i as int));
            assert(t.take(i + 1).last() == t[i as int]);
            assert(t[i as int] == old_vec@[i as int]@);
            let f = &old_vec[i];
            let age: u64 = if current_time >= f.last_seen {
                current_time - f.last_seen
            } else {
                0
            };
            if age < timeout {
                self.flows.push(f.copy());
                assert(self@.flows =~= before.push(t[i as int]));
            }
            i = i + 1;
        }
        assert(t.take(i as int) =~= t);
        proof {
            lemma_live_flows_sub(t, current_time, timeout);
        }
    }

    /// Evicts the expired flows now.
    pub fn cleanup_now(&mut self)
        requires
            old(self).wf(),
        ensures
            final(self).wf(),
            final(self)@.flows.len() <= old(self)@.flows.len(),
            exists|now: u64|
                final(self)@ == (EngineView {
                    flows: #[trigger] live_flows(old(self)@.flows, now, old(self)@.flow_timeout),
                    ..old(self)@
                }),
    {
        let now = wall_clock_ms() / 1000;
        self.cleanup_expired_flows(now);
        proof {
            lemma_live_flows_sub(old(self)@.flows, now, old(self)@.flow_timeout);
        }
    }
}

/// What survives an eviction pass is live, and comes from the table in
/// order (each survivor is an earlier flow, so keys stay unique).
proof fn lemma_live_flows_sub(flows: Seq<FlowView>, now: u64, timeout: u64)
    ensures
        live_flows(flows, now, timeout).len() <= flows.len(),
        forall|i: int|
            0 <= i < live_flows(flows, now, timeout).len() ==> live(
                #[trigger] live_flows(flows, now, timeout)[i],
                now,
                timeout,
            ),
        flows_ok(flows) ==> flows_ok(live_flows(flows, now, timeout)),
        forall|i: int|
            0 <= i < live_flows(flows, now, timeout).len() ==> exists|j: int|
                0 <= j < flows.len() && flows[j] == #[trigger] live_flows(flows, now, timeout)[i],
    decreases flows.len(),
{
    if flows.len() > 0 {
        let p = flows.drop_last();
        lemma_live_flows_sub(p, now, timeout);
        let lp = live_flows(p, now, timeout);
        let l = live_flows(flows, now, timeout);
        assert forall|i: int| 0 <= i < l.len() implies exists|j: int|
            0 <= j < flows.len() && flows[j] == #[trigger] l[i] by {
            if i < lp.len() {
                let j = choose|j: int| 0 <= j < p.len() && p[j] == lp[i];
                assert(flows[j] == l[i]);
            } else {
                assert(flows[flows.len() - 1] == l[i]);
            }
        }
        if flows_ok(flows) {
            assert(flows_ok(p)) by {
                assert forall|a: int, b: int|
                    0 <= a < p.len() && 0 <= b < p.len() && a != b implies (#[trigger] p[a]).key
                        != (#[trigger] p[b]).key by {
                    assert(p[a] == flows[a]);
                    assert(p[b] == flows[b]);
                }
            }
            if live(flows.last(), now, timeout) {
                assert forall|a: int, b: int|
                    0 <= a < l.len() && 0 <= b < l.len() && a != b implies (#[trigger] l[a]).key
                        != (#[trigger] l[b]).key by {
                    if a < lp.len() && b < lp.len() {
                    } else if a < lp.len() {
                        let j = choose|j: int| 0 <= j < p.len() && p[j] == lp[a];
                        assert(flows[j] == p[j]);
                        assert(l[b] == flows[flows.len() - 1]);
                    } else {
                        let j = choose|j: int| 0 <= j < p.len() && p[j] == lp[b];
                        assert(flows[j] == p[j]);
                        assert(l[a] == flows[flows.len() - 1]);
                    }
                }
            }
        }
    }
}


/// The flow table after accounting the packets `ps` in order at `now`.
pub open spec fn absorbed_all(flows: Seq<FlowView>, ps: Seq<PacketView>, now: u64) -> Seq<FlowView>
    decreases ps.len(),
{
    if ps.len() == 0 {
        flows
    } else {
        absorbed(absorbed_all(flows, ps.drop_last(), now), ps.last(), now)
    }
}

/// Total size of the packets `ps`.
pub open spec fn size_sum(ps: Seq<PacketView>) -> nat
    decreases ps.len(),
{
    if ps.len() == 0 {
        0
    } else {
        size_sum(ps.drop_last()) + ps.last().size as nat
    }
}

/// N packets sharing one 5-tuple that no flow has yet make exactly one new
/// flow, counting N packets and the sum of their sizes; the other flows stay
/// as they were.
pub proof fn packets_of_one_tuple_make_one_flow(
    flows: Seq<FlowView>,
    ps: Seq<PacketView>,
    now: u64,
)
    requires
        flows_ok(flows),
        ps.len() > 0,
        forall|i: int| 0 <= i < ps.len() ==> packet_key(#[trigger] ps[i]) == packet_key(ps[0]),
        !has_flow(flows, packet_key(ps[0])),
        size_sum(ps) <= u64::MAX,
        ps.len() < u64::MAX,
    ensures
        ({
            let r = absorbed_all(flows, ps, now);
            &&& r.len() == flows.len() + 1
            &&& flows_ok(r)
            &&& r[flows.len() as int].key == packet_key(ps[0])
            &&& r[flows.len() as int].packets == ps.len()
            &&& r[flows.len() as int].bytes == size_sum(ps)
            &&& forall|i: int| 0 <= i < flows.len() ==> r[i] == flows[i]
        }),
    decreases ps.len(),
{
    let k = packet_key(ps[0]);
    let q = ps.drop_last();
    let last = ps.last();
    assert(packet_key(last) == k);
    if ps.len() == 1 {
        assert(q.len() == 0);
        assert(absorbed_all(flows, q, now) == flows);
        let r = flows.push(new_flow(last, now));
        assert(size_sum(q) == 0);
        assert forall|a: int, b: int|
            0 <= a < r.len() && 0 <= b < r.len() && a != b implies (#[trigger] r[a]).key != (
            #[trigger] r[b]).key by {
            if a < flows.len() && b < flows.len() {
                assert(r[a] == flows[a]);
                assert(r[b] == flows[b]);
            } else if a < flows.len() {
                assert(r[a] == flows[a]);
            } else {
                assert(r[b] == flows[b]);
            }
        }
    } else {
        assert forall|i: int| 0 <= i < q.len() implies packet_key(#[trigger] q[i]) == packet_key(
            q[0],
        ) by {
            assert(q[i] == ps[i]);
            assert(q[0] == ps[0]);
        }
        assert(q[0] == ps[0]);
        packets_of_one_tuple_make_one_flow(flows, q, now);
        let r0 = absorbed_all(flows, q, now);
        let n = flows.len() as int;
        assert(has_flow(r0, k)) by {
            assert(r0[n].key == k);
        }
        let c = flow_index(r0, k);
        assert(c == n);
        let r = absorbed(r0, last, now);
        assert(r == r0.update(
            n,
            FlowView {
                packets: sat(r0[n].packets + 1),
                bytes: sat(r0[n].bytes + last.size),
                last_seen: now,
                ..r0[n]
            },
        ));
        assert forall|a: int, b: int|
            0 <= a < r.len() && 0 <= b < r.len() && a != b implies (#[trigger] r[a]).key != (
            #[trigger] r[b]).key by {
            assert(r[a].key == r0[a].key);
            assert(r[b].key == r0[b].key);
        }
    }
}

/// Packets of two different 5-tuples make two flows.
pub proof fn two_tuples_make_two_flows(first: PacketView, second: PacketView, now: u64)
    requires
        packet_key(first) != packet_key(second),
    ensures
        absorbed(absorbed(Seq::empty(), first, now), second, now).len() == 2,
{
    let t1 = absorbed(Seq::empty(), first, now);
    assert(!has_flow(Seq::<FlowView>::empty(), packet_key(first)));
    assert(t1 =~= seq![new_flow(first, now)]);
    assert(!has_flow(t1, packet_key(second))) by {
        assert forall|i: int| 0 <= i < t1.len() implies (#[trigger] t1[i]).key != packet_key(second) by {
            assert(t1[i] == new_flow(first, now));
        }
    }
}

/// A condition on flows.
pub enum FlowSelection {
    All,
    FlowId(Seq<char>),
    Interface(Seq<char>),
    Protocol(u8),
}

pub open spec fn flow_selected(s: FlowSelection, f: FlowView) -> bool {
    match s {
        FlowSelection::All => true,
        FlowSelection::FlowId(id) => f.flow_id == id,
        FlowSelection::Interface(i) => f.interface == i,
        FlowSelection::Protocol(p) => f.key.4 == p,
    }
}

/// The flows that `s` selects, in table order.
pub open spec fn flows_where(flows: Seq<FlowView>, s: FlowSelection) -> Seq<FlowView>
    decreases flows.len(),
{
    if flows.len() == 0 {
        flows
    } else if flow_selected(s, flows.last()) {
        flows_where(flows.drop_last(), s).push(flows.last())
    } else {
        flows_where(flows.drop_last(), s)
    }
}

enum FlowPick<'a> {
    All,
    FlowId(&'a str),
    Interface(&'a str),
    Protocol(u8),
}

spec fn flow_pick_view(p: FlowPick) -> FlowSelection {
    match p {
        FlowPick::All => FlowSelection::All,
        FlowPick::FlowId(q) => FlowSelection::FlowId(q@),
        FlowPick::Interface(q) => FlowSelection::Interface(q@),
        FlowPick::Protocol(x) => FlowSelection::Protocol(x),
    }
}

fn flow_picks(p: &FlowPick, f: &FlowStats) -> (b: bool)
    ensures
        b == flow_selected(flow_pick_view(*p), f@),
{
    match p {
        FlowPick::All => true,
        FlowPick::FlowId(q) => text_eq(f.flow_id.as_str(), q),
        FlowPick::Interface(q) => text_eq(f.interface.as_str(), q),
        FlowPick::Protocol(x) => f.protocol == *x,
    }
}

impl PacketEngine {
    fn select_flows(&self, p: FlowPick) -> (out: Vec<FlowStats>)
        ensures
            out@.map_values(|f: FlowStats| f@) == flows_where(self@.flows, flow_pick_view(p)),
    {
        let ghost t = self@.flows;
        let mut out: Vec<FlowStats> = Vec::new();
        let mut i: usize = 0;
        assert(out@.map_values(|f: FlowStats| f@) =~= flows_where(t.take(0), flow_pick_view(p)));
        while i < self.flows.len()
            invariant
                i <= self.flows@.len(),
                t == self@.flows,
                t.len() == self.flows@.len(),
                out@.map_values(|f: FlowStats| f@) == flows_where(t.take(i as int), flow_pick_view(p)),
            decreases self.flows@.len() - i,
        {
            assert(t.take(i + 1).drop_last() =~= t.take(i as int));
            assert(t.take(i + 1).last() == t[i as int]);
            assert(t[i as int] == self.flows@[i as int]@);
            let ghost before = out@;
            if flow_picks(&p, &self.flows[i]) {
                out.push(self.flows[i].copy());
                assert(out@.map_values(|f: FlowStats| f@) =~= before.map_values(|f: FlowStats| f@).push(
                    t[i as int],
                ));
            }
            i = i + 1;
        }
        assert(t.take(i as int) =~= t);
        out
    }

    /// The first flow recorded under the label `flow_id`.
    pub fn get_flow_stats(&self, flow_id: &str) -> (r: Option<FlowStats>)
        ensures
            flows_where(self@.flows, FlowSelection::FlowId(flow_id@)).len() == 0 <==> r is None,
            r matches Some(f) ==> f@ == flows_where(self@.flows, FlowSelection::FlowId(flow_id@))[0],
    {
        let found = self.select_flows(FlowPick::FlowId(flow_id));
        if found.len() == 0 {
            None
        } else {
            assert(found@[0]@ == found@.map_values(|f: FlowStats| f@)[0]);
            Some(found[0].copy())
        }
    }

    /// Copies of every flow, in table order.
    pub fn get_all_flows(&self) -> (r: Vec<FlowStats>)
        ensures
            r@.map_values(|f: FlowStats| f@) == flows_where(self@.flows, FlowSelection::All),
    {
        self.select_flows(FlowPick::All)
    }

    /// Copies of the flows seen on `interface`, in table order.
    pub fn get_flows_by_interface(&self, interface: &str) -> (r: Vec<FlowStats>)
        ensures
            r@.map_values(|f: FlowStats| f@) == flows_where(
                self@.flows,
                FlowSelection::Interface(interface@),
            ),
    {
        self.select_flows(FlowPick::Interface(interface))
    }

    /// Copies of the flows of IP protocol `protocol`, in table order.
    pub fn get_flows_by_protocol(&self, protocol: u8) -> (r: Vec<FlowStats>)
        ensures
            r@.map_values(|f: FlowStats| f@) == flows_where(
                self@.flows,
                FlowSelection::Protocol(protocol),
            ),
    {
        self.select_flows(FlowPick::Protocol(protocol))
    }

    /// The counters of `interface`, if it has seen a packet.
    pub fn get_interface_stats(&self, interface: &str) -> (r: Option<InterfaceStats>)
        requires
            self.wf(),
        ensures
            r is Some <==> has_interface(self@.interfaces, interface@),
            r matches Some(s) ==> s@ == self@.interfaces[interface_index(
                self@.interfaces,
                interface@,
            )],
            r matches Some(s) ==> s@.interface == interface@,
    {
        match self.find_interface(interface) {
            None => None,
            Some(i) => {
                let ghost c = interface_index(self@.interfaces, interface@);
                assert(self@.interfaces[c].interface == self@.interfaces[i as int].interface);
                assert(c == i as int);
                assert(self@.interfaces[i as int] == self.interfaces@[i as int]@);
                Some(self.interfaces[i].copy())
            },
        }
    }

    fn copy_interfaces(&self) -> (r: Vec<InterfaceStats>)
        ensures
            r@.map_values(|s: InterfaceStats| s@) == self@.interfaces,
    {
        let ghost t = self@.interfaces;
        let mut out: Vec<InterfaceStats> = Vec::new();
        let mut i: usize = 0;
        while i < self.interfaces.len()
            invariant
                i <= self.interfaces@.len(),
                t == self@.interfaces,
                t.len() == self.interfaces@.len(),
                out@.map_values(|s: InterfaceStats| s@) == t.take(i as int),
            decreases self.interfaces@.len() - i,
        {
            assert(t[i as int] == self.interfaces@[i as int]@);
            let ghost before = out@;
            out.push(self.interfaces[i].copy());
            assert(out@.map_values(|s: InterfaceStats| s@) =~= before.map_values(
                |s: InterfaceStats| s@,
            ).push(t[i as int]));
            assert(t.take(i + 1) =~= t.take(i as int).push(t[i as int]));
            i = i + 1;
        }
        assert(t.take(i as int) =~= t);
        out
    }

    /// Copies of the counters of every interface, in the order of their
    /// first packet.
    pub fn get_all_interface_stats(&self) -> (r: Vec<InterfaceStats>)
        ensures
            r@.map_values(|s: InterfaceStats| s@) == self@.interfaces,
    {
        self.copy_interfaces()
    }

    /// The router's totals, with the number of flows (held at `u32::MAX`)
    /// and a copy of every interface's counters.
    pub fn get_router_stats(&self) -> (r: RouterStats)
        ensures
            r.router_id@ == self@.router_id,
            r.total_packets == self@.total_packets,
            r.total_bytes == self@.total_bytes,
            r.total_drops == self@.total_drops,
            r.total_errors == self@.total_errors,
            r.active_flows == (if self@.flows.len() > u32::MAX {
                u32::MAX as int
            } else {
                self@.flows.len() as int
            }),
            r.interfaces@.map_values(|s: InterfaceStats| s@) == self@.interfaces,
    {
        let n = self.flows.len();
        RouterStats {
            router_id: self.router_id.clone(),
            total_packets: self.total_packets,
            total_bytes: self.total_bytes,
            total_drops: self.total_drops,
            total_errors: self.total_errors,
            active_flows: if n > u32::MAX as usize {
                u32::MAX
            } else {
                n as u32
            },
            interfaces: self.copy_interfaces(),
        }
    }

    /// Forgets every flow and interface and zeroes the totals.
    pub fn reset_stats(&mut self)
        requires
            old(self).wf(),
        ensures
            final(self).wf(),
            final(self)@ == (EngineView {
                flows: Seq::empty(),
                interfaces: Seq::empty(),
                total_packets: 0,
                total_bytes: 0,
                total_drops: 0,
                total_errors: 0,
                ..old(self)@
            }),
    {
        self.flows.clear();
        self.interfaces.clear();
        self.total_packets = 0;
        self.total_bytes = 0;
        self.total_drops = 0;
        self.total_errors = 0;
        assert(self@.flows =~= Seq::<FlowView>::empty());
        assert(self@.interfaces =~= Seq::<InterfaceView>::empty());
    }

    /// Application label of a packet, from its protocol and the port of its
    /// service.
    pub fn classify_packet(&self, packet: &Packet) -> (r: String)
        ensures
            r@ == conversation_label(packet.protocol, packet.source_port, packet.dest_port),
    {
        detect_application(
            packet.protocol,
            service_port(packet.protocol, packet.source_port, packet.dest_port),
        )
    }
}

/// Selecting every flow keeps the table as it is.
pub proof fn lemma_flows_where_all(flows: Seq<FlowView>)
    ensures
        flows_where(flows, FlowSelection::All) == flows,
    decreases flows.len(),
{
    if flows.len() > 0 {
        lemma_flows_where_all(flows.drop_last());
        assert(flows.drop_last().push(flows.last()) =~= flows);
    }
}


/// Which attribute of a flow a summary groups by.
pub enum FlowAttribute {
    Application,
    Source,
    Destination,
}

/// One item per flow: the grouping attribute and the flow's packet count.
pub open spec fn flow_items(flows: Seq<FlowView>, a: FlowAttribute) -> Seq<(Seq<char>, u64)> {
    flows.map_values(
        |f: FlowView|
            (
                match a {
                    FlowAttribute::Application => f.application,
                    FlowAttribute::Source => f.key.0,
                    FlowAttribute::Destination => f.key.1,
                },
                f.packets,
            ),
    )
}

/// One item per flow: its protocol and its packet count.
pub open spec fn protocol_items(flows: Seq<FlowView>) -> Seq<(u8, u64)> {
    flows.map_values(|f: FlowView| (f.key.4, f.packets))
}

/// Byte counts of the flows, in table order.
pub open spec fn flow_bytes(flows: Seq<FlowView>) -> Seq<u64> {
    flows.map_values(|f: FlowView| f.bytes)
}

/// The flows at the positions `idx`, in that order.
pub open spec fn flows_at(flows: Seq<FlowView>, idx: Seq<usize>) -> Seq<FlowView> {
    idx.map_values(|i: usize| flows[i as int])
}

/// How many entries a summary's rankings hold.
pub const TOP_ENTRIES: usize = 10;

/// Summary of the flow table.
#[derive(Debug)]
pub struct AnalyticsStats {
    pub total_flows: u64,
    pub active_flows: u64,
    pub top_applications: Vec<(String, u64)>,
    pub top_protocols: Vec<(u8, u64)>,
    pub top_sources: Vec<(String, u64)>,
    pub top_destinations: Vec<(String, u64)>,
}

impl PacketEngine {
    fn flow_totals(&self, a: FlowAttribute) -> (r: Vec<(String, u64)>)
        ensures
            text_pairs(r@) == totals(flow_items(self@.flows, a)),
    {
        let ghost items = flow_items(self@.flows, a);
        let mut out: Vec<(String, u64)> = Vec::new();
        assert(text_pairs(out@) =~= totals(items.take(0)));
        let mut i: usize = 0;
        while i < self.flows.len()
            invariant
                i <= self.flows@.len(),
                items == flow_items(self@.flows, a),
                items.len() == self.flows@.len(),
                text_pairs(out@) == totals(items.take(i as int)),
                keys_unique(text_pairs(out@)),
            decreases self.flows@.len() - i,
        {
            assert(items.take(i + 1).drop_last() =~= items.take(i as int));
            assert(items.take(i + 1).last() == items[i as int]);
            assert(self@.flows[i as int] == self.flows@[i as int]@);
            let f = &self.flows[i];
            match a {
                FlowAttribute::Application => tally_text(&mut out, f.application.as_str(), f.packets),
                FlowAttribute::Source => tally_text(&mut out, f.source_ip.as_str(), f.packets),
                FlowAttribute::Destination => tally_text(&mut out, f.dest_ip.as_str(), f.packets),
            }
            i = i + 1;
        }
        assert(items.take(i as int) =~= items);
        out
    }

    /// Packets per IP protocol over all flows, in order of first appearance
    /// (a total is held at `u64::MAX`).
    pub fn get_protocol_distribution(&self) -> (r: Vec<(u8, u64)>)
        ensures
            r@ == totals(protocol_items(self@.flows)),
    {
        let ghost items = protocol_items(self@.flows);
        let mut out: Vec<(u8, u64)> = Vec::new();
        assert(out@ =~= totals(items.take(0)));
        let mut i: usize = 0;
        while i < self.flows.len()
            invariant
                i <= self.flows@.len(),
                items == protocol_items(self@.flows),
                items.len() == self.flows@.len(),
                out@ == totals(items.take(i as int)),
                keys_unique(out@),
            decreases self.flows@.len() - i,
        {
            assert(items.take(i + 1).drop_last() =~= items.take(i as int));
            assert(items.take(i + 1).last() == items[i as int]);
            assert(self@.flows[i as int] == self.flows@[i as int]@);
            tally_byte(&mut out, self.flows[i].protocol, self.flows[i].packets);
            i = i + 1;
        }
        assert(items.take(i as int) =~= items);
        out
    }

    /// Copies of the `limit` flows with the most bytes, most first.
    pub fn get_top_flows(&self, limit: usize) -> (r: Vec<FlowStats>)
        ensures
            exists|idx: Seq<usize>|
                is_top_selection(flow_bytes(self@.flows), limit as nat, idx) && r@.map_values(
                    |f: FlowStats| f@,
                ) == #[trigger] flows_at(self@.flows, idx),
    {
        let ghost t = self@.flows;
        let mut vals: Vec<u64> = Vec::new();
        let mut i: usize = 0;
        while i < self.flows.len()
            invariant
                i <= self.flows@.len(),
                t == self@.flows,
                t.len() == self.flows@.len(),
                vals@ == flow_bytes(t).take(i as int),
            decreases self.flows@.len() - i,
        {
            assert(t[i as int] == self.flows@[i as int]@);
            vals.push(self.flows[i].bytes);
            i = i + 1;
            assert(vals@ =~= flow_bytes(t).take(i as int));
        }
        assert(vals@ =~= flow_bytes(t));
        let idx = top_indices(&vals, limit);
        let mut r: Vec<FlowStats> = Vec::new();
        let mut a: usize = 0;
        while a < idx.len()
            invariant
                a <= idx@.len(),
                t == self@.flows,
                t.len() == self.flows@.len(),
                forall|q: int| 0 <= q < idx@.len() ==> (#[trigger] idx@[q]) < t.len(),
                r@.map_values(|f: FlowStats| f@) == flows_at(t, idx@.take(a as int)),
            decreases idx@.len() - a,
        {
            let j = idx[a];
            assert(t[j as int] == self.flows@[j as int]@);
            let ghost before = r@;
            r.push(self.flows[j].copy());
            assert(r@.map_values(|f: FlowStats| f@) =~= before.map_values(|f: FlowStats| f@).push(
                t[j as int],
            ));
            assert(idx@.take(a + 1) =~= idx@.take(a as int).push(j));
            a = a + 1;
            assert(r@.map_values(|f: FlowStats| f@) =~= flows_at(t, idx@.take(a as int)));
        }
        assert(idx@.take(a as int) =~= idx@);
        assert(r@.map_values(|f: FlowStats| f@) == flows_at(t, idx@));
        r
    }

    fn count_live(&self, now: u64) -> (n: u64)
        ensures
            n == live_flows(self@.flows, now, self@.flow_timeout).len(),
    {
        let ghost t = self@.flows;
        let mut n: u64 = 0;
        let mut i: usize = 0;
        while i < self.flows.len()
            invariant
                i <= self.flows@.len(),
                t == self@.flows,
                t.len() == self.flows@.len(),
                n == live_flows(t.take(i as int), now, self@.flow_timeout).len(),
                n <= i,
            decreases self.flows@.len() - i,
        {
            assert(t.take(i + 1).drop_last() =~= t.take(i as int));
            assert(t.take(i + 1).last() == t[i as int]);
            assert(t[i as int] == self.flows@[i as int]@);
            let f = &self.flows[i];
            let age: u64 = if now >= f.last_seen {
                now - f.last_seen
            } else {
                0
            };
            if age < self.flow_timeout {
                n = n + 1;
            }
            i = i + 1;
        }
        assert(t.take(i as int) =~= t);
        n
    }

    /// Summary of the flow table at `now`: the number of flows, of those
    /// still live, and the ten applications, protocols, sources and
    /// destinations with the most packets.
    pub fn get_analytics_stats(&self, now: u64) -> (s: AnalyticsStats)
        ensures
            s.total_flows == self@.flows.len(),
            s.active_flows == live_flows(self@.flows, now, self@.flow_timeout).len(),
            top_of(
                totals(flow_items(self@.flows, FlowAttribute::Application)),
                TOP_ENTRIES as nat,
                text_pairs(s.top_applications@),
            ),
            top_of(totals(protocol_items(self@.flows)), TOP_ENTRIES as nat, s.top_protocols@),
            top_of(
                totals(flow_items(self@.flows, FlowAttribute::Source)),
                TOP_ENTRIES as nat,
                text_pairs(s.top_sources@),
            ),
            top_of(
                totals(flow_items(self@.flows, FlowAttribute::Destination)),
                TOP_ENTRIES as nat,
                text_pairs(s.top_destinations@),
            ),
    {
        let apps = self.flow_totals(FlowAttribute::Application);
        let sources = self.flow_totals(FlowAttribute::Source);
        let destinations = self.flow_totals(FlowAttribute::Destination);
        let protocols = self.get_protocol_distribution();
        AnalyticsStats {
            total_flows: self.flows.len() as u64,
            active_flows: self.count_live(now),
            top_applications: top_text(&apps, TOP_ENTRIES),
            top_protocols: top_bytes(&protocols, TOP_ENTRIES),
            top_sources: top_text(&sources, TOP_ENTRIES),
            top_destinations: top_text(&destinations, TOP_ENTRIES),
        }
    }
}


/// The text that names a packet's 5-tuple:
/// `source-destination-sourceport-destinationport-protocol`.
pub open spec fn flow_id_text(p: PacketView) -> Seq<char> {
    p.source_ip + "-"@ + p.dest_ip + "-"@ + decimal_text(p.source_port as nat) + "-"@
        + decimal_text(p.dest_port as nat) + "-"@ + decimal_text(p.protocol as nat)
}

impl PacketEngine {
    /// A flow id built from a packet's 5-tuple.
    pub fn generate_flow_id(&self, packet: &Packet) -> (r: String)
        ensures
            r@ == flow_id_text(packet@),
    {
        let mut s = packet.source_ip.clone();
        s.append("-");
        s.append(packet.dest_ip.as_str());
        s.append("-");
        push_decimal(&mut s, packet.source_port as u64);
        s.append("-");
        push_decimal(&mut s, packet.dest_port as u64);
        s.append("-");
        push_decimal(&mut s, packet.protocol as u64);
        s
    }
}

} // verus!
