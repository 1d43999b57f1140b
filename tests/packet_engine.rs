use router_analytics::packet_engine::{Packet, PacketEngine};

fn packet(src: &str, dst: &str, sport: u16, dport: u16, proto: u8, size: u32, flow: &str) -> Packet {
    Packet {
        timestamp: 1234567890,
        source_ip: src.to_string(),
        dest_ip: dst.to_string(),
        source_port: sport,
        dest_port: dport,
        protocol: proto,
        size,
        interface: "eth0".to_string(),
        router_id: "router1".to_string(),
        flow_id: flow.to_string(),
        priority: 0,
        dscp: 0,
    }
}

#[test]
fn packet_engine_test_packet_processing() {
    let mut engine = PacketEngine::new("router1".to_string(), 300);

    let packet = Packet {
        timestamp: 1234567890,
        source_ip: "192.168.1.1".to_string(),
        dest_ip: "192.168.1.2".to_string(),
        source_port: 12345,
        dest_port: 80,
        protocol: 6,
        size: 1500,
        interface: "eth0".to_string(),
        router_id: "router1".to_string(),
        flow_id: "flow1".to_string(),
        priority: 0,
        dscp: 0,
    };

    assert!(engine.process_packet(packet).is_ok());

    let stats = engine.get_router_stats();
    assert_eq!(stats.total_packets, 1);
    assert_eq!(stats.total_bytes, 1500);
}

#[test]
fn test_flow_classification() {
    let engine = PacketEngine::new("router1".to_string(), 300);

    let packet = Packet {
        timestamp: 1234567890,
        source_ip: "192.168.1.1".to_string(),
        dest_ip: "192.168.1.2".to_string(),
        source_port: 12345,
        dest_port: 80,
        protocol: 6,
        size: 1500,
        interface: "eth0".to_string(),
        router_id: "router1".to_string(),
        flow_id: "flow1".to_string(),
        priority: 0,
        dscp: 0,
    };

    let classification = engine.classify_packet(&packet);
    assert_eq!(classification, "HTTP");
}

#[test]
fn test_flow_processing() {
    let mut engine = PacketEngine::new("router1".to_string(), 300);
    engine.process_packet_at(&packet("192.168.1.1", "192.168.1.2", 80, 8080, 6, 1500, ""), 10);

    let flows = engine.get_all_flows();
    assert_eq!(flows.len(), 1);
    assert_eq!(flows[0].source_ip, "192.168.1.1");
    assert_eq!(flows[0].dest_ip, "192.168.1.2");
    assert_eq!(flows[0].packets, 1);
}

#[test]
fn test_application_detection() {
    let mut engine = PacketEngine::new("router1".to_string(), 300);
    engine.process_packet_at(&packet("192.168.1.1", "192.168.1.2", 80, 8080, 6, 1500, ""), 10);

    let flows = engine.get_all_flows();
    assert_eq!(flows[0].application, "HTTP");
}

#[test]
fn scenario_two_packets_one_http_flow() {
    let mut engine = PacketEngine::new("r".to_string(), 300);
    let p = packet("192.168.1.1", "192.168.1.2", 80, 8080, 6, 1500, "f");
    engine.process_packet_at(&p, 100);
    engine.process_packet_at(&p, 101);
    let flows = engine.get_all_flows();
    assert_eq!(flows.len(), 1);
    assert_eq!(flows[0].packets, 2);
    assert_eq!(flows[0].bytes, 3000);
    assert_eq!(flows[0].application, "HTTP");
    assert_eq!(flows[0].start_time, 100);
    assert_eq!(flows[0].last_seen, 101);
}

#[test]
fn same_tuple_aggregates_distinct_tuples_split() {
    let mut engine = PacketEngine::new("r".to_string(), 300);
    let sizes = [100u32, 200, 300, 400];
    for s in sizes {
        engine.process_packet_at(&packet("10.0.0.1", "10.0.0.2", 5000, 53, 17, s, ""), 1);
    }
    engine.process_packet_at(&packet("10.0.0.1", "10.0.0.2", 5001, 53, 17, 50, ""), 1);
    let flows = engine.get_all_flows();
    assert_eq!(flows.len(), 2);
    assert_eq!(flows[0].packets, 4);
    assert_eq!(flows[0].bytes, 1000);
    assert_eq!(flows[0].application, "DNS");
    assert_eq!(flows[1].packets, 1);
    assert_eq!(engine.get_flows_by_protocol(17).len(), 2);
    assert_eq!(engine.get_flows_by_protocol(6).len(), 0);
    assert_eq!(engine.get_flows_by_interface("eth0").len(), 2);
}

#[test]
fn idle_flows_are_evicted() {
    let mut engine = PacketEngine::new("r".to_string(), 300);
    engine.process_packet_at(&packet("1.1.1.1", "2.2.2.2", 1, 2, 6, 10, "old"), 0);
    engine.process_packet_at(&packet("1.1.1.1", "2.2.2.2", 3, 4, 6, 10, "new"), 200);
    engine.cleanup_expired_flows(299);
    assert_eq!(engine.get_all_flows().len(), 2);
    engine.cleanup_expired_flows(300);
    let flows = engine.get_all_flows();
    assert_eq!(flows.len(), 1);
    assert_eq!(flows[0].flow_id, "new");
    assert!(engine.get_flow_stats("old").is_none());
    assert_eq!(engine.get_flow_stats("new").unwrap().packets, 1);
}

#[test]
fn interface_direction_and_reset() {
    let mut engine = PacketEngine::new("r".to_string(), 300);
    engine.process_packet_at(&packet("192.168.0.5", "8.8.8.8", 1, 2, 6, 10, ""), 0);
    engine.process_packet_at(&packet("8.8.8.8", "192.168.0.5", 2, 1, 6, 30, ""), 0);
    let s = engine.get_interface_stats("eth0").unwrap();
    assert_eq!(s.packets_in, 1);
    assert_eq!(s.bytes_in, 10);
    assert_eq!(s.packets_out, 1);
    assert_eq!(s.bytes_out, 30);
    assert!(engine.get_interface_stats("eth1").is_none());
    assert_eq!(engine.get_all_interface_stats().len(), 1);
    let r = engine.get_router_stats();
    assert_eq!(r.active_flows, 2);
    assert_eq!(r.router_id, "r");
    engine.reset_stats();
    assert_eq!(engine.get_all_flows().len(), 0);
    assert_eq!(engine.get_router_stats().total_packets, 0);
}

#[test]
fn top_flows_by_bytes() {
    let mut engine = PacketEngine::new("r".to_string(), 300);
    engine.process_packet_at(&packet("1.1.1.1", "2.2.2.2", 1, 80, 6, 100, "a"), 0);
    engine.process_packet_at(&packet("1.1.1.1", "2.2.2.2", 2, 80, 6, 900, "b"), 0);
    engine.process_packet_at(&packet("1.1.1.1", "2.2.2.2", 3, 80, 6, 500, "c"), 0);
    engine.process_packet_at(&packet("1.1.1.1", "2.2.2.2", 4, 80, 6, 900, "d"), 0);
    let top = engine.get_top_flows(3);
    let ids: Vec<&str> = top.iter().map(|f| f.flow_id.as_str()).collect();
    assert_eq!(ids, vec!["b", "d", "c"]);
    assert_eq!(engine.get_top_flows(10).len(), 4);
    assert_eq!(engine.get_top_flows(0).len(), 0);
}

#[test]
fn protocol_distribution_and_summary() {
    let mut engine = PacketEngine::new("r".to_string(), 300);
    for _ in 0..3 {
        engine.process_packet_at(&packet("10.0.0.1", "10.0.0.9", 4000, 53, 17, 80, "dns"), 0);
    }
    engine.process_packet_at(&packet("10.0.0.2", "10.0.0.9", 4001, 443, 6, 1500, "web"), 100);
    engine.process_packet_at(&packet("10.0.0.1", "10.0.0.8", 4002, 443, 6, 1500, "web2"), 100);
    assert_eq!(engine.get_protocol_distribution(), vec![(17, 3), (6, 2)]);
    let s = engine.get_analytics_stats(350);
    assert_eq!(s.total_flows, 3);
    assert_eq!(s.active_flows, 2);
    assert_eq!(
        s.top_applications,
        vec![("DNS".to_string(), 3), ("HTTPS".to_string(), 2)]
    );
    assert_eq!(s.top_protocols, vec![(17, 3), (6, 2)]);
    assert_eq!(
        s.top_sources,
        vec![("10.0.0.1".to_string(), 4), ("10.0.0.2".to_string(), 1)]
    );
    assert_eq!(
        s.top_destinations,
        vec![("10.0.0.9".to_string(), 4), ("10.0.0.8".to_string(), 1)]
    );
}

#[test]
fn flow_id_names_the_five_tuple() {
    let engine = PacketEngine::new("r".to_string(), 300);
    let p = packet("192.168.1.1", "10.0.0.2", 12345, 80, 6, 1, "");
    assert_eq!(engine.generate_flow_id(&p), "192.168.1.1-10.0.0.2-12345-80-6");
    let q = packet("a", "b", 0, 65535, 255, 1, "");
    assert_eq!(engine.generate_flow_id(&q), "a-b-0-65535-255");
}
