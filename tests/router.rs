use router_analytics::frame::{DropReason, IpAddress};
use router_analytics::{Decision, Packet, Route, RouterAnalytics};

fn ipv4_frame(proto: u8, src: [u8; 4], dst: [u8; 4], sport: u16, dport: u16) -> Vec<u8> {
    let mut f = vec![0u8; 12];
    f.extend_from_slice(&[0x08, 0x00]);
    let mut ip = vec![0u8; 20];
    ip[0] = 0x45;
    ip[9] = proto;
    ip[12..16].copy_from_slice(&src);
    ip[16..20].copy_from_slice(&dst);
    f.extend_from_slice(&ip);
    f.extend_from_slice(&sport.to_be_bytes());
    f.extend_from_slice(&dport.to_be_bytes());
    f
}

fn route(dest: &str, gateway: &str, iface: &str, prefix: u8) -> Route {
    Route::new(
        dest.to_string(),
        gateway.to_string(),
        iface.to_string(),
        prefix,
        1,
        "static".to_string(),
    )
}

#[test]
fn lib_test_packet_processing() {
    let mut analytics = RouterAnalytics::new();
    let packet = Packet::new(
        1,
        1500,
        1,
        "192.168.1.1".to_string(),
        "192.168.1.2".to_string(),
        80,
        8080,
        6,
    );

    assert!(analytics.process_packet(&packet).is_ok());
}

#[test]
fn test_route_management() {
    let mut analytics = RouterAnalytics::new();
    let route = Route::new(
        "192.168.1.0/24".to_string(),
        "192.168.1.1".to_string(),
        "eth0".to_string(),
        24,
        1,
        "static".to_string(),
    );

    assert!(analytics.add_route(&route).is_ok());
    assert!(analytics.remove_route("192.168.1.0/24").is_ok());
}

#[test]
fn forwards_along_the_matching_route() {
    let mut r = RouterAnalytics::new();
    r.add_route(&route("10.0.0.0/24", "192.168.1.1", "eth0", 24)).unwrap();
    let f = ipv4_frame(6, [172, 16, 0, 1], [10, 0, 0, 5], 40000, 443);
    match r.ingest_at(&f, "eth1", 5_000) {
        Decision::Forward { next_hop, interface } => {
            assert_eq!(next_hop, "192.168.1.1");
            assert_eq!(interface, "eth0");
        }
        other => panic!("unexpected decision {:?}", other),
    }
    let m = r.metrics_snapshot();
    assert_eq!(m.packets_processed, 1);
    assert_eq!(m.packets_forwarded, 1);
    assert_eq!(m.packets_routed, 1);
    assert_eq!(m.bytes_processed, f.len() as u64);
    let flows = r.get_flows();
    assert_eq!(flows.len(), 1);
    assert_eq!(flows[0].source_ip, "172.16.0.1");
    assert_eq!(flows[0].dest_ip, "10.0.0.5");
    assert_eq!(flows[0].application, "HTTPS");
    assert_eq!(flows[0].interface, "eth1");
}

#[test]
fn no_route_and_local_delivery() {
    let mut r = RouterAnalytics::new();
    r.add_local_address(IpAddress::V4(u32::from_be_bytes([10, 0, 0, 1])));
    let to_me = ipv4_frame(17, [10, 0, 0, 9], [10, 0, 0, 1], 5000, 53);
    assert!(matches!(r.ingest_at(&to_me, "eth0", 0), Decision::Local));
    let elsewhere = ipv4_frame(17, [10, 0, 0, 9], [8, 8, 8, 8], 5000, 53);
    assert!(matches!(
        r.ingest_at(&elsewhere, "eth0", 0),
        Decision::Drop(DropReason::NoRoute)
    ));
    let m = r.metrics_snapshot();
    assert_eq!(m.packets_processed, 2);
    assert_eq!(m.packets_dropped, 1);
    assert_eq!(r.get_flows().len(), 2);
}

#[test]
fn malformed_frame_is_dropped_without_a_flow() {
    let mut r = RouterAnalytics::new();
    assert!(matches!(
        r.ingest_at(&[1, 2, 3], "eth0", 0),
        Decision::Drop(DropReason::Malformed)
    ));
    let m = r.metrics_snapshot();
    assert_eq!(m.packets_dropped, 1);
    assert_eq!(m.packets_processed, 0);
    assert_eq!(r.get_flows().len(), 0);
}

#[test]
fn router_reset_keeps_routes() {
    let mut r = RouterAnalytics::new();
    r.add_route(&route("0.0.0.0/0", "1.1.1.1", "eth0", 0)).unwrap();
    let f = ipv4_frame(6, [1, 1, 1, 2], [9, 9, 9, 9], 1, 2);
    r.ingest_at(&f, "eth0", 0);
    r.record_latency(700);
    assert!(r.reset().is_ok());
    assert_eq!(r.metrics_snapshot().packets_processed, 0);
    assert_eq!(r.get_flows().len(), 0);
    assert_eq!(r.get_routing_stats().unwrap().total_routes, 1);
    assert!(matches!(r.ingest_at(&f, "eth0", 0), Decision::Forward { .. }));
}

fn ipv6_frame(dst: [u8; 16]) -> Vec<u8> {
    let mut f = vec![0u8; 12];
    f.extend_from_slice(&[0x86, 0xdd]);
    let mut ip = vec![0u8; 40];
    ip[0] = 0x60;
    ip[6] = 17;
    ip[7] = 64;
    ip[8] = 0xfe;
    ip[9] = 0x80;
    ip[23] = 9;
    ip[24..40].copy_from_slice(&dst);
    f.extend_from_slice(&ip);
    f.extend_from_slice(&[0x13, 0x88, 0, 53]);
    f
}

#[test]
fn ipv6_packets_are_routed() {
    let mut r = RouterAnalytics::new();
    r.add_route(&route("2001:db8::/32", "fe80::1", "eth6", 32)).unwrap();
    let mut dst = [0u8; 16];
    dst[0] = 0x20;
    dst[1] = 0x01;
    dst[2] = 0x0d;
    dst[3] = 0xb8;
    dst[15] = 7;
    match r.ingest_at(&ipv6_frame(dst), "eth0", 0) {
        Decision::Forward { next_hop, interface } => {
            assert_eq!(next_hop, "fe80::1");
            assert_eq!(interface, "eth6");
        }
        other => panic!("unexpected decision {:?}", other),
    }
    let mut elsewhere = dst;
    elsewhere[1] = 0x02;
    assert!(matches!(
        r.ingest_at(&ipv6_frame(elsewhere), "eth0", 0),
        Decision::Drop(DropReason::NoRoute)
    ));
    let flows = r.get_flows();
    assert_eq!(flows[0].dest_ip, "2001:0db8:0000:0000:0000:0000:0000:0007");
    assert_eq!(flows[0].application, "DNS");
}
