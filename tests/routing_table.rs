use router_analytics::frame::IpAddress;
use router_analytics::{Route, RoutingTable};

fn route(dest: &str, gateway: &str, iface: &str, prefix: u8, metric: u32) -> Route {
    Route::new(
        dest.to_string(),
        gateway.to_string(),
        iface.to_string(),
        prefix,
        metric,
        "static".to_string(),
    )
}

fn ip(a: u8, b: u8, c: u8, d: u8) -> u32 {
    u32::from_be_bytes([a, b, c, d])
}

#[test]
fn test_routing_table_creation() {
    let table = RoutingTable::new();
    let stats = table.get_stats();
    assert_eq!(stats.total_routes, 0);
    assert_eq!(stats.active_routes, 0);
}

#[test]
fn test_add_route() {
    let mut table = RoutingTable::new();
    let route = Route::new(
        "192.168.1.0/24".to_string(),
        "192.168.1.1".to_string(),
        "eth0".to_string(),
        24,
        1,
        "static".to_string(),
    );

    assert!(table.add_route(&route).is_ok());
    let stats = table.get_stats();
    assert_eq!(stats.total_routes, 1);
    assert_eq!(stats.active_routes, 1);
    assert_eq!(stats.static_routes, 1);
}

#[test]
fn test_remove_route() {
    let mut table = RoutingTable::new();
    let route = Route::new(
        "192.168.1.0/24".to_string(),
        "192.168.1.1".to_string(),
        "eth0".to_string(),
        24,
        1,
        "static".to_string(),
    );

    table.add_route(&route).unwrap();
    assert!(table.remove_route("192.168.1.0/24").is_ok());
    let stats = table.get_stats();
    assert_eq!(stats.total_routes, 0);
}

#[test]
fn test_find_best_route() {
    let mut table = RoutingTable::new();

    let default_route = Route::new(
        "0.0.0.0/0".to_string(),
        "192.168.1.1".to_string(),
        "eth0".to_string(),
        0,
        100,
        "static".to_string(),
    );
    table.add_route(&default_route).unwrap();

    let specific_route = Route::new(
        "192.168.1.0/24".to_string(),
        "192.168.1.1".to_string(),
        "eth0".to_string(),
        24,
        1,
        "static".to_string(),
    );
    table.add_route(&specific_route).unwrap();

    let best_route = table.find_best_route("192.168.1.100");
    assert!(best_route.is_some());
    assert_eq!(best_route.unwrap().destination, "192.168.1.0/24");
}

#[test]
fn test_route_validation() {
    let mut table = RoutingTable::new();

    let invalid_route = Route::new(
        "".to_string(),
        "192.168.1.1".to_string(),
        "eth0".to_string(),
        24,
        1,
        "static".to_string(),
    );
    assert!(table.add_route(&invalid_route).is_err());

    let valid_route = Route::new(
        "192.168.1.0/24".to_string(),
        "192.168.1.1".to_string(),
        "eth0".to_string(),
        24,
        1,
        "static".to_string(),
    );
    assert!(table.add_route(&valid_route).is_ok());
}

#[test]
fn test_ipv4_network_matching() {
    let table = RoutingTable::new();

    assert!(table.matches_destination(IpAddress::V4(ip(192, 168, 1, 100)), "192.168.1.100/32"));
    assert!(table.matches_destination(IpAddress::V4(ip(192, 168, 1, 100)), "192.168.1.0/24"));
    assert!(!table.matches_destination(IpAddress::V4(ip(192, 168, 2, 100)), "192.168.1.0/24"));
}

#[test]
fn lookup_inside_specific_prefix_and_via_default() {
    let mut table = RoutingTable::new();
    table.add_route(&route("0.0.0.0/0", "10.9.9.9", "eth9", 0, 100)).unwrap();
    table.add_route(&route("10.1.0.0/16", "10.1.0.1", "eth1", 16, 5)).unwrap();
    let inside = table.lookup(ip(10, 1, 200, 3)).unwrap();
    assert_eq!(inside.destination, "10.1.0.0/16");
    let outside = table.lookup(ip(172, 16, 0, 1)).unwrap();
    assert_eq!(outside.destination, "0.0.0.0/0");
    assert_eq!(outside.gateway, "10.9.9.9");
}

#[test]
fn longest_prefix_wins_over_lower_metric() {
    let mut table = RoutingTable::new();
    table.add_route(&route("10.0.0.0/8", "1.1.1.1", "eth1", 8, 1)).unwrap();
    table.add_route(&route("10.0.0.0/24", "2.2.2.2", "eth2", 24, 50)).unwrap();
    let r = table.lookup(ip(10, 0, 0, 7)).unwrap();
    assert_eq!(r.gateway, "2.2.2.2");
    let r = table.lookup(ip(10, 0, 1, 7)).unwrap();
    assert_eq!(r.gateway, "1.1.1.1");
}

#[test]
fn equal_prefix_lower_metric_wins() {
    let mut table = RoutingTable::new();
    table.add_route(&route("10.0.0.0/24", "1.1.1.1", "eth1", 24, 10)).unwrap();
    table.add_route(&route("10.0.0.0/24", "2.2.2.2", "eth2", 24, 5)).unwrap();
    assert_eq!(table.lookup(ip(10, 0, 0, 1)).unwrap().gateway, "2.2.2.2");
    // a worse metric for the same prefix changes nothing
    table.add_route(&route("10.0.0.0/24", "3.3.3.3", "eth3", 24, 7)).unwrap();
    assert_eq!(table.lookup(ip(10, 0, 0, 1)).unwrap().gateway, "2.2.2.2");
    // an equal metric replaces: the most recent route wins the tie
    table.add_route(&route("10.0.0.0/24", "4.4.4.4", "eth4", 24, 5)).unwrap();
    assert_eq!(table.lookup(ip(10, 0, 0, 1)).unwrap().gateway, "4.4.4.4");
    assert_eq!(table.get_stats().total_routes, 1);
}

#[test]
fn host_bits_of_a_prefix_name_the_same_key() {
    let mut table = RoutingTable::new();
    table.add_route(&route("10.0.0.9/24", "1.1.1.1", "eth1", 24, 10)).unwrap();
    assert!(table.get_route("10.0.0.0/24").is_some());
    assert!(table.remove_route("10.0.0.77/24").is_ok());
    assert_eq!(table.get_stats().total_routes, 0);
}

#[test]
fn cached_lookup_follows_changes() {
    let mut table = RoutingTable::new();
    table.add_route(&route("10.0.0.0/8", "1.1.1.1", "eth1", 8, 1)).unwrap();
    let d = ip(10, 2, 3, 4);
    assert_eq!(table.lookup(d).unwrap().gateway, "1.1.1.1");
    assert_eq!(table.lookup(d).unwrap().gateway, "1.1.1.1");
    table.add_route(&route("10.2.0.0/16", "2.2.2.2", "eth2", 16, 1)).unwrap();
    assert_eq!(table.lookup(d).unwrap().gateway, "2.2.2.2");
    table.remove_route("10.2.0.0/16").unwrap();
    assert_eq!(table.lookup(d).unwrap().gateway, "1.1.1.1");
    table.remove_route("10.0.0.0/8").unwrap();
    assert!(table.lookup(d).is_none());
}

#[test]
fn removing_missing_route_is_not_found_and_changes_nothing() {
    let mut table = RoutingTable::new();
    table.add_route(&route("10.0.0.0/8", "1.1.1.1", "eth1", 8, 1)).unwrap();
    let before = table.get_stats();
    assert!(table.remove_route("10.0.0.0/16").is_err());
    assert!(table.remove_route("not a prefix").is_err());
    let after = table.get_stats();
    assert_eq!(after.total_routes, before.total_routes);
    assert_eq!(after.last_update, before.last_update);
    assert!(table.get_route("10.0.0.0/8").is_some());
}

#[test]
fn scenario_route_to_ten_net() {
    let mut table = RoutingTable::new();
    table
        .add_route(&route("10.0.0.0/24", "192.168.1.1", "eth0", 24, 1))
        .unwrap();
    let r = table.lookup(ip(10, 0, 0, 5)).unwrap();
    assert_eq!(r.gateway, "192.168.1.1");
    assert_eq!(r.interface, "eth0");
    assert!(table.lookup(ip(8, 8, 8, 8)).is_none());
}

#[test]
fn inactive_route_does_not_match() {
    let mut table = RoutingTable::new();
    let mut r = route("10.0.0.0/8", "1.1.1.1", "eth1", 8, 1);
    r.is_active = false;
    table.add_route(&r).unwrap();
    assert!(table.lookup(ip(10, 0, 0, 1)).is_none());
    assert_eq!(table.get_stats().active_routes, 0);
    assert_eq!(table.get_active_routes().len(), 0);
}

#[test]
fn validation_errors() {
    let mut table = RoutingTable::new();
    assert!(table.add_route(&route("10.0.0.0/24", "", "eth0", 24, 1)).is_err());
    assert!(table.add_route(&route("10.0.0.0/24", "1.1.1.1", "", 24, 1)).is_err());
    assert!(table.add_route(&route("10.0.0.0/33", "1.1.1.1", "eth0", 33, 1)).is_err());
    assert!(table.add_route(&route("10.0.0.0/24", "1.1.1.1", "eth0", 16, 1)).is_err());
    assert!(table.add_route(&route("10.0.0/24", "1.1.1.1", "eth0", 24, 1)).is_err());
    let mut no_proto = route("10.0.0.0/24", "1.1.1.1", "eth0", 24, 1);
    no_proto.protocol = String::new();
    assert!(table.add_route(&no_proto).is_err());
    assert_eq!(table.get_stats().total_routes, 0);
}

#[test]
fn update_route_replaces_whatever_the_metric() {
    let mut table = RoutingTable::new();
    table.add_route(&route("10.0.0.0/24", "1.1.1.1", "eth1", 24, 1)).unwrap();
    assert!(table
        .update_route("10.0.0.0/24", &route("10.0.0.0/24", "2.2.2.2", "eth2", 24, 90))
        .is_ok());
    assert_eq!(table.get_route("10.0.0.0/24").unwrap().gateway, "2.2.2.2");
    assert!(table
        .update_route("10.0.1.0/24", &route("10.0.1.0/24", "2.2.2.2", "eth2", 24, 90))
        .is_err());
    // the entry keeps its key whatever the new route names
    assert!(table
        .update_route("10.0.0.0/24", &route("10.0.9.0/25", "5.5.5.5", "eth5", 25, 90))
        .is_ok());
    assert_eq!(table.get_route("10.0.0.0/24").unwrap().gateway, "5.5.5.5");
    assert_eq!(table.get_stats().total_routes, 1);
    assert!(table
        .update_route("10.0.0.0/24", &route("10.0.9.0/25", "", "eth5", 25, 90))
        .is_err());
}

#[test]
fn selections_and_counts() {
    let mut table = RoutingTable::new();
    table.add_route(&route("10.0.0.0/8", "1.1.1.1", "eth1", 8, 5)).unwrap();
    let mut bgp = route("20.0.0.0/16", "2.2.2.2", "eth2", 16, 20);
    bgp.protocol = "bgp".to_string();
    table.add_route(&bgp).unwrap();
    table.add_route(&route("30.0.0.0/24", "3.3.3.3", "eth1", 24, 40)).unwrap();
    assert_eq!(table.get_all_routes().len(), 3);
    assert_eq!(table.get_routes_by_protocol("bgp").len(), 1);
    assert_eq!(table.get_routes_by_interface("eth1").len(), 2);
    assert_eq!(table.get_routes_by_metric_range(10, 40).len(), 2);
    assert_eq!(table.get_routes_by_prefix_length_range(16, 32).len(), 2);
    let stats = table.get_stats();
    assert_eq!(stats.bgp_routes, 1);
    assert_eq!(stats.static_routes, 2);
    assert_eq!(stats.ospf_routes, 0);
    table.reset();
    assert_eq!(table.get_stats().last_update, 0);
    assert_eq!(table.get_stats().total_routes, 3);
    table.clear();
    assert_eq!(table.get_stats().total_routes, 0);
}

#[test]
fn find_best_route_rejects_bad_text() {
    let mut table = RoutingTable::new();
    table.add_route(&route("0.0.0.0/0", "1.1.1.1", "eth1", 0, 5)).unwrap();
    assert!(table.find_best_route("256.1.1.1").is_none());
    assert!(table.find_best_route("1.2.3").is_none());
    assert!(table.find_best_route("01.2.3.4").is_none());
    assert!(table.find_best_route("1.2.3.4").is_some());
}

#[test]
fn distributions_by_protocol_and_interface() {
    let mut table = RoutingTable::new();
    table.add_route(&route("10.0.0.0/8", "1.1.1.1", "eth1", 8, 5)).unwrap();
    let mut bgp = route("20.0.0.0/16", "2.2.2.2", "eth2", 16, 20);
    bgp.protocol = "bgp".to_string();
    table.add_route(&bgp).unwrap();
    table.add_route(&route("30.0.0.0/24", "3.3.3.3", "eth1", 24, 40)).unwrap();
    assert_eq!(
        table.get_protocol_distribution(),
        vec![("static".to_string(), 2), ("bgp".to_string(), 1)]
    );
    assert_eq!(
        table.get_interface_distribution(),
        vec![("eth1".to_string(), 2), ("eth2".to_string(), 1)]
    );
    table.remove_route("20.0.0.0/16").unwrap();
    assert_eq!(table.get_protocol_distribution(), vec![("static".to_string(), 2)]);
}

#[test]
fn detailed_stats() {
    let mut table = RoutingTable::new();
    let empty = table.get_detailed_stats();
    assert_eq!(empty.average_metric, 0);
    assert_eq!(empty.total_updates, 0);
    table.add_route(&route("10.0.0.0/8", "1.1.1.1", "eth1", 8, 5)).unwrap();
    table.add_route(&route("20.0.0.0/8", "1.1.1.1", "eth1", 8, 5)).unwrap();
    table.add_route(&route("30.0.0.0/8", "1.1.1.1", "eth2", 8, 20)).unwrap();
    let d = table.get_detailed_stats();
    assert_eq!(d.basic_stats.total_routes, 3);
    assert_eq!(d.metric_distribution, vec![(5, 2), (20, 1)]);
    assert_eq!(d.average_metric, 10);
    assert_eq!(d.total_updates, 3);
    assert_eq!(d.interface_distribution, vec![("eth1".to_string(), 2), ("eth2".to_string(), 1)]);
}

#[test]
fn ipv6_routes_are_accepted_and_matched() {
    let mut table = RoutingTable::new();
    assert!(table.add_route(&route("::/0", "fe80::1", "eth6", 0, 100)).is_ok());
    assert!(table.add_route(&route("2001:db8::/32", "fe80::2", "eth7", 32, 5)).is_ok());
    assert!(table.add_route(&route("2001:db8::/129", "fe80::2", "eth7", 129, 5)).is_err());
    let inside = table.find_best_route("2001:db8:0:1::42").unwrap();
    assert_eq!(inside.destination, "2001:db8::/32");
    let outside = table.find_best_route("2001:dead::1").unwrap();
    assert_eq!(outside.gateway, "fe80::1");
    // the IPv6 default route does not catch IPv4 destinations
    assert!(table.find_best_route("10.0.0.1").is_none());
    assert!(table.matches_destination(
        IpAddress::V6(0x2001_0db8_ffff_0000_0000_0000_0000_0001),
        "2001:db8::/32"
    ));
    assert!(!table.matches_destination(IpAddress::V4(1), "::/0"));
    assert!(table.remove_route("2001:0db8:0000::/32").is_ok());
    assert_eq!(table.find_best_route("2001:db8::42").unwrap().gateway, "fe80::1");
    assert_eq!(table.get_stats().total_routes, 1);
}
