use router_analytics::history::{RouteHistory, RouteMetrics, ROUTE_HISTORY_LEN};

fn record(i: u64) -> RouteMetrics {
    RouteMetrics {
        timestamp_ms: i,
        network: "10.0.0.0".to_string(),
        prefix_length: 24,
        next_hop: "10.0.0.1".to_string(),
        metric: 1,
        protocol: "static".to_string(),
        as_path_length: 0,
        communities: String::new(),
        is_active: true,
        age_ms: 0,
        packet_count: 0,
        byte_count: 0,
    }
}

#[test]
fn history_keeps_the_latest_records() {
    let mut h = RouteHistory::new();
    for i in 0..(ROUTE_HISTORY_LEN as u64 + 5) {
        h.add_route_metrics(record(i));
    }
    let kept = h.get_route_metrics();
    assert_eq!(kept.len(), ROUTE_HISTORY_LEN);
    assert_eq!(kept[0].timestamp_ms, 5);
    assert_eq!(kept[ROUTE_HISTORY_LEN - 1].timestamp_ms, ROUTE_HISTORY_LEN as u64 + 4);
}

#[test]
fn short_history_keeps_everything() {
    let mut h = RouteHistory::new();
    h.add_route_metrics(record(1));
    h.add_route_metrics(record(2));
    let kept = h.get_route_metrics();
    assert_eq!(kept.len(), 2);
    assert_eq!(kept[1].timestamp_ms, 2);
}
