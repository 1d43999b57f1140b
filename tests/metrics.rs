use router_analytics::MetricsCollector;

#[test]
fn test_metrics_collector_creation() {
    let collector = MetricsCollector::new();
    let metrics = collector.get_metrics();
    assert_eq!(metrics.packets_processed, 0);
    assert_eq!(metrics.bytes_processed, 0);
}

#[test]
fn test_metrics_recording() {
    let mut collector = MetricsCollector::new();

    collector.record_packet_processed(1500);
    collector.record_packet_processed(1000);
    collector.record_packet_dropped();
    collector.record_error();
    collector.record_latency(1000);
    collector.record_latency(2000);

    let metrics = collector.get_metrics();
    assert_eq!(metrics.packets_processed, 2);
    assert_eq!(metrics.bytes_processed, 2500);
    assert_eq!(metrics.packets_dropped, 1);
    assert_eq!(metrics.errors, 1);
    assert_eq!(metrics.average_latency_ns, 1500);
    assert_eq!(metrics.max_latency_ns, 2000);
    assert_eq!(metrics.min_latency_ns, 1000);
}

#[test]
fn test_metrics_reset() {
    let mut collector = MetricsCollector::new();

    collector.record_packet_processed(1500);
    collector.record_packet_dropped();

    let metrics_before = collector.get_metrics();
    assert_eq!(metrics_before.packets_processed, 1);
    assert_eq!(metrics_before.packets_dropped, 1);

    collector.reset();

    let metrics_after = collector.get_metrics();
    assert_eq!(metrics_after.packets_processed, 0);
    assert_eq!(metrics_after.packets_dropped, 0);
}

#[test]
fn latency_summary_of_two_samples() {
    let mut c = MetricsCollector::new_at(0);
    c.record_latency(1000);
    c.record_latency(2000);
    let m = c.get_metrics_at(0);
    assert_eq!(m.average_latency_ns, 1500);
    assert_eq!(m.max_latency_ns, 2000);
    assert_eq!(m.min_latency_ns, 1000);
}

#[test]
fn extremes_bound_every_sample() {
    let mut c = MetricsCollector::new_at(0);
    let samples = [500u64, 30, 9000, 30, 77];
    for s in samples {
        c.record_latency(s);
        let m = c.get_metrics_at(0);
        assert!(m.max_latency_ns >= s);
        assert!(m.min_latency_ns <= s);
    }
    let m = c.get_metrics_at(0);
    assert_eq!(m.max_latency_ns, 9000);
    assert_eq!(m.min_latency_ns, 30);
    assert_eq!(m.average_latency_ns, 9637 / 5);
}

#[test]
fn counters_never_go_down() {
    let mut c = MetricsCollector::new_at(0);
    let mut last = c.get_metrics_at(0);
    for i in 0..20u64 {
        match i % 4 {
            0 => c.record_packet_processed(i * 100),
            1 => c.record_packet_dropped(),
            2 => c.record_packet_forwarded(),
            _ => c.record_packet_routed(),
        }
        let now = c.get_metrics_at(0);
        assert!(now.packets_processed >= last.packets_processed);
        assert!(now.bytes_processed >= last.bytes_processed);
        assert!(now.packets_dropped >= last.packets_dropped);
        last = now;
    }
    assert_eq!(last.packets_forwarded, 5);
    assert_eq!(last.packets_routed, 5);
}

#[test]
fn counters_saturate() {
    let mut c = MetricsCollector::new_at(0);
    c.record_packet_processed(u64::MAX);
    c.record_packet_processed(5);
    let m = c.get_metrics_at(0);
    assert_eq!(m.bytes_processed, u64::MAX);
    assert_eq!(m.packets_processed, 2);
}

#[test]
fn rates_per_second_of_uptime() {
    let mut c = MetricsCollector::new_at(1_000);
    c.record_packet_processed(400);
    c.record_packet_processed(600);
    let m = c.get_metrics_at(3_500);
    assert_eq!(m.uptime_seconds, 2);
    assert_eq!(m.packets_per_second, 1);
    assert_eq!(m.bytes_per_second, 500);
    let early = c.get_metrics_at(1_500);
    assert_eq!(early.packets_per_second, 0);
    let empty = MetricsCollector::new_at(0).get_metrics_at(0);
    assert_eq!(empty.average_latency_ns, 0);
    assert_eq!(empty.min_latency_ns, 0);
}
