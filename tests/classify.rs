use router_analytics::classify::{classify_traffic, detect_application, service_port};

#[test]
fn application_labels() {
    assert_eq!(detect_application(6, 80), "HTTP");
    assert_eq!(detect_application(6, 443), "HTTPS");
    assert_eq!(detect_application(6, 8080), "TCP");
    assert_eq!(detect_application(17, 53), "DNS");
    assert_eq!(detect_application(17, 9999), "UDP");
    assert_eq!(detect_application(1, 0), "ICMP");
    assert_eq!(detect_application(89, 0), "OSPF");
    assert_eq!(detect_application(200, 80), "Unknown");
}

#[test]
fn traffic_classes() {
    assert_eq!(classify_traffic(46, 17), "EF");
    assert_eq!(classify_traffic(0, 6), "Best Effort");
    assert_eq!(classify_traffic(10, 6), "AF11");
    assert_eq!(classify_traffic(3, 6), "Unknown");
}

#[test]
fn service_port_prefers_known_destination() {
    assert_eq!(service_port(6, 80, 8080), 80);
    assert_eq!(service_port(6, 12345, 80), 80);
    assert_eq!(service_port(17, 53, 53000), 53);
    assert_eq!(service_port(1, 7, 9), 7);
}
