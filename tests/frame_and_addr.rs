use router_analytics::addr::{parse_cidr, parse_ip, parse_ipv4, parse_ipv6};
use router_analytics::frame::{format_address, parse_frame, DropReason, IpAddress};

fn ipv4_frame(proto: u8, src: [u8; 4], dst: [u8; 4], sport: u16, dport: u16) -> Vec<u8> {
    let mut f = vec![0u8; 12];
    f.extend_from_slice(&[0x08, 0x00]);
    let mut ip = vec![0u8; 20];
    ip[0] = 0x45;
    ip[1] = 46 << 2;
    ip[8] = 64;
    ip[9] = proto;
    ip[12..16].copy_from_slice(&src);
    ip[16..20].copy_from_slice(&dst);
    f.extend_from_slice(&ip);
    f.extend_from_slice(&sport.to_be_bytes());
    f.extend_from_slice(&dport.to_be_bytes());
    f.extend_from_slice(&[0u8; 16]);
    f
}

#[test]
fn parses_ipv4_tcp() {
    let f = ipv4_frame(6, [192, 168, 1, 1], [10, 0, 0, 5], 80, 8080);
    let p = parse_frame(&f).unwrap();
    assert_eq!(p.src, IpAddress::V4(0xc0a8_0101));
    assert_eq!(p.dst, IpAddress::V4(0x0a00_0005));
    assert_eq!(p.protocol, 6);
    assert_eq!(p.src_port, 80);
    assert_eq!(p.dst_port, 8080);
    assert_eq!(p.ttl, 64);
    assert_eq!(p.dscp, 46);
    assert_eq!(p.length, f.len());
}

#[test]
fn icmp_has_no_ports_and_unknown_protocols_pass() {
    let f = ipv4_frame(1, [1, 2, 3, 4], [5, 6, 7, 8], 0x1234, 0x5678);
    let p = parse_frame(&f).unwrap();
    assert_eq!((p.src_port, p.dst_port), (0, 0));
    let f = ipv4_frame(132, [1, 2, 3, 4], [5, 6, 7, 8], 1, 2);
    assert_eq!(parse_frame(&f).unwrap().protocol, 132);
}

#[test]
fn malformed_and_unsupported_frames() {
    assert_eq!(parse_frame(&[0u8; 13]), Err(DropReason::Malformed));
    let mut arp = vec![0u8; 60];
    arp[12] = 0x08;
    arp[13] = 0x06;
    assert_eq!(parse_frame(&arp), Err(DropReason::Unsupported));
    let mut f = ipv4_frame(6, [1, 2, 3, 4], [5, 6, 7, 8], 1, 2);
    f[14] = 0x65;
    assert_eq!(parse_frame(&f), Err(DropReason::Malformed));
    let f = ipv4_frame(6, [1, 2, 3, 4], [5, 6, 7, 8], 1, 2);
    assert_eq!(parse_frame(&f[..36]), Err(DropReason::Malformed));
    let mut f = ipv4_frame(6, [1, 2, 3, 4], [5, 6, 7, 8], 1, 2);
    f[14] = 0x44;
    assert_eq!(parse_frame(&f), Err(DropReason::Malformed));
}

#[test]
fn parses_ipv6_udp() {
    let mut f = vec![0u8; 12];
    f.extend_from_slice(&[0x86, 0xdd]);
    let mut ip = vec![0u8; 40];
    ip[0] = 0x6b;
    ip[1] = 0x80;
    ip[6] = 17;
    ip[7] = 32;
    ip[8] = 0x20;
    ip[9] = 0x01;
    ip[23] = 1;
    ip[39] = 2;
    f.extend_from_slice(&ip);
    f.extend_from_slice(&[0, 53, 0x13, 0x88]);
    let p = parse_frame(&f).unwrap();
    assert_eq!(p.src, IpAddress::V6(0x2001_0000_0000_0000_0000_0000_0000_0001));
    assert_eq!(p.dst, IpAddress::V6(2));
    assert_eq!(p.protocol, 17);
    assert_eq!(p.src_port, 53);
    assert_eq!(p.dst_port, 5000);
    assert_eq!(p.ttl, 32);
    assert_eq!(p.dscp, 0xb8 >> 2);
}

#[test]
fn address_text() {
    assert_eq!(format_address(IpAddress::V4(0xc0a8_0164)), "192.168.1.100");
    assert_eq!(format_address(IpAddress::V4(0x0a00_0005)), "10.0.0.5");
    assert_eq!(
        format_address(IpAddress::V6(0x2001_0db8_0000_0000_0000_0000_0000_00ff)),
        "2001:0db8:0000:0000:0000:0000:0000:00ff"
    );
}

#[test]
fn dotted_quad_and_cidr_text() {
    assert_eq!(parse_ipv4("192.168.1.100"), Some(0xc0a8_0164));
    assert_eq!(parse_ipv4("0.0.0.0"), Some(0));
    assert_eq!(parse_ipv4("255.255.255.255"), Some(u32::MAX));
    assert_eq!(parse_ipv4("1.2.3.256"), None);
    assert_eq!(parse_ipv4("1.2.3.4.5"), None);
    assert_eq!(parse_ipv4("1..3.4"), None);
    assert_eq!(parse_ipv4("a.b.c.d"), None);
    assert_eq!(parse_ipv4(""), None);
    assert_eq!(parse_cidr("10.0.0.0/24"), Some((IpAddress::V4(0x0a00_0000), 24)));
    assert_eq!(parse_cidr("0.0.0.0/0"), Some((IpAddress::V4(0), 0)));
    assert_eq!(parse_cidr("::/0"), Some((IpAddress::V6(0), 0)));
    assert_eq!(parse_cidr("2001:db8::/128"), Some((IpAddress::V6(0x2001_0db8 << 96), 128)));
    assert_eq!(parse_cidr("2001:db8::/129"), None);
    assert_eq!(parse_cidr("10.0.0.0/33"), None);
    assert_eq!(parse_cidr("10.0.0.0"), None);
    assert_eq!(parse_cidr("10.0.0.0/8/8"), None);
}

#[test]
fn ipv6_text() {
    assert_eq!(parse_ipv6("::"), Some(0));
    assert_eq!(parse_ipv6("::1"), Some(1));
    assert_eq!(parse_ipv6("2001:db8::1"), Some((0x2001_0db8u128 << 96) | 1));
    assert_eq!(parse_ipv6("2001:DB8:0:0:0:0:0:1"), Some((0x2001_0db8u128 << 96) | 1));
    assert_eq!(parse_ipv6("fe80::"), Some(0xfe80u128 << 112));
    assert_eq!(parse_ipv6("1:2:3:4:5:6:7:8"), Some(0x0001_0002_0003_0004_0005_0006_0007_0008));
    assert_eq!(parse_ipv6("1:2:3:4:5:6:7"), None);
    assert_eq!(parse_ipv6("1:2:3:4:5:6:7:8:9"), None);
    assert_eq!(parse_ipv6("1::2::3"), None);
    assert_eq!(parse_ipv6("1:::2"), None);
    assert_eq!(parse_ipv6("12345::"), None);
    assert_eq!(parse_ipv6("1:2:3:4::5:6:7:8"), None);
    assert_eq!(parse_ipv6("g::"), None);
    assert_eq!(parse_ip("10.1.2.3"), Some(IpAddress::V4(0x0a01_0203)));
    assert_eq!(parse_ip("::ffff"), Some(IpAddress::V6(0xffff)));
    assert_eq!(parse_ip("nonsense"), None);
}
