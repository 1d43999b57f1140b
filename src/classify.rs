//! Analytics tagging of traffic: an application label from the transport
//! protocol and port, and a traffic class from the DSCP code point. These
//! labels never influence a forwarding decision.
use vstd::prelude::*;

verus! {

/// IP protocol number of TCP.
pub const PROTO_TCP: u8 = 6;

/// IP protocol number of UDP.
pub const PROTO_UDP: u8 = 17;

/// IP protocol number of ICMP.
pub const PROTO_ICMP: u8 = 1;

/// Application label of a TCP service port.
pub open spec fn tcp_service(port: u16) -> Seq<char> {
    match port {
        80 => "HTTP"@,
        443 => "HTTPS"@,
        22 => "SSH"@,
        23 => "Telnet"@,
        25 => "SMTP"@,
        53 => "DNS"@,
        110 => "POP3"@,
        143 => "IMAP"@,
        993 => "IMAPS"@,
        995 => "POP3S"@,
        3389 => "RDP"@,
        5900 => "VNC"@,
        _ => "TCP"@,
    }
}

/// Application label of a UDP service port.
pub open spec fn udp_service(port: u16) -> Seq<char> {
    match port {
        53 => "DNS"@,
        67 => "DHCP"@,
        68 => "DHCP"@,
        123 => "NTP"@,
        161 => "SNMP"@,
        162 => "SNMP"@,
        500 => "IKE"@,
        4500 => "IPsec"@,
        _ => "UDP"@,
    }
}

/// Application label of a packet with the given IP protocol number and
/// destination port.
pub open spec fn application_label(protocol: u8, port: u16) -> Seq<char> {
    match protocol {
        6 => tcp_service(port),
        17 => udp_service(port),
        1 => "ICMP"@,
        2 => "IGMP"@,
        41 => "IPv6"@,
        47 => "GRE"@,
        50 => "ESP"@,
        51 => "AH"@,
        89 => "OSPF"@,
        _ => "Unknown"@,
    }
}

/// Traffic class of a DSCP code point (RFC 2474 / 2597 / 3246 names).
pub open spec fn traffic_class_label(dscp: u8) -> Seq<char> {
    match dscp {
        0 => "Best Effort"@,
        10 => "AF11"@,
        12 => "AF12"@,
        14 => "AF13"@,
        18 => "AF21"@,
        20 => "AF22"@,
        22 => "AF23"@,
        26 => "AF31"@,
        28 => "AF32"@,
        30 => "AF33"@,
        34 => "AF41"@,
        36 => "AF42"@,
        38 => "AF43"@,
        46 => "EF"@,
        48 => "CS6"@,
        56 => "CS7"@,
        _ => "Unknown"@,
    }
}

/// The port is one of the TCP services that have a label of their own.
pub open spec fn tcp_known(port: u16) -> bool {
    port == 80 || port == 443 || port == 22 || port == 23 || port == 25 || port == 53 || port
        == 110 || port == 143 || port == 993 || port == 995 || port == 3389 || port == 5900
}

/// The port is one of the UDP services that have a label of their own.
pub open spec fn udp_known(port: u16) -> bool {
    port == 53 || port == 67 || port == 68 || port == 123 || port == 161 || port == 162 || port
        == 500 || port == 4500
}

/// The port that names the service of a conversation: the destination port
/// when it is a known service of the protocol, the source port otherwise (a
/// reply from a server).
pub open spec fn service_port_of(protocol: u8, source_port: u16, dest_port: u16) -> u16 {
    if (protocol == 6 && tcp_known(dest_port)) || (protocol == 17 && udp_known(dest_port)) {
        dest_port
    } else {
        source_port
    }
}

/// The port that names the service of a conversation (see
/// `service_port_of`).
pub fn service_port(protocol: u8, source_port: u16, dest_port: u16) -> (r: u16)
    ensures
        r == service_port_of(protocol, source_port, dest_port),
{
    let p = dest_port;
    let tcp = p == 80 || p == 443 || p == 22 || p == 23 || p == 25 || p == 53 || p == 110 || p
        == 143 || p == 993 || p == 995 || p == 3389 || p == 5900;
    let udp = p == 53 || p == 67 || p == 68 || p == 123 || p == 161 || p == 162 || p == 500 || p
        == 4500;
    if (protocol == 6 && tcp) || (protocol == 17 && udp) {
        dest_port
    } else {
        source_port
    }
}

/// Application label of a conversation of IP protocol `protocol` between
/// `source_port` and `dest_port`.
pub open spec fn conversation_label(protocol: u8, source_port: u16, dest_port: u16) -> Seq<char> {
    application_label(protocol, service_port_of(protocol, source_port, dest_port))
}

fn owned(s: &str) -> (r: String)
    ensures
        r@ == s@,
{
    s.to_string()
}

fn tcp_service_name(port: u16) -> (r: String)
    ensures
        r@ == tcp_service(port),
{
    match port {
        80 => owned("HTTP"),
        443 => owned("HTTPS"),
        22 => owned("SSH"),
        23 => owned("Telnet"),
        25 => owned("SMTP"),
        53 => owned("DNS"),
        110 => owned("POP3"),
        143 => owned("IMAP"),
        993 => owned("IMAPS"),
        995 => owned("POP3S"),
        3389 => owned("RDP"),
        5900 => owned("VNC"),
        _ => owned("TCP"),
    }
}

fn udp_service_name(port: u16) -> (r: String)
    ensures
        r@ == udp_service(port),
{
    match port {
        53 => owned("DNS"),
        67 => owned("DHCP"),
        68 => owned("DHCP"),
        123 => owned("NTP"),
        161 => owned("SNMP"),
        162 => owned("SNMP"),
        500 => owned("IKE"),
        4500 => owned("IPsec"),
        _ => owned("UDP"),
    }
}

/// Application label for traffic of IP protocol `protocol` towards `port`
/// (well-known TCP and UDP services, then the protocol's own name).
pub fn detect_application(protocol: u8, port: u16) -> (r: String)
    ensures
        r@ == application_label(protocol, port),
{
    match protocol {
        6 => tcp_service_name(port),
        17 => udp_service_name(port),
        1 => owned("ICMP"),
        2 => owned("IGMP"),
        41 => owned("IPv6"),
        47 => owned("GRE"),
        50 => owned("ESP"),
        51 => owned("AH"),
        89 => owned("OSPF"),
        _ => owned("Unknown"),
    }
}

/// Traffic class of a DSCP code point; the protocol does not enter into it.
pub fn classify_traffic(dscp: u8, protocol: u8) -> (r: String)
    ensures
        r@ == traffic_class_label(dscp),
{
    match dscp {
        0 => owned("Best Effort"),
        10 => owned("AF11"),
        12 => owned("AF12"),
        14 => owned("AF13"),
        18 => owned("AF21"),
        20 => owned("AF22"),
        22 => owned("AF23"),
        26 => owned("AF31"),
        28 => owned("AF32"),
        30 => owned("AF33"),
        34 => owned("AF41"),
        36 => owned("AF42"),
        38 => owned("AF43"),
        46 => owned("EF"),
        48 => owned("CS6"),
        56 => owned("CS7"),
        _ => owned("Unknown"),
    }
}

} // verus!
