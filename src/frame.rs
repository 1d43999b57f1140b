//! Layered parsing of a captured Ethernet frame: the link layer, then IPv4 or
//! IPv6 by ethertype and version, then the TCP or UDP ports. Checksums are
//! not verified. Also the text forms of the parsed addresses.
use vstd::prelude::*;
pub use crate::addr::IpAddress;

verus! {

pub const ETHERNET_HEADER_LEN: usize = 14;

pub const ETHERTYPE_IPV4: u16 = 0x0800;

pub const ETHERTYPE_IPV6: u16 = 0x86dd;

/// Why a packet is not delivered.
#[derive(Debug, Clone, Copy, PartialEq, Eq, Structural)]
pub enum DropReason {
    Malformed,
    NoRoute,
    Unsupported,
    RateLimited,
}

/// The header fields that the data plane uses.
#[derive(Debug, Clone, Copy, PartialEq, Eq, Structural)]
pub struct ParsedFrame {
    pub ethertype: u16,
    pub src: IpAddress,
    pub dst: IpAddress,
    pub protocol: u8,
    pub src_port: u16,
    pub dst_port: u16,
    pub ttl: u8,
    pub dscp: u8,
    pub length: usize,
}

/// Big-endian value of the bytes `s`.
pub open spec fn be_value(s: Seq<u8>) -> nat
    decreases s.len(),
{
    if s.len() == 0 {
        0
    } else {
        be_value(s.drop_last()) * 256 + s.last() as nat
    }
}

pub open spec fn pow256(n: nat) -> nat
    decreases n,
{
    if n == 0 {
        1
    } else {
        256 * pow256((n - 1) as nat)
    }
}

/// Big-endian 16-bit field at byte `i`.
pub open spec fn be16(b: Seq<u8>, i: int) -> u16 {
    (b[i] as int * 256 + b[i + 1] as int) as u16
}

/// Ports of the transport header at byte `l4` for IP protocol `protocol`:
/// TCP and UDP carry them in their first four bytes; other protocols pass
/// through without ports.
pub open spec fn transport_ports(b: Seq<u8>, l4: int, protocol: u8) -> Result<
    (u16, u16),
    DropReason,
> {
    if protocol == 6 || protocol == 17 {
        if b.len() - l4 >= 4 {
            Ok((be16(b, l4), be16(b, l4 + 2)))
        } else {
            Err(DropReason::Malformed)
        }
    } else {
        Ok((0, 0))
    }
}

/// What parsing the frame `b` gives.
pub open spec fn frame_spec(b: Seq<u8>) -> Result<ParsedFrame, DropReason> {
    if b.len() < 14 {
        Err(DropReason::Malformed)
    } else if be16(b, 12) == ETHERTYPE_IPV4 {
        let ihl = (b[14] % 16) as int * 4;
        if b.len() < 34 || b[14] / 16 != 4 || ihl < 20 || b.len() < 14 + ihl {
            Err(DropReason::Malformed)
        } else {
            match transport_ports(b, 14 + ihl, b[23]) {
                Err(e) => Err(e),
                Ok((sp, dp)) => Ok(
                    ParsedFrame {
                        ethertype: ETHERTYPE_IPV4,
                        src: IpAddress::V4(be_value(b.subrange(26, 30)) as u32),
                        dst: IpAddress::V4(be_value(b.subrange(30, 34)) as u32),
                        protocol: b[23],
                        src_port: sp,
                        dst_port: dp,
                        ttl: b[22],
                        dscp: b[15] / 4,
                        length: b.len() as usize,
                    },
                ),
            }
        }
    } else if be16(b, 12) == ETHERTYPE_IPV6 {
        if b.len() < 54 || b[14] / 16 != 6 {
            Err(DropReason::Malformed)
        } else {
            match transport_ports(b, 54, b[20]) {
                Err(e) => Err(e),
                Ok((sp, dp)) => Ok(
                    ParsedFrame {
                        ethertype: ETHERTYPE_IPV6,
                        src: IpAddress::V6(be_value(b.subrange(22, 38)) as u128),
                        dst: IpAddress::V6(be_value(b.subrange(38, 54)) as u128),
                        protocol: b[20],
                        src_port: sp,
                        dst_port: dp,
                        ttl: b[21],
                        dscp: (((b[14] % 16) as int * 16 + b[15] as int / 16) / 4) as u8,
                        length: b.len() as usize,
                    },
                ),
            }
        }
    } else {
        Err(DropReason::Unsupported)
    }
}

fn read_be(b: &[u8], lo: usize, n: usize) -> (r: u128)
    requires
        lo + n <= b@.len(),
        n <= 16,
    ensures
        r as nat == be_value(b@.subrange(lo as int, lo + n)),
        r < pow256(n as nat),
{
    let mut acc: u128 = 0;
    let mut k: usize = 0;
    let len = b.len();
    assert(b@.subrange(lo as int, lo as int) =~= Seq::<u8>::empty());
    while k < n
        invariant
            k <= n <= 16,
            len == b@.len(),
            lo + n <= len,
            acc as nat == be_value(b@.subrange(lo as int, lo + k)),
            acc < pow256(k as nat),
        decreases n - k,
    {
        let x = b[lo + k];
        proof {
            assert(b@.subrange(lo as int, lo + k + 1).drop_last() =~= b@.subrange(
                lo as int,
                lo + k,
            ));
            lemma_pow256_bound(k as nat);
            assert((acc as nat) * 256 + (x as nat) < pow256((k + 1) as nat)) by (nonlinear_arith)
                requires
                    acc < pow256(k as nat),
                    x < 256,
                    pow256((k + 1) as nat) == 256 * pow256(k as nat),
            ;
        }
        acc = acc * 256 + x as u128;
        k = k + 1;
    }
    acc
}

proof fn lemma_pow256_bound(k: nat)
    requires
        k < 16,
    ensures
        pow256(k + 1) <= 0x1_0000_0000_0000_0000_0000_0000_0000_0000,
        pow256(k + 1) == 256 * pow256(k),
    decreases k,
{
    reveal_with_fuel(pow256, 17);
}

proof fn lemma_pow256_pos(n: nat)
    ensures
        pow256(n) >= 1,
    decreases n,
{
    if n > 0 {
        lemma_pow256_pos((n - 1) as nat);
    }
}

fn be16_at(b: &[u8], i: usize) -> (r: u16)
    requires
        i + 2 <= b@.len(),
    ensures
        r == be16(b@, i as int),
{
    b[i] as u16 * 256 + b[i + 1] as u16
}

fn ports(b: &[u8], l4: usize, protocol: u8) -> (r: Result<(u16, u16), DropReason>)
    requires
        l4 <= b@.len(),
    ensures
        r == transport_ports(b@, l4 as int, protocol),
{
    if protocol == 6 || protocol == 17 {
        if b.len() - l4 >= 4 {
            Ok((be16_at(b, l4), be16_at(b, l4 + 2)))
        } else {
            Err(DropReason::Malformed)
        }
    } else {
        Ok((0, 0))
    }
}

/// Parses a captured frame.
pub fn parse_frame(b: &[u8]) -> (r: Result<ParsedFrame, DropReason>)
    ensures
        r == frame_spec(b@),
{
    if b.len() < ETHERNET_HEADER_LEN {
        return Err(DropReason::Malformed);
    }
    let ethertype = be16_at(b, 12);
    if ethertype == ETHERTYPE_IPV4 {
        if b.len() < 34 {
            return Err(DropReason::Malformed);
        }
        let ihl = (b[14] % 16) as usize * 4;
        if b[14] / 16 != 4 || ihl < 20 || b.len() < 14 + ihl {
            return Err(DropReason::Malformed);
        }
        let protocol = b[23];
        match ports(b, 14 + ihl, protocol) {
            Err(e) => Err(e),
            Ok((sp, dp)) => {
                let src = read_be(b, 26, 4);
                let dst = read_be(b, 30, 4);
                proof {
                    reveal_with_fuel(pow256, 5);
                }
                Ok(
                    ParsedFrame {
                        ethertype: ETHERTYPE_IPV4,
                        src: IpAddress::V4(src as u32),
                        dst: IpAddress::V4(dst as u32),
                        protocol,
                        src_port: sp,
                        dst_port: dp,
                        ttl: b[22],
                        dscp: b[15] / 4,
                        length: b.len(),
                    },
                )
            },
        }
    } else if ethertype == ETHERTYPE_IPV6 {
        if b.len() < 54 || b[14] / 16 != 6 {
            return Err(DropReason::Malformed);
        }
        let protocol = b[20];
        match ports(b, 54, protocol) {
            Err(e) => Err(e),
            Ok((sp, dp)) => {
                let src = read_be(b, 22, 16);
                let dst = read_be(b, 38, 16);
                let traffic_class = (b[14] % 16) * 16 + b[15] / 16;
                Ok(
                    ParsedFrame {
                        ethertype: ETHERTYPE_IPV6,
                        src: IpAddress::V6(src),
                        dst: IpAddress::V6(dst),
                        protocol,
                        src_port: sp,
                        dst_port: dp,
                        ttl: b[21],
                        dscp: traffic_class / 4,
                        length: b.len(),
                    },
                )
            },
        }
    } else {
        Err(DropReason::Unsupported)
    }
}

/// Text of one decimal digit.
pub open spec fn digit_text(d: int) -> Seq<char> {
    if d == 0 {
        "0"@
    } else if d == 1 {
        "1"@
    } else if d == 2 {
        "2"@
    } else if d == 3 {
        "3"@
    } else if d == 4 {
        "4"@
    } else if d == 5 {
        "5"@
    } else if d == 6 {
        "6"@
    } else if d == 7 {
        "7"@
    } else if d == 8 {
        "8"@
    } else {
        "9"@
    }
}

/// Text of one hexadecimal digit, lower case.
pub open spec fn hex_digit_text(d: int) -> Seq<char> {
    if d < 10 {
        digit_text(d)
    } else if d == 10 {
        "a"@
    } else if d == 11 {
        "b"@
    } else if d == 12 {
        "c"@
    } else if d == 13 {
        "d"@
    } else if d == 14 {
        "e"@
    } else {
        "f"@
    }
}

/// Decimal text of a number, without leading zeros.
pub open spec fn decimal_text(n: nat) -> Seq<char>
    decreases n,
{
    if n < 10 {
        digit_text(n as int)
    } else {
        decimal_text(n / 10) + digit_text((n % 10) as int)
    }
}

/// Appends the decimal text of `n`.
pub fn push_decimal(s: &mut String, n: u64)
    ensures
        final(s)@ == old(s)@ + decimal_text(n as nat),
    decreases n,
{
    let ghost s0 = s@;
    if n >= 10 {
        push_decimal(s, n / 10);
    }
    push_digit(s, (n % 10) as u32);
    assert(s@ =~= s0 + decimal_text(n as nat));
}

/// Decimal text of an octet, without leading zeros.
pub open spec fn octet_decimal(v: int) -> Seq<char> {
    if v >= 100 {
        digit_text(v / 100) + digit_text((v / 10) % 10) + digit_text(v % 10)
    } else if v >= 10 {
        digit_text(v / 10) + digit_text(v % 10)
    } else {
        digit_text(v)
    }
}

/// Four lower-case hex digits of a 16-bit group.
pub open spec fn group_hex(v: int) -> Seq<char> {
    hex_digit_text(v / 4096) + hex_digit_text((v / 256) % 16) + hex_digit_text((v / 16) % 16)
        + hex_digit_text(v % 16)
}

/// Dotted-quad text of an IPv4 address.
pub open spec fn ipv4_text(a: u32) -> Seq<char> {
    octet_decimal((a / 0x100_0000) as int) + "."@ + octet_decimal(((a / 0x1_0000) % 256) as int)
        + "."@ + octet_decimal(((a / 0x100) % 256) as int) + "."@ + octet_decimal((a % 256) as int)
}

/// Text of an IPv6 address: eight groups of four hex digits joined by
/// colons.
pub open spec fn ipv6_text_from(a: u128, k: nat) -> Seq<char>
    decreases 8 - k,
{
    if k >= 8 {
        Seq::empty()
    } else {
        let g = ((a as int / pow256((2 * (7 - k)) as nat) as int) % 65536) as int;
        let sep = if k == 0 {
            Seq::empty()
        } else {
            ":"@
        };
        sep + group_hex(g) + ipv6_text_from(a, k + 1)
    }
}

pub open spec fn address_text(a: IpAddress) -> Seq<char> {
    match a {
        IpAddress::V4(x) => ipv4_text(x),
        IpAddress::V6(x) => ipv6_text_from(x, 0),
    }
}

fn push_digit(s: &mut String, d: u32)
    requires
        d < 10,
    ensures
        final(s)@ == old(s)@ + digit_text(d as int),
{
    let t = if d == 0 {
        "0"
    } else if d == 1 {
        "1"
    } else if d == 2 {
        "2"
    } else if d == 3 {
        "3"
    } else if d == 4 {
        "4"
    } else if d == 5 {
        "5"
    } else if d == 6 {
        "6"
    } else if d == 7 {
        "7"
    } else if d == 8 {
        "8"
    } else {
        "9"
    };
    s.append(t);
}

fn push_hex_digit(s: &mut String, d: u32)
    requires
        d < 16,
    ensures
        final(s)@ == old(s)@ + hex_digit_text(d as int),
{
    if d < 10 {
        push_digit(s, d);
    } else {
        let t = if d == 10 {
            "a"
        } else if d == 11 {
            "b"
        } else if d == 12 {
            "c"
        } else if d == 13 {
            "d"
        } else if d == 14 {
            "e"
        } else {
            "f"
        };
        s.append(t);
    }
}

fn push_octet(s: &mut String, v: u32)
    requires
        v < 256,
    ensures
        final(s)@ == old(s)@ + octet_decimal(v as int),
{
    let ghost s0 = s@;
    if v >= 100 {
        push_digit(s, v / 100);
        push_digit(s, (v / 10) % 10);
        push_digit(s, v % 10);
        assert(s@ =~= s0 + octet_decimal(v as int));
    } else if v >= 10 {
        push_digit(s, v / 10);
        push_digit(s, v % 10);
        assert(s@ =~= s0 + octet_decimal(v as int));
    } else {
        push_digit(s, v);
    }
}

fn push_group(s: &mut String, v: u32)
    requires
        v < 65536,
    ensures
        final(s)@ == old(s)@ + group_hex(v as int),
{
    let ghost s0 = s@;
    push_hex_digit(s, v / 4096);
    push_hex_digit(s, (v / 256) % 16);
    push_hex_digit(s, (v / 16) % 16);
    push_hex_digit(s, v % 16);
    assert(s@ =~= s0 + group_hex(v as int));
}

/// Text of an address: dotted quad for IPv4, eight colon-separated groups
/// of four hex digits for IPv6.
pub fn format_address(a: IpAddress) -> (r: String)
    ensures
        r@ == address_text(a),
{
    let mut s = String::new();
    match a {
        IpAddress::V4(x) => {
            push_octet(&mut s, x / 0x100_0000);
            s.append(".");
            push_octet(&mut s, (x / 0x1_0000) % 256);
            s.append(".");
            push_octet(&mut s, (x / 0x100) % 256);
            s.append(".");
            push_octet(&mut s, x % 256);
            assert(s@ =~= ipv4_text(x));
        },
        IpAddress::V6(x) => {
            let mut k: u32 = 0;
            let mut div: u128 = 0x1_0000_0000_0000_0000_0000_0000_0000;
            proof {
                reveal_with_fuel(pow256, 15);
                assert(div as int == pow256(14) as int);
            }
            while k < 8
                invariant
                    k <= 8,
                    k < 8 ==> div as int == pow256((2 * (7 - k)) as nat) as int,
                    k < 8 ==> div >= 1,
                    s@ + ipv6_text_from(x, k as nat) == ipv6_text_from(x, 0),
                decreases 8 - k,
            {
                let ghost before = s@;
                let g = ((x / div) % 65536) as u32;
                if k > 0 {
                    s.append(":");
                }
                push_group(&mut s, g);
                proof {
                    assert(s@ + ipv6_text_from(x, (k + 1) as nat) =~= before + ipv6_text_from(
                        x,
                        k as nat,
                    ));
                    if k < 7 {
                        reveal_with_fuel(pow256, 3);
                        lemma_pow256_pos((2 * (7 - (k + 1))) as nat);
                        assert(pow256((2 * (7 - k)) as nat) == 65536 * pow256(
                            (2 * (7 - (k + 1))) as nat,
                        ));
                    }
                }
                if k < 7 {
                    div = div / 65536;
                }
                k = k + 1;
            }
            assert(ipv6_text_from(x, 8) =~= Seq::<char>::empty());
            assert(s@ =~= ipv6_text_from(x, 0));
        },
    }
    s
}

} // verus!
