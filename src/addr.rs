//! Text forms of addresses and prefixes: dotted-quad IPv4 addresses such as
//! `192.168.1.7`, IPv6 addresses such as `2001:db8::1` (RFC 4291, without
//! an embedded IPv4 tail), and CIDR prefixes such as `10.0.0.0/24` or
//! `2001:db8::/32`.
use vstd::prelude::*;

verus! {

pub open spec fn is_digit(c: char) -> bool {
    '0' <= c && c <= '9'
}

pub open spec fn digit_value(c: char) -> int {
    c as int - '0' as int
}

/// Value of a string of decimal digits.
pub open spec fn decimal_value(s: Seq<char>) -> int
    decreases s.len(),
{
    if s.len() == 0 {
        0
    } else {
        decimal_value(s.drop_last()) * 10 + digit_value(s.last())
    }
}

/// A decimal numeral of one to three digits, with no leading zero unless it
/// is `0` itself.
pub open spec fn short_numeral(s: Seq<char>) -> bool {
    &&& 1 <= s.len() <= 3
    &&& forall|i: int| 0 <= i < s.len() ==> is_digit(#[trigger] s[i])
    &&& (s.len() == 1 || s[0] != '0')
}

/// The pieces of `s` between occurrences of `sep` (one more piece than there
/// are separators).
pub open spec fn fields(s: Seq<char>, sep: char) -> Seq<Seq<char>>
    decreases s.len(),
{
    if s.len() == 0 {
        seq![Seq::empty()]
    } else {
        let f = fields(s.drop_last(), sep);
        if s.last() == sep {
            f.push(Seq::empty())
        } else {
            f.update(f.len() - 1, f.last().push(s.last()))
        }
    }
}

/// An octet numeral: a short numeral of value at most 255.
pub open spec fn octet_text(s: Seq<char>) -> bool {
    short_numeral(s) && decimal_value(s) <= 255
}

/// The address that a dotted quad denotes: four octet numerals separated by
/// dots, the first the most significant.
pub open spec fn ipv4_of(s: Seq<char>) -> Option<u32> {
    let f = fields(s, '.');
    if f.len() == 4 && octet_text(f[0]) && octet_text(f[1]) && octet_text(f[2]) && octet_text(
        f[3],
    ) {
        Some(
            (decimal_value(f[0]) * 0x100_0000 + decimal_value(f[1]) * 0x1_0000 + decimal_value(f[2])
                * 0x100 + decimal_value(f[3])) as u32,
        )
    } else {
        None
    }
}

/// An IPv4 or IPv6 address, most significant byte first.
#[derive(Debug, Clone, Copy, PartialEq, Eq, Structural)]
pub enum IpAddress {
    V4(u32),
    V6(u128),
}

/// Longest prefix of an address family: 32 bits for IPv4, 128 for IPv6.
pub open spec fn max_prefix(a: IpAddress) -> int {
    match a {
        IpAddress::V4(_) => 32,
        IpAddress::V6(_) => 128,
    }
}

pub open spec fn is_hex_digit(c: char) -> bool {
    ('0' <= c && c <= '9') || ('a' <= c && c <= 'f') || ('A' <= c && c <= 'F')
}

pub open spec fn hex_digit_value(c: char) -> int {
    if '0' <= c && c <= '9' {
        c as int - '0' as int
    } else if 'a' <= c && c <= 'f' {
        c as int - 'a' as int + 10
    } else {
        c as int - 'A' as int + 10
    }
}

/// Value of a string of hex digits.
pub open spec fn hex_value(s: Seq<char>) -> int
    decreases s.len(),
{
    if s.len() == 0 {
        0
    } else {
        hex_value(s.drop_last()) * 16 + hex_digit_value(s.last())
    }
}

/// One group of an IPv6 address: one to four hex digits.
pub open spec fn hex_group(s: Seq<char>) -> bool {
    1 <= s.len() <= 4 && forall|i: int| 0 <= i < s.len() ==> is_hex_digit(#[trigger] s[i])
}

/// Values of the colon-separated groups of `s` (none for empty text).
pub open spec fn groups_of(s: Seq<char>) -> Option<Seq<int>> {
    if s.len() == 0 {
        Some(Seq::empty())
    } else {
        let f = fields(s, ':');
        if forall|i: int| 0 <= i < f.len() ==> hex_group(#[trigger] f[i]) {
            Some(f.map_values(|g: Seq<char>| hex_value(g)))
        } else {
            None
        }
    }
}

/// Value of 16-bit groups, the first the most significant.
pub open spec fn groups_value(g: Seq<int>) -> int
    decreases g.len(),
{
    if g.len() == 0 {
        0
    } else {
        groups_value(g.drop_last()) * 0x1_0000 + g.last()
    }
}

/// Position of the first `::` in `s`, -1 when there is none.
pub open spec fn first_double_colon(s: Seq<char>) -> int
    decreases s.len(),
{
    if s.len() < 2 {
        -1
    } else if first_double_colon(s.drop_last()) >= 0 {
        first_double_colon(s.drop_last())
    } else if s[s.len() - 2] == ':' && s[s.len() - 1] == ':' {
        s.len() - 2
    } else {
        -1
    }
}

/// `n` zero groups.
pub open spec fn zero_groups(n: int) -> Seq<int> {
    Seq::new(n as nat, |i: int| 0)
}

/// The address that an IPv6 text denotes: eight groups, or fewer with one
/// `::` standing for the missing zero groups.
pub open spec fn ipv6_of(s: Seq<char>) -> Option<u128> {
    let p = first_double_colon(s);
    if p < 0 {
        match groups_of(s) {
            Some(g) => if g.len() == 8 {
                Some(groups_value(g) as u128)
            } else {
                None
            },
            None => None,
        }
    } else {
        match (groups_of(s.subrange(0, p)), groups_of(s.subrange(p + 2, s.len() as int))) {
            (Some(h), Some(t)) => if h.len() + t.len() <= 7 {
                Some(groups_value(h + zero_groups(8 - h.len() - t.len()) + t) as u128)
            } else {
                None
            },
            _ => None,
        }
    }
}

/// The address that a text denotes, IPv4 or IPv6.
pub open spec fn ip_of(s: Seq<char>) -> Option<IpAddress> {
    match ipv4_of(s) {
        Some(a) => Some(IpAddress::V4(a)),
        None => match ipv6_of(s) {
            Some(a) => Some(IpAddress::V6(a)),
            None => None,
        },
    }
}

/// The address and prefix length that a CIDR prefix `address/n` denotes,
/// with `n` at most 32 for IPv4 and 128 for IPv6.
pub open spec fn cidr_of(s: Seq<char>) -> Option<(IpAddress, u8)> {
    let f = fields(s, '/');
    if f.len() == 2 && ip_of(f[0]) is Some && short_numeral(f[1]) && 0 <= decimal_value(f[1])
        <= max_prefix(ip_of(f[0])->Some_0) {
        Some((ip_of(f[0])->Some_0, decimal_value(f[1]) as u8))
    } else {
        None
    }
}

proof fn lemma_fields_nonempty(s: Seq<char>, sep: char)
    ensures
        fields(s, sep).len() >= 1,
    decreases s.len(),
{
    if s.len() > 0 {
        lemma_fields_nonempty(s.drop_last(), sep);
    }
}

pub open spec fn pow10(n: nat) -> int
    decreases n,
{
    if n == 0 {
        1
    } else {
        10 * pow10((n - 1) as nat)
    }
}

/// Value of the short numeral `s[lo..hi]`, if it is one.
fn short_numeral_value(s: &str, lo: usize, hi: usize) -> (r: Option<u32>)
    requires
        lo <= hi <= s@.len(),
    ensures
        r == (if short_numeral(s@.subrange(lo as int, hi as int)) {
            Some(decimal_value(s@.subrange(lo as int, hi as int)) as u32)
        } else {
            None::<u32>
        }),
        r matches Some(v) ==> v < 1000 && v as int == decimal_value(
            s@.subrange(lo as int, hi as int),
        ),
{
    let ghost t = s@.subrange(lo as int, hi as int);
    if hi - lo < 1 || hi - lo > 3 {
        return None;
    }
    if hi - lo > 1 && s.get_char(lo) == '0' {
        return None;
    }
    let mut v: u32 = 0;
    let mut i: usize = lo;
    while i < hi
        invariant
            lo <= i <= hi,
            hi - lo <= 3,
            hi <= s@.len(),
            t == s@.subrange(lo as int, hi as int),
            forall|k: int| 0 <= k < i - lo ==> is_digit(#[trigger] t[k]),
            v == decimal_value(t.take(i - lo)),
            v < pow10((i - lo) as nat),
        decreases hi - i,
    {
        let c = s.get_char(i);
        if !('0' <= c && c <= '9') {
            assert(!is_digit(t[i - lo]));
            return None;
        }
        proof {
            assert(t.take(i - lo + 1).drop_last() =~= t.take(i - lo));
            assert(t.take(i - lo + 1).last() == c);
            assert(pow10((i - lo + 1) as nat) == 10 * pow10((i - lo) as nat));
            assert(pow10(0) == 1);
            assert(pow10(1) == 10);
            assert(pow10(2) == 100);
            assert(pow10(3) == 1000);
        }
        v = v * 10 + (c as u32 - '0' as u32);
        i = i + 1;
    }
    assert(t.take(hi - lo) =~= t);
    assert(pow10(0) == 1);
    assert(pow10(1) == 10);
    assert(pow10(2) == 100);
    assert(pow10(3) == 1000);
    Some(v)
}

/// The spans `[start, end)` of the pieces of `s[lo..hi]` between occurrences
/// of `sep`.
fn split_spans(s: &str, lo: usize, hi: usize, sep: char) -> (r: Vec<(usize, usize)>)
    requires
        lo <= hi <= s@.len(),
    ensures
        r@.len() == fields(s@.subrange(lo as int, hi as int), sep).len(),
        forall|k: int|
            0 <= k < r@.len() ==> lo <= (#[trigger] r@[k]).0 <= r@[k].1 <= hi && s@.subrange(
                r@[k].0 as int,
                r@[k].1 as int,
            ) == fields(s@.subrange(lo as int, hi as int), sep)[k],
{
    let ghost t = s@.subrange(lo as int, hi as int);
    let mut spans: Vec<(usize, usize)> = Vec::new();
    let mut start: usize = lo;
    let mut i: usize = lo;
    proof {
        assert(t.take(0) =~= Seq::<char>::empty());
        assert(s@.subrange(lo as int, lo as int) =~= Seq::<char>::empty());
        assert(fields(t.take(0), sep) =~= fields(t.take(0), sep).take(0).push(Seq::empty()));
    }
    while i < hi
        invariant
            lo <= start <= i <= hi,
            hi <= s@.len(),
            t == s@.subrange(lo as int, hi as int),
            fields(t.take(i - lo), sep) == fields(t.take(i - lo), sep).take(spans@.len() as int).push(
                s@.subrange(start as int, i as int),
            ),
            fields(t.take(i - lo), sep).len() == spans@.len() + 1,
            forall|k: int|
                0 <= k < spans@.len() ==> lo <= (#[trigger] spans@[k]).0 <= spans@[k].1 <= hi
                    && s@.subrange(spans@[k].0 as int, spans@[k].1 as int) == fields(
                    t.take(i - lo),
                    sep,
                )[k],
        decreases hi - i,
    {
        let c = s.get_char(i);
        let ghost f = fields(t.take(i - lo), sep);
        proof {
            assert(t.take(i - lo + 1).drop_last() =~= t.take(i - lo));
            assert(t.take(i - lo + 1).last() == c);
            lemma_fields_nonempty(t.take(i - lo), sep);
        }
        if c == sep {
            spans.push((start, i));
            start = i + 1;
            i = i + 1;
            proof {
                let g = fields(t.take(i - lo), sep);
                assert(g == f.push(Seq::empty()));
                assert(s@.subrange(start as int, i as int) =~= Seq::<char>::empty());
                assert(g =~= g.take(spans@.len() as int).push(s@.subrange(start as int, i as int)));
            }
        } else {
            i = i + 1;
            proof {
                let g = fields(t.take(i - lo), sep);
                assert(g == f.update(f.len() - 1, f.last().push(c)));
                assert(s@.subrange(start as int, i as int) =~= s@.subrange(
                    start as int,
                    i - 1,
                ).push(c));
                assert(g =~= g.take(spans@.len() as int).push(s@.subrange(start as int, i as int)));
            }
        }
    }
    assert(t.take(hi - lo) =~= t);
    spans.push((start, hi));
    spans
}

/// Parses the dotted quad `s[lo..hi]`.
fn parse_ipv4_range(s: &str, lo: usize, hi: usize) -> (r: Option<u32>)
    requires
        lo <= hi <= s@.len(),
    ensures
        r == ipv4_of(s@.subrange(lo as int, hi as int)),
{
    let spans = split_spans(s, lo, hi, '.');
    let ghost f = fields(s@.subrange(lo as int, hi as int), '.');
    if spans.len() != 4 {
        return None;
    }
    assert(f[0] == s@.subrange(spans@[0].0 as int, spans@[0].1 as int));
    assert(f[1] == s@.subrange(spans@[1].0 as int, spans@[1].1 as int));
    assert(f[2] == s@.subrange(spans@[2].0 as int, spans@[2].1 as int));
    assert(f[3] == s@.subrange(spans@[3].0 as int, spans@[3].1 as int));
    let a = short_numeral_value(s, spans[0].0, spans[0].1);
    let b = short_numeral_value(s, spans[1].0, spans[1].1);
    let c = short_numeral_value(s, spans[2].0, spans[2].1);
    let d = short_numeral_value(s, spans[3].0, spans[3].1);
    match (a, b, c, d) {
        (Some(a), Some(b), Some(c), Some(d)) => {
            if a > 255 || b > 255 || c > 255 || d > 255 {
                return None;
            }
            Some(a * 0x100_0000 + b * 0x1_0000 + c * 0x100 + d)
        },
        _ => None,
    }
}

/// Parses a dotted-quad IPv4 address such as `192.168.1.7`.
pub fn parse_ipv4(s: &str) -> (r: Option<u32>)
    ensures
        r == ipv4_of(s@),
{
    let n = s.unicode_len();
    assert(s@.subrange(0, n as int) =~= s@);
    parse_ipv4_range(s, 0, n)
}

fn hex_group_value(s: &str, lo: usize, hi: usize) -> (r: Option<u32>)
    requires
        lo <= hi <= s@.len(),
    ensures
        r == (if hex_group(s@.subrange(lo as int, hi as int)) {
            Some(hex_value(s@.subrange(lo as int, hi as int)) as u32)
        } else {
            None::<u32>
        }),
        r matches Some(v) ==> v < 0x1_0000 && v as int == hex_value(
            s@.subrange(lo as int, hi as int),
        ),
{
    let ghost t = s@.subrange(lo as int, hi as int);
    if hi - lo < 1 || hi - lo > 4 {
        return None;
    }
    let mut v: u32 = 0;
    let mut i: usize = lo;
    while i < hi
        invariant
            lo <= i <= hi,
            hi - lo <= 4,
            hi <= s@.len(),
            t == s@.subrange(lo as int, hi as int),
            forall|k: int| 0 <= k < i - lo ==> is_hex_digit(#[trigger] t[k]),
            v == hex_value(t.take(i - lo)),
            v < pow16((i - lo) as nat),
        decreases hi - i,
    {
        let c = s.get_char(i);
        let d: u32 = if '0' <= c && c <= '9' {
            c as u32 - '0' as u32
        } else if 'a' <= c && c <= 'f' {
            c as u32 - 'a' as u32 + 10
        } else if 'A' <= c && c <= 'F' {
            c as u32 - 'A' as u32 + 10
        } else {
            assert(!is_hex_digit(t[i - lo]));
            return None;
        };
        proof {
            assert(t.take(i - lo + 1).drop_last() =~= t.take(i - lo));
            assert(t.take(i - lo + 1).last() == c);
            assert(pow16((i - lo + 1) as nat) == 16 * pow16((i - lo) as nat));
            assert(pow16(0) == 1);
            assert(pow16(1) == 16);
            assert(pow16(2) == 256);
            assert(pow16(3) == 4096);
            assert(pow16(4) == 0x1_0000);
        }
        v = v * 16 + d;
        i = i + 1;
    }
    assert(t.take(hi - lo) =~= t);
    assert(pow16(0) == 1);
    assert(pow16(1) == 16);
    assert(pow16(2) == 256);
    assert(pow16(3) == 4096);
    assert(pow16(4) == 0x1_0000);
    Some(v)
}

pub open spec fn pow16(n: nat) -> int
    decreases n,
{
    if n == 0 {
        1
    } else {
        16 * pow16((n - 1) as nat)
    }
}

pub open spec fn as_ints(v: Seq<u32>) -> Seq<int> {
    v.map_values(|x: u32| x as int)
}

/// Group values of `s[lo..hi]`, if it is a list of groups.
fn parse_groups(s: &str, lo: usize, hi: usize) -> (r: Option<Vec<u32>>)
    requires
        lo <= hi <= s@.len(),
    ensures
        match groups_of(s@.subrange(lo as int, hi as int)) {
            Some(g) => r matches Some(v) && as_ints(v@) == g,
            None => r is None,
        },
        r matches Some(v) ==> forall|i: int| 0 <= i < v@.len() ==> #[trigger] v@[i] < 0x1_0000,
{
    let ghost t = s@.subrange(lo as int, hi as int);
    let mut out: Vec<u32> = Vec::new();
    if lo == hi {
        assert(as_ints(out@) =~= Seq::<int>::empty());
        return Some(out);
    }
    let spans = split_spans(s, lo, hi, ':');
    let ghost f = fields(t, ':');
    let mut k: usize = 0;
    while k < spans.len()
        invariant
            k <= spans@.len(),
            spans@.len() == f.len(),
            lo < hi <= s@.len(),
            t == s@.subrange(lo as int, hi as int),
            f == fields(t, ':'),
            hi <= s@.len(),
            forall|q: int|
                0 <= q < spans@.len() ==> lo <= (#[trigger] spans@[q]).0 <= spans@[q].1 <= hi
                    && s@.subrange(spans@[q].0 as int, spans@[q].1 as int) == f[q],
            forall|q: int| 0 <= q < k ==> hex_group(#[trigger] f[q]),
            as_ints(out@) == f.take(k as int).map_values(|g: Seq<char>| hex_value(g)),
            forall|q: int| 0 <= q < out@.len() ==> #[trigger] out@[q] < 0x1_0000,
        decreases spans@.len() - k,
    {
        let (a, b) = spans[k];
        assert(s@.subrange(a as int, b as int) == f[k as int]);
        match hex_group_value(s, a, b) {
            None => {
                assert(!hex_group(f[k as int]));
                assert(t.len() > 0);
                assert(!(forall|q: int| 0 <= q < f.len() ==> hex_group(#[trigger] f[q])));
                return None;
            },
            Some(v) => {
                let ghost before = out@;
                out.push(v);
                assert(as_ints(out@) =~= as_ints(before).push(hex_value(f[k as int])));
                assert(f.take(k + 1) =~= f.take(k as int).push(f[k as int]));
                k = k + 1;
                assert(as_ints(out@) =~= f.take(k as int).map_values(|g: Seq<char>| hex_value(g)));
            },
        }
    }
    assert(f.take(k as int) =~= f);
    Some(out)
}

/// Position in `s[lo..hi]` of its first `::`, relative to `lo`.
fn find_double_colon(s: &str, lo: usize, hi: usize) -> (r: Option<usize>)
    requires
        lo <= hi <= s@.len(),
    ensures
        first_double_colon(s@.subrange(lo as int, hi as int)) < 0 <==> r is None,
        r matches Some(p) ==> p as int == first_double_colon(s@.subrange(lo as int, hi as int))
            && lo + p + 2 <= hi,
{
    let ghost t = s@.subrange(lo as int, hi as int);
    if hi - lo < 2 {
        return None;
    }
    let mut j: usize = lo + 1;
    assert(first_double_colon(t.take(1)) == -1);
    while j < hi
        invariant
            lo + 1 <= j <= hi,
            hi <= s@.len(),
            t == s@.subrange(lo as int, hi as int),
            first_double_colon(t.take(j - lo)) == -1,
        decreases hi - j,
    {
        let ghost u = t.take(j - lo + 1);
        assert(u.drop_last() =~= t.take(j - lo));
        if s.get_char(j - 1) == ':' && s.get_char(j) == ':' {
            assert(u[u.len() - 2] == ':' && u[u.len() - 1] == ':');
            let p = j - 1 - lo;
            proof {
                lemma_first_double_colon_prefix(t, (j - lo + 1) as nat);
            }
            return Some(p);
        }
        j = j + 1;
    }
    assert(t.take(hi - lo) =~= t);
    None
}

/// Once a prefix of `s` has a `::`, `s` has its first one at the same place.
proof fn lemma_first_double_colon_prefix(s: Seq<char>, n: nat)
    requires
        n <= s.len(),
        first_double_colon(s.take(n as int)) >= 0,
    ensures
        first_double_colon(s) == first_double_colon(s.take(n as int)),
    decreases s.len() - n,
{
    if n < s.len() {
        assert(s.take((n + 1) as int).drop_last() =~= s.take(n as int));
        lemma_first_double_colon_prefix(s, n + 1);
    } else {
        assert(s.take(n as int) =~= s);
    }
}

pub open spec fn pow65536(n: nat) -> int
    decreases n,
{
    if n == 0 {
        1
    } else {
        0x1_0000 * pow65536((n - 1) as nat)
    }
}

/// The groups `g`, in order, as one number.
fn fold_groups(g: &Vec<u32>) -> (r: u128)
    requires
        g@.len() == 8,
        forall|i: int| 0 <= i < 8 ==> #[trigger] g@[i] < 0x1_0000,
    ensures
        r as int == groups_value(as_ints(g@)),
{
    let mut acc: u128 = 0;
    let mut k: usize = 0;
    assert(as_ints(g@).take(0) =~= Seq::<int>::empty());
    while k < 8
        invariant
            k <= 8,
            g@.len() == 8,
            forall|i: int| 0 <= i < 8 ==> #[trigger] g@[i] < 0x1_0000,
            acc as int == groups_value(as_ints(g@).take(k as int)),
            acc < pow65536(k as nat),
        decreases 8 - k,
    {
        let x = g[k];
        proof {
            reveal_with_fuel(pow65536, 9);
            assert(as_ints(g@).take(k + 1).drop_last() =~= as_ints(g@).take(k as int));
            assert((acc as int) * 0x1_0000 + (x as int) < pow65536((k + 1) as nat)) by (
            nonlinear_arith)
                requires
                    acc < pow65536(k as nat),
                    x < 0x1_0000,
                    pow65536((k + 1) as nat) == 0x1_0000 * pow65536(k as nat),
            ;
            assert(pow65536(8) == 0x1_0000_0000_0000_0000_0000_0000_0000_0000);
            assert(pow65536((k + 1) as nat) <= pow65536(8)) by {
                if k + 1 < 8 {
                    lemma_pow65536_mono((k + 1) as nat, 8);
                }
            }
        }
        acc = acc * 0x1_0000 + x as u128;
        k = k + 1;
    }
    assert(as_ints(g@).take(8) =~= as_ints(g@));
    acc
}

proof fn lemma_pow65536_mono(a: nat, b: nat)
    requires
        a <= b,
    ensures
        pow65536(a) <= pow65536(b),
        pow65536(a) >= 1,
    decreases b,
{
    if b > a {
        lemma_pow65536_mono(a, (b - 1) as nat);
    } else if a > 0 {
        lemma_pow65536_mono((a - 1) as nat, (a - 1) as nat);
    }
}

/// Parses the IPv6 text `s[lo..hi]`.
fn parse_ipv6_range(s: &str, lo: usize, hi: usize) -> (r: Option<u128>)
    requires
        lo <= hi <= s@.len(),
    ensures
        r == ipv6_of(s@.subrange(lo as int, hi as int)),
{
    let ghost t = s@.subrange(lo as int, hi as int);
    match find_double_colon(s, lo, hi) {
        None => match parse_groups(s, lo, hi) {
            None => None,
            Some(g) => {
                if g.len() != 8 {
                    return None;
                }
                Some(fold_groups(&g))
            },
        },
        Some(p) => {
            assert(t.subrange(0, p as int) =~= s@.subrange(lo as int, lo + p));
            assert(t.subrange(p + 2, t.len() as int) =~= s@.subrange(lo + p + 2, hi as int));
            let head = parse_groups(s, lo, lo + p);
            let tail = parse_groups(s, lo + p + 2, hi);
            match (head, tail) {
                (Some(h), Some(tl)) => {
                    if h.len() > 7 || tl.len() > 7 - h.len() {
                        return None;
                    }
                    let zeros = 8 - h.len() - tl.len();
                    let mut all: Vec<u32> = Vec::new();
                    let mut i: usize = 0;
                    while i < h.len()
                        invariant
                            i <= h@.len(),
                            all@ == h@.take(i as int),
                        decreases h@.len() - i,
                    {
                        all.push(h[i]);
                        i = i + 1;
                        assert(all@ =~= h@.take(i as int));
                    }
                    assert(h@.take(i as int) =~= h@);
                    let mut z: usize = 0;
                    while z < zeros
                        invariant
                            z <= zeros,
                            all@ == h@ + Seq::new(z as nat, |q: int| 0u32),
                        decreases zeros - z,
                    {
                        all.push(0);
                        z = z + 1;
                        assert(all@ =~= h@ + Seq::new(z as nat, |q: int| 0u32));
                    }
                    let mut j: usize = 0;
                    while j < tl.len()
                        invariant
                            j <= tl@.len(),
                            all@ == h@ + Seq::new(zeros as nat, |q: int| 0u32) + tl@.take(j as int),
                        decreases tl@.len() - j,
                    {
                        all.push(tl[j]);
                        j = j + 1;
                        assert(all@ =~= h@ + Seq::new(zeros as nat, |q: int| 0u32) + tl@.take(
                            j as int,
                        ));
                    }
                    assert(tl@.take(j as int) =~= tl@);
                    assert(as_ints(all@) =~= as_ints(h@) + zero_groups(
                        8 - as_ints(h@).len() - as_ints(tl@).len(),
                    ) + as_ints(tl@));
                    assert forall|q: int| 0 <= q < 8 implies #[trigger] all@[q] < 0x1_0000 by {
                        if q < h@.len() {
                            assert(all@[q] == h@[q]);
                        } else if q >= h@.len() + zeros {
                            assert(all@[q] == tl@[q - h@.len() - zeros]);
                        }
                    }
                    Some(fold_groups(&all))
                },
                _ => None,
            }
        },
    }
}

/// Parses an IPv6 address such as `2001:db8::1`.
pub fn parse_ipv6(s: &str) -> (r: Option<u128>)
    ensures
        r == ipv6_of(s@),
{
    let n = s.unicode_len();
    assert(s@.subrange(0, n as int) =~= s@);
    parse_ipv6_range(s, 0, n)
}

fn parse_ip_range(s: &str, lo: usize, hi: usize) -> (r: Option<IpAddress>)
    requires
        lo <= hi <= s@.len(),
    ensures
        r == ip_of(s@.subrange(lo as int, hi as int)),
{
    match parse_ipv4_range(s, lo, hi) {
        Some(a) => Some(IpAddress::V4(a)),
        None => match parse_ipv6_range(s, lo, hi) {
            Some(a) => Some(IpAddress::V6(a)),
            None => None,
        },
    }
}

/// Parses an IPv4 or IPv6 address.
pub fn parse_ip(s: &str) -> (r: Option<IpAddress>)
    ensures
        r == ip_of(s@),
{
    let n = s.unicode_len();
    assert(s@.subrange(0, n as int) =~= s@);
    parse_ip_range(s, 0, n)
}

/// Parses a CIDR prefix such as `10.0.0.0/24` or `2001:db8::/32` into its
/// address and length.
pub fn parse_cidr(s: &str) -> (r: Option<(IpAddress, u8)>)
    ensures
        r == cidr_of(s@),
        r matches Some((a, l)) ==> l <= max_prefix(a),
{
    let n = s.unicode_len();
    assert(s@.subrange(0, n as int) =~= s@);
    let spans = split_spans(s, 0, n, '/');
    let ghost f = fields(s@, '/');
    if spans.len() != 2 {
        return None;
    }
    assert(f[0] == s@.subrange(spans@[0].0 as int, spans@[0].1 as int));
    assert(f[1] == s@.subrange(spans@[1].0 as int, spans@[1].1 as int));
    let addr = parse_ip_range(s, spans[0].0, spans[0].1);
    let len = short_numeral_value(s, spans[1].0, spans[1].1);
    match (addr, len) {
        (Some(a), Some(l)) => {
            let max: u32 = match a {
                IpAddress::V4(_) => 32,
                IpAddress::V6(_) => 128,
            };
            if l > max {
                None
            } else {
                Some((a, l as u8))
            }
        },
        _ => None,
    }
}

} // verus!
