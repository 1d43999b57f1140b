//! The forwarding base: IPv4 and IPv6 routes keyed by (network, prefix length),
//! longest-prefix-match lookups, and a cache of resolved destinations that
//! every change of the table clears.
use vstd::prelude::*;
use std::collections::HashMap;
use crate::addr::{cidr_of, ip_of, max_prefix, parse_cidr, parse_ip, IpAddress};
use crate::clock::wall_clock_ms;
use crate::select::{keys_unique, tally_text, tally_word, text_pairs, totals};
use crate::text::text_eq;

verus! {

/// Abstract value of a route.
pub struct RouteView {
    pub destination: Seq<char>,
    pub gateway: Seq<char>,
    pub interface: Seq<char>,
    pub prefix_length: u8,
    pub metric: u32,
    pub protocol: Seq<char>,
    pub is_active: bool,
}

/// A route: traffic for `destination` (a CIDR prefix `a.b.c.d/n`) leaves
/// through `interface` towards `gateway`. A lower metric is better.
#[derive(Debug)]
pub struct Route {
    pub destination: String,
    pub gateway: String,
    pub interface: String,
    pub prefix_length: u8,
    pub metric: u32,
    pub protocol: String,
    pub is_active: bool,
}

impl View for Route {
    type V = RouteView;

    open spec fn view(&self) -> RouteView {
        RouteView {
            destination: self.destination@,
            gateway: self.gateway@,
            interface: self.interface@,
            prefix_length: self.prefix_length,
            metric: self.metric,
            protocol: self.protocol@,
            is_active: self.is_active,
        }
    }
}

impl Route {
    /// An active route.
    pub fn new(
        destination: String,
        gateway: String,
        interface: String,
        prefix_length: u8,
        metric: u32,
        protocol: String,
    ) -> (r: Route)
        ensures
            r@ == (RouteView {
                destination: destination@,
                gateway: gateway@,
                interface: interface@,
                prefix_length,
                metric,
                protocol: protocol@,
                is_active: true,
            }),
    {
        Route { destination, gateway, interface, prefix_length, metric, protocol, is_active: true }
    }

    /// A copy of the route.
    pub fn copy(&self) -> (r: Route)
        ensures
            r@ == self@,
    {
        Route {
            destination: self.destination.clone(),
            gateway: self.gateway.clone(),
            interface: self.interface.clone(),
            prefix_length: self.prefix_length,
            metric: self.metric,
            protocol: self.protocol.clone(),
            is_active: self.is_active,
        }
    }
}

/// Counters of a routing table.
#[derive(Debug, Clone, Copy)]
pub struct RoutingStats {
    pub total_routes: usize,
    pub active_routes: usize,
    pub bgp_routes: usize,
    pub ospf_routes: usize,
    pub isis_routes: usize,
    pub static_routes: usize,
    pub last_update: u64,
}

/// IPv4 netmask of a prefix length: its `len` high bits set.
pub open spec fn prefix_mask(len: u8) -> u32 {
    if len == 0 {
        0
    } else if len >= 32 {
        0xffff_ffff
    } else {
        0xffff_ffffu32 << ((32 - len) as u32)
    }
}

/// IPv6 netmask of a prefix length: its `len` high bits set.
pub open spec fn prefix_mask6(len: u8) -> u128 {
    if len == 0 {
        0
    } else if len >= 128 {
        0xffff_ffff_ffff_ffff_ffff_ffff_ffff_ffff
    } else {
        0xffff_ffff_ffff_ffff_ffff_ffff_ffff_ffffu128 << ((128 - len) as u128)
    }
}

/// The network of `a` with prefix length `len`: its host bits cleared.
pub open spec fn net_of(a: IpAddress, len: u8) -> IpAddress {
    match a {
        IpAddress::V4(x) => IpAddress::V4(x & prefix_mask(len)),
        IpAddress::V6(x) => IpAddress::V6(x & prefix_mask6(len)),
    }
}

/// A table entry: the network (its host bits clear), the prefix length that
/// keys it, and the route.
pub struct EntryView {
    pub network: IpAddress,
    pub len: u8,
    pub route: RouteView,
}

/// The key that identifies an entry.
pub open spec fn key_of(e: EntryView) -> (IpAddress, u8) {
    (e.network, e.len)
}

/// Well-formed table: prefix lengths within the family, networks with their
/// host bits clear, and at most one entry per (network, prefix length).
pub open spec fn table_ok(t: Seq<EntryView>) -> bool {
    &&& forall|i: int|
        0 <= i < t.len() ==> (#[trigger] t[i]).len <= max_prefix(t[i].network) && net_of(
            t[i].network,
            t[i].len,
        ) == t[i].network
    &&& forall|i: int, j: int|
        0 <= i < t.len() && 0 <= j < t.len() && i != j ==> key_of(#[trigger] t[i]) != key_of(
            #[trigger] t[j],
        )
}

/// An active entry whose prefix contains `d` (of the same family).
pub open spec fn covers(e: EntryView, d: IpAddress) -> bool {
    e.route.is_active && net_of(d, e.len) == e.network
}

/// Entry `i` is the longest active prefix of `t` that contains `d`.
pub open spec fn is_best(t: Seq<EntryView>, d: IpAddress, i: int) -> bool {
    &&& 0 <= i < t.len()
    &&& covers(t[i], d)
    &&& forall|j: int| 0 <= j < t.len() && covers(#[trigger] t[j], d) ==> t[j].len <= t[i].len
}

/// Longest-prefix match of `d` in `t`.
pub open spec fn lpm(t: Seq<EntryView>, d: IpAddress) -> Option<RouteView> {
    if exists|i: int| is_best(t, d, i) {
        Some(t[choose|i: int| is_best(t, d, i)].route)
    } else {
        None
    }
}

/// A route that the table accepts: non-empty gateway, interface and
/// protocol, and a CIDR destination (IPv4 or IPv6) whose length is the
/// prefix length.
pub open spec fn route_valid(r: RouteView) -> bool {
    &&& r.destination.len() > 0
    &&& r.gateway.len() > 0
    &&& r.interface.len() > 0
    &&& r.prefix_length <= 128
    &&& r.protocol.len() > 0
    &&& cidr_of(r.destination) matches Some((a, l)) && l == r.prefix_length
}

/// The key that a CIDR text names: its network with the host bits clear,
/// and its length.
pub open spec fn key_of_text(s: Seq<char>) -> Option<(IpAddress, u8)> {
    match cidr_of(s) {
        Some((a, l)) => Some((net_of(a, l), l)),
        None => None,
    }
}

/// The entry that route `r` makes under key `k`.
pub open spec fn entry_at(k: (IpAddress, u8), r: RouteView) -> EntryView {
    EntryView { network: k.0, len: k.1, route: r }
}

/// The entry that a valid route makes under its own destination.
pub open spec fn entry_of(r: RouteView) -> EntryView {
    entry_at(key_of_text(r.destination)->Some_0, r)
}

pub open spec fn has_key(t: Seq<EntryView>, k: (IpAddress, u8)) -> bool {
    exists|i: int| 0 <= i < t.len() && key_of(#[trigger] t[i]) == k
}

pub open spec fn index_of_key(t: Seq<EntryView>, k: (IpAddress, u8)) -> int {
    choose|i: int| 0 <= i < t.len() && key_of(#[trigger] t[i]) == k
}

/// The table after adding entry `e`: a new key is appended; an existing key
/// takes `e` in place when `e`'s metric is not worse, and is kept otherwise.
pub open spec fn inserted(t: Seq<EntryView>, e: EntryView) -> Seq<EntryView> {
    if has_key(t, key_of(e)) {
        let i = index_of_key(t, key_of(e));
        if e.route.metric <= t[i].route.metric {
            t.update(i, e)
        } else {
            t
        }
    } else {
        t.push(e)
    }
}

/// Abstract state of a routing table.
pub struct TableView {
    pub routes: Seq<EntryView>,
    pub last_update: u64,
    pub total_updates: u64,
}

struct RouteEntry {
    network: IpAddress,
    len: u8,
    route: Route,
}

/// Routing table with caches of resolved IPv4 and IPv6 destinations.
pub struct RoutingTable {
    entries: Vec<RouteEntry>,
    cache4: HashMap<u32, Route>,
    cache6: HashMap<u128, Route>,
    last_update: u64,
    total_updates: u64,
}

impl View for RoutingTable {
    type V = TableView;

    closed spec fn view(&self) -> TableView {
        TableView {
            routes: self.entries@.map_values(
                |e: RouteEntry| EntryView { network: e.network, len: e.len, route: e.route@ },
            ),
            last_update: self.last_update,
            total_updates: self.total_updates,
        }
    }
}

fn network_of(a: IpAddress, len: u8) -> (r: IpAddress)
    requires
        len <= max_prefix(a),
    ensures
        r == net_of(a, len),
{
    match a {
        IpAddress::V4(x) => {
            let m: u32 = if len == 0 {
                0
            } else if len >= 32 {
                0xffff_ffff
            } else {
                0xffff_ffffu32 << (32 - len) as u32
            };
            IpAddress::V4(x & m)
        },
        IpAddress::V6(x) => {
            let m: u128 = if len == 0 {
                0
            } else if len >= 128 {
                0xffff_ffff_ffff_ffff_ffff_ffff_ffff_ffff
            } else {
                0xffff_ffff_ffff_ffff_ffff_ffff_ffff_ffffu128 << (128 - len) as u128
            };
            IpAddress::V6(x & m)
        },
    }
}

/// Whether `d` lies in the prefix of entry `e` (of its family).
fn in_prefix(d: IpAddress, network: IpAddress, len: u8) -> (r: bool)
    requires
        len <= max_prefix(network),
    ensures
        r == (net_of(d, len) == network),
{
    match (d, network) {
        (IpAddress::V4(_), IpAddress::V4(_)) => network_of(d, len) == network,
        (IpAddress::V6(_), IpAddress::V6(_)) => network_of(d, len) == network,
        _ => false,
    }
}

proof fn lemma_net_idempotent(a: IpAddress, len: u8)
    ensures
        net_of(net_of(a, len), len) == net_of(a, len),
{
    match a {
        IpAddress::V4(x) => {
            let m = prefix_mask(len);
            assert((x & m) & m == x & m) by (bit_vector);
        },
        IpAddress::V6(x) => {
            let m = prefix_mask6(len);
            assert((x & m) & m == x & m) by (bit_vector);
        },
    }
}

/// The longest match is unique in a well-formed table.
proof fn lemma_best_unique(t: Seq<EntryView>, d: IpAddress, i: int, j: int)
    requires
        table_ok(t),
        is_best(t, d, i),
        is_best(t, d, j),
    ensures
        i == j,
{
    assert(key_of(t[i]) == key_of(t[j]));
}

proof fn lemma_lpm_is(t: Seq<EntryView>, d: IpAddress, i: int)
    requires
        table_ok(t),
        is_best(t, d, i),
    ensures
        lpm(t, d) == Some(t[i].route),
{
    let c = choose|k: int| is_best(t, d, k);
    lemma_best_unique(t, d, i, c);
}

impl RoutingTable {
    /// The table is well formed and every cached destination holds the
    /// route that a lookup in the table gives.
    pub closed spec fn wf(&self) -> bool {
        &&& table_ok(self@.routes)
        &&& forall|d: u32| #[trigger]
            self.cache4@.contains_key(d) ==> lpm(self@.routes, IpAddress::V4(d)) == Some(
                self.cache4@[d]@,
            )
        &&& forall|d: u128| #[trigger]
            self.cache6@.contains_key(d) ==> lpm(self@.routes, IpAddress::V6(d)) == Some(
                self.cache6@[d]@,
            )
    }

    /// A well-formed table holds a well-formed sequence of entries, so the
    /// laws stated over entry sequences apply to it.
    pub proof fn lemma_wf_table(&self)
        requires
            self.wf(),
        ensures
            table_ok(self@.routes),
    {
    }

    /// An empty table.
    pub fn new() -> (t: RoutingTable)
        ensures
            t.wf(),
            t@.routes.len() == 0,
            t@.last_update == 0,
            t@.total_updates == 0,
    {
        let t = RoutingTable {
            entries: Vec::new(),
            cache4: HashMap::new(),
            cache6: HashMap::new(),
            last_update: 0,
            total_updates: 0,
        };
        assert(t@.routes =~= Seq::<EntryView>::empty());
        t
    }

    /// Checks a route before it enters the table.
    pub fn validate_route(&self, route: &Route) -> (r: Result<(), String>)
        ensures
            r is Ok <==> route_valid(route@),
    {
        if route.destination.as_str().unicode_len() == 0 {
            return Err("Destination cannot be empty".to_string());
        }
        if route.gateway.as_str().unicode_len() == 0 {
            return Err("Gateway cannot be empty".to_string());
        }
        if route.interface.as_str().unicode_len() == 0 {
            return Err("Interface cannot be empty".to_string());
        }
        if route.prefix_length > 128 {
            return Err("Prefix length cannot exceed 128".to_string());
        }
        if route.protocol.as_str().unicode_len() == 0 {
            return Err("Protocol cannot be empty".to_string());
        }
        match parse_cidr(route.destination.as_str()) {
            Some((_, l)) => {
                if l != route.prefix_length {
                    return Err("Destination length differs from prefix length".to_string());
                }
            },
            None => {
                return Err("Destination is not an IP prefix".to_string());
            },
        }
        Ok(())
    }

    /// Position of the entry with the given key.
    fn find_key(&self, network: IpAddress, len: u8) -> (r: Option<usize>)
        ensures
            r is None <==> !has_key(self@.routes, (network, len)),
            r matches Some(i) ==> i < self@.routes.len() && key_of(self@.routes[i as int]) == (
            network,
            len,
            ),
    {
        let mut i: usize = 0;
        while i < self.entries.len()
            invariant
                i <= self.entries@.len(),
                self@.routes.len() == self.entries@.len(),
                forall|k: int| 0 <= k < i ==> key_of(#[trigger] self@.routes[k]) != (network, len),
            decreases self.entries@.len() - i,
        {
            assert(self@.routes[i as int].network == self.entries@[i as int].network);
            assert(self@.routes[i as int].len == self.entries@[i as int].len);
            if self.entries[i].network == network && self.entries[i].len == len {
                return Some(i);
            }
            i = i + 1;
        }
        None
    }

    fn touch(&mut self)
        requires
            table_ok(old(self)@.routes),
        ensures
            final(self).wf(),
            final(self)@.routes == old(self)@.routes,
            final(self)@.total_updates == (if old(self)@.total_updates == u64::MAX {
                u64::MAX
            } else {
                (old(self)@.total_updates + 1) as u64
            }),
    {
        self.cache4.clear();
        self.cache6.clear();
        self.last_update = wall_clock_ms();
        self.total_updates = if self.total_updates == u64::MAX {
            u64::MAX
        } else {
            self.total_updates + 1
        };
    }

    /// The key that the CIDR text `destination` names.
    fn key_from_text(destination: &str) -> (r: Option<(IpAddress, u8)>)
        ensures
            r == key_of_text(destination@),
            r matches Some((n, l)) ==> l <= max_prefix(n) && net_of(n, l) == n,
    {
        match parse_cidr(destination) {
            None => None,
            Some((addr, len)) => {
                proof {
                    lemma_net_idempotent(addr, len);
                }
                Some((network_of(addr, len), len))
            },
        }
    }

    /// Adds a route. An invalid route is refused and changes nothing. A route
    /// for a new (network, prefix length) is appended; one for a known key
    /// replaces the entry when its metric is not worse, and is ignored
    /// otherwise. Any change clears the caches.
    pub fn add_route(&mut self, route: &Route) -> (r: Result<(), String>)
        requires
            old(self).wf(),
        ensures
            final(self).wf(),
            r is Ok <==> route_valid(route@),
            r is Ok ==> final(self)@.routes == inserted(old(self)@.routes, entry_of(route@)),
            r is Err ==> final(self)@ == old(self)@,
    {
        match self.validate_route(route) {
            Err(e) => {
                return Err(e);
            },
            Ok(()) => {},
        }
        let (network, len) = match RoutingTable::key_from_text(route.destination.as_str()) {
            Some(k) => k,
            None => {
                return Err("Destination is not an IP prefix".to_string());
            },
        };
        let ghost e = entry_of(route@);
        let ghost t = self@.routes;
        assert(e == entry_at((network, len), route@));
        match self.find_key(network, len) {
            Some(i) => {
                assert(t[i as int].route == self.entries@[i as int].route@);
                if route.metric <= self.entries[i].route.metric {
                    let ghost c = index_of_key(t, key_of(e));
                    assert(key_of(t[i as int]) == key_of(e));
                    assert(c == i as int);
                    self.entries.set(i, RouteEntry { network, len, route: route.copy() });
                    assert(self@.routes =~= t.update(i as int, e));
                    assert forall|a: int, b: int|
                        0 <= a < self@.routes.len() && 0 <= b < self@.routes.len() && a != b
                            implies key_of(#[trigger] self@.routes[a]) != key_of(
                        #[trigger] self@.routes[b],
                    ) by {
                        assert(key_of(self@.routes[a]) == key_of(t[a]));
                        assert(key_of(self@.routes[b]) == key_of(t[b]));
                    }
                    self.touch();
                } else {
                    let ghost c = index_of_key(t, key_of(e));
                    assert(key_of(t[i as int]) == key_of(e));
                    assert(c == i as int);
                }
            },
            None => {
                self.entries.push(RouteEntry { network, len, route: route.copy() });
                assert(self@.routes =~= t.push(e));
                assert forall|a: int, b: int|
                    0 <= a < self@.routes.len() && 0 <= b < self@.routes.len() && a != b
                        implies key_of(#[trigger] self@.routes[a]) != key_of(
                    #[trigger] self@.routes[b],
                ) by {
                    if a < t.len() {
                        assert(self@.routes[a] == t[a]);
                    }
                    if b < t.len() {
                        assert(self@.routes[b] == t[b]);
                    }
                }
                self.touch();
            },
        }
        Ok(())
    }

    /// Removes the route for the CIDR prefix `destination`. When the text is
    /// no prefix or no route has its key, nothing changes and the result is
    /// an error ("not found"). A removal clears the caches.
    pub fn remove_route(&mut self, destination: &str) -> (r: Result<(), String>)
        requires
            old(self).wf(),
        ensures
            final(self).wf(),
            r is Ok <==> (key_of_text(destination@) matches Some(k) && has_key(
                old(self)@.routes,
                k,
            )),
            r is Ok ==> final(self)@.routes == old(self)@.routes.remove(
                index_of_key(old(self)@.routes, key_of_text(destination@)->Some_0),
            ),
            r is Err ==> final(self)@ == old(self)@,
    {
        let (network, len) = match RoutingTable::key_from_text(destination) {
            Some(k) => k,
            None => {
                return Err("Route not found".to_string());
            },
        };
        let ghost t = self@.routes;
        match self.find_key(network, len) {
            None => Err("Route not found".to_string()),
            Some(i) => {
                let ghost c = index_of_key(t, (network, len));
                assert(c == i as int);
                self.entries.remove(i);
                assert(self@.routes =~= t.remove(i as int));
                assert forall|a: int, b: int|
                    0 <= a < self@.routes.len() && 0 <= b < self@.routes.len() && a != b
                        implies key_of(#[trigger] self@.routes[a]) != key_of(
                    #[trigger] self@.routes[b],
                ) by {
                    let a0 = if a < i { a } else { a + 1 };
                    let b0 = if b < i { b } else { b + 1 };
                    assert(self@.routes[a] == t[a0]);
                    assert(self@.routes[b] == t[b0]);
                }
                assert forall|a: int| 0 <= a < self@.routes.len() implies (#[trigger] self@.routes[
                    a
                ]).len <= max_prefix(self@.routes[a].network) && net_of(
                    self@.routes[a].network,
                    self@.routes[a].len,
                ) == self@.routes[a].network by {
                    let a0 = if a < i { a } else { a + 1 };
                    assert(self@.routes[a] == t[a0]);
                }
                self.touch();
                Ok(())
            },
        }
    }

    /// Replaces the route stored for the CIDR prefix `destination` with
    /// `route`, whatever its metric; the entry keeps its key. Fails, changing
    /// nothing, when no route has that key or when `route` is invalid.
    pub fn update_route(&mut self, destination: &str, route: &Route) -> (r: Result<(), String>)
        requires
            old(self).wf(),
        ensures
            final(self).wf(),
            r is Ok <==> (key_of_text(destination@) matches Some(k) && has_key(
                old(self)@.routes,
                k,
            ) && route_valid(route@)),
            r is Ok ==> final(self)@.routes == old(self)@.routes.update(
                index_of_key(old(self)@.routes, key_of_text(destination@)->Some_0),
                entry_at(key_of_text(destination@)->Some_0, route@),
            ),
            r is Err ==> final(self)@ == old(self)@,
    {
        let (network, len) = match RoutingTable::key_from_text(destination) {
            Some(k) => k,
            None => {
                return Err("Route not found".to_string());
            },
        };
        let ghost t = self@.routes;
        let i = match self.find_key(network, len) {
            None => {
                return Err("Route not found".to_string());
            },
            Some(i) => i,
        };
        match self.validate_route(route) {
            Err(e) => {
                return Err(e);
            },
            Ok(()) => {},
        }
        let ghost c = index_of_key(t, (network, len));
        assert(c == i as int);
        self.entries.set(i, RouteEntry { network, len, route: route.copy() });
        assert(self@.routes =~= t.update(i as int, entry_at((network, len), route@)));
        assert forall|a: int, b: int|
            0 <= a < self@.routes.len() && 0 <= b < self@.routes.len() && a != b implies key_of(
            #[trigger] self@.routes[a],
        ) != key_of(#[trigger] self@.routes[b]) by {
            assert(key_of(self@.routes[a]) == key_of(t[a]));
            assert(key_of(self@.routes[b]) == key_of(t[b]));
        }
        assert forall|a: int| 0 <= a < self@.routes.len() implies (#[trigger] self@.routes[
            a
        ]).len <= max_prefix(self@.routes[a].network) && net_of(
            self@.routes[a].network,
            self@.routes[a].len,
        ) == self@.routes[a].network by {
            assert(key_of(self@.routes[a]) == key_of(t[a]));
        }
        self.touch();
        Ok(())
    }

    /// The route stored for the CIDR prefix `destination`.
    pub fn get_route(&self, destination: &str) -> (r: Option<&Route>)
        requires
            self.wf(),
        ensures
            r is Some <==> (key_of_text(destination@) matches Some(k) && has_key(self@.routes, k)),
            r matches Some(x) ==> x@ == self@.routes[index_of_key(
                self@.routes,
                key_of_text(destination@)->Some_0,
            )].route,
    {
        let (network, len) = match RoutingTable::key_from_text(destination) {
            Some(k) => k,
            None => {
                return None;
            },
        };
        match self.find_key(network, len) {
            None => None,
            Some(i) => {
                let ghost c = index_of_key(self@.routes, (network, len));
                assert(c == i as int);
                assert(self@.routes[i as int].route == self.entries@[i as int].route@);
                Some(&self.entries[i].route)
            },
        }
    }

    /// Position of the longest active prefix containing `destination`.
    fn best_entry(&self, destination: IpAddress) -> (r: Option<usize>)
        requires
            self.wf(),
        ensures
            r is None <==> lpm(self@.routes, destination) is None,
            r matches Some(b) ==> b < self@.routes.len() && lpm(self@.routes, destination) == Some(
                self@.routes[b as int].route,
            ),
    {
        let ghost t = self@.routes;
        let mut best: Option<usize> = None;
        let mut i: usize = 0;
        while i < self.entries.len()
            invariant
                i <= self.entries@.len(),
                t == self@.routes,
                t.len() == self.entries@.len(),
                table_ok(t),
                best matches Some(b) ==> b < i && covers(t[b as int], destination) && forall|j: int|
                    0 <= j < i && covers(#[trigger] t[j], destination) ==> t[j].len <= t[b as int].len,
                best is None ==> forall|j: int| 0 <= j < i ==> !covers(#[trigger] t[j], destination),
            decreases self.entries@.len() - i,
        {
            let e = &self.entries[i];
            assert(t[i as int] == EntryView { network: e.network, len: e.len, route: e.route@ });
            let hit = e.route.is_active && in_prefix(destination, e.network, e.len);
            if hit {
                match best {
                    None => {
                        best = Some(i);
                    },
                    Some(b) => {
                        assert(t[b as int].len == self.entries@[b as int].len);
                        if e.len > self.entries[b].len {
                            best = Some(i);
                        }
                    },
                }
            }
            i = i + 1;
        }
        match best {
            None => {
                assert(!exists|k: int| is_best(t, destination, k));
                None
            },
            Some(b) => {
                proof {
                    lemma_lpm_is(t, destination, b as int);
                }
                Some(b)
            },
        }
    }

    /// Longest-prefix match of `destination` among the active routes of its
    /// family: the cache answers first; a miss scans the table and caches
    /// what it found.
    pub fn lookup_address(&mut self, destination: IpAddress) -> (r: Option<Route>)
        requires
            old(self).wf(),
        ensures
            final(self).wf(),
            final(self)@ == old(self)@,
            r is None <==> lpm(old(self)@.routes, destination) is None,
            r matches Some(x) ==> lpm(old(self)@.routes, destination) == Some(x@),
    {
        match destination {
            IpAddress::V4(d) => match self.cache4.get(&d) {
                Some(hit) => {
                    return Some(hit.copy());
                },
                None => {},
            },
            IpAddress::V6(d) => match self.cache6.get(&d) {
                Some(hit) => {
                    return Some(hit.copy());
                },
                None => {},
            },
        }
        match self.best_entry(destination) {
            None => None,
            Some(b) => {
                assert(self@.routes[b as int].route == self.entries@[b as int].route@);
                let found = self.entries[b].route.copy();
                let cached = self.entries[b].route.copy();
                match destination {
                    IpAddress::V4(d) => {
                        self.cache4.insert(d, cached);
                    },
                    IpAddress::V6(d) => {
                        self.cache6.insert(d, cached);
                    },
                }
                Some(found)
            },
        }
    }

    /// Longest-prefix match of the IPv4 address `destination`.
    pub fn lookup(&mut self, destination: u32) -> (r: Option<Route>)
        requires
            old(self).wf(),
        ensures
            final(self).wf(),
            final(self)@ == old(self)@,
            r is None <==> lpm(old(self)@.routes, IpAddress::V4(destination)) is None,
            r matches Some(x) ==> lpm(old(self)@.routes, IpAddress::V4(destination)) == Some(x@),
    {
        self.lookup_address(IpAddress::V4(destination))
    }

    /// Longest-prefix match of the IPv4 or IPv6 address written in
    /// `dest_ip`; none when the text is no address.
    pub fn find_best_route(&mut self, dest_ip: &str) -> (r: Option<Route>)
        requires
            old(self).wf(),
        ensures
            final(self).wf(),
            final(self)@ == old(self)@,
            ip_of(dest_ip@) is None ==> r is None,
            ip_of(dest_ip@) matches Some(d) ==> (r is None <==> lpm(old(self)@.routes, d) is None)
                && (r matches Some(x) ==> lpm(old(self)@.routes, d) == Some(x@)),
    {
        match parse_ip(dest_ip) {
            None => None,
            Some(d) => self.lookup_address(d),
        }
    }
}

/// A condition on routes.
pub enum Selection {
    All,
    Protocol(Seq<char>),
    Interface(Seq<char>),
    Active,
    MetricRange(u32, u32),
    PrefixRange(u8, u8),
}

pub open spec fn selects(s: Selection, r: RouteView) -> bool {
    match s {
        Selection::All => true,
        Selection::Protocol(p) => r.protocol == p,
        Selection::Interface(i) => r.interface == i,
        Selection::Active => r.is_active,
        Selection::MetricRange(lo, hi) => lo <= r.metric && r.metric <= hi,
        Selection::PrefixRange(lo, hi) => lo <= r.prefix_length && r.prefix_length <= hi,
    }
}

/// The routes of `t` that `s` selects, in table order.
pub open spec fn routes_where(t: Seq<EntryView>, s: Selection) -> Seq<RouteView>
    decreases t.len(),
{
    if t.len() == 0 {
        Seq::empty()
    } else if selects(s, t.last().route) {
        routes_where(t.drop_last(), s).push(t.last().route)
    } else {
        routes_where(t.drop_last(), s)
    }
}

/// How many routes of `t` `s` selects.
pub open spec fn count_where(t: Seq<EntryView>, s: Selection) -> nat {
    routes_where(t, s).len()
}

enum Pick<'a> {
    All,
    Protocol(&'a str),
    Interface(&'a str),
    Active,
    MetricRange(u32, u32),
    PrefixRange(u8, u8),
}

spec fn pick_view(p: Pick) -> Selection {
    match p {
        Pick::All => Selection::All,
        Pick::Protocol(q) => Selection::Protocol(q@),
        Pick::Interface(q) => Selection::Interface(q@),
        Pick::Active => Selection::Active,
        Pick::MetricRange(lo, hi) => Selection::MetricRange(lo, hi),
        Pick::PrefixRange(lo, hi) => Selection::PrefixRange(lo, hi),
    }
}

fn picks(p: &Pick, r: &Route) -> (b: bool)
    ensures
        b == selects(pick_view(*p), r@),
{
    match p {
        Pick::All => true,
        Pick::Protocol(q) => text_eq(r.protocol.as_str(), q),
        Pick::Interface(q) => text_eq(r.interface.as_str(), q),
        Pick::Active => r.is_active,
        Pick::MetricRange(lo, hi) => *lo <= r.metric && r.metric <= *hi,
        Pick::PrefixRange(lo, hi) => *lo <= r.prefix_length && r.prefix_length <= *hi,
    }
}

impl RoutingTable {
    fn select(&self, p: Pick) -> (out: Vec<&Route>)
        ensures
            out@.map_values(|x: &Route| x@) == routes_where(self@.routes, pick_view(p)),
    {
        let ghost t = self@.routes;
        let mut out: Vec<&Route> = Vec::new();
        let mut i: usize = 0;
        while i < self.entries.len()
            invariant
                i <= self.entries@.len(),
                t == self@.routes,
                t.len() == self.entries@.len(),
                out@.map_values(|x: &Route| x@) == routes_where(t.take(i as int), pick_view(p)),
            decreases self.entries@.len() - i,
        {
            assert(t.take(i + 1).drop_last() =~= t.take(i as int));
            assert(t.take(i + 1).last() == t[i as int]);
            assert(t[i as int].route == self.entries@[i as int].route@);
            let ghost before = out@;
            if picks(&p, &self.entries[i].route) {
                out.push(&self.entries[i].route);
                assert(out@.map_values(|x: &Route| x@) =~= before.map_values(|x: &Route| x@).push(
                    t[i as int].route,
                ));
            }
            i = i + 1;
        }
        assert(t.take(i as int) =~= t);
        out
    }

    fn count(&self, p: Pick) -> (n: usize)
        ensures
            n == count_where(self@.routes, pick_view(p)),
    {
        let ghost t = self@.routes;
        let mut n: usize = 0;
        let mut i: usize = 0;
        while i < self.entries.len()
            invariant
                i <= self.entries@.len(),
                t == self@.routes,
                t.len() == self.entries@.len(),
                n == count_where(t.take(i as int), pick_view(p)),
                n <= i,
            decreases self.entries@.len() - i,
        {
            assert(t.take(i + 1).drop_last() =~= t.take(i as int));
            assert(t.take(i + 1).last() == t[i as int]);
            assert(t[i as int].route == self.entries@[i as int].route@);
            if picks(&p, &self.entries[i].route) {
                n = n + 1;
            }
            i = i + 1;
        }
        assert(t.take(i as int) =~= t);
        n
    }

    /// Every route, in table order.
    pub fn get_all_routes(&self) -> (r: Vec<&Route>)
        ensures
            r@.map_values(|x: &Route| x@) == routes_where(self@.routes, Selection::All),
    {
        self.select(Pick::All)
    }

    /// The routes learnt from `protocol`, in table order.
    pub fn get_routes_by_protocol(&self, protocol: &str) -> (r: Vec<&Route>)
        ensures
            r@.map_values(|x: &Route| x@) == routes_where(
                self@.routes,
                Selection::Protocol(protocol@),
            ),
    {
        self.select(Pick::Protocol(protocol))
    }

    /// The routes leaving through `interface`, in table order.
    pub fn get_routes_by_interface(&self, interface: &str) -> (r: Vec<&Route>)
        ensures
            r@.map_values(|x: &Route| x@) == routes_where(
                self@.routes,
                Selection::Interface(interface@),
            ),
    {
        self.select(Pick::Interface(interface))
    }

    /// The active routes, in table order.
    pub fn get_active_routes(&self) -> (r: Vec<&Route>)
        ensures
            r@.map_values(|x: &Route| x@) == routes_where(self@.routes, Selection::Active),
    {
        self.select(Pick::Active)
    }

    /// The routes whose metric lies in `[min_metric, max_metric]`.
    pub fn get_routes_by_metric_range(&self, min_metric: u32, max_metric: u32) -> (r: Vec<&Route>)
        ensures
            r@.map_values(|x: &Route| x@) == routes_where(
                self@.routes,
                Selection::MetricRange(min_metric, max_metric),
            ),
    {
        self.select(Pick::MetricRange(min_metric, max_metric))
    }

    /// The routes whose prefix length lies in `[min_prefix, max_prefix]`.
    pub fn get_routes_by_prefix_length_range(&self, min_prefix: u8, max_prefix: u8) -> (r: Vec<
        &Route,
    >)
        ensures
            r@.map_values(|x: &Route| x@) == routes_where(
                self@.routes,
                Selection::PrefixRange(min_prefix, max_prefix),
            ),
    {
        self.select(Pick::PrefixRange(min_prefix, max_prefix))
    }

    /// Route counts: all, active, and per routing protocol.
    pub fn get_stats(&self) -> (s: RoutingStats)
        ensures
            s.total_routes == self@.routes.len(),
            s.active_routes == count_where(self@.routes, Selection::Active),
            s.bgp_routes == count_where(self@.routes, Selection::Protocol("bgp"@)),
            s.ospf_routes == count_where(self@.routes, Selection::Protocol("ospf"@)),
            s.isis_routes == count_where(self@.routes, Selection::Protocol("isis"@)),
            s.static_routes == count_where(self@.routes, Selection::Protocol("static"@)),
            s.last_update == self@.last_update,
    {
        RoutingStats {
            total_routes: self.entries.len(),
            active_routes: self.count(Pick::Active),
            bgp_routes: self.count(Pick::Protocol("bgp")),
            ospf_routes: self.count(Pick::Protocol("ospf")),
            isis_routes: self.count(Pick::Protocol("isis")),
            static_routes: self.count(Pick::Protocol("static")),
            last_update: self.last_update,
        }
    }

    /// Removes every route and zeroes the update counters.
    pub fn clear(&mut self)
        requires
            old(self).wf(),
        ensures
            final(self).wf(),
            final(self)@.routes.len() == 0,
            final(self)@.last_update == 0,
            final(self)@.total_updates == 0,
    {
        self.entries.clear();
        self.cache4.clear();
        self.cache6.clear();
        self.last_update = 0;
        self.total_updates = 0;
        assert(self@.routes =~= Seq::<EntryView>::empty());
    }

    /// Zeroes the update counters; the routes stay.
    pub fn reset(&mut self)
        requires
            old(self).wf(),
        ensures
            final(self).wf(),
            final(self)@ == (TableView { last_update: 0, total_updates: 0, ..old(self)@ }),
    {
        self.last_update = 0;
        self.total_updates = 0;
    }
}

impl RoutingTable {
    /// Whether the address `dest_ip` lies inside the CIDR prefix
    /// `route_dest` (of its family); false when the text is no prefix.
    pub fn matches_destination(&self, dest_ip: IpAddress, route_dest: &str) -> (r: bool)
        ensures
            r == (key_of_text(route_dest@) matches Some((net, len)) && net_of(dest_ip, len) == net),
    {
        match RoutingTable::key_from_text(route_dest) {
            None => false,
            Some((net, len)) => in_prefix(dest_ip, net, len),
        }
    }
}

/// One item per route: its protocol (or, with `by_interface`, its
/// interface) counted once.
pub open spec fn route_items(t: Seq<EntryView>, by_interface: bool) -> Seq<(Seq<char>, u64)> {
    t.map_values(
        |e: EntryView|
            (
                if by_interface {
                    e.route.interface
                } else {
                    e.route.protocol
                },
                1u64,
            ),
    )
}

impl RoutingTable {
    fn distribution(&self, by_interface: bool) -> (r: Vec<(String, u64)>)
        ensures
            text_pairs(r@) == totals(route_items(self@.routes, by_interface)),
    {
        let ghost items = route_items(self@.routes, by_interface);
        let mut out: Vec<(String, u64)> = Vec::new();
        assert(text_pairs(out@) =~= totals(items.take(0)));
        let mut i: usize = 0;
        while i < self.entries.len()
            invariant
                i <= self.entries@.len(),
                items == route_items(self@.routes, by_interface),
                items.len() == self.entries@.len(),
                text_pairs(out@) == totals(items.take(i as int)),
                keys_unique(text_pairs(out@)),
            decreases self.entries@.len() - i,
        {
            assert(items.take(i + 1).drop_last() =~= items.take(i as int));
            assert(items.take(i + 1).last() == items[i as int]);
            assert(self@.routes[i as int].route == self.entries@[i as int].route@);
            let r = &self.entries[i].route;
            if by_interface {
                tally_text(&mut out, r.interface.as_str(), 1);
            } else {
                tally_text(&mut out, r.protocol.as_str(), 1);
            }
            i = i + 1;
        }
        assert(items.take(i as int) =~= items);
        out
    }

    /// Number of routes per routing protocol, in order of first appearance.
    pub fn get_protocol_distribution(&self) -> (r: Vec<(String, u64)>)
        ensures
            text_pairs(r@) == totals(route_items(self@.routes, false)),
    {
        self.distribution(false)
    }

    /// Number of routes per egress interface, in order of first appearance.
    pub fn get_interface_distribution(&self) -> (r: Vec<(String, u64)>)
        ensures
            text_pairs(r@) == totals(route_items(self@.routes, true)),
    {
        self.distribution(true)
    }
}

/// Sum of the metrics of the routes.
pub open spec fn metric_sum(t: Seq<EntryView>) -> nat
    decreases t.len(),
{
    if t.len() == 0 {
        0
    } else {
        metric_sum(t.drop_last()) + t.last().route.metric as nat
    }
}

/// One item per route: its metric, counted once.
pub open spec fn metric_items(t: Seq<EntryView>) -> Seq<(u32, u64)> {
    t.map_values(|e: EntryView| (e.route.metric, 1u64))
}

/// Route counts with the distributions of protocols, interfaces and metrics.
#[derive(Debug)]
pub struct DetailedRoutingStats {
    pub basic_stats: RoutingStats,
    pub protocol_distribution: Vec<(String, u64)>,
    pub interface_distribution: Vec<(String, u64)>,
    pub metric_distribution: Vec<(u32, u64)>,
    pub average_metric: u64,
    pub total_updates: u64,
}

impl RoutingTable {
    /// Number of routes per metric, in order of first appearance.
    fn metric_distribution(&self) -> (r: Vec<(u32, u64)>)
        ensures
            r@ == totals(metric_items(self@.routes)),
    {
        let ghost items = metric_items(self@.routes);
        let mut out: Vec<(u32, u64)> = Vec::new();
        assert(out@ =~= totals(items.take(0)));
        let mut i: usize = 0;
        while i < self.entries.len()
            invariant
                i <= self.entries@.len(),
                items == metric_items(self@.routes),
                items.len() == self.entries@.len(),
                out@ == totals(items.take(i as int)),
                keys_unique(out@),
            decreases self.entries@.len() - i,
        {
            assert(items.take(i + 1).drop_last() =~= items.take(i as int));
            assert(items.take(i + 1).last() == items[i as int]);
            assert(self@.routes[i as int].route == self.entries@[i as int].route@);
            tally_word(&mut out, self.entries[i].route.metric, 1);
            i = i + 1;
        }
        assert(items.take(i as int) =~= items);
        out
    }

    /// Mean metric of the routes, rounded down; 0 for an empty table.
    fn average_metric(&self) -> (r: u64)
        ensures
            r == (if self@.routes.len() == 0 {
                0
            } else {
                metric_sum(self@.routes) / self@.routes.len()
            }),
    {
        let ghost t = self@.routes;
        let mut sum: u128 = 0;
        let mut i: usize = 0;
        while i < self.entries.len()
            invariant
                i <= self.entries@.len(),
                t == self@.routes,
                t.len() == self.entries@.len(),
                sum == metric_sum(t.take(i as int)),
                sum <= i * 0xffff_ffff,
            decreases self.entries@.len() - i,
        {
            assert(t.take(i + 1).drop_last() =~= t.take(i as int));
            assert(t[i as int].route == self.entries@[i as int].route@);
            sum = sum + self.entries[i].route.metric as u128;
            i = i + 1;
        }
        assert(t.take(i as int) =~= t);
        if i == 0 {
            return 0;
        }
        let avg = sum / i as u128;
        assert(avg <= 0xffff_ffff) by (nonlinear_arith)
            requires
                avg == sum / i as u128,
                sum <= i * 0xffff_ffff,
                i > 0,
        ;
        avg as u64
    }

    /// Route counts, distributions, mean metric and number of changes.
    pub fn get_detailed_stats(&self) -> (s: DetailedRoutingStats)
        ensures
            s.basic_stats.total_routes == self@.routes.len(),
            s.basic_stats.active_routes == count_where(self@.routes, Selection::Active),
            text_pairs(s.protocol_distribution@) == totals(route_items(self@.routes, false)),
            text_pairs(s.interface_distribution@) == totals(route_items(self@.routes, true)),
            s.metric_distribution@ == totals(metric_items(self@.routes)),
            s.average_metric == (if self@.routes.len() == 0 {
                0
            } else {
                metric_sum(self@.routes) / self@.routes.len()
            }),
            s.total_updates == self@.total_updates,
    {
        DetailedRoutingStats {
            basic_stats: self.get_stats(),
            protocol_distribution: self.get_protocol_distribution(),
            interface_distribution: self.get_interface_distribution(),
            metric_distribution: self.metric_distribution(),
            average_metric: self.average_metric(),
            total_updates: self.total_updates,
        }
    }
}

impl Default for RoutingTable {
    fn default() -> (t: RoutingTable)
        ensures
            t@.routes.len() == 0,
    {
        RoutingTable::new()
    }
}

/// Two addresses of the same family.
pub open spec fn same_family(a: IpAddress, b: IpAddress) -> bool {
    match (a, b) {
        (IpAddress::V4(_), IpAddress::V4(_)) => true,
        (IpAddress::V6(_), IpAddress::V6(_)) => true,
        _ => false,
    }
}

proof fn lemma_default_covers(n: IpAddress, d: IpAddress)
    requires
        net_of(n, 0) == n,
        same_family(n, d),
    ensures
        net_of(d, 0) == n,
{
    match (n, d) {
        (IpAddress::V4(x), IpAddress::V4(y)) => {
            assert(x & 0 == 0) by (bit_vector);
            assert(y & 0 == 0) by (bit_vector);
        },
        (IpAddress::V6(x), IpAddress::V6(y)) => {
            assert(x & 0 == 0) by (bit_vector);
            assert(y & 0 == 0) by (bit_vector);
        },
        _ => {},
    }
}

/// With one specific prefix and a default route in the table, a destination
/// of the default route's family inside the specific prefix resolves to it,
/// and every other one resolves to the default route. (A table's entries
/// are well formed: see `RoutingTable::lemma_wf_table`.)
pub proof fn specific_prefix_beats_default(t: Seq<EntryView>, d: IpAddress)
    requires
        table_ok(t),
        t.len() == 2,
        t[0].route.is_active && t[1].route.is_active,
        t[0].len > 0,
        t[1].len == 0,
        same_family(t[1].network, d),
    ensures
        covers(t[0], d) ==> lpm(t, d) == Some(t[0].route),
        !covers(t[0], d) ==> lpm(t, d) == Some(t[1].route),
{
    assert(net_of(t[1].network, t[1].len) == t[1].network);
    lemma_default_covers(t[1].network, d);
    assert(covers(t[1], d));
    if covers(t[0], d) {
        assert(is_best(t, d, 0));
        lemma_lpm_is(t, d, 0);
    } else {
        assert(is_best(t, d, 1));
        lemma_lpm_is(t, d, 1);
    }
}

proof fn lemma_entry_ok(r: RouteView)
    requires
        route_valid(r),
    ensures
        entry_of(r).len <= max_prefix(entry_of(r).network),
        net_of(entry_of(r).network, entry_of(r).len) == entry_of(r).network,
{
    let (a, l) = cidr_of(r.destination)->Some_0;
    lemma_net_idempotent(a, l);
    assert(max_prefix(net_of(a, l)) == max_prefix(a));
}

/// Two valid routes for the same prefix added to an empty table: a
/// destination inside the prefix resolves to the one with the lower metric,
/// and to the later one when the metrics are equal. The table holds one
/// entry per prefix, so of two routes with one prefix only this one stays.
pub proof fn lower_metric_wins(r1: RouteView, r2: RouteView, d: IpAddress)
    requires
        route_valid(r1),
        route_valid(r2),
        key_of(entry_of(r1)) == key_of(entry_of(r2)),
        r1.is_active && r2.is_active,
        covers(entry_of(r1), d),
    ensures
        lpm(inserted(inserted(Seq::empty(), entry_of(r1)), entry_of(r2)), d) == Some(
            if r2.metric <= r1.metric {
                r2
            } else {
                r1
            },
        ),
{
    let e1 = entry_of(r1);
    let e2 = entry_of(r2);
    let t0 = Seq::<EntryView>::empty();
    assert(!has_key(t0, key_of(e1)));
    let t1 = inserted(t0, e1);
    assert(t1 =~= seq![e1]);
    assert(key_of(t1[0]) == key_of(e2));
    assert(has_key(t1, key_of(e2)));
    let i = index_of_key(t1, key_of(e2));
    assert(i == 0);
    let t2 = inserted(t1, e2);
    lemma_entry_ok(r1);
    lemma_entry_ok(r2);
    if r2.metric <= r1.metric {
        assert(t2 =~= seq![e2]);
        assert(is_best(t2, d, 0));
        lemma_lpm_is(t2, d, 0);
    } else {
        assert(t2 =~= seq![e1]);
        assert(is_best(t2, d, 0));
        lemma_lpm_is(t2, d, 0);
    }
}

} // verus!
