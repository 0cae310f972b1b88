//! Network prefixes and addresses as plain integers, and the prefix
//! arithmetic of `zettabgp` that the route table relies on.
//!
//! An IPv4 prefix is `(address, length)` with the address as a big-endian
//! `u32`; IPv6 uses a `u128`; a MAC prefix holds the 48-bit address in a
//! `u64`. Tuples order lexicographically, as `zettabgp`'s derived order of
//! its prefix structs (address first, then length) does.

use vstd::prelude::*;
use vstd::arithmetic::power2::pow2;
use crate::text::is_white_space;
use zettabgp::afi::mac::MacAddress;
use zettabgp::prelude::{BgpAddrMac, BgpAddrV4, BgpAddrV6, BgpCommunityList, BgpNet};

verus! {

/// An IPv4 prefix: address (big-endian) and prefix length.
pub type NetV4 = (u32, u8);

/// An IPv6 prefix: address (big-endian) and prefix length.
pub type NetV6 = (u128, u8);

/// A MAC prefix: the 48-bit address and prefix length.
pub type NetMac = (u64, u8);

/// A prefix of one of the families that `zettabgp`'s `BgpNet` parses.
#[derive(Clone, Copy, Debug, PartialEq, Eq, Structural)]
pub enum NetPrefix {
    V4(u32, u8),
    V6(u128, u8),
    Mac(u64, u8),
}

/// An IP address.
#[derive(Clone, Copy, Debug, PartialEq, Eq, Structural)]
pub enum IpAddress {
    V4(u32),
    V6(u128),
}

/// A socket address; `flowinfo` and `scope_id` are those of an IPv6 socket
/// address and 0 for IPv4.
#[derive(Clone, Copy, Debug, PartialEq, Eq, Structural)]
pub struct SocketAddress {
    pub ip: IpAddress,
    pub port: u16,
    pub flowinfo: u32,
    pub scope_id: u32,
}

// ---------------------------------------------------------------------------
// Prefix arithmetic, as `zettabgp` 0.6 computes it.
// ---------------------------------------------------------------------------

/// Lexicographic order of IPv4 prefixes: address, then length.
pub open spec fn le_v4(a: NetV4, b: NetV4) -> bool {
    a.0 < b.0 || (a.0 == b.0 && a.1 <= b.1)
}

/// Lexicographic order of IPv6 prefixes: address, then length.
pub open spec fn le_v6(a: NetV6, b: NetV6) -> bool {
    a.0 < b.0 || (a.0 == b.0 && a.1 <= b.1)
}

/// The network address of an IPv4 prefix of length 1..=32: the address with
/// its `32 - len` low bits cleared.
pub open spec fn low_v4(n: NetV4) -> int {
    let k = pow2((32 - n.1) as nat) as int;
    (n.0 as int / k) * k
}

/// `BgpAddrV4::in_subnet`: whether address `a` falls in prefix `n`.
pub open spec fn in_subnet_v4(n: NetV4, a: u32) -> bool {
    if n.1 == 0 {
        true
    } else if n.1 > 31 {
        n.0 == a
    } else {
        let k = pow2((32 - n.1) as nat) as int;
        low_v4(n) <= a && a <= low_v4(n) + k - 1
    }
}

/// `BgpAddrV4::range_first`, for lengths up to 32.
pub open spec fn range_first_v4(n: NetV4) -> int {
    low_v4(n)
}

/// `BgpAddrV4::range_last`, for lengths up to 32: the last address of the prefix.
pub open spec fn range_last_v4(n: NetV4) -> int {
    if n.1 < 1 {
        0xffff_ffff
    } else if n.1 > 31 {
        range_first_v4(n)
    } else {
        low_v4(n) + pow2((32 - n.1) as nat) - 1
    }
}

/// Inputs on which `BgpAddrV4::contains` panics: it takes the first address
/// of a prefix longer than 32 bits.
pub open spec fn contains_v4_panics(outer: NetV4, inner: NetV4) -> bool {
    1 <= outer.1 && outer.1 < inner.1 && inner.1 > 32
}

/// `BgpAddrV4::contains`: whether prefix `inner` lies within `outer`.
pub open spec fn contains_v4(outer: NetV4, inner: NetV4) -> bool {
    if outer.1 < 1 {
        true
    } else if outer.1 > inner.1 {
        false
    } else if outer.1 == inner.1 {
        outer.0 == inner.0
    } else {
        in_subnet_v4(outer, range_first_v4(inner) as u32) && in_subnet_v4(
            outer,
            range_last_v4(inner) as u32,
        )
    }
}

/// The network address of an IPv6 prefix of length 1..=128.
pub open spec fn low_v6(n: NetV6) -> int {
    let k = pow2((128 - n.1) as nat) as int;
    (n.0 as int / k) * k
}

/// `BgpAddrV6::in_subnet`, for lengths of at least 1. For lengths up to 127
/// the last address of the prefix is not counted in, as the crate's
/// comparison is strict.
pub open spec fn in_subnet_v6(n: NetV6, a: u128) -> bool {
    if n.1 > 127 {
        n.0 == a
    } else {
        let k = pow2((128 - n.1) as nat) as int;
        low_v6(n) <= a && a < low_v6(n) + k - 1
    }
}

/// `BgpAddrV6::range_last`, for lengths up to 128.
pub open spec fn range_last_v6(n: NetV6) -> int {
    if n.1 < 1 {
        0xffff_ffff_ffff_ffff_ffff_ffff_ffff_ffff
    } else if n.1 > 127 {
        low_v6(n)
    } else {
        low_v6(n) + pow2((128 - n.1) as nat) - 1
    }
}

/// Inputs on which `BgpAddrV6::contains` panics: it masks with a prefix
/// longer than 128 bits.
pub open spec fn contains_v6_panics(outer: NetV6, inner: NetV6) -> bool {
    1 <= outer.1 && outer.1 < inner.1 && outer.1 > 128
}

/// `BgpAddrV6::contains`: whether prefix `inner` lies within `outer`.
pub open spec fn contains_v6(outer: NetV6, inner: NetV6) -> bool {
    if outer.1 < 1 {
        true
    } else if outer.1 > inner.1 {
        false
    } else if outer.1 == inner.1 {
        outer.0 == inner.0
    } else {
        let k = pow2((128 - outer.1) as nat) as int;
        outer.0 as int / k == inner.0 as int / k
    }
}

/// The 48 bits of a MAC address that `zettabgp`'s `MacAddress` keeps.
pub open spec fn mac48(v: u64) -> int {
    v as int % 0x1_0000_0000_0000
}

/// The network address of a MAC prefix of length 1..=48.
pub open spec fn low_mac(n: NetMac) -> int {
    let k = pow2((48 - n.1) as nat) as int;
    (mac48(n.0) / k) * k
}

/// `BgpAddrMac::in_subnet`.
pub open spec fn in_subnet_mac(n: NetMac, a: int) -> bool {
    if n.1 == 0 {
        true
    } else if n.1 > 47 {
        mac48(n.0) == a
    } else {
        let k = pow2((48 - n.1) as nat) as int;
        low_mac(n) <= a && a <= low_mac(n) + k - 1
    }
}

/// `BgpAddrMac::range_last`, for lengths up to 48.
pub open spec fn range_last_mac(n: NetMac) -> int {
    if n.1 < 1 {
        0xffff_ffff_ffff
    } else if n.1 > 47 {
        low_mac(n)
    } else {
        low_mac(n) + pow2((48 - n.1) as nat) - 1
    }
}

/// Inputs on which `BgpAddrMac::contains` panics.
pub open spec fn contains_mac_panics(outer: NetMac, inner: NetMac) -> bool {
    1 <= outer.1 && outer.1 < inner.1 && inner.1 > 48
}

/// `BgpAddrMac::contains`.
pub open spec fn contains_mac(outer: NetMac, inner: NetMac) -> bool {
    if outer.1 < 1 {
        true
    } else if outer.1 > inner.1 {
        false
    } else if outer.1 == inner.1 {
        mac48(outer.0) == mac48(inner.0)
    } else {
        in_subnet_mac(outer, low_mac(inner)) && in_subnet_mac(outer, range_last_mac(inner))
    }
}

/// Inputs on which `BgpNet::contains` panics.
pub open spec fn net_contains_panics(outer: NetPrefix, inner: NetPrefix) -> bool {
    match (outer, inner) {
        (NetPrefix::V4(a, al), NetPrefix::V4(b, bl)) => contains_v4_panics((a, al), (b, bl)),
        (NetPrefix::V6(a, al), NetPrefix::V6(b, bl)) => contains_v6_panics((a, al), (b, bl)),
        (NetPrefix::Mac(a, al), NetPrefix::Mac(b, bl)) => contains_mac_panics((a, al), (b, bl)),
        _ => false,
    }
}

/// `BgpNet::contains`: prefixes of different families never contain each other.
pub open spec fn net_contains(outer: NetPrefix, inner: NetPrefix) -> bool {
    match (outer, inner) {
        (NetPrefix::V4(a, al), NetPrefix::V4(b, bl)) => contains_v4((a, al), (b, bl)),
        (NetPrefix::V6(a, al), NetPrefix::V6(b, bl)) => contains_v6((a, al), (b, bl)),
        (NetPrefix::Mac(a, al), NetPrefix::Mac(b, bl)) => contains_mac((a, al), (b, bl)),
        _ => false,
    }
}

// ---------------------------------------------------------------------------
// Calls into zettabgp.
// ---------------------------------------------------------------------------

/// Calls `BgpAddrV4::in_subnet`; the contract restates that method's source:
/// length 0 holds every address, lengths above 31 only the address itself,
/// other lengths the addresses from the network address to the last one.
#[verifier::external_body]
pub(crate) fn zb_in_subnet_v4(n: NetV4, a: u32) -> (r: bool)
    ensures
        r == in_subnet_v4(n, a),
{
    BgpAddrV4::new(n.0.into(), n.1).in_subnet(&a.into())
}

/// Calls `BgpAddrV4::range_last`; the contract restates that method's source.
/// Lengths above 32 make it shift out of range, so they are left out.
#[verifier::external_body]
pub(crate) fn zb_range_last_v4(n: NetV4) -> (r: u32)
    requires
        n.1 <= 32,
    ensures
        r == range_last_v4(n),
{
    u32::from(BgpAddrV4::new(n.0.into(), n.1).range_last())
}

/// Calls `BgpAddrV4::contains`; the contract restates that method's source.
#[verifier::external_body]
pub(crate) fn zb_contains_v4(outer: NetV4, inner: NetV4) -> (r: bool)
    requires
        !contains_v4_panics(outer, inner),
    ensures
        r == contains_v4(outer, inner),
{
    BgpAddrV4::new(outer.0.into(), outer.1).contains(
        &BgpAddrV4::new(inner.0.into(), inner.1),
    )
}

/// Calls `BgpAddrV6::in_subnet`; the contract restates that method's source,
/// whose upper bound is exclusive. Length 0 makes it shift out of range, so
/// it is left out.
#[verifier::external_body]
pub(crate) fn zb_in_subnet_v6(n: NetV6, a: u128) -> (r: bool)
    requires
        n.1 >= 1,
    ensures
        r == in_subnet_v6(n, a),
{
    BgpAddrV6::new(n.0.into(), n.1).in_subnet(&a.into())
}

/// Calls `BgpAddrV6::range_last`; the contract restates that method's source.
/// Lengths above 128 make it shift out of range, so they are left out.
#[verifier::external_body]
pub(crate) fn zb_range_last_v6(n: NetV6) -> (r: u128)
    requires
        n.1 <= 128,
    ensures
        r == range_last_v6(n),
{
    u128::from(BgpAddrV6::new(n.0.into(), n.1).range_last())
}

/// Calls `BgpAddrV6::contains`; the contract restates that method's source.
#[verifier::external_body]
pub(crate) fn zb_contains_v6(outer: NetV6, inner: NetV6) -> (r: bool)
    requires
        !contains_v6_panics(outer, inner),
    ensures
        r == contains_v6(outer, inner),
{
    BgpAddrV6::new(outer.0.into(), outer.1).contains(
        &BgpAddrV6::new(inner.0.into(), inner.1),
    )
}

/// Calls `BgpAddrMac::contains` on addresses built by
/// `MacAddress::from_u64`, which keeps the low 48 bits; the contract
/// restates the source of both.
#[verifier::external_body]
pub(crate) fn zb_contains_mac(outer: NetMac, inner: NetMac) -> (r: bool)
    requires
        !contains_mac_panics(outer, inner),
    ensures
        r == contains_mac(outer, inner),
{
    BgpAddrMac::new(MacAddress::from_u64(outer.0), outer.1).contains(
        &BgpAddrMac::new(MacAddress::from_u64(inner.0), inner.1),
    )
}

/// What `BgpNet::from_str` gives for a string: an IPv4 prefix, else an IPv6
/// prefix, else a MAC prefix, as the crate's parsers decide.
pub uninterp spec fn spec_parse_net(s: Seq<char>) -> Option<NetPrefix>;

/// Calls `BgpNet::from_str` and converts the result; its result is a
/// function of the string alone and is named `spec_parse_net`. Its source
/// bounds no prefix length: a length that does not parse as a `u8` becomes
/// 32 (IPv4), 128 (IPv6) or 48 (MAC), any other `u8` is kept.
#[verifier::external_body]
pub(crate) fn zb_parse_net(s: &str) -> (r: Option<NetPrefix>)
    ensures
        r == spec_parse_net(s@),
{
    match s.parse::<BgpNet>() {
        Ok(BgpNet::V4(a)) => Some(NetPrefix::V4(u32::from(a.addr), a.prefixlen)),
        Ok(BgpNet::V6(a)) => Some(NetPrefix::V6(u128::from(a.addr), a.prefixlen)),
        Ok(BgpNet::MAC(a)) => Some(NetPrefix::Mac(a.addr.to_u64(), a.prefixlen)),
        Err(_) => None,
    }
}

/// How `BgpNet`'s `Display` writes a prefix.
pub uninterp spec fn spec_net_text(n: NetPrefix) -> Seq<char>;

/// Writes a prefix with `BgpNet`'s `Display`; its result is a function of
/// the prefix and is named `spec_net_text`. For an IPv4 or IPv6 prefix the
/// source writes the address with std's `Display` (`Debug` for IPv6, which
/// std writes the same way), a `/` and the length in decimal: text without
/// whitespace, which `BgpAddrV4::from_str` (IPv4) or `BgpAddrV6::from_str`
/// (IPv6) reads back to the same prefix, and in which the IPv4 reader, on
/// an IPv6 address, finds no address.
#[verifier::external_body]
pub(crate) fn zb_net_text(n: &NetPrefix) -> (r: String)
    ensures
        r@ == spec_net_text(*n),
        (n is V4 || n is V6) ==> r@.len() > 0,
        (n is V4 || n is V6) ==> forall|i: int| 0 <= i < r@.len() ==> !is_white_space(#[trigger] r@[i]),
        *n matches NetPrefix::V4(a, l) ==> spec_parse_addr_v4(r@) == Some((a, l)),
        *n matches NetPrefix::V6(a, l) ==> spec_parse_addr_v4(r@) is None && spec_parse_addr_v6(r@) == Some((a, l)),
{
    match n {
        NetPrefix::V4(a, l) => format!("{}", BgpNet::V4(BgpAddrV4::new((*a).into(), *l))),
        NetPrefix::V6(a, l) => format!("{}", BgpNet::V6(BgpAddrV6::new((*a).into(), *l))),
        NetPrefix::Mac(a, l) => format!("{}", BgpNet::MAC(BgpAddrMac::new(MacAddress::from_u64(*a), *l))),
    }
}

/// What `BgpAddrV4::from_str` gives for a string.
pub uninterp spec fn spec_parse_addr_v4(s: Seq<char>) -> Option<NetV4>;

/// Calls `BgpAddrV4::from_str` and converts the result; named `spec_parse_addr_v4`.
#[verifier::external_body]
pub(crate) fn zb_parse_addr_v4(s: &str) -> (r: Option<NetV4>)
    ensures
        r == spec_parse_addr_v4(s@),
{
    match s.parse::<BgpAddrV4>() {
        Ok(a) => Some((u32::from(a.addr), a.prefixlen)),
        Err(_) => None,
    }
}

/// What `BgpAddrV6::from_str` gives for a string.
pub uninterp spec fn spec_parse_addr_v6(s: Seq<char>) -> Option<NetV6>;

/// Calls `BgpAddrV6::from_str` and converts the result; named `spec_parse_addr_v6`.
#[verifier::external_body]
pub(crate) fn zb_parse_addr_v6(s: &str) -> (r: Option<NetV6>)
    ensures
        r == spec_parse_addr_v6(s@),
{
    match s.parse::<BgpAddrV6>() {
        Ok(a) => Some((u128::from(a.addr), a.prefixlen)),
        Err(_) => None,
    }
}

// ---------------------------------------------------------------------------
// Verified operations on prefixes.
// ---------------------------------------------------------------------------

impl NetPrefix {
    /// Whether `inner` lies within this prefix, as `BgpNet::contains` decides.
    pub fn contains(&self, inner: &NetPrefix) -> (r: bool)
        requires
            !net_contains_panics(*self, *inner),
        ensures
            r == net_contains(*self, *inner),
    {
        match (self, inner) {
            (NetPrefix::V4(a, al), NetPrefix::V4(b, bl)) => zb_contains_v4((*a, *al), (*b, *bl)),
            (NetPrefix::V6(a, al), NetPrefix::V6(b, bl)) => zb_contains_v6((*a, *al), (*b, *bl)),
            (NetPrefix::Mac(a, al), NetPrefix::Mac(b, bl)) => zb_contains_mac((*a, *al), (*b, *bl)),
            _ => false,
        }
    }

    /// Parses a prefix as `BgpNet::from_str` does.
    pub fn parse(s: &str) -> (r: Option<NetPrefix>)
        ensures
            r == spec_parse_net(s@),
    {
        zb_parse_net(s)
    }

    /// The prefix as `BgpNet` writes it, such as `10.0.0.0/8`: for an IPv4
    /// or IPv6 prefix, text without whitespace that the prefix readers of
    /// its family read back to the same prefix.
    pub fn to_string(&self) -> (r: String)
        ensures
            r@ == spec_net_text(*self),
            (self is V4 || self is V6) ==> r@.len() > 0,
            (self is V4 || self is V6) ==> forall|i: int|
                0 <= i < r@.len() ==> !is_white_space(#[trigger] r@[i]),
            *self matches NetPrefix::V4(a, l) ==> spec_parse_addr_v4(r@) == Some((a, l)),
            *self matches NetPrefix::V6(a, l) ==> spec_parse_addr_v4(r@) is None
                && spec_parse_addr_v6(r@) == Some((a, l)),
    {
        zb_net_text(self)
    }
}

/// Whether IPv4 prefix `k` is among those that withdrawing `w` removes: the
/// prefixes from `w` up to `(range_last(w), 32)` in prefix order whose address
/// lies in `w`.
pub open spec fn covered_v4(w: NetV4, k: NetV4) -> bool {
    &&& le_v4(w, k)
    &&& le_v4(k, (range_last_v4(w) as u32, 32u8))
    &&& in_subnet_v4(w, k.0)
}

/// Whether IPv6 prefix `k` is among those that withdrawing `w` removes.
pub open spec fn covered_v6(w: NetV6, k: NetV6) -> bool {
    &&& le_v6(w, k)
    &&& le_v6(k, (range_last_v6(w) as u128, 128u8))
    &&& in_subnet_v6(w, k.0)
}

/// Whether withdrawing `w` removes `k` from the table (`w` of length up to 32).
pub fn withdraw_covers_v4(w: NetV4, k: NetV4) -> (r: bool)
    requires
        w.1 <= 32,
    ensures
        r == covered_v4(w, k),
{
    let last = zb_range_last_v4(w);
    let in_range = (w.0 < k.0 || (w.0 == k.0 && w.1 <= k.1)) && (k.0 < last || (k.0 == last
        && k.1 <= 32));
    in_range && zb_in_subnet_v4(w, k.0)
}

/// Whether withdrawing `w` removes `k` from the table (`w` of length up to
/// 128; of length 0 only where `k` is below `w`, as the crate's subnet test
/// shifts out of range for length 0).
pub fn withdraw_covers_v6(w: NetV6, k: NetV6) -> (r: bool)
    requires
        w.1 <= 128,
        w.1 == 0 ==> !le_v6(w, k),
    ensures
        r == covered_v6(w, k),
{
    let last = zb_range_last_v6(w);
    let in_range = (w.0 < k.0 || (w.0 == k.0 && w.1 <= k.1)) && (k.0 < last || (k.0 == last
        && k.1 <= 128));
    in_range && zb_in_subnet_v6(w, k.0)
}

} // verus!

verus! {

/// What `Ipv4Addr::from_str` gives for a string, as a big-endian integer.
pub uninterp spec fn spec_parse_ipv4(s: Seq<char>) -> Option<u32>;

/// Calls `Ipv4Addr::from_str`; its result is a function of the string and
/// is named `spec_parse_ipv4`.
#[verifier::external_body]
pub(crate) fn std_parse_ipv4(s: &str) -> (r: Option<u32>)
    ensures
        r == spec_parse_ipv4(s@),
{
    s.parse::<core::net::Ipv4Addr>().ok().map(u32::from)
}

/// What `Ipv6Addr::from_str` gives for a string, as a big-endian integer.
pub uninterp spec fn spec_parse_ipv6(s: Seq<char>) -> Option<u128>;

/// Calls `Ipv6Addr::from_str`; named `spec_parse_ipv6`.
#[verifier::external_body]
pub(crate) fn std_parse_ipv6(s: &str) -> (r: Option<u128>)
    ensures
        r == spec_parse_ipv6(s@),
{
    s.parse::<core::net::Ipv6Addr>().ok().map(u128::from)
}

/// What `IpAddr::from_str` gives for a string.
pub uninterp spec fn spec_parse_ip(s: Seq<char>) -> Option<IpAddress>;

/// Calls `IpAddr::from_str` and converts the result; named `spec_parse_ip`.
#[verifier::external_body]
pub(crate) fn std_parse_ip(s: &str) -> (r: Option<IpAddress>)
    ensures
        r == spec_parse_ip(s@),
{
    match s.parse::<core::net::IpAddr>() {
        Ok(core::net::IpAddr::V4(a)) => Some(IpAddress::V4(u32::from(a))),
        Ok(core::net::IpAddr::V6(a)) => Some(IpAddress::V6(u128::from(a))),
        Err(_) => None,
    }
}

/// What `SocketAddr::from_str` gives for a string.
pub uninterp spec fn spec_parse_socket(s: Seq<char>) -> Option<SocketAddress>;

/// Calls `SocketAddr::from_str` and converts the result; named `spec_parse_socket`.
#[verifier::external_body]
pub(crate) fn std_parse_socket(s: &str) -> (r: Option<SocketAddress>)
    ensures
        r == spec_parse_socket(s@),
{
    match s.parse::<core::net::SocketAddr>() {
        Ok(core::net::SocketAddr::V4(a)) => Some(SocketAddress {
            ip: IpAddress::V4(u32::from(*a.ip())),
            port: a.port(),
            flowinfo: 0,
            scope_id: 0,
        }),
        Ok(core::net::SocketAddr::V6(a)) => Some(SocketAddress {
            ip: IpAddress::V6(u128::from(*a.ip())),
            port: a.port(),
            flowinfo: a.flowinfo(),
            scope_id: a.scope_id(),
        }),
        Err(_) => None,
    }
}

/// The community values that `BgpCommunityList::from_str` gives for a
/// string, in the order of its set.
pub uninterp spec fn spec_parse_communities(s: Seq<char>) -> Seq<u32>;

/// Calls `BgpCommunityList::from_str`, which never fails (pieces that are no
/// community are skipped), and lists the values of the communities; named
/// `spec_parse_communities`.
#[verifier::external_body]
pub(crate) fn zb_parse_communities(s: &str) -> (r: Vec<u32>)
    ensures
        r@ == spec_parse_communities(s@),
{
    match s.parse::<BgpCommunityList>() {
        Ok(l) => l.value.iter().map(|c| c.value).collect(),
        Err(_) => Vec::new(),
    }
}

/// How `IpAddr`'s `Display` writes an address.
pub uninterp spec fn spec_ip_text(a: IpAddress) -> Seq<char>;

/// Writes an address with `IpAddr`'s `Display`; its result is a function of
/// the address and is named `spec_ip_text`.
#[verifier::external_body]
pub(crate) fn std_ip_text(a: &IpAddress) -> (r: String)
    ensures
        r@ == spec_ip_text(*a),
{
    match a {
        IpAddress::V4(v) => format!("{}", core::net::IpAddr::V4((*v).into())),
        IpAddress::V6(v) => format!("{}", core::net::IpAddr::V6((*v).into())),
    }
}

} // verus!
