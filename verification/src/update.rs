//! Writing UPDATE messages and reading NOTIFICATION messages with zettabgp.
//!
//! The library chooses what an UPDATE carries (`message_attrs`,
//! `nlri_field`); zettabgp writes it. The lengths below are those of
//! zettabgp's encoders, which write a piece's leading bytes before they
//! check the room left: a message that fits its buffer is written whole,
//! and a prefix longer than its family's addresses makes them panic.

use vstd::prelude::*;
use crate::net::{IpAddress, NetV4, NetV6};
use crate::open::{caps_view, framed, frame_message, CapView, OpenedSession};
use crate::session::{
    attr_views, attrs_of, message_attrs, nlri_field, nlri_of, AttrView, MessageKind, MessageView, Nlri, NlriView,
    PathAttr, TransportMode, UpdateMessage,
};
use zettabgp::prelude::{
    BgpASpath, BgpAddr, BgpAddrV4, BgpAddrV6, BgpAddrs, BgpAttrItem, BgpAttrOrigin, BgpCommunity, BgpCommunityList,
    BgpLocalpref, BgpMPUpdates, BgpMPWithdraws, BgpMessage, BgpNextHop, BgpNotificationMessage, BgpOrigin,
    BgpSessionParams, BgpTransportMode, BgpUpdateMessage, Labeled, MplsLabels,
};

verus! {

/// A path attribute as zettabgp holds it, carried through unread.
#[verifier::external_type_specification]
#[verifier::external_body]
pub struct ExBgpAttrItem(BgpAttrItem);

/// An NLRI list as zettabgp holds it, carried through unread.
#[verifier::external_type_specification]
#[verifier::external_body]
pub struct ExBgpAddrs(BgpAddrs);

/// A next-hop address as zettabgp holds it, carried through unread.
#[verifier::external_type_specification]
#[verifier::external_body]
pub struct ExBgpAddr(BgpAddr);

/// zettabgp's transport mode, carried through unread.
#[verifier::external_type_specification]
#[verifier::external_body]
pub struct ExBgpTransportMode(BgpTransportMode);

// ---------------------------------------------------------------------------
// Lengths.
// ---------------------------------------------------------------------------

/// The bytes of the address part of a prefix of `l` bits.
pub open spec fn prefix_bytes(l: u8) -> int {
    (l as int + 7) / 8
}

/// The bytes of NLRI items of prefix lengths `ls`, each with a length byte
/// and `extra` more bytes (3 for a label).
pub open spec fn items_len(ls: Seq<u8>, extra: int) -> int
    decreases ls.len(),
{
    if ls.len() == 0 {
        0
    } else {
        items_len(ls.drop_last(), extra) + 1 + extra + prefix_bytes(ls.last())
    }
}

/// The prefix lengths of IPv4 prefixes.
pub open spec fn lens_v4(s: Seq<NetV4>) -> Seq<u8> {
    s.map_values(|p: NetV4| p.1)
}

/// The prefix lengths of IPv6 prefixes.
pub open spec fn lens_v6(s: Seq<NetV6>) -> Seq<u8> {
    s.map_values(|p: NetV6| p.1)
}

/// The bytes of an address: 4 for IPv4, 16 for IPv6.
pub open spec fn addr_bytes(a: IpAddress) -> int {
    match a {
        IpAddress::V4(_) => 4,
        IpAddress::V6(_) => 16,
    }
}

/// The bytes zettabgp writes for a path attribute (a next hop of the other
/// family is refused, and counted as if written).
pub open spec fn attr_len(a: AttrView) -> int {
    match a {
        AttrView::OriginIncomplete => 4,
        AttrView::EmptyAsPath => 4,
        AttrView::LocalPref(_) => 7,
        AttrView::Communities(c) => 4 + 4 * c.len() as int,
        AttrView::NextHop(h) => 3 + addr_bytes(h),
        AttrView::MpWithdraws4(v, _) => 7 + items_len(lens_v4(v), 3),
        AttrView::MpWithdraws6(v, _) => 7 + items_len(lens_v6(v), 3),
        AttrView::MpUpdates4(h, v, _) => 9 + addr_bytes(h) + items_len(lens_v4(v), 3),
        AttrView::MpUpdates6(h, v, _) => 9 + addr_bytes(h) + items_len(lens_v6(v), 3),
    }
}

/// The bytes of a list of path attributes.
pub open spec fn attrs_len(s: Seq<AttrView>) -> int
    decreases s.len(),
{
    if s.len() == 0 {
        0
    } else {
        attrs_len(s.drop_last()) + attr_len(s.last())
    }
}

/// The bytes of an NLRI field in a session over `mode`: zettabgp writes
/// the prefixes of the session's family only.
pub open spec fn field_len(n: NlriView, mode: TransportMode) -> int {
    match (n, mode) {
        (NlriView::V4(s), TransportMode::IPv4) => items_len(lens_v4(s), 0),
        (NlriView::V6(s), TransportMode::IPv6) => items_len(lens_v6(s), 0),
        _ => 0,
    }
}

/// The bytes of an UPDATE body: the withdrawn routes with their length, the
/// path attributes with their length, the announced routes.
pub open spec fn update_len(attrs: Seq<AttrView>, withdraws: NlriView, updates: NlriView, mode: TransportMode) -> int {
    2 + field_len(withdraws, mode) + 2 + attrs_len(attrs) + field_len(updates, mode)
}

/// Whether every length is at most `max`.
pub open spec fn lens_fit(ls: Seq<u8>, max: u8) -> bool {
    forall|i: int| 0 <= i < ls.len() ==> ls[i] <= max
}

/// Whether the prefixes of an attribute are no longer than their family's
/// addresses (32 or 128 bits).
pub open spec fn attr_prefixes_fit(a: AttrView) -> bool {
    match a {
        AttrView::MpWithdraws4(v, _) => lens_fit(lens_v4(v), 32),
        AttrView::MpWithdraws6(v, _) => lens_fit(lens_v6(v), 128),
        AttrView::MpUpdates4(_, v, _) => lens_fit(lens_v4(v), 32),
        AttrView::MpUpdates6(_, v, _) => lens_fit(lens_v6(v), 128),
        _ => true,
    }
}

/// Whether the prefixes that zettabgp writes for an NLRI field are no
/// longer than their family's addresses.
pub open spec fn field_prefixes_fit(n: NlriView, mode: TransportMode) -> bool {
    match (n, mode) {
        (NlriView::V4(s), TransportMode::IPv4) => lens_fit(lens_v4(s), 32),
        (NlriView::V6(s), TransportMode::IPv6) => lens_fit(lens_v6(s), 128),
        _ => true,
    }
}

/// Whether every prefix that zettabgp writes for an UPDATE is no longer
/// than its family's addresses; a longer one makes it slice past a 4- or
/// 16-byte address and panic.
pub open spec fn update_prefixes_fit(
    attrs: Seq<AttrView>,
    withdraws: NlriView,
    updates: NlriView,
    mode: TransportMode,
) -> bool {
    &&& field_prefixes_fit(withdraws, mode)
    &&& field_prefixes_fit(updates, mode)
    &&& forall|i: int| 0 <= i < attrs.len() ==> attr_prefixes_fit(#[trigger] attrs[i])
}

/// The room zettabgp has for an UPDATE body: the 65535 bytes of a message
/// less its 19-byte header.
pub open spec fn update_room() -> int {
    65516
}

// ---------------------------------------------------------------------------
// The encoder.
// ---------------------------------------------------------------------------

/// What `BgpUpdateMessage::encode_to` writes, into a buffer of 65516 bytes,
/// for an UPDATE with these attributes and NLRI fields, in a session with
/// these parameters: the body's bytes, or `None` when it returns an error.
pub uninterp spec fn spec_encode_update(
    attrs: Seq<AttrView>,
    withdraws: NlriView,
    updates: NlriView,
    as_num: u32,
    hold_time: u16,
    mode: TransportMode,
    router_id: u32,
    caps: Seq<CapView>,
    has_as32bit: bool,
) -> Option<Seq<u8>>;

/// zettabgp's transport mode for a session's.
#[verifier::external_body]
fn zb_mode(m: TransportMode) -> BgpTransportMode {
    match m {
        TransportMode::IPv4 => BgpTransportMode::IPv4,
        TransportMode::IPv6 => BgpTransportMode::IPv6,
    }
}

/// zettabgp's next-hop address for an address.
#[verifier::external_body]
fn zb_bgp_addr(a: &IpAddress) -> BgpAddr {
    match a {
        IpAddress::V4(v) => BgpAddr::V4((*v).into()),
        IpAddress::V6(v) => BgpAddr::V6((*v).into()),
    }
}

/// zettabgp's next-hop attribute for an address.
#[verifier::external_body]
fn zb_next_hop(a: &IpAddress) -> BgpAttrItem {
    match a {
        IpAddress::V4(v) => BgpAttrItem::NextHop(BgpNextHop::new(core::net::IpAddr::V4((*v).into()))),
        IpAddress::V6(v) => BgpAttrItem::NextHop(BgpNextHop::new(core::net::IpAddr::V6((*v).into()))),
    }
}

/// zettabgp's labeled IPv4 NLRI list for prefixes and a label.
#[verifier::external_body]
fn zb_labeled4(v: &Vec<NetV4>, label: u32) -> BgpAddrs {
    BgpAddrs::IPV4LU(v.iter().map(|n| Labeled::new(MplsLabels::fromvec(vec![label]), BgpAddrV4::new(n.0.into(), n.1))).collect())
}

/// zettabgp's labeled IPv6 NLRI list for prefixes and a label.
#[verifier::external_body]
fn zb_labeled6(v: &Vec<NetV6>, label: u32) -> BgpAddrs {
    BgpAddrs::IPV6LU(v.iter().map(|n| Labeled::new(MplsLabels::fromvec(vec![label]), BgpAddrV6::new(n.0.into(), n.1))).collect())
}

/// zettabgp's NLRI list for an NLRI field.
#[verifier::external_body]
fn zb_addrs(n: &Nlri) -> BgpAddrs {
    match n {
        Nlri::Empty => BgpAddrs::None,
        Nlri::V4(v) => BgpAddrs::IPV4U(v.iter().map(|a| BgpAddrV4::new(a.0.into(), a.1)).collect()),
        Nlri::V6(v) => BgpAddrs::IPV6U(v.iter().map(|a| BgpAddrV6::new(a.0.into(), a.1)).collect()),
    }
}

/// zettabgp's community attribute for a list of communities.
#[verifier::external_body]
fn zb_communities(c: &Vec<u32>) -> BgpAttrItem {
    BgpAttrItem::CommunityList(BgpCommunityList::from_vec(c.iter().map(|v| BgpCommunity::new(*v)).collect()))
}

/// zettabgp's multiprotocol announcement attribute for a next hop and NLRI.
#[verifier::external_body]
fn zb_mp_updates(h: &IpAddress, addrs: BgpAddrs) -> BgpAttrItem {
    BgpAttrItem::MPUpdates(BgpMPUpdates { nexthop: zb_bgp_addr(h), addrs })
}

/// zettabgp's path attribute for a path attribute, variant for variant.
#[verifier::external_body]
fn zb_attr(a: &PathAttr) -> BgpAttrItem {
    match a {
        PathAttr::OriginIncomplete => BgpAttrItem::Origin(BgpOrigin::new(BgpAttrOrigin::Incomplete)),
        PathAttr::EmptyAsPath => BgpAttrItem::ASPath(BgpASpath::new()),
        PathAttr::LocalPref(p) => BgpAttrItem::LocalPref(BgpLocalpref::new(*p)),
        PathAttr::Communities(c) => zb_communities(c),
        PathAttr::NextHop(h) => zb_next_hop(h),
        PathAttr::MpWithdraws4(v, l) => BgpAttrItem::MPWithdraws(BgpMPWithdraws::new(zb_labeled4(v, *l))),
        PathAttr::MpWithdraws6(v, l) => BgpAttrItem::MPWithdraws(BgpMPWithdraws::new(zb_labeled6(v, *l))),
        PathAttr::MpUpdates4(h, v, l) => zb_mp_updates(h, zb_labeled4(v, *l)),
        PathAttr::MpUpdates6(h, v, l) => zb_mp_updates(h, zb_labeled6(v, *l)),
    }
}

/// Calls `BgpUpdateMessage::encode_to` on an UPDATE with these attributes
/// and NLRI fields (converted one for one), in a session with the opened
/// session's parameters and the peer's capabilities, into a buffer of 65516
/// bytes; its result is named `spec_encode_update`. Left out: a prefix
/// longer than its family's addresses, on which the encoder panics, and a
/// body longer than the buffer, on which it refuses or panics depending on
/// where the end falls.
#[verifier::external_body]
fn zb_encode_update(attrs: &Vec<PathAttr>, withdraws: &Nlri, updates: &Nlri, o: &OpenedSession) -> (r: Option<Vec<u8>>)
    requires
        update_prefixes_fit(attr_views(attrs@), withdraws@, updates@, o.params.mode),
        update_len(attr_views(attrs@), withdraws@, updates@, o.params.mode) <= update_room(),
    ensures
        match spec_encode_update(attr_views(attrs@), withdraws@, updates@, o.params.as_num, o.params.hold_time,
            o.params.mode, o.params.router_id, caps_view(o.peer_caps@), o.params.has_as32bit) {
            Some(b) => r matches Some(v) && v@ == b,
            None => r is None,
        },
        r matches Some(v) ==> v@.len() <= update_room(),
{
    let mut p = BgpSessionParams::new(o.params.as_num, o.params.hold_time, zb_mode(o.params.mode), o.params.router_id.into(), o.peer_caps.clone());
    p.has_as32bit = o.params.has_as32bit;
    let mut m = BgpUpdateMessage::new();
    m.attrs = attrs.iter().map(zb_attr).collect();
    m.withdraws = zb_addrs(withdraws);
    m.updates = zb_addrs(updates);
    let mut buf = vec![0u8; 65516];
    match m.encode_to(&p, &mut buf) {
        Ok(n) => Some(buf[0..n].to_vec()),
        Err(_) => None,
    }
}

// ---------------------------------------------------------------------------
// Verified lengths and the UPDATE the library sends.
// ---------------------------------------------------------------------------

proof fn lemma_items_len_nonneg(ls: Seq<u8>, extra: int)
    requires
        extra >= 0,
    ensures
        items_len(ls, extra) >= 0,
    decreases ls.len(),
{
    if ls.len() > 0 {
        lemma_items_len_nonneg(ls.drop_last(), extra);
    }
}

proof fn lemma_attrs_len_grows(s: Seq<AttrView>, i: int, j: int)
    requires
        0 <= i <= j <= s.len(),
    ensures
        attrs_len(s.take(i)) <= attrs_len(s.take(j)),
    decreases j - i,
{
    if i < j {
        lemma_attrs_len_grows(s, i, j - 1);
        assert(s.take(j).drop_last() =~= s.take(j - 1));
        let a = s[j - 1];
        match a {
            AttrView::MpWithdraws4(v, _) => lemma_items_len_nonneg(lens_v4(v), 3),
            AttrView::MpWithdraws6(v, _) => lemma_items_len_nonneg(lens_v6(v), 3),
            AttrView::MpUpdates4(_, v, _) => lemma_items_len_nonneg(lens_v4(v), 3),
            AttrView::MpUpdates6(_, v, _) => lemma_items_len_nonneg(lens_v6(v), 3),
            _ => {},
        }
    }
}

/// The bytes of NLRI items for IPv4 prefixes, each with `extra` more bytes.
fn items_len_v4(v: &Vec<NetV4>, extra: u128) -> (r: u128)
    requires
        extra <= 3,
    ensures
        r == items_len(lens_v4(v@), extra as int),
        r <= 0x1_0000_0000_0000_0000 * 36,
{
    let len = v.len();
    assert(len <= 0xffff_ffff_ffff_ffff);
    let mut r: u128 = 0;
    let mut i: usize = 0;
    while i < v.len()
        invariant
            i <= v@.len(),
            len == v@.len(),
            len <= 0xffff_ffff_ffff_ffff,
            extra <= 3,
            r == items_len(lens_v4(v@.take(i as int)), extra as int),
            r <= i * 36,
        decreases v@.len() - i,
    {
        assert(lens_v4(v@.take(i + 1)).drop_last() =~= lens_v4(v@.take(i as int)));
        r = r + 1 + extra + (v[i].1 as u128 + 7) / 8;
        i = i + 1;
    }
    assert(v@.take(i as int) =~= v@);
    r
}

/// The bytes of NLRI items for IPv6 prefixes, each with `extra` more bytes.
fn items_len_v6(v: &Vec<NetV6>, extra: u128) -> (r: u128)
    requires
        extra <= 3,
    ensures
        r == items_len(lens_v6(v@), extra as int),
        r <= 0x1_0000_0000_0000_0000 * 36,
{
    let len = v.len();
    assert(len <= 0xffff_ffff_ffff_ffff);
    let mut r: u128 = 0;
    let mut i: usize = 0;
    while i < v.len()
        invariant
            i <= v@.len(),
            len == v@.len(),
            len <= 0xffff_ffff_ffff_ffff,
            extra <= 3,
            r == items_len(lens_v6(v@.take(i as int)), extra as int),
            r <= i * 36,
        decreases v@.len() - i,
    {
        assert(lens_v6(v@.take(i + 1)).drop_last() =~= lens_v6(v@.take(i as int)));
        r = r + 1 + extra + (v[i].1 as u128 + 7) / 8;
        i = i + 1;
    }
    assert(v@.take(i as int) =~= v@);
    r
}

/// Whether no IPv4 prefix is longer than `max`.
fn fit_v4(v: &Vec<NetV4>, max: u8) -> (r: bool)
    ensures
        r == lens_fit(lens_v4(v@), max),
{
    let mut i: usize = 0;
    while i < v.len()
        invariant
            i <= v@.len(),
            forall|j: int| 0 <= j < i ==> v@[j].1 <= max,
        decreases v@.len() - i,
    {
        if v[i].1 > max {
            assert(lens_v4(v@)[i as int] > max);
            return false;
        }
        i = i + 1;
    }
    assert forall|j: int| 0 <= j < lens_v4(v@).len() implies lens_v4(v@)[j] <= max by {
        assert(lens_v4(v@)[j] == v@[j].1);
    }
    true
}

/// Whether no IPv6 prefix is longer than `max`.
fn fit_v6(v: &Vec<NetV6>, max: u8) -> (r: bool)
    ensures
        r == lens_fit(lens_v6(v@), max),
{
    let mut i: usize = 0;
    while i < v.len()
        invariant
            i <= v@.len(),
            forall|j: int| 0 <= j < i ==> v@[j].1 <= max,
        decreases v@.len() - i,
    {
        if v[i].1 > max {
            assert(lens_v6(v@)[i as int] > max);
            return false;
        }
        i = i + 1;
    }
    assert forall|j: int| 0 <= j < lens_v6(v@).len() implies lens_v6(v@)[j] <= max by {
        assert(lens_v6(v@)[j] == v@[j].1);
    }
    true
}

fn addr_bytes_of(a: &IpAddress) -> (r: u128)
    ensures
        r == addr_bytes(*a),
{
    match a {
        IpAddress::V4(_) => 4,
        IpAddress::V6(_) => 16,
    }
}

/// The bytes zettabgp writes for a path attribute.
fn attr_len_of(a: &PathAttr) -> (r: u128)
    ensures
        r == attr_len(a@),
        r <= 0x1_0000_0000_0000_0000 * 64,
{
    proof {
        if let PathAttr::Communities(c) = a {
            assert(c@.len() <= 0xffff_ffff_ffff_ffff) by {
                assert(c.len() <= usize::MAX);
            }
        }
    }
    match a {
        PathAttr::OriginIncomplete => 4,
        PathAttr::EmptyAsPath => 4,
        PathAttr::LocalPref(_) => 7,
        PathAttr::Communities(c) => 4 + 4 * c.len() as u128,
        PathAttr::NextHop(h) => 3 + addr_bytes_of(h),
        PathAttr::MpWithdraws4(v, _) => 7 + items_len_v4(v, 3),
        PathAttr::MpWithdraws6(v, _) => 7 + items_len_v6(v, 3),
        PathAttr::MpUpdates4(h, v, _) => 9 + addr_bytes_of(h) + items_len_v4(v, 3),
        PathAttr::MpUpdates6(h, v, _) => 9 + addr_bytes_of(h) + items_len_v6(v, 3),
    }
}

/// Whether the prefixes of a path attribute fit their family.
fn attr_fits(a: &PathAttr) -> (r: bool)
    ensures
        r == attr_prefixes_fit(a@),
{
    match a {
        PathAttr::MpWithdraws4(v, _) => fit_v4(v, 32),
        PathAttr::MpWithdraws6(v, _) => fit_v6(v, 128),
        PathAttr::MpUpdates4(_, v, _) => fit_v4(v, 32),
        PathAttr::MpUpdates6(_, v, _) => fit_v6(v, 128),
        _ => true,
    }
}

/// The bytes of an NLRI field in a session over `mode`.
fn field_len_of(n: &Nlri, mode: TransportMode) -> (r: u128)
    ensures
        r == field_len(n@, mode),
{
    match (n, mode) {
        (Nlri::V4(s), TransportMode::IPv4) => items_len_v4(s, 0),
        (Nlri::V6(s), TransportMode::IPv6) => items_len_v6(s, 0),
        _ => 0,
    }
}

/// Whether the written prefixes of an NLRI field fit their family.
fn field_fits(n: &Nlri, mode: TransportMode) -> (r: bool)
    ensures
        r == field_prefixes_fit(n@, mode),
{
    match (n, mode) {
        (Nlri::V4(s), TransportMode::IPv4) => fit_v4(s, 32),
        (Nlri::V6(s), TransportMode::IPv6) => fit_v6(s, 128),
        _ => true,
    }
}

/// Whether an UPDATE body with these parts fits zettabgp's buffer.
fn update_fits(attrs: &Vec<PathAttr>, withdraws: &Nlri, updates: &Nlri, mode: TransportMode) -> (r: bool)
    ensures
        r == (update_len(attr_views(attrs@), withdraws@, updates@, mode) <= update_room()),
{
    let ghost views = attr_views(attrs@);
    let w = field_len_of(withdraws, mode);
    let u = field_len_of(updates, mode);
    proof {
        match withdraws@ {
            NlriView::V4(s) => lemma_items_len_nonneg(lens_v4(s), 0),
            NlriView::V6(s) => lemma_items_len_nonneg(lens_v6(s), 0),
            _ => {},
        }
    }
    if w > 65516 || u > 65516 {
        proof {
            match updates@ {
                NlriView::V4(s) => lemma_items_len_nonneg(lens_v4(s), 0),
                NlriView::V6(s) => lemma_items_len_nonneg(lens_v6(s), 0),
                _ => {},
            }
            lemma_attrs_len_grows(views, 0, views.len() as int);
            assert(views.take(views.len() as int) =~= views);
            assert(views.take(0) =~= Seq::<AttrView>::empty());
        }
        return false;
    }
    let mut total: u128 = 4 + w + u;
    let mut i: usize = 0;
    while i < attrs.len()
        invariant
            i <= attrs@.len(),
            views == attr_views(attrs@),
            total == 4 + w + u + attrs_len(views.take(i as int)),
            total <= 65516 + 65516 + 4,
            w == field_len(withdraws@, mode),
            u == field_len(updates@, mode),
        decreases attrs@.len() - i,
    {
        assert(views.take(i + 1).drop_last() =~= views.take(i as int));
        assert(views[i as int] == attrs@[i as int]@);
        let n = attr_len_of(&attrs[i]);
        if total + n > 65516 {
            proof {
                lemma_attrs_len_grows(views, i + 1, views.len() as int);
                assert(views.take(views.len() as int) =~= views);
            }
            return false;
        }
        total = total + n;
        i = i + 1;
    }
    assert(views.take(i as int) =~= views);
    total <= 65516
}

/// The path attributes, withdrawn and announced NLRI fields of message `m`
/// in a session over `mode`.
pub open spec fn update_parts(m: MessageView, mode: TransportMode) -> (Seq<AttrView>, NlriView, NlriView) {
    (attrs_of(m, mode), nlri_of(m.nlri_withdraws, mode), nlri_of(m.nlri_updates, mode))
}

/// Whether every prefix that zettabgp writes for message `m` in a session
/// over `mode` fits its family; the encoder panics on a longer one.
pub open spec fn message_prefixes_fit(m: MessageView, mode: TransportMode) -> bool {
    let (a, w, u) = update_parts(m, mode);
    update_prefixes_fit(a, w, u, mode)
}

/// Whether every prefix that zettabgp writes for message `m` in a session
/// over `mode` fits its family.
pub fn update_prefixes_ok(m: &UpdateMessage, mode: TransportMode) -> (r: bool)
    ensures
        r == message_prefixes_fit(m@, mode),
{
    let attrs = message_attrs(m, mode);
    let w = nlri_field(&m.nlri_withdraws, mode);
    let u = nlri_field(&m.nlri_updates, mode);
    let ghost views = attr_views(attrs@);
    assert(update_parts(m@, mode) == (views, w@, u@));
    if !field_fits(&w, mode) || !field_fits(&u, mode) {
        return false;
    }
    let mut i: usize = 0;
    while i < attrs.len()
        invariant
            i <= attrs@.len(),
            views == attr_views(attrs@),
            update_parts(m@, mode) == (views, w@, u@),
            field_prefixes_fit(w@, mode) && field_prefixes_fit(u@, mode),
            forall|j: int| 0 <= j < i ==> attr_prefixes_fit(#[trigger] views[j]),
        decreases attrs@.len() - i,
    {
        assert(views[i as int] == attrs@[i as int]@);
        if !attr_fits(&attrs[i]) {
            assert(!attr_prefixes_fit(views[i as int]));
            return false;
        }
        i = i + 1;
    }
    true
}

/// Message `m` as an UPDATE of the opened session `o`, framed: what
/// zettabgp writes for the attributes and NLRI fields the library chooses.
/// A body longer than the message can hold is not sent (`None`), as one
/// that zettabgp refuses is not.
pub fn encode_update(m: &UpdateMessage, o: &OpenedSession) -> (r: Option<Vec<u8>>)
    requires
        message_prefixes_fit(m@, o.params.mode),
    ensures
        ({
            let (a, w, u) = update_parts(m@, o.params.mode);
            if update_len(a, w, u, o.params.mode) > update_room() {
                r is None
            } else {
                match spec_encode_update(a, w, u, o.params.as_num, o.params.hold_time, o.params.mode,
                    o.params.router_id, caps_view(o.peer_caps@), o.params.has_as32bit) {
                    Some(b) => r matches Some(v) && v@ == framed(MessageKind::Update, b),
                    None => r is None,
                }
            }
        }),
{
    let mode = o.params.mode;
    let attrs = message_attrs(m, mode);
    let w = nlri_field(&m.nlri_withdraws, mode);
    let u = nlri_field(&m.nlri_updates, mode);
    if !update_fits(&attrs, &w, &u, mode) {
        return None;
    }
    match zb_encode_update(&attrs, &w, &u, o) {
        Some(body) => Some(frame_message(MessageKind::Update, body.as_slice())),
        None => None,
    }
}

/// What `BgpNotificationMessage::decode_from` reads from a NOTIFICATION
/// body: the error code, the subcode, and the data (none: 0; one byte: that
/// byte; more: the first two, high byte first); `None` under two bytes.
pub open spec fn spec_notification(body: Seq<u8>) -> Option<(u8, u8, u16)> {
    if body.len() < 2 {
        None
    } else if body.len() == 2 {
        Some((body[0], body[1], 0u16))
    } else if body.len() == 3 {
        Some((body[0], body[1], body[2] as u16))
    } else {
        Some((body[0], body[1], (body[2] as int * 256 + body[3] as int) as u16))
    }
}

/// Calls `BgpNotificationMessage::decode_from` (which does not read its
/// session parameters) on a NOTIFICATION body; the contract restates its
/// source.
#[verifier::external_body]
fn zb_decode_notification(body: &[u8]) -> (r: Option<(u8, u8, u16)>)
    ensures
        r == spec_notification(body@),
{
    let params = BgpSessionParams::new(0, 0, BgpTransportMode::IPv4, 0u32.into(), Vec::new());
    let mut m = BgpNotificationMessage::new();
    match m.decode_from(&params, body) {
        Ok(()) => Some((m.error_code, m.error_subcode, m.data)),
        Err(_) => None,
    }
}

/// The error code, subcode and data of a NOTIFICATION body, as zettabgp
/// reads them; `None` when it refuses the body.
pub fn read_notification(body: &[u8]) -> (r: Option<(u8, u8, u16)>)
    ensures
        r == spec_notification(body@),
{
    zb_decode_notification(body)
}

} // verus!
