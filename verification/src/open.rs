//! The OPEN exchange of a session and the framing of BGP messages.
//!
//! A session opened by a peer reads the peer's OPEN and answers with it, our
//! router id in place of the peer's; a session we open sends our OPEN and
//! reads the peer's. Either way the session then runs with the peer's hold
//! time and capabilities.

use vstd::prelude::*;
use crate::session::{head_length, kind_of_code, spec_decode_head, Capability, MessageKind, SessionParams};
use zettabgp::prelude::{BgpCapability, BgpMessage, BgpOpenMessage, BgpSessionParams, BgpTransportMode};
use zettabgp::{BgpCapAddPath, BgpCapGR, BgpCapLLGR};
use vstd::utf8::encode_utf8;
use vstd::string::StringSliceAdditionalSpecFns;

verus! {

/// A capability as zettabgp holds it; its variants and fields are visible.
#[verifier::external_type_specification]
pub struct ExBgpCapability(BgpCapability);

/// A family of zettabgp's graceful-restart capability.
#[verifier::external_type_specification]
pub struct ExBgpCapGR(BgpCapGR);

/// A family of zettabgp's add-path capability.
#[verifier::external_type_specification]
pub struct ExBgpCapAddPath(BgpCapAddPath);

/// A family of zettabgp's long-lived graceful-restart capability.
#[verifier::external_type_specification]
pub struct ExBgpCapLLGR(BgpCapLLGR);

/// A capability as plain values, variant for variant as zettabgp's
/// `BgpCapability` holds it.
pub enum CapView {
    SafiIPv4u,
    SafiIPv4m,
    SafiIPv4mvpn,
    SafiIPv4fu,
    SafiVPNv4u,
    SafiVPNv4fu,
    SafiVPNv4m,
    SafiIPv4lu,
    SafiIPv4mdt,
    SafiIPv6u,
    SafiIPv6lu,
    SafiIPv6fu,
    SafiVPNv6u,
    SafiVPNv6fu,
    SafiVPNv6m,
    SafiIPv6mdt,
    SafiVPLS,
    SafiEVPN,
    /// Restart time, restart state, and per family: AFI, SAFI, forwarding state.
    CapGR(u16, bool, Seq<(u16, u8, bool)>),
    CapASN32(u32),
    CapRR,
    /// Per family: AFI, SAFI, send, receive.
    CapAddPath(Seq<(u16, u8, bool, bool)>),
    CapEnhancedRR,
    /// Per family: AFI, SAFI, flags, stale time.
    CapLLGR(Seq<(u16, u8, u8, u32)>),
    /// Host name and domain name.
    CapFQDN(Seq<char>, Seq<char>),
    CapBFD,
}

/// The families of a graceful-restart capability as plain values.
pub open spec fn gr_views(v: Seq<BgpCapGR>) -> Seq<(u16, u8, bool)> {
    v.map_values(|a: BgpCapGR| (a.afi, a.safi, a.forwarding_state))
}

/// The families of an add-path capability as plain values.
pub open spec fn addpath_views(v: Seq<BgpCapAddPath>) -> Seq<(u16, u8, bool, bool)> {
    v.map_values(|a: BgpCapAddPath| (a.afi, a.safi, a.send, a.receive))
}

/// The families of a long-lived graceful-restart capability as plain values.
pub open spec fn llgr_views(v: Seq<BgpCapLLGR>) -> Seq<(u16, u8, u8, u32)> {
    v.map_values(|a: BgpCapLLGR| (a.afi, a.safi, a.flags, a.stale_time))
}

/// The plain values of a zettabgp capability.
pub open spec fn cap_view(c: BgpCapability) -> CapView {
    match c {
        BgpCapability::SafiIPv4u => CapView::SafiIPv4u,
        BgpCapability::SafiIPv4m => CapView::SafiIPv4m,
        BgpCapability::SafiIPv4mvpn => CapView::SafiIPv4mvpn,
        BgpCapability::SafiIPv4fu => CapView::SafiIPv4fu,
        BgpCapability::SafiVPNv4u => CapView::SafiVPNv4u,
        BgpCapability::SafiVPNv4fu => CapView::SafiVPNv4fu,
        BgpCapability::SafiVPNv4m => CapView::SafiVPNv4m,
        BgpCapability::SafiIPv4lu => CapView::SafiIPv4lu,
        BgpCapability::SafiIPv4mdt => CapView::SafiIPv4mdt,
        BgpCapability::SafiIPv6u => CapView::SafiIPv6u,
        BgpCapability::SafiIPv6lu => CapView::SafiIPv6lu,
        BgpCapability::SafiIPv6fu => CapView::SafiIPv6fu,
        BgpCapability::SafiVPNv6u => CapView::SafiVPNv6u,
        BgpCapability::SafiVPNv6fu => CapView::SafiVPNv6fu,
        BgpCapability::SafiVPNv6m => CapView::SafiVPNv6m,
        BgpCapability::SafiIPv6mdt => CapView::SafiIPv6mdt,
        BgpCapability::SafiVPLS => CapView::SafiVPLS,
        BgpCapability::SafiEVPN => CapView::SafiEVPN,
        BgpCapability::CapGR { restart_time, restart_state, afis } => CapView::CapGR(
            restart_time,
            restart_state,
            gr_views(afis@),
        ),
        BgpCapability::CapASN32(n) => CapView::CapASN32(n),
        BgpCapability::CapRR => CapView::CapRR,
        BgpCapability::CapAddPath(v) => CapView::CapAddPath(addpath_views(v@)),
        BgpCapability::CapEnhancedRR => CapView::CapEnhancedRR,
        BgpCapability::CapLLGR(v) => CapView::CapLLGR(llgr_views(v@)),
        BgpCapability::CapFQDN(h, d) => CapView::CapFQDN(h@, d@),
        BgpCapability::CapBFD => CapView::CapBFD,
    }
}

/// The plain values of a list of capabilities.
pub open spec fn caps_view(caps: Seq<BgpCapability>) -> Seq<CapView> {
    caps.map_values(|c: BgpCapability| cap_view(c))
}

/// The number of UTF-8 bytes of a text, as `str::len` reports it.
pub open spec fn str_bytes(s: Seq<char>) -> int {
    (encode_utf8(s).len() as usize) as int
}

/// The bytes a capability's value takes in an OPEN message, after its type
/// and length bytes, as `BgpCapability::bytes_len` counts them (a name by
/// its UTF-8 bytes).
pub open spec fn cap_len(c: CapView) -> int {
    match c {
        CapView::CapGR(_, _, afis) => 4 + afis.len() * 4int,
        CapView::CapRR | CapView::CapEnhancedRR | CapView::CapBFD => 2,
        CapView::CapAddPath(v) => 2 + v.len() * 4int,
        CapView::CapLLGR(v) => 2 + v.len() * 7int,
        CapView::CapFQDN(h, d) => 4 + str_bytes(h) + str_bytes(d),
        _ => 6,
    }
}

/// Whether a long-lived graceful-restart family has a stale time beyond 24
/// bits.
pub open spec fn stale_time_too_long(v: Seq<(u16, u8, u8, u32)>) -> bool {
    exists|i: int| 0 <= i < v.len() && #[trigger] v[i].3 >= 0x100_0000u32
}

/// Whether `BgpCapability::fill_buffer` refuses a capability: a restart time
/// beyond 12 bits, or a stale time beyond 24 bits.
pub open spec fn cap_refused(c: CapView) -> bool {
    match c {
        CapView::CapGR(t, _, _) => t >= 0x1000,
        CapView::CapLLGR(v) => stale_time_too_long(v),
        _ => false,
    }
}

/// The sum of the capabilities' lengths with their type and length bytes.
pub open spec fn caps_total(caps: Seq<CapView>) -> int
    decreases caps.len(),
{
    if caps.len() == 0 {
        0
    } else {
        caps_total(caps.drop_last()) + 2 + cap_len(caps.last())
    }
}

/// Whether `BgpOpenMessage::encode_to`, into a buffer of 4077 bytes, panics
/// on capabilities `caps` written from position `pos`: it writes a
/// capability's two leading bytes before it checks the room left, so a
/// capability that starts at 4076 or later panics, while one that passes
/// the end, or that `fill_buffer` refuses, ends the encoding with an error.
pub open spec fn open_walk_panics(pos: int, caps: Seq<CapView>) -> bool
    decreases caps.len(),
{
    if caps.len() == 0 {
        false
    } else if pos + 1 >= 4077 {
        true
    } else if pos + 2 + cap_len(caps[0]) > 4077 || cap_refused(caps[0]) {
        false
    } else {
        open_walk_panics(pos + 2 + cap_len(caps[0]), caps.drop_first())
    }
}

/// Whether encoding an OPEN with capabilities `caps` panics: it first sums
/// their lengths in 32 bits, which overflows (a panic where overflow is
/// checked) past `u32::MAX`, then writes them from position 10.
pub open spec fn open_encode_panics(caps: Seq<CapView>) -> bool {
    caps_total(caps) > 0xffff_ffff || open_walk_panics(10, caps)
}

/// The bytes that `cap_len` counts, for a capability held by zettabgp.
fn cap_len_of(c: &BgpCapability) -> (r: u128)
    ensures
        r == cap_len(cap_view(*c)),
{
    match c {
        BgpCapability::CapGR { afis, .. } => {
            4 + afis.len() as u128 * 4
        },
        BgpCapability::CapRR | BgpCapability::CapEnhancedRR | BgpCapability::CapBFD => 2,
        BgpCapability::CapAddPath(v) => 2 + v.len() as u128 * 4,
        BgpCapability::CapLLGR(v) => 2 + v.len() as u128 * 7,
        BgpCapability::CapFQDN(h, d) => {
            let hl = h.as_str().len();
            let dl = d.as_str().len();
            4 + hl as u128 + dl as u128
        },
        _ => 6,
    }
}

/// Whether `fill_buffer` refuses a capability held by zettabgp.
fn cap_refused_of(c: &BgpCapability) -> (r: bool)
    ensures
        r == cap_refused(cap_view(*c)),
{
    match c {
        BgpCapability::CapGR { restart_time, .. } => *restart_time >= 0x1000,
        BgpCapability::CapLLGR(v) => {
            let mut i: usize = 0;
            assert(cap_view(*c) == CapView::CapLLGR(llgr_views(v@)));
            while i < v.len()
                invariant
                    i <= v@.len(),
                    cap_view(*c) == CapView::CapLLGR(llgr_views(v@)),
                    forall|j: int| 0 <= j < i ==> v@[j].stale_time < 0x100_0000,
                decreases v@.len() - i,
            {
                if v[i].stale_time >= 0x100_0000 {
                    proof {
                        let vs = llgr_views(v@);
                        assert(vs[i as int].3 >= 0x100_0000);
                        assert(stale_time_too_long(vs));
                    }
                    return true;
                }
                i = i + 1;
            }
            proof {
                let vs = llgr_views(v@);
                assert forall|j: int| 0 <= j < vs.len() implies vs[j].3 < 0x100_0000 by {
                    assert(vs[j].3 == v@[j].stale_time);
                }
            }
            false
        },
        _ => false,
    }
}

/// The sum grows with every capability added.
proof fn lemma_total_grows(caps: Seq<CapView>, i: int, j: int)
    requires
        0 <= i <= j <= caps.len(),
    ensures
        caps_total(caps.take(i)) <= caps_total(caps.take(j)),
    decreases j - i,
{
    if i < j {
        lemma_total_grows(caps, i, j - 1);
        assert(caps.take(j).drop_last() =~= caps.take(j - 1));
    }
}

/// Whether encoding an OPEN with capabilities `caps` panics.
pub fn open_panics(caps: &Vec<BgpCapability>) -> (r: bool)
    ensures
        r == open_encode_panics(caps_view(caps@)),
{
    let ghost views = caps_view(caps@);
    let mut total: u128 = 0;
    let mut i: usize = 0;
    while i < caps.len()
        invariant
            i <= caps@.len(),
            views == caps_view(caps@),
            total == caps_total(views.take(i as int)),
            total <= 0xffff_ffff,
        decreases caps@.len() - i,
    {
        assert(views.take(i + 1).drop_last() =~= views.take(i as int));
        let n = cap_len_of(&caps[i]);
        if n > 0xffff_ffff {
            proof {
                lemma_total_grows(views, i + 1, views.len() as int);
                assert(views.take(views.len() as int) =~= views);
            }
            return true;
        }
        total = total + 2 + n;
        i = i + 1;
        if total > 0xffff_ffff {
            proof {
                lemma_total_grows(views, i as int, views.len() as int);
                assert(views.take(views.len() as int) =~= views);
            }
            return true;
        }
    }
    assert(views.take(i as int) =~= views);
    let mut pos: u128 = 10;
    let mut k: usize = 0;
    while k < caps.len()
        invariant
            k <= caps@.len(),
            views == caps_view(caps@),
            pos <= 4077,
            caps_total(views) <= 0xffff_ffff,
            open_walk_panics(10, views) == open_walk_panics(pos as int, views.skip(k as int)),
        decreases caps@.len() - k,
    {
        let rest = Ghost(views.skip(k as int));
        assert(views.len() == caps@.len());
        assert(rest@.len() > 0);
        assert(rest@[0] == views[k as int]);
        assert(views[k as int] == cap_view(caps@[k as int]));
        assert(rest@.drop_first() =~= views.skip(k + 1));
        if pos + 1 >= 4077 {
            return true;
        }
        let n = cap_len_of(&caps[k]);
        if n > 4077 || pos + 2 + n > 4077 || cap_refused_of(&caps[k]) {
            return false;
        }
        pos = pos + 2 + n;
        k = k + 1;
    }
    false
}

/// The type code of a message kind.
pub open spec fn kind_code(k: MessageKind) -> u8 {
    match k {
        MessageKind::Open => 1,
        MessageKind::Update => 2,
        MessageKind::Notification => 3,
        MessageKind::Keepalive => 4,
        MessageKind::RouteRefresh => 5,
    }
}

/// A message of kind `k` with body `body`, as
/// `BgpSessionParams::prepare_message_buf` frames it: a marker of sixteen
/// 255 bytes, the total length in two bytes (high byte first), the type
/// code, then the body.
pub open spec fn framed(k: MessageKind, body: Seq<u8>) -> Seq<u8> {
    let len = body.len() + 19;
    Seq::new(16, |i: int| 255u8) + seq![(len / 256) as u8, (len % 256) as u8, kind_code(k)] + body
}

/// Law: reading the header of a framed message gives back the kind it was
/// framed with and the length of its body, for every kind (UPDATE is type
/// 2, NOTIFICATION type 3, as both ends of a session read them).
pub proof fn law_header_round_trip(k: MessageKind, body: Seq<u8>)
    requires
        body.len() <= 65516,
    ensures
        spec_decode_head(framed(k, body)) == Some((k, body.len() as int)),
{
    let m = framed(k, body);
    let len = body.len() + 19;
    assert(m[16] == (len / 256) as u8);
    assert(m[17] == (len % 256) as u8);
    assert(m[18] == kind_code(k));
    assert(forall|i: int| 0 <= i < 16 ==> m[i] == 255);
    assert((len / 256) as u8 as int == len / 256);
    assert((len % 256) as u8 as int == len % 256);
    assert(head_length(m) == len);
    assert(kind_of_code(kind_code(k)) == Some(k));
}

/// Frames a message of kind `k` around `body`; bodies longer than 65516
/// bytes, whose length the header cannot hold, are left out.
pub fn frame_message(k: MessageKind, body: &[u8]) -> (r: Vec<u8>)
    requires
        body@.len() <= 65516,
    ensures
        r@ == framed(k, body@),
{
    let mut r: Vec<u8> = Vec::new();
    let mut i: usize = 0;
    while i < 16
        invariant
            i <= 16,
            r@ == Seq::new(i as nat, |j: int| 255u8),
        decreases 16 - i,
    {
        r.push(255);
        i = i + 1;
        assert(r@ =~= Seq::new(i as nat, |j: int| 255u8));
    }
    let len: usize = body.len() + 19;
    let code: u8 = match k {
        MessageKind::Open => 1,
        MessageKind::Update => 2,
        MessageKind::Notification => 3,
        MessageKind::Keepalive => 4,
        MessageKind::RouteRefresh => 5,
    };
    r.push((len / 256) as u8);
    r.push((len % 256) as u8);
    r.push(code);
    let ghost head = r@;
    assert(head =~= Seq::new(16, |j: int| 255u8) + seq![(len / 256) as u8, (len % 256) as u8, kind_code(k)]);
    let mut j: usize = 0;
    while j < body.len()
        invariant
            j <= body@.len(),
            r@ == head + body@.take(j as int),
        decreases body@.len() - j,
    {
        r.push(body[j]);
        j = j + 1;
        assert(r@ =~= head + body@.take(j as int));
    }
    assert(body@.take(j as int) =~= body@);
    r
}

/// What `BgpOpenMessage::decode_from` reads from the body of an OPEN
/// message: the AS (its 16-bit field), the hold time, the router id and the
/// capabilities it lists; `None` when it refuses the body.
pub uninterp spec fn spec_decode_open(body: Seq<u8>) -> Option<(u32, u16, u32, Seq<CapView>)>;

/// A peer's OPEN message as zettabgp decodes it.
pub struct OpenFields {
    pub as_num: u32,
    pub hold_time: u16,
    pub router_id: u32,
    pub caps: Vec<BgpCapability>,
}

/// Calls `BgpOpenMessage::decode_from` (which does not read its session
/// parameters) on an OPEN body; what it reads is named `spec_decode_open`.
#[verifier::external_body]
fn zb_decode_open(body: &[u8]) -> (r: Option<OpenFields>)
    ensures
        match spec_decode_open(body@) {
            Some((a, h, id, cs)) => r matches Some(f) && f.as_num == a && f.hold_time == h
                && f.router_id == id && caps_view(f.caps@) == cs,
            None => r is None,
        },
{
    let params = BgpSessionParams::new(0, 0, BgpTransportMode::IPv4, 0u32.into(), Vec::new());
    let mut m = BgpOpenMessage::new();
    match m.decode_from(&params, body) {
        Ok(()) => Some(OpenFields { as_num: m.as_num, hold_time: m.hold_time, router_id: m.router_id.into(), caps: m.caps }),
        Err(_) => None,
    }
}

/// What `BgpOpenMessage::encode_to` writes, into a buffer of 4077 bytes,
/// for an OPEN with these fields: the body's bytes, or `None` when it
/// returns an error.
pub uninterp spec fn spec_encode_open(as_num: u32, hold_time: u16, router_id: u32, caps: Seq<CapView>) -> Option<Seq<u8>>;

/// Calls `BgpOpenMessage::encode_to` (which does not read its session
/// parameters) on an OPEN with these fields, into a buffer of 4077 bytes,
/// as the session's 4096-byte buffer leaves after the header; its result is
/// named `spec_encode_open`. The capabilities on which it panics are left
/// out.
#[verifier::external_body]
fn zb_encode_open(as_num: u32, hold_time: u16, router_id: u32, caps: &Vec<BgpCapability>) -> (r: Option<Vec<u8>>)
    requires
        !open_encode_panics(caps_view(caps@)),
    ensures
        match spec_encode_open(as_num, hold_time, router_id, caps_view(caps@)) {
            Some(b) => r matches Some(v) && v@ == b,
            None => r is None,
        },
        r matches Some(v) ==> v@.len() <= 4077,
{
    let params = BgpSessionParams::new(0, 0, BgpTransportMode::IPv4, 0u32.into(), Vec::new());
    let m = BgpOpenMessage { as_num, hold_time, router_id: router_id.into(), caps: caps.clone() };
    let mut buf = vec![255u8; 4077];
    match m.encode_to(&params, &mut buf) {
        Ok(n) => Some(buf[0..n].to_vec()),
        Err(_) => None,
    }
}

/// Which of the capabilities this speaker uses a capability is; the others
/// are `Other`.
pub open spec fn cap_kind(c: CapView) -> Capability {
    match c {
        CapView::SafiIPv4u => Capability::SafiIPv4u,
        CapView::SafiIPv4fu => Capability::SafiIPv4fu,
        CapView::SafiIPv4lu => Capability::SafiIPv4lu,
        CapView::SafiIPv6u => Capability::SafiIPv6u,
        CapView::SafiIPv6fu => Capability::SafiIPv6fu,
        CapView::SafiIPv6lu => Capability::SafiIPv6lu,
        CapView::CapASN32(n) => Capability::CapASN32(n),
        _ => Capability::Other,
    }
}

/// The kinds of a list of capabilities.
pub open spec fn cap_kinds(caps: Seq<CapView>) -> Seq<Capability> {
    caps.map_values(|c: CapView| cap_kind(c))
}

/// The kind of a capability held by zettabgp.
fn kind_of(c: &BgpCapability) -> (r: Capability)
    ensures
        r == cap_kind(cap_view(*c)),
{
    match c {
        BgpCapability::SafiIPv4u => Capability::SafiIPv4u,
        BgpCapability::SafiIPv4fu => Capability::SafiIPv4fu,
        BgpCapability::SafiIPv4lu => Capability::SafiIPv4lu,
        BgpCapability::SafiIPv6u => Capability::SafiIPv6u,
        BgpCapability::SafiIPv6fu => Capability::SafiIPv6fu,
        BgpCapability::SafiIPv6lu => Capability::SafiIPv6lu,
        BgpCapability::CapASN32(n) => Capability::CapASN32(*n),
        _ => Capability::Other,
    }
}

/// The capability this speaker offers for a kind; `Other` offers none.
pub open spec fn offer_view(c: Capability) -> Option<CapView> {
    match c {
        Capability::SafiIPv4u => Some(CapView::SafiIPv4u),
        Capability::SafiIPv4fu => Some(CapView::SafiIPv4fu),
        Capability::SafiIPv4lu => Some(CapView::SafiIPv4lu),
        Capability::SafiIPv6u => Some(CapView::SafiIPv6u),
        Capability::SafiIPv6fu => Some(CapView::SafiIPv6fu),
        Capability::SafiIPv6lu => Some(CapView::SafiIPv6lu),
        Capability::CapASN32(n) => Some(CapView::CapASN32(n)),
        Capability::Other => None,
    }
}

/// The capabilities offered for a list of kinds, in order.
pub open spec fn offered_views(caps: Seq<Capability>) -> Seq<CapView>
    decreases caps.len(),
{
    if caps.len() == 0 {
        Seq::empty()
    } else {
        let rest = offered_views(caps.drop_last());
        match offer_view(caps.last()) {
            Some(v) => rest.push(v),
            None => rest,
        }
    }
}

/// The zettabgp capability offered for a kind.
fn offer(c: Capability) -> (r: Option<BgpCapability>)
    ensures
        match offer_view(c) {
            Some(v) => r matches Some(b) && cap_view(b) == v,
            None => r is None,
        },
{
    match c {
        Capability::SafiIPv4u => Some(BgpCapability::SafiIPv4u),
        Capability::SafiIPv4fu => Some(BgpCapability::SafiIPv4fu),
        Capability::SafiIPv4lu => Some(BgpCapability::SafiIPv4lu),
        Capability::SafiIPv6u => Some(BgpCapability::SafiIPv6u),
        Capability::SafiIPv6fu => Some(BgpCapability::SafiIPv6fu),
        Capability::SafiIPv6lu => Some(BgpCapability::SafiIPv6lu),
        Capability::CapASN32(n) => Some(BgpCapability::CapASN32(n)),
        Capability::Other => None,
    }
}

/// The capabilities a session offers in its OPEN, as zettabgp holds them.
pub fn offered_caps(params: &SessionParams) -> (r: Vec<BgpCapability>)
    ensures
        caps_view(r@) == offered_views(params.caps@),
{
    let mut caps: Vec<BgpCapability> = Vec::new();
    let mut i: usize = 0;
    while i < params.caps.len()
        invariant
            i <= params.caps@.len(),
            caps_view(caps@) == offered_views(params.caps@.take(i as int)),
        decreases params.caps@.len() - i,
    {
        assert(params.caps@.take(i + 1).drop_last() =~= params.caps@.take(i as int));
        let ghost before = caps@;
        if let Some(c) = offer(params.caps[i]) {
            caps.push(c);
            assert(caps_view(caps@) =~= caps_view(before).push(cap_view(c)));
        }
        i = i + 1;
    }
    assert(params.caps@.take(i as int) =~= params.caps@);
    caps
}

/// Why an OPEN exchange failed.
#[derive(Clone, Copy, Debug, PartialEq, Eq, Structural)]
pub enum OpenError {
    /// The first message of the session was not an OPEN.
    InvalidState,
    /// The OPEN could not be decoded.
    Decode,
    /// Our OPEN could not be encoded.
    Encode,
}

/// The AS number after the capabilities are checked: that of the last
/// 32-bit AS capability, when there is one, else `as_num`.
pub open spec fn asn_after_caps(as_num: u32, caps: Seq<Capability>) -> u32
    decreases caps.len(),
{
    if caps.len() == 0 {
        as_num
    } else {
        match caps.last() {
            Capability::CapASN32(n) => n,
            _ => asn_after_caps(as_num, caps.drop_last()),
        }
    }
}

/// Whether the capabilities hold a 32-bit AS capability.
pub open spec fn has_asn32(caps: Seq<Capability>) -> bool {
    exists|i: int| 0 <= i < caps.len() && caps[i] is CapASN32
}

/// A session after its OPEN exchange: its parameters, the AS field of the
/// peer's OPEN, and the peer's capabilities as zettabgp holds them.
pub struct OpenedSession {
    pub params: SessionParams,
    /// The AS field of the peer's OPEN.
    pub peer_as: u32,
    pub peer_caps: Vec<BgpCapability>,
}

/// The kinds of the capabilities, and what checking them gives
/// (`BgpSessionParams::check_caps`): the AS of the last 32-bit AS
/// capability, and whether there is one.
fn check_caps(as_num: u32, caps: &Vec<BgpCapability>) -> (r: (Vec<Capability>, u32, bool))
    ensures
        r.0@ == cap_kinds(caps_view(caps@)),
        r.1 == asn_after_caps(as_num, r.0@),
        r.2 == has_asn32(r.0@),
{
    let mut kinds: Vec<Capability> = Vec::new();
    let mut asn = as_num;
    let mut has = false;
    let mut i: usize = 0;
    while i < caps.len()
        invariant
            i <= caps@.len(),
            kinds@ == cap_kinds(caps_view(caps@.take(i as int))),
            asn == asn_after_caps(as_num, kinds@),
            has == has_asn32(kinds@),
        decreases caps@.len() - i,
    {
        let k = kind_of(&caps[i]);
        let ghost before = kinds@;
        kinds.push(k);
        assert(kinds@.drop_last() =~= before);
        assert(cap_kinds(caps_view(caps@.take(i + 1))) =~= before.push(k));
        if let Capability::CapASN32(n) = k {
            asn = n;
            has = true;
            assert(kinds@[i as int] is CapASN32);
        } else {
            assert(has_asn32(kinds@) == has_asn32(before)) by {
                if has_asn32(kinds@) {
                    let j = choose|j: int| 0 <= j < kinds@.len() && kinds@[j] is CapASN32;
                    assert(j < i);
                    assert(before[j] == kinds@[j]);
                }
                if has_asn32(before) {
                    let j = choose|j: int| 0 <= j < before.len() && before[j] is CapASN32;
                    assert(kinds@[j] == before[j]);
                }
            }
        }
        i = i + 1;
    }
    assert(caps@.take(i as int) =~= caps@);
    (kinds, asn, has)
}

/// The parameters of a session after the peer's OPEN (AS `peer_as`, hold
/// time `hold`, capabilities `caps`): the peer's hold time and the kinds of
/// its capabilities, the AS of a session opened by the peer taken from its
/// OPEN, our router id and transport kept, and the capabilities checked.
pub open spec fn opened_params(
    params: SessionParams,
    r: SessionParams,
    peer_as: u32,
    hold: u16,
    caps: Seq<CapView>,
    passive: bool,
) -> bool {
    &&& r.hold_time == hold
    &&& r.router_id == params.router_id
    &&& r.mode == params.mode
    &&& r.caps@ == cap_kinds(caps)
    &&& r.as_num == asn_after_caps(if passive { peer_as } else { params.as_num }, r.caps@)
    &&& r.has_as32bit == has_asn32(r.caps@)
}

/// Takes the peer's OPEN (a message of kind `kind` with body `body`) into a
/// session: any other first message is refused, as is a body the crate
/// cannot decode.
pub fn accept_open(params: &SessionParams, kind: MessageKind, body: &[u8], passive: bool) -> (r: Result<OpenedSession, OpenError>)
    ensures
        kind != MessageKind::Open ==> r == Err::<OpenedSession, OpenError>(OpenError::InvalidState),
        kind == MessageKind::Open ==> match spec_decode_open(body@) {
            None => r == Err::<OpenedSession, OpenError>(OpenError::Decode),
            Some((a, h, id, cs)) => r matches Ok(o) && opened_params(*params, o.params, a, h, cs, passive)
                && o.peer_as == a && caps_view(o.peer_caps@) == cs,
        },
{
    if kind != MessageKind::Open {
        return Err(OpenError::InvalidState);
    }
    let f = match zb_decode_open(body) {
        Some(f) => f,
        None => return Err(OpenError::Decode),
    };
    let base = if passive { f.as_num } else { params.as_num };
    let (kinds, asn, has) = check_caps(base, &f.caps);
    let p = SessionParams {
        as_num: asn,
        hold_time: f.hold_time,
        mode: params.mode,
        router_id: params.router_id,
        caps: kinds,
        has_as32bit: has,
    };
    Ok(OpenedSession { params: p, peer_as: f.as_num, peer_caps: f.caps })
}

/// An OPEN with these fields, framed; `None` when it cannot be encoded.
fn framed_open(as_num: u32, hold: u16, router_id: u32, caps: &Vec<BgpCapability>) -> (r: Option<Vec<u8>>)
    requires
        !open_encode_panics(caps_view(caps@)),
    ensures
        match spec_encode_open(as_num, hold, router_id, caps_view(caps@)) {
            Some(b) => r matches Some(m) && m@ == framed(MessageKind::Open, b),
            None => r is None,
        },
{
    match zb_encode_open(as_num, hold, router_id, caps) {
        Some(body) => Some(frame_message(MessageKind::Open, body.as_slice())),
        None => None,
    }
}

/// Our OPEN, framed: the session's AS, hold time and router id, and the
/// capabilities it offers. `None` when it cannot be encoded.
pub fn our_open(params: &SessionParams) -> (r: Option<Vec<u8>>)
    requires
        !open_encode_panics(offered_views(params.caps@)),
    ensures
        match spec_encode_open(params.as_num, params.hold_time, params.router_id, offered_views(params.caps@)) {
            Some(b) => r matches Some(m) && m@ == framed(MessageKind::Open, b),
            None => r is None,
        },
{
    let caps = offered_caps(params);
    framed_open(params.as_num, params.hold_time, params.router_id, &caps)
}

/// The answer to a peer's OPEN (AS `peer_as`, hold time `hold`,
/// capabilities `caps`): the same OPEN with our router id, framed. `None`
/// when it cannot be encoded.
pub fn answer_open(params: &SessionParams, peer_as: u32, hold: u16, caps: &Vec<BgpCapability>) -> (r: Option<Vec<u8>>)
    requires
        !open_encode_panics(caps_view(caps@)),
    ensures
        match spec_encode_open(peer_as, hold, params.router_id, caps_view(caps@)) {
            Some(b) => r matches Some(m) && m@ == framed(MessageKind::Open, b),
            None => r is None,
        },
{
    framed_open(peer_as, hold, params.router_id, caps)
}

} // verus!
