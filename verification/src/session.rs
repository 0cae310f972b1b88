//! What a BGP session sends: the batching of route changes into UPDATE
//! messages, the capabilities offered when a session opens, and the
//! decisions of the session loop (keepalives, incoming messages).

use vstd::prelude::*;
use vstd::std_specs::iter::IteratorSpec;
use std::collections::BTreeSet;
use crate::net::{IpAddress, NetPrefix, NetV4, NetV6};
use crate::rib::BgpRibUpdate;
use vstd::std_specs::btree::increasing_seq;
use vstd::std_specs::cmp::OrdSpec;

verus! {

broadcast use vstd::std_specs::btree::group_btree_axioms, vstd::laws_cmp::group_laws_cmp;

/// The address family that carries a session.
#[derive(Clone, Copy, Debug, PartialEq, Eq, Structural)]
pub enum TransportMode {
    IPv4,
    IPv6,
}

/// An UPDATE message as this speaker builds it. Prefixes of the session's
/// own family travel in the message's NLRI fields; those of the other
/// family, as MPLS-labeled prefixes in the multiprotocol attributes. The
/// path attributes are, in order: origin incomplete, an empty AS path, local
/// preference 10, the communities when there are any, the next hop, the
/// multiprotocol withdrawals when there are any, the multiprotocol
/// announcements when there are any.
pub struct UpdateMessage {
    pub nlri_withdraws: Vec<NetPrefix>,
    pub mp_withdraws: Vec<NetPrefix>,
    pub nlri_updates: Vec<NetPrefix>,
    pub mp_updates: Vec<NetPrefix>,
    pub next_hop: IpAddress,
    pub mp_next_hop: IpAddress,
    pub mp_label: u32,
    pub communities: Vec<u32>,
    pub local_pref: u32,
}

/// The contents of an UPDATE message.
pub struct MessageView {
    pub nlri_withdraws: Seq<NetPrefix>,
    pub mp_withdraws: Seq<NetPrefix>,
    pub nlri_updates: Seq<NetPrefix>,
    pub mp_updates: Seq<NetPrefix>,
    pub next_hop: IpAddress,
    pub mp_next_hop: IpAddress,
    pub mp_label: u32,
    pub communities: Seq<u32>,
    pub local_pref: u32,
}

impl View for UpdateMessage {
    type V = MessageView;

    open spec fn view(&self) -> MessageView {
        MessageView {
            nlri_withdraws: self.nlri_withdraws@,
            mp_withdraws: self.mp_withdraws@,
            nlri_updates: self.nlri_updates@,
            mp_updates: self.mp_updates@,
            next_hop: self.next_hop,
            mp_next_hop: self.mp_next_hop,
            mp_label: self.mp_label,
            communities: self.communities@,
            local_pref: self.local_pref,
        }
    }
}

impl MessageView {
    /// The number of prefixes the message carries.
    pub open spec fn ops(self) -> nat {
        self.nlri_withdraws.len() + self.mp_withdraws.len() + self.nlri_updates.len()
            + self.mp_updates.len()
    }

    /// The prefixes the message withdraws.
    pub open spec fn withdrawn(self) -> Set<NetPrefix> {
        self.nlri_withdraws.to_set().union(self.mp_withdraws.to_set())
    }

    /// The prefixes the message announces.
    pub open spec fn announced(self) -> Set<NetPrefix> {
        self.nlri_updates.to_set().union(self.mp_updates.to_set())
    }

    /// The message with `n` added: to the NLRI fields (`nlri`) or the
    /// multiprotocol attributes, as an announcement or a withdrawal.
    pub open spec fn with(self, nlri: bool, announce: bool, n: NetPrefix) -> MessageView {
        if nlri && announce {
            MessageView { nlri_updates: self.nlri_updates.push(n), ..self }
        } else if nlri {
            MessageView { nlri_withdraws: self.nlri_withdraws.push(n), ..self }
        } else if announce {
            MessageView { mp_updates: self.mp_updates.push(n), ..self }
        } else {
            MessageView { mp_withdraws: self.mp_withdraws.push(n), ..self }
        }
    }
}

/// Where a prefix goes in a session: `Some(true)` in the NLRI fields (the
/// session's own family), `Some(false)` in the multiprotocol attributes (the
/// other family, when the peer offered the labeled capability for it), `None`
/// when the session cannot carry it.
pub open spec fn placement(mode: TransportMode, v4_labeled: bool, v6_labeled: bool, n: NetPrefix) -> Option<bool> {
    match (mode, n) {
        (TransportMode::IPv4, NetPrefix::V4(..)) => Some(true),
        (TransportMode::IPv6, NetPrefix::V6(..)) => Some(true),
        (TransportMode::IPv6, NetPrefix::V4(..)) => if v4_labeled { Some(false) } else { None },
        (TransportMode::IPv4, NetPrefix::V6(..)) => if v6_labeled { Some(false) } else { None },
        _ => None,
    }
}

/// Law: a session carries every prefix of its own transport family,
/// whatever capabilities the peer offered, and puts it in the NLRI fields of
/// its messages (an IPv6 ban reaches a peer connected over IPv6); a prefix
/// of the other family it carries, in the multiprotocol attributes, exactly
/// when the peer offered the labeled capability for that family.
pub proof fn law_session_places_prefixes(u: PeerUpdater, s: Set<NetPrefix>, n: NetPrefix)
    requires
        s.contains(n),
    ensures
        (u.mode == TransportMode::IPv4 && n is V4) || (u.mode == TransportMode::IPv6 && n is V6) ==> {
            &&& u.carried(s).contains(n)
            &&& u.message_of(seq![(n, true)]).nlri_updates == seq![n]
            &&& u.message_of(seq![(n, true)]).mp_updates.len() == 0
            &&& u.message_of(seq![(n, false)]).nlri_withdraws == seq![n]
            &&& u.message_of(seq![(n, false)]).mp_withdraws.len() == 0
        },
        u.mode == TransportMode::IPv4 && n is V6 ==> (u.carried(s).contains(n) <==> u.v6_labeled),
        u.mode == TransportMode::IPv6 && n is V4 ==> (u.carried(s).contains(n) <==> u.v4_labeled),
        (u.mode == TransportMode::IPv4 && n is V6 && u.v6_labeled) || (u.mode == TransportMode::IPv6 && n is V4
            && u.v4_labeled) ==> {
            &&& u.message_of(seq![(n, true)]).mp_updates == seq![n]
            &&& u.message_of(seq![(n, true)]).nlri_updates.len() == 0
            &&& u.message_of(seq![(n, false)]).mp_withdraws == seq![n]
        },
{
    let pl = placement(u.mode, u.v4_labeled, u.v6_labeled, n);
    let empty = Seq::<(NetPrefix, bool)>::empty();
    assert(u.message_of(empty) == u.fresh());
    let up = seq![(n, true)];
    let down = seq![(n, false)];
    assert(up.drop_last() =~= empty);
    assert(down.drop_last() =~= empty);
    assert(u.message_of(up) == u.fresh().with(pl.unwrap(), true, n));
    assert(u.message_of(down) == u.fresh().with(pl.unwrap(), false, n));
    assert(Seq::<NetPrefix>::empty().push(n) =~= seq![n]);
    assert(u.carried(s).contains(n) == (pl is Some));
}

/// The largest number of prefixes an UPDATE message is given before it is
/// sent and a new one begun.
pub open spec fn batch_limit() -> nat {
    101
}

/// Builds the UPDATE messages of one session. A message collects prefixes
/// until it holds more than 100 of them; then it is sent and a new one is
/// begun. Flushing sends whatever the current message holds.
pub struct PeerUpdater {
    pub mode: TransportMode,
    pub v4_labeled: bool,
    pub v6_labeled: bool,
    pub nexthop4: u32,
    pub nexthop6: u128,
    pub communities: Vec<u32>,
    pub pending: Option<(UpdateMessage, usize)>,
}

impl PeerUpdater {
    /// The next hop of the session's own family.
    pub open spec fn spec_next_hop(&self) -> IpAddress {
        match self.mode {
            TransportMode::IPv4 => IpAddress::V4(self.nexthop4),
            TransportMode::IPv6 => IpAddress::V6(self.nexthop6),
        }
    }

    /// A message with nothing in it yet.
    pub open spec fn fresh(&self) -> MessageView {
        MessageView {
            nlri_withdraws: Seq::empty(),
            mp_withdraws: Seq::empty(),
            nlri_updates: Seq::empty(),
            mp_updates: Seq::empty(),
            next_hop: self.spec_next_hop(),
            mp_next_hop: match self.mode {
                TransportMode::IPv4 => IpAddress::V4(self.nexthop4),
                TransportMode::IPv6 => IpAddress::V6(self.nexthop6),
            },
            mp_label: match self.mode {
                TransportMode::IPv4 => 2,
                TransportMode::IPv6 => 3,
            },
            communities: self.communities@,
            local_pref: 10,
        }
    }

    /// The pending message and its count, as a view.
    pub open spec fn pending_view(&self) -> Option<(MessageView, nat)> {
        match self.pending {
            Some((m, c)) => Some((m@, c as nat)),
            None => None,
        }
    }

    /// The message is counted right: its count is the number of prefixes
    /// it holds, at most the batch limit.
    pub open spec fn wf(&self) -> bool {
        self.pending matches Some((m, c)) ==> c == m@.ops() && c <= batch_limit()
    }

    /// A session's builder, for a session carried over `mode` whose peer
    /// offered (or not) the labeled IPv4 and IPv6 capabilities.
    pub fn new(
        mode: TransportMode,
        v4_labeled: bool,
        v6_labeled: bool,
        nexthop4: u32,
        nexthop6: u128,
        communities: Vec<u32>,
    ) -> (r: PeerUpdater)
        ensures
            r.mode == mode,
            r.v4_labeled == v4_labeled,
            r.v6_labeled == v6_labeled,
            r.nexthop4 == nexthop4,
            r.nexthop6 == nexthop6,
            r.communities@ == communities@,
            r.pending is None,
            r.wf(),
    {
        PeerUpdater { mode, v4_labeled, v6_labeled, nexthop4, nexthop6, communities, pending: None }
    }

    /// The next hop of the session's own family.
    pub fn next_hop(&self) -> (r: IpAddress)
        ensures
            r == self.spec_next_hop(),
    {
        match self.mode {
            TransportMode::IPv4 => IpAddress::V4(self.nexthop4),
            TransportMode::IPv6 => IpAddress::V6(self.nexthop6),
        }
    }

    fn fresh_message(&self) -> (r: UpdateMessage)
        ensures
            r@ == self.fresh(),
    {
        let mut communities: Vec<u32> = Vec::new();
        let mut i: usize = 0;
        while i < self.communities.len()
            invariant
                i <= self.communities@.len(),
                communities@ == self.communities@.take(i as int),
            decreases self.communities@.len() - i,
        {
            communities.push(self.communities[i]);
            i = i + 1;
            assert(communities@ =~= self.communities@.take(i as int));
        }
        assert(self.communities@.take(i as int) =~= self.communities@);
        let (mp_next_hop, mp_label) = match self.mode {
            TransportMode::IPv4 => (IpAddress::V4(self.nexthop4), 2u32),
            TransportMode::IPv6 => (IpAddress::V6(self.nexthop6), 3u32),
        };
        let r = UpdateMessage {
            nlri_withdraws: Vec::new(),
            mp_withdraws: Vec::new(),
            nlri_updates: Vec::new(),
            mp_updates: Vec::new(),
            next_hop: self.next_hop(),
            mp_next_hop,
            mp_label,
            communities,
            local_pref: 10,
        };
        assert(r@.nlri_withdraws =~= Seq::<NetPrefix>::empty());
        assert(r@.mp_withdraws =~= Seq::<NetPrefix>::empty());
        assert(r@.nlri_updates =~= Seq::<NetPrefix>::empty());
        assert(r@.mp_updates =~= Seq::<NetPrefix>::empty());
        r
    }

    /// Sends the pending message if it holds more than `maxcnt` prefixes,
    /// then makes sure a message is pending: an empty one when none was, or
    /// when the pending one was sent.
    pub fn msgflush(&mut self, maxcnt: usize) -> (sent: Option<UpdateMessage>)
        requires
            old(self).wf(),
        ensures
            final(self).wf(),
            final(self).mode == old(self).mode,
            final(self).v4_labeled == old(self).v4_labeled,
            final(self).v6_labeled == old(self).v6_labeled,
            final(self).nexthop4 == old(self).nexthop4,
            final(self).nexthop6 == old(self).nexthop6,
            final(self).communities@ == old(self).communities@,
            match old(self).pending_view() {
                Some((m, c)) => if c > maxcnt {
                    &&& sent matches Some(s) && s@ == m
                    &&& final(self).pending_view() == Some((old(self).fresh(), 0nat))
                } else {
                    &&& sent is None
                    &&& final(self).pending_view() == old(self).pending_view()
                },
                None => {
                    &&& sent is None
                    &&& final(self).pending_view() == Some((old(self).fresh(), 0nat))
                },
            },
    {
        let mut sent: Option<UpdateMessage> = None;
        if let Some((m, c)) = self.pending.take() {
            if c > maxcnt {
                sent = Some(m);
            } else {
                self.pending = Some((m, c));
                return None;
            }
        }
        let fresh = self.fresh_message();
        self.pending = Some((fresh, 0));
        sent
    }

    /// Adds prefix `n` to the pending message, as an announcement or a
    /// withdrawal, where the session can carry it; before that, the pending
    /// message is sent when it holds more than 100 prefixes.
    pub fn add(&mut self, n: NetPrefix, announce: bool, out: &mut Vec<UpdateMessage>)
        requires
            old(self).wf(),
        ensures
            final(self).wf(),
            final(self).mode == old(self).mode,
            final(self).v4_labeled == old(self).v4_labeled,
            final(self).v6_labeled == old(self).v6_labeled,
            final(self).nexthop4 == old(self).nexthop4,
            final(self).nexthop6 == old(self).nexthop6,
            final(self).communities@ == old(self).communities@,
            match placement(old(self).mode, old(self).v4_labeled, old(self).v6_labeled, n) {
                None => final(self).pending_view() == old(self).pending_view() && final(out)@ == old(out)@,
                Some(nlri) => {
                    let (base, base_cnt, emitted) = match old(self).pending_view() {
                        Some((m, c)) => if c > 100 {
                            (old(self).fresh(), 0nat, Some(m))
                        } else {
                            (m, c, None)
                        },
                        None => (old(self).fresh(), 0nat, None),
                    };
                    &&& final(self).pending_view() == Some((base.with(nlri, announce, n), base_cnt + 1))
                    &&& match emitted {
                        Some(m) => final(out)@.len() == old(out)@.len() + 1 && final(out)@.drop_last() == old(out)@
                            && final(out)@.last()@ == m,
                        None => final(out)@ == old(out)@,
                    }
                },
            },
    {
        let place = match (self.mode, n) {
            (TransportMode::IPv4, NetPrefix::V4(..)) => Some(true),
            (TransportMode::IPv6, NetPrefix::V6(..)) => Some(true),
            (TransportMode::IPv6, NetPrefix::V4(..)) => if self.v4_labeled { Some(false) } else { None },
            (TransportMode::IPv4, NetPrefix::V6(..)) => if self.v6_labeled { Some(false) } else { None },
            _ => None,
        };
        let nlri = match place {
            None => return,
            Some(b) => b,
        };
        if let Some(m) = self.msgflush(100) {
            out.push(m);
        }
        let (mut m, c) = match self.pending.take() {
            Some(p) => p,
            None => {
                assert(false);
                return;
            },
        };
        if nlri && announce {
            m.nlri_updates.push(n);
        } else if nlri {
            m.nlri_withdraws.push(n);
        } else if announce {
            m.mp_updates.push(n);
        } else {
            m.mp_withdraws.push(n);
        }
        self.pending = Some((m, c + 1));
    }
}

/// The prefixes withdrawn by the messages of `out`.
pub open spec fn sent_withdrawn(out: Seq<UpdateMessage>) -> Set<NetPrefix>
    decreases out.len(),
{
    if out.len() == 0 {
        Set::empty()
    } else {
        sent_withdrawn(out.drop_last()).union(out.last()@.withdrawn())
    }
}

/// The prefixes announced by the messages of `out`.
pub open spec fn sent_announced(out: Seq<UpdateMessage>) -> Set<NetPrefix>
    decreases out.len(),
{
    if out.len() == 0 {
        Set::empty()
    } else {
        sent_announced(out.drop_last()).union(out.last()@.announced())
    }
}

/// The IPv4 prefixes of a set, as prefixes.
pub open spec fn nets_v4(s: Set<NetV4>) -> Set<NetPrefix> {
    s.map(|k: NetV4| NetPrefix::V4(k.0, k.1))
}

/// The IPv6 prefixes of a set, as prefixes.
pub open spec fn nets_v6(s: Set<NetV6>) -> Set<NetPrefix> {
    s.map(|k: NetV6| NetPrefix::V6(k.0, k.1))
}

impl PeerUpdater {
    /// The prefixes of `s` that the session can carry.
    pub open spec fn carried(&self, s: Set<NetPrefix>) -> Set<NetPrefix> {
        s.filter(|n: NetPrefix| placement(self.mode, self.v4_labeled, self.v6_labeled, n) is Some)
    }

    /// A message of this session: its fields other than the prefixes are
    /// those of a fresh message.
    pub open spec fn shaped(&self, m: MessageView) -> bool {
        let f = self.fresh();
        &&& m.next_hop == f.next_hop
        &&& m.mp_next_hop == f.mp_next_hop
        &&& m.mp_label == f.mp_label
        &&& m.communities == f.communities
        &&& m.local_pref == f.local_pref
    }

    /// The messages of `out` are of this session and hold 1 to 101 prefixes.
    pub open spec fn sent_ok(&self, out: Seq<UpdateMessage>) -> bool {
        forall|i: int|
            0 <= i < out.len() ==> self.shaped(#[trigger] out[i]@) && 1 <= out[i]@.ops()
                <= batch_limit()
    }

    /// The prefixes withdrawn by the pending message.
    pub open spec fn pending_withdrawn(&self) -> Set<NetPrefix> {
        match self.pending_view() {
            Some((m, _)) => m.withdrawn(),
            None => Set::empty(),
        }
    }

    /// The prefixes announced by the pending message.
    pub open spec fn pending_announced(&self) -> Set<NetPrefix> {
        match self.pending_view() {
            Some((m, _)) => m.announced(),
            None => Set::empty(),
        }
    }

    /// The pending message, if any, is of this session.
    pub open spec fn pending_ok(&self) -> bool {
        self.wf() && (self.pending_view() matches Some((m, _)) ==> self.shaped(m))
    }
}

/// Strict prefix order of IPv4 prefixes: address, then length.
pub open spec fn lt_v4(a: NetV4, b: NetV4) -> bool {
    a.0 < b.0 || (a.0 == b.0 && a.1 < b.1)
}

/// Strict prefix order of IPv6 prefixes: address, then length.
pub open spec fn lt_v6(a: NetV6, b: NetV6) -> bool {
    a.0 < b.0 || (a.0 == b.0 && a.1 < b.1)
}

/// `q` lists the elements of `s` in increasing order of `lt`.
pub open spec fn lists_in_order<K>(q: Seq<K>, s: Set<K>, lt: spec_fn(K, K) -> bool) -> bool {
    &&& q.to_set() == s
    &&& forall|i: int, j: int| 0 <= i < j < q.len() ==> lt(q[i], q[j])
}

/// `q` lists the IPv4 prefixes of `s` in increasing prefix order.
pub open spec fn in_order_v4(q: Seq<NetV4>, s: Set<NetV4>) -> bool {
    lists_in_order(q, s, |a: NetV4, b: NetV4| lt_v4(a, b))
}

/// `q` lists the IPv6 prefixes of `s` in increasing prefix order.
pub open spec fn in_order_v6(q: Seq<NetV6>, s: Set<NetV6>) -> bool {
    lists_in_order(q, s, |a: NetV6, b: NetV6| lt_v6(a, b))
}

/// The IPv4 prefixes of `s` in increasing prefix order, as prefixes.
pub open spec fn sorted_v4(s: Set<NetV4>) -> Seq<NetPrefix> {
    let q = choose|q: Seq<NetV4>| #[trigger] in_order_v4(q, s);
    q.map_values(|k: NetV4| NetPrefix::V4(k.0, k.1))
}

/// The IPv6 prefixes of `s` in increasing prefix order, as prefixes.
pub open spec fn sorted_v6(s: Set<NetV6>) -> Seq<NetPrefix> {
    let q = choose|q: Seq<NetV6>| #[trigger] in_order_v6(q, s);
    q.map_values(|k: NetV6| NetPrefix::V6(k.0, k.1))
}

/// Two lists of one set in increasing order of an asymmetric relation are
/// the same list.
proof fn lemma_in_order_unique<K>(q1: Seq<K>, q2: Seq<K>, s: Set<K>, lt: spec_fn(K, K) -> bool)
    requires
        lists_in_order(q1, s, lt),
        lists_in_order(q2, s, lt),
        forall|a: K, b: K| #[trigger] lt(a, b) ==> !lt(b, a),
    ensures
        q1 == q2,
    decreases q1.len(),
{
    if q1.len() == 0 || q2.len() == 0 {
        if q2.len() > 0 {
            assert(q2.to_set().contains(q2[0]));
            assert(q1.to_set().contains(q2[0]));
        }
        if q1.len() > 0 {
            assert(q1.to_set().contains(q1[0]));
            assert(q2.to_set().contains(q1[0]));
        }
        assert(q1 =~= q2);
    } else {
        let a = q1[0];
        let b = q2[0];
        assert(q1.to_set().contains(a));
        assert(q2.to_set().contains(a));
        assert(q2.to_set().contains(b));
        assert(q1.to_set().contains(b));
        let j = choose|j: int| 0 <= j < q1.len() && q1[j] == b;
        let k = choose|k: int| 0 <= k < q2.len() && q2[k] == a;
        if a != b {
            assert(j > 0 && k > 0);
            assert(lt(a, b) && lt(b, a));
        }
        let s2 = s.remove(a);
        let r1 = q1.drop_first();
        let r2 = q2.drop_first();
        assert forall|x: K| #[trigger] r1.to_set().contains(x) <==> s2.contains(x) by {
            if r1.to_set().contains(x) {
                let i = choose|i: int| 0 <= i < r1.len() && r1[i] == x;
                assert(q1[i + 1] == x);
                assert(q1.to_set().contains(x));
                assert(lt(a, x));
            }
            if s2.contains(x) {
                assert(q1.to_set().contains(x));
                let i = choose|i: int| 0 <= i < q1.len() && q1[i] == x;
                assert(i > 0);
                assert(r1[i - 1] == x);
            }
        }
        assert forall|x: K| #[trigger] r2.to_set().contains(x) <==> s2.contains(x) by {
            if r2.to_set().contains(x) {
                let i = choose|i: int| 0 <= i < r2.len() && r2[i] == x;
                assert(q2[i + 1] == x);
                assert(q2.to_set().contains(x));
                assert(lt(b, x));
            }
            if s2.contains(x) {
                assert(q2.to_set().contains(x));
                let i = choose|i: int| 0 <= i < q2.len() && q2[i] == x;
                assert(i > 0);
                assert(r2[i - 1] == x);
            }
        }
        assert(r1.to_set() =~= s2);
        assert(r2.to_set() =~= s2);
        assert forall|i: int, j: int| 0 <= i < j < r1.len() implies lt(r1[i], r1[j]) by {
            assert(lt(q1[i + 1], q1[j + 1]));
        }
        assert forall|i: int, j: int| 0 <= i < j < r2.len() implies lt(r2[i], r2[j]) by {
            assert(lt(q2[i + 1], q2[j + 1]));
        }
        lemma_in_order_unique(r1, r2, s2, lt);
        assert(q1 =~= q2) by {
            assert forall|i: int| 0 <= i < q1.len() implies q1[i] == q2[i] by {
                if i > 0 {
                    assert(r1[i - 1] == r2[i - 1]);
                }
            }
        }
    }
}

/// The walk of a set's iterator lists the set in increasing prefix order.
pub(crate) proof fn lemma_walk_sorted_v4(r: Seq<&NetV4>, s: Set<NetV4>)
    requires
        increasing_seq(r),
        r.unref().to_set() == s,
    ensures
        in_order_v4(r.unref(), s),
        sorted_v4(s) == r.unref().map_values(|k: NetV4| NetPrefix::V4(k.0, k.1)),
{
    let lt = |a: NetV4, b: NetV4| lt_v4(a, b);
    let q = r.unref();
    assert(vstd::laws_cmp::obeys_cmp::<u32>());
    assert(vstd::laws_cmp::obeys_cmp::<u8>());
    assert(vstd::laws_cmp::obeys_cmp::<NetV4>());
    assert(vstd::laws_cmp::obeys_cmp::<&NetV4>());
    assert forall|i: int, j: int| 0 <= i < j < q.len() implies lt(q[i], q[j]) by {
        assert(OrdSpec::cmp_spec(&r[i], &r[j]) is Less);
    }
    assert(in_order_v4(q, s));
    let c = choose|c: Seq<NetV4>| #[trigger] in_order_v4(c, s);
    lemma_in_order_unique(c, q, s, lt);
}

/// The walk of a set's iterator lists the set in increasing prefix order.
pub(crate) proof fn lemma_walk_sorted_v6(r: Seq<&NetV6>, s: Set<NetV6>)
    requires
        increasing_seq(r),
        r.unref().to_set() == s,
    ensures
        in_order_v6(r.unref(), s),
        sorted_v6(s) == r.unref().map_values(|k: NetV6| NetPrefix::V6(k.0, k.1)),
{
    let lt = |a: NetV6, b: NetV6| lt_v6(a, b);
    let q = r.unref();
    assert(vstd::laws_cmp::obeys_cmp::<u128>());
    assert(vstd::laws_cmp::obeys_cmp::<u8>());
    assert(vstd::laws_cmp::obeys_cmp::<NetV6>());
    assert(vstd::laws_cmp::obeys_cmp::<&NetV6>());
    assert forall|i: int, j: int| 0 <= i < j < q.len() implies lt(q[i], q[j]) by {
        assert(OrdSpec::cmp_spec(&r[i], &r[j]) is Less);
    }
    assert(in_order_v6(q, s));
    let c = choose|c: Seq<NetV6>| #[trigger] in_order_v6(c, s);
    lemma_in_order_unique(c, q, s, lt);
}

/// The number of messages that carry `n` operations: one per run of 101.
pub open spec fn batch_count(n: nat) -> nat {
    (n + 100) / 101
}

impl PeerUpdater {
    /// The operations, prefix and whether it is announced, of adding the
    /// prefixes of `ns` in order: those the session carries.
    pub open spec fn carried_ops(&self, ns: Seq<NetPrefix>, announce: bool) -> Seq<(NetPrefix, bool)>
        decreases ns.len(),
    {
        if ns.len() == 0 {
            Seq::empty()
        } else {
            let r = self.carried_ops(ns.drop_last(), announce);
            if placement(self.mode, self.v4_labeled, self.v6_labeled, ns.last()) is Some {
                r.push((ns.last(), announce))
            } else {
                r
            }
        }
    }

    /// The operations of sending a change of the route table: its IPv4
    /// withdrawals, its IPv6 withdrawals, its IPv4 announcements and its
    /// IPv6 announcements, each in prefix order.
    pub open spec fn change_ops(&self, w4: Set<NetV4>, w6: Set<NetV6>, u4: Set<NetV4>, u6: Set<NetV6>) -> Seq<(NetPrefix, bool)> {
        self.carried_ops(sorted_v4(w4), false) + self.carried_ops(sorted_v6(w6), false)
            + self.carried_ops(sorted_v4(u4), true) + self.carried_ops(sorted_v6(u6), true)
    }

    /// A fresh message with the operations `ops` added in order.
    pub open spec fn message_of(&self, ops: Seq<(NetPrefix, bool)>) -> MessageView
        decreases ops.len(),
    {
        if ops.len() == 0 {
            self.fresh()
        } else {
            self.message_of(ops.drop_last()).with(
                placement(self.mode, self.v4_labeled, self.v6_labeled, ops.last().0).unwrap(),
                ops.last().1,
                ops.last().0,
            )
        }
    }

    /// Message `i` of those that carry `ops`: operations `101 * i` to
    /// `101 * i + 100`, or to the last one.
    pub open spec fn batch(&self, ops: Seq<(NetPrefix, bool)>, i: int) -> MessageView {
        let end = if 101 * i + 101 < ops.len() { 101 * i + 101 } else { ops.len() as int };
        self.message_of(ops.subrange(101 * i, end))
    }

    /// `out` and the pending message carry `ops`: every full run of 101
    /// operations was sent, the pending message holds the rest (at least
    /// one operation, once there is any).
    pub open spec fn batched(
        &self,
        out: Seq<UpdateMessage>,
        pending: Option<(MessageView, nat)>,
        ops: Seq<(NetPrefix, bool)>,
    ) -> bool {
        let k = out.len() as int;
        &&& ops.len() == 0 ==> k == 0 && (pending is None || pending == Some((self.fresh(), 0nat)))
        &&& ops.len() > 0 ==> {
            &&& 101 * k < ops.len() <= 101 * k + 101
            &&& pending == Some((self.message_of(ops.subrange(101 * k, ops.len() as int)), (ops.len() - 101 * k) as nat))
        }
        &&& forall|i: int| 0 <= i < k ==> (#[trigger] out[i])@ == self.message_of(ops.subrange(101 * i, 101 * i + 101))
    }

    /// Same fields other than the pending message.
    pub open spec fn same_config(&self, other: PeerUpdater) -> bool {
        &&& self.mode == other.mode
        &&& self.v4_labeled == other.v4_labeled
        &&& self.v6_labeled == other.v6_labeled
        &&& self.nexthop4 == other.nexthop4
        &&& self.nexthop6 == other.nexthop6
        &&& self.communities@ == other.communities@
    }
}

proof fn lemma_same_config_messages(a: PeerUpdater, b: PeerUpdater, ops: Seq<(NetPrefix, bool)>)
    requires
        a.same_config(b),
    ensures
        a.fresh() == b.fresh(),
        a.message_of(ops) == b.message_of(ops),
    decreases ops.len(),
{
    assert(a.fresh() == b.fresh());
    if ops.len() > 0 {
        lemma_same_config_messages(a, b, ops.drop_last());
    }
}

proof fn lemma_same_config_ops(a: PeerUpdater, b: PeerUpdater, ns: Seq<NetPrefix>, announce: bool)
    requires
        a.same_config(b),
    ensures
        a.carried_ops(ns, announce) == b.carried_ops(ns, announce),
    decreases ns.len(),
{
    if ns.len() > 0 {
        lemma_same_config_ops(a, b, ns.drop_last(), announce);
    }
}

proof fn lemma_same_config_batched(
    a: PeerUpdater,
    b: PeerUpdater,
    out: Seq<UpdateMessage>,
    pending: Option<(MessageView, nat)>,
    ops: Seq<(NetPrefix, bool)>,
)
    requires
        a.same_config(b),
        a.batched(out, pending, ops),
    ensures
        b.batched(out, pending, ops),
{
    lemma_same_config_messages(a, b, ops);
    if ops.len() > 0 {
        lemma_same_config_messages(a, b, ops.subrange(101 * out.len() as int, ops.len() as int));
    }
    assert forall|i: int| 0 <= i < out.len() implies (#[trigger] out[i])@ == b.message_of(ops.subrange(101 * i, 101 * i + 101)) by {
        lemma_same_config_messages(a, b, ops.subrange(101 * i, 101 * i + 101));
    }
}

proof fn lemma_message_push(u: PeerUpdater, x: Seq<(NetPrefix, bool)>, n: NetPrefix, announce: bool, nlri: bool)
    requires
        placement(u.mode, u.v4_labeled, u.v6_labeled, n) == Some(nlri),
    ensures
        u.message_of(x.push((n, announce))) == u.message_of(x).with(nlri, announce, n),
{
    assert(x.push((n, announce)).drop_last() =~= x);
}

/// Adding one carried operation keeps `out` and the pending message the
/// batching of the operations.
proof fn lemma_batched_push(
    u: PeerUpdater,
    out: Seq<UpdateMessage>,
    pending: Option<(MessageView, nat)>,
    ops: Seq<(NetPrefix, bool)>,
    nlri: bool,
    n: NetPrefix,
    announce: bool,
    out2: Seq<UpdateMessage>,
    pending2: Option<(MessageView, nat)>,
)
    requires
        u.batched(out, pending, ops),
        placement(u.mode, u.v4_labeled, u.v6_labeled, n) == Some(nlri),
        ({
            let (base, base_cnt, emitted) = match pending {
                Some((m, c)) => if c > 100 {
                    (u.fresh(), 0nat, Some(m))
                } else {
                    (m, c, None)
                },
                None => (u.fresh(), 0nat, None),
            };
            &&& pending2 == Some((base.with(nlri, announce, n), base_cnt + 1))
            &&& match emitted {
                Some(m) => out2.len() == out.len() + 1 && out2.drop_last() == out && out2.last()@ == m,
                None => out2 == out,
            }
        }),
    ensures
        u.batched(out2, pending2, ops.push((n, announce))),
{
    let op = (n, announce);
    let ops2 = ops.push(op);
    let k = out.len() as int;
    let len = ops.len() as int;
    lemma_message_push(u, Seq::empty(), n, announce, nlri);
    assert(Seq::<(NetPrefix, bool)>::empty().push(op) =~= seq![op]);
    assert forall|a: int, b: int| 0 <= a <= b <= len implies #[trigger] ops2.subrange(a, b) == ops.subrange(a, b) by {
        assert(ops2.subrange(a, b) =~= ops.subrange(a, b));
    }
    if len == 0 {
        assert(ops2.subrange(0, 1) =~= seq![op]);
    } else {
        let c = (len - 101 * k) as nat;
        if c > 100 {
            let k2 = out2.len() as int;
            assert(k2 == k + 1);
            assert(ops2.subrange(101 * k2, len + 1) =~= seq![op]);
            assert(ops2.subrange(101 * k, 101 * k + 101) == ops.subrange(101 * k, len));
            assert forall|i: int| 0 <= i < k2 implies (#[trigger] out2[i])@ == u.message_of(ops2.subrange(101 * i, 101 * i + 101)) by {
                if i < k {
                    assert(out2[i] == out2.drop_last()[i]);
                    assert(ops2.subrange(101 * i, 101 * i + 101) == ops.subrange(101 * i, 101 * i + 101));
                }
            }
        } else {
            assert(ops2.subrange(101 * k, len + 1) =~= ops.subrange(101 * k, len).push(op));
            lemma_message_push(u, ops.subrange(101 * k, len), n, announce, nlri);
            assert forall|i: int| 0 <= i < k implies (#[trigger] out2[i])@ == u.message_of(ops2.subrange(101 * i, 101 * i + 101)) by {
                assert(ops2.subrange(101 * i, 101 * i + 101) == ops.subrange(101 * i, 101 * i + 101));
            }
        }
    }
}

proof fn lemma_carried_single(u: PeerUpdater, p: NetPrefix, announce: bool)
    ensures
        u.carried_ops(seq![p], announce) == if placement(u.mode, u.v4_labeled, u.v6_labeled, p) is Some {
            seq![(p, announce)]
        } else {
            Seq::<(NetPrefix, bool)>::empty()
        },
{
    assert(u.carried_ops(Seq::<NetPrefix>::empty(), announce) == Seq::<(NetPrefix, bool)>::empty());
    assert(seq![p].drop_last() =~= Seq::<NetPrefix>::empty());
    assert(seq![p].last() == p);
    assert(Seq::<(NetPrefix, bool)>::empty().push((p, announce)) =~= seq![(p, announce)]);
}

proof fn lemma_carried_push(u: PeerUpdater, x: Seq<NetPrefix>, p: NetPrefix, announce: bool)
    ensures
        u.carried_ops(x.push(p), announce) == u.carried_ops(x, announce) + u.carried_ops(seq![p], announce),
{
    lemma_carried_single(u, p, announce);
    assert(x.push(p).drop_last() =~= x);
    assert(x.push(p).last() == p);
    assert(u.carried_ops(x.push(p), announce) =~= u.carried_ops(x, announce) + u.carried_ops(seq![p], announce));
}

/// A message of this session with no prefix in it is a fresh one.
proof fn lemma_empty_is_fresh(u: PeerUpdater, m: MessageView)
    requires
        m.ops() == 0,
        u.shaped(m),
    ensures
        m == u.fresh(),
{
    assert(m.nlri_withdraws =~= Seq::<NetPrefix>::empty());
    assert(m.mp_withdraws =~= Seq::<NetPrefix>::empty());
    assert(m.nlri_updates =~= Seq::<NetPrefix>::empty());
    assert(m.mp_updates =~= Seq::<NetPrefix>::empty());
}

/// Sending what the pending message holds completes the batching: the
/// messages are the batches of the operations.
proof fn lemma_batched_flush(
    u: PeerUpdater,
    out: Seq<UpdateMessage>,
    pending: Option<(MessageView, nat)>,
    ops: Seq<(NetPrefix, bool)>,
    out2: Seq<UpdateMessage>,
)
    requires
        u.batched(out, pending, ops),
        match pending {
            Some((m, c)) => if c > 0 {
                out2.len() == out.len() + 1 && out2.drop_last() == out && out2.last()@ == m
            } else {
                out2 == out
            },
            None => out2 == out,
        },
    ensures
        out2.len() == batch_count(ops.len()),
        forall|i: int| 0 <= i < out2.len() ==> (#[trigger] out2[i])@ == u.batch(ops, i),
{
    let k = out.len() as int;
    let len = ops.len() as int;
    if len == 0 {
        assert(batch_count(0) == 0);
    } else {
        assert(batch_count(ops.len()) == k + 1) by (nonlinear_arith)
            requires
                101 * k < len <= 101 * k + 101,
                len == ops.len(),
        ;
        assert forall|i: int| 0 <= i < out2.len() implies (#[trigger] out2[i])@ == u.batch(ops, i) by {
            if i < k {
                assert(out2[i] == out2.drop_last()[i]);
                assert(101 * i + 101 <= 101 * k);
            }
        }
    }
}

proof fn lemma_nets_v4_insert(s: Set<NetV4>, k: NetV4)
    ensures
        nets_v4(s.insert(k)) == nets_v4(s).insert(NetPrefix::V4(k.0, k.1)),
{
    assert forall|b: NetPrefix| #[trigger] nets_v4(s.insert(k)).contains(b) <==> nets_v4(s).insert(
        NetPrefix::V4(k.0, k.1),
    ).contains(b) by {
        if nets_v4(s.insert(k)).contains(b) {
            let a = choose|a: NetV4| s.insert(k).contains(a) && NetPrefix::V4(a.0, a.1) == b;
            if a != k {
                assert(s.contains(a));
            }
        }
        if nets_v4(s).contains(b) {
            let a = choose|a: NetV4| s.contains(a) && NetPrefix::V4(a.0, a.1) == b;
            assert(s.insert(k).contains(a));
        }
        if b == NetPrefix::V4(k.0, k.1) {
            assert(s.insert(k).contains(k));
        }
    }
    assert(nets_v4(s.insert(k)) =~= nets_v4(s).insert(NetPrefix::V4(k.0, k.1)));
}

proof fn lemma_nets_v6_insert(s: Set<NetV6>, k: NetV6)
    ensures
        nets_v6(s.insert(k)) == nets_v6(s).insert(NetPrefix::V6(k.0, k.1)),
{
    assert forall|b: NetPrefix| #[trigger] nets_v6(s.insert(k)).contains(b) <==> nets_v6(s).insert(
        NetPrefix::V6(k.0, k.1),
    ).contains(b) by {
        if nets_v6(s.insert(k)).contains(b) {
            let a = choose|a: NetV6| s.insert(k).contains(a) && NetPrefix::V6(a.0, a.1) == b;
            if a != k {
                assert(s.contains(a));
            }
        }
        if nets_v6(s).contains(b) {
            let a = choose|a: NetV6| s.contains(a) && NetPrefix::V6(a.0, a.1) == b;
            assert(s.insert(k).contains(a));
        }
        if b == NetPrefix::V6(k.0, k.1) {
            assert(s.insert(k).contains(k));
        }
    }
    assert(nets_v6(s.insert(k)) =~= nets_v6(s).insert(NetPrefix::V6(k.0, k.1)));
}

proof fn lemma_with_sets(m: MessageView, nlri: bool, announce: bool, n: NetPrefix)
    ensures
        m.with(nlri, announce, n).ops() == m.ops() + 1,
        m.with(nlri, announce, n).withdrawn() == if announce { m.withdrawn() } else { m.withdrawn().insert(n) },
        m.with(nlri, announce, n).announced() == if announce { m.announced().insert(n) } else { m.announced() },
{
    broadcast use vstd::seq_lib::group_seq_properties;
    let w = m.with(nlri, announce, n);
    assert(w.withdrawn() =~= if announce { m.withdrawn() } else { m.withdrawn().insert(n) });
    assert(w.announced() =~= if announce { m.announced().insert(n) } else { m.announced() });
}

proof fn lemma_fresh_sets(u: &PeerUpdater)
    ensures
        u.fresh().ops() == 0,
        u.fresh().withdrawn() == Set::<NetPrefix>::empty(),
        u.fresh().announced() == Set::<NetPrefix>::empty(),
        u.shaped(u.fresh()),
{
    assert(u.fresh().withdrawn() =~= Set::<NetPrefix>::empty());
    assert(u.fresh().announced() =~= Set::<NetPrefix>::empty());
}

proof fn lemma_empty_sets(m: MessageView)
    requires
        m.ops() == 0,
    ensures
        m.withdrawn() == Set::<NetPrefix>::empty(),
        m.announced() == Set::<NetPrefix>::empty(),
{
    assert(m.nlri_withdraws =~= Seq::<NetPrefix>::empty());
    assert(m.mp_withdraws =~= Seq::<NetPrefix>::empty());
    assert(m.nlri_updates =~= Seq::<NetPrefix>::empty());
    assert(m.mp_updates =~= Seq::<NetPrefix>::empty());
    assert(m.withdrawn() =~= Set::<NetPrefix>::empty());
    assert(m.announced() =~= Set::<NetPrefix>::empty());
}

impl PeerUpdater {
    /// Adds every prefix of `s`, in order.
    fn add_all_v4(
        &mut self,
        s: &BTreeSet<NetV4>,
        announce: bool,
        out: &mut Vec<UpdateMessage>,
        Ghost(base): Ghost<Seq<(NetPrefix, bool)>>,
    )
        requires
            old(self).pending_ok(),
            old(self).sent_ok(old(out)@),
            old(self).batched(old(out)@, old(self).pending_view(), base),
        ensures
            old(self).batched(final(out)@, final(self).pending_view(), base + old(self).carried_ops(sorted_v4(s@), announce)),
            final(self).pending_ok(),
            final(self).sent_ok(final(out)@),
            final(self).pending is Some || final(self).pending_view() == old(self).pending_view(),
            final(self).mode == old(self).mode,
            final(self).v4_labeled == old(self).v4_labeled,
            final(self).v6_labeled == old(self).v6_labeled,
            final(self).nexthop4 == old(self).nexthop4,
            final(self).nexthop6 == old(self).nexthop6,
            final(self).communities@ == old(self).communities@,
            sent_withdrawn(final(out)@).union(final(self).pending_withdrawn()) == sent_withdrawn(
                old(out)@,
            ).union(old(self).pending_withdrawn()).union(
                if announce { Set::empty() } else { old(self).carried(nets_v4(s@)) },
            ),
            sent_announced(final(out)@).union(final(self).pending_announced()) == sent_announced(
                old(out)@,
            ).union(old(self).pending_announced()).union(
                if announce { old(self).carried(nets_v4(s@)) } else { Set::empty() },
            ),
    {
        let ghost ks = s.iter().remaining().unref();
        let ghost sq = sorted_v4(s@);
        proof {
            lemma_walk_sorted_v4(s.iter().remaining(), s@);
            assert(sq.take(0) =~= Seq::<NetPrefix>::empty());
            assert(base + self.carried_ops(Seq::<NetPrefix>::empty(), announce) =~= base);
        }
        let ghost start = *self;
        let ghost start_out = out@;
        let ghost mut n: int = 0;
        for k in it: s.iter()
            invariant
                it.seq().unref() == ks,
                ks.to_set() == s@,
                n == it.index(),
                self.pending_ok(),
                self.sent_ok(out@),
                self.pending is Some || self.pending_view() == start.pending_view(),
                self.mode == start.mode,
                self.v4_labeled == start.v4_labeled,
                self.v6_labeled == start.v6_labeled,
                self.nexthop4 == start.nexthop4,
                self.nexthop6 == start.nexthop6,
                self.communities@ == start.communities@,
                sq == ks.map_values(|k: NetV4| NetPrefix::V4(k.0, k.1)),
                start.batched(out@, self.pending_view(), base + start.carried_ops(sq.take(n), announce)),
                sent_withdrawn(out@).union(self.pending_withdrawn()) == sent_withdrawn(start_out).union(
                    start.pending_withdrawn(),
                ).union(if announce { Set::empty() } else { start.carried(nets_v4(ks.take(n).to_set())) }),
                sent_announced(out@).union(self.pending_announced()) == sent_announced(start_out).union(
                    start.pending_announced(),
                ).union(if announce { start.carried(nets_v4(ks.take(n).to_set())) } else { Set::empty() }),
        {
            proof {
                n = n + 1;
                assert(ks[n - 1] == *k);
                assert(ks.take(n) =~= ks.take(n - 1).push(*k));
                ks.take(n - 1).lemma_push_to_set_commute(*k);
                lemma_nets_v4_insert(ks.take(n - 1).to_set(), *k);
                assert(start.carried(nets_v4(ks.take(n).to_set())) =~= start.carried(nets_v4(ks.take(n - 1).to_set())).union(
                    start.carried(set![NetPrefix::V4(k.0, k.1)])));
            }
            let ghost before = *self;
            let ghost prev = sq.take(n - 1);
            let ghost cur_ops = base + start.carried_ops(prev, announce);
            proof {
                lemma_same_config_batched(start, before, out@, self.pending_view(), cur_ops);
            }
            self.add_tracked(NetPrefix::V4(k.0, k.1), announce, out, Ghost(cur_ops));
            proof {
                let p = NetPrefix::V4(k.0, k.1);
                lemma_same_config_batched(before, start, out@, self.pending_view(), cur_ops + before.carried_ops(seq![p], announce));
                lemma_same_config_ops(before, start, seq![p], announce);
                assert(sq.take(n) =~= prev.push(p));
                lemma_carried_push(start, prev, p, announce);
                assert(cur_ops + start.carried_ops(seq![p], announce) =~= base + start.carried_ops(prev.push(p), announce));
            }
        }
        assert(ks.take(n) =~= ks);
        assert(sq.take(n) =~= sq);
    }

    /// Adds every prefix of `s`, in order.
    fn add_all_v6(
        &mut self,
        s: &BTreeSet<NetV6>,
        announce: bool,
        out: &mut Vec<UpdateMessage>,
        Ghost(base): Ghost<Seq<(NetPrefix, bool)>>,
    )
        requires
            old(self).pending_ok(),
            old(self).sent_ok(old(out)@),
            old(self).batched(old(out)@, old(self).pending_view(), base),
        ensures
            old(self).batched(final(out)@, final(self).pending_view(), base + old(self).carried_ops(sorted_v6(s@), announce)),
            final(self).pending_ok(),
            final(self).sent_ok(final(out)@),
            final(self).pending is Some || final(self).pending_view() == old(self).pending_view(),
            final(self).mode == old(self).mode,
            final(self).v4_labeled == old(self).v4_labeled,
            final(self).v6_labeled == old(self).v6_labeled,
            final(self).nexthop4 == old(self).nexthop4,
            final(self).nexthop6 == old(self).nexthop6,
            final(self).communities@ == old(self).communities@,
            sent_withdrawn(final(out)@).union(final(self).pending_withdrawn()) == sent_withdrawn(
                old(out)@,
            ).union(old(self).pending_withdrawn()).union(
                if announce { Set::empty() } else { old(self).carried(nets_v6(s@)) },
            ),
            sent_announced(final(out)@).union(final(self).pending_announced()) == sent_announced(
                old(out)@,
            ).union(old(self).pending_announced()).union(
                if announce { old(self).carried(nets_v6(s@)) } else { Set::empty() },
            ),
    {
        let ghost ks = s.iter().remaining().unref();
        let ghost sq = sorted_v6(s@);
        proof {
            lemma_walk_sorted_v6(s.iter().remaining(), s@);
            assert(sq.take(0) =~= Seq::<NetPrefix>::empty());
            assert(base + self.carried_ops(Seq::<NetPrefix>::empty(), announce) =~= base);
        }
        let ghost start = *self;
        let ghost start_out = out@;
        let ghost mut n: int = 0;
        for k in it: s.iter()
            invariant
                it.seq().unref() == ks,
                ks.to_set() == s@,
                n == it.index(),
                self.pending_ok(),
                self.sent_ok(out@),
                self.pending is Some || self.pending_view() == start.pending_view(),
                self.mode == start.mode,
                self.v4_labeled == start.v4_labeled,
                self.v6_labeled == start.v6_labeled,
                self.nexthop4 == start.nexthop4,
                self.nexthop6 == start.nexthop6,
                self.communities@ == start.communities@,
                sq == ks.map_values(|k: NetV6| NetPrefix::V6(k.0, k.1)),
                start.batched(out@, self.pending_view(), base + start.carried_ops(sq.take(n), announce)),
                sent_withdrawn(out@).union(self.pending_withdrawn()) == sent_withdrawn(start_out).union(
                    start.pending_withdrawn(),
                ).union(if announce { Set::empty() } else { start.carried(nets_v6(ks.take(n).to_set())) }),
                sent_announced(out@).union(self.pending_announced()) == sent_announced(start_out).union(
                    start.pending_announced(),
                ).union(if announce { start.carried(nets_v6(ks.take(n).to_set())) } else { Set::empty() }),
        {
            proof {
                n = n + 1;
                assert(ks[n - 1] == *k);
                assert(ks.take(n) =~= ks.take(n - 1).push(*k));
                ks.take(n - 1).lemma_push_to_set_commute(*k);
                lemma_nets_v6_insert(ks.take(n - 1).to_set(), *k);
                assert(start.carried(nets_v6(ks.take(n).to_set())) =~= start.carried(nets_v6(ks.take(n - 1).to_set())).union(
                    start.carried(set![NetPrefix::V6(k.0, k.1)])));
            }
            let ghost before = *self;
            let ghost prev = sq.take(n - 1);
            let ghost cur_ops = base + start.carried_ops(prev, announce);
            proof {
                lemma_same_config_batched(start, before, out@, self.pending_view(), cur_ops);
            }
            self.add_tracked(NetPrefix::V6(k.0, k.1), announce, out, Ghost(cur_ops));
            proof {
                let p = NetPrefix::V6(k.0, k.1);
                lemma_same_config_batched(before, start, out@, self.pending_view(), cur_ops + before.carried_ops(seq![p], announce));
                lemma_same_config_ops(before, start, seq![p], announce);
                assert(sq.take(n) =~= prev.push(p));
                lemma_carried_push(start, prev, p, announce);
                assert(cur_ops + start.carried_ops(seq![p], announce) =~= base + start.carried_ops(prev.push(p), announce));
            }
        }
        assert(ks.take(n) =~= ks);
        assert(sq.take(n) =~= sq);
    }

    /// Sends a change of the route table: the IPv4 withdrawals, the IPv6
    /// withdrawals, the IPv4 announcements and the IPv6 announcements, each
    /// in prefix order, then whatever the last message holds. Returns the
    /// messages to send, in order: the batches of 101 operations of the
    /// change (`change_ops`), the last one with the rest.
    #[verifier::spinoff_prover]
    pub fn send_update(&mut self, upd: &BgpRibUpdate) -> (out: Vec<UpdateMessage>)
        requires
            old(self).pending_ok(),
            old(self).pending_view() matches Some((_, c)) ==> c == 0,
        ensures
            final(self).pending_ok(),
            final(self).pending_view() matches Some((_, c)) && c == 0,
            final(self).mode == old(self).mode,
            final(self).v4_labeled == old(self).v4_labeled,
            final(self).v6_labeled == old(self).v6_labeled,
            final(self).nexthop4 == old(self).nexthop4,
            final(self).nexthop6 == old(self).nexthop6,
            final(self).communities@ == old(self).communities@,
            old(self).sent_ok(out@),
            sent_withdrawn(out@) == old(self).carried(nets_v4(upd.withdraws4@).union(nets_v6(upd.withdraws6@))),
            sent_announced(out@) == old(self).carried(nets_v4(upd.updates4@).union(nets_v6(upd.updates6@))),
            out@.len() == batch_count(
                old(self).change_ops(upd.withdraws4@, upd.withdraws6@, upd.updates4@, upd.updates6@).len(),
            ),
            forall|i: int|
                0 <= i < out@.len() ==> (#[trigger] out@[i])@ == old(self).batch(
                    old(self).change_ops(upd.withdraws4@, upd.withdraws6@, upd.updates4@, upd.updates6@),
                    i,
                ),
    {
        let mut out: Vec<UpdateMessage> = Vec::new();
        let ghost start = *self;
        proof {
            if let Some((m, c)) = self.pending_view() {
                lemma_empty_sets(m);
                lemma_empty_is_fresh(*self, m);
            }
            assert(self.pending_withdrawn() =~= Set::<NetPrefix>::empty());
            assert(self.pending_announced() =~= Set::<NetPrefix>::empty());
            assert(start.batched(out@, self.pending_view(), Seq::empty()));
        }
        let ghost a = start.carried_ops(sorted_v4(upd.withdraws4@), false);
        let ghost b = start.carried_ops(sorted_v6(upd.withdraws6@), false);
        let ghost c = start.carried_ops(sorted_v4(upd.updates4@), true);
        let ghost d = start.carried_ops(sorted_v6(upd.updates6@), true);
        self.add_all_v4(&upd.withdraws4, false, &mut out, Ghost(Seq::empty()));
        proof {
            assert(Seq::<(NetPrefix, bool)>::empty() + a =~= a);
            lemma_same_config_batched(start, *self, out@, self.pending_view(), a);
        }
        let ghost s1 = *self;
        self.add_all_v6(&upd.withdraws6, false, &mut out, Ghost(a));
        proof {
            lemma_same_config_ops(s1, start, sorted_v6(upd.withdraws6@), false);
            lemma_same_config_batched(s1, *self, out@, self.pending_view(), a + b);
        }
        let ghost s2 = *self;
        self.add_all_v4(&upd.updates4, true, &mut out, Ghost(a + b));
        proof {
            lemma_same_config_ops(s2, start, sorted_v4(upd.updates4@), true);
            lemma_same_config_batched(s2, *self, out@, self.pending_view(), a + b + c);
        }
        let ghost s3 = *self;
        self.add_all_v6(&upd.updates6, true, &mut out, Ghost(a + b + c));
        proof {
            lemma_same_config_ops(s3, start, sorted_v6(upd.updates6@), true);
            lemma_same_config_batched(s3, start, out@, self.pending_view(), a + b + c + d);
        }
        let ghost before = out@;
        let ghost before_self = *self;
        if let Some(m) = self.msgflush(0) {
            out.push(m);
        }
        proof {
            if let Some((m, c)) = before_self.pending_view() {
                if c > 0 {
                    assert(out@.drop_last() =~= before);
                }
            }
            lemma_batched_flush(start, before, before_self.pending_view(), a + b + c + d, out@);
        }
        proof {
            lemma_fresh_sets(&before_self);
            match before_self.pending_view() {
                Some((m, c)) => {
                    if c > 0 {
                        assert(out@.drop_last() == before);
                        assert forall|i: int| 0 <= i < out@.len() implies start.shaped(#[trigger] out@[i]@)
                            && 1 <= out@[i]@.ops() <= batch_limit() by {
                            if i < before.len() {
                                assert(out@[i] == before[i]);
                            }
                        }
                    } else {
                        lemma_empty_sets(m);
                    }
                },
                None => {},
            }
            assert(self.fresh() == start.fresh());
            assert(self.pending_withdrawn() =~= Set::<NetPrefix>::empty()) by {
                if let Some((m, c)) = self.pending_view() {
                    lemma_empty_sets(m);
                }
            }
            assert(self.pending_announced() =~= Set::<NetPrefix>::empty()) by {
                if let Some((m, c)) = self.pending_view() {
                    lemma_empty_sets(m);
                }
            }
            assert(sent_withdrawn(out@) =~= sent_withdrawn(out@).union(self.pending_withdrawn()));
            assert(sent_announced(out@) =~= sent_announced(out@).union(self.pending_announced()));
            assert(start.carried(nets_v4(upd.withdraws4@).union(nets_v6(upd.withdraws6@))) =~= start.carried(
                nets_v4(upd.withdraws4@)).union(start.carried(nets_v6(upd.withdraws6@))));
            assert(start.carried(nets_v4(upd.updates4@).union(nets_v6(upd.updates6@))) =~= start.carried(
                nets_v4(upd.updates4@)).union(start.carried(nets_v6(upd.updates6@))));
            assert(sent_withdrawn(Seq::<UpdateMessage>::empty()) =~= Set::<NetPrefix>::empty());
            assert(sent_announced(Seq::<UpdateMessage>::empty()) =~= Set::<NetPrefix>::empty());
        }
        out
    }

    /// Adds one prefix, keeping track of what has been sent and is pending.
    fn add_tracked(
        &mut self,
        n: NetPrefix,
        announce: bool,
        out: &mut Vec<UpdateMessage>,
        Ghost(ops): Ghost<Seq<(NetPrefix, bool)>>,
    )
        requires
            old(self).pending_ok(),
            old(self).sent_ok(old(out)@),
            old(self).batched(old(out)@, old(self).pending_view(), ops),
        ensures
            old(self).batched(final(out)@, final(self).pending_view(), ops + old(self).carried_ops(seq![n], announce)),
            final(self).pending_ok(),
            final(self).sent_ok(final(out)@),
            final(self).pending is Some || final(self).pending_view() == old(self).pending_view(),
            final(self).mode == old(self).mode,
            final(self).v4_labeled == old(self).v4_labeled,
            final(self).v6_labeled == old(self).v6_labeled,
            final(self).nexthop4 == old(self).nexthop4,
            final(self).nexthop6 == old(self).nexthop6,
            final(self).communities@ == old(self).communities@,
            sent_withdrawn(final(out)@).union(final(self).pending_withdrawn()) == sent_withdrawn(
                old(out)@,
            ).union(old(self).pending_withdrawn()).union(
                if announce { Set::empty() } else { old(self).carried(set![n]) },
            ),
            sent_announced(final(out)@).union(final(self).pending_announced()) == sent_announced(
                old(out)@,
            ).union(old(self).pending_announced()).union(
                if announce { old(self).carried(set![n]) } else { Set::empty() },
            ),
    {
        let ghost old_out = out@;
        let ghost old_self = *self;
        self.add(n, announce, out);
        proof {
            lemma_carried_single(old_self, n, announce);
            match placement(old_self.mode, old_self.v4_labeled, old_self.v6_labeled, n) {
                None => {
                    assert(old_self.carried_ops(seq![n], announce) =~= Seq::<(NetPrefix, bool)>::empty());
                    assert(ops + old_self.carried_ops(seq![n], announce) =~= ops);
                },
                Some(nlri) => {
                    assert(old_self.carried_ops(seq![n], announce) =~= seq![(n, announce)]);
                    assert(ops + old_self.carried_ops(seq![n], announce) =~= ops.push((n, announce)));
                    lemma_batched_push(old_self, old_out, old_self.pending_view(), ops, nlri, n, announce, out@, self.pending_view());
                },
            }
        }
        proof {
            let carried = old_self.carried(set![n]);
            match placement(old_self.mode, old_self.v4_labeled, old_self.v6_labeled, n) {
                None => {
                    assert(carried =~= Set::<NetPrefix>::empty());
                    assert(sent_withdrawn(out@).union(self.pending_withdrawn()) =~= sent_withdrawn(
                        old_out,
                    ).union(old_self.pending_withdrawn()).union(
                        if announce { Set::empty() } else { carried },
                    ));
                    assert(sent_announced(out@).union(self.pending_announced()) =~= sent_announced(
                        old_out,
                    ).union(old_self.pending_announced()).union(
                        if announce { carried } else { Set::empty() },
                    ));
                },
                Some(nlri) => {
                    assert(carried =~= set![n]);
                    lemma_fresh_sets(&old_self);
                    assert(self.fresh() == old_self.fresh());
                    match old_self.pending_view() {
                        Some((m, c)) => {
                            lemma_with_sets(m, nlri, announce, n);
                            if c > 100 {
                                lemma_with_sets(old_self.fresh(), nlri, announce, n);
                                assert(out@.drop_last() == old_out);
                                assert(out@.last()@ == m);
                                assert forall|i: int| 0 <= i < out@.len() implies self.shaped(#[trigger] out@[i]@)
                                    && 1 <= out@[i]@.ops() <= batch_limit() by {
                                    if i < old_out.len() {
                                        assert(out@[i] == old_out[i]);
                                    }
                                }
                            } else {
                                assert(out@ == old_out);
                            }
                        },
                        None => {
                            lemma_with_sets(old_self.fresh(), nlri, announce, n);
                            assert(out@ == old_out);
                        },
                    }
                    assert(sent_withdrawn(out@).union(self.pending_withdrawn()) =~= sent_withdrawn(
                        old_out,
                    ).union(old_self.pending_withdrawn()).union(
                        if announce { Set::empty() } else { carried },
                    ));
                    assert(sent_announced(out@).union(self.pending_announced()) =~= sent_announced(
                        old_out,
                    ).union(old_self.pending_announced()).union(
                        if announce { carried } else { Set::empty() },
                    ));
                },
            }
        }
    }
}

/// The capabilities this speaker offers or a peer announces; those this
/// speaker does not use are `Other`.
#[derive(Clone, Copy, Debug, PartialEq, Eq, Structural)]
pub enum Capability {
    SafiIPv4u,
    SafiIPv4fu,
    SafiIPv4lu,
    SafiIPv6u,
    SafiIPv6fu,
    SafiIPv6lu,
    CapASN32(u32),
    Other,
}

/// The parameters a session is opened with.
pub struct SessionParams {
    pub as_num: u32,
    pub hold_time: u16,
    pub mode: TransportMode,
    pub router_id: u32,
    pub caps: Vec<Capability>,
    /// Whether AS numbers travel in 32 bits.
    pub has_as32bit: bool,
}

/// The capabilities offered to a peer that connects to us.
pub open spec fn passive_caps(mode: TransportMode) -> Seq<Capability> {
    match mode {
        TransportMode::IPv4 => seq![
            Capability::SafiIPv4u,
            Capability::SafiIPv4fu,
            Capability::SafiIPv6fu,
            Capability::SafiIPv6lu,
        ],
        TransportMode::IPv6 => seq![
            Capability::SafiIPv6u,
            Capability::SafiIPv4fu,
            Capability::SafiIPv6fu,
            Capability::SafiIPv4lu,
        ],
    }
}

/// The capabilities offered to a peer we connect to, with AS `asn`.
pub open spec fn active_caps(mode: TransportMode, asn: u32) -> Seq<Capability> {
    match mode {
        TransportMode::IPv4 => seq![
            Capability::SafiIPv4u,
            Capability::SafiIPv4fu,
            Capability::SafiIPv6fu,
            Capability::SafiIPv6lu,
            Capability::CapASN32(asn),
        ],
        TransportMode::IPv6 => seq![
            Capability::SafiIPv4fu,
            Capability::SafiIPv6fu,
            Capability::SafiIPv6u,
            Capability::SafiIPv4lu,
            Capability::CapASN32(asn),
        ],
    }
}

/// The hold time this speaker proposes, in seconds.
pub open spec fn proposed_hold_time() -> u16 {
    180
}

/// The parameters of a session that a peer opens to us: AS 0 (the peer's
/// is learnt from its OPEN), the proposed hold time, our router id.
pub fn passive_params(mode: TransportMode, router_id: u32) -> (r: SessionParams)
    ensures
        r.as_num == 0,
        r.hold_time == proposed_hold_time(),
        r.mode == mode,
        r.router_id == router_id,
        r.caps@ == passive_caps(mode),
        r.has_as32bit,
{
    let caps = match mode {
        TransportMode::IPv4 => vec![
            Capability::SafiIPv4u,
            Capability::SafiIPv4fu,
            Capability::SafiIPv6fu,
            Capability::SafiIPv6lu,
        ],
        TransportMode::IPv6 => vec![
            Capability::SafiIPv6u,
            Capability::SafiIPv4fu,
            Capability::SafiIPv6fu,
            Capability::SafiIPv4lu,
        ],
    };
    assert(caps@ =~= passive_caps(mode));
    SessionParams { as_num: 0, hold_time: 180, mode, router_id, caps, has_as32bit: true }
}

/// The parameters of a session we open to a peer of AS `asn`.
pub fn active_params(mode: TransportMode, router_id: u32, asn: u32) -> (r: SessionParams)
    ensures
        r.as_num == asn,
        r.hold_time == proposed_hold_time(),
        r.mode == mode,
        r.router_id == router_id,
        r.caps@ == active_caps(mode, asn),
        r.has_as32bit,
{
    let caps = match mode {
        TransportMode::IPv4 => vec![
            Capability::SafiIPv4u,
            Capability::SafiIPv4fu,
            Capability::SafiIPv6fu,
            Capability::SafiIPv6lu,
            Capability::CapASN32(asn),
        ],
        TransportMode::IPv6 => vec![
            Capability::SafiIPv4fu,
            Capability::SafiIPv6fu,
            Capability::SafiIPv6u,
            Capability::SafiIPv4lu,
            Capability::CapASN32(asn),
        ],
    };
    assert(caps@ =~= active_caps(mode, asn));
    SessionParams { as_num: asn, hold_time: 180, mode, router_id, caps, has_as32bit: true }
}

/// Whether `caps` holds `c`.
pub fn has_capability(caps: &Vec<Capability>, c: Capability) -> (r: bool)
    ensures
        r == caps@.contains(c),
{
    let mut i: usize = 0;
    while i < caps.len()
        invariant
            i <= caps@.len(),
            forall|j: int| 0 <= j < i ==> caps@[j] != c,
        decreases caps@.len() - i,
    {
        if caps[i] == c {
            return true;
        }
        i = i + 1;
    }
    false
}

/// The builder of a session's messages, once the peer's capabilities are
/// known: labeled IPv4 and IPv6 prefixes go to the peer only when it
/// announced the matching labeled-unicast capability.
pub fn updater_for(params: &SessionParams, nexthop4: u32, nexthop6: u128, communities: Vec<u32>) -> (r: PeerUpdater)
    ensures
        r.mode == params.mode,
        r.v4_labeled == params.caps@.contains(Capability::SafiIPv4lu),
        r.v6_labeled == params.caps@.contains(Capability::SafiIPv6lu),
        r.nexthop4 == nexthop4,
        r.nexthop6 == nexthop6,
        r.communities@ == communities@,
        r.pending is None,
        r.wf(),
{
    let v4 = has_capability(&params.caps, Capability::SafiIPv4lu);
    let v6 = has_capability(&params.caps, Capability::SafiIPv6lu);
    PeerUpdater::new(params.mode, v4, v6, nexthop4, nexthop6, communities)
}

/// The kinds of BGP message.
#[derive(Clone, Copy, Debug, PartialEq, Eq, Structural)]
pub enum MessageKind {
    Open,
    Update,
    Notification,
    Keepalive,
    RouteRefresh,
}

/// The message kind of a type code, as `BgpMessageType::decode_from` reads it.
pub open spec fn kind_of_code(code: u8) -> Option<MessageKind> {
    if code == 1 {
        Some(MessageKind::Open)
    } else if code == 2 {
        Some(MessageKind::Update)
    } else if code == 3 {
        Some(MessageKind::Notification)
    } else if code == 4 {
        Some(MessageKind::Keepalive)
    } else if code == 5 {
        Some(MessageKind::RouteRefresh)
    } else {
        None
    }
}

/// Whether a 19-byte message header has the all-ones marker and a known type.
pub open spec fn head_well_formed(buf: Seq<u8>) -> bool {
    &&& buf.len() >= 19
    &&& forall|i: int| 0 <= i < 16 ==> buf[i] == 255
    &&& kind_of_code(buf[18]) is Some
}

/// The length field of a message header.
pub open spec fn head_length(buf: Seq<u8>) -> int {
    buf[16] as int * 256 + buf[17] as int
}

/// What `BgpSessionParams::decode_message_head` reads from a header: the
/// message kind and the length of the body, when the header is well formed.
pub open spec fn spec_decode_head(buf: Seq<u8>) -> Option<(MessageKind, int)> {
    if head_well_formed(buf) {
        Some((kind_of_code(buf[18]).unwrap(), head_length(buf) - 19))
    } else {
        None
    }
}

/// Whether `buf` is a well-formed header whose length field is below 19,
/// the length of the header itself: reading it, the crate's subtraction
/// underflows.
pub fn head_length_underflows(buf: &[u8]) -> (r: bool)
    ensures
        r == (head_well_formed(buf@) && head_length(buf@) < 19),
{
    if buf.len() < 19 {
        return false;
    }
    let mut i: usize = 0;
    while i < 16
        invariant
            buf@.len() >= 19,
            i <= 16,
            forall|j: int| 0 <= j < i ==> buf@[j] == 255,
        decreases 16 - i,
    {
        if buf[i] != 255 {
            return false;
        }
        i = i + 1;
    }
    if buf[18] < 1 || buf[18] > 5 {
        return false;
    }
    (buf[16] as usize) * 256 + (buf[17] as usize) < 19
}

/// Reads a message header: the kind of the message and the length of its
/// body. A well-formed header whose length field is below 19 (the length of
/// the header itself) is left out: the crate's subtraction underflows there.
pub fn decode_message_head(buf: &[u8]) -> (r: Option<(MessageKind, usize)>)
    requires
        head_well_formed(buf@) ==> head_length(buf@) >= 19,
    ensures
        match spec_decode_head(buf@) {
            Some((k, n)) => r matches Some((rk, rn)) && rk == k && rn == n,
            None => r is None,
        },
{
    if buf.len() < 19 {
        return None;
    }
    let mut i: usize = 0;
    while i < 16
        invariant
            buf@.len() >= 19,
            i <= 16,
            forall|j: int| 0 <= j < i ==> buf@[j] == 255,
        decreases 16 - i,
    {
        if buf[i] != 255 {
            return None;
        }
        i = i + 1;
    }
    let kind = match buf[18] {
        1 => MessageKind::Open,
        2 => MessageKind::Update,
        3 => MessageKind::Notification,
        4 => MessageKind::Keepalive,
        5 => MessageKind::RouteRefresh,
        _ => return None,
    };
    let len: usize = buf[16] as usize * 256 + buf[17] as usize;
    Some((kind, len - 19))
}

/// What the session does with a message it received.
#[derive(Clone, Copy, Debug, PartialEq, Eq, Structural)]
pub enum MessageAction {
    /// An OPEN in an established session is an error: the session ends.
    Close,
    /// A KEEPALIVE is answered with one.
    SendKeepalive,
    /// A NOTIFICATION is reported, and the session ends.
    ReportAndClose,
    /// An UPDATE (or ROUTE-REFRESH) is decoded and otherwise ignored.
    Ignore,
}

/// What the session does with a message of kind `k`.
pub open spec fn spec_on_message(k: MessageKind) -> MessageAction {
    match k {
        MessageKind::Open => MessageAction::Close,
        MessageKind::Keepalive => MessageAction::SendKeepalive,
        MessageKind::Notification => MessageAction::ReportAndClose,
        MessageKind::Update => MessageAction::Ignore,
        MessageKind::RouteRefresh => MessageAction::Ignore,
    }
}

/// What the session does with a message of kind `k`.
pub fn on_message(k: MessageKind) -> (r: MessageAction)
    ensures
        r == spec_on_message(k),
{
    match k {
        MessageKind::Open => MessageAction::Close,
        MessageKind::Keepalive => MessageAction::SendKeepalive,
        MessageKind::Notification => MessageAction::ReportAndClose,
        MessageKind::Update => MessageAction::Ignore,
        MessageKind::RouteRefresh => MessageAction::Ignore,
    }
}

/// What ended the wait of a round of the session loop.
#[derive(Clone, Copy, Debug, PartialEq, Eq, Structural)]
pub enum WaitEvent {
    /// The session was cancelled.
    Cancelled,
    /// The time until the next keepalive ran out.
    TimedOut,
    /// An update came from the queue: the length of its encoded body, or
    /// `None` when it could not be encoded.
    Queued(Option<usize>),
    /// The queue of updates is closed.
    QueueClosed,
    /// No message header could be read.
    HeaderFailed,
    /// A message header came in: the message's kind and body length.
    Header(MessageKind, usize),
}

/// How reading a message body ended.
#[derive(Clone, Copy, Debug, PartialEq, Eq, Structural)]
pub enum BodyEvent {
    Cancelled,
    /// The time until the next keepalive ran out first.
    TimedOut,
    Failed,
    Read,
}

/// What a round of the session loop does after its wait.
#[derive(Clone, Copy, Debug, PartialEq, Eq, Structural)]
pub enum RoundPlan {
    /// The session ends.
    Stop,
    /// The round ends and the next one starts.
    Next,
    /// Send the update of `update_len` bytes (when not 0), read a body of
    /// `body_len` bytes (when not 0), then act on a message of kind `kind`;
    /// a wait that ends without a message counts as a keepalive.
    Go { update_len: usize, kind: MessageKind, body_len: usize },
}

/// The plan of a round whose wait ended with `e`.
pub open spec fn spec_plan(e: WaitEvent) -> RoundPlan {
    match e {
        WaitEvent::Cancelled | WaitEvent::HeaderFailed => RoundPlan::Stop,
        WaitEvent::TimedOut | WaitEvent::QueueClosed => RoundPlan::Go {
            update_len: 0,
            kind: MessageKind::Keepalive,
            body_len: 0,
        },
        WaitEvent::Queued(None) => RoundPlan::Next,
        WaitEvent::Queued(Some(n)) => RoundPlan::Go { update_len: n, kind: MessageKind::Keepalive, body_len: 0 },
        WaitEvent::Header(k, n) => RoundPlan::Go { update_len: 0, kind: k, body_len: n },
    }
}

/// The plan of a round whose wait ended with `e`.
pub fn plan_round(e: WaitEvent) -> (r: RoundPlan)
    ensures
        r == spec_plan(e),
{
    match e {
        WaitEvent::Cancelled | WaitEvent::HeaderFailed => RoundPlan::Stop,
        WaitEvent::TimedOut | WaitEvent::QueueClosed => RoundPlan::Go {
            update_len: 0,
            kind: MessageKind::Keepalive,
            body_len: 0,
        },
        WaitEvent::Queued(None) => RoundPlan::Next,
        WaitEvent::Queued(Some(n)) => RoundPlan::Go { update_len: n, kind: MessageKind::Keepalive, body_len: 0 },
        WaitEvent::Header(k, n) => RoundPlan::Go { update_len: 0, kind: k, body_len: n },
    }
}

/// Whether the session goes on after reading a body ended with `b`.
pub fn body_continues(b: BodyEvent) -> (r: bool)
    ensures
        r == (b == BodyEvent::Read),
{
    b == BodyEvent::Read
}

/// Whether acting on a message ends the session.
pub open spec fn spec_closes(a: MessageAction) -> bool {
    a == MessageAction::Close || a == MessageAction::ReportAndClose
}

/// Whether acting on a message ends the session.
pub fn closes(a: MessageAction) -> (r: bool)
    ensures
        r == spec_closes(a),
{
    a == MessageAction::Close || a == MessageAction::ReportAndClose
}

/// Whether a round ends the session, its wait having ended with `e` and
/// the reading of its body (when it has one) with `b`.
pub open spec fn round_ends(e: WaitEvent, b: BodyEvent) -> bool {
    match spec_plan(e) {
        RoundPlan::Stop => true,
        RoundPlan::Next => false,
        RoundPlan::Go { kind, body_len, .. } => (body_len > 0 && b != BodyEvent::Read)
            || spec_closes(spec_on_message(kind)),
    }
}

/// Whether a round answers with a keepalive (besides the one sent when it
/// is due at the round's start).
pub open spec fn round_sends_keepalive(e: WaitEvent, b: BodyEvent) -> bool {
    match spec_plan(e) {
        RoundPlan::Go { kind, body_len, .. } => (body_len == 0 || b == BodyEvent::Read)
            && spec_on_message(kind) == MessageAction::SendKeepalive,
        _ => false,
    }
}

/// Law: a round ends the session exactly when it was cancelled, no header
/// could be read, the body of a message was not read, or the message was an
/// OPEN or a NOTIFICATION; no other event ends it.
pub proof fn law_round_ends(e: WaitEvent, b: BodyEvent)
    ensures
        round_ends(e, b) <==> (e is Cancelled || e is HeaderFailed || (e matches WaitEvent::Header(k, n)
            && ((n > 0 && b != BodyEvent::Read) || k == MessageKind::Open || k == MessageKind::Notification))),
{
}

/// Law: a round answers with a keepalive exactly when its wait ran out, the
/// queue was closed, an update was sent, or a KEEPALIVE came in (its body,
/// if any, read).
pub proof fn law_keepalive_answers(e: WaitEvent, b: BodyEvent)
    ensures
        round_sends_keepalive(e, b) <==> (e is TimedOut || e is QueueClosed || e matches WaitEvent::Queued(Some(_))
            || (e matches WaitEvent::Header(k, n) && k == MessageKind::Keepalive && (n == 0 || b == BodyEvent::Read))),
{
}

/// Law: an update that encodes is sent in its own round, one that does not
/// is skipped, and no other round sends one.
pub proof fn law_updates_sent(e: WaitEvent)
    ensures
        (spec_plan(e) matches RoundPlan::Go { update_len, .. } && update_len > 0) <==> (e matches WaitEvent::Queued(
            Some(n),
        ) && n > 0),
        e == WaitEvent::Queued(None) ==> spec_plan(e) == RoundPlan::Next,
{
}

/// The keepalive timer of a session: a keepalive is due a third of the
/// hold time after the last one was sent. Instants are milliseconds since
/// the Unix epoch.
pub struct KeepaliveClock {
    pub interval_ms: i64,
    pub last_sent_ms: i64,
}

impl KeepaliveClock {
    /// The timer of a session with hold time `hold_time` (seconds), the last
    /// keepalive counted as sent at `now`.
    pub fn new(hold_time: u16, now: i64) -> (r: KeepaliveClock)
        ensures
            r.interval_ms == (hold_time / 3) as int * 1000,
            r.last_sent_ms == now,
    {
        KeepaliveClock { interval_ms: (hold_time / 3) as i64 * 1000, last_sent_ms: now }
    }

    /// Whether a keepalive is due at `now`.
    pub fn due(&self, now: i64) -> (r: bool)
        ensures
            r == (now - self.last_sent_ms >= self.interval_ms),
    {
        (now as i128) - (self.last_sent_ms as i128) >= self.interval_ms as i128
    }

    /// Records a keepalive sent at `now`.
    pub fn sent(&mut self, now: i64)
        ensures
            final(self).last_sent_ms == now,
            final(self).interval_ms == old(self).interval_ms,
    {
        self.last_sent_ms = now;
    }

    /// Whether the time left at `now` until the next keepalive fits a
    /// `chrono` duration (`i64::MAX` milliseconds).
    pub fn wait_fits(&self, now: i64) -> (r: bool)
        ensures
            r == (self.interval_ms - (now - self.last_sent_ms) <= i64::MAX),
    {
        (self.interval_ms as i128) - ((now as i128) - (self.last_sent_ms as i128)) <= i64::MAX as i128
    }

    /// How long to wait at `now` for the next keepalive: the time left until
    /// it is due, one second when it is overdue. A time left beyond what a
    /// `chrono` duration holds (`i64::MAX` milliseconds) is left out.
    pub fn wait_ms(&self, now: i64) -> (r: u64)
        requires
            self.interval_ms - (now - self.last_sent_ms) <= i64::MAX,
        ensures
            r == if self.interval_ms - (now - self.last_sent_ms) < 0 {
                1000
            } else {
                self.interval_ms - (now - self.last_sent_ms)
            },
    {
        let left: i128 = (self.interval_ms as i128) - ((now as i128) - (self.last_sent_ms as i128));
        if left < 0 {
            1000
        } else {
            left as u64
        }
    }
}

/// The family of a session over a socket address.
pub fn mode_of(addr: &crate::net::SocketAddress) -> (r: TransportMode)
    ensures
        r == match addr.ip {
            IpAddress::V4(_) => TransportMode::IPv4,
            IpAddress::V6(_) => TransportMode::IPv6,
        },
{
    match addr.ip {
        IpAddress::V4(_) => TransportMode::IPv4,
        IpAddress::V6(_) => TransportMode::IPv6,
    }
}

} // verus!

verus! {

/// A path attribute of an UPDATE message as this speaker writes it.
pub enum PathAttr {
    OriginIncomplete,
    EmptyAsPath,
    LocalPref(u32),
    Communities(Vec<u32>),
    NextHop(IpAddress),
    /// Withdrawn labeled IPv4 prefixes, with their label.
    MpWithdraws4(Vec<NetV4>, u32),
    /// Withdrawn labeled IPv6 prefixes, with their label.
    MpWithdraws6(Vec<NetV6>, u32),
    /// Announced labeled IPv4 prefixes: next hop, prefixes, label.
    MpUpdates4(IpAddress, Vec<NetV4>, u32),
    /// Announced labeled IPv6 prefixes: next hop, prefixes, label.
    MpUpdates6(IpAddress, Vec<NetV6>, u32),
}

/// A path attribute, its lists as sequences.
pub enum AttrView {
    OriginIncomplete,
    EmptyAsPath,
    LocalPref(u32),
    Communities(Seq<u32>),
    NextHop(IpAddress),
    MpWithdraws4(Seq<NetV4>, u32),
    MpWithdraws6(Seq<NetV6>, u32),
    MpUpdates4(IpAddress, Seq<NetV4>, u32),
    MpUpdates6(IpAddress, Seq<NetV6>, u32),
}

impl View for PathAttr {
    type V = AttrView;

    open spec fn view(&self) -> AttrView {
        match self {
            PathAttr::OriginIncomplete => AttrView::OriginIncomplete,
            PathAttr::EmptyAsPath => AttrView::EmptyAsPath,
            PathAttr::LocalPref(p) => AttrView::LocalPref(*p),
            PathAttr::Communities(c) => AttrView::Communities(c@),
            PathAttr::NextHop(a) => AttrView::NextHop(*a),
            PathAttr::MpWithdraws4(v, l) => AttrView::MpWithdraws4(v@, *l),
            PathAttr::MpWithdraws6(v, l) => AttrView::MpWithdraws6(v@, *l),
            PathAttr::MpUpdates4(h, v, l) => AttrView::MpUpdates4(*h, v@, *l),
            PathAttr::MpUpdates6(h, v, l) => AttrView::MpUpdates6(*h, v@, *l),
        }
    }
}

/// The views of a list of path attributes.
pub open spec fn attr_views(s: Seq<PathAttr>) -> Seq<AttrView> {
    s.map_values(|a: PathAttr| a@)
}

/// The NLRI field of an UPDATE message: empty, or prefixes of one family.
pub enum Nlri {
    Empty,
    V4(Vec<NetV4>),
    V6(Vec<NetV6>),
}

/// The NLRI field, its list as a sequence.
pub enum NlriView {
    Empty,
    V4(Seq<NetV4>),
    V6(Seq<NetV6>),
}

impl View for Nlri {
    type V = NlriView;

    open spec fn view(&self) -> NlriView {
        match self {
            Nlri::Empty => NlriView::Empty,
            Nlri::V4(v) => NlriView::V4(v@),
            Nlri::V6(v) => NlriView::V6(v@),
        }
    }
}

/// The IPv4 prefixes among `s`, in order.
pub open spec fn v4_of(s: Seq<NetPrefix>) -> Seq<NetV4>
    decreases s.len(),
{
    if s.len() == 0 {
        Seq::empty()
    } else {
        match s.last() {
            NetPrefix::V4(a, l) => v4_of(s.drop_last()).push((a, l)),
            _ => v4_of(s.drop_last()),
        }
    }
}

/// The IPv6 prefixes among `s`, in order.
pub open spec fn v6_of(s: Seq<NetPrefix>) -> Seq<NetV6>
    decreases s.len(),
{
    if s.len() == 0 {
        Seq::empty()
    } else {
        match s.last() {
            NetPrefix::V6(a, l) => v6_of(s.drop_last()).push((a, l)),
            _ => v6_of(s.drop_last()),
        }
    }
}

/// The NLRI field that carries `s` in a session over `mode`: empty when
/// `s` is, else the prefixes of the session's family.
pub open spec fn nlri_of(s: Seq<NetPrefix>, mode: TransportMode) -> NlriView {
    if s.len() == 0 {
        NlriView::Empty
    } else {
        match mode {
            TransportMode::IPv4 => NlriView::V4(v4_of(s)),
            TransportMode::IPv6 => NlriView::V6(v6_of(s)),
        }
    }
}

/// The path attributes of message `m` in a session over `mode`, in order:
/// origin incomplete, an empty AS path, the local preference, the
/// communities when there are any, the next hop, the labeled withdrawals
/// when there are any, the labeled announcements when there are any (the
/// labeled prefixes being those of the other family).
pub open spec fn attrs_of(m: MessageView, mode: TransportMode) -> Seq<AttrView> {
    let head = seq![AttrView::OriginIncomplete, AttrView::EmptyAsPath, AttrView::LocalPref(m.local_pref)];
    let comm = if m.communities.len() > 0 { seq![AttrView::Communities(m.communities)] } else { Seq::empty() };
    let wd = if m.mp_withdraws.len() == 0 {
        Seq::empty()
    } else {
        match mode {
            TransportMode::IPv4 => seq![AttrView::MpWithdraws6(v6_of(m.mp_withdraws), m.mp_label)],
            TransportMode::IPv6 => seq![AttrView::MpWithdraws4(v4_of(m.mp_withdraws), m.mp_label)],
        }
    };
    let up = if m.mp_updates.len() == 0 {
        Seq::empty()
    } else {
        match mode {
            TransportMode::IPv4 => seq![AttrView::MpUpdates6(m.mp_next_hop, v6_of(m.mp_updates), m.mp_label)],
            TransportMode::IPv6 => seq![AttrView::MpUpdates4(m.mp_next_hop, v4_of(m.mp_updates), m.mp_label)],
        }
    };
    head + comm + seq![AttrView::NextHop(m.next_hop)] + wd + up
}

/// The IPv4 prefixes among `s`, in order.
pub fn prefixes_v4(s: &Vec<NetPrefix>) -> (r: Vec<NetV4>)
    ensures
        r@ == v4_of(s@),
{
    let mut r: Vec<NetV4> = Vec::new();
    let mut i: usize = 0;
    while i < s.len()
        invariant
            i <= s@.len(),
            r@ == v4_of(s@.take(i as int)),
        decreases s@.len() - i,
    {
        assert(s@.take(i + 1).drop_last() =~= s@.take(i as int));
        if let NetPrefix::V4(a, l) = s[i] {
            r.push((a, l));
        }
        i = i + 1;
    }
    assert(s@.take(i as int) =~= s@);
    r
}

/// The IPv6 prefixes among `s`, in order.
pub fn prefixes_v6(s: &Vec<NetPrefix>) -> (r: Vec<NetV6>)
    ensures
        r@ == v6_of(s@),
{
    let mut r: Vec<NetV6> = Vec::new();
    let mut i: usize = 0;
    while i < s.len()
        invariant
            i <= s@.len(),
            r@ == v6_of(s@.take(i as int)),
        decreases s@.len() - i,
    {
        assert(s@.take(i + 1).drop_last() =~= s@.take(i as int));
        if let NetPrefix::V6(a, l) = s[i] {
            r.push((a, l));
        }
        i = i + 1;
    }
    assert(s@.take(i as int) =~= s@);
    r
}

/// The NLRI field that carries `s` in a session over `mode`.
pub fn nlri_field(s: &Vec<NetPrefix>, mode: TransportMode) -> (r: Nlri)
    ensures
        r@ == nlri_of(s@, mode),
{
    if s.len() == 0 {
        Nlri::Empty
    } else {
        match mode {
            TransportMode::IPv4 => Nlri::V4(prefixes_v4(s)),
            TransportMode::IPv6 => Nlri::V6(prefixes_v6(s)),
        }
    }
}

fn copy_u32s(v: &Vec<u32>) -> (r: Vec<u32>)
    ensures
        r@ == v@,
{
    let mut r: Vec<u32> = Vec::new();
    let mut i: usize = 0;
    while i < v.len()
        invariant
            i <= v@.len(),
            r@ == v@.take(i as int),
        decreases v@.len() - i,
    {
        r.push(v[i]);
        i = i + 1;
        assert(r@ =~= v@.take(i as int));
    }
    assert(v@.take(i as int) =~= v@);
    r
}

/// The path attributes of `m` in a session over `mode` (`attrs_of`).
pub fn message_attrs(m: &UpdateMessage, mode: TransportMode) -> (r: Vec<PathAttr>)
    ensures
        attr_views(r@) == attrs_of(m@, mode),
{
    let mut r: Vec<PathAttr> = Vec::new();
    r.push(PathAttr::OriginIncomplete);
    r.push(PathAttr::EmptyAsPath);
    r.push(PathAttr::LocalPref(m.local_pref));
    if m.communities.len() > 0 {
        r.push(PathAttr::Communities(copy_u32s(&m.communities)));
    }
    r.push(PathAttr::NextHop(m.next_hop));
    if m.mp_withdraws.len() > 0 {
        match mode {
            TransportMode::IPv4 => r.push(PathAttr::MpWithdraws6(prefixes_v6(&m.mp_withdraws), m.mp_label)),
            TransportMode::IPv6 => r.push(PathAttr::MpWithdraws4(prefixes_v4(&m.mp_withdraws), m.mp_label)),
        }
    }
    if m.mp_updates.len() > 0 {
        match mode {
            TransportMode::IPv4 => r.push(
                PathAttr::MpUpdates6(m.mp_next_hop, prefixes_v6(&m.mp_updates), m.mp_label),
            ),
            TransportMode::IPv6 => r.push(
                PathAttr::MpUpdates4(m.mp_next_hop, prefixes_v4(&m.mp_updates), m.mp_label),
            ),
        }
    }
    assert(attr_views(r@) =~= attrs_of(m@, mode));
    r
}

} // verus!
