//! The BGP speaker: the route table together with the registered sessions.
//! A change of the table goes to every session in sync; a session that has
//! just been established first gets the whole table.

use vstd::prelude::*;
use crate::net::{IpAddress, NetV4, NetV6};
use crate::peers::{BgpPeers, BgpPeerShell, PeerState};
use crate::rib::{BgpRib, BgpRibUpdate, expired, replace_entries, withdrawals_ok, withdrawn_v4, withdrawn_v6};
use crate::session::{PeerUpdater, UpdateMessage, batch_count, nets_v4, nets_v6, sent_announced, sent_withdrawn};

verus! {

broadcast use vstd::std_specs::btree::group_btree_axioms;

/// A registered session: the builder of its UPDATE messages, and the link
/// over which the messages travel (whatever the I/O around the library
/// uses to reach the session).
pub struct PeerSession<L> {
    pub updater: PeerUpdater,
    pub link: L,
}

/// The builder holds no prefixes: it is ready for the next change.
pub open spec fn ready(u: PeerUpdater) -> bool {
    &&& u.pending_ok()
    &&& u.pending_view() matches Some((_, c)) ==> c == 0
}

/// Sending a change (withdrawals `w4`, `w6`, announcements `u4`, `u6`) over
/// a session took its builder from `before` to `after` and produced the
/// messages `out`: the batches of the change's operations, so that they
/// withdraw and announce exactly the prefixes of the change that the
/// session carries; the builder is ready again.
pub open spec fn update_sent(
    before: PeerUpdater,
    after: PeerUpdater,
    w4: Set<NetV4>,
    w6: Set<NetV6>,
    u4: Set<NetV4>,
    u6: Set<NetV6>,
    out: Seq<UpdateMessage>,
) -> bool {
    &&& ready(after)
    &&& after.mode == before.mode
    &&& after.v4_labeled == before.v4_labeled
    &&& after.v6_labeled == before.v6_labeled
    &&& after.nexthop4 == before.nexthop4
    &&& after.nexthop6 == before.nexthop6
    &&& after.communities@ == before.communities@
    &&& before.sent_ok(out)
    &&& sent_withdrawn(out) == before.carried(nets_v4(w4).union(nets_v6(w6)))
    &&& sent_announced(out) == before.carried(nets_v4(u4).union(nets_v6(u6)))
    &&& out.len() == batch_count(before.change_ops(w4, w6, u4, u6).len())
    &&& forall|i: int| 0 <= i < out.len() ==> (#[trigger] out[i])@ == before.batch(before.change_ops(w4, w6, u4, u6), i)
}

/// Every registered session is ready.
pub open spec fn sessions_ready<L>(s: Seq<(IpAddress, BgpPeerShell<PeerSession<L>>)>) -> bool {
    forall|i: int| 0 <= i < s.len() ==> ready(#[trigger] s[i].1.peer.updater)
}

/// The positions of the entries of `s` in state `st`, in order.
pub open spec fn positions_in_state<P>(s: Seq<(IpAddress, BgpPeerShell<P>)>, st: PeerState) -> Seq<int>
    decreases s.len(),
{
    if s.len() == 0 {
        Seq::empty()
    } else {
        let rest = positions_in_state(s.drop_last(), st);
        if s.last().1.state == st {
            rest.push(s.len() - 1)
        } else {
            rest
        }
    }
}

/// What sending a change to the sessions in state `from` does to one
/// session: its address and link stay; one in state `from` ends in sync,
/// any other is left as it was.
pub open spec fn session_after<L>(
    before: (IpAddress, BgpPeerShell<PeerSession<L>>),
    after: (IpAddress, BgpPeerShell<PeerSession<L>>),
    from: PeerState,
) -> bool {
    &&& after.0 == before.0
    &&& after.1.peer.link == before.1.peer.link
    &&& before.1.state != from ==> after == before
    &&& before.1.state == from ==> after.1.state == PeerState::InSync
}

/// The change (`w4`, `w6`, `u4`, `u6`) went to exactly the sessions of
/// `before` in state `from`, in registry order: `out` lists each one's
/// position and its messages.
pub open spec fn sent_to_sessions<L>(
    before: Seq<(IpAddress, BgpPeerShell<PeerSession<L>>)>,
    after: Seq<(IpAddress, BgpPeerShell<PeerSession<L>>)>,
    from: PeerState,
    w4: Set<NetV4>,
    w6: Set<NetV6>,
    u4: Set<NetV4>,
    u6: Set<NetV6>,
    out: Seq<(usize, Vec<UpdateMessage>)>,
) -> bool {
    &&& after.len() == before.len()
    &&& forall|i: int| 0 <= i < before.len() ==> session_after(#[trigger] before[i], after[i], from)
    &&& out.len() == positions_in_state(before, from).len()
    &&& forall|j: int|
        0 <= j < out.len() ==> {
            &&& (#[trigger] out[j]).0 as int == positions_in_state(before, from)[j]
            &&& update_sent(
                before[out[j].0 as int].1.peer.updater,
                after[out[j].0 as int].1.peer.updater,
                w4,
                w6,
                u4,
                u6,
                out[j].1@,
            )
        }
}

proof fn lemma_positions_bound<P>(s: Seq<(IpAddress, BgpPeerShell<P>)>, st: PeerState)
    ensures
        forall|j: int|
            0 <= j < positions_in_state(s, st).len() ==> 0 <= #[trigger] positions_in_state(s, st)[j]
                < s.len() && s[positions_in_state(s, st)[j]].1.state == st,
    decreases s.len(),
{
    if s.len() > 0 {
        lemma_positions_bound(s.drop_last(), st);
    }
}

impl<L> BgpPeers<PeerSession<L>> {
    /// Sends a change to every session in state `from`: builds its messages
    /// and leaves it in sync. Returns, in registry order, the position of
    /// each such session and the messages to send over it.
    pub fn send_update(&mut self, upd: &BgpRibUpdate, from: PeerState) -> (out: Vec<(usize, Vec<UpdateMessage>)>)
        requires
            old(self).wf(),
            sessions_ready(old(self).peershells@),
        ensures
            final(self).wf(),
            sessions_ready(final(self).peershells@),
            sent_to_sessions(
                old(self).peershells@,
                final(self).peershells@,
                from,
                upd.withdraws4@,
                upd.withdraws6@,
                upd.updates4@,
                upd.updates6@,
                out@,
            ),
    {
        let ghost before = self.peershells@;
        let mut out: Vec<(usize, Vec<UpdateMessage>)> = Vec::new();
        let mut i: usize = 0;
        while i < self.peershells.len()
            invariant
                self.peershells@.len() == before.len(),
                0 <= i <= before.len(),
                forall|a: int, b: int| 0 <= a < b < before.len() ==> before[a].0 != before[b].0,
                forall|k: int| 0 <= k < before.len() ==> ready(#[trigger] before[k].1.peer.updater),
                forall|k: int|
                    0 <= k < i ==> session_after(#[trigger] before[k], self.peershells@[k], from)
                        && ready(self.peershells@[k].1.peer.updater),
                forall|k: int| i <= k < before.len() ==> #[trigger] self.peershells@[k] == before[k],
                out@.len() == positions_in_state(before.take(i as int), from).len(),
                forall|j: int|
                    0 <= j < out@.len() ==> {
                        &&& (#[trigger] out@[j]).0 as int == positions_in_state(before.take(i as int), from)[j]
                        &&& update_sent(
                            before[out@[j].0 as int].1.peer.updater,
                            self.peershells@[out@[j].0 as int].1.peer.updater,
                            upd.withdraws4@,
                            upd.withdraws6@,
                            upd.updates4@,
                            upd.updates6@,
                            out@[j].1@,
                        )
                    },
            decreases before.len() - i,
        {
            proof {
                assert(before.take(i + 1).drop_last() =~= before.take(i as int));
                assert(before.take(i + 1).last() == before[i as int]);
                lemma_positions_bound(before.take(i as int), from);
            }
            let ghost prev = self.peershells@;
            assert forall|k: int| 0 <= k < i implies ready(#[trigger] prev[k].1.peer.updater) by {
                assert(session_after(before[k], prev[k], from));
            }
            if self.peershells[i].1.state == from {
                let msgs = self.peershells[i].1.peer.updater.send_update(upd);
                self.peershells[i].1.state = PeerState::InSync;
                out.push((i, msgs));
            }
            assert(forall|k: int| 0 <= k < i ==> #[trigger] self.peershells@[k] == prev[k]);
            assert(session_after(before[i as int], self.peershells@[i as int], from));
            assert(ready(self.peershells@[i as int].1.peer.updater));
            i = i + 1;
        }
        assert(before.take(i as int) =~= before);
        proof {
            let after = self.peershells@;
            assert forall|k: int| 0 <= k < after.len() implies ready(#[trigger] after[k].1.peer.updater) by {
                assert(session_after(before[k], after[k], from));
            }
            assert forall|a: int, b: int| 0 <= a < b < after.len() implies after[a].0 != after[b].0 by {
                assert(session_after(before[a], after[a], from));
                assert(session_after(before[b], after[b], from));
            }
        }
        out
    }
}

/// The route table and the registered sessions.
pub struct BgpSpeaker<L> {
    pub rib: BgpRib,
    pub peers: BgpPeers<PeerSession<L>>,
}

impl<L> BgpSpeaker<L> {
    /// No address is registered twice and every session is ready.
    pub open spec fn wf(&self) -> bool {
        self.peers.wf() && sessions_ready(self.peers.peershells@)
    }

    /// An empty table and no sessions.
    pub fn new() -> (r: BgpSpeaker<L>)
        ensures
            r.wf(),
            r.rib.ipv4@ == Map::<NetV4, i64>::empty(),
            r.rib.ipv6@ == Map::<NetV6, i64>::empty(),
            r.peers.peershells@.len() == 0,
    {
        BgpSpeaker { rib: BgpRib::new(), peers: BgpPeers::new() }
    }

    /// Registers an established session at `adr` in state `New`; a second
    /// session for an address already registered is refused. Returns
    /// whether it was added.
    pub fn register(&mut self, adr: IpAddress, updater: PeerUpdater, link: L) -> (added: bool)
        requires
            old(self).wf(),
            ready(updater),
        ensures
            final(self).wf(),
            final(self).rib == old(self).rib,
            added == !old(self).peers.has(adr),
            added ==> final(self).peers.peershells@ == old(self).peers.peershells@.push(
                (adr, BgpPeerShell { peer: PeerSession { updater, link }, state: PeerState::New }),
            ),
            !added ==> final(self).peers.peershells@ == old(self).peers.peershells@,
    {
        let ghost u = updater;
        let added = self.peers.addpeershell(adr, BgpPeerShell::new(PeerSession { updater, link })).is_some();
        proof {
            if added {
                let s = self.peers.peershells@;
                assert forall|i: int| 0 <= i < s.len() implies ready(#[trigger] s[i].1.peer.updater) by {
                    if i < s.len() - 1 {
                        assert(s[i] == old(self).peers.peershells@[i]);
                        assert(ready(old(self).peers.peershells@[i].1.peer.updater));
                    } else {
                        assert(s[i].1.peer.updater == u);
                        assert(ready(u));
                    }
                }
            }
        }
        added
    }

    /// Removes the session registered at `adr`, if any.
    pub fn unregister(&mut self, adr: &IpAddress)
        requires
            old(self).wf(),
        ensures
            final(self).wf(),
            final(self).rib == old(self).rib,
            !final(self).peers.has(*adr),
            final(self).peers.peershells@ == old(self).peers.peershells@.filter(
                |e: (IpAddress, BgpPeerShell<PeerSession<L>>)| e.0 != *adr,
            ),
    {
        self.peers.removepeershell(adr);
        proof {
            let s = self.peers.peershells@;
            let o = old(self).peers.peershells@;
            assert forall|i: int| 0 <= i < s.len() implies ready(#[trigger] s[i].1.peer.updater) by {
                let pred = |e: (IpAddress, BgpPeerShell<PeerSession<L>>)| e.0 != *adr;
                assert(s.contains(s[i]));
                o.lemma_filter_contains_rev(pred, s[i]);
                let k = choose|k: int| 0 <= k < o.len() && o[k] == s[i];
                assert(ready(o[k].1.peer.updater));
            }
        }
    }

    /// Applies an update to the table (see `BgpRib::change`) and, when it
    /// changed anything the peers are told of, sends that to every session
    /// in sync. Returns the messages to send, with the position of the
    /// session of each.
    pub fn change(&mut self, msg: BgpRibUpdate, till: i64) -> (out: Vec<(usize, Vec<UpdateMessage>)>)
        requires
            old(self).wf(),
            withdrawals_ok(old(self).rib.ipv4@, old(self).rib.ipv6@, msg.withdraws4@, msg.withdraws6@),
        ensures
            final(self).wf(),
            final(self).rib.ipv4@ == replace_entries(
                old(self).rib.ipv4@,
                withdrawn_v4(old(self).rib.ipv4@, msg.withdraws4@),
                msg.updates4@,
                till,
            ),
            final(self).rib.ipv6@ == replace_entries(
                old(self).rib.ipv6@,
                withdrawn_v6(old(self).rib.ipv6@, msg.withdraws6@),
                msg.updates6@,
                till,
            ),
            ({
                let w4 = withdrawn_v4(old(self).rib.ipv4@, msg.withdraws4@);
                let w6 = withdrawn_v6(old(self).rib.ipv6@, msg.withdraws6@);
                let u4 = msg.updates4@.difference(old(self).rib.ipv4@.dom());
                let u6 = msg.updates6@.difference(old(self).rib.ipv6@.dom());
                if w4.is_empty() && w6.is_empty() && u4.is_empty() && u6.is_empty() {
                    &&& out@.len() == 0
                    &&& final(self).peers == old(self).peers
                } else {
                    sent_to_sessions(
                        old(self).peers.peershells@,
                        final(self).peers.peershells@,
                        PeerState::InSync,
                        w4,
                        w6,
                        u4,
                        u6,
                        out@,
                    )
                }
            }),
    {
        let checked = self.rib.change(msg, till);
        if checked.is_empty() {
            return Vec::new();
        }
        self.peers.send_update(&checked, PeerState::InSync)
    }

    /// Removes the expired entries (instant before `now`) and sends their
    /// withdrawal to every session in sync, when there are any.
    pub fn check_expires(&mut self, now: i64) -> (out: Vec<(usize, Vec<UpdateMessage>)>)
        requires
            old(self).wf(),
        ensures
            final(self).wf(),
            final(self).rib.ipv4@ == replace_entries(
                old(self).rib.ipv4@,
                expired(old(self).rib.ipv4@, now),
                Set::empty(),
                0,
            ),
            final(self).rib.ipv6@ == replace_entries(
                old(self).rib.ipv6@,
                expired(old(self).rib.ipv6@, now),
                Set::empty(),
                0,
            ),
            ({
                let w4 = expired(old(self).rib.ipv4@, now);
                let w6 = expired(old(self).rib.ipv6@, now);
                if w4.is_empty() && w6.is_empty() {
                    &&& out@.len() == 0
                    &&& final(self).peers == old(self).peers
                } else {
                    sent_to_sessions(
                        old(self).peers.peershells@,
                        final(self).peers.peershells@,
                        PeerState::InSync,
                        w4,
                        w6,
                        Set::empty(),
                        Set::empty(),
                        out@,
                    )
                }
            }),
    {
        let gone = self.rib.check_expires(now);
        if gone.is_empty() {
            return Vec::new();
        }
        self.peers.send_update(&gone, PeerState::InSync)
    }

    /// Sends the whole table to every session that has just been
    /// established, when there is one; they are in sync afterwards.
    pub fn check_peers(&mut self) -> (out: Vec<(usize, Vec<UpdateMessage>)>)
        requires
            old(self).wf(),
        ensures
            final(self).wf(),
            final(self).rib == old(self).rib,
            if positions_in_state(old(self).peers.peershells@, PeerState::New).len() == 0 {
                &&& out@.len() == 0
                &&& final(self).peers == old(self).peers
            } else {
                sent_to_sessions(
                    old(self).peers.peershells@,
                    final(self).peers.peershells@,
                    PeerState::New,
                    Set::empty(),
                    Set::empty(),
                    old(self).rib.ipv4@.dom(),
                    old(self).rib.ipv6@.dom(),
                    out@,
                )
            },
    {
        proof {
            lemma_count_positions(self.peers.peershells@, PeerState::New);
        }
        if self.peers.count_peers_in_state(PeerState::New) < 1 {
            return Vec::new();
        }
        let full = self.rib.full_update();
        self.peers.send_update(&full, PeerState::New)
    }
}

proof fn lemma_count_positions<P>(s: Seq<(IpAddress, BgpPeerShell<P>)>, st: PeerState)
    ensures
        positions_in_state(s, st).len() == crate::peers::count_in_state(s, st),
    decreases s.len(),
{
    if s.len() > 0 {
        lemma_count_positions(s.drop_last(), st);
    }
}

} // verus!
