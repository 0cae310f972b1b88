//! The registry of connected BGP peers and the state of each session.

use vstd::prelude::*;
use crate::config::ConfigPeer;
use crate::net::IpAddress;

verus! {

/// Where a peer session stands in receiving the route table.
#[derive(Clone, Copy, Debug, PartialEq, Eq, Structural)]
pub enum PeerState {
    /// Connected, the table not sent yet.
    New,
    /// The whole table is being sent.
    SendingRIB,
    /// Up to date with the table.
    InSync,
    /// A change of the table is being sent.
    SendingUpdates,
}

impl PeerState {
    /// The state's name, as the status page shows it.
    pub fn name(&self) -> (r: &'static str)
        ensures
            r@ == match *self {
                PeerState::New => "New"@,
                PeerState::SendingRIB => "SendingRIB"@,
                PeerState::InSync => "InSync"@,
                PeerState::SendingUpdates => "SendingUpdates"@,
            },
    {
        match self {
            PeerState::New => "New",
            PeerState::SendingRIB => "SendingRIB",
            PeerState::InSync => "InSync",
            PeerState::SendingUpdates => "SendingUpdates",
        }
    }
}

/// A peer session together with its state.
pub struct BgpPeerShell<P> {
    pub peer: P,
    pub state: PeerState,
}

impl<P> BgpPeerShell<P> {
    /// A shell for a session that has just been established.
    pub fn new(peer: P) -> (r: BgpPeerShell<P>)
        ensures
            r.peer == peer,
            r.state == PeerState::New,
    {
        BgpPeerShell { peer, state: PeerState::New }
    }

    /// Sets the session's state.
    pub fn set_state(&mut self, s: PeerState)
        ensures
            final(self).state == s,
            final(self).peer == old(self).peer,
    {
        self.state = s;
    }

    /// Whether the session is in state `s`.
    pub fn is_state(&self, s: PeerState) -> (r: bool)
        ensures
            r == (self.state == s),
    {
        self.state == s
    }
}

/// The number of entries of `s` in state `st`.
pub open spec fn count_in_state<P>(s: Seq<(IpAddress, BgpPeerShell<P>)>, st: PeerState) -> nat
    decreases s.len(),
{
    if s.len() == 0 {
        0
    } else {
        count_in_state(s.drop_last(), st) + if s.last().1.state == st { 1nat } else { 0nat }
    }
}

/// The addresses of the entries of `s` in state `st`, in order.
pub open spec fn addrs_in_state<P>(s: Seq<(IpAddress, BgpPeerShell<P>)>, st: PeerState) -> Seq<IpAddress>
    decreases s.len(),
{
    if s.len() == 0 {
        Seq::empty()
    } else {
        let rest = addrs_in_state(s.drop_last(), st);
        if s.last().1.state == st {
            rest.push(s.last().0)
        } else {
            rest
        }
    }
}

/// The sessions of the connected peers, at most one per address.
pub struct BgpPeers<P> {
    pub peershells: Vec<(IpAddress, BgpPeerShell<P>)>,
}

impl<P> BgpPeers<P> {
    /// Whether the registry holds a session with address `a`.
    pub open spec fn has(&self, a: IpAddress) -> bool {
        exists|i: int| 0 <= i < self.peershells@.len() && self.peershells@[i].0 == a
    }

    /// No address occurs twice.
    pub open spec fn wf(&self) -> bool {
        forall|i: int, j: int|
            0 <= i < j < self.peershells@.len() ==> self.peershells@[i].0 != self.peershells@[j].0
    }

    /// An empty registry.
    pub fn new() -> (r: BgpPeers<P>)
        ensures
            r.peershells@.len() == 0,
            r.wf(),
    {
        BgpPeers { peershells: Vec::new() }
    }

    /// Position of the session with address `a`, if any.
    fn find(&self, a: IpAddress) -> (r: Option<usize>)
        ensures
            match r {
                Some(i) => i < self.peershells@.len() && self.peershells@[i as int].0 == a,
                None => !self.has(a),
            },
    {
        let mut i: usize = 0;
        while i < self.peershells.len()
            invariant
                i <= self.peershells@.len(),
                forall|j: int| 0 <= j < i ==> self.peershells@[j].0 != a,
            decreases self.peershells@.len() - i,
        {
            if self.peershells[i].0 == a {
                return Some(i);
            }
            i = i + 1;
        }
        None
    }

    /// Registers the session of a peer at `adr` and gives back the
    /// registered session; a second session for an address already
    /// registered is refused, with `None`.
    pub fn addpeershell(&mut self, adr: IpAddress, peer: BgpPeerShell<P>) -> (r: Option<&BgpPeerShell<P>>)
        requires
            old(self).wf(),
        ensures
            final(self).wf(),
            r is Some == !old(self).has(adr),
            r is Some ==> final(self).peershells@ == old(self).peershells@.push((adr, peer)),
            r is Some ==> *r->0 == peer,
            r is None ==> final(self).peershells@ == old(self).peershells@,
    {
        if self.find(adr).is_some() {
            return None;
        }
        self.peershells.push((adr, peer));
        let last = self.peershells.len() - 1;
        Some(&self.peershells[last].1)
    }

    /// Removes the session registered at `adr`, if any.
    pub fn removepeershell(&mut self, adr: &IpAddress)
        requires
            old(self).wf(),
        ensures
            final(self).wf(),
            !final(self).has(*adr),
            forall|a: IpAddress| a != *adr ==> (final(self).has(a) <==> old(self).has(a)),
            final(self).peershells@ == old(self).peershells@.filter(
                |e: (IpAddress, BgpPeerShell<P>)| e.0 != *adr,
            ),
    {
        match self.find(*adr) {
            None => {
                assert(self.peershells@.filter(|e: (IpAddress, BgpPeerShell<P>)| e.0 != *adr)
                    =~= self.peershells@) by {
                    lemma_filter_keeps_all(self.peershells@, *adr);
                }
            },
            Some(i) => {
                let ghost before = self.peershells@;
                self.peershells.remove(i);
                proof {
                    lemma_filter_drops_one(before, i as int, *adr);
                    assert forall|a: IpAddress| a != *adr implies (self.has(a) <==> (exists|j: int|
                        0 <= j < before.len() && before[j].0 == a)) by {
                        if exists|j: int| 0 <= j < before.len() && before[j].0 == a {
                            let j = choose|j: int| 0 <= j < before.len() && before[j].0 == a;
                            if j < i {
                                assert(self.peershells@[j].0 == a);
                            } else {
                                assert(self.peershells@[j - 1].0 == a);
                            }
                        }
                        if self.has(a) {
                            let j = choose|j: int|
                                0 <= j < self.peershells@.len() && self.peershells@[j].0 == a;
                            if j < i {
                                assert(before[j].0 == a);
                            } else {
                                assert(before[j + 1].0 == a);
                            }
                        }
                    }
                }
            },
        }
    }

    /// Whether a session is registered at `adr`.
    pub fn hasip(&self, adr: &IpAddress) -> (r: bool)
        ensures
            r == self.has(*adr),
    {
        self.find(*adr).is_some()
    }

    /// The number of sessions in state `state`.
    pub fn count_peers_in_state(&self, state: PeerState) -> (r: usize)
        ensures
            r == count_in_state(self.peershells@, state),
    {
        let mut n: usize = 0;
        let mut i: usize = 0;
        while i < self.peershells.len()
            invariant
                i <= self.peershells@.len(),
                n == count_in_state(self.peershells@.take(i as int), state),
                n <= i,
            decreases self.peershells@.len() - i,
        {
            assert(self.peershells@.take(i + 1).drop_last() =~= self.peershells@.take(i as int));
            if self.peershells[i].1.state == state {
                n = n + 1;
            }
            i = i + 1;
        }
        assert(self.peershells@.take(i as int) =~= self.peershells@);
        n
    }

    /// The addresses of the sessions in state `state`, in registration order.
    pub fn peers_in_state(&self, state: PeerState) -> (r: Vec<IpAddress>)
        ensures
            r@ == addrs_in_state(self.peershells@, state),
    {
        let mut r: Vec<IpAddress> = Vec::new();
        let mut i: usize = 0;
        while i < self.peershells.len()
            invariant
                i <= self.peershells@.len(),
                r@ == addrs_in_state(self.peershells@.take(i as int), state),
            decreases self.peershells@.len() - i,
        {
            assert(self.peershells@.take(i + 1).drop_last() =~= self.peershells@.take(i as int));
            if self.peershells[i].1.state == state {
                r.push(self.peershells[i].0);
            }
            i = i + 1;
        }
        assert(self.peershells@.take(i as int) =~= self.peershells@);
        r
    }

    /// Sets the state of the session at `adr`; returns whether there is one.
    pub fn set_peer_state(&mut self, adr: &IpAddress, state: PeerState) -> (found: bool)
        requires
            old(self).wf(),
        ensures
            final(self).wf(),
            found == old(self).has(*adr),
            final(self).peershells@.len() == old(self).peershells@.len(),
            forall|i: int|
                0 <= i < old(self).peershells@.len() ==> {
                    let o = #[trigger] old(self).peershells@[i];
                    let n = final(self).peershells@[i];
                    &&& n.0 == o.0
                    &&& n.1.peer == o.1.peer
                    &&& n.1.state == if o.0 == *adr { state } else { o.1.state }
                },
    {
        match self.find(*adr) {
            None => false,
            Some(i) => {
                let (a, mut shell) = self.peershells.remove(i);
                shell.set_state(state);
                self.peershells.insert(i, (a, shell));
                true
            },
        }
    }

    /// The session registered at `adr`, if any.
    pub fn peer_of(&self, adr: &IpAddress) -> (r: Option<&P>)
        ensures
            match r {
                Some(p) => exists|i: int|
                    0 <= i < self.peershells@.len() && self.peershells@[i].0 == *adr
                        && self.peershells@[i].1.peer == *p,
                None => !self.has(*adr),
            },
    {
        match self.find(*adr) {
            None => None,
            Some(i) => Some(&self.peershells[i].1.peer),
        }
    }
}

/// The configured peers that no registered session has the address of, in
/// order: those to connect to.
pub open spec fn unconnected<P>(peers: BgpPeers<P>, wanted: Seq<ConfigPeer>) -> Seq<ConfigPeer>
    decreases wanted.len(),
{
    if wanted.len() == 0 {
        Seq::empty()
    } else {
        let r = unconnected(peers, wanted.drop_last());
        if peers.has(wanted.last().peeraddr) {
            r
        } else {
            r.push(wanted.last())
        }
    }
}

impl<P> BgpPeers<P> {
    /// The configured peers that have no registered session, in order.
    pub fn peers_to_connect(&self, wanted: &Vec<ConfigPeer>) -> (r: Vec<ConfigPeer>)
        ensures
            r@ == unconnected(*self, wanted@),
    {
        let mut r: Vec<ConfigPeer> = Vec::new();
        let mut i: usize = 0;
        while i < wanted.len()
            invariant
                i <= wanted@.len(),
                r@ == unconnected(*self, wanted@.take(i as int)),
            decreases wanted@.len() - i,
        {
            assert(wanted@.take(i + 1).drop_last() =~= wanted@.take(i as int));
            if !self.hasip(&wanted[i].peeraddr) {
                r.push(wanted[i]);
            }
            i = i + 1;
        }
        assert(wanted@.take(i as int) =~= wanted@);
        r
    }
}

proof fn lemma_filter_keeps_all<P>(s: Seq<(IpAddress, BgpPeerShell<P>)>, a: IpAddress)
    requires
        forall|i: int| 0 <= i < s.len() ==> s[i].0 != a,
    ensures
        s.filter(|e: (IpAddress, BgpPeerShell<P>)| e.0 != a) == s,
    decreases s.len(),
{
    reveal_with_fuel(Seq::filter, 1);
    if s.len() > 0 {
        lemma_filter_keeps_all(s.drop_last(), a);
        assert(s.drop_last().push(s.last()) =~= s);
    } else {
        assert(s.filter(|e: (IpAddress, BgpPeerShell<P>)| e.0 != a) =~= s);
    }
}

proof fn lemma_filter_drops_one<P>(s: Seq<(IpAddress, BgpPeerShell<P>)>, i: int, a: IpAddress)
    requires
        0 <= i < s.len(),
        s[i].0 == a,
        forall|x: int, y: int| 0 <= x < y < s.len() ==> s[x].0 != s[y].0,
    ensures
        s.filter(|e: (IpAddress, BgpPeerShell<P>)| e.0 != a) == s.remove(i),
    decreases s.len(),
{
    reveal_with_fuel(Seq::filter, 1);
    if i == s.len() - 1 {
        lemma_filter_keeps_all(s.drop_last(), a);
        assert(s.remove(i) =~= s.drop_last());
    } else {
        lemma_filter_drops_one(s.drop_last(), i, a);
        assert(s.remove(i) =~= s.drop_last().remove(i).push(s.last()));
    }
}

} // verus!
