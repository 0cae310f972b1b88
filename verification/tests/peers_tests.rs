use ban2bgp::config::{ConfigPeer, PeerMode};
use ban2bgp::net::IpAddress;
use ban2bgp::peers::{BgpPeerShell, BgpPeers, PeerState};

#[test]
fn shell_state() {
    let mut s = BgpPeerShell::new(7u32);
    assert!(s.is_state(PeerState::New));
    s.set_state(PeerState::InSync);
    assert!(s.is_state(PeerState::InSync));
    assert_eq!(s.peer, 7);
    assert_eq!(PeerState::SendingRIB.name(), "SendingRIB");
    assert_eq!(PeerState::SendingUpdates.name(), "SendingUpdates");
}

#[test]
fn one_session_per_address() {
    let mut peers: BgpPeers<u32> = BgpPeers::new();
    assert_eq!(peers.addpeershell(IpAddress::V4(1), BgpPeerShell::new(1)).map(|s| s.peer), Some(1));
    assert!(peers.addpeershell(IpAddress::V4(1), BgpPeerShell::new(2)).is_none());
    let added = peers.addpeershell(IpAddress::V6(1), BgpPeerShell::new(3)).unwrap();
    assert_eq!(added.peer, 3);
    assert!(added.is_state(PeerState::New));
    assert_eq!(peers.peershells.len(), 2);
    assert_eq!(peers.peer_of(&IpAddress::V4(1)), Some(&1));
    assert!(peers.hasip(&IpAddress::V6(1)));
    peers.removepeershell(&IpAddress::V4(1));
    assert!(!peers.hasip(&IpAddress::V4(1)));
    assert!(peers.hasip(&IpAddress::V6(1)));
    peers.removepeershell(&IpAddress::V4(9));
    assert_eq!(peers.peershells.len(), 1);
}

#[test]
fn states_and_counts() {
    let mut peers: BgpPeers<()> = BgpPeers::new();
    for i in 0..4u32 {
        peers.addpeershell(IpAddress::V4(i), BgpPeerShell::new(()));
    }
    assert_eq!(peers.count_peers_in_state(PeerState::New), 4);
    assert!(peers.set_peer_state(&IpAddress::V4(2), PeerState::InSync));
    assert!(!peers.set_peer_state(&IpAddress::V4(9), PeerState::InSync));
    assert_eq!(peers.count_peers_in_state(PeerState::New), 3);
    assert_eq!(peers.peers_in_state(PeerState::InSync), vec![IpAddress::V4(2)]);
    assert_eq!(peers.peers_in_state(PeerState::New), vec![IpAddress::V4(0), IpAddress::V4(1), IpAddress::V4(3)]);
}

#[test]
fn configured_peers_without_a_session() {
    let mut peers: BgpPeers<()> = BgpPeers::new();
    peers.addpeershell(IpAddress::V4(1), BgpPeerShell::new(()));
    let a = ConfigPeer { peeraddr: IpAddress::V4(1), peeras: 1, localas: 1, mode: PeerMode::Blackhole };
    let b = ConfigPeer { peeraddr: IpAddress::V4(2), peeras: 2, localas: 2, mode: PeerMode::Blackhole };
    assert_eq!(peers.peers_to_connect(&vec![a, b]), vec![b]);
}
