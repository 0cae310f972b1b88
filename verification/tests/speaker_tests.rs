use ban2bgp::net::{IpAddress, NetPrefix};
use ban2bgp::peers::PeerState;
use ban2bgp::rib::BgpRibUpdate;
use ban2bgp::session::{PeerUpdater, TransportMode};
use ban2bgp::speaker::BgpSpeaker;

fn updater() -> PeerUpdater {
    PeerUpdater::new(TransportMode::IPv4, false, false, 0xc612_0001, 1, vec![])
}

fn announce(p: (u32, u8)) -> BgpRibUpdate {
    let mut u = BgpRibUpdate::new();
    u.updates4.insert(p);
    u
}

#[test]
fn new_session_gets_the_whole_table_then_changes() {
    let mut sp: BgpSpeaker<u8> = BgpSpeaker::new();
    let out = sp.change(announce((0x0a00_0001, 32)), 5000);
    // no session yet: nothing to send, the table holds the prefix
    assert!(out.is_empty());
    assert_eq!(sp.rib.ipv4.get(&(0x0a00_0001, 32)), Some(&5000));
    assert!(sp.register(IpAddress::V4(0x0a00_00fe), updater(), 7));
    assert!(!sp.register(IpAddress::V4(0x0a00_00fe), updater(), 8));
    assert_eq!(sp.peers.peershells[0].1.state, PeerState::New);
    // a session in state New is not sent changes
    let out = sp.change(announce((0x0a00_0002, 32)), 6000);
    assert!(out.is_empty());
    // it gets the whole table, and is in sync afterwards
    let out = sp.check_peers();
    assert_eq!(out.len(), 1);
    assert_eq!(out[0].0, 0);
    assert_eq!(
        out[0].1[0].nlri_updates,
        vec![NetPrefix::V4(0x0a00_0001, 32), NetPrefix::V4(0x0a00_0002, 32)]
    );
    assert_eq!(sp.peers.peershells[0].1.state, PeerState::InSync);
    assert!(sp.check_peers().is_empty());
    // now changes reach it
    let out = sp.change(announce((0x0a00_0003, 32)), 7000);
    assert_eq!(out.len(), 1);
    assert_eq!(out[0].1[0].nlri_updates, vec![NetPrefix::V4(0x0a00_0003, 32)]);
    assert_eq!(sp.peers.peershells[out[0].0].1.peer.link, 7);
    // re-announcing a held prefix only renews it: nothing is sent
    assert!(sp.change(announce((0x0a00_0003, 32)), 8000).is_empty());
    assert_eq!(sp.rib.ipv4.get(&(0x0a00_0003, 32)), Some(&8000));
}

#[test]
fn expired_routes_are_withdrawn_from_sessions_in_sync() {
    let mut sp: BgpSpeaker<u8> = BgpSpeaker::new();
    sp.change(announce((0x0a00_0001, 32)), 1000);
    sp.change(announce((0x0a00_0002, 32)), 3000);
    sp.register(IpAddress::V4(1), updater(), 1);
    sp.check_peers();
    assert!(sp.check_expires(500).is_empty());
    let out = sp.check_expires(2000);
    assert_eq!(out.len(), 1);
    assert_eq!(out[0].1[0].nlri_withdraws, vec![NetPrefix::V4(0x0a00_0001, 32)]);
    assert!(out[0].1[0].nlri_updates.is_empty());
    assert_eq!(sp.rib.ipv4.len(), 1);
    assert_eq!(sp.peers.peershells[0].1.state, PeerState::InSync);
}

#[test]
fn withdrawals_reach_sessions_and_unregister_forgets() {
    let mut sp: BgpSpeaker<u8> = BgpSpeaker::new();
    sp.change(announce((0x0a00_0101, 32)), 9000);
    sp.register(IpAddress::V4(1), updater(), 1);
    sp.register(IpAddress::V4(2), updater(), 2);
    assert_eq!(sp.check_peers().len(), 2);
    let mut w = BgpRibUpdate::new();
    w.withdraws4.insert((0x0a00_0100, 24));
    let out = sp.change(w, 0);
    assert_eq!(out.len(), 2);
    assert_eq!(out[0].0, 0);
    assert_eq!(out[1].0, 1);
    assert_eq!(out[1].1[0].nlri_withdraws, vec![NetPrefix::V4(0x0a00_0101, 32)]);
    assert!(sp.rib.ipv4.is_empty());
    sp.unregister(&IpAddress::V4(1));
    assert_eq!(sp.peers.peershells.len(), 1);
    assert_eq!(sp.peers.peershells[0].0, IpAddress::V4(2));
}
