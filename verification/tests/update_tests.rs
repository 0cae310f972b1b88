use ban2bgp::net::{IpAddress, NetPrefix};
use ban2bgp::open::accept_open;
use ban2bgp::session::{passive_params, MessageKind, TransportMode, UpdateMessage};
use ban2bgp::update::{encode_update, read_notification, update_prefixes_ok};

fn message(updates: Vec<NetPrefix>, communities: Vec<u32>) -> UpdateMessage {
    UpdateMessage {
        nlri_withdraws: vec![],
        mp_withdraws: vec![],
        nlri_updates: updates,
        mp_updates: vec![],
        next_hop: IpAddress::V4(0xc000_0201),
        mp_next_hop: IpAddress::V4(0),
        mp_label: 0,
        communities,
        local_pref: 100,
    }
}

#[test]
fn update_bytes() {
    let p = passive_params(TransportMode::IPv4, 0x0a00_0002);
    let o = accept_open(&p, MessageKind::Open, &[4, 0xfd, 0xe8, 0, 90, 1, 2, 3, 4, 0], true).ok().unwrap();
    let m = message(vec![NetPrefix::V4(0x0a00_0000, 24)], vec![]);
    assert!(update_prefixes_ok(&m, TransportMode::IPv4));
    let msg = encode_update(&m, &o).unwrap();
    let mut want = vec![255u8; 16];
    want.extend_from_slice(&[0, 49, 2]);
    want.extend_from_slice(&[0, 0, 0, 22]);
    want.extend_from_slice(&[0x40, 1, 1, 2]);
    want.extend_from_slice(&[0x50, 2, 0, 0]);
    want.extend_from_slice(&[0x40, 5, 4, 0, 0, 0, 100]);
    want.extend_from_slice(&[0x40, 3, 4, 192, 0, 2, 1]);
    want.extend_from_slice(&[24, 10, 0, 0]);
    assert_eq!(msg, want);
}

#[test]
fn update_refusals() {
    let p = passive_params(TransportMode::IPv4, 1);
    let o = accept_open(&p, MessageKind::Open, &[4, 0xfd, 0xe8, 0, 90, 1, 2, 3, 4, 0], true).ok().unwrap();
    // a prefix longer than an IPv4 address
    assert!(!update_prefixes_ok(&message(vec![NetPrefix::V4(1, 40)], vec![]), TransportMode::IPv4));
    // in an IPv6 session the IPv4 announcements are not written at all
    assert!(update_prefixes_ok(&message(vec![NetPrefix::V4(1, 40)], vec![]), TransportMode::IPv6));
    // more communities than the message can hold
    let many = message(vec![NetPrefix::V4(0x0a00_0000, 24)], (0..20000).collect());
    assert_eq!(encode_update(&many, &o), None);
    // a next hop of the other family is refused
    let mut v6hop = message(vec![NetPrefix::V4(0x0a00_0000, 24)], vec![]);
    v6hop.next_hop = IpAddress::V6(1);
    assert_eq!(encode_update(&v6hop, &o), None);
}

#[test]
fn notifications() {
    assert_eq!(read_notification(&[6]), None);
    assert_eq!(read_notification(&[6, 2]), Some((6, 2, 0)));
    assert_eq!(read_notification(&[6, 2, 7]), Some((6, 2, 7)));
    assert_eq!(read_notification(&[6, 2, 1, 2, 9]), Some((6, 2, 0x0102)));
}
