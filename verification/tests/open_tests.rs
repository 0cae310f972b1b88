use ban2bgp::open::{accept_open, answer_open, frame_message, offered_caps, open_panics, our_open, OpenError};
use ban2bgp::session::{active_params, passive_params, Capability, MessageKind, TransportMode};

#[test]
fn framing() {
    let m = frame_message(MessageKind::Keepalive, &[]);
    let mut want = vec![255u8; 16];
    want.extend_from_slice(&[0, 19, 4]);
    assert_eq!(m, want);
    let u = frame_message(MessageKind::Update, &[1, 2, 3]);
    assert_eq!(&u[16..], &[0, 22, 2, 1, 2, 3]);
}

#[test]
fn open_exchange_both_ways() {
    let ours = active_params(TransportMode::IPv4, 0x0a00_0001, 70000);
    let msg = our_open(&ours).unwrap();
    assert_eq!(&msg[0..16], &[255u8; 16]);
    assert_eq!(msg[18], 1);
    let body = &msg[19..];
    // a peer listening for us takes our OPEN in
    let theirs = passive_params(TransportMode::IPv4, 0x0a00_0002);
    let o = accept_open(&theirs, MessageKind::Open, body, true).ok().unwrap();
    assert_eq!(o.params.hold_time, 180);
    // the 16-bit AS field holds 23456; the 32-bit AS capability gives the AS
    assert_eq!(o.peer_as, 23456);
    assert_eq!(o.params.as_num, 70000);
    assert!(o.params.has_as32bit);
    assert_eq!(o.params.router_id, 0x0a00_0002);
    assert_eq!(o.params.caps, ours.caps);
    // its answer is our OPEN with its router id
    let ans = answer_open(&theirs, o.peer_as, o.params.hold_time, &o.peer_caps).unwrap();
    let back = accept_open(&ours, MessageKind::Open, &ans[19..], false).ok().unwrap();
    // a session we open keeps our AS unless a 32-bit AS capability names one
    assert_eq!(back.params.as_num, 70000);
    assert_eq!(back.peer_as, 23456);
}

#[test]
fn open_refusals() {
    let p = passive_params(TransportMode::IPv6, 1);
    assert_eq!(accept_open(&p, MessageKind::Keepalive, &[], true).err(), Some(OpenError::InvalidState));
    assert_eq!(accept_open(&p, MessageKind::Open, &[4, 0], true).err(), Some(OpenError::Decode));
    assert_eq!(accept_open(&p, MessageKind::Open, &[3, 0, 1, 0, 180, 1, 2, 3, 4, 0], true).err(), Some(OpenError::Decode));
    let o = accept_open(&p, MessageKind::Open, &[4, 0xfd, 0xe8, 0, 90, 1, 2, 3, 4, 0], true).ok().unwrap();
    assert_eq!(o.params.as_num, 65000);
    assert_eq!(o.params.hold_time, 90);
    assert!(o.params.caps.is_empty());
    assert!(!o.params.has_as32bit);
    assert_eq!(o.params.mode, TransportMode::IPv6);
    assert!(!o.params.caps.contains(&Capability::Other));
}

#[test]
fn our_open_bytes() {
    let ours = active_params(TransportMode::IPv4, 0x0a00_0001, 70000);
    let msg = our_open(&ours).unwrap();
    assert_eq!(msg.len(), 19 + 10 + 5 * 8);
    assert_eq!(&msg[16..19], &[0, 69, 1]);
    // version, AS 23456 in the 16-bit field, hold time 180, router id, capability bytes
    assert_eq!(&msg[19..29], &[4, 0x5b, 0xa0, 0, 180, 10, 0, 0, 1, 40]);
    assert_eq!(&msg[29..37], &[2, 6, 1, 4, 0, 1, 0, 1]);
    // the 32-bit AS capability comes last
    assert_eq!(&msg[61..69], &[2, 6, 65, 4, 0, 1, 0x11, 0x70]);
    assert!(!open_panics(&offered_caps(&ours)));
}

#[test]
fn answers_echo_the_peers_capabilities() {
    let p = passive_params(TransportMode::IPv4, 0x0a00_0002);
    // one optional parameter holding route refresh and a 32-bit AS capability
    let body = [4, 0xfd, 0xe8, 0, 90, 1, 2, 3, 4, 10, 2, 8, 2, 0, 65, 4, 0, 0, 0xfd, 0xe9];
    let o = accept_open(&p, MessageKind::Open, &body, true).ok().unwrap();
    assert_eq!(o.params.caps, vec![Capability::Other, Capability::CapASN32(65001)]);
    assert_eq!(o.params.as_num, 65001);
    assert_eq!(o.peer_as, 65000);
    assert!(!open_panics(&o.peer_caps));
    let ans = answer_open(&p, o.peer_as, o.params.hold_time, &o.peer_caps).unwrap();
    // the same OPEN with our router id, each capability in a parameter of its own
    assert_eq!(&ans[19..], &[4, 0xfd, 0xe8, 0, 90, 10, 0, 0, 2, 12, 2, 2, 2, 0, 2, 6, 65, 4, 0, 0, 0xfd, 0xe9]);
}

#[test]
fn long_capability_lists_panic_the_encoder() {
    let p = passive_params(TransportMode::IPv4, 1);
    // a graceful-restart capability with no family, then eight parameters
    // of 127 route-refresh capabilities each
    let mut body = vec![4, 0, 1, 0, 90, 1, 2, 3, 4, 0, 2, 4, 64, 2, 0, 0];
    for _ in 0..8 {
        body.push(2);
        body.push(254);
        for _ in 0..127 {
            body.push(2);
            body.push(0);
        }
    }
    let o = accept_open(&p, MessageKind::Open, &body, true).ok().unwrap();
    assert_eq!(o.peer_caps.len(), 1017);
    // the last capability starts at byte 4076 of the 4077 the encoder has
    assert!(open_panics(&o.peer_caps));
    // without the graceful-restart capability they end at byte 4074
    let mut rest = o.peer_caps[1..].to_vec();
    assert!(!open_panics(&rest));
    assert_eq!(answer_open(&p, o.peer_as, o.params.hold_time, &rest).unwrap().len(), 19 + 4074);
    // one more runs past the end, which the encoder refuses
    rest.push(rest[0].clone());
    assert!(!open_panics(&rest));
    assert_eq!(answer_open(&p, o.peer_as, o.params.hold_time, &rest), None);
    assert!(!open_panics(&o.peer_caps[0..500].to_vec()));
}
