use ban2bgp::session::{body_continues, closes, plan_round, BodyEvent, RoundPlan, WaitEvent};
use ban2bgp::session::{message_attrs, nlri_field, Nlri, PathAttr};
use ban2bgp::net::{IpAddress, NetPrefix, SocketAddress};
use ban2bgp::rib::BgpRibUpdate;
use ban2bgp::session::{
    active_params, decode_message_head, head_length_underflows, has_capability, mode_of, on_message, passive_params, updater_for,
    Capability, KeepaliveClock, MessageAction, MessageKind, PeerUpdater, TransportMode,
};

fn updater(mode: TransportMode, v4l: bool, v6l: bool) -> PeerUpdater {
    PeerUpdater::new(mode, v4l, v6l, 0xc612_0001, 0x2001_0db8 << 96 | 1, vec![0x029a_029a])
}

#[test]
fn ipv4_session_places_prefixes() {
    let mut u = updater(TransportMode::IPv4, false, false);
    let mut upd = BgpRibUpdate::new();
    upd.updates4.insert((0x0a00_0001, 32));
    upd.withdraws4.insert((0x0a00_0002, 32));
    upd.updates6.insert((1, 128));
    let out = u.send_update(&upd);
    assert_eq!(out.len(), 1);
    let m = &out[0];
    assert_eq!(m.nlri_updates, vec![NetPrefix::V4(0x0a00_0001, 32)]);
    assert_eq!(m.nlri_withdraws, vec![NetPrefix::V4(0x0a00_0002, 32)]);
    // no labeled IPv6 capability: the IPv6 prefix is not sent
    assert!(m.mp_updates.is_empty());
    assert_eq!(m.next_hop, IpAddress::V4(0xc612_0001));
    assert_eq!(m.communities, vec![0x029a_029a]);
    assert_eq!(m.local_pref, 10);
}

#[test]
fn labeled_prefixes_of_the_other_family() {
    let mut u = updater(TransportMode::IPv4, false, true);
    let mut upd = BgpRibUpdate::new();
    upd.updates6.insert((1, 128));
    upd.withdraws6.insert((2, 128));
    let out = u.send_update(&upd);
    assert_eq!(out.len(), 1);
    assert_eq!(out[0].mp_updates, vec![NetPrefix::V6(1, 128)]);
    assert_eq!(out[0].mp_withdraws, vec![NetPrefix::V6(2, 128)]);
    assert_eq!(out[0].mp_next_hop, IpAddress::V4(0xc612_0001));
    assert_eq!(out[0].mp_label, 2);
    let mut w = updater(TransportMode::IPv6, true, false);
    let mut upd4 = BgpRibUpdate::new();
    upd4.updates4.insert((7, 32));
    let out4 = w.send_update(&upd4);
    assert_eq!(out4[0].mp_updates, vec![NetPrefix::V4(7, 32)]);
    assert_eq!(out4[0].mp_label, 3);
    assert_eq!(out4[0].next_hop, IpAddress::V6(0x2001_0db8 << 96 | 1));
}

#[test]
fn large_updates_are_split() {
    let mut u = updater(TransportMode::IPv4, false, false);
    let mut upd = BgpRibUpdate::new();
    for i in 0..250u32 {
        upd.updates4.insert((i, 32));
    }
    let out = u.send_update(&upd);
    let sizes: Vec<usize> = out.iter().map(|m| m.nlri_updates.len()).collect();
    assert_eq!(sizes, vec![101, 101, 48]);
    assert_eq!(out[0].nlri_updates[0], NetPrefix::V4(0, 32));
    assert_eq!(out[2].nlri_updates[47], NetPrefix::V4(249, 32));
    // nothing left to send
    let again = u.send_update(&BgpRibUpdate::new());
    assert!(again.is_empty());
}

#[test]
fn withdrawals_then_announcements_in_prefix_order() {
    let mut u = updater(TransportMode::IPv4, false, true);
    let mut upd = BgpRibUpdate::new();
    for i in (0..100u32).rev() {
        upd.withdraws4.insert((i, 32));
    }
    upd.withdraws6.insert((9, 128));
    upd.withdraws6.insert((3, 128));
    upd.updates4.insert((7, 24));
    upd.updates4.insert((7, 8));
    let out = u.send_update(&upd);
    // 100 IPv4 and 2 labeled IPv6 withdrawals, 2 announcements: 104 operations
    assert_eq!(out.len(), 2);
    assert_eq!(out[0].nlri_withdraws.len(), 100);
    assert_eq!(out[0].nlri_withdraws[0], NetPrefix::V4(0, 32));
    assert_eq!(out[0].nlri_withdraws[99], NetPrefix::V4(99, 32));
    assert_eq!(out[0].mp_withdraws, vec![NetPrefix::V6(3, 128)]);
    assert!(out[0].nlri_updates.is_empty());
    assert_eq!(out[1].mp_withdraws, vec![NetPrefix::V6(9, 128)]);
    assert_eq!(out[1].nlri_updates, vec![NetPrefix::V4(7, 8), NetPrefix::V4(7, 24)]);
}

#[test]
fn flush_only_when_full() {
    let mut u = updater(TransportMode::IPv4, false, false);
    assert!(u.msgflush(0).is_none());
    let mut out = Vec::new();
    u.add(NetPrefix::V4(1, 32), true, &mut out);
    assert!(out.is_empty());
    assert!(u.msgflush(1).is_none());
    let sent = u.msgflush(0).unwrap();
    assert_eq!(sent.nlri_updates, vec![NetPrefix::V4(1, 32)]);
    assert_eq!(u.next_hop(), IpAddress::V4(0xc612_0001));
}

#[test]
fn session_parameters() {
    let p = passive_params(TransportMode::IPv6, 0x0101_0101);
    assert_eq!(p.as_num, 0);
    assert_eq!(p.hold_time, 180);
    assert_eq!(p.caps, vec![Capability::SafiIPv6u, Capability::SafiIPv4fu, Capability::SafiIPv6fu, Capability::SafiIPv4lu]);
    let a = active_params(TransportMode::IPv4, 0x0101_0101, 65535);
    assert_eq!(a.as_num, 65535);
    assert_eq!(a.caps.last(), Some(&Capability::CapASN32(65535)));
    assert!(has_capability(&a.caps, Capability::SafiIPv6lu));
    assert!(!has_capability(&a.caps, Capability::SafiIPv4lu));
    let u = updater_for(&a, 1, 2, vec![]);
    assert!(u.v6_labeled && !u.v4_labeled);
    let s4 = SocketAddress { ip: IpAddress::V4(1), port: 179, flowinfo: 0, scope_id: 0 };
    assert_eq!(mode_of(&s4), TransportMode::IPv4);
}

#[test]
fn message_heads() {
    let mut h = [255u8; 19];
    h[16] = 0;
    h[17] = 23;
    h[18] = 4;
    assert_eq!(decode_message_head(&h), Some((MessageKind::Keepalive, 4)));
    h[18] = 9;
    assert_eq!(decode_message_head(&h), None);
    h[18] = 2;
    h[3] = 0;
    assert_eq!(decode_message_head(&h), None);
    assert_eq!(decode_message_head(&h[0..10]), None);
    let mut short = [255u8; 19];
    short[16] = 0;
    short[17] = 18;
    short[18] = 4;
    assert!(head_length_underflows(&short));
    short[17] = 19;
    assert!(!head_length_underflows(&short));
    short[17] = 3;
    short[18] = 7;
    assert!(!head_length_underflows(&short));
    assert!(!head_length_underflows(&h));
}

#[test]
fn message_actions() {
    assert_eq!(on_message(MessageKind::Open), MessageAction::Close);
    assert_eq!(on_message(MessageKind::Keepalive), MessageAction::SendKeepalive);
    assert_eq!(on_message(MessageKind::Notification), MessageAction::ReportAndClose);
    assert_eq!(on_message(MessageKind::Update), MessageAction::Ignore);
}

#[test]
fn keepalive_timing() {
    let mut k = KeepaliveClock::new(180, 1_000_000);
    assert_eq!(k.interval_ms, 60_000);
    assert!(!k.due(1_059_999));
    assert!(k.due(1_060_000));
    assert_eq!(k.wait_ms(1_010_000), 50_000);
    assert_eq!(k.wait_ms(1_070_000), 1000);
    k.sent(1_070_000);
    assert_eq!(k.wait_ms(1_070_000), 60_000);
    assert!(k.wait_fits(0));
    assert!(!k.wait_fits(i64::MIN));
}

#[test]
fn attributes_of_messages() {
    let mut u = updater(TransportMode::IPv4, false, true);
    let mut upd = BgpRibUpdate::new();
    upd.updates4.insert((7, 32));
    upd.withdraws6.insert((3, 128));
    let out = u.send_update(&upd);
    let attrs = message_attrs(&out[0], TransportMode::IPv4);
    assert_eq!(attrs.len(), 6);
    assert!(matches!(attrs[0], PathAttr::OriginIncomplete));
    assert!(matches!(attrs[1], PathAttr::EmptyAsPath));
    assert!(matches!(attrs[2], PathAttr::LocalPref(10)));
    assert!(matches!(&attrs[3], PathAttr::Communities(c) if c == &vec![0x029a_029a]));
    assert!(matches!(attrs[4], PathAttr::NextHop(IpAddress::V4(0xc612_0001))));
    assert!(matches!(&attrs[5], PathAttr::MpWithdraws6(v, 2) if v == &vec![(3u128, 128u8)]));
    assert!(matches!(nlri_field(&out[0].nlri_updates, TransportMode::IPv4), Nlri::V4(v) if v == vec![(7u32, 32u8)]));
    assert!(matches!(nlri_field(&out[0].nlri_withdraws, TransportMode::IPv4), Nlri::Empty));
}

#[test]
fn session_rounds() {
    assert_eq!(plan_round(WaitEvent::Cancelled), RoundPlan::Stop);
    assert_eq!(plan_round(WaitEvent::HeaderFailed), RoundPlan::Stop);
    assert_eq!(plan_round(WaitEvent::Queued(None)), RoundPlan::Next);
    let ka = RoundPlan::Go { update_len: 0, kind: MessageKind::Keepalive, body_len: 0 };
    assert_eq!(plan_round(WaitEvent::TimedOut), ka);
    assert_eq!(plan_round(WaitEvent::QueueClosed), ka);
    assert_eq!(
        plan_round(WaitEvent::Queued(Some(40))),
        RoundPlan::Go { update_len: 40, kind: MessageKind::Keepalive, body_len: 0 }
    );
    assert_eq!(
        plan_round(WaitEvent::Header(MessageKind::Update, 23)),
        RoundPlan::Go { update_len: 0, kind: MessageKind::Update, body_len: 23 }
    );
    assert!(body_continues(BodyEvent::Read));
    assert!(!body_continues(BodyEvent::TimedOut));
    assert!(!body_continues(BodyEvent::Cancelled));
    assert!(!body_continues(BodyEvent::Failed));
    assert!(closes(on_message(MessageKind::Open)));
    assert!(closes(on_message(MessageKind::Notification)));
    assert!(!closes(on_message(MessageKind::Keepalive)));
    assert!(!closes(on_message(MessageKind::Update)));
}
