use ban2bgp::rib::{rib_entries, BgpRib, BgpRibUpdate};
use std::collections::BTreeSet;

fn set4(v: &[(u32, u8)]) -> BTreeSet<(u32, u8)> {
    v.iter().cloned().collect()
}

fn set6(v: &[(u128, u8)]) -> BTreeSet<(u128, u8)> {
    v.iter().cloned().collect()
}

#[test]
fn new_update_is_empty() {
    let u = BgpRibUpdate::new();
    assert!(u.is_empty());
    let mut v = BgpRibUpdate::new();
    v.withdraws6.insert((1, 128));
    assert!(!v.is_empty());
}

#[test]
fn change_announces_only_new_prefixes() {
    let mut rib = BgpRib::new();
    let mut u = BgpRibUpdate::new();
    u.updates4 = set4(&[(0x0a00_0001, 32), (0x0a00_0002, 32)]);
    let c = rib.change(u, 1000);
    assert_eq!(c.updates4, set4(&[(0x0a00_0001, 32), (0x0a00_0002, 32)]));
    assert!(c.withdraws4.is_empty());
    assert_eq!(rib.ipv4.get(&(0x0a00_0001, 32)), Some(&1000));
    let mut u2 = BgpRibUpdate::new();
    u2.updates4 = set4(&[(0x0a00_0001, 32), (0x0a00_0003, 32)]);
    let c2 = rib.change(u2, 2000);
    // only the prefix the table did not hold is reported, but both are renewed
    assert_eq!(c2.updates4, set4(&[(0x0a00_0003, 32)]));
    assert_eq!(rib.ipv4.get(&(0x0a00_0001, 32)), Some(&2000));
    assert_eq!(rib.ipv4.get(&(0x0a00_0002, 32)), Some(&1000));
}

#[test]
fn withdrawing_a_subnet_removes_what_it_covers() {
    let mut rib = BgpRib::new();
    let mut u = BgpRibUpdate::new();
    u.updates4 = set4(&[(0x0a01_0203, 32), (0x0a00_0000, 16), (0x0b00_0001, 32), (0x0a00_0000, 8)]);
    rib.change(u, 10);
    let mut w = BgpRibUpdate::new();
    w.withdraws4 = set4(&[(0x0a00_0000, 16)]);
    let c = rib.change(w, 20);
    // the /16 itself goes; the /8 at the same address sorts before it and stays;
    // 10.1.2.3 lies outside 10.0.0.0/16
    assert_eq!(c.withdraws4, set4(&[(0x0a00_0000, 16)]));
    assert_eq!(rib.ipv4.len(), 3);
    let mut w8 = BgpRibUpdate::new();
    w8.withdraws4 = set4(&[(0x0a00_0000, 8)]);
    let c8 = rib.change(w8, 30);
    assert_eq!(c8.withdraws4, set4(&[(0x0a00_0000, 8), (0x0a01_0203, 32)]));
    assert_eq!(rib.ipv4.keys().cloned().collect::<Vec<_>>(), vec![(0x0b00_0001, 32)]);
}

#[test]
fn add_then_remove_leaves_nothing() {
    let mut rib = BgpRib::new();
    let mut u = BgpRibUpdate::new();
    u.updates4 = set4(&[(0xc0a8_0101, 32)]);
    u.updates6 = set6(&[(0x2001_0db8 << 96, 48)]);
    rib.change(u, 5);
    let mut w = BgpRibUpdate::new();
    w.withdraws4 = set4(&[(0xc0a8_0101, 32)]);
    w.withdraws6 = set6(&[(0x2001_0db8 << 96, 48)]);
    let c = rib.change(w, 6);
    assert!(rib.ipv4.is_empty());
    assert!(rib.ipv6.is_empty());
    assert_eq!(c.withdraws6, set6(&[(0x2001_0db8 << 96, 48)]));
}

#[test]
fn ipv6_last_address_of_a_block_is_not_withdrawn() {
    let mut rib = BgpRib::new();
    let mut u = BgpRibUpdate::new();
    u.updates6 = set6(&[(0xffff, 112)]);
    rib.change(u, 5);
    let mut w = BgpRibUpdate::new();
    w.withdraws6 = set6(&[(0xffff, 112)]);
    let c = rib.change(w, 6);
    assert!(c.withdraws6.is_empty());
    assert_eq!(rib.ipv6.len(), 1);
}

#[test]
fn announce_wins_over_withdraw_in_one_update() {
    let mut rib = BgpRib::new();
    let mut u = BgpRibUpdate::new();
    u.updates4 = set4(&[(1, 32)]);
    rib.change(u, 5);
    let mut both = BgpRibUpdate::new();
    both.updates4 = set4(&[(1, 32)]);
    both.withdraws4 = set4(&[(1, 32)]);
    let c = rib.change(both, 9);
    assert_eq!(c.withdraws4, set4(&[(1, 32)]));
    assert!(c.updates4.is_empty());
    assert_eq!(rib.ipv4.get(&(1, 32)), Some(&9));
}

#[test]
fn empty_change_changes_nothing() {
    let mut rib = BgpRib::new();
    let mut u = BgpRibUpdate::new();
    u.updates4 = set4(&[(1, 32)]);
    rib.change(u, 5);
    let c = rib.change(BgpRibUpdate::new(), 99);
    assert!(c.is_empty());
    assert_eq!(rib.ipv4.get(&(1, 32)), Some(&5));
}

#[test]
fn expiry_removes_entries_before_now() {
    let mut rib = BgpRib::new();
    let mut u = BgpRibUpdate::new();
    u.updates4 = set4(&[(1, 32)]);
    rib.change(u, 100);
    let mut u2 = BgpRibUpdate::new();
    u2.updates4 = set4(&[(2, 32)]);
    u2.updates6 = set6(&[(3, 128)]);
    rib.change(u2, 200);
    let none = rib.check_expires(100);
    assert!(none.is_empty());
    let gone = rib.check_expires(150);
    assert_eq!(gone.withdraws4, set4(&[(1, 32)]));
    assert!(gone.withdraws6.is_empty());
    assert!(rib.ipv4.values().all(|t| *t >= 150));
    let rest = rib.check_expires(201);
    assert_eq!(rest.withdraws6, set6(&[(3, 128)]));
    assert!(rib.ipv4.is_empty() && rib.ipv6.is_empty());
}

#[test]
fn full_update_announces_everything() {
    let mut rib = BgpRib::new();
    let mut u = BgpRibUpdate::new();
    u.updates4 = set4(&[(1, 32), (2, 24)]);
    u.updates6 = set6(&[(3, 128)]);
    rib.change(u, 100);
    let f = rib.full_update();
    assert_eq!(f.updates4, set4(&[(1, 32), (2, 24)]));
    assert_eq!(f.updates6, set6(&[(3, 128)]));
    assert!(f.withdraws4.is_empty() && f.withdraws6.is_empty());
}

#[test]
fn withdrawals_the_table_accepts() {
    let mut rib = BgpRib::new();
    let mut u = BgpRibUpdate::new();
    u.withdraws4 = set4(&[(0, 0), (0x0a00_0000, 32)]);
    u.withdraws6 = set6(&[(1, 128)]);
    assert!(rib.accepts_withdrawals(&u));
    u.withdraws4 = set4(&[(0x0a00_0000, 33)]);
    assert!(!rib.accepts_withdrawals(&u));
    let mut a = BgpRibUpdate::new();
    a.updates6 = set6(&[(5, 128)]);
    rib.change(a, 100);
    let mut w = BgpRibUpdate::new();
    w.withdraws6 = set6(&[(0, 0)]);
    // a zero-length IPv6 withdrawal needs every entry below it
    assert!(!rib.accepts_withdrawals(&w));
    w.withdraws6 = set6(&[(6, 0)]);
    assert!(rib.accepts_withdrawals(&w));
    w.withdraws6 = set6(&[(1, 129)]);
    assert!(!rib.accepts_withdrawals(&w));
}

#[test]
fn entries_in_prefix_order() {
    let mut rib = BgpRib::new();
    let mut u = BgpRibUpdate::new();
    u.updates4 = set4(&[(0x0a00_0002, 32), (0x0a00_0001, 32), (0x0a00_0001, 24)]);
    u.updates6 = set6(&[(9, 128), (1, 128)]);
    rib.change(u, 77);
    let (e4, e6) = rib_entries(&rib);
    assert_eq!(e4, vec![((0x0a00_0001, 24), 77), ((0x0a00_0001, 32), 77), ((0x0a00_0002, 32), 77)]);
    assert_eq!(e6, vec![((1, 128), 77), ((9, 128), 77)]);
}
