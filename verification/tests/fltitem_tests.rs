use ban2bgp::fltitem::{FilterItem, FilterPref, FilterUpdate};
use ban2bgp::net::NetPrefix;

#[test]
fn filter_items_parse() {
    let a = FilterItem::from_str("src 10.0.0.0/8").unwrap();
    assert_eq!(a, FilterItem { pref: FilterPref::Src, net: NetPrefix::V4(0x0a00_0000, 8) });
    let b = FilterItem::from_str("  dst   2001:db8::/32 ").unwrap();
    assert_eq!(b.pref, FilterPref::Dst);
    assert_eq!(b.net, NetPrefix::V6(0x2001_0db8 << 96, 32));
    let c = FilterItem::from_str("1.2.3.4").unwrap();
    assert_eq!(c, FilterItem { pref: FilterPref::Both, net: NetPrefix::V4(0x0102_0304, 32) });
    let d = FilterItem::from_str("both::1").unwrap();
    assert_eq!(d.net, NetPrefix::V6(1, 128));
    assert_eq!(FilterItem::from_str("src junk"), Err("Invalid FilterItem"));
    assert_eq!(FilterPref::Both.name(), "both");
    assert_eq!(a.to_string(), "src 10.0.0.0/8");
    assert_eq!(c.to_string(), "both 1.2.3.4/32");
    assert_eq!(FilterItem::from_str(b.to_string().as_str()), Ok(b));
}

#[test]
fn filter_updates() {
    let mut u = FilterUpdate::new();
    FilterItem { pref: FilterPref::Both, net: NetPrefix::V4(5, 32) }.update_to(&mut u);
    FilterItem { pref: FilterPref::Dst, net: NetPrefix::V6(6, 128) }.withdraw_to(&mut u);
    assert_eq!(u.updates4.iter().cloned().collect::<Vec<_>>(), vec![(0, 5, 32), (1, 5, 32)]);
    assert_eq!(u.withdraws6.iter().cloned().collect::<Vec<_>>(), vec![(1, 6, 128)]);
    assert!(u.withdraws4.is_empty() && u.updates6.is_empty());
}

#[test]
fn filter_items_read_back_as_written() {
    let items = [
        FilterItem { pref: FilterPref::Src, net: NetPrefix::V4(0xc0a8_0100, 24) },
        FilterItem { pref: FilterPref::Dst, net: NetPrefix::V4(0, 0) },
        FilterItem { pref: FilterPref::Both, net: NetPrefix::V4(0xffff_ffff, 200) },
        FilterItem { pref: FilterPref::Both, net: NetPrefix::V6(0xdb80 << 112, 16) },
        FilterItem { pref: FilterPref::Dst, net: NetPrefix::V6(0xffff_0102_0304, 128) },
        FilterItem { pref: FilterPref::Src, net: NetPrefix::V6(0, 0) },
    ];
    for item in items.iter() {
        assert_eq!(FilterItem::from_str(item.to_string().as_str()), Ok(*item));
    }
    assert_eq!(items[4].to_string(), "dst ::ffff:1.2.3.4/128");
}
