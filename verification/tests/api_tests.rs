use ban2bgp::api::{deadline, DeadlineError};
use ban2bgp::api::{
    add_request, dump_json_text, dump_text, form_params, get_url_params, handle_json_msg, remove_request,
    request_params, route_request, status_text, try_add_request, ApiError, ApiRoute, HandleNets, NetsAdd,
    UrlParams,
};
use ban2bgp::config::{IniFile, IniSection, SvcConfig};
use ban2bgp::net::{IpAddress, NetPrefix};
use ban2bgp::peers::{BgpPeerShell, BgpPeers, PeerState};
use std::collections::BTreeSet;

fn cfg(skip: Option<&str>, duration: Option<&str>) -> SvcConfig {
    let mut entries = Vec::new();
    if let Some(s) = skip {
        entries.push(("skiplist".to_string(), Some(s.to_string())));
    }
    if let Some(d) = duration {
        entries.push(("duration".to_string(), Some(d.to_string())));
    }
    let conf = IniFile { sections: vec![("main".to_string(), IniSection { entries })] };
    SvcConfig::from_inifile(&conf).ok().unwrap()
}

fn params(q: &str) -> UrlParams {
    get_url_params(Some(q))
}

fn set4(v: &[(u32, u8)]) -> BTreeSet<(u32, u8)> {
    v.iter().cloned().collect()
}

#[test]
fn routes_of_paths() {
    assert!(matches!(route_request("/api/ping", "./r"), ApiRoute::Ping));
    assert!(matches!(route_request("/api/status", "./r"), ApiRoute::Status));
    assert!(matches!(route_request("/api/dumprib", "./r"), ApiRoute::DumpRib));
    assert!(matches!(route_request("/api/dumpribjson", "./r"), ApiRoute::DumpRibJson));
    assert!(matches!(route_request("/api/form_json", "./r"), ApiRoute::FormJson));
    assert!(matches!(route_request("/api/json", "./r"), ApiRoute::Json));
    assert!(matches!(route_request("/api/add", "./r"), ApiRoute::Add));
    assert!(matches!(route_request("/api/remove/extra", "./r"), ApiRoute::Remove));
    assert!(matches!(route_request("/api/nope", "./r"), ApiRoute::NotFound));
    match route_request("/", "./contrib/") {
        ApiRoute::File(f) => assert_eq!(f, "./contrib//index.html"),
        _ => panic!("expected a file"),
    }
    match route_request("/api/", "root") {
        ApiRoute::File(f) => assert_eq!(f, "root/api/"),
        _ => panic!("expected a file"),
    }
    match route_request("/x.js", "root") {
        ApiRoute::File(f) => assert_eq!(f, "root/x.js"),
        _ => panic!("expected a file"),
    }
    assert!(matches!(route_request("/api/\u{e9}", "root"), ApiRoute::NotFound));
    match route_request("/\u{e9}.html", "root") {
        ApiRoute::File(f) => assert_eq!(f, "root/\u{e9}.html"),
        _ => panic!("expected a file"),
    }
}

#[test]
fn url_params_decode_and_last_wins() {
    let p = params("net=10.0.0.1&dur=60&net=10.0.0.2&x=a%20b+c");
    assert_eq!(p.get("net").map(|s| s.as_str()), Some("10.0.0.2"));
    assert_eq!(p.get("x").map(|s| s.as_str()), Some("a b c"));
    assert_eq!(p.get("nope"), None);
    assert!(get_url_params(None).is_empty());
    assert!(form_params(b"").is_empty());
}

#[test]
fn request_params_prefer_the_body() {
    let p = request_params(b"net=1.1.1.1", Some("net=2.2.2.2"));
    assert_eq!(p.get("net").map(|s| s.as_str()), Some("1.1.1.1"));
    let q = request_params(b"", Some("net=2.2.2.2"));
    assert_eq!(q.get("net").map(|s| s.as_str()), Some("2.2.2.2"));
    let r = request_params(b"", None);
    assert!(r.is_empty());
}

#[test]
fn add_request_readme_example() {
    // /api/add?net=10.2.2.2&dur=3600
    let c = cfg(None, None);
    let r = add_request(&params("net=10.2.2.2&dur=3600"), &c).ok().unwrap();
    assert_eq!(r.duration, 3600);
    assert_eq!(r.update.updates4, set4(&[(0x0a02_0202, 32)]));
    assert!(r.update.updates6.is_empty() && r.update.withdraws4.is_empty());
}

#[test]
fn add_request_durations() {
    let c = cfg(None, Some("90"));
    assert_eq!(add_request(&params("net=1.2.3.4"), &c).ok().unwrap().duration, 90);
    assert_eq!(add_request(&params("net=1.2.3.4&dur=0"), &c).ok().unwrap().duration, 90);
    assert_eq!(add_request(&params("net=1.2.3.4&duration=5&dur=7"), &c).ok().unwrap().duration, 5);
    // an unreadable `duration` does not fall back to `dur`
    assert_eq!(add_request(&params("net=1.2.3.4&duration=x&dur=7"), &c).ok().unwrap().duration, 90);
    let v6 = add_request(&params("net=2001:db8::1"), &c).ok().unwrap();
    assert_eq!(v6.update.updates6.len(), 1);
    // a MAC prefix changes nothing
    let mac = add_request(&params("net=bad"), &c).ok().unwrap();
    assert!(mac.update.is_empty());
}

#[test]
fn add_request_errors() {
    let c = cfg(None, None);
    assert_eq!(add_request(&params("dur=5"), &c).err(), Some(ApiError::MissingNet));
    assert_eq!(add_request(&params("net=qqq"), &c).err(), Some(ApiError::InvalidNet));
    assert_eq!(ApiError::MissingNet.message(), "missing net");
    assert_eq!(ApiError::InvalidNet.message(), "invalid net");
}

#[test]
fn add_request_skips_the_skip_list() {
    let c = cfg(Some("10.0.0.0/24"), None);
    let r = add_request(&params("net=10.0.0.7"), &c).ok().unwrap();
    assert!(r.update.is_empty());
    let s = add_request(&params("net=10.0.1.7"), &c).ok().unwrap();
    assert_eq!(s.update.updates4.len(), 1);
    // a prefix longer than 32 bits would make the skip-list scan panic
    assert!(try_add_request(&params("net=10.0.0.0/40"), &c).is_none());
    assert!(try_add_request(&params("net=10.0.0.0/20"), &c).is_some());
}

#[test]
fn remove_request_withdraws() {
    let r = remove_request(&params("net=10.0.0.0/8")).ok().unwrap();
    assert_eq!(r.withdraws4, set4(&[(0x0a00_0000, 8)]));
    assert!(r.updates4.is_empty());
    assert_eq!(remove_request(&params("")).err(), Some(ApiError::MissingNet));
}

#[test]
fn json_request() {
    // {"add":{"duration":86400,"nets":["33.3.3.3"]},"remove":["11.1.1.1","22.2.2.2"]}
    let c = cfg(Some("22.2.2.0/24"), None);
    let req = HandleNets {
        add: Some(NetsAdd { duration: Some(86400), nets: vec![NetPrefix::V4(0x2103_0303, 32)] }),
        remove: Some(vec![NetPrefix::V4(0x0b01_0101, 32), NetPrefix::V4(0x1602_0202, 32)]),
    };
    let r = handle_json_msg(&req, &c);
    assert_eq!(r.duration, 86400);
    assert_eq!(r.update.updates4, set4(&[(0x2103_0303, 32)]));
    assert_eq!(r.update.withdraws4, set4(&[(0x0b01_0101, 32)]));
    let empty = handle_json_msg(&HandleNets { add: None, remove: None }, &c);
    assert!(empty.update.is_empty());
    assert_eq!(empty.duration, 3600);
}

#[test]
fn status_page() {
    let mut peers: BgpPeers<()> = BgpPeers::new();
    assert_eq!(status_text(&peers, 0, 0), "{'peers':{},'routes':{'ipv4':0,'ipv6':0}}");
    peers.addpeershell(IpAddress::V4(0x0a00_0001), BgpPeerShell::new(()));
    peers.addpeershell(IpAddress::V6(1), BgpPeerShell::new(()));
    peers.set_peer_state(&IpAddress::V6(1), PeerState::InSync);
    assert_eq!(
        status_text(&peers, 12, 3),
        "{'peers':{'10.0.0.1':'New','::1':'InSync'},'routes':{'ipv4':12,'ipv6':3}}"
    );
}

#[test]
fn dumps() {
    let v4 = vec![("1.1.1.1/32".to_string(), "t1".to_string()), ("2.2.2.0/24".to_string(), "t2".to_string())];
    let v6 = vec![("::1/128".to_string(), "t3".to_string())];
    assert_eq!(dump_text(&v4, &v6), "1.1.1.1/32\tt1\n2.2.2.0/24\tt2\n::1/128\tt3\n");
    assert_eq!(dump_json_text(&v4, &v6), "{\"1.1.1.1/32\":\"t1\",\n\"2.2.2.0/24\":\"t2\",\n\"::1/128\":\"t3\",\n}");
    assert_eq!(dump_json_text(&vec![], &v6), "{\"::1/128\":\"t3\",\n}");
    assert_eq!(dump_json_text(&vec![], &vec![]), "{}");
}

#[test]
fn deadlines() {
    assert_eq!(deadline(1_000, 3600), Ok(3_601_000));
    assert_eq!(deadline(0, -2), Ok(-2000));
    assert_eq!(deadline(i64::MAX, 1), Err(DeadlineError::DateOutOfRange));
    assert_eq!(deadline(0, 9_223_372_036_854_776), Err(DeadlineError::SecondsOutOfBounds));
    assert_eq!(deadline(0, -9_223_372_036_854_776), Err(DeadlineError::SecondsOutOfBounds));
    // the last millisecond of year 262142, and one past it
    assert_eq!(deadline(8_210_266_876_799_999 - 10_000_000_000_000, 10_000_000_000), Ok(8_210_266_876_799_999));
    assert_eq!(deadline(8_210_266_876_800_000 - 10_000_000_000_000, 10_000_000_000), Err(DeadlineError::DateOutOfRange));
    assert_eq!(deadline(0, 9_000_000_000_000), Err(DeadlineError::DateOutOfRange));
    assert_eq!(deadline(-8_334_601_228_800_000, 0), Ok(-8_334_601_228_800_000));
    assert_eq!(deadline(-8_334_601_228_800_000, -1), Err(DeadlineError::DateOutOfRange));
}

#[test]
fn deadline_range_is_chronos() {
    assert_eq!(chrono::NaiveDateTime::MAX.and_utc().timestamp_millis(), 8_210_266_876_799_999);
    assert_eq!(chrono::NaiveDateTime::MIN.and_utc().timestamp_millis(), -8_334_601_228_800_000);
}
