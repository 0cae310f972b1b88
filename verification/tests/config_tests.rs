use ban2bgp::config::{duration_in_range, ini_text_panics, read_ini, ConfigPeer, ErrorConfig, IniFile, IniSection, PeerMode, SvcConfig};
use ban2bgp::net::{IpAddress, NetPrefix, SocketAddress};

fn section(entries: &[(&str, Option<&str>)]) -> IniSection {
    IniSection {
        entries: entries
            .iter()
            .map(|(k, v)| (k.to_string(), v.map(|x| x.to_string())))
            .collect(),
    }
}

fn ini(sections: Vec<(&str, IniSection)>) -> IniFile {
    IniFile { sections: sections.into_iter().map(|(n, s)| (n.to_string(), s)).collect() }
}

fn static_msg(e: &ErrorConfig) -> &str {
    match e {
        ErrorConfig::Static(s) => s,
        ErrorConfig::Str(_) => panic!("expected a fixed message"),
    }
}

#[test]
fn peer_mode_names() {
    assert_eq!(PeerMode::from_str("blackhole").ok(), Some(PeerMode::Blackhole));
    assert_eq!(PeerMode::from_str("flowsource").ok(), Some(PeerMode::FlowSource));
    let e = PeerMode::from_str("Blackhole").err().unwrap();
    assert_eq!(static_msg(&e), "invalid peer mode");
}

#[test]
fn error_config_constructors() {
    assert_eq!(ErrorConfig::from_str("x").text(), "x");
    assert_eq!(ErrorConfig::from_string("y".to_string()).text(), "y");
    let e: ErrorConfig = "z".into();
    assert_eq!(static_msg(&e), "z");
}

#[test]
fn from_section_reads_a_peer() {
    let p = ConfigPeer::from_section(&section(&[("peer", Some("10.0.0.1")), ("as", Some("65535"))])).unwrap();
    assert_eq!(p.peeraddr, IpAddress::V4(0x0a00_0001));
    assert_eq!(p.peeras, 65535);
    assert_eq!(p.localas, 65535);
    assert_eq!(p.mode, PeerMode::Blackhole);
    let q = ConfigPeer::from_section(&section(&[
        ("peer", Some("2001:db8::1")),
        ("as", Some("1")),
        ("localas", Some("2")),
        ("mode", Some("flowsource")),
    ]))
    .unwrap();
    assert_eq!(q.peeraddr, IpAddress::V6(0x2001_0db8_0000_0000_0000_0000_0000_0001));
    assert_eq!(q.localas, 2);
    assert_eq!(q.mode, PeerMode::FlowSource);
    // a mode key without value keeps the default
    let r = ConfigPeer::from_section(&section(&[("peer", Some("1.2.3.4")), ("as", Some("1")), ("mode", None)])).unwrap();
    assert_eq!(r.mode, PeerMode::Blackhole);
}

#[test]
fn from_section_errors() {
    let cases: Vec<(IniSection, &str)> = vec![
        (section(&[("as", Some("1"))]), "missing peer IP address"),
        (section(&[("peer", Some("1.2.3.4"))]), "missing peer as number"),
        (section(&[("peer", None), ("as", Some("1"))]), "missing peer IP address"),
        (section(&[("peer", Some("1.2.3")), ("as", Some("1"))]), "invalid peer IP address"),
        (section(&[("peer", Some("1.2.3.4")), ("as", None)]), "missing peer as number"),
        (section(&[("peer", Some("1.2.3.4")), ("as", Some("AS1"))]), "invalid peer as number"),
        (section(&[("peer", Some("1.2.3.4")), ("as", Some("1")), ("localas", Some("x"))]), "invalid local as number"),
        (section(&[("peer", Some("1.2.3.4")), ("as", Some("1")), ("mode", Some("x"))]), "invalid peer mode"),
    ];
    for (sec, msg) in cases {
        let e = ConfigPeer::from_section(&sec).err().unwrap();
        assert_eq!(static_msg(&e), msg);
    }
}

#[test]
fn from_ini_needs_main() {
    let e = SvcConfig::from_inifile(&ini(vec![("other", section(&[]))])).err().unwrap();
    assert_eq!(static_msg(&e), "Missing section 'main' in ini file");
}

#[test]
fn from_ini_defaults() {
    let c = SvcConfig::from_inifile(&ini(vec![("main", section(&[]))])).ok().unwrap();
    assert_eq!(c.routerid, 0x0101_0101);
    assert_eq!(c.nexthop4, 0x0101_0101);
    assert_eq!(c.nexthop6, 0xffff_0000_0000_0000_0000_0000_0101_0101);
    assert_eq!(c.listenat, vec![SocketAddress { ip: IpAddress::V4(0), port: 179, flowinfo: 0, scope_id: 0 }]);
    assert_eq!(c.httplisten, SocketAddress { ip: IpAddress::V4(0), port: 8080, flowinfo: 0, scope_id: 0 });
    assert_eq!(c.default_duration, 3600);
    assert_eq!(c.http_files_root, "./contrib/");
    assert!(c.activepeers.is_empty());
    assert!(c.skiplist.is_empty());
    assert!(c.communities.is_empty());
}

#[test]
fn from_ini_readme_example() {
    let main = section(&[
        ("httplisten", Some("0.0.0.0:8080")),
        ("listen", Some("0.0.0.0:1179")),
        ("nexthop", Some("198.18.0.1")),
        ("communities", Some("666:666")),
        ("peers", Some("10.0.0.1 AS65535")),
        ("duration", Some("3600")),
        ("skiplist", Some("10.0.0.0/24")),
    ]);
    let c = SvcConfig::from_inifile(&ini(vec![("main", main)])).ok().unwrap();
    assert_eq!(c.listenat, vec![SocketAddress { ip: IpAddress::V4(0), port: 1179, flowinfo: 0, scope_id: 0 }]);
    assert_eq!(c.nexthop4, 0xc612_0001);
    assert_eq!(c.communities, vec![(666u32 << 16) | 666]);
    assert_eq!(
        c.activepeers,
        vec![ConfigPeer { peeraddr: IpAddress::V4(0x0a00_0001), peeras: 65535, localas: 65535, mode: PeerMode::Blackhole }]
    );
    assert_eq!(c.skiplist, vec![NetPrefix::V4(0x0a00_0000, 24)]);
    assert_eq!(c.default_duration, 3600);
}

#[test]
fn from_ini_peer_sections_and_bad_values() {
    let main = section(&[
        ("peers", Some("r1 r2,missing, 192.0.2.1 AS7 ")),
        ("routerid", Some("nonsense")),
        ("duration", Some("soon")),
        ("listen", Some("1.2.3.4:5, junk [::1]:179")),
        ("http_files_root", Some("/srv/www")),
        ("communities", None),
    ]);
    let r1 = section(&[("peer", Some("10.0.0.1")), ("as", Some("1"))]);
    let r2 = section(&[("peer", Some("bad")), ("as", Some("2"))]);
    let c = SvcConfig::from_inifile(&ini(vec![("main", main), ("r1", r1), ("r2", r2)])).ok().unwrap();
    assert_eq!(c.routerid, 0x0101_0101);
    assert_eq!(c.default_duration, 3600);
    assert_eq!(c.http_files_root, "/srv/www");
    assert!(c.communities.is_empty());
    assert_eq!(c.listenat.len(), 2);
    assert_eq!(c.listenat[1], SocketAddress { ip: IpAddress::V6(1), port: 179, flowinfo: 0, scope_id: 0 });
    assert_eq!(c.activepeers.len(), 2);
    assert_eq!(c.activepeers[0].peeraddr, IpAddress::V4(0x0a00_0001));
    assert_eq!(c.activepeers[1], ConfigPeer { peeraddr: IpAddress::V4(0xc000_0201), peeras: 7, localas: 7, mode: PeerMode::Blackhole });
}

#[test]
fn skiplist_membership() {
    let main = section(&[("skiplist", Some("10.0.0.0/8,2001:db8::/32"))]);
    let c = SvcConfig::from_inifile(&ini(vec![("main", main)])).ok().unwrap();
    assert!(c.in_skiplist(&NetPrefix::V4(0x0a01_0203, 32)));
    assert!(!c.in_skiplist(&NetPrefix::V4(0x0b01_0203, 32)));
    assert!(c.in_skiplist(&NetPrefix::V6(0x2001_0db8_0000_0000_0000_0000_0000_0001, 128)));
    assert!(!c.in_skiplist(&NetPrefix::Mac(1, 48)));
    // a prefix longer than 32 bits would make the scan panic
    assert!(c.skiplist_scan_panics(&NetPrefix::V4(0x0a00_0000, 40)));
    assert!(!c.skiplist_scan_panics(&NetPrefix::V4(0x0a00_0000, 24)));
}

#[test]
fn readme_configuration_text() {
    let text = "[main]\nhttplisten=0.0.0.0:8080\nlisten=0.0.0.0:1179\nnexthop=198.18.0.1\n\
                communities=666:666\npeers=10.0.0.1 AS65535\nduration=3600\nskiplist=10.0.0.0/24\n";
    let f = read_ini(text).ok().unwrap();
    let main = f.section("main").unwrap();
    assert_eq!(main.value("duration"), Some(&"3600".to_string()));
    assert!(duration_in_range(&f));
    let c = SvcConfig::from_inifile(&f).ok().unwrap();
    assert_eq!(c.httplisten, SocketAddress { ip: IpAddress::V4(0), port: 8080, flowinfo: 0, scope_id: 0 });
    assert_eq!(c.nexthop4, 0xc612_0001);
    assert_eq!(c.default_duration, 3600);
    assert_eq!(c.activepeers.len(), 1);
}

#[test]
fn ini_parse_errors_and_duration_bounds() {
    match read_ini("[main\nx=1\n") {
        Err(ErrorConfig::Str(m)) => assert!(m.contains("closing bracket")),
        _ => panic!("expected a parse error"),
    }
    let f = read_ini("[main]\nduration=9223372036854775\n").ok().unwrap();
    assert!(duration_in_range(&f));
    let g = read_ini("[main]\nduration=9223372036854776\n").ok().unwrap();
    assert!(!duration_in_range(&g));
}

#[test]
fn error_config_text() {
    assert_eq!(ErrorConfig::from_str("missing peer as number").to_string(), "ErrorConfig: missing peer as number");
    assert_eq!(ErrorConfig::from_string("x".to_string()).to_string(), "ErrorConfig: x");
}

#[test]
fn ini_texts_that_panic() {
    assert!(ini_text_panics("a]b["));
    assert!(ini_text_panics("[main]\nx=1\n  ]x[ ; note\n"));
    assert!(!ini_text_panics("[main]\nx=1\n"));
    // a comment hides the brackets
    assert!(!ini_text_panics("; a]b[\n"));
    assert!(!ini_text_panics("x=1 # a]b["));
    // an earlier error stops the parser first
    assert!(!ini_text_panics("[main\na]b[\n"));
    assert!(!ini_text_panics(" =1\na]b[\n"));
}
