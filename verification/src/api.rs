//! The decisions of the HTTP API: which endpoint a path names, what an
//! `add`, `remove` or JSON request asks of the route table, and the text of
//! the status page.

use vstd::prelude::*;
use std::collections::BTreeSet;
use vstd::string::StringSliceAdditionalSpecFns;
use crate::config::{SvcConfig, skiplist_panics, skipped};
use crate::net::{IpAddress, NetPrefix, NetV4, NetV6, spec_ip_text, spec_parse_net, std_ip_text, zb_parse_net};
use crate::peers::{BgpPeers, BgpPeerShell, PeerState};
use crate::rib::BgpRibUpdate;
use crate::text::{
    append_chars, append_str, chars_eq, chars_of, decimal, parse_u32, spec_decimal, spec_parse_u32,
    split, split_on, string_of,
};

verus! {

broadcast use vstd::std_specs::btree::group_btree_axioms, vstd::laws_cmp::group_laws_cmp;

/// The name/value pairs that `url::form_urlencoded::parse` decodes from
/// bytes, in order.
pub uninterp spec fn spec_form_pairs(b: Seq<u8>) -> Seq<(Seq<char>, Seq<char>)>;

/// Calls `url::form_urlencoded::parse` and collects the decoded pairs; its
/// result is a function of the bytes and is named `spec_form_pairs`. The
/// parser stops at once on empty input, so empty bytes give no pair.
#[verifier::external_body]
fn url_form_pairs(b: &[u8]) -> (r: Vec<(String, String)>)
    ensures
        b@.len() == 0 ==> r@.len() == 0,
        r@.len() == spec_form_pairs(b@).len(),
        forall|i: int|
            0 <= i < r@.len() ==> (#[trigger] r@[i]).0@ == spec_form_pairs(b@)[i].0 && r@[i].1@
                == spec_form_pairs(b@)[i].1,
{
    url::form_urlencoded::parse(b).into_owned().collect()
}

/// The parameters of a request: name/value pairs in the order they came.
pub struct UrlParams {
    pub pairs: Vec<(String, String)>,
}

/// The pairs of `params`, as characters.
pub open spec fn pairs_view(params: UrlParams) -> Seq<(Seq<char>, Seq<char>)> {
    params.pairs@.map_values(|p: (String, String)| (p.0@, p.1@))
}

/// The value of the last pair named `key`: collected into a map, a later
/// pair overrides an earlier one.
pub open spec fn last_value(pairs: Seq<(Seq<char>, Seq<char>)>, key: Seq<char>) -> Option<Seq<char>>
    decreases pairs.len(),
{
    if pairs.len() == 0 {
        None
    } else if pairs.last().0 == key {
        Some(pairs.last().1)
    } else {
        last_value(pairs.drop_last(), key)
    }
}

/// Decodes `application/x-www-form-urlencoded` bytes.
pub fn form_params(b: &[u8]) -> (r: UrlParams)
    ensures
        pairs_view(r) == spec_form_pairs(b@),
        b@.len() == 0 ==> r.pairs@.len() == 0,
{
    let pairs = url_form_pairs(b);
    let r = UrlParams { pairs };
    assert(pairs_view(r) =~= spec_form_pairs(b@));
    r
}

/// The parameters of a URL's query; none without a query.
pub fn get_url_params(query: Option<&str>) -> (r: UrlParams)
    ensures
        pairs_view(r) == match query {
            Some(q) => spec_form_pairs(q.spec_bytes()),
            None => Seq::empty(),
        },
{
    match query {
        Some(q) => form_params(q.as_bytes()),
        None => {
            let r = UrlParams { pairs: Vec::new() };
            assert(pairs_view(r) =~= Seq::<(Seq<char>, Seq<char>)>::empty());
            r
        },
    }
}

impl UrlParams {
    /// The value of the last parameter named `key`.
    pub fn get(&self, key: &str) -> (r: Option<&String>)
        ensures
            match r {
                Some(v) => last_value(pairs_view(*self), key@) == Some(v@),
                None => last_value(pairs_view(*self), key@) == None::<Seq<char>>,
            },
    {
        let ghost ps = pairs_view(*self);
        let k = chars_of(key);
        let mut i: usize = self.pairs.len();
        assert(ps.take(i as int) =~= ps);
        while i > 0
            invariant
                i <= self.pairs@.len(),
                ps == pairs_view(*self),
                k@ == key@,
                last_value(ps, key@) == last_value(ps.take(i as int), key@),
            decreases i,
        {
            assert(ps.take(i as int).drop_last() =~= ps.take(i - 1));
            let name = chars_of(self.pairs[i - 1].0.as_str());
            if chars_eq(&name, &k) {
                return Some(&self.pairs[i - 1].1);
            }
            i = i - 1;
        }
        None
    }

    /// Whether there is no parameter at all.
    pub fn is_empty(&self) -> (r: bool)
        ensures
            r == (self.pairs@.len() == 0),
    {
        self.pairs.len() == 0
    }
}

/// The parameters of a form request: those of the body, or, when the body
/// holds none, those of the URL's query.
pub fn request_params(body: &[u8], query: Option<&str>) -> (r: UrlParams)
    ensures
        pairs_view(r) == if spec_form_pairs(body@).len() > 0 {
            spec_form_pairs(body@)
        } else {
            match query {
                Some(q) => spec_form_pairs(q.spec_bytes()),
                None => Seq::empty(),
            }
        },
{
    let vls = form_params(body);
    if vls.is_empty() {
        match query {
            Some(q) => form_params(q.as_bytes()),
            None => {
                let empty: Vec<u8> = Vec::new();
                let r = form_params(empty.as_slice());
                assert(pairs_view(r) =~= Seq::<(Seq<char>, Seq<char>)>::empty());
                r
            },
        }
    } else {
        vls
    }
}

/// What a request path asks for.
#[derive(Debug)]
pub enum ApiRoute {
    Status,
    Ping,
    DumpRib,
    DumpRibJson,
    FormJson,
    Json,
    Add,
    Remove,
    NotFound,
    /// A file to send, by its path.
    File(String),
}

/// The number of bytes that encode `c` in UTF-8.
pub open spec fn utf8_width(c: char) -> int {
    if (c as int) < 0x80 {
        1
    } else if (c as int) < 0x800 {
        2
    } else if (c as int) < 0x10000 {
        3
    } else {
        4
    }
}

/// Whether byte offset `n` of the UTF-8 encoding of `s` falls inside a
/// character: slicing the text there panics.
pub open spec fn splits_char_at(s: Seq<char>, n: int) -> bool
    decreases s.len(),
{
    if s.len() == 0 || n <= 0 {
        false
    } else if n < utf8_width(s[0]) {
        true
    } else {
        splits_char_at(s.drop_first(), n - utf8_width(s[0]))
    }
}

/// Whether a path is an API path: longer than `/api/` and starting with it.
pub open spec fn is_api_path(p: Seq<char>) -> bool {
    p.len() > 5 && p.take(5) == seq!['/', 'a', 'p', 'i', '/']
}

/// The endpoint that the third `/`-separated piece of an API path names.
pub open spec fn spec_endpoint(cmd: Seq<char>) -> ApiRoute {
    if cmd == "status"@ {
        ApiRoute::Status
    } else if cmd == "ping"@ {
        ApiRoute::Ping
    } else if cmd == "dumprib"@ {
        ApiRoute::DumpRib
    } else if cmd == "dumpribjson"@ {
        ApiRoute::DumpRibJson
    } else if cmd == "form_json"@ {
        ApiRoute::FormJson
    } else if cmd == "json"@ {
        ApiRoute::Json
    } else if cmd == "add"@ {
        ApiRoute::Add
    } else if cmd == "remove"@ {
        ApiRoute::Remove
    } else {
        ApiRoute::NotFound
    }
}

/// The route of an API path.
pub open spec fn spec_api_route(p: Seq<char>) -> ApiRoute {
    let parts = split_on(p, seq!['/']);
    if parts.len() > 2 {
        spec_endpoint(parts[2])
    } else {
        ApiRoute::NotFound
    }
}

/// The file that a path other than an API path names: `/` names
/// `/index.html`; every path is taken under the root of the served files.
pub open spec fn spec_file_path(root: Seq<char>, p: Seq<char>) -> Seq<char> {
    root + if p == seq!['/'] { "/index.html"@ } else { p }
}

/// Which endpoint or file a request path asks for. A path whose fifth byte
/// ends inside a character is left out: taking its first five bytes panics.
pub fn route_request(path: &str, files_root: &str) -> (r: ApiRoute)
    requires
        !splits_char_at(path@, 5),
    ensures
        is_api_path(path@) ==> r == spec_api_route(path@),
        !is_api_path(path@) ==> (r matches ApiRoute::File(f) && f@ == spec_file_path(files_root@, path@)),
{
    let p = chars_of(path);
    let prefix = vec!['/', 'a', 'p', 'i', '/'];
    if p.len() > 5 && crate::text::starts_with(&p, &prefix) {
        assert(p@.take(5) =~= p@.subrange(0, 5));
        assert(prefix@ =~= seq!['/', 'a', 'p', 'i', '/']);
        let slash = vec!['/'];
        assert(slash@ =~= seq!['/']);
        let parts = split(&p, &slash);
        if parts.len() > 2 {
            let cmd = &parts[2];
            if chars_eq(cmd, &chars_of("status")) {
                ApiRoute::Status
            } else if chars_eq(cmd, &chars_of("ping")) {
                ApiRoute::Ping
            } else if chars_eq(cmd, &chars_of("dumprib")) {
                ApiRoute::DumpRib
            } else if chars_eq(cmd, &chars_of("dumpribjson")) {
                ApiRoute::DumpRibJson
            } else if chars_eq(cmd, &chars_of("form_json")) {
                ApiRoute::FormJson
            } else if chars_eq(cmd, &chars_of("json")) {
                ApiRoute::Json
            } else if chars_eq(cmd, &chars_of("add")) {
                ApiRoute::Add
            } else if chars_eq(cmd, &chars_of("remove")) {
                ApiRoute::Remove
            } else {
                ApiRoute::NotFound
            }
        } else {
            ApiRoute::NotFound
        }
    } else {
        proof {
            if p@.len() > 5 {
                assert(p@.take(5) =~= p@.subrange(0, 5));
                assert(prefix@ =~= seq!['/', 'a', 'p', 'i', '/']);
            }
        }
        let mut f = chars_of(files_root);
        let page = if p.len() == 1 && p[0] == '/' {
            assert(p@ =~= seq!['/']);
            chars_of("/index.html")
        } else {
            assert(p@ != seq!['/']);
            p
        };
        let ghost before = f@;
        let mut i: usize = 0;
        while i < page.len()
            invariant
                i <= page@.len(),
                f@ == before + page@.take(i as int),
            decreases page@.len() - i,
        {
            f.push(page[i]);
            i = i + 1;
            assert(f@ =~= before + page@.take(i as int));
        }
        assert(page@.take(i as int) =~= page@);
        ApiRoute::File(string_of(&f))
    }
}

/// The first instant chrono's dates hold (`NaiveDateTime::MIN`),
/// in milliseconds since the epoch.
pub open spec fn earliest_ms() -> int {
    -8_334_601_228_800_000
}

/// The last millisecond chrono's dates hold (`NaiveDateTime::MAX`).
pub open spec fn latest_ms() -> int {
    8_210_266_876_799_999
}

/// Whether `chrono::Duration::seconds` accepts a number of seconds: at most
/// `i64::MAX` milliseconds either way.
pub open spec fn seconds_in_range(secs: i64) -> bool {
    -9_223_372_036_854_775 <= secs <= 9_223_372_036_854_775
}

/// Why the instant a number of seconds away cannot be had.
#[derive(Clone, Copy, Debug, PartialEq, Eq, Structural)]
pub enum DeadlineError {
    /// `chrono::Duration::seconds` refuses the number of seconds.
    SecondsOutOfBounds,
    /// The instant falls outside chrono's dates.
    DateOutOfRange,
}

/// The instant `secs` seconds after `now` (both in milliseconds since the
/// epoch, `secs` in seconds), as `now + chrono::Duration::seconds(secs)`
/// has it; the error says which of the two steps refuses.
pub fn deadline(now: i64, secs: i64) -> (r: Result<i64, DeadlineError>)
    ensures
        !seconds_in_range(secs) ==> r == Err::<i64, DeadlineError>(DeadlineError::SecondsOutOfBounds),
        seconds_in_range(secs) ==> if earliest_ms() <= now + secs * 1000 <= latest_ms() {
            r == Ok::<i64, DeadlineError>((now + secs * 1000) as i64)
        } else {
            r == Err::<i64, DeadlineError>(DeadlineError::DateOutOfRange)
        },
{
    if secs < -9_223_372_036_854_775 || secs > 9_223_372_036_854_775 {
        return Err(DeadlineError::SecondsOutOfBounds);
    }
    let t: i128 = (now as i128) + (secs as i128) * 1000;
    if -8_334_601_228_800_000i128 <= t && t <= 8_210_266_876_799_999i128 {
        Ok(t as i64)
    } else {
        Err(DeadlineError::DateOutOfRange)
    }
}

/// Why an `add` or `remove` request cannot be served.
#[derive(Clone, Copy, Debug, PartialEq, Eq, Structural)]
pub enum ApiError {
    MissingNet,
    InvalidNet,
}

impl ApiError {
    /// The error's message.
    pub fn message(&self) -> (r: &'static str)
        ensures
            r@ == match *self {
                ApiError::MissingNet => "missing net"@,
                ApiError::InvalidNet => "invalid net"@,
            },
    {
        match self {
            ApiError::MissingNet => "missing net",
            ApiError::InvalidNet => "invalid net",
        }
    }
}

/// A change of the route table that a request asks for: the update, and how
/// long (seconds) its announcements are to last.
pub struct RouteRequest {
    pub update: BgpRibUpdate,
    pub duration: i64,
}

/// The lifetime that the `duration` (else `dur`) parameter asks for; 0 when
/// there is none or it does not parse.
pub open spec fn requested_duration(ps: Seq<(Seq<char>, Seq<char>)>) -> u32 {
    let v = match last_value(ps, "duration"@) {
        Some(v) => Some(v),
        None => last_value(ps, "dur"@),
    };
    match v {
        Some(s) => match spec_parse_u32(s) {
            Some(d) => d,
            None => 0,
        },
        None => 0,
    }
}

/// A lifetime of 0 means the configured default.
pub open spec fn lifetime(dur: u32, default: i64) -> i64 {
    if dur == 0 {
        default
    } else {
        dur as i64
    }
}

/// The IPv4 prefix of `n`, as a set.
pub open spec fn v4_of(n: NetPrefix) -> Set<NetV4> {
    match n {
        NetPrefix::V4(a, l) => set![(a, l)],
        _ => Set::empty(),
    }
}

/// The IPv6 prefix of `n`, as a set.
pub open spec fn v6_of(n: NetPrefix) -> Set<NetV6> {
    match n {
        NetPrefix::V6(a, l) => set![(a, l)],
        _ => Set::empty(),
    }
}

/// Law: a route lasts the duration a request asks for, whatever it is
/// (longer or shorter than the configured default); only a request that
/// asks for none gets the default.
pub proof fn law_requested_lifetime(dur: u32, default: i64)
    ensures
        dur != 0 ==> lifetime(dur, default) == dur as i64,
        dur == 0 ==> lifetime(dur, default) == default,
        forall|d2: i64| dur != 0 ==> lifetime(dur, default) == lifetime(dur, d2),
{
}

/// The net that an `add` or `remove` request names, when it can be read.
pub open spec fn requested_net(ps: Seq<(Seq<char>, Seq<char>)>) -> Result<NetPrefix, ApiError> {
    match last_value(ps, "net"@) {
        None => Err(ApiError::MissingNet),
        Some(v) => match spec_parse_net(v) {
            None => Err(ApiError::InvalidNet),
            Some(n) => Ok(n),
        },
    }
}

/// Reads the `net` parameter.
fn read_net(params: &UrlParams) -> (r: Result<NetPrefix, ApiError>)
    ensures
        r == requested_net(pairs_view(*params)),
{
    match params.get("net") {
        None => Err(ApiError::MissingNet),
        Some(v) => match zb_parse_net(v.as_str()) {
            None => Err(ApiError::InvalidNet),
            Some(n) => Ok(n),
        },
    }
}

/// An update that announces (`withdraw` false) or withdraws `n`; a MAC
/// prefix changes nothing.
fn single_update(n: NetPrefix, withdraw: bool) -> (r: BgpRibUpdate)
    ensures
        r.updates4@ == if withdraw { Set::empty() } else { v4_of(n) },
        r.updates6@ == if withdraw { Set::empty() } else { v6_of(n) },
        r.withdraws4@ == if withdraw { v4_of(n) } else { Set::empty() },
        r.withdraws6@ == if withdraw { v6_of(n) } else { Set::empty() },
{
    let mut upd = BgpRibUpdate::new();
    match n {
        NetPrefix::V4(a, l) => {
            if withdraw {
                upd.withdraws4.insert((a, l));
            } else {
                upd.updates4.insert((a, l));
            }
        },
        NetPrefix::V6(a, l) => {
            if withdraw {
                upd.withdraws6.insert((a, l));
            } else {
                upd.updates6.insert((a, l));
            }
        },
        NetPrefix::Mac(..) => {},
    }
    assert(upd.updates4@ =~= if withdraw { Set::empty() } else { v4_of(n) });
    assert(upd.updates6@ =~= if withdraw { Set::empty() } else { v6_of(n) });
    assert(upd.withdraws4@ =~= if withdraw { v4_of(n) } else { Set::empty() });
    assert(upd.withdraws6@ =~= if withdraw { v6_of(n) } else { Set::empty() });
    upd
}

/// Reads the `duration` (else `dur`) parameter.
fn read_duration(params: &UrlParams) -> (r: u32)
    ensures
        r == requested_duration(pairs_view(*params)),
{
    let v = match params.get("duration") {
        Some(v) => Some(v),
        None => params.get("dur"),
    };
    match v {
        Some(s) => match parse_u32(s.as_str()) {
            Some(d) => d,
            None => 0,
        },
        None => 0,
    }
}

/// The `add` endpoint: announces the prefix of the `net` parameter for the
/// `duration` (or `dur`) parameter's seconds, the configured default when
/// that is 0 or missing. A prefix within the skip list is not announced.
pub fn add_request(params: &UrlParams, cfg: &SvcConfig) -> (r: Result<RouteRequest, ApiError>)
    requires
        requested_net(pairs_view(*params)) matches Ok(n) ==> !skiplist_panics(cfg.skiplist@, n),
    ensures
        match requested_net(pairs_view(*params)) {
            Err(e) => r matches Err(x) && x == e,
            Ok(n) => r matches Ok(q) && {
                &&& q.duration == lifetime(requested_duration(pairs_view(*params)), cfg.default_duration)
                &&& requested_duration(pairs_view(*params)) != 0 ==> q.duration == requested_duration(
                    pairs_view(*params),
                ) as i64
                &&& requested_duration(pairs_view(*params)) == 0 ==> q.duration == cfg.default_duration
                &&& q.update.updates4@ == if skipped(cfg.skiplist@, n) { Set::empty() } else { v4_of(n) }
                &&& q.update.updates6@ == if skipped(cfg.skiplist@, n) { Set::empty() } else { v6_of(n) }
                &&& q.update.withdraws4@.is_empty()
                &&& q.update.withdraws6@.is_empty()
            },
        },
{
    let net = match read_net(params) {
        Ok(n) => n,
        Err(e) => return Err(e),
    };
    let dur = read_duration(params);
    let duration: i64 = if dur == 0 { cfg.default_duration } else { dur as i64 };
    let update = if cfg.in_skiplist(&net) { BgpRibUpdate::new() } else { single_update(net, false) };
    Ok(RouteRequest { update, duration })
}

/// The `add` endpoint for any parameters: `None` where the prefix of the
/// `net` parameter makes the skip-list scan panic, else what `add_request`
/// gives.
pub fn try_add_request(params: &UrlParams, cfg: &SvcConfig) -> (r: Option<Result<RouteRequest, ApiError>>)
    ensures
        r is None <==> (requested_net(pairs_view(*params)) matches Ok(n) && skiplist_panics(
            cfg.skiplist@,
            n,
        )),
        r matches Some(x) ==> match requested_net(pairs_view(*params)) {
            Err(e) => x matches Err(y) && y == e,
            Ok(n) => x matches Ok(q) && {
                &&& q.duration == lifetime(requested_duration(pairs_view(*params)), cfg.default_duration)
                &&& requested_duration(pairs_view(*params)) != 0 ==> q.duration == requested_duration(
                    pairs_view(*params),
                ) as i64
                &&& requested_duration(pairs_view(*params)) == 0 ==> q.duration == cfg.default_duration
                &&& q.update.updates4@ == if skipped(cfg.skiplist@, n) { Set::empty() } else { v4_of(n) }
                &&& q.update.updates6@ == if skipped(cfg.skiplist@, n) { Set::empty() } else { v6_of(n) }
                &&& q.update.withdraws4@.is_empty()
                &&& q.update.withdraws6@.is_empty()
            },
        },
{
    if let Ok(n) = read_net(params) {
        if cfg.skiplist_scan_panics(&n) {
            return None;
        }
    }
    Some(add_request(params, cfg))
}

/// The `remove` endpoint: withdraws the prefix of the `net` parameter.
pub fn remove_request(params: &UrlParams) -> (r: Result<BgpRibUpdate, ApiError>)
    ensures
        match requested_net(pairs_view(*params)) {
            Err(e) => r matches Err(x) && x == e,
            Ok(n) => r matches Ok(u) && {
                &&& u.withdraws4@ == v4_of(n)
                &&& u.withdraws6@ == v6_of(n)
                &&& u.updates4@.is_empty()
                &&& u.updates6@.is_empty()
            },
        },
{
    match read_net(params) {
        Ok(n) => Ok(single_update(n, true)),
        Err(e) => Err(e),
    }
}

/// The `add` part of a JSON request: nets to announce, for how long.
pub struct NetsAdd {
    pub duration: Option<u32>,
    pub nets: Vec<NetPrefix>,
}

/// A JSON request: nets to announce and nets to withdraw.
pub struct HandleNets {
    pub add: Option<NetsAdd>,
    pub remove: Option<Vec<NetPrefix>>,
}

/// The IPv4 prefixes among `nets` that the skip list does not hold.
pub open spec fn kept_v4(nets: Seq<NetPrefix>, skip: Seq<NetPrefix>) -> Set<NetV4> {
    Set::new(|k: NetV4| exists|i: int| 0 <= i < nets.len() && nets[i] == NetPrefix::V4(k.0, k.1) && !skipped(skip, nets[i]))
}

/// The IPv6 prefixes among `nets` that the skip list does not hold.
pub open spec fn kept_v6(nets: Seq<NetPrefix>, skip: Seq<NetPrefix>) -> Set<NetV6> {
    Set::new(|k: NetV6| exists|i: int| 0 <= i < nets.len() && nets[i] == NetPrefix::V6(k.0, k.1) && !skipped(skip, nets[i]))
}

/// None of `nets` makes the skip-list scan panic.
pub open spec fn nets_scan_ok(nets: Seq<NetPrefix>, skip: Seq<NetPrefix>) -> bool {
    forall|i: int| 0 <= i < nets.len() ==> !skiplist_panics(skip, #[trigger] nets[i])
}

/// The nets of a JSON request's `add` part, none without one.
pub open spec fn added_nets(req: HandleNets) -> Seq<NetPrefix> {
    match req.add {
        Some(a) => a.nets@,
        None => Seq::empty(),
    }
}

/// The nets of a JSON request's `remove` part, none without one.
pub open spec fn removed_nets(req: HandleNets) -> Seq<NetPrefix> {
    match req.remove {
        Some(r) => r@,
        None => Seq::empty(),
    }
}

proof fn lemma_kept_step(nets: Seq<NetPrefix>, skip: Seq<NetPrefix>, n: int)
    requires
        0 <= n < nets.len(),
    ensures
        kept_v4(nets.take(n + 1), skip) == kept_v4(nets.take(n), skip).union(
            if skipped(skip, nets[n]) { Set::empty() } else { v4_of(nets[n]) },
        ),
        kept_v6(nets.take(n + 1), skip) == kept_v6(nets.take(n), skip).union(
            if skipped(skip, nets[n]) { Set::empty() } else { v6_of(nets[n]) },
        ),
{
    let a = nets.take(n + 1);
    let b = nets.take(n);
    assert forall|k: NetV4| #[trigger] kept_v4(a, skip).contains(k) <==> kept_v4(b, skip).contains(k) || (
    a[n] == NetPrefix::V4(k.0, k.1) && !skipped(skip, a[n])) by {
        if kept_v4(a, skip).contains(k) {
            let j = choose|j: int| 0 <= j < a.len() && a[j] == NetPrefix::V4(k.0, k.1) && !skipped(skip, a[j]);
            if j < n {
                assert(b[j] == a[j]);
            }
        }
        if kept_v4(b, skip).contains(k) {
            let j = choose|j: int| 0 <= j < b.len() && b[j] == NetPrefix::V4(k.0, k.1) && !skipped(skip, b[j]);
            assert(a[j] == b[j]);
        }
    }
    assert forall|k: NetV6| #[trigger] kept_v6(a, skip).contains(k) <==> kept_v6(b, skip).contains(k) || (
    a[n] == NetPrefix::V6(k.0, k.1) && !skipped(skip, a[n])) by {
        if kept_v6(a, skip).contains(k) {
            let j = choose|j: int| 0 <= j < a.len() && a[j] == NetPrefix::V6(k.0, k.1) && !skipped(skip, a[j]);
            if j < n {
                assert(b[j] == a[j]);
            }
        }
        if kept_v6(b, skip).contains(k) {
            let j = choose|j: int| 0 <= j < b.len() && b[j] == NetPrefix::V6(k.0, k.1) && !skipped(skip, b[j]);
            assert(a[j] == b[j]);
        }
    }
    assert(a[n] == nets[n]);
    assert(kept_v4(a, skip) =~= kept_v4(b, skip).union(
        if skipped(skip, nets[n]) { Set::empty() } else { v4_of(nets[n]) },
    ));
    assert(kept_v6(a, skip) =~= kept_v6(b, skip).union(
        if skipped(skip, nets[n]) { Set::empty() } else { v6_of(nets[n]) },
    ));
}

/// Adds to `s4`/`s6` the prefixes of `nets` that the skip list does not hold.
fn keep_nets(nets: &Vec<NetPrefix>, cfg: &SvcConfig, s4: &mut BTreeSet<NetV4>, s6: &mut BTreeSet<NetV6>)
    requires
        nets_scan_ok(nets@, cfg.skiplist@),
    ensures
        final(s4)@ == old(s4)@.union(kept_v4(nets@, cfg.skiplist@)),
        final(s6)@ == old(s6)@.union(kept_v6(nets@, cfg.skiplist@)),
{
    let ghost a4 = s4@;
    let ghost a6 = s6@;
    let mut i: usize = 0;
    while i < nets.len()
        invariant
            i <= nets@.len(),
            nets_scan_ok(nets@, cfg.skiplist@),
            s4@ == a4.union(kept_v4(nets@.take(i as int), cfg.skiplist@)),
            s6@ == a6.union(kept_v6(nets@.take(i as int), cfg.skiplist@)),
        decreases nets@.len() - i,
    {
        let n = nets[i];
        assert(!skiplist_panics(cfg.skiplist@, nets@[i as int]));
        if !cfg.in_skiplist(&n) {
            match n {
                NetPrefix::V4(a, l) => {
                    s4.insert((a, l));
                },
                NetPrefix::V6(a, l) => {
                    s6.insert((a, l));
                },
                NetPrefix::Mac(..) => {},
            }
        }
        proof {
            lemma_kept_step(nets@, cfg.skiplist@, i as int);
        }
        i = i + 1;
        assert(s4@ =~= a4.union(kept_v4(nets@.take(i as int), cfg.skiplist@)));
        assert(s6@ =~= a6.union(kept_v6(nets@.take(i as int), cfg.skiplist@)));
    }
    assert(nets@.take(i as int) =~= nets@);
}

/// A JSON request: announces the nets of its `add` part for its `duration`
/// (seconds; the configured default when absent) and withdraws the nets of
/// its `remove` part; nets within the skip list are left out of both.
pub fn handle_json_msg(req: &HandleNets, cfg: &SvcConfig) -> (r: RouteRequest)
    requires
        nets_scan_ok(added_nets(*req), cfg.skiplist@),
        nets_scan_ok(removed_nets(*req), cfg.skiplist@),
    ensures
        r.duration == match req.add {
            Some(a) => match a.duration {
                Some(d) => d as i64,
                None => cfg.default_duration,
            },
            None => cfg.default_duration,
        },
        r.update.updates4@ == kept_v4(added_nets(*req), cfg.skiplist@),
        r.update.updates6@ == kept_v6(added_nets(*req), cfg.skiplist@),
        r.update.withdraws4@ == kept_v4(removed_nets(*req), cfg.skiplist@),
        r.update.withdraws6@ == kept_v6(removed_nets(*req), cfg.skiplist@),
{
    let mut upd = BgpRibUpdate::new();
    let mut duration: i64 = cfg.default_duration;
    match &req.add {
        Some(nadd) => {
            if let Some(secs) = nadd.duration {
                duration = secs as i64;
            }
            keep_nets(&nadd.nets, cfg, &mut upd.updates4, &mut upd.updates6);
        },
        None => {
            assert(kept_v4(added_nets(*req), cfg.skiplist@) =~= Set::empty());
            assert(kept_v6(added_nets(*req), cfg.skiplist@) =~= Set::empty());
        },
    }
    match &req.remove {
        Some(nrem) => {
            keep_nets(nrem, cfg, &mut upd.withdraws4, &mut upd.withdraws6);
        },
        None => {
            assert(kept_v4(removed_nets(*req), cfg.skiplist@) =~= Set::empty());
            assert(kept_v6(removed_nets(*req), cfg.skiplist@) =~= Set::empty());
        },
    }
    assert(upd.updates4@ =~= kept_v4(added_nets(*req), cfg.skiplist@));
    assert(upd.updates6@ =~= kept_v6(added_nets(*req), cfg.skiplist@));
    assert(upd.withdraws4@ =~= kept_v4(removed_nets(*req), cfg.skiplist@));
    assert(upd.withdraws6@ =~= kept_v6(removed_nets(*req), cfg.skiplist@));
    RouteRequest { update: upd, duration }
}

/// How the status page lists one peer session: `'<address>':'<state>'`.
pub open spec fn peer_status_entry(a: IpAddress, st: PeerState) -> Seq<char> {
    "'"@ + spec_ip_text(a) + "':'"@ + state_name(st) + "'"@
}

/// The name of a session state.
pub open spec fn state_name(st: PeerState) -> Seq<char> {
    match st {
        PeerState::New => "New"@,
        PeerState::SendingRIB => "SendingRIB"@,
        PeerState::InSync => "InSync"@,
        PeerState::SendingUpdates => "SendingUpdates"@,
    }
}

/// The peer sessions of the status page, separated by commas.
pub open spec fn peers_status<P>(s: Seq<(IpAddress, BgpPeerShell<P>)>) -> Seq<char>
    decreases s.len(),
{
    if s.len() == 0 {
        Seq::empty()
    } else if s.len() == 1 {
        peer_status_entry(s[0].0, s[0].1.state)
    } else {
        peers_status(s.drop_last()) + ","@ + peer_status_entry(s.last().0, s.last().1.state)
    }
}

/// The status page: the sessions and their states, and the number of
/// IPv4 and IPv6 routes.
pub open spec fn spec_status_text<P>(s: Seq<(IpAddress, BgpPeerShell<P>)>, n4: nat, n6: nat) -> Seq<char> {
    "{'peers':{"@ + peers_status(s) + "},'routes':{'ipv4':"@ + spec_decimal(n4) + ",'ipv6':"@
        + spec_decimal(n6) + "}}"@
}

/// The text of the status page, for the registered sessions and `n4` IPv4
/// and `n6` IPv6 routes.
pub fn status_text<P>(peers: &BgpPeers<P>, n4: usize, n6: usize) -> (r: String)
    ensures
        r@ == spec_status_text(peers.peershells@, n4 as nat, n6 as nat),
{
    let ghost ps = peers.peershells@;
    let mut body: Vec<char> = Vec::new();
    let mut i: usize = 0;
    while i < peers.peershells.len()
        invariant
            ps == peers.peershells@,
            i <= ps.len(),
            body@ == peers_status(ps.take(i as int)),
        decreases ps.len() - i,
    {
        assert(ps.take(i + 1).drop_last() =~= ps.take(i as int));
        let ghost before = body@;
        if i > 0 {
            append_str(&mut body, ",");
        }
        append_str(&mut body, "'");
        let ip = std_ip_text(&peers.peershells[i].0);
        append_str(&mut body, ip.as_str());
        append_str(&mut body, "':'");
        append_str(&mut body, peers.peershells[i].1.state.name());
        append_str(&mut body, "'");
        proof {
            if i == 0 {
                assert(ps.take(1)[0] == ps[0]);
                assert(body@ =~= peer_status_entry(ps[0].0, ps[0].1.state));
            } else {
                assert(body@ =~= before + ","@ + peer_status_entry(ps[i as int].0, ps[i as int].1.state));
            }
        }
        i = i + 1;
    }
    assert(ps.take(i as int) =~= ps);
    let mut out: Vec<char> = Vec::new();
    append_str(&mut out, "{'peers':{");
    append_chars(&mut out, &body);
    append_str(&mut out, "},'routes':{'ipv4':");
    append_chars(&mut out, &decimal(n4 as u64));
    append_str(&mut out, ",'ipv6':");
    append_chars(&mut out, &decimal(n6 as u64));
    append_str(&mut out, "}}");
    assert(out@ =~= spec_status_text(ps, n4 as nat, n6 as nat));
    string_of(&out)
}

/// The lines of the route dump: each entry's prefix and instant, as
/// written, separated by a tab, one line each.
pub open spec fn dump_lines(entries: Seq<(String, String)>) -> Seq<char>
    decreases entries.len(),
{
    if entries.len() == 0 {
        Seq::empty()
    } else {
        dump_lines(entries.drop_last()) + entries.last().0@ + "\t"@ + entries.last().1@ + "\n"@
    }
}

/// The text of `/api/dumprib`: the IPv4 entries, then the IPv6 entries.
pub fn dump_text(v4: &Vec<(String, String)>, v6: &Vec<(String, String)>) -> (r: String)
    ensures
        r@ == dump_lines(v4@) + dump_lines(v6@),
{
    let mut out: Vec<char> = Vec::new();
    append_dump_lines(&mut out, v4);
    append_dump_lines(&mut out, v6);
    string_of(&out)
}

fn append_dump_lines(out: &mut Vec<char>, entries: &Vec<(String, String)>)
    ensures
        final(out)@ == old(out)@ + dump_lines(entries@),
{
    let ghost start = out@;
    let mut i: usize = 0;
    while i < entries.len()
        invariant
            i <= entries@.len(),
            out@ == start + dump_lines(entries@.take(i as int)),
        decreases entries@.len() - i,
    {
        assert(entries@.take(i + 1).drop_last() =~= entries@.take(i as int));
        append_str(out, entries[i].0.as_str());
        append_str(out, "\t");
        append_str(out, entries[i].1.as_str());
        append_str(out, "\n");
        i = i + 1;
        assert(out@ =~= start + dump_lines(entries@.take(i as int)));
    }
    assert(entries@.take(i as int) =~= entries@);
}

/// One entry of the JSON route dump: `"<prefix>":"<instant>"`.
pub open spec fn json_entry(e: (String, String)) -> Seq<char> {
    "\""@ + e.0@ + "\":\""@ + e.1@ + "\""@
}

/// The IPv4 entries of the JSON dump, separated by `,` and a newline.
pub open spec fn json_v4(entries: Seq<(String, String)>) -> Seq<char>
    decreases entries.len(),
{
    if entries.len() == 0 {
        Seq::empty()
    } else if entries.len() == 1 {
        json_entry(entries[0])
    } else {
        json_v4(entries.drop_last()) + ",\n"@ + json_entry(entries.last())
    }
}

/// The IPv6 entries of the JSON dump, after `first` entries: each one
/// preceded by `,` and a newline unless it comes first, and followed by `,`
/// and a newline.
pub open spec fn json_v6(entries: Seq<(String, String)>, first: bool) -> Seq<char>
    decreases entries.len(),
{
    if entries.len() == 0 {
        Seq::empty()
    } else {
        let before = json_v6(entries.drop_last(), first);
        let lead = if first && entries.len() == 1 { Seq::empty() } else { ",\n"@ };
        before + lead + json_entry(entries.last()) + ",\n"@
    }
}

/// The text of `/api/dumpribjson`: `{`, the IPv4 entries, the IPv6 entries
/// (each of which the dump follows with `,` and a newline), `}`.
pub open spec fn spec_dump_json(v4: Seq<(String, String)>, v6: Seq<(String, String)>) -> Seq<char> {
    "{"@ + json_v4(v4) + json_v6(v6, v4.len() == 0) + "}"@
}

/// The text of `/api/dumpribjson`.
pub fn dump_json_text(v4: &Vec<(String, String)>, v6: &Vec<(String, String)>) -> (r: String)
    ensures
        r@ == spec_dump_json(v4@, v6@),
{
    let mut out: Vec<char> = Vec::new();
    append_str(&mut out, "{");
    let ghost start = out@;
    let mut i: usize = 0;
    while i < v4.len()
        invariant
            i <= v4@.len(),
            out@ == start + json_v4(v4@.take(i as int)),
        decreases v4@.len() - i,
    {
        assert(v4@.take(i + 1).drop_last() =~= v4@.take(i as int));
        let ghost before = out@;
        if i > 0 {
            append_str(&mut out, ",\n");
        }
        append_json_entry(&mut out, &v4[i]);
        proof {
            if i == 0 {
                assert(v4@.take(1)[0] == v4@[0]);
                assert(out@ =~= start + json_v4(v4@.take(1)));
            } else {
                assert(out@ =~= start + json_v4(v4@.take(i + 1)));
            }
        }
        i = i + 1;
    }
    assert(v4@.take(i as int) =~= v4@);
    let ghost mid = out@;
    let first = v4.len() == 0;
    let mut j: usize = 0;
    while j < v6.len()
        invariant
            j <= v6@.len(),
            first == (v4@.len() == 0),
            out@ == mid + json_v6(v6@.take(j as int), first),
        decreases v6@.len() - j,
    {
        assert(v6@.take(j + 1).drop_last() =~= v6@.take(j as int));
        if !(first && j == 0) {
            append_str(&mut out, ",\n");
        }
        append_json_entry(&mut out, &v6[j]);
        append_str(&mut out, ",\n");
        j = j + 1;
        assert(out@ =~= mid + json_v6(v6@.take(j as int), first));
    }
    assert(v6@.take(j as int) =~= v6@);
    append_str(&mut out, "}");
    assert(out@ =~= spec_dump_json(v4@, v6@));
    string_of(&out)
}

fn append_json_entry(out: &mut Vec<char>, e: &(String, String))
    ensures
        final(out)@ == old(out)@ + json_entry(*e),
{
    append_str(out, "\"");
    append_str(out, e.0.as_str());
    append_str(out, "\":\"");
    append_str(out, e.1.as_str());
    append_str(out, "\"");
    assert(out@ =~= old(out)@ + json_entry(*e));
}

} // verus!
