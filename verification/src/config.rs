//! The service configuration, read from the sections of an ini file.

use vstd::prelude::*;
use crate::net::{
    IpAddress, NetPrefix, SocketAddress, net_contains, net_contains_panics, spec_parse_communities,
    spec_parse_ip, spec_parse_ipv4, spec_parse_ipv6, spec_parse_net, spec_parse_socket,
    std_parse_ip, std_parse_ipv4, std_parse_ipv6, std_parse_socket, zb_parse_communities,
    zb_parse_net,
};
use crate::text::{
    append_str, chars_of, has_prefix, parse_i64, parse_u32, spec_parse_i64, spec_parse_u32, split, split_on,
    str_eq, starts_with, string_of, sub_chars, trim, trim_spaces, is_space_char, is_white_space,
};

verus! {

/// What a configured peer is used for.
#[derive(Clone, Copy, Debug, PartialEq, Eq, Structural)]
pub enum PeerMode {
    Blackhole,
    FlowSource,
}

/// A configuration error.
#[derive(Debug)]
pub enum ErrorConfig {
    Static(&'static str),
    Str(String),
}

impl ErrorConfig {
    /// An error with a fixed message.
    pub fn from_str(m: &'static str) -> (r: Self)
        ensures
            r == ErrorConfig::Static(m),
    {
        ErrorConfig::Static(m)
    }

    /// An error with a composed message.
    pub fn from_string(m: String) -> (r: Self)
        ensures
            r == ErrorConfig::Str(m),
    {
        ErrorConfig::Str(m)
    }

    /// The error's message.
    pub fn text(&self) -> (r: &str)
        ensures
            r@ == match self {
                ErrorConfig::Static(s) => s@,
                ErrorConfig::Str(s) => s@,
            },
    {
        match self {
            ErrorConfig::Static(s) => s,
            ErrorConfig::Str(s) => s.as_str(),
        }
    }

    /// The error as it is shown: `ErrorConfig: ` and the message.
    pub fn to_string(&self) -> (r: String)
        ensures
            r@ == "ErrorConfig: "@ + match self {
                ErrorConfig::Static(s) => s@,
                ErrorConfig::Str(s) => s@,
            },
    {
        let mut v: Vec<char> = Vec::new();
        append_str(&mut v, "ErrorConfig: ");
        append_str(&mut v, self.text());
        string_of(&v)
    }
}

impl From<&'static str> for ErrorConfig {
    fn from(m: &'static str) -> (r: Self) {
        ErrorConfig::Static(m)
    }
}

impl vstd::std_specs::convert::FromSpecImpl<&'static str> for ErrorConfig {
    open spec fn obeys_from_spec() -> bool {
        true
    }

    open spec fn from_spec(m: &'static str) -> Self {
        ErrorConfig::Static(m)
    }
}

/// The peer mode that a configuration value names.
pub open spec fn spec_peer_mode(s: Seq<char>) -> Option<PeerMode> {
    if s == "blackhole"@ {
        Some(PeerMode::Blackhole)
    } else if s == "flowsource"@ {
        Some(PeerMode::FlowSource)
    } else {
        None
    }
}

impl PeerMode {
    /// Parses `blackhole` or `flowsource`.
    pub fn from_str(s: &str) -> (r: Result<PeerMode, ErrorConfig>)
        ensures
            r == match spec_peer_mode(s@) {
                Some(m) => Ok::<PeerMode, ErrorConfig>(m),
                None => Err(ErrorConfig::Static("invalid peer mode")),
            },
    {
        if str_eq(s, "blackhole") {
            Ok(PeerMode::Blackhole)
        } else if str_eq(s, "flowsource") {
            Ok(PeerMode::FlowSource)
        } else {
            Err(ErrorConfig::from_str("invalid peer mode"))
        }
    }
}

/// A section of an ini file: its keys, each with an optional value.
pub struct IniSection {
    pub entries: Vec<(String, Option<String>)>,
}

/// An ini file: its sections by name.
pub struct IniFile {
    pub sections: Vec<(String, IniSection)>,
}

/// The characters of an optional value.
pub open spec fn opt_view(o: Option<String>) -> Option<Seq<char>> {
    match o {
        Some(s) => Some(s@),
        None => None,
    }
}

/// What the first entry with key `key` holds: `None` when there is none,
/// else the entry's optional value.
pub open spec fn lookup_entry(entries: Seq<(String, Option<String>)>, key: Seq<char>) -> Option<
    Option<Seq<char>>,
>
    decreases entries.len(),
{
    if entries.len() == 0 {
        None
    } else if entries[0].0@ == key {
        Some(opt_view(entries[0].1))
    } else {
        lookup_entry(entries.drop_first(), key)
    }
}

/// The value of key `key` in a section, when the key is there with a value.
pub open spec fn value_of(sec: IniSection, key: Seq<char>) -> Option<Seq<char>> {
    match lookup_entry(sec.entries@, key) {
        Some(Some(v)) => Some(v),
        _ => None,
    }
}

/// The first section named `name`.
pub open spec fn lookup_section(sections: Seq<(String, IniSection)>, name: Seq<char>) -> Option<
    IniSection,
>
    decreases sections.len(),
{
    if sections.len() == 0 {
        None
    } else if sections[0].0@ == name {
        Some(sections[0].1)
    } else {
        lookup_section(sections.drop_first(), name)
    }
}

proof fn lemma_lookup_entry_skip(entries: Seq<(String, Option<String>)>, key: Seq<char>, i: int)
    requires
        0 <= i <= entries.len(),
        forall|j: int| 0 <= j < i ==> entries[j].0@ != key,
    ensures
        lookup_entry(entries, key) == lookup_entry(entries.skip(i), key),
    decreases i,
{
    if i > 0 {
        assert forall|j: int| 0 <= j < i - 1 implies entries.drop_first()[j].0@ != key by {
            assert(entries.drop_first()[j] == entries[j + 1]);
        }
        lemma_lookup_entry_skip(entries.drop_first(), key, i - 1);
        assert(entries.drop_first().skip(i - 1) =~= entries.skip(i));
    } else {
        assert(entries.skip(0) =~= entries);
    }
}

proof fn lemma_lookup_section_skip(sections: Seq<(String, IniSection)>, name: Seq<char>, i: int)
    requires
        0 <= i <= sections.len(),
        forall|j: int| 0 <= j < i ==> sections[j].0@ != name,
    ensures
        lookup_section(sections, name) == lookup_section(sections.skip(i), name),
    decreases i,
{
    if i > 0 {
        assert forall|j: int| 0 <= j < i - 1 implies sections.drop_first()[j].0@ != name by {
            assert(sections.drop_first()[j] == sections[j + 1]);
        }
        lemma_lookup_section_skip(sections.drop_first(), name, i - 1);
        assert(sections.drop_first().skip(i - 1) =~= sections.skip(i));
    } else {
        assert(sections.skip(0) =~= sections);
    }
}

impl IniSection {
    /// The optional value of the first entry with key `key`.
    pub fn get(&self, key: &str) -> (r: Option<&Option<String>>)
        ensures
            match r {
                Some(v) => lookup_entry(self.entries@, key@) == Some(opt_view(*v)),
                None => lookup_entry(self.entries@, key@) == None::<Option<Seq<char>>>,
            },
    {
        let mut i: usize = 0;
        while i < self.entries.len()
            invariant
                i <= self.entries@.len(),
                forall|j: int| 0 <= j < i ==> self.entries@[j].0@ != key@,
            decreases self.entries@.len() - i,
        {
            if str_eq(self.entries[i].0.as_str(), key) {
                proof {
                    lemma_lookup_entry_skip(self.entries@, key@, i as int);
                }
                return Some(&self.entries[i].1);
            }
            i = i + 1;
        }
        proof {
            lemma_lookup_entry_skip(self.entries@, key@, i as int);
        }
        None
    }

    /// Whether the section has key `key`.
    pub fn contains_key(&self, key: &str) -> (r: bool)
        ensures
            r == (lookup_entry(self.entries@, key@) is Some),
    {
        self.get(key).is_some()
    }

    /// The value of key `key`, when the key is there with a value.
    pub fn value(&self, key: &str) -> (r: Option<&String>)
        ensures
            match r {
                Some(v) => value_of(*self, key@) == Some(v@),
                None => value_of(*self, key@) == None::<Seq<char>>,
            },
    {
        match self.get(key) {
            Some(Some(v)) => Some(v),
            _ => None,
        }
    }
}

impl IniFile {
    /// The first section named `name`.
    pub fn section(&self, name: &str) -> (r: Option<&IniSection>)
        ensures
            match r {
                Some(s) => lookup_section(self.sections@, name@) == Some(*s),
                None => lookup_section(self.sections@, name@) == None::<IniSection>,
            },
    {
        let mut i: usize = 0;
        while i < self.sections.len()
            invariant
                i <= self.sections@.len(),
                forall|j: int| 0 <= j < i ==> self.sections@[j].0@ != name@,
            decreases self.sections@.len() - i,
        {
            if str_eq(self.sections[i].0.as_str(), name) {
                proof {
                    lemma_lookup_section_skip(self.sections@, name@, i as int);
                }
                return Some(&self.sections[i].1);
            }
            i = i + 1;
        }
        proof {
            lemma_lookup_section_skip(self.sections@, name@, i as int);
        }
        None
    }
}

/// No two sections share a name, and no two entries of a section share a key.
pub open spec fn ini_wf(f: IniFile) -> bool {
    &&& forall|i: int, j: int|
        0 <= i < j < f.sections@.len() ==> f.sections@[i].0@ != f.sections@[j].0@
    &&& forall|i: int, a: int, b: int|
        0 <= i < f.sections@.len() && 0 <= a < b < f.sections@[i].1.entries@.len() ==> f.sections@[i].1.entries@[a].0@
            != f.sections@[i].1.entries@[b].0@
}

/// The keys of a section, each with its optional value.
pub open spec fn section_view(sec: IniSection) -> Map<Seq<char>, Option<Seq<char>>> {
    Map::new(
        |k: Seq<char>| lookup_entry(sec.entries@, k) is Some,
        |k: Seq<char>| lookup_entry(sec.entries@, k).unwrap(),
    )
}

/// The sections of a file by name, each as its keys and values.
pub open spec fn ini_view(f: IniFile) -> Map<Seq<char>, Map<Seq<char>, Option<Seq<char>>>> {
    Map::new(
        |n: Seq<char>| lookup_section(f.sections@, n) is Some,
        |n: Seq<char>| section_view(lookup_section(f.sections@, n).unwrap()),
    )
}

/// What `ini::macro_safe_read` reads from a text: its sections by name,
/// each as its keys and values, or the parser's error message.
pub uninterp spec fn spec_ini_read(text: Seq<char>) -> Result<
    Map<Seq<char>, Map<Seq<char>, Option<Seq<char>>>>,
    Seq<char>,
>;

/// A comment character of the ini parser: `;` or `#`.
pub open spec fn is_comment_char(c: char) -> bool {
    c == ';' || c == '#'
}

/// Where a line's comment begins: its first comment character, else its end.
pub open spec fn comment_start(line: Seq<char>) -> int
    decreases line.len(),
{
    if line.len() == 0 || is_comment_char(line[0]) {
        0
    } else {
        1 + comment_start(line.drop_first())
    }
}

/// The part of a line that the ini parser reads: what comes before its
/// first comment character.
pub open spec fn uncommented(line: Seq<char>) -> Seq<char> {
    line.take(comment_start(line))
}

/// A line on which the ini parser stops with an error: it opens a section
/// name with `[` and never closes it, or it has no `[` and nothing but
/// whitespace before its first `=` (an empty key).
pub open spec fn ini_line_error(c: Seq<char>) -> bool {
    ||| c.contains('[') && !c.contains(']')
    ||| !c.contains('[') && exists|d: int|
        0 <= d < c.len() && c[d] == '=' && forall|k: int| 0 <= k < d ==> is_white_space(#[trigger] c[k])
}

/// A line on which the ini parser panics: it has both `[` and `]`, and every
/// `]` comes before every `[`, so the section name it slices runs backwards.
pub open spec fn ini_line_panics(c: Seq<char>) -> bool {
    &&& c.contains('[')
    &&& c.contains(']')
    &&& forall|a: int, b: int| 0 <= a < c.len() && 0 <= b < c.len() && c[a] == ']' && c[b] == '[' ==> a < b
}

/// Texts on which `ini::macro_safe_read` panics: some line panics, and no
/// line before it stops the parser with an error.
pub open spec fn ini_panics(text: Seq<char>) -> bool {
    let lines = split_on(text, seq!['\n']);
    exists|i: int|
        0 <= i < lines.len() && ini_line_panics(uncommented(#[trigger] lines[i])) && forall|j: int|
            0 <= j < i ==> !ini_line_error(uncommented(lines[j]))
}

proof fn lemma_comment_start(line: Seq<char>)
    ensures
        0 <= comment_start(line) <= line.len(),
        forall|k: int| 0 <= k < comment_start(line) ==> !is_comment_char(#[trigger] line[k]),
        comment_start(line) < line.len() ==> is_comment_char(line[comment_start(line)]),
    decreases line.len(),
{
    if line.len() > 0 && !is_comment_char(line[0]) {
        lemma_comment_start(line.drop_first());
        assert forall|k: int| 0 <= k < comment_start(line) implies !is_comment_char(#[trigger] line[k]) by {
            if k > 0 {
                assert(line[k] == line.drop_first()[k - 1]);
            }
        }
    }
}

/// Where the comment of `line` begins.
fn find_comment(line: &Vec<char>) -> (r: usize)
    ensures
        r == comment_start(line@),
{
    proof {
        lemma_comment_start(line@);
    }
    let mut i: usize = 0;
    while i < line.len()
        invariant
            i <= line@.len(),
            i <= comment_start(line@),
            0 <= comment_start(line@) <= line@.len(),
            forall|k: int| 0 <= k < comment_start(line@) ==> !is_comment_char(#[trigger] line@[k]),
            comment_start(line@) < line@.len() ==> is_comment_char(line@[comment_start(line@)]),
        decreases line@.len() - i,
    {
        if line[i] == ';' || line[i] == '#' {
            return i;
        }
        i = i + 1;
    }
    i
}

/// Whether the first `end` characters of `line` stop the ini parser with an
/// error, and whether they make it panic.
fn scan_ini_line(line: &Vec<char>, end: usize) -> (r: (bool, bool))
    requires
        end <= line@.len(),
    ensures
        r.0 == ini_line_error(line@.take(end as int)),
        r.1 == ini_line_panics(line@.take(end as int)),
{
    let ghost c = line@.take(end as int);
    let mut first_open: Option<usize> = None;
    let mut last_close: Option<usize> = None;
    let mut i: usize = 0;
    while i < end
        invariant
            end <= line@.len(),
            c == line@.take(end as int),
            i <= end,
            match first_open {
                Some(f) => f < i && c[f as int] == '[' && forall|k: int| 0 <= k < f ==> c[k] != '[',
                None => forall|k: int| 0 <= k < i ==> c[k] != '[',
            },
            match last_close {
                Some(l) => l < i && c[l as int] == ']' && forall|k: int| l < k < i ==> c[k] != ']',
                None => forall|k: int| 0 <= k < i ==> c[k] != ']',
            },
        decreases end - i,
    {
        if line[i] == '[' && first_open.is_none() {
            first_open = Some(i);
        }
        if line[i] == ']' {
            last_close = Some(i);
        }
        i = i + 1;
    }
    let mut w: usize = 0;
    while w < end && is_space_char(line[w])
        invariant
            end <= line@.len(),
            c == line@.take(end as int),
            w <= end,
            forall|k: int| 0 <= k < w ==> is_white_space(#[trigger] c[k]),
        decreases end - w,
    {
        w = w + 1;
    }
    let empty_key = w < end && line[w] == '=';
    proof {
        if empty_key {
            assert(c[w as int] == '=');
        } else {
            assert forall|d: int| 0 <= d < c.len() && c[d] == '=' implies !(forall|k: int|
                0 <= k < d ==> is_white_space(#[trigger] c[k])) by {
                if d > w {
                    assert(!is_white_space(c[w as int]));
                } else if d < w {
                    assert(is_white_space(c[d]));
                }
            }
        }
        if let Some(f) = first_open {
            assert(c.contains('[')) by {
                assert(c[f as int] == '[');
            }
        } else {
            assert(!c.contains('['));
        }
        if let Some(l) = last_close {
            assert(c.contains(']')) by {
                assert(c[l as int] == ']');
            }
        } else {
            assert(!c.contains(']'));
        }
    }
    let error = match (first_open, last_close) {
        (Some(_), None) => true,
        (None, _) => empty_key,
        _ => false,
    };
    let panics = match (first_open, last_close) {
        (Some(f), Some(l)) => l < f,
        _ => false,
    };
    proof {
        if let (Some(f), Some(l)) = (first_open, last_close) {
            if l < f {
                assert forall|a: int, b: int| 0 <= a < c.len() && 0 <= b < c.len() && c[a] == ']' && c[b] == '[' implies a < b by {
                    assert(a <= l);
                    assert(b >= f);
                }
            } else {
                assert(c[l as int] == ']' && c[f as int] == '[');
            }
        }
    }
    (error, panics)
}

/// Whether `ini::macro_safe_read` panics on `text` (`ini_panics`).
pub fn ini_text_panics(text: &str) -> (r: bool)
    ensures
        r == ini_panics(text@),
{
    let cs = chars_of(text);
    let nl = vec!['\n'];
    assert(nl@ =~= seq!['\n']);
    let lines = split(&cs, &nl);
    let ghost ls = split_on(text@, seq!['\n']);
    let mut i: usize = 0;
    while i < lines.len()
        invariant
            ls == split_on(text@, seq!['\n']),
            lines@.len() == ls.len(),
            forall|k: int| 0 <= k < lines@.len() ==> (#[trigger] lines@[k])@ == ls[k],
            i <= ls.len(),
            forall|j: int| 0 <= j < i ==> !ini_line_error(uncommented(#[trigger] ls[j])),
            forall|j: int| 0 <= j < i ==> !ini_line_panics(uncommented(#[trigger] ls[j])),
        decreases ls.len() - i,
    {
        let end = find_comment(&lines[i]);
        proof {
            lemma_comment_start(ls[i as int]);
            assert(lines@[i as int]@ == ls[i as int]);
        }
        let (error, panics) = scan_ini_line(&lines[i], end);
        assert(lines@[i as int]@.take(end as int) == uncommented(ls[i as int]));
        if panics {
            assert(ini_line_panics(uncommented(ls[i as int])));
            assert(0 <= i < ls.len() && ini_line_panics(uncommented(ls[i as int])) && forall|j: int|
                0 <= j < i ==> !ini_line_error(uncommented(ls[j])));
            assert(ini_panics(text@));
            return true;
        }
        if error {
            proof {
                assert forall|k: int| 0 <= k < ls.len() && ini_line_panics(uncommented(#[trigger] ls[k])) implies !(forall|j: int|
                    0 <= j < k ==> !ini_line_error(uncommented(ls[j]))) by {
                    assert(k > i);
                    assert(ini_line_error(uncommented(ls[i as int])));
                }
                assert forall|k: int| 0 <= k < i implies !ini_line_panics(uncommented(#[trigger] ls[k])) by {}
            }
            assert(!ini_panics(text@));
            return false;
        }
        i = i + 1;
    }
    assert(!ini_panics(text@)) by {
        assert forall|k: int| 0 <= k < ls.len() implies !ini_line_panics(uncommented(#[trigger] ls[k])) by {}
    }
    false
}

/// Calls `ini::macro_safe_read`, the parser behind the `ini!` macro, and
/// lists what it read. What it reads is a function of the text, named
/// `spec_ini_read`; the parser keeps sections and keys in hash maps, so
/// names and keys come out distinct, in an order that depends on the maps
/// and is left unsaid. An error is the parser's message.
#[verifier::external_body]
fn ini_parse(text: &str) -> (r: Result<IniFile, String>)
    requires
        !ini_panics(text@),
    ensures
        match spec_ini_read(text@) {
            Ok(m) => r matches Ok(f) && ini_wf(f) && ini_view(f) == m,
            Err(e) => r matches Err(s) && s@ == e,
        },
{
    match ini::macro_safe_read(text) {
        Ok(m) => Ok(IniFile {
            sections: m.into_iter().map(|(k, v)| (k, IniSection { entries: v.into_iter().collect() })).collect(),
        }),
        Err(e) => Err(e),
    }
}

/// Parses the text of an ini file: the sections and keys the ini parser
/// reads (`spec_ini_read`), each name and key once; a parse error becomes
/// the error's message. Texts on which the parser panics are left out.
pub fn read_ini(text: &str) -> (r: Result<IniFile, ErrorConfig>)
    requires
        !ini_panics(text@),
    ensures
        match spec_ini_read(text@) {
            Ok(m) => r matches Ok(f) && ini_wf(f) && ini_view(f) == m,
            Err(e) => r matches Err(ErrorConfig::Str(s)) && s@ == e,
        },
{
    match ini_parse(text) {
        Ok(f) => Ok(f),
        Err(e) => Err(ErrorConfig::from_string(e)),
    }
}

/// A peer to connect to.
#[derive(Clone, Copy, Debug, PartialEq, Eq, Structural)]
pub struct ConfigPeer {
    pub peeraddr: IpAddress,
    pub peeras: u32,
    pub localas: u32,
    pub mode: PeerMode,
}

/// The peer that a peer section describes, or why it describes none.
pub open spec fn spec_from_section(sec: IniSection) -> Result<ConfigPeer, ErrorConfig> {
    let e = sec.entries@;
    if lookup_entry(e, "peer"@) is None {
        Err(ErrorConfig::Static("missing peer IP address"))
    } else if lookup_entry(e, "as"@) is None {
        Err(ErrorConfig::Static("missing peer as number"))
    } else {
        match value_of(sec, "peer"@) {
            None => Err(ErrorConfig::Static("missing peer IP address")),
            Some(p) => match spec_parse_ip(p) {
                None => Err(ErrorConfig::Static("invalid peer IP address")),
                Some(peeraddr) => match value_of(sec, "as"@) {
                    None => Err(ErrorConfig::Static("missing peer as number")),
                    Some(a) => match spec_parse_u32(a) {
                        None => Err(ErrorConfig::Static("invalid peer as number")),
                        Some(peeras) => {
                            let localas = match value_of(sec, "localas"@) {
                                Some(l) => spec_parse_u32(l),
                                None => Some(peeras),
                            };
                            let mode = match value_of(sec, "mode"@) {
                                Some(m) => spec_peer_mode(m),
                                None => Some(PeerMode::Blackhole),
                            };
                            match (localas, mode) {
                                (None, _) => Err(ErrorConfig::Static("invalid local as number")),
                                (_, None) => Err(ErrorConfig::Static("invalid peer mode")),
                                (Some(localas), Some(mode)) => Ok(
                                    ConfigPeer { peeraddr, peeras, localas, mode },
                                ),
                            }
                        },
                    },
                },
            },
        }
    }
}

impl ConfigPeer {
    /// Reads a peer from its section: `peer` (address) and `as` (AS number)
    /// are needed, `localas` defaults to `as` and `mode` to blackhole.
    pub fn from_section(sec: &IniSection) -> (r: Result<ConfigPeer, ErrorConfig>)
        ensures
            r == spec_from_section(*sec),
    {
        if !sec.contains_key("peer") {
            return Err(ErrorConfig::from_str("missing peer IP address"));
        }
        if !sec.contains_key("as") {
            return Err(ErrorConfig::from_str("missing peer as number"));
        }
        let peeraddr = match sec.value("peer") {
            Some(s) => match std_parse_ip(s.as_str()) {
                Some(q) => q,
                None => return Err(ErrorConfig::from_str("invalid peer IP address")),
            },
            None => return Err(ErrorConfig::from_str("missing peer IP address")),
        };
        let peeras = match sec.value("as") {
            Some(s) => match parse_u32(s.as_str()) {
                Some(q) => q,
                None => return Err(ErrorConfig::from_str("invalid peer as number")),
            },
            None => return Err(ErrorConfig::from_str("missing peer as number")),
        };
        let localas = match sec.value("localas") {
            Some(s) => match parse_u32(s.as_str()) {
                Some(q) => q,
                None => return Err(ErrorConfig::from_str("invalid local as number")),
            },
            None => peeras,
        };
        let mode = match sec.value("mode") {
            Some(s) => match PeerMode::from_str(s.as_str()) {
                Ok(q) => q,
                Err(_) => return Err(ErrorConfig::from_str("invalid peer mode")),
            },
            None => PeerMode::Blackhole,
        };
        Ok(ConfigPeer { peeraddr, peeras, localas, mode })
    }
}

/// The separators of list values: comma, space and tab.
pub open spec fn list_seps() -> Seq<char> {
    seq![',', ' ', '\t']
}

/// The socket addresses among `pieces`, in order; pieces that are none are skipped.
pub open spec fn sockets_of(pieces: Seq<Seq<char>>) -> Seq<SocketAddress>
    decreases pieces.len(),
{
    if pieces.len() == 0 {
        Seq::empty()
    } else {
        let r = sockets_of(pieces.drop_last());
        match spec_parse_socket(pieces.last()) {
            Some(a) => r.push(a),
            None => r,
        }
    }
}

/// The prefixes among `pieces`, in order; pieces that are none are skipped.
pub open spec fn nets_of(pieces: Seq<Seq<char>>) -> Seq<NetPrefix>
    decreases pieces.len(),
{
    if pieces.len() == 0 {
        Seq::empty()
    } else {
        let r = nets_of(pieces.drop_last());
        match spec_parse_net(pieces.last()) {
            Some(a) => r.push(a),
            None => r,
        }
    }
}

/// The non-empty pieces of `pieces`, in order.
pub open spec fn nonempty(pieces: Seq<Seq<char>>) -> Seq<Seq<char>>
    decreases pieces.len(),
{
    if pieces.len() == 0 {
        Seq::empty()
    } else {
        let r = nonempty(pieces.drop_last());
        if pieces.last().len() > 0 {
            r.push(pieces.last())
        } else {
            r
        }
    }
}

/// A peer written as `<address> AS<number>`: an iBGP peer, its local AS the
/// same as its AS, in blackhole mode.
pub open spec fn spec_peer_entry(p: Seq<char>) -> Option<ConfigPeer> {
    let toks = nonempty(split_on(trim_spaces(p), seq![' ', '\t']));
    if toks.len() == 2 && has_prefix(toks[1], seq!['A', 'S']) {
        match (spec_parse_ip(toks[0]), spec_parse_u32(toks[1].skip(2))) {
            (Some(ip), Some(asn)) => Some(
                ConfigPeer { peeraddr: ip, peeras: asn, localas: asn, mode: PeerMode::Blackhole },
            ),
            _ => None,
        }
    } else {
        None
    }
}

/// The peers that the sections named by `names` describe, in order; names
/// with no section, and sections that describe no peer, are skipped.
pub open spec fn section_peers(conf: IniFile, names: Seq<Seq<char>>) -> Seq<ConfigPeer>
    decreases names.len(),
{
    if names.len() == 0 {
        Seq::empty()
    } else {
        let r = section_peers(conf, names.drop_last());
        match lookup_section(conf.sections@, names.last()) {
            Some(sec) => match spec_from_section(sec) {
                Ok(p) => r.push(p),
                Err(_) => r,
            },
            None => r,
        }
    }
}

/// The peers of the comma-separated pieces of the `peers` value: a piece of
/// the form `<address> AS<number>` is that peer; any other piece holds names
/// of peer sections, separated by spaces or tabs.
pub open spec fn pieces_peers(conf: IniFile, pieces: Seq<Seq<char>>) -> Seq<ConfigPeer>
    decreases pieces.len(),
{
    if pieces.len() == 0 {
        Seq::empty()
    } else {
        let r = pieces_peers(conf, pieces.drop_last());
        match spec_peer_entry(pieces.last()) {
            Some(p) => r.push(p),
            None => r + section_peers(conf, split_on(pieces.last(), seq![' ', '\t'])),
        }
    }
}

/// Law: every name of a list that names a peer section which reads as a
/// peer contributes that peer, wherever it stands in the list.
pub proof fn law_every_section_name_counts(conf: IniFile, names: Seq<Seq<char>>, i: int)
    requires
        0 <= i < names.len(),
        lookup_section(conf.sections@, names[i]) matches Some(sec) && spec_from_section(sec) is Ok,
    ensures
        ({
            let sec = lookup_section(conf.sections@, names[i]).unwrap();
            section_peers(conf, names).contains(spec_from_section(sec)->Ok_0)
        }),
    decreases names.len(),
{
    let sec = lookup_section(conf.sections@, names[i]).unwrap();
    let p = spec_from_section(sec)->Ok_0;
    let r = section_peers(conf, names.drop_last());
    if i < names.len() - 1 {
        assert(names.drop_last()[i] == names[i]);
        law_every_section_name_counts(conf, names.drop_last(), i);
        assert(r.contains(p));
        let j = choose|j: int| 0 <= j < r.len() && r[j] == p;
        match lookup_section(conf.sections@, names.last()) {
            Some(s2) => match spec_from_section(s2) {
                Ok(q) => assert(r.push(q)[j] == p),
                Err(_) => {},
            },
            None => {},
        }
    } else {
        assert(r.push(p)[r.len() as int] == p);
    }
}

/// The names a piece of the `peers` value lists, separated by spaces or tabs.
pub open spec fn piece_names(p: Seq<char>) -> Seq<Seq<char>> {
    split_on(p, seq![' ', '\t'])
}

/// Law: a piece of the `peers` value that is not of the form
/// `<address> AS<number>` lists peer sections by name, separated by spaces
/// or tabs: each name in it that names a peer section contributes that peer,
/// in order, the first and every later one alike.
pub proof fn law_piece_names_sections(conf: IniFile, p: Seq<char>)
    requires
        spec_peer_entry(p) is None,
    ensures
        pieces_peers(conf, seq![p]) == section_peers(conf, piece_names(p)),
        forall|i: int|
            0 <= i < piece_names(p).len() && (lookup_section(conf.sections@, #[trigger] piece_names(p)[i]) matches Some(
                sec,
            ) && spec_from_section(sec) is Ok) ==> pieces_peers(conf, seq![p]).contains(
                spec_from_section(lookup_section(conf.sections@, piece_names(p)[i]).unwrap())->Ok_0,
            ),
{
    let ns = piece_names(p);
    assert(seq![p].drop_last() =~= Seq::<Seq<char>>::empty());
    assert(seq![p].last() == p);
    assert(pieces_peers(conf, Seq::<Seq<char>>::empty()) == Seq::<ConfigPeer>::empty());
    assert(Seq::<ConfigPeer>::empty() + section_peers(conf, ns) =~= section_peers(conf, ns));
    assert forall|i: int|
        0 <= i < ns.len() && (lookup_section(conf.sections@, #[trigger] ns[i]) matches Some(sec)
            && spec_from_section(sec) is Ok) implies pieces_peers(conf, seq![p]).contains(
        spec_from_section(lookup_section(conf.sections@, ns[i]).unwrap())->Ok_0,
    ) by {
        law_every_section_name_counts(conf, ns, i);
    }
}

/// The peers that the `peers` value lists.
pub open spec fn spec_peers(conf: IniFile, v: Seq<char>) -> Seq<ConfigPeer> {
    pieces_peers(conf, split_on(v, seq![',']))
}

/// The default listening address of the BGP speaker, `0.0.0.0:179`.
pub open spec fn default_bgp_listen() -> SocketAddress {
    SocketAddress { ip: IpAddress::V4(0), port: 179, flowinfo: 0, scope_id: 0 }
}

/// The default listening address of the HTTP server, `0.0.0.0:8080`.
pub open spec fn default_http_listen() -> SocketAddress {
    SocketAddress { ip: IpAddress::V4(0), port: 8080, flowinfo: 0, scope_id: 0 }
}

/// The default router id and next hop, `1.1.1.1`.
pub open spec fn default_v4() -> u32 {
    0x0101_0101
}

/// The default IPv6 next hop, `ffff::101:101`.
pub open spec fn default_v6() -> u128 {
    0xffff_0000_0000_0000_0000_0000_0101_0101
}

/// The longest route lifetime, in seconds, that `chrono::Duration::seconds`
/// accepts.
pub open spec fn max_duration_secs() -> int {
    i64::MAX / 1000
}

/// A `duration` value that `chrono::Duration::seconds` would refuse.
pub open spec fn duration_out_of_range(main: IniSection) -> bool {
    match value_of(main, "duration"@) {
        Some(d) => match spec_parse_i64(d) {
            Some(q) => q < -max_duration_secs() || q > max_duration_secs(),
            None => false,
        },
        None => false,
    }
}

/// The service configuration.
pub struct SvcConfig {
    pub routerid: u32,
    pub activepeers: Vec<ConfigPeer>,
    pub listenat: Vec<SocketAddress>,
    /// Route lifetime, in seconds, when a request names none.
    pub default_duration: i64,
    pub nexthop4: u32,
    pub nexthop6: u128,
    pub skiplist: Vec<NetPrefix>,
    pub communities: Vec<u32>,
    pub httplisten: SocketAddress,
    pub http_files_root: String,
}

/// The value of `v` when present, else `default`.
pub open spec fn or_default<T>(v: Option<T>, default: T) -> T {
    match v {
        Some(x) => x,
        None => default,
    }
}

/// Parses the socket addresses of a list value.
fn parse_sockets(v: &str) -> (r: Vec<SocketAddress>)
    ensures
        r@ == sockets_of(split_on(v@, list_seps())),
{
    let cs = chars_of(v);
    let seps = vec![',', ' ', '\t'];
    assert(seps@ =~= list_seps());
    let pieces = split(&cs, &seps);
    let ghost ps = split_on(v@, list_seps());
    let mut r: Vec<SocketAddress> = Vec::new();
    let mut i: usize = 0;
    while i < pieces.len()
        invariant
            i <= pieces@.len(),
            pieces@.len() == ps.len(),
            forall|k: int| 0 <= k < pieces@.len() ==> (#[trigger] pieces@[k])@ == ps[k],
            r@ == sockets_of(ps.take(i as int)),
        decreases pieces@.len() - i,
    {
        assert(ps.take(i + 1).drop_last() =~= ps.take(i as int));
        let s = string_of(&pieces[i]);
        match std_parse_socket(s.as_str()) {
            Some(a) => r.push(a),
            None => {},
        }
        i = i + 1;
    }
    assert(ps.take(i as int) =~= ps);
    r
}

/// Parses the prefixes of a list value.
fn parse_nets(v: &str) -> (r: Vec<NetPrefix>)
    ensures
        r@ == nets_of(split_on(v@, list_seps())),
{
    let cs = chars_of(v);
    let seps = vec![',', ' ', '\t'];
    assert(seps@ =~= list_seps());
    let pieces = split(&cs, &seps);
    let ghost ps = split_on(v@, list_seps());
    let mut r: Vec<NetPrefix> = Vec::new();
    let mut i: usize = 0;
    while i < pieces.len()
        invariant
            i <= pieces@.len(),
            pieces@.len() == ps.len(),
            forall|k: int| 0 <= k < pieces@.len() ==> (#[trigger] pieces@[k])@ == ps[k],
            r@ == nets_of(ps.take(i as int)),
        decreases pieces@.len() - i,
    {
        assert(ps.take(i + 1).drop_last() =~= ps.take(i as int));
        let s = string_of(&pieces[i]);
        match zb_parse_net(s.as_str()) {
            Some(a) => r.push(a),
            None => {},
        }
        i = i + 1;
    }
    assert(ps.take(i as int) =~= ps);
    r
}

/// The non-empty pieces, in order.
fn nonempty_pieces(pieces: &Vec<Vec<char>>) -> (r: Vec<Vec<char>>)
    ensures
        r@.len() == nonempty(pieces@.map_values(|p: Vec<char>| p@)).len(),
        forall|k: int| 0 <= k < r@.len() ==> (#[trigger] r@[k])@ == nonempty(pieces@.map_values(|p: Vec<char>| p@))[k],
{
    let ghost ps = pieces@.map_values(|p: Vec<char>| p@);
    let mut r: Vec<Vec<char>> = Vec::new();
    let mut i: usize = 0;
    while i < pieces.len()
        invariant
            i <= pieces@.len(),
            ps == pieces@.map_values(|p: Vec<char>| p@),
            r@.len() == nonempty(ps.take(i as int)).len(),
            forall|k: int| 0 <= k < r@.len() ==> (#[trigger] r@[k])@ == nonempty(ps.take(i as int))[k],
        decreases pieces@.len() - i,
    {
        assert(ps.take(i + 1).drop_last() =~= ps.take(i as int));
        assert(ps.take(i + 1).last() == pieces@[i as int]@);
        if pieces[i].len() > 0 {
            let p = sub_chars(&pieces[i], 0, pieces[i].len());
            assert(p@ =~= pieces@[i as int]@);
            r.push(p);
        }
        i = i + 1;
    }
    assert(ps.take(i as int) =~= ps);
    r
}

/// Reads a piece of the form `<address> AS<number>`.
fn peer_entry(p: &Vec<char>) -> (r: Option<ConfigPeer>)
    ensures
        r == spec_peer_entry(p@),
{
    let t = trim(p);
    let seps = vec![' ', '\t'];
    assert(seps@ =~= seq![' ', '\t']);
    let sp = split(&t, &seps);
    assert(sp@.map_values(|v: Vec<char>| v@) =~= split_on(trim_spaces(p@), seq![' ', '\t']));
    let toks = nonempty_pieces(&sp);
    if toks.len() != 2 {
        return None;
    }
    let as_prefix = vec!['A', 'S'];
    assert(as_prefix@ =~= seq!['A', 'S']);
    if !starts_with(&toks[1], &as_prefix) {
        return None;
    }
    let ip = std_parse_ip(string_of(&toks[0]).as_str());
    let num = sub_chars(&toks[1], 2, toks[1].len());
    assert(num@ =~= toks@[1]@.skip(2));
    let asn = parse_u32(string_of(&num).as_str());
    match (ip, asn) {
        (Some(ip), Some(asn)) => Some(
            ConfigPeer { peeraddr: ip, peeras: asn, localas: asn, mode: PeerMode::Blackhole },
        ),
        _ => None,
    }
}

/// Appends the peers of the sections named by `names`.
fn append_section_peers(conf: &IniFile, names: &Vec<Vec<char>>, out: &mut Vec<ConfigPeer>)
    ensures
        final(out)@ == old(out)@ + section_peers(*conf, names@.map_values(|v: Vec<char>| v@)),
{
    let ghost ns = names@.map_values(|v: Vec<char>| v@);
    let ghost start = out@;
    let mut i: usize = 0;
    while i < names.len()
        invariant
            i <= names@.len(),
            ns == names@.map_values(|v: Vec<char>| v@),
            out@ == start + section_peers(*conf, ns.take(i as int)),
        decreases names@.len() - i,
    {
        assert(ns.take(i + 1).drop_last() =~= ns.take(i as int));
        assert(ns.take(i + 1).last() == names@[i as int]@);
        let name = string_of(&names[i]);
        match conf.section(name.as_str()) {
            Some(sec) => match ConfigPeer::from_section(sec) {
                Ok(p) => {
                    out.push(p);
                },
                Err(_) => {},
            },
            None => {},
        }
        assert(out@ =~= start + section_peers(*conf, ns.take(i + 1)));
        i = i + 1;
    }
    assert(ns.take(i as int) =~= ns);
}

/// The peers that the `peers` value lists.
fn parse_peers(conf: &IniFile, v: &str) -> (r: Vec<ConfigPeer>)
    ensures
        r@ == spec_peers(*conf, v@),
{
    let cs = chars_of(v);
    let commas = vec![','];
    assert(commas@ =~= seq![',']);
    let pieces = split(&cs, &commas);
    let ghost ps = split_on(v@, seq![',']);
    let mut r: Vec<ConfigPeer> = Vec::new();
    let mut i: usize = 0;
    while i < pieces.len()
        invariant
            i <= pieces@.len(),
            pieces@.len() == ps.len(),
            forall|k: int| 0 <= k < pieces@.len() ==> (#[trigger] pieces@[k])@ == ps[k],
            r@ == pieces_peers(*conf, ps.take(i as int)),
        decreases pieces@.len() - i,
    {
        assert(ps.take(i + 1).drop_last() =~= ps.take(i as int));
        assert(ps.take(i + 1).last() == pieces@[i as int]@);
        match peer_entry(&pieces[i]) {
            Some(p) => r.push(p),
            None => {
                let blanks = vec![' ', '\t'];
                assert(blanks@ =~= seq![' ', '\t']);
                let names = split(&pieces[i], &blanks);
                assert(names@.map_values(|n: Vec<char>| n@) =~= split_on(ps[i as int], seq![' ', '\t']));
                append_section_peers(conf, &names, &mut r);
            },
        }
        i = i + 1;
    }
    assert(ps.take(i as int) =~= ps);
    r
}

/// Inputs on which scanning `skip` for a prefix containing `c` panics: the
/// scan reaches an entry whose containment test panics.
pub open spec fn skiplist_panics(skip: Seq<NetPrefix>, c: NetPrefix) -> bool {
    exists|i: int|
        0 <= i < skip.len() && net_contains_panics(#[trigger] skip[i], c) && forall|j: int|
            0 <= j < i ==> !net_contains(skip[j], c)
}

/// Whether some prefix of `skip` contains `c`.
pub open spec fn skipped(skip: Seq<NetPrefix>, c: NetPrefix) -> bool {
    exists|i: int| 0 <= i < skip.len() && net_contains(#[trigger] skip[i], c)
}

/// Whether `outer.contains(inner)` panics.
fn contains_panics(outer: &NetPrefix, inner: &NetPrefix) -> (r: bool)
    ensures
        r == net_contains_panics(*outer, *inner),
{
    match (outer, inner) {
        (NetPrefix::V4(_, a), NetPrefix::V4(_, b)) => 1 <= *a && *a < *b && *b > 32,
        (NetPrefix::V6(_, a), NetPrefix::V6(_, b)) => 1 <= *a && *a < *b && *a > 128,
        (NetPrefix::Mac(_, a), NetPrefix::Mac(_, b)) => 1 <= *a && *a < *b && *b > 48,
        _ => false,
    }
}

/// Whether the `duration` of the `main` section, if any, is one that
/// `chrono::Duration::seconds` accepts.
pub fn duration_in_range(conf: &IniFile) -> (r: bool)
    ensures
        r == !(lookup_section(conf.sections@, "main"@) matches Some(main) && duration_out_of_range(main)),
{
    match conf.section("main") {
        None => true,
        Some(main) => match main.value("duration") {
            None => true,
            Some(d) => match parse_i64(d.as_str()) {
                None => true,
                Some(q) => -9_223_372_036_854_775 <= q && q <= 9_223_372_036_854_775,
            },
        },
    }
}

impl SvcConfig {
    /// Whether a prefix of the skip list contains `c`.
    pub fn in_skiplist(&self, c: &NetPrefix) -> (r: bool)
        requires
            !skiplist_panics(self.skiplist@, *c),
        ensures
            r == skipped(self.skiplist@, *c),
    {
        let mut i: usize = 0;
        while i < self.skiplist.len()
            invariant
                i <= self.skiplist@.len(),
                !skiplist_panics(self.skiplist@, *c),
                forall|j: int| 0 <= j < i ==> !net_contains(self.skiplist@[j], *c),
            decreases self.skiplist@.len() - i,
        {
            if self.skiplist[i].contains(c) {
                return true;
            }
            i = i + 1;
        }
        false
    }

    /// Whether scanning the skip list for a prefix containing `c` would panic.
    pub fn skiplist_scan_panics(&self, c: &NetPrefix) -> (r: bool)
        ensures
            r == skiplist_panics(self.skiplist@, *c),
    {
        let mut i: usize = 0;
        while i < self.skiplist.len()
            invariant
                i <= self.skiplist@.len(),
                forall|j: int| 0 <= j < i ==> !net_contains(self.skiplist@[j], *c),
                forall|j: int| 0 <= j < i ==> !net_contains_panics(#[trigger] self.skiplist@[j], *c),
            decreases self.skiplist@.len() - i,
        {
            if contains_panics(&self.skiplist[i], c) {
                return true;
            }
            if self.skiplist[i].contains(c) {
                assert(!skiplist_panics(self.skiplist@, *c)) by {
                    if skiplist_panics(self.skiplist@, *c) {
                        let k = choose|k: int|
                            0 <= k < self.skiplist@.len() && net_contains_panics(#[trigger] self.skiplist@[k], *c)
                                && forall|j: int| 0 <= j < k ==> !net_contains(self.skiplist@[j], *c);
                        assert(k > i ==> !net_contains(self.skiplist@[i as int], *c));
                    }
                }
                return false;
            }
            i = i + 1;
        }
        false
    }

    /// Builds the configuration from the ini file's `main` section; every key
    /// that is missing, has no value or does not parse takes its default.
    pub fn from_inifile(conf: &IniFile) -> (r: Result<SvcConfig, ErrorConfig>)
        requires
            lookup_section(conf.sections@, "main"@) matches Some(main) ==> !duration_out_of_range(main),
        ensures
            match lookup_section(conf.sections@, "main"@) {
                None => r == Err::<SvcConfig, ErrorConfig>(ErrorConfig::Static("Missing section 'main' in ini file")),
                Some(main) => r matches Ok(c) && {
                    &&& c.routerid == or_default(
                        match value_of(main, "routerid"@) { Some(v) => spec_parse_ipv4(v), None => None },
                        default_v4(),
                    )
                    &&& c.listenat@ == match value_of(main, "listen"@) {
                        Some(v) => sockets_of(split_on(v, list_seps())),
                        None => seq![default_bgp_listen()],
                    }
                    &&& c.skiplist@ == match value_of(main, "skiplist"@) {
                        Some(v) => nets_of(split_on(v, list_seps())),
                        None => Seq::<NetPrefix>::empty(),
                    }
                    &&& c.httplisten == or_default(
                        match value_of(main, "httplisten"@) { Some(v) => spec_parse_socket(v), None => None },
                        default_http_listen(),
                    )
                    &&& c.http_files_root@ == or_default(value_of(main, "http_files_root"@), "./contrib/"@)
                    &&& c.activepeers@ == match value_of(main, "peers"@) {
                        Some(v) => spec_peers(*conf, v),
                        None => Seq::<ConfigPeer>::empty(),
                    }
                    &&& c.nexthop4 == or_default(
                        match value_of(main, "nexthop"@) { Some(v) => spec_parse_ipv4(v), None => None },
                        default_v4(),
                    )
                    &&& c.nexthop6 == or_default(
                        match value_of(main, "nexthop6"@) { Some(v) => spec_parse_ipv6(v), None => None },
                        default_v6(),
                    )
                    &&& c.communities@ == match value_of(main, "communities"@) {
                        Some(v) => spec_parse_communities(v),
                        None => Seq::<u32>::empty(),
                    }
                    &&& c.default_duration == or_default(
                        match value_of(main, "duration"@) { Some(v) => spec_parse_i64(v), None => None },
                        3600,
                    )
                },
            },
    {
        let main = match conf.section("main") {
            Some(m) => m,
            None => return Err(ErrorConfig::from_str("Missing section 'main' in ini file")),
        };
        let routerid: u32 = match main.value("routerid") {
            Some(s) => match std_parse_ipv4(s.as_str()) {
                Some(q) => q,
                None => 0x0101_0101,
            },
            None => 0x0101_0101,
        };
        let listen: Vec<SocketAddress> = match main.value("listen") {
            Some(s) => parse_sockets(s.as_str()),
            None => vec![SocketAddress { ip: IpAddress::V4(0), port: 179, flowinfo: 0, scope_id: 0 }],
        };
        let skplist: Vec<NetPrefix> = match main.value("skiplist") {
            Some(s) => parse_nets(s.as_str()),
            None => Vec::new(),
        };
        let httplisten: SocketAddress = match main.value("httplisten") {
            Some(s) => match std_parse_socket(s.as_str()) {
                Some(q) => q,
                None => SocketAddress { ip: IpAddress::V4(0), port: 8080, flowinfo: 0, scope_id: 0 },
            },
            None => SocketAddress { ip: IpAddress::V4(0), port: 8080, flowinfo: 0, scope_id: 0 },
        };
        let http_files_root: String = match main.value("http_files_root") {
            Some(s) => s.clone(),
            None => "./contrib/".to_string(),
        };
        let peers: Vec<ConfigPeer> = match main.value("peers") {
            Some(s) => parse_peers(conf, s.as_str()),
            None => Vec::new(),
        };
        let nh4: u32 = match main.value("nexthop") {
            Some(s) => match std_parse_ipv4(s.as_str()) {
                Some(q) => q,
                None => 0x0101_0101,
            },
            None => 0x0101_0101,
        };
        let nh6: u128 = match main.value("nexthop6") {
            Some(s) => match std_parse_ipv6(s.as_str()) {
                Some(q) => q,
                None => 0xffff_0000_0000_0000_0000_0000_0101_0101,
            },
            None => 0xffff_0000_0000_0000_0000_0000_0101_0101,
        };
        let cms: Vec<u32> = match main.value("communities") {
            Some(s) => zb_parse_communities(s.as_str()),
            None => Vec::new(),
        };
        let dur: i64 = match main.value("duration") {
            Some(s) => match parse_i64(s.as_str()) {
                Some(q) => q,
                None => 3600,
            },
            None => 3600,
        };
        Ok(SvcConfig {
            routerid,
            activepeers: peers,
            listenat: listen,
            nexthop4: nh4,
            nexthop6: nh6,
            skiplist: skplist,
            httplisten,
            communities: cms,
            default_duration: dur,
            http_files_root,
        })
    }
}

} // verus!
