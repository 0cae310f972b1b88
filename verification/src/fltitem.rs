//! Flow filter items: a prefix to be filtered as a source address, as a
//! destination address, or both, and the filter updates they make.

use vstd::prelude::*;
use std::collections::BTreeSet;
use crate::net::{
    NetPrefix, spec_net_text, spec_parse_addr_v4, spec_parse_addr_v6, zb_parse_addr_v4, zb_parse_addr_v6,
};
use crate::text::{
    append_str, chars_of, has_prefix, is_white_space, lemma_trim_exact, starts_with, string_of, sub_chars, trim,
    trim_spaces,
};

verus! {

broadcast use vstd::std_specs::btree::group_btree_axioms, vstd::laws_cmp::group_laws_cmp;

/// Which address of a packet a filter item matches.
#[derive(Clone, Copy, Debug, PartialEq, Eq, Structural)]
pub enum FilterPref {
    Src,
    Dst,
    Both,
}

impl FilterPref {
    /// The item's keyword: `src`, `dst` or `both`.
    pub fn name(&self) -> (r: &'static str)
        ensures
            r@ == match *self {
                FilterPref::Src => "src"@,
                FilterPref::Dst => "dst"@,
                FilterPref::Both => "both"@,
            },
    {
        match self {
            FilterPref::Src => "src",
            FilterPref::Dst => "dst",
            FilterPref::Both => "both",
        }
    }
}

/// A prefix to filter, and on which address.
#[derive(Clone, Copy, Debug, PartialEq, Eq, Structural)]
pub struct FilterItem {
    pub pref: FilterPref,
    pub net: NetPrefix,
}

/// The direction code of a filter target: 0 matches the source address, 1
/// the destination address.
pub open spec fn direction_codes(pref: FilterPref) -> Set<u8> {
    match pref {
        FilterPref::Src => set![0u8],
        FilterPref::Dst => set![1u8],
        FilterPref::Both => set![0u8, 1u8],
    }
}

/// Filter targets to announce and withdraw: a direction code, then an
/// IPv4 or IPv6 prefix.
pub struct FilterUpdate {
    pub updates4: BTreeSet<(u8, u32, u8)>,
    pub withdraws4: BTreeSet<(u8, u32, u8)>,
    pub updates6: BTreeSet<(u8, u128, u8)>,
    pub withdraws6: BTreeSet<(u8, u128, u8)>,
}

impl FilterUpdate {
    /// An update with no target.
    pub fn new() -> (r: FilterUpdate)
        ensures
            r.updates4@ == Set::<(u8, u32, u8)>::empty(),
            r.withdraws4@ == Set::<(u8, u32, u8)>::empty(),
            r.updates6@ == Set::<(u8, u128, u8)>::empty(),
            r.withdraws6@ == Set::<(u8, u128, u8)>::empty(),
    {
        FilterUpdate {
            updates4: BTreeSet::new(),
            withdraws4: BTreeSet::new(),
            updates6: BTreeSet::new(),
            withdraws6: BTreeSet::new(),
        }
    }
}

/// The IPv4 targets of an item.
pub open spec fn targets_v4(item: FilterItem) -> Set<(u8, u32, u8)> {
    match item.net {
        NetPrefix::V4(a, l) => direction_codes(item.pref).map(|d: u8| (d, a, l)),
        _ => Set::empty(),
    }
}

/// The IPv6 targets of an item.
pub open spec fn targets_v6(item: FilterItem) -> Set<(u8, u128, u8)> {
    match item.net {
        NetPrefix::V6(a, l) => direction_codes(item.pref).map(|d: u8| (d, a, l)),
        _ => Set::empty(),
    }
}

/// Adds the targets of `item` to the sets of one update kind.
fn add_targets(item: &FilterItem, s4: &mut BTreeSet<(u8, u32, u8)>, s6: &mut BTreeSet<(u8, u128, u8)>)
    ensures
        final(s4)@ == old(s4)@.union(targets_v4(*item)),
        final(s6)@ == old(s6)@.union(targets_v6(*item)),
{
    let src = item.pref == FilterPref::Src || item.pref == FilterPref::Both;
    let dst = item.pref == FilterPref::Dst || item.pref == FilterPref::Both;
    match item.net {
        NetPrefix::V4(a, l) => {
            if src {
                s4.insert((0, a, l));
            }
            if dst {
                s4.insert((1, a, l));
            }
            assert(direction_codes(item.pref).map(|d: u8| (d, a, l)) =~= if src && dst {
                set![(0u8, a, l), (1u8, a, l)]
            } else if src {
                set![(0u8, a, l)]
            } else {
                set![(1u8, a, l)]
            }) by {
                assert(direction_codes(item.pref).contains(0u8) == src);
                assert(direction_codes(item.pref).contains(1u8) == dst);
            }
        },
        NetPrefix::V6(a, l) => {
            if src {
                s6.insert((0, a, l));
            }
            if dst {
                s6.insert((1, a, l));
            }
            assert(direction_codes(item.pref).map(|d: u8| (d, a, l)) =~= if src && dst {
                set![(0u8, a, l), (1u8, a, l)]
            } else if src {
                set![(0u8, a, l)]
            } else {
                set![(1u8, a, l)]
            }) by {
                assert(direction_codes(item.pref).contains(0u8) == src);
                assert(direction_codes(item.pref).contains(1u8) == dst);
            }
        },
        NetPrefix::Mac(..) => {},
    }
    assert(s4@ =~= old(s4)@.union(targets_v4(*item)));
    assert(s6@ =~= old(s6)@.union(targets_v6(*item)));
}

/// What `FilterItem::from_str` reads: surrounding whitespace is dropped; a
/// leading `src`, `dst` or `both` (with the whitespace after it) names the
/// address to match, `both` when there is none; the rest is an IPv4 prefix,
/// else an IPv6 prefix.
pub open spec fn spec_parse_filter_item(s: Seq<char>) -> Option<FilterItem> {
    let t = trim_spaces(s);
    let (pref, rest) = if has_prefix(t, "src"@) {
        (FilterPref::Src, trim_spaces(t.skip(3)))
    } else if has_prefix(t, "dst"@) {
        (FilterPref::Dst, trim_spaces(t.skip(3)))
    } else if has_prefix(t, "both"@) {
        (FilterPref::Both, trim_spaces(t.skip(4)))
    } else {
        (FilterPref::Both, t)
    };
    match spec_parse_addr_v4(rest) {
        Some(a) => Some(FilterItem { pref, net: NetPrefix::V4(a.0, a.1) }),
        None => match spec_parse_addr_v6(rest) {
            Some(a) => Some(FilterItem { pref, net: NetPrefix::V6(a.0, a.1) }),
            None => None,
        },
    }
}

/// The keyword that names `pref`.
pub open spec fn pref_keyword(pref: FilterPref) -> Seq<char> {
    match pref {
        FilterPref::Src => "src"@,
        FilterPref::Dst => "dst"@,
        FilterPref::Both => "both"@,
    }
}

/// An item written as its keyword, a space and a prefix text with no
/// whitespace that the reader of the item's family reads back as the
/// item's prefix, is read back as the item.
proof fn lemma_reads_back(item: FilterItem, text: Seq<char>)
    requires
        text.len() > 0,
        forall|i: int| 0 <= i < text.len() ==> !is_white_space(#[trigger] text[i]),
        item.net matches NetPrefix::V4(a, l) ==> spec_parse_addr_v4(text) == Some((a, l)),
        item.net matches NetPrefix::V6(a, l) ==> spec_parse_addr_v4(text) is None
            && spec_parse_addr_v6(text) == Some((a, l)),
        item.net is V4 || item.net is V6,
    ensures
        spec_parse_filter_item(pref_keyword(item.pref) + " "@ + text) == Some(item),
{
    reveal_strlit("src");
    reveal_strlit("dst");
    reveal_strlit("both");
    reveal_strlit(" ");
    let kw = pref_keyword(item.pref);
    let s = kw + " "@ + text;
    let k = kw.len() as int;
    assert(!is_white_space(s[0]));
    assert(s[s.len() - 1] == text[text.len() - 1]);
    lemma_trim_exact(s, 0, s.len() as int);
    assert(s.subrange(0, s.len() as int) =~= s);
    let after = s.skip(k);
    assert(after =~= " "@ + text);
    assert forall|j: int| 0 <= j < 1 implies is_white_space(#[trigger] after[j]) by {}
    assert(after[1] == text[0]);
    assert(after[after.len() - 1] == text[text.len() - 1]);
    lemma_trim_exact(after, 1, after.len() as int);
    assert(after.subrange(1, after.len() as int) =~= text);
    assert(s.subrange(0, k) =~= kw);
    match item.pref {
        FilterPref::Src => {
            assert(has_prefix(s, "src"@));
        },
        FilterPref::Dst => {
            assert(s[0] == 'd');
            assert(!has_prefix(s, "src"@)) by {
                assert(s.subrange(0, 3)[0] == 'd');
            }
            assert(has_prefix(s, "dst"@));
        },
        FilterPref::Both => {
            assert(s[0] == 'b');
            assert(!has_prefix(s, "src"@)) by {
                assert(s.subrange(0, 3)[0] == 'b');
            }
            assert(!has_prefix(s, "dst"@)) by {
                assert(s.subrange(0, 3)[0] == 'b');
            }
            assert(has_prefix(s, "both"@));
        },
    }
}

impl FilterItem {
    /// Adds the item's targets to the announcements of `upd`.
    pub fn update_to(&self, upd: &mut FilterUpdate)
        ensures
            final(upd).updates4@ == old(upd).updates4@.union(targets_v4(*self)),
            final(upd).updates6@ == old(upd).updates6@.union(targets_v6(*self)),
            final(upd).withdraws4@ == old(upd).withdraws4@,
            final(upd).withdraws6@ == old(upd).withdraws6@,
    {
        add_targets(self, &mut upd.updates4, &mut upd.updates6);
    }

    /// Adds the item's targets to the withdrawals of `upd`.
    pub fn withdraw_to(&self, upd: &mut FilterUpdate)
        ensures
            final(upd).withdraws4@ == old(upd).withdraws4@.union(targets_v4(*self)),
            final(upd).withdraws6@ == old(upd).withdraws6@.union(targets_v6(*self)),
            final(upd).updates4@ == old(upd).updates4@,
            final(upd).updates6@ == old(upd).updates6@,
    {
        add_targets(self, &mut upd.withdraws4, &mut upd.withdraws6);
    }

    /// The item as it is written: its keyword, a space, its prefix. An item
    /// on an IPv4 or IPv6 prefix reads back, by `from_str`, as itself.
    pub fn to_string(&self) -> (r: String)
        ensures
            r@ == pref_keyword(self.pref) + " "@ + spec_net_text(self.net),
            (self.net is V4 || self.net is V6) ==> spec_parse_filter_item(r@) == Some(*self),
    {
        let mut v: Vec<char> = Vec::new();
        append_str(&mut v, self.pref.name());
        append_str(&mut v, " ");
        let n = self.net.to_string();
        append_str(&mut v, n.as_str());
        proof {
            if self.net is V4 || self.net is V6 {
                lemma_reads_back(*self, n@);
            }
        }
        string_of(&v)
    }

    /// Reads an item such as `src 10.0.0.0/8` or `2001:db8::/32`.
    pub fn from_str(s: &str) -> (r: Result<FilterItem, &'static str>)
        ensures
            match spec_parse_filter_item(s@) {
                Some(item) => r == Ok::<FilterItem, &'static str>(item),
                None => r == Err::<FilterItem, &'static str>("Invalid FilterItem"),
            },
    {
        let t = trim(&chars_of(s));
        let src = chars_of("src");
        let dst = chars_of("dst");
        let both = chars_of("both");
        proof {
            reveal_strlit("src");
            reveal_strlit("dst");
            reveal_strlit("both");
        }
        let (pref, rest) = if starts_with(&t, &src) {
            let r = trim(&sub_chars(&t, 3, t.len()));
            assert(t@.subrange(3, t@.len() as int) =~= t@.skip(3));
            (FilterPref::Src, r)
        } else if starts_with(&t, &dst) {
            let r = trim(&sub_chars(&t, 3, t.len()));
            assert(t@.subrange(3, t@.len() as int) =~= t@.skip(3));
            (FilterPref::Dst, r)
        } else if starts_with(&t, &both) {
            let r = trim(&sub_chars(&t, 4, t.len()));
            assert(t@.subrange(4, t@.len() as int) =~= t@.skip(4));
            (FilterPref::Both, r)
        } else {
            (FilterPref::Both, t)
        };
        let rs = string_of(&rest);
        if let Some(a) = zb_parse_addr_v4(rs.as_str()) {
            return Ok(FilterItem { pref, net: NetPrefix::V4(a.0, a.1) });
        }
        if let Some(a) = zb_parse_addr_v6(rs.as_str()) {
            return Ok(FilterItem { pref, net: NetPrefix::V6(a.0, a.1) });
        }
        Err("Invalid FilterItem")
    }
}

} // verus!
