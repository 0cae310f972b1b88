//! The route table of banned prefixes and the updates that change it.
//!
//! Each entry maps a prefix to the instant, in milliseconds since the Unix
//! epoch, until which it stays announced.

use vstd::prelude::*;
use vstd::laws_cmp::obeys_cmp;
use vstd::std_specs::iter::IteratorSpec;
use std::collections::{BTreeMap, BTreeSet};
use vstd::arithmetic::power2::{pow2, lemma_pow2_adds, lemma_pow2_pos, lemma2_to64};
use vstd::arithmetic::div_mod::{lemma_fundamental_div_mod, lemma_mod_bound};
use crate::net::{
    NetV4, NetV6, contains_v4, contains_v6, in_subnet_v6, low_v6, range_last_v6, covered_v4, covered_v6, in_subnet_v4, le_v4, le_v6, low_v4, range_last_v4, withdraw_covers_v4,
    withdraw_covers_v6,
};
use crate::session::{in_order_v4, in_order_v6, lemma_walk_sorted_v4, lemma_walk_sorted_v6};

verus! {

broadcast use vstd::std_specs::btree::group_btree_axioms, vstd::laws_cmp::group_laws_cmp;

/// A batch of announcements and withdrawals, per address family.
pub struct BgpRibUpdate {
    pub updates4: BTreeSet<NetV4>,
    pub withdraws4: BTreeSet<NetV4>,
    pub updates6: BTreeSet<NetV6>,
    pub withdraws6: BTreeSet<NetV6>,
}

impl BgpRibUpdate {
    /// An update that announces and withdraws nothing.
    pub fn new() -> (r: BgpRibUpdate)
        ensures
            r.updates4@ == Set::<NetV4>::empty(),
            r.withdraws4@ == Set::<NetV4>::empty(),
            r.updates6@ == Set::<NetV6>::empty(),
            r.withdraws6@ == Set::<NetV6>::empty(),
    {
        BgpRibUpdate {
            updates4: BTreeSet::new(),
            withdraws4: BTreeSet::new(),
            updates6: BTreeSet::new(),
            withdraws6: BTreeSet::new(),
        }
    }

    /// Whether the update holds no prefix at all.
    pub open spec fn spec_is_empty(&self) -> bool {
        &&& self.updates4@.is_empty()
        &&& self.withdraws4@.is_empty()
        &&& self.updates6@.is_empty()
        &&& self.withdraws6@.is_empty()
    }

    /// Whether the update holds no prefix at all.
    pub fn is_empty(&self) -> (r: bool)
        ensures
            r == self.spec_is_empty(),
    {
        self.updates4.is_empty() && self.withdraws4.is_empty() && self.updates6.is_empty()
            && self.withdraws6.is_empty()
    }
}

/// The IPv4 entries of `table` that withdrawing the prefixes `ws` removes.
pub open spec fn withdrawn_v4(table: Map<NetV4, i64>, ws: Set<NetV4>) -> Set<NetV4> {
    Set::new(|k: NetV4| table.contains_key(k) && exists|w: NetV4| ws.contains(w) && covered_v4(w, k))
}

/// The IPv6 entries of `table` that withdrawing the prefixes `ws` removes.
pub open spec fn withdrawn_v6(table: Map<NetV6, i64>, ws: Set<NetV6>) -> Set<NetV6> {
    Set::new(|k: NetV6| table.contains_key(k) && exists|w: NetV6| ws.contains(w) && covered_v6(w, k))
}

/// `table` with the entries in `gone` removed and every prefix of `added`
/// mapped to `till`.
pub open spec fn replace_entries<K>(table: Map<K, i64>, gone: Set<K>, added: Set<K>, till: i64) -> Map<K, i64> {
    Map::new(
        |k: K| added.contains(k) || (table.contains_key(k) && !gone.contains(k)),
        |k: K| if added.contains(k) { till } else { table[k] },
    )
}

/// The prefixes of `table` whose instant is before `now`.
pub open spec fn expired<K>(table: Map<K, i64>, now: i64) -> Set<K> {
    Set::new(|k: K| table.contains_key(k) && table[k] < now)
}

/// Withdrawals that the crate's prefix arithmetic handles without panicking:
/// IPv4 lengths up to 32; IPv6 lengths up to 128, and length 0 only where no
/// entry of the table lies at or above the prefix.
pub open spec fn withdrawals_ok(
    t4: Map<NetV4, i64>,
    t6: Map<NetV6, i64>,
    w4: Set<NetV4>,
    w6: Set<NetV6>,
) -> bool {
    &&& forall|w: NetV4| w4.contains(w) ==> w.1 <= 32
    &&& forall|w: NetV6|
        w6.contains(w) ==> w.1 <= 128 && (w.1 == 0 ==> forall|k: NetV6|
            t6.contains_key(k) ==> !le_v6(w, k))
}

/// Adds to `acc` every key of `table` that withdrawing `w` removes.
fn collect_covered_v4(table: &BTreeMap<NetV4, i64>, w: NetV4, acc: &mut BTreeSet<NetV4>)
    requires
        w.1 <= 32,
    ensures
        final(acc)@ == old(acc)@.union(
            Set::new(|k: NetV4| table@.contains_key(k) && covered_v4(w, k)),
        ),
{
    let ghost keys = table.keys().remaining().unref();
    let ghost start = acc@;
    let ghost mut n: int = 0;
    for k in it: table.keys()
        invariant
            it.seq().unref() == keys,
            keys.to_set() == table@.dom(),
            w.1 <= 32,
            n == it.index(),
            acc@ == start.union(
                Set::new(|x: NetV4| exists|j: int| 0 <= j < n && keys[j] == x && covered_v4(w, x)),
            ),
    {
        proof {
            n = n + 1;
        }
        if withdraw_covers_v4(w, *k) {
            acc.insert(*k);
        }
        assert(acc@ =~= start.union(
            Set::new(|x: NetV4| exists|j: int| 0 <= j < n && keys[j] == x && covered_v4(w, x)),
        )) by {
            assert(keys[n - 1] == *k);
        }
    }
    proof {
        assert(n == keys.len());
        assert forall|x: NetV4| table@.contains_key(x) && covered_v4(w, x) implies (exists|j: int|
            0 <= j < n && keys[j] == x && covered_v4(w, x)) by {
            assert(keys.to_set().contains(x));
        }
        assert forall|x: NetV4| (exists|j: int| 0 <= j < n && keys[j] == x && covered_v4(w, x))
            implies table@.contains_key(x) by {
            let j = choose|j: int| 0 <= j < n && keys[j] == x && covered_v4(w, x);
            assert(keys.to_set().contains(keys[j]));
        }
    }
    assert(acc@ =~= start.union(Set::new(|k: NetV4| table@.contains_key(k) && covered_v4(w, k))));
}

/// Adds to `acc` every key of `table` that withdrawing `w` removes.
fn collect_covered_v6(table: &BTreeMap<NetV6, i64>, w: NetV6, acc: &mut BTreeSet<NetV6>)
    requires
        w.1 <= 128,
        w.1 == 0 ==> forall|k: NetV6| table@.contains_key(k) ==> !le_v6(w, k),
    ensures
        final(acc)@ == old(acc)@.union(
            Set::new(|k: NetV6| table@.contains_key(k) && covered_v6(w, k)),
        ),
{
    let ghost keys = table.keys().remaining().unref();
    let ghost start = acc@;
    let ghost mut n: int = 0;
    for k in it: table.keys()
        invariant
            it.seq().unref() == keys,
            keys.to_set() == table@.dom(),
            w.1 <= 128,
            w.1 == 0 ==> forall|k: NetV6| table@.contains_key(k) ==> !le_v6(w, k),
            n == it.index(),
            acc@ == start.union(
                Set::new(|x: NetV6| exists|j: int| 0 <= j < n && keys[j] == x && covered_v6(w, x)),
            ),
    {
        proof {
            n = n + 1;
            assert(keys[n - 1] == *k);
            assert(keys.to_set().contains(keys[n - 1]));
        }
        if withdraw_covers_v6(w, *k) {
            acc.insert(*k);
        }
        assert(acc@ =~= start.union(
            Set::new(|x: NetV6| exists|j: int| 0 <= j < n && keys[j] == x && covered_v6(w, x)),
        ));
    }
    proof {
        assert(n == keys.len());
        assert forall|x: NetV6| table@.contains_key(x) && covered_v6(w, x) implies (exists|j: int|
            0 <= j < n && keys[j] == x && covered_v6(w, x)) by {
            assert(keys.to_set().contains(x));
        }
        assert forall|x: NetV6| (exists|j: int| 0 <= j < n && keys[j] == x && covered_v6(w, x))
            implies table@.contains_key(x) by {
            let j = choose|j: int| 0 <= j < n && keys[j] == x && covered_v6(w, x);
            assert(keys.to_set().contains(keys[j]));
        }
    }
    assert(acc@ =~= start.union(Set::new(|k: NetV6| table@.contains_key(k) && covered_v6(w, k))));
}

proof fn lemma_take_to_set_step<K>(ks: Seq<K>, n: int)
    requires
        0 <= n < ks.len(),
    ensures
        ks.take(n + 1).to_set() == ks.take(n).to_set().insert(ks[n]),
{
    assert(ks.take(n + 1) =~= ks.take(n).push(ks[n]));
    ks.take(n).lemma_push_to_set_commute(ks[n]);
}

/// Maps every key of `keys` to `till` in `table`.
fn insert_all<K: Ord + Copy>(table: &mut BTreeMap<K, i64>, keys: &BTreeSet<K>, till: i64)
    requires
        obeys_cmp::<K>(),
    ensures
        final(table)@ == replace_entries(old(table)@, Set::empty(), keys@, till),
{
    let ghost ks = keys.iter().remaining().unref();
    let ghost start = table@;
    let ghost mut n: int = 0;
    for k in it: keys.iter()
        invariant
            obeys_cmp::<K>(),
            it.seq().unref() == ks,
            ks.to_set() == keys@,
            n == it.index(),
            table@ == replace_entries(start, Set::empty(), ks.take(n).to_set(), till),
    {
        proof {
            n = n + 1;
            assert(ks[n - 1] == *k);
        }
        table.insert(*k, till);
        proof {
            lemma_take_to_set_step(ks, n - 1);
        }
        assert(table@ =~= replace_entries(start, Set::empty(), ks.take(n).to_set(), till));
    }
    assert(ks.take(n) =~= ks);
}

/// Removes every key of `keys` from `table`.
fn remove_all<K: Ord + Copy>(table: &mut BTreeMap<K, i64>, keys: &BTreeSet<K>)
    requires
        obeys_cmp::<K>(),
    ensures
        final(table)@ == replace_entries(old(table)@, keys@, Set::empty(), 0),
{
    let ghost ks = keys.iter().remaining().unref();
    let ghost start = table@;
    let ghost mut n: int = 0;
    for k in it: keys.iter()
        invariant
            obeys_cmp::<K>(),
            it.seq().unref() == ks,
            ks.to_set() == keys@,
            n == it.index(),
            table@ == replace_entries(start, ks.take(n).to_set(), Set::empty(), 0),
    {
        proof {
            n = n + 1;
            assert(ks[n - 1] == *k);
        }
        table.remove(k);
        proof {
            lemma_take_to_set_step(ks, n - 1);
        }
        assert(table@ =~= replace_entries(start, ks.take(n).to_set(), Set::empty(), 0));
    }
    assert(ks.take(n) =~= ks);
}

/// The keys of `keys` that `table` does not hold.
fn fresh_keys<K: Ord + Copy>(table: &BTreeMap<K, i64>, keys: &BTreeSet<K>) -> (r: BTreeSet<K>)
    requires
        obeys_cmp::<K>(),
    ensures
        r@ == keys@.difference(table@.dom()),
{
    let mut r: BTreeSet<K> = BTreeSet::new();
    let ghost ks = keys.iter().remaining().unref();
    let ghost mut n: int = 0;
    for k in it: keys.iter()
        invariant
            obeys_cmp::<K>(),
            it.seq().unref() == ks,
            ks.to_set() == keys@,
            n == it.index(),
            r@ == ks.take(n).to_set().difference(table@.dom()),
    {
        proof {
            n = n + 1;
            assert(ks[n - 1] == *k);
            lemma_take_to_set_step(ks, n - 1);
        }
        if !table.contains_key(k) {
            r.insert(*k);
        }
        assert(r@ =~= ks.take(n).to_set().difference(table@.dom()));
    }
    assert(ks.take(n) =~= ks);
    r
}

/// The entries of `table` that withdrawing the prefixes of `ws` removes.
fn withdrawn_entries_v4(table: &BTreeMap<NetV4, i64>, ws: &BTreeSet<NetV4>) -> (r: BTreeSet<NetV4>)
    requires
        forall|w: NetV4| ws@.contains(w) ==> w.1 <= 32,
    ensures
        r@ == withdrawn_v4(table@, ws@),
{
    let mut r: BTreeSet<NetV4> = BTreeSet::new();
    let ghost ks = ws.iter().remaining().unref();
    let ghost mut n: int = 0;
    for w in it: ws.iter()
        invariant
            it.seq().unref() == ks,
            ks.to_set() == ws@,
            forall|w: NetV4| ws@.contains(w) ==> w.1 <= 32,
            n == it.index(),
            r@ == withdrawn_v4(table@, ks.take(n).to_set()),
    {
        proof {
            n = n + 1;
            assert(ks[n - 1] == *w);
            assert(ks.to_set().contains(ks[n - 1]));
            lemma_take_to_set_step(ks, n - 1);
        }
        collect_covered_v4(table, *w, &mut r);
        assert(r@ =~= withdrawn_v4(table@, ks.take(n).to_set()));
    }
    assert(ks.take(n) =~= ks);
    r
}

/// The entries of `table` that withdrawing the prefixes of `ws` removes.
fn withdrawn_entries_v6(table: &BTreeMap<NetV6, i64>, ws: &BTreeSet<NetV6>) -> (r: BTreeSet<NetV6>)
    requires
        forall|w: NetV6|
            ws@.contains(w) ==> w.1 <= 128 && (w.1 == 0 ==> forall|k: NetV6|
                table@.contains_key(k) ==> !le_v6(w, k)),
    ensures
        r@ == withdrawn_v6(table@, ws@),
{
    let mut r: BTreeSet<NetV6> = BTreeSet::new();
    let ghost ks = ws.iter().remaining().unref();
    let ghost mut n: int = 0;
    for w in it: ws.iter()
        invariant
            it.seq().unref() == ks,
            ks.to_set() == ws@,
            forall|w: NetV6|
                ws@.contains(w) ==> w.1 <= 128 && (w.1 == 0 ==> forall|k: NetV6|
                    table@.contains_key(k) ==> !le_v6(w, k)),
            n == it.index(),
            r@ == withdrawn_v6(table@, ks.take(n).to_set()),
    {
        proof {
            n = n + 1;
            assert(ks[n - 1] == *w);
            assert(ks.to_set().contains(ks[n - 1]));
            lemma_take_to_set_step(ks, n - 1);
        }
        collect_covered_v6(table, *w, &mut r);
        assert(r@ =~= withdrawn_v6(table@, ks.take(n).to_set()));
    }
    assert(ks.take(n) =~= ks);
    r
}

/// The table of announced prefixes, each with the instant (milliseconds
/// since the Unix epoch) until which it stays announced.
pub struct BgpRib {
    pub ipv4: BTreeMap<NetV4, i64>,
    pub ipv6: BTreeMap<NetV6, i64>,
}

impl BgpRib {
    /// An empty table.
    pub fn new() -> (r: BgpRib)
        ensures
            r.ipv4@ == Map::<NetV4, i64>::empty(),
            r.ipv6@ == Map::<NetV6, i64>::empty(),
    {
        BgpRib { ipv4: BTreeMap::new(), ipv6: BTreeMap::new() }
    }

    /// Applies an update: every entry that a withdrawn prefix covers is
    /// removed, then every announced prefix is (re)entered until `till`.
    /// Returns what the peers are to be told: the removed entries, and the
    /// announced prefixes that the table did not hold before.
    pub fn change(&mut self, msg: BgpRibUpdate, till: i64) -> (checked: BgpRibUpdate)
        requires
            withdrawals_ok(old(self).ipv4@, old(self).ipv6@, msg.withdraws4@, msg.withdraws6@),
        ensures
            checked.withdraws4@ == withdrawn_v4(old(self).ipv4@, msg.withdraws4@),
            checked.withdraws6@ == withdrawn_v6(old(self).ipv6@, msg.withdraws6@),
            checked.updates4@ == msg.updates4@.difference(old(self).ipv4@.dom()),
            checked.updates6@ == msg.updates6@.difference(old(self).ipv6@.dom()),
            final(self).ipv4@ == replace_entries(
                old(self).ipv4@,
                withdrawn_v4(old(self).ipv4@, msg.withdraws4@),
                msg.updates4@,
                till,
            ),
            final(self).ipv6@ == replace_entries(
                old(self).ipv6@,
                withdrawn_v6(old(self).ipv6@, msg.withdraws6@),
                msg.updates6@,
                till,
            ),
    {
        let ghost t4 = self.ipv4@;
        let ghost t6 = self.ipv6@;
        let withdraws4 = withdrawn_entries_v4(&self.ipv4, &msg.withdraws4);
        let withdraws6 = withdrawn_entries_v6(&self.ipv6, &msg.withdraws6);
        let updates4 = fresh_keys(&self.ipv4, &msg.updates4);
        let updates6 = fresh_keys(&self.ipv6, &msg.updates6);
        insert_all(&mut self.ipv4, &msg.updates4, till);
        insert_all(&mut self.ipv6, &msg.updates6, till);
        remove_all(&mut self.ipv4, &withdraws4);
        remove_all(&mut self.ipv6, &withdraws6);
        insert_all(&mut self.ipv4, &msg.updates4, till);
        insert_all(&mut self.ipv6, &msg.updates6, till);
        assert(self.ipv4@ =~= replace_entries(t4, withdraws4@, msg.updates4@, till));
        assert(self.ipv6@ =~= replace_entries(t6, withdraws6@, msg.updates6@, till));
        BgpRibUpdate { updates4, withdraws4, updates6, withdraws6 }
    }

    /// Whether `change` can apply the withdrawals of `msg` to this table:
    /// `withdrawals_ok` holds.
    pub fn accepts_withdrawals(&self, msg: &BgpRibUpdate) -> (r: bool)
        ensures
            r == withdrawals_ok(self.ipv4@, self.ipv6@, msg.withdraws4@, msg.withdraws6@),
    {
        let ghost ws4 = msg.withdraws4.iter().remaining().unref();
        for w in it: msg.withdraws4.iter()
            invariant
                it.seq().unref() == ws4,
                ws4.to_set() == msg.withdraws4@,
                forall|j: int| 0 <= j < it.index() ==> (#[trigger] ws4[j]).1 <= 32,
        {
            if w.1 > 32 {
                assert(ws4.to_set().contains(ws4[it.index() as int]));
                return false;
            }
        }
        assert forall|w: NetV4| msg.withdraws4@.contains(w) implies w.1 <= 32 by {
            assert(ws4.to_set().contains(w));
            let j = choose|j: int| 0 <= j < ws4.len() && ws4[j] == w;
            assert(ws4[j].1 <= 32);
        }
        let ghost ws6 = msg.withdraws6.iter().remaining().unref();
        for w in it: msg.withdraws6.iter()
            invariant
                it.seq().unref() == ws6,
                ws6.to_set() == msg.withdraws6@,
                forall|j: int|
                    0 <= j < it.index() ==> (#[trigger] ws6[j]).1 <= 128 && ((ws6[j]).1 == 0
                        ==> forall|k: NetV6| self.ipv6@.contains_key(k) ==> !le_v6(ws6[j], k)),
        {
            assert(ws6.to_set().contains(ws6[it.index() as int]));
            if w.1 > 128 {
                return false;
            }
            if w.1 == 0 && !below_all_keys(&self.ipv6, *w) {
                return false;
            }
        }
        assert forall|w: NetV6| msg.withdraws6@.contains(w) implies w.1 <= 128 && (w.1 == 0
            ==> forall|k: NetV6| self.ipv6@.contains_key(k) ==> !le_v6(w, k)) by {
            assert(ws6.to_set().contains(w));
            let j = choose|j: int| 0 <= j < ws6.len() && ws6[j] == w;
            assert(ws6[j].1 <= 128);
        }
        true
    }

    /// Removes the entries whose instant is before `now` and returns them as
    /// withdrawals.
    pub fn check_expires(&mut self, now: i64) -> (gone: BgpRibUpdate)
        ensures
            gone.withdraws4@ == expired(old(self).ipv4@, now),
            gone.withdraws6@ == expired(old(self).ipv6@, now),
            gone.updates4@.is_empty(),
            gone.updates6@.is_empty(),
            final(self).ipv4@ == replace_entries(old(self).ipv4@, expired(old(self).ipv4@, now), Set::empty(), 0),
            final(self).ipv6@ == replace_entries(old(self).ipv6@, expired(old(self).ipv6@, now), Set::empty(), 0),
    {
        let mut gone = BgpRibUpdate::new();
        gone.withdraws4 = expired_keys(&self.ipv4, now);
        gone.withdraws6 = expired_keys(&self.ipv6, now);
        if gone.is_empty() {
            assert(self.ipv4@ =~= replace_entries(self.ipv4@, expired(self.ipv4@, now), Set::empty(), 0));
            assert(self.ipv6@ =~= replace_entries(self.ipv6@, expired(self.ipv6@, now), Set::empty(), 0));
            return gone;
        }
        remove_all(&mut self.ipv4, &gone.withdraws4);
        remove_all(&mut self.ipv6, &gone.withdraws6);
        gone
    }

    /// An update that announces every prefix of the table, as sent to a peer
    /// that has just connected.
    pub fn full_update(&self) -> (r: BgpRibUpdate)
        ensures
            r.updates4@ == self.ipv4@.dom(),
            r.updates6@ == self.ipv6@.dom(),
            r.withdraws4@.is_empty(),
            r.withdraws6@.is_empty(),
    {
        let mut r = BgpRibUpdate::new();
        r.updates4 = all_keys(&self.ipv4);
        r.updates6 = all_keys(&self.ipv6);
        r
    }
}

/// `e` lists the entries of `t` in ascending prefix order.
pub open spec fn entries_listed_v4(e: Seq<(NetV4, i64)>, t: Map<NetV4, i64>) -> bool {
    &&& in_order_v4(e.map_values(|p: (NetV4, i64)| p.0), t.dom())
    &&& forall|i: int| 0 <= i < e.len() ==> t[(#[trigger] e[i]).0] == e[i].1
}

/// The entries of `t` in ascending prefix order.
fn entries_v4(t: &BTreeMap<NetV4, i64>) -> (r: Vec<(NetV4, i64)>)
    ensures
        entries_listed_v4(r@, t@),
{
    let ghost rs = t.keys().remaining();
    let ghost ks = rs.unref();
    proof {
        lemma_walk_sorted_v4(rs, t@.dom());
    }
    let mut out: Vec<(NetV4, i64)> = Vec::new();
    for k in it: t.keys()
        invariant
            it.seq().unref() == ks,
            ks.to_set() == t@.dom(),
            out@.len() == it.index(),
            forall|j: int| 0 <= j < out@.len() ==> (#[trigger] out@[j]).0 == ks[j] && out@[j].1 == t@[ks[j]],
    {
        assert(ks[it.index() as int] == *k);
        assert(ks.to_set().contains(*k));
        match t.get(k) {
            Some(v) => out.push((*k, *v)),
            None => {
                assert(false);
            },
        }
    }
    assert(out@.map_values(|p: (NetV4, i64)| p.0) =~= ks);
    out
}

/// `e` lists the entries of `t` in ascending prefix order.
pub open spec fn entries_listed_v6(e: Seq<(NetV6, i64)>, t: Map<NetV6, i64>) -> bool {
    &&& in_order_v6(e.map_values(|p: (NetV6, i64)| p.0), t.dom())
    &&& forall|i: int| 0 <= i < e.len() ==> t[(#[trigger] e[i]).0] == e[i].1
}

/// The entries of `t` in ascending prefix order.
fn entries_v6(t: &BTreeMap<NetV6, i64>) -> (r: Vec<(NetV6, i64)>)
    ensures
        entries_listed_v6(r@, t@),
{
    let ghost rs = t.keys().remaining();
    let ghost ks = rs.unref();
    proof {
        lemma_walk_sorted_v6(rs, t@.dom());
    }
    let mut out: Vec<(NetV6, i64)> = Vec::new();
    for k in it: t.keys()
        invariant
            it.seq().unref() == ks,
            ks.to_set() == t@.dom(),
            out@.len() == it.index(),
            forall|j: int| 0 <= j < out@.len() ==> (#[trigger] out@[j]).0 == ks[j] && out@[j].1 == t@[ks[j]],
    {
        assert(ks[it.index() as int] == *k);
        assert(ks.to_set().contains(*k));
        match t.get(k) {
            Some(v) => out.push((*k, *v)),
            None => {
                assert(false);
            },
        }
    }
    assert(out@.map_values(|p: (NetV6, i64)| p.0) =~= ks);
    out
}

/// The table's entries: the IPv4 ones, then the IPv6 ones, each list in
/// ascending prefix order.
pub fn rib_entries(rib: &BgpRib) -> (r: (Vec<(NetV4, i64)>, Vec<(NetV6, i64)>))
    ensures
        entries_listed_v4(r.0@, rib.ipv4@),
        entries_listed_v6(r.1@, rib.ipv6@),
{
    (entries_v4(&rib.ipv4), entries_v6(&rib.ipv6))
}

/// Whether every key of `table` is below `w` in prefix order.
fn below_all_keys(table: &BTreeMap<NetV6, i64>, w: NetV6) -> (r: bool)
    ensures
        r == forall|k: NetV6| table@.contains_key(k) ==> !le_v6(w, k),
{
    let ghost keys = table.keys().remaining().unref();
    for k in it: table.keys()
        invariant
            it.seq().unref() == keys,
            keys.to_set() == table@.dom(),
            forall|j: int| 0 <= j < it.index() ==> !le_v6(w, #[trigger] keys[j]),
    {
        if w.0 < k.0 || (w.0 == k.0 && w.1 <= k.1) {
            assert(keys[it.index() as int] == *k);
            assert(keys.to_set().contains(keys[it.index() as int]));
            assert(table@.contains_key(*k) && le_v6(w, *k));
            return false;
        }
    }
    assert forall|k: NetV6| table@.contains_key(k) implies !le_v6(w, k) by {
        assert(keys.to_set().contains(k));
        let j = choose|j: int| 0 <= j < keys.len() && keys[j] == k;
        assert(!le_v6(w, keys[j]));
    }
    true
}

/// The keys of `table` whose instant is before `now`.
fn expired_keys<K: Ord + Copy>(table: &BTreeMap<K, i64>, now: i64) -> (r: BTreeSet<K>)
    requires
        obeys_cmp::<K>(),
    ensures
        r@ == expired(table@, now),
{
    let mut r: BTreeSet<K> = BTreeSet::new();
    let ghost ks = table.iter().remaining();
    let ghost mut n: int = 0;
    for kv in it: table.iter()
        invariant
            obeys_cmp::<K>(),
            it.seq() == ks,
            forall|i: int| 0 <= i < ks.len() ==> table@.contains_key(*ks[i].0) && table@[*ks[i].0] == *ks[i].1,
            forall|k: K| #[trigger] table@.contains_key(k) ==> ks.contains((&k, &table@[k])),
            n == it.index(),
            r@ == Set::new(|k: K| exists|j: int| 0 <= j < n && *ks[j].0 == k && *ks[j].1 < now),
    {
        proof {
            n = n + 1;
        }
        let (k, v) = kv;
        if *v < now {
            r.insert(*k);
        }
        assert(r@ =~= Set::new(|x: K| exists|j: int| 0 <= j < n && *ks[j].0 == x && *ks[j].1 < now)) by {
            assert(*ks[n - 1].0 == *k && *ks[n - 1].1 == *v);
        }
    }
    proof {
        assert(n == ks.len());
        assert forall|x: K| table@.contains_key(x) && table@[x] < now implies r@.contains(x) by {
            assert(ks.contains((&x, &table@[x])));
            let j = choose|j: int| 0 <= j < ks.len() && ks[j] == (&x, &table@[x]);
            assert(*ks[j].0 == x);
        }
        assert forall|x: K| r@.contains(x) implies table@.contains_key(x) && table@[x] < now by {
            let j = choose|j: int| 0 <= j < n && *ks[j].0 == x && *ks[j].1 < now;
        }
    }
    assert(r@ =~= expired(table@, now));
    r
}

/// The keys of `table`.
fn all_keys<K: Ord + Copy>(table: &BTreeMap<K, i64>) -> (r: BTreeSet<K>)
    requires
        obeys_cmp::<K>(),
    ensures
        r@ == table@.dom(),
{
    let mut r: BTreeSet<K> = BTreeSet::new();
    let ghost ks = table.keys().remaining().unref();
    let ghost mut n: int = 0;
    for k in it: table.keys()
        invariant
            obeys_cmp::<K>(),
            it.seq().unref() == ks,
            ks.to_set() == table@.dom(),
            n == it.index(),
            r@ == ks.take(n).to_set(),
    {
        proof {
            n = n + 1;
            assert(ks[n - 1] == *k);
            lemma_take_to_set_step(ks, n - 1);
        }
        r.insert(*k);
    }
    assert(ks.take(n) =~= ks);
    r
}

// ---------------------------------------------------------------------------
// Laws of the route table.
// ---------------------------------------------------------------------------

/// Within a block of `k` addresses, an address lies between the block's
/// first address and its last, which lies below `k * m`.
proof fn lemma_block(a: int, k: int, m: int)
    requires
        k > 0,
        m > 0,
        0 <= a < k * m,
    ensures
        (a / k) * k <= a <= (a / k) * k + k - 1,
        (a / k) * k + k - 1 < k * m,
        a - (a / k) * k == a % k,
{
    lemma_fundamental_div_mod(a, k);
    lemma_mod_bound(a, k);
    let q = a / k;
    let r = a % k;
    assert(q * k + r == a) by (nonlinear_arith)
        requires
            a == k * q + r,
    ;
    assert(q < m) by (nonlinear_arith)
        requires
            q * k + r == a,
            a < k * m,
            0 <= r,
            k > 0,
    ;
    assert(q * k + k - 1 < k * m) by (nonlinear_arith)
        requires
            q < m,
            k > 0,
    ;
}

/// Withdrawing an IPv4 prefix of length at most 32 removes that very prefix.
proof fn lemma_covers_itself_v4(w: NetV4)
    requires
        w.1 <= 32,
    ensures
        covered_v4(w, w),
{
    lemma2_to64();
    if w.1 >= 1 {
        let e = (32 - w.1) as nat;
        lemma_pow2_adds(e, w.1 as nat);
        lemma_pow2_pos(e);
        lemma_pow2_pos(w.1 as nat);
        assert(e + w.1 as nat == 32);
        lemma_block(w.0 as int, pow2(e) as int, pow2(w.1 as nat) as int);
    }
}

/// Withdrawing an IPv6 prefix removes that very prefix when its length is
/// 128, or between 1 and 127 with an address that is not the last of its
/// block (the crate's subnet test leaves the last address out).
proof fn lemma_covers_itself_v6(w: NetV6)
    requires
        1 <= w.1 <= 128,
        w.1 < 128 ==> (w.0 as int) % (pow2((128 - w.1) as nat) as int) < pow2((128 - w.1) as nat) - 1,
    ensures
        covered_v6(w, w),
{
    lemma2_to64();
    lemma_pow2_adds(64, 64);
    let e = (128 - w.1) as nat;
    lemma_pow2_adds(e, w.1 as nat);
    lemma_pow2_pos(e);
    lemma_pow2_pos(w.1 as nat);
    assert(e + w.1 as nat == 128);
    assert(pow2(128) == 0x1_0000_0000_0000_0000_0000_0000_0000_0000);
    lemma_block(w.0 as int, pow2(e) as int, pow2(w.1 as nat) as int);
}

/// An address lies between the first and the last address of its prefix
/// (of length 1 to 32).
proof fn lemma_in_own_block_v4(k: NetV4)
    requires
        1 <= k.1 <= 32,
    ensures
        low_v4(k) <= k.0 <= range_last_v4(k),
        0 <= low_v4(k),
        range_last_v4(k) <= 0xffff_ffff,
        k.1 <= 31 ==> range_last_v4(k) == low_v4(k) + pow2((32 - k.1) as nat) - 1,
{
    lemma2_to64();
    let e = (32 - k.1) as nat;
    lemma_pow2_adds(e, k.1 as nat);
    lemma_pow2_pos(e);
    lemma_pow2_pos(k.1 as nat);
    assert(e + k.1 as nat == 32);
    lemma_block(k.0 as int, pow2(e) as int, pow2(k.1 as nat) as int);
    if k.1 == 32 {
        assert(pow2(0) == 1);
        assert(low_v4(k) == k.0);
    }
}

/// Withdrawing an IPv4 prefix `w` (of length at most 32) takes every prefix
/// `k` (of length at most 32) that sorts at or after `w` and lies within it.
pub proof fn lemma_contained_covered_v4(w: NetV4, k: NetV4)
    requires
        w.1 <= 32,
        k.1 <= 32,
        le_v4(w, k),
        contains_v4(w, k),
    ensures
        covered_v4(w, k),
{
    if w.1 == 0 {
    } else if w.1 == k.1 {
        assert(w == k);
        lemma_covers_itself_v4(w);
    } else {
        lemma_in_own_block_v4(k);
        lemma_in_own_block_v4(w);
        assert(w.1 <= 31);
        assert(in_subnet_v4(w, low_v4(k) as u32));
        assert(in_subnet_v4(w, range_last_v4(k) as u32));
        assert(in_subnet_v4(w, k.0));
    }
}

/// Law: withdrawing an IPv4 prefix `w` (of length at most 32) removes from
/// the table every entry `k` (of length at most 32) that sorts at or after
/// `w` and lies within it, whatever `k`'s length: withdrawing 10.0.0.0/8
/// removes 10.5.0.0/16. The entry is among those reported withdrawn, and
/// gone from the table unless the same change announces it.
pub proof fn law_withdraw_removes_contained_v4(
    t: Map<NetV4, i64>,
    ws: Set<NetV4>,
    added: Set<NetV4>,
    till: i64,
    w: NetV4,
    k: NetV4,
)
    requires
        ws.contains(w),
        w.1 <= 32,
        k.1 <= 32,
        t.contains_key(k),
        le_v4(w, k),
        contains_v4(w, k),
    ensures
        withdrawn_v4(t, ws).contains(k),
        !added.contains(k) ==> !replace_entries(t, withdrawn_v4(t, ws), added, till).contains_key(k),
{
    lemma_contained_covered_v4(w, k);
}

/// Withdrawing an IPv6 prefix `w` (of length 1 to 128) takes every prefix
/// `k` (of length at most 128) that sorts at or after `w` and lies within
/// it, but for one whose address is the last of `w`'s block, which the
/// crate's strict subnet comparison leaves out.
pub proof fn lemma_contained_covered_v6(w: NetV6, k: NetV6)
    requires
        1 <= w.1 <= 128,
        k.1 <= 128,
        le_v6(w, k),
        contains_v6(w, k),
        w.1 < 128 ==> k.0 != range_last_v6(w),
    ensures
        covered_v6(w, k),
{
    lemma2_to64();
    lemma_pow2_adds(64, 64);
    assert(pow2(128) == 0x1_0000_0000_0000_0000_0000_0000_0000_0000);
    let e = (128 - w.1) as nat;
    lemma_pow2_adds(e, w.1 as nat);
    lemma_pow2_pos(e);
    lemma_pow2_pos(w.1 as nat);
    assert(e + w.1 as nat == 128);
    let kk = pow2(e) as int;
    let m = pow2(w.1 as nat) as int;
    lemma_block(w.0 as int, kk, m);
    lemma_block(k.0 as int, kk, m);
    if w.1 == 128 {
        assert(w == k);
        lemma_covers_itself_v6(w);
    } else {
        assert(w.0 as int / kk == k.0 as int / kk) by {
            if w.1 == k.1 {
                assert(w.0 == k.0);
            }
        }
        assert(low_v6(w) == (k.0 as int / kk) * kk);
        assert(low_v6(w) <= k.0 < low_v6(w) + kk - 1);
        assert(k.0 < range_last_v6(w));
    }
}

/// Law: withdrawing an IPv6 prefix `w` (of length 1 to 128) removes from
/// the table every entry `k` (of length at most 128) that sorts at or after
/// `w` and lies within it, but for one at the last address of `w`'s block;
/// the entry is reported withdrawn, and gone from the table unless the same
/// change announces it.
pub proof fn law_withdraw_removes_contained_v6(
    t: Map<NetV6, i64>,
    ws: Set<NetV6>,
    added: Set<NetV6>,
    till: i64,
    w: NetV6,
    k: NetV6,
)
    requires
        ws.contains(w),
        1 <= w.1 <= 128,
        k.1 <= 128,
        t.contains_key(k),
        le_v6(w, k),
        contains_v6(w, k),
        w.1 < 128 ==> k.0 != range_last_v6(w),
    ensures
        withdrawn_v6(t, ws).contains(k),
        !added.contains(k) ==> !replace_entries(t, withdrawn_v6(t, ws), added, till).contains_key(k),
{
    lemma_contained_covered_v6(w, k);
}

/// Law: a change keeps every IPv4 entry whose address lies outside each
/// withdrawn prefix (and that it does not announce anew), with its instant.
pub proof fn law_withdraw_keeps_outside_v4(
    t: Map<NetV4, i64>,
    ws: Set<NetV4>,
    added: Set<NetV4>,
    till: i64,
    k: NetV4,
)
    requires
        t.contains_key(k),
        !added.contains(k),
        forall|w: NetV4| ws.contains(w) ==> !in_subnet_v4(w, k.0),
    ensures
        !withdrawn_v4(t, ws).contains(k),
        replace_entries(t, withdrawn_v4(t, ws), added, till).contains_key(k),
        replace_entries(t, withdrawn_v4(t, ws), added, till)[k] == t[k],
{
}

/// Law: a change keeps every IPv6 entry whose address lies outside each
/// withdrawn prefix (and that it does not announce anew), with its instant.
pub proof fn law_withdraw_keeps_outside_v6(
    t: Map<NetV6, i64>,
    ws: Set<NetV6>,
    added: Set<NetV6>,
    till: i64,
    k: NetV6,
)
    requires
        t.contains_key(k),
        !added.contains(k),
        forall|w: NetV6| ws.contains(w) ==> !in_subnet_v6(w, k.0),
    ensures
        !withdrawn_v6(t, ws).contains(k),
        replace_entries(t, withdrawn_v6(t, ws), added, till).contains_key(k),
        replace_entries(t, withdrawn_v6(t, ws), added, till)[k] == t[k],
{
}

/// Law: after a change, every prefix it announces is in the table until
/// the change's instant.
pub proof fn law_announced_until(t: Map<NetV4, i64>, gone: Set<NetV4>, added: Set<NetV4>, till: i64, u: NetV4)
    requires
        added.contains(u),
    ensures
        replace_entries(t, gone, added, till).contains_key(u),
        replace_entries(t, gone, added, till)[u] == till,
{
}

/// Law: a change leaves every entry alone that it neither withdraws nor
/// announces.
pub proof fn law_change_keeps_others(
    t: Map<NetV4, i64>,
    ws: Set<NetV4>,
    added: Set<NetV4>,
    till: i64,
    k: NetV4,
)
    requires
        t.contains_key(k),
        !added.contains(k),
        forall|w: NetV4| ws.contains(w) ==> !covered_v4(w, k),
    ensures
        replace_entries(t, withdrawn_v4(t, ws), added, till).contains_key(k),
        replace_entries(t, withdrawn_v4(t, ws), added, till)[k] == t[k],
{
}

/// Law: announcing an IPv4 prefix and then withdrawing it leaves it out of
/// the table (what `/api/add` and then `/api/remove` of one net do).
pub proof fn law_add_then_remove_v4(t: Map<NetV4, i64>, n: NetV4, till: i64, later: i64)
    requires
        n.1 <= 32,
    ensures
        ({
            let t1 = replace_entries(t, withdrawn_v4(t, Set::empty()), set![n], till);
            let t2 = replace_entries(t1, withdrawn_v4(t1, set![n]), Set::empty(), later);
            !t2.contains_key(n)
        }),
{
    let t1 = replace_entries(t, withdrawn_v4(t, Set::empty()), set![n], till);
    lemma_covers_itself_v4(n);
    assert(set![n].contains(n));
    assert(withdrawn_v4(t1, set![n]).contains(n));
}

/// Law: announcing an IPv6 prefix and then withdrawing it leaves it out of
/// the table, for the prefixes that the crate's subnet test holds itself in.
pub proof fn law_add_then_remove_v6(t: Map<NetV6, i64>, n: NetV6, till: i64, later: i64)
    requires
        1 <= n.1 <= 128,
        n.1 < 128 ==> (n.0 as int) % (pow2((128 - n.1) as nat) as int) < pow2((128 - n.1) as nat) - 1,
    ensures
        ({
            let t1 = replace_entries(t, withdrawn_v6(t, Set::empty()), set![n], till);
            let t2 = replace_entries(t1, withdrawn_v6(t1, set![n]), Set::empty(), later);
            !t2.contains_key(n)
        }),
{
    let t1 = replace_entries(t, withdrawn_v6(t, Set::empty()), set![n], till);
    lemma_covers_itself_v6(n);
    assert(set![n].contains(n));
    assert(withdrawn_v6(t1, set![n]).contains(n));
}

/// Law: after the expired entries are removed at `now`, every entry left
/// lasts until `now` or later, and every entry that did is still there.
pub proof fn law_expiry<K>(t: Map<K, i64>, now: i64)
    ensures
        forall|k: K| #[trigger] replace_entries(t, expired(t, now), Set::empty(), 0).contains_key(k)
            ==> replace_entries(t, expired(t, now), Set::empty(), 0)[k] >= now,
        forall|k: K| t.contains_key(k) && t[k] >= now ==> #[trigger] replace_entries(t, expired(t, now), Set::empty(), 0).contains_key(k)
            && replace_entries(t, expired(t, now), Set::empty(), 0)[k] == t[k],
{
}

/// Law: an update that withdraws and announces nothing leaves the table as
/// it is.
pub proof fn law_empty_change<K>(t: Map<K, i64>, till: i64)
    ensures
        replace_entries(t, Set::empty(), Set::empty(), till) == t,
{
    assert(replace_entries(t, Set::empty(), Set::empty(), till) =~= t);
}

/// Law: a prefix that one update both withdraws and announces ends up
/// announced until the update's instant.
pub proof fn law_announce_wins<K>(t: Map<K, i64>, gone: Set<K>, added: Set<K>, till: i64, k: K)
    requires
        gone.contains(k),
        added.contains(k),
    ensures
        replace_entries(t, gone, added, till).contains_key(k),
        replace_entries(t, gone, added, till)[k] == till,
{
}

} // verus!
