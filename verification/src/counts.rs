//! Counts kept in insertion order (indexmap's IndexMap): the pets on each side of a trade offer, the pets waiting
//! to be sent to the online wallet, what you own (the wallet's snapshot, the Bag's list, the profile photos), and
//! the traits a batch of trait charges rolled.
//!
//! An IndexMap is opaque here: what it holds is named (`pet_counts`, `trait_counts`) as the sequence of its
//! (key, count) entries in their order, and each method the logic calls has a wrapper stating, from indexmap's
//! source, what it does to that sequence.
use vstd::prelude::*;
use indexmap::IndexMap;
use crate::labels::{items_view, names_view, first_index_of, find_char, spec_find_label, find_label, pairs_view};
use crate::text::{trim, spec_trim, str_eq};
use crate::num::{parse_i64, spec_parse_i64};
use crate::num::{usize_text, spec_digits};

verus! {

#[verifier::external_type_specification]
#[verifier::external_body]
#[verifier::reject_recursive_types(K)]
#[verifier::reject_recursive_types(V)]
#[verifier::reject_recursive_types(S)]
pub struct ExIndexMap<K, V, S>(IndexMap<K, V, S>);

/// The entries of a map of pet keys ("3_golden") to counts, in the map's order.
pub uninterp spec fn pet_counts(m: IndexMap<String, i64>) -> Seq<(Seq<char>, i64)>;

/// The entries of a map of trait indices to counts, in the map's order.
pub uninterp spec fn trait_counts(m: IndexMap<usize, i64>) -> Seq<(usize, i64)>;

// ---------------------------------------------------------------- entries as a sequence

/// Where key `k` is in the entries (the first entry with that key), None when it isn't there.
pub open spec fn key_index<K>(s: Seq<(K, i64)>, k: K) -> Option<int> {
    if exists|i: int| 0 <= i < s.len() && s[i].0 == k {
        Some(choose|i: int| 0 <= i < s.len() && s[i].0 == k && forall|j: int| 0 <= j < i ==> s[j].0 != k)
    } else {
        None
    }
}

/// The count of key `k`, None when it isn't there.
pub open spec fn count_of<K>(s: Seq<(K, i64)>, k: K) -> Option<i64> {
    match key_index(s, k) {
        Some(i) => Some(s[i].1),
        None => None,
    }
}

/// Setting key `k` to `v`: a key already there keeps its place and takes the new count; a new key goes last.
pub open spec fn put<K>(s: Seq<(K, i64)>, k: K, v: i64) -> Seq<(K, i64)> {
    match key_index(s, k) {
        Some(i) => s.update(i, (s[i].0, v)),
        None => s.push((k, v)),
    }
}

/// Taking key `k` out; the entries after it move up, in the same order.
pub open spec fn without<K>(s: Seq<(K, i64)>, k: K) -> Seq<(K, i64)> {
    match key_index(s, k) {
        Some(i) => s.remove(i),
        None => s,
    }
}

proof fn lemma_key_index<K>(s: Seq<(K, i64)>, k: K)
    ensures
        match key_index(s, k) {
            Some(i) => 0 <= i < s.len() && s[i].0 == k && forall|j: int| 0 <= j < i ==> s[j].0 != k,
            None => forall|j: int| 0 <= j < s.len() ==> s[j].0 != k,
        },
{
    if exists|i: int| 0 <= i < s.len() && s[i].0 == k {
        let i = choose|i: int| 0 <= i < s.len() && s[i].0 == k;
        lemma_first_exists(s, k, i);
    }
}

proof fn lemma_first_exists<K>(s: Seq<(K, i64)>, k: K, i: int)
    requires
        0 <= i < s.len(),
        s[i].0 == k,
    ensures
        exists|f: int| 0 <= f < s.len() && s[f].0 == k && forall|j: int| 0 <= j < f ==> s[j].0 != k,
    decreases i,
{
    if exists|j: int| 0 <= j < i && s[j].0 == k {
        let j = choose|j: int| 0 <= j < i && s[j].0 == k;
        lemma_first_exists(s, k, j);
    } else {
        assert(forall|j: int| 0 <= j < i ==> s[j].0 != k);
    }
}

// ---------------------------------------------------------------- indexmap's methods, as the logic uses them

/// IndexMap::len: the number of entries.
#[verifier::external_body]
fn pets_len(m: &IndexMap<String, i64>) -> (n: usize)
    ensures
        n == pet_counts(*m).len(),
{
    m.len()
}

/// IndexMap::contains_key: whether an entry has this key.
#[verifier::external_body]
fn pets_contains(m: &IndexMap<String, i64>, key: &str) -> (b: bool)
    ensures
        b == (key_index(pet_counts(*m), key@) is Some),
{
    m.contains_key(key)
}

/// IndexMap::get: the count stored for this key, copied out.
#[verifier::external_body]
fn pets_get(m: &IndexMap<String, i64>, key: &str) -> (r: Option<i64>)
    ensures
        r == count_of(pet_counts(*m), key@),
{
    m.get(key).copied()
}

/// IndexMap::insert: a key already there keeps its place and takes the new count, a new one goes last.
#[verifier::external_body]
fn pets_insert(m: &mut IndexMap<String, i64>, key: String, v: i64)
    ensures
        pet_counts(*final(m)) == put(pet_counts(*old(m)), key@, v),
{
    m.insert(key, v);
}

/// IndexMap::shift_remove: the entry goes, the ones after it keep their order.
#[verifier::external_body]
fn pets_remove(m: &mut IndexMap<String, i64>, key: &str)
    ensures
        pet_counts(*final(m)) == without(pet_counts(*old(m)), key@),
{
    m.shift_remove(key);
}

/// IndexMap::get_index: the entry at position i (its key copied out).
#[verifier::external_body]
fn pets_at(m: &IndexMap<String, i64>, i: usize) -> (r: (String, i64))
    requires
        i < pet_counts(*m).len(),
    ensures
        r.0@ == pet_counts(*m)[i as int].0,
        r.1 == pet_counts(*m)[i as int].1,
{
    let (k, v) = m.get_index(i).unwrap();
    (k.clone(), *v)
}

/// IndexMap's Clone: a map with the same entries in the same order.
#[verifier::external_body]
fn pets_clone(m: &IndexMap<String, i64>) -> (r: IndexMap<String, i64>)
    ensures
        pet_counts(r) == pet_counts(*m),
{
    m.clone()
}

/// IndexMap::new: an empty map.
#[verifier::external_body]
fn traits_new() -> (m: IndexMap<usize, i64>)
    ensures
        trait_counts(m) == Seq::<(usize, i64)>::empty(),
{
    IndexMap::new()
}

/// IndexMap::get: the count stored for this trait, copied out.
#[verifier::external_body]
fn traits_get(m: &IndexMap<usize, i64>, key: usize) -> (r: Option<i64>)
    ensures
        r == count_of(trait_counts(*m), key),
{
    m.get(&key).copied()
}

/// IndexMap::insert: a trait already there keeps its place and takes the new count, a new one goes last.
#[verifier::external_body]
fn traits_insert(m: &mut IndexMap<usize, i64>, key: usize, v: i64)
    ensures
        trait_counts(*final(m)) == put(trait_counts(*old(m)), key, v),
{
    m.insert(key, v);
}


// ---------------------------------------------------------------- adding counts

/// The count of key `k`, 0 when it isn't there.
pub open spec fn current<K>(s: Seq<(K, i64)>, k: K) -> int {
    match count_of(s, k) {
        Some(v) => v as int,
        None => 0,
    }
}

/// Adding `q` to the count of `k` (a new key starts from 0 and goes last).
pub open spec fn bump<K>(s: Seq<(K, i64)>, k: K, q: int) -> Seq<(K, i64)> {
    put(s, k, (current(s, k) + q) as i64)
}

/// Adding each (key, count) of `items` in turn.
pub open spec fn added<K>(s: Seq<(K, i64)>, items: Seq<(K, i64)>) -> Seq<(K, i64)>
    decreases items.len(),
{
    if items.len() == 0 {
        s
    } else {
        bump(added(s, items.drop_last()), items.last().0, items.last().1 as int)
    }
}

/// A count that an i64 holds.
pub open spec fn fits(v: int) -> bool {
    i64::MIN <= v <= i64::MAX
}

/// Adding `items` one by one never takes a count out of what an i64 holds.
pub open spec fn adds_fit<K>(s: Seq<(K, i64)>, items: Seq<(K, i64)>) -> bool {
    forall|j: int| 0 <= j < items.len() ==> fits(current(#[trigger] added(s, items.subrange(0, j)), items[j].0) + items[j].1)
}

proof fn lemma_added_step<K>(s: Seq<(K, i64)>, items: Seq<(K, i64)>, i: int)
    requires
        0 <= i < items.len(),
    ensures
        added(s, items.subrange(0, i + 1)) == bump(added(s, items.subrange(0, i)), items[i].0, items[i].1 as int),
{
    assert(items.subrange(0, i + 1).drop_last() =~= items.subrange(0, i));
}

/// Adds the counts of `items` to `map` (what could not be sent to the online wallet is kept for the next try):
/// each key's count grows by the item's, new keys go last in the order they come.
pub fn add_to(map: &mut IndexMap<String, i64>, items: &IndexMap<String, i64>)
    requires
        adds_fit(pet_counts(*old(map)), pet_counts(*items)),
    ensures
        pet_counts(*final(map)) == added(pet_counts(*old(map)), pet_counts(*items)),
{
    let ghost m0 = pet_counts(*map);
    let ghost it = pet_counts(*items);
    let n = pets_len(items);
    let mut i: usize = 0;
    while i < n
        invariant
            n == it.len(),
            it == pet_counts(*items),
            i <= n,
            adds_fit(m0, it),
            pet_counts(*map) == added(m0, it.subrange(0, i as int)),
        decreases n - i,
    {
        let (k, q) = pets_at(items, i);
        let cur = match pets_get(map, k.as_str()) {
            Some(v) => v,
            None => 0,
        };
        proof {
            assert(fits(current(added(m0, it.subrange(0, i as int)), it[i as int].0) + it[i as int].1));
            lemma_added_step(m0, it, i as int);
        }
        pets_insert(map, k, cur + q);
        i = i + 1;
    }
    proof {
        assert(it.subrange(0, n as int) =~= it);
    }
}


proof fn lemma_count_after_put<K>(s: Seq<(K, i64)>, k2: K, v: i64, k: K)
    ensures
        count_of(put(s, k2, v), k) == if k == k2 { Some(v) } else { count_of(s, k) },
{
    let r = put(s, k2, v);
    lemma_key_index(s, k2);
    lemma_key_index(s, k);
    lemma_key_index(r, k);
    match key_index(s, k2) {
        Some(i) => {
            assert(r[i].0 == k2);
            if k == k2 {
                assert forall|j: int| 0 <= j < i implies r[j].0 != k by {
                    assert(r[j] == s[j]);
                }
            } else {
                match key_index(s, k) {
                    Some(f) => {
                        assert(r[f] == s[f]);
                        assert forall|j: int| 0 <= j < f implies r[j].0 != k by {
                            if j != i {
                                assert(r[j] == s[j]);
                            }
                        }
                    },
                    None => {
                        assert forall|j: int| 0 <= j < r.len() implies r[j].0 != k by {
                            if j != i {
                                assert(r[j] == s[j]);
                            }
                        }
                    },
                }
            }
        },
        None => {
            assert(r[s.len() as int].0 == k2);
            if k == k2 {
                assert forall|j: int| 0 <= j < s.len() implies r[j].0 != k by {
                    assert(r[j] == s[j]);
                }
            } else {
                match key_index(s, k) {
                    Some(f) => {
                        assert(r[f] == s[f]);
                        assert forall|j: int| 0 <= j < f implies r[j].0 != k by {
                            assert(r[j] == s[j]);
                        }
                    },
                    None => {
                        assert forall|j: int| 0 <= j < r.len() implies r[j].0 != k by {
                            if j < s.len() {
                                assert(r[j] == s[j]);
                            }
                        }
                    },
                }
            }
        },
    }
}

proof fn lemma_current_drop_last<K>(items: Seq<(K, i64)>, k: K)
    requires
        items.len() > 0,
        distinct_keys(items),
    ensures
        current(items, k) == current(items.drop_last(), k) + if items.last().0 == k { items.last().1 as int } else { 0 },
{
    let d = items.drop_last();
    lemma_key_index(items, k);
    lemma_key_index(d, k);
    if items.last().0 == k {
        assert forall|j: int| 0 <= j < d.len() implies d[j].0 != k by {
            assert(d[j] == items[j]);
        }
        assert(key_index(items, k) == Some((items.len() - 1) as int)) by {
            let f = key_index(items, k)->0;
            if f < items.len() - 1 {
                assert(items[f].0 != items[items.len() - 1].0);
            }
        }
    } else {
        match key_index(items, k) {
            Some(f) => {
                assert(f < items.len() - 1);
                assert(d[f] == items[f]);
                assert forall|j: int| 0 <= j < f implies d[j].0 != k by {
                    assert(d[j] == items[j]);
                }
            },
            None => {
                assert forall|j: int| 0 <= j < d.len() implies d[j].0 != k by {
                    assert(d[j] == items[j]);
                }
            },
        }
    }
}

/// Nothing is lost when counts are added (what could not be sent is kept for the next try): afterwards each key's
/// count is what it was plus what was added for it.
pub proof fn law_added_counts_sum(m: Seq<(Seq<char>, i64)>, items: Seq<(Seq<char>, i64)>, k: Seq<char>)
    requires
        distinct_keys(items),
        adds_fit(m, items),
    ensures
        current(added(m, items), k) == current(m, k) + current(items, k),
    decreases items.len(),
{
    lemma_key_index(items, k);
    if items.len() > 0 {
        let d = items.drop_last();
        let n = items.len() - 1;
        assert(distinct_keys(d));
        assert forall|j: int| 0 <= j < d.len() implies fits(current(#[trigger] added(m, d.subrange(0, j)), d[j].0) + d[j].1) by {
            assert(d.subrange(0, j) =~= items.subrange(0, j));
            assert(fits(current(added(m, items.subrange(0, j)), items[j].0) + items[j].1));
        }
        law_added_counts_sum(m, d, k);
        assert(items.subrange(0, n) =~= d);
        assert(fits(current(added(m, items.subrange(0, n)), items[n].0) + items[n].1));
        let prev = added(m, d);
        let e = items.last();
        lemma_count_after_put(prev, e.0, (current(prev, e.0) + e.1) as i64, k);
        lemma_current_drop_last(items, k);
    }
}

// ---------------------------------------------------------------- what you own, pet by pet

/// The key of a pet with a mutation: "3_golden".
pub open spec fn pet_key(i: usize, m: Seq<char>) -> Seq<char> {
    spec_digits(i as nat) + "_"@ + m
}

/// Pet `i`'s entries (key, count) with each mutation in `muts`, the ones you have (count above 0), in that order.
pub open spec fn owned_row(i: usize, muts: Seq<Seq<char>>, counts: Seq<(Seq<char>, i64)>) -> Seq<(Seq<char>, i64)>
    decreases muts.len(),
{
    if muts.len() == 0 {
        Seq::empty()
    } else {
        let b = owned_row(i, muts.drop_last(), counts);
        let k = pet_key(i, muts.last());
        match count_of(counts, k) {
            Some(q) => if q > 0 { b.push((k, q)) } else { b },
            None => b,
        }
    }
}

/// What you have, pet by pet in `order` (rarest first, as the lists show them), each with its mutations.
pub open spec fn owned_list(order: Seq<usize>, muts: Seq<Seq<char>>, counts: Seq<(Seq<char>, i64)>) -> Seq<(Seq<char>, i64)>
    decreases order.len(),
{
    if order.len() == 0 {
        Seq::empty()
    } else {
        owned_list(order.drop_last(), muts, counts) + owned_row(order.last(), muts, counts)
    }
}

/// The mutation keys as texts.
pub open spec fn muts_view(v: Seq<&str>) -> Seq<Seq<char>> {
    v.map_values(|m: &str| m@)
}

fn key_text(i: usize, m: &str) -> (r: String)
    ensures
        r@ == pet_key(i, m@),
{
    let mut k = usize_text(i);
    k.append("_");
    k.append(m);
    k
}

/// [(key, count)] of what is held, by rarity (`order`) and mutation (`muts`): to pick what a trade offers (from
/// your pets) or asks for (from the friend's wallet).
pub fn my_owned_for_trade(order: &Vec<usize>, muts: &Vec<&str>, owned: &IndexMap<String, i64>) -> (r: Vec<(String, i64)>)
    ensures
        items_view(r@) == owned_list(order@, muts_view(muts@), pet_counts(*owned)),
{
    let ghost mv = muts_view(muts@);
    let ghost cs = pet_counts(*owned);
    let mut out: Vec<(String, i64)> = Vec::new();
    let mut a: usize = 0;
    while a < order.len()
        invariant
            mv == muts_view(muts@),
            cs == pet_counts(*owned),
            a <= order@.len(),
            items_view(out@) == owned_list(order@.subrange(0, a as int), mv, cs),
        decreases order@.len() - a,
    {
        let idx = order[a];
        let ghost before = items_view(out@);
        let mut b: usize = 0;
        while b < muts.len()
            invariant
                mv == muts_view(muts@),
                cs == pet_counts(*owned),
                b <= muts@.len(),
                idx == order@[a as int],
                a < order@.len(),
                items_view(out@) == before + owned_row(idx, mv.subrange(0, b as int), cs),
            decreases muts@.len() - b,
        {
            let key = key_text(idx, muts[b]);
            let q = pets_get(owned, key.as_str());
            let ghost row = owned_row(idx, mv.subrange(0, b as int), cs);
            proof {
                assert(mv.subrange(0, b + 1).drop_last() =~= mv.subrange(0, b as int));
                assert(mv.subrange(0, b + 1).last() == muts@[b as int]@);
            }
            match q {
                Some(v) => {
                    if v > 0 {
                        let ghost o0 = out@;
                        let ghost kv = key@;
                        out.push((key, v));
                        proof {
                            assert(items_view(out@) =~= items_view(o0).push((kv, v)));
                            assert(items_view(out@) =~= before + row.push((pet_key(idx, muts@[b as int]@), v)));
                        }
                    }
                },
                None => {},
            }
            b = b + 1;
        }
        proof {
            assert(mv.subrange(0, muts@.len() as int) =~= mv);
            let s1 = order@.subrange(0, a + 1);
            assert(s1.drop_last() =~= order@.subrange(0, a as int));
            assert(s1.last() == idx);
            assert(owned_list(s1, mv, cs) == owned_list(order@.subrange(0, a as int), mv, cs) + owned_row(idx, mv, cs));
        }
        a = a + 1;
    }
    proof {
        assert(order@.subrange(0, order@.len() as int) =~= order@);
    }
    out
}

/// Pet `i` with each mutation in `muts` that you have (count above 0), in that order.
pub open spec fn avatar_row(i: usize, muts: Seq<Seq<char>>, counts: Seq<(Seq<char>, i64)>) -> Seq<(usize, Seq<char>)>
    decreases muts.len(),
{
    if muts.len() == 0 {
        Seq::empty()
    } else {
        let b = avatar_row(i, muts.drop_last(), counts);
        if current(counts, pet_key(i, muts.last())) > 0 { b.push((i, muts.last())) } else { b }
    }
}

/// Every (pet, mutation) you have, by rarity then mutation.
pub open spec fn avatar_list(order: Seq<usize>, muts: Seq<Seq<char>>, counts: Seq<(Seq<char>, i64)>) -> Seq<(usize, Seq<char>)>
    decreases order.len(),
{
    if order.len() == 0 {
        Seq::empty()
    } else {
        avatar_list(order.drop_last(), muts, counts) + avatar_row(order.last(), muts, counts)
    }
}

/// The pairs as texts.
pub open spec fn pairs_of(v: Seq<(usize, String)>) -> Seq<(usize, Seq<char>)> {
    v.map_values(|p: (usize, String)| (p.0, p.1@))
}

/// The profile photos you can pick: any Verity you own, with any mutation you own it with.
pub fn avatar_options(order: &Vec<usize>, muts: &Vec<&str>, owned: &IndexMap<String, i64>) -> (r: Vec<(usize, String)>)
    ensures
        pairs_of(r@) == avatar_list(order@, muts_view(muts@), pet_counts(*owned)),
{
    let ghost mv = muts_view(muts@);
    let ghost cs = pet_counts(*owned);
    let mut out: Vec<(usize, String)> = Vec::new();
    let mut a: usize = 0;
    while a < order.len()
        invariant
            mv == muts_view(muts@),
            cs == pet_counts(*owned),
            a <= order@.len(),
            pairs_of(out@) == avatar_list(order@.subrange(0, a as int), mv, cs),
        decreases order@.len() - a,
    {
        let idx = order[a];
        let ghost before = pairs_of(out@);
        let mut b: usize = 0;
        while b < muts.len()
            invariant
                mv == muts_view(muts@),
                cs == pet_counts(*owned),
                b <= muts@.len(),
                idx == order@[a as int],
                a < order@.len(),
                pairs_of(out@) == before + avatar_row(idx, mv.subrange(0, b as int), cs),
            decreases muts@.len() - b,
        {
            let key = key_text(idx, muts[b]);
            let q = match pets_get(owned, key.as_str()) {
                Some(v) => v,
                None => 0,
            };
            let ghost row = avatar_row(idx, mv.subrange(0, b as int), cs);
            proof {
                assert(mv.subrange(0, b + 1).drop_last() =~= mv.subrange(0, b as int));
                assert(mv.subrange(0, b + 1).last() == muts@[b as int]@);
            }
            if q > 0 {
                let ghost o0 = out@;
                out.push((idx, String::from_str(muts[b])));
                proof {
                    assert(pairs_of(out@) =~= pairs_of(o0).push((idx, muts@[b as int]@)));
                    assert(pairs_of(out@) =~= before + row.push((idx, muts@[b as int]@)));
                }
            }
            b = b + 1;
        }
        proof {
            assert(mv.subrange(0, muts@.len() as int) =~= mv);
            let s1 = order@.subrange(0, a + 1);
            assert(s1.drop_last() =~= order@.subrange(0, a as int));
            assert(s1.last() == idx);
            assert(avatar_list(s1, mv, cs) == avatar_list(order@.subrange(0, a as int), mv, cs) + avatar_row(idx, mv, cs));
        }
        a = a + 1;
    }
    proof {
        assert(order@.subrange(0, order@.len() as int) =~= order@);
    }
    out
}

// ---------------------------------------------------------------- a trade offer's sides

/// No pet is offered or asked for more than this many times in one trade.
pub const MAX_TRADE_QTY: i64 = 999999999;

/// A side of a trade holds at most this many kinds of pets.
pub const MAX_TRADE_ITEMS: usize = 3;

/// The count a side gets for a pet: what was asked, no more than `cap` (what can be given) nor MAX_TRADE_QTY, and
/// not below 0.
pub open spec fn offer_qty(qty: int, cap: int) -> int {
    let a = if qty < cap { qty } else { cap };
    let b = if a < MAX_TRADE_QTY { a } else { MAX_TRADE_QTY as int };
    if b < 0 { 0 } else { b }
}

/// A side after setting pet `k` to count `q`: 0 takes the pet off; a new kind is only added while the side has
/// fewer than MAX_TRADE_ITEMS kinds.
pub open spec fn with_qty(s: Seq<(Seq<char>, i64)>, k: Seq<char>, q: int) -> Seq<(Seq<char>, i64)> {
    if q <= 0 {
        without(s, k)
    } else if key_index(s, k) is None && s.len() >= MAX_TRADE_ITEMS {
        s
    } else {
        put(s, k, q as i64)
    }
}

/// Sets how many of pet `key` a side of the trade being proposed holds: `cap` is how many
/// can be given (what you own for your offer, what the friend's wallet shows for your request).
pub fn set_trade_offer_qty(side: &mut IndexMap<String, i64>, key: &str, qty: i64, cap: i64)
    ensures
        pet_counts(*final(side)) == with_qty(pet_counts(*old(side)), key@, offer_qty(qty as int, cap as int)),
{
    let a = if qty < cap { qty } else { cap };
    let b = if a < MAX_TRADE_QTY { a } else { MAX_TRADE_QTY };
    let q = if b < 0 { 0 } else { b };
    if q <= 0 {
        pets_remove(side, key);
    } else if !pets_contains(side, key) && pets_len(side) >= MAX_TRADE_ITEMS {
        // already as many kinds as a side can hold
    } else {
        pets_insert(side, String::from_str(key), q);
    }
}

/// No key is in two entries (as in any IndexMap).
pub open spec fn distinct_keys<K>(s: Seq<(K, i64)>) -> bool {
    forall|i: int, j: int| 0 <= i < j < s.len() ==> s[i].0 != s[j].0
}

/// A side that is within the limits (at most MAX_TRADE_ITEMS kinds, each count from 1 to MAX_TRADE_QTY).
pub open spec fn side_ok(s: Seq<(Seq<char>, i64)>) -> bool {
    &&& s.len() <= MAX_TRADE_ITEMS
    &&& forall|i: int| 0 <= i < s.len() ==> 1 <= #[trigger] s[i].1 <= MAX_TRADE_QTY
}

/// A side of a trade stays within the limits whatever is set on it: at most MAX_TRADE_ITEMS kinds, each offered
/// from 1 to MAX_TRADE_QTY times; and the pet set holds exactly the count asked for (capped), unless the side was
/// already full of other kinds or the count is 0 (then the pet is not on the side).
pub proof fn law_trade_side_within_limits(s: Seq<(Seq<char>, i64)>, k: Seq<char>, qty: int, cap: int)
    requires
        distinct_keys(s),
        side_ok(s),
    ensures
        side_ok(with_qty(s, k, offer_qty(qty, cap))),
        offer_qty(qty, cap) == 0 ==> key_index(with_qty(s, k, offer_qty(qty, cap)), k) is None,
        offer_qty(qty, cap) > 0 && (key_index(s, k) is Some || s.len() < MAX_TRADE_ITEMS) ==> count_of(
            with_qty(s, k, offer_qty(qty, cap)),
            k,
        ) == Some(offer_qty(qty, cap) as i64),
{
    let q = offer_qty(qty, cap);
    let r = with_qty(s, k, q);
    lemma_key_index(s, k);
    if q <= 0 {
        match key_index(s, k) {
            Some(i) => {
                assert forall|j: int| 0 <= j < r.len() implies 1 <= #[trigger] r[j].1 <= MAX_TRADE_QTY by {
                    if j < i {
                        assert(r[j] == s[j]);
                    } else {
                        assert(r[j] == s[j + 1]);
                    }
                }
                assert forall|j: int| 0 <= j < r.len() implies r[j].0 != k by {
                    if j < i {
                        assert(r[j] == s[j]);
                    } else {
                        assert(r[j] == s[j + 1]);
                        assert(s[i].0 != s[j + 1].0);
                    }
                }
            },
            None => {},
        }
        lemma_key_index(r, k);
    } else if key_index(s, k) is None && s.len() >= MAX_TRADE_ITEMS {
    } else {
        match key_index(s, k) {
            Some(i) => {
                assert forall|j: int| 0 <= j < r.len() implies 1 <= #[trigger] r[j].1 <= MAX_TRADE_QTY by {
                    if j != i {
                        assert(r[j] == s[j]);
                    }
                }
                assert(r[i].0 == k);
                lemma_key_index(r, k);
                assert forall|j: int| 0 <= j < i implies r[j].0 != k by {
                    assert(r[j] == s[j]);
                }
            },
            None => {
                assert forall|j: int| 0 <= j < r.len() implies 1 <= #[trigger] r[j].1 <= MAX_TRADE_QTY by {
                    if j < s.len() {
                        assert(r[j] == s[j]);
                    }
                }
                lemma_key_index(r, k);
                assert forall|j: int| 0 <= j < s.len() implies r[j].0 != k by {
                    assert(r[j] == s[j]);
                }
                assert(r[s.len() as int].0 == k);
            },
        }
    }
}


// ---------------------------------------------------------------- using all trait charges

/// The traits a batch of charges rolled (None: a charge that gave no trait), each counted once per roll, in the
/// order first rolled.
pub open spec fn tallied(rolls: Seq<Option<usize>>) -> Seq<(usize, i64)>
    decreases rolls.len(),
{
    if rolls.len() == 0 {
        Seq::empty()
    } else {
        let t = tallied(rolls.drop_last());
        match rolls.last() {
            Some(i) => bump(t, i, 1),
            None => t,
        }
    }
}

proof fn lemma_put_values<K>(s: Seq<(K, i64)>, k: K, v: i64, lo: int, hi: int)
    requires
        forall|j: int| 0 <= j < s.len() ==> lo <= #[trigger] s[j].1 <= hi,
        lo <= v <= hi,
    ensures
        forall|j: int| 0 <= j < put(s, k, v).len() ==> lo <= #[trigger] put(s, k, v)[j].1 <= hi,
{
    lemma_key_index(s, k);
}

proof fn lemma_tallied_bounds(rolls: Seq<Option<usize>>)
    requires
        rolls.len() < i64::MAX,
    ensures
        forall|j: int| 0 <= j < tallied(rolls).len() ==> 0 <= #[trigger] tallied(rolls)[j].1 <= rolls.len(),
    decreases rolls.len(),
{
    if rolls.len() > 0 {
        lemma_tallied_bounds(rolls.drop_last());
        let t = tallied(rolls.drop_last());
        match rolls.last() {
            Some(i) => {
                lemma_key_index(t, i);
                assert(0 <= current(t, i) < rolls.len());
                lemma_put_values(t, i, (current(t, i) + 1) as i64, 0, rolls.len() as int);
            },
            None => {},
        }
    }
}

/// "Use All Charges": the traits the charges rolled, with how many times each (the batch shown afterwards).
pub fn tally_trait_rolls(rolls: &Vec<Option<usize>>) -> (r: IndexMap<usize, i64>)
    requires
        rolls@.len() < i64::MAX,
    ensures
        trait_counts(r) == tallied(rolls@),
{
    let mut r = traits_new();
    let mut i: usize = 0;
    while i < rolls.len()
        invariant
            i <= rolls@.len() < i64::MAX,
            trait_counts(r) == tallied(rolls@.subrange(0, i as int)),
        decreases rolls@.len() - i,
    {
        proof {
            assert(rolls@.subrange(0, i + 1).drop_last() =~= rolls@.subrange(0, i as int));
            lemma_tallied_bounds(rolls@.subrange(0, i as int));
            lemma_key_index(trait_counts(r), 0usize);
        }
        match rolls[i] {
            Some(idx) => {
                let cur = match traits_get(&r, idx) {
                    Some(v) => v,
                    None => 0,
                };
                proof {
                    lemma_key_index(trait_counts(r), idx);
                }
                traits_insert(&mut r, idx, cur + 1);
            },
            None => {},
        }
        i = i + 1;
    }
    proof {
        assert(rolls@.subrange(0, i as int) =~= rolls@);
    }
    r
}

/// How many times trait t was rolled.
pub open spec fn times_rolled(rolls: Seq<Option<usize>>, t: usize) -> int
    decreases rolls.len(),
{
    if rolls.len() == 0 {
        0
    } else {
        times_rolled(rolls.drop_last(), t) + if rolls.last() == Some(t) { 1int } else { 0 }
    }
}

/// A batch of trait charges counts each trait exactly as many times as it was rolled (and lists only traits that
/// were rolled).
pub proof fn law_tally_counts_each_roll(rolls: Seq<Option<usize>>, t: usize)
    requires
        rolls.len() < i64::MAX,
    ensures
        current(tallied(rolls), t) == times_rolled(rolls, t),
        (key_index(tallied(rolls), t) is Some) == (times_rolled(rolls, t) > 0),
    decreases rolls.len(),
{
    lemma_key_index(tallied(rolls), t);
    if rolls.len() > 0 {
        let d = rolls.drop_last();
        law_tally_counts_each_roll(d, t);
        lemma_tallied_bounds(d);
        let prev = tallied(d);
        lemma_key_index(prev, t);
        match rolls.last() {
            Some(i) => {
                lemma_key_index(prev, i);
                assert(0 <= current(prev, i) < rolls.len());
                lemma_count_after_put(prev, i, (current(prev, i) + 1) as i64, t);
            },
            None => {},
        }
        assert(times_rolled(d, t) >= 0) by {
            lemma_times_rolled_nonneg(d, t);
        }
    }
}

proof fn lemma_times_rolled_nonneg(rolls: Seq<Option<usize>>, t: usize)
    ensures
        times_rolled(rolls, t) >= 0,
    decreases rolls.len(),
{
    if rolls.len() > 0 {
        lemma_times_rolled_nonneg(rolls.drop_last(), t);
    }
}

// ---------------------------------------------------------------- a trade receipt arriving

/// Taking each (key, count) of `items` in turn: the count goes down by it, never below 0 (a key not there is set
/// to 0, last).
pub open spec fn taken(s: Seq<(Seq<char>, i64)>, items: Seq<(Seq<char>, i64)>) -> Seq<(Seq<char>, i64)>
    decreases items.len(),
{
    if items.len() == 0 {
        s
    } else {
        let t = taken(s, items.drop_last());
        let e = items.last();
        let v = current(t, e.0) - e.1;
        put(t, e.0, (if v < 0 { 0 } else { v }) as i64)
    }
}

/// Taking `items` one by one never leaves what an i64 holds on the way.
pub open spec fn takes_fit(s: Seq<(Seq<char>, i64)>, items: Seq<(Seq<char>, i64)>) -> bool {
    forall|j: int| 0 <= j < items.len() ==> fits(current(#[trigger] taken(s, items.subrange(0, j)), items[j].0) - items[j].1)
}

/// The keys of the items given more than 0 of, in order.
pub open spec fn gained_keys(items: Seq<(Seq<char>, i64)>) -> Seq<Seq<char>>
    decreases items.len(),
{
    if items.len() == 0 {
        Seq::empty()
    } else {
        let g = gained_keys(items.drop_last());
        if items.last().1 > 0 { g.push(items.last().0) } else { g }
    }
}

/// Adds each (key, count) of `items` to `owned`; returns the keys given more than 0 of.
fn add_items(owned: &mut IndexMap<String, i64>, items: &Vec<(String, i64)>) -> (gained: Vec<String>)
    requires
        adds_fit(pet_counts(*old(owned)), items_view(items@)),
    ensures
        pet_counts(*final(owned)) == added(pet_counts(*old(owned)), items_view(items@)),
        names_view(gained@) == gained_keys(items_view(items@)),
{
    let ghost m0 = pet_counts(*owned);
    let ghost iv = items_view(items@);
    let mut gained: Vec<String> = Vec::new();
    let mut i: usize = 0;
    while i < items.len()
        invariant
            iv == items_view(items@),
            i <= items@.len(),
            adds_fit(m0, iv),
            pet_counts(*owned) == added(m0, iv.subrange(0, i as int)),
            names_view(gained@) == gained_keys(iv.subrange(0, i as int)),
        decreases items@.len() - i,
    {
        let k = &items[i].0;
        let q = items[i].1;
        let cur = match pets_get(owned, k.as_str()) {
            Some(v) => v,
            None => 0,
        };
        proof {
            assert(iv[i as int] == (k@, q));
            assert(fits(current(added(m0, iv.subrange(0, i as int)), iv[i as int].0) + iv[i as int].1));
            lemma_added_step(m0, iv, i as int);
            assert(iv.subrange(0, i + 1).drop_last() =~= iv.subrange(0, i as int));
        }
        pets_insert(owned, k.clone(), cur + q);
        if q > 0 {
            gained.push(k.clone());
            proof {
                assert(names_view(gained@) =~= gained_keys(iv.subrange(0, i as int)).push(k@));
            }
        }
        i = i + 1;
    }
    proof {
        assert(iv.subrange(0, items@.len() as int) =~= iv);
    }
    gained
}

/// Takes each (key, count) of `items` from `owned`, never below 0.
fn take_items(owned: &mut IndexMap<String, i64>, items: &Vec<(String, i64)>)
    requires
        takes_fit(pet_counts(*old(owned)), items_view(items@)),
    ensures
        pet_counts(*final(owned)) == taken(pet_counts(*old(owned)), items_view(items@)),
{
    let ghost m0 = pet_counts(*owned);
    let ghost tv = items_view(items@);
    let mut j: usize = 0;
    while j < items.len()
        invariant
            tv == items_view(items@),
            j <= items@.len(),
            takes_fit(m0, tv),
            pet_counts(*owned) == taken(m0, tv.subrange(0, j as int)),
        decreases items@.len() - j,
    {
        let k = &items[j].0;
        let q = items[j].1;
        let v = match pets_get(owned, k.as_str()) {
            Some(v) => v,
            None => 0,
        };
        proof {
            assert(tv[j as int] == (k@, q));
            assert(fits(current(taken(m0, tv.subrange(0, j as int)), tv[j as int].0) - tv[j as int].1));
            assert(tv.subrange(0, j + 1).drop_last() =~= tv.subrange(0, j as int));
        }
        let left = v - q;
        pets_insert(owned, k.clone(), if left < 0 { 0 } else { left });
        j = j + 1;
    }
    proof {
        assert(tv.subrange(0, items@.len() as int) =~= tv);
    }
}

/// Applies a trade receipt to what you own: the pets given are added, the pets taken are taken (never below 0).
/// Returns the keys of the pets received (they are marked as seen and named in a toast).
pub fn apply_receipt(owned: &mut IndexMap<String, i64>, give: &Vec<(String, i64)>, take: &Vec<(String, i64)>) -> (gained: Vec<String>)
    requires
        adds_fit(pet_counts(*old(owned)), items_view(give@)),
        takes_fit(added(pet_counts(*old(owned)), items_view(give@)), items_view(take@)),
    ensures
        pet_counts(*final(owned)) == taken(added(pet_counts(*old(owned)), items_view(give@)), items_view(take@)),
        names_view(gained@) == gained_keys(items_view(give@)),
{
    let gained = add_items(owned, give);
    take_items(owned, take);
    gained
}

// ---------------------------------------------------------------- accepting a trade

/// The first item asked for that you don't have enough of, None when you have them all.
pub open spec fn first_short(counts: Seq<(Seq<char>, i64)>, request: Seq<(Seq<char>, i64)>) -> Option<int> {
    if exists|i: int| 0 <= i < request.len() && current(counts, request[i].0) < request[i].1 {
        Some(choose|i: int| 0 <= i < request.len() && current(counts, request[i].0) < request[i].1 && forall|j: int|
            0 <= j < i ==> current(counts, request[j].0) >= request[j].1)
    } else {
        None
    }
}

/// Accepting a trade: which item of what they ask for you don't have enough of in this save (the first such),
/// None when you can give it all.
pub fn missing_for_trade(owned: &IndexMap<String, i64>, request: &Vec<(String, i64)>) -> (r: Option<usize>)
    ensures
        match r {
            Some(i) => first_short(pet_counts(*owned), items_view(request@)) == Some(i as int),
            None => first_short(pet_counts(*owned), items_view(request@)) is None,
        },
{
    let ghost rv = items_view(request@);
    let ghost cs = pet_counts(*owned);
    let mut i: usize = 0;
    while i < request.len()
        invariant
            rv == items_view(request@),
            cs == pet_counts(*owned),
            i <= request@.len(),
            forall|j: int| 0 <= j < i ==> current(cs, #[trigger] rv[j].0) >= rv[j].1,
        decreases request@.len() - i,
    {
        let have = match pets_get(owned, request[i].0.as_str()) {
            Some(v) => v,
            None => 0,
        };
        proof {
            assert(rv[i as int] == (request@[i as int].0@, request@[i as int].1));
        }
        if have < request[i].1 {
            proof {
                let c = choose|c: int| 0 <= c < rv.len() && current(cs, rv[c].0) < rv[c].1 && forall|j: int|
                    0 <= j < c ==> current(cs, rv[j].0) >= rv[j].1;
                if c < i {
                    assert(current(cs, rv[c].0) >= rv[c].1);
                } else if c > i {
                    assert(current(cs, rv[i as int].0) >= rv[i as int].1);
                }
            }
            return Some(i);
        }
        i = i + 1;
    }
    None
}

/// Once a trade you accepted went through: what they asked for leaves your save (never below 0), what they offered
/// is added. Returns the keys of the pets received (marked as seen).
pub fn apply_accepted_trade(owned: &mut IndexMap<String, i64>, request: &Vec<(String, i64)>, offer: &Vec<(String, i64)>) -> (gained: Vec<String>)
    requires
        takes_fit(pet_counts(*old(owned)), items_view(request@)),
        adds_fit(taken(pet_counts(*old(owned)), items_view(request@)), items_view(offer@)),
    ensures
        pet_counts(*final(owned)) == added(taken(pet_counts(*old(owned)), items_view(request@)), items_view(offer@)),
        names_view(gained@) == gained_keys(items_view(offer@)),
{
    take_items(owned, request);
    add_items(owned, offer)
}

// ---------------------------------------------------------------- the online wallet

/// The entries with a count above 0, in the map's order.
pub open spec fn held(s: Seq<(Seq<char>, i64)>) -> Seq<(Seq<char>, i64)>
    decreases s.len(),
{
    if s.len() == 0 {
        Seq::empty()
    } else {
        let b = held(s.drop_last());
        if s.last().1 > 0 { b.push(s.last()) } else { b }
    }
}

/// What the online wallet is set to when a save is entered: every pet you have (count above 0), in order.
pub fn wallet_snapshot(owned: &IndexMap<String, i64>) -> (r: Vec<(String, i64)>)
    ensures
        items_view(r@) == held(pet_counts(*owned)),
{
    let ghost cs = pet_counts(*owned);
    let n = pets_len(owned);
    let mut out: Vec<(String, i64)> = Vec::new();
    let mut i: usize = 0;
    while i < n
        invariant
            cs == pet_counts(*owned),
            n == cs.len(),
            i <= n,
            items_view(out@) == held(cs.subrange(0, i as int)),
        decreases n - i,
    {
        let (k, v) = pets_at(owned, i);
        proof {
            assert(cs.subrange(0, i + 1).drop_last() =~= cs.subrange(0, i as int));
            assert(cs.subrange(0, i + 1).last() == cs[i as int]);
        }
        if v > 0 {
            let ghost o0 = out@;
            let ghost kv = k@;
            out.push((k, v));
            proof {
                assert(items_view(out@) =~= items_view(o0).push((kv, v)));
            }
        }
        i = i + 1;
    }
    proof {
        assert(cs.subrange(0, n as int) =~= cs);
    }
    out
}

/// What the wallet's timer starts in a frame.
#[derive(Clone, Copy, PartialEq, Eq, Debug, Structural)]
pub struct WalletTasks {
    /// set the online wallet to exactly what you have (`wallet_snapshot`)
    pub sync_all: bool,
    /// send what was rolled or traded since the last send
    pub flush: bool,
    /// look for trades that friends completed
    pub check_incoming: bool,
}

/// The wallet's timer, with an account and a cloud save (`online`): the first time a save is seen with this
/// account the whole wallet is set, and nothing else that frame; after that, what is pending is sent when its
/// time comes, one send at a time; incoming trades are looked for on their own timer.
pub fn wallet_tasks(online: bool, syncing: bool, synced_this_save: bool, pending: bool, flush_due: bool, checking: bool, check_due: bool) -> (r: WalletTasks)
    ensures
        r.sync_all == (online && !syncing && !synced_this_save),
        r.flush == (online && !r.sync_all && !syncing && pending && flush_due),
        r.check_incoming == (online && !r.sync_all && !checking && check_due),
        !(r.sync_all && r.flush),
        syncing ==> !r.sync_all && !r.flush,
{
    if !online {
        return WalletTasks { sync_all: false, flush: false, check_incoming: false };
    }
    if !syncing && !synced_this_save {
        return WalletTasks { sync_all: true, flush: false, check_incoming: false };
    }
    WalletTasks { sync_all: false, flush: !syncing && pending && flush_due, check_incoming: !checking && check_due }
}

// ---------------------------------------------------------------- the Bag's list

/// What one entry of what you own shows in the Bag: its key is "<pet index>_<mutation>", with a count above 0, a
/// known pet (one with a tier in `tiers`) and a known mutation (`muts`: name, key); kept when it passes the
/// mutation filter (`inv_mut`, "all" = any) and the tier filter. Gives (pet index, mutation key).
pub open spec fn bag_entry_spec(e: (Seq<char>, i64), tiers: Seq<i64>, muts: Seq<(Seq<char>, Seq<char>)>, inv_mut: Seq<char>, inv_tier: Option<i64>) -> Option<(usize, Seq<char>)> {
    match first_index_of(e.0, '_') {
        None => None,
        Some(u) => match (spec_parse_i64(spec_trim(e.0.subrange(0, u))), spec_find_label(muts, e.0.subrange(u + 1, e.0.len() as int))) {
            (Some(idx), Some(mk)) => if e.1 > 0 && 0 <= idx < tiers.len() && (inv_mut == "all"@ || mk == inv_mut) && match inv_tier {
                Some(t) => tiers[idx as int] == t,
                None => true,
            } {
                Some((idx as usize, mk))
            } else {
                None
            },
            _ => None,
        },
    }
}

/// The Bag's entries before sorting, in the order of what you own.
pub open spec fn bag_list(counts: Seq<(Seq<char>, i64)>, tiers: Seq<i64>, muts: Seq<(Seq<char>, Seq<char>)>, inv_mut: Seq<char>, inv_tier: Option<i64>) -> Seq<(usize, Seq<char>)>
    decreases counts.len(),
{
    if counts.len() == 0 {
        Seq::empty()
    } else {
        let b = bag_list(counts.drop_last(), tiers, muts, inv_mut, inv_tier);
        match bag_entry_spec(counts.last(), tiers, muts, inv_mut, inv_tier) {
            Some(x) => b.push(x),
            None => b,
        }
    }
}

fn bag_entry(key: &str, n: i64, tiers: &Vec<i64>, muts: &Vec<(String, String)>, inv_mut: &str, inv_tier: Option<i64>) -> (r: Option<(usize, String)>)
    ensures
        match r {
            Some(x) => bag_entry_spec((key@, n), tiers@, pairs_view(muts@), inv_mut@, inv_tier) == Some((x.0, x.1@)),
            None => bag_entry_spec((key@, n), tiers@, pairs_view(muts@), inv_mut@, inv_tier) is None,
        },
{
    let u = match find_char(key, '_') {
        Some(u) => u,
        None => return None,
    };
    let len = key.unicode_len();
    let idx_s = key.substring_char(0, u);
    let m = key.substring_char(u + 1, len);
    let t = trim(idx_s);
    let idx = match parse_i64(t.as_str()) {
        Some(i) => i,
        None => return None,
    };
    let mk = match find_label(muts, m) {
        Some(k) => k,
        None => return None,
    };
    if n <= 0 || idx < 0 || (idx as u64) >= (tiers.len() as u64) {
        return None;
    }
    let i = idx as usize;
    if !(str_eq(inv_mut, "all") || str_eq(mk.as_str(), inv_mut)) {
        return None;
    }
    match inv_tier {
        Some(tt) => {
            if tiers[i] != tt {
                return None;
            }
        },
        None => {},
    }
    Some((i, mk))
}

/// The pairs as texts.
pub open spec fn bag_view(v: Seq<(usize, String)>) -> Seq<(usize, Seq<char>)> {
    v.map_values(|p: (usize, String)| (p.0, p.1@))
}

/// The kinds of pet the Bag lists, before sorting: each entry of what you own (in its order) that names a known
/// pet and mutation, with a count above 0, passing the mutation and tier filters; as (pet index, mutation key).
pub fn bag_entries(owned: &IndexMap<String, i64>, tiers: &Vec<i64>, muts: &Vec<(String, String)>, inv_mut: &str, inv_tier: Option<i64>) -> (r: Vec<(usize, String)>)
    ensures
        bag_view(r@) == bag_list(pet_counts(*owned), tiers@, pairs_view(muts@), inv_mut@, inv_tier),
{
    let ghost cs = pet_counts(*owned);
    let ghost mv = pairs_view(muts@);
    let n = pets_len(owned);
    let mut out: Vec<(usize, String)> = Vec::new();
    let mut i: usize = 0;
    while i < n
        invariant
            cs == pet_counts(*owned),
            mv == pairs_view(muts@),
            n == cs.len(),
            i <= n,
            bag_view(out@) == bag_list(cs.subrange(0, i as int), tiers@, mv, inv_mut@, inv_tier),
        decreases n - i,
    {
        let (k, v) = pets_at(owned, i);
        proof {
            assert(cs.subrange(0, i + 1).drop_last() =~= cs.subrange(0, i as int));
            assert(cs.subrange(0, i + 1).last() == cs[i as int]);
            assert((k@, v) == cs[i as int]);
        }
        match bag_entry(k.as_str(), v, tiers, muts, inv_mut, inv_tier) {
            Some(x) => {
                let ghost o0 = out@;
                let ghost xv = (x.0, x.1@);
                out.push(x);
                proof {
                    assert(bag_view(out@) =~= bag_view(o0).push(xv));
                }
            },
            None => {},
        }
        i = i + 1;
    }
    proof {
        assert(cs.subrange(0, n as int) =~= cs);
    }
    out
}

/// The profile photo picked: a known pet (below `n_pets`) with a known mutation (`muts`: name, key) becomes
/// (pet, mutation key); anything else is ignored (None).
pub fn avatar_choice(pet_index: usize, m: &str, n_pets: usize, muts: &Vec<(String, String)>) -> (r: Option<(usize, String)>)
    ensures
        match r {
            Some(x) => pet_index < n_pets && x.0 == pet_index && spec_find_label(pairs_view(muts@), m@) == Some(x.1@),
            None => !(pet_index < n_pets && spec_find_label(pairs_view(muts@), m@) is Some),
        },
{
    if pet_index >= n_pets {
        return None;
    }
    match find_label(muts, m) {
        Some(k) => Some((pet_index, k)),
        None => None,
    }
}

// ---------------------------------------------------------------- checked forms

/// Whether `cur + q` fits in an i64, tested without overflowing.
fn sum_fits(cur: i64, q: i64) -> (r: bool)
    ensures
        r == fits(cur + q),
{
    if q > 0 {
        cur <= i64::MAX - q
    } else {
        cur >= i64::MIN - q
    }
}

/// Whether `cur - q` fits in an i64, tested without overflowing.
fn difference_fits(cur: i64, q: i64) -> (r: bool)
    ensures
        r == fits(cur - q),
{
    if q > 0 {
        cur >= i64::MIN + q
    } else {
        cur <= i64::MAX + q
    }
}

/// Adds `items` to `work` as long as every count fits; false (and `work` left half done) when one would not.
fn try_add_items(work: &mut IndexMap<String, i64>, items: &Vec<(String, i64)>) -> (r: bool)
    ensures
        r == adds_fit(pet_counts(*old(work)), items_view(items@)),
        r ==> pet_counts(*final(work)) == added(pet_counts(*old(work)), items_view(items@)),
{
    let ghost m0 = pet_counts(*work);
    let ghost iv = items_view(items@);
    let mut i: usize = 0;
    while i < items.len()
        invariant
            iv == items_view(items@),
            m0 == pet_counts(*old(work)),
            i <= items@.len(),
            pet_counts(*work) == added(m0, iv.subrange(0, i as int)),
            forall|j: int| 0 <= j < i ==> fits(current(#[trigger] added(m0, iv.subrange(0, j)), iv[j].0) + iv[j].1),
        decreases items@.len() - i,
    {
        let k = &items[i].0;
        let q = items[i].1;
        let cur = match pets_get(work, k.as_str()) {
            Some(v) => v,
            None => 0,
        };
        proof {
            assert(iv[i as int] == (k@, q));
        }
        if !sum_fits(cur, q) {
            proof {
                assert(!fits(current(added(m0, iv.subrange(0, i as int)), iv[i as int].0) + iv[i as int].1));
            }
            return false;
        }
        proof {
            lemma_added_step(m0, iv, i as int);
        }
        pets_insert(work, k.clone(), cur + q);
        i = i + 1;
    }
    proof {
        assert(iv.subrange(0, items@.len() as int) =~= iv);
    }
    true
}

/// Takes `items` from `work` (never below 0) as long as every difference fits; false when one would not.
fn try_take_items(work: &mut IndexMap<String, i64>, items: &Vec<(String, i64)>) -> (r: bool)
    ensures
        r == takes_fit(pet_counts(*old(work)), items_view(items@)),
        r ==> pet_counts(*final(work)) == taken(pet_counts(*old(work)), items_view(items@)),
{
    let ghost m0 = pet_counts(*work);
    let ghost tv = items_view(items@);
    let mut j: usize = 0;
    while j < items.len()
        invariant
            tv == items_view(items@),
            m0 == pet_counts(*old(work)),
            j <= items@.len(),
            pet_counts(*work) == taken(m0, tv.subrange(0, j as int)),
            forall|i: int| 0 <= i < j ==> fits(current(#[trigger] taken(m0, tv.subrange(0, i)), tv[i].0) - tv[i].1),
        decreases items@.len() - j,
    {
        let k = &items[j].0;
        let q = items[j].1;
        let v = match pets_get(work, k.as_str()) {
            Some(v) => v,
            None => 0,
        };
        proof {
            assert(tv[j as int] == (k@, q));
        }
        if !difference_fits(v, q) {
            proof {
                assert(!fits(current(taken(m0, tv.subrange(0, j as int)), tv[j as int].0) - tv[j as int].1));
            }
            return false;
        }
        proof {
            assert(tv.subrange(0, j + 1).drop_last() =~= tv.subrange(0, j as int));
        }
        let left = v - q;
        pets_insert(work, k.clone(), if left < 0 { 0 } else { left });
        j = j + 1;
    }
    proof {
        assert(tv.subrange(0, items@.len() as int) =~= tv);
    }
    true
}

/// Whether adding `items` to `map` keeps every count within an i64 (worked out on a copy; `map` is not changed).
fn add_fits(map: &IndexMap<String, i64>, items: &IndexMap<String, i64>) -> (r: bool)
    ensures
        r == adds_fit(pet_counts(*map), pet_counts(*items)),
{
    let ghost m0 = pet_counts(*map);
    let ghost it = pet_counts(*items);
    let mut work = pets_clone(map);
    let n = pets_len(items);
    let mut i: usize = 0;
    while i < n
        invariant
            n == it.len(),
            it == pet_counts(*items),
            m0 == pet_counts(*map),
            i <= n,
            pet_counts(work) == added(m0, it.subrange(0, i as int)),
            forall|j: int| 0 <= j < i ==> fits(current(#[trigger] added(m0, it.subrange(0, j)), it[j].0) + it[j].1),
        decreases n - i,
    {
        let (k, q) = pets_at(items, i);
        let cur = match pets_get(&work, k.as_str()) {
            Some(v) => v,
            None => 0,
        };
        if !sum_fits(cur, q) {
            proof {
                assert(!fits(current(added(m0, it.subrange(0, i as int)), it[i as int].0) + it[i as int].1));
            }
            return false;
        }
        proof {
            lemma_added_step(m0, it, i as int);
        }
        pets_insert(&mut work, k, cur + q);
        i = i + 1;
    }
    proof {
        assert(it.subrange(0, n as int) =~= it);
    }
    true
}

/// `add_to` for any counts: when every count fits in an i64 it adds them and says true; otherwise `map` is left as
/// it was and it says false.
pub fn checked_add_to(map: &mut IndexMap<String, i64>, items: &IndexMap<String, i64>) -> (r: bool)
    ensures
        r == adds_fit(pet_counts(*old(map)), pet_counts(*items)),
        r ==> pet_counts(*final(map)) == added(pet_counts(*old(map)), pet_counts(*items)),
        !r ==> pet_counts(*final(map)) == pet_counts(*old(map)),
{
    if add_fits(map, items) {
        add_to(map, items);
        true
    } else {
        false
    }
}

/// Whether a receipt's counts all fit in an i64 (worked out on a copy; `owned` is not changed).
fn receipt_fits(owned: &IndexMap<String, i64>, give: &Vec<(String, i64)>, take: &Vec<(String, i64)>) -> (r: bool)
    ensures
        r == (adds_fit(pet_counts(*owned), items_view(give@)) && takes_fit(added(pet_counts(*owned), items_view(give@)), items_view(take@))),
{
    let mut work = pets_clone(owned);
    try_add_items(&mut work, give) && try_take_items(&mut work, take)
}

/// `apply_receipt` for any receipt: Some(the keys received) when every count fits in an i64, None (and nothing
/// changed) otherwise.
pub fn checked_apply_receipt(owned: &mut IndexMap<String, i64>, give: &Vec<(String, i64)>, take: &Vec<(String, i64)>) -> (r: Option<Vec<String>>)
    ensures
        (r is Some) == (adds_fit(pet_counts(*old(owned)), items_view(give@))
            && takes_fit(added(pet_counts(*old(owned)), items_view(give@)), items_view(take@))),
        r matches Some(g) ==> pet_counts(*final(owned)) == taken(added(pet_counts(*old(owned)), items_view(give@)), items_view(take@))
            && names_view(g@) == gained_keys(items_view(give@)),
        r is None ==> pet_counts(*final(owned)) == pet_counts(*old(owned)),
{
    if receipt_fits(owned, give, take) {
        Some(apply_receipt(owned, give, take))
    } else {
        None
    }
}

/// Whether an accepted trade's counts all fit in an i64 (worked out on a copy; `owned` is not changed).
fn trade_fits(owned: &IndexMap<String, i64>, request: &Vec<(String, i64)>, offer: &Vec<(String, i64)>) -> (r: bool)
    ensures
        r == (takes_fit(pet_counts(*owned), items_view(request@)) && adds_fit(taken(pet_counts(*owned), items_view(request@)), items_view(offer@))),
{
    let mut work = pets_clone(owned);
    if !try_take_items(&mut work, request) {
        return false;
    }
    try_add_items(&mut work, offer)
}

/// `apply_accepted_trade` for any trade: Some(the keys received) when every count fits in an i64, None (and
/// nothing changed) otherwise.
pub fn checked_apply_accepted_trade(owned: &mut IndexMap<String, i64>, request: &Vec<(String, i64)>, offer: &Vec<(String, i64)>) -> (r: Option<Vec<String>>)
    ensures
        (r is Some) == (takes_fit(pet_counts(*old(owned)), items_view(request@))
            && adds_fit(taken(pet_counts(*old(owned)), items_view(request@)), items_view(offer@))),
        r matches Some(g) ==> pet_counts(*final(owned)) == added(taken(pet_counts(*old(owned)), items_view(request@)), items_view(offer@))
            && names_view(g@) == gained_keys(items_view(offer@)),
        r is None ==> pet_counts(*final(owned)) == pet_counts(*old(owned)),
{
    if trade_fits(owned, request, offer) {
        Some(apply_accepted_trade(owned, request, offer))
    } else {
        None
    }
}

} // verus!
