//! Settings that travel with the save: every setting but "fullscreen" is stored in the save, and a save opened on
//! another PC brings them along (fullscreen stays per PC). A setting is a name and its value as JSON text.
use vstd::prelude::*;
use crate::text::str_eq;
use crate::labels::pairs_view;
use crate::num::{int_text, spec_int_text, spec_digits, lemma_digits_read, is_digit};

verus! {

/// The setting that stays on each PC.
pub open spec fn fullscreen_key() -> Seq<char> {
    seq!['f', 'u', 'l', 'l', 's', 'c', 'r', 'e', 'e', 'n']
}

/// The value of setting `k` (the last entry with that name wins), None when there is none.
pub open spec fn lookup(m: Seq<(Seq<char>, Seq<char>)>, k: Seq<char>) -> Option<Seq<char>>
    decreases m.len(),
{
    if m.len() == 0 {
        None
    } else if m.last().0 == k {
        Some(m.last().1)
    } else {
        lookup(m.drop_last(), k)
    }
}

/// The settings once a save's copy is applied: each setting this PC has (except fullscreen) takes the save's value.
pub open spec fn merged(settings: Seq<(Seq<char>, Seq<char>)>, prefs: Seq<(Seq<char>, Seq<char>)>) -> Seq<(Seq<char>, Seq<char>)> {
    settings.map_values(|e: (Seq<char>, Seq<char>)|
        if e.0 != fullscreen_key() && lookup(prefs, e.0) is Some {
            (e.0, lookup(prefs, e.0)->0)
        } else {
            e
        })
}

/// The copy of the settings that goes into the save: all of them but fullscreen.
pub open spec fn without_fullscreen(m: Seq<(Seq<char>, Seq<char>)>) -> Seq<(Seq<char>, Seq<char>)>
    decreases m.len(),
{
    if m.len() == 0 {
        Seq::empty()
    } else {
        let rest = without_fullscreen(m.drop_last());
        if m.last().0 == fullscreen_key() { rest } else { rest.push(m.last()) }
    }
}

fn is_fullscreen_key(k: &str) -> (b: bool)
    ensures
        b == (k@ == fullscreen_key()),
{
    let r = str_eq(k, "fullscreen");
    proof {
        reveal_strlit("fullscreen");
        assert("fullscreen"@ =~= fullscreen_key());
    }
    r
}

/// The save's value of setting `k` (the last entry with that name).
fn find(prefs: &Vec<(String, String)>, k: &str) -> (r: Option<String>)
    ensures
        match r {
            Some(v) => lookup(pairs_view(prefs@), k@) == Some(v@),
            None => lookup(pairs_view(prefs@), k@) is None,
        },
{
    let mut i = prefs.len();
    proof {
        assert(prefs@.subrange(0, i as int) =~= prefs@);
    }
    while i > 0
        invariant
            i <= prefs@.len(),
            lookup(pairs_view(prefs@), k@) == lookup(pairs_view(prefs@.subrange(0, i as int)), k@),
        decreases i,
    {
        let ghost sub = pairs_view(prefs@.subrange(0, i as int));
        proof {
            assert(pairs_view(prefs@.subrange(0, i - 1)) =~= sub.drop_last());
        }
        if str_eq(prefs[i - 1].0.as_str(), k) {
            return Some(prefs[i - 1].1.clone());
        }
        i = i - 1;
    }
    None
}

/// Applies the settings kept in a save to this PC's settings (each setting this PC has, except fullscreen, takes
/// the save's value). Returns whether anything changed (then the settings are saved again).
pub fn apply_save_prefs(settings: &mut Vec<(String, String)>, prefs: &Vec<(String, String)>) -> (changed: bool)
    ensures
        pairs_view(final(settings)@) == merged(pairs_view(old(settings)@), pairs_view(prefs@)),
        changed == (pairs_view(final(settings)@) != pairs_view(old(settings)@)),
{
    let ghost s0 = pairs_view(settings@);
    let ghost target = merged(s0, pairs_view(prefs@));
    let mut changed = false;
    let mut i: usize = 0;
    while i < settings.len()
        invariant
            target == merged(s0, pairs_view(prefs@)),
            s0 == pairs_view(old(settings)@),
            settings@.len() == s0.len(),
            i <= s0.len(),
            forall|j: int| 0 <= j < i ==> #[trigger] pairs_view(settings@)[j] == target[j],
            forall|j: int| i <= j < s0.len() ==> #[trigger] pairs_view(settings@)[j] == s0[j],
            changed == exists|j: int| 0 <= j < i && #[trigger] target[j] != s0[j],
        decreases s0.len() - i,
    {
        let ghost before = settings@;
        assert(pairs_view(before)[i as int] == s0[i as int]);
        let ghost e = s0[i as int];
        assert(target[i as int] == (if e.0 != fullscreen_key() && lookup(pairs_view(prefs@), e.0) is Some {
            (e.0, lookup(pairs_view(prefs@), e.0)->0)
        } else {
            e
        }));
        if !is_fullscreen_key(settings[i].0.as_str()) {
            let found = find(prefs, settings[i].0.as_str());
            match found {
                Some(v) => {
                    if !str_eq(settings[i].1.as_str(), v.as_str()) {
                        let k = settings[i].0.clone();
                        settings.set(i, (k, v));
                        changed = true;
                        proof {
                            assert(settings@ =~= before.update(i as int, settings@[i as int]));
                            assert(pairs_view(settings@) =~= pairs_view(before).update(i as int, pairs_view(settings@)[i as int]));
                        }
                    }
                },
                None => {},
            }
        }
        proof {
            assert(pairs_view(settings@)[i as int] == target[i as int]);
            if changed {
                if target[i as int] != s0[i as int] {
                    assert(exists|j: int| 0 <= j < i + 1 && #[trigger] target[j] != s0[j]);
                }
            }
        }
        i = i + 1;
    }
    proof {
        assert(pairs_view(settings@) =~= target);
        if changed {
            let j = choose|j: int| 0 <= j < i && #[trigger] target[j] != s0[j];
            assert(pairs_view(settings@)[j] != s0[j]);
        } else {
            assert(target =~= s0);
        }
    }
    changed
}


/// Two copies of the settings are the same as maps: every entry of each has its value in the other.
pub open spec fn same_map(a: Seq<(Seq<char>, Seq<char>)>, b: Seq<(Seq<char>, Seq<char>)>) -> bool {
    &&& a.len() == b.len()
    &&& forall|i: int| 0 <= i < a.len() ==> lookup(b, (#[trigger] a[i]).0) == Some(a[i].1)
    &&& forall|i: int| 0 <= i < b.len() ==> lookup(a, (#[trigger] b[i]).0) == Some(b[i].1)
}

fn same_settings(a: &Vec<(String, String)>, b: &Vec<(String, String)>) -> (r: bool)
    ensures
        r == same_map(pairs_view(a@), pairs_view(b@)),
{
    if a.len() != b.len() {
        return false;
    }
    let mut i: usize = 0;
    while i < a.len()
        invariant
            i <= a@.len(),
            forall|j: int| 0 <= j < i ==> lookup(pairs_view(b@), (#[trigger] pairs_view(a@)[j]).0) == Some(pairs_view(a@)[j].1),
        decreases a@.len() - i,
    {
        let ghost e = pairs_view(a@)[i as int];
        assert(e == (a@[i as int].0@, a@[i as int].1@));
        match find(b, a[i].0.as_str()) {
            Some(v) => {
                if !str_eq(v.as_str(), a[i].1.as_str()) {
                    assert(lookup(pairs_view(b@), e.0) != Some(e.1));
                    return false;
                }
            },
            None => {
                assert(lookup(pairs_view(b@), e.0) != Some(e.1));
                return false;
            },
        }
        i = i + 1;
    }
    let mut i: usize = 0;
    while i < b.len()
        invariant
            i <= b@.len(),
            a@.len() == b@.len(),
            forall|j: int| 0 <= j < a@.len() ==> lookup(pairs_view(b@), (#[trigger] pairs_view(a@)[j]).0) == Some(pairs_view(a@)[j].1),
            forall|j: int| 0 <= j < i ==> lookup(pairs_view(a@), (#[trigger] pairs_view(b@)[j]).0) == Some(pairs_view(b@)[j].1),
        decreases b@.len() - i,
    {
        let ghost e = pairs_view(b@)[i as int];
        assert(e == (b@[i as int].0@, b@[i as int].1@));
        match find(a, b[i].0.as_str()) {
            Some(v) => {
                if !str_eq(v.as_str(), b[i].1.as_str()) {
                    assert(lookup(pairs_view(a@), e.0) != Some(e.1));
                    return false;
                }
            },
            None => {
                assert(lookup(pairs_view(a@), e.0) != Some(e.1));
                return false;
            },
        }
        i = i + 1;
    }
    true
}

/// This PC's settings go into the save (all of them but fullscreen) when they differ from the copy already there.
/// Returns whether the save's copy changed (the save is then marked dirty).
pub fn store_save_prefs(settings: &Vec<(String, String)>, prefs: &mut Option<Vec<(String, String)>>) -> (dirty: bool)
    ensures
        ({
            let want = without_fullscreen(pairs_view(settings@));
            let same = match *old(prefs) {
                Some(p) => same_map(pairs_view(p@), want),
                None => false,
            };
            &&& dirty == !same
            &&& !same ==> (*final(prefs) matches Some(p) && pairs_view(p@) == want)
            &&& same ==> *final(prefs) == *old(prefs)
        }),
{
    let mut p: Vec<(String, String)> = Vec::new();
    let mut i: usize = 0;
    while i < settings.len()
        invariant
            i <= settings@.len(),
            pairs_view(p@) == without_fullscreen(pairs_view(settings@.subrange(0, i as int))),
        decreases settings@.len() - i,
    {
        proof {
            assert(pairs_view(settings@.subrange(0, i + 1)).drop_last() =~= pairs_view(settings@.subrange(0, i as int)));
        }
        if !is_fullscreen_key(settings[i].0.as_str()) {
            let e = (settings[i].0.clone(), settings[i].1.clone());
            let ghost p0 = p@;
            p.push(e);
            proof {
                assert(pairs_view(p@) =~= pairs_view(p0).push(pairs_view(settings@.subrange(0, i + 1)).last()));
            }
        }
        i = i + 1;
    }
    proof {
        assert(settings@.subrange(0, i as int) =~= settings@);
    }
    let same = match prefs {
        Some(q) => same_settings(q, &p),
        None => false,
    };
    if !same {
        *prefs = Some(p);
        true
    } else {
        false
    }
}

/// No two settings share a name (as in any map of settings).
pub open spec fn unique_names(m: Seq<(Seq<char>, Seq<char>)>) -> bool {
    forall|i: int, j: int| 0 <= i < j < m.len() ==> #[trigger] m[i].0 != #[trigger] m[j].0
}

proof fn lemma_lookup_unique(m: Seq<(Seq<char>, Seq<char>)>, i: int)
    requires
        unique_names(m),
        0 <= i < m.len(),
    ensures
        lookup(m, m[i].0) == Some(m[i].1),
    decreases m.len(),
{
    if i < m.len() - 1 {
        let d = m.drop_last();
        assert(m[i].0 != m[m.len() - 1].0);
        assert(unique_names(d)) by {
            assert forall|a: int, b: int| 0 <= a < b < d.len() implies #[trigger] d[a].0 != #[trigger] d[b].0 by {
                assert(d[a] == m[a] && d[b] == m[b]);
            }
        }
        assert(d[i] == m[i]);
        lemma_lookup_unique(d, i);
    }
}

proof fn lemma_without_fullscreen_unique(m: Seq<(Seq<char>, Seq<char>)>)
    requires
        unique_names(m),
    ensures
        unique_names(without_fullscreen(m)),
        forall|j: int| 0 <= j < without_fullscreen(m).len() ==> exists|i: int| 0 <= i < m.len() && #[trigger] without_fullscreen(m)[j] == m[i],
    decreases m.len(),
{
    if m.len() > 0 {
        let d = m.drop_last();
        assert(unique_names(d)) by {
            assert forall|a: int, b: int| 0 <= a < b < d.len() implies #[trigger] d[a].0 != #[trigger] d[b].0 by {
                assert(d[a] == m[a] && d[b] == m[b]);
            }
        }
        lemma_without_fullscreen_unique(d);
        let rest = without_fullscreen(d);
        let w = without_fullscreen(m);
        assert forall|j: int| 0 <= j < rest.len() implies exists|i: int| 0 <= i < m.len() && #[trigger] rest[j] == m[i] by {
            let i = choose|i: int| 0 <= i < d.len() && rest[j] == d[i];
            assert(rest[j] == m[i]);
        }
        if m.last().0 != fullscreen_key() {
            assert forall|a: int, b: int| 0 <= a < b < w.len() implies #[trigger] w[a].0 != #[trigger] w[b].0 by {
                if b == w.len() - 1 {
                    let i = choose|i: int| 0 <= i < d.len() && rest[a] == d[i];
                    assert(m[i].0 != m[m.len() - 1].0);
                } else {
                    assert(w[a] == rest[a] && w[b] == rest[b]);
                }
            }
            assert forall|j: int| 0 <= j < w.len() implies exists|i: int| 0 <= i < m.len() && #[trigger] w[j] == m[i] by {
                if j == w.len() - 1 {
                    assert(w[j] == m[m.len() - 1]);
                } else {
                    assert(w[j] == rest[j]);
                }
            }
        }
    }
}

/// Storing the settings in the save twice in a row changes nothing the second time: what the first call stored
/// is, as a map, what the second would store, so it returns false and leaves the save's copy as it is (setting
/// names being unique, as in any map of settings).
pub proof fn law_store_twice_changes_nothing(settings: Seq<(Seq<char>, Seq<char>)>)
    requires
        unique_names(settings),
    ensures
        same_map(without_fullscreen(settings), without_fullscreen(settings)),
{
    let w = without_fullscreen(settings);
    lemma_without_fullscreen_unique(settings);
    assert forall|i: int| 0 <= i < w.len() implies lookup(w, (#[trigger] w[i]).0) == Some(w[i].1) by {
        lemma_lookup_unique(w, i);
    }
}

/// Leaving fullscreen out changes no other setting's value.
proof fn lemma_lookup_without_fullscreen(m: Seq<(Seq<char>, Seq<char>)>, k: Seq<char>)
    requires
        k != fullscreen_key(),
    ensures
        lookup(without_fullscreen(m), k) == lookup(m, k),
    decreases m.len(),
{
    if m.len() > 0 {
        lemma_lookup_without_fullscreen(m.drop_last(), k);
        let rest = without_fullscreen(m.drop_last());
        if m.last().0 != fullscreen_key() {
            assert(rest.push(m.last()).drop_last() =~= rest);
        }
    }
}

/// Settings follow the save to another PC: once PC 1's settings are stored in the save and the save is opened on
/// PC 2, each setting PC 2 has takes PC 1's value, except fullscreen, which stays PC 2's; settings PC 1 doesn't
/// have stay as they were.
pub proof fn law_settings_follow_save(pc1: Seq<(Seq<char>, Seq<char>)>, pc2: Seq<(Seq<char>, Seq<char>)>)
    ensures
        ({
            let after = merged(pc2, without_fullscreen(pc1));
            &&& after.len() == pc2.len()
            &&& forall|i: int| 0 <= i < pc2.len() ==> (#[trigger] after[i]).0 == pc2[i].0
            &&& forall|i: int| 0 <= i < pc2.len() && pc2[i].0 == fullscreen_key() ==> #[trigger] after[i] == pc2[i]
            &&& forall|i: int| 0 <= i < pc2.len() && pc2[i].0 != fullscreen_key() ==> (#[trigger] after[i]).1 == match lookup(pc1, pc2[i].0) {
                Some(v) => v,
                None => pc2[i].1,
            }
        }),
{
    let after = merged(pc2, without_fullscreen(pc1));
    assert forall|i: int| 0 <= i < pc2.len() && pc2[i].0 != fullscreen_key() implies (#[trigger] after[i]).1 == match lookup(pc1, pc2[i].0) {
        Some(v) => v,
        None => pc2[i].1,
    } by {
        lemma_lookup_without_fullscreen(pc1, pc2[i].0);
    }
}

// ---------------------------------------------------------------- the Upgrades panel's buy mode

/// The buy mode a setting's JSON text (None: not set) stands for: "max" (0: as many as you can afford), 10, or
/// else 1. A number setting is written "10" or "10.0" when it is ten (as an integer or as a float).
pub open spec fn spec_buy_mode(v: Option<Seq<char>>) -> i64 {
    match v {
        Some(t) => if t == "\"max\""@ {
            0
        } else if t == "10"@ || t == "10.0"@ {
            10
        } else {
            1
        },
        None => 1,
    }
}

/// The Upgrades panel's buy mode (x1, x10 or Max = 0) from the "buy_mode" setting.
pub fn buy_mode(settings: &Vec<(String, String)>) -> (r: i64)
    ensures
        r == spec_buy_mode(lookup(pairs_view(settings@), "buy_mode"@)),
{
    match find(settings, "buy_mode") {
        None => 1,
        Some(t) => {
            if str_eq(t.as_str(), "\"max\"") {
                0
            } else if str_eq(t.as_str(), "10") || str_eq(t.as_str(), "10.0") {
                10
            } else {
                1
            }
        },
    }
}

/// The JSON text the "buy_mode" setting is written as: "max" for 0, else the number.
pub open spec fn spec_buy_mode_text(mode: i64) -> Seq<char> {
    if mode == 0 { "\"max\""@ } else { spec_int_text(mode as int) }
}

/// The JSON text the "buy_mode" setting is written as: "max" for 0, else the number.
pub fn buy_mode_text(mode: i64) -> (r: String)
    ensures
        r@ == spec_buy_mode_text(mode),
{
    if mode == 0 {
        String::from_str("\"max\"")
    } else {
        int_text(mode)
    }
}

/// The buy mode read back from what was written for it: x1, x10 and Max (0) come back as they were; any other
/// number reads back as x1.
pub proof fn law_buy_mode_round_trip(mode: i64)
    ensures
        spec_buy_mode(Some(spec_buy_mode_text(mode))) == if mode == 0 { 0i64 } else if mode == 10 { 10i64 } else { 1i64 },
{
    reveal_strlit("\"max\"");
    reveal_strlit("10");
    reveal_strlit("10.0");
    if mode != 0 {
        let t = spec_int_text(mode as int);
        if mode < 0 {
            assert(t[0] == '-');
            assert(t != "\"max\""@ && t != "10"@ && t != "10.0"@);
        } else {
            lemma_digits_read(mode as nat);
            assert(is_digit(t[0]));
            assert(t != "\"max\""@);
            if t.len() == 4 {
                assert(is_digit(t[2]));
                assert(t != "10.0"@);
            }
            assert(spec_digits(1) == seq!['1']);
            assert(spec_digits(10) =~= seq!['1', '0']);
            lemma_digits_read(10);
            assert("10"@ =~= seq!['1', '0']);
            assert(t == "10"@ <==> mode == 10);
        }
    }
}

} // verus!
