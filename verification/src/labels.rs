//! The short texts the game shows: icons per upgrade and tab, Prestige numerals, pet and trade labels, clocks.
//! Texts are given in English (the game shows them in the player's language when it draws them); the labels of mutations, pet names
//! and formatted numbers are passed in already as they are shown.
use vstd::prelude::*;
use crate::text::{str_eq, starts_with, trim, spec_trim, push_char};
use crate::num::{parse_i64, spec_parse_i64, int_text, spec_int_text, spec_digits, lemma_digits_read, is_digit};
use crate::text::is_ws;

verus! {

/// `s` starts with `p`.
pub open spec fn starts(s: Seq<char>, p: Seq<char>) -> bool {
    p.len() <= s.len() && s.subrange(0, p.len() as int) == p
}

/// The Prestige number as a Roman numeral, from 0 to V.
pub open spec fn spec_roman(n: int) -> Seq<char> {
    if n <= 0 { "0"@ } else if n == 1 { "I"@ } else if n == 2 { "II"@ } else if n == 3 { "III"@ } else if n == 4 { "IV"@ } else { "V"@ }
}

/// Prestige I..V ("0" below, "V" above).
pub fn roman(n: i64) -> (r: &'static str)
    ensures
        r@ == spec_roman(n as int),
{
    if n <= 0 {
        "0"
    } else if n == 1 {
        "I"
    } else if n == 2 {
        "II"
    } else if n == 3 {
        "III"
    } else if n == 4 {
        "IV"
    } else {
        "V"
    }
}

/// The icon of each upgrade.
pub open spec fn spec_upgrade_icon(k: Seq<char>) -> Seq<char> {
    if starts(k, "luck"@) {
        "shop/potion_luck"@
    } else if starts(k, "money"@) {
        "cash"@
    } else if k == "slots"@ || k == "slots_plus"@ || k == "auto_equip_unlock"@ {
        "bag"@
    } else if starts(k, "auto_"@) && k != "auto_upgrade_unlock"@ && k != "auto_trait_unlock"@ {
        "shop/potion_speed"@
    } else if k == "golden_unlock"@ || k == "golden_chance"@ || k == "golden_chance_2"@ {
        "shop/dice_gold"@
    } else if k == "diamond_unlock"@ || k == "diamond_chance"@ || k == "diamond_chance_2"@ {
        "shop/dice_sapphire"@
    } else if k == "rainbow_unlock"@ || k == "rainbow_chance"@ || k == "rainbow_chance_2"@ {
        "shop/dice_prism"@
    } else if k == "golden_roll_unlock"@ || k == "cyclic_every"@ || k == "cyclic_power"@ {
        "shop/dice_gold"@
    } else if starts(k, "diamond_roll"@) {
        "shop/dice_sapphire"@
    } else if starts(k, "rainbow_roll"@) {
        "shop/dice_prism"@
    } else if starts(k, "trait"@) || k == "auto_trait_unlock"@ {
        "trait"@
    } else if starts(k, "offline"@) {
        "clock"@
    } else {
        "tree"@
    }
}

/// The icon of each upgrade (so they're easier to tell apart).
pub fn upgrade_icon(key: &str) -> (r: &'static str)
    ensures
        r@ == spec_upgrade_icon(key@),
{
    if starts_with(key, "luck") {
        "shop/potion_luck"
    } else if starts_with(key, "money") {
        "cash"
    } else if str_eq(key, "slots") || str_eq(key, "slots_plus") || str_eq(key, "auto_equip_unlock") {
        "bag"
    } else if starts_with(key, "auto_") && !str_eq(key, "auto_upgrade_unlock") && !str_eq(key, "auto_trait_unlock") {
        "shop/potion_speed"
    } else if str_eq(key, "golden_unlock") || str_eq(key, "golden_chance") || str_eq(key, "golden_chance_2") {
        "shop/dice_gold"
    } else if str_eq(key, "diamond_unlock") || str_eq(key, "diamond_chance") || str_eq(key, "diamond_chance_2") {
        "shop/dice_sapphire"
    } else if str_eq(key, "rainbow_unlock") || str_eq(key, "rainbow_chance") || str_eq(key, "rainbow_chance_2") {
        "shop/dice_prism"
    } else if str_eq(key, "golden_roll_unlock") || str_eq(key, "cyclic_every") || str_eq(key, "cyclic_power") {
        "shop/dice_gold"
    } else if starts_with(key, "diamond_roll") {
        "shop/dice_sapphire"
    } else if starts_with(key, "rainbow_roll") {
        "shop/dice_prism"
    } else if starts_with(key, "trait") || str_eq(key, "auto_trait_unlock") {
        "trait"
    } else if starts_with(key, "offline") {
        "clock"
    } else {
        "tree"
    }
}

/// The icon of each upgrade category.
pub open spec fn spec_category_icon(k: Seq<char>) -> Seq<char> {
    if k == "luck"@ {
        "shop/potion_luck"@
    } else if k == "mutations"@ {
        "shop/dice_gold"@
    } else if k == "money"@ {
        "cash"@
    } else if k == "traits"@ {
        "trait"@
    } else if k == "bonus_rolls"@ {
        "shop/dice_prism"@
    } else if k == "auto"@ {
        "shop/potion_speed"@
    } else if k == "offline"@ {
        "clock"@
    } else {
        "tree"@
    }
}

/// The icon of each upgrade category.
pub fn category_icon(key: &str) -> (r: &'static str)
    ensures
        r@ == spec_category_icon(key@),
{
    if str_eq(key, "luck") {
        "shop/potion_luck"
    } else if str_eq(key, "mutations") {
        "shop/dice_gold"
    } else if str_eq(key, "money") {
        "cash"
    } else if str_eq(key, "traits") {
        "trait"
    } else if str_eq(key, "bonus_rolls") {
        "shop/dice_prism"
    } else if str_eq(key, "auto") {
        "shop/potion_speed"
    } else if str_eq(key, "offline") {
        "clock"
    } else {
        "tree"
    }
}

/// The icon of each leaderboard tab ("" for an unknown one).
pub open spec fn spec_lb_icon(t: Seq<char>) -> Seq<char> {
    if t == "money"@ {
        "cash"@
    } else if t == "playtime"@ {
        "clock"@
    } else if t == "rolls"@ {
        "dice"@
    } else if t == "rebirths"@ {
        "rebirth"@
    } else {
        ""@
    }
}

/// The icon of each leaderboard tab.
pub fn lb_icon(tab: &str) -> (r: &'static str)
    ensures
        r@ == spec_lb_icon(tab@),
{
    if str_eq(tab, "money") {
        "cash"
    } else if str_eq(tab, "playtime") {
        "clock"
    } else if str_eq(tab, "rolls") {
        "dice"
    } else if str_eq(tab, "rebirths") {
        "rebirth"
    } else {
        ""
    }
}

/// The upgrade that unlocks each mutation (None for "normal" and unknown ones).
pub open spec fn spec_mutation_unlock(m: Seq<char>) -> Option<Seq<char>> {
    if m == "golden"@ {
        Some("golden_unlock"@)
    } else if m == "diamond"@ {
        Some("diamond_unlock"@)
    } else if m == "rainbow"@ {
        Some("rainbow_unlock"@)
    } else {
        None
    }
}

/// The upgrade that unlocks each mutation.
pub fn mutation_unlock(m: &str) -> (r: Option<&'static str>)
    ensures
        match r {
            Some(u) => spec_mutation_unlock(m@) == Some(u@),
            None => spec_mutation_unlock(m@) is None,
        },
{
    if str_eq(m, "golden") {
        Some("golden_unlock")
    } else if str_eq(m, "diamond") {
        Some("diamond_unlock")
    } else if str_eq(m, "rainbow") {
        Some("rainbow_unlock")
    } else {
        None
    }
}

/// "On" / "Off" for a switch.
pub fn on_off(on: bool) -> (r: String)
    ensures
        r@ == if on { "On"@ } else { "Off"@ },
{
    if on { String::from_str("On") } else { String::from_str("Off") }
}

/// A milestone reward's label: the table's label for it, or its key when the table has none.
pub fn reward_label(rt: &str, label: &str) -> (r: String)
    ensures
        r@ == if label@.len() == 0 { rt@ } else { label@ },
{
    if label.unicode_len() == 0 { String::from_str(rt) } else { String::from_str(label) }
}

/// The versions in the Update Log, newest first.
pub open spec fn log_versions() -> Seq<Seq<char>> {
    seq![
        "v3.0.4"@,
        "v3.0.3"@,
        "v3.0.1"@,
        "v3.0.0"@,
        "v2.9.3"@,
        "v2.9.1"@,
        "v2.9.0"@,
        "v2.8.0"@,
        "v2.7.0"@,
        "v2.6.2"@,
        "v2.6.1"@,
        "v2.6.0"@,
        "v2.4.0"@,
        "v2.3.0"@,
        "v2.2.1"@,
        "v2.2.0"@,
        "v2.1.0"@,
        "v2.0.0"@,
        "v1.0.5"@,
    ]
}

/// The versions in the Update Log, newest first.
pub fn update_log_versions() -> (v: Vec<&'static str>)
    ensures
        v@.map_values(|s: &'static str| s@) == log_versions(),
{
    let v = vec![
        "v3.0.4",
        "v3.0.3",
        "v3.0.1",
        "v3.0.0",
        "v2.9.3",
        "v2.9.1",
        "v2.9.0",
        "v2.8.0",
        "v2.7.0",
        "v2.6.2",
        "v2.6.1",
        "v2.6.0",
        "v2.4.0",
        "v2.3.0",
        "v2.2.1",
        "v2.2.0",
        "v2.1.0",
        "v2.0.0",
        "v1.0.5",
    ];
    proof {
        assert(v@.map_values(|s: &'static str| s@) =~= log_versions());
    }
    v
}

/// The newest version in the Update Log.
pub fn latest_update() -> (r: &'static str)
    ensures
        r@ == "v3.0.4"@,
{
    let v = update_log_versions();
    proof {
        let m = v@.map_values(|s: &'static str| s@);
        assert(log_versions().len() == 19);
        assert(m.len() == v@.len());
        assert(m[0] == v@[0]@);
        assert(log_versions()[0] == "v3.0.4"@);
    }
    v[0]
}

/// The "best pet" is the rarest (the list order isn't the rarity order): where `pet` is in `order` (the rarity
/// order of the pets), -1 when it isn't there.
pub fn pet_rank(order: &Vec<usize>, pet: usize) -> (r: i64)
    requires
        order@.len() < i64::MAX,
    ensures
        -1 <= r < order@.len(),
        r == -1 <==> forall|i: int| 0 <= i < order@.len() ==> order@[i] != pet,
        r >= 0 ==> order@[r as int] == pet && forall|j: int| 0 <= j < r ==> order@[j] != pet,
{
    let mut i: usize = 0;
    while i < order.len()
        invariant
            i <= order@.len() < i64::MAX,
            forall|j: int| 0 <= j < i ==> order@[j] != pet,
        decreases order@.len() - i,
    {
        if order[i] == pet {
            return i as i64;
        }
        i = i + 1;
    }
    -1
}

/// "x3 Money, x3 Luck, +1 Equip Slot": what a Prestige gives (its multipliers as shown, and its perk).
pub fn prestige_gives(money: &str, luck: &str, perk: &str) -> (r: String)
    ensures
        r@ == "x"@ + money@ + " Money, x"@ + luck@ + " Luck, "@ + perk@,
{
    let mut r = String::from_str("x");
    r.append(money);
    r.append(" Money, x");
    r.append(luck);
    r.append(" Luck, ");
    r.append(perk);
    r
}

/// "Golden Eternity": the mutation's label (empty for normal) and the verity's name, trimmed.
pub fn sell_pet_label(mutation_label: &str, pet: &str) -> (r: String)
    ensures
        r@ == spec_trim(mutation_label@ + " "@ + pet@),
{
    let mut s = String::from_str(mutation_label);
    s.append(" ");
    s.append(pet);
    trim(s.as_str())
}

/// Where character c first appears in s.
pub open spec fn first_index_of(s: Seq<char>, c: char) -> Option<int> {
    if exists|i: int| 0 <= i < s.len() && s[i] == c {
        Some(choose|i: int| 0 <= i < s.len() && s[i] == c && forall|j: int| 0 <= j < i ==> s[j] != c)
    } else {
        None
    }
}

pub(crate) fn find_char(s: &str, c: char) -> (r: Option<usize>)
    ensures
        match r {
            Some(i) => first_index_of(s@, c) == Some(i as int) && i < s@.len() && s@[i as int] == c,
            None => first_index_of(s@, c) is None,
        },
{
    let n = s.unicode_len();
    let mut i: usize = 0;
    while i < n
        invariant
            n == s@.len(),
            i <= n,
            forall|j: int| 0 <= j < i ==> s@[j] != c,
        decreases n - i,
    {
        if s.get_char(i) == c {
            proof {
                let k = choose|k: int| 0 <= k < s@.len() && s@[k] == c && forall|j: int| 0 <= j < k ==> s@[j] != c;
                assert(k == i as int) by {
                    if k < i {
                    } else if k > i {
                        assert(s@[i as int] != c);
                    }
                }
            }
            return Some(i);
        }
        i = i + 1;
    }
    None
}

/// The label of a mutation key in the mutation table (its first entry with that key).
pub open spec fn spec_find_label(muts: Seq<(Seq<char>, Seq<char>)>, m: Seq<char>) -> Option<Seq<char>>
    decreases muts.len(),
{
    if muts.len() == 0 {
        None
    } else if muts[0].0 == m {
        Some(muts[0].1)
    } else {
        spec_find_label(muts.subrange(1, muts.len() as int), m)
    }
}

/// The pairs of a table as texts.
pub open spec fn pairs_view(m: Seq<(String, String)>) -> Seq<(Seq<char>, Seq<char>)> {
    m.map_values(|p: (String, String)| (p.0@, p.1@))
}

pub(crate) fn find_label(muts: &Vec<(String, String)>, m: &str) -> (r: Option<String>)
    ensures
        match r {
            Some(l) => spec_find_label(pairs_view(muts@), m@) == Some(l@),
            None => spec_find_label(pairs_view(muts@), m@) is None,
        },
{
    let mut i: usize = 0;
    proof {
        assert(pairs_view(muts@).subrange(0, muts@.len() as int) =~= pairs_view(muts@));
    }
    while i < muts.len()
        invariant
            i <= muts@.len(),
            spec_find_label(pairs_view(muts@), m@) == spec_find_label(pairs_view(muts@).subrange(i as int, muts@.len() as int), m@),
        decreases muts@.len() - i,
    {
        let ghost rest = pairs_view(muts@).subrange(i as int, muts@.len() as int);
        proof {
            assert(rest.subrange(1, rest.len() as int) =~= pairs_view(muts@).subrange(i + 1, muts@.len() as int));
            assert(rest[0] == pairs_view(muts@)[i as int]);
        }
        if str_eq(muts[i].0.as_str(), m) {
            return Some(muts[i].1.clone());
        }
        i = i + 1;
    }
    None
}

/// "3_golden" -> "Golden Fidelity": the key is "<pet index>_<mutation>"; with the pets' names and the mutation
/// table (key, label as shown). A key that doesn't name a known pet and mutation is shown as it is.
pub open spec fn spec_pet_key_label(key: Seq<char>, pets: Seq<Seq<char>>, muts: Seq<(Seq<char>, Seq<char>)>) -> Seq<char> {
    match first_index_of(key, '_') {
        None => key,
        Some(u) => {
            let idx_s = key.subrange(0, u);
            let m = key.subrange(u + 1, key.len() as int);
            match (spec_parse_i64(spec_trim(idx_s)), spec_find_label(muts, m)) {
                (Some(idx), Some(label)) => if 0 <= idx < pets.len() {
                    spec_trim(label + " "@ + pets[idx as int])
                } else {
                    key
                },
                _ => key,
            }
        },
    }
}

/// The trade's label of an owned pet's key and the Sell page's label of the same pet agree: for a known pet `i`
/// and a mutation `m` in the table, the key "<i>_<m>" reads as the mutation's label and the pet's name, trimmed.
pub proof fn law_key_label_matches_sell_label(i: usize, m: Seq<char>, pets: Seq<Seq<char>>, muts: Seq<(Seq<char>, Seq<char>)>)
    requires
        i < pets.len(),
        i <= i64::MAX,
        spec_find_label(muts, m) is Some,
    ensures
        spec_pet_key_label(spec_digits(i as nat) + seq!['_'] + m, pets, muts)
            == spec_trim(spec_find_label(muts, m)->0 + " "@ + pets[i as int]),
{
    let d = spec_digits(i as nat);
    let key = d + seq!['_'] + m;
    lemma_digits_read(i as nat);
    let u = d.len() as int;
    assert(key[u] == '_');
    assert(forall|j: int| 0 <= j < u ==> key[j] == d[j] && is_digit(d[j]));
    let f = choose|f: int| 0 <= f < key.len() && key[f] == '_' && forall|j: int| 0 <= j < f ==> key[j] != '_';
    assert(f == u) by {
        if f < u {
            assert(key[f] == d[f] && is_digit(d[f]));
        } else if f > u {
            assert(key[u] != '_');
        }
    }
    assert(first_index_of(key, '_') == Some(u));
    assert(key.subrange(0, u) =~= d);
    assert(key.subrange(u + 1, key.len() as int) =~= m);
    assert(!is_ws(d[0]) && is_digit(d[0]));
    assert(!is_ws(d.last()) && is_digit(d[u - 1]));
    assert(d.subrange(0, u) =~= d);
    assert(spec_trim(d) =~= d);
    assert(spec_parse_i64(d) == Some(i as i64));
}

/// The names as texts.
pub open spec fn names_view(v: Seq<String>) -> Seq<Seq<char>> {
    v.map_values(|s: String| s@)
}

/// "3_golden" -> "Golden Fidelity" (the verity's name; the mutation's label).
pub fn pet_key_label(key: &str, pets: &Vec<String>, mutations: &Vec<(String, String)>) -> (r: String)
    ensures
        r@ == spec_pet_key_label(key@, names_view(pets@), pairs_view(mutations@)),
{
    let u = match find_char(key, '_') {
        Some(u) => u,
        None => return String::from_str(key),
    };
    let n = key.unicode_len();
    let idx_s = key.substring_char(0, u);
    let m = key.substring_char(u + 1, n);
    let t = trim(idx_s);
    let idx = match parse_i64(t.as_str()) {
        Some(i) => i,
        None => return String::from_str(key),
    };
    let label = match find_label(mutations, m) {
        Some(l) => l,
        None => return String::from_str(key),
    };
    if idx < 0 || (idx as u64) >= (pets.len() as u64) {
        return String::from_str(key);
    }
    let k = idx as usize;
    let mut s = label;
    s.append(" ");
    s.append(pets[k].as_str());
    trim(s.as_str())
}


/// "m:ss" for a number of seconds (negative counts as 0).
pub open spec fn spec_fmt_clock(seconds: int) -> Seq<char> {
    let s = if seconds < 0 { 0 } else { seconds };
    let sec = s % 60;
    spec_int_text(s / 60) + ":"@ + if sec < 10 { seq!['0'] + spec_digits(sec as nat) } else { spec_digits(sec as nat) }
}

/// "m:ss": the shop's and the leaderboard's countdowns (whole seconds; negative counts as 0).
pub fn fmt_clock(seconds: i64) -> (r: String)
    ensures
        r@ == spec_fmt_clock(seconds as int),
{
    let s = if seconds < 0 { 0 } else { seconds };
    let mut r = int_text(s / 60);
    r.append(":");
    let sec = s % 60;
    if sec < 10 {
        push_char(&mut r, '0');
    }
    let t = int_text(sec);
    r.append(t.as_str());
    proof {
        reveal_strlit(":");
        assert(r@ =~= spec_fmt_clock(seconds as int));
    }
    r
}

/// One traded item as shown: "Golden Fidelity x3".
pub open spec fn spec_item_text(item: (Seq<char>, i64), pets: Seq<Seq<char>>, muts: Seq<(Seq<char>, Seq<char>)>) -> Seq<char> {
    spec_pet_key_label(item.0, pets, muts) + " x"@ + spec_int_text(item.1 as int)
}

/// The items joined with ", ".
pub open spec fn spec_join_items(items: Seq<(Seq<char>, i64)>, pets: Seq<Seq<char>>, muts: Seq<(Seq<char>, Seq<char>)>) -> Seq<char>
    decreases items.len(),
{
    if items.len() == 0 {
        Seq::empty()
    } else if items.len() == 1 {
        spec_item_text(items[0], pets, muts)
    } else {
        spec_join_items(items.drop_last(), pets, muts) + ", "@ + spec_item_text(items.last(), pets, muts)
    }
}

/// The items of a trade as texts.
pub open spec fn items_view(v: Seq<(String, i64)>) -> Seq<(Seq<char>, i64)> {
    v.map_values(|p: (String, i64)| (p.0@, p.1))
}

/// A trade's side as text: "Golden Fidelity x3, Rare Hope x1", or "-" when it's empty.
pub fn fmt_items(items: &Vec<(String, i64)>, pets: &Vec<String>, mutations: &Vec<(String, String)>) -> (r: String)
    ensures
        r@ == if items@.len() == 0 { "-"@ } else { spec_join_items(items_view(items@), names_view(pets@), pairs_view(mutations@)) },
{
    if items.len() == 0 {
        return String::from_str("-");
    }
    let ghost iv = items_view(items@);
    let ghost pv = names_view(pets@);
    let ghost mv = pairs_view(mutations@);
    let mut r = String::new();
    let mut i: usize = 0;
    while i < items.len()
        invariant
            iv == items_view(items@),
            pv == names_view(pets@),
            mv == pairs_view(mutations@),
            i <= items@.len(),
            r@ == spec_join_items(iv.subrange(0, i as int), pv, mv),
        decreases items@.len() - i,
    {
        let ghost before = r@;
        if i > 0 {
            r.append(", ");
        }
        let label = pet_key_label(items[i].0.as_str(), pets, mutations);
        r.append(label.as_str());
        r.append(" x");
        let q = int_text(items[i].1);
        r.append(q.as_str());
        proof {
            let sub = iv.subrange(0, i + 1);
            assert(sub.drop_last() =~= iv.subrange(0, i as int));
            assert(sub.last() == iv[i as int]);
            assert(iv[i as int] == (items@[i as int].0@, items@[i as int].1));
            if i == 0 {
                assert(r@ =~= spec_item_text(iv[0], pv, mv));
            } else {
                assert(r@ =~= before + ", "@ + spec_item_text(iv[i as int], pv, mv));
            }
        }
        i = i + 1;
    }
    proof {
        assert(iv.subrange(0, items@.len() as int) =~= iv);
    }
    r
}

/// The labels of pet keys joined with ", ".
pub open spec fn spec_join_labels(keys: Seq<Seq<char>>, pets: Seq<Seq<char>>, muts: Seq<(Seq<char>, Seq<char>)>) -> Seq<char>
    decreases keys.len(),
{
    if keys.len() == 0 {
        Seq::empty()
    } else if keys.len() == 1 {
        spec_pet_key_label(keys[0], pets, muts)
    } else {
        spec_join_labels(keys.drop_last(), pets, muts) + ", "@ + spec_pet_key_label(keys.last(), pets, muts)
    }
}

/// The pets a trade brought, as the toast names them: their labels joined with ", ", cut to 80 characters.
pub fn received_names(keys: &Vec<String>, pets: &Vec<String>, mutations: &Vec<(String, String)>) -> (r: String)
    ensures
        ({
            let all = spec_join_labels(names_view(keys@), names_view(pets@), pairs_view(mutations@));
            r@ == if all.len() <= 80 { all } else { all.subrange(0, 80) }
        }),
{
    let ghost kv = names_view(keys@);
    let ghost pv = names_view(pets@);
    let ghost mv = pairs_view(mutations@);
    let mut r = String::new();
    let mut i: usize = 0;
    while i < keys.len()
        invariant
            kv == names_view(keys@),
            pv == names_view(pets@),
            mv == pairs_view(mutations@),
            i <= keys@.len(),
            r@ == spec_join_labels(kv.subrange(0, i as int), pv, mv),
        decreases keys@.len() - i,
    {
        let ghost before = r@;
        if i > 0 {
            r.append(", ");
        }
        let label = pet_key_label(keys[i].as_str(), pets, mutations);
        r.append(label.as_str());
        proof {
            let sub = kv.subrange(0, i + 1);
            assert(sub.drop_last() =~= kv.subrange(0, i as int));
            assert(sub.last() == keys@[i as int]@);
            if i == 0 {
                assert(r@ =~= spec_pet_key_label(kv[0], pv, mv));
            } else {
                assert(r@ =~= before + ", "@ + spec_pet_key_label(kv[i as int], pv, mv));
            }
        }
        i = i + 1;
    }
    proof {
        assert(kv.subrange(0, keys@.len() as int) =~= kv);
    }
    let n = r.unicode_len();
    if n <= 80 {
        r
    } else {
        String::from_str(r.as_str().substring_char(0, 80))
    }
}

/// A wild pet's stars: "*" n times.
pub fn stars(n: u8) -> (r: String)
    ensures
        r@ == Seq::new(n as nat, |_i: int| '*'),
{
    let mut r = String::new();
    let mut i: u8 = 0;
    while i < n
        invariant
            i <= n,
            r@ == Seq::new(i as nat, |_i: int| '*'),
        decreases n - i,
    {
        push_char(&mut r, '*');
        i = i + 1;
        proof {
            assert(r@ =~= Seq::new(i as nat, |_i: int| '*'));
        }
    }
    r
}

} // verus!
