//! Day-to-day game decisions: the best pet of a batch of rolls, the Auto Trait Roller's new trait, the trait toast,
//! the verities that rain behind the roll screen, how many pets the Sell page sells, Explore's wild pets, keys
//! and travel, and the Upgrades panel's category lines.
use vstd::prelude::*;
use crate::labels::{pet_rank, first_index_of, items_view};
use crate::num::{parse_i64, spec_parse_i64, parse_usize, spec_parse_usize};
use crate::text::{trim, spec_trim};
use crate::ui::Key;

verus! {

/// The rank of a rolled pet, -1 for none.
#[verifier::opaque]
pub open spec fn rank_of(order: Seq<usize>, r: int) -> int {
    if r < 0 {
        -1
    } else if exists|i: int| 0 <= i < order.len() && order[i] == r {
        choose|i: int| 0 <= i < order.len() && order[i] == r && forall|j: int| 0 <= j < i ==> order[j] != r
    } else {
        -1
    }
}

/// The best pet of a batch of rolls: the first one of the highest rank in `order` (pets not in it never count);
/// -1 when none counts.
pub open spec fn spec_best_roll(order: Seq<usize>, rolls: Seq<usize>) -> int
    decreases rolls.len(),
{
    if rolls.len() == 0 {
        -1
    } else {
        let b = spec_best_roll(order, rolls.drop_last());
        if rank_of(order, rolls.last() as int) > rank_of(order, b) { rolls.last() as int } else { b }
    }
}

proof fn lemma_rank_none(order: Seq<usize>)
    ensures
        rank_of(order, -1) == -1,
{
    reveal(rank_of);
}

proof fn lemma_rank_of(order: Seq<usize>, r: usize, rk: int)
    requires
        -1 <= rk < order.len(),
        rk == -1 <==> forall|i: int| 0 <= i < order.len() ==> order[i] != r,
        rk >= 0 ==> order[rk] == r && forall|j: int| 0 <= j < rk ==> order[j] != r,
    ensures
        rk == rank_of(order, r as int),
{
    reveal(rank_of);
    if rk >= 0 {
        let c = choose|c: int| 0 <= c < order.len() && order[c] == r && forall|j: int| 0 <= j < c ==> order[j] != r;
        assert(c == rk) by {
            if c < rk {
            } else if c > rk {
                assert(order[rk] == r);
            }
        }
    } else {
        assert(!(exists|k: int| 0 <= k < order.len() && order[k] == r));
    }
}

/// The best pet of a frame's automatic rolls: it's the one the cutscene and the sound are for.
pub fn best_roll(order: &Vec<usize>, rolls: &Vec<usize>) -> (r: i64)
    requires
        order@.len() < i64::MAX,
        forall|i: int| 0 <= i < rolls@.len() ==> rolls@[i] < i64::MAX,
    ensures
        r == spec_best_roll(order@, rolls@),
{
    let mut best: i64 = -1;
    let mut best_rank: i64 = -1;
    proof {
        lemma_rank_none(order@);
    }
    let mut i: usize = 0;
    while i < rolls.len()
        invariant
            order@.len() < i64::MAX,
            forall|k: int| 0 <= k < rolls@.len() ==> rolls@[k] < i64::MAX,
            i <= rolls@.len(),
            best == spec_best_roll(order@, rolls@.subrange(0, i as int)),
            best_rank == rank_of(order@, best as int),
        decreases rolls@.len() - i,
    {
        proof {
            assert(rolls@.subrange(0, i + 1).drop_last() =~= rolls@.subrange(0, i as int));
        }
        let r = rolls[i];
        let rk = pet_rank(order, r);
        proof {
            lemma_rank_of(order@, r, rk as int);
        }
        if rk > best_rank {
            best = r as i64;
            best_rank = rk;
        }
        i = i + 1;
    }
    proof {
        assert(rolls@.subrange(0, rolls@.len() as int) =~= rolls@);
    }
    best
}

/// The best roll is never beaten by another roll of the batch.
pub proof fn law_best_roll_is_best(order: Seq<usize>, rolls: Seq<usize>, k: int)
    requires
        0 <= k < rolls.len(),
    ensures
        rank_of(order, rolls[k] as int) <= rank_of(order, spec_best_roll(order, rolls)),
    decreases rolls.len(),
{
    if k < rolls.len() - 1 {
        law_best_roll_is_best(order, rolls.drop_last(), k);
        assert(rolls.drop_last()[k] == rolls[k]);
    }
}

/// A trait owned now and not before.
pub open spec fn is_new_trait(before: Seq<usize>, after: Seq<usize>, t: usize) -> bool {
    after.contains(t) && !before.contains(t)
}

/// The traits owned now and not before; the best of them (traits go from worst to best), and whether it is
/// equipped by itself: when nothing is equipped or it's better than the equipped one.
pub open spec fn spec_new_best_trait(before: Seq<usize>, after: Seq<usize>, equipped: Option<usize>) -> Option<(usize, bool)> {
    if exists|t: usize| #[trigger] is_new_trait(before, after, t) {
        let best = choose|t: usize| is_new_trait(before, after, t) && forall|u: usize| #[trigger] is_new_trait(before, after, u) ==> u <= t;
        Some((best, match equipped {
            None => true,
            Some(e) => best > e,
        }))
    } else {
        None
    }
}

/// The Auto Trait Roller's message: the best trait it found that you didn't have, and whether it equips it.
pub fn new_best_trait(before: &Vec<usize>, after: &Vec<usize>, equipped: Option<usize>) -> (r: Option<(usize, bool)>)
    ensures
        r == spec_new_best_trait(before@, after@, equipped),
{
    let mut best: Option<usize> = None;
    let mut i: usize = 0;
    while i < after.len()
        invariant
            i <= after@.len(),
            match best {
                None => forall|j: int| 0 <= j < i ==> before@.contains(#[trigger] after@[j]),
                Some(b) => is_new_trait(before@, after@, b) && forall|j: int| 0 <= j < i && !before@.contains(#[trigger] after@[j]) ==> after@[j] <= b,
            },
        decreases after@.len() - i,
    {
        let t = after[i];
        let mut seen = false;
        let mut j: usize = 0;
        while j < before.len()
            invariant
                j <= before@.len(),
                seen == exists|k: int| 0 <= k < j && before@[k] == t,
            decreases before@.len() - j,
        {
            if before[j] == t {
                seen = true;
            }
            j = j + 1;
        }
        proof {
            assert(after@[i as int] == t);
            if seen {
                let k = choose|k: int| 0 <= k < j && before@[k] == t;
                assert(before@.contains(t));
            } else {
                assert(!before@.contains(t));
            }
        }
        if !seen {
            best = match best {
                None => Some(t),
                Some(b) => Some(if t > b { t } else { b }),
            };
        }
        i = i + 1;
    }
    proof {
        match best {
            None => {
                assert forall|t: usize| !is_new_trait(before@, after@, t) by {
                    if after@.contains(t) {
                        let k = choose|k: int| 0 <= k < after@.len() && after@[k] == t;
                        assert(before@.contains(after@[k]));
                    }
                }
            },
            Some(b) => {
                assert forall|u: usize| #[trigger] is_new_trait(before@, after@, u) implies u <= b by {
                    let k = choose|k: int| 0 <= k < after@.len() && after@[k] == u;
                    assert(!before@.contains(after@[k]));
                }
                let c = choose|t: usize| is_new_trait(before@, after@, t) && forall|u: usize| #[trigger] is_new_trait(before@, after@, u) ==> u <= t;
                assert(c == b);
            },
        }
    }
    match best {
        None => None,
        Some(b) => Some((b, match equipped {
            None => true,
            Some(e) => b > e,
        })),
    }
}

/// The "You gained a Trait Roll!" toast's count after `n` more charges: it adds up while that toast still shows
/// (`showing`), else starts again at n. None when nothing is shown (no charge, or the notifications are off).
pub fn trait_toast_count(showing: bool, count: i64, n: i64, notifications: bool) -> (r: Option<i64>)
    requires
        showing && n > 0 ==> i64::MIN <= count + n <= i64::MAX,
    ensures
        r == if n <= 0 || !notifications { None } else if showing { Some((count + n) as i64) } else { Some(n) },
{
    if n <= 0 || !notifications {
        None
    } else if showing {
        Some(count + n)
    } else {
        Some(n)
    }
}

/// The pet of an owned-pet key ("3_golden" -> 3): the number before its first '_'.
pub open spec fn key_pet(key: Seq<char>) -> Option<usize> {
    match first_index_of(key, '_') {
        Some(u) => spec_parse_usize(key.subrange(0, u)),
        None => None,
    }
}

/// The verities that rain behind the roll screen: the equipped ones (each once); with none equipped, up to 20 of
/// the pets you own (each once, from the owned keys with a count above 0, in their order).
pub open spec fn spec_rain_owned(owned: Seq<(Seq<char>, i64)>, n_pets: int) -> Seq<usize>
    decreases owned.len(),
{
    if owned.len() == 0 {
        Seq::empty()
    } else {
        let before = spec_rain_owned(owned.drop_last(), n_pets);
        let e = owned.last();
        if before.len() >= 20 || e.1 <= 0 {
            before
        } else {
            match key_pet(e.0) {
                Some(i) => if i < n_pets && !before.contains(i) { before.push(i) } else { before },
                None => before,
            }
        }
    }
}

/// Each pet once, in the order first met.
pub open spec fn spec_dedup(v: Seq<usize>) -> Seq<usize>
    decreases v.len(),
{
    if v.len() == 0 {
        Seq::empty()
    } else {
        let before = spec_dedup(v.drop_last());
        if before.contains(v.last()) { before } else { before.push(v.last()) }
    }
}

fn contains_usize(v: &Vec<usize>, x: usize) -> (b: bool)
    ensures
        b == v@.contains(x),
{
    let mut i: usize = 0;
    while i < v.len()
        invariant
            i <= v@.len(),
            forall|j: int| 0 <= j < i ==> v@[j] != x,
        decreases v@.len() - i,
    {
        if v[i] == x {
            proof {
                assert(v@[i as int] == x);
            }
            return true;
        }
        i = i + 1;
    }
    false
}

proof fn lemma_rain_owned_len(owned: Seq<(Seq<char>, i64)>, n_pets: int)
    ensures
        spec_rain_owned(owned, n_pets).len() <= 20,
    decreases owned.len(),
{
    if owned.len() > 0 {
        lemma_rain_owned_len(owned.drop_last(), n_pets);
    }
}

fn key_pet_of(key: &str) -> (r: Option<usize>)
    ensures
        r == key_pet(key@),
{
    let n = key.unicode_len();
    let mut u: usize = 0;
    while u < n
        invariant
            n == key@.len(),
            u <= n,
            forall|j: int| 0 <= j < u ==> key@[j] != '_',
        decreases n - u,
    {
        if key.get_char(u) == '_' {
            proof {
                let c = choose|c: int| 0 <= c < key@.len() && key@[c] == '_' && forall|j: int| 0 <= j < c ==> key@[j] != '_';
                assert(key@[u as int] == '_');
                if c < u {
                } else if c > u {
                    assert(key@[u as int] != '_');
                }
            }
            return parse_usize(key.substring_char(0, u));
        }
        u = u + 1;
    }
    None
}

/// The verities that rain behind the roll screen: the pets of the equipped verities, or, with none
/// equipped, up to 20 you own.
pub fn rain_pets(equipped: &Vec<usize>, owned: &Vec<(String, i64)>, n_pets: usize) -> (r: Vec<usize>)
    ensures
        r@ == if spec_dedup(equipped@).len() > 0 { spec_dedup(equipped@) } else { spec_rain_owned(items_view(owned@), n_pets as int) },
{
    let mut pets: Vec<usize> = Vec::new();
    let mut i: usize = 0;
    while i < equipped.len()
        invariant
            i <= equipped@.len(),
            pets@ == spec_dedup(equipped@.subrange(0, i as int)),
        decreases equipped@.len() - i,
    {
        proof {
            assert(equipped@.subrange(0, i + 1).drop_last() =~= equipped@.subrange(0, i as int));
        }
        let p = equipped[i];
        if !contains_usize(&pets, p) {
            pets.push(p);
        }
        i = i + 1;
    }
    proof {
        assert(equipped@.subrange(0, equipped@.len() as int) =~= equipped@);
    }
    if pets.len() > 0 {
        return pets;
    }
    let ghost ov = items_view(owned@);
    let mut k: usize = 0;
    while k < owned.len()
        invariant
            ov == items_view(owned@),
            spec_dedup(equipped@).len() == 0,
            k <= owned@.len(),
            pets@ == spec_rain_owned(ov.subrange(0, k as int), n_pets as int),
        decreases owned@.len() - k,
    {
        let ghost sub = ov.subrange(0, k + 1);
        proof {
            assert(sub.drop_last() =~= ov.subrange(0, k as int));
            assert(sub.last() == (owned@[k as int].0@, owned@[k as int].1));
            lemma_rain_owned_len(ov.subrange(0, k as int), n_pets as int);
        }
        if pets.len() >= 20 {
            proof {
                lemma_rain_stops(ov, n_pets as int, k as int, owned@.len() as int);
                assert(ov.subrange(0, owned@.len() as int) =~= ov);
            }
            return pets;
        }
        if owned[k].1 > 0 {
            match key_pet_of(owned[k].0.as_str()) {
                Some(p) => {
                    if p < n_pets && !contains_usize(&pets, p) {
                        pets.push(p);
                    }
                },
                None => {},
            }
        }
        k = k + 1;
    }
    proof {
        assert(ov.subrange(0, owned@.len() as int) =~= ov);
    }
    pets
}

/// Once 20 pets rain, later owned pets add nothing.
proof fn lemma_rain_stops(ov: Seq<(Seq<char>, i64)>, n_pets: int, k: int, m: int)
    requires
        0 <= k < m <= ov.len(),
        spec_rain_owned(ov.subrange(0, k), n_pets).len() >= 20,
    ensures
        spec_rain_owned(ov.subrange(0, m), n_pets) == spec_rain_owned(ov.subrange(0, k), n_pets),
    decreases m - k,
{
    assert(ov.subrange(0, m).drop_last() =~= ov.subrange(0, m - 1));
    if m - 1 > k {
        lemma_rain_stops(ov, n_pets, k, m - 1);
    }
}

/// No pet twice in a sequence.
pub open spec fn no_repeats(v: Seq<usize>) -> bool {
    forall|i: int, j: int| 0 <= i < j < v.len() ==> v[i] != v[j]
}

proof fn lemma_push_new(v: Seq<usize>, x: usize)
    requires
        no_repeats(v),
        !v.contains(x),
    ensures
        no_repeats(v.push(x)),
{
    assert forall|i: int, j: int| 0 <= i < j < v.push(x).len() implies v.push(x)[i] != v.push(x)[j] by {
        if j == v.len() {
            assert(v[i] == v.push(x)[i]);
        }
    }
}

proof fn lemma_dedup_no_repeats(v: Seq<usize>)
    ensures
        no_repeats(spec_dedup(v)),
        forall|i: int| 0 <= i < spec_dedup(v).len() ==> v.contains(#[trigger] spec_dedup(v)[i]),
    decreases v.len(),
{
    if v.len() > 0 {
        lemma_dedup_no_repeats(v.drop_last());
        let b = spec_dedup(v.drop_last());
        if !b.contains(v.last()) {
            lemma_push_new(b, v.last());
        }
        assert forall|i: int| 0 <= i < spec_dedup(v).len() implies v.contains(#[trigger] spec_dedup(v)[i]) by {
            if i < b.len() {
                let x = b[i];
                assert(v.drop_last().contains(x));
                let k = choose|k: int| 0 <= k < v.drop_last().len() && v.drop_last()[k] == x;
                assert(v[k] == x);
            } else {
                assert(v[v.len() - 1] == v.last());
            }
        }
    }
}

proof fn lemma_rain_owned_shape(owned: Seq<(Seq<char>, i64)>, n_pets: int)
    ensures
        no_repeats(spec_rain_owned(owned, n_pets)),
        forall|i: int| 0 <= i < spec_rain_owned(owned, n_pets).len() ==> #[trigger] spec_rain_owned(owned, n_pets)[i] < n_pets,
    decreases owned.len(),
{
    if owned.len() > 0 {
        lemma_rain_owned_shape(owned.drop_last(), n_pets);
        let b = spec_rain_owned(owned.drop_last(), n_pets);
        match key_pet(owned.last().0) {
            Some(i) => if i < n_pets && !b.contains(i) {
                lemma_push_new(b, i);
            },
            None => {},
        }
    }
}

/// The verities raining behind the rolls are each shown once: the equipped ones (each one of them), or, with none
/// equipped, at most 20 pets you own, each a known pet.
pub proof fn law_rain_shows_each_once(equipped: Seq<usize>, owned: Seq<(Seq<char>, i64)>, n_pets: int)
    ensures
        no_repeats(spec_dedup(equipped)),
        forall|i: int| 0 <= i < spec_dedup(equipped).len() ==> equipped.contains(#[trigger] spec_dedup(equipped)[i]),
        no_repeats(spec_rain_owned(owned, n_pets)),
        spec_rain_owned(owned, n_pets).len() <= 20,
        forall|i: int| 0 <= i < spec_rain_owned(owned, n_pets).len() ==> #[trigger] spec_rain_owned(owned, n_pets)[i] < n_pets,
{
    lemma_dedup_no_repeats(equipped);
    lemma_rain_owned_shape(owned, n_pets);
    lemma_rain_owned_len(owned, n_pets);
}

/// How many pets the Sell page sells now: all you have with "Sell All"; otherwise the typed number (trimmed),
/// never more than you have (a number too big to read counts as "all"), 0 with nothing typed.
pub open spec fn spec_sell_amount(owned: i64, all: bool, text: Seq<char>) -> i64 {
    if all {
        owned
    } else if spec_trim(text).len() == 0 {
        0
    } else {
        let n = match spec_parse_i64(spec_trim(text)) {
            Some(v) => v,
            None => i64::MAX,
        };
        if owned < n { owned } else { n }
    }
}

/// The Sell page never sells more than you have, and never a negative count unless a negative number was typed
/// (then nothing is sold: a sale needs an amount above 0).
pub proof fn law_sell_never_more_than_owned(owned: i64, all: bool, text: Seq<char>)
    requires
        0 <= owned,
    ensures
        spec_sell_amount(owned, all, text) <= owned,
        (all || !(spec_parse_i64(spec_trim(text)) matches Some(v) && v < 0)) ==> 0 <= spec_sell_amount(owned, all, text),
{
}

/// How many pets will be sold now.
pub fn sell_amount(owned: i64, all: bool, text: &str) -> (r: i64)
    ensures
        r == spec_sell_amount(owned, all, text@),
{
    if all {
        return owned;
    }
    let t = trim(text);
    if t.as_str().unicode_len() == 0 {
        return 0;
    }
    let n = match parse_i64(t.as_str()) {
        Some(v) => v,
        None => i64::MAX,
    };
    if owned < n { owned } else { n }
}

// ---------------------------------------------------------------- Explore

/// The wild pet Steve was going after, once wild pet `removed` left the list: the same pet at its new place, or
/// None if it was that one.
pub open spec fn spec_retarget(target: Option<usize>, removed: usize) -> Option<usize> {
    match target {
        None => None,
        Some(t) => if t == removed { None } else if t > removed { Some((t - 1) as usize) } else { Some(t) },
    }
}

/// Where the wild pet Steve goes after is now, once a caught one left the list.
pub fn retarget_after_remove(target: Option<usize>, removed: usize) -> (r: Option<usize>)
    ensures
        r == spec_retarget(target, removed),
{
    match target {
        None => None,
        Some(t) => if t == removed { None } else if t > removed { Some(t - 1) } else { Some(t) },
    }
}

/// After a wild pet leaves the list, the target still points at the same pet.
pub proof fn law_retarget_keeps_pet<T>(wild: Seq<T>, t: usize, removed: usize)
    requires
        t < wild.len(),
        removed < wild.len(),
        t != removed,
    ensures
        spec_retarget(Some(t), removed) matches Some(n) && n < wild.remove(removed as int).len() && wild.remove(removed as int)[n as int] == wild[t as int],
{
}

/// Explore's pop-ups.
#[derive(Clone, Copy, PartialEq, Eq, Debug, Structural)]
pub enum ExploreOverlay {
    Closed,
    Wardrobe,
    Pets,
}

/// What a key does in Explore.
#[derive(Clone, Copy, PartialEq, Eq, Debug, Structural)]
pub enum ExploreKey {
    /// Explore isn't open: the key goes elsewhere
    NotUsed,
    /// taken (maybe changing the pop-up)
    Used,
    /// the Pet Index page is on top: Escape closes it
    CloseIndex,
    /// Escape with no pop-up: leave Explore
    Close,
    /// E / Space / Enter: catch the nearest pet
    CatchNearest,
}

/// Keys in Explore: Escape closes the pop-up or leaves; E, Space, Enter catch; P and C open / close the Pets and
/// the Wardrobe. With the Pet Index on top only Escape does something (it closes it), and every key is taken.
pub open spec fn spec_explore_key(open: bool, index_open: bool, overlay: ExploreOverlay, key: Key) -> (ExploreKey, ExploreOverlay) {
    if !open {
        (ExploreKey::NotUsed, overlay)
    } else if index_open {
        (if key == Key::Escape { ExploreKey::CloseIndex } else { ExploreKey::Used }, overlay)
    } else {
        match key {
            Key::Escape => if overlay != ExploreOverlay::Closed { (ExploreKey::Used, ExploreOverlay::Closed) } else { (ExploreKey::Close, overlay) },
            Key::E | Key::Space | Key::Return => if overlay == ExploreOverlay::Closed { (ExploreKey::CatchNearest, overlay) } else { (ExploreKey::Used, overlay) },
            Key::P => (ExploreKey::Used, if overlay == ExploreOverlay::Pets { ExploreOverlay::Closed } else { ExploreOverlay::Pets }),
            Key::C => (ExploreKey::Used, if overlay == ExploreOverlay::Wardrobe { ExploreOverlay::Closed } else { ExploreOverlay::Wardrobe }),
            _ => (ExploreKey::Used, overlay),
        }
    }
}

/// What a key does in Explore, and the pop-up after it.
pub fn explore_key(open: bool, index_open: bool, overlay: ExploreOverlay, key: Key) -> (r: (ExploreKey, ExploreOverlay))
    ensures
        r == spec_explore_key(open, index_open, overlay, key),
{
    if !open {
        return (ExploreKey::NotUsed, overlay);
    }
    if index_open {
        return (if key == Key::Escape { ExploreKey::CloseIndex } else { ExploreKey::Used }, overlay);
    }
    match key {
        Key::Escape => if overlay != ExploreOverlay::Closed { (ExploreKey::Used, ExploreOverlay::Closed) } else { (ExploreKey::Close, overlay) },
        Key::E | Key::Space | Key::Return => if overlay == ExploreOverlay::Closed { (ExploreKey::CatchNearest, overlay) } else { (ExploreKey::Used, overlay) },
        Key::P => (ExploreKey::Used, if overlay == ExploreOverlay::Pets { ExploreOverlay::Closed } else { ExploreOverlay::Pets }),
        Key::C => (ExploreKey::Used, if overlay == ExploreOverlay::Wardrobe { ExploreOverlay::Closed } else { ExploreOverlay::Wardrobe }),
        _ => (ExploreKey::Used, overlay),
    }
}

/// Travelling to another world.
#[derive(Clone, Copy, PartialEq, Eq, Debug, Structural)]
pub enum Travel {
    /// already there, or already travelling
    Ignore,
    /// that world opens at a higher level (a toast says so)
    Locked,
    /// the portal opens
    Start,
}

/// A portal button: nothing when it's the world you're in or you're already travelling; a locked world only says
/// at which level it opens.
pub fn travel_decision(to: usize, here: usize, travelling: bool, unlocked: bool) -> (r: Travel)
    ensures
        r == if to == here || travelling { Travel::Ignore } else if !unlocked { Travel::Locked } else { Travel::Start },
{
    if to == here || travelling {
        Travel::Ignore
    } else if !unlocked {
        Travel::Locked
    } else {
        Travel::Start
    }
}

/// What trying to catch a wild pet does.
#[derive(Clone, Copy, PartialEq, Eq, Debug, Structural)]
pub enum Catch {
    /// your Verity Pets are full: a toast says so
    Full,
    /// no such pet, or it's already being caught
    Nothing,
    /// nothing to fight with yet: it's caught outright (it flies into Steve)
    CatchNow,
    /// it fights back: a battle starts
    Battle,
}

/// E, the Catch! button, or a click on a pet in reach: `have` Verity Pets out of `max`; `there`
/// = the wild pet exists, `caught` = it's already being caught; `can_fight` = you have Verities to send out.
pub fn catch_decision(have: usize, max: usize, there: bool, caught: bool, can_fight: bool) -> (r: Catch)
    ensures
        r == if have >= max {
            Catch::Full
        } else if !there || caught {
            Catch::Nothing
        } else if !can_fight {
            Catch::CatchNow
        } else {
            Catch::Battle
        },
{
    if have >= max {
        Catch::Full
    } else if !there || caught {
        Catch::Nothing
    } else if !can_fight {
        Catch::CatchNow
    } else {
        Catch::Battle
    }
}

/// What a level-up in Explore announces.
#[derive(Clone, Copy, PartialEq, Eq, Debug, Structural)]
pub enum LevelNews {
    /// the world at this index opens at this level
    WorldOpens(usize),
    /// new clothes in the Wardrobe
    NewClothes,
    Plain,
}

/// The first world that opens at `level` (by the level each world opens at), None when none does.
pub open spec fn world_opening(world_levels: Seq<i64>, level: i64) -> Option<int> {
    if exists|i: int| 0 <= i < world_levels.len() && world_levels[i] == level {
        Some(choose|i: int| 0 <= i < world_levels.len() && world_levels[i] == level && forall|j: int| 0 <= j < i ==> world_levels[j] != level)
    } else {
        None
    }
}

/// A level-up's toast in Explore: a world that opens at this level first, else new clothes if some shirt,
/// pants or hat comes with it, else just the level.
pub fn level_up_news(level: i64, world_levels: &Vec<i64>, clothes_levels: &Vec<i64>) -> (r: LevelNews)
    ensures
        r == match world_opening(world_levels@, level) {
            Some(i) => LevelNews::WorldOpens(i as usize),
            None => if clothes_levels@.contains(level) { LevelNews::NewClothes } else { LevelNews::Plain },
        },
{
    let mut i: usize = 0;
    while i < world_levels.len()
        invariant
            i <= world_levels@.len(),
            forall|j: int| 0 <= j < i ==> world_levels@[j] != level,
        decreases world_levels@.len() - i,
    {
        if world_levels[i] == level {
            proof {
                let c = choose|c: int| 0 <= c < world_levels@.len() && world_levels@[c] == level && forall|j: int| 0 <= j < c ==> world_levels@[j] != level;
                assert(world_levels@[i as int] == level);
                if c < i {
                } else if c > i {
                    assert(world_levels@[i as int] != level);
                }
            }
            return LevelNews::WorldOpens(i);
        }
        i = i + 1;
    }
    let mut k: usize = 0;
    while k < clothes_levels.len()
        invariant
            k <= clothes_levels@.len(),
            forall|j: int| 0 <= j < k ==> clothes_levels@[j] != level,
            forall|j: int| 0 <= j < world_levels@.len() ==> world_levels@[j] != level,
        decreases clothes_levels@.len() - k,
    {
        if clothes_levels[k] == level {
            proof {
                assert(clothes_levels@[k as int] == level);
            }
            return LevelNews::NewClothes;
        }
        k = k + 1;
    }
    LevelNews::Plain
}

/// Steve's outfit in Explore (indices into the Wardrobe's shirts, pants and hats).
#[derive(Clone, Copy, PartialEq, Eq, Debug, Structural)]
pub struct SteveLook {
    pub shirt: usize,
    pub pants: usize,
    pub hat: usize,
}

/// The logged-in account.
#[derive(Clone, Debug)]
pub struct Account {
    pub uid: String,
    pub username: String,
    pub email: Option<String>,
    pub email_verified: bool,
}

// ---------------------------------------------------------------- the Upgrades panel

/// Levels bought, over a category's upgrades (each: level, max level, affordable now).
pub open spec fn levels_bought(u: Seq<(i64, i64, bool)>) -> int
    decreases u.len(),
{
    if u.len() == 0 { 0 } else { levels_bought(u.drop_last()) + u.last().0 }
}

/// Levels there are, over a category's upgrades.
pub open spec fn levels_there(u: Seq<(i64, i64, bool)>) -> int
    decreases u.len(),
{
    if u.len() == 0 { 0 } else { levels_there(u.drop_last()) + u.last().1 }
}

/// How many of a category's upgrades you can buy now.
pub open spec fn ready_count(u: Seq<(i64, i64, bool)>) -> int
    decreases u.len(),
{
    if u.len() == 0 { 0 } else { ready_count(u.drop_last()) + if u.last().2 { 1int } else { 0int } }
}

/// Every running total of the category fits in an i64.
pub open spec fn stats_fit(u: Seq<(i64, i64, bool)>) -> bool {
    forall|k: int| 0 <= k <= u.len() ==> i64::MIN <= #[trigger] levels_bought(u.subrange(0, k)) <= i64::MAX
        && i64::MIN <= levels_there(u.subrange(0, k)) <= i64::MAX
}

/// A category's line in the Upgrades panel, "(levels bought / levels there are)" and the number of upgrades you can
/// buy now, from each upgrade's (level, max level, affordable).
pub fn category_stats(upgrades: &Vec<(i64, i64, bool)>) -> (r: (i64, i64, i64))
    requires
        stats_fit(upgrades@),
        upgrades@.len() <= i64::MAX,
    ensures
        r.0 == levels_bought(upgrades@),
        r.1 == levels_there(upgrades@),
        r.2 == ready_count(upgrades@),
{
    let ghost u = upgrades@;
    let mut lvls: i64 = 0;
    let mut mx: i64 = 0;
    let mut ready: i64 = 0;
    let mut i: usize = 0;
    while i < upgrades.len()
        invariant
            u == upgrades@,
            stats_fit(u),
            u.len() <= i64::MAX,
            i <= u.len(),
            lvls == levels_bought(u.subrange(0, i as int)),
            mx == levels_there(u.subrange(0, i as int)),
            ready == ready_count(u.subrange(0, i as int)),
            ready <= i,
        decreases u.len() - i,
    {
        let (l, m, a) = upgrades[i];
        proof {
            let s1 = u.subrange(0, i + 1);
            assert(s1.drop_last() =~= u.subrange(0, i as int));
            assert(s1.last() == u[i as int]);
            assert(i64::MIN <= levels_bought(s1) <= i64::MAX);
            assert(i64::MIN <= levels_there(s1) <= i64::MAX);
        }
        lvls = lvls + l;
        mx = mx + m;
        if a {
            ready = ready + 1;
        }
        i = i + 1;
    }
    proof {
        assert(u.subrange(0, u.len() as int) =~= u);
    }
    (lvls, mx, ready)
}

} // verus!
