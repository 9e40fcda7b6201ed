//! Seasons and resets. An admin can reset everyone's progress (a new season) or one player's (their reset
//! number goes up). A save from an older season, or - for the account's own cloud saves - from before the
//! account's last reset, starts again from 0; saves already made in the new season are never touched.
use vstd::prelude::*;
use crate::text::str_eq;

verus! {

/// What the season rules read from (and write to) a save.
pub struct SeasonSave {
    /// the save slot it belongs to (None: no save is being played)
    pub slot: Option<i64>,
    /// the season it was made in (0 = older than seasons)
    pub season: i64,
    /// the player's reset number it was made with
    pub player_reset: i64,
    pub total_rolls: i64,
    pub rebirths: i64,
    /// no coins at all
    pub coins_zero: bool,
    /// the account whose cloud save this is
    pub cloud_uid: Option<String>,
    /// the time of the cloud copy it was loaded from, as the cloud gives it
    pub cloud_base_time: Option<String>,
    /// the settings kept in the save (name, JSON text), see `prefs`
    pub prefs: Option<Vec<(String, String)>>,
    /// the time played, in seconds: the bits of the game's f64, carried through as they are
    pub playtime_bits: u64,
    pub save_seq: u64,
    pub dirty: bool,
}

/// What enforce_season_state did to the save.
#[derive(PartialEq, Eq, Debug, Structural)]
pub enum SeasonOutcome {
    /// nothing (no save, or it is already up to date)
    Unchanged,
    /// a brand-new save: only marked with the season and reset number
    Marked,
    /// started again from 0; `personal` = because of this player's own reset (the season was up to date)
    Wiped { personal: bool },
}

/// The save belongs to the logged-in account (it's that account's cloud save).
pub open spec fn is_mine(save: SeasonSave, account_uid: Option<Seq<char>>) -> bool {
    match (save.cloud_uid, account_uid) {
        (Some(c), Some(a)) => c@ == a,
        _ => false,
    }
}

/// The season the save should be in: the server's (if known) or the save's own, whichever is newer.
pub open spec fn target_season(save: SeasonSave, server: Option<i64>) -> int {
    let n = match server {
        Some(n) => n as int,
        None => 0,
    };
    if n > save.season { n } else { save.season as int }
}

/// The reset number the save should have: the account's own (if known) only for the account's saves.
pub open spec fn target_reset(save: SeasonSave, my_reset: Option<i64>, account_uid: Option<Seq<char>>) -> int {
    if is_mine(save, account_uid) {
        let r = match my_reset {
            Some(r) => r as int,
            None => 0,
        };
        if r > save.player_reset { r } else { save.player_reset as int }
    } else {
        save.player_reset as int
    }
}

/// The save is up to date: nothing to do.
pub open spec fn up_to_date(save: SeasonSave, server: Option<i64>, my_reset: Option<i64>, account_uid: Option<Seq<char>>) -> bool {
    save.season >= target_season(save, server) && save.player_reset >= target_reset(save, my_reset, account_uid)
}

/// The save was never played: no rolls and no coins.
pub open spec fn is_fresh(save: SeasonSave) -> bool {
    save.total_rolls == 0 && save.coins_zero
}

/// The account's uid as text (None: not logged in).
pub open spec fn uid_view(uid: Option<&str>) -> Option<Seq<char>> {
    match uid {
        Some(u) => Some(u@),
        None => None,
    }
}

/// What enforcing the season does to a save, and what it reports.
pub open spec fn spec_enforce(s0: SeasonSave, server: Option<i64>, my_reset: Option<i64>, acc: Option<Seq<char>>) -> (SeasonSave, SeasonOutcome) {
    let n = target_season(s0, server);
    let r = target_reset(s0, my_reset, acc);
    if s0.slot is None || up_to_date(s0, server, my_reset, acc) {
        (s0, SeasonOutcome::Unchanged)
    } else if is_fresh(s0) {
        (SeasonSave { season: n as i64, player_reset: r as i64, dirty: true, ..s0 }, SeasonOutcome::Marked)
    } else {
        (
            SeasonSave {
                slot: s0.slot,
                season: n as i64,
                player_reset: r as i64,
                total_rolls: 0,
                rebirths: 0,
                coins_zero: true,
                cloud_uid: s0.cloud_uid,
                cloud_base_time: s0.cloud_base_time,
                prefs: s0.prefs,
                playtime_bits: s0.playtime_bits,
                save_seq: (s0.save_seq + 1) as u64,
                dirty: true,
            },
            SeasonOutcome::Wiped { personal: s0.season >= n },
        )
    }
}

/// The save being played: from an older season (or, for the account's own save, from before its last reset) with
/// progress, it starts again from 0, keeping the slot, the cloud link, the settings and the
/// playtime; a brand-new one is only marked.
/// `uid` is the logged-in account's.
pub fn enforce_season_state(save: &mut SeasonSave, server: Option<i64>, my_reset: Option<i64>, uid: Option<&str>) -> (out: SeasonOutcome)
    requires
        old(save).save_seq < u64::MAX,
    ensures
        (*final(save), out) == spec_enforce(*old(save), server, my_reset, uid_view(uid)),
{
    if save.slot.is_none() {
        return SeasonOutcome::Unchanged;
    }
    let server_n = match server {
        Some(n) => n,
        None => 0,
    };
    let n = if server_n > save.season { server_n } else { save.season };
    let mine = match (&save.cloud_uid, uid) {
        (Some(c), Some(a)) => str_eq(c.as_str(), a),
        _ => false,
    };
    let r = if mine {
        let mr = match my_reset {
            Some(r) => r,
            None => 0,
        };
        if mr > save.player_reset { mr } else { save.player_reset }
    } else {
        save.player_reset
    };
    if save.season >= n && save.player_reset >= r {
        return SeasonOutcome::Unchanged;
    }
    let personal = save.season >= n;
    if save.total_rolls == 0 && save.coins_zero {
        save.season = n;
        save.player_reset = r;
        save.dirty = true;
        return SeasonOutcome::Marked;
    }
    save.season = n;
    save.player_reset = r;
    save.total_rolls = 0;
    save.rebirths = 0;
    save.coins_zero = true;
    save.save_seq = save.save_seq + 1;
    save.dirty = true;
    SeasonOutcome::Wiped { personal }
}

/// Once enforced, a save being played is up to date: enforcing again changes nothing.
pub proof fn law_enforce_settles(s0: SeasonSave, server: Option<i64>, my_reset: Option<i64>, acc: Option<Seq<char>>)
    requires
        s0.save_seq < u64::MAX,
    ensures
        spec_enforce(spec_enforce(s0, server, my_reset, acc).0, server, my_reset, acc).1 == SeasonOutcome::Unchanged,
        spec_enforce(spec_enforce(s0, server, my_reset, acc).0, server, my_reset, acc).0 == spec_enforce(s0, server, my_reset, acc).0,
{
}

/// A save already made in the current season (and, if it's the account's, after its last reset) is never touched.
pub proof fn law_newer_saves_untouched(s0: SeasonSave, server: Option<i64>, my_reset: Option<i64>, acc: Option<Seq<char>>)
    requires
        s0.season >= 0,
        s0.player_reset >= 0,
        server matches Some(n) ==> s0.season >= n,
        is_mine(s0, acc) ==> (my_reset matches Some(r) ==> s0.player_reset >= r),
    ensures
        spec_enforce(s0, server, my_reset, acc) == (s0, SeasonOutcome::Unchanged),
{
}

/// A player's own reset only reaches that account's saves: for any other save, the account's reset number
/// makes no difference.
pub proof fn law_personal_reset_only_own(s0: SeasonSave, server: Option<i64>, r1: Option<i64>, r2: Option<i64>, acc: Option<Seq<char>>)
    requires
        !is_mine(s0, acc),
    ensures
        spec_enforce(s0, server, r1, acc) == spec_enforce(s0, server, r2, acc),
{
}

/// Whatever happens, the save keeps its slot, its cloud link (and the cloud copy's time), its settings and its
/// playtime, and progress is only lost by a save that was out of date.
pub proof fn law_reset_keeps_slot_and_link(s0: SeasonSave, server: Option<i64>, my_reset: Option<i64>, acc: Option<Seq<char>>)
    ensures
        spec_enforce(s0, server, my_reset, acc).0.slot == s0.slot,
        spec_enforce(s0, server, my_reset, acc).0.cloud_uid == s0.cloud_uid,
        spec_enforce(s0, server, my_reset, acc).0.cloud_base_time == s0.cloud_base_time,
        spec_enforce(s0, server, my_reset, acc).0.prefs == s0.prefs,
        spec_enforce(s0, server, my_reset, acc).0.playtime_bits == s0.playtime_bits,
        spec_enforce(s0, server, my_reset, acc).0.total_rolls != s0.total_rolls ==> !up_to_date(s0, server, my_reset, acc),
{
}

/// A save file on this PC is from an older season than `n` (and so is deleted).
pub open spec fn local_outdated(slot_season: Option<i64>, n: int) -> bool {
    slot_season matches Some(s) && s < n
}

/// The slots on this PC (1, 2, ... one per entry of `seasons`: that slot's save season, None = empty) to
/// delete when season `n` is known: those from an older season, except the one being played; none while n <= 0.
pub open spec fn spec_old_local_slots(playing: Option<i64>, seasons: Seq<Option<i64>>, n: int) -> Seq<i64>
    decreases seasons.len(),
{
    if seasons.len() == 0 || n <= 0 {
        Seq::empty()
    } else {
        let k = seasons.len() as int;
        let before = spec_old_local_slots(playing, seasons.drop_last(), n);
        if playing != Some(k as i64) && local_outdated(seasons.last(), n) {
            before.push(k as i64)
        } else {
            before
        }
    }
}

/// What serde_json reads of a save file's text: None when the text is not JSON, else the "season" field when it
/// holds an integer that fits in an i64 (Some(None) when there is no such field).
pub uninterp spec fn json_save_season(text: Seq<char>) -> Option<Option<i64>>;

/// serde_json::from_str into a JSON value, then its "season" field read with `as_i64`.
#[verifier::external_body]
fn parse_save_season(text: &str) -> (r: Option<Option<i64>>)
    ensures
        r == json_save_season(text@),
{
    serde_json::from_str::<serde_json::Value>(text).ok().map(|v| v.get("season").and_then(|s| s.as_i64()))
}

/// The season a save file's text was made in (0: older than seasons, when it has no season); None when the text
/// is not a save (not JSON).
pub fn save_text_season(text: &str) -> (r: Option<i64>)
    ensures
        r == match json_save_season(text@) {
            None => None,
            Some(s) => Some(match s {
                Some(n) => n,
                None => 0,
            }),
        },
{
    match parse_save_season(text) {
        None => None,
        Some(s) => Some(match s {
            Some(n) => n,
            None => 0,
        }),
    }
}

/// The slots on this PC to delete once season `n` is known.
pub fn old_local_slots(playing: Option<i64>, seasons: &Vec<Option<i64>>, n: i64) -> (out: Vec<i64>)
    requires
        seasons@.len() < i64::MAX,
    ensures
        out@ == spec_old_local_slots(playing, seasons@, n as int),
{
    let mut out: Vec<i64> = Vec::new();
    if n <= 0 {
        return out;
    }
    let mut i: usize = 0;
    while i < seasons.len()
        invariant
            i <= seasons@.len() < i64::MAX,
            n > 0,
            out@ == spec_old_local_slots(playing, seasons@.subrange(0, i as int), n as int),
        decreases seasons@.len() - i,
    {
        let slot = (i + 1) as i64;
        let old = match seasons[i] {
            Some(s) => s < n,
            None => false,
        };
        if old && playing != Some(slot) {
            out.push(slot);
        }
        proof {
            assert(seasons@.subrange(0, i + 1).drop_last() =~= seasons@.subrange(0, i as int));
        }
        i = i + 1;
    }
    proof {
        assert(seasons@.subrange(0, seasons@.len() as int) =~= seasons@);
    }
    out
}

/// Exactly the slots on this PC from a season older than `n` are deleted, never the one being played, and
/// nothing while no season has started (n <= 0).
pub proof fn law_old_local_slots_exact(playing: Option<i64>, seasons: Seq<Option<i64>>, n: int, k: int)
    requires
        seasons.len() < i64::MAX,
    ensures
        spec_old_local_slots(playing, seasons, n).contains(k as i64) && 1 <= k <= seasons.len() <==> (1 <= k <= seasons.len()
            && n > 0 && playing != Some(k as i64) && local_outdated(seasons[k - 1], n)),
        forall|i: int| 0 <= i < spec_old_local_slots(playing, seasons, n).len() ==> 1 <= #[trigger] spec_old_local_slots(playing, seasons, n)[i] <= seasons.len(),
    decreases seasons.len(),
{
    if seasons.len() > 0 && n > 0 {
        let d = seasons.drop_last();
        law_old_local_slots_exact(playing, d, n, k);
        let b = spec_old_local_slots(playing, d, n);
        let m = seasons.len() as int;
        if 1 <= k < m {
            assert(d[k - 1] == seasons[k - 1]);
        }
        assert(!(b.contains(m as i64))) by {
            if b.contains(m as i64) {
                let i = choose|i: int| 0 <= i < b.len() && b[i] == m as i64;
                assert(1 <= b[i] <= d.len());
            }
        }
        let r = spec_old_local_slots(playing, seasons, n);
        if playing != Some(m as i64) && local_outdated(seasons.last(), n) {
            assert(r == b.push(m as i64));
            assert(1 <= k <= m ==> (r.contains(k as i64) <==> (b.contains(k as i64) || k == m))) by {
                if 1 <= k <= m && r.contains(k as i64) {
                    let i = choose|i: int| 0 <= i < r.len() && r[i] == k as i64;
                    if i < b.len() {
                        assert(b[i] == r[i]);
                    }
                }
                if b.contains(k as i64) {
                    let i = choose|i: int| 0 <= i < b.len() && b[i] == k as i64;
                    assert(r[i] == b[i]);
                }
                if k == m {
                    assert(r[b.len() as int] == m as i64);
                }
            }
        } else {
            assert(r == b);
        }
    }
}

/// A cloud save of the account is from an older season or from before the account's last reset.
pub open spec fn spec_cloud_outdated(season: int, reset: int, n: int, r: int) -> bool {
    season < n || reset < r
}

/// Is this cloud save (its season and reset number) to be deleted, with season `n` and reset `r` known?
pub fn cloud_outdated(season: i64, reset: i64, n: i64, r: i64) -> (b: bool)
    ensures
        b == spec_cloud_outdated(season as int, reset as int, n as int, r as int),
{
    season < n || reset < r
}

/// The account's cloud slots are only looked at when a season or a reset has ever happened.
pub fn cloud_check_needed(n: i64, r: i64) -> (b: bool)
    ensures
        b == (r > 0 || n > 0),
{
    r > 0 || n > 0
}

} // verus!
