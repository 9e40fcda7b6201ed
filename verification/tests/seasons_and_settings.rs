use lucky_verities::prefs::{apply_save_prefs, buy_mode, buy_mode_text, store_save_prefs};
use lucky_verities::season::{cloud_check_needed, cloud_outdated, enforce_season_state, old_local_slots, save_text_season, SeasonOutcome, SeasonSave};

fn save(slot: Option<i64>, season: i64, reset: i64, rolls: i64, coins_zero: bool, uid: Option<&str>) -> SeasonSave {
    SeasonSave {
        slot,
        season,
        player_reset: reset,
        total_rolls: rolls,
        rebirths: 0,
        coins_zero,
        cloud_uid: uid.map(|u| u.to_string()),
        cloud_base_time: None,
        prefs: None,
        playtime_bits: 0,
        save_seq: 0,
        dirty: false,
    }
}

fn kv(pairs: &[(&str, &str)]) -> Vec<(String, String)> {
    pairs.iter().map(|(k, v)| (k.to_string(), v.to_string())).collect()
}

fn value_of(settings: &[(String, String)], key: &str) -> Option<String> {
    settings.iter().rev().find(|(k, _)| k == key).map(|(_, v)| v.clone())
}

#[test]
fn a_new_season_wipes_only_older_saves() {
    // the save being played, from before the reset: back to 0, same slot, settings kept
    let mut st = save(Some(1), 0, 0, 5000, false, None);
    st.rebirths = 7;
    let p = kv(&[("animations", "false")]);
    st.prefs = Some(p.clone());
    st.cloud_base_time = Some("2025-03-01T10:00:00Z".to_string());
    st.playtime_bits = 3600.0f64.to_bits();
    let out = enforce_season_state(&mut st, Some(1), None, None);
    assert_eq!((st.total_rolls, st.coins_zero, st.rebirths, st.season), (0, true, 0, 1));
    assert_eq!((st.slot, st.prefs.clone()), (Some(1), Some(p)));
    assert_eq!(st.cloud_base_time.as_deref(), Some("2025-03-01T10:00:00Z"));
    assert_eq!(f64::from_bits(st.playtime_bits), 3600.0); // the playtime stays
    assert_eq!(out, SeasonOutcome::Wiped { personal: false });
    assert!(st.dirty);
    // progress made after the reset is never touched
    let mut st = save(Some(2), 1, 0, 42, false, None);
    let out = enforce_season_state(&mut st, Some(1), None, None);
    assert_eq!(st.total_rolls, 42);
    assert_eq!(out, SeasonOutcome::Unchanged);
    // the other slots on this PC: slot 1 was saved in season 1, slot 2 is old, slot 3 is from season 1
    let seasons = vec![Some(1), Some(0), Some(1)];
    assert_eq!(old_local_slots(None, &seasons, 1), vec![2]);
    // no season yet (0): nothing happens
    let mut st = save(Some(1), 0, 0, 10, false, None);
    let out = enforce_season_state(&mut st, Some(0), None, None);
    assert_eq!(st.total_rolls, 10);
    assert_eq!(out, SeasonOutcome::Unchanged);
    assert_eq!(old_local_slots(None, &seasons, 0), Vec::<i64>::new());
}

#[test]
fn a_personal_reset_wipes_only_that_accounts_saves() {
    // this account's save from before the reset: wiped
    let mut st = save(Some(1), 0, 0, 800, false, Some("u1"));
    let out = enforce_season_state(&mut st, Some(0), Some(1), Some("u1"));
    assert_eq!((st.total_rolls, st.player_reset, st.cloud_uid.as_deref()), (0, 1, Some("u1")));
    assert_eq!(out, SeasonOutcome::Wiped { personal: true });
    // made after the reset: kept
    let mut st = save(Some(1), 0, 1, 30, false, Some("u1"));
    enforce_season_state(&mut st, Some(0), Some(1), Some("u1"));
    assert_eq!(st.total_rolls, 30);
    // an offline save on this PC: not this account's, kept
    let mut st = save(Some(2), 0, 0, 55, false, None);
    enforce_season_state(&mut st, Some(0), Some(1), Some("u1"));
    assert_eq!(st.total_rolls, 55);
}

#[test]
fn settings_follow_the_save_to_another_pc() {
    // PC 1: turns animations and Secret cutscenes off; the settings go into the save
    let pc1 = kv(&[("animations", "false"), ("cutscenes_secreto", "false"), ("fullscreen", "false"), ("music", "0.5")]);
    let mut prefs = None;
    assert!(store_save_prefs(&pc1, &mut prefs));
    // PC 2: default settings, loads that save
    let mut pc2 = kv(&[("animations", "true"), ("cutscenes_secreto", "true"), ("fullscreen", "true"), ("music", "0.5")]);
    let changed = apply_save_prefs(&mut pc2, prefs.as_ref().unwrap());
    assert!(changed);
    assert_eq!(value_of(&pc2, "animations").as_deref(), Some("false"));
    assert_eq!(value_of(&pc2, "cutscenes_secreto").as_deref(), Some("false"));
    assert_eq!(value_of(&pc2, "fullscreen").as_deref(), Some("true")); // fullscreen stays per PC
}

#[test]
fn a_brand_new_save_is_only_marked() {
    let mut st = save(Some(1), 0, 0, 0, true, Some("u1"));
    st.save_seq = 4;
    let out = enforce_season_state(&mut st, Some(2), Some(3), Some("u1"));
    assert_eq!(out, SeasonOutcome::Marked);
    assert_eq!((st.season, st.player_reset, st.save_seq, st.dirty), (2, 3, 4, true));
}

#[test]
fn a_wipe_counts_as_a_new_save_version() {
    let mut st = save(Some(3), 1, 0, 9, false, Some("u2"));
    st.save_seq = 10;
    enforce_season_state(&mut st, Some(2), Some(5), Some("u1"));
    // another account's reset number doesn't count for this save
    assert_eq!((st.season, st.player_reset, st.save_seq), (2, 0, 11));
    assert_eq!(st.cloud_uid.as_deref(), Some("u2"));
}

#[test]
fn enforcing_twice_changes_nothing_more() {
    let mut st = save(Some(1), 0, 0, 77, false, Some("u1"));
    enforce_season_state(&mut st, Some(4), Some(2), Some("u1"));
    let before = (st.season, st.player_reset, st.total_rolls, st.save_seq);
    let out = enforce_season_state(&mut st, Some(4), Some(2), Some("u1"));
    assert_eq!(out, SeasonOutcome::Unchanged);
    assert_eq!(before, (st.season, st.player_reset, st.total_rolls, st.save_seq));
}

#[test]
fn no_save_being_played_is_left_alone() {
    let mut st = save(None, 0, 0, 5, false, None);
    assert_eq!(enforce_season_state(&mut st, Some(9), None, None), SeasonOutcome::Unchanged);
    assert_eq!(st.total_rolls, 5);
}

#[test]
fn the_played_slot_is_never_deleted() {
    let seasons = vec![Some(0), None, Some(0), Some(3)];
    assert_eq!(old_local_slots(Some(1), &seasons, 3), vec![3]);
    assert_eq!(old_local_slots(None, &seasons, 3), vec![1, 3]);
}

#[test]
fn cloud_saves_older_than_the_season_or_reset_go() {
    assert!(cloud_outdated(0, 5, 1, 0));
    assert!(cloud_outdated(3, 1, 3, 2));
    assert!(!cloud_outdated(3, 2, 3, 2));
    assert!(!cloud_check_needed(0, 0));
    assert!(cloud_check_needed(0, 1));
    assert!(cloud_check_needed(2, 0));
}

#[test]
fn storing_the_same_settings_again_is_not_a_change() {
    let pc = kv(&[("animations", "false"), ("fullscreen", "true")]);
    let mut prefs = None;
    assert!(store_save_prefs(&pc, &mut prefs));
    assert_eq!(prefs, Some(kv(&[("animations", "false")])));
    assert!(!store_save_prefs(&pc, &mut prefs));
}

#[test]
fn applying_the_same_settings_is_not_a_change() {
    let mut pc = kv(&[("animations", "false"), ("sounds", "true")]);
    let prefs = kv(&[("animations", "false"), ("unknown_setting", "1")]);
    assert!(!apply_save_prefs(&mut pc, &prefs));
    assert_eq!(pc, kv(&[("animations", "false"), ("sounds", "true")]));
}

#[test]
fn the_upgrades_buy_mode_setting() {
    assert_eq!(buy_mode(&kv(&[("buy_mode", "\"max\"")])), 0);
    assert_eq!(buy_mode(&kv(&[("buy_mode", "10")])), 10);
    assert_eq!(buy_mode(&kv(&[("buy_mode", "10.0")])), 10);
    assert_eq!(buy_mode(&kv(&[("buy_mode", "1")])), 1);
    assert_eq!(buy_mode(&kv(&[("buy_mode", "true")])), 1);
    assert_eq!(buy_mode(&kv(&[("buy_mode", "\"x10\"")])), 1);
    assert_eq!(buy_mode(&kv(&[("music", "10")])), 1);
    assert_eq!(buy_mode_text(0), "\"max\"");
    assert_eq!(buy_mode_text(10), "10");
}

#[test]
fn storing_the_settings_twice_changes_nothing() {
    let pc = kv(&[("animations", "false"), ("fullscreen", "true"), ("music", "0.5")]);
    let mut prefs = None;
    assert!(store_save_prefs(&pc, &mut prefs));
    let first = prefs.clone();
    assert!(!store_save_prefs(&pc, &mut prefs));
    assert_eq!(prefs, first);
}

#[test]
fn the_season_a_save_file_was_made_in() {
    assert_eq!(save_text_season(r#"{"season": 3, "total_rolls": 10}"#), Some(3));
    assert_eq!(save_text_season(r#"{"total_rolls": 10}"#), Some(0));
    assert_eq!(save_text_season(r#"{"season": "new"}"#), Some(0));
    assert_eq!(save_text_season("not a save"), None);
    assert_eq!(save_text_season(""), None);
}

#[test]
fn the_buy_mode_reads_back_as_written() {
    for (mode, back) in [(0, 0), (1, 1), (10, 10), (5, 1), (-3, 1), (100, 1)] {
        let text = buy_mode_text(mode);
        assert_eq!(buy_mode(&vec![("buy_mode".to_string(), text)]), back);
    }
}
