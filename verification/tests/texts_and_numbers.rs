use lucky_verities::model::{find_move, lvm_file_complete, parse_lvm, Lvm, LvmMove};
use lucky_verities::labels::stars;
use lucky_verities::feedback::feedback_text;
use lucky_verities::updates::{on_enter_game, unseen_updates, update_error_text, update_modal_active, OnEnter};
use lucky_verities::updates::{updater_step, UpdAction, UpdEvent, UpdPhase};
use lucky_verities::geom::{color_dim, union, Color, Rect};
use lucky_verities::labels::{
    category_icon, fmt_clock, fmt_items, latest_update, lb_icon, mutation_unlock, on_off, pet_key_label, pet_rank, prestige_gives,
    received_names, reward_label, roman, sell_pet_label, update_log_versions, upgrade_icon,
};
use lucky_verities::num::{euclid_mod, int_text, parse_i64, parse_usize, rd_u32, usize_text};
use lucky_verities::text::{starts_with, str_eq, trim};

fn pets() -> Vec<String> {
    vec!["Eternity".to_string(), "Hope".to_string(), "Fidelity".to_string(), "Valor".to_string()]
}

fn mutations() -> Vec<(String, String)> {
    vec![
        ("normal".to_string(), "".to_string()),
        ("golden".to_string(), "Golden".to_string()),
        ("diamond".to_string(), "Diamond".to_string()),
        ("rainbow".to_string(), "Rainbow".to_string()),
    ]
}

#[test]
fn prestige_numerals() {
    assert_eq!(roman(-3), "0");
    assert_eq!(roman(0), "0");
    assert_eq!(roman(1), "I");
    assert_eq!(roman(4), "IV");
    assert_eq!(roman(5), "V");
    assert_eq!(roman(12), "V");
}

#[test]
fn upgrade_and_category_icons() {
    assert_eq!(upgrade_icon("luck_1"), "shop/potion_luck");
    assert_eq!(upgrade_icon("money_2"), "cash");
    assert_eq!(upgrade_icon("slots_plus"), "bag");
    assert_eq!(upgrade_icon("auto_equip_unlock"), "bag");
    assert_eq!(upgrade_icon("auto_speed"), "shop/potion_speed");
    assert_eq!(upgrade_icon("auto_trait_unlock"), "trait");
    assert_eq!(upgrade_icon("auto_upgrade_unlock"), "tree");
    assert_eq!(upgrade_icon("golden_chance_2"), "shop/dice_gold");
    assert_eq!(upgrade_icon("cyclic_power"), "shop/dice_gold");
    assert_eq!(upgrade_icon("diamond_roll_3"), "shop/dice_sapphire");
    assert_eq!(upgrade_icon("rainbow_unlock"), "shop/dice_prism");
    assert_eq!(upgrade_icon("offline_cap"), "clock");
    assert_eq!(upgrade_icon("something_else"), "tree");
    assert_eq!(category_icon("bonus_rolls"), "shop/dice_prism");
    assert_eq!(category_icon("mutations"), "shop/dice_gold");
    assert_eq!(category_icon("zzz"), "tree");
    assert_eq!(lb_icon("rebirths"), "rebirth");
    assert_eq!(lb_icon("playtime"), "clock");
    assert_eq!(lb_icon("nope"), "");
}

#[test]
fn small_labels() {
    assert_eq!(mutation_unlock("diamond"), Some("diamond_unlock"));
    assert_eq!(mutation_unlock("normal"), None);
    assert_eq!(on_off(true), "On");
    assert_eq!(on_off(false), "Off");
    assert_eq!(reward_label("coins_10k", ""), "coins_10k");
    assert_eq!(reward_label("coins_10k", "10K Coins"), "10K Coins");
    assert_eq!(latest_update(), "v3.0.4");
    let versions = update_log_versions();
    assert_eq!(versions.len(), 19);
    assert_eq!(&versions[..3], &["v3.0.4", "v3.0.3", "v3.0.1"]);
    assert_eq!(versions[18], "v1.0.5");
    assert_eq!(prestige_gives("3", "2.5", "+1 Equip Slot"), "x3 Money, x2.5 Luck, +1 Equip Slot");
    assert_eq!(sell_pet_label("Golden", "Eternity"), "Golden Eternity");
    assert_eq!(sell_pet_label("", "Eternity"), "Eternity");
}

#[test]
fn pet_ranks() {
    let order = vec![7, 2, 9, 2];
    assert_eq!(pet_rank(&order, 9), 2);
    assert_eq!(pet_rank(&order, 2), 1);
    assert_eq!(pet_rank(&order, 4), -1);
}

#[test]
fn pet_keys_as_labels() {
    assert_eq!(pet_key_label("2_golden", &pets(), &mutations()), "Golden Fidelity");
    assert_eq!(pet_key_label("1_normal", &pets(), &mutations()), "Hope");
    assert_eq!(pet_key_label("9_golden", &pets(), &mutations()), "9_golden");
    assert_eq!(pet_key_label("2_shiny", &pets(), &mutations()), "2_shiny");
    assert_eq!(pet_key_label("golden", &pets(), &mutations()), "golden");
    assert_eq!(pet_key_label("x_golden", &pets(), &mutations()), "x_golden");
}

#[test]
fn trade_sides_as_text() {
    let items = vec![("2_golden".to_string(), 3), ("1_rainbow".to_string(), 1)];
    assert_eq!(fmt_items(&items, &pets(), &mutations()), "Golden Fidelity x3, Rainbow Hope x1");
    assert_eq!(fmt_items(&Vec::new(), &pets(), &mutations()), "-");
    let keys = vec!["2_golden".to_string(), "3_diamond".to_string()];
    assert_eq!(received_names(&keys, &pets(), &mutations()), "Golden Fidelity, Diamond Valor");
    let many: Vec<String> = (0..10).map(|_| "0_rainbow".to_string()).collect();
    let text = received_names(&many, &pets(), &mutations());
    assert_eq!(text.chars().count(), 80);
    assert!(text.starts_with("Rainbow Eternity, Rainbow Eternity"));
}

#[test]
fn countdown_clocks() {
    assert_eq!(fmt_clock(0), "0:00");
    assert_eq!(fmt_clock(65), "1:05");
    assert_eq!(fmt_clock(600), "10:00");
    assert_eq!(fmt_clock(-20), "0:00");
    assert_eq!(fmt_clock(3599), "59:59");
}

#[test]
fn reading_numbers() {
    assert_eq!(parse_i64("42"), Some(42));
    assert_eq!(parse_i64("-17"), Some(-17));
    assert_eq!(parse_i64("+5"), Some(5));
    assert_eq!(parse_i64("9223372036854775807"), Some(i64::MAX));
    assert_eq!(parse_i64("9223372036854775808"), None);
    assert_eq!(parse_i64("-9223372036854775808"), Some(i64::MIN));
    assert_eq!(parse_i64(""), None);
    assert_eq!(parse_i64("-"), None);
    assert_eq!(parse_i64("4x"), None);
    assert_eq!(parse_usize("3"), Some(3));
    assert_eq!(parse_usize("-3"), None);
}

#[test]
fn writing_numbers() {
    assert_eq!(int_text(0), "0");
    assert_eq!(int_text(1200), "1200");
    assert_eq!(int_text(-45), "-45");
    assert_eq!(int_text(i64::MIN), "-9223372036854775808");
    assert_eq!(usize_text(0), "0");
    assert_eq!(usize_text(307), "307");
}

#[test]
fn little_endian_words() {
    let bytes = [1u8, 2, 3, 4, 0xff, 0, 0, 0x80];
    let mut o = 0usize;
    assert_eq!(rd_u32(&bytes, &mut o), 0x04030201);
    assert_eq!(o, 4);
    assert_eq!(rd_u32(&bytes, &mut o), 0x800000ff);
    assert_eq!(o, 8);
}

#[test]
fn euclidean_remainders() {
    assert_eq!(euclid_mod(7, 5), 2);
    assert_eq!(euclid_mod(-1, 5), 4);
    assert_eq!(euclid_mod(-10, 5), 0);
    assert_eq!(euclid_mod(-12, 12), 0);
    assert_eq!(euclid_mod(-13, 12), 11);
}

#[test]
fn text_helpers() {
    assert_eq!(trim("  hi there \t"), "hi there");
    assert_eq!(trim("\u{3000}x\u{a0}"), "x");
    assert_eq!(trim("   "), "");
    assert!(str_eq("abc", "abc"));
    assert!(!str_eq("abc", "abd"));
    assert!(starts_with("luck_2", "luck"));
    assert!(!starts_with("lu", "luck"));
}

#[test]
fn rectangles_and_colours() {
    let r = union(Rect::new(10, 20, 30, 40), Rect::new(5, 50, 10, 5));
    assert_eq!(r, Rect::new(5, 20, 35, 40));
    assert_eq!((r.left(), r.top(), r.right(), r.bottom()), (5, 20, 40, 60));
    assert_eq!(color_dim(Color::rgb(100, 10, 255), 20), Color::rgb(80, 0, 235));
    assert_eq!(color_dim(Color { r: 1, g: 2, b: 3, a: 7 }, 0), Color::rgb(1, 2, 3));
}

#[test]
fn stars_of_a_wild_pet() {
    assert_eq!(stars(0), "");
    assert_eq!(stars(3), "***");
}

#[test]
fn feedback_is_squeezed_before_sending() {
    assert_eq!(feedback_text("  great   game\n\tthanks  ").as_deref(), Some("great game thanks"));
    assert_eq!(feedback_text(" a b "), None);
    assert_eq!(feedback_text("ab c").as_deref(), Some("ab c"));
    assert_eq!(feedback_text("     "), None);
    let once = feedback_text(" x  y\u{3000}z ").unwrap();
    assert_eq!(once, "x y z");
    assert_eq!(feedback_text(&once).as_deref(), Some("x y z"));
}

#[test]
fn whats_new_after_an_update() {
    assert_eq!(unseen_updates("v3.0.4", true, &vec![false, false, false]), Vec::<usize>::new());
    assert_eq!(unseen_updates("", false, &vec![true, true, true]), vec![0]);
    assert_eq!(unseen_updates("v3.0.1", true, &vec![true, true, false]), vec![0, 1]);
    assert_eq!(unseen_updates("v2.0", true, &vec![true, true, true, true]), vec![0, 1, 2]);
    assert_eq!(unseen_updates("v2.0", true, &vec![]), Vec::<usize>::new());
    assert_eq!(on_enter_game(true, false, 2), OnEnter::Tutorial);
    assert_eq!(on_enter_game(true, true, 2), OnEnter::WhatsNew);
    assert_eq!(on_enter_game(false, false, 0), OnEnter::Nothing);
    assert!(update_modal_active("downloading"));
    assert!(!update_modal_active("idle"));
    assert_eq!(update_error_text("net", ""), "Couldn't download the update. Check your internet connection.");
    assert_eq!(update_error_text("other", "disk full"), "Something went wrong (disk full).");
    assert_eq!(update_error_text("other", ""), "Something went wrong (other).");
}

fn word(out: &mut Vec<u8>, v: u32) {
    out.extend_from_slice(&v.to_le_bytes());
}

#[test]
fn reading_the_monster_model_file() {
    let mut b: Vec<u8> = b"LVM1".to_vec();
    word(&mut b, 1); // vertices
    word(&mut b, 1); // triangles
    word(&mut b, 2); // joints
    for f in [0.5f32, 1.0, -2.0, 0.25, 0.75, 0.1, 0.9] {
        word(&mut b, f.to_bits());
    }
    b.extend_from_slice(&[0, 1, 0, 0, 255, 0, 0, 0]);
    for i in [0u32, 0, 0] {
        word(&mut b, i);
    }
    word(&mut b, 1); // moves
    b.push(4);
    b.extend_from_slice(b"Idle");
    word(&mut b, 1); // frames
    word(&mut b, 30.0f32.to_bits());
    for k in 0..24u32 {
        word(&mut b, k);
    }
    assert!(lvm_file_complete(&b));
    assert!(!lvm_file_complete(&b[..b.len() - 1]));
    assert!(!lvm_file_complete(&b[..40]));
    assert!(lvm_file_complete(b"not a model file"));
    let m = parse_lvm(&b).unwrap();
    assert_eq!(m.vertices.len(), 1);
    assert_eq!(f32::from_bits(m.vertices[0].pos.2), -2.0);
    assert_eq!(f32::from_bits(m.vertices[0].ball_uv.1), 0.9);
    assert_eq!(m.vertices[0].joints, (0, 1, 0, 0));
    assert_eq!(m.vertices[0].weights, (255, 0, 0, 0));
    assert_eq!(m.tris, vec![(0, 0, 0)]);
    assert_eq!(m.joints, 2);
    assert_eq!(m.moves.len(), 1);
    assert_eq!(m.moves[0].name, b"Idle".to_vec());
    assert_eq!(m.moves[0].frames, 1);
    assert_eq!(f32::from_bits(m.moves[0].fps), 30.0);
    assert_eq!(m.moves[0].data, (0..24).collect::<Vec<u32>>());
    assert!(parse_lvm(b"LVM2............").is_none());
    assert!(parse_lvm(b"LVM1").is_none());
}

#[test]
fn the_updater_checks_downloads_and_installs() {
    let due = UpdEvent::Tick { enabled: true, due: true };
    assert_eq!(updater_step(UpdPhase::Idle, due), (UpdPhase::Checking, UpdAction::Check));
    assert_eq!(updater_step(UpdPhase::Checking, due), (UpdPhase::Checking, UpdAction::Nothing));
    assert_eq!(
        updater_step(UpdPhase::Idle, UpdEvent::Tick { enabled: false, due: true }),
        (UpdPhase::Idle, UpdAction::Nothing)
    );
    assert_eq!(
        updater_step(UpdPhase::Idle, UpdEvent::Tick { enabled: true, due: false }),
        (UpdPhase::Idle, UpdAction::Nothing)
    );
    assert_eq!(updater_step(UpdPhase::Checking, UpdEvent::Found), (UpdPhase::Available, UpdAction::Nothing));
    assert_eq!(updater_step(UpdPhase::Checking, UpdEvent::UpToDate), (UpdPhase::Idle, UpdAction::WaitLong));
    // no internet: back to idle, try again soon, the game is not held
    assert_eq!(updater_step(UpdPhase::Checking, UpdEvent::CheckFailed), (UpdPhase::Idle, UpdAction::WaitShort));
    assert_eq!(
        updater_step(UpdPhase::Available, UpdEvent::StartDownload { known: true }),
        (UpdPhase::Downloading, UpdAction::Download)
    );
    assert_eq!(
        updater_step(UpdPhase::Available, UpdEvent::StartDownload { known: false }),
        (UpdPhase::Available, UpdAction::Nothing)
    );
    assert_eq!(updater_step(UpdPhase::Downloading, UpdEvent::Downloaded), (UpdPhase::Installing, UpdAction::Install));
    assert_eq!(updater_step(UpdPhase::Downloading, UpdEvent::Failed), (UpdPhase::Error, UpdAction::Nothing));
    assert_eq!(
        updater_step(UpdPhase::Error, UpdEvent::Retry { downloaded: true, known: true }),
        (UpdPhase::Installing, UpdAction::Install)
    );
    assert_eq!(
        updater_step(UpdPhase::Error, UpdEvent::Retry { downloaded: false, known: true }),
        (UpdPhase::Downloading, UpdAction::Download)
    );
    assert_eq!(
        updater_step(UpdPhase::Error, UpdEvent::Retry { downloaded: false, known: false }),
        (UpdPhase::Error, UpdAction::Nothing)
    );
}

#[test]
fn a_later_move_of_the_same_name_is_the_one_played() {
    let mv = |name: &str, frames: u32| LvmMove { name: name.as_bytes().to_vec(), frames, fps: 0, data: vec![] };
    let m = Lvm { vertices: vec![], tris: vec![], joints: 0, moves: vec![mv("Idle", 1), mv("Walk", 2), mv("Idle", 3)] };
    assert_eq!(find_move(&m, b"Idle"), Some(2));
    assert_eq!(m.moves[find_move(&m, b"Idle").unwrap()].frames, 3);
    assert_eq!(find_move(&m, b"Walk"), Some(1));
    assert_eq!(find_move(&m, b"Wave"), None);
}

#[test]
fn the_trade_and_sell_labels_of_a_pet_agree() {
    let pets = pets();
    let muts = mutations();
    for (i, name) in pets.iter().enumerate() {
        for (m, label) in &muts {
            let key = format!("{}_{}", i, m);
            assert_eq!(pet_key_label(&key, &pets, &muts), sell_pet_label(label, name));
        }
    }
}
