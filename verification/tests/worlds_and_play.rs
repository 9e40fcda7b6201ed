use lucky_verities::ui::{dismiss_key, field_key, sell_key, FieldKey, SellKey};
use lucky_verities::ui::{wheel_target, WheelContext, WheelTarget};
use lucky_verities::faces::{world_faces, BlockFace, Glow};
use lucky_verities::play::{catch_decision, level_up_news, Catch, LevelNews};
use indexmap::IndexMap;
use lucky_verities::counts::{wallet_snapshot, wallet_tasks, WalletTasks};
use lucky_verities::counts::{checked_add_to, checked_apply_accepted_trade, checked_apply_receipt};
use lucky_verities::play::category_stats;
use lucky_verities::ui::{close_overlays, toggle_page, Page};
use lucky_verities::ui::lb_fetch_needed;
use lucky_verities::counts::{avatar_choice, bag_entries};
use lucky_verities::ui::{title_dropped, title_push_needed, TitleUnlock};
use lucky_verities::counts::{
    add_to, apply_accepted_trade, apply_receipt, avatar_options, missing_for_trade, my_owned_for_trade, set_trade_offer_qty,
    tally_trait_rolls, MAX_TRADE_QTY,
};
use lucky_verities::play::{
    best_roll, explore_key, new_best_trait, rain_pets, retarget_after_remove, sell_amount, trait_toast_count, travel_decision,
    ExploreKey, ExploreOverlay, Travel,
};
use lucky_verities::ui::{
    confirm_click, cycle_inv_sort, cycle_theme_mode, escape_action, friend_relation, is_fullscreen_toggle, my_top_rank,
    overlay_to_close, request_delete, shortcut, show_bag_potions, step_inv_mut, step_inv_tier, toggle_bag_view, tutorial_back,
    tutorial_key, tutorial_next, Click, EscapeAction, Key, OpenOverlays, Overlay, Relation, Screen, Shortcut, TUTORIAL_STEPS,
};
use lucky_verities::walk::{can_go, ground, reach_from_spawn, walkable};
use lucky_verities::world::{col, step_ok, tex_of, tower, Blocks, B, H, N};

/// A world of flat grass, `h` blocks high, with a lake of water in one corner.
fn flat_world(h: i64) -> Blocks {
    let mut bl = Blocks::new();
    for x in 0..N {
        for z in 0..N {
            bl.fill(x, z, 0, h - 1, B::Dirt);
            bl.set(x, h - 1, z, if x < 10 && z < 10 { B::Water } else { B::Grass });
        }
    }
    bl
}

#[test]
fn flat_world_has_room_to_walk() {
    let bl = flat_world(5);
    let (top, reach) = walkable(&bl);
    let reachable = reach.iter().filter(|r| **r).count();
    assert_eq!(reachable, (N * N - 100) as usize);
    assert!(reach[col(N / 2, N / 2)]);
    assert!(!reach[col(3, 3)]); // the lake
    assert_eq!(top[col(0, 0)], 5);
    assert_eq!(ground(&top, 0, 0), 5);
    assert_eq!(ground(&top, -1, 0), 0);
    assert_eq!(ground(&top, 3, N), 0);
    let (empty_top, _) = walkable(&Blocks::new());
    assert_eq!(ground(&empty_top, 3, 3), 0);
}

#[test]
fn walls_keep_steve_in() {
    let mut bl = flat_world(5);
    // a ring of stone 3 high around the spawn, too high to climb
    for x in 20..37 {
        for z in [20, 36] {
            bl.fill(x, z, 5, 8, B::Stone);
            bl.fill(z, x, 5, 8, B::Stone);
        }
    }
    let (top, reach) = walkable(&bl);
    let inside = reach.iter().filter(|r| **r).count();
    assert_eq!(inside, 15 * 15);
    assert!(!reach[col(10, 30)]);
    assert!(reach[col(21, 21)]);
    assert!(can_go(&top, &reach, (21, 21), (22, 21)));
    assert!(!can_go(&top, &reach, (21, 21), (20, 21)));
    assert!(!can_go(&top, &reach, (21, 21), (-1, 21)));
    assert!(can_go(&top, &reach, (21, 21), (21, 21)));
}

#[test]
fn nothing_is_reached_without_ground_at_the_spawn() {
    let bl = Blocks::new();
    let (top, reach) = walkable(&bl);
    assert!(top.iter().all(|t| *t == -1));
    assert!(reach.iter().all(|r| !*r));
    let ok = vec![true; (N * N) as usize];
    let flat = vec![3i64; (N * N) as usize];
    let reach = reach_from_spawn(&flat, &ok);
    assert!(reach.iter().all(|r| *r));
}

#[test]
fn blocks_and_columns() {
    let mut bl = Blocks::new();
    bl.set(3, 4, 5, B::Gold);
    assert_eq!(bl.get(3, 4, 5), B::Gold);
    assert_eq!(bl.get(-1, 4, 5), B::Air);
    bl.set(3, H, 5, B::Gold); // outside: nothing happens
    assert_eq!(bl.height(3, 5), 5);
    assert_eq!(bl.height(4, 5), -1);
    bl.fill(0, 0, 2, 6, B::Stone);
    assert_eq!(bl.height(0, 0), 6);
    assert_eq!(bl.get(0, 1, 0), B::Air);
    assert_eq!(col(3, 2), (2 * N + 3) as usize);
    assert!(B::Leaves.clear() && !B::Stone.clear());
    assert!(B::Lava.blocks_walk() && !B::Grass.blocks_walk());
}

#[test]
fn towers_have_pillars_at_the_corners() {
    let mut bl = Blocks::new();
    tower(&mut bl, 10, 10, 4, 2, 5, B::Purpur, B::PurpurPillar);
    assert_eq!(bl.get(10, 2, 10), B::PurpurPillar);
    assert_eq!(bl.get(13, 4, 13), B::PurpurPillar);
    assert_eq!(bl.get(11, 3, 10), B::Purpur);
    assert_eq!(bl.get(11, 5, 10), B::Air);
    assert_eq!(bl.get(14, 3, 10), B::Air);
    assert_eq!(bl.height(12, 12), 5);
}

#[test]
fn steps_and_textures() {
    assert!(step_ok(3, 4));
    assert!(!step_ok(3, 5));
    assert!(step_ok(6, 3));
    assert!(!step_ok(7, 3));
    assert!(!step_ok(1, 0));
    assert_eq!(tex_of(B::Grass, 1), 0);
    assert_eq!(tex_of(B::Grass, 0), 1);
    assert_eq!(tex_of(B::Log, 1), 23);
    assert_eq!(tex_of(B::PurpurPillar, 1), 15);
    assert_eq!(tex_of(B::Flower, 0), 1);
    assert_eq!(tex_of(B::Chorus, 0), 25);
}

#[test]
fn best_of_a_batch_of_rolls() {
    let order = vec![4, 1, 3, 0];
    assert_eq!(best_roll(&order, &vec![4, 1, 1]), 1);
    assert_eq!(best_roll(&order, &vec![3, 0, 4]), 0);
    assert_eq!(best_roll(&order, &vec![9]), -1);
    assert_eq!(best_roll(&order, &vec![]), -1);
}

#[test]
fn the_auto_trait_rollers_message() {
    assert_eq!(new_best_trait(&vec![1, 2], &vec![1, 2, 5, 3], Some(4)), Some((5, true)));
    assert_eq!(new_best_trait(&vec![1, 2], &vec![1, 2, 3], Some(4)), Some((3, false)));
    assert_eq!(new_best_trait(&vec![1], &vec![1, 0], None), Some((0, true)));
    assert_eq!(new_best_trait(&vec![1, 2], &vec![2, 1], None), None);
    assert_eq!(trait_toast_count(true, 3, 2, true), Some(5));
    assert_eq!(trait_toast_count(false, 3, 2, true), Some(2));
    assert_eq!(trait_toast_count(true, 3, 2, false), None);
    assert_eq!(trait_toast_count(true, 3, 0, true), None);
}

#[test]
fn verities_raining_behind_the_rolls() {
    assert_eq!(rain_pets(&vec![3, 1, 3], &vec![("5_normal".to_string(), 1)], 10), vec![3, 1]);
    let owned = vec![
        ("2_golden".to_string(), 1),
        ("2_normal".to_string(), 4),
        ("7_normal".to_string(), 0),
        ("11_normal".to_string(), 1),
        ("bad".to_string(), 1),
        ("4_rainbow".to_string(), 2),
    ];
    assert_eq!(rain_pets(&vec![], &owned, 10), vec![2, 4]);
    let lots: Vec<(String, i64)> = (0..30).map(|i| (format!("{}_normal", i), 1)).collect();
    assert_eq!(rain_pets(&vec![], &lots, 100), (0..20).collect::<Vec<usize>>());
}

#[test]
fn how_many_pets_are_sold() {
    assert_eq!(sell_amount(12, true, "3"), 12);
    assert_eq!(sell_amount(12, false, " 3 "), 3);
    assert_eq!(sell_amount(12, false, "50"), 12);
    assert_eq!(sell_amount(12, false, ""), 0);
    assert_eq!(sell_amount(12, false, "99999999999999999999"), 12);
    assert_eq!(sell_amount(12, false, "-4"), -4);
}

#[test]
fn explore_keys_and_travel() {
    assert_eq!(explore_key(false, false, ExploreOverlay::Closed, Key::E), (ExploreKey::NotUsed, ExploreOverlay::Closed));
    assert_eq!(explore_key(true, false, ExploreOverlay::Closed, Key::E), (ExploreKey::CatchNearest, ExploreOverlay::Closed));
    assert_eq!(explore_key(true, false, ExploreOverlay::Pets, Key::Escape), (ExploreKey::Used, ExploreOverlay::Closed));
    assert_eq!(explore_key(true, false, ExploreOverlay::Closed, Key::Escape), (ExploreKey::Close, ExploreOverlay::Closed));
    assert_eq!(explore_key(true, false, ExploreOverlay::Pets, Key::C), (ExploreKey::Used, ExploreOverlay::Wardrobe));
    assert_eq!(explore_key(true, false, ExploreOverlay::Pets, Key::P), (ExploreKey::Used, ExploreOverlay::Closed));
    assert_eq!(explore_key(true, true, ExploreOverlay::Pets, Key::P), (ExploreKey::Used, ExploreOverlay::Pets));
    assert_eq!(explore_key(true, true, ExploreOverlay::Pets, Key::Escape), (ExploreKey::CloseIndex, ExploreOverlay::Pets));
    assert_eq!(travel_decision(2, 2, false, true), Travel::Ignore);
    assert_eq!(travel_decision(3, 2, true, true), Travel::Ignore);
    assert_eq!(travel_decision(3, 2, false, false), Travel::Locked);
    assert_eq!(travel_decision(3, 2, false, true), Travel::Start);
    assert_eq!(retarget_after_remove(Some(4), 2), Some(3));
    assert_eq!(retarget_after_remove(Some(1), 2), Some(1));
    assert_eq!(retarget_after_remove(Some(2), 2), None);
    assert_eq!(retarget_after_remove(None, 0), None);
}

fn all_closed(screen: Screen) -> OpenOverlays {
    OpenOverlays {
        screen,
        sell: false,
        evolve: false,
        admin_menu: false,
        ban_admin: false,
        event_admin: false,
        friends: false,
        feedback: false,
        leaderboard: false,
        options: false,
        stats: false,
        credits: false,
        update_log: false,
        traits: false,
        index: false,
        shop: false,
        rebirth: false,
        rebirth_confirm: false,
        bag: false,
        right_panel: false,
    }
}

#[test]
fn what_closes_first() {
    let mut o = all_closed(Screen::Game);
    assert_eq!(overlay_to_close(&o), None);
    o.bag = true;
    o.sell = true;
    assert_eq!(overlay_to_close(&o), Some(Overlay::Sell));
    // the Sell page takes Escape itself, before this chain
    assert_eq!(escape_action(&o), EscapeAction::Close(Overlay::Bag));
    o.shop = true;
    assert_eq!(escape_action(&o), EscapeAction::Close(Overlay::Shop));
    let mut t = all_closed(Screen::Title);
    t.bag = true;
    assert_eq!(escape_action(&t), EscapeAction::Nothing);
    t.options = true;
    assert_eq!(escape_action(&t), EscapeAction::Close(Overlay::Options));
    assert_eq!(escape_action(&all_closed(Screen::Saves)), EscapeAction::BackToTitle);
    assert_eq!(escape_action(&all_closed(Screen::Account)), EscapeAction::CloseAccount);
}

#[test]
fn keyboard_shortcuts() {
    assert_eq!(shortcut(Key::U, false), Some(Shortcut::Tree));
    assert_eq!(shortcut(Key::T, false), Some(Shortcut::Tree));
    assert_eq!(shortcut(Key::B, false), Some(Shortcut::Bag));
    assert_eq!(shortcut(Key::B, true), None);
    assert_eq!(shortcut(Key::Space, false), None);
    assert!(is_fullscreen_toggle(Key::F11, false));
    assert!(is_fullscreen_toggle(Key::F, true));
    assert!(!is_fullscreen_toggle(Key::F, false));
}

#[test]
fn the_tutorial_goes_forth_and_back() {
    assert_eq!(tutorial_next(Some(0)), (Some(1), false));
    assert_eq!(tutorial_next(Some(TUTORIAL_STEPS - 1)), (None, true));
    assert_eq!(tutorial_back(Some(0)), Some(0));
    assert_eq!(tutorial_back(Some(5)), Some(4));
    assert_eq!(tutorial_key(Some(3), Key::Escape), (None, true, true));
    assert_eq!(tutorial_key(Some(3), Key::Right), (Some(4), false, true));
    assert_eq!(tutorial_key(Some(3), Key::Left), (Some(2), false, true));
    assert_eq!(tutorial_key(Some(3), Key::V), (Some(3), false, true));
    assert_eq!(tutorial_key(None, Key::Right), (None, false, false));
    let (s, _, _) = tutorial_key(Some(6), Key::Right);
    assert_eq!(tutorial_key(s, Key::Left).0, Some(6));
}

#[test]
fn bag_controls() {
    assert_eq!(cycle_inv_sort("money"), "rarity");
    assert_eq!(cycle_inv_sort("quantity"), "money");
    assert_eq!(cycle_inv_sort("???"), "rarity");
    assert_eq!(step_inv_mut("all", -1), "rainbow");
    assert_eq!(step_inv_mut("golden", 1), "diamond");
    assert_eq!(step_inv_mut(step_inv_mut("diamond", 3), -3), "diamond");
    assert_eq!(step_inv_tier(None, 1, 4), Some(0));
    assert_eq!(step_inv_tier(Some(3), 1, 4), None);
    assert_eq!(step_inv_tier(None, -1, 4), Some(3));
    assert_eq!(step_inv_tier(Some(9), 2, 4), Some(1));
    assert_eq!(toggle_bag_view("inventory"), "equipped");
    assert_eq!(toggle_bag_view("potions"), "inventory");
    assert_eq!(show_bag_potions("potions"), "equipped");
    assert_eq!(show_bag_potions("inventory"), "potions");
}

#[test]
fn are_you_sure_buttons() {
    assert_eq!(confirm_click(false, true), Click::Ignored);
    assert_eq!(confirm_click(true, false), Click::AskConfirm);
    assert_eq!(confirm_click(true, true), Click::Go);
    assert_eq!(request_delete(2, None), (false, Some(2)));
    assert_eq!(request_delete(2, Some(1)), (false, Some(2)));
    assert_eq!(request_delete(2, Some(2)), (true, None));
    let modes = vec!["system", "dark", "light"];
    assert_eq!(cycle_theme_mode(&modes, "dark"), "light");
    assert_eq!(cycle_theme_mode(&modes, "light"), "system");
    assert_eq!(cycle_theme_mode(&modes, "sepia"), "system");
}

#[test]
fn friends_and_the_leaderboard() {
    let friends = vec!["a".to_string()];
    let outgoing = vec!["b".to_string()];
    let incoming = vec!["c".to_string(), "a".to_string()];
    assert_eq!(friend_relation("a", &friends, &outgoing, &incoming), Some(Relation::Friend));
    assert_eq!(friend_relation("b", &friends, &outgoing, &incoming), Some(Relation::Sent));
    assert_eq!(friend_relation("c", &friends, &outgoing, &incoming), Some(Relation::Incoming));
    assert_eq!(friend_relation("d", &friends, &outgoing, &incoming), None);
    let tab1 = vec![Some("x".to_string()), Some("me".to_string())];
    let tab2 = vec![Some("me".to_string()), None];
    let tab3: Vec<Option<String>> = vec![];
    assert_eq!(my_top_rank("me", &vec![tab1.clone(), tab2, tab3]), Some(1));
    assert_eq!(my_top_rank("me", &vec![tab1]), Some(2));
    assert_eq!(my_top_rank("zz", &vec![]), None);
}

fn counts(pairs: &[(&str, i64)]) -> IndexMap<String, i64> {
    pairs.iter().map(|(k, v)| (k.to_string(), *v)).collect()
}

#[test]
fn a_trade_side_holds_three_kinds_at_most() {
    let mut side = IndexMap::new();
    set_trade_offer_qty(&mut side, "1_normal", 5, 3);
    assert_eq!(side, counts(&[("1_normal", 3)]));
    set_trade_offer_qty(&mut side, "2_normal", 2, 10);
    set_trade_offer_qty(&mut side, "3_golden", 1, 10);
    set_trade_offer_qty(&mut side, "4_golden", 1, 10);
    assert_eq!(side.len(), 3);
    assert!(!side.contains_key("4_golden"));
    set_trade_offer_qty(&mut side, "2_normal", 0, 10);
    assert_eq!(side, counts(&[("1_normal", 3), ("3_golden", 1)]));
    set_trade_offer_qty(&mut side, "4_golden", i64::MAX, i64::MAX);
    assert_eq!(side.get("4_golden"), Some(&MAX_TRADE_QTY));
    set_trade_offer_qty(&mut side, "1_normal", 7, 10);
    assert_eq!(side.get_index(0), Some((&"1_normal".to_string(), &7)));
    set_trade_offer_qty(&mut side, "3_golden", -5, 10);
    assert!(!side.contains_key("3_golden"));
}

#[test]
fn unsent_pets_are_kept_for_the_next_try() {
    let mut pending = counts(&[("1_normal", 2), ("2_golden", 1)]);
    add_to(&mut pending, &counts(&[("2_golden", 4), ("5_rainbow", 1)]));
    assert_eq!(pending, counts(&[("1_normal", 2), ("2_golden", 5), ("5_rainbow", 1)]));
    assert_eq!(pending.get_index(2), Some((&"5_rainbow".to_string(), &1)));
}

#[test]
fn a_receipt_gives_and_takes() {
    let mut owned = counts(&[("1_normal", 2), ("2_golden", 1)]);
    let give = vec![("3_normal".to_string(), 2), ("1_normal".to_string(), 0)];
    let take = vec![("2_golden".to_string(), 5), ("9_rainbow".to_string(), 1)];
    let gained = apply_receipt(&mut owned, &give, &take);
    assert_eq!(gained, vec!["3_normal".to_string()]);
    assert_eq!(owned, counts(&[("1_normal", 2), ("2_golden", 0), ("3_normal", 2), ("9_rainbow", 0)]));
}

#[test]
fn a_batch_of_trait_charges() {
    let t = tally_trait_rolls(&vec![Some(3), None, Some(1), Some(3), Some(3)]);
    let expected: IndexMap<usize, i64> = [(3, 3), (1, 1)].into_iter().collect();
    assert_eq!(t, expected);
    assert_eq!(t.get_index(0), Some((&3, &3)));
    assert!(tally_trait_rolls(&vec![None, None]).is_empty());
}

#[test]
fn trees_have_a_trunk_and_a_crown() {
    let mut bl = Blocks::new();
    bl.fill(20, 20, 0, 4, B::Dirt);
    // the lowest layer's -x -z corner and the top layer's +x +z corner stay bare
    let mut bare = vec![false; 16];
    bare[0] = true;
    bare[15] = true;
    lucky_verities::world::tree(&mut bl, 20, 20, 4, 4, &bare);
    for y in 4..8 {
        assert_eq!(bl.get(20, y, 20), B::Log);
    }
    assert_eq!(bl.get(20, 8, 20), B::Leaves); // over the trunk
    assert_eq!(bl.get(18, 6, 18), B::Air); // a bare corner
    assert_eq!(bl.get(22, 6, 22), B::Leaves);
    assert_eq!(bl.get(21, 9, 21), B::Air); // the other bare corner
    assert_eq!(bl.get(19, 9, 19), B::Leaves);
    assert_eq!(bl.get(22, 8, 20), B::Air); // the top layers reach 1 block
    assert_eq!(bl.get(22, 7, 20), B::Leaves);
    assert_eq!(bl.get(20, 10, 20), B::Air);
    assert_eq!(bl.height(20, 20), 10);
}

#[test]
fn catching_and_levelling_up() {
    assert_eq!(catch_decision(30, 30, true, false, true), Catch::Full);
    assert_eq!(catch_decision(3, 30, false, false, true), Catch::Nothing);
    assert_eq!(catch_decision(3, 30, true, true, true), Catch::Nothing);
    assert_eq!(catch_decision(3, 30, true, false, false), Catch::CatchNow);
    assert_eq!(catch_decision(3, 30, true, false, true), Catch::Battle);
    let worlds = vec![1, 5, 10, 15, 20];
    let clothes = vec![2, 3, 10];
    assert_eq!(level_up_news(10, &worlds, &clothes), LevelNews::WorldOpens(2));
    assert_eq!(level_up_news(3, &worlds, &clothes), LevelNews::NewClothes);
    assert_eq!(level_up_news(4, &worlds, &clothes), LevelNews::Plain);
}

#[test]
fn what_you_have_to_trade_by_rarity() {
    let owned = counts(&[("1_normal", 2), ("3_golden", 1), ("3_normal", 0), ("12_diamond", 4)]);
    let order = vec![12, 3, 1];
    let muts = vec!["normal", "golden", "diamond"];
    assert_eq!(
        my_owned_for_trade(&order, &muts, &owned),
        vec![("12_diamond".to_string(), 4), ("3_golden".to_string(), 1), ("1_normal".to_string(), 2)]
    );
    assert_eq!(
        avatar_options(&order, &muts, &owned),
        vec![(12, "diamond".to_string()), (3, "golden".to_string()), (1, "normal".to_string())]
    );
    assert_eq!(my_owned_for_trade(&vec![], &muts, &owned), vec![]);
}

#[test]
fn accepting_a_trade() {
    let mut owned = counts(&[("1_normal", 2), ("2_golden", 1)]);
    let request = vec![("1_normal".to_string(), 2), ("2_golden".to_string(), 3)];
    assert_eq!(missing_for_trade(&owned, &request), Some(1));
    let request = vec![("1_normal".to_string(), 2)];
    assert_eq!(missing_for_trade(&owned, &request), None);
    let offer = vec![("7_rainbow".to_string(), 1), ("2_golden".to_string(), 2)];
    let gained = apply_accepted_trade(&mut owned, &request, &offer);
    assert_eq!(gained, vec!["7_rainbow".to_string(), "2_golden".to_string()]);
    assert_eq!(owned, counts(&[("1_normal", 0), ("2_golden", 3), ("7_rainbow", 1)]));
}

#[test]
fn faces_show_where_blocks_meet_the_open() {
    let mut bl = Blocks::new();
    bl.set(5, 0, 5, B::Stone);
    bl.set(6, 0, 5, B::Stone);
    let (faces, glow) = world_faces(&bl);
    // two stones side by side: 2 tops and 3 sides each; not the sides they share
    assert_eq!(faces.len(), 8);
    assert_eq!(faces[0], BlockFace { x: 5, y: 0, z: 5, side: 0, tex: 3, leafy: false });
    assert!(!faces.iter().any(|f| f.x == 5 && f.side == 1));
    assert!(glow.is_empty());
    let mut bl = Blocks::new();
    bl.set(1, 1, 1, B::Water);
    bl.set(2, 1, 1, B::Water);
    bl.set(1, 2, 1, B::Leaves);
    bl.set(2, 2, 1, B::Leaves);
    bl.set(9, 1, 9, B::Glowstone);
    bl.set(0, 1, 0, B::Lava);
    bl.set(3, 1, 0, B::Lava);
    let (faces, glow) = world_faces(&bl);
    // water meets water: no face between them; leaves meet leaves: both faces show
    assert!(!faces.iter().any(|f| (f.x, f.y, f.side) == (1, 1, 1)));
    assert!(faces.iter().any(|f| (f.x, f.y, f.side) == (1, 2, 1) && f.leafy));
    // leaves can be seen through: the water's top face under them shows
    assert!(faces.iter().any(|f| (f.x, f.y, f.side) == (1, 1, 0) && f.tex == 6));
    // lava lights only every third block ((x + z) % 3 == 0)
    assert_eq!(
        glow,
        vec![
            Glow { x: 0, y: 1, z: 0, block: B::Lava },
            Glow { x: 3, y: 1, z: 0, block: B::Lava },
            Glow { x: 9, y: 1, z: 9, block: B::Glowstone },
        ]
    );
}

fn nothing_open() -> WheelContext {
    WheelContext {
        ban_screen: false,
        admin_menu: false,
        ban_admin: false,
        feedback: false,
        friends: false,
        chat: false,
        friends_popup: false,
        update_log: false,
        game_screen: true,
        options: false,
        stats: false,
        sell: false,
        evolve: false,
        tutorial: false,
        whats_new: false,
        battle: false,
        leaderboard: false,
        credits: false,
        update_modal: false,
        cutscene: false,
        shop: false,
        index: false,
        traits: false,
        rebirth: false,
        right_panel: false,
        left_panel: false,
        over_ban_list: false,
        over_feedback_list: false,
        over_chat_list: false,
        over_friends_list: false,
        over_update_log_list: false,
        over_shop_list: false,
        over_index_list: false,
        over_traits_list: false,
        over_rebirth_list: false,
        over_right_panel: false,
        over_left_panel: false,
    }
}

#[test]
fn the_mouse_wheel_scrolls_the_top_page() {
    let mut c = nothing_open();
    assert_eq!(wheel_target(&c), None);
    c.right_panel = true;
    c.over_right_panel = true;
    assert_eq!(wheel_target(&c), Some(WheelTarget::RightPanel));
    c.shop = true;
    assert_eq!(wheel_target(&c), None); // the Shop is on top and the mouse isn't over its list
    c.over_shop_list = true;
    assert_eq!(wheel_target(&c), Some(WheelTarget::Shop));
    c.options = true;
    assert_eq!(wheel_target(&c), None);
    c.friends = true;
    c.friends_popup = true;
    assert_eq!(wheel_target(&c), Some(WheelTarget::Friends));
    c.chat = true;
    assert_eq!(wheel_target(&c), None);
    c.over_chat_list = true;
    assert_eq!(wheel_target(&c), Some(WheelTarget::Chat));
    c.admin_menu = true;
    assert_eq!(wheel_target(&c), None);
}

#[test]
fn pop_ups_and_the_sell_page_take_keys() {
    assert_eq!(dismiss_key(false, Key::Escape), (false, false));
    assert_eq!(dismiss_key(true, Key::Space), (true, true));
    assert_eq!(dismiss_key(true, Key::E), (true, false));
    assert_eq!(sell_key(false, true, Key::Escape, false), SellKey::NotUsed);
    assert_eq!(sell_key(true, false, Key::Escape, false), SellKey::Close);
    assert_eq!(sell_key(true, false, Key::KpEnter, false), SellKey::Press);
    assert_eq!(sell_key(true, false, Key::V, true), SellKey::NotUsed);
    assert_eq!(sell_key(true, true, Key::V, true), SellKey::Paste);
    assert_eq!(sell_key(true, true, Key::V, false), SellKey::Edit);
    assert_eq!(field_key(true, false, Key::Return), FieldKey::NotUsed);
    assert_eq!(field_key(true, true, Key::Return), FieldKey::Submit);
    assert_eq!(field_key(true, true, Key::B), FieldKey::Edit);
}

#[test]
fn the_online_wallet_shows_what_you_have() {
    let owned = counts(&[("3_normal", 2), ("5_golden", 0), ("1_diamond", 7), ("2_normal", -1)]);
    assert_eq!(
        wallet_snapshot(&owned),
        vec![("3_normal".to_string(), 2), ("1_diamond".to_string(), 7)]
    );
    assert_eq!(wallet_snapshot(&counts(&[])), vec![]);
    let none = WalletTasks { sync_all: false, flush: false, check_incoming: false };
    // offline: nothing
    assert_eq!(wallet_tasks(false, false, false, true, true, false, true), none);
    // a save not synced yet: the whole wallet first, and nothing else
    assert_eq!(
        wallet_tasks(true, false, false, true, true, false, true),
        WalletTasks { sync_all: true, flush: false, check_incoming: false }
    );
    // synced: pending pets go when due, incoming trades are looked for when due
    assert_eq!(
        wallet_tasks(true, false, true, true, true, false, true),
        WalletTasks { sync_all: false, flush: true, check_incoming: true }
    );
    // one send at a time
    assert_eq!(
        wallet_tasks(true, true, false, true, true, false, false),
        none
    );
    assert_eq!(
        wallet_tasks(true, false, true, false, true, true, true),
        none
    );
}

#[test]
fn titles_are_dropped_and_published() {
    // Top 1/2/3: only decided once the leaderboard and the account are known
    assert!(!title_dropped(TitleUnlock::TopRank, false, false, false, true, false));
    assert!(title_dropped(TitleUnlock::TopRank, false, false, true, true, false));
    assert!(!title_dropped(TitleUnlock::TopRank, false, false, true, true, true));
    // the admin's title: not while the check is on its way
    assert!(!title_dropped(TitleUnlock::Admin, true, true, true, true, false));
    assert!(title_dropped(TitleUnlock::Admin, true, false, false, false, false));
    assert!(title_dropped(TitleUnlock::Other, false, false, false, false, false));
    let pushed = Some(("uid1".to_string(), Some("top1".to_string())));
    assert!(!title_push_needed(false, "uid1", Some("top1"), &pushed));
    assert!(title_push_needed(false, "uid1", None, &pushed));
    assert!(title_push_needed(false, "uid2", Some("top1"), &pushed));
    assert!(!title_push_needed(true, "uid2", Some("top1"), &pushed));
    assert!(title_push_needed(false, "uid1", None, &None));
    assert!(!title_push_needed(false, "uid1", None, &Some(("uid1".to_string(), None))));
}

fn mutation_table() -> Vec<(String, String)> {
    vec![
        ("normal".to_string(), "normal".to_string()),
        ("golden".to_string(), "golden".to_string()),
        ("diamond".to_string(), "diamond".to_string()),
    ]
}

#[test]
fn what_the_bag_lists() {
    let owned = counts(&[
        ("0_normal", 3),
        ("2_golden", 1),
        ("1_golden", 0),
        ("9_normal", 4),
        ("1_rusty", 2),
        ("junk", 5),
        (" 1_diamond", 2),
    ]);
    let tiers = vec![1, 1, 2];
    let muts = mutation_table();
    assert_eq!(
        bag_entries(&owned, &tiers, &muts, "all", None),
        vec![(0, "normal".to_string()), (2, "golden".to_string()), (1, "diamond".to_string())]
    );
    assert_eq!(bag_entries(&owned, &tiers, &muts, "golden", None), vec![(2, "golden".to_string())]);
    assert_eq!(
        bag_entries(&owned, &tiers, &muts, "all", Some(1)),
        vec![(0, "normal".to_string()), (1, "diamond".to_string())]
    );
    assert_eq!(bag_entries(&owned, &tiers, &muts, "all", Some(7)), vec![]);
}

#[test]
fn picking_a_profile_photo() {
    let muts = mutation_table();
    assert_eq!(avatar_choice(2, "diamond", 3, &muts), Some((2, "diamond".to_string())));
    assert_eq!(avatar_choice(3, "diamond", 3, &muts), None);
    assert_eq!(avatar_choice(0, "rusty", 3, &muts), None);
}

#[test]
fn when_the_leaderboard_is_fetched() {
    // offline, or already fetching: never
    assert!(!lb_fetch_needed(false, false, true, false, false, false, false, false));
    assert!(!lb_fetch_needed(true, true, true, false, false, false, false, false));
    // the Refresh button
    assert!(lb_fetch_needed(true, false, true, true, false, false, false, true));
    // fresh data is used
    assert!(!lb_fetch_needed(true, false, false, true, true, false, false, false));
    // ... unless you published again after it was fetched
    assert!(lb_fetch_needed(true, false, false, true, true, true, true, false));
    assert!(!lb_fetch_needed(true, false, false, true, true, true, false, false));
    assert!(!lb_fetch_needed(true, false, false, true, false, true, true, false));
    // stale data, but waiting after a failure
    assert!(!lb_fetch_needed(true, false, false, false, true, false, false, true));
    assert!(lb_fetch_needed(true, false, false, false, true, false, false, false));
}

#[test]
fn side_buttons_open_one_page_at_a_time() {
    let mut o = all_closed(Screen::Game);
    o.bag = true;
    o.options = true;
    o.right_panel = true;
    o.rebirth_confirm = true;
    let t = toggle_page(&o, Page::Traits, false);
    let mut want = all_closed(Screen::Game);
    want.traits = true;
    assert_eq!(t, want);
    // the button again: only that page closes
    let mut back = t;
    back.stats = true;
    let mut want_back = back;
    want_back.traits = false;
    assert_eq!(toggle_page(&back, Page::Traits, false), want_back);
    // from Traits to the Shop: locked, nothing changes; unlocked, the Shop alone
    assert_eq!(toggle_page(&t, Page::Shop, false), t);
    let mut shop = all_closed(Screen::Game);
    shop.shop = true;
    assert_eq!(toggle_page(&t, Page::Shop, true), shop);
    // the Rebirth page's "Are you sure?" goes when the page closes
    let mut rb = all_closed(Screen::Game);
    rb.rebirth = true;
    rb.rebirth_confirm = true;
    assert_eq!(toggle_page(&rb, Page::Rebirth, false), all_closed(Screen::Game));
    // closing the pop-ups keeps the Bag and the right panel (and drops the "Are you sure?")
    let c = close_overlays(&o);
    let mut kept = all_closed(Screen::Game);
    kept.bag = true;
    kept.right_panel = true;
    assert_eq!(c, kept);
}

#[test]
fn an_upgrade_categorys_line() {
    assert_eq!(category_stats(&vec![(3, 10, true), (0, 5, false), (5, 5, true)]), (8, 20, 2));
    assert_eq!(category_stats(&vec![]), (0, 0, 0));
}

#[test]
fn checked_counts_refuse_what_does_not_fit() {
    let mut m = counts(&[("1_normal", 5), ("2_golden", i64::MAX - 1)]);
    assert!(checked_add_to(&mut m, &counts(&[("1_normal", 2), ("3_normal", 1)])));
    assert_eq!(m, counts(&[("1_normal", 7), ("2_golden", i64::MAX - 1), ("3_normal", 1)]));
    let before = m.clone();
    assert!(!checked_add_to(&mut m, &counts(&[("1_normal", 1), ("2_golden", 5)])));
    assert_eq!(m, before);
    let give = vec![("4_normal".to_string(), 2)];
    let take = vec![("1_normal".to_string(), 10)];
    assert_eq!(checked_apply_receipt(&mut m, &give, &take), Some(vec!["4_normal".to_string()]));
    assert_eq!(m, counts(&[("1_normal", 0), ("2_golden", i64::MAX - 1), ("3_normal", 1), ("4_normal", 2)]));
    let before = m.clone();
    let too_much = vec![("2_golden".to_string(), 2)];
    assert_eq!(checked_apply_receipt(&mut m, &too_much, &vec![]), None);
    assert_eq!(m, before);
    let request = vec![("3_normal".to_string(), 1)];
    let offer = vec![("5_diamond".to_string(), 1)];
    assert_eq!(checked_apply_accepted_trade(&mut m, &request, &offer), Some(vec!["5_diamond".to_string()]));
    assert_eq!(m.get("3_normal"), Some(&0));
    let before = m.clone();
    assert_eq!(checked_apply_accepted_trade(&mut m, &request, &too_much), None);
    assert_eq!(m, before);
}

#[test]
fn the_sell_page_never_sells_more_than_you_have() {
    assert_eq!(sell_amount(5, false, " 12 "), 5);
    assert_eq!(sell_amount(5, false, "3"), 3);
    assert_eq!(sell_amount(5, false, ""), 0);
    assert_eq!(sell_amount(5, false, "lots"), 5);
    assert_eq!(sell_amount(5, true, "1"), 5);
    // a negative number typed: a negative amount, which sells nothing
    assert_eq!(sell_amount(5, false, "-3"), -3);
}
