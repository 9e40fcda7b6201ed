use lucky_verities::city::{gen_emerald_city, Lot};
use lucky_verities::end::{gen_end, gen_end_city};
use lucky_verities::explore::{build_world, WorldNoise};
use lucky_verities::nether::{gen_nether, NetherCol};
use lucky_verities::overworld::{gen_overworld, OverworldCol};
use lucky_verities::world::{col, Blocks, B, N};
use lucky_verities::worldgen::{chorus, island, ChorusSpot};

const C: i64 = N / 2;

fn overworld_noise() -> Vec<OverworldCol> {
    let mut v = Vec::new();
    for i in 0..(N * N) {
        let (x, z) = (i % N, i / N);
        v.push(OverworldCol {
            h: if x < 5 && z < 6 { 3 } else if x == 5 && z < 6 { 4 } else { 5 + (x + z) % 2 },
            dip: x == 5,
            sandy: false,
            flower: (x * 7 + z) % 11 == 0,
            tree: (x * 13 + z * 7) % 97 == 0,
            tree_tall: 4,
            bare: vec![false; 16],
        });
    }
    v
}

fn nether_noise() -> Vec<NetherCol> {
    (0..N * N)
        .map(|i| {
            let (x, z) = (i % N, i / N);
            NetherCol {
                h: if x > 48 && z > 48 { 4 } else { 6 + x % 2 },
                soul: (x + z) % 5 == 0,
                glow: (x * z) % 29 == 1,
                spike: (x * z) % 31 == 2,
                spike_tall: 5,
                wall: (x + z) % 2 == 0,
                wall_tall: 3,
            }
        })
        .collect()
}

fn island_cols(cx: i64, cz: i64, r2: i64, lo: i64, hi: i64) -> Vec<Option<(i64, i64)>> {
    (0..N * N)
        .map(|i| {
            let (x, z) = (i % N, i / N);
            if (x - cx) * (x - cx) + (z - cz) * (z - cz) <= r2 { Some((lo, hi)) } else { None }
        })
        .collect()
}

fn spots() -> Vec<ChorusSpot> {
    (0..N * N).map(|i| ChorusSpot { grows: i % 53 == 0, tall: 3, along_x: i % 2 == 0 }).collect()
}

fn pillars() -> Vec<(i64, i64, i64)> {
    (0..7)
        .map(|i| {
            let a = i as f64 / 7.0 * std::f64::consts::TAU + 0.3;
            (C + (a.cos() * 14.0) as i64, C + (a.sin() * 14.0) as i64, 9 + i as i64)
        })
        .collect()
}

fn lots() -> Vec<Lot> {
    (0..36).map(|k| Lot { building: k % 3 != 0, width: 5 + (k % 3) as i64, tall: 5 + (k % 10) as i64, bare: vec![k % 2 == 0; 16] }).collect()
}

fn all_noise() -> Vec<WorldNoise> {
    vec![
        WorldNoise::Overworld { cols: overworld_noise() },
        WorldNoise::Nether { cols: nether_noise() },
        WorldNoise::End {
            main: island_cols(C, C, 23 * 23, 1, 5),
            pillars: pillars(),
            small: vec![island_cols(6, 8, 16, 1, 3), island_cols(49, 12, 12, 1, 3), island_cols(8, 47, 9, 1, 3), island_cols(48, 46, 20, 1, 3)],
            spots: spots(),
        },
        WorldNoise::EndCity { main: island_cols(C, C, 26 * 26, 1, 5), spots: spots() },
        WorldNoise::EmeraldCity { flowers: (0..N * N).map(|i| i % 13 == 0).collect(), lots: lots() },
    ]
}

#[test]
fn worlds_have_room_to_walk() {
    for (i, noise) in all_noise().iter().enumerate() {
        let w = build_world(noise);
        let reachable = w.reach.iter().filter(|r| **r).count();
        assert!(reachable > 400, "{}: only {} columns to walk on", i, reachable);
        assert!(w.reach[col(N / 2, N / 2)]);
        assert!(!w.faces.is_empty());
    }
}

#[test]
fn the_emerald_city_has_roads_parks_and_a_plaza() {
    let mut bl = Blocks::new();
    let flowers: Vec<bool> = (0..N * N).map(|i| i == col(31, 31) as i64).collect();
    gen_emerald_city(&mut bl, &flowers, &lots());
    assert_eq!(bl.get(C, 3, C), B::Quartz); // a road through the middle
    assert_eq!(bl.get(31, 3, 31), B::Flower);
    assert_eq!(bl.get(32, 3, 32), B::Grass);
    assert_eq!(bl.get(10, 0, 10), B::Stone);
    // the plaza's monument, with its light on top
    assert_eq!(bl.get(C, 11, C - 5), B::Glowstone);
    assert_eq!(bl.get(C - 1, 6, C - 6), B::Gold);
    assert_eq!(bl.get(C, 6, C - 5), B::Quartz);
    // the fountain
    assert_eq!(bl.get(C - 7, 3, C + 3), B::Water);
    // lamps at the crossings, none in the middle
    assert_eq!(bl.get(4, 6, 4), B::Glowstone);
    assert_eq!(bl.get(4, 4, 4), B::Gold);
    assert_eq!(bl.get(C, 6, C), B::Air);
    // lot 0 (corner -5, -5) is a park: a pond and a tree
    assert_eq!(bl.get(1, 3, 1), B::Water);
    assert_eq!(bl.get(-4, 4, -4), B::Air); // outside the world
    // lot 1 (corner -5, 7) is a building 6 wide: x0 = -5 + 1 = -4 (cut by the edge), z0 = 8
    assert_eq!(bl.get(1, 4, 10), B::Quartz);
    assert_eq!(bl.get(1, 5, 10), B::Emerald);
    assert_eq!(bl.get(1, 5, 8), B::Gold); // a corner pillar
}

#[test]
fn islands_pillars_and_chorus() {
    let mut bl = Blocks::new();
    island(&mut bl, &island_cols(C, C, 4, 2, 5));
    assert_eq!(bl.get(C, 4, C), B::EndStone);
    assert_eq!(bl.get(C, 1, C), B::Air);
    assert_eq!(bl.get(C + 3, 4, C), B::Air);
    let mut sp: Vec<ChorusSpot> = (0..N * N).map(|_| ChorusSpot { grows: false, tall: 2, along_x: true }).collect();
    sp[col(C + 2, C) as usize].grows = true;
    sp[col(C, C) as usize].grows = true; // too near the middle
    chorus(&mut bl, &sp, 10, 4);
    assert_eq!(bl.get(C + 2, 5, C), B::Chorus);
    assert_eq!(bl.get(C + 2, 6, C), B::Chorus);
    assert_eq!(bl.get(C + 3, 6, C), B::Chorus);
    assert_eq!(bl.get(C + 1, 5, C), B::Chorus);
    assert_eq!(bl.get(C, 5, C), B::Air);
    let mut end = Blocks::new();
    gen_end(&mut end, &island_cols(C, C, 23 * 23, 1, 5), &pillars(), &vec![], &spots());
    let (px, pz, tall) = pillars()[0];
    assert_eq!(end.get(px, 5 + tall, pz), B::Crystal);
    assert_eq!(end.get(px + 1, 0, pz - 1), B::Obsidian);
    let mut city = Blocks::new();
    gen_end_city(&mut city, &island_cols(C, C, 26 * 26, 1, 5), &spots());
    assert_eq!(city.get(C + 10, 4, C), B::Purpur); // a path
    assert_eq!(city.get(C - 16, 0, C - 14), B::PurpurPillar); // a tower's corner
    assert_eq!(city.get(C - 17, 5 + 11 + 3, C - 15), B::EndRod);
}

#[test]
fn nether_and_overworld_ground() {
    let mut bl = Blocks::new();
    gen_nether(&mut bl, &nether_noise());
    assert_eq!(bl.get(53, 4, 53), B::Lava); // a hollow fills with lava
    assert_eq!(bl.get(C, 5, C), B::Netherrack); // the middle is flattened to 6
    assert_eq!(bl.get(40, 5, 30), B::SoulSand);
    let mut ow = Blocks::new();
    gen_overworld(&mut ow, &overworld_noise());
    assert_eq!(ow.get(2, 3, 2), B::Water); // a lake
    assert_eq!(ow.get(2, 2, 2), B::Sand);
    assert_eq!(ow.get(5, 4, 2), B::Air); // the shore dips
    assert_eq!(ow.get(5, 3, 2), B::Sand);
    assert_eq!(ow.get(C + 10, 0, C + 10), B::Stone);
    assert_eq!(ow.get(C + 10, 4, C + 1), B::Dirt);
    assert_eq!(ow.get(C + 3, 4, C - 1), B::Path); // the trail
}

#[test]
fn the_overworld_spawn_is_flat_and_the_trail_has_no_grass() {
    let mut ow = Blocks::new();
    gen_overworld(&mut ow, &overworld_noise());
    for x in C - 3..=C + 3 {
        for z in C - 3..=C + 3 {
            if (x - C) * (x - C) + (z - C) * (z - C) <= 9 {
                assert_eq!(ow.height(x, z), 5);
                assert!(matches!(ow.get(x, 4, z), B::Grass | B::Flower | B::Sand | B::Path));
            }
        }
    }
    for x in 0..N {
        for z in [C - 1, C] {
            let h = ow.height(x, z);
            assert!(h > 0);
            assert!(!matches!(ow.get(x, h - 1, z), B::Grass | B::Flower));
        }
    }
}
