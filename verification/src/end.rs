//! The End and the End City: islands of end stone in the void, obsidian pillars with crystals on them, purpur
//! paths and towers, chorus plants. The noise that shapes the islands, places the pillars and the plants is given
//! as plain values.
use vstd::prelude::*;
use crate::world::{B, Blocks, N, H, tower};
use crate::worldgen::{
    world_of, with_tower, with_block, with_island, with_chorus, height_of, lemma_height_of, island, chorus, ChorusSpot, mid,
    lemma_grid_index,
};

verus! {

/// The larger of two numbers.
pub open spec fn at_least(a: int, b: int) -> int {
    if a > b { a } else { b }
}

/// An obsidian pillar (its column (x, z) and height above the ground there, at least 4): 3 x 3 columns of
/// obsidian from the bottom, a crystal on top.
pub open spec fn with_pillar(w: spec_fn(int, int, int) -> B, p: (i64, i64, i64)) -> spec_fn(int, int, int) -> B {
    let top = at_least(height_of(w, p.0 as int, p.1 as int), 4) + p.2;
    with_block(with_tower(w, p.0 - 1, p.1 - 1, 3, 0, top, B::Obsidian, B::Obsidian), p.0 as int, top, p.1 as int, B::Crystal)
}

/// A pillar as it is put: the 3 x 3 columns round (x, z) are obsidian from the bottom up to its top (its height
/// over the ground there, the ground counted as at least 4), and an end crystal sits on the middle one; nothing
/// else changes.
pub proof fn law_pillar_shape(w: spec_fn(int, int, int) -> B, p: (i64, i64, i64), x: int, y: int, z: int)
    ensures
        ({
            let g = height_of(w, p.0 as int, p.1 as int);
            let top = (if g > 4 { g } else { 4 }) + p.2;
            let inside = 0 <= x < N && 0 <= z < N && 0 <= y < H;
            let r = with_pillar(w, p)(x, y, z);
            &&& inside && x == p.0 && z == p.1 && y == top ==> r == B::Crystal
            &&& inside && p.0 - 1 <= x <= p.0 + 1 && p.1 - 1 <= z <= p.1 + 1 && 0 <= y < top && !(x == p.0 && z == p.1 && y == top)
                ==> r == B::Obsidian
            &&& !(inside && p.0 - 1 <= x <= p.0 + 1 && p.1 - 1 <= z <= p.1 + 1 && 0 <= y <= top) ==> r == w(x, y, z)
        }),
{
}

/// The first k pillars, in order.
pub open spec fn with_pillars(w: spec_fn(int, int, int) -> B, ps: Seq<(i64, i64, i64)>, k: nat) -> spec_fn(int, int, int) -> B
    decreases k,
{
    if k == 0 {
        w
    } else {
        with_pillar(with_pillars(w, ps, (k - 1) as nat), ps[k - 1])
    }
}

/// The first k islands, in order.
pub open spec fn with_islands(w: spec_fn(int, int, int) -> B, isl: Seq<Seq<Option<(i64, i64)>>>, k: nat) -> spec_fn(int, int, int) -> B
    decreases k,
{
    if k == 0 {
        w
    } else {
        with_island(with_islands(w, isl, (k - 1) as nat), isl[k - 1])
    }
}

/// The End: its main island, the pillars in a ring on it, the small islands out in the void, and up to 40 chorus
/// plants at least 4 blocks from the middle.
pub open spec fn end_world(
    w: spec_fn(int, int, int) -> B,
    main: Seq<Option<(i64, i64)>>,
    pillars: Seq<(i64, i64, i64)>,
    small: Seq<Seq<Option<(i64, i64)>>>,
    spots: Seq<ChorusSpot>,
) -> spec_fn(int, int, int) -> B {
    let w1 = with_pillars(with_island(w, main), pillars, pillars.len());
    let w2 = with_islands(w1, small, small.len());
    with_chorus(w2, spots, 40, 16, 2916nat).0
}

/// A pillar as the noise places it: near the middle, not too tall.
pub open spec fn pillar_ok(p: (i64, i64, i64)) -> bool {
    -1000 <= p.0 <= 1000 && -1000 <= p.1 <= 1000 && 0 <= p.2 <= 1000
}

/// Builds the End: `main` and `small` are the islands' columns (see `island`), `pillars` the pillars'
/// columns and heights (7, in a ring), `spots` where chorus plants may grow.
pub fn gen_end(
    bl: &mut Blocks,
    main: &Vec<Option<(i64, i64)>>,
    pillars: &Vec<(i64, i64, i64)>,
    small: &Vec<Vec<Option<(i64, i64)>>>,
    spots: &Vec<ChorusSpot>,
)
    requires
        old(bl).wf(),
        main@.len() == N * N,
        forall|i: int| 0 <= i < pillars@.len() ==> pillar_ok(#[trigger] pillars@[i]),
        forall|i: int| 0 <= i < small@.len() ==> (#[trigger] small@[i])@.len() == N * N,
        spots@.len() == N * N,
        forall|i: int| 0 <= i < N * N ==> 0 <= (#[trigger] spots@[i]).tall <= H,
    ensures
        final(bl).wf(),
        forall|x: int, y: int, z: int|
            #[trigger] final(bl).at(x, y, z) == end_world(
                world_of(*old(bl)),
                main@,
                pillars@,
                small@.map_values(|v: Vec<Option<(i64, i64)>>| v@),
                spots@,
            )(x, y, z),
{
    let ghost w0 = world_of(*bl);
    let ghost sv = small@.map_values(|v: Vec<Option<(i64, i64)>>| v@);
    island(bl, main);
    let ghost w1 = with_island(w0, main@);
    let mut i: usize = 0;
    while i < pillars.len()
        invariant
            bl.wf(),
            i <= pillars@.len(),
            forall|k: int| 0 <= k < pillars@.len() ==> pillar_ok(#[trigger] pillars@[k]),
            forall|px: int, py: int, pz: int| #[trigger] bl.at(px, py, pz) == with_pillars(w1, pillars@, i as nat)(px, py, pz),
        decreases pillars@.len() - i,
    {
        let (px, pz, tall) = pillars[i];
        proof {
            assert(pillar_ok(pillars@[i as int]));
        }
        let ghost before = with_pillars(w1, pillars@, i as nat);
        let h = bl.height(px, pz);
        proof {
            lemma_height_of(*bl, before, px as int, pz as int);
        }
        let base = if h > 4 { h } else { 4 };
        tower(bl, px - 1, pz - 1, 3, 0, base + tall, B::Obsidian, B::Obsidian);
        bl.set(px, base + tall, pz, B::Crystal);
        i = i + 1;
    }
    let ghost w2 = with_pillars(w1, pillars@, pillars@.len());
    let mut j: usize = 0;
    while j < small.len()
        invariant
            bl.wf(),
            j <= small@.len(),
            sv == small@.map_values(|v: Vec<Option<(i64, i64)>>| v@),
            forall|k: int| 0 <= k < small@.len() ==> (#[trigger] small@[k])@.len() == N * N,
            forall|px: int, py: int, pz: int| #[trigger] bl.at(px, py, pz) == with_islands(w2, sv, j as nat)(px, py, pz),
        decreases small@.len() - j,
    {
        proof {
            assert(small@[j as int]@.len() == N * N);
            assert(sv[j as int] == small@[j as int]@);
        }
        island(bl, &small[j]);
        j = j + 1;
    }
    proof {
        assert(world_of(*bl) =~= with_islands(w2, sv, sv.len()));
    }
    chorus(bl, spots, 40, 16);
}

/// The End City's towers: (x, z) of their corner, width and height above the ground, by number.
pub open spec fn city_tower(i: int) -> (int, int, int, int) {
    let c = mid();
    if i == 0 {
        (c - 16, c - 14, 5, 11)
    } else if i == 1 {
        (c + 9, c - 17, 5, 14)
    } else if i == 2 {
        (c + 12, c + 6, 5, 9)
    } else if i == 3 {
        (c - 15, c + 8, 5, 12)
    } else {
        (c - 4, c - 22, 3, 7)
    }
}

fn city_tower_at(i: usize) -> (t: (i64, i64, i64, i64))
    requires
        i < 5,
    ensures
        t.0 == city_tower(i as int).0,
        t.1 == city_tower(i as int).1,
        t.2 == city_tower(i as int).2,
        t.3 == city_tower(i as int).3,
{
    let c = N / 2;
    if i == 0 {
        (c - 16, c - 14, 5, 11)
    } else if i == 1 {
        (c + 9, c - 17, 5, 14)
    } else if i == 2 {
        (c + 12, c + 6, 5, 9)
    } else if i == 3 {
        (c - 15, c + 8, 5, 12)
    } else {
        (c - 4, c - 22, 3, 7)
    }
}

/// The directions the purple paths go out of the middle, by number: +x, -x, +z, -z.
pub open spec fn path_dir(d: int) -> (int, int) {
    if d == 0 {
        (1, 0)
    } else if d == 1 {
        (-1, 0)
    } else if d == 2 {
        (0, 1)
    } else {
        (0, -1)
    }
}

/// Step k of laying the paths: direction k / 72, s = (k % 72) / 3 blocks out, across at k % 3 - 1.
pub open spec fn path_col(k: int) -> (int, int) {
    let d = path_dir(k / 72);
    let s = (k % 72) / 3;
    let a = k % 3 - 1;
    let ax: int = if d.1 == 0 { 0 } else { 1 };
    let az: int = if d.0 == 0 { 0 } else { 1 };
    (mid() + d.0 * s + ax * a, mid() + d.1 * s + az * a)
}

/// The top block of column (x, z) turned to purpur (when the column has any block).
pub open spec fn with_path_block(w: spec_fn(int, int, int) -> B, x: int, z: int) -> spec_fn(int, int, int) -> B {
    let h = height_of(w, x, z);
    if h > 0 { with_block(w, x, h - 1, z, B::Purpur) } else { w }
}

/// The first k steps of the paths.
pub open spec fn with_paths(w: spec_fn(int, int, int) -> B, k: nat) -> spec_fn(int, int, int) -> B
    decreases k,
{
    if k == 0 {
        w
    } else {
        let c = path_col(k - 1);
        with_path_block(with_paths(w, (k - 1) as nat), c.0, c.1)
    }
}

/// A tower of the End City: purpur walls with pillars at the corners from the bottom up to its height above the
/// ground (at least 4), a wider room on top 3 blocks high, and an end rod over each of the room's corners.
pub open spec fn with_city_tower(w: spec_fn(int, int, int) -> B, t: (int, int, int, int)) -> spec_fn(int, int, int) -> B {
    let (tx, tz, wd, tall) = t;
    let top = at_least(height_of(w, tx + wd / 2, tz + wd / 2), 4) + tall;
    let w1 = with_tower(w, tx, tz, wd, 0, top, B::Purpur, B::PurpurPillar);
    let w2 = with_tower(w1, tx - 1, tz - 1, wd + 2, top, top + 3, B::Purpur, B::PurpurPillar);
    let w3 = with_block(w2, tx - 1, top + 3, tz - 1, B::EndRod);
    let w4 = with_block(w3, tx + wd, top + 3, tz - 1, B::EndRod);
    let w5 = with_block(w4, tx - 1, top + 3, tz + wd, B::EndRod);
    with_block(w5, tx + wd, top + 3, tz + wd, B::EndRod)
}

/// The first k towers.
pub open spec fn with_city_towers(w: spec_fn(int, int, int) -> B, k: nat) -> spec_fn(int, int, int) -> B
    decreases k,
{
    if k == 0 {
        w
    } else {
        with_city_tower(with_city_towers(w, (k - 1) as nat), city_tower(k - 1))
    }
}

/// The End City: its island, purpur paths out of the middle (4 directions, 24 blocks, 3 wide), its 5 towers, and
/// up to 25 chorus plants at least 5 blocks from the middle.
pub open spec fn end_city_world(w: spec_fn(int, int, int) -> B, main: Seq<Option<(i64, i64)>>, spots: Seq<ChorusSpot>) -> spec_fn(
    int,
    int,
    int,
) -> B {
    let w1 = with_paths(with_island(w, main), 288);
    with_chorus(with_city_towers(w1, 5), spots, 25, 25, 2916nat).0
}

proof fn lemma_path_index(d: int, s: int, a: int)
    requires
        0 <= d < 4,
        0 <= s < 24,
        0 <= a < 3,
    ensures
        (72 * d + 3 * s + a) / 72 == d,
        ((72 * d + 3 * s + a) % 72) / 3 == s,
        (72 * d + 3 * s + a) % 3 == a,
{
    vstd::arithmetic::div_mod::lemma_fundamental_div_mod_converse(72 * d + 3 * s + a, 72, d, 3 * s + a);
    vstd::arithmetic::div_mod::lemma_fundamental_div_mod_converse(3 * s + a, 3, s, a);
    vstd::arithmetic::div_mod::lemma_fundamental_div_mod_converse(72 * d + 3 * s + a, 3, 24 * d + s, a);
}

fn path_dir_at(d: i64) -> (r: (i64, i64))
    requires
        0 <= d < 4,
    ensures
        r.0 == path_dir(d as int).0,
        r.1 == path_dir(d as int).1,
{
    if d == 0 {
        (1, 0)
    } else if d == 1 {
        (-1, 0)
    } else if d == 2 {
        (0, 1)
    } else {
        (0, -1)
    }
}

/// Builds the End City: `main` is its island's columns (see `island`), `spots` where chorus
/// plants may grow.
pub fn gen_end_city(bl: &mut Blocks, main: &Vec<Option<(i64, i64)>>, spots: &Vec<ChorusSpot>)
    requires
        old(bl).wf(),
        main@.len() == N * N,
        spots@.len() == N * N,
        forall|i: int| 0 <= i < N * N ==> 0 <= (#[trigger] spots@[i]).tall <= H,
    ensures
        final(bl).wf(),
        forall|x: int, y: int, z: int| #[trigger] final(bl).at(x, y, z) == end_city_world(world_of(*old(bl)), main@, spots@)(x, y, z),
{
    let ghost w0 = world_of(*bl);
    let c: i64 = N / 2;
    island(bl, main);
    let ghost w1 = with_island(w0, main@);
    // purpur paths out of the middle
    let mut d: i64 = 0;
    while d < 4
        invariant
            bl.wf(),
            c == mid(),
            0 <= d <= 4,
            forall|px: int, py: int, pz: int| #[trigger] bl.at(px, py, pz) == with_paths(w1, (72 * d) as nat)(px, py, pz),
        decreases 4 - d,
    {
        let (dx, dz) = path_dir_at(d);
        let mut s: i64 = 0;
        while s < 24
            invariant
                bl.wf(),
                c == mid(),
                0 <= d < 4,
                0 <= s <= 24,
                dx == path_dir(d as int).0,
                dz == path_dir(d as int).1,
                forall|px: int, py: int, pz: int| #[trigger] bl.at(px, py, pz) == with_paths(w1, (72 * d + 3 * s) as nat)(px, py, pz),
            decreases 24 - s,
        {
            let mut a: i64 = 0;
            while a < 3
                invariant
                    bl.wf(),
                    c == mid(),
                    0 <= d < 4,
                    0 <= s < 24,
                    0 <= a <= 3,
                    dx == path_dir(d as int).0,
                    dz == path_dir(d as int).1,
                    forall|px: int, py: int, pz: int|
                        #[trigger] bl.at(px, py, pz) == with_paths(w1, (72 * d + 3 * s + a) as nat)(px, py, pz),
                decreases 3 - a,
            {
                let k = 72 * d + 3 * s + a;
                let ghost before = with_paths(w1, k as nat);
                proof {
                    lemma_path_index(d as int, s as int, a as int);
                }
                let ax: i64 = if dz == 0 { 0 } else { 1 };
                let az: i64 = if dx == 0 { 0 } else { 1 };
                let x = c + dx * s + ax * (a - 1);
                let z = c + dz * s + az * (a - 1);
                let h = bl.height(x, z);
                proof {
                    lemma_height_of(*bl, before, x as int, z as int);
                }
                if h > 0 {
                    bl.set(x, h - 1, z, B::Purpur);
                }
                proof {
                    assert(path_col(k as int) == (x as int, z as int));
                    assert forall|px: int, py: int, pz: int| #[trigger] bl.at(px, py, pz)
                        == with_paths(w1, (k + 1) as nat)(px, py, pz) by {
                        assert(with_paths(w1, (k + 1) as nat) == with_path_block(before, x as int, z as int));
                    }
                }
                a = a + 1;
            }
            s = s + 1;
        }
        d = d + 1;
    }
    let ghost w2 = with_paths(w1, 288);
    // the towers, each with a wider room at the top and end rods on it
    let mut i: usize = 0;
    while i < 5
        invariant
            bl.wf(),
            i <= 5,
            forall|px: int, py: int, pz: int| #[trigger] bl.at(px, py, pz) == with_city_towers(w2, i as nat)(px, py, pz),
        decreases 5 - i,
    {
        let ghost before = with_city_towers(w2, i as nat);
        let (tx, tz, wd, tall) = city_tower_at(i);
        let h = bl.height(tx + wd / 2, tz + wd / 2);
        proof {
            lemma_height_of(*bl, before, tx + wd / 2, tz + wd / 2);
        }
        let base = if h > 4 { h } else { 4 };
        let top = base + tall;
        tower(bl, tx, tz, wd, 0, top, B::Purpur, B::PurpurPillar);
        tower(bl, tx - 1, tz - 1, wd + 2, top, top + 3, B::Purpur, B::PurpurPillar);
        bl.set(tx - 1, top + 3, tz - 1, B::EndRod);
        bl.set(tx + wd, top + 3, tz - 1, B::EndRod);
        bl.set(tx - 1, top + 3, tz + wd, B::EndRod);
        bl.set(tx + wd, top + 3, tz + wd, B::EndRod);
        i = i + 1;
    }
    proof {
        assert(world_of(*bl) =~= with_city_towers(w2, 5));
    }
    chorus(bl, spots, 25, 25);
}

} // verus!
