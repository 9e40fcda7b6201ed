//! The Emerald City, built block by block: stone ground with quartz roads every 12 blocks and grass (with
//! flowers) between them; in each block of the grid an emerald tower with gold corners on a quartz base, or a
//! little park (a pond and a tree); a golden monument in the plaza with a fountain, and lamps at the crossings.
//! The world's noise picks the flowers and each lot's building; here it is given as plain values.
use vstd::prelude::*;
use crate::world::{B, Blocks, N, in_world, in_grid, spec_col, tower, tree, col};
use crate::worldgen::{world_of, with_tower, with_tree, with_block, with_column, lemma_grid_index, mid};
use crate::num::euclid_mod;

verus! {

/// What a lot of the city's grid gets (from the world's noise): a building (its width and how many floors of
/// emerald it has), or a park whose tree leaves the corners `bare` without leaves.
pub struct Lot {
    pub building: bool,
    pub width: i64,
    pub tall: i64,
    pub bare: Vec<bool>,
}

/// A lot as the noise can give it: a width of 5 to 7, 5 to 14 floors, the 16 corners of a tree.
pub open spec fn lot_ok(l: Lot) -> bool {
    5 <= l.width <= 7 && 5 <= l.tall <= 14 && l.bare@.len() == 16
}

/// The roads: every 12 blocks from the middle, 3 wide.
pub open spec fn is_road(x: int, z: int) -> bool {
    (x - mid()) % 12 < 3 || (z - mid()) % 12 < 3
}

/// The ground's top block at column (x, z): quartz on the roads, else a flower where the noise puts one, else grass.
pub open spec fn ground_top(flowers: Seq<bool>, x: int, z: int) -> B {
    if is_road(x, z) { B::Quartz } else if flowers[spec_col(x, z)] { B::Flower } else { B::Grass }
}

/// The ground: 4 blocks of stone with the top block on them, everywhere.
pub open spec fn with_ground(w: spec_fn(int, int, int) -> B, flowers: Seq<bool>) -> spec_fn(int, int, int) -> B {
    |x: int, y: int, z: int|
        if in_world(x, y, z) && y < 4 {
            if y == 3 { ground_top(flowers, x, z) } else { B::Stone }
        } else {
            w(x, y, z)
        }
}

/// The lots near the plaza stay empty.
pub open spec fn near_plaza(bx: int, bz: int) -> bool {
    -8 < bx + 4 - mid() < 8 && -8 < bz + 4 - mid() < 8
}

/// Lot (bx, bz) (its corner) built: a building - a quartz base, its floors of emerald with gold corners, a gold
/// roof - or a park - a 5 x 5 pond and a tree.
pub open spec fn with_lot(w: spec_fn(int, int, int) -> B, bx: int, bz: int, lot: Lot) -> spec_fn(int, int, int) -> B {
    if near_plaza(bx, bz) {
        w
    } else if lot.building {
        let wd = lot.width as int;
        let x0 = bx + (9 - wd) / 2;
        let z0 = bz + (9 - wd) / 2;
        let t = lot.tall as int;
        let w1 = with_tower(w, x0, z0, wd, 4, 5, B::Quartz, B::Quartz);
        let w2 = with_tower(w1, x0, z0, wd, 5, 5 + t, B::Emerald, B::Gold);
        with_tower(w2, x0 + 1, z0 + 1, wd - 2, 5 + t, 6 + t, B::Gold, B::Gold)
    } else {
        with_tree(with_tower(w, bx + 2, bz + 2, 5, 3, 4, B::Water, B::Water), bx + 1, bz + 1, 4, 4, lot.bare@)
    }
}

/// Where lot k of the 6 x 6 grid is (its corner): by rows of x, 12 blocks apart, from 5 blocks before the edge.
pub open spec fn lot_corner(k: int) -> (int, int) {
    (-5 + 12 * (k / 6), -5 + 12 * (k % 6))
}

/// The first k lots built, in order.
pub open spec fn with_lots(w: spec_fn(int, int, int) -> B, lots: Seq<Lot>, k: nat) -> spec_fn(int, int, int) -> B
    decreases k,
{
    if k == 0 {
        w
    } else {
        let c = lot_corner(k - 1);
        with_lot(with_lots(w, lots, (k - 1) as nat), c.0, c.1, lots[k - 1])
    }
}

/// The plaza: a golden base, a quartz monument with gold corners, an emerald top with a light on it, and a
/// fountain in front.
pub open spec fn with_plaza(w: spec_fn(int, int, int) -> B) -> spec_fn(int, int, int) -> B {
    let mx = mid() - 1;
    let mz = mid() - 6;
    let w1 = with_tower(w, mx - 1, mz - 1, 5, 4, 5, B::Gold, B::Gold);
    let w2 = with_tower(w1, mx, mz, 3, 5, 9, B::Quartz, B::Gold);
    let w3 = with_tower(w2, mx, mz, 3, 9, 11, B::Emerald, B::Emerald);
    let w4 = with_block(w3, mx + 1, 11, mz + 1, B::Glowstone);
    with_tower(w4, mid() - 7, mid() + 3, 4, 3, 4, B::Water, B::Water)
}

/// A lamp at crossing (x, z): a gold post 2 high with a light on it (not in the middle of the plaza).
pub open spec fn with_lamp(w: spec_fn(int, int, int) -> B, x: int, z: int) -> spec_fn(int, int, int) -> B {
    if in_grid(x, z) && !(x == mid() && z == mid()) {
        with_block(with_column(w, x, z, 4, 6, B::Gold), x, 6, z, B::Glowstone)
    } else {
        w
    }
}

/// Where crossing k of the 6 x 6 grid of lamps is: every 12 blocks from 36 before the middle, by rows of x.
pub open spec fn lamp_at(k: int) -> (int, int) {
    (mid() - 36 + 12 * (k / 6), mid() - 36 + 12 * (k % 6))
}

/// The first k lamps put up, in order.
pub open spec fn with_lamps(w: spec_fn(int, int, int) -> B, k: nat) -> spec_fn(int, int, int) -> B
    decreases k,
{
    if k == 0 {
        w
    } else {
        let c = lamp_at(k - 1);
        with_lamp(with_lamps(w, (k - 1) as nat), c.0, c.1)
    }
}

/// The whole city built over `w`.
pub open spec fn emerald_city(w: spec_fn(int, int, int) -> B, flowers: Seq<bool>, lots: Seq<Lot>) -> spec_fn(int, int, int) -> B {
    with_lamps(with_plaza(with_lots(with_ground(w, flowers), lots, 36)), 36)
}

/// Builds the Emerald City: `flowers` says, per column, where the grass has a flower; `lots`
/// what each of the 36 lots of the grid gets, by rows of x.
pub fn gen_emerald_city(bl: &mut Blocks, flowers: &Vec<bool>, lots: &Vec<Lot>)
    requires
        old(bl).wf(),
        flowers@.len() == N * N,
        lots@.len() == 36,
        forall|k: int| 0 <= k < 36 ==> lot_ok(#[trigger] lots@[k]),
    ensures
        final(bl).wf(),
        forall|x: int, y: int, z: int|
            #[trigger] final(bl).at(x, y, z) == emerald_city(world_of(*old(bl)), flowers@, lots@)(x, y, z),
{
    let ghost w0 = world_of(*bl);
    let c: i64 = N / 2;
    // the ground
    let mut x: i64 = 0;
    while x < N
        invariant
            bl.wf(),
            c == mid(),
            flowers@.len() == N * N,
            0 <= x <= N,
            forall|px: int, py: int, pz: int|
                #[trigger] bl.at(px, py, pz) == if px < x { with_ground(w0, flowers@)(px, py, pz) } else { w0(px, py, pz) },
        decreases N - x,
    {
        let mut z: i64 = 0;
        while z < N
            invariant
                bl.wf(),
                c == mid(),
                flowers@.len() == N * N,
                0 <= x < N,
                0 <= z <= N,
                forall|px: int, py: int, pz: int|
                    #[trigger] bl.at(px, py, pz) == if px < x || (px == x && pz < z) {
                        with_ground(w0, flowers@)(px, py, pz)
                    } else {
                        w0(px, py, pz)
                    },
            decreases N - z,
        {
            bl.fill(x, z, 0, 4, B::Stone);
            let road = euclid_mod((x - c) as i128, 12) < 3 || euclid_mod((z - c) as i128, 12) < 3;
            let top = if road {
                B::Quartz
            } else if flowers[col(x, z)] {
                B::Flower
            } else {
                B::Grass
            };
            bl.set(x, 3, z, top);
            z = z + 1;
        }
        x = x + 1;
    }
    let ghost w1 = with_ground(w0, flowers@);
    // the lots
    let mut a: i64 = 0;
    while a < 6
        invariant
            bl.wf(),
            c == mid(),
            lots@.len() == 36,
            forall|k: int| 0 <= k < 36 ==> lot_ok(#[trigger] lots@[k]),
            0 <= a <= 6,
            forall|px: int, py: int, pz: int| #[trigger] bl.at(px, py, pz) == with_lots(w1, lots@, (6 * a) as nat)(px, py, pz),
        decreases 6 - a,
    {
        let bx = -5 + 12 * a;
        let mut b: i64 = 0;
        while b < 6
            invariant
                bl.wf(),
                c == mid(),
                lots@.len() == 36,
                forall|k: int| 0 <= k < 36 ==> lot_ok(#[trigger] lots@[k]),
                0 <= a < 6,
                0 <= b <= 6,
                bx == -5 + 12 * a,
                forall|px: int, py: int, pz: int|
                    #[trigger] bl.at(px, py, pz) == with_lots(w1, lots@, (6 * a + b) as nat)(px, py, pz),
            decreases 6 - b,
        {
            let bz = -5 + 12 * b;
            let k = (6 * a + b) as usize;
            let ghost before = with_lots(w1, lots@, k as nat);
            proof {
                lemma_grid_index(a as int, b as int);
                assert(lot_ok(lots@[k as int]));
            }
            let lot = &lots[k];
            let near = -8 < bx + 4 - c && bx + 4 - c < 8 && -8 < bz + 4 - c && bz + 4 - c < 8;
            if !near && lot.building {
                let wd = lot.width;
                let x0 = bx + (9 - wd) / 2;
                let z0 = bz + (9 - wd) / 2;
                let t = lot.tall;
                tower(bl, x0, z0, wd, 4, 5, B::Quartz, B::Quartz);
                tower(bl, x0, z0, wd, 5, 5 + t, B::Emerald, B::Gold);
                tower(bl, x0 + 1, z0 + 1, wd - 2, 5 + t, 6 + t, B::Gold, B::Gold);
            } else if !near {
                tower(bl, bx + 2, bz + 2, 5, 3, 4, B::Water, B::Water);
                tree(bl, bx + 1, bz + 1, 4, 4, &lot.bare);
            }
            proof {
                assert forall|px: int, py: int, pz: int| #[trigger] bl.at(px, py, pz) == with_lots(w1, lots@, (k + 1) as nat)(px, py, pz) by {
                    assert(with_lots(w1, lots@, (k + 1) as nat) == with_lot(before, bx as int, bz as int, lots@[k as int]));
                }
            }
            b = b + 1;
        }
        a = a + 1;
    }
    let ghost w2 = with_lots(w1, lots@, 36);
    // the plaza and its fountain
    let mx = c - 1;
    let mz = c - 6;
    tower(bl, mx - 1, mz - 1, 5, 4, 5, B::Gold, B::Gold);
    tower(bl, mx, mz, 3, 5, 9, B::Quartz, B::Gold);
    tower(bl, mx, mz, 3, 9, 11, B::Emerald, B::Emerald);
    bl.set(mx + 1, 11, mz + 1, B::Glowstone);
    tower(bl, c - 7, c + 3, 4, 3, 4, B::Water, B::Water);
    let ghost w3 = with_plaza(w2);
    // lamps at the crossings
    let mut i: i64 = 0;
    while i < 6
        invariant
            bl.wf(),
            c == mid(),
            0 <= i <= 6,
            forall|px: int, py: int, pz: int| #[trigger] bl.at(px, py, pz) == with_lamps(w3, (6 * i) as nat)(px, py, pz),
        decreases 6 - i,
    {
        let lx = c - 36 + 12 * i;
        let mut j: i64 = 0;
        while j < 6
            invariant
                bl.wf(),
                c == mid(),
                0 <= i < 6,
                0 <= j <= 6,
                lx == c - 36 + 12 * i,
                forall|px: int, py: int, pz: int| #[trigger] bl.at(px, py, pz) == with_lamps(w3, (6 * i + j) as nat)(px, py, pz),
            decreases 6 - j,
        {
            let lz = c - 36 + 12 * j;
            let k = 6 * i + j;
            let ghost before = with_lamps(w3, k as nat);
            proof {
                lemma_grid_index(i as int, j as int);
            }
            if (0 <= lx && lx < N) && (0 <= lz && lz < N) && !(lx == c && lz == c) {
                bl.fill(lx, lz, 4, 6, B::Gold);
                bl.set(lx, 6, lz, B::Glowstone);
            }
            proof {
                assert forall|px: int, py: int, pz: int| #[trigger] bl.at(px, py, pz) == with_lamps(w3, (k + 1) as nat)(px, py, pz) by {
                    assert(with_lamps(w3, (k + 1) as nat) == with_lamp(before, lx as int, lz as int));
                }
            }
            j = j + 1;
        }
        i = i + 1;
    }
}

} // verus!
