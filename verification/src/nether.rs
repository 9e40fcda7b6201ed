//! The Nether: netherrack hills with soul sand, lava lakes in the hollows, glowstone lumps and netherrack spikes,
//! and a ruined fortress of nether brick. The noise that shapes it is given, per column, as plain values.
use vstd::prelude::*;
use crate::world::{B, Blocks, N, H, in_grid, spec_col, col};
use crate::worldgen::{world_of, with_block, with_column, height_of, height_below, lemma_height_of, dist2, inner_col, mid};

verus! {

/// What the noise says of a column of the Nether.
#[derive(Clone, Copy, PartialEq, Eq, Debug, Structural)]
pub struct NetherCol {
    /// how high the ground is (the middle is flattened to 6)
    pub h: i64,
    /// its top is soul sand (else netherrack)
    pub soul: bool,
    /// a glowstone lump grows on it (where the ground is high enough)
    pub glow: bool,
    /// a netherrack spike grows on it, this tall
    pub spike: bool,
    pub spike_tall: i64,
    /// on the fortress's edge: a wall this tall stands on it
    pub wall: bool,
    pub wall_tall: i64,
}

/// Values the noise can give.
pub open spec fn nether_col_ok(c: NetherCol) -> bool {
    0 <= c.h <= H && 0 <= c.spike_tall <= H && 0 <= c.wall_tall <= H
}

/// The ground's height at column (x, z): flat (6) within 5 blocks of the middle.
pub open spec fn nether_h(c: NetherCol, x: int, z: int) -> int {
    if dist2(x, z) < 25 { 6 } else { c.h as int }
}

/// One column of the Nether's ground: netherrack up to its height with its top block, and lava up to 5 in the
/// hollows (the lava's top layer, at 4, over everything).
pub open spec fn with_nether_column(w: spec_fn(int, int, int) -> B, c: NetherCol, x: int, z: int) -> spec_fn(int, int, int) -> B {
    let h = nether_h(c, x, z);
    let top = if c.soul { B::SoulSand } else { B::Netherrack };
    let w1 = with_block(with_column(w, x, z, 0, h, B::Netherrack), x, h - 1, z, top);
    if h <= 5 {
        with_block(with_column(w1, x, z, h, 5, B::Lava), x, 4, z, B::Lava)
    } else {
        w1
    }
}

/// The Nether's ground, every column.
pub open spec fn with_nether_ground(w: spec_fn(int, int, int) -> B, cols: Seq<NetherCol>) -> spec_fn(int, int, int) -> B {
    |x: int, y: int, z: int| if in_grid(x, z) { with_nether_column(w, cols[spec_col(x, z)], x, z)(x, y, z) } else { w(x, y, z) }
}

/// The first k inner columns with their glowstone lump (2 high, on ground at least 7 high) or netherrack spike
/// (on ground at least 6 high), more than 6 blocks from the middle.
pub open spec fn with_lumps(w: spec_fn(int, int, int) -> B, cols: Seq<NetherCol>, k: nat) -> spec_fn(int, int, int) -> B
    decreases k,
{
    if k == 0 {
        w
    } else {
        let prev = with_lumps(w, cols, (k - 1) as nat);
        let (x, z) = inner_col(k - 1);
        let h = height_of(prev, x, z);
        let c = cols[spec_col(x, z)];
        if dist2(x, z) > 36 && h >= 7 && c.glow {
            with_column(prev, x, z, h, h + 2, B::Glowstone)
        } else if dist2(x, z) > 36 && h >= 6 && c.spike {
            with_column(prev, x, z, h, h + c.spike_tall, B::Netherrack)
        } else {
            prev
        }
    }
}

/// The fortress's corner.
pub open spec fn fort() -> (int, int) {
    (mid() + 9, mid() - 16)
}

/// The fortress's column visited k-th (11 x 9 columns, by rows of x).
pub open spec fn fort_col(k: int) -> (int, int) {
    (fort().0 + k / 9, fort().1 + k % 9)
}

/// The first k columns of the fortress: nether brick up to the ground (at least 5), and a broken wall on its
/// edge where the noise puts one.
pub open spec fn with_fort(w: spec_fn(int, int, int) -> B, cols: Seq<NetherCol>, k: nat) -> spec_fn(int, int, int) -> B
    decreases k,
{
    if k == 0 {
        w
    } else {
        let prev = with_fort(w, cols, (k - 1) as nat);
        let (x, z) = fort_col(k - 1);
        let h0 = height_of(prev, x, z);
        let h = if h0 > 5 { h0 } else { 5 };
        let edge = x == fort().0 || x == fort().0 + 10 || z == fort().1 || z == fort().1 + 8;
        let c = cols[spec_col(x, z)];
        let w1 = with_column(prev, x, z, 0, h, B::NetherBrick);
        if edge && c.wall { with_column(w1, x, z, h, h + c.wall_tall, B::NetherBrick) } else { w1 }
    }
}

/// The whole Nether built over `w`.
pub open spec fn nether_world(w: spec_fn(int, int, int) -> B, cols: Seq<NetherCol>) -> spec_fn(int, int, int) -> B {
    with_fort(with_lumps(with_nether_ground(w, cols), cols, 2916), cols, 99)
}

proof fn lemma_fort_index(a: int, b: int)
    requires
        0 <= a < 11,
        0 <= b < 9,
    ensures
        fort_col(9 * a + b) == (fort().0 + a, fort().1 + b),
{
    vstd::arithmetic::div_mod::lemma_fundamental_div_mod_converse(9 * a + b, 9, a, b);
}

proof fn lemma_inner_index(x: int, z: int)
    requires
        1 <= x < 55,
        1 <= z < 55,
    ensures
        inner_col((x - 1) * 54 + (z - 1)) == (x, z),
{
    vstd::arithmetic::div_mod::lemma_fundamental_div_mod_converse((x - 1) * 54 + (z - 1), 54, x - 1, z - 1);
}

/// Builds the Nether: `cols` is what the noise says of each column.
pub fn gen_nether(bl: &mut Blocks, cols: &Vec<NetherCol>)
    requires
        old(bl).wf(),
        cols@.len() == N * N,
        forall|i: int| 0 <= i < N * N ==> nether_col_ok(#[trigger] cols@[i]),
    ensures
        final(bl).wf(),
        forall|x: int, y: int, z: int| #[trigger] final(bl).at(x, y, z) == nether_world(world_of(*old(bl)), cols@)(x, y, z),
{
    let ghost w0 = world_of(*bl);
    let c: i64 = N / 2;
    // the ground and the lava lakes
    let mut x: i64 = 0;
    while x < N
        invariant
            bl.wf(),
            c == mid(),
            cols@.len() == N * N,
            forall|i: int| 0 <= i < N * N ==> nether_col_ok(#[trigger] cols@[i]),
            0 <= x <= N,
            forall|px: int, py: int, pz: int|
                #[trigger] bl.at(px, py, pz) == if px < x { with_nether_ground(w0, cols@)(px, py, pz) } else { w0(px, py, pz) },
        decreases N - x,
    {
        let mut z: i64 = 0;
        while z < N
            invariant
                bl.wf(),
                c == mid(),
                cols@.len() == N * N,
                forall|i: int| 0 <= i < N * N ==> nether_col_ok(#[trigger] cols@[i]),
                0 <= x < N,
                0 <= z <= N,
                forall|px: int, py: int, pz: int|
                    #[trigger] bl.at(px, py, pz) == if px < x || (px == x && pz < z) {
                        with_nether_ground(w0, cols@)(px, py, pz)
                    } else {
                        w0(px, py, pz)
                    },
            decreases N - z,
        {
            let i = col(x, z);
            let cc = cols[i];
            proof {
                assert(nether_col_ok(cols@[i as int]));
            }
            let dx = x - c;
            let dz = z - c;
            proof {
                assert(0 <= dx * dx <= 10000 && 0 <= dz * dz <= 10000) by (nonlinear_arith)
                    requires
                        -100 <= dx <= 100,
                        -100 <= dz <= 100,
                ;
            }
            let h = if dx * dx + dz * dz < 25 { 6 } else { cc.h };
            let top = if cc.soul { B::SoulSand } else { B::Netherrack };
            bl.fill(x, z, 0, h, B::Netherrack);
            bl.set(x, h - 1, z, top);
            if h <= 5 {
                bl.fill(x, z, h, 5, B::Lava);
                bl.set(x, 4, z, B::Lava);
            }
            z = z + 1;
        }
        x = x + 1;
    }
    let ghost w1 = with_nether_ground(w0, cols@);
    proof {
        assert(world_of(*bl) =~= w1);
    }
    // glowstone lumps and netherrack spikes
    let mut x: i64 = 1;
    while x < 55
        invariant
            bl.wf(),
            c == mid(),
            cols@.len() == N * N,
            forall|i: int| 0 <= i < N * N ==> nether_col_ok(#[trigger] cols@[i]),
            1 <= x <= 55,
            forall|px: int, py: int, pz: int| #[trigger] bl.at(px, py, pz) == with_lumps(w1, cols@, ((x - 1) * 54) as nat)(px, py, pz),
        decreases 55 - x,
    {
        let mut z: i64 = 1;
        while z < 55
            invariant
                bl.wf(),
                c == mid(),
                cols@.len() == N * N,
                forall|i: int| 0 <= i < N * N ==> nether_col_ok(#[trigger] cols@[i]),
                1 <= x < 55,
                1 <= z <= 55,
                forall|px: int, py: int, pz: int|
                    #[trigger] bl.at(px, py, pz) == with_lumps(w1, cols@, ((x - 1) * 54 + (z - 1)) as nat)(px, py, pz),
            decreases 55 - z,
        {
            let k = (x - 1) * 54 + (z - 1);
            let ghost prev = with_lumps(w1, cols@, k as nat);
            proof {
                lemma_inner_index(x as int, z as int);
            }
            let h = bl.height(x, z);
            proof {
                lemma_height_of(*bl, prev, x as int, z as int);
            }
            let i = col(x, z);
            let cc = cols[i];
            proof {
                assert(nether_col_ok(cols@[i as int]));
            }
            let dx = x - c;
            let dz = z - c;
            proof {
                assert(0 <= dx * dx <= 10000 && 0 <= dz * dz <= 10000) by (nonlinear_arith)
                    requires
                        -100 <= dx <= 100,
                        -100 <= dz <= 100,
                ;
            }
            let far = dx * dx + dz * dz > 36;
            if far && h >= 7 && cc.glow {
                bl.fill(x, z, h, h + 2, B::Glowstone);
            } else if far && h >= 6 && cc.spike {
                bl.fill(x, z, h, h + cc.spike_tall, B::Netherrack);
            }
            proof {
                assert forall|px: int, py: int, pz: int| #[trigger] bl.at(px, py, pz) == with_lumps(w1, cols@, (k + 1) as nat)(px, py, pz) by {
                }
            }
            z = z + 1;
        }
        x = x + 1;
    }
    let ghost w2 = with_lumps(w1, cols@, 2916);
    // a ruined fortress
    let fx = c + 9;
    let fz = c - 16;
    let mut a: i64 = 0;
    while a < 11
        invariant
            bl.wf(),
            c == mid(),
            fx == fort().0,
            fz == fort().1,
            cols@.len() == N * N,
            forall|i: int| 0 <= i < N * N ==> nether_col_ok(#[trigger] cols@[i]),
            0 <= a <= 11,
            forall|px: int, py: int, pz: int| #[trigger] bl.at(px, py, pz) == with_fort(w2, cols@, (9 * a) as nat)(px, py, pz),
        decreases 11 - a,
    {
        let mut b: i64 = 0;
        while b < 9
            invariant
                bl.wf(),
                c == mid(),
                fx == fort().0,
                fz == fort().1,
                cols@.len() == N * N,
                forall|i: int| 0 <= i < N * N ==> nether_col_ok(#[trigger] cols@[i]),
                0 <= a < 11,
                0 <= b <= 9,
                forall|px: int, py: int, pz: int| #[trigger] bl.at(px, py, pz) == with_fort(w2, cols@, (9 * a + b) as nat)(px, py, pz),
            decreases 9 - b,
        {
            let k = 9 * a + b;
            let ghost prev = with_fort(w2, cols@, k as nat);
            proof {
                lemma_fort_index(a as int, b as int);
            }
            let x = fx + a;
            let z = fz + b;
            let edge = x == fx || x == fx + 10 || z == fz || z == fz + 8;
            let h0 = bl.height(x, z);
            proof {
                lemma_height_of(*bl, prev, x as int, z as int);
            }
            let h = if h0 > 5 { h0 } else { 5 };
            let i = col(x, z);
            let cc = cols[i];
            proof {
                assert(nether_col_ok(cols@[i as int]));
            }
            bl.fill(x, z, 0, h, B::NetherBrick);
            if edge && cc.wall {
                bl.fill(x, z, h, h + cc.wall_tall, B::NetherBrick);
            }
            proof {
                assert forall|px: int, py: int, pz: int| #[trigger] bl.at(px, py, pz) == with_fort(w2, cols@, (k + 1) as nat)(px, py, pz) by {
                }
            }
            b = b + 1;
        }
        a = a + 1;
    }
}

// ---------------------------------------------------------------- the glowstone lumps

/// The lumps and spikes of the columns visited from k0 up to k leave every other column as it was.
proof fn lemma_lumps_keep(w: spec_fn(int, int, int) -> B, cols: Seq<NetherCol>, k0: nat, k: nat, x: int, y: int, z: int)
    requires
        k0 <= k,
        forall|j: int| k0 <= j < k ==> #[trigger] inner_col(j) != (x, z),
    ensures
        with_lumps(w, cols, k)(x, y, z) == with_lumps(w, cols, k0)(x, y, z),
    decreases k,
{
    if k > k0 {
        assert(inner_col(k - 1) != (x, z));
        lemma_lumps_keep(w, cols, k0, (k - 1) as nat, x, y, z);
    }
}

/// The fortress's first k columns leave every other column as it was.
proof fn lemma_fort_keep(w: spec_fn(int, int, int) -> B, cols: Seq<NetherCol>, k: nat, x: int, y: int, z: int)
    requires
        forall|j: int| 0 <= j < k ==> #[trigger] fort_col(j) != (x, z),
    ensures
        with_fort(w, cols, k)(x, y, z) == w(x, y, z),
    decreases k,
{
    if k > 0 {
        assert(fort_col(k - 1) != (x, z));
        lemma_fort_keep(w, cols, (k - 1) as nat, x, y, z);
    }
}

/// Each inner column is visited once.
proof fn lemma_inner_col_once(j: int, x: int, z: int)
    requires
        0 <= j,
        inner_col(j) == (x, z),
    ensures
        j == (x - 1) * 54 + (z - 1),
{
    vstd::arithmetic::div_mod::lemma_fundamental_div_mod(j, 54);
}

/// A column whose block h - 1 is there with nothing over it is h high.
proof fn lemma_height_at(w: spec_fn(int, int, int) -> B, x: int, z: int, h: int, k: int)
    requires
        1 <= h <= k <= H,
        w(x, h - 1, z) != B::Air,
        forall|y: int| h <= y < H ==> #[trigger] w(x, y, z) == B::Air,
    ensures
        height_below(w, x, z, k) == h,
    decreases k,
{
    if k > h {
        assert(w(x, k - 1, z) == B::Air);
        lemma_height_at(w, x, z, h, k - 1);
    }
}

/// The Nether's glowstone lumps: where the noise puts one, on ground at least 7 high and more than 6 blocks from
/// the middle (and away from the fortress, which is built over everything), the two blocks on top of the ground
/// are glowstone (the Nether built over an empty world).
pub proof fn law_nether_glowstone_lumps(w: spec_fn(int, int, int) -> B, cols: Seq<NetherCol>, x: int, z: int)
    requires
        forall|px: int, py: int, pz: int| #[trigger] w(px, py, pz) == B::Air,
        cols.len() == N * N,
        1 <= x < N - 1,
        1 <= z < N - 1,
        dist2(x, z) > 36,
        cols[spec_col(x, z)].glow,
        7 <= cols[spec_col(x, z)].h,
        cols[spec_col(x, z)].h + 2 <= H,
        !(fort().0 <= x < fort().0 + 11 && fort().1 <= z < fort().1 + 9),
    ensures
        nether_world(w, cols)(x, cols[spec_col(x, z)].h as int, z) == B::Glowstone,
        nether_world(w, cols)(x, cols[spec_col(x, z)].h + 1, z) == B::Glowstone,
{
    let c = cols[spec_col(x, z)];
    let h = c.h as int;
    let g = with_nether_ground(w, cols);
    let idx = (x - 1) * 54 + (z - 1);
    lemma_inner_index(x, z);
    assert(0 <= idx < 2916);
    let prev = with_lumps(g, cols, idx as nat);
    let lumps = with_lumps(g, cols, 2916);
    // the column before its lump is the ground: netherrack up to h, nothing over it
    assert(nether_h(c, x, z) == h);
    assert forall|y: int| #[trigger] prev(x, y, z) == g(x, y, z) by {
        assert forall|j: int| 0 <= j < idx implies #[trigger] inner_col(j) != (x, z) by {
            if inner_col(j) == (x, z) {
                lemma_inner_col_once(j, x, z);
            }
        }
        lemma_lumps_keep(g, cols, 0, idx as nat, x, y, z);
    }
    assert(g(x, h - 1, z) == with_nether_column(w, c, x, z)(x, h - 1, z));
    assert(prev(x, h - 1, z) != B::Air);
    assert forall|y: int| h <= y < H implies #[trigger] prev(x, y, z) == B::Air by {
        assert(g(x, y, z) == with_nether_column(w, c, x, z)(x, y, z));
    }
    lemma_height_at(prev, x, z, h, H as int);
    assert(height_of(prev, x, z) == h);
    let after = with_lumps(g, cols, (idx + 1) as nat);
    assert(after(x, h, z) == B::Glowstone);
    assert(after(x, h + 1, z) == B::Glowstone);
    // later lumps and the fortress are on other columns
    assert forall|y: int| #[trigger] lumps(x, y, z) == after(x, y, z) by {
        assert forall|j: int| idx + 1 <= j < 2916 implies #[trigger] inner_col(j) != (x, z) by {
            if inner_col(j) == (x, z) {
                lemma_inner_col_once(j, x, z);
            }
        }
        lemma_lumps_keep(g, cols, (idx + 1) as nat, 2916, x, y, z);
    }
    assert forall|y: int| #[trigger] nether_world(w, cols)(x, y, z) == lumps(x, y, z) by {
        assert forall|j: int| 0 <= j < 99 implies #[trigger] fort_col(j) != (x, z) by {}
        lemma_fort_keep(lumps, cols, 99, x, y, z);
    }
}

/// The Nether's netherrack spikes: where the noise puts one (and no glowstone lump), on ground at least 6 high and
/// more than 6 blocks from the middle (away from the fortress), the spike's blocks over the ground are netherrack
/// (the Nether built over an empty world).
pub proof fn law_nether_spikes(w: spec_fn(int, int, int) -> B, cols: Seq<NetherCol>, x: int, z: int)
    requires
        forall|px: int, py: int, pz: int| #[trigger] w(px, py, pz) == B::Air,
        cols.len() == N * N,
        1 <= x < N - 1,
        1 <= z < N - 1,
        dist2(x, z) > 36,
        cols[spec_col(x, z)].spike,
        !(cols[spec_col(x, z)].glow && cols[spec_col(x, z)].h >= 7),
        6 <= cols[spec_col(x, z)].h,
        0 <= cols[spec_col(x, z)].spike_tall,
        cols[spec_col(x, z)].h + cols[spec_col(x, z)].spike_tall <= H,
        !(fort().0 <= x < fort().0 + 11 && fort().1 <= z < fort().1 + 9),
    ensures
        forall|y: int| cols[spec_col(x, z)].h <= y < cols[spec_col(x, z)].h + cols[spec_col(x, z)].spike_tall
            ==> #[trigger] nether_world(w, cols)(x, y, z) == B::Netherrack,
{
    let c = cols[spec_col(x, z)];
    let h = c.h as int;
    let g = with_nether_ground(w, cols);
    let idx = (x - 1) * 54 + (z - 1);
    lemma_inner_index(x, z);
    assert(0 <= idx < 2916);
    let prev = with_lumps(g, cols, idx as nat);
    let lumps = with_lumps(g, cols, 2916);
    // the column before its lump is the ground: netherrack up to h, nothing over it
    assert(nether_h(c, x, z) == h);
    assert forall|y: int| #[trigger] prev(x, y, z) == g(x, y, z) by {
        assert forall|j: int| 0 <= j < idx implies #[trigger] inner_col(j) != (x, z) by {
            if inner_col(j) == (x, z) {
                lemma_inner_col_once(j, x, z);
            }
        }
        lemma_lumps_keep(g, cols, 0, idx as nat, x, y, z);
    }
    assert(g(x, h - 1, z) == with_nether_column(w, c, x, z)(x, h - 1, z));
    assert(prev(x, h - 1, z) != B::Air);
    assert forall|y: int| h <= y < H implies #[trigger] prev(x, y, z) == B::Air by {
        assert(g(x, y, z) == with_nether_column(w, c, x, z)(x, y, z));
    }
    lemma_height_at(prev, x, z, h, H as int);
    assert(height_of(prev, x, z) == h);
    let after = with_lumps(g, cols, (idx + 1) as nat);
    assert forall|y: int| h <= y < h + c.spike_tall implies #[trigger] after(x, y, z) == B::Netherrack by {}
    // later lumps and the fortress are on other columns
    assert forall|y: int| #[trigger] lumps(x, y, z) == after(x, y, z) by {
        assert forall|j: int| idx + 1 <= j < 2916 implies #[trigger] inner_col(j) != (x, z) by {
            if inner_col(j) == (x, z) {
                lemma_inner_col_once(j, x, z);
            }
        }
        lemma_lumps_keep(g, cols, (idx + 1) as nat, 2916, x, y, z);
    }
    assert forall|y: int| #[trigger] nether_world(w, cols)(x, y, z) == lumps(x, y, z) by {
        assert forall|j: int| 0 <= j < 99 implies #[trigger] fort_col(j) != (x, z) by {}
        lemma_fort_keep(lumps, cols, 99, x, y, z);
    }
    assert forall|y: int| h <= y < h + c.spike_tall implies #[trigger] nether_world(w, cols)(x, y, z) == B::Netherrack by {
        assert(nether_world(w, cols)(x, y, z) == lumps(x, y, z));
        assert(lumps(x, y, z) == after(x, y, z));
    }
}

/// The Nether's ground, column by column (built over an empty world, away from the middle's flat ground and from
/// the fortress): netherrack up to the noise's height, its top block soul sand where the noise says so (else
/// netherrack); a hollow (height 5 or less) is filled with lava up to 5 and has nothing over it; the lumps and
/// spikes only ever grow on top of the ground.
pub proof fn law_nether_ground(w: spec_fn(int, int, int) -> B, cols: Seq<NetherCol>, x: int, z: int)
    requires
        forall|px: int, py: int, pz: int| #[trigger] w(px, py, pz) == B::Air,
        cols.len() == N * N,
        1 <= x < N - 1,
        1 <= z < N - 1,
        dist2(x, z) >= 25,
        0 <= cols[spec_col(x, z)].h <= H,
        !(fort().0 <= x < fort().0 + 11 && fort().1 <= z < fort().1 + 9),
    ensures
        ({
            let c = cols[spec_col(x, z)];
            let h = c.h as int;
            let nw = nether_world(w, cols);
            &&& forall|y: int| 0 <= y < h - 1 && y != 4 ==> #[trigger] nw(x, y, z) == B::Netherrack
            &&& 1 <= h && h - 1 != 4 ==> nw(x, h - 1, z) == if c.soul { B::SoulSand } else { B::Netherrack }
            &&& h <= 5 ==> (forall|y: int| h <= y < 5 ==> #[trigger] nw(x, y, z) == B::Lava)
            &&& h <= 5 ==> nw(x, 4, z) == B::Lava
            &&& h <= 5 ==> (forall|y: int| 5 <= y < H ==> #[trigger] nw(x, y, z) == B::Air)
        }),
{
    let c = cols[spec_col(x, z)];
    let h = c.h as int;
    let g = with_nether_ground(w, cols);
    let col_g = with_nether_column(w, c, x, z);
    assert forall|y: int| #[trigger] g(x, y, z) == col_g(x, y, z) by {}
    assert(nether_h(c, x, z) == h);
    let idx = (x - 1) * 54 + (z - 1);
    lemma_inner_index(x, z);
    let prev = with_lumps(g, cols, idx as nat);
    let after = with_lumps(g, cols, (idx + 1) as nat);
    let lumps = with_lumps(g, cols, 2916);
    let nw = nether_world(w, cols);
    assert forall|y: int| #[trigger] prev(x, y, z) == g(x, y, z) by {
        assert forall|j: int| 0 <= j < idx implies #[trigger] inner_col(j) != (x, z) by {
            if inner_col(j) == (x, z) {
                lemma_inner_col_once(j, x, z);
            }
        }
        lemma_lumps_keep(g, cols, 0, idx as nat, x, y, z);
    }
    assert forall|y: int| #[trigger] lumps(x, y, z) == after(x, y, z) by {
        assert forall|j: int| idx + 1 <= j < 2916 implies #[trigger] inner_col(j) != (x, z) by {
            if inner_col(j) == (x, z) {
                lemma_inner_col_once(j, x, z);
            }
        }
        lemma_lumps_keep(g, cols, (idx + 1) as nat, 2916, x, y, z);
    }
    assert forall|y: int| #[trigger] nw(x, y, z) == lumps(x, y, z) by {
        assert forall|j: int| 0 <= j < 99 implies #[trigger] fort_col(j) != (x, z) by {}
        lemma_fort_keep(lumps, cols, 99, x, y, z);
    }
    if h <= 5 {
        assert(prev(x, 4, z) == B::Lava);
        assert forall|y: int| 5 <= y < H implies #[trigger] prev(x, y, z) == B::Air by {
            assert(prev(x, y, z) == col_g(x, y, z));
        }
        lemma_height_at(prev, x, z, 5, H as int);
        assert forall|y: int| #[trigger] after(x, y, z) == prev(x, y, z) by {}
    } else {
        assert(prev(x, h - 1, z) != B::Air);
        assert forall|y: int| h <= y < H implies #[trigger] prev(x, y, z) == B::Air by {
            assert(prev(x, y, z) == col_g(x, y, z));
        }
        lemma_height_at(prev, x, z, h, H as int);
        assert forall|y: int| y < h implies #[trigger] after(x, y, z) == prev(x, y, z) by {}
    }
    assert forall|y: int| 0 <= y < h - 1 && y != 4 implies #[trigger] nw(x, y, z) == B::Netherrack by {
        assert(nw(x, y, z) == g(x, y, z));
    }
    if 1 <= h && h - 1 != 4 {
        assert(nw(x, h - 1, z) == g(x, h - 1, z));
    }
    if h <= 5 {
        assert forall|y: int| h <= y < 5 implies #[trigger] nw(x, y, z) == B::Lava by {
            assert(nw(x, y, z) == g(x, y, z));
        }
        assert(nw(x, 4, z) == g(x, 4, z));
        assert forall|y: int| 5 <= y < H implies #[trigger] nw(x, y, z) == B::Air by {
            assert(nw(x, y, z) == g(x, y, z));
        }
    }
}

} // verus!
