//! The Overworld: grassy hills over dirt and stone, lakes in the hollows with sandy shores, a path across the
//! middle, and trees. The noise that shapes it is given, per column, as plain values.
use vstd::prelude::*;
use crate::world::{B, Blocks, N, H, in_grid, in_world, spec_col, col, tree, in_crown, leaf_reach, tree_piece};
use crate::worldgen::{world_of, with_block, with_column, with_tree, height_of, height_below, lemma_height_of, dist2, mid};

verus! {

/// What the noise says of a column of the Overworld.
pub struct OverworldCol {
    /// how high the ground is (the middle is flattened to 5)
    pub h: i64,
    /// at the lakes' edge (height 4): the shore dips under the water
    pub dip: bool,
    /// at height 5: sand instead of grass
    pub sandy: bool,
    /// a flower in the grass
    pub flower: bool,
    /// a tree grows here (on grass, more than 6 blocks from the middle), this tall, with these bare corners
    pub tree: bool,
    pub tree_tall: i64,
    pub bare: Vec<bool>,
}

/// Values the noise can give.
pub open spec fn overworld_col_ok(c: OverworldCol) -> bool {
    0 <= c.h <= H && 0 <= c.tree_tall <= H && c.bare@.len() == 16
}

/// The ground's height at column (x, z): flat (5) within 5 blocks of the middle.
pub open spec fn overworld_h(c: OverworldCol, x: int, z: int) -> int {
    if dist2(x, z) < 25 { 5 } else { c.h as int }
}

/// One column of the ground: dirt up to its height over stone (up to 3 below the top, at least the bottom block);
/// in the hollows (height 4 or less) a sand floor under water up to 5, at the lakes' edge sometimes a dip; else
/// sand, a flower or grass on top.
pub open spec fn with_overworld_column(w: spec_fn(int, int, int) -> B, c: OverworldCol, x: int, z: int) -> spec_fn(int, int, int) -> B {
    let h = overworld_h(c, x, z);
    let s = if h - 3 > 1 { h - 3 } else { 1 };
    let w1 = with_column(with_column(w, x, z, 0, h, B::Dirt), x, z, 0, s, B::Stone);
    if h <= 4 {
        let w2 = with_column(with_block(w1, x, h - 1, z, B::Sand), x, z, h, 5, B::Water);
        if h == 4 && c.dip { with_block(with_block(w2, x, 4, z, B::Air), x, 3, z, B::Sand) } else { w2 }
    } else if h == 5 && c.sandy {
        with_block(w1, x, h - 1, z, B::Sand)
    } else {
        with_block(w1, x, h - 1, z, if c.flower { B::Flower } else { B::Grass })
    }
}

/// The Overworld's ground, every column.
pub open spec fn with_overworld_ground(w: spec_fn(int, int, int) -> B, cols: Seq<OverworldCol>) -> spec_fn(int, int, int) -> B {
    |x: int, y: int, z: int| if in_grid(x, z) { with_overworld_column(w, cols[spec_col(x, z)], x, z)(x, y, z) } else { w(x, y, z) }
}

/// The trail's column visited k-th: the two middle rows, along x.
pub open spec fn trail_col(k: int) -> (int, int) {
    (k / 2, mid() - 1 + k % 2)
}

/// The first k columns of the trail: their grass or flower on top turns to path.
pub open spec fn with_trail(w: spec_fn(int, int, int) -> B, k: nat) -> spec_fn(int, int, int) -> B
    decreases k,
{
    if k == 0 {
        w
    } else {
        let prev = with_trail(w, (k - 1) as nat);
        let (x, z) = trail_col(k - 1);
        let h = height_of(prev, x, z);
        if h > 0 && (prev(x, h - 1, z) == B::Grass || prev(x, h - 1, z) == B::Flower) {
            with_block(prev, x, h - 1, z, B::Path)
        } else {
            prev
        }
    }
}

/// The column visited k-th for trees: by rows of x, 2 blocks in from the edge (52 columns a row).
pub open spec fn tree_col(k: int) -> (int, int) {
    (2 + k / 52, 2 + k % 52)
}

/// The first k columns with their tree, where the noise puts one on grass more than 6 blocks from the middle.
pub open spec fn with_trees(w: spec_fn(int, int, int) -> B, cols: Seq<OverworldCol>, k: nat) -> spec_fn(int, int, int) -> B
    decreases k,
{
    if k == 0 {
        w
    } else {
        let prev = with_trees(w, cols, (k - 1) as nat);
        let (x, z) = tree_col(k - 1);
        let h = height_of(prev, x, z);
        let c = cols[spec_col(x, z)];
        if dist2(x, z) > 36 && prev(x, h - 1, z) == B::Grass && c.tree {
            with_tree(prev, x, z, h, c.tree_tall as int, c.bare@)
        } else {
            prev
        }
    }
}

/// The whole Overworld built over `w`.
pub open spec fn overworld(w: spec_fn(int, int, int) -> B, cols: Seq<OverworldCol>) -> spec_fn(int, int, int) -> B {
    with_trees(with_trail(with_overworld_ground(w, cols), 112), cols, 2704)
}

proof fn lemma_pair_index(x: int, b: int)
    requires
        0 <= x,
        0 <= b < 2,
    ensures
        (2 * x + b) / 2 == x,
        (2 * x + b) % 2 == b,
{
    vstd::arithmetic::div_mod::lemma_fundamental_div_mod_converse(2 * x + b, 2, x, b);
}

proof fn lemma_tree_index(x: int, z: int)
    requires
        2 <= x < 54,
        2 <= z < 54,
    ensures
        tree_col((x - 2) * 52 + (z - 2)) == (x, z),
{
    vstd::arithmetic::div_mod::lemma_fundamental_div_mod_converse((x - 2) * 52 + (z - 2), 52, x - 2, z - 2);
}

/// Builds the Overworld: `cols` is what the noise says of each column.
pub fn gen_overworld(bl: &mut Blocks, cols: &Vec<OverworldCol>)
    requires
        old(bl).wf(),
        cols@.len() == N * N,
        forall|i: int| 0 <= i < N * N ==> overworld_col_ok(#[trigger] cols@[i]),
    ensures
        final(bl).wf(),
        forall|x: int, y: int, z: int| #[trigger] final(bl).at(x, y, z) == overworld(world_of(*old(bl)), cols@)(x, y, z),
{
    let ghost w0 = world_of(*bl);
    let c: i64 = N / 2;
    // hills, lakes and their shores
    let mut x: i64 = 0;
    while x < N
        invariant
            bl.wf(),
            c == mid(),
            cols@.len() == N * N,
            forall|i: int| 0 <= i < N * N ==> overworld_col_ok(#[trigger] cols@[i]),
            0 <= x <= N,
            forall|px: int, py: int, pz: int|
                #[trigger] bl.at(px, py, pz) == if px < x { with_overworld_ground(w0, cols@)(px, py, pz) } else { w0(px, py, pz) },
        decreases N - x,
    {
        let mut z: i64 = 0;
        while z < N
            invariant
                bl.wf(),
                c == mid(),
                cols@.len() == N * N,
                forall|i: int| 0 <= i < N * N ==> overworld_col_ok(#[trigger] cols@[i]),
                0 <= x < N,
                0 <= z <= N,
                forall|px: int, py: int, pz: int|
                    #[trigger] bl.at(px, py, pz) == if px < x || (px == x && pz < z) {
                        with_overworld_ground(w0, cols@)(px, py, pz)
                    } else {
                        w0(px, py, pz)
                    },
            decreases N - z,
        {
            let i = col(x, z);
            let cc = &cols[i];
            proof {
                assert(overworld_col_ok(cols@[i as int]));
            }
            let dx = x - c;
            let dz = z - c;
            proof {
                assert(0 <= dx * dx <= 10000 && 0 <= dz * dz <= 10000) by (nonlinear_arith)
                    requires
                        -100 <= dx <= 100,
                        -100 <= dz <= 100,
                ;
            }
            let h = if dx * dx + dz * dz < 25 { 5 } else { cc.h };
            bl.fill(x, z, 0, h, B::Dirt);
            bl.fill(x, z, 0, if h - 3 > 1 { h - 3 } else { 1 }, B::Stone);
            if h <= 4 {
                bl.set(x, h - 1, z, B::Sand);
                bl.fill(x, z, h, 5, B::Water);
                if h == 4 && cc.dip {
                    bl.set(x, 4, z, B::Air);
                    bl.set(x, 3, z, B::Sand);
                }
            } else if h == 5 && cc.sandy {
                bl.set(x, h - 1, z, B::Sand);
            } else {
                bl.set(x, h - 1, z, if cc.flower { B::Flower } else { B::Grass });
            }
            z = z + 1;
        }
        x = x + 1;
    }
    let ghost w1 = with_overworld_ground(w0, cols@);
    // a trail across the middle
    let mut x: i64 = 0;
    while x < N
        invariant
            bl.wf(),
            c == mid(),
            0 <= x <= N,
            forall|px: int, py: int, pz: int| #[trigger] bl.at(px, py, pz) == with_trail(w1, (2 * x) as nat)(px, py, pz),
        decreases N - x,
    {
        let mut b: i64 = 0;
        while b < 2
            invariant
                bl.wf(),
                c == mid(),
                0 <= x < N,
                0 <= b <= 2,
                forall|px: int, py: int, pz: int| #[trigger] bl.at(px, py, pz) == with_trail(w1, (2 * x + b) as nat)(px, py, pz),
            decreases 2 - b,
        {
            let k = 2 * x + b;
            let ghost prev = with_trail(w1, k as nat);
            proof {
                lemma_pair_index(x as int, b as int);
            }
            let z = c - 1 + b;
            let h = bl.height(x, z);
            proof {
                lemma_height_of(*bl, prev, x as int, z as int);
            }
            if h > 0 {
                let top = bl.get(x, h - 1, z);
                if top == B::Grass || top == B::Flower {
                    bl.set(x, h - 1, z, B::Path);
                }
            }
            proof {
                assert forall|px: int, py: int, pz: int| #[trigger] bl.at(px, py, pz) == with_trail(w1, (k + 1) as nat)(px, py, pz) by {
                }
            }
            b = b + 1;
        }
        x = x + 1;
    }
    let ghost w2 = with_trail(w1, 112);
    // trees
    let mut x: i64 = 2;
    while x < 54
        invariant
            bl.wf(),
            c == mid(),
            cols@.len() == N * N,
            forall|i: int| 0 <= i < N * N ==> overworld_col_ok(#[trigger] cols@[i]),
            2 <= x <= 54,
            forall|px: int, py: int, pz: int| #[trigger] bl.at(px, py, pz) == with_trees(w2, cols@, ((x - 2) * 52) as nat)(px, py, pz),
        decreases 54 - x,
    {
        let mut z: i64 = 2;
        while z < 54
            invariant
                bl.wf(),
                c == mid(),
                cols@.len() == N * N,
                forall|i: int| 0 <= i < N * N ==> overworld_col_ok(#[trigger] cols@[i]),
                2 <= x < 54,
                2 <= z <= 54,
                forall|px: int, py: int, pz: int|
                    #[trigger] bl.at(px, py, pz) == with_trees(w2, cols@, ((x - 2) * 52 + (z - 2)) as nat)(px, py, pz),
            decreases 54 - z,
        {
            let k = (x - 2) * 52 + (z - 2);
            let ghost prev = with_trees(w2, cols@, k as nat);
            proof {
                lemma_tree_index(x as int, z as int);
            }
            let h = bl.height(x, z);
            proof {
                lemma_height_of(*bl, prev, x as int, z as int);
            }
            let i = col(x, z);
            let cc = &cols[i];
            proof {
                assert(overworld_col_ok(cols@[i as int]));
            }
            let dx = x - c;
            let dz = z - c;
            proof {
                assert(0 <= dx * dx <= 10000 && 0 <= dz * dz <= 10000) by (nonlinear_arith)
                    requires
                        -100 <= dx <= 100,
                        -100 <= dz <= 100,
                ;
            }
            if dx * dx + dz * dz > 36 && bl.get(x, h - 1, z) == B::Grass && cc.tree {
                tree(bl, x, z, h, cc.tree_tall, &cc.bare);
            }
            proof {
                assert forall|px: int, py: int, pz: int| #[trigger] bl.at(px, py, pz) == with_trees(w2, cols@, (k + 1) as nat)(px, py, pz) by {
                }
            }
            z = z + 1;
        }
        x = x + 1;
    }
}

// ---------------------------------------------------------------- the spawn

/// Within 3 blocks of the middle: where Steve starts.
pub open spec fn near_spawn(x: int, z: int) -> bool {
    in_grid(x, z) && dist2(x, z) <= 9
}

/// The top blocks Steve can stand on at the spawn.
pub open spec fn spawn_top(b: B) -> bool {
    b == B::Grass || b == B::Flower || b == B::Sand || b == B::Path
}

/// A column more than 6 blocks from the middle is more than 3 away from it even 2 blocks to each side.
proof fn lemma_far(a: int, b: int, dx: int, dz: int)
    requires
        a * a + b * b > 36,
        -2 <= dx <= 2,
        -2 <= dz <= 2,
    ensures
        (a + dx) * (a + dx) + (b + dz) * (b + dz) > 9,
{
    let p = a + dx;
    let q = b + dz;
    if p * p + q * q <= 9 {
        assert(-3 <= p <= 3 && -3 <= q <= 3) by (nonlinear_arith)
            requires
                p * p + q * q <= 9,
        ;
        assert(a * a + b * b <= 36) by (nonlinear_arith)
            requires
                -3 <= p <= 3,
                -3 <= q <= 3,
                p * p + q * q <= 9,
                a == p - dx,
                b == q - dz,
                -2 <= dx <= 2,
                -2 <= dz <= 2,
        ;
    }
}

/// The trees leave the columns near the spawn as they were.
proof fn lemma_trees_keep_near(w: spec_fn(int, int, int) -> B, cols: Seq<OverworldCol>, k: nat, x: int, y: int, z: int)
    requires
        near_spawn(x, z),
    ensures
        with_trees(w, cols, k)(x, y, z) == w(x, y, z),
    decreases k,
{
    if k > 0 {
        lemma_trees_keep_near(w, cols, (k - 1) as nat, x, y, z);
        let prev = with_trees(w, cols, (k - 1) as nat);
        let (tx, tz) = tree_col(k - 1);
        let h = height_of(prev, tx, tz);
        let c = cols[spec_col(tx, tz)];
        if dist2(tx, tz) > 36 && prev(tx, h - 1, tz) == B::Grass && c.tree {
            if -2 <= x - tx <= 2 && -2 <= z - tz <= 2 {
                lemma_far(tx - mid(), tz - mid(), x - tx, z - tz);
                assert(false);
            }
            let top = h + c.tree_tall;
            assert(leaf_reach(y, top) <= 2);
            assert(!in_crown(tx, tz, top, x, y, z));
            assert(with_tree(prev, tx, tz, h, c.tree_tall as int, c.bare@)(x, y, z) == tree_piece(prev(x, y, z), tx, tz, h, c.tree_tall as int, c.bare@, x, y, z));
        }
    }
}

/// A column whose block 4 is there with nothing over it is 5 high.
proof fn lemma_height_five(w: spec_fn(int, int, int) -> B, x: int, z: int, k: int)
    requires
        5 <= k <= H,
        w(x, 4, z) != B::Air,
        forall|y: int| 5 <= y < H ==> #[trigger] w(x, y, z) == B::Air,
    ensures
        height_below(w, x, z, k) == 5,
    decreases k,
{
    if k > 5 {
        assert(w(x, k - 1, z) == B::Air);
        lemma_height_five(w, x, z, k - 1);
    }
}

/// The spawn's columns of the ground: block 4 is sand, a flower or grass, with nothing over it.
pub open spec fn spawn_ground(g: spec_fn(int, int, int) -> B, x: int, z: int) -> bool {
    &&& (g(x, 4, z) == B::Sand || g(x, 4, z) == B::Flower || g(x, 4, z) == B::Grass)
    &&& forall|y: int| 5 <= y < H ==> #[trigger] g(x, y, z) == B::Air
}

/// The trail changes a column near the spawn at most by turning its top block into path.
proof fn lemma_trail_near(g: spec_fn(int, int, int) -> B, k: nat, x: int, z: int)
    requires
        near_spawn(x, z),
        spawn_ground(g, x, z),
    ensures
        forall|y: int| y != 4 ==> #[trigger] with_trail(g, k)(x, y, z) == g(x, y, z),
        spawn_top(with_trail(g, k)(x, 4, z)),
    decreases k,
{
    if k > 0 {
        lemma_trail_near(g, (k - 1) as nat, x, z);
        let prev = with_trail(g, (k - 1) as nat);
        let (tx, tz) = trail_col(k - 1);
        if tx == x && tz == z {
            assert(forall|y: int| 5 <= y < H ==> #[trigger] prev(x, y, z) == B::Air) by {
                assert forall|y: int| 5 <= y < H implies #[trigger] prev(x, y, z) == B::Air by {
                    assert(prev(x, y, z) == g(x, y, z));
                }
            }
            lemma_height_five(prev, x, z, H as int);
            assert(height_of(prev, tx, tz) == 5);
        }
    }
}

/// The ground's columns near the spawn (over an empty world).
proof fn lemma_ground_near(w: spec_fn(int, int, int) -> B, cols: Seq<OverworldCol>, x: int, z: int)
    requires
        near_spawn(x, z),
        forall|px: int, py: int, pz: int| #[trigger] w(px, py, pz) == B::Air,
    ensures
        spawn_ground(with_overworld_ground(w, cols), x, z),
{
    let g = with_overworld_ground(w, cols);
    let c = cols[spec_col(x, z)];
    assert(overworld_h(c, x, z) == 5);
    assert(g(x, 4, z) == with_overworld_column(w, c, x, z)(x, 4, z));
    assert forall|y: int| 5 <= y < H implies #[trigger] g(x, y, z) == B::Air by {
        assert(g(x, y, z) == with_overworld_column(w, c, x, z)(x, y, z));
    }
}

/// The Overworld's spawn is flat, dry and walkable: every column within 3 blocks of the middle is 5 high and its
/// top block is grass, a flower, sand or path (built over an empty world, whatever the noise).
pub proof fn law_overworld_spawn_is_flat(w: spec_fn(int, int, int) -> B, cols: Seq<OverworldCol>, x: int, z: int)
    requires
        forall|px: int, py: int, pz: int| #[trigger] w(px, py, pz) == B::Air,
        near_spawn(x, z),
    ensures
        height_of(overworld(w, cols), x, z) == 5,
        spawn_top(overworld(w, cols)(x, 4, z)),
{
    let g = with_overworld_ground(w, cols);
    let t = with_trail(g, 112);
    let o = overworld(w, cols);
    lemma_ground_near(w, cols, x, z);
    lemma_trail_near(g, 112, x, z);
    assert forall|y: int| true implies #[trigger] o(x, y, z) == t(x, y, z) by {
        lemma_trees_keep_near(t, cols, 2704, x, y, z);
    }
    assert(o(x, 4, z) != B::Air);
    assert forall|y: int| 5 <= y < H implies #[trigger] o(x, y, z) == B::Air by {
        assert(o(x, y, z) == t(x, y, z));
        assert(t(x, y, z) == g(x, y, z));
    }
    lemma_height_five(o, x, z, H as int);
}

// ---------------------------------------------------------------- the trail

/// Blocks that the trail and the trees put down.
pub open spec fn laid_down(b: B) -> bool {
    b == B::Path || b == B::Log || b == B::Leaves
}

/// The top block of column (x, z).
pub open spec fn top_of(w: spec_fn(int, int, int) -> B, x: int, z: int) -> B {
    w(x, height_of(w, x, z) - 1, z)
}

/// A column that isn't empty doesn't end in grass or a flower.
pub open spec fn no_grass_top(w: spec_fn(int, int, int) -> B, x: int, z: int) -> bool {
    height_of(w, x, z) > 0 ==> top_of(w, x, z) != B::Grass && top_of(w, x, z) != B::Flower
}

proof fn lemma_height_below_le(w: spec_fn(int, int, int) -> B, x: int, z: int, k: int)
    ensures
        height_below(w, x, z, k) <= k || height_below(w, x, z, k) == -1,
        height_below(w, x, z, k) == -1 || height_below(w, x, z, k) >= 1,
    decreases k,
{
    if k > 0 {
        lemma_height_below_le(w, x, z, k - 1);
    }
}

/// When a column's blocks only stay or turn into path, logs or leaves, its new top block is one of those, or the
/// same block at the same height.
proof fn lemma_top_below(w1: spec_fn(int, int, int) -> B, w2: spec_fn(int, int, int) -> B, x: int, z: int, k: int)
    requires
        forall|y: int| #[trigger] w2(x, y, z) == w1(x, y, z) || laid_down(w2(x, y, z)),
    ensures
        height_below(w2, x, z, k) > 0 ==> laid_down(w2(x, height_below(w2, x, z, k) - 1, z)) || (height_below(w2, x, z, k)
            == height_below(w1, x, z, k) && w2(x, height_below(w2, x, z, k) - 1, z) == w1(x, height_below(w1, x, z, k) - 1, z)),
    decreases k,
{
    if k > 0 {
        assert(w2(x, k - 1, z) == w1(x, k - 1, z) || laid_down(w2(x, k - 1, z)));
        if w2(x, k - 1, z) == B::Air {
            lemma_top_below(w1, w2, x, z, k - 1);
        }
    }
}

/// The trail's k-th column is (x, z) for x = k / 2 and z one of the two middle rows.
proof fn lemma_trail_col_distinct(j: int, k: int)
    requires
        0 <= j < k,
    ensures
        trail_col(j) != trail_col(k),
{
}

/// Once the trail has passed a column, its top block is neither grass nor a flower.
proof fn lemma_trail_top(g: spec_fn(int, int, int) -> B, k: nat, j: int)
    requires
        0 <= j < k <= 2 * N,
    ensures
        no_grass_top(with_trail(g, k), trail_col(j).0, trail_col(j).1),
    decreases k,
{
    let prev = with_trail(g, (k - 1) as nat);
    let cur = with_trail(g, k);
    let (tx, tz) = trail_col(k - 1);
    let (x, z) = trail_col(j);
    let h = height_of(prev, tx, tz);
    lemma_height_below_le(prev, tx, tz, H as int);
    if j < k - 1 {
        lemma_trail_top(g, (k - 1) as nat, j);
        lemma_trail_col_distinct(j, k - 1);
        assert forall|y: int| #[trigger] cur(x, y, z) == prev(x, y, z) || laid_down(cur(x, y, z)) by {}
        lemma_top_below(prev, cur, x, z, H as int);
    } else {
        assert(in_grid(tx, tz));
        assert forall|y: int| #[trigger] cur(x, y, z) == prev(x, y, z) || laid_down(cur(x, y, z)) by {}
        lemma_top_below(prev, cur, x, z, H as int);
    }
}

/// The trees never put grass or a flower on top of a column.
proof fn lemma_trees_top(t: spec_fn(int, int, int) -> B, cols: Seq<OverworldCol>, k: nat, x: int, z: int)
    requires
        no_grass_top(t, x, z),
    ensures
        no_grass_top(with_trees(t, cols, k), x, z),
    decreases k,
{
    if k > 0 {
        lemma_trees_top(t, cols, (k - 1) as nat, x, z);
        let prev = with_trees(t, cols, (k - 1) as nat);
        let cur = with_trees(t, cols, k);
        assert forall|y: int| #[trigger] cur(x, y, z) == prev(x, y, z) || laid_down(cur(x, y, z)) by {}
        lemma_top_below(prev, cur, x, z, H as int);
    }
}

/// The trail across the middle of the Overworld: on its two rows, no column ends in grass or a flower (whatever
/// the world under it and the noise).
pub proof fn law_overworld_trail_has_no_grass(w: spec_fn(int, int, int) -> B, cols: Seq<OverworldCol>, x: int, z: int)
    requires
        0 <= x < N,
        z == mid() - 1 || z == mid(),
    ensures
        no_grass_top(overworld(w, cols), x, z),
{
    let b = z - (mid() - 1);
    lemma_pair_index(x, b);
    let j = 2 * x + b;
    assert(trail_col(j) == (x, z));
    let t = with_trail(with_overworld_ground(w, cols), 112);
    lemma_trail_top(with_overworld_ground(w, cols), 112, j);
    lemma_trees_top(t, cols, 2704, x, z);
}

} // verus!
