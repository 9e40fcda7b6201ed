//! Building worlds block by block. A world is seen here as what is at each place (a function of x, y and z), and
//! each building step - a tower, a tree, a column, a block - as a change of that function; the generators'
//! contracts say which steps make a world, in which order. The world's noise (which columns get what) is given as
//! plain values.
use vstd::prelude::*;
use crate::world::{B, Blocks, N, H, in_world, in_grid, spec_col, tower_block, tree_piece, col};

verus! {

/// A world as what is at each place.
pub open spec fn world_of(bl: Blocks) -> spec_fn(int, int, int) -> B {
    |x: int, y: int, z: int| bl.at(x, y, z)
}

/// The middle of the world.
pub open spec fn mid() -> int {
    N / 2
}

/// `w` with a tower (see `tower_block`) built in it.
pub open spec fn with_tower(w: spec_fn(int, int, int) -> B, x0: int, z0: int, wd: int, y0: int, y1: int, wall: B, corner: B) -> spec_fn(
    int,
    int,
    int,
) -> B {
    |x: int, y: int, z: int|
        match tower_block(x0, z0, wd, y0, y1, wall, corner, x, y, z) {
            Some(b) => b,
            None => w(x, y, z),
        }
}

/// `w` with a tree (see `tree_piece`) grown in it.
pub open spec fn with_tree(w: spec_fn(int, int, int) -> B, x: int, z: int, h: int, tall: int, bare: Seq<bool>) -> spec_fn(
    int,
    int,
    int,
) -> B {
    |lx: int, y: int, lz: int| tree_piece(w(lx, y, lz), x, z, h, tall, bare, lx, y, lz)
}

/// `w` with block b at (x, y, z) (nothing changes outside the world).
pub open spec fn with_block(w: spec_fn(int, int, int) -> B, x: int, y: int, z: int, b: B) -> spec_fn(int, int, int) -> B {
    |px: int, py: int, pz: int| if px == x && py == y && pz == z && in_world(px, py, pz) { b } else { w(px, py, pz) }
}

/// `w` with a column of b at (x, z) from y0 up to y1 (not included).
pub open spec fn with_column(w: spec_fn(int, int, int) -> B, x: int, z: int, y0: int, y1: int, b: B) -> spec_fn(int, int, int) -> B {
    |px: int, py: int, pz: int| if px == x && pz == z && y0 <= py < y1 && in_world(px, py, pz) { b } else { w(px, py, pz) }
}

/// Lot or crossing 6a + b of a 6 x 6 grid is in row a, place b.
pub proof fn lemma_grid_index(a: int, b: int)
    requires
        0 <= a,
        0 <= b < 6,
    ensures
        (6 * a + b) / 6 == a,
        (6 * a + b) % 6 == b,
{
    vstd::arithmetic::div_mod::lemma_fundamental_div_mod_converse(6 * a + b, 6, a, b);
}

/// The top of the highest block of column (x, z) under layer k in world w, -1 when there is none.
pub open spec fn height_below(w: spec_fn(int, int, int) -> B, x: int, z: int, k: int) -> int
    decreases k,
{
    if k <= 0 {
        -1
    } else if w(x, k - 1, z) != B::Air {
        k
    } else {
        height_below(w, x, z, k - 1)
    }
}

/// Where one stands on column (x, z) of world w: the top of its highest block, -1 when it is empty.
pub open spec fn height_of(w: spec_fn(int, int, int) -> B, x: int, z: int) -> int {
    height_below(w, x, z, H as int)
}

proof fn lemma_height_below(bl: Blocks, w: spec_fn(int, int, int) -> B, x: int, z: int, k: int)
    requires
        forall|px: int, py: int, pz: int| #[trigger] bl.at(px, py, pz) == w(px, py, pz),
    ensures
        bl.height_below(x, z, k) == height_below(w, x, z, k),
    decreases k,
{
    if k > 0 {
        assert(bl.at(x, k - 1, z) == w(x, k - 1, z));
        lemma_height_below(bl, w, x, z, k - 1);
    }
}

/// A column's height in the blocks is its height in the world they hold.
pub proof fn lemma_height_of(bl: Blocks, w: spec_fn(int, int, int) -> B, x: int, z: int)
    requires
        forall|px: int, py: int, pz: int| #[trigger] bl.at(px, py, pz) == w(px, py, pz),
    ensures
        bl.spec_height(x, z) == height_of(w, x, z),
{
    lemma_height_below(bl, w, x, z, H as int);
}

/// `w` with the columns of an island of end stone: per column, the bottom and top of its stone (None: none).
pub open spec fn with_island(w: spec_fn(int, int, int) -> B, cols: Seq<Option<(i64, i64)>>) -> spec_fn(int, int, int) -> B {
    |x: int, y: int, z: int|
        match cols[spec_col(x, z)] {
            Some(r) => if in_world(x, y, z) && r.0 <= y < r.1 { B::EndStone } else { w(x, y, z) },
            None => w(x, y, z),
        }
}

/// An island as it is put: a column with a stone range (bottom, top) is end stone from its bottom up to (not
/// including) its top, inside the world; everything else stays as it was.
pub proof fn law_island_shape(w: spec_fn(int, int, int) -> B, cols: Seq<Option<(i64, i64)>>, x: int, y: int, z: int)
    ensures
        ({
            let r = with_island(w, cols)(x, y, z);
            match cols[spec_col(x, z)] {
                Some(range) => if 0 <= x < N && 0 <= z < N && 0 <= y < H && range.0 <= y < range.1 { r == B::EndStone } else { r == w(x, y, z) },
                None => r == w(x, y, z),
            }
        }),
{
}

/// An island of end stone floating in the void (island): the world's noise shapes it, column by column - `cols`
/// holds, per column, the bottom and the top of its stone (thicker in the middle), None outside it.
pub fn island(bl: &mut Blocks, cols: &Vec<Option<(i64, i64)>>)
    requires
        old(bl).wf(),
        cols@.len() == N * N,
    ensures
        final(bl).wf(),
        forall|x: int, y: int, z: int| #[trigger] final(bl).at(x, y, z) == with_island(world_of(*old(bl)), cols@)(x, y, z),
{
    let ghost w0 = world_of(*bl);
    let mut x: i64 = 0;
    while x < N
        invariant
            bl.wf(),
            cols@.len() == N * N,
            0 <= x <= N,
            forall|px: int, py: int, pz: int|
                #[trigger] bl.at(px, py, pz) == if px < x { with_island(w0, cols@)(px, py, pz) } else { w0(px, py, pz) },
        decreases N - x,
    {
        let mut z: i64 = 0;
        while z < N
            invariant
                bl.wf(),
                cols@.len() == N * N,
                0 <= x < N,
                0 <= z <= N,
                forall|px: int, py: int, pz: int|
                    #[trigger] bl.at(px, py, pz) == if px < x || (px == x && pz < z) {
                        with_island(w0, cols@)(px, py, pz)
                    } else {
                        w0(px, py, pz)
                    },
            decreases N - z,
        {
            match cols[col(x, z)] {
                Some((lo, hi)) => bl.fill(x, z, lo, hi, B::EndStone),
                None => {},
            }
            z = z + 1;
        }
        x = x + 1;
    }
}

/// Where a chorus plant may grow, from the world's noise: whether one grows there at all, how tall its stalk is,
/// and whether its two little branches go along x (else along z).
#[derive(Clone, Copy, PartialEq, Eq, Debug, Structural)]
pub struct ChorusSpot {
    pub grows: bool,
    pub tall: i64,
    pub along_x: bool,
}

/// How far from the middle column (x, z) is, squared.
pub open spec fn dist2(x: int, z: int) -> int {
    (x - mid()) * (x - mid()) + (z - mid()) * (z - mid())
}

/// The inner column visited k-th: by rows of x, leaving out the world's edge (54 = N - 2 columns a row).
pub open spec fn inner_col(k: int) -> (int, int) {
    (1 + k / 54, 1 + k % 54)
}

/// One chorus plant: a stalk `tall` high on top of column (x, z) (of height h), a branch at its top on one side and
/// one a block lower on the other.
pub open spec fn with_chorus_plant(w: spec_fn(int, int, int) -> B, x: int, z: int, h: int, spot: ChorusSpot) -> spec_fn(int, int, int) -> B {
    let t = spot.tall as int;
    let bx: int = if spot.along_x { 1 } else { 0 };
    let bz: int = if spot.along_x { 0 } else { 1 };
    with_block(with_block(with_column(w, x, z, h, h + t, B::Chorus), x + bx, h + t - 1, z + bz, B::Chorus), x - bx, h + t - 2, z - bz, B::Chorus)
}

/// The world and the number of plants after the first k inner columns: a plant grows on a column of end stone
/// where the noise puts one, at least `min_d2` (squared) from the middle, until `count` have grown.
pub open spec fn with_chorus(w: spec_fn(int, int, int) -> B, spots: Seq<ChorusSpot>, count: int, min_d2: int, k: nat) -> (spec_fn(
    int,
    int,
    int,
) -> B, int)
    decreases k,
{
    if k == 0 {
        (w, 0)
    } else {
        let prev = with_chorus(w, spots, count, min_d2, (k - 1) as nat);
        let c = inner_col(k - 1);
        let h = height_of(prev.0, c.0, c.1);
        let spot = spots[spec_col(c.0, c.1)];
        if prev.1 >= count || dist2(c.0, c.1) < min_d2 || h <= 0 || prev.0(c.0, h - 1, c.1) != B::EndStone || !spot.grows {
            prev
        } else {
            (with_chorus_plant(prev.0, c.0, c.1, h, spot), prev.1 + 1)
        }
    }
}

proof fn lemma_inner_col(x: int, z: int)
    requires
        1 <= x < 55,
        1 <= z < 55,
    ensures
        inner_col((x - 1) * 54 + (z - 1)) == (x, z),
{
    vstd::arithmetic::div_mod::lemma_fundamental_div_mod_converse((x - 1) * 54 + (z - 1), 54, x - 1, z - 1);
}

/// Chorus plants: purple stalks with little branches (the End): on the columns of end stone where the noise puts
/// one (`spots`, per column), not within `min_d2` (squared distance) of the middle, at most `count` of them.
pub fn chorus(bl: &mut Blocks, spots: &Vec<ChorusSpot>, count: usize, min_d2: i64)
    requires
        old(bl).wf(),
        spots@.len() == N * N,
        forall|i: int| 0 <= i < N * N ==> 0 <= (#[trigger] spots@[i]).tall <= H,
    ensures
        final(bl).wf(),
        forall|x: int, y: int, z: int|
            #[trigger] final(bl).at(x, y, z) == with_chorus(world_of(*old(bl)), spots@, count as int, min_d2 as int, 2916nat).0(x, y, z),
{
    let ghost w0 = world_of(*bl);
    let c: i64 = N / 2;
    let mut placed: usize = 0;
    let mut x: i64 = 1;
    while x < 55
        invariant
            bl.wf(),
            c == mid(),
            spots@.len() == N * N,
            forall|i: int| 0 <= i < N * N ==> 0 <= (#[trigger] spots@[i]).tall <= H,
            1 <= x <= 55,
            placed <= count,
            placed == with_chorus(w0, spots@, count as int, min_d2 as int, ((x - 1) * 54) as nat).1,
            forall|px: int, py: int, pz: int|
                #[trigger] bl.at(px, py, pz) == with_chorus(w0, spots@, count as int, min_d2 as int, ((x - 1) * 54) as nat).0(px, py, pz),
        decreases 55 - x,
    {
        let mut z: i64 = 1;
        while z < 55
            invariant
                bl.wf(),
                c == mid(),
                spots@.len() == N * N,
                forall|i: int| 0 <= i < N * N ==> 0 <= (#[trigger] spots@[i]).tall <= H,
                1 <= x < 55,
                1 <= z <= 55,
                placed <= count,
                placed == with_chorus(w0, spots@, count as int, min_d2 as int, ((x - 1) * 54 + (z - 1)) as nat).1,
                forall|px: int, py: int, pz: int|
                    #[trigger] bl.at(px, py, pz) == with_chorus(w0, spots@, count as int, min_d2 as int, ((x - 1) * 54 + (z - 1)) as nat).0(
                        px,
                        py,
                        pz,
                    ),
            decreases 55 - z,
        {
            let k = (x - 1) * 54 + (z - 1);
            let ghost prev = with_chorus(w0, spots@, count as int, min_d2 as int, k as nat);
            proof {
                lemma_inner_col(x as int, z as int);
            }
            let h = bl.height(x, z);
            proof {
                lemma_height_of(*bl, prev.0, x as int, z as int);
            }
            let spot = spots[col(x, z)];
            let dx = x - c;
            let dz = z - c;
            proof {
                assert(0 <= dx * dx <= 10000 && 0 <= dz * dz <= 10000) by (nonlinear_arith)
                    requires
                        -100 <= dx <= 100,
                        -100 <= dz <= 100,
                ;
            }
            let far = dx * dx + dz * dz >= min_d2;
            if placed < count && far && h > 0 && bl.get(x, h - 1, z) == B::EndStone && spot.grows {
                placed = placed + 1;
                let t = spot.tall;
                let (bx, bz): (i64, i64) = if spot.along_x { (1, 0) } else { (0, 1) };
                bl.fill(x, z, h, h + t, B::Chorus);
                bl.set(x + bx, h + t - 1, z + bz, B::Chorus);
                bl.set(x - bx, h + t - 2, z - bz, B::Chorus);
            }
            proof {
                assert(with_chorus(w0, spots@, count as int, min_d2 as int, (k + 1) as nat).1 == placed);
                assert forall|px: int, py: int, pz: int| #[trigger] bl.at(px, py, pz)
                    == with_chorus(w0, spots@, count as int, min_d2 as int, (k + 1) as nat).0(px, py, pz) by {
                }
            }
            z = z + 1;
        }
        x = x + 1;
    }
}

} // verus!
