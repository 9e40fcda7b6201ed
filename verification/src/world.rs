//! The block worlds of Explore: a grid of N x N columns, up to H blocks tall, and where Steve can walk.
use vstd::prelude::*;

verus! {

/// Every world is N x N columns.
pub const N: i64 = 56;

/// Every world is up to H blocks tall.
pub const H: i64 = 22;

/// The kinds of block a world is built from.
#[derive(Clone, Copy, PartialEq, Eq, Debug, Structural)]
pub enum B {
    Air,
    Grass,
    Dirt,
    Stone,
    Log,
    Leaves,
    Water,
    Sand,
    Netherrack,
    Lava,
    Glowstone,
    SoulSand,
    NetherBrick,
    EndStone,
    Obsidian,
    Purpur,
    PurpurPillar,
    EndRod,
    Emerald,
    Gold,
    Quartz,
    Path,
    Crystal,
    Flower,
    Chorus,
}

impl B {
    /// The blocks that can be seen through (the faces behind them are drawn).
    pub open spec fn is_clear(self) -> bool {
        self is Air || self is Leaves || self is Water || self is Lava || self is Flower
    }

    /// The blocks Steve can't stand in or on.
    pub open spec fn is_blocking(self) -> bool {
        self is Water || self is Lava || self is Log || self is Leaves || self is Crystal
            || self is EndRod || self is Chorus
    }

    /// Can be seen through.
    pub fn clear(self) -> (r: bool)
        ensures
            r == self.is_clear(),
    {
        matches!(self, B::Air | B::Leaves | B::Water | B::Lava | B::Flower)
    }

    /// Steve can't stand in or on it.
    pub fn blocks_walk(self) -> (r: bool)
        ensures
            r == self.is_blocking(),
    {
        matches!(self, B::Water | B::Lava | B::Log | B::Leaves | B::Crystal | B::EndRod | B::Chorus)
    }
}

/// Steve can step from a column of height `a` onto one of height `b`: up one block at a time, down up to three.
pub open spec fn spec_step_ok(a: int, b: int) -> bool {
    b > 0 && b - a <= 1 && a - b <= 3
}

/// Can Steve step from a column of height a onto one of height b?
pub fn step_ok(a: i64, b: i64) -> (r: bool)
    ensures
        r == spec_step_ok(a as int, b as int),
{
    b > 0 && (b as i128) - (a as i128) <= 1 && (a as i128) - (b as i128) <= 3
}


/// Column (x, z) is inside the world.
pub open spec fn in_grid(x: int, z: int) -> bool {
    0 <= x < N && 0 <= z < N
}

/// Block (x, y, z) is inside the world.
pub open spec fn in_world(x: int, y: int, z: int) -> bool {
    in_grid(x, z) && 0 <= y < H
}

/// Where block (x, y, z) is kept: layer by layer, row by row.
pub open spec fn block_index(x: int, y: int, z: int) -> int {
    (y * N + z) * N + x
}

/// Two blocks inside the world are kept in different places.
proof fn lemma_block_index_injective(x1: int, y1: int, z1: int, x2: int, y2: int, z2: int)
    requires
        in_world(x1, y1, z1),
        in_world(x2, y2, z2),
        block_index(x1, y1, z1) == block_index(x2, y2, z2),
    ensures
        x1 == x2 && y1 == y2 && z1 == z2,
{
}

/// Every block inside the world is kept inside the block array.
proof fn lemma_block_index_bounds(x: int, y: int, z: int)
    requires
        in_world(x, y, z),
    ensures
        0 <= block_index(x, y, z) < N * N * H,
{
}

/// The blocks of a world (N x N columns, H tall); everything outside is Air.
pub struct Blocks {
    v: Vec<B>,
}

impl Blocks {
    /// The block array covers the whole world.
    pub closed spec fn wf(self) -> bool {
        self.v@.len() == N * N * H
    }

    /// The block at (x, y, z): Air outside the world.
    pub closed spec fn at(self, x: int, y: int, z: int) -> B {
        if in_world(x, y, z) {
            self.v@[block_index(x, y, z)]
        } else {
            B::Air
        }
    }

    /// The height Steve would stand at on column (x, z), looking from layer k down: the top of the highest
    /// non-Air block below k, or -1 when there is none.
    pub open spec fn height_below(self, x: int, z: int, k: int) -> int
        decreases k,
    {
        if k <= 0 {
            -1
        } else if self.at(x, k - 1, z) != B::Air {
            k
        } else {
            self.height_below(x, z, k - 1)
        }
    }

    /// The top of the highest block of column (x, z), -1 when the column is empty.
    pub open spec fn spec_height(self, x: int, z: int) -> int {
        self.height_below(x, z, H as int)
    }

    /// An empty world: Air everywhere.
    pub fn new() -> (bl: Blocks)
        ensures
            bl.wf(),
            forall|x: int, y: int, z: int| bl.at(x, y, z) == B::Air,
    {
        let v = vec![B::Air; (N * N * H) as usize];
        assert forall|i: int| 0 <= i < v@.len() implies v@[i] == B::Air by {
            assert(cloned(B::Air, v@[i]));
        }
        Blocks { v }
    }

    /// The block at (x, y, z) (Air outside the world).
    pub fn get(&self, x: i64, y: i64, z: i64) -> (b: B)
        requires
            self.wf(),
        ensures
            b == self.at(x as int, y as int, z as int),
    {
        if !(0 <= x && x < N) || !(0 <= z && z < N) || !(0 <= y && y < H) {
            B::Air
        } else {
            proof {
                lemma_block_index_bounds(x as int, y as int, z as int);
            }
            self.v[((y * N + z) * N + x) as usize]
        }
    }

    /// Puts `b` at (x, y, z); nothing happens outside the world.
    pub fn set(&mut self, x: i64, y: i64, z: i64, b: B)
        requires
            old(self).wf(),
        ensures
            final(self).wf(),
            forall|x2: int, y2: int, z2: int|
                #[trigger] final(self).at(x2, y2, z2) == if x2 == x && y2 == y && z2 == z && in_world(
                    x2,
                    y2,
                    z2,
                ) {
                    b
                } else {
                    old(self).at(x2, y2, z2)
                },
    {
        if (0 <= x && x < N) && (0 <= z && z < N) && (0 <= y && y < H) {
            proof {
                lemma_block_index_bounds(x as int, y as int, z as int);
            }
            let i = ((y * N + z) * N + x) as usize;
            self.v.set(i, b);
            proof {
                assert forall|x2: int, y2: int, z2: int|
                    #[trigger] self.at(x2, y2, z2) == if x2 == x && y2 == y && z2 == z && in_world(
                        x2,
                        y2,
                        z2,
                    ) {
                        b
                    } else {
                        old(self).at(x2, y2, z2)
                    } by {
                    if in_world(x2, y2, z2) && !(x2 == x && y2 == y && z2 == z) {
                        if block_index(x2, y2, z2) == i {
                            lemma_block_index_injective(x as int, y as int, z as int, x2, y2, z2);
                        }
                    }
                }
            }
        }
    }

    /// A column of `b` from y0 up to (not including) y1.
    pub fn fill(&mut self, x: i64, z: i64, y0: i64, y1: i64, b: B)
        requires
            old(self).wf(),
        ensures
            final(self).wf(),
            forall|x2: int, y2: int, z2: int|
                #[trigger] final(self).at(x2, y2, z2) == if x2 == x && z2 == z && y0 <= y2 < y1 && in_world(
                    x2,
                    y2,
                    z2,
                ) {
                    b
                } else {
                    old(self).at(x2, y2, z2)
                },
    {
        let mut y = y0;
        while y < y1
            invariant
                self.wf(),
                y0 <= y,
                y <= y1 || y == y0,
                forall|x2: int, y2: int, z2: int|
                    #[trigger] self.at(x2, y2, z2) == if x2 == x && z2 == z && y0 <= y2 < y && in_world(
                        x2,
                        y2,
                        z2,
                    ) {
                        b
                    } else {
                        old(self).at(x2, y2, z2)
                    },
            decreases y1 - y,
        {
            self.set(x, y, z, b);
            y = y + 1;
        }
    }

    /// The top of the highest block of column (x, z): where Steve stands on it, -1 when there is nothing.
    pub fn height(&self, x: i64, z: i64) -> (h: i64)
        requires
            self.wf(),
        ensures
            h == self.spec_height(x as int, z as int),
            -1 <= h <= H,
            h != 0,
            h > 0 ==> self.at(x as int, h - 1, z as int) != B::Air,
            forall|y: int| h <= y && y >= 0 ==> #[trigger] self.at(x as int, y, z as int) == B::Air,
    {
        let mut y = H;
        while y > 0
            invariant
                0 <= y <= H,
                self.wf(),
                self.spec_height(x as int, z as int) == self.height_below(x as int, z as int, y as int),
                forall|y2: int| y <= y2 ==> #[trigger] self.at(x as int, y2, z as int) == B::Air,
            decreases y,
        {
            if self.get(x, y - 1, z) != B::Air {
                return y;
            }
            y = y - 1;
        }
        -1
    }
}

/// Where column (x, z) is kept in the per-column arrays.
pub open spec fn spec_col(x: int, z: int) -> int {
    z * N + x
}

/// Two columns inside the world are kept in different places.
pub proof fn lemma_col_injective(x1: int, z1: int, x2: int, z2: int)
    requires
        in_grid(x1, z1),
        in_grid(x2, z2),
        spec_col(x1, z1) == spec_col(x2, z2),
    ensures
        x1 == x2 && z1 == z2,
{
}

/// Where column (x, z) is kept in the per-column arrays.
pub fn col(x: i64, z: i64) -> (i: usize)
    requires
        in_grid(x as int, z as int),
    ensures
        i == spec_col(x as int, z as int),
        i < N * N,
{
    (z * N + x) as usize
}

/// Number of columns in a world.
pub open spec fn num_cols() -> int {
    N * N
}

/// The value kept for column (x, z) in a per-column array.
pub open spec fn at_col<T>(s: Seq<T>, x: int, z: int) -> T {
    s[spec_col(x, z)]
}

/// Steve can stand on column (x, z) when something is there and its top block doesn't stop him.
pub open spec fn can_stand(bl: Blocks, x: int, z: int) -> bool {
    let h = bl.spec_height(x, z);
    h > 0 && !bl.at(x, h - 1, z).is_blocking()
}

/// Per column: the height Steve stands at on it, and whether he can stand there at all.
pub fn stand_map(bl: &Blocks) -> (res: (Vec<i64>, Vec<bool>))
    requires
        bl.wf(),
    ensures
        res.0@.len() == num_cols(),
        res.1@.len() == num_cols(),
        forall|x: int, z: int| in_grid(x, z) ==> #[trigger] at_col(res.0@, x, z) == bl.spec_height(x, z),
        forall|x: int, z: int| in_grid(x, z) ==> #[trigger] at_col(res.1@, x, z) == can_stand(*bl, x, z),
{
    let mut top: Vec<i64> = vec![-1i64; (N * N) as usize];
    let mut ok: Vec<bool> = vec![false; (N * N) as usize];
    let mut x: i64 = 0;
    while x < N
        invariant
            0 <= x <= N,
            bl.wf(),
            top@.len() == num_cols(),
            ok@.len() == num_cols(),
            forall|xa: int, za: int|
                in_grid(xa, za) && xa < x ==> #[trigger] at_col(top@, xa, za) == bl.spec_height(xa, za)
                    && at_col(ok@, xa, za) == can_stand(*bl, xa, za),
        decreases N - x,
    {
        let mut z: i64 = 0;
        while z < N
            invariant
                0 <= x < N,
                0 <= z <= N,
                bl.wf(),
                top@.len() == num_cols(),
                ok@.len() == num_cols(),
                forall|xa: int, za: int|
                    in_grid(xa, za) && (xa < x || (xa == x && za < z)) ==> #[trigger] at_col(top@, xa, za)
                        == bl.spec_height(xa, za) && at_col(ok@, xa, za) == can_stand(*bl, xa, za),
            decreases N - z,
        {
            let h = bl.height(x, z);
            let c = col(x, z);
            let ghost top0 = top@;
            let ghost ok0 = ok@;
            top.set(c, h);
            let stand = h > 0 && !bl.get(x, h - 1, z).blocks_walk();
            ok.set(c, stand);
            proof {
                assert forall|xa: int, za: int|
                    in_grid(xa, za) && (xa < x || (xa == x && za < z + 1)) implies #[trigger] at_col(
                        top@,
                        xa,
                        za,
                    ) == bl.spec_height(xa, za) && at_col(ok@, xa, za) == can_stand(*bl, xa, za) by {
                    if spec_col(xa, za) == c {
                        lemma_col_injective(xa, za, x as int, z as int);
                    } else {
                        assert(at_col(top0, xa, za) == bl.spec_height(xa, za));
                        assert(at_col(ok0, xa, za) == can_stand(*bl, xa, za));
                    }
                }
            }
            z = z + 1;
        }
        x = x + 1;
    }
    proof {
        assert forall|x: int, z: int| in_grid(x, z) implies #[trigger] at_col(ok@, x, z) == can_stand(*bl, x, z) by {
            assert(at_col(top@, x, z) == bl.spec_height(x, z));
        }
    }
    (top, ok)
}

/// Column (x, z)'s corners in a w x w square whose corner is (x0, z0).
pub open spec fn is_tower_corner(x0: int, z0: int, w: int, x: int, z: int) -> bool {
    (x == x0 || x == x0 + w - 1) && (z == z0 || z == z0 + w - 1)
}

/// What a tower puts at (x, y, z): `corner` on its corner columns, `wall` on the others; None outside it.
pub open spec fn tower_block(x0: int, z0: int, w: int, y0: int, y1: int, wall: B, corner: B, x: int, y: int, z: int) -> Option<B> {
    if x0 <= x < x0 + w && z0 <= z < z0 + w && y0 <= y < y1 && in_world(x, y, z) {
        Some(if is_tower_corner(x0, z0, w, x, z) { corner } else { wall })
    } else {
        None
    }
}

/// A tower: a w x w box of `wall` from y0 to y1 with `corner` pillars at its corners.
pub fn tower(bl: &mut Blocks, x0: i64, z0: i64, w: i64, y0: i64, y1: i64, wall: B, corner: B)
    requires
        old(bl).wf(),
        i64::MIN < x0 + w <= i64::MAX,
        i64::MIN < z0 + w <= i64::MAX,
    ensures
        final(bl).wf(),
        forall|x: int, y: int, z: int|
            #[trigger] final(bl).at(x, y, z) == match tower_block(
                x0 as int,
                z0 as int,
                w as int,
                y0 as int,
                y1 as int,
                wall,
                corner,
                x,
                y,
                z,
            ) {
                Some(b) => b,
                None => old(bl).at(x, y, z),
            },
{
    let ghost start = *bl;
    let mut x = x0;
    while x < x0 + w
        invariant
            bl.wf(),
            x0 <= x,
            x <= x0 + w || x == x0,
            i64::MIN < x0 + w <= i64::MAX,
            i64::MIN < z0 + w <= i64::MAX,
            forall|xa: int, y: int, z: int|
                #[trigger] bl.at(xa, y, z) == match tower_block(
                    x0 as int,
                    z0 as int,
                    w as int,
                    y0 as int,
                    y1 as int,
                    wall,
                    corner,
                    xa,
                    y,
                    z,
                ) {
                    Some(b) => if xa < x { b } else { start.at(xa, y, z) },
                    None => start.at(xa, y, z),
                },
        decreases x0 + w - x,
    {
        let mut z = z0;
        while z < z0 + w
            invariant
                bl.wf(),
                x0 <= x < x0 + w,
                z0 <= z,
                z <= z0 + w || z == z0,
                i64::MIN < x0 + w <= i64::MAX,
                i64::MIN < z0 + w <= i64::MAX,
                forall|xa: int, y: int, za: int|
                    #[trigger] bl.at(xa, y, za) == match tower_block(
                        x0 as int,
                        z0 as int,
                        w as int,
                        y0 as int,
                        y1 as int,
                        wall,
                        corner,
                        xa,
                        y,
                        za,
                    ) {
                        Some(b) => if xa < x || (xa == x && za < z) { b } else { start.at(xa, y, za) },
                        None => start.at(xa, y, za),
                    },
            decreases z0 + w - z,
        {
            let c = (x == x0 || x == x0 + w - 1) && (z == z0 || z == z0 + w - 1);
            bl.fill(x, z, y0, y1, if c { corner } else { wall });
            z = z + 1;
        }
        x = x + 1;
    }
}

/// A tree's trunk: a column of Log from h up to top (not included) at (x, z), over what was there.
pub open spec fn trunk_block(old: Blocks, x: int, z: int, h: int, top: int, lx: int, y: int, lz: int) -> B {
    if lx == x && lz == z && h <= y < top && in_world(lx, y, lz) {
        B::Log
    } else {
        old.at(lx, y, lz)
    }
}

/// How far a tree's leaves reach from the trunk on layer y: 2 below the top of the trunk, 1 above it.
pub open spec fn leaf_reach(y: int, top: int) -> int {
    if y >= top { 1 } else { 2 }
}

/// (lx, y, lz) is in the crown of the tree whose trunk is at (x, z) and ends at top: the two layers under the top
/// of the trunk and the two over it, as far as the leaves reach.
pub open spec fn in_crown(x: int, z: int, top: int, lx: int, y: int, lz: int) -> bool {
    let r = leaf_reach(y, top);
    top - 2 <= y < top + 2 && x - r <= lx <= x + r && z - r <= lz <= z + r
}

/// A corner of the crown's layer.
pub open spec fn crown_corner(x: int, z: int, top: int, lx: int, y: int, lz: int) -> bool {
    let r = leaf_reach(y, top);
    (lx == x - r || lx == x + r) && (lz == z - r || lz == z + r)
}

/// Which of the 16 crown corners (x, y, z) is: 4 per layer from the lowest, -x -z, +x -z, -x +z, +x +z.
pub open spec fn corner_slot(x: int, z: int, top: int, lx: int, y: int, lz: int) -> int {
    4 * (y - (top - 2)) + (if lx > x { 1int } else { 0 }) + (if lz > z { 2int } else { 0 })
}

/// What a tree puts at (lx, y, lz) over block `prev`: the trunk, and Leaves in the crown wherever there is Air,
/// except on the corners left bare.
pub open spec fn tree_piece(prev: B, x: int, z: int, h: int, tall: int, bare: Seq<bool>, lx: int, y: int, lz: int) -> B {
    let top = h + tall;
    let t = if lx == x && lz == z && h <= y < top && in_world(lx, y, lz) { B::Log } else { prev };
    if in_crown(x, z, top, lx, y, lz) && in_world(lx, y, lz) && t == B::Air && !(crown_corner(x, z, top, lx, y, lz)
        && bare[corner_slot(x, z, top, lx, y, lz)]) {
        B::Leaves
    } else {
        t
    }
}

/// A tree only puts logs in its trunk (its own column, from h up to h + tall) and leaves where there was air, in
/// the four layers round the top of its trunk and at most 2 columns away from it; every other block stays.
pub proof fn law_tree_only_fills_air(prev: B, x: int, z: int, h: int, tall: int, bare: Seq<bool>, lx: int, y: int, lz: int)
    ensures
        ({
            let r = tree_piece(prev, x, z, h, tall, bare, lx, y, lz);
            ||| r == prev
            ||| (r == B::Log && lx == x && lz == z && h <= y < h + tall && in_world(lx, y, lz))
            ||| (r == B::Leaves && prev == B::Air && x - 2 <= lx <= x + 2 && z - 2 <= lz <= z + 2 && h + tall - 2 <= y < h + tall + 2)
        }),
{
}

/// What a tree leaves at (lx, y, lz) in world `old`.
pub open spec fn tree_block(old: Blocks, x: int, z: int, h: int, tall: int, bare: Seq<bool>, lx: int, y: int, lz: int) -> B {
    tree_piece(old.at(lx, y, lz), x, z, h, tall, bare, lx, y, lz)
}

/// A block tree (the Overworld's and the Emerald City's parks): a trunk of `tall` logs on top of height h, and
/// leaves round its top. `bare` says which of the crown's 16 corners stay without leaves (the world's noise picks
/// them: 4 per layer, from the lowest layer, -x -z, +x -z, -x +z, +x +z).
pub fn tree(bl: &mut Blocks, x: i64, z: i64, h: i64, tall: i64, bare: &Vec<bool>)
    requires
        old(bl).wf(),
        bare@.len() == 16,
        i64::MIN + 2 <= x <= i64::MAX - 2,
        i64::MIN + 2 <= z <= i64::MAX - 2,
        i64::MIN + 2 <= h + tall <= i64::MAX - 2,
    ensures
        final(bl).wf(),
        forall|lx: int, y: int, lz: int|
            #[trigger] final(bl).at(lx, y, lz) == tree_block(*old(bl), x as int, z as int, h as int, tall as int, bare@, lx, y, lz),
{
    let ghost start = *bl;
    let top = h + tall;
    bl.fill(x, z, h, top, B::Log);
    let mut y = top - 2;
    while y < top + 2
        invariant
            bl.wf(),
            bare@.len() == 16,
            i64::MIN + 2 <= x <= i64::MAX - 2,
            i64::MIN + 2 <= z <= i64::MAX - 2,
            top == h + tall,
            i64::MIN + 2 <= top <= i64::MAX - 2,
            top - 2 <= y <= top + 2,
            forall|px: int, py: int, pz: int|
                #[trigger] bl.at(px, py, pz) == if py < y {
                    tree_block(start, x as int, z as int, h as int, tall as int, bare@, px, py, pz)
                } else {
                    trunk_block(start, x as int, z as int, h as int, top as int, px, py, pz)
                },
        decreases top + 2 - y,
    {
        let r: i64 = if y >= top { 1 } else { 2 };
        let mut i: i64 = 0;
        while i <= 2 * r
            invariant
                bl.wf(),
                bare@.len() == 16,
                i64::MIN + 2 <= x <= i64::MAX - 2,
                i64::MIN + 2 <= z <= i64::MAX - 2,
                top == h + tall,
                i64::MIN + 2 <= top <= i64::MAX - 2,
                top - 2 <= y < top + 2,
                r == leaf_reach(y as int, top as int),
                0 <= i <= 2 * r + 1,
                forall|px: int, py: int, pz: int|
                    #[trigger] bl.at(px, py, pz) == if py < y || (py == y && px < x - r + i) {
                        tree_block(start, x as int, z as int, h as int, tall as int, bare@, px, py, pz)
                    } else {
                        trunk_block(start, x as int, z as int, h as int, top as int, px, py, pz)
                    },
            decreases 2 * r + 1 - i,
        {
            let lx = x - r + i;
            let mut j: i64 = 0;
            while j <= 2 * r
                invariant
                    bl.wf(),
                    bare@.len() == 16,
                    i64::MIN + 2 <= x <= i64::MAX - 2,
                    i64::MIN + 2 <= z <= i64::MAX - 2,
                    top == h + tall,
                    i64::MIN + 2 <= top <= i64::MAX - 2,
                    top - 2 <= y < top + 2,
                    r == leaf_reach(y as int, top as int),
                    0 <= i <= 2 * r,
                    lx == x - r + i,
                    0 <= j <= 2 * r + 1,
                    forall|px: int, py: int, pz: int|
                        #[trigger] bl.at(px, py, pz) == if py < y || (py == y && px < lx) || (py == y && px == lx && pz < z - r + j) {
                            tree_block(start, x as int, z as int, h as int, tall as int, bare@, px, py, pz)
                        } else {
                            trunk_block(start, x as int, z as int, h as int, top as int, px, py, pz)
                        },
                decreases 2 * r + 1 - j,
            {
                let lz = z - r + j;
                let corner = (lx == x - r || lx == x + r) && (lz == z - r || lz == z + r);
                let slot = 4 * (y - (top - 2)) + (if lx > x { 1 } else { 0 }) + (if lz > z { 2 } else { 0 });
                let here = bl.get(lx, y, lz);
                if here == B::Air && !(corner && bare[slot as usize]) {
                    bl.set(lx, y, lz, B::Leaves);
                }
                j = j + 1;
            }
            i = i + 1;
        }
        y = y + 1;
    }
}

/// The texture of block `b`'s face (dy = 1: its top face).
pub open spec fn spec_tex_of(b: B, dy: int) -> int {
    match b {
        B::Grass => if dy == 1 { 0 } else { 1 },
        B::Dirt => 2,
        B::Stone => 3,
        B::Log => if dy == 1 { 23 } else { 4 },
        B::Leaves => 5,
        B::Water => 6,
        B::Sand => 7,
        B::Netherrack => 8,
        B::Lava => 9,
        B::Glowstone => 10,
        B::SoulSand => 11,
        B::NetherBrick => 12,
        B::EndStone => 13,
        B::Obsidian => 14,
        B::Purpur => 15,
        B::PurpurPillar => if dy == 1 { 15 } else { 16 },
        B::EndRod => 17,
        B::Emerald => 18,
        B::Gold => 19,
        B::Quartz => 20,
        B::Path => 21,
        B::Crystal => 22,
        B::Flower => if dy == 1 { 24 } else { 1 },
        B::Chorus => 25,
        B::Air => 3,
    }
}

/// The texture of block `b`'s face: the top face (dy = 1) of grass, logs, pillars and flowers differs.
pub fn tex_of(b: B, dy: i64) -> (t: usize)
    ensures
        t == spec_tex_of(b, dy as int),
        t < 26,
{
    match (b, dy) {
        (B::Grass, 1) => 0,
        (B::Grass, _) => 1,
        (B::Dirt, _) => 2,
        (B::Stone, _) => 3,
        (B::Log, 1) => 23,
        (B::Log, _) => 4,
        (B::Leaves, _) => 5,
        (B::Water, _) => 6,
        (B::Sand, _) => 7,
        (B::Netherrack, _) => 8,
        (B::Lava, _) => 9,
        (B::Glowstone, _) => 10,
        (B::SoulSand, _) => 11,
        (B::NetherBrick, _) => 12,
        (B::EndStone, _) => 13,
        (B::Obsidian, _) => 14,
        (B::Purpur, _) => 15,
        (B::PurpurPillar, 1) => 15,
        (B::PurpurPillar, _) => 16,
        (B::EndRod, _) => 17,
        (B::Emerald, _) => 18,
        (B::Gold, _) => 19,
        (B::Quartz, _) => 20,
        (B::Path, _) => 21,
        (B::Crystal, _) => 22,
        (B::Flower, 1) => 24,
        (B::Flower, _) => 1,
        (B::Chorus, _) => 25,
        (B::Air, _) => 3,
    }
}

} // verus!
