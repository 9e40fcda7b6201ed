//! What a world shows: every side of a block (but the bottom, which is never seen) that meets something
//! see-through, with its texture, and the glowing blocks that light what is around them. Where each face is
//! drawn and how bright it is are the renderer's part; which faces there are, in which order, is decided here.
use vstd::prelude::*;
use crate::world::{B, Blocks, N, H, spec_tex_of, tex_of};

verus! {

/// The sides a face can be on, by number: up, +x, -x, +z, -z.
pub open spec fn side(d: int) -> (int, int, int) {
    if d == 0 {
        (0, 1, 0)
    } else if d == 1 {
        (1, 0, 0)
    } else if d == 2 {
        (-1, 0, 0)
    } else if d == 3 {
        (0, 0, 1)
    } else {
        (0, 0, -1)
    }
}

/// A face to draw: its block, its side (see `side`), its texture, and whether it's leaves or a log (those are left
/// out when they would hide Steve).
#[derive(Clone, Copy, PartialEq, Eq, Debug, Structural)]
pub struct BlockFace {
    pub x: i64,
    pub y: i64,
    pub z: i64,
    pub side: usize,
    pub tex: usize,
    pub leafy: bool,
}

/// A glowing block (its light is drawn around it).
#[derive(Clone, Copy, PartialEq, Eq, Debug, Structural)]
pub struct Glow {
    pub x: i64,
    pub y: i64,
    pub z: i64,
    pub block: B,
}

/// The blocks that glow.
pub open spec fn glows(b: B) -> bool {
    b is Lava || b is Glowstone || b is EndRod || b is Crystal
}

/// Side d of block (x, y, z) is drawn: the block is there and what is on that side can be seen through, unless
/// it's the same block (two water blocks show no face between them), leaves excepted.
pub open spec fn shows(bl: Blocks, x: int, y: int, z: int, d: int) -> bool {
    let b = bl.at(x, y, z);
    let s = side(d);
    let nb = bl.at(x + s.0, y + s.1, z + s.2);
    b != B::Air && nb.is_clear() && !(nb == b && b != B::Leaves)
}

/// The face on side d of block (x, y, z).
pub open spec fn face_of(bl: Blocks, x: int, y: int, z: int, d: int) -> BlockFace {
    let b = bl.at(x, y, z);
    BlockFace {
        x: x as i64,
        y: y as i64,
        z: z as i64,
        side: d as usize,
        tex: spec_tex_of(b, side(d).1) as usize,
        leafy: b is Leaves || b is Log,
    }
}

/// A glowing block gives light, but only every third block of a lava pool's surface (one per block would be too
/// many).
pub open spec fn lights(bl: Blocks, x: int, y: int, z: int) -> bool {
    let b = bl.at(x, y, z);
    glows(b) && (b != B::Lava || (bl.at(x, y + 1, z) == B::Air && (x + z) % 3 == 0))
}

/// The place of block (x, y, z) in the walk through the world: layer by layer from the bottom, row by row (z),
/// block by block (x).
pub open spec fn block_slot(y: int, z: int, x: int) -> int {
    (y * N + z) * N + x
}

/// The place of side d of block (x, y, z) in the walk (5 sides a block).
pub open spec fn side_slot(y: int, z: int, x: int, d: int) -> int {
    block_slot(y, z, x) * 5 + d
}

/// The faces met in the walk before slot t.
pub open spec fn faces_before(bl: Blocks, t: nat) -> Seq<BlockFace>
    decreases t,
{
    if t == 0 {
        Seq::empty()
    } else {
        let u = t - 1;
        let d = u % 5;
        let q = u / 5;
        let x = q % (N as int);
        let z = (q / (N as int)) % (N as int);
        let y = q / (N as int) / (N as int);
        let before = faces_before(bl, (t - 1) as nat);
        if shows(bl, x, y, z, d) { before.push(face_of(bl, x, y, z, d)) } else { before }
    }
}

/// The glowing blocks met in the walk before block slot t.
pub open spec fn glows_before(bl: Blocks, t: nat) -> Seq<Glow>
    decreases t,
{
    if t == 0 {
        Seq::empty()
    } else {
        let u = t - 1;
        let x = u % (N as int);
        let z = (u / (N as int)) % (N as int);
        let y = u / (N as int) / (N as int);
        let before = glows_before(bl, (t - 1) as nat);
        if lights(bl, x, y, z) {
            before.push(Glow { x: x as i64, y: y as i64, z: z as i64, block: bl.at(x, y, z) })
        } else {
            before
        }
    }
}

proof fn lemma_block_slot(y: int, z: int, x: int)
    requires
        0 <= y,
        0 <= z < N,
        0 <= x < N,
    ensures
        block_slot(y, z, x) % (N as int) == x,
        (block_slot(y, z, x) / (N as int)) % (N as int) == z,
        block_slot(y, z, x) / (N as int) / (N as int) == y,
{
    let u = block_slot(y, z, x);
    vstd::arithmetic::div_mod::lemma_fundamental_div_mod_converse(u, N as int, y * N + z, x);
    vstd::arithmetic::div_mod::lemma_fundamental_div_mod_converse(y * N + z, N as int, y, z);
}

proof fn lemma_side_slot(y: int, z: int, x: int, d: int)
    requires
        0 <= y,
        0 <= z < N,
        0 <= x < N,
        0 <= d < 5,
    ensures
        side_slot(y, z, x, d) % 5 == d,
        side_slot(y, z, x, d) / 5 == block_slot(y, z, x),
{
    vstd::arithmetic::div_mod::lemma_fundamental_div_mod_converse(side_slot(y, z, x, d), 5, block_slot(y, z, x), d);
}

/// Slot u of the walk, as (y, z, x, side).
pub open spec fn slot_place(u: int) -> (int, int, int, int) {
    let q = u / 5;
    (q / (N as int) / (N as int), (q / (N as int)) % (N as int), q % (N as int), u % 5)
}

proof fn lemma_slot_place(y: int, z: int, x: int, d: int)
    requires
        0 <= y,
        0 <= z < N,
        0 <= x < N,
        0 <= d < 5,
    ensures
        slot_place(side_slot(y, z, x, d)) == (y, z, x, d),
{
    lemma_side_slot(y, z, x, d);
    lemma_block_slot(y, z, x);
}

proof fn lemma_slot_place_range(u: int)
    requires
        0 <= u < H * N * N * 5,
    ensures
        ({
            let p = slot_place(u);
            &&& 0 <= p.0 < H
            &&& 0 <= p.1 < N
            &&& 0 <= p.2 < N
            &&& 0 <= p.3 < 5
            &&& side_slot(p.0, p.1, p.2, p.3) == u
        }),
{
    let q = u / 5;
    vstd::arithmetic::div_mod::lemma_fundamental_div_mod(u, 5);
    vstd::arithmetic::div_mod::lemma_fundamental_div_mod(q, N as int);
    vstd::arithmetic::div_mod::lemma_fundamental_div_mod(q / (N as int), N as int);
    vstd::arithmetic::div_mod::lemma_mod_bound(u, 5);
    vstd::arithmetic::div_mod::lemma_mod_bound(q, N as int);
    vstd::arithmetic::div_mod::lemma_mod_bound(q / (N as int), N as int);
    vstd::arithmetic::div_mod::lemma_div_pos_is_pos(u, 5);
    vstd::arithmetic::div_mod::lemma_div_pos_is_pos(q, N as int);
    vstd::arithmetic::div_mod::lemma_div_pos_is_pos(q / (N as int), N as int);
    assert(q < H * N * N);
    assert(q / (N as int) < H * N) by {
        vstd::arithmetic::div_mod::lemma_div_by_multiple_is_strongly_ordered(q, H * N * N, H * N, N as int);
    }
    assert(q / (N as int) / (N as int) < H) by {
        vstd::arithmetic::div_mod::lemma_div_by_multiple_is_strongly_ordered(q / (N as int), H * N, H as int, N as int);
    }
}

proof fn lemma_faces_before_members(bl: Blocks, t: nat, y: int, z: int, x: int, d: int)
    requires
        t <= H * N * N * 5,
        0 <= y < H,
        0 <= z < N,
        0 <= x < N,
        0 <= d < 5,
    ensures
        faces_before(bl, t).contains(face_of(bl, x, y, z, d)) <==> (side_slot(y, z, x, d) < t && shows(bl, x, y, z, d)),
    decreases t,
{
    lemma_slot_place(y, z, x, d);
    if t > 0 {
        let u = t - 1;
        lemma_faces_before_members(bl, (t - 1) as nat, y, z, x, d);
        lemma_slot_place_range(u);
        let p = slot_place(u);
        let before = faces_before(bl, (t - 1) as nat);
        let f = face_of(bl, x, y, z, d);
        if shows(bl, p.2, p.0, p.1, p.3) {
            let g = face_of(bl, p.2, p.0, p.1, p.3);
            assert(faces_before(bl, t) == before.push(g));
            if g == f {
                assert(p == (y, z, x, d));
                assert(before.push(g)[before.len() as int] == f);
            }
            if before.push(g).contains(f) {
                let i = choose|i: int| 0 <= i < before.push(g).len() && before.push(g)[i] == f;
                if i < before.len() {
                    assert(before[i] == f);
                } else {
                    assert(g == f);
                    assert(p == (y, z, x, d));
                }
            }
            if before.contains(f) {
                let i = choose|i: int| 0 <= i < before.len() && before[i] == f;
                assert(before.push(g)[i] == f);
            }
        } else {
            if side_slot(y, z, x, d) == u {
                assert(p == (y, z, x, d));
            }
        }
    }
}

/// The faces drawn are exactly the open sides: side d of a block of the world is in the list if and only if it
/// shows (the block is there and what is on that side can be seen through, and isn't the same block, leaves
/// excepted).
pub proof fn law_faces_are_the_open_sides(bl: Blocks, x: int, y: int, z: int, d: int)
    requires
        0 <= y < H,
        0 <= z < N,
        0 <= x < N,
        0 <= d < 5,
    ensures
        faces_before(bl, (H * N * N * 5) as nat).contains(face_of(bl, x, y, z, d)) <==> shows(bl, x, y, z, d),
{
    lemma_faces_before_members(bl, (H * N * N * 5) as nat, y, z, x, d);
    lemma_slot_place_range(side_slot(y, z, x, d));
    assert(side_slot(y, z, x, d) < H * N * N * 5);
}

/// Slot u of the walk through the blocks, as (y, z, x).
pub open spec fn block_place(u: int) -> (int, int, int) {
    (u / (N as int) / (N as int), (u / (N as int)) % (N as int), u % (N as int))
}

proof fn lemma_block_place_range(u: int)
    requires
        0 <= u < H * N * N,
    ensures
        ({
            let p = block_place(u);
            &&& 0 <= p.0 < H
            &&& 0 <= p.1 < N
            &&& 0 <= p.2 < N
            &&& block_slot(p.0, p.1, p.2) == u
        }),
{
    vstd::arithmetic::div_mod::lemma_fundamental_div_mod(u, N as int);
    vstd::arithmetic::div_mod::lemma_fundamental_div_mod(u / (N as int), N as int);
    vstd::arithmetic::div_mod::lemma_mod_bound(u, N as int);
    vstd::arithmetic::div_mod::lemma_mod_bound(u / (N as int), N as int);
    vstd::arithmetic::div_mod::lemma_div_pos_is_pos(u, N as int);
    vstd::arithmetic::div_mod::lemma_div_pos_is_pos(u / (N as int), N as int);
    assert(u / (N as int) < H * N) by {
        vstd::arithmetic::div_mod::lemma_div_by_multiple_is_strongly_ordered(u, H * N * N, H * N, N as int);
    }
    assert(u / (N as int) / (N as int) < H) by {
        vstd::arithmetic::div_mod::lemma_div_by_multiple_is_strongly_ordered(u / (N as int), H * N, H as int, N as int);
    }
}

/// The glow of block (x, y, z).
pub open spec fn glow_at(bl: Blocks, x: int, y: int, z: int) -> Glow {
    Glow { x: x as i64, y: y as i64, z: z as i64, block: bl.at(x, y, z) }
}

proof fn lemma_glows_before(bl: Blocks, t: nat)
    requires
        t <= H * N * N,
    ensures
        forall|i: int| 0 <= i < glows_before(bl, t).len() ==> {
            let g = #[trigger] glows_before(bl, t)[i];
            &&& 0 <= g.y < H && 0 <= g.z < N && 0 <= g.x < N
            &&& block_slot(g.y as int, g.z as int, g.x as int) < t
            &&& g == glow_at(bl, g.x as int, g.y as int, g.z as int)
            &&& lights(bl, g.x as int, g.y as int, g.z as int)
        },
        forall|y: int, z: int, x: int| 0 <= y < H && 0 <= z < N && 0 <= x < N && block_slot(y, z, x) < t && lights(bl, x, y, z)
            ==> #[trigger] glows_before(bl, t).contains(glow_at(bl, x, y, z)),
    decreases t,
{
    if t > 0 {
        let u = t - 1;
        lemma_glows_before(bl, (t - 1) as nat);
        lemma_block_place_range(u);
        let p = block_place(u);
        let before = glows_before(bl, (t - 1) as nat);
        let cur = glows_before(bl, t);
        assert forall|i: int| 0 <= i < cur.len() implies ({
            let g = #[trigger] cur[i];
            &&& 0 <= g.y < H && 0 <= g.z < N && 0 <= g.x < N
            &&& block_slot(g.y as int, g.z as int, g.x as int) < t
            &&& g == glow_at(bl, g.x as int, g.y as int, g.z as int)
            &&& lights(bl, g.x as int, g.y as int, g.z as int)
        }) by {
            if i < before.len() {
                assert(cur[i] == before[i]);
            }
        }
        assert forall|y: int, z: int, x: int| 0 <= y < H && 0 <= z < N && 0 <= x < N && block_slot(y, z, x) < t && lights(bl, x, y, z)
            implies #[trigger] cur.contains(glow_at(bl, x, y, z)) by {
            if block_slot(y, z, x) < u {
                assert(before.contains(glow_at(bl, x, y, z)));
                let i = choose|i: int| 0 <= i < before.len() && before[i] == glow_at(bl, x, y, z);
                assert(cur[i] == before[i]);
            } else {
                lemma_block_slot(y, z, x);
                assert(p == (y, z, x));
                assert(cur[before.len() as int] == glow_at(bl, x, y, z));
            }
        }
    }
}

/// The glowing blocks are exactly the world's glowstone, end rods and crystals, and the lava blocks of a pool's
/// surface (air above) on every third column (x + z a multiple of 3): each such block is in the list, with its
/// place and its block, and everything in the list is one of them.
pub proof fn law_glows_are_the_lights(bl: Blocks)
    ensures
        forall|x: int, y: int, z: int| 0 <= y < H && 0 <= z < N && 0 <= x < N ==> (#[trigger] glows_before(bl, (H * N * N) as nat).contains(
            Glow { x: x as i64, y: y as i64, z: z as i64, block: bl.at(x, y, z) },
        ) <==> ({
            let b = bl.at(x, y, z);
            b == B::Glowstone || b == B::EndRod || b == B::Crystal || (b == B::Lava && bl.at(x, y + 1, z) == B::Air && (x + z) % 3 == 0)
        })),
        forall|i: int| 0 <= i < glows_before(bl, (H * N * N) as nat).len() ==> {
            let g = #[trigger] glows_before(bl, (H * N * N) as nat)[i];
            let (x, y, z) = (g.x as int, g.y as int, g.z as int);
            let b = bl.at(x, y, z);
            &&& 0 <= y < H && 0 <= z < N && 0 <= x < N
            &&& g.block == b
            &&& (b == B::Glowstone || b == B::EndRod || b == B::Crystal || (b == B::Lava && bl.at(x, y + 1, z) == B::Air && (x + z) % 3 == 0))
        },
{
    let t = (H * N * N) as nat;
    lemma_glows_before(bl, t);
    let gl = glows_before(bl, t);
    assert forall|x: int, y: int, z: int| 0 <= y < H && 0 <= z < N && 0 <= x < N implies (#[trigger] gl.contains(
        Glow { x: x as i64, y: y as i64, z: z as i64, block: bl.at(x, y, z) },
    ) <==> lights(bl, x, y, z)) by {
        let g = glow_at(bl, x, y, z);
        assert(Glow { x: x as i64, y: y as i64, z: z as i64, block: bl.at(x, y, z) } == g);
        lemma_block_place_range(0);
        assert(block_slot(y, z, x) < t) by {
            assert(block_slot(y, z, x) == (y * N + z) * N + x);
            assert((y * N + z) * N + x < H * N * N) by (nonlinear_arith)
                requires
                    0 <= y < H,
                    0 <= z < N,
                    0 <= x < N,
            ;
        }
        if gl.contains(g) {
            let i = choose|i: int| 0 <= i < gl.len() && gl[i] == g;
            assert(gl[i] == glow_at(bl, gl[i].x as int, gl[i].y as int, gl[i].z as int));
        }
    }
}

/// The faces drawn, spelled out: side d (0 up, 1 +x, 2 -x, 3 +z, 4 -z) of a block of the world is drawn, at that
/// block and side, exactly when the block isn't air and the block on that side is air, leaves, water, lava or a
/// flower, and isn't the same block (leaves excepted: leaves next to leaves are drawn).
pub proof fn law_faces_spelled_out(bl: Blocks, x: int, y: int, z: int, d: int)
    requires
        0 <= y < H,
        0 <= z < N,
        0 <= x < N,
        0 <= d < 5,
    ensures
        ({
            let (dx, dy, dz) = if d == 0 { (0int, 1int, 0int) } else if d == 1 { (1, 0, 0) } else if d == 2 { (-1, 0, 0) } else if d
                == 3 { (0, 0, 1) } else { (0, 0, -1) };
            let b = bl.at(x, y, z);
            let nb = bl.at(x + dx, y + dy, z + dz);
            let f = face_of(bl, x, y, z, d);
            &&& f.x == x && f.y == y && f.z == z && f.side == d
            &&& faces_before(bl, (H * N * N * 5) as nat).contains(f) <==> (b != B::Air && (nb == B::Air || nb == B::Leaves
                || nb == B::Water || nb == B::Lava || nb == B::Flower) && !(nb == b && b != B::Leaves))
        }),
{
    law_faces_are_the_open_sides(bl, x, y, z, d);
}

fn side_step(d: usize) -> (s: (i64, i64, i64))
    requires
        d < 5,
    ensures
        s.0 == side(d as int).0,
        s.1 == side(d as int).1,
        s.2 == side(d as int).2,
{
    if d == 0 {
        (0, 1, 0)
    } else if d == 1 {
        (1, 0, 0)
    } else if d == 2 {
        (-1, 0, 0)
    } else if d == 3 {
        (0, 0, 1)
    } else {
        (0, 0, -1)
    }
}

/// The faces of a world to draw, in the order of the walk (layer by layer from the bottom, then z, then x, then
/// up, +x, -x, +z, -z), and its glowing blocks in the same order.
pub fn world_faces(bl: &Blocks) -> (r: (Vec<BlockFace>, Vec<Glow>))
    requires
        bl.wf(),
    ensures
        r.0@ == faces_before(*bl, (H * N * N * 5) as nat),
        r.1@ == glows_before(*bl, (H * N * N) as nat),
{
    let mut faces: Vec<BlockFace> = Vec::new();
    let mut glow: Vec<Glow> = Vec::new();
    let mut y: i64 = 0;
    while y < H
        invariant
            bl.wf(),
            0 <= y <= H,
            faces@ == faces_before(*bl, side_slot(y as int, 0, 0, 0) as nat),
            glow@ == glows_before(*bl, block_slot(y as int, 0, 0) as nat),
        decreases H - y,
    {
        let mut z: i64 = 0;
        while z < N
            invariant
                bl.wf(),
                0 <= y < H,
                0 <= z <= N,
                faces@ == faces_before(*bl, side_slot(y as int, z as int, 0, 0) as nat),
                glow@ == glows_before(*bl, block_slot(y as int, z as int, 0) as nat),
            decreases N - z,
        {
            let mut x: i64 = 0;
            while x < N
                invariant
                    bl.wf(),
                    0 <= y < H,
                    0 <= z < N,
                    0 <= x <= N,
                    faces@ == faces_before(*bl, side_slot(y as int, z as int, x as int, 0) as nat),
                    glow@ == glows_before(*bl, block_slot(y as int, z as int, x as int) as nat),
                decreases N - x,
            {
                let b = bl.get(x, y, z);
                proof {
                    lemma_block_slot(y as int, z as int, x as int);
                }
                if b != B::Air && (matches!(b, B::Lava | B::Glowstone | B::EndRod | B::Crystal)) {
                    if b != B::Lava || (bl.get(x, y + 1, z) == B::Air && (x + z) % 3 == 0) {
                        glow.push(Glow { x, y, z, block: b });
                    }
                }
                let mut d: usize = 0;
                while d < 5
                    invariant
                        bl.wf(),
                        0 <= y < H,
                        0 <= z < N,
                        0 <= x < N,
                        d <= 5,
                        b == bl.at(x as int, y as int, z as int),
                        faces@ == faces_before(*bl, side_slot(y as int, z as int, x as int, d as int) as nat),
                    decreases 5 - d,
                {
                    let (dx, dy, dz) = side_step(d);
                    let nb = bl.get(x + dx, y + dy, z + dz);
                    proof {
                        lemma_side_slot(y as int, z as int, x as int, d as int);
                        lemma_block_slot(y as int, z as int, x as int);
                    }
                    if b != B::Air && nb.clear() && !(nb == b && b != B::Leaves) {
                        let tex = tex_of(b, dy);
                        faces.push(BlockFace { x, y, z, side: d, tex, leafy: matches!(b, B::Leaves | B::Log) });
                    }
                    d = d + 1;
                }
                x = x + 1;
            }
            z = z + 1;
        }
        y = y + 1;
    }
    (faces, glow)
}

} // verus!
