//! A world ready to explore: its blocks, built by the generator of its dimension from the noise it
//! was given; where Steve can stand and what he can reach from the spawn; the faces to draw and the glowing blocks.
use vstd::prelude::*;
use crate::world::{B, Blocks, in_grid, num_cols, at_col, can_stand};
use crate::walk::{walkable, reachable};
use crate::faces::{world_faces, faces_before, glows_before, BlockFace, Glow};
use crate::worldgen::{world_of, ChorusSpot};
use crate::city::{gen_emerald_city, emerald_city, Lot, lot_ok};
use crate::end::{gen_end, gen_end_city, end_world, end_city_world, pillar_ok};
use crate::nether::{gen_nether, nether_world, NetherCol, nether_col_ok};
use crate::overworld::{gen_overworld, overworld, OverworldCol, overworld_col_ok};
use crate::world::{N, H};

verus! {

/// A dimension, with what its generator needs from the world's noise.
pub enum WorldNoise {
    Overworld { cols: Vec<OverworldCol> },
    Nether { cols: Vec<NetherCol> },
    End {
        main: Vec<Option<(i64, i64)>>,
        pillars: Vec<(i64, i64, i64)>,
        small: Vec<Vec<Option<(i64, i64)>>>,
        spots: Vec<ChorusSpot>,
    },
    EndCity { main: Vec<Option<(i64, i64)>>, spots: Vec<ChorusSpot> },
    EmeraldCity { flowers: Vec<bool>, lots: Vec<Lot> },
}

/// The noise has what its generator needs.
pub open spec fn noise_ok(n: WorldNoise) -> bool {
    match n {
        WorldNoise::Overworld { cols } => cols@.len() == N * N && forall|i: int| 0 <= i < N * N ==> overworld_col_ok(#[trigger] cols@[i]),
        WorldNoise::Nether { cols } => cols@.len() == N * N && forall|i: int| 0 <= i < N * N ==> nether_col_ok(#[trigger] cols@[i]),
        WorldNoise::End { main, pillars, small, spots } => {
            &&& main@.len() == N * N
            &&& forall|i: int| 0 <= i < pillars@.len() ==> pillar_ok(#[trigger] pillars@[i])
            &&& forall|i: int| 0 <= i < small@.len() ==> (#[trigger] small@[i])@.len() == N * N
            &&& spots@.len() == N * N
            &&& forall|i: int| 0 <= i < N * N ==> 0 <= (#[trigger] spots@[i]).tall <= H
        },
        WorldNoise::EndCity { main, spots } => {
            &&& main@.len() == N * N
            &&& spots@.len() == N * N
            &&& forall|i: int| 0 <= i < N * N ==> 0 <= (#[trigger] spots@[i]).tall <= H
        },
        WorldNoise::EmeraldCity { flowers, lots } => {
            &&& flowers@.len() == N * N
            &&& lots@.len() == 36
            &&& forall|k: int| 0 <= k < 36 ==> lot_ok(#[trigger] lots@[k])
        },
    }
}

/// Nothing but air.
pub open spec fn empty_world() -> spec_fn(int, int, int) -> B {
    |x: int, y: int, z: int| B::Air
}

/// The world the generator of the dimension builds from nothing.
pub open spec fn generated(n: WorldNoise) -> spec_fn(int, int, int) -> B {
    match n {
        WorldNoise::Overworld { cols } => overworld(empty_world(), cols@),
        WorldNoise::Nether { cols } => nether_world(empty_world(), cols@),
        WorldNoise::End { main, pillars, small, spots } => end_world(
            empty_world(),
            main@,
            pillars@,
            small@.map_values(|v: Vec<Option<(i64, i64)>>| v@),
            spots@,
        ),
        WorldNoise::EndCity { main, spots } => end_city_world(empty_world(), main@, spots@),
        WorldNoise::EmeraldCity { flowers, lots } => emerald_city(empty_world(), flowers@, lots@),
    }
}

/// A world ready to explore.
pub struct BuiltWorld {
    pub blocks: Blocks,
    /// per column: the height Steve stands at on it (-1: the void)
    pub top: Vec<i64>,
    /// per column: Steve can go there (and it can be reached from the spawn)
    pub reach: Vec<bool>,
    pub faces: Vec<BlockFace>,
    pub glows: Vec<Glow>,
}

/// Builds a world: its blocks, then where Steve can walk, then what there is to draw.
pub fn build_world(noise: &WorldNoise) -> (w: BuiltWorld)
    requires
        noise_ok(*noise),
    ensures
        w.blocks.wf(),
        forall|x: int, y: int, z: int| #[trigger] w.blocks.at(x, y, z) == generated(*noise)(x, y, z),
        w.top@.len() == num_cols(),
        w.reach@.len() == num_cols(),
        forall|x: int, z: int| in_grid(x, z) ==> #[trigger] at_col(w.top@, x, z) == w.blocks.spec_height(x, z),
        exists|ok: Seq<bool>|
            ok.len() == num_cols() && (forall|x: int, z: int| in_grid(x, z) ==> #[trigger] at_col(ok, x, z) == can_stand(w.blocks, x, z))
                && forall|x: int, z: int| in_grid(x, z) ==> (#[trigger] at_col(w.reach@, x, z) <==> reachable(w.top@, ok, (x, z))),
        w.faces@ == faces_before(w.blocks, (H * N * N * 5) as nat),
        w.glows@ == glows_before(w.blocks, (H * N * N) as nat),
{
    let mut bl = Blocks::new();
    proof {
        assert(world_of(bl) =~= empty_world());
    }
    match noise {
        WorldNoise::Overworld { cols } => gen_overworld(&mut bl, cols),
        WorldNoise::Nether { cols } => gen_nether(&mut bl, cols),
        WorldNoise::End { main, pillars, small, spots } => gen_end(&mut bl, main, pillars, small, spots),
        WorldNoise::EndCity { main, spots } => gen_end_city(&mut bl, main, spots),
        WorldNoise::EmeraldCity { flowers, lots } => gen_emerald_city(&mut bl, flowers, lots),
    }
    let (top, reach) = walkable(&bl);
    let (faces, glows) = world_faces(&bl);
    BuiltWorld { blocks: bl, top, reach, faces, glows }
}

} // verus!
