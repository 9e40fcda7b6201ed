//! Lucky Verities: the rules of the game that can be stated and checked on their own.
//!
//! - `world`: the block worlds of Explore and where Steve can walk in them.
pub mod text;
pub mod ui;
pub mod geom;
pub mod labels;
pub mod num;
pub mod play;
pub mod prefs;
pub mod season;
pub mod world;
pub mod walk;
pub mod counts;
pub mod feedback;
pub mod updates;
pub mod faces;
pub mod model;
pub mod worldgen;
pub mod city;
pub mod end;
pub mod nether;
pub mod overworld;
pub mod explore;
