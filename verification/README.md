# Lucky Verities: the verified rules

The rules of the Lucky Verities idle game, written in Verus and proved against their contracts: what a
season reset does to a save, how settings travel with a save, the counts of a trade and of a trait batch, the
block worlds of Explore (how each dimension is built from the noise it is given, where Steve can walk, which
faces are drawn), the model
file of the 3D Monster, the keyboard and mouse-wheel routing of the screens, and the texts the game shows.

## Layout

| Path | What |
|---|---|
| `src/world.rs` | blocks, columns, towers and trees |
| `src/worldgen.rs`, `src/overworld.rs`, `src/nether.rs`, `src/end.rs`, `src/city.rs` | building each dimension from its noise (the noise, a floating-point hash, is given as data) |
| `src/explore.rs` | a world ready to explore: blocks, walkable columns, faces |
| `src/walk.rs` | what Steve can reach from the spawn (a breadth-first search) |
| `src/faces.rs` | the faces to draw and the glowing blocks |
| `src/play.rs` | rolls, traits, the rain of verities, selling, Explore's keys and catches |
| `src/counts.rs` | counts kept in an `IndexMap`: trade sides, receipts, the online wallet, the Bag's list, trait batches |
| `src/season.rs`, `src/prefs.rs` | season resets and the settings kept in a save |
| `src/ui.rs`, `src/updates.rs`, `src/feedback.rs` | screens, keys, the wheel, what's new, feedback |
| `src/labels.rs`, `src/num.rs`, `src/text.rs`, `src/geom.rs` | texts, numbers, rectangles and colours |
| `src/model.rs` | the Monster's model file |
| `app/lib.rs` | SDL keys, save files, JSON settings, the local clock |
| `tests/` | tests run against the compiled library |

## Settings

The game keeps its settings in a `serde_json::Map<String, Value>`. Its methods exist only for JSON values, which
the rules of the settings must read and compare, so `src/prefs.rs` holds each setting as its name and its value's
JSON text, in the map's order; `app/lib.rs` converts between the two (`settings_texts`, `settings_values`).
A save file's season is read from its text by serde_json inside the library (`season::save_text_season`).
