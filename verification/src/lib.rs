//! Integer raster geometry (lines, circumferences, arcs, filled circles),
//! index-checked sparse maps, run-length encoded pixel sections and the
//! small decision procedures that drive the game-side glue.
pub mod arc;
pub mod circle;
pub mod circumference;
pub mod explosion;
pub mod isqrt;
pub mod line;
pub mod lua;
pub mod new_game;
pub mod octant;
pub mod search;
pub mod seen;
pub mod text;
pub mod uninit_map;
pub mod world;
pub mod world_sync;
pub mod world_write;

use vstd::prelude::*;

verus! {

/// Absolute value of a mathematical integer.
pub open spec fn iabs(v: int) -> int {
    if v < 0 {
        -v
    } else {
        v
    }
}


} // verus!
