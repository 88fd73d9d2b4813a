//! Sections the host sends back to a peer to overwrite its local copy.
use crate::world::PixelRun;
use vstd::prelude::*;

verus! {

/// A section to be written into a peer's world.
pub struct ChunkWrite {
    pub pixel_run: PixelRun,
}

/// Applies sections received from the host; writing into the game world is
/// not done yet, so the sections are dropped.
pub fn write_chunks(chunks: Vec<ChunkWrite>) {
    let _ = chunks;
}

} // verus!
