//! Terrain rules: which block the generator places at a given depth below
//! the terrain surface.
use vstd::prelude::*;
use crate::chunk::Block;

verus! {

/// The block at `depth` blocks below the surface (negative above it), at
/// height `block_y`, with the water level at `water_level`; `below_cobble`
/// tells whether the stone noise at that block is below the cobblestone
/// threshold. `None` leaves air.
pub open spec fn spec_block_for_depth(depth: int, block_y: int, water_level: int, below_cobble: bool) -> Option<Block> {
    if depth == 0 {
        if block_y >= water_level {
            Some(Block::Grass)
        } else {
            Some(Block::Dirt)
        }
    } else if 1 <= depth < 4 {
        Some(Block::Dirt)
    } else if depth >= 4 {
        if below_cobble {
            Some(Block::Cobblestone)
        } else {
            Some(Block::Stone)
        }
    } else if block_y <= water_level {
        Some(Block::Debug)
    } else {
        None
    }
}

/// The block the generator places at `depth` blocks below the surface:
/// grass on the surface above the water level and dirt below it, three
/// layers of dirt, then stone or cobblestone; above the surface, the water
/// marker up to the water level and air higher up.
pub fn block_for_depth(depth: i32, block_y: i32, water_level: i32, below_cobble: bool) -> (r: Option<Block>)
    ensures
        r == spec_block_for_depth(depth as int, block_y as int, water_level as int, below_cobble),
{
    if depth == 0 {
        if block_y >= water_level {
            Some(Block::Grass)
        } else {
            Some(Block::Dirt)
        }
    } else if 1 <= depth && depth < 4 {
        Some(Block::Dirt)
    } else if depth >= 4 {
        if below_cobble {
            Some(Block::Cobblestone)
        } else {
            Some(Block::Stone)
        }
    } else if block_y <= water_level {
        Some(Block::Debug)
    } else {
        None
    }
}

/// Whether the stone noise must be sampled for a block at `depth`: only
/// stone layers depend on it.
pub fn needs_stone_noise(depth: i32) -> (b: bool)
    ensures
        b == (depth >= 4),
        !b ==> forall|y: int, w: int|
            #[trigger] spec_block_for_depth(depth as int, y, w, true) == spec_block_for_depth(depth as int, y, w, false),
{
    depth >= 4
}

/// The terrain column: the surface block is grass at or above the water
/// level and dirt below it; the three blocks under it are dirt; deeper
/// blocks are cobblestone where the stone noise is below its threshold and
/// stone elsewhere; above the surface lies the water marker up to the water
/// level and air higher up.
pub proof fn lemma_terrain_column(depth: int, block_y: int, water_level: int, below_cobble: bool)
    ensures
        depth == 0 && block_y >= water_level ==> spec_block_for_depth(depth, block_y, water_level, below_cobble)
            == Some(Block::Grass),
        depth == 0 && block_y < water_level ==> spec_block_for_depth(depth, block_y, water_level, below_cobble)
            == Some(Block::Dirt),
        1 <= depth < 4 ==> spec_block_for_depth(depth, block_y, water_level, below_cobble) == Some(Block::Dirt),
        depth >= 4 && below_cobble ==> spec_block_for_depth(depth, block_y, water_level, below_cobble) == Some(
            Block::Cobblestone,
        ),
        depth >= 4 && !below_cobble ==> spec_block_for_depth(depth, block_y, water_level, below_cobble) == Some(
            Block::Stone,
        ),
        depth < 0 && block_y <= water_level ==> spec_block_for_depth(depth, block_y, water_level, below_cobble)
            == Some(Block::Debug),
        depth < 0 && block_y > water_level ==> spec_block_for_depth(depth, block_y, water_level, below_cobble)
            is None,
{
}

/// The ground is solid: at and below the surface every block is placed and
/// none is air; air is only ever left above the surface.
pub proof fn lemma_ground_is_solid(depth: int, block_y: int, water_level: int, below_cobble: bool)
    ensures
        depth >= 0 ==> (spec_block_for_depth(depth, block_y, water_level, below_cobble) matches Some(b) && b
            != Block::Air),
        spec_block_for_depth(depth, block_y, water_level, below_cobble) is None ==> depth < 0,
        spec_block_for_depth(depth, block_y, water_level, below_cobble) != Some(Block::Air),
{
}

} // verus!
