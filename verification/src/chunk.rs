//! Blocks, the block data of one chunk, and a loaded chunk with its bake state.
use vstd::prelude::*;
use crate::geometry::{ChunkLocation, ChunkPos, BLOCKS_PER_CHUNK};

verus! {

/// The kind of block stored at a position of the world.
#[derive(Clone, Copy, Debug, PartialEq, Eq, Hash, Structural)]
pub enum Block {
    Air,
    Grass,
    Dirt,
    Stone,
    Cobblestone,
    Debug,
}

impl Block {
    /// Whether this is the empty block.
    pub fn is_air(&self) -> (b: bool)
        ensures
            b == (*self == Block::Air),
    {
        match self {
            Block::Air => true,
            _ => false,
        }
    }
}

/// The blocks of one chunk together with the chunk's location.
#[derive(Debug)]
pub struct ChunkData {
    pub location: ChunkLocation,
    pub blocks: Vec<Block>,
}

impl ChunkData {
    /// Whether the chunk holds exactly one block per position.
    pub open spec fn wf(&self) -> bool {
        self.blocks@.len() == BLOCKS_PER_CHUNK
    }

    /// The block at `pos`.
    pub open spec fn spec_block(&self, pos: ChunkPos) -> Block {
        self.blocks@[pos.0 as int]
    }

    /// A chunk at `location` filled with air.
    pub fn empty(location: ChunkLocation) -> (c: ChunkData)
        ensures
            c.wf(),
            c.location == location,
            forall|i: int| 0 <= i < BLOCKS_PER_CHUNK ==> c.blocks@[i] == Block::Air,
    {
        let mut blocks: Vec<Block> = Vec::with_capacity(BLOCKS_PER_CHUNK);
        let mut i: usize = 0;
        while i < BLOCKS_PER_CHUNK
            invariant
                i <= BLOCKS_PER_CHUNK,
                blocks@.len() == i,
                forall|j: int| 0 <= j < i ==> blocks@[j] == Block::Air,
            decreases BLOCKS_PER_CHUNK - i,
        {
            blocks.push(Block::Air);
            i = i + 1;
        }
        ChunkData { location, blocks }
    }

    /// Replaces the block at `pos`.
    pub fn set_block(&mut self, pos: ChunkPos, block: Block)
        requires
            old(self).wf(),
            pos.wf(),
        ensures
            final(self).wf(),
            final(self).location == old(self).location,
            final(self).blocks@ == old(self).blocks@.update(pos.0 as int, block),
    {
        let i = pos.0 as usize;
        self.blocks.set(i, block);
    }

    /// The block at `pos`.
    pub fn get_block(&self, pos: ChunkPos) -> (b: &Block)
        requires
            self.wf(),
            pos.wf(),
        ensures
            *b == self.spec_block(pos),
    {
        let i = pos.0 as usize;
        &self.blocks[i]
    }
}

/// How far a loaded chunk is on its way to a mesh on the GPU.
#[derive(Clone, Copy, Debug, PartialEq, Eq, Hash, Structural)]
pub enum BakeState {
    /// The chunk is outside the render distance.
    DontBake,
    /// The chunk is inside the render distance and has no current mesh (it
    /// may still hold a stale one).
    NeedsBaking,
    /// The chunk is inside the render distance and its mesh is current.
    Baked,
}

/// A chunk held by the client, with its bake state and whether a mesh of it,
/// current or stale, is held for rendering.
#[derive(Debug)]
pub struct ClientChunk {
    pub data: ChunkData,
    pub bake: BakeState,
    pub has_mesh: bool,
}

/// The bake state after the chunk's blocks changed: a current mesh becomes stale.
pub open spec fn dirtied(s: BakeState) -> BakeState {
    if s == BakeState::Baked {
        BakeState::NeedsBaking
    } else {
        s
    }
}

impl ClientChunk {
    /// Marks a baked chunk as needing a new mesh.
    pub fn set_dirty(&mut self)
        ensures
            final(self).bake == dirtied(old(self).bake),
            final(self).data == old(self).data,
            final(self).has_mesh == old(self).has_mesh,
    {
        if self.bake == BakeState::Baked {
            self.bake = BakeState::NeedsBaking;
        }
    }
}

} // verus!
