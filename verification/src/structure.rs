//! Structures: boxes of blocks placed into the world from an origin.
use vstd::prelude::*;
use crate::chunk::Block;
use crate::geometry::ChunkPos;

verus! {

/// A box of blocks, `size` blocks along each axis, placed from `origin`.
#[derive(Debug, Clone)]
pub struct Structure {
    data: Vec<Block>,
    size: ChunkPos,
    origin: ChunkPos,
}

/// The flat index of `pos` in a box of `size`, or `None` when a coordinate of
/// `pos` exceeds the box's size along its axis.
pub open spec fn box_index(size: ChunkPos, pos: ChunkPos) -> Option<int> {
    if pos.spec_x() > size.spec_x() || pos.spec_y() > size.spec_y() || pos.spec_z() > size.spec_z() {
        None
    } else {
        Some(pos.spec_x() + pos.spec_y() * size.spec_x() + pos.spec_z() * size.spec_x() * size.spec_y())
    }
}

impl Structure {
    /// The blocks, by flat index.
    pub closed spec fn blocks(&self) -> Seq<Block> {
        self.data@
    }

    pub closed spec fn spec_size(&self) -> ChunkPos {
        self.size
    }

    pub closed spec fn spec_origin(&self) -> ChunkPos {
        self.origin
    }

    /// A structure of air of the given size, or `None` when the size is not a
    /// chunk position or the origin lies outside the box. The block count of
    /// a structure that is made is computed in `u8`, so it must not exceed 255.
    pub fn new(size_v: (u8, u8, u8), origin: ChunkPos) -> (s: Option<Structure>)
        requires
            (size_v.0 < 32 && size_v.1 < 32 && size_v.2 < 32 && origin.spec_x() < size_v.0
                && origin.spec_y() < size_v.1 && origin.spec_z() < size_v.2) ==> (size_v.0 * size_v.1 <= 255
                && size_v.0 * size_v.1 * size_v.2 <= 255),
        ensures
            s is Some <==> (size_v.0 < 32 && size_v.1 < 32 && size_v.2 < 32 && origin.spec_x() < size_v.0
                && origin.spec_y() < size_v.1 && origin.spec_z() < size_v.2),
            s matches Some(st) ==> {
                &&& st.spec_size().spec_x() == size_v.0
                &&& st.spec_size().spec_y() == size_v.1
                &&& st.spec_size().spec_z() == size_v.2
                &&& st.spec_origin() == origin
                &&& st.blocks().len() == size_v.0 * size_v.1 * size_v.2
                &&& forall|i: int| 0 <= i < st.blocks().len() ==> #[trigger] st.blocks()[i] == Block::Air
            },
    {
        let size = match ChunkPos::new(size_v.0, size_v.1, size_v.2) {
            Some(size) => size,
            None => {
                return None;
            },
        };
        if origin.x() >= size.x() || origin.y() >= size.y() || origin.z() >= size.z() {
            return None;
        }
        let ab: u8 = size_v.0 * size_v.1;
        let count: u8 = ab * size_v.2;
        let mut data: Vec<Block> = Vec::new();
        let mut i: u8 = 0;
        while i < count
            invariant
                i <= count,
                data@.len() == i,
                forall|j: int| 0 <= j < i ==> data@[j] == Block::Air,
            decreases count - i,
        {
            data.push(Block::Air);
            i = i + 1;
        }
        Some(Structure { data, size, origin })
    }

    /// The flat index of `pos`, or `None` when a coordinate of `pos` exceeds
    /// the size along its axis.
    fn index(&self, pos: ChunkPos) -> (r: Option<usize>)
        requires
            self.size.wf(),
        ensures
            r matches Some(i) ==> box_index(self.size, pos) == Some(i as int),
            r is None ==> box_index(self.size, pos) is None,
    {
        let x = pos.x() as usize;
        let y = pos.y() as usize;
        let z = pos.z() as usize;
        let sx = self.size.x() as usize;
        let sy = self.size.y() as usize;
        let sz = self.size.z() as usize;
        if x > sx || y > sy || z > sz {
            return None;
        }
        assert(y * sx <= 64 * 32) by (nonlinear_arith)
            requires
                y <= 64,
                sx <= 32,
        ;
        assert(z * sx <= 64 * 32) by (nonlinear_arith)
            requires
                z <= 64,
                sx <= 32,
        ;
        assert(z * sx * sy <= 64 * 32 * 32) by (nonlinear_arith)
            requires
                z <= 64,
                sx <= 32,
                sy <= 32,
        ;
        Some(x + y * sx + z * sx * sy)
    }

    /// The block at `index`, or `None` when a coordinate of `index` exceeds
    /// the size along its axis. A position on the far boundary of the box
    /// whose flat index falls past the blocks is left out.
    pub fn get(&self, index: ChunkPos) -> (r: Option<&Block>)
        requires
            self.spec_size().wf(),
            box_index(self.spec_size(), index) matches Some(i) ==> i < self.blocks().len(),
        ensures
            box_index(self.spec_size(), index) matches Some(i) ==> (r matches Some(b) && *b == self.blocks()[i]),
            box_index(self.spec_size(), index) is None ==> r is None,
    {
        let i = match self.index(index) {
            Some(i) => i,
            None => {
                return None;
            },
        };
        Some(&self.data[i])
    }

    /// The block at `index`, to change, or `None` when a coordinate of
    /// `index` exceeds the size along its axis.
    pub fn get_mut(&mut self, index: ChunkPos) -> (r: Option<&mut Block>)
        requires
            old(self).spec_size().wf(),
            box_index(old(self).spec_size(), index) matches Some(i) ==> i < old(self).blocks().len(),
        ensures
            box_index(old(self).spec_size(), index) is None ==> r is None && *final(self) == *old(self),
            box_index(old(self).spec_size(), index) matches Some(i) ==> (r matches Some(b) && *b
                == old(self).blocks()[i] && final(self).blocks() == old(self).blocks().update(i, *final(b))),
            final(self).spec_size() == old(self).spec_size(),
            final(self).spec_origin() == old(self).spec_origin(),
    {
        let i = match self.index(index) {
            Some(i) => i,
            None => {
                return None;
            },
        };
        Some(&mut self.data[i])
    }

    /// The size of the box, as a chunk position.
    pub fn size(&self) -> (r: ChunkPos)
        ensures
            r == self.spec_size(),
    {
        self.size
    }

    /// The origin of the structure.
    pub fn origin(&self) -> (r: ChunkPos)
        ensures
            r == self.spec_origin(),
    {
        self.origin
    }

    /// Whether the size is a chunk position.
    pub open spec fn wf(&self) -> bool {
        self.spec_size().wf()
    }
}

} // verus!
