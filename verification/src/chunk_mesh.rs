//! Which faces of a chunk's blocks are visible: the faces a chunk mesh is
//! built from.
use vstd::prelude::*;
use crate::chunk::{Block, ChunkData};
use crate::chunk_manager::ChunkManager;
use crate::geometry::{ChunkPos, FaceType, BLOCKS_PER_CHUNK};

verus! {

/// A visible face: the block's position, the face, and the block.
pub type Face = (ChunkPos, FaceType, Block);

/// A chunk's blocks together with the blocks of its six neighbours, where
/// loaded, indexed by face in declaration order.
pub struct ChunkMeshContext<'a> {
    pub sides: [Option<&'a ChunkData>; 6],
    pub center: &'a ChunkData,
}

/// Whether the block at `p` of `blocks` is air.
pub open spec fn air_at(blocks: Seq<Block>, p: ChunkPos) -> bool {
    blocks[p.0 as int] == Block::Air
}

/// Whether face `ft` of the block at `p` is visible: the block next to it is
/// air, or lies in a neighbouring chunk that is not loaded.
pub open spec fn face_visible(center: Seq<Block>, sides: Seq<Option<Seq<Block>>>, p: ChunkPos, ft: FaceType) -> bool {
    match p.spec_adjacent(ft) {
        Ok(q) => air_at(center, q),
        Err(q) => match sides[ft.spec_index()] {
            None => true,
            Some(b) => air_at(b, q),
        },
    }
}

/// The visible faces of the block at `p` among the first `j` faces of
/// `FaceType::all()`, in that order.
pub open spec fn faces_at(center: Seq<Block>, sides: Seq<Option<Seq<Block>>>, p: ChunkPos, j: int) -> Seq<Face>
    decreases j,
{
    if j <= 0 {
        Seq::empty()
    } else {
        let prev = faces_at(center, sides, p, j - 1);
        let ft = FaceType::spec_all()[j - 1];
        if face_visible(center, sides, p, ft) {
            prev.push((p, ft, center[p.0 as int]))
        } else {
            prev
        }
    }
}

/// The visible faces of the non-air blocks at positions below `n`, by
/// position and then in the order of `FaceType::all()`.
pub open spec fn mesh_upto(center: Seq<Block>, sides: Seq<Option<Seq<Block>>>, n: int) -> Seq<Face>
    decreases n,
{
    if n <= 0 {
        Seq::empty()
    } else {
        let p = ChunkPos((n - 1) as u16);
        mesh_upto(center, sides, n - 1) + if center[n - 1] == Block::Air {
            Seq::<Face>::empty()
        } else {
            faces_at(center, sides, p, 6)
        }
    }
}

impl<'a> ChunkMeshContext<'a> {
    /// The neighbours' blocks, by face index.
    pub open spec fn sides_view(&self) -> Seq<Option<Seq<Block>>> {
        Seq::new(
            6,
            |i: int|
                match self.sides@[i] {
                    Some(c) => Some(c.blocks@),
                    None => None,
                },
        )
    }

    /// Whether every chunk of the context holds a full set of blocks.
    pub open spec fn wf(&self) -> bool {
        &&& self.center.wf()
        &&& forall|i: int| 0 <= i < 6 ==> (#[trigger] self.sides@[i] matches Some(c) ==> c.wf())
    }

    /// The context of `center_chunk` with its loaded neighbours from `chunk_mgr`.
    pub fn from_manager(chunk_mgr: &'a ChunkManager, center_chunk: &'a ChunkData) -> (ctx: ChunkMeshContext<'a>)
        requires
            center_chunk.location.not_at_edge(),
        ensures
            ctx.center == center_chunk,
            forall|i: int|
                0 <= i < 6 ==> {
                    let k = crate::chunk_manager::face_neighbor_key(
                        center_chunk.location,
                        #[trigger] FaceType::spec_from_index(i),
                    );
                    &&& (ctx.sides@[i] is Some <==> chunk_mgr.loaded_view().dom().contains(k))
                    &&& (ctx.sides@[i] matches Some(c) ==> *c == chunk_mgr.loaded_view()[k].data)
                },
            chunk_mgr.wf() && center_chunk.wf() ==> ctx.wf(),
    {
        let loc = center_chunk.location;
        let s0 = side_of(chunk_mgr, &loc, FaceType::Bottom);
        let s1 = side_of(chunk_mgr, &loc, FaceType::Top);
        let s2 = side_of(chunk_mgr, &loc, FaceType::Front);
        let s3 = side_of(chunk_mgr, &loc, FaceType::Back);
        let s4 = side_of(chunk_mgr, &loc, FaceType::Left);
        let s5 = side_of(chunk_mgr, &loc, FaceType::Right);
        let ctx = ChunkMeshContext { sides: [s0, s1, s2, s3, s4, s5], center: center_chunk };
        proof {
            assert forall|i: int| 0 <= i < 6 implies (#[trigger] ctx.sides@[i] matches Some(c)
                ==> chunk_mgr.wf() ==> c.wf()) by {
                let k = crate::chunk_manager::face_neighbor_key(loc, FaceType::spec_from_index(i));
                if chunk_mgr.wf() && ctx.sides@[i] is Some {
                    assert(chunk_mgr.loaded_view().dom().contains(k));
                }
            }
        }
        ctx
    }

    /// The visible faces of the chunk's non-air blocks, by position and then
    /// in the order of `FaceType::all()`.
    pub fn faces(&self) -> (r: Vec<Face>)
        requires
            self.wf(),
        ensures
            r@ == mesh_upto(self.center.blocks@, self.sides_view(), BLOCKS_PER_CHUNK as int),
    {
        let ghost center = self.center.blocks@;
        let ghost sides = self.sides_view();
        let all = FaceType::all();
        let mut out: Vec<Face> = Vec::new();
        let mut pos: usize = 0;
        while pos < BLOCKS_PER_CHUNK
            invariant
                pos <= BLOCKS_PER_CHUNK,
                self.wf(),
                center == self.center.blocks@,
                sides == self.sides_view(),
                all@ == FaceType::spec_all(),
                out@ == mesh_upto(center, sides, pos as int),
            decreases BLOCKS_PER_CHUNK - pos,
        {
            let p = ChunkPos(pos as u16);
            let block = self.center.blocks[pos];
            let ghost before = out@;
            if block != Block::Air {
                let mut j: usize = 0;
                while j < 6
                    invariant
                        j <= 6,
                        pos < BLOCKS_PER_CHUNK,
                        p == ChunkPos(pos as u16),
                        block == center[pos as int],
                        self.wf(),
                        center == self.center.blocks@,
                        sides == self.sides_view(),
                        all@ == FaceType::spec_all(),
                        out@ == before + faces_at(center, sides, p, j as int),
                    decreases 6 - j,
                {
                    let ft = all[j];
                    let visible = self.face_visible(p, ft);
                    if visible {
                        out.push((p, ft, block));
                        proof {
                            assert(out@ =~= before + faces_at(center, sides, p, j + 1));
                        }
                    }
                    j = j + 1;
                }
            } else {
                proof {
                    assert(out@ =~= before + Seq::<Face>::empty());
                }
            }
            proof {
                assert(ChunkPos(((pos + 1) - 1) as u16) == p);
            }
            pos = pos + 1;
        }
        out
    }

    /// Whether face `ft` of the block at `p` is visible.
    fn face_visible(&self, p: ChunkPos, ft: FaceType) -> (b: bool)
        requires
            self.wf(),
            p.wf(),
        ensures
            b == face_visible(self.center.blocks@, self.sides_view(), p, ft),
    {
        match p.adjacent_to_face(ft) {
            Ok(q) => {
                let i = q.0 as usize;
                self.center.blocks[i] == Block::Air
            },
            Err(q) => {
                let fi = ft.index();
                match self.sides[fi] {
                    None => true,
                    Some(c) => {
                        proof {
                            assert(self.sides@[fi as int] matches Some(cc) && cc.wf());
                        }
                        let i = q.0 as usize;
                        c.blocks[i] == Block::Air
                    },
                }
            },
        }
    }
}

/// The loaded neighbour of the chunk at `loc` across face `ft`, if any.
fn side_of<'a>(chunk_mgr: &'a ChunkManager, loc: &crate::geometry::ChunkLocation, ft: FaceType) -> (r: Option<
    &'a ChunkData,
>)
    requires
        loc.not_at_edge(),
    ensures
        r is Some <==> chunk_mgr.loaded_view().dom().contains(
            crate::chunk_manager::face_neighbor_key(*loc, ft),
        ),
        r matches Some(c) ==> *c == chunk_mgr.loaded_view()[crate::chunk_manager::face_neighbor_key(
            *loc,
            ft,
        )].data,
{
    let n = loc.neighbor(ft);
    match chunk_mgr.get_chunk_ref(&n) {
        Some(c) => Some(&c.data),
        None => None,
    }
}

} // verus!
