//! The mesher: turns a chunk plus its neighborhood into a packed vertex and
//! index array, with baked ambient occlusion.
//!
//! For every cell, the three faces on its negative-x, negative-y and
//! negative-z sides are considered; this covers each interior face exactly
//! once. A face is emitted where an air cell meets a non-air cell. Blocks
//! just outside the chunk are resolved from the neighbor chunk when it is
//! loaded, and otherwise regenerated from the height map, which makes seams
//! identical whether or not the neighbor is present.

use vstd::prelude::*;

use crate::block::{in_chunk, vec3_to_index, index_to_vec3, Block, Direction, IVec3};
use crate::chunk::{Chunk, HeightMap};
use crate::gen::{generate_block_at, spec_generated_block};
use crate::store::ChunkStore;

verus! {

/// A GPU-ready surface mesh: packed 32-bit vertex words and triangle indices.
pub struct ChunkMesh {
    pub vertices: Vec<u32>,
    pub indices: Vec<u32>,
}

/// A local coordinate one step outside the chunk, folded back into the
/// neighbor's local space.
pub open spec fn wrap_coord(v: int) -> int {
    if v < 0 {
        v + 32
    } else if v >= 32 {
        v - 32
    } else {
        v
    }
}

/// The block seen from chunk `c` at local position `(x, y, z)`, which may lie
/// one step outside the chunk: inside cells come from `c`; outside cells come
/// from the `fallback` chunk when given, and are otherwise regenerated from
/// the height map.
pub open spec fn spec_rel_block(
    c: Chunk,
    fallback: Option<Chunk>,
    hm: HeightMap,
    x: int,
    y: int,
    z: int,
) -> Block {
    if in_chunk(x, y, z) {
        c.spec_block(x, y, z)
    } else {
        match fallback {
            Some(n) => n.spec_block(wrap_coord(x), wrap_coord(y), wrap_coord(z)),
            None => spec_generated_block(c.pos, hm, x, y, z),
        }
    }
}

/// The eight voxels that ring a face, in the fixed order the ambient
/// occlusion rule walks them.
pub open spec fn ao_offsets(dir: Direction) -> Seq<IVec3> {
    match dir {
        Direction::Left => seq![
            IVec3 { x: -1i32, y: 0, z: -1i32 },
            IVec3 { x: -1i32, y: -1i32, z: -1i32 },
            IVec3 { x: -1i32, y: -1i32, z: 0 },
            IVec3 { x: -1i32, y: -1i32, z: 1 },
            IVec3 { x: -1i32, y: 0, z: 1 },
            IVec3 { x: -1i32, y: 1, z: 1 },
            IVec3 { x: -1i32, y: 1, z: 0 },
            IVec3 { x: -1i32, y: 1, z: -1i32 },
        ],
        Direction::Bottom => seq![
            IVec3 { x: -1i32, y: -1i32, z: 0 },
            IVec3 { x: -1i32, y: -1i32, z: -1i32 },
            IVec3 { x: 0, y: -1i32, z: -1i32 },
            IVec3 { x: 1, y: -1i32, z: -1i32 },
            IVec3 { x: 1, y: -1i32, z: 0 },
            IVec3 { x: 1, y: -1i32, z: 1 },
            IVec3 { x: 0, y: -1i32, z: 1 },
            IVec3 { x: -1i32, y: -1i32, z: 1 },
        ],
        Direction::Back => seq![
            IVec3 { x: 0, y: -1i32, z: -1i32 },
            IVec3 { x: -1i32, y: -1i32, z: -1i32 },
            IVec3 { x: -1i32, y: 0, z: -1i32 },
            IVec3 { x: -1i32, y: 1, z: -1i32 },
            IVec3 { x: 0, y: 1, z: -1i32 },
            IVec3 { x: 1, y: 1, z: -1i32 },
            IVec3 { x: 1, y: 0, z: -1i32 },
            IVec3 { x: 1, y: -1i32, z: -1i32 },
        ],
        Direction::Right => seq![
            IVec3 { x: 0, y: 0, z: -1i32 },
            IVec3 { x: 0, y: 1, z: -1i32 },
            IVec3 { x: 0, y: 1, z: 0 },
            IVec3 { x: 0, y: 1, z: 1 },
            IVec3 { x: 0, y: 0, z: 1 },
            IVec3 { x: 0, y: -1i32, z: 1 },
            IVec3 { x: 0, y: -1i32, z: 0 },
            IVec3 { x: 0, y: -1i32, z: -1i32 },
        ],
        Direction::Top => seq![
            IVec3 { x: -1i32, y: 0, z: 0 },
            IVec3 { x: -1i32, y: 0, z: 1 },
            IVec3 { x: 0, y: 0, z: 1 },
            IVec3 { x: 1, y: 0, z: 1 },
            IVec3 { x: 1, y: 0, z: 0 },
            IVec3 { x: 1, y: 0, z: -1i32 },
            IVec3 { x: 0, y: 0, z: -1i32 },
            IVec3 { x: -1i32, y: 0, z: -1i32 },
        ],
        Direction::Front => seq![
            IVec3 { x: 0, y: -1i32, z: 0 },
            IVec3 { x: 1, y: -1i32, z: 0 },
            IVec3 { x: 1, y: 0, z: 0 },
            IVec3 { x: 1, y: 1, z: 0 },
            IVec3 { x: 0, y: 1, z: 0 },
            IVec3 { x: -1i32, y: 1, z: 0 },
            IVec3 { x: -1i32, y: 0, z: 0 },
            IVec3 { x: -1i32, y: -1i32, z: 0 },
        ],
    }
}

/// The four corners of a unit quad for each orientation, in the fixed winding
/// that one global back-face-cull rule relies on.
pub open spec fn corner_offsets(dir: Direction) -> Seq<IVec3> {
    match dir {
        Direction::Left => seq![
            IVec3 { x: 0, y: 0, z: 0 },
            IVec3 { x: 0, y: 0, z: 1 },
            IVec3 { x: 0, y: 1, z: 1 },
            IVec3 { x: 0, y: 1, z: 0 },
        ],
        Direction::Right => seq![
            IVec3 { x: 0, y: 1, z: 0 },
            IVec3 { x: 0, y: 1, z: 1 },
            IVec3 { x: 0, y: 0, z: 1 },
            IVec3 { x: 0, y: 0, z: 0 },
        ],
        Direction::Bottom => seq![
            IVec3 { x: 0, y: 0, z: 0 },
            IVec3 { x: 1, y: 0, z: 0 },
            IVec3 { x: 1, y: 0, z: 1 },
            IVec3 { x: 0, y: 0, z: 1 },
        ],
        Direction::Top => seq![
            IVec3 { x: 0, y: 0, z: 1 },
            IVec3 { x: 1, y: 0, z: 1 },
            IVec3 { x: 1, y: 0, z: 0 },
            IVec3 { x: 0, y: 0, z: 0 },
        ],
        Direction::Back => seq![
            IVec3 { x: 0, y: 0, z: 0 },
            IVec3 { x: 0, y: 1, z: 0 },
            IVec3 { x: 1, y: 1, z: 0 },
            IVec3 { x: 1, y: 0, z: 0 },
        ],
        Direction::Front => seq![
            IVec3 { x: 1, y: 0, z: 0 },
            IVec3 { x: 1, y: 1, z: 0 },
            IVec3 { x: 0, y: 1, z: 0 },
            IVec3 { x: 0, y: 0, z: 0 },
        ],
    }
}

/// Whether the ring voxel `j` of the face at `(x, y, z)` facing `dir` is
/// occupied (non-air). Occlusion always reads generated terrain beyond the
/// chunk border, never a neighbor chunk.
pub open spec fn spec_ao_occupied(
    c: Chunk,
    hm: HeightMap,
    x: int,
    y: int,
    z: int,
    dir: Direction,
    j: int,
) -> bool {
    !spec_rel_block(
        c,
        None,
        hm,
        x + ao_offsets(dir)[j].x,
        y + ao_offsets(dir)[j].y,
        z + ao_offsets(dir)[j].z,
    ).spec_is_air()
}

pub open spec fn b2i(b: bool) -> int {
    if b {
        1
    } else {
        0
    }
}

/// The occlusion level from the two edge neighbors and the diagonal of one
/// corner: their count, clamped to the darkest level 3 when both edge
/// neighbors are occupied.
pub open spec fn ao_level_of(s1: bool, s2: bool, sc: bool) -> int {
    if s1 && s2 {
        3
    } else {
        b2i(s1) + b2i(s2) + b2i(sc)
    }
}

/// The baked occlusion level of corner `i` (0..4) of a face.
pub open spec fn spec_ao_level(
    c: Chunk,
    hm: HeightMap,
    x: int,
    y: int,
    z: int,
    dir: Direction,
    i: int,
) -> int {
    ao_level_of(
        spec_ao_occupied(c, hm, x, y, z, dir, 2 * i),
        spec_ao_occupied(c, hm, x, y, z, dir, (2 * i + 2) % 8),
        spec_ao_occupied(c, hm, x, y, z, dir, (2 * i + 1) % 8),
    )
}

/// The packed 32-bit vertex word: bits 0-5 x, 6-11 y, 12-17 z, 18-20 the
/// orientation, 21-22 the occlusion level, 23-31 the block kind.
pub open spec fn spec_pack_vertex(
    x: int,
    y: int,
    z: int,
    dir: Direction,
    ao: int,
    block: Block,
) -> u32
    recommends
        0 <= x <= 32,
        0 <= y <= 32,
        0 <= z <= 32,
        0 <= ao <= 3,
{
    (x + y * 64 + z * 4096 + dir.spec_index() * 262144 + ao * 2097152 + block.spec_id()
        * 8388608) as u32
}

/// The four vertices of one face of `block` at cell `(x, y, z)` facing `dir`.
pub open spec fn spec_face_verts(
    c: Chunk,
    hm: HeightMap,
    dir: Direction,
    x: int,
    y: int,
    z: int,
    block: Block,
) -> Seq<u32> {
    Seq::new(
        4,
        |i: int|
            spec_pack_vertex(
                x + corner_offsets(dir)[i].x,
                y + corner_offsets(dir)[i].y,
                z + corner_offsets(dir)[i].z,
                dir,
                spec_ao_level(c, hm, x, y, z, dir, i),
                block,
            ),
    )
}

/// The vertices emitted for cell index `i`: up to three faces, in the fixed
/// order the cell scan produces them.
pub open spec fn spec_cell_verts(
    c: Chunk,
    left: Option<Chunk>,
    back: Option<Chunk>,
    down: Option<Chunk>,
    hm: HeightMap,
    i: int,
) -> Seq<u32> {
    let x = i % 32;
    let y = (i / 32) % 32;
    let z = i / 1024;
    let current = c.spec_block(x, y, z);
    let left_b = spec_rel_block(c, left, hm, x - 1, y, z);
    let back_b = spec_rel_block(c, back, hm, x, y, z - 1);
    let down_b = spec_rel_block(c, down, hm, x, y - 1, z);
    if !current.spec_is_air() {
        (if left_b.spec_is_air() {
            spec_face_verts(c, hm, Direction::Left, x, y, z, current)
        } else {
            Seq::empty()
        }) + (if back_b.spec_is_air() {
            spec_face_verts(c, hm, Direction::Back, x, y, z, current)
        } else {
            Seq::empty()
        }) + (if down_b.spec_is_air() {
            spec_face_verts(c, hm, Direction::Bottom, x, y, z, current)
        } else {
            Seq::empty()
        })
    } else {
        (if !left_b.spec_is_air() {
            spec_face_verts(c, hm, Direction::Right, x, y, z, left_b)
        } else {
            Seq::empty()
        }) + (if !back_b.spec_is_air() {
            spec_face_verts(c, hm, Direction::Front, x, y, z, back_b)
        } else {
            Seq::empty()
        }) + (if !down_b.spec_is_air() {
            spec_face_verts(c, hm, Direction::Top, x, y, z, down_b)
        } else {
            Seq::empty()
        })
    }
}

/// The vertices of the first `n` cells, concatenated in cell-index order.
pub open spec fn spec_mesh_verts_upto(
    c: Chunk,
    left: Option<Chunk>,
    back: Option<Chunk>,
    down: Option<Chunk>,
    hm: HeightMap,
    n: int,
) -> Seq<u32>
    decreases n,
{
    if n <= 0 {
        Seq::empty()
    } else {
        spec_mesh_verts_upto(c, left, back, down, hm, n - 1) + spec_cell_verts(
            c,
            left,
            back,
            down,
            hm,
            n - 1,
        )
    }
}

/// The full vertex array of the mesh of `c` in the given neighborhood.
pub open spec fn spec_mesh_verts(
    c: Chunk,
    left: Option<Chunk>,
    back: Option<Chunk>,
    down: Option<Chunk>,
    hm: HeightMap,
) -> Seq<u32> {
    spec_mesh_verts_upto(c, left, back, down, hm, 32768)
}

/// The index array for `f` faces: each face contributes the two triangles
/// `v, v+1, v+2, v, v+2, v+3` over its four vertices.
pub open spec fn spec_index_pattern(f: int) -> Seq<u32>
    decreases f,
{
    if f <= 0 {
        Seq::empty()
    } else {
        let v = (4 * (f - 1)) as u32;
        spec_index_pattern(f - 1) + seq![v, (v + 1) as u32, (v + 2) as u32, v, (v + 2) as u32, (v + 3) as u32]
    }
}

/// Every prefix of the vertex stream is a whole number of faces, at most
/// three faces per cell.
#[verifier::rlimit(100)]
pub proof fn lemma_mesh_verts_len(
    c: Chunk,
    left: Option<Chunk>,
    back: Option<Chunk>,
    down: Option<Chunk>,
    hm: HeightMap,
    n: int,
)
    requires
        n >= 0,
    ensures
        spec_mesh_verts_upto(c, left, back, down, hm, n).len() % 4 == 0,
        spec_mesh_verts_upto(c, left, back, down, hm, n).len() <= 12 * n,
    decreases n,
{
    if n > 0 {
        lemma_mesh_verts_len(c, left, back, down, hm, n - 1);
    }
}

impl Chunk {
    /// Resolve a local position that may lie outside the chunk: inside cells
    /// from this chunk, outside cells from `fallback` (folded into its local
    /// space) or, without a fallback, regenerated from the height map.
    fn get_relative_block(
        &self,
        relative_pos: IVec3,
        fallback: Option<&Chunk>,
        heights: &HeightMap,
    ) -> (b: Block)
        requires
            self.wf(),
            heights.wf(),
            match fallback {
                Some(n) => n.wf(),
                None => true,
            },
            -65536 <= self.pos.x <= 65536,
            -65536 <= self.pos.y <= 65536,
            -65536 <= self.pos.z <= 65536,
            -1 <= relative_pos.x <= 32,
            -1 <= relative_pos.y <= 32,
            -1 <= relative_pos.z <= 32,
        ensures
            b == spec_rel_block(
                *self,
                match fallback {
                    Some(n) => Some(*n),
                    None => None,
                },
                *heights,
                relative_pos.x as int,
                relative_pos.y as int,
                relative_pos.z as int,
            ),
    {
        let nx = relative_pos.x;
        let ny = relative_pos.y;
        let nz = relative_pos.z;
        if 0 <= nx && nx < 32 && 0 <= ny && ny < 32 && 0 <= nz && nz < 32 {
            return self.blocks[vec3_to_index(relative_pos)];
        }

        let lx = if nx < 0 {
            nx + 32
        } else if nx >= 32 {
            nx - 32
        } else {
            nx
        };
        let ly = if ny < 0 {
            ny + 32
        } else if ny >= 32 {
            ny - 32
        } else {
            ny
        };
        let lz = if nz < 0 {
            nz + 32
        } else if nz >= 32 {
            nz - 32
        } else {
            nz
        };

        if let Some(chunk) = fallback {
            return chunk.blocks[vec3_to_index(IVec3 { x: lx, y: ly, z: lz })];
        }

        let world_y = self.pos.y * 32 + ny;
        generate_block_at(
            IVec3 { x: self.pos.x * 32 + nx, y: world_y, z: self.pos.z * 32 + nz },
            heights.height(nx, nz),
        )
    }

    /// The three face-adjacent blocks on the negative sides of `pos`, in the
    /// order (back, left, down).
    pub fn get_adjacent_blocks(
        &self,
        pos: IVec3,
        left_chunk: Option<&Chunk>,
        back_chunk: Option<&Chunk>,
        down_chunk: Option<&Chunk>,
        heights: &HeightMap,
    ) -> (r: (Block, Block, Block))
        requires
            self.wf(),
            heights.wf(),
            match left_chunk {
                Some(n) => n.wf(),
                None => true,
            },
            match back_chunk {
                Some(n) => n.wf(),
                None => true,
            },
            match down_chunk {
                Some(n) => n.wf(),
                None => true,
            },
            -65536 <= self.pos.x <= 65536,
            -65536 <= self.pos.y <= 65536,
            -65536 <= self.pos.z <= 65536,
            in_chunk(pos.x as int, pos.y as int, pos.z as int),
        ensures
            r.0 == spec_rel_block(
                *self,
                match back_chunk {
                    Some(n) => Some(*n),
                    None => None,
                },
                *heights,
                pos.x as int,
                pos.y as int,
                pos.z as int - 1,
            ),
            r.1 == spec_rel_block(
                *self,
                match left_chunk {
                    Some(n) => Some(*n),
                    None => None,
                },
                *heights,
                pos.x as int - 1,
                pos.y as int,
                pos.z as int,
            ),
            r.2 == spec_rel_block(
                *self,
                match down_chunk {
                    Some(n) => Some(*n),
                    None => None,
                },
                *heights,
                pos.x as int,
                pos.y as int - 1,
                pos.z as int,
            ),
    {
        let back = self.get_relative_block(
            IVec3 { x: pos.x, y: pos.y, z: pos.z - 1 },
            back_chunk,
            heights,
        );
        let left = self.get_relative_block(
            IVec3 { x: pos.x - 1, y: pos.y, z: pos.z },
            left_chunk,
            heights,
        );
        let down = self.get_relative_block(
            IVec3 { x: pos.x, y: pos.y - 1, z: pos.z },
            down_chunk,
            heights,
        );
        (back, left, down)
    }

    /// Occupancy of the eight voxels ringing the face of `pos` facing `dir`.
    #[verifier::rlimit(100)]
    pub fn ambient_corner_voxels(&self, dir: Direction, pos: IVec3, heights: &HeightMap) -> (r: [
        bool; 8])
        requires
            self.wf(),
            heights.wf(),
            -65536 <= self.pos.x <= 65536,
            -65536 <= self.pos.y <= 65536,
            -65536 <= self.pos.z <= 65536,
            in_chunk(pos.x as int, pos.y as int, pos.z as int),
        ensures
            forall|j: int|
                0 <= j < 8 ==> r[j] == spec_ao_occupied(
                    *self,
                    *heights,
                    pos.x as int,
                    pos.y as int,
                    pos.z as int,
                    dir,
                    j,
                ),
    {
        let r = [
            self.ambient_occupied(dir, pos, 0, heights),
            self.ambient_occupied(dir, pos, 1, heights),
            self.ambient_occupied(dir, pos, 2, heights),
            self.ambient_occupied(dir, pos, 3, heights),
            self.ambient_occupied(dir, pos, 4, heights),
            self.ambient_occupied(dir, pos, 5, heights),
            self.ambient_occupied(dir, pos, 6, heights),
            self.ambient_occupied(dir, pos, 7, heights),
        ];
        r
    }

    /// Occupancy of ring voxel `j` alone.
    fn ambient_occupied(&self, dir: Direction, pos: IVec3, j: usize, heights: &HeightMap) -> (r:
        bool)
        requires
            self.wf(),
            heights.wf(),
            -65536 <= self.pos.x <= 65536,
            -65536 <= self.pos.y <= 65536,
            -65536 <= self.pos.z <= 65536,
            in_chunk(pos.x as int, pos.y as int, pos.z as int),
            j < 8,
        ensures
            r == spec_ao_occupied(
                *self,
                *heights,
                pos.x as int,
                pos.y as int,
                pos.z as int,
                dir,
                j as int,
            ),
    {
        let o = ao_offset(dir, j);
        let b = self.get_relative_block(
            IVec3 { x: pos.x + o.x, y: pos.y + o.y, z: pos.z + o.z },
            None,
            heights,
        );
        !b.is_air()
    }
}

/// Ring offset `j` for a face facing `dir` (the executable face of
/// `ao_offsets`).
fn ao_offset(dir: Direction, j: usize) -> (r: IVec3)
    requires
        j < 8,
    ensures
        r == ao_offsets(dir)[j as int],
        -1 <= r.x <= 1,
        -1 <= r.y <= 1,
        -1 <= r.z <= 1,
{
    match dir {
        Direction::Left => match j {
            0 => IVec3 { x: -1, y: 0, z: -1 },
            1 => IVec3 { x: -1, y: -1, z: -1 },
            2 => IVec3 { x: -1, y: -1, z: 0 },
            3 => IVec3 { x: -1, y: -1, z: 1 },
            4 => IVec3 { x: -1, y: 0, z: 1 },
            5 => IVec3 { x: -1, y: 1, z: 1 },
            6 => IVec3 { x: -1, y: 1, z: 0 },
            _ => IVec3 { x: -1, y: 1, z: -1 },
        },
        Direction::Bottom => match j {
            0 => IVec3 { x: -1, y: -1, z: 0 },
            1 => IVec3 { x: -1, y: -1, z: -1 },
            2 => IVec3 { x: 0, y: -1, z: -1 },
            3 => IVec3 { x: 1, y: -1, z: -1 },
            4 => IVec3 { x: 1, y: -1, z: 0 },
            5 => IVec3 { x: 1, y: -1, z: 1 },
            6 => IVec3 { x: 0, y: -1, z: 1 },
            _ => IVec3 { x: -1, y: -1, z: 1 },
        },
        Direction::Back => match j {
            0 => IVec3 { x: 0, y: -1, z: -1 },
            1 => IVec3 { x: -1, y: -1, z: -1 },
            2 => IVec3 { x: -1, y: 0, z: -1 },
            3 => IVec3 { x: -1, y: 1, z: -1 },
            4 => IVec3 { x: 0, y: 1, z: -1 },
            5 => IVec3 { x: 1, y: 1, z: -1 },
            6 => IVec3 { x: 1, y: 0, z: -1 },
            _ => IVec3 { x: 1, y: -1, z: -1 },
        },
        Direction::Right => match j {
            0 => IVec3 { x: 0, y: 0, z: -1 },
            1 => IVec3 { x: 0, y: 1, z: -1 },
            2 => IVec3 { x: 0, y: 1, z: 0 },
            3 => IVec3 { x: 0, y: 1, z: 1 },
            4 => IVec3 { x: 0, y: 0, z: 1 },
            5 => IVec3 { x: 0, y: -1, z: 1 },
            6 => IVec3 { x: 0, y: -1, z: 0 },
            _ => IVec3 { x: 0, y: -1, z: -1 },
        },
        Direction::Top => match j {
            0 => IVec3 { x: -1, y: 0, z: 0 },
            1 => IVec3 { x: -1, y: 0, z: 1 },
            2 => IVec3 { x: 0, y: 0, z: 1 },
            3 => IVec3 { x: 1, y: 0, z: 1 },
            4 => IVec3 { x: 1, y: 0, z: 0 },
            5 => IVec3 { x: 1, y: 0, z: -1 },
            6 => IVec3 { x: 0, y: 0, z: -1 },
            _ => IVec3 { x: -1, y: 0, z: -1 },
        },
        Direction::Front => match j {
            0 => IVec3 { x: 0, y: -1, z: 0 },
            1 => IVec3 { x: 1, y: -1, z: 0 },
            2 => IVec3 { x: 1, y: 0, z: 0 },
            3 => IVec3 { x: 1, y: 1, z: 0 },
            4 => IVec3 { x: 0, y: 1, z: 0 },
            5 => IVec3 { x: -1, y: 1, z: 0 },
            6 => IVec3 { x: -1, y: 0, z: 0 },
            _ => IVec3 { x: -1, y: -1, z: 0 },
        },
    }
}

/// Corner offset `i` of a unit quad facing `dir` (the executable face of
/// `corner_offsets`).
fn corner_offset(dir: Direction, i: usize) -> (r: IVec3)
    requires
        i < 4,
    ensures
        r == corner_offsets(dir)[i as int],
        0 <= r.x <= 1,
        0 <= r.y <= 1,
        0 <= r.z <= 1,
{
    match dir {
        Direction::Left => match i {
            0 => IVec3 { x: 0, y: 0, z: 0 },
            1 => IVec3 { x: 0, y: 0, z: 1 },
            2 => IVec3 { x: 0, y: 1, z: 1 },
            _ => IVec3 { x: 0, y: 1, z: 0 },
        },
        Direction::Right => match i {
            0 => IVec3 { x: 0, y: 1, z: 0 },
            1 => IVec3 { x: 0, y: 1, z: 1 },
            2 => IVec3 { x: 0, y: 0, z: 1 },
            _ => IVec3 { x: 0, y: 0, z: 0 },
        },
        Direction::Bottom => match i {
            0 => IVec3 { x: 0, y: 0, z: 0 },
            1 => IVec3 { x: 1, y: 0, z: 0 },
            2 => IVec3 { x: 1, y: 0, z: 1 },
            _ => IVec3 { x: 0, y: 0, z: 1 },
        },
        Direction::Top => match i {
            0 => IVec3 { x: 0, y: 0, z: 1 },
            1 => IVec3 { x: 1, y: 0, z: 1 },
            2 => IVec3 { x: 1, y: 0, z: 0 },
            _ => IVec3 { x: 0, y: 0, z: 0 },
        },
        Direction::Back => match i {
            0 => IVec3 { x: 0, y: 0, z: 0 },
            1 => IVec3 { x: 0, y: 1, z: 0 },
            2 => IVec3 { x: 1, y: 1, z: 0 },
            _ => IVec3 { x: 1, y: 0, z: 0 },
        },
        Direction::Front => match i {
            0 => IVec3 { x: 1, y: 0, z: 0 },
            1 => IVec3 { x: 1, y: 1, z: 0 },
            2 => IVec3 { x: 0, y: 1, z: 0 },
            _ => IVec3 { x: 0, y: 0, z: 0 },
        },
    }
}

impl ChunkMesh {
    /// Append the four vertices of one face of `block` at `pos` facing `dir`,
    /// with baked ambient occlusion.
    pub fn push_face(
        &mut self,
        chunk: &Chunk,
        dir: Direction,
        pos: IVec3,
        block: Block,
        heights: &HeightMap,
    )
        requires
            chunk.wf(),
            heights.wf(),
            -65536 <= chunk.pos.x <= 65536,
            -65536 <= chunk.pos.y <= 65536,
            -65536 <= chunk.pos.z <= 65536,
            in_chunk(pos.x as int, pos.y as int, pos.z as int),
        ensures
            final(self).vertices@ == old(self).vertices@ + spec_face_verts(
                *chunk,
                *heights,
                dir,
                pos.x as int,
                pos.y as int,
                pos.z as int,
                block,
            ),
            final(self).indices == old(self).indices,
    {
        let ambient_corners = chunk.ambient_corner_voxels(dir, pos, heights);
        let mut i: usize = 0;
        while i < 4
            invariant
                chunk.wf(),
                heights.wf(),
                -65536 <= chunk.pos.x <= 65536,
                -65536 <= chunk.pos.y <= 65536,
                -65536 <= chunk.pos.z <= 65536,
                in_chunk(pos.x as int, pos.y as int, pos.z as int),
                i <= 4,
                forall|j: int|
                    0 <= j < 8 ==> ambient_corners[j] == spec_ao_occupied(
                        *chunk,
                        *heights,
                        pos.x as int,
                        pos.y as int,
                        pos.z as int,
                        dir,
                        j,
                    ),
                self.vertices@ == old(self).vertices@ + spec_face_verts(
                    *chunk,
                    *heights,
                    dir,
                    pos.x as int,
                    pos.y as int,
                    pos.z as int,
                    block,
                ).take(i as int),
                self.indices == old(self).indices,
            decreases 4 - i,
        {
            let index = i * 2;
            let side_1 = ambient_corners[index];
            let side_corner = ambient_corners[(index + 1) % 8];
            let side_2 = ambient_corners[(index + 2) % 8];
            let ao_count: u32 = if side_1 && side_2 {
                3
            } else {
                (if side_1 {
                    1
                } else {
                    0
                }) + (if side_2 {
                    1
                } else {
                    0
                }) + (if side_corner {
                    1
                } else {
                    0
                })
            };
            let o = corner_offset(dir, i);
            let vx = (pos.x + o.x) as u32;
            let vy = (pos.y + o.y) as u32;
            let vz = (pos.z + o.z) as u32;
            let word = vx + vy * 64 + vz * 4096 + dir.index() * 262144 + ao_count * 2097152
                + block.id() * 8388608;
            self.vertices.push(word);
            proof {
                let ghost fv = spec_face_verts(
                    *chunk,
                    *heights,
                    dir,
                    pos.x as int,
                    pos.y as int,
                    pos.z as int,
                    block,
                );
                assert(word == fv[i as int]);
                assert(self.vertices@ =~= old(self).vertices@ + fv.take(i as int + 1));
            }
            i = i + 1;
        }
        proof {
            let ghost fv = spec_face_verts(
                *chunk,
                *heights,
                dir,
                pos.x as int,
                pos.y as int,
                pos.z as int,
                block,
            );
            assert(fv.take(4) =~= fv);
        }
    }

    /// Mesh the chunk at `chunk` against the store and the height map: scan
    /// every cell in index order and emit the exposed faces. Returns `None`
    /// when no face is emitted.
    #[verifier::rlimit(100)]
    pub fn build(chunk: &Chunk, store: &ChunkStore, heights: &HeightMap) -> (m: Option<ChunkMesh>)
        requires
            chunk.wf(),
            store.wf(),
            heights.wf(),
            -65535 <= chunk.pos.x <= 65535,
            -65535 <= chunk.pos.y <= 65535,
            -65535 <= chunk.pos.z <= 65535,
        ensures
            ({
                let verts = spec_mesh_verts(
                    *chunk,
                    store.spec_get(IVec3 { x: (chunk.pos.x - 1) as i32, y: chunk.pos.y, z: chunk.pos.z }),
                    store.spec_get(IVec3 { x: chunk.pos.x, y: chunk.pos.y, z: (chunk.pos.z - 1) as i32 }),
                    store.spec_get(IVec3 { x: chunk.pos.x, y: (chunk.pos.y - 1) as i32, z: chunk.pos.z }),
                    *heights,
                );
                match m {
                    None => verts.len() == 0,
                    Some(mesh) => {
                        &&& verts.len() > 0
                        &&& mesh.vertices@ == verts
                        &&& mesh.vertices.len() % 4 == 0
                        &&& mesh.indices@ == spec_index_pattern(verts.len() as int / 4)
                    },
                }
            }),
    {
        let left_chunk = store.get(IVec3 { x: chunk.pos.x - 1, y: chunk.pos.y, z: chunk.pos.z });
        let back_chunk = store.get(IVec3 { x: chunk.pos.x, y: chunk.pos.y, z: chunk.pos.z - 1 });
        let down_chunk = store.get(IVec3 { x: chunk.pos.x, y: chunk.pos.y - 1, z: chunk.pos.z });

        let ghost l = store.spec_get(IVec3 { x: (chunk.pos.x - 1) as i32, y: chunk.pos.y, z: chunk.pos.z });
        let ghost bk = store.spec_get(IVec3 { x: chunk.pos.x, y: chunk.pos.y, z: (chunk.pos.z - 1) as i32 });
        let ghost d = store.spec_get(IVec3 { x: chunk.pos.x, y: (chunk.pos.y - 1) as i32, z: chunk.pos.z });

        let mut mesh = ChunkMesh { vertices: Vec::new(), indices: Vec::new() };
        let mut i: usize = 0;
        while i < 32768
            invariant
                chunk.wf(),
                heights.wf(),
                -65535 <= chunk.pos.x <= 65535,
                -65535 <= chunk.pos.y <= 65535,
                -65535 <= chunk.pos.z <= 65535,
                i <= 32768,
                match left_chunk {
                    Some(n) => l == Some(*n) && n.wf(),
                    None => l is None,
                },
                match back_chunk {
                    Some(n) => bk == Some(*n) && n.wf(),
                    None => bk is None,
                },
                match down_chunk {
                    Some(n) => d == Some(*n) && n.wf(),
                    None => d is None,
                },
                mesh.vertices@ == spec_mesh_verts_upto(*chunk, l, bk, d, *heights, i as int),
                mesh.indices@ == Seq::<u32>::empty(),
            decreases 32768 - i,
        {
            let pos = index_to_vec3(i);
            let current = chunk.blocks[i];
            proof {
                crate::block::lemma_index_roundtrip(i as int);
                assert(current == chunk.spec_block(i as int % 32, (i as int / 32) % 32, i as int / 1024));
            }
            let (back, left, down) = chunk.get_adjacent_blocks(
                pos,
                left_chunk,
                back_chunk,
                down_chunk,
                heights,
            );

            if !current.is_air() {
                if left.is_air() {
                    mesh.push_face(chunk, Direction::Left, pos, current, heights);
                }
                if back.is_air() {
                    mesh.push_face(chunk, Direction::Back, pos, current, heights);
                }
                if down.is_air() {
                    mesh.push_face(chunk, Direction::Bottom, pos, current, heights);
                }
            } else {
                if !left.is_air() {
                    mesh.push_face(chunk, Direction::Right, pos, left, heights);
                }
                if !back.is_air() {
                    mesh.push_face(chunk, Direction::Front, pos, back, heights);
                }
                if !down.is_air() {
                    mesh.push_face(chunk, Direction::Top, pos, down, heights);
                }
            }
            proof {
                assert(mesh.vertices@ =~= spec_mesh_verts_upto(
                    *chunk,
                    l,
                    bk,
                    d,
                    *heights,
                    i as int + 1,
                ));
            }
            i = i + 1;
        }

        proof {
            lemma_mesh_verts_len(*chunk, l, bk, d, *heights, 32768);
        }

        if mesh.vertices.is_empty() {
            return None;
        }

        let faces = mesh.vertices.len() / 4;
        let mut f: usize = 0;
        while f < faces
            invariant
                faces == mesh.vertices.len() / 4,
                mesh.vertices.len() <= 393216,
                mesh.vertices.len() % 4 == 0,
                f <= faces,
                mesh.indices@ == spec_index_pattern(f as int),
                mesh.vertices@ == spec_mesh_verts_upto(*chunk, l, bk, d, *heights, 32768),
            decreases faces - f,
        {
            let v = (f * 4) as u32;
            mesh.indices.push(v);
            mesh.indices.push(v + 1);
            mesh.indices.push(v + 2);
            mesh.indices.push(v);
            mesh.indices.push(v + 2);
            mesh.indices.push(v + 3);
            proof {
                assert(mesh.indices@ =~= spec_index_pattern(f as int + 1));
            }
            f = f + 1;
        }

        Some(mesh)
    }
}

/// Occlusion is monotone: turning any ring voxel from empty to occupied
/// never lightens a corner. In particular, adding a non-air voxel adjacent
/// to a face corner never decreases that corner's occlusion level.
pub proof fn lemma_ao_monotonic(
    c1: Chunk,
    hm1: HeightMap,
    c2: Chunk,
    hm2: HeightMap,
    x: int,
    y: int,
    z: int,
    dir: Direction,
    i: int,
)
    requires
        0 <= i < 4,
        forall|j: int|
            0 <= j < 8 ==> (spec_ao_occupied(c1, hm1, x, y, z, dir, j)
                ==> #[trigger] spec_ao_occupied(c2, hm2, x, y, z, dir, j)),
    ensures
        spec_ao_level(c1, hm1, x, y, z, dir, i) <= spec_ao_level(c2, hm2, x, y, z, dir, i),
{
    assert(0 <= 2 * i < 8);
    assert(0 <= (2 * i + 1) % 8 < 8);
    assert(0 <= (2 * i + 2) % 8 < 8);
    assert(spec_ao_occupied(c1, hm1, x, y, z, dir, 2 * i) ==> spec_ao_occupied(
        c2,
        hm2,
        x,
        y,
        z,
        dir,
        2 * i,
    ));
    assert(spec_ao_occupied(c1, hm1, x, y, z, dir, (2 * i + 1) % 8) ==> spec_ao_occupied(
        c2,
        hm2,
        x,
        y,
        z,
        dir,
        (2 * i + 1) % 8,
    ));
    assert(spec_ao_occupied(c1, hm1, x, y, z, dir, (2 * i + 2) % 8) ==> spec_ao_occupied(
        c2,
        hm2,
        x,
        y,
        z,
        dir,
        (2 * i + 2) % 8,
    ));
}

/// A neighbor whose border layer equals the terrain the height map would
/// regenerate is interchangeable with no neighbor at all.
pub open spec fn left_matches_generated(c: Chunk, n: Chunk, hm: HeightMap) -> bool {
    forall|y: int, z: int|
        0 <= y < 32 && 0 <= z < 32 ==> #[trigger] n.spec_block(31, y, z) == spec_generated_block(
            c.pos,
            hm,
            -1,
            y,
            z,
        )
}

pub open spec fn back_matches_generated(c: Chunk, n: Chunk, hm: HeightMap) -> bool {
    forall|x: int, y: int|
        0 <= x < 32 && 0 <= y < 32 ==> #[trigger] n.spec_block(x, y, 31) == spec_generated_block(
            c.pos,
            hm,
            x,
            y,
            -1,
        )
}

pub open spec fn down_matches_generated(c: Chunk, n: Chunk, hm: HeightMap) -> bool {
    forall|x: int, z: int|
        0 <= x < 32 && 0 <= z < 32 ==> #[trigger] n.spec_block(x, 31, z) == spec_generated_block(
            c.pos,
            hm,
            x,
            -1,
            z,
        )
}

/// Seam consistency: when every present neighbor's facing border layer holds
/// exactly the blocks the height map would regenerate (as it does whenever
/// both chunks come from the same deterministic terrain), the mesh of `c` is
/// identical whether or not those neighbors are in the store.
pub proof fn lemma_seam_consistency(
    c: Chunk,
    left: Option<Chunk>,
    back: Option<Chunk>,
    down: Option<Chunk>,
    hm: HeightMap,
)
    requires
        match left {
            Some(n) => left_matches_generated(c, n, hm),
            None => true,
        },
        match back {
            Some(n) => back_matches_generated(c, n, hm),
            None => true,
        },
        match down {
            Some(n) => down_matches_generated(c, n, hm),
            None => true,
        },
    ensures
        spec_mesh_verts(c, left, back, down, hm) == spec_mesh_verts(c, None, None, None, hm),
{
    lemma_seam_upto(c, left, back, down, hm, 32768);
}

proof fn lemma_seam_upto(
    c: Chunk,
    left: Option<Chunk>,
    back: Option<Chunk>,
    down: Option<Chunk>,
    hm: HeightMap,
    n: int,
)
    requires
        n <= 32768,
        match left {
            Some(nb) => left_matches_generated(c, nb, hm),
            None => true,
        },
        match back {
            Some(nb) => back_matches_generated(c, nb, hm),
            None => true,
        },
        match down {
            Some(nb) => down_matches_generated(c, nb, hm),
            None => true,
        },
    ensures
        spec_mesh_verts_upto(c, left, back, down, hm, n) == spec_mesh_verts_upto(
            c,
            None,
            None,
            None,
            hm,
            n,
        ),
    decreases n,
{
    if n > 0 {
        lemma_seam_upto(c, left, back, down, hm, n - 1);
        let i = n - 1;
        assert(0 <= i % 32 < 32 && 0 <= (i / 32) % 32 < 32 && 0 <= i / 1024 < 32) by (
        nonlinear_arith)
            requires
                0 <= i < 32768,
        ;
        let x = i % 32;
        let y = (i / 32) % 32;
        let z = i / 1024;
        assert(spec_rel_block(c, left, hm, x - 1, y, z) == spec_rel_block(
            c,
            None,
            hm,
            x - 1,
            y,
            z,
        ));
        assert(spec_rel_block(c, back, hm, x, y, z - 1) == spec_rel_block(
            c,
            None,
            hm,
            x,
            y,
            z - 1,
        ));
        assert(spec_rel_block(c, down, hm, x, y - 1, z) == spec_rel_block(
            c,
            None,
            hm,
            x,
            y - 1,
            z,
        ));
        assert(spec_cell_verts(c, left, back, down, hm, i) == spec_cell_verts(
            c,
            None,
            None,
            None,
            hm,
            i,
        ));
    }
}

/// Bridge from the generator to the seam law: a neighbor chunk whose blocks
/// all come from `spec_generated_block` of its own height map matches the
/// generated fallback of `c` whenever the two height maps agree on the
/// shared column line, as they do when both sample the same deterministic
/// noise field.
pub proof fn lemma_generated_left_matches(c: Chunk, n: Chunk, c_hm: HeightMap, n_hm: HeightMap)
    requires
        n.pos.x == c.pos.x - 1,
        n.pos.y == c.pos.y,
        n.pos.z == c.pos.z,
        forall|x: int, y: int, z: int|
            in_chunk(x, y, z) ==> #[trigger] n.spec_block(x, y, z) == spec_generated_block(
                n.pos,
                n_hm,
                x,
                y,
                z,
            ),
        forall|z: int| 0 <= z < 32 ==> #[trigger] c_hm.spec_height(-1, z) == n_hm.spec_height(31, z),
    ensures
        left_matches_generated(c, n, c_hm),
{
    assert forall|y: int, z: int| 0 <= y < 32 && 0 <= z < 32 implies #[trigger] n.spec_block(
        31,
        y,
        z,
    ) == spec_generated_block(c.pos, c_hm, -1, y, z) by {
        assert(n.spec_block(31, y, z) == spec_generated_block(n.pos, n_hm, 31, y, z));
    }
}

/// The same bridge for a neighbor on the negative-z side.
pub proof fn lemma_generated_back_matches(c: Chunk, n: Chunk, c_hm: HeightMap, n_hm: HeightMap)
    requires
        n.pos.x == c.pos.x,
        n.pos.y == c.pos.y,
        n.pos.z == c.pos.z - 1,
        forall|x: int, y: int, z: int|
            in_chunk(x, y, z) ==> #[trigger] n.spec_block(x, y, z) == spec_generated_block(
                n.pos,
                n_hm,
                x,
                y,
                z,
            ),
        forall|x: int| 0 <= x < 32 ==> #[trigger] c_hm.spec_height(x, -1) == n_hm.spec_height(x, 31),
    ensures
        back_matches_generated(c, n, c_hm),
{
    assert forall|x: int, y: int| 0 <= x < 32 && 0 <= y < 32 implies #[trigger] n.spec_block(
        x,
        y,
        31,
    ) == spec_generated_block(c.pos, c_hm, x, y, -1) by {
        assert(n.spec_block(x, y, 31) == spec_generated_block(n.pos, n_hm, x, y, 31));
    }
}

/// The same bridge for a neighbor below: both chunks read the same column,
/// so only the vertical offset of the world coordinate moves.
pub proof fn lemma_generated_down_matches(c: Chunk, n: Chunk, c_hm: HeightMap, n_hm: HeightMap)
    requires
        n.pos.x == c.pos.x,
        n.pos.y == c.pos.y - 1,
        n.pos.z == c.pos.z,
        forall|x: int, y: int, z: int|
            in_chunk(x, y, z) ==> #[trigger] n.spec_block(x, y, z) == spec_generated_block(
                n.pos,
                n_hm,
                x,
                y,
                z,
            ),
        forall|x: int, z: int|
            0 <= x < 32 && 0 <= z < 32 ==> #[trigger] c_hm.spec_height(x, z) == n_hm.spec_height(
                x,
                z,
            ),
    ensures
        down_matches_generated(c, n, c_hm),
{
    assert forall|x: int, z: int| 0 <= x < 32 && 0 <= z < 32 implies #[trigger] n.spec_block(
        x,
        31,
        z,
    ) == spec_generated_block(c.pos, c_hm, x, -1, z) by {
        assert(n.spec_block(x, 31, z) == spec_generated_block(n.pos, n_hm, x, 31, z));
        assert(n.pos.y * 32 + 31 == c.pos.y * 32 + -1);
    }
}

/// Mesh determinism: the vertex stream is a function of the chunk, the
/// neighbor set, and the height map alone, so two builds of the same inputs
/// agree exactly.
pub proof fn lemma_mesh_deterministic(
    c: Chunk,
    left: Option<Chunk>,
    back: Option<Chunk>,
    down: Option<Chunk>,
    hm: HeightMap,
    v1: Seq<u32>,
    v2: Seq<u32>,
)
    requires
        v1 == spec_mesh_verts(c, left, back, down, hm),
        v2 == spec_mesh_verts(c, left, back, down, hm),
    ensures
        v1 == v2,
{
}

} // verus!
