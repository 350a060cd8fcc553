//! Block place/break, and the seam bookkeeping it forces: a mutated border
//! cell invalidates the meshes of the adjacent chunks too.

use vstd::prelude::*;

use crate::block::{in_chunk, spec_block_index, Block, Direction, IVec3};
use crate::chunk::Chunk;

verus! {

/// The chunk coordinates whose meshes a write at local `pos` of chunk `cp`
/// invalidates: the chunk itself, plus each axis neighbor whose border the
/// cell touches.
pub open spec fn spec_remesh_set(cp: IVec3, pos: IVec3) -> Seq<IVec3> {
    let s = seq![cp];
    let s = if pos.x == 0 {
        s.push(IVec3 { x: (cp.x - 1) as i32, y: cp.y, z: cp.z })
    } else {
        s
    };
    let s = if pos.x == 31 {
        s.push(IVec3 { x: (cp.x + 1) as i32, y: cp.y, z: cp.z })
    } else {
        s
    };
    let s = if pos.y == 0 {
        s.push(IVec3 { x: cp.x, y: (cp.y - 1) as i32, z: cp.z })
    } else {
        s
    };
    let s = if pos.y == 31 {
        s.push(IVec3 { x: cp.x, y: (cp.y + 1) as i32, z: cp.z })
    } else {
        s
    };
    let s = if pos.z == 0 {
        s.push(IVec3 { x: cp.x, y: cp.y, z: (cp.z - 1) as i32 })
    } else {
        s
    };
    let s = if pos.z == 31 {
        s.push(IVec3 { x: cp.x, y: cp.y, z: (cp.z + 1) as i32 })
    } else {
        s
    };
    s
}

/// Write `block` at local `pos` of `chunk`, and return the chunk coordinates
/// whose meshes must be rebuilt. A position outside the chunk is rejected:
/// nothing changes and nothing needs remeshing.
pub fn place_block(chunk: &mut Chunk, pos: IVec3, block: Block) -> (remesh: Vec<IVec3>)
    requires
        old(chunk).wf(),
        -65536 <= old(chunk).pos.x <= 65536,
        -65536 <= old(chunk).pos.y <= 65536,
        -65536 <= old(chunk).pos.z <= 65536,
    ensures
        final(chunk).wf(),
        final(chunk).pos == old(chunk).pos,
        !in_chunk(pos.x as int, pos.y as int, pos.z as int) ==> *final(chunk) == *old(chunk)
            && remesh@ == Seq::<IVec3>::empty(),
        in_chunk(pos.x as int, pos.y as int, pos.z as int) ==> {
            &&& final(chunk).blocks@ == old(chunk).blocks@.update(
                spec_block_index(pos.x as int, pos.y as int, pos.z as int),
                block,
            )
            &&& final(chunk).spec_block(pos.x as int, pos.y as int, pos.z as int) == block
            &&& forall|x: int, y: int, z: int|
                in_chunk(x, y, z) && (x, y, z) != (pos.x as int, pos.y as int, pos.z as int)
                    ==> final(chunk).spec_block(x, y, z) == old(chunk).spec_block(x, y, z)
            &&& remesh@ == spec_remesh_set(old(chunk).pos, pos)
        },
{
    if pos.x < 0 || pos.x >= 32 || pos.y < 0 || pos.y >= 32 || pos.z < 0 || pos.z >= 32 {
        return Vec::new();
    }
    chunk.set_block(pos, block);
    let cp = chunk.pos;
    let mut remesh: Vec<IVec3> = Vec::new();
    remesh.push(cp);
    if pos.x == 0 {
        remesh.push(IVec3 { x: cp.x - 1, y: cp.y, z: cp.z });
    }
    if pos.x == 31 {
        remesh.push(IVec3 { x: cp.x + 1, y: cp.y, z: cp.z });
    }
    if pos.y == 0 {
        remesh.push(IVec3 { x: cp.x, y: cp.y - 1, z: cp.z });
    }
    if pos.y == 31 {
        remesh.push(IVec3 { x: cp.x, y: cp.y + 1, z: cp.z });
    }
    if pos.z == 0 {
        remesh.push(IVec3 { x: cp.x, y: cp.y, z: cp.z - 1 });
    }
    if pos.z == 31 {
        remesh.push(IVec3 { x: cp.x, y: cp.y, z: cp.z + 1 });
    }
    proof {
        assert(remesh@ =~= spec_remesh_set(old(chunk).pos, pos));
    }
    remesh
}

/// Where a block placed against the face `normal` of the hit cell `local` in
/// chunk `cp` actually lands: the target cell, wrapped into the adjacent
/// chunk when it falls off an edge. The returned pair is the target chunk and
/// the in-range local cell, and together they name the same world block as
/// `cp * 32 + local + normal`.
pub fn place_target(cp: IVec3, local: IVec3, normal: Direction) -> (r: (IVec3, IVec3))
    requires
        in_chunk(local.x as int, local.y as int, local.z as int),
        -65536 <= cp.x <= 65536,
        -65536 <= cp.y <= 65536,
        -65536 <= cp.z <= 65536,
    ensures
        in_chunk(r.1.x as int, r.1.y as int, r.1.z as int),
        r.0.x * 32 + r.1.x == cp.x * 32 + local.x + normal.spec_normal().x,
        r.0.y * 32 + r.1.y == cp.y * 32 + local.y + normal.spec_normal().y,
        r.0.z * 32 + r.1.z == cp.z * 32 + local.z + normal.spec_normal().z,
        -65537 <= r.0.x <= 65537,
        -65537 <= r.0.y <= 65537,
        -65537 <= r.0.z <= 65537,
    {
    let n = normal.as_ivec3();
    let mut lx = local.x + n.x;
    let mut ly = local.y + n.y;
    let mut lz = local.z + n.z;
    let mut cx = cp.x;
    let mut cy = cp.y;
    let mut cz = cp.z;
    if lx < 0 {
        lx = lx + 32;
        cx = cx - 1;
    } else if lx >= 32 {
        lx = lx - 32;
        cx = cx + 1;
    }
    if ly < 0 {
        ly = ly + 32;
        cy = cy - 1;
    } else if ly >= 32 {
        ly = ly - 32;
        cy = cy + 1;
    }
    if lz < 0 {
        lz = lz + 32;
        cz = cz - 1;
    } else if lz >= 32 {
        lz = lz - 32;
        cz = cz + 1;
    }
    (IVec3 { x: cx, y: cy, z: cz }, IVec3 { x: lx, y: ly, z: lz })
}

} // verus!
