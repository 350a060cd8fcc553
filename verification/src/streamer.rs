//! The streamer: decides, from the observer's chunk position, which chunks
//! to spawn and which to evict, and feeds completed builds into the store a
//! bounded number at a time.

use vstd::prelude::*;

use crate::block::IVec3;
use crate::chunk::Chunk;
use crate::store::ChunkStore;
use vstd::multiset::Multiset;

verus! {

/// Tag for entities that carry a loaded chunk; the render side attaches it
/// when a completed build is accepted.
pub struct ChunkMarker;

/// The spawn region around the observer's chunk `pc`: a `2R` box on x and z,
/// and the vertical range `[max(0, pc.y - R), pc.y + R)`.
pub open spec fn in_spawn_box(q: IVec3, pc: IVec3, r: int) -> bool {
    &&& pc.x - r <= q.x < pc.x + r
    &&& pc.z - r <= q.z < pc.z + r
    &&& q.y >= 0
    &&& pc.y - r <= q.y < pc.y + r
}

/// Outside the keep region: more than `R` chunks away on some axis.
pub open spec fn outside_keep_box(q: IVec3, pc: IVec3, r: int) -> bool {
    ||| q.x + r < pc.x
    ||| q.x - r > pc.x
    ||| q.y + r < pc.y
    ||| q.y - r > pc.y
    ||| q.z + r < pc.z
    ||| q.z - r > pc.z
}

/// One spawn pass: claim every chunk of the spawn box that is neither loaded
/// nor loading, and return the claimed coordinates, which the caller hands to
/// generator workers. A second pass over an unchanged store claims nothing.
pub fn handle_chunk_gen(store: &mut ChunkStore, player_chunk: IVec3, render_distance: i32) -> (
    spawn: Vec<IVec3>)
    requires
        old(store).wf(),
        0 <= render_distance <= 64,
        -65000 <= player_chunk.x <= 65000,
        -65000 <= player_chunk.y <= 65000,
        -65000 <= player_chunk.z <= 65000,
    ensures
        final(store).wf(),
        final(store).chunks == old(store).chunks,
        forall|q: IVec3| #[trigger]
            final(store).spec_contains(q) == old(store).spec_contains(q),
        forall|q: IVec3| #[trigger]
            final(store).spec_is_loading(q) == (old(store).spec_is_loading(q)
                || spawn@.contains(q)),
        forall|k: int|
            0 <= k < spawn.len() ==> in_spawn_box(#[trigger] spawn[k], player_chunk,
            render_distance as int) && !old(store).spec_contains(spawn[k]) && !old(store).spec_is_loading(spawn[k]),
        forall|q: IVec3|
            #[trigger] in_spawn_box(q, player_chunk, render_distance as int) ==> final(store).spec_contains(q) || final(store).spec_is_loading(q),
{
    let pc = player_chunk;
    let rd = render_distance;
    let mut spawn: Vec<IVec3> = Vec::new();

    let y0 = if pc.y - rd > 0 {
        pc.y - rd
    } else {
        0
    };
    let y1 = pc.y + rd;
    let z0 = pc.z - rd;
    let z1 = pc.z + rd;
    let x0 = pc.x - rd;
    let x1 = pc.x + rd;

    let ghost pre = *store;
    let mut cy = y0;
    while cy < y1
        invariant
            store.wf(),
            y0 as int == if pc.y as int - rd as int > 0 { pc.y as int - rd as int } else { 0int },
            y1 == pc.y + rd,
            z0 == pc.z - rd,
            z1 == pc.z + rd,
            x0 == pc.x - rd,
            x1 == pc.x + rd,
            0 <= rd <= 64,
            -65000 <= pc.x <= 65000,
            -65000 <= pc.y <= 65000,
            -65000 <= pc.z <= 65000,
            y0 <= cy <= y1 || (y1 < y0 && cy == y0),
            store.chunks == pre.chunks,
            forall|q: IVec3| #[trigger]
                store.spec_contains(q) == pre.spec_contains(q),
            forall|q: IVec3| #[trigger]
                store.spec_is_loading(q) == (pre.spec_is_loading(q) || spawn@.contains(q)),
            forall|k: int|
                0 <= k < spawn.len() ==> in_spawn_box(#[trigger] spawn[k], pc, rd as int)
                    && !pre.spec_contains(spawn[k]) && !pre.spec_is_loading(spawn[k]),
            forall|q: IVec3|
                in_spawn_box(q, pc, rd as int) && q.y < cy ==> #[trigger] store.spec_contains(q)
                    || store.spec_is_loading(q),
        decreases y1 - cy,
    {
        let mut cz = z0;
        while cz < z1
            invariant
                store.wf(),
                y0 as int == if pc.y as int - rd as int > 0 { pc.y as int - rd as int } else { 0int },
                y1 == pc.y + rd,
                z0 == pc.z - rd,
                z1 == pc.z + rd,
                x0 == pc.x - rd,
                x1 == pc.x + rd,
                0 <= rd <= 64,
                -65000 <= pc.x <= 65000,
                -65000 <= pc.y <= 65000,
                -65000 <= pc.z <= 65000,
                y0 <= cy < y1,
                z0 <= cz <= z1,
                store.chunks == pre.chunks,
                forall|q: IVec3| #[trigger]
                    store.spec_contains(q) == pre.spec_contains(q),
                forall|q: IVec3| #[trigger]
                    store.spec_is_loading(q) == (pre.spec_is_loading(q) || spawn@.contains(q)),
                forall|k: int|
                    0 <= k < spawn.len() ==> in_spawn_box(#[trigger] spawn[k], pc, rd as int)
                        && !pre.spec_contains(spawn[k]) && !pre.spec_is_loading(spawn[k]),
                forall|q: IVec3|
                    in_spawn_box(q, pc, rd as int) && q.y < cy ==> #[trigger] store.spec_contains(
                        q,
                    ) || store.spec_is_loading(q),
                forall|q: IVec3|
                    in_spawn_box(q, pc, rd as int) && q.y == cy && q.z < cz ==> #[trigger]
                        store.spec_contains(q) || store.spec_is_loading(q),
            decreases z1 - cz,
        {
            let mut cx = x0;
            while cx < x1
                invariant
                    store.wf(),
                    y0 as int == if pc.y as int - rd as int > 0 { pc.y as int - rd as int } else { 0int },
                    y1 == pc.y + rd,
                    z0 == pc.z - rd,
                    z1 == pc.z + rd,
                    x0 == pc.x - rd,
                    x1 == pc.x + rd,
                    0 <= rd <= 64,
                    -65000 <= pc.x <= 65000,
                    -65000 <= pc.y <= 65000,
                    -65000 <= pc.z <= 65000,
                    y0 <= cy < y1,
                    z0 <= cz < z1,
                    x0 <= cx <= x1,
                    store.chunks == pre.chunks,
                    forall|q: IVec3| #[trigger]
                        store.spec_contains(q) == pre.spec_contains(q),
                    forall|q: IVec3| #[trigger]
                        store.spec_is_loading(q) == (pre.spec_is_loading(q) || spawn@.contains(q)),
                    forall|k: int|
                        0 <= k < spawn.len() ==> in_spawn_box(#[trigger] spawn[k], pc, rd as int)
                            && !pre.spec_contains(spawn[k]) && !pre.spec_is_loading(spawn[k]),
                    forall|q: IVec3|
                        in_spawn_box(q, pc, rd as int) && q.y < cy ==> #[trigger]
                            store.spec_contains(q) || store.spec_is_loading(q),
                    forall|q: IVec3|
                        in_spawn_box(q, pc, rd as int) && q.y == cy && q.z < cz ==> #[trigger]
                            store.spec_contains(q) || store.spec_is_loading(q),
                    forall|q: IVec3|
                        in_spawn_box(q, pc, rd as int) && q.y == cy && q.z == cz && q.x < cx
                            ==> #[trigger] store.spec_contains(q) || store.spec_is_loading(q),
                decreases x1 - cx,
            {
                let pos = IVec3 { x: cx, y: cy, z: cz };
                let ghost before = *store;
                let ghost sp0 = spawn@;
                let claimed = store.mark_loading(pos);
                if claimed {
                    spawn.push(pos);
                    proof {
                        assert(spawn@[sp0.len() as int] == pos);
                        assert(spawn@.contains(pos));
                        assert forall|q: IVec3| #[trigger] store.spec_is_loading(q) == (
                        pre.spec_is_loading(q) || spawn@.contains(q)) by {
                            if q != pos {
                                assert(spawn@.contains(q) == sp0.contains(q)) by {
                                    if spawn@.contains(q) {
                                        let k = choose|k: int|
                                            0 <= k < spawn@.len() && spawn@[k] == q;
                                        assert(k < sp0.len());
                                        assert(sp0[k] == q);
                                    }
                                    if sp0.contains(q) {
                                        let k = choose|k: int|
                                            0 <= k < sp0.len() && sp0[k] == q;
                                        assert(spawn@[k] == q);
                                    }
                                }
                                assert(before.spec_is_loading(q) == (pre.spec_is_loading(q)
                                    || sp0.contains(q)));
                            }
                        }
                        assert forall|k: int| 0 <= k < spawn@.len() implies in_spawn_box(
                            #[trigger] spawn@[k],
                            pc,
                            rd as int,
                        ) && !pre.spec_contains(spawn@[k]) && !pre.spec_is_loading(spawn@[k]) by {
                            if k < sp0.len() {
                                assert(sp0[k] == spawn@[k]);
                            } else {
                                assert(spawn@[k] == pos);
                                assert(!before.spec_contains(pos) && !before.spec_is_loading(pos));
                                assert(!sp0.contains(pos));
                                assert(in_spawn_box(pos, pc, rd as int));
                            }
                        }
                    }
                }
                proof {
                    assert forall|q: IVec3|
                        in_spawn_box(q, pc, rd as int) && q.y == cy && q.z == cz && q.x < cx + 1
                            implies #[trigger] store.spec_contains(q) || store.spec_is_loading(
                        q,
                    ) by {
                        if q.x == cx {
                            assert(q == pos);
                            if !claimed {
                                assert(before.spec_contains(pos) || before.spec_is_loading(pos));
                            }
                        }
                    }
                }
                cx = cx + 1;
            }
            cz = cz + 1;
        }
        cy = cy + 1;
    }
    proof {
        assert forall|q: IVec3| in_spawn_box(q, pc, rd as int) implies #[trigger]
            store.spec_contains(q) || store.spec_is_loading(q) by {
            assert(q.y < cy);
        }
    }
    spawn
}

/// One despawn pass: evict every chunk (loaded or loading) outside the keep
/// region, and return the evicted coordinates so the caller can drop their
/// entities and meshes. Everything inside the region is untouched.
pub fn handle_chunk_despawn(store: &mut ChunkStore, player_chunk: IVec3, render_distance: i32) -> (
    removed: Vec<IVec3>)
    requires
        old(store).wf(),
        0 <= render_distance <= 64,
        -65000 <= player_chunk.x <= 65000,
        -65000 <= player_chunk.y <= 65000,
        -65000 <= player_chunk.z <= 65000,
    ensures
        final(store).wf(),
        forall|q: IVec3|
            outside_keep_box(q, player_chunk, render_distance as int) ==> !(#[trigger] final(store).spec_contains(q)) && !final(store).spec_is_loading(q),
        forall|q: IVec3|
            !outside_keep_box(q, player_chunk, render_distance as int) ==> #[trigger] final(store).spec_get(q) == old(store).spec_get(q) && final(store).spec_is_loading(q) == old(store).spec_is_loading(q),
        forall|k: int|
            0 <= k < removed.len() ==> outside_keep_box(#[trigger] removed[k], player_chunk,
            render_distance as int) && (old(store).spec_contains(removed[k]) || old(store).spec_is_loading(removed[k])),
        forall|q: IVec3|
            outside_keep_box(q, player_chunk, render_distance as int) && (old(store).spec_contains(q) || old(store).spec_is_loading(q)) ==> #[trigger] removed@.contains(
                q,
            ),
{
    let pc = player_chunk;
    let rd = render_distance;
    let ghost pre = *store;

    // collect the coordinates to evict
    let mut victims: Vec<IVec3> = Vec::new();
    let mut i: usize = 0;
    while i < store.chunks.len()
        invariant
            store.wf(),
            *store == pre,
            0 <= rd <= 64,
            -65000 <= pc.x <= 65000,
            -65000 <= pc.y <= 65000,
            -65000 <= pc.z <= 65000,
            i <= store.chunks.len(),
            forall|k: int|
                0 <= k < victims.len() ==> outside_keep_box(#[trigger] victims[k], pc, rd as int)
                    && (pre.spec_contains(victims[k]) || pre.spec_is_loading(victims[k])),
            forall|j: int|
                0 <= j < i && outside_keep_box((#[trigger] store.chunks[j]).pos, pc, rd as int)
                    ==> victims@.contains(store.chunks[j].pos),
        decreases store.chunks.len() - i,
    {
        let p = store.chunks[i].pos;
        let ghost v0 = victims@;
        if is_outside(p, pc, rd) {
            victims.push(p);
            proof {
                store.lemma_get_at(i as int);
                assert(victims@[v0.len() as int] == p);
                assert(victims@.contains(p));
                assert forall|k: int| 0 <= k < victims@.len() implies outside_keep_box(
                    #[trigger] victims@[k],
                    pc,
                    rd as int,
                ) && (pre.spec_contains(victims@[k]) || pre.spec_is_loading(victims@[k])) by {
                    if k < v0.len() {
                        assert(v0[k] == victims@[k]);
                    }
                }
                assert forall|j: int|
                    0 <= j < i + 1 && outside_keep_box((#[trigger] store.chunks[j]).pos, pc,
                    rd as int) implies victims@.contains(store.chunks[j].pos) by {
                    if j < i {
                        let k = choose|k: int| 0 <= k < v0.len() && v0[k] == store.chunks[j].pos;
                        assert(victims@[k] == store.chunks[j].pos);
                    }
                }
            }
        }
        i = i + 1;
    }
    let mut i: usize = 0;
    while i < store.loading.len()
        invariant
            store.wf(),
            *store == pre,
            0 <= rd <= 64,
            -65000 <= pc.x <= 65000,
            -65000 <= pc.y <= 65000,
            -65000 <= pc.z <= 65000,
            i <= store.loading.len(),
            forall|k: int|
                0 <= k < victims.len() ==> outside_keep_box(#[trigger] victims[k], pc, rd as int)
                    && (pre.spec_contains(victims[k]) || pre.spec_is_loading(victims[k])),
            forall|j: int|
                0 <= j < store.chunks.len() && outside_keep_box(
                    (#[trigger] store.chunks[j]).pos,
                    pc,
                    rd as int,
                ) ==> victims@.contains(store.chunks[j].pos),
            forall|j: int|
                0 <= j < i && outside_keep_box(#[trigger] store.loading[j], pc, rd as int)
                    ==> victims@.contains(store.loading[j]),
        decreases store.loading.len() - i,
    {
        let p = store.loading[i];
        let ghost v0 = victims@;
        if is_outside(p, pc, rd) {
            victims.push(p);
            proof {
                assert(victims@[v0.len() as int] == p);
                assert(victims@.contains(p));
                assert(store.spec_is_loading(p)) by {
                    assert(store.loading[i as int] == p);
                }
                assert forall|k: int| 0 <= k < victims@.len() implies outside_keep_box(
                    #[trigger] victims@[k],
                    pc,
                    rd as int,
                ) && (pre.spec_contains(victims@[k]) || pre.spec_is_loading(victims@[k])) by {
                    if k < v0.len() {
                        assert(v0[k] == victims@[k]);
                    }
                }
                assert forall|j: int|
                    0 <= j < store.chunks.len() && outside_keep_box(
                        (#[trigger] store.chunks[j]).pos,
                        pc,
                        rd as int,
                    ) implies victims@.contains(store.chunks[j].pos) by {
                    let k = choose|k: int| 0 <= k < v0.len() && v0[k] == store.chunks[j].pos;
                    assert(victims@[k] == store.chunks[j].pos);
                }
                assert forall|j: int|
                    0 <= j < i + 1 && outside_keep_box(#[trigger] store.loading[j], pc, rd as int)
                        implies victims@.contains(store.loading[j]) by {
                    if j < i {
                        let k = choose|k: int| 0 <= k < v0.len() && v0[k] == store.loading[j];
                        assert(victims@[k] == store.loading[j]);
                    }
                }
            }
        }
        i = i + 1;
    }

    // evict them
    let mut i: usize = 0;
    while i < victims.len()
        invariant
            store.wf(),
            0 <= rd <= 64,
            i <= victims.len(),
            forall|k: int|
                0 <= k < victims.len() ==> outside_keep_box(#[trigger] victims[k], pc, rd as int)
                    && (pre.spec_contains(victims[k]) || pre.spec_is_loading(victims[k])),
            forall|j: int|
                0 <= j < pre.chunks.len() && outside_keep_box(
                    (#[trigger] pre.chunks[j]).pos,
                    pc,
                    rd as int,
                ) ==> victims@.contains(pre.chunks[j].pos),
            forall|j: int|
                0 <= j < pre.loading.len() && outside_keep_box(
                    #[trigger] pre.loading[j],
                    pc,
                    rd as int,
                ) ==> victims@.contains(pre.loading[j]),
            forall|q: IVec3|
                !victims@.take(i as int).contains(q) ==> #[trigger] store.spec_get(q)
                    == pre.spec_get(q) && store.spec_is_loading(q) == pre.spec_is_loading(q),
            forall|k: int|
                0 <= k < i ==> !(#[trigger] store.spec_contains(victims[k]))
                    && !store.spec_is_loading(victims[k]),
        decreases victims.len() - i,
    {
        let p = victims[i];
        let ghost before = *store;
        store.remove(p);
        proof {
            assert forall|q: IVec3| !victims@.take(i as int + 1).contains(q) implies #[trigger]
                store.spec_get(q) == pre.spec_get(q) && store.spec_is_loading(q)
                    == pre.spec_is_loading(q) by {
                assert(q != p) by {
                    assert(victims@.take(i as int + 1)[i as int] == p);
                }
                assert(!victims@.take(i as int).contains(q)) by {
                    if victims@.take(i as int).contains(q) {
                        let k = choose|k: int|
                            0 <= k < i && victims@.take(i as int)[k] == q;
                        assert(victims@.take(i as int + 1)[k] == q);
                    }
                }
            }
            assert forall|k: int|
                0 <= k < i + 1 implies !(#[trigger] store.spec_contains(victims[k]))
                    && !store.spec_is_loading(victims[k]) by {
                let q = victims@[k];
                if k < i {
                    assert(!before.spec_contains(q));
                    assert(!before.spec_is_loading(q));
                }
                assert(store.spec_get(q) == if q == p {
                    None::<Chunk>
                } else {
                    before.spec_get(q)
                });
                assert(store.spec_is_loading(q) == (before.spec_is_loading(q) && q != p));
                assert(store.spec_get(q) is None);
            }
        }
        i = i + 1;
    }

    proof {
        assert forall|q: IVec3| outside_keep_box(q, pc, rd as int) implies !(#[trigger]
        store.spec_contains(q)) && !store.spec_is_loading(q) by {
            if victims@.contains(q) {
                let k = choose|k: int| 0 <= k < victims@.len() && victims@[k] == q;
                assert(!store.spec_contains(victims@[k]) && !store.spec_is_loading(victims@[k]));
            } else {
                assert(!victims@.take(victims@.len() as int).contains(q)) by {
                    if victims@.take(victims@.len() as int).contains(q) {
                        let k = choose|k: int|
                            0 <= k < victims@.len() && victims@.take(victims@.len() as int)[k]
                                == q;
                        assert(victims@[k] == q);
                    }
                }
                if pre.spec_contains(q) {
                    let j = choose|j: int|
                        0 <= j < pre.chunks.len() && (#[trigger] pre.chunks[j]).pos == q;
                    assert(victims@.contains(q));
                }
                if pre.spec_is_loading(q) {
                    let j = choose|j: int|
                        0 <= j < pre.loading.len() && #[trigger] pre.loading[j] == q;
                    assert(victims@.contains(q));
                }
                assert(!pre.spec_contains(q));
                assert(pre.spec_get(q) is None);
                assert(store.spec_get(q) == pre.spec_get(q));
                assert(store.spec_is_loading(q) == pre.spec_is_loading(q));
            }
        }
        assert forall|q: IVec3| !outside_keep_box(q, pc, rd as int) implies #[trigger]
            store.spec_get(q) == pre.spec_get(q) && store.spec_is_loading(q)
                == pre.spec_is_loading(q) by {
            assert(!victims@.take(victims@.len() as int).contains(q)) by {
                if victims@.take(victims@.len() as int).contains(q) {
                    let k = choose|k: int|
                        0 <= k < victims@.len() && victims@.take(victims@.len() as int)[k] == q;
                    assert(victims@[k] == q);
                }
            }
        }
    }
    victims
}

/// Executable face of `outside_keep_box`.
fn is_outside(q: IVec3, pc: IVec3, rd: i32) -> (r: bool)
    requires
        0 <= rd <= 64,
        -65000 <= pc.x <= 65000,
        -65000 <= pc.y <= 65000,
        -65000 <= pc.z <= 65000,
    ensures
        r == outside_keep_box(q, pc, rd as int),
{
    ((q.x as i64) + (rd as i64) < (pc.x as i64)) || ((q.x as i64) - (rd as i64) > (pc.x as i64))
        || ((q.y as i64) + (rd as i64) < (pc.y as i64)) || ((q.y as i64) - (rd as i64) > (
    pc.y as i64)) || ((q.z as i64) + (rd as i64) < (pc.z as i64)) || ((q.z as i64) - (rd as i64)
        > (pc.z as i64))
}

/// Squared distance between two chunk coordinates.
pub open spec fn spec_dist2(c: IVec3, pt: IVec3) -> int {
    (c.x - pt.x) * (c.x - pt.x) + (c.y - pt.y) * (c.y - pt.y) + (c.z - pt.z) * (c.z - pt.z)
}

/// A coordinate bounded enough for exact distance arithmetic.
pub open spec fn coord_bounded(c: IVec3) -> bool {
    -65536 <= c.x <= 65536 && -65536 <= c.y <= 65536 && -65536 <= c.z <= 65536
}

fn dist2(c: IVec3, pt: IVec3) -> (r: i64)
    requires
        coord_bounded(c),
        coord_bounded(pt),
    ensures
        r == spec_dist2(c, pt),
{
    let dx = (c.x as i64) - (pt.x as i64);
    let dy = (c.y as i64) - (pt.y as i64);
    let dz = (c.z as i64) - (pt.z as i64);
    proof {
        assert(0 <= dx * dx <= 0x4000000000 && 0 <= dy * dy <= 0x4000000000 && 0 <= dz * dz
            <= 0x4000000000) by (nonlinear_arith)
            requires
                -131072 <= dx <= 131072,
                -131072 <= dy <= 131072,
                -131072 <= dz <= 131072,
        ;
    }
    dx * dx + dy * dy + dz * dz
}

/// Sort completed chunks by squared distance to `pt`, nearest first: the
/// result is a permutation of the input.
pub fn sort_chunks_by_distance(chunks: Vec<Chunk>, pt: IVec3) -> (r: Vec<Chunk>)
    requires
        coord_bounded(pt),
        forall|k: int| 0 <= k < chunks.len() ==> coord_bounded((#[trigger] chunks[k]).pos),
    ensures
        r@.len() == chunks@.len(),
        r@.to_multiset() == chunks@.to_multiset(),
        forall|k: int, l: int|
            0 <= k <= l < r.len() ==> spec_dist2((#[trigger] r[k]).pos, pt) <= spec_dist2(
                (#[trigger] r[l]).pos,
                pt,
            ),
        forall|k: int| 0 <= k < r.len() ==> chunks@.contains(#[trigger] r[k]),
{
    let mut rest = chunks;
    let mut out: Vec<Chunk> = Vec::new();
    let ghost all = rest@;
    proof {
        out@.to_multiset_ensures();
        assert(out@.to_multiset().add(rest@.to_multiset()) =~= all.to_multiset());
        assert forall|k: int| 0 <= k < rest.len() implies all.contains(#[trigger] rest[k]) by {
            assert(all[k] == rest[k]);
        }
    }
    while rest.len() > 0
        invariant
            coord_bounded(pt),
            all == chunks@,
            out@.to_multiset().add(rest@.to_multiset()) == all.to_multiset(),
            out@.len() + rest@.len() == all.len(),
            forall|k: int| 0 <= k < rest.len() ==> all.contains(#[trigger] rest[k]),
            forall|k: int| 0 <= k < out.len() ==> all.contains(#[trigger] out[k]),
            forall|k: int| 0 <= k < all.len() ==> coord_bounded((#[trigger] all[k]).pos),
            forall|k: int, l: int|
                0 <= k <= l < out.len() ==> spec_dist2((#[trigger] out[k]).pos, pt) <= spec_dist2(
                    (#[trigger] out[l]).pos,
                    pt,
                ),
            forall|k: int, l: int|
                0 <= k < out.len() && 0 <= l < rest.len() ==> spec_dist2(
                    (#[trigger] out[k]).pos,
                    pt,
                ) <= spec_dist2((#[trigger] rest[l]).pos, pt),
        decreases rest.len(),
    {
        // find the nearest remaining chunk
        proof {
            let k0 = choose|j: int| 0 <= j < all.len() && all[j] == rest@[0];
            assert(coord_bounded(rest@[0].pos));
        }
        let mut m: usize = 0;
        let mut best = dist2(rest[0].pos, pt);
        let mut j: usize = 1;
        while j < rest.len()
            invariant
                coord_bounded(pt),
                forall|k: int| 0 <= k < rest.len() ==> all.contains(#[trigger] rest[k]),
                forall|k: int| 0 <= k < all.len() ==> coord_bounded((#[trigger] all[k]).pos),
                rest.len() > 0,
                j <= rest.len(),
                m < rest.len(),
                best == spec_dist2(rest[m as int].pos, pt),
                forall|k: int| 0 <= k < j ==> best <= spec_dist2((#[trigger] rest[k]).pos, pt),
            decreases rest.len() - j,
        {
            proof {
                let kj = choose|q: int| 0 <= q < all.len() && all[q] == rest@[j as int];
                assert(coord_bounded(rest@[j as int].pos));
            }
            let d = dist2(rest[j].pos, pt);
            if d < best {
                m = j;
                best = d;
            }
            j = j + 1;
        }
        let ghost rest0 = rest@;
        let ghost out0 = out@;
        let c = rest.remove(m);
        out.push(c);
        proof {
            rest0.to_multiset_ensures();
            out0.to_multiset_ensures();
            assert(rest@.to_multiset() =~= rest0.to_multiset().remove(c));
            assert(out@.to_multiset() =~= out0.to_multiset().insert(c));
            assert(rest0.contains(c)) by {
                assert(rest0[m as int] == c);
            }
            assert(rest0.to_multiset().count(c) > 0);
            assert(out@.to_multiset().add(rest@.to_multiset()) =~= all.to_multiset()) by {
                assert forall|x: Chunk| true implies out@.to_multiset().add(
                    rest@.to_multiset(),
                ).count(x) == all.to_multiset().count(x) by {
                    assert(out0.to_multiset().add(rest0.to_multiset()).count(x)
                        == all.to_multiset().count(x));
                }
            }
            assert forall|k: int| 0 <= k < rest.len() implies all.contains(
                #[trigger] rest[k],
            ) by {
                if k < m {
                    assert(rest[k] == rest0[k]);
                } else {
                    assert(rest[k] == rest0[k + 1]);
                }
            }
            assert forall|k: int| 0 <= k < out.len() implies all.contains(#[trigger] out[k]) by {
                if k < out0.len() {
                    assert(out[k] == out0[k]);
                } else {
                    assert(out[k] == c);
                }
            }
            assert forall|k: int, l: int|
                0 <= k < out.len() && 0 <= l < rest.len() implies spec_dist2(
                (#[trigger] out[k]).pos,
                pt,
            ) <= spec_dist2((#[trigger] rest[l]).pos, pt) by {
                let lr: int = if l < m {
                    l
                } else {
                    l + 1
                };
                assert(rest[l] == rest0[lr]);
                if k < out0.len() {
                    assert(out[k] == out0[k]);
                } else {
                    assert(out[k] == c);
                }
            }
        }
    }
    proof {
        rest@.to_multiset_ensures();
        assert(rest@.to_multiset() =~= Multiset::empty());
        assert(out@.to_multiset() =~= all.to_multiset());
    }
    out
}

/// Accept up to `limit` completed chunk builds, nearest to the observer
/// first: each is inserted into the store (which clears its loading bit), a
/// coordinate that is already loaded is dropped, and the coordinates actually
/// inserted come back so the caller can attach entities and queue meshing.
pub fn process_tasks(
    store: &mut ChunkStore,
    ready: Vec<Chunk>,
    player_chunk: IVec3,
    limit: usize,
) -> (accepted: Vec<IVec3>)
    requires
        old(store).wf(),
        coord_bounded(player_chunk),
        forall|k: int|
            0 <= k < ready.len() ==> (#[trigger] ready[k]).wf() && coord_bounded(ready[k].pos),
    ensures
        final(store).wf(),
        accepted@.len() <= limit,
        forall|k: int|
            0 <= k < accepted.len() ==> !old(store).spec_contains(#[trigger] accepted[k]),
        forall|q: IVec3|
            !accepted@.contains(q) ==> #[trigger] final(store).spec_get(q) == old(
                store,
            ).spec_get(q),
        forall|q: IVec3|
            #[trigger] accepted@.contains(q) ==> exists|j: int|
                0 <= j < ready.len() && (#[trigger] ready[j]).pos == q && final(store).spec_get(q)
                    == Some(ready[j]),
        forall|q: IVec3| #[trigger]
            final(store).spec_is_loading(q) ==> old(store).spec_is_loading(q),
        forall|q: IVec3| #[trigger] accepted@.contains(q) ==> !final(store).spec_is_loading(q),
        limit >= ready.len() ==> forall|j: int|
            0 <= j < ready.len() && !old(store).spec_contains((#[trigger] ready[j]).pos)
                ==> accepted@.contains(ready[j].pos),
        forall|k: int, l: int|
            0 <= k <= l < accepted.len() ==> spec_dist2(#[trigger] accepted[k], player_chunk)
                <= spec_dist2(#[trigger] accepted[l], player_chunk),
        forall|k: int, j: int|
            0 <= k < accepted.len() && 0 <= j < ready.len() && !accepted@.contains(
                (#[trigger] ready[j]).pos,
            ) && !old(store).spec_contains(ready[j].pos) ==> spec_dist2(
                #[trigger] accepted[k],
                player_chunk,
            ) <= spec_dist2(ready[j].pos, player_chunk),
{
    let ghost pre = *store;
    let ghost ready0 = ready@;
    let mut sorted = sort_chunks_by_distance(ready, player_chunk);
    proof {
        ready0.to_multiset_ensures();
        sorted@.to_multiset_ensures();
        assert forall|j: int| #![trigger ready0[j]] 0 <= j < ready0.len() implies
            sorted@.contains(ready0[j]) by {
            assert(ready0.contains(ready0[j]));
            assert(ready0.to_multiset().count(ready0[j]) > 0);
            assert(sorted@.to_multiset().count(ready0[j]) > 0);
        }
    }
    let mut accepted: Vec<IVec3> = Vec::new();
    let mut processed: usize = 0;
    while processed < limit && sorted.len() > 0
        invariant
            store.wf(),
            accepted@.len() <= processed,
            processed <= limit,
            forall|k: int|
                0 <= k < ready0.len() ==> (#[trigger] ready0[k]).wf() && coord_bounded(
                    ready0[k].pos,
                ),
            forall|k: int| 0 <= k < sorted.len() ==> ready0.contains(#[trigger] sorted[k]),
            forall|k: int|
                0 <= k < accepted.len() ==> !pre.spec_contains(#[trigger] accepted[k]),
            forall|q: IVec3|
                !accepted@.contains(q) ==> #[trigger] store.spec_get(q) == pre.spec_get(q),
            forall|q: IVec3|
                #[trigger] accepted@.contains(q) ==> exists|j: int|
                    0 <= j < ready0.len() && (#[trigger] ready0[j]).pos == q && store.spec_get(q)
                        == Some(ready0[j]),
            forall|q: IVec3| #[trigger]
                store.spec_is_loading(q) ==> pre.spec_is_loading(q),
            forall|q: IVec3| #[trigger] accepted@.contains(q) ==> !store.spec_is_loading(q),
            forall|q: IVec3| #[trigger]
                store.spec_contains(q) ==> pre.spec_contains(q) || accepted@.contains(q),
            forall|j: int|
                0 <= j < ready0.len() && !pre.spec_contains((#[trigger] ready0[j]).pos) ==> (
                accepted@.contains(ready0[j].pos) || sorted@.contains(ready0[j])),
            processed + sorted@.len() == ready0.len(),
            forall|k: int, l: int|
                0 <= k <= l < sorted.len() ==> spec_dist2(
                    (#[trigger] sorted[k]).pos,
                    player_chunk,
                ) <= spec_dist2((#[trigger] sorted[l]).pos, player_chunk),
            forall|k: int, l: int|
                0 <= k <= l < accepted.len() ==> spec_dist2(#[trigger] accepted[k], player_chunk)
                    <= spec_dist2(#[trigger] accepted[l], player_chunk),
            forall|k: int, l: int|
                0 <= k < accepted.len() && 0 <= l < sorted.len() ==> spec_dist2(
                    #[trigger] accepted[k],
                    player_chunk,
                ) <= spec_dist2((#[trigger] sorted[l]).pos, player_chunk),
        decreases limit - processed,
    {
        let ghost sorted0 = sorted@;
        let ghost acc0 = accepted@;
        let ghost st0 = *store;
        proof {
            assert(ready0.contains(sorted@[0]));
            let j0 = choose|j: int| 0 <= j < ready0.len() && ready0[j] == sorted@[0];
            assert(sorted@[0].wf());
        }
        let c = sorted.remove(0);
        let cp = c.pos;
        let ghost cpos = c.pos;
        let inserted = store.insert(c);
        if inserted {
            accepted.push(cp);
        }
        proof {
            assert(c == sorted0[0]);
            if inserted {
                assert(accepted@[acc0.len() as int] == cpos);
                assert(accepted@.contains(cpos));
            }
            assert forall|k: int| 0 <= k < accepted@.len() implies acc0.contains(accepted@[k])
                || accepted@[k] == cpos by {
                if k < acc0.len() {
                    assert(acc0[k] == accepted@[k]);
                }
            }
            assert forall|q: IVec3| acc0.contains(q) implies accepted@.contains(q) by {
                let k = choose|k: int| 0 <= k < acc0.len() && acc0[k] == q;
                assert(accepted@[k] == q);
            }
            assert forall|q: IVec3| accepted@.contains(q) implies acc0.contains(q) || (inserted
                && q == cpos) by {
                let k = choose|k: int| 0 <= k < accepted@.len() && accepted@[k] == q;
                if k < acc0.len() {
                    assert(acc0[k] == q);
                }
            }
            assert forall|k: int| 0 <= k < sorted.len() implies ready0.contains(
                #[trigger] sorted[k],
            ) by {
                assert(sorted@[k] == sorted0[k + 1]);
            }
            assert forall|k: int, l: int| 0 <= k <= l < sorted.len() implies spec_dist2(
                (#[trigger] sorted[k]).pos,
                player_chunk,
            ) <= spec_dist2((#[trigger] sorted[l]).pos, player_chunk) by {
                assert(sorted@[k] == sorted0[k + 1]);
                assert(sorted@[l] == sorted0[l + 1]);
            }
            assert forall|k: int, l: int|
                0 <= k <= l < accepted@.len() implies spec_dist2(
                #[trigger] accepted@[k],
                player_chunk,
            ) <= spec_dist2(#[trigger] accepted@[l], player_chunk) by {
                if l < acc0.len() {
                    assert(accepted@[k] == acc0[k] && accepted@[l] == acc0[l]);
                } else if inserted && l == acc0.len() {
                    assert(accepted@[l] == cpos);
                    assert(cpos == sorted0[0].pos);
                    if k < acc0.len() {
                        assert(accepted@[k] == acc0[k]);
                        assert(spec_dist2(acc0[k], player_chunk) <= spec_dist2(
                            sorted0[0].pos,
                            player_chunk,
                        ));
                    }
                }
            }
            assert forall|k: int, l: int|
                0 <= k < accepted@.len() && 0 <= l < sorted.len() implies spec_dist2(
                #[trigger] accepted@[k],
                player_chunk,
            ) <= spec_dist2((#[trigger] sorted[l]).pos, player_chunk) by {
                assert(sorted@[l] == sorted0[l + 1]);
                assert(spec_dist2(sorted0[0].pos, player_chunk) <= spec_dist2(
                    sorted0[l + 1].pos,
                    player_chunk,
                ));
                if k < acc0.len() {
                    assert(accepted@[k] == acc0[k]);
                    assert(spec_dist2(acc0[k], player_chunk) <= spec_dist2(
                        sorted0[0].pos,
                        player_chunk,
                    ));
                } else {
                    assert(accepted@[k] == cpos);
                }
            }
            assert forall|q: IVec3| !accepted@.contains(q) implies #[trigger] store.spec_get(q)
                == pre.spec_get(q) by {
                assert(!acc0.contains(q));
                assert(q != cpos || !inserted);
                assert(store.spec_get(q) == st0.spec_get(q));
            }
            assert forall|q: IVec3| #[trigger] accepted@.contains(q) implies exists|j: int|
                0 <= j < ready0.len() && (#[trigger] ready0[j]).pos == q && store.spec_get(q)
                    == Some(ready0[j]) by {
                if acc0.contains(q) {
                    let j = choose|j: int|
                        0 <= j < ready0.len() && (#[trigger] ready0[j]).pos == q && st0.spec_get(q)
                            == Some(ready0[j]);
                    assert(store.spec_get(q) == st0.spec_get(q)) by {
                        if q == cpos && inserted {
                            assert(st0.spec_get(q) is Some);
                            assert(st0.spec_contains(q));
                            assert(false);
                        }
                    }
                } else {
                    assert(q == cpos && inserted);
                    assert(ready0.contains(c));
                    let j = choose|j: int| 0 <= j < ready0.len() && ready0[j] == c;
                    assert(ready0[j].pos == q);
                    assert(store.spec_get(q) == Some(c));
                }
            }
            assert forall|q: IVec3| #[trigger] accepted@.contains(q) implies
                !store.spec_is_loading(q) by {
                if acc0.contains(q) {
                    assert(!st0.spec_is_loading(q));
                } else {
                    assert(q == cpos);
                }
            }
            assert forall|k: int| 0 <= k < accepted@.len() implies !pre.spec_contains(
                #[trigger] accepted@[k],
            ) by {
                if k >= acc0.len() {
                    assert(accepted@[k] == cpos);
                    assert(inserted);
                    assert(!st0.spec_contains(cpos));
                    assert(st0.spec_contains(cpos) || !pre.spec_contains(cpos)) by {
                        if pre.spec_contains(cpos) {
                            assert(st0.spec_get(cpos) == pre.spec_get(cpos));
                            assert(pre.spec_get(cpos) is Some);
                            assert(st0.spec_contains(cpos));
                        }
                    }
                }
            }
            assert forall|q: IVec3| #[trigger] store.spec_contains(q) implies pre.spec_contains(q)
                || accepted@.contains(q) by {
                if q == cpos {
                    if !inserted {
                        assert(st0.spec_contains(q));
                    }
                } else {
                    assert(store.spec_get(q) == st0.spec_get(q));
                    assert(store.spec_get(q) is Some);
                    assert(st0.spec_get(q) is Some);
                    assert(st0.spec_contains(q)) by {
                        if !st0.spec_contains(q) {
                            assert(st0.spec_get(q) is None);
                        }
                    }
                }
            }
            assert forall|j: int|
                0 <= j < ready0.len() && !pre.spec_contains((#[trigger] ready0[j]).pos) implies (
            accepted@.contains(ready0[j].pos) || sorted@.contains(ready0[j])) by {
                if !acc0.contains(ready0[j].pos) && !accepted@.contains(ready0[j].pos) {
                    if sorted0.contains(ready0[j]) {
                        let k = choose|k: int|
                            0 <= k < sorted0.len() && sorted0[k] == ready0[j];
                        if k == 0 {
                            assert(c == ready0[j]);
                            if !inserted {
                                assert(st0.spec_contains(cpos));
                                assert(pre.spec_contains(cpos) || acc0.contains(cpos));
                            }
                            assert(false);
                        } else {
                            assert(sorted@[k - 1] == ready0[j]);
                            assert(sorted@.contains(ready0[j]));
                        }
                    }
                }
            }
        }
        processed = processed + 1;
    }
    proof {
        if limit >= ready0.len() {
            // the loop ran the whole list down: stopping early on `limit`
            // would contradict limit covering every task
            assert(sorted@.len() == 0);
            assert forall|j: int|
                0 <= j < ready0.len() && !pre.spec_contains((#[trigger] ready0[j]).pos) implies
                accepted@.contains(ready0[j].pos) by {
                assert(!sorted@.contains(ready0[j]));
            }
        }
    }
    accepted
}

/// Streamer idempotence: once every chunk of the spawn box is loaded or
/// loading (as it is right after a spawn pass), a further pass with the same
/// observer position claims nothing.
pub proof fn lemma_spawn_idempotent(
    store: ChunkStore,
    pc: IVec3,
    r: int,
    spawn: Seq<IVec3>,
)
    requires
        forall|q: IVec3|
            #[trigger] in_spawn_box(q, pc, r) ==> store.spec_contains(q)
                || store.spec_is_loading(q),
        forall|k: int|
            0 <= k < spawn.len() ==> in_spawn_box(#[trigger] spawn[k], pc, r)
                && !store.spec_contains(spawn[k]) && !store.spec_is_loading(spawn[k]),
    ensures
        spawn.len() == 0,
{
    if spawn.len() > 0 {
        assert(in_spawn_box(spawn[0], pc, r));
    }
}

/// Eviction completeness is idempotent too: once nothing outside the keep
/// region is loaded or loading (as after a despawn pass), a further pass
/// with the same observer position evicts nothing.
pub proof fn lemma_despawn_idempotent(
    store: ChunkStore,
    pc: IVec3,
    r: int,
    removed: Seq<IVec3>,
)
    requires
        forall|q: IVec3|
            #[trigger] outside_keep_box(q, pc, r) ==> !store.spec_contains(q)
                && !store.spec_is_loading(q),
        forall|k: int|
            0 <= k < removed.len() ==> outside_keep_box(#[trigger] removed[k], pc, r) && (
            store.spec_contains(removed[k]) || store.spec_is_loading(removed[k])),
    ensures
        removed.len() == 0,
{
    if removed.len() > 0 {
        assert(outside_keep_box(removed[0], pc, r));
    }
}

} // verus!
