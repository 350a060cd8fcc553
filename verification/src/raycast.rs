//! Voxel ray casting: a 3-D digital differential analyzer that walks the
//! grid cell by cell and returns the first solid block.
//!
//! All arithmetic is exact. The caller gives the ray origin and direction as
//! integer numerators over a common positive denominator `scale` (the camera
//! side converts its floating-point ray once, at the boundary), and the
//! parametric limit as the fraction `max_t_num / max_t_den`. The parametric
//! position of the ray is `(origin + t * dir) / scale`, so for a direction
//! vector of length `scale` the parameter `t` is world distance. Crossing
//! times are kept as exact fractions `p / |dir_axis|` per axis.

use vstd::prelude::*;

use crate::block::{Block, Direction, IVec3};
use crate::store::ChunkStore;

verus! {

/// A ray-cast hit: the solid cell, its chunk and local coordinates, the face
/// through which the ray entered, the block found, and the exact parameter
/// of the entry point as the fraction `distance_num / distance_den`.
pub struct RayHit {
    pub global_position: IVec3,
    pub chunk_pos: IVec3,
    pub local_pos: IVec3,
    pub normal: Direction,
    pub block: Block,
    pub distance_num: i64,
    pub distance_den: i64,
}

/// The immutable data of one cast.
pub struct RayParams {
    pub q: int,
    pub dx: int,
    pub dy: int,
    pub dz: int,
    pub lim_num: int,
    pub lim_den: int,
}

/// The walk state: the current cell, and per axis the numerator `p` of the
/// next crossing time `p / |d|`.
pub struct RayState {
    pub cx: int,
    pub cy: int,
    pub cz: int,
    pub px: int,
    pub py: int,
    pub pz: int,
}

/// A hit at the spec level: the cell entered, the axis stepped, and the
/// exact entry time.
pub struct RayHitSpec {
    pub x: int,
    pub y: int,
    pub z: int,
    pub axis: int,
    pub t_num: int,
    pub t_den: int,
}

pub open spec fn iabs(v: int) -> int {
    if v < 0 {
        -v
    } else {
        v
    }
}

pub open spec fn axis_d(rp: RayParams, a: int) -> int {
    if a == 0 {
        rp.dx
    } else if a == 1 {
        rp.dy
    } else {
        rp.dz
    }
}

pub open spec fn axis_p(s: RayState, a: int) -> int {
    if a == 0 {
        s.px
    } else if a == 1 {
        s.py
    } else {
        s.pz
    }
}

/// `p1 / d1 < p2 / d2` on crossing times, where an inactive axis counts as
/// infinitely far.
pub open spec fn t_lt(p1: int, d1: int, p2: int, d2: int) -> bool {
    d1 != 0 && (d2 == 0 || p1 * iabs(d2) < p2 * iabs(d1))
}

/// The crossing time `p / |d|` is within the ray's limit.
pub open spec fn t_within(rp: RayParams, p: int, d: int) -> bool {
    d != 0 && p * rp.lim_den <= rp.lim_num * iabs(d)
}

/// The axis whose next crossing comes first, with the fixed tie-breaking of
/// the walk: x only when strictly first, then y, else z.
pub open spec fn chosen_axis(rp: RayParams, s: RayState) -> int {
    if t_lt(s.px, rp.dx, s.py, rp.dy) && t_lt(s.px, rp.dx, s.pz, rp.dz) {
        0
    } else if t_lt(s.py, rp.dy, s.pz, rp.dz) {
        1
    } else {
        2
    }
}

/// The state after stepping across the next plane of axis `a`.
pub open spec fn stepped(rp: RayParams, s: RayState, a: int) -> RayState {
    let sg: int = if axis_d(rp, a) < 0 {
        -1
    } else {
        1
    };
    if a == 0 {
        RayState { cx: s.cx + sg, px: s.px + rp.q, ..s }
    } else if a == 1 {
        RayState { cy: s.cy + sg, py: s.py + rp.q, ..s }
    } else {
        RayState { cz: s.cz + sg, pz: s.pz + rp.q, ..s }
    }
}

/// The face through which a step along `a` enters the new cell.
pub open spec fn entry_normal(rp: RayParams, a: int) -> Direction {
    if a == 0 {
        if axis_d(rp, a) < 0 {
            Direction::Right
        } else {
            Direction::Left
        }
    } else if a == 1 {
        if axis_d(rp, a) < 0 {
            Direction::Top
        } else {
            Direction::Bottom
        }
    } else {
        if axis_d(rp, a) < 0 {
            Direction::Front
        } else {
            Direction::Back
        }
    }
}

/// Whether the world cell `(x, y, z)` holds a solid block: absent chunks
/// hold nothing. Chunk and local coordinates come from Euclidean division.
pub open spec fn spec_solid_at(store: ChunkStore, x: int, y: int, z: int) -> bool {
    let cp = IVec3 { x: (x / 32) as i32, y: (y / 32) as i32, z: (z / 32) as i32 };
    match store.spec_get(cp) {
        Some(c) => c.spec_block(x % 32, y % 32, z % 32).spec_is_solid(),
        None => false,
    }
}

/// Crossings of axis `a` still due before the limit runs out.
pub open spec fn axis_measure(rp: RayParams, p: int, d: int) -> int {
    if d == 0 || p * rp.lim_den > rp.lim_num * iabs(d) {
        0
    } else {
        (rp.lim_num * iabs(d) - p * rp.lim_den) / (rp.q * rp.lim_den) + 1
    }
}

/// Total crossings still due: the walk takes exactly one per step.
pub open spec fn spec_measure(rp: RayParams, s: RayState) -> int {
    axis_measure(rp, s.px, rp.dx) + axis_measure(rp, s.py, rp.dy) + axis_measure(rp, s.pz, rp.dz)
}

/// The walk itself: step across the nearest plane, stop on the first solid
/// cell, give up when the next crossing lies beyond the limit. The fuel only
/// serves termination; `spec_ray_cast` supplies enough for the whole walk.
pub open spec fn spec_ray_walk(
    store: ChunkStore,
    rp: RayParams,
    s: RayState,
    fuel: nat,
) -> Option<RayHitSpec>
    decreases fuel,
{
    if fuel == 0 {
        None
    } else {
        let a = chosen_axis(rp, s);
        if !t_within(rp, axis_p(s, a), axis_d(rp, a)) {
            None
        } else {
            let s2 = stepped(rp, s, a);
            if spec_solid_at(store, s2.cx, s2.cy, s2.cz) {
                Some(
                    RayHitSpec {
                        x: s2.cx,
                        y: s2.cy,
                        z: s2.cz,
                        axis: a,
                        t_num: axis_p(s, a),
                        t_den: iabs(axis_d(rp, a)),
                    },
                )
            } else {
                spec_ray_walk(store, rp, s2, (fuel - 1) as nat)
            }
        }
    }
}

/// The cell holding the ray origin `o / q` (per axis, Euclidean floor).
pub open spec fn init_cell(o: int, q: int) -> int {
    o / q
}

/// The initial crossing numerator of one axis: the distance (in `1/q`
/// blocks) from the origin to the first plane in the direction of travel.
pub open spec fn init_p(o: int, q: int, d: int) -> int {
    if d > 0 {
        (o / q + 1) * q - o
    } else if d < 0 {
        o - (o / q) * q
    } else {
        0
    }
}

pub open spec fn init_state(ox: int, oy: int, oz: int, rp: RayParams) -> RayState {
    RayState {
        cx: init_cell(ox, rp.q),
        cy: init_cell(oy, rp.q),
        cz: init_cell(oz, rp.q),
        px: init_p(ox, rp.q, rp.dx),
        py: init_p(oy, rp.q, rp.dy),
        pz: init_p(oz, rp.q, rp.dz),
    }
}

/// What a cast returns: the whole walk from the origin cell, with fuel for
/// every crossing the limit admits.
pub open spec fn spec_ray_cast(
    store: ChunkStore,
    ox: int,
    oy: int,
    oz: int,
    rp: RayParams,
) -> Option<RayHitSpec> {
    let s = init_state(ox, oy, oz, rp);
    spec_ray_walk(store, rp, s, (spec_measure(rp, s) + 1) as nat)
}

/// Bounds under which the cast's arithmetic is exact in 64 bits.
pub open spec fn ray_inputs_ok(
    ox: int,
    oy: int,
    oz: int,
    rp: RayParams,
) -> bool {
    &&& 1 <= rp.q <= 65536
    &&& -rp.q * 0x20_0000 <= ox <= rp.q * 0x20_0000
    &&& -rp.q * 0x20_0000 <= oy <= rp.q * 0x20_0000
    &&& -rp.q * 0x20_0000 <= oz <= rp.q * 0x20_0000
    &&& -64 * rp.q <= rp.dx <= 64 * rp.q
    &&& -64 * rp.q <= rp.dy <= 64 * rp.q
    &&& -64 * rp.q <= rp.dz <= 64 * rp.q
    &&& 1 <= rp.lim_den <= 65536
    &&& 0 <= rp.lim_num <= rp.lim_den * 0x10_0000
}

/// Exact product of two machine words, for the fraction comparisons.
fn mul_wide(a: i64, b: i64) -> (r: i128)
    ensures
        r == a * b,
{
    proof {
        assert(i128::MIN <= (a as i128) * (b as i128) <= i128::MAX) by (nonlinear_arith)
            requires
                -0x8000_0000_0000_0000 <= a as i128 <= 0x7FFF_FFFF_FFFF_FFFF,
                -0x8000_0000_0000_0000 <= b as i128 <= 0x7FFF_FFFF_FFFF_FFFF,
        ;
    }
    (a as i128) * (b as i128)
}

/// Euclidean floor division by a positive divisor: `o == c * q + rem` with
/// `0 <= rem < q`, computed through an offset so only unsigned division runs.
fn floor_div(o: i64, q: i64) -> (r: (i64, i64))
    requires
        1 <= q <= 65536,
        -q * 0x2000_0000 <= o <= q * 0x2000_0000,
    ensures
        o == r.0 * q + r.1,
        0 <= r.1 < q,
        r.0 == (o as int) / (q as int),
        -0x2000_0000 <= r.0 <= 0x2000_0000,
{
    proof {
        assert(i64::MIN <= q * 0x4000_0000 <= i64::MAX) by (nonlinear_arith)
            requires
                1 <= q <= 65536,
        ;
        assert(0 <= o + q * 0x4000_0000 <= 0x10_0000_0000_0000) by (nonlinear_arith)
            requires
                1 <= q <= 65536,
                -q * 0x2000_0000 <= o <= q * 0x2000_0000,
        ;
    }
    let shifted = (o + q * 0x4000_0000) as u64;
    let qq = q as u64;
    let div = shifted / qq;
    let rem = shifted % qq;
    proof {
        vstd::arithmetic::div_mod::lemma_fundamental_div_mod(shifted as int, qq as int);
        vstd::arithmetic::mul::lemma_mul_is_commutative(div as int, q as int);
        // peel the offset off the quotient
        assert(shifted == (div as int) * q + rem);
        assert(o == ((div as int) - 0x4000_0000) * q + rem) by (nonlinear_arith)
            requires
                shifted == (div as int) * q + rem,
                shifted == o + q * 0x4000_0000,
        ;
        vstd::arithmetic::div_mod::lemma_fundamental_div_mod_converse(
            o as int,
            q as int,
            (div as int) - 0x4000_0000,
            rem as int,
        );
        assert(0x2000_0000 * q <= 0x2000_0000 * q) by (nonlinear_arith);
        assert(-0x2000_0000 <= (div as int) - 0x4000_0000 <= 0x2000_0000) by (nonlinear_arith)
            requires
                o == ((div as int) - 0x4000_0000) * q + rem,
                0 <= rem < q,
                1 <= q <= 65536,
                -q * 0x2000_0000 <= o <= q * 0x2000_0000,
        ;
    }
    (div as i64 - 0x4000_0000, rem as i64)
}

/// One crossing consumed: stepping an in-limit axis lowers its due-crossing
/// count by exactly one.
proof fn lemma_measure_step(rp: RayParams, p: int, d: int)
    requires
        rp.q >= 1,
        rp.lim_den >= 1,
        d != 0,
        p >= 0,
        p * rp.lim_den <= rp.lim_num * iabs(d),
    ensures
        axis_measure(rp, p + rp.q, d) == axis_measure(rp, p, d) - 1,
{
    let x = rp.lim_num * iabs(d) - p * rp.lim_den;
    let dd = rp.q * rp.lim_den;
    assert(x >= 0) by (nonlinear_arith)
        requires
            x == rp.lim_num * iabs(d) - p * rp.lim_den,
            p * rp.lim_den <= rp.lim_num * iabs(d),
    ;
    assert(dd >= 1) by (nonlinear_arith)
        requires
            dd == rp.q * rp.lim_den,
            rp.q >= 1,
            rp.lim_den >= 1,
    ;
    let x2 = rp.lim_num * iabs(d) - (p + rp.q) * rp.lim_den;
    assert(x2 == x - dd) by (nonlinear_arith)
        requires
            x == rp.lim_num * iabs(d) - p * rp.lim_den,
            x2 == rp.lim_num * iabs(d) - (p + rp.q) * rp.lim_den,
            dd == rp.q * rp.lim_den,
    ;
    if x2 < 0 {
        // the limit is spent: the old count was the last one
        assert((p + rp.q) * rp.lim_den > rp.lim_num * iabs(d)) by (nonlinear_arith)
            requires
                x2 == rp.lim_num * iabs(d) - (p + rp.q) * rp.lim_den,
                x2 < 0,
        ;
        assert(axis_measure(rp, p + rp.q, d) == 0);
        assert(0 <= x < dd);
        vstd::arithmetic::div_mod::lemma_basic_div(x, dd);
        assert(axis_measure(rp, p, d) == 1);
    } else {
        assert((p + rp.q) * rp.lim_den <= rp.lim_num * iabs(d)) by (nonlinear_arith)
            requires
                x2 == rp.lim_num * iabs(d) - (p + rp.q) * rp.lim_den,
                x2 >= 0,
        ;
        vstd::arithmetic::div_mod::lemma_fundamental_div_mod(x, dd);
        let qt = x / dd;
        let rm = x % dd;
        assert(x2 == (qt - 1) * dd + rm) by (nonlinear_arith)
            requires
                x == qt * dd + rm,
                x2 == x - dd,
        ;
        vstd::arithmetic::div_mod::lemma_fundamental_div_mod_converse(x2, dd, qt - 1, rm);
        assert(x2 / dd == qt - 1);
    }
}

/// A crossing numerator within the limit is small.
proof fn lemma_p_bound(rp: RayParams, p: int, d: int)
    requires
        rp.q >= 1,
        1 <= rp.lim_den <= 65536,
        0 <= rp.lim_num <= rp.lim_den * 0x10_0000,
        -64 * rp.q <= d <= 64 * rp.q,
        rp.q <= 65536,
        d != 0,
        p >= 0,
        p * rp.lim_den <= rp.lim_num * iabs(d),
    ensures
        p <= 0x4000_0000_0000,
        p <= 0x400_0000 * rp.q,
{
    assert(p <= 0x400_0000 * rp.q) by (nonlinear_arith)
        requires
            p * rp.lim_den <= rp.lim_num * iabs(d),
            rp.lim_num <= rp.lim_den * 0x10_0000,
            rp.lim_den >= 1,
            -64 * rp.q <= d <= 64 * rp.q,
            rp.q >= 1,
            p >= 0,
    ;
    assert(p <= 0x10_0000 * iabs(d)) by (nonlinear_arith)
        requires
            p * rp.lim_den <= rp.lim_num * iabs(d),
            rp.lim_num <= rp.lim_den * 0x10_0000,
            rp.lim_den >= 1,
            iabs(d) >= 0,
            p >= 0,
    ;
    assert(iabs(d) <= 64 * 65536) by (nonlinear_arith)
        requires
            -64 * rp.q <= d <= 64 * rp.q,
            rp.q <= 65536,
    ;
    assert(0x10_0000 * iabs(d) <= 0x4000_0000_0000) by (nonlinear_arith)
        requires
            0 <= iabs(d) <= 64 * 65536,
    ;
}

pub open spec fn spec_rp(dir: [i64; 3], scale: i64, max_t_num: i64, max_t_den: i64) -> RayParams {
    RayParams {
        q: scale as int,
        dx: dir[0] as int,
        dy: dir[1] as int,
        dz: dir[2] as int,
        lim_num: max_t_num as int,
        lim_den: max_t_den as int,
    }
}

pub open spec fn axis_o(ox: int, oy: int, oz: int, a: int) -> int {
    if a == 0 {
        ox
    } else if a == 1 {
        oy
    } else {
        oz
    }
}

/// The entry point lies exactly on the crossed grid plane: at parameter
/// `t = t_num / t_den`, the stepped coordinate `(o + t * d) / q` equals the
/// integer plane coordinate of the entered face.
pub open spec fn plane_exact(ox: int, oy: int, oz: int, rp: RayParams, hs: RayHitSpec) -> bool {
    let o = axis_o(ox, oy, oz, hs.axis);
    let d = axis_d(rp, hs.axis);
    let g = if hs.axis == 0 {
        hs.x
    } else if hs.axis == 1 {
        hs.y
    } else {
        hs.z
    };
    let plane = if d < 0 {
        g + 1
    } else {
        g
    };
    o * hs.t_den + hs.t_num * d == rp.q * plane * hs.t_den
}

/// The cell in front of the hit face (the cell the ray was in just before
/// the hit) is the origin cell or holds nothing solid.
pub open spec fn prev_cell_clear(
    store: ChunkStore,
    ox: int,
    oy: int,
    oz: int,
    rp: RayParams,
    h: RayHit,
) -> bool {
    let pvx = h.global_position.x + h.normal.spec_normal().x;
    let pvy = h.global_position.y + h.normal.spec_normal().y;
    let pvz = h.global_position.z + h.normal.spec_normal().z;
    ||| (pvx == ox / rp.q && pvy == oy / rp.q && pvz == oz / rp.q)
    ||| !spec_solid_at(store, pvx, pvy, pvz)
}

/// How an executable hit realizes a spec-level hit.
pub open spec fn hit_matches(
    store: ChunkStore,
    ox: int,
    oy: int,
    oz: int,
    rp: RayParams,
    h: RayHit,
    hs: RayHitSpec,
) -> bool {
    &&& h.global_position.x as int == hs.x
    &&& h.global_position.y as int == hs.y
    &&& h.global_position.z as int == hs.z
    &&& h.chunk_pos.x as int == hs.x / 32
    &&& h.chunk_pos.y as int == hs.y / 32
    &&& h.chunk_pos.z as int == hs.z / 32
    &&& h.local_pos.x as int == hs.x % 32
    &&& h.local_pos.y as int == hs.y % 32
    &&& h.local_pos.z as int == hs.z % 32
    &&& crate::block::in_chunk(h.local_pos.x as int, h.local_pos.y as int, h.local_pos.z as int)
    &&& h.normal == entry_normal(rp, hs.axis)
    &&& h.distance_num as int == hs.t_num
    &&& h.distance_den as int == hs.t_den
    &&& h.distance_den >= 1
    &&& h.distance_num >= 0
    &&& hs.t_num * rp.lim_den <= rp.lim_num * hs.t_den
    &&& store.spec_get(h.chunk_pos) is Some
    &&& h.block == store.spec_get(h.chunk_pos)->Some_0.spec_block(
        h.local_pos.x as int,
        h.local_pos.y as int,
        h.local_pos.z as int,
    )
    &&& h.block.spec_is_solid()
    &&& plane_exact(ox, oy, oz, rp, hs)
    &&& prev_cell_clear(store, ox, oy, oz, rp, h)
}

/// Cast a ray through the store and return the first solid block within the
/// parametric limit, with the face it was hit through and the exact entry
/// time; `None` when the limit runs out first (in particular for a zero
/// direction). The observable fields follow `spec_ray_cast` exactly.
pub fn ray_cast(
    store: &ChunkStore,
    origin: [i64; 3],
    dir: [i64; 3],
    scale: i64,
    max_t_num: i64,
    max_t_den: i64,
) -> (r: Option<RayHit>)
    requires
        store.wf(),
        ray_inputs_ok(
            origin[0] as int,
            origin[1] as int,
            origin[2] as int,
            spec_rp(dir, scale, max_t_num, max_t_den),
        ),
    ensures
        ({
            let rp = spec_rp(dir, scale, max_t_num, max_t_den);
            let w = spec_ray_cast(
                *store,
                origin[0] as int,
                origin[1] as int,
                origin[2] as int,
                rp,
            );
            match r {
                None => w is None,
                Some(h) => w is Some && hit_matches(
                    *store,
                    origin[0] as int,
                    origin[1] as int,
                    origin[2] as int,
                    rp,
                    h,
                    w->Some_0,
                ),
            }
        }),
{
    let ghost rp = spec_rp(dir, scale, max_t_num, max_t_den);
    let o_x = origin[0];
    let o_y = origin[1];
    let o_z = origin[2];
    let d_x = dir[0];
    let d_y = dir[1];
    let d_z = dir[2];
    let ad_x = if d_x < 0 { -d_x } else { d_x };
    let ad_y = if d_y < 0 { -d_y } else { d_y };
    let ad_z = if d_z < 0 { -d_z } else { d_z };

    let (icx, remx) = floor_div(o_x, scale);
    let (icy, remy) = floor_div(o_y, scale);
    let (icz, remz) = floor_div(o_z, scale);
    let mut cx = icx;
    let mut cy = icy;
    let mut cz = icz;
    let mut px = if d_x > 0 { scale - remx } else if d_x < 0 { remx } else { 0 };
    let mut py = if d_y > 0 { scale - remy } else if d_y < 0 { remy } else { 0 };
    let mut pz = if d_z > 0 { scale - remz } else if d_z < 0 { remz } else { 0 };

    proof {
        assert(px as int == init_p(o_x as int, rp.q, rp.dx)) by (nonlinear_arith)
            requires
                rp.q == scale as int,
                rp.dx == d_x as int,
                o_x == icx * scale + remx,
                0 <= remx < scale,
                icx as int == o_x as int / scale as int,
                px as int == if d_x > 0 { (scale - remx) as int } else if d_x < 0 { remx as int } else { 0int },
        ;
        assert(py as int == init_p(o_y as int, rp.q, rp.dy)) by (nonlinear_arith)
            requires
                rp.q == scale as int,
                rp.dy == d_y as int,
                o_y == icy * scale + remy,
                0 <= remy < scale,
                icy as int == o_y as int / scale as int,
                py as int == if d_y > 0 { (scale - remy) as int } else if d_y < 0 { remy as int } else { 0int },
        ;
        assert(pz as int == init_p(o_z as int, rp.q, rp.dz)) by (nonlinear_arith)
            requires
                rp.q == scale as int,
                rp.dz == d_z as int,
                o_z == icz * scale + remz,
                0 <= remz < scale,
                icz as int == o_z as int / scale as int,
                pz as int == if d_z > 0 { (scale - remz) as int } else if d_z < 0 { remz as int } else { 0int },
        ;
    }
    proof {
        assert({
            &&& -0x20_0001 <= icx as int <= 0x20_0001
            &&& -0x20_0001 <= icy as int <= 0x20_0001
            &&& -0x20_0001 <= icz as int <= 0x20_0001
        }) by (nonlinear_arith)
            requires
                o_x == icx * scale + remx,
                o_y == icy * scale + remy,
                o_z == icz * scale + remz,
                0 <= remx < scale,
                0 <= remy < scale,
                0 <= remz < scale,
                1 <= scale <= 65536,
                -scale * 0x20_0000 <= o_x as int <= scale * 0x20_0000,
                -scale * 0x20_0000 <= o_y as int <= scale * 0x20_0000,
                -scale * 0x20_0000 <= o_z as int <= scale * 0x20_0000,
        ;
    }
    let ghost goal = spec_ray_cast(*store, o_x as int, o_y as int, o_z as int, rp);

    loop
        invariant
            store.wf(),
            rp == spec_rp(dir, scale, max_t_num, max_t_den),
            ray_inputs_ok(o_x as int, o_y as int, o_z as int, rp),
            o_x == origin[0] && o_y == origin[1] && o_z == origin[2],
            d_x == dir[0] && d_y == dir[1] && d_z == dir[2],
            ad_x as int == iabs(rp.dx),
            ad_y as int == iabs(rp.dy),
            ad_z as int == iabs(rp.dz),
            icx as int == o_x as int / rp.q,
            icy as int == o_y as int / rp.q,
            icz as int == o_z as int / rp.q,
            goal == spec_ray_cast(*store, o_x as int, o_y as int, o_z as int, rp),
            goal == spec_ray_walk(
                *store,
                rp,
                (RayState {
                    cx: cx as int,
                    cy: cy as int,
                    cz: cz as int,
                    px: px as int,
                    py: py as int,
                    pz: pz as int,
                }),
                (spec_measure(
                    rp,
                    (RayState {
                        cx: cx as int,
                        cy: cy as int,
                        cz: cz as int,
                        px: px as int,
                        py: py as int,
                        pz: pz as int,
                    }),
                ) + 1) as nat,
            ),
            rp.dx > 0 ==> o_x as int + px as int == rp.q * (cx as int + 1),
            rp.dx < 0 ==> o_x as int - px as int == rp.q * (cx as int),
            rp.dx == 0 ==> px == 0 && cx == icx,
            rp.dy > 0 ==> o_y as int + py as int == rp.q * (cy as int + 1),
            rp.dy < 0 ==> o_y as int - py as int == rp.q * (cy as int),
            rp.dy == 0 ==> py == 0 && cy == icy,
            rp.dz > 0 ==> o_z as int + pz as int == rp.q * (cz as int + 1),
            rp.dz < 0 ==> o_z as int - pz as int == rp.q * (cz as int),
            rp.dz == 0 ==> pz == 0 && cz == icz,
            0 <= px <= 0x4000_0002_0000,
            0 <= py <= 0x4000_0002_0000,
            0 <= pz <= 0x4000_0002_0000,
            -0x800_0000 <= cx <= 0x800_0000,
            -0x800_0000 <= cy <= 0x800_0000,
            -0x800_0000 <= cz <= 0x800_0000,
            (cx == icx && cy == icy && cz == icz) || !spec_solid_at(
                *store,
                cx as int,
                cy as int,
                cz as int,
            ),
        decreases spec_measure(
            rp,
            (RayState {
                cx: cx as int,
                cy: cy as int,
                cz: cz as int,
                px: px as int,
                py: py as int,
                pz: pz as int,
            }),
        ),
    {
        let ghost cur = RayState {
            cx: cx as int,
            cy: cy as int,
            cz: cz as int,
            px: px as int,
            py: py as int,
            pz: pz as int,
        };
        proof {
            lemma_measure_nonneg(rp, cur);
        }
        let x_lt_y = d_x != 0 && (d_y == 0 || mul_wide(px, ad_y) < mul_wide(py, ad_x));
        let x_lt_z = d_x != 0 && (d_z == 0 || mul_wide(px, ad_z) < mul_wide(pz, ad_x));
        let y_lt_z = d_y != 0 && (d_z == 0 || mul_wide(py, ad_z) < mul_wide(pz, ad_y));
        let axis: usize = if x_lt_y && x_lt_z {
            0
        } else if y_lt_z {
            1
        } else {
            2
        };
        proof {
            assert(x_lt_y == t_lt(cur.px, rp.dx, cur.py, rp.dy));
            assert(x_lt_z == t_lt(cur.px, rp.dx, cur.pz, rp.dz));
            assert(y_lt_z == t_lt(cur.py, rp.dy, cur.pz, rp.dz));
            assert(axis as int == chosen_axis(rp, cur));
        }
        let (p_cur, d_cur, ad_cur) = if axis == 0 {
            (px, d_x, ad_x)
        } else if axis == 1 {
            (py, d_y, ad_y)
        } else {
            (pz, d_z, ad_z)
        };
        proof {
            assert(p_cur as int == axis_p(cur, axis as int));
            assert(d_cur as int == axis_d(rp, axis as int));
            assert(ad_cur as int == iabs(axis_d(rp, axis as int)));
        }
        let within = d_cur != 0 && mul_wide(p_cur, max_t_den) <= mul_wide(max_t_num, ad_cur);
        proof {
            assert(within == t_within(rp, axis_p(cur, axis as int), axis_d(rp, axis as int)));
        }
        if !within {
            proof {
                assert(spec_measure(rp, cur) + 1 >= 1);
                assert(goal == spec_ray_walk(*store, rp, cur, (spec_measure(rp, cur) + 1) as nat));
                assert(spec_ray_walk(*store, rp, cur, (spec_measure(rp, cur) + 1) as nat)
                    is None);
            }
            return None;
        }
        proof {
            lemma_p_bound(rp, p_cur as int, d_cur as int);
            lemma_measure_step(rp, p_cur as int, d_cur as int);
        }
        let t_num = p_cur;
        let t_den = ad_cur;
        let normal: Direction;
        if axis == 0 {
            cx = if d_x < 0 { cx - 1 } else { cx + 1 };
            px = px + scale;
            normal = if d_x < 0 { Direction::Right } else { Direction::Left };
            proof {
                assert(rp.dx != 0);
                assert({
                    &&& rp.dx > 0 ==> o_x as int + px as int == rp.q * (cx as int + 1)
                    &&& rp.dx < 0 ==> o_x as int - px as int == rp.q * (cx as int)
                    &&& px <= 0x4000_0002_0000
                    &&& px as int <= 0x400_0000 * rp.q + rp.q
                }) by (nonlinear_arith)
                    requires
                        rp.dx != 0,
                        px as int == cur.px + rp.q,
                        rp.dx < 0 ==> cx as int == cur.cx - 1,
                        rp.dx > 0 ==> cx as int == cur.cx + 1,
                        rp.dx > 0 ==> o_x as int + cur.px == rp.q * (cur.cx + 1),
                        rp.dx < 0 ==> o_x as int - cur.px == rp.q * cur.cx,
                        cur.px <= 0x400_0000 * rp.q,
                        1 <= rp.q <= 65536,
                ;
                lemma_cell_bounds(rp, o_x as int, cx as int, px as int, rp.dx);
            }
        } else if axis == 1 {
            cy = if d_y < 0 { cy - 1 } else { cy + 1 };
            py = py + scale;
            normal = if d_y < 0 { Direction::Top } else { Direction::Bottom };
            proof {
                assert(rp.dy != 0);
                assert({
                    &&& rp.dy > 0 ==> o_y as int + py as int == rp.q * (cy as int + 1)
                    &&& rp.dy < 0 ==> o_y as int - py as int == rp.q * (cy as int)
                    &&& py <= 0x4000_0002_0000
                    &&& py as int <= 0x400_0000 * rp.q + rp.q
                }) by (nonlinear_arith)
                    requires
                        rp.dy != 0,
                        py as int == cur.py + rp.q,
                        rp.dy < 0 ==> cy as int == cur.cy - 1,
                        rp.dy > 0 ==> cy as int == cur.cy + 1,
                        rp.dy > 0 ==> o_y as int + cur.py == rp.q * (cur.cy + 1),
                        rp.dy < 0 ==> o_y as int - cur.py == rp.q * cur.cy,
                        cur.py <= 0x400_0000 * rp.q,
                        1 <= rp.q <= 65536,
                ;
                lemma_cell_bounds(rp, o_y as int, cy as int, py as int, rp.dy);
            }
        } else {
            cz = if d_z < 0 { cz - 1 } else { cz + 1 };
            pz = pz + scale;
            normal = if d_z < 0 { Direction::Front } else { Direction::Back };
            proof {
                assert(rp.dz != 0);
                assert({
                    &&& rp.dz > 0 ==> o_z as int + pz as int == rp.q * (cz as int + 1)
                    &&& rp.dz < 0 ==> o_z as int - pz as int == rp.q * (cz as int)
                    &&& pz <= 0x4000_0002_0000
                    &&& pz as int <= 0x400_0000 * rp.q + rp.q
                }) by (nonlinear_arith)
                    requires
                        rp.dz != 0,
                        pz as int == cur.pz + rp.q,
                        rp.dz < 0 ==> cz as int == cur.cz - 1,
                        rp.dz > 0 ==> cz as int == cur.cz + 1,
                        rp.dz > 0 ==> o_z as int + cur.pz == rp.q * (cur.cz + 1),
                        rp.dz < 0 ==> o_z as int - cur.pz == rp.q * cur.cz,
                        cur.pz <= 0x400_0000 * rp.q,
                        1 <= rp.q <= 65536,
                ;
                lemma_cell_bounds(rp, o_z as int, cz as int, pz as int, rp.dz);
            }
        }
        let ghost nxt = RayState {
            cx: cx as int,
            cy: cy as int,
            cz: cz as int,
            px: px as int,
            py: py as int,
            pz: pz as int,
        };
        proof {
            assert(nxt == stepped(rp, cur, axis as int));
            assert(normal == entry_normal(rp, axis as int));
            assert(spec_measure(rp, nxt) == spec_measure(rp, cur) - 1);
        }
        let (chx, lox) = floor_div(cx, 32);
        let (chy, loy) = floor_div(cy, 32);
        let (chz, loz) = floor_div(cz, 32);
        let cp = IVec3 { x: chx as i32, y: chy as i32, z: chz as i32 };
        let lo = IVec3 { x: lox as i32, y: loy as i32, z: loz as i32 };
        proof {
            vstd::arithmetic::div_mod::lemma_fundamental_div_mod_converse(
                cx as int,
                32,
                chx as int,
                lox as int,
            );
            vstd::arithmetic::div_mod::lemma_fundamental_div_mod_converse(
                cy as int,
                32,
                chy as int,
                loy as int,
            );
            vstd::arithmetic::div_mod::lemma_fundamental_div_mod_converse(
                cz as int,
                32,
                chz as int,
                loz as int,
            );
        }
        let found = store.get(cp);
        let hit_block: Block;
        let solid: bool;
        match found {
            Some(c) => {
                let b = c.block(lo);
                hit_block = b;
                solid = b.is_solid();
            },
            None => {
                hit_block = Block::Air;
                solid = false;
            },
        }
        proof {
            assert(solid == spec_solid_at(*store, nxt.cx, nxt.cy, nxt.cz));
        }
        if solid {
            let hit = RayHit {
                global_position: IVec3 { x: cx as i32, y: cy as i32, z: cz as i32 },
                chunk_pos: cp,
                local_pos: lo,
                normal,
                block: hit_block,
                distance_num: t_num,
                distance_den: t_den,
            };
            proof {
                let hs = RayHitSpec {
                    x: nxt.cx,
                    y: nxt.cy,
                    z: nxt.cz,
                    axis: axis as int,
                    t_num: t_num as int,
                    t_den: t_den as int,
                };
                assert(goal == spec_ray_walk(*store, rp, cur, (spec_measure(rp, cur) + 1) as nat));
                assert(goal == Some(hs));
                assert(plane_exact(o_x as int, o_y as int, o_z as int, rp, hs)) by (
                nonlinear_arith)
                    requires
                        hs.axis == axis as int,
                        hs.t_den == iabs(axis_d(rp, axis as int)),
                        hs.t_num == axis_p(cur, axis as int),
                        axis_d(rp, hs.axis) != 0,
                        hs.x == nxt.cx && hs.y == nxt.cy && hs.z == nxt.cz,
                        nxt == stepped(rp, cur, axis as int),
                        rp.dx > 0 ==> axis_o(o_x as int, o_y as int, o_z as int, 0) + cur.px
                            == rp.q * (cur.cx + 1),
                        rp.dx < 0 ==> axis_o(o_x as int, o_y as int, o_z as int, 0) - cur.px
                            == rp.q * cur.cx,
                        rp.dy > 0 ==> axis_o(o_x as int, o_y as int, o_z as int, 1) + cur.py
                            == rp.q * (cur.cy + 1),
                        rp.dy < 0 ==> axis_o(o_x as int, o_y as int, o_z as int, 1) - cur.py
                            == rp.q * cur.cy,
                        rp.dz > 0 ==> axis_o(o_x as int, o_y as int, o_z as int, 2) + cur.pz
                            == rp.q * (cur.cz + 1),
                        rp.dz < 0 ==> axis_o(o_x as int, o_y as int, o_z as int, 2) - cur.pz
                            == rp.q * cur.cz,
                ;
                assert(hit.global_position.x + hit.normal.spec_normal().x == cur.cx);
                assert(hit.global_position.y + hit.normal.spec_normal().y == cur.cy);
                assert(hit.global_position.z + hit.normal.spec_normal().z == cur.cz);
                assert(prev_cell_clear(*store, o_x as int, o_y as int, o_z as int, rp, hit));
                assert(hit_matches(*store, o_x as int, o_y as int, o_z as int, rp, hit, hs));
            }
            return Some(hit);
        }
        proof {
            lemma_measure_nonneg(rp, nxt);
            assert(goal == spec_ray_walk(*store, rp, nxt, (spec_measure(rp, nxt) + 1) as nat));
        }
    }
}

/// Each axis owes a non-negative number of crossings.
proof fn lemma_measure_nonneg(rp: RayParams, s: RayState)
    requires
        rp.q >= 1,
        rp.lim_den >= 1,
    ensures
        axis_measure(rp, s.px, rp.dx) >= 0,
        axis_measure(rp, s.py, rp.dy) >= 0,
        axis_measure(rp, s.pz, rp.dz) >= 0,
        spec_measure(rp, s) >= 0,
{
    lemma_axis_measure_nonneg(rp, s.px, rp.dx);
    lemma_axis_measure_nonneg(rp, s.py, rp.dy);
    lemma_axis_measure_nonneg(rp, s.pz, rp.dz);
}

proof fn lemma_axis_measure_nonneg(rp: RayParams, p: int, d: int)
    requires
        rp.q >= 1,
        rp.lim_den >= 1,
    ensures
        axis_measure(rp, p, d) >= 0,
{
    if !(d == 0 || p * rp.lim_den > rp.lim_num * iabs(d)) {
        let x = rp.lim_num * iabs(d) - p * rp.lim_den;
        let dd = rp.q * rp.lim_den;
        assert(x >= 0);
        assert(dd >= 1) by (nonlinear_arith)
            requires
                dd == rp.q * rp.lim_den,
                rp.q >= 1,
                rp.lim_den >= 1,
        ;
        vstd::arithmetic::div_mod::lemma_div_pos_is_pos(x, dd);
    }
}

/// After a step whose crossing numerator stayed small, the plane relation
/// keeps the cell coordinate small too.
proof fn lemma_cell_bounds(rp: RayParams, o: int, c: int, p: int, d: int)
    requires
        1 <= rp.q <= 65536,
        -rp.q * 0x20_0000 <= o <= rp.q * 0x20_0000,
        0 <= p <= 0x4000_0002_0000,
        d > 0 ==> o + p == rp.q * (c + 1),
        d < 0 ==> o - p == rp.q * c,
        d == 0 ==> -0x800_0000 <= c <= 0x800_0000,
        -64 * rp.q <= d <= 64 * rp.q,
        d != 0 ==> p <= 0x4000_0002_0000 && p <= 0x400_0000 * rp.q + rp.q,
    ensures
        -0x800_0000 <= c <= 0x800_0000,
{
    if d > 0 {
        assert(-0x800_0000 <= c <= 0x800_0000) by (nonlinear_arith)
            requires
                o + p == rp.q * (c + 1),
                -rp.q * 0x20_0000 <= o <= rp.q * 0x20_0000,
                0 <= p <= 0x400_0000 * rp.q + rp.q,
                rp.q >= 1,
        ;
    } else if d < 0 {
        assert(-0x800_0000 <= c <= 0x800_0000) by (nonlinear_arith)
            requires
                o - p == rp.q * c,
                -rp.q * 0x20_0000 <= o <= rp.q * 0x20_0000,
                0 <= p <= 0x400_0000 * rp.q + rp.q,
                rp.q >= 1,
        ;
    }
}

} // verus!
