//! Pure collision math on axis-aligned boxes: overlap tests, penetration
//! manifolds and ray/box intersection. Boxes are given by a center position
//! and half-extents.

use vstd::prelude::*;
use crate::fp::{iabs, fp_div_sat_val, FP, Vec2, ARITH_MAX};

verus! {

/// An axis-aligned box shape, described by its half-extents.
#[derive(Clone, Copy, PartialEq, Eq, Structural, Debug)]
pub struct AABB {
    pub half_exts: Vec2,
}

/// Minimum-translation data separating two overlapping boxes: a unit axis
/// normal pointing from the second box toward the first, and the penetration
/// depth along that axis.
#[derive(Clone, Copy, PartialEq, Eq, Structural, Debug)]
pub struct ContactManifold {
    pub normal: Vec2,
    pub depth: FP,
}

/// A ray: an origin point and a direction (not necessarily unit length).
#[derive(Clone, Copy, PartialEq, Eq, Structural, Debug)]
pub struct Ray {
    pub origin: Vec2,
    pub dir: Vec2,
}

/// Result of a ray/box intersection: the entry distance along the ray (in
/// units of the direction's length) and the outward normal of the face hit.
#[derive(Clone, Copy, PartialEq, Eq, Structural, Debug)]
pub struct Raycast {
    pub distance: FP,
    pub normal: Vec2,
}

/// Two boxes overlap (boundary included) after shrinking the first box's
/// half-extents by `shrink` raw units on both axes.
pub open spec fn aabb_overlap_shrunk(pos1: Vec2, he1: Vec2, pos2: Vec2, he2: Vec2, shrink: int) -> bool {
    &&& iabs(pos1.x.raw - pos2.x.raw) <= he1.x.raw - shrink + he2.x.raw
    &&& iabs(pos1.y.raw - pos2.y.raw) <= he1.y.raw - shrink + he2.y.raw
}

/// Two boxes overlap, boundary included: on both axes the distance of the
/// centers is at most the sum of the half-extents.
pub open spec fn aabb_overlap(pos1: Vec2, he1: Vec2, pos2: Vec2, he2: Vec2) -> bool {
    aabb_overlap_shrunk(pos1, he1, pos2, he2, 0)
}

/// The minimum-translation contact of two overlapping boxes: the axis with
/// the smaller overlap separates; the normal's sign points from the second
/// box's center toward the first's. `None` when the boxes do not overlap.
pub open spec fn manifold_spec(pos1: Vec2, he1: Vec2, pos2: Vec2, he2: Vec2) -> Option<ContactManifold> {
    if !aabb_overlap(pos1, he1, pos2, he2) {
        None
    } else {
        let ox = he1.x.raw + he2.x.raw - iabs(pos1.x.raw - pos2.x.raw);
        let oy = he1.y.raw + he2.y.raw - iabs(pos1.y.raw - pos2.y.raw);
        if ox < oy {
            Some(ContactManifold {
                normal: Vec2 {
                    x: FP { raw: if pos1.x.raw >= pos2.x.raw { 65536i64 } else { -65536i64 } },
                    y: FP { raw: 0 },
                },
                depth: FP { raw: ox as i64 },
            })
        } else {
            Some(ContactManifold {
                normal: Vec2 {
                    x: FP { raw: 0 },
                    y: FP { raw: if pos1.y.raw >= pos2.y.raw { 65536i64 } else { -65536i64 } },
                },
                depth: FP { raw: oy as i64 },
            })
        }
    }
}

/// Boundary-inclusive overlap test of two axis-aligned boxes.
pub fn intersection_aabb_aabb(pos1: Vec2, half_exts1: Vec2, pos2: Vec2, half_exts2: Vec2) -> (r: bool)
    requires
        pos1.bounded(),
        half_exts1.bounded(),
        pos2.bounded(),
        half_exts2.bounded(),
    ensures
        r == aabb_overlap(pos1, half_exts1, pos2, half_exts2),
{
    let dx = pos1.x.raw - pos2.x.raw;
    let adx = if dx < 0 { -dx } else { dx };
    let dy = pos1.y.raw - pos2.y.raw;
    let ady = if dy < 0 { -dy } else { dy };
    adx <= half_exts1.x.raw + half_exts2.x.raw && ady <= half_exts1.y.raw + half_exts2.y.raw
}

/// Minimum-translation contact of two boxes, or `None` when they do not
/// overlap.
pub fn contact_aabb_aabb(pos1: Vec2, half_exts1: Vec2, pos2: Vec2, half_exts2: Vec2) -> (r: Option<ContactManifold>)
    requires
        pos1.bounded(),
        half_exts1.bounded(),
        pos2.bounded(),
        half_exts2.bounded(),
    ensures
        r == manifold_spec(pos1, half_exts1, pos2, half_exts2),
{
    let dx = pos1.x.raw - pos2.x.raw;
    let adx = if dx < 0 { -dx } else { dx };
    let dy = pos1.y.raw - pos2.y.raw;
    let ady = if dy < 0 { -dy } else { dy };
    let sx = half_exts1.x.raw + half_exts2.x.raw;
    let sy = half_exts1.y.raw + half_exts2.y.raw;
    if !(adx <= sx && ady <= sy) {
        return None;
    }
    let ox = sx - adx;
    let oy = sy - ady;
    if ox < oy {
        let nx: i64 = if pos1.x.raw >= pos2.x.raw { 65536i64 } else { -65536i64 };
        Some(ContactManifold {
            normal: Vec2 { x: FP { raw: nx }, y: FP { raw: 0 } },
            depth: FP { raw: ox },
        })
    } else {
        let ny: i64 = if pos1.y.raw >= pos2.y.raw { 65536i64 } else { -65536i64 };
        Some(ContactManifold {
            normal: Vec2 { x: FP { raw: 0 }, y: FP { raw: ny } },
            depth: FP { raw: oy },
        })
    }
}

/// Entry and exit distances of a ray along one axis, ordered.
pub open spec fn axis_ts(o: int, d: int, mn: int, mx: int) -> (int, int) {
    let t1 = fp_div_sat_val(mn - o, d);
    let t2 = fp_div_sat_val(mx - o, d);
    if t1 <= t2 {
        (t1, t2)
    } else {
        (t2, t1)
    }
}

/// Outward unit normal of the vertical box face a ray travelling with
/// horizontal direction `dx` enters through.
pub open spec fn x_face_normal(dx: int) -> Vec2 {
    Vec2 { x: FP { raw: if dx > 0 { -65536i64 } else { 65536i64 } }, y: FP { raw: 0 } }
}

/// Outward unit normal of the horizontal box face a ray travelling with
/// vertical direction `dy` enters through.
pub open spec fn y_face_normal(dy: int) -> Vec2 {
    Vec2 { x: FP { raw: 0 }, y: FP { raw: if dy > 0 { -65536i64 } else { 65536i64 } } }
}

/// Slab intersection of a ray and a box: the largest per-axis entry distance
/// must not exceed the smallest exit distance and must be non-negative. An
/// axis with zero direction hits only if the origin lies within that slab.
pub open spec fn ray_box_spec(r: Ray, pos: Vec2, he: Vec2) -> Option<Raycast> {
    let ox = r.origin.x.raw as int;
    let oy = r.origin.y.raw as int;
    let dx = r.dir.x.raw as int;
    let dy = r.dir.y.raw as int;
    let mnx = pos.x.raw - he.x.raw;
    let mxx = pos.x.raw + he.x.raw;
    let mny = pos.y.raw - he.y.raw;
    let mxy = pos.y.raw + he.y.raw;
    if dx == 0 && dy == 0 {
        None
    } else if dx == 0 {
        if mnx <= ox <= mxx {
            let tp = axis_ts(oy, dy, mny, mxy);
            if 0 <= tp.0 {
                Some(Raycast { distance: FP { raw: tp.0 as i64 }, normal: y_face_normal(dy) })
            } else {
                None
            }
        } else {
            None
        }
    } else if dy == 0 {
        if mny <= oy <= mxy {
            let tp = axis_ts(ox, dx, mnx, mxx);
            if 0 <= tp.0 {
                Some(Raycast { distance: FP { raw: tp.0 as i64 }, normal: x_face_normal(dx) })
            } else {
                None
            }
        } else {
            None
        }
    } else {
        let tx = axis_ts(ox, dx, mnx, mxx);
        let ty = axis_ts(oy, dy, mny, mxy);
        let tmin = if tx.0 >= ty.0 { tx.0 } else { ty.0 };
        let tmax = if tx.1 <= ty.1 { tx.1 } else { ty.1 };
        if tmin <= tmax && 0 <= tmin {
            if tx.0 >= ty.0 {
                Some(Raycast { distance: FP { raw: tmin as i64 }, normal: x_face_normal(dx) })
            } else {
                Some(Raycast { distance: FP { raw: tmin as i64 }, normal: y_face_normal(dy) })
            }
        } else {
            None
        }
    }
}

/// Ordered entry and exit distances of a ray along one axis, as raw scalars.
fn axis_ts_exec(o: i64, d: i64, mn: i64, mx: i64) -> (r: (i64, i64))
    requires
        -3 * ARITH_MAX <= mn - o <= 3 * ARITH_MAX,
        -3 * ARITH_MAX <= mx - o <= 3 * ARITH_MAX,
    ensures
        (r.0 as int, r.1 as int) == axis_ts(o as int, d as int, mn as int, mx as int),
{
    let t1 = FP { raw: mn - o }.div_sat(FP { raw: d }).raw;
    let t2 = FP { raw: mx - o }.div_sat(FP { raw: d }).raw;
    if t1 <= t2 {
        (t1, t2)
    } else {
        (t2, t1)
    }
}

/// Slab intersection test of a ray and a box.
pub fn contact_ray_aabb(ray: &Ray, pos: Vec2, half_exts: Vec2) -> (r: Option<Raycast>)
    requires
        ray.origin.bounded(),
        pos.bounded(),
        half_exts.bounded(),
    ensures
        r == ray_box_spec(*ray, pos, half_exts),
{
    let ox = ray.origin.x.raw;
    let oy = ray.origin.y.raw;
    let dx = ray.dir.x.raw;
    let dy = ray.dir.y.raw;
    let mnx = pos.x.raw - half_exts.x.raw;
    let mxx = pos.x.raw + half_exts.x.raw;
    let mny = pos.y.raw - half_exts.y.raw;
    let mxy = pos.y.raw + half_exts.y.raw;
    if dx == 0 && dy == 0 {
        None
    } else if dx == 0 {
        if mnx <= ox && ox <= mxx {
            let tp = axis_ts_exec(oy, dy, mny, mxy);
            if 0 <= tp.0 {
                Some(Raycast {
                    distance: FP { raw: tp.0 },
                    normal: Vec2 { x: FP { raw: 0 }, y: FP { raw: if dy > 0 { -65536i64 } else { 65536i64 } } },
                })
            } else {
                None
            }
        } else {
            None
        }
    } else if dy == 0 {
        if mny <= oy && oy <= mxy {
            let tp = axis_ts_exec(ox, dx, mnx, mxx);
            if 0 <= tp.0 {
                Some(Raycast {
                    distance: FP { raw: tp.0 },
                    normal: Vec2 { x: FP { raw: if dx > 0 { -65536i64 } else { 65536i64 } }, y: FP { raw: 0 } },
                })
            } else {
                None
            }
        } else {
            None
        }
    } else {
        let tx = axis_ts_exec(ox, dx, mnx, mxx);
        let ty = axis_ts_exec(oy, dy, mny, mxy);
        let tmin = if tx.0 >= ty.0 { tx.0 } else { ty.0 };
        let tmax = if tx.1 <= ty.1 { tx.1 } else { ty.1 };
        if tmin <= tmax && 0 <= tmin {
            if tx.0 >= ty.0 {
                Some(Raycast {
                    distance: FP { raw: tmin },
                    normal: Vec2 { x: FP { raw: if dx > 0 { -65536i64 } else { 65536i64 } }, y: FP { raw: 0 } },
                })
            } else {
                Some(Raycast {
                    distance: FP { raw: tmin },
                    normal: Vec2 { x: FP { raw: 0 }, y: FP { raw: if dy > 0 { -65536i64 } else { 65536i64 } } },
                })
            }
        } else {
            None
        }
    }
}

} // verus!
