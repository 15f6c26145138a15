//! The stepper and world surface: velocity integration, the axis-separated
//! movement-and-resolution sweeps, contact-graph maintenance and event
//! derivation, plus removal handling and the query helpers.

use vstd::prelude::*;
use crate::body::{body_handles_of, Body, BodyHandle, BodySet, BodyStatus};
use crate::collider::{
    collider_handles_of, colliding_spec, collision_manifold, is_colliding, is_penetrating,
    manifold_between, penetrating_spec, shifted, Collider, ColliderHandle, ColliderSet,
    ColliderState,
};
use crate::collision::{ray_box_spec, Ray, Raycast};
use crate::event::{ended_event, ended_event_spec, started_event, started_event_spec, PhysicsEvent};
use crate::fp::{fp_mul_val, imax, imin, FP, Vec2, ARITH_MAX};
use crate::graph::{
    edge_touches, graph_wf, interactions_of_spec, neighbors_spec, remove_node_spec,
    update_edge_spec, CollisionGraph, CollisionInfo, ContactEdge, Interaction,
};
use crate::store::key_list;

verus! {

/// Raw tolerance by which a box is shrunk in the prospective-move penetration
/// test: about a thousandth of a world unit, so that bodies resting exactly
/// flush do not count as penetrating.
pub const CONTACT_TOLERANCE_RAW: i64 = 66;

/// Every collider handle of the list is live, owned by the body under
/// `owner`, and listed once.
pub open spec fn owned_ok(owner: usize, list: Seq<ColliderHandle>, colliders: Map<usize, Collider>) -> bool {
    &&& forall|i: int| 0 <= i < list.len() ==> colliders.dom().contains((#[trigger] list[i]).0)
    &&& forall|i: int| 0 <= i < list.len() ==> colliders[(#[trigger] list[i]).0].owner.0 == owner
    &&& forall|i: int, j: int| 0 <= i < j < list.len() ==> list[i] != list[j]
}

/// The two stores are coherent: every collider's owner is a live body and
/// every body's owned-collider list names its own live colliders, each once.
pub open spec fn stores_wf(bodies: Map<usize, Body>, colliders: Map<usize, Collider>) -> bool {
    &&& forall|k: usize| #[trigger]
        colliders.dom().contains(k) ==> bodies.dom().contains(colliders[k].owner.0)
    &&& forall|k: usize| #[trigger]
        bodies.dom().contains(k) ==> owned_ok(k, bodies[k].colliders@, colliders)
}

/// The graph is well formed and every edge endpoint is a live collider.
pub open spec fn graph_ok(edges: Seq<ContactEdge>, colliders: Map<usize, Collider>) -> bool {
    &&& graph_wf(edges)
    &&& forall|i: int|
        0 <= i < edges.len() ==> colliders.dom().contains((#[trigger] edges[i]).a.0)
            && colliders.dom().contains(edges[i].b.0)
}

/// Two colliders may interact: their category and mask bits are mutually
/// compatible, and colliders of one body interact only if that body permits
/// self-collision. `body1` is the owner of `c1`.
pub open spec fn can_collide_spec(body1: Body, c1: Collider, c2: Collider) -> bool {
    &&& c1.category_bits & c2.mask_bits != 0
    &&& c2.category_bits & c1.mask_bits != 0
    &&& (c1.owner == c2.owner ==> body1.self_collide)
}

/// Whether two colliders may interact; `body1` owns `collider1`.
pub fn can_collide(body1: &Body, collider1: &Collider, collider2: &Collider) -> (r: bool)
    ensures
        r == can_collide_spec(*body1, *collider1, *collider2),
{
    let category_mismatch = ((collider1.category_bits & collider2.mask_bits) == 0) || ((
    collider2.category_bits & collider1.mask_bits) == 0);
    if category_mismatch {
        return false;
    }
    if collider1.owner == collider2.owner && !body1.self_collide {
        return false;
    }
    true
}

/// The body with its pending movement set to velocity times `dt`; static
/// bodies are untouched.
pub open spec fn integrate_body(b: Body, dt: FP) -> Body {
    if b.status is Kinematic {
        Body {
            movement: Vec2 {
                x: FP { raw: fp_mul_val(b.velocity.x.raw as int, dt.raw as int) as i64 },
                y: FP { raw: fp_mul_val(b.velocity.y.raw as int, dt.raw as int) as i64 },
            },
            ..b
        }
    } else {
        b
    }
}

/// All bodies after velocity integration.
pub open spec fn integrate_spec(bodies: Map<usize, Body>, dt: FP) -> Map<usize, Body> {
    bodies.map_values(|b: Body| integrate_body(b, dt))
}

/// The integration products stay within the 64-bit range.
pub open spec fn integrate_ok(bodies: Map<usize, Body>, dt: FP) -> bool {
    forall|k: usize| #[trigger] bodies.dom().contains(k) && bodies[k].status is Kinematic ==> {
        &&& i64::MIN <= fp_mul_val(bodies[k].velocity.x.raw as int, dt.raw as int) <= i64::MAX
        &&& i64::MIN <= fp_mul_val(bodies[k].velocity.y.raw as int, dt.raw as int) <= i64::MAX
    }
}

/// A position displaced by `m` raw units along the x axis.
pub open spec fn moved_x(p: Vec2, m: int) -> Vec2 {
    Vec2 { x: FP { raw: (p.x.raw + m) as i64 }, y: p.y }
}

/// A position displaced by `m` raw units along the y axis.
pub open spec fn moved_y(p: Vec2, m: int) -> Vec2 {
    Vec2 { x: p.x, y: FP { raw: (p.y.raw + m) as i64 } }
}

/// The x movement that lands the first collider exactly flush against the
/// second, approaching from below.
pub open spec fn x_target_pos(b1: Body, c1: Collider, c2: Collider, b2: Body) -> int {
    b2.position.x.raw - c1.offset.x.raw + c2.offset.x.raw - c2.shape.half_exts.x.raw
        - c1.shape.half_exts.x.raw - b1.position.x.raw
}

/// The x movement that lands the first collider exactly flush against the
/// second, approaching from above.
pub open spec fn x_target_neg(b1: Body, c1: Collider, c2: Collider, b2: Body) -> int {
    b2.position.x.raw - c1.offset.x.raw + c2.offset.x.raw + c2.shape.half_exts.x.raw
        + c1.shape.half_exts.x.raw - b1.position.x.raw
}

/// The y movement landing the first collider flush against the second from
/// below.
pub open spec fn y_target_pos(b1: Body, c1: Collider, c2: Collider, b2: Body) -> int {
    b2.position.y.raw - c1.offset.y.raw + c2.offset.y.raw - c2.shape.half_exts.y.raw
        - c1.shape.half_exts.y.raw - b1.position.y.raw
}

/// The y movement landing the first collider flush against the second from
/// above.
pub open spec fn y_target_neg(b1: Body, c1: Collider, c2: Collider, b2: Body) -> int {
    b2.position.y.raw - c1.offset.y.raw + c2.offset.y.raw + c2.shape.half_exts.y.raw
        + c1.shape.half_exts.y.raw - b1.position.y.raw
}

/// One pair's contribution to the x sweep: if moving by `m` would penetrate
/// the other collider, the movement is clamped to exact contact — shortened,
/// never reversed past it.
pub open spec fn x_pair_step(m: int, b1: Body, c1: Collider, c2: Collider, b2: Body) -> int {
    if penetrating_spec(c1, moved_x(b1.position, m), c2, b2.position, CONTACT_TOLERANCE_RAW as int) {
        if b1.velocity.x.raw > 0 {
            imin(m, x_target_pos(b1, c1, c2, b2))
        } else {
            imax(m, x_target_neg(b1, c1, c2, b2))
        }
    } else {
        m
    }
}

/// The arithmetic of one x-sweep pair test stays in range.
pub open spec fn x_pair_ok(m: int, b1: Body, c1: Collider, c2: Collider, b2: Body) -> bool {
    &&& -ARITH_MAX <= b1.position.x.raw + m <= ARITH_MAX
    &&& -ARITH_MAX <= b1.position.x.raw + m + c1.offset.x.raw <= ARITH_MAX
    &&& -ARITH_MAX <= b1.position.y.raw + c1.offset.y.raw <= ARITH_MAX
    &&& -ARITH_MAX <= b2.position.x.raw + c2.offset.x.raw <= ARITH_MAX
    &&& -ARITH_MAX <= b2.position.y.raw + c2.offset.y.raw <= ARITH_MAX
    &&& -ARITH_MAX <= b1.position.x.raw <= ARITH_MAX
    &&& -ARITH_MAX <= b2.position.x.raw <= ARITH_MAX
    &&& c1.offset.bounded()
    &&& c2.offset.bounded()
    &&& c1.shape.half_exts.bounded()
    &&& c2.shape.half_exts.bounded()
    &&& -ARITH_MAX <= c1.shape.half_exts.x.raw - CONTACT_TOLERANCE_RAW <= ARITH_MAX
    &&& -ARITH_MAX <= c1.shape.half_exts.y.raw - CONTACT_TOLERANCE_RAW <= ARITH_MAX
}

/// Whether the x sweep skips this pair outright: self-pairing, a sensor on
/// either side, or incompatible filters.
pub open spec fn x_pair_skipped(c1h: ColliderHandle, c2h: ColliderHandle, b1: Body, c1: Collider, c2: Collider) -> bool {
    ||| c2h == c1h
    ||| c2.state is Sensor
    ||| !can_collide_spec(b1, c1, c2)
}

/// The x movement after one collider of the moving body has been tested
/// against the others, scanned in the given order.
pub open spec fn x_others(
    m: int,
    c1h: ColliderHandle,
    c1: Collider,
    b1: Body,
    bodies: Map<usize, Body>,
    colliders: Map<usize, Collider>,
    cs: Seq<ColliderHandle>,
) -> int
    decreases cs.len(),
{
    if cs.len() == 0 {
        m
    } else {
        let c2h = cs[0];
        let c2 = colliders[c2h.0];
        let m2 = if x_pair_skipped(c1h, c2h, b1, c1, c2) {
            m
        } else {
            x_pair_step(m, b1, c1, c2, bodies[c2.owner.0])
        };
        x_others(m2, c1h, c1, b1, bodies, colliders, cs.drop_first())
    }
}

/// Every pair test of `x_others` stays in range.
pub open spec fn x_others_ok(
    m: int,
    c1h: ColliderHandle,
    c1: Collider,
    b1: Body,
    bodies: Map<usize, Body>,
    colliders: Map<usize, Collider>,
    cs: Seq<ColliderHandle>,
) -> bool
    decreases cs.len(),
{
    if cs.len() == 0 {
        true
    } else {
        let c2h = cs[0];
        let c2 = colliders[c2h.0];
        let skipped = x_pair_skipped(c1h, c2h, b1, c1, c2);
        let m2 = if skipped {
            m
        } else {
            x_pair_step(m, b1, c1, c2, bodies[c2.owner.0])
        };
        &&& (skipped || x_pair_ok(m, b1, c1, c2, bodies[c2.owner.0]))
        &&& x_others_ok(m2, c1h, c1, b1, bodies, colliders, cs.drop_first())
    }
}

/// The x movement of a body after all of its solid colliders have been
/// tested; sensors are skipped entirely in this pass.
pub open spec fn x_colliders(
    m: int,
    b1: Body,
    list: Seq<ColliderHandle>,
    bodies: Map<usize, Body>,
    colliders: Map<usize, Collider>,
    cs: Seq<ColliderHandle>,
) -> int
    decreases list.len(),
{
    if list.len() == 0 {
        m
    } else {
        let c1h = list[0];
        let c1 = colliders[c1h.0];
        let m2 = if c1.state is Sensor {
            m
        } else {
            x_others(m, c1h, c1, b1, bodies, colliders, cs)
        };
        x_colliders(m2, b1, list.drop_first(), bodies, colliders, cs)
    }
}

/// Every pair test of `x_colliders` stays in range.
pub open spec fn x_colliders_ok(
    m: int,
    b1: Body,
    list: Seq<ColliderHandle>,
    bodies: Map<usize, Body>,
    colliders: Map<usize, Collider>,
    cs: Seq<ColliderHandle>,
) -> bool
    decreases list.len(),
{
    if list.len() == 0 {
        true
    } else {
        let c1h = list[0];
        let c1 = colliders[c1h.0];
        let m2 = if c1.state is Sensor {
            m
        } else {
            x_others(m, c1h, c1, b1, bodies, colliders, cs)
        };
        &&& (c1.state is Sensor || x_others_ok(m, c1h, c1, b1, bodies, colliders, cs))
        &&& x_colliders_ok(m2, b1, list.drop_first(), bodies, colliders, cs)
    }
}

/// The clamped x movement of one body.
pub open spec fn x_move_of(
    bodies: Map<usize, Body>,
    colliders: Map<usize, Collider>,
    h: BodyHandle,
    cs: Seq<ColliderHandle>,
) -> int {
    let b1 = bodies[h.0];
    x_colliders(b1.movement.x.raw as int, b1, b1.colliders@, bodies, colliders, cs)
}

/// The bodies after one body's x sweep: its clamped x movement is applied to
/// its position; static bodies do not move.
pub open spec fn step_x_body(
    bodies: Map<usize, Body>,
    colliders: Map<usize, Collider>,
    h: BodyHandle,
    cs: Seq<ColliderHandle>,
) -> Map<usize, Body> {
    let b1 = bodies[h.0];
    if b1.status is Static {
        bodies
    } else {
        let m = x_move_of(bodies, colliders, h, cs);
        bodies.insert(h.0, Body { position: moved_x(b1.position, m), ..b1 })
    }
}

/// One body's x sweep stays in range.
pub open spec fn step_x_body_ok(
    bodies: Map<usize, Body>,
    colliders: Map<usize, Collider>,
    h: BodyHandle,
    cs: Seq<ColliderHandle>,
) -> bool {
    let b1 = bodies[h.0];
    b1.status is Static || {
        &&& x_colliders_ok(b1.movement.x.raw as int, b1, b1.colliders@, bodies, colliders, cs)
        &&& i64::MIN <= b1.position.x.raw + x_move_of(bodies, colliders, h, cs) <= i64::MAX
    }
}

/// The bodies after the whole x sweep, body by body in the given order; each
/// body's tests see the already-committed positions of earlier bodies.
pub open spec fn step_x_all(
    bodies: Map<usize, Body>,
    colliders: Map<usize, Collider>,
    hs: Seq<BodyHandle>,
    cs: Seq<ColliderHandle>,
) -> Map<usize, Body>
    decreases hs.len(),
{
    if hs.len() == 0 {
        bodies
    } else {
        step_x_all(step_x_body(bodies, colliders, hs[0], cs), colliders, hs.drop_first(), cs)
    }
}

/// The whole x sweep stays in range.
pub open spec fn step_x_all_ok(
    bodies: Map<usize, Body>,
    colliders: Map<usize, Collider>,
    hs: Seq<BodyHandle>,
    cs: Seq<ColliderHandle>,
) -> bool
    decreases hs.len(),
{
    if hs.len() == 0 {
        true
    } else {
        &&& step_x_body_ok(bodies, colliders, hs[0], cs)
        &&& step_x_all_ok(step_x_body(bodies, colliders, hs[0], cs), colliders, hs.drop_first(), cs)
    }
}

/// The x sweep of one body against all other colliders: computes the clamped
/// x movement of the body under `h` and applies it to the body's position.
fn step_x_one(
    bodies: &mut BodySet,
    colliders: &ColliderSet,
    h: BodyHandle,
    chandles: &Vec<ColliderHandle>,
)
    requires
        stores_wf(old(bodies)@, colliders@),
        old(bodies)@.dom().contains(h.0),
        chandles@ == collider_handles_of(colliders@),
        crate::store::is_key_list(
            chandles@.map_values(|ch: ColliderHandle| ch.0),
            colliders@.dom(),
        ),
        step_x_body_ok(old(bodies)@, colliders@, h, chandles@),
    ensures
        final(bodies)@ == step_x_body(old(bodies)@, colliders@, h, chandles@),
{
    let b1 = bodies.index(h);
    if matches!(b1.status, BodyStatus::Static) {
        return ;
    }
    let b1_position = b1.position;
    let b1_velocity = b1.velocity;
    let mut move_x = b1.movement.x.raw;
    let ghost b1s = *b1;
    let ghost bodies0 = bodies@;
    let ghost cs = chandles@;
    let tolerance = FP::from_raw(CONTACT_TOLERANCE_RAW);
    let ncol = b1.colliders.len();
    let mut i: usize = 0;
    proof {
        assert(b1s.colliders@.skip(0) =~= b1s.colliders@);
    }
    while i < ncol
        invariant
            i <= ncol,
            ncol == b1s.colliders@.len(),
            bodies@ == bodies0,
            bodies0.dom().contains(h.0),
            *b1 == b1s,
            b1s == bodies0[h.0],
            b1_position == b1s.position,
            b1_velocity == b1s.velocity,
            tolerance.raw == CONTACT_TOLERANCE_RAW,
            stores_wf(bodies0, colliders@),
            cs == chandles@,
            crate::store::is_key_list(cs.map_values(|ch: ColliderHandle| ch.0), colliders@.dom()),
            x_colliders(move_x as int, b1s, b1s.colliders@.skip(i as int), bodies0, colliders@, cs)
                == x_colliders(b1s.movement.x.raw as int, b1s, b1s.colliders@, bodies0, colliders@, cs),
            x_colliders_ok(move_x as int, b1s, b1s.colliders@.skip(i as int), bodies0, colliders@, cs),
        decreases ncol - i,
    {
        proof {
            assert(b1s.colliders@.skip(i as int).drop_first() =~= b1s.colliders@.skip(i as int + 1));
            assert(b1s.colliders@.skip(i as int)[0] == b1s.colliders@[i as int]);
            assert(owned_ok(h.0, b1s.colliders@, colliders@));
        }
        let c1h = b1.colliders[i];
        let collider1 = colliders.index(c1h);
        if !matches!(collider1.state, ColliderState::Sensor) {
            let ghost c1 = *collider1;
            let ghost m0: int = move_x as int;
            let ncs = chandles.len();
            let mut j: usize = 0;
            proof {
                assert(cs.skip(0) =~= cs);
            }
            while j < ncs
                invariant
                    j <= ncs,
                    ncs == cs.len(),
                    bodies@ == bodies0,
                    bodies0.dom().contains(h.0),
                    b1s == bodies0[h.0],
                    b1_position == b1s.position,
                    b1_velocity == b1s.velocity,
                    tolerance.raw == CONTACT_TOLERANCE_RAW,
                    stores_wf(bodies0, colliders@),
                    cs == chandles@,
                    crate::store::is_key_list(
                        cs.map_values(|ch: ColliderHandle| ch.0),
                        colliders@.dom(),
                    ),
                    colliders@.dom().contains(c1h.0),
                    c1 == colliders@[c1h.0],
                    !(c1.state is Sensor),
                    x_others(move_x as int, c1h, c1, b1s, bodies0, colliders@, cs.skip(j as int))
                        == x_others(m0, c1h, c1, b1s, bodies0, colliders@, cs),
                    x_others_ok(move_x as int, c1h, c1, b1s, bodies0, colliders@, cs.skip(j as int)),
                decreases ncs - j,
            {
                proof {
                    assert(cs.skip(j as int).drop_first() =~= cs.skip(j as int + 1));
                    assert(cs.skip(j as int)[0] == cs[j as int]);
                    assert(cs.map_values(|ch: ColliderHandle| ch.0)[j as int] == cs[j as int].0);
                }
                let c2h = chandles[j];
                let collider2 = colliders.index(c2h);
                let skip_pair = c2h.0 == c1h.0 || matches!(collider2.state, ColliderState::Sensor)
                    || !can_collide(b1, collider1, collider2);
                if !skip_pair {
                    proof {
                        assert(!x_pair_skipped(c1h, c2h, b1s, c1, colliders@[c2h.0]));
                        assert(x_pair_ok(
                            move_x as int,
                            b1s,
                            c1,
                            colliders@[c2h.0],
                            bodies0[colliders@[c2h.0].owner.0],
                        ));
                    }
                    let body2 = bodies.index(collider2.owner);
                    let moved = Vec2 { x: FP { raw: b1_position.x.raw + move_x }, y: b1_position.y };
                    if is_penetrating(collider1, moved, collider2, body2.position, tolerance) {
                        if b1_velocity.x.raw > 0 {
                            let target = body2.position.x.raw - collider1.offset.x.raw
                                + collider2.offset.x.raw - collider2.shape.half_exts.x.raw
                                - collider1.shape.half_exts.x.raw - b1_position.x.raw;
                            if target < move_x {
                                move_x = target;
                            }
                        } else {
                            let target = body2.position.x.raw - collider1.offset.x.raw
                                + collider2.offset.x.raw + collider2.shape.half_exts.x.raw
                                + collider1.shape.half_exts.x.raw - b1_position.x.raw;
                            if target > move_x {
                                move_x = target;
                            }
                        }
                    }
                }
                j += 1;
            }
            proof {
                assert(cs.skip(ncs as int) =~= Seq::<ColliderHandle>::empty());
            }
        }
        i += 1;
    }
    proof {
        assert(b1s.colliders@.skip(ncol as int) =~= Seq::<ColliderHandle>::empty());
        assert(move_x as int == x_move_of(bodies0, colliders@, h, cs));
    }
    let body1 = bodies.get_mut(h);
    body1.position = Vec2 { x: FP { raw: body1.position.x.raw + move_x }, y: body1.position.y };
}

/// One body's x sweep keeps the stores coherent and the body domain fixed.
proof fn lemma_step_x_body_wf(
    bodies: Map<usize, Body>,
    colliders: Map<usize, Collider>,
    h: BodyHandle,
    cs: Seq<ColliderHandle>,
)
    requires
        stores_wf(bodies, colliders),
        bodies.dom().contains(h.0),
    ensures
        step_x_body(bodies, colliders, h, cs).dom() == bodies.dom(),
        stores_wf(step_x_body(bodies, colliders, h, cs), colliders),
{
    let b2 = step_x_body(bodies, colliders, h, cs);
    assert(b2.dom() =~= bodies.dom());
    assert forall|k: usize| #[trigger] b2.dom().contains(k) implies owned_ok(
        k,
        b2[k].colliders@,
        colliders,
    ) by {
        assert(bodies.dom().contains(k));
        assert(b2[k].colliders@ == bodies[k].colliders@);
    }
}

/// The x-axis sweep: every non-static body's pending x movement is clamped
/// against the solid colliders it would penetrate and then applied, in body
/// order, so that later bodies see earlier bodies' committed positions.
fn step_x(
    bodies: &mut BodySet,
    colliders: &ColliderSet,
    body_handles: &Vec<BodyHandle>,
    chandles: &Vec<ColliderHandle>,
)
    requires
        stores_wf(old(bodies)@, colliders@),
        forall|i: int|
            0 <= i < body_handles@.len() ==> old(bodies)@.dom().contains(
                (#[trigger] body_handles@[i]).0,
            ),
        chandles@ == collider_handles_of(colliders@),
        crate::store::is_key_list(
            chandles@.map_values(|ch: ColliderHandle| ch.0),
            colliders@.dom(),
        ),
        step_x_all_ok(old(bodies)@, colliders@, body_handles@, chandles@),
    ensures
        final(bodies)@ == step_x_all(old(bodies)@, colliders@, body_handles@, chandles@),
{
    let ghost bodies0 = bodies@;
    let ghost hs = body_handles@;
    let ghost cs = chandles@;
    let n = body_handles.len();
    let mut i: usize = 0;
    proof {
        assert(hs.skip(0) =~= hs);
    }
    while i < n
        invariant
            i <= n,
            n == hs.len(),
            hs == body_handles@,
            cs == chandles@,
            stores_wf(bodies@, colliders@),
            bodies@.dom() == bodies0.dom(),
            forall|j: int| 0 <= j < hs.len() ==> bodies0.dom().contains((#[trigger] hs[j]).0),
            chandles@ == collider_handles_of(colliders@),
            crate::store::is_key_list(
                chandles@.map_values(|ch: ColliderHandle| ch.0),
                colliders@.dom(),
            ),
            step_x_all(bodies@, colliders@, hs.skip(i as int), cs) == step_x_all(
                bodies0,
                colliders@,
                hs,
                cs,
            ),
            step_x_all_ok(bodies@, colliders@, hs.skip(i as int), cs),
        decreases n - i,
    {
        proof {
            assert(hs.skip(i as int).drop_first() =~= hs.skip(i as int + 1));
            assert(hs.skip(i as int)[0] == hs[i as int]);
            lemma_step_x_body_wf(bodies@, colliders@, hs[i as int], cs);
        }
        let h = body_handles[i];
        step_x_one(bodies, colliders, h, chandles);
        i += 1;
    }
    proof {
        assert(hs.skip(n as int) =~= Seq::<BodyHandle>::empty());
    }
}

/// Whether the y sweep skips this pair outright: self-pairing or incompatible
/// filters. Sensors are not skipped here: their overlaps feed the graph.
pub open spec fn y_pair_skipped(c1h: ColliderHandle, c2h: ColliderHandle, b1: Body, c1: Collider, c2: Collider) -> bool {
    ||| c2h == c1h
    ||| !can_collide_spec(b1, c1, c2)
}

/// One pair's contribution to a body's y movement: only a solid/solid pair
/// clamps, to exact contact.
pub open spec fn y_pair_move(m: int, b1: Body, c1: Collider, c2: Collider, b2: Body) -> int {
    if c1.state is Solid && c2.state is Solid && penetrating_spec(
        c1,
        moved_y(b1.position, m),
        c2,
        b2.position,
        CONTACT_TOLERANCE_RAW as int,
    ) {
        if b1.velocity.y.raw > 0 {
            imin(m, y_target_pos(b1, c1, c2, b2))
        } else {
            imax(m, y_target_neg(b1, c1, c2, b2))
        }
    } else {
        m
    }
}

/// One pair's contribution to the y sweep: the movement clamp, and an edge
/// recorded for every pair whose boxes currently overlap, whatever their
/// states.
pub open spec fn y_pair_step(
    m: int,
    edges: Seq<ContactEdge>,
    b1: Body,
    c1h: ColliderHandle,
    c1: Collider,
    c2h: ColliderHandle,
    c2: Collider,
    b2: Body,
) -> (int, Seq<ContactEdge>) {
    let m2 = y_pair_move(m, b1, c1, c2, b2);
    let e2 = if colliding_spec(c1, b1.position, c2, b2.position) {
        update_edge_spec(edges, c1h, c2h)
    } else {
        edges
    };
    (m2, e2)
}

/// The arithmetic of one y-sweep pair test stays in range.
pub open spec fn y_pair_ok(m: int, b1: Body, c1: Collider, c2: Collider, b2: Body) -> bool {
    &&& -ARITH_MAX <= b1.position.x.raw + c1.offset.x.raw <= ARITH_MAX
    &&& -ARITH_MAX <= b1.position.y.raw + c1.offset.y.raw <= ARITH_MAX
    &&& -ARITH_MAX <= b2.position.x.raw + c2.offset.x.raw <= ARITH_MAX
    &&& -ARITH_MAX <= b2.position.y.raw + c2.offset.y.raw <= ARITH_MAX
    &&& -ARITH_MAX <= b1.position.y.raw <= ARITH_MAX
    &&& -ARITH_MAX <= b2.position.y.raw <= ARITH_MAX
    &&& c1.offset.bounded()
    &&& c2.offset.bounded()
    &&& c1.shape.half_exts.bounded()
    &&& c2.shape.half_exts.bounded()
    &&& (c1.state is Solid && c2.state is Solid ==> {
        &&& -ARITH_MAX <= b1.position.y.raw + m <= ARITH_MAX
        &&& -ARITH_MAX <= b1.position.y.raw + m + c1.offset.y.raw <= ARITH_MAX
        &&& -ARITH_MAX <= c1.shape.half_exts.x.raw - CONTACT_TOLERANCE_RAW <= ARITH_MAX
        &&& -ARITH_MAX <= c1.shape.half_exts.y.raw - CONTACT_TOLERANCE_RAW <= ARITH_MAX
    })
}

/// The y movement and edge set after one collider of the moving body has
/// been tested against the others, in order.
pub open spec fn y_others(
    m: int,
    edges: Seq<ContactEdge>,
    c1h: ColliderHandle,
    c1: Collider,
    b1: Body,
    bodies: Map<usize, Body>,
    colliders: Map<usize, Collider>,
    cs: Seq<ColliderHandle>,
) -> (int, Seq<ContactEdge>)
    decreases cs.len(),
{
    if cs.len() == 0 {
        (m, edges)
    } else {
        let c2h = cs[0];
        let c2 = colliders[c2h.0];
        let st = if y_pair_skipped(c1h, c2h, b1, c1, c2) {
            (m, edges)
        } else {
            y_pair_step(m, edges, b1, c1h, c1, c2h, c2, bodies[c2.owner.0])
        };
        y_others(st.0, st.1, c1h, c1, b1, bodies, colliders, cs.drop_first())
    }
}

/// Every pair test of `y_others` stays in range.
pub open spec fn y_others_ok(
    m: int,
    c1h: ColliderHandle,
    c1: Collider,
    b1: Body,
    bodies: Map<usize, Body>,
    colliders: Map<usize, Collider>,
    cs: Seq<ColliderHandle>,
) -> bool
    decreases cs.len(),
{
    if cs.len() == 0 {
        true
    } else {
        let c2h = cs[0];
        let c2 = colliders[c2h.0];
        let skipped = y_pair_skipped(c1h, c2h, b1, c1, c2);
        let m2 = if skipped {
            m
        } else {
            y_pair_move(m, b1, c1, c2, bodies[c2.owner.0])
        };
        &&& (skipped || y_pair_ok(m, b1, c1, c2, bodies[c2.owner.0]))
        &&& y_others_ok(m2, c1h, c1, b1, bodies, colliders, cs.drop_first())
    }
}

/// The y movement and edge set after all of the moving body's colliders have
/// been tested; sensors also participate, recording overlap edges.
pub open spec fn y_colliders(
    m: int,
    edges: Seq<ContactEdge>,
    b1: Body,
    list: Seq<ColliderHandle>,
    bodies: Map<usize, Body>,
    colliders: Map<usize, Collider>,
    cs: Seq<ColliderHandle>,
) -> (int, Seq<ContactEdge>)
    decreases list.len(),
{
    if list.len() == 0 {
        (m, edges)
    } else {
        let c1h = list[0];
        let c1 = colliders[c1h.0];
        let st = y_others(m, edges, c1h, c1, b1, bodies, colliders, cs);
        y_colliders(st.0, st.1, b1, list.drop_first(), bodies, colliders, cs)
    }
}

/// Every pair test of `y_colliders` stays in range.
pub open spec fn y_colliders_ok(
    m: int,
    b1: Body,
    list: Seq<ColliderHandle>,
    bodies: Map<usize, Body>,
    colliders: Map<usize, Collider>,
    cs: Seq<ColliderHandle>,
) -> bool
    decreases list.len(),
{
    if list.len() == 0 {
        true
    } else {
        let c1h = list[0];
        let c1 = colliders[c1h.0];
        let m2 = y_others_move(m, c1h, c1, b1, bodies, colliders, cs);
        &&& y_others_ok(m, c1h, c1, b1, bodies, colliders, cs)
        &&& y_colliders_ok(m2, b1, list.drop_first(), bodies, colliders, cs)
    }
}

/// The movement component of `y_others`, which does not depend on the edge
/// set.
pub open spec fn y_others_move(
    m: int,
    c1h: ColliderHandle,
    c1: Collider,
    b1: Body,
    bodies: Map<usize, Body>,
    colliders: Map<usize, Collider>,
    cs: Seq<ColliderHandle>,
) -> int
    decreases cs.len(),
{
    if cs.len() == 0 {
        m
    } else {
        let c2h = cs[0];
        let c2 = colliders[c2h.0];
        let m2 = if y_pair_skipped(c1h, c2h, b1, c1, c2) {
            m
        } else {
            y_pair_move(m, b1, c1, c2, bodies[c2.owner.0])
        };
        y_others_move(m2, c1h, c1, b1, bodies, colliders, cs.drop_first())
    }
}

/// The movement component of `y_others` agrees with the paired fold.
pub proof fn lemma_y_others_move(
    m: int,
    edges: Seq<ContactEdge>,
    c1h: ColliderHandle,
    c1: Collider,
    b1: Body,
    bodies: Map<usize, Body>,
    colliders: Map<usize, Collider>,
    cs: Seq<ColliderHandle>,
)
    ensures
        y_others(m, edges, c1h, c1, b1, bodies, colliders, cs).0 == y_others_move(
            m,
            c1h,
            c1,
            b1,
            bodies,
            colliders,
            cs,
        ),
    decreases cs.len(),
{
    if cs.len() == 0 {
    } else {
        let c2h = cs[0];
        let c2 = colliders[c2h.0];
        let st = if y_pair_skipped(c1h, c2h, b1, c1, c2) {
            (m, edges)
        } else {
            y_pair_step(m, edges, b1, c1h, c1, c2h, c2, bodies[c2.owner.0])
        };
        lemma_y_others_move(st.0, st.1, c1h, c1, b1, bodies, colliders, cs.drop_first());
    }
}

/// The bodies and edge set after one body's y sweep.
pub open spec fn step_y_body(
    bodies: Map<usize, Body>,
    edges: Seq<ContactEdge>,
    colliders: Map<usize, Collider>,
    h: BodyHandle,
    cs: Seq<ColliderHandle>,
) -> (Map<usize, Body>, Seq<ContactEdge>) {
    let b1 = bodies[h.0];
    if b1.status is Static {
        (bodies, edges)
    } else {
        let st = y_colliders(
            b1.movement.y.raw as int,
            edges,
            b1,
            b1.colliders@,
            bodies,
            colliders,
            cs,
        );
        (bodies.insert(h.0, Body { position: moved_y(b1.position, st.0), ..b1 }), st.1)
    }
}

/// One body's y sweep stays in range.
pub open spec fn step_y_body_ok(
    bodies: Map<usize, Body>,
    colliders: Map<usize, Collider>,
    h: BodyHandle,
    cs: Seq<ColliderHandle>,
) -> bool {
    let b1 = bodies[h.0];
    b1.status is Static || {
        &&& y_colliders_ok(b1.movement.y.raw as int, b1, b1.colliders@, bodies, colliders, cs)
        &&& i64::MIN <= b1.position.y.raw + y_move_of(bodies, colliders, h, cs) <= i64::MAX
    }
}

/// The clamped y movement of one body.
pub open spec fn y_move_of(
    bodies: Map<usize, Body>,
    colliders: Map<usize, Collider>,
    h: BodyHandle,
    cs: Seq<ColliderHandle>,
) -> int {
    let b1 = bodies[h.0];
    y_colliders(
        b1.movement.y.raw as int,
        Seq::empty(),
        b1,
        b1.colliders@,
        bodies,
        colliders,
        cs,
    ).0
}

/// The y movement is independent of the edge set the fold starts from.
pub proof fn lemma_y_colliders_move(
    m: int,
    edges1: Seq<ContactEdge>,
    edges2: Seq<ContactEdge>,
    b1: Body,
    list: Seq<ColliderHandle>,
    bodies: Map<usize, Body>,
    colliders: Map<usize, Collider>,
    cs: Seq<ColliderHandle>,
)
    ensures
        y_colliders(m, edges1, b1, list, bodies, colliders, cs).0 == y_colliders(
            m,
            edges2,
            b1,
            list,
            bodies,
            colliders,
            cs,
        ).0,
    decreases list.len(),
{
    if list.len() == 0 {
    } else {
        let c1h = list[0];
        let c1 = colliders[c1h.0];
        let st1 = y_others(m, edges1, c1h, c1, b1, bodies, colliders, cs);
        let st2 = y_others(m, edges2, c1h, c1, b1, bodies, colliders, cs);
        lemma_y_others_move(m, edges1, c1h, c1, b1, bodies, colliders, cs);
        lemma_y_others_move(m, edges2, c1h, c1, b1, bodies, colliders, cs);
        lemma_y_colliders_move(
            st1.0,
            st1.1,
            st2.1,
            b1,
            list.drop_first(),
            bodies,
            colliders,
            cs,
        );
    }
}

/// The bodies and edge set after the whole y sweep, body by body in order.
/// Besides clamping solid/solid movement, this pass records a graph edge for
/// every interacting pair whose boxes currently overlap.
pub open spec fn step_y_all(
    bodies: Map<usize, Body>,
    edges: Seq<ContactEdge>,
    colliders: Map<usize, Collider>,
    hs: Seq<BodyHandle>,
    cs: Seq<ColliderHandle>,
) -> (Map<usize, Body>, Seq<ContactEdge>)
    decreases hs.len(),
{
    if hs.len() == 0 {
        (bodies, edges)
    } else {
        let st = step_y_body(bodies, edges, colliders, hs[0], cs);
        step_y_all(st.0, st.1, colliders, hs.drop_first(), cs)
    }
}

/// The whole y sweep stays in range.
pub open spec fn step_y_all_ok(
    bodies: Map<usize, Body>,
    edges: Seq<ContactEdge>,
    colliders: Map<usize, Collider>,
    hs: Seq<BodyHandle>,
    cs: Seq<ColliderHandle>,
) -> bool
    decreases hs.len(),
{
    if hs.len() == 0 {
        true
    } else {
        let st = step_y_body(bodies, edges, colliders, hs[0], cs);
        &&& step_y_body_ok(bodies, colliders, hs[0], cs)
        &&& step_y_all_ok(st.0, st.1, colliders, hs.drop_first(), cs)
    }
}

/// The y sweep of one body: clamps its pending y movement against solid
/// colliders, records an edge for every overlapping interacting pair, and
/// applies the movement.
fn step_y_one(
    bodies: &mut BodySet,
    colliders: &ColliderSet,
    collision_graph: &mut CollisionGraph,
    h: BodyHandle,
    chandles: &Vec<ColliderHandle>,
)
    requires
        stores_wf(old(bodies)@, colliders@),
        old(bodies)@.dom().contains(h.0),
        chandles@ == collider_handles_of(colliders@),
        crate::store::is_key_list(
            chandles@.map_values(|ch: ColliderHandle| ch.0),
            colliders@.dom(),
        ),
        step_y_body_ok(old(bodies)@, colliders@, h, chandles@),
    ensures
        final(bodies)@ == step_y_body(
            old(bodies)@,
            old(collision_graph).edges@,
            colliders@,
            h,
            chandles@,
        ).0,
        final(collision_graph).edges@ == step_y_body(
            old(bodies)@,
            old(collision_graph).edges@,
            colliders@,
            h,
            chandles@,
        ).1,
{
    let b1 = bodies.index(h);
    if matches!(b1.status, BodyStatus::Static) {
        return ;
    }
    let b1_position = b1.position;
    let b1_velocity = b1.velocity;
    let mut move_y = b1.movement.y.raw;
    let ghost b1s = *b1;
    let ghost bodies0 = bodies@;
    let ghost edges0 = collision_graph.edges@;
    let ghost cs = chandles@;
    let ghost m_init: int = move_y as int;
    let tolerance = FP::from_raw(CONTACT_TOLERANCE_RAW);
    let ncol = b1.colliders.len();
    let mut i: usize = 0;
    proof {
        assert(b1s.colliders@.skip(0) =~= b1s.colliders@);
    }
    while i < ncol
        invariant
            i <= ncol,
            ncol == b1s.colliders@.len(),
            bodies@ == bodies0,
            bodies0.dom().contains(h.0),
            *b1 == b1s,
            b1s == bodies0[h.0],
            b1_position == b1s.position,
            b1_velocity == b1s.velocity,
            tolerance.raw == CONTACT_TOLERANCE_RAW,
            stores_wf(bodies0, colliders@),
            cs == chandles@,
            crate::store::is_key_list(cs.map_values(|ch: ColliderHandle| ch.0), colliders@.dom()),
            y_colliders(
                move_y as int,
                collision_graph.edges@,
                b1s,
                b1s.colliders@.skip(i as int),
                bodies0,
                colliders@,
                cs,
            ) == y_colliders(m_init, edges0, b1s, b1s.colliders@, bodies0, colliders@, cs),
            y_colliders_ok(move_y as int, b1s, b1s.colliders@.skip(i as int), bodies0, colliders@, cs),
        decreases ncol - i,
    {
        proof {
            assert(b1s.colliders@.skip(i as int).drop_first() =~= b1s.colliders@.skip(i as int + 1));
            assert(b1s.colliders@.skip(i as int)[0] == b1s.colliders@[i as int]);
            assert(owned_ok(h.0, b1s.colliders@, colliders@));
        }
        let c1h = b1.colliders[i];
        let collider1 = colliders.index(c1h);
        let ghost c1 = *collider1;
        let ghost m0: int = move_y as int;
        let ghost edges_c0 = collision_graph.edges@;
        let ncs = chandles.len();
        let mut j: usize = 0;
        proof {
            assert(cs.skip(0) =~= cs);
            lemma_y_others_move(m0, edges_c0, c1h, c1, b1s, bodies0, colliders@, cs);
        }
        while j < ncs
            invariant
                j <= ncs,
                ncs == cs.len(),
                bodies@ == bodies0,
                bodies0.dom().contains(h.0),
                b1s == bodies0[h.0],
                b1_position == b1s.position,
                b1_velocity == b1s.velocity,
                tolerance.raw == CONTACT_TOLERANCE_RAW,
                stores_wf(bodies0, colliders@),
                cs == chandles@,
                crate::store::is_key_list(
                    cs.map_values(|ch: ColliderHandle| ch.0),
                    colliders@.dom(),
                ),
                colliders@.dom().contains(c1h.0),
                c1 == colliders@[c1h.0],
                y_others(
                    move_y as int,
                    collision_graph.edges@,
                    c1h,
                    c1,
                    b1s,
                    bodies0,
                    colliders@,
                    cs.skip(j as int),
                ) == y_others(m0, edges_c0, c1h, c1, b1s, bodies0, colliders@, cs),
                y_others_ok(move_y as int, c1h, c1, b1s, bodies0, colliders@, cs.skip(j as int)),
            decreases ncs - j,
        {
            proof {
                assert(cs.skip(j as int).drop_first() =~= cs.skip(j as int + 1));
                assert(cs.skip(j as int)[0] == cs[j as int]);
                assert(cs.map_values(|ch: ColliderHandle| ch.0)[j as int] == cs[j as int].0);
            }
            let c2h = chandles[j];
            let collider2 = colliders.index(c2h);
            let skip_pair = c2h.0 == c1h.0 || !can_collide(b1, collider1, collider2);
            if !skip_pair {
                proof {
                    assert(!y_pair_skipped(c1h, c2h, b1s, c1, colliders@[c2h.0]));
                    assert(y_pair_ok(
                        move_y as int,
                        b1s,
                        c1,
                        colliders@[c2h.0],
                        bodies0[colliders@[c2h.0].owner.0],
                    ));
                }
                let body2 = bodies.index(collider2.owner);
                if matches!(collider1.state, ColliderState::Solid) && matches!(
                    collider2.state,
                    ColliderState::Solid,
                ) {
                    let moved = Vec2 { x: b1_position.x, y: FP { raw: b1_position.y.raw + move_y } };
                    if is_penetrating(collider1, moved, collider2, body2.position, tolerance) {
                        if b1_velocity.y.raw > 0 {
                            let target = body2.position.y.raw - collider1.offset.y.raw
                                + collider2.offset.y.raw - collider2.shape.half_exts.y.raw
                                - collider1.shape.half_exts.y.raw - b1_position.y.raw;
                            if target < move_y {
                                move_y = target;
                            }
                        } else {
                            let target = body2.position.y.raw - collider1.offset.y.raw
                                + collider2.offset.y.raw + collider2.shape.half_exts.y.raw
                                + collider1.shape.half_exts.y.raw - b1_position.y.raw;
                            if target > move_y {
                                move_y = target;
                            }
                        }
                    }
                }
                if is_colliding(collider1, b1_position, collider2, body2.position) {
                    collision_graph.update_edge(c1h, c2h);
                }
            }
            j += 1;
        }
        proof {
            assert(cs.skip(ncs as int) =~= Seq::<ColliderHandle>::empty());
        }
        i += 1;
    }
    proof {
        assert(b1s.colliders@.skip(ncol as int) =~= Seq::<ColliderHandle>::empty());
        lemma_y_colliders_move(
            m_init,
            edges0,
            Seq::empty(),
            b1s,
            b1s.colliders@,
            bodies0,
            colliders@,
            cs,
        );
        assert(move_y as int == y_move_of(bodies0, colliders@, h, cs));
    }
    let body1 = bodies.get_mut(h);
    body1.position = Vec2 { x: body1.position.x, y: FP { raw: body1.position.y.raw + move_y } };
}

/// One body's y sweep keeps the stores coherent and the body domain fixed.
proof fn lemma_step_y_body_wf(
    bodies: Map<usize, Body>,
    edges: Seq<ContactEdge>,
    colliders: Map<usize, Collider>,
    h: BodyHandle,
    cs: Seq<ColliderHandle>,
)
    requires
        stores_wf(bodies, colliders),
        bodies.dom().contains(h.0),
    ensures
        step_y_body(bodies, edges, colliders, h, cs).0.dom() == bodies.dom(),
        stores_wf(step_y_body(bodies, edges, colliders, h, cs).0, colliders),
{
    let b2 = step_y_body(bodies, edges, colliders, h, cs).0;
    assert(b2.dom() =~= bodies.dom());
    assert forall|k: usize| #[trigger] b2.dom().contains(k) implies owned_ok(
        k,
        b2[k].colliders@,
        colliders,
    ) by {
        assert(bodies.dom().contains(k));
        assert(b2[k].colliders@ == bodies[k].colliders@);
    }
}

/// The y-axis sweep over all bodies, after all x movement is committed.
fn step_y(
    bodies: &mut BodySet,
    colliders: &ColliderSet,
    collision_graph: &mut CollisionGraph,
    body_handles: &Vec<BodyHandle>,
    chandles: &Vec<ColliderHandle>,
)
    requires
        stores_wf(old(bodies)@, colliders@),
        forall|i: int|
            0 <= i < body_handles@.len() ==> old(bodies)@.dom().contains(
                (#[trigger] body_handles@[i]).0,
            ),
        chandles@ == collider_handles_of(colliders@),
        crate::store::is_key_list(
            chandles@.map_values(|ch: ColliderHandle| ch.0),
            colliders@.dom(),
        ),
        step_y_all_ok(
            old(bodies)@,
            old(collision_graph).edges@,
            colliders@,
            body_handles@,
            chandles@,
        ),
    ensures
        final(bodies)@ == step_y_all(
            old(bodies)@,
            old(collision_graph).edges@,
            colliders@,
            body_handles@,
            chandles@,
        ).0,
        final(collision_graph).edges@ == step_y_all(
            old(bodies)@,
            old(collision_graph).edges@,
            colliders@,
            body_handles@,
            chandles@,
        ).1,
{
    let ghost bodies0 = bodies@;
    let ghost edges0 = collision_graph.edges@;
    let ghost hs = body_handles@;
    let ghost cs = chandles@;
    let n = body_handles.len();
    let mut i: usize = 0;
    proof {
        assert(hs.skip(0) =~= hs);
    }
    while i < n
        invariant
            i <= n,
            n == hs.len(),
            hs == body_handles@,
            cs == chandles@,
            stores_wf(bodies@, colliders@),
            bodies@.dom() == bodies0.dom(),
            forall|j: int| 0 <= j < hs.len() ==> bodies0.dom().contains((#[trigger] hs[j]).0),
            chandles@ == collider_handles_of(colliders@),
            crate::store::is_key_list(
                chandles@.map_values(|ch: ColliderHandle| ch.0),
                colliders@.dom(),
            ),
            step_y_all(bodies@, collision_graph.edges@, colliders@, hs.skip(i as int), cs)
                == step_y_all(bodies0, edges0, colliders@, hs, cs),
            step_y_all_ok(bodies@, collision_graph.edges@, colliders@, hs.skip(i as int), cs),
        decreases n - i,
    {
        proof {
            assert(hs.skip(i as int).drop_first() =~= hs.skip(i as int + 1));
            assert(hs.skip(i as int)[0] == hs[i as int]);
            lemma_step_y_body_wf(bodies@, collision_graph.edges@, colliders@, hs[i as int], cs);
        }
        let h = body_handles[i];
        step_y_one(bodies, colliders, collision_graph, h, chandles);
        i += 1;
    }
    proof {
        assert(hs.skip(n as int) =~= Seq::<BodyHandle>::empty());
    }
}

/// Every edge endpoint names a live collider.
pub open spec fn edges_live(edges: Seq<ContactEdge>, colliders: Map<usize, Collider>) -> bool {
    forall|i: int|
        0 <= i < edges.len() ==> colliders.dom().contains((#[trigger] edges[i]).a.0)
            && colliders.dom().contains(edges[i].b.0)
}

/// The current classification of a pair: solid/solid pairs get a full
/// manifold and become a collision; any other combination is an overlap
/// exactly when the plain overlap test holds; `None` when apart.
pub open spec fn classify(c1: Collider, p1: Vec2, c2: Collider, p2: Vec2) -> Option<Interaction> {
    if c1.state is Solid && c2.state is Solid {
        match manifold_between(c1, p1, c2, p2) {
            Some(man) => Some(
                Interaction::Collision(CollisionInfo { normal: man.normal, depth: man.depth }),
            ),
            None => None,
        }
    } else if colliding_spec(c1, p1, c2, p2) {
        Some(Interaction::Overlap)
    } else {
        None
    }
}

/// The current classification of an edge's pair at the bodies' current
/// positions.
pub open spec fn edge_classify(e: ContactEdge, bodies: Map<usize, Body>, colliders: Map<usize, Collider>) -> Option<Interaction> {
    let c1 = colliders[e.a.0];
    let c2 = colliders[e.b.0];
    classify(c1, bodies[c1.owner.0].position, c2, bodies[c2.owner.0].position)
}

/// The events one edge contributes: a started event when an interaction
/// appears, an ended event when it disappears, nothing when it persists.
pub open spec fn edge_events(e: ContactEdge, bodies: Map<usize, Body>, colliders: Map<usize, Collider>) -> Seq<PhysicsEvent> {
    let c1 = colliders[e.a.0];
    let c2 = colliders[e.b.0];
    let cur = edge_classify(e, bodies, colliders);
    if cur is Some && e.interaction is None {
        seq![started_event_spec(e.a, c1, e.b, c2)]
    } else if cur is None && e.interaction is Some {
        seq![ended_event_spec(e.a, c1, e.b, c2)]
    } else {
        Seq::empty()
    }
}

/// The events of the describing pass, in edge order.
pub open spec fn describe_events_spec(edges: Seq<ContactEdge>, bodies: Map<usize, Body>, colliders: Map<usize, Collider>) -> Seq<PhysicsEvent>
    decreases edges.len(),
{
    if edges.len() == 0 {
        Seq::empty()
    } else {
        edge_events(edges[0], bodies, colliders) + describe_events_spec(
            edges.drop_first(),
            bodies,
            colliders,
        )
    }
}

/// The edge set after the describing pass: every edge's cached interaction is
/// replaced by the current classification, and edges whose pair no longer
/// interacts are removed.
pub open spec fn describe_edges_spec(edges: Seq<ContactEdge>, bodies: Map<usize, Body>, colliders: Map<usize, Collider>) -> Seq<ContactEdge>
    decreases edges.len(),
{
    if edges.len() == 0 {
        Seq::empty()
    } else {
        let e = edges[0];
        let cur = edge_classify(e, bodies, colliders);
        let rest = describe_edges_spec(edges.drop_first(), bodies, colliders);
        if cur is Some {
            seq![ContactEdge { a: e.a, b: e.b, interaction: cur }] + rest
        } else {
            rest
        }
    }
}

/// The placements a describing pass reads stay within the range the
/// arithmetic assumes.
pub open spec fn edge_args_ok(e: ContactEdge, bodies: Map<usize, Body>, colliders: Map<usize, Collider>) -> bool {
    let c1 = colliders[e.a.0];
    let c2 = colliders[e.b.0];
    &&& c1.placed_ok(bodies[c1.owner.0].position)
    &&& c2.placed_ok(bodies[c2.owner.0].position)
}

/// Every edge's placements stay in range.
pub open spec fn describe_args_ok(edges: Seq<ContactEdge>, bodies: Map<usize, Body>, colliders: Map<usize, Collider>) -> bool {
    forall|i: int| 0 <= i < edges.len() ==> edge_args_ok(#[trigger] edges[i], bodies, colliders)
}

/// The describing pass: recomputes every edge's classification from the
/// committed positions, emits started and ended events for transitions,
/// updates the cached classifications and drops edges without interaction.
fn describe_collisions(
    bodies: &BodySet,
    colliders: &ColliderSet,
    collision_graph: &mut CollisionGraph,
    events: &mut Vec<PhysicsEvent>,
)
    requires
        stores_wf(bodies@, colliders@),
        edges_live(old(collision_graph).edges@, colliders@),
        describe_args_ok(old(collision_graph).edges@, bodies@, colliders@),
    ensures
        final(collision_graph).edges@ == describe_edges_spec(
            old(collision_graph).edges@,
            bodies@,
            colliders@,
        ),
        final(events)@ == old(events)@ + describe_events_spec(
            old(collision_graph).edges@,
            bodies@,
            colliders@,
        ),
{
    let ghost edges0 = collision_graph.edges@;
    let ghost ev0 = events@;
    let n = collision_graph.edges.len();
    let mut new_edges: Vec<ContactEdge> = Vec::new();
    let mut i: usize = 0;
    proof {
        assert(edges0.skip(0) =~= edges0);
        assert(ev0 + describe_events_spec(edges0, bodies@, colliders@) =~= events@
            + describe_events_spec(edges0.skip(0), bodies@, colliders@));
        assert(describe_edges_spec(edges0, bodies@, colliders@) =~= new_edges@
            + describe_edges_spec(edges0.skip(0), bodies@, colliders@));
    }
    while i < n
        invariant
            i <= n,
            n == edges0.len(),
            edges0 == collision_graph.edges@,
            stores_wf(bodies@, colliders@),
            edges_live(edges0, colliders@),
            describe_args_ok(edges0, bodies@, colliders@),
            describe_edges_spec(edges0, bodies@, colliders@) == new_edges@ + describe_edges_spec(
                edges0.skip(i as int),
                bodies@,
                colliders@,
            ),
            ev0 + describe_events_spec(edges0, bodies@, colliders@) == events@
                + describe_events_spec(edges0.skip(i as int), bodies@, colliders@),
        decreases n - i,
    {
        proof {
            assert(edges0.skip(i as int).drop_first() =~= edges0.skip(i as int + 1));
            assert(edges0.skip(i as int)[0] == edges0[i as int]);
            assert(edge_args_ok(edges0[i as int], bodies@, colliders@));
        }
        let e = collision_graph.edges[i];
        let collider1 = colliders.index(e.a);
        let collider2 = colliders.index(e.b);
        let position1 = bodies.index(collider1.owner).position;
        let position2 = bodies.index(collider2.owner).position;
        let current: Option<Interaction> = if matches!(collider1.state, ColliderState::Solid)
            && matches!(collider2.state, ColliderState::Solid) {
            match collision_manifold(collider1, position1, collider2, position2) {
                Some(man) => Some(
                    Interaction::Collision(CollisionInfo { normal: man.normal, depth: man.depth }),
                ),
                None => None,
            }
        } else if is_colliding(collider1, position1, collider2, position2) {
            Some(Interaction::Overlap)
        } else {
            None
        };
        if current.is_some() && e.interaction.is_none() {
            events.push(started_event(e.a, collider1, e.b, collider2));
        }
        if current.is_none() && e.interaction.is_some() {
            events.push(ended_event(e.a, collider1, e.b, collider2));
        }
        if current.is_some() {
            new_edges.push(ContactEdge { a: e.a, b: e.b, interaction: current });
        }
        proof {
            assert(describe_edges_spec(edges0, bodies@, colliders@) =~= new_edges@
                + describe_edges_spec(edges0.skip(i as int + 1), bodies@, colliders@));
            assert(ev0 + describe_events_spec(edges0, bodies@, colliders@) =~= events@
                + describe_events_spec(edges0.skip(i as int + 1), bodies@, colliders@));
        }
        i += 1;
    }
    proof {
        assert(edges0.skip(n as int) =~= Seq::<ContactEdge>::empty());
        assert(describe_edges_spec(edges0, bodies@, colliders@) =~= new_edges@);
        assert(events@ =~= ev0 + describe_events_spec(edges0, bodies@, colliders@));
    }
    collision_graph.edges = new_edges;
}

/// Integration preserves the body domain and store coherence.
pub proof fn lemma_integrate_wf(bodies: Map<usize, Body>, colliders: Map<usize, Collider>, dt: FP)
    requires
        stores_wf(bodies, colliders),
    ensures
        integrate_spec(bodies, dt).dom() == bodies.dom(),
        stores_wf(integrate_spec(bodies, dt), colliders),
{
    let b2 = integrate_spec(bodies, dt);
    assert(b2.dom() =~= bodies.dom());
    assert forall|k: usize| #[trigger] b2.dom().contains(k) implies owned_ok(
        k,
        b2[k].colliders@,
        colliders,
    ) by {
        assert(bodies.dom().contains(k));
        assert(b2[k] == integrate_body(bodies[k], dt));
        assert(b2[k].colliders@ == bodies[k].colliders@);
    }
}

/// The whole x sweep preserves the body domain and store coherence.
proof fn lemma_step_x_all_wf(
    bodies: Map<usize, Body>,
    colliders: Map<usize, Collider>,
    hs: Seq<BodyHandle>,
    cs: Seq<ColliderHandle>,
)
    requires
        stores_wf(bodies, colliders),
        forall|i: int| 0 <= i < hs.len() ==> bodies.dom().contains((#[trigger] hs[i]).0),
    ensures
        step_x_all(bodies, colliders, hs, cs).dom() == bodies.dom(),
        stores_wf(step_x_all(bodies, colliders, hs, cs), colliders),
    decreases hs.len(),
{
    if hs.len() > 0 {
        lemma_step_x_body_wf(bodies, colliders, hs[0], cs);
        let b2 = step_x_body(bodies, colliders, hs[0], cs);
        assert(forall|i: int|
            0 <= i < hs.drop_first().len() ==> b2.dom().contains(
                (#[trigger] hs.drop_first()[i]).0,
            ));
        lemma_step_x_all_wf(b2, colliders, hs.drop_first(), cs);
    }
}

/// The whole y sweep preserves the body domain and store coherence.
proof fn lemma_step_y_all_wf(
    bodies: Map<usize, Body>,
    edges: Seq<ContactEdge>,
    colliders: Map<usize, Collider>,
    hs: Seq<BodyHandle>,
    cs: Seq<ColliderHandle>,
)
    requires
        stores_wf(bodies, colliders),
        forall|i: int| 0 <= i < hs.len() ==> bodies.dom().contains((#[trigger] hs[i]).0),
    ensures
        step_y_all(bodies, edges, colliders, hs, cs).0.dom() == bodies.dom(),
        stores_wf(step_y_all(bodies, edges, colliders, hs, cs).0, colliders),
    decreases hs.len(),
{
    if hs.len() > 0 {
        lemma_step_y_body_wf(bodies, edges, colliders, hs[0], cs);
        let st = step_y_body(bodies, edges, colliders, hs[0], cs);
        assert(forall|i: int|
            0 <= i < hs.drop_first().len() ==> st.0.dom().contains(
                (#[trigger] hs.drop_first()[i]).0,
            ));
        lemma_step_y_all_wf(st.0, st.1, colliders, hs.drop_first(), cs);
    }
}

/// Recording an edge between live colliders keeps all endpoints live.
proof fn lemma_update_edge_live(
    edges: Seq<ContactEdge>,
    colliders: Map<usize, Collider>,
    h1: ColliderHandle,
    h2: ColliderHandle,
)
    requires
        edges_live(edges, colliders),
        colliders.dom().contains(h1.0),
        colliders.dom().contains(h2.0),
    ensures
        edges_live(update_edge_spec(edges, h1, h2), colliders),
{
}

/// The y sweep of one collider records only edges between live colliders.
proof fn lemma_y_others_live(
    m: int,
    edges: Seq<ContactEdge>,
    c1h: ColliderHandle,
    c1: Collider,
    b1: Body,
    bodies: Map<usize, Body>,
    colliders: Map<usize, Collider>,
    cs: Seq<ColliderHandle>,
)
    requires
        edges_live(edges, colliders),
        colliders.dom().contains(c1h.0),
        forall|i: int| 0 <= i < cs.len() ==> colliders.dom().contains((#[trigger] cs[i]).0),
    ensures
        edges_live(y_others(m, edges, c1h, c1, b1, bodies, colliders, cs).1, colliders),
    decreases cs.len(),
{
    if cs.len() > 0 {
        let c2h = cs[0];
        let c2 = colliders[c2h.0];
        let st = if y_pair_skipped(c1h, c2h, b1, c1, c2) {
            (m, edges)
        } else {
            y_pair_step(m, edges, b1, c1h, c1, c2h, c2, bodies[c2.owner.0])
        };
        lemma_update_edge_live(edges, colliders, c1h, c2h);
        lemma_y_others_live(st.0, st.1, c1h, c1, b1, bodies, colliders, cs.drop_first());
    }
}

/// The y sweep of one body records only edges between live colliders.
proof fn lemma_y_colliders_live(
    m: int,
    edges: Seq<ContactEdge>,
    b1: Body,
    list: Seq<ColliderHandle>,
    bodies: Map<usize, Body>,
    colliders: Map<usize, Collider>,
    cs: Seq<ColliderHandle>,
)
    requires
        edges_live(edges, colliders),
        forall|i: int| 0 <= i < list.len() ==> colliders.dom().contains((#[trigger] list[i]).0),
        forall|i: int| 0 <= i < cs.len() ==> colliders.dom().contains((#[trigger] cs[i]).0),
    ensures
        edges_live(y_colliders(m, edges, b1, list, bodies, colliders, cs).1, colliders),
    decreases list.len(),
{
    if list.len() > 0 {
        let c1h = list[0];
        let c1 = colliders[c1h.0];
        let st = y_others(m, edges, c1h, c1, b1, bodies, colliders, cs);
        lemma_y_others_live(m, edges, c1h, c1, b1, bodies, colliders, cs);
        lemma_y_colliders_live(st.0, st.1, b1, list.drop_first(), bodies, colliders, cs);
    }
}

/// The whole y sweep records only edges between live colliders.
proof fn lemma_step_y_all_live(
    bodies: Map<usize, Body>,
    edges: Seq<ContactEdge>,
    colliders: Map<usize, Collider>,
    hs: Seq<BodyHandle>,
    cs: Seq<ColliderHandle>,
)
    requires
        stores_wf(bodies, colliders),
        edges_live(edges, colliders),
        forall|i: int| 0 <= i < hs.len() ==> bodies.dom().contains((#[trigger] hs[i]).0),
        forall|i: int| 0 <= i < cs.len() ==> colliders.dom().contains((#[trigger] cs[i]).0),
    ensures
        edges_live(step_y_all(bodies, edges, colliders, hs, cs).1, colliders),
    decreases hs.len(),
{
    if hs.len() > 0 {
        let h = hs[0];
        let st = step_y_body(bodies, edges, colliders, h, cs);
        if bodies.dom().contains(h.0) && !(bodies[h.0].status is Static) {
            let b1 = bodies[h.0];
            assert(owned_ok(h.0, b1.colliders@, colliders));
            lemma_y_colliders_live(
                b1.movement.y.raw as int,
                edges,
                b1,
                b1.colliders@,
                bodies,
                colliders,
                cs,
            );
        }
        lemma_step_y_body_wf(bodies, edges, colliders, h, cs);
        assert(forall|i: int|
            0 <= i < hs.drop_first().len() ==> st.0.dom().contains(
                (#[trigger] hs.drop_first()[i]).0,
            ));
        lemma_step_y_all_live(st.0, st.1, colliders, hs.drop_first(), cs);
    }
}

/// Recording a contact between two distinct colliders keeps the graph well
/// formed.
proof fn lemma_update_edge_wf(edges: Seq<ContactEdge>, h1: ColliderHandle, h2: ColliderHandle)
    requires
        graph_wf(edges),
        h1 != h2,
    ensures
        graph_wf(update_edge_spec(edges, h1, h2)),
{
    if !crate::graph::has_edge(edges, h1, h2) {
        let res = edges.push(ContactEdge { a: h1, b: h2, interaction: None });
        assert forall|i: int, j: int|
            0 <= i < j < res.len() implies !crate::graph::edge_connects(
            #[trigger] res[j],
            (#[trigger] res[i]).a,
            res[i].b,
        ) by {
            if j == res.len() - 1 {
                assert(res[i] == edges[i]);
                if crate::graph::edge_connects(res[j], edges[i].a, edges[i].b) {
                    assert(crate::graph::edge_connects(edges[i], h1, h2));
                }
            } else {
                assert(res[i] == edges[i] && res[j] == edges[j]);
            }
        }
    }
}

/// The y sweep of one collider keeps the graph well formed.
proof fn lemma_y_others_wf(
    m: int,
    edges: Seq<ContactEdge>,
    c1h: ColliderHandle,
    c1: Collider,
    b1: Body,
    bodies: Map<usize, Body>,
    colliders: Map<usize, Collider>,
    cs: Seq<ColliderHandle>,
)
    requires
        graph_wf(edges),
    ensures
        graph_wf(y_others(m, edges, c1h, c1, b1, bodies, colliders, cs).1),
    decreases cs.len(),
{
    if cs.len() > 0 {
        let c2h = cs[0];
        let c2 = colliders[c2h.0];
        let st = if y_pair_skipped(c1h, c2h, b1, c1, c2) {
            (m, edges)
        } else {
            y_pair_step(m, edges, b1, c1h, c1, c2h, c2, bodies[c2.owner.0])
        };
        if !y_pair_skipped(c1h, c2h, b1, c1, c2) {
            lemma_update_edge_wf(edges, c1h, c2h);
        }
        lemma_y_others_wf(st.0, st.1, c1h, c1, b1, bodies, colliders, cs.drop_first());
    }
}

/// The y sweep of one body keeps the graph well formed.
proof fn lemma_y_colliders_wf(
    m: int,
    edges: Seq<ContactEdge>,
    b1: Body,
    list: Seq<ColliderHandle>,
    bodies: Map<usize, Body>,
    colliders: Map<usize, Collider>,
    cs: Seq<ColliderHandle>,
)
    requires
        graph_wf(edges),
    ensures
        graph_wf(y_colliders(m, edges, b1, list, bodies, colliders, cs).1),
    decreases list.len(),
{
    if list.len() > 0 {
        let c1h = list[0];
        let c1 = colliders[c1h.0];
        let st = y_others(m, edges, c1h, c1, b1, bodies, colliders, cs);
        lemma_y_others_wf(m, edges, c1h, c1, b1, bodies, colliders, cs);
        lemma_y_colliders_wf(st.0, st.1, b1, list.drop_first(), bodies, colliders, cs);
    }
}

/// The whole y sweep keeps the graph well formed.
proof fn lemma_step_y_all_wf2(
    bodies: Map<usize, Body>,
    edges: Seq<ContactEdge>,
    colliders: Map<usize, Collider>,
    hs: Seq<BodyHandle>,
    cs: Seq<ColliderHandle>,
)
    requires
        graph_wf(edges),
    ensures
        graph_wf(step_y_all(bodies, edges, colliders, hs, cs).1),
    decreases hs.len(),
{
    if hs.len() > 0 {
        let h = hs[0];
        let st = step_y_body(bodies, edges, colliders, h, cs);
        let b1 = bodies[h.0];
        if !(b1.status is Static) {
            lemma_y_colliders_wf(
                b1.movement.y.raw as int,
                edges,
                b1,
                b1.colliders@,
                bodies,
                colliders,
                cs,
            );
        }
        lemma_step_y_all_wf2(st.0, st.1, colliders, hs.drop_first(), cs);
    }
}

/// Every edge left by a describing pass has the endpoints of an edge of the
/// original list.
proof fn lemma_describe_mem(edges: Seq<ContactEdge>, bodies: Map<usize, Body>, colliders: Map<usize, Collider>)
    ensures
        forall|j: int|
            0 <= j < describe_edges_spec(edges, bodies, colliders).len() ==> exists|i: int|
                0 <= i < edges.len() && (#[trigger] describe_edges_spec(edges, bodies, colliders)[j]).a
                    == edges[i].a && describe_edges_spec(edges, bodies, colliders)[j].b
                    == edges[i].b,
    decreases edges.len(),
{
    if edges.len() > 0 {
        lemma_describe_mem(edges.drop_first(), bodies, colliders);
        let res = describe_edges_spec(edges, bodies, colliders);
        let rest = describe_edges_spec(edges.drop_first(), bodies, colliders);
        let cur = edge_classify(edges[0], bodies, colliders);
        assert forall|j: int| 0 <= j < res.len() implies exists|i: int|
            0 <= i < edges.len() && (#[trigger] res[j]).a == edges[i].a && res[j].b
                == edges[i].b by {
            if cur is Some && j == 0 {
                assert(res[0].a == edges[0].a && res[0].b == edges[0].b);
            } else {
                let j2 = if cur is Some {
                    j - 1
                } else {
                    j
                };
                assert(res[j] == rest[j2]);
                let i = choose|i: int|
                    0 <= i < edges.drop_first().len() && (#[trigger] rest[j2]).a
                        == edges.drop_first()[i].a && rest[j2].b == edges.drop_first()[i].b;
                assert(res[j].a == edges[i + 1].a && res[j].b == edges[i + 1].b);
            }
        }
    }
}

/// The describing pass keeps the graph well formed.
proof fn lemma_describe_wf(edges: Seq<ContactEdge>, bodies: Map<usize, Body>, colliders: Map<usize, Collider>)
    requires
        graph_wf(edges),
    ensures
        graph_wf(describe_edges_spec(edges, bodies, colliders)),
    decreases edges.len(),
{
    if edges.len() > 0 {
        assert(graph_wf(edges.drop_first())) by {
            assert(forall|i: int|
                0 <= i < edges.drop_first().len() ==> #[trigger] edges.drop_first()[i] == edges[i
                    + 1]);
        }
        lemma_describe_wf(edges.drop_first(), bodies, colliders);
        lemma_describe_mem(edges.drop_first(), bodies, colliders);
        let res = describe_edges_spec(edges, bodies, colliders);
        let rest = describe_edges_spec(edges.drop_first(), bodies, colliders);
        let cur = edge_classify(edges[0], bodies, colliders);
        if cur is Some {
            let e0 = ContactEdge { a: edges[0].a, b: edges[0].b, interaction: cur };
            assert(res == seq![e0] + rest);
            assert forall|i: int, j: int|
                0 <= i < j < res.len() implies !crate::graph::edge_connects(
                #[trigger] res[j],
                (#[trigger] res[i]).a,
                res[i].b,
            ) by {
                if i == 0 {
                    assert(res[j] == rest[j - 1]);
                    let i2 = choose|i2: int|
                        0 <= i2 < edges.drop_first().len() && (#[trigger] rest[j - 1]).a
                            == edges.drop_first()[i2].a && rest[j - 1].b
                            == edges.drop_first()[i2].b;
                    assert(!crate::graph::edge_connects(edges[i2 + 1], edges[0].a, edges[0].b));
                } else {
                    assert(res[i] == rest[i - 1] && res[j] == rest[j - 1]);
                }
            }
        }
    }
}

/// One tick keeps the contact graph well formed: both the edges recorded by
/// the y sweep and the edge set left by the describing pass.
pub proof fn lemma_step_preserves_graph_wf(
    bodies: Map<usize, Body>,
    edges: Seq<ContactEdge>,
    colliders: Map<usize, Collider>,
    dt: FP,
)
    requires
        graph_wf(edges),
    ensures
        graph_wf(step_edges_pre_describe(bodies, edges, colliders, dt)),
        graph_wf(step_graph_spec(bodies, edges, colliders, dt)),
{
    lemma_step_y_all_wf2(
        step_bodies_mid_x(bodies, colliders, dt),
        edges,
        colliders,
        body_handles_of(bodies),
        collider_handles_of(colliders),
    );
    lemma_describe_wf(
        step_edges_pre_describe(bodies, edges, colliders, dt),
        step_bodies_spec(bodies, edges, colliders, dt),
        colliders,
    );
}

/// The bodies after the x sweep of a tick, given the stores at its start.
pub open spec fn step_bodies_mid_x(bodies: Map<usize, Body>, colliders: Map<usize, Collider>, dt: FP) -> Map<usize, Body> {
    step_x_all(
        integrate_spec(bodies, dt),
        colliders,
        body_handles_of(bodies),
        collider_handles_of(colliders),
    )
}

/// The bodies and edge set after both sweeps of a tick, before the
/// describing pass.
pub open spec fn step_state_spec(
    bodies: Map<usize, Body>,
    edges: Seq<ContactEdge>,
    colliders: Map<usize, Collider>,
    dt: FP,
) -> (Map<usize, Body>, Seq<ContactEdge>) {
    step_y_all(
        step_bodies_mid_x(bodies, colliders, dt),
        edges,
        colliders,
        body_handles_of(bodies),
        collider_handles_of(colliders),
    )
}

/// The bodies at the end of a tick.
pub open spec fn step_bodies_spec(
    bodies: Map<usize, Body>,
    edges: Seq<ContactEdge>,
    colliders: Map<usize, Collider>,
    dt: FP,
) -> Map<usize, Body> {
    step_state_spec(bodies, edges, colliders, dt).0
}

/// The edge set between the sweeps and the describing pass of a tick.
pub open spec fn step_edges_pre_describe(
    bodies: Map<usize, Body>,
    edges: Seq<ContactEdge>,
    colliders: Map<usize, Collider>,
    dt: FP,
) -> Seq<ContactEdge> {
    step_state_spec(bodies, edges, colliders, dt).1
}

/// The contact graph's edge set at the end of a tick.
pub open spec fn step_graph_spec(
    bodies: Map<usize, Body>,
    edges: Seq<ContactEdge>,
    colliders: Map<usize, Collider>,
    dt: FP,
) -> Seq<ContactEdge> {
    describe_edges_spec(
        step_edges_pre_describe(bodies, edges, colliders, dt),
        step_bodies_spec(bodies, edges, colliders, dt),
        colliders,
    )
}

/// The events a tick emits from graph transitions, in edge order.
pub open spec fn step_events_spec(
    bodies: Map<usize, Body>,
    edges: Seq<ContactEdge>,
    colliders: Map<usize, Collider>,
    dt: FP,
) -> Seq<PhysicsEvent> {
    describe_events_spec(
        step_edges_pre_describe(bodies, edges, colliders, dt),
        step_bodies_spec(bodies, edges, colliders, dt),
        colliders,
    )
}

/// What a tick demands of its inputs: coherent stores, a graph over live
/// colliders, and arithmetic that stays within the 64-bit range through
/// integration, both sweeps and the describing pass.
pub open spec fn step_req(
    bodies: Map<usize, Body>,
    edges: Seq<ContactEdge>,
    colliders: Map<usize, Collider>,
    dt: FP,
) -> bool {
    &&& stores_wf(bodies, colliders)
    &&& edges_live(edges, colliders)
    &&& integrate_ok(bodies, dt)
    &&& step_x_all_ok(
        integrate_spec(bodies, dt),
        colliders,
        body_handles_of(bodies),
        collider_handles_of(colliders),
    )
    &&& step_y_all_ok(
        step_bodies_mid_x(bodies, colliders, dt),
        edges,
        colliders,
        body_handles_of(bodies),
        collider_handles_of(colliders),
    )
    &&& describe_args_ok(
        step_edges_pre_describe(bodies, edges, colliders, dt),
        step_bodies_spec(bodies, edges, colliders, dt),
        colliders,
    )
}

/// The ended events synthesized when the collider `h`, whose value was `c`,
/// is removed: one for each neighbor, in the given order, with kinds derived
/// from the collider states.
pub open spec fn ended_events_of(
    others: Seq<ColliderHandle>,
    h: ColliderHandle,
    c: Collider,
    colliders: Map<usize, Collider>,
) -> Seq<PhysicsEvent>
    decreases others.len(),
{
    if others.len() == 0 {
        Seq::empty()
    } else {
        seq![ended_event_spec(h, c, others[0], colliders[others[0].0])] + ended_events_of(
            others.drop_first(),
            h,
            c,
            colliders,
        )
    }
}

/// The deferred events produced by removing collider `h`: an ended event for
/// every edge touching it, in edge order.
pub open spec fn removal_events_spec(
    edges: Seq<ContactEdge>,
    h: ColliderHandle,
    c: Collider,
    colliders: Map<usize, Collider>,
) -> Seq<PhysicsEvent> {
    ended_events_of(neighbors_spec(edges, h), h, c, colliders)
}

/// The list with the entry `h` swap-removed: the entry is replaced by the
/// last one and the list shortened; without `h` the list is unchanged.
pub open spec fn list_without(list: Seq<ColliderHandle>, h: ColliderHandle) -> Seq<ColliderHandle> {
    if list.contains(h) {
        let i = choose|i: int| 0 <= i < list.len() && list[i] == h;
        list.update(i, list.last()).drop_last()
    } else {
        list
    }
}

/// The two bodies agree on everything but the owned-collider list.
pub open spec fn body_fields_eq(a: Body, b: Body) -> bool {
    &&& a.position == b.position
    &&& a.velocity == b.velocity
    &&& a.movement == b.movement
    &&& a.status == b.status
    &&& a.self_collide == b.self_collide
}

/// The body store after collider `h` was detached from its owner: only the
/// owner's collider list changes, by one swap-removal.
pub open spec fn bodies_collider_detached(
    b0: Map<usize, Body>,
    b1: Map<usize, Body>,
    owner: usize,
    h: ColliderHandle,
) -> bool {
    &&& b1.dom() == b0.dom()
    &&& forall|k: usize| k != owner && b0.dom().contains(k) ==> b1[k] == #[trigger] b0[k]
    &&& b0.dom().contains(owner)
    &&& body_fields_eq(b0[owner], b1[owner])
    &&& b1[owner].colliders@ == list_without(b0[owner].colliders@, h)
}

/// The colliders, graph edges and deferred events after the colliders of the
/// list are removed one by one, in order.
pub open spec fn remove_all_spec(
    colliders: Map<usize, Collider>,
    edges: Seq<ContactEdge>,
    deferred: Seq<PhysicsEvent>,
    list: Seq<ColliderHandle>,
) -> (Map<usize, Collider>, Seq<ContactEdge>, Seq<PhysicsEvent>)
    decreases list.len(),
{
    if list.len() == 0 {
        (colliders, edges, deferred)
    } else {
        let h = list[0];
        let c = colliders[h.0];
        remove_all_spec(
            colliders.remove(h.0),
            remove_node_spec(edges, h),
            deferred + removal_events_spec(edges, h, c, colliders),
            list.drop_first(),
        )
    }
}

/// Every neighbor of `h` in a well-formed graph over live colliders is a live
/// collider other than `h`.
proof fn lemma_neighbors_live(edges: Seq<ContactEdge>, h: ColliderHandle, colliders: Map<usize, Collider>)
    requires
        graph_ok(edges, colliders),
    ensures
        forall|i: int|
            0 <= i < neighbors_spec(edges, h).len() ==> colliders.dom().contains(
                (#[trigger] neighbors_spec(edges, h)[i]).0,
            ) && neighbors_spec(edges, h)[i] != h,
    decreases edges.len(),
{
    if edges.len() > 0 {
        assert(graph_ok(edges.drop_first(), colliders)) by {
            assert(forall|i: int|
                0 <= i < edges.drop_first().len() ==> #[trigger] edges.drop_first()[i] == edges[i
                    + 1]);
        }
        lemma_neighbors_live(edges.drop_first(), h, colliders);
        let ns = neighbors_spec(edges, h);
        let rest = neighbors_spec(edges.drop_first(), h);
        assert forall|i: int| 0 <= i < ns.len() implies colliders.dom().contains(
            (#[trigger] ns[i]).0,
        ) && ns[i] != h by {
            if edges[0].a == h {
                assert(ns == seq![edges[0].b] + rest);
                if i == 0 {
                    assert(ns[i] == edges[0].b);
                    assert(edges[0].a != edges[0].b);
                } else {
                    assert(ns[i] == rest[i - 1]);
                }
            } else if edges[0].b == h {
                assert(ns == seq![edges[0].a] + rest);
                if i == 0 {
                    assert(ns[i] == edges[0].a);
                    assert(edges[0].a != edges[0].b);
                } else {
                    assert(ns[i] == rest[i - 1]);
                }
            } else {
                assert(ns[i] == rest[i]);
            }
        }
    }
}

/// Every edge left by a node removal comes from the original list and does
/// not touch the removed node.
proof fn lemma_remove_node_mem(edges: Seq<ContactEdge>, h: ColliderHandle)
    ensures
        forall|j: int|
            0 <= j < remove_node_spec(edges, h).len() ==> !edge_touches(
                #[trigger] remove_node_spec(edges, h)[j],
                h,
            ) && exists|i: int| 0 <= i < edges.len() && remove_node_spec(edges, h)[j] == edges[i],
    decreases edges.len(),
{
    if edges.len() > 0 {
        lemma_remove_node_mem(edges.drop_first(), h);
        let res = remove_node_spec(edges, h);
        let rest = remove_node_spec(edges.drop_first(), h);
        assert forall|j: int| 0 <= j < res.len() implies !edge_touches(#[trigger] res[j], h)
            && exists|i: int| 0 <= i < edges.len() && res[j] == edges[i] by {
            if edge_touches(edges[0], h) {
                assert(res[j] == rest[j]);
                let i = choose|i: int|
                    0 <= i < edges.drop_first().len() && rest[j] == edges.drop_first()[i];
                assert(res[j] == edges[i + 1]);
            } else if j == 0 {
                assert(res[j] == edges[0]);
            } else {
                assert(res[j] == rest[j - 1]);
                let i = choose|i: int|
                    0 <= i < edges.drop_first().len() && rest[j - 1] == edges.drop_first()[i];
                assert(res[j] == edges[i + 1]);
            }
        }
    }
}

/// Removing a node keeps the graph well formed over the remaining colliders.
proof fn lemma_remove_node_ok(edges: Seq<ContactEdge>, h: ColliderHandle, colliders: Map<usize, Collider>)
    requires
        graph_ok(edges, colliders),
    ensures
        graph_ok(remove_node_spec(edges, h), colliders.remove(h.0)),
    decreases edges.len(),
{
    if edges.len() > 0 {
        assert(graph_ok(edges.drop_first(), colliders)) by {
            assert(forall|i: int|
                0 <= i < edges.drop_first().len() ==> #[trigger] edges.drop_first()[i] == edges[i
                    + 1]);
        }
        lemma_remove_node_ok(edges.drop_first(), h, colliders);
        let res = remove_node_spec(edges, h);
        let rest = remove_node_spec(edges.drop_first(), h);
        lemma_remove_node_mem(edges.drop_first(), h);
        if !edge_touches(edges[0], h) {
            assert(res == seq![edges[0]] + rest);
            assert forall|i: int, j: int|
                0 <= i < j < res.len() implies !crate::graph::edge_connects(
                #[trigger] res[j],
                (#[trigger] res[i]).a,
                res[i].b,
            ) by {
                if i == 0 {
                    assert(res[j] == rest[j - 1]);
                    let i2 = choose|i2: int|
                        0 <= i2 < edges.drop_first().len() && rest[j - 1] == edges.drop_first()[i2];
                    assert(res[j] == edges[i2 + 1]);
                    assert(!crate::graph::edge_connects(edges[i2 + 1], edges[0].a, edges[0].b));
                } else {
                    assert(res[i] == rest[i - 1] && res[j] == rest[j - 1]);
                }
            }
        }
    }
}

/// Only the collisions among recorded interactions, with their contacts.
pub open spec fn collisions_filter(ps: Seq<(ColliderHandle, Interaction)>) -> Seq<(ColliderHandle, CollisionInfo)>
    decreases ps.len(),
{
    if ps.len() == 0 {
        Seq::empty()
    } else {
        let rest = collisions_filter(ps.drop_first());
        match ps[0].1 {
            Interaction::Collision(info) => seq![(ps[0].0, info)] + rest,
            Interaction::Overlap => rest,
        }
    }
}

/// Only the overlaps among recorded interactions.
pub open spec fn overlaps_filter(ps: Seq<(ColliderHandle, Interaction)>) -> Seq<(ColliderHandle, Interaction)>
    decreases ps.len(),
{
    if ps.len() == 0 {
        Seq::empty()
    } else {
        let rest = overlaps_filter(ps.drop_first());
        if ps[0].1 is Overlap {
            seq![ps[0]] + rest
        } else {
            rest
        }
    }
}

/// Every collider's placement at its owner's position stays within the range
/// the arithmetic assumes.
pub open spec fn placements_ok(bodies: Map<usize, Body>, colliders: Map<usize, Collider>) -> bool {
    forall|k: usize| #[trigger]
        colliders.dom().contains(k) ==> colliders[k].placed_ok(
            bodies[colliders[k].owner.0].position,
        )
}

/// The matching colliders of one body in an overlap query, in list order.
pub open spec fn overlap_body_spec(
    b: Body,
    list: Seq<ColliderHandle>,
    colliders: Map<usize, Collider>,
    position: Vec2,
    half_exts: Vec2,
    mask: u32,
) -> Seq<ColliderHandle>
    decreases list.len(),
{
    if list.len() == 0 {
        Seq::empty()
    } else {
        let ch = list[0];
        let c = colliders[ch.0];
        let here: Seq<ColliderHandle> = if c.category_bits & mask != 0
            && c.overlaps_aabb_spec(b.position, position, half_exts) {
            seq![ch]
        } else {
            Seq::empty()
        };
        here + overlap_body_spec(b, list.drop_first(), colliders, position, half_exts, mask)
    }
}

/// The colliders matching an overlap query, scanned body by body in store
/// order and collider by collider in each body's list order.
pub open spec fn overlap_test_spec(
    bodies: Map<usize, Body>,
    colliders: Map<usize, Collider>,
    hs: Seq<BodyHandle>,
    position: Vec2,
    half_exts: Vec2,
    mask: u32,
) -> Seq<ColliderHandle>
    decreases hs.len(),
{
    if hs.len() == 0 {
        Seq::empty()
    } else {
        let b = bodies[hs[0].0];
        overlap_body_spec(b, b.colliders@, colliders, position, half_exts, mask)
            + overlap_test_spec(bodies, colliders, hs.drop_first(), position, half_exts, mask)
    }
}

/// The ray hits among one body's colliders, in list order.
pub open spec fn ray_body_spec(
    b: Body,
    list: Seq<ColliderHandle>,
    colliders: Map<usize, Collider>,
    ray: Ray,
    mask: u32,
) -> Seq<(ColliderHandle, Raycast)>
    decreases list.len(),
{
    if list.len() == 0 {
        Seq::empty()
    } else {
        let ch = list[0];
        let c = colliders[ch.0];
        let here: Seq<(ColliderHandle, Raycast)> = if c.category_bits & mask != 0 {
            match ray_box_spec(ray, shifted(b.position, c.offset), c.shape.half_exts) {
                Some(raycast) => seq![(ch, raycast)],
                None => Seq::empty(),
            }
        } else {
            Seq::empty()
        };
        here + ray_body_spec(b, list.drop_first(), colliders, ray, mask)
    }
}

/// The ray hits of a ray query, scanned in store and list order.
pub open spec fn project_ray_spec(
    bodies: Map<usize, Body>,
    colliders: Map<usize, Collider>,
    hs: Seq<BodyHandle>,
    ray: Ray,
    mask: u32,
) -> Seq<(ColliderHandle, Raycast)>
    decreases hs.len(),
{
    if hs.len() == 0 {
        Seq::empty()
    } else {
        let b = bodies[hs[0].0];
        ray_body_spec(b, b.colliders@, colliders, ray, mask) + project_ray_spec(
            bodies,
            colliders,
            hs.drop_first(),
            ray,
            mask,
        )
    }
}

/// A key is named by one of the first `i` handles.
pub open spec fn handle_in_prefix(hs: Seq<BodyHandle>, i: int, k: usize) -> bool {
    exists|j: int| 0 <= j < i && (#[trigger] hs[j]).0 == k
}

/// The simulation instance: the persistent contact graph, the events of the
/// last completed step, and the ended events deferred by removals, which
/// surface at the start of the next step.
pub struct PhysicsWorld {
    pub collision_graph: CollisionGraph,
    pub events: Vec<PhysicsEvent>,
    pub removal_events: Vec<PhysicsEvent>,
}

impl Default for PhysicsWorld {
    fn default() -> (w: Self)
        ensures
            w.collision_graph.edges@ == Seq::<ContactEdge>::empty(),
            w.events@ == Seq::<PhysicsEvent>::empty(),
            w.removal_events@ == Seq::<PhysicsEvent>::empty(),
    {
        PhysicsWorld::new()
    }
}

impl PhysicsWorld {
    pub fn new() -> (w: PhysicsWorld)
        ensures
            w.collision_graph.edges@ == Seq::<ContactEdge>::empty(),
            w.events@ == Seq::<PhysicsEvent>::empty(),
            w.removal_events@ == Seq::<PhysicsEvent>::empty(),
    {
        PhysicsWorld {
            collision_graph: CollisionGraph::new(),
            events: Vec::new(),
            removal_events: Vec::new(),
        }
    }

    /// The events of the last completed step, in emission order.
    pub fn events(&self) -> (r: &Vec<PhysicsEvent>)
        ensures
            r@ == self.events@,
    {
        &self.events
    }

    /// The interactions recorded for a collider, each with the other
    /// participant's handle, in edge order.
    pub fn interactions_of(&self, handle: ColliderHandle) -> (r: Vec<(ColliderHandle, Interaction)>)
        ensures
            r@ == interactions_of_spec(self.collision_graph.edges@, handle),
    {
        self.collision_graph.edges_of(handle)
    }

    /// Only the collisions among a collider's interactions, with their cached
    /// contacts, in edge order.
    pub fn collisions_of(&self, handle: ColliderHandle) -> (r: Vec<(ColliderHandle, CollisionInfo)>)
        ensures
            r@ == collisions_filter(interactions_of_spec(self.collision_graph.edges@, handle)),
    {
        let pairs = self.collision_graph.edges_of(handle);
        let ghost ps = pairs@;
        let mut out: Vec<(ColliderHandle, CollisionInfo)> = Vec::new();
        let n = pairs.len();
        let mut i: usize = 0;
        proof {
            assert(ps.skip(0) =~= ps);
            assert(collisions_filter(ps) =~= out@ + collisions_filter(ps.skip(0)));
        }
        while i < n
            invariant
                i <= n,
                n == ps.len(),
                ps == pairs@,
                collisions_filter(ps) == out@ + collisions_filter(ps.skip(i as int)),
            decreases n - i,
        {
            proof {
                assert(ps.skip(i as int).drop_first() =~= ps.skip(i as int + 1));
                assert(ps.skip(i as int)[0] == ps[i as int]);
            }
            let (other, interaction) = pairs[i];
            match interaction {
                Interaction::Collision(info) => {
                    out.push((other, info));
                    proof {
                        assert(collisions_filter(ps) =~= out@ + collisions_filter(
                            ps.skip(i as int + 1),
                        ));
                    }
                },
                Interaction::Overlap => {},
            }
            i += 1;
        }
        proof {
            assert(ps.skip(n as int) =~= Seq::<(ColliderHandle, Interaction)>::empty());
            assert(collisions_filter(ps) =~= out@);
        }
        out
    }

    /// Only the overlaps among a collider's interactions, in edge order.
    pub fn overlaps_of(&self, handle: ColliderHandle) -> (r: Vec<(ColliderHandle, Interaction)>)
        ensures
            r@ == overlaps_filter(interactions_of_spec(self.collision_graph.edges@, handle)),
    {
        let pairs = self.collision_graph.edges_of(handle);
        let ghost ps = pairs@;
        let mut out: Vec<(ColliderHandle, Interaction)> = Vec::new();
        let n = pairs.len();
        let mut i: usize = 0;
        proof {
            assert(ps.skip(0) =~= ps);
            assert(overlaps_filter(ps) =~= out@ + overlaps_filter(ps.skip(0)));
        }
        while i < n
            invariant
                i <= n,
                n == ps.len(),
                ps == pairs@,
                overlaps_filter(ps) == out@ + overlaps_filter(ps.skip(i as int)),
            decreases n - i,
        {
            proof {
                assert(ps.skip(i as int).drop_first() =~= ps.skip(i as int + 1));
                assert(ps.skip(i as int)[0] == ps[i as int]);
            }
            let (other, interaction) = pairs[i];
            match interaction {
                Interaction::Overlap => {
                    out.push((other, interaction));
                    proof {
                        assert(overlaps_filter(ps) =~= out@ + overlaps_filter(
                            ps.skip(i as int + 1),
                        ));
                    }
                },
                Interaction::Collision(_) => {},
            }
            i += 1;
        }
        proof {
            assert(ps.skip(n as int) =~= Seq::<(ColliderHandle, Interaction)>::empty());
            assert(overlaps_filter(ps) =~= out@);
        }
        out
    }

    /// The handles of all colliders whose category passes `collision_mask`
    /// and whose box overlaps the box of `half_exts` centered at `position`,
    /// in store order.
    pub fn overlap_test(
        &self,
        position: Vec2,
        half_exts: Vec2,
        collision_mask: u32,
        bodies: &BodySet,
        colliders: &ColliderSet,
    ) -> (r: Vec<ColliderHandle>)
        requires
            stores_wf(bodies@, colliders@),
            placements_ok(bodies@, colliders@),
            position.bounded(),
            half_exts.bounded(),
        ensures
            r@ == overlap_test_spec(
                bodies@,
                colliders@,
                body_handles_of(bodies@),
                position,
                half_exts,
                collision_mask,
            ),
    {
        let body_handles = bodies.iter();
        let ghost hs = body_handles@;
        let mut out: Vec<ColliderHandle> = Vec::new();
        let n = body_handles.len();
        let mut i: usize = 0;
        proof {
            assert(hs.skip(0) =~= hs);
            assert(overlap_test_spec(bodies@, colliders@, hs, position, half_exts, collision_mask)
                =~= out@ + overlap_test_spec(
                bodies@,
                colliders@,
                hs.skip(0),
                position,
                half_exts,
                collision_mask,
            ));
        }
        while i < n
            invariant
                i <= n,
                n == hs.len(),
                hs == body_handles@,
                stores_wf(bodies@, colliders@),
                placements_ok(bodies@, colliders@),
                position.bounded(),
                half_exts.bounded(),
                crate::store::is_key_list(hs.map_values(|h: BodyHandle| h.0), bodies@.dom()),
                overlap_test_spec(bodies@, colliders@, hs, position, half_exts, collision_mask)
                    == out@ + overlap_test_spec(
                    bodies@,
                    colliders@,
                    hs.skip(i as int),
                    position,
                    half_exts,
                    collision_mask,
                ),
            decreases n - i,
        {
            proof {
                assert(hs.skip(i as int).drop_first() =~= hs.skip(i as int + 1));
                assert(hs.skip(i as int)[0] == hs[i as int]);
                assert(hs.map_values(|h: BodyHandle| h.0)[i as int] == hs[i as int].0);
            }
            let h = body_handles[i];
            let body = bodies.index(h);
            let ghost b = *body;
            let ghost list = body.colliders@;
            let ncol = body.colliders.len();
            let mut j: usize = 0;
            let ghost out_pre = out@;
            proof {
                assert(list.skip(0) =~= list);
                assert(owned_ok(h.0, list, colliders@));
                assert(out_pre + overlap_body_spec(b, list, colliders@, position, half_exts,
                    collision_mask,
                ) =~= out@ + overlap_body_spec(b, list.skip(0), colliders@, position, half_exts,
                    collision_mask,
                ));
            }
            while j < ncol
                invariant
                    j <= ncol,
                    ncol == list.len(),
                    list == body.colliders@,
                    b == *body,
                    stores_wf(bodies@, colliders@),
                    placements_ok(bodies@, colliders@),
                    position.bounded(),
                    half_exts.bounded(),
                    owned_ok(h.0, list, colliders@),
                    bodies@.dom().contains(h.0),
                    b == bodies@[h.0],
                    out_pre + overlap_body_spec(b, list, colliders@, position, half_exts,
                        collision_mask,
                    ) == out@ + overlap_body_spec(b, list.skip(j as int), colliders@, position,
                        half_exts, collision_mask,
                    ),
                decreases ncol - j,
            {
                proof {
                    assert(list.skip(j as int).drop_first() =~= list.skip(j as int + 1));
                    assert(list.skip(j as int)[0] == list[j as int]);
                }
                let ch = body.colliders[j];
                let collider = colliders.index(ch);
                if (collider.category_bits & collision_mask) != 0 {
                    if collider.overlaps_aabb(body.position, position, half_exts) {
                        out.push(ch);
                    }
                }
                proof {
                    assert(out_pre + overlap_body_spec(b, list, colliders@, position, half_exts,
                        collision_mask,
                    ) =~= out@ + overlap_body_spec(b, list.skip(j as int + 1), colliders@, position,
                        half_exts, collision_mask,
                    ));
                }
                j += 1;
            }
            proof {
                assert(list.skip(ncol as int) =~= Seq::<ColliderHandle>::empty());
                assert(overlap_test_spec(bodies@, colliders@, hs, position, half_exts,
                    collision_mask,
                ) =~= out@ + overlap_test_spec(bodies@, colliders@, hs.skip(i as int + 1), position,
                    half_exts, collision_mask,
                ));
            }
            i += 1;
        }
        proof {
            assert(hs.skip(n as int) =~= Seq::<BodyHandle>::empty());
            assert(overlap_test_spec(bodies@, colliders@, hs, position, half_exts, collision_mask)
                =~= out@);
        }
        out
    }

    /// The colliders whose category passes `collision_mask` and which the ray
    /// hits, each with its raycast result, in store order.
    pub fn project_ray(
        &self,
        ray: &Ray,
        collision_mask: u32,
        bodies: &BodySet,
        colliders: &ColliderSet,
    ) -> (r: Vec<(ColliderHandle, Raycast)>)
        requires
            stores_wf(bodies@, colliders@),
            placements_ok(bodies@, colliders@),
            ray.origin.bounded(),
        ensures
            r@ == project_ray_spec(
                bodies@,
                colliders@,
                body_handles_of(bodies@),
                *ray,
                collision_mask,
            ),
    {
        let body_handles = bodies.iter();
        let ghost hs = body_handles@;
        let mut out: Vec<(ColliderHandle, Raycast)> = Vec::new();
        let n = body_handles.len();
        let mut i: usize = 0;
        proof {
            assert(hs.skip(0) =~= hs);
            assert(project_ray_spec(bodies@, colliders@, hs, *ray, collision_mask) =~= out@
                + project_ray_spec(bodies@, colliders@, hs.skip(0), *ray, collision_mask));
        }
        while i < n
            invariant
                i <= n,
                n == hs.len(),
                hs == body_handles@,
                stores_wf(bodies@, colliders@),
                placements_ok(bodies@, colliders@),
                ray.origin.bounded(),
                crate::store::is_key_list(hs.map_values(|h: BodyHandle| h.0), bodies@.dom()),
                project_ray_spec(bodies@, colliders@, hs, *ray, collision_mask) == out@
                    + project_ray_spec(bodies@, colliders@, hs.skip(i as int), *ray, collision_mask),
            decreases n - i,
        {
            proof {
                assert(hs.skip(i as int).drop_first() =~= hs.skip(i as int + 1));
                assert(hs.skip(i as int)[0] == hs[i as int]);
                assert(hs.map_values(|h: BodyHandle| h.0)[i as int] == hs[i as int].0);
            }
            let h = body_handles[i];
            let body = bodies.index(h);
            let ghost b = *body;
            let ghost list = body.colliders@;
            let ncol = body.colliders.len();
            let mut j: usize = 0;
            let ghost out_pre = out@;
            proof {
                assert(list.skip(0) =~= list);
                assert(owned_ok(h.0, list, colliders@));
                assert(out_pre + ray_body_spec(b, list, colliders@, *ray, collision_mask) =~= out@
                    + ray_body_spec(b, list.skip(0), colliders@, *ray, collision_mask));
            }
            while j < ncol
                invariant
                    j <= ncol,
                    ncol == list.len(),
                    list == body.colliders@,
                    b == *body,
                    stores_wf(bodies@, colliders@),
                    placements_ok(bodies@, colliders@),
                    ray.origin.bounded(),
                    owned_ok(h.0, list, colliders@),
                    bodies@.dom().contains(h.0),
                    b == bodies@[h.0],
                    out_pre + ray_body_spec(b, list, colliders@, *ray, collision_mask) == out@
                        + ray_body_spec(b, list.skip(j as int), colliders@, *ray, collision_mask),
                decreases ncol - j,
            {
                proof {
                    assert(list.skip(j as int).drop_first() =~= list.skip(j as int + 1));
                    assert(list.skip(j as int)[0] == list[j as int]);
                }
                let ch = body.colliders[j];
                let collider = colliders.index(ch);
                if (collider.category_bits & collision_mask) != 0 {
                    match collider.ray_contact(body.position, ray) {
                        Some(raycast) => {
                            out.push((ch, raycast));
                        },
                        None => {},
                    }
                }
                proof {
                    assert(out_pre + ray_body_spec(b, list, colliders@, *ray, collision_mask)
                        =~= out@ + ray_body_spec(b, list.skip(j as int + 1), colliders@, *ray,
                        collision_mask,
                    ));
                }
                j += 1;
            }
            proof {
                assert(list.skip(ncol as int) =~= Seq::<ColliderHandle>::empty());
                assert(project_ray_spec(bodies@, colliders@, hs, *ray, collision_mask) =~= out@
                    + project_ray_spec(bodies@, colliders@, hs.skip(i as int + 1), *ray,
                    collision_mask,
                ));
            }
            i += 1;
        }
        proof {
            assert(hs.skip(n as int) =~= Seq::<BodyHandle>::empty());
            assert(project_ray_spec(bodies@, colliders@, hs, *ray, collision_mask) =~= out@);
        }
        out
    }

    /// Removes a live collider. An ended event for each of its live
    /// interactions is deferred to the next step's queue, its graph node is
    /// deleted, and it is detached from its owner's list; a missing owner is
    /// expected during cascading body removal and silently tolerated.
    pub fn remove_collider(
        &mut self,
        handle: ColliderHandle,
        bodies: &mut BodySet,
        colliders: &mut ColliderSet,
    )
        requires
            old(colliders)@.dom().contains(handle.0),
            graph_ok(old(self).collision_graph.edges@, old(colliders)@),
            old(bodies)@.dom().contains(old(colliders)@[handle.0].owner.0) ==> owned_ok(
                old(colliders)@[handle.0].owner.0,
                old(bodies)@[old(colliders)@[handle.0].owner.0].colliders@,
                old(colliders)@,
            ),
        ensures
            final(colliders)@ == old(colliders)@.remove(handle.0),
            final(self).collision_graph.edges@ == remove_node_spec(
                old(self).collision_graph.edges@,
                handle,
            ),
            final(self).removal_events@ == old(self).removal_events@ + removal_events_spec(
                old(self).collision_graph.edges@,
                handle,
                old(colliders)@[handle.0],
                old(colliders)@,
            ),
            final(self).events@ == old(self).events@,
            !old(bodies)@.dom().contains(old(colliders)@[handle.0].owner.0) ==> final(bodies)@
                == old(bodies)@,
            old(bodies)@.dom().contains(old(colliders)@[handle.0].owner.0)
                ==> bodies_collider_detached(
                old(bodies)@,
                final(bodies)@,
                old(colliders)@[handle.0].owner.0,
                handle,
            ),
    {
        let ghost colliders0 = colliders@;
        let ghost edges0 = self.collision_graph.edges@;
        let collider = colliders.internal_remove(handle);
        let others = self.collision_graph.neighbors_of(handle);
        proof {
            lemma_neighbors_live(edges0, handle, colliders0);
        }
        let ghost os = others@;
        let ghost ev0 = self.removal_events@;
        let n = others.len();
        let mut i: usize = 0;
        proof {
            assert(os.skip(0) =~= os);
            assert(ev0 + ended_events_of(os, handle, collider, colliders0) =~= self.removal_events@
                + ended_events_of(os.skip(0), handle, collider, colliders0));
        }
        while i < n
            invariant
                i <= n,
                n == os.len(),
                os == others@,
                collider == colliders0[handle.0],
                colliders@ == colliders0.remove(handle.0),
                self.collision_graph.edges@ == edges0,
                self.events@ == old(self).events@,
                forall|j: int|
                    0 <= j < os.len() ==> colliders0.dom().contains((#[trigger] os[j]).0)
                        && os[j] != handle,
                ev0 + ended_events_of(os, handle, collider, colliders0) == self.removal_events@
                    + ended_events_of(os.skip(i as int), handle, collider, colliders0),
            decreases n - i,
        {
            proof {
                assert(os.skip(i as int).drop_first() =~= os.skip(i as int + 1));
                assert(os.skip(i as int)[0] == os[i as int]);
            }
            let other = others[i];
            let collider_other = colliders.index(other);
            self.removal_events.push(ended_event(handle, &collider, other, collider_other));
            proof {
                assert(ev0 + ended_events_of(os, handle, collider, colliders0)
                    =~= self.removal_events@ + ended_events_of(
                    os.skip(i as int + 1),
                    handle,
                    collider,
                    colliders0,
                ));
            }
            i += 1;
        }
        proof {
            assert(os.skip(n as int) =~= Seq::<ColliderHandle>::empty());
            assert(self.removal_events@ =~= ev0 + ended_events_of(os, handle, collider, colliders0));
        }
        self.collision_graph.remove_node(handle);

        // if the owner is gone, the body and collider are being removed
        // together during a cascade, and there is no list to fix
        if bodies.contains(collider.owner) {
            let ghost bodies0 = bodies@;
            let ghost owner = collider.owner.0;
            let body = bodies.get_mut(collider.owner);
            let ghost list0 = body.colliders@;
            let ncol = body.colliders.len();
            let mut j: usize = 0;
            let mut found: Option<usize> = None;
            while j < ncol
                invariant
                    j <= ncol,
                    ncol == body.colliders@.len(),
                    body.colliders@ == list0,
                    found is None,
                    forall|j2: int| 0 <= j2 < j ==> list0[j2] != handle,
                decreases ncol - j,
            {
                if body.colliders[j] == handle {
                    found = Some(j);
                    break ;
                }
                j += 1;
            }
            proof {
                if found is None {
                    assert(!list0.contains(handle));
                }
            }
            match found {
                Some(idx) => {
                    body.colliders.swap_remove(idx);
                    proof {
                        assert(list0.contains(handle)) by {
                            assert(list0[idx as int] == handle);
                        }
                        let ci = choose|ci: int| 0 <= ci < list0.len() && list0[ci] == handle;
                        assert(owned_ok(owner, list0, colliders0));
                        assert(ci == idx as int);
                        assert(body.colliders@ == list_without(list0, handle));
                    }
                },
                None => {
                    proof {
                        assert(body.colliders@ == list_without(list0, handle));
                    }
                },
            }
            proof {
                assert(bodies@.dom() =~= bodies0.dom());
                assert(bodies@[owner].colliders@ == list_without(list0, handle));
                assert(bodies_collider_detached(bodies0, bodies@, owner, handle));
            }
        }
    }

    /// Removes a live body and, cascading, all of its colliders; each live
    /// interaction of those colliders defers an ended event to the next
    /// step's queue.
    pub fn remove_body(&mut self, handle: BodyHandle, bodies: &mut BodySet, colliders: &mut ColliderSet)
        requires
            old(bodies)@.dom().contains(handle.0),
            stores_wf(old(bodies)@, old(colliders)@),
            graph_ok(old(self).collision_graph.edges@, old(colliders)@),
        ensures
            final(bodies)@ == old(bodies)@.remove(handle.0),
            (final(colliders)@, final(self).collision_graph.edges@, final(self).removal_events@)
                == remove_all_spec(
                old(colliders)@,
                old(self).collision_graph.edges@,
                old(self).removal_events@,
                old(bodies)@[handle.0].colliders@,
            ),
            final(self).events@ == old(self).events@,
    {
        let ghost bodies0 = bodies@;
        let body = bodies.internal_remove(handle);
        let ghost list = body.colliders@;
        let ghost colliders0 = colliders@;
        let ghost edges0 = self.collision_graph.edges@;
        let ghost ev0 = self.removal_events@;
        let n = body.colliders.len();
        let mut i: usize = 0;
        proof {
            assert(list.skip(0) =~= list);
            assert(owned_ok(handle.0, list, colliders0));
        }
        while i < n
            invariant
                i <= n,
                n == list.len(),
                body.colliders@ == list,
                bodies@ == bodies0.remove(handle.0),
                self.events@ == old(self).events@,
                graph_ok(self.collision_graph.edges@, colliders@),
                forall|j: int|
                    i <= j < list.len() ==> colliders@.dom().contains((#[trigger] list[j]).0),
                forall|j: int|
                    i <= j < list.len() ==> colliders@[(#[trigger] list[j]).0].owner.0 == handle.0,
                remove_all_spec(colliders@, self.collision_graph.edges@, self.removal_events@,
                    list.skip(i as int),
                ) == remove_all_spec(colliders0, edges0, ev0, list),
            decreases n - i,
        {
            proof {
                assert(list.skip(i as int).drop_first() =~= list.skip(i as int + 1));
                assert(list.skip(i as int)[0] == list[i as int]);
            }
            let ch = body.colliders[i];
            let ghost colliders_pre = colliders@;
            let ghost edges_pre = self.collision_graph.edges@;
            self.remove_collider(ch, bodies, colliders);
            proof {
                lemma_remove_node_ok(edges_pre, ch, colliders_pre);
                assert forall|j: int|
                    i as int + 1 <= j < list.len() implies colliders@.dom().contains(
                    (#[trigger] list[j]).0,
                ) by {
                    assert(list[j] != list[i as int]);
                }
            }
            i += 1;
        }
        proof {
            assert(list.skip(n as int) =~= Seq::<ColliderHandle>::empty());
        }
    }

    /// One simulation tick: drains deferred removal events into the event
    /// queue, integrates velocities, resolves movement axis by axis, brings
    /// the contact graph in sync with current overlaps and derives transition
    /// events.
    pub fn step(&mut self, dt: FP, bodies: &mut BodySet, colliders: &mut ColliderSet)
        requires
            step_req(old(bodies)@, old(self).collision_graph.edges@, old(colliders)@, dt),
        ensures
            final(colliders)@ == old(colliders)@,
            final(bodies)@ == step_bodies_spec(
                old(bodies)@,
                old(self).collision_graph.edges@,
                old(colliders)@,
                dt,
            ),
            final(self).collision_graph.edges@ == step_graph_spec(
                old(bodies)@,
                old(self).collision_graph.edges@,
                old(colliders)@,
                dt,
            ),
            final(self).events@ == old(self).removal_events@ + step_events_spec(
                old(bodies)@,
                old(self).collision_graph.edges@,
                old(colliders)@,
                dt,
            ),
            final(self).removal_events@ == Seq::<PhysicsEvent>::empty(),
    {
        let ghost bodies0 = bodies@;
        let ghost edges0 = self.collision_graph.edges@;

        self.events.clear();
        self.events.append(&mut self.removal_events);

        let body_handles = bodies.iter();
        let chandles = colliders.iter();
        let ghost hs = body_handles@;

        // compute the new maximum movement for every kinematic body
        let n = body_handles.len();
        let mut i: usize = 0;
        while i < n
            invariant
                i <= n,
                n == hs.len(),
                hs == body_handles@,
                hs == body_handles_of(bodies0),
                crate::store::is_key_list(
                    hs.map_values(|h: BodyHandle| h.0),
                    bodies0.dom(),
                ),
                bodies@.dom() == bodies0.dom(),
                integrate_ok(bodies0, dt),
                forall|k: usize|
                    #![trigger bodies@[k]]
                    bodies0.dom().contains(k) && handle_in_prefix(hs, i as int, k) ==> bodies@[k]
                        == integrate_body(bodies0[k], dt),
                forall|k: usize|
                    #![trigger bodies@[k]]
                    bodies0.dom().contains(k) && !handle_in_prefix(hs, i as int, k) ==> bodies@[k]
                        == bodies0[k],
            decreases n - i,
        {
            let h = body_handles[i];
            proof {
                assert(hs.map_values(|h: BodyHandle| h.0)[i as int] == hs[i as int].0);
                assert(bodies0.dom().contains(h.0));
                assert(!handle_in_prefix(hs, i as int, h.0)) by {
                    if handle_in_prefix(hs, i as int, h.0) {
                        let j = choose|j: int| 0 <= j < i as int && (#[trigger] hs[j]).0 == h.0;
                        let mk = hs.map_values(|hh: BodyHandle| hh.0);
                        assert(mk[j] == hs[j].0);
                        assert(mk[i as int] == hs[i as int].0);
                        assert(mk[j] < mk[i as int]);
                        assert(false);
                    }
                }
                assert(bodies@[h.0] == bodies0[h.0]);
            }
            let is_kinematic = matches!(bodies.index(h).status, BodyStatus::Kinematic);
            if is_kinematic {
                let body = bodies.get_mut(h);
                let velocity = body.velocity;
                body.movement = velocity.mul_scalar(dt);
                proof {
                    assert(bodies@[h.0] == integrate_body(bodies0[h.0], dt));
                }
            }
            proof {
                assert forall|k: usize|
                    bodies0.dom().contains(k) && handle_in_prefix(hs, i as int + 1, k)
                        implies #[trigger] bodies@[k] == integrate_body(bodies0[k], dt) by {
                    if k != h.0 {
                        assert(handle_in_prefix(hs, i as int, k));
                    }
                }
            }
            i += 1;
        }
        proof {
            assert(bodies@ =~= integrate_spec(bodies0, dt)) by {
                assert(integrate_spec(bodies0, dt).dom() == bodies0.dom());
                assert forall|k: usize| #[trigger]
                    bodies0.dom().contains(k) implies bodies@[k] == integrate_spec(bodies0, dt)[k] by {
                    let mk = hs.map_values(|h: BodyHandle| h.0);
                    assert(mk.contains(k));
                    let j = choose|j: int| 0 <= j < mk.len() && #[trigger] mk[j] == k;
                    assert(mk[j] == hs[j].0);
                    assert(hs[j].0 == k);
                    assert(handle_in_prefix(hs, n as int, k));
                }
            }
            lemma_integrate_wf(bodies0, colliders@, dt);
        }

        step_x(bodies, colliders, &body_handles, &chandles);
        proof {
            lemma_step_x_all_wf(integrate_spec(bodies0, dt), colliders@, hs, chandles@);
            assert(bodies@ == step_bodies_mid_x(bodies0, colliders@, dt));
        }

        step_y(bodies, colliders, &mut self.collision_graph, &body_handles, &chandles);
        proof {
            lemma_step_y_all_wf(
                step_bodies_mid_x(bodies0, colliders@, dt),
                edges0,
                colliders@,
                hs,
                chandles@,
            );
            assert forall|i2: int|
                0 <= i2 < chandles@.len() implies colliders@.dom().contains(
                (#[trigger] chandles@[i2]).0,
            ) by {
                assert(chandles@.map_values(|ch: ColliderHandle| ch.0)[i2] == chandles@[i2].0);
            }
            lemma_step_y_all_live(
                step_bodies_mid_x(bodies0, colliders@, dt),
                edges0,
                colliders@,
                hs,
                chandles@,
            );
        }

        describe_collisions(bodies, colliders, &mut self.collision_graph, &mut self.events);
    }
}

} // verus!
