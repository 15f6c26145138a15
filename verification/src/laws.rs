//! Laws of the collision engine, stated and proved over the same spec
//! functions the public contracts use.

use vstd::prelude::*;
use crate::body::Body;
use crate::collider::{Collider, ColliderHandle};
use crate::collision::{aabb_overlap, manifold_spec};
use crate::event::PhysicsEvent;
use crate::fp::{iabs, Vec2};
use crate::graph::{edge_connects, graph_wf, ContactEdge};
use crate::body::{body_handles_of, BodyHandle};
use crate::collider::{collider_handles_of, colliding_spec, penetrating_spec};
use crate::fp::FP;
use crate::graph::{has_edge, update_edge_spec};
use crate::store::{is_key_list, key_list};
use crate::world::{
    can_collide_spec, describe_edges_spec, describe_events_spec,
    edge_classify, edge_events, ended_events_of, integrate_body, integrate_spec,
    lemma_integrate_wf, moved_x, moved_y, step_bodies_mid_x, step_bodies_spec, step_events_spec,
    step_graph_spec, step_state_spec, step_x_all, step_x_body, step_y_all, step_y_body, stores_wf,
    x_colliders, x_move_of, x_others, x_pair_skipped, x_pair_step, y_colliders, y_others,
    y_pair_move, y_pair_skipped, CONTACT_TOLERANCE_RAW,
};

verus! {

/// Two boxes separated by a positive gap on either axis do not overlap, and
/// boxes moved to exactly touching (zero gap, within extent on the other
/// axis) do overlap: the boundary is inclusive.
pub proof fn lemma_overlap_boundary(pos1: Vec2, he1: Vec2, pos2: Vec2, he2: Vec2)
    ensures
        iabs(pos1.x.raw - pos2.x.raw) > he1.x.raw + he2.x.raw || iabs(pos1.y.raw - pos2.y.raw)
            > he1.y.raw + he2.y.raw ==> !aabb_overlap(pos1, he1, pos2, he2),
        iabs(pos1.x.raw - pos2.x.raw) == he1.x.raw + he2.x.raw && iabs(pos1.y.raw - pos2.y.raw)
            <= he1.y.raw + he2.y.raw ==> aabb_overlap(pos1, he1, pos2, he2),
{
}

/// The manifold of two strictly overlapping boxes exists, its normal is a
/// unit axis vector (exactly one non-zero component, of one world unit), and
/// its depth is strictly positive.
pub proof fn lemma_manifold_contact(pos1: Vec2, he1: Vec2, pos2: Vec2, he2: Vec2)
    requires
        pos1.bounded(),
        he1.bounded(),
        pos2.bounded(),
        he2.bounded(),
        iabs(pos1.x.raw - pos2.x.raw) < he1.x.raw + he2.x.raw,
        iabs(pos1.y.raw - pos2.y.raw) < he1.y.raw + he2.y.raw,
    ensures
        manifold_spec(pos1, he1, pos2, he2) is Some,
        manifold_spec(pos1, he1, pos2, he2) matches Some(m) ==> {
            &&& (iabs(m.normal.x.raw as int) == 65536 && m.normal.y.raw == 0) || (m.normal.x.raw == 0
                && iabs(m.normal.y.raw as int) == 65536)
            &&& m.depth.raw > 0
        },
{
}

/// Category/mask filtering is symmetric: the predicate gives the same answer
/// in both directions of a pair, and fails whenever either direction of the
/// bitmask test fails.
pub proof fn lemma_can_collide_symmetric(b1: Body, b2: Body, c1: Collider, c2: Collider)
    requires
        c1.owner == c2.owner ==> b1 == b2,
    ensures
        can_collide_spec(b1, c1, c2) == can_collide_spec(b2, c2, c1),
        c1.category_bits & c2.mask_bits == 0 || c2.category_bits & c1.mask_bits == 0
            ==> !can_collide_spec(b1, c1, c2),
{
}

/// Two colliders owned by the same body never interact when the body forbids
/// self-collision, whatever their geometry; they do interact when it permits
/// self-collision and their filters are mutually compatible.
pub proof fn lemma_self_collision_flag(b: Body, c1: Collider, c2: Collider)
    requires
        c1.owner == c2.owner,
    ensures
        !b.self_collide ==> !can_collide_spec(b, c1, c2),
        b.self_collide && c1.category_bits & c2.mask_bits != 0 && c2.category_bits & c1.mask_bits
            != 0 ==> can_collide_spec(b, c1, c2),
{
}

/// A sensor never produces position correction: the y sweep's clamp leaves
/// the movement unchanged when either collider is a sensor, and the x sweep
/// skips a sensor on either side of a pair outright.
pub proof fn lemma_sensor_no_position_correction(
    m: int,
    c1h: ColliderHandle,
    c2h: ColliderHandle,
    b1: Body,
    c1: Collider,
    c2: Collider,
    b2: Body,
    list: Seq<ColliderHandle>,
    bodies: Map<usize, Body>,
    colliders: Map<usize, Collider>,
    cs: Seq<ColliderHandle>,
)
    ensures
        c1.state is Sensor || c2.state is Sensor ==> y_pair_move(m, b1, c1, c2, b2) == m,
        c2.state is Sensor ==> x_pair_skipped(c1h, c2h, b1, c1, c2),
        c1.state is Sensor && list.len() > 0 && list[0] == c1h && colliders[c1h.0] == c1
            ==> x_colliders(m, b1, list, bodies, colliders, cs) == x_colliders(
            m,
            b1,
            list.drop_first(),
            bodies,
            colliders,
            cs,
        ),
{
}

/// The event carries the handles of the pair, in either order.
pub open spec fn event_names_pair(e: PhysicsEvent, a: ColliderHandle, b: ColliderHandle) -> bool {
    match e {
        PhysicsEvent::OverlapStarted(h1, h2, _, _) => (h1 == a && h2 == b) || (h1 == b && h2 == a),
        PhysicsEvent::OverlapEnded(h1, h2, _, _) => (h1 == a && h2 == b) || (h1 == b && h2 == a),
        PhysicsEvent::CollisionStarted(h1, h2, _, _) => (h1 == a && h2 == b) || (h1 == b && h2
            == a),
        PhysicsEvent::CollisionEnded(h1, h2, _, _) => (h1 == a && h2 == b) || (h1 == b && h2 == a),
    }
}

/// How many events of the sequence name the pair.
pub open spec fn count_pair_events(es: Seq<PhysicsEvent>, a: ColliderHandle, b: ColliderHandle) -> int
    decreases es.len(),
{
    if es.len() == 0 {
        0int
    } else {
        (if event_names_pair(es[0], a, b) {
            1int
        } else {
            0int
        }) + count_pair_events(es.drop_first(), a, b)
    }
}

/// The events one edge transition contributes to its own pair: one on a
/// start, one on an end, none while the interaction persists or stays absent.
pub open spec fn edge_transition_count(e: ContactEdge, bodies: Map<usize, Body>, colliders: Map<usize, Collider>) -> int {
    let cur = edge_classify(e, bodies, colliders);
    if cur is Some && e.interaction is None {
        1int
    } else if cur is None && e.interaction is Some {
        1int
    } else {
        0int
    }
}

/// Counting distributes over sequence concatenation.
proof fn lemma_count_pair_events_add(es1: Seq<PhysicsEvent>, es2: Seq<PhysicsEvent>, a: ColliderHandle, b: ColliderHandle)
    ensures
        count_pair_events(es1 + es2, a, b) == count_pair_events(es1, a, b) + count_pair_events(
            es2,
            a,
            b,
        ),
    decreases es1.len(),
{
    if es1.len() == 0 {
        assert(es1 + es2 =~= es2);
    } else {
        assert((es1 + es2).drop_first() =~= es1.drop_first() + es2);
        lemma_count_pair_events_add(es1.drop_first(), es2, a, b);
    }
}

/// An edge's own events name its pair; an edge of another pair contributes
/// none to it.
proof fn lemma_edge_events_pair(
    e: ContactEdge,
    bodies: Map<usize, Body>,
    colliders: Map<usize, Collider>,
    a: ColliderHandle,
    b: ColliderHandle,
)
    ensures
        edge_connects(e, a, b) ==> count_pair_events(edge_events(e, bodies, colliders), a, b)
            == edge_transition_count(e, bodies, colliders),
        !edge_connects(e, a, b) ==> count_pair_events(edge_events(e, bodies, colliders), a, b)
            == 0,
{
    let es = edge_events(e, bodies, colliders);
    let c1 = colliders[e.a.0];
    let c2 = colliders[e.b.0];
    if es.len() > 0 {
        assert(es.drop_first() =~= Seq::<PhysicsEvent>::empty());
        assert(count_pair_events(es.drop_first(), a, b) == 0);
        assert(es[0] == crate::event::started_event_spec(e.a, c1, e.b, c2) || es[0]
            == crate::event::ended_event_spec(e.a, c1, e.b, c2));
        assert(event_names_pair(es[0], e.a, e.b));
        assert(event_names_pair(es[0], a, b) == edge_connects(e, a, b));
    }
}

/// Contact lifecycle: in a well-formed graph, the describing pass emits for
/// each edge's pair exactly one event when its interaction starts, exactly
/// one when it ends, and none while it persists unchanged; no other edge
/// contributes an event to that pair.
pub proof fn lemma_contact_lifecycle(
    edges: Seq<ContactEdge>,
    bodies: Map<usize, Body>,
    colliders: Map<usize, Collider>,
    i: int,
)
    requires
        graph_wf(edges),
        0 <= i < edges.len(),
    ensures
        count_pair_events(
            describe_events_spec(edges, bodies, colliders),
            edges[i].a,
            edges[i].b,
        ) == edge_transition_count(edges[i], bodies, colliders),
    decreases edges.len(),
{
    let a = edges[i].a;
    let b = edges[i].b;
    let rest = edges.drop_first();
    assert(describe_events_spec(edges, bodies, colliders) == edge_events(
        edges[0],
        bodies,
        colliders,
    ) + describe_events_spec(rest, bodies, colliders));
    lemma_count_pair_events_add(
        edge_events(edges[0], bodies, colliders),
        describe_events_spec(rest, bodies, colliders),
        a,
        b,
    );
    assert(graph_wf(rest)) by {
        assert(forall|j: int| 0 <= j < rest.len() ==> #[trigger] rest[j] == edges[j + 1]);
    }
    if i == 0 {
        lemma_edge_events_pair(edges[0], bodies, colliders, a, b);
        assert(edge_connects(edges[0], a, b));
        lemma_no_pair_events(rest, bodies, colliders, a, b);
    } else {
        lemma_edge_events_pair(edges[0], bodies, colliders, a, b);
        assert(!edge_connects(edges[0], a, b)) by {
            assert(!edge_connects(edges[i], edges[0].a, edges[0].b));
        }
        assert(rest[i - 1] == edges[i]);
        lemma_contact_lifecycle(rest, bodies, colliders, i - 1);
    }
}

/// A pair with no edge in a well-formed graph receives no events from the
/// describing pass.
proof fn lemma_no_pair_events(
    edges: Seq<ContactEdge>,
    bodies: Map<usize, Body>,
    colliders: Map<usize, Collider>,
    a: ColliderHandle,
    b: ColliderHandle,
)
    requires
        forall|j: int| 0 <= j < edges.len() ==> !edge_connects(#[trigger] edges[j], a, b),
    ensures
        count_pair_events(describe_events_spec(edges, bodies, colliders), a, b) == 0,
    decreases edges.len(),
{
    if edges.len() > 0 {
        let rest = edges.drop_first();
        lemma_count_pair_events_add(
            edge_events(edges[0], bodies, colliders),
            describe_events_spec(rest, bodies, colliders),
            a,
            b,
        );
        lemma_edge_events_pair(edges[0], bodies, colliders, a, b);
        assert(forall|j: int| 0 <= j < rest.len() ==> #[trigger] rest[j] == edges[j + 1]);
        lemma_no_pair_events(rest, bodies, colliders, a, b);
    }
}

/// No solid pair that may interact penetrates, within tolerance, at the
/// bodies' current positions.
pub open spec fn no_solid_penetration(bs: Map<usize, Body>, colliders: Map<usize, Collider>) -> bool {
    forall|k1: usize, k2: usize|
        #[trigger] colliders.dom().contains(k1) && #[trigger] colliders.dom().contains(k2) && k1
            != k2 ==> {
            let c1 = colliders[k1];
            let c2 = colliders[k2];
            let b1 = bs[c1.owner.0];
            let b2 = bs[c2.owner.0];
            !(b1.status is Static) && c1.state is Solid && c2.state is Solid && can_collide_spec(
                b1,
                c1,
                c2,
            ) ==> !penetrating_spec(
                c1,
                b1.position,
                c2,
                b2.position,
                CONTACT_TOLERANCE_RAW as int,
            )
        }
}

/// Every pair that currently overlaps and may interact, seen from a
/// non-static body, already has a graph edge.
pub open spec fn graph_complete(bs: Map<usize, Body>, colliders: Map<usize, Collider>, edges: Seq<ContactEdge>) -> bool {
    forall|k1: usize, k2: usize|
        #[trigger] colliders.dom().contains(k1) && #[trigger] colliders.dom().contains(k2) && k1
            != k2 ==> {
            let c1 = colliders[k1];
            let c2 = colliders[k2];
            let b1 = bs[c1.owner.0];
            let b2 = bs[c2.owner.0];
            !(b1.status is Static) && can_collide_spec(b1, c1, c2) && colliding_spec(
                c1,
                b1.position,
                c2,
                b2.position,
            ) ==> has_edge(edges, ColliderHandle(k1), ColliderHandle(k2))
        }
}

/// Every edge's cached interaction is the pair's current classification.
pub open spec fn graph_current(bs: Map<usize, Body>, colliders: Map<usize, Collider>, edges: Seq<ContactEdge>) -> bool {
    forall|i: int|
        0 <= i < edges.len() ==> (#[trigger] edges[i]).interaction is Some && edges[i].interaction
            == edge_classify(edges[i], bs, colliders)
}

/// Every non-static body has no pending movement.
pub open spec fn zero_movement(bs: Map<usize, Body>) -> bool {
    forall|k: usize| #[trigger]
        bs.dom().contains(k) && !(bs[k].status is Static) ==> bs[k].movement.x.raw == 0
            && bs[k].movement.y.raw == 0
}

proof fn lemma_zero_x_others(
    c1h: ColliderHandle,
    c1: Collider,
    b1: Body,
    bs: Map<usize, Body>,
    colliders: Map<usize, Collider>,
    cs: Seq<ColliderHandle>,
)
    requires
        no_solid_penetration(bs, colliders),
        stores_wf(bs, colliders),
        colliders.dom().contains(c1h.0),
        c1 == colliders[c1h.0],
        c1.state is Solid,
        b1 == bs[c1.owner.0],
        !(b1.status is Static),
        forall|i: int| 0 <= i < cs.len() ==> colliders.dom().contains((#[trigger] cs[i]).0),
    ensures
        x_others(0, c1h, c1, b1, bs, colliders, cs) == 0,
    decreases cs.len(),
{
    if cs.len() > 0 {
        let c2h = cs[0];
        let c2 = colliders[c2h.0];
        if !x_pair_skipped(c1h, c2h, b1, c1, c2) {
            let b2 = bs[c2.owner.0];
            assert(moved_x(b1.position, 0) == b1.position);
            assert(c1h.0 != c2h.0);
            assert(colliders.dom().contains(c2h.0));
            assert(c2.state is Solid);
            assert(can_collide_spec(b1, c1, c2));
            assert(!penetrating_spec(c1, b1.position, c2, b2.position, CONTACT_TOLERANCE_RAW as int));
            assert(x_pair_step(0, b1, c1, c2, b2) == 0);
        }
        assert(forall|i: int|
            0 <= i < cs.drop_first().len() ==> #[trigger] cs.drop_first()[i] == cs[i + 1]);
        lemma_zero_x_others(c1h, c1, b1, bs, colliders, cs.drop_first());
    }
}

proof fn lemma_zero_x_colliders(
    owner: usize,
    b1: Body,
    list: Seq<ColliderHandle>,
    bs: Map<usize, Body>,
    colliders: Map<usize, Collider>,
    cs: Seq<ColliderHandle>,
)
    requires
        no_solid_penetration(bs, colliders),
        stores_wf(bs, colliders),
        bs.dom().contains(owner),
        b1 == bs[owner],
        !(b1.status is Static),
        forall|i: int| 0 <= i < list.len() ==> colliders.dom().contains((#[trigger] list[i]).0),
        forall|i: int| 0 <= i < list.len() ==> colliders[(#[trigger] list[i]).0].owner.0 == owner,
        forall|i: int| 0 <= i < cs.len() ==> colliders.dom().contains((#[trigger] cs[i]).0),
    ensures
        x_colliders(0, b1, list, bs, colliders, cs) == 0,
    decreases list.len(),
{
    if list.len() > 0 {
        let c1h = list[0];
        let c1 = colliders[c1h.0];
        if !(c1.state is Sensor) {
            assert(c1.state is Solid);
            lemma_zero_x_others(c1h, c1, b1, bs, colliders, cs);
        }
        assert(forall|i: int|
            0 <= i < list.drop_first().len() ==> #[trigger] list.drop_first()[i] == list[i + 1]);
        lemma_zero_x_colliders(owner, b1, list.drop_first(), bs, colliders, cs);
    }
}

proof fn lemma_zero_step_x_all(
    bs: Map<usize, Body>,
    colliders: Map<usize, Collider>,
    hs: Seq<BodyHandle>,
    cs: Seq<ColliderHandle>,
)
    requires
        no_solid_penetration(bs, colliders),
        stores_wf(bs, colliders),
        zero_movement(bs),
        forall|i: int| 0 <= i < hs.len() ==> bs.dom().contains((#[trigger] hs[i]).0),
        forall|i: int| 0 <= i < cs.len() ==> colliders.dom().contains((#[trigger] cs[i]).0),
    ensures
        step_x_all(bs, colliders, hs, cs) == bs,
    decreases hs.len(),
{
    if hs.len() > 0 {
        let h = hs[0];
        let b1 = bs[h.0];
        if !(b1.status is Static) {
            assert(crate::world::owned_ok(h.0, b1.colliders@, colliders));
            lemma_zero_x_colliders(h.0, b1, b1.colliders@, bs, colliders, cs);
            assert(x_move_of(bs, colliders, h, cs) == 0);
            assert(moved_x(b1.position, 0) == b1.position);
            assert((Body { position: moved_x(b1.position, 0), ..b1 }) == b1);
            assert(step_x_body(bs, colliders, h, cs) =~= bs);
        }
        assert(forall|i: int|
            0 <= i < hs.drop_first().len() ==> #[trigger] hs.drop_first()[i] == hs[i + 1]);
        lemma_zero_step_x_all(bs, colliders, hs.drop_first(), cs);
    }
}

proof fn lemma_zero_y_others(
    edges: Seq<ContactEdge>,
    c1h: ColliderHandle,
    c1: Collider,
    b1: Body,
    bs: Map<usize, Body>,
    colliders: Map<usize, Collider>,
    cs: Seq<ColliderHandle>,
)
    requires
        no_solid_penetration(bs, colliders),
        graph_complete(bs, colliders, edges),
        stores_wf(bs, colliders),
        colliders.dom().contains(c1h.0),
        c1 == colliders[c1h.0],
        b1 == bs[c1.owner.0],
        !(b1.status is Static),
        forall|i: int| 0 <= i < cs.len() ==> colliders.dom().contains((#[trigger] cs[i]).0),
    ensures
        y_others(0, edges, c1h, c1, b1, bs, colliders, cs) == (0int, edges),
    decreases cs.len(),
{
    if cs.len() > 0 {
        let c2h = cs[0];
        let c2 = colliders[c2h.0];
        if !y_pair_skipped(c1h, c2h, b1, c1, c2) {
            let b2 = bs[c2.owner.0];
            assert(c1h.0 != c2h.0);
            if c1.state is Solid && c2.state is Solid {
                assert(moved_y(b1.position, 0) == b1.position);
                assert(!penetrating_spec(
                    c1,
                    b1.position,
                    c2,
                    b2.position,
                    CONTACT_TOLERANCE_RAW as int,
                ));
            }
            assert(y_pair_move(0, b1, c1, c2, b2) == 0);
            if colliding_spec(c1, b1.position, c2, b2.position) {
                assert(has_edge(edges, ColliderHandle(c1h.0), ColliderHandle(c2h.0)));
                assert(ColliderHandle(c1h.0) == c1h && ColliderHandle(c2h.0) == c2h);
                assert(update_edge_spec(edges, c1h, c2h) == edges);
            }
        }
        assert(forall|i: int|
            0 <= i < cs.drop_first().len() ==> #[trigger] cs.drop_first()[i] == cs[i + 1]);
        lemma_zero_y_others(edges, c1h, c1, b1, bs, colliders, cs.drop_first());
    }
}

proof fn lemma_zero_y_colliders(
    edges: Seq<ContactEdge>,
    owner: usize,
    b1: Body,
    list: Seq<ColliderHandle>,
    bs: Map<usize, Body>,
    colliders: Map<usize, Collider>,
    cs: Seq<ColliderHandle>,
)
    requires
        no_solid_penetration(bs, colliders),
        graph_complete(bs, colliders, edges),
        stores_wf(bs, colliders),
        bs.dom().contains(owner),
        b1 == bs[owner],
        !(b1.status is Static),
        forall|i: int| 0 <= i < list.len() ==> colliders.dom().contains((#[trigger] list[i]).0),
        forall|i: int| 0 <= i < list.len() ==> colliders[(#[trigger] list[i]).0].owner.0 == owner,
        forall|i: int| 0 <= i < cs.len() ==> colliders.dom().contains((#[trigger] cs[i]).0),
    ensures
        y_colliders(0, edges, b1, list, bs, colliders, cs) == (0int, edges),
    decreases list.len(),
{
    if list.len() > 0 {
        let c1h = list[0];
        let c1 = colliders[c1h.0];
        lemma_zero_y_others(edges, c1h, c1, b1, bs, colliders, cs);
        assert(forall|i: int|
            0 <= i < list.drop_first().len() ==> #[trigger] list.drop_first()[i] == list[i + 1]);
        lemma_zero_y_colliders(edges, owner, b1, list.drop_first(), bs, colliders, cs);
    }
}

proof fn lemma_zero_step_y_all(
    bs: Map<usize, Body>,
    edges: Seq<ContactEdge>,
    colliders: Map<usize, Collider>,
    hs: Seq<BodyHandle>,
    cs: Seq<ColliderHandle>,
)
    requires
        no_solid_penetration(bs, colliders),
        graph_complete(bs, colliders, edges),
        stores_wf(bs, colliders),
        zero_movement(bs),
        forall|i: int| 0 <= i < hs.len() ==> bs.dom().contains((#[trigger] hs[i]).0),
        forall|i: int| 0 <= i < cs.len() ==> colliders.dom().contains((#[trigger] cs[i]).0),
    ensures
        step_y_all(bs, edges, colliders, hs, cs) == (bs, edges),
    decreases hs.len(),
{
    if hs.len() > 0 {
        let h = hs[0];
        let b1 = bs[h.0];
        if !(b1.status is Static) {
            assert(crate::world::owned_ok(h.0, b1.colliders@, colliders));
            lemma_zero_y_colliders(edges, h.0, b1, b1.colliders@, bs, colliders, cs);
            assert(moved_y(b1.position, 0) == b1.position);
            assert((Body { position: moved_y(b1.position, 0), ..b1 }) == b1);
            assert(step_y_body(bs, edges, colliders, h, cs).0 =~= bs);
        }
        assert(forall|i: int|
            0 <= i < hs.drop_first().len() ==> #[trigger] hs.drop_first()[i] == hs[i + 1]);
        lemma_zero_step_y_all(bs, edges, colliders, hs.drop_first(), cs);
    }
}

proof fn lemma_zero_describe(
    edges: Seq<ContactEdge>,
    bs: Map<usize, Body>,
    colliders: Map<usize, Collider>,
)
    requires
        graph_current(bs, colliders, edges),
    ensures
        describe_edges_spec(edges, bs, colliders) == edges,
        describe_events_spec(edges, bs, colliders) == Seq::<PhysicsEvent>::empty(),
    decreases edges.len(),
{
    if edges.len() > 0 {
        let e = edges[0];
        assert(forall|i: int|
            0 <= i < edges.drop_first().len() ==> #[trigger] edges.drop_first()[i] == edges[i + 1]);
        lemma_zero_describe(edges.drop_first(), bs, colliders);
        assert(edge_classify(e, bs, colliders) == e.interaction);
        assert((ContactEdge { a: e.a, b: e.b, interaction: e.interaction }) == e);
        assert(describe_edges_spec(edges, bs, colliders) =~= edges);
        assert(edge_events(e, bs, colliders) =~= Seq::<PhysicsEvent>::empty());
        assert(describe_events_spec(edges, bs, colliders) =~= Seq::<PhysicsEvent>::empty());
    }
}

/// A step with zero delta-time changes no position, leaves the contact graph
/// as it stands and emits no events, provided the world is settled: no solid
/// pair penetrates beyond tolerance, the graph already records every
/// interacting pair, and every edge carries the pair's current
/// classification. Those conditions hold again afterwards, so any number of
/// zero delta-time steps behaves the same.
pub proof fn lemma_zero_dt_step(
    bodies: Map<usize, Body>,
    edges: Seq<ContactEdge>,
    colliders: Map<usize, Collider>,
    dt: FP,
)
    requires
        dt.raw == 0,
        stores_wf(bodies, colliders),
        is_key_list(key_list(bodies.dom()), bodies.dom()),
        is_key_list(key_list(colliders.dom()), colliders.dom()),
        no_solid_penetration(bodies, colliders),
        graph_complete(bodies, colliders, edges),
        graph_current(bodies, colliders, edges),
        crate::world::edges_live(edges, colliders),
    ensures
        step_bodies_spec(bodies, edges, colliders, dt) == integrate_spec(bodies, dt),
        forall|k: usize| #[trigger]
            bodies.dom().contains(k) ==> step_bodies_spec(bodies, edges, colliders, dt)[k].position
                == bodies[k].position,
        step_graph_spec(bodies, edges, colliders, dt) == edges,
        step_events_spec(bodies, edges, colliders, dt) == Seq::<PhysicsEvent>::empty(),
{
    let i2 = integrate_spec(bodies, dt);
    lemma_integrate_wf(bodies, colliders, dt);
    assert forall|k: usize| #[trigger] bodies.dom().contains(k) implies i2[k].position
        == bodies[k].position && i2[k].velocity == bodies[k].velocity && i2[k].status
        == bodies[k].status && i2[k].self_collide == bodies[k].self_collide && i2[k].colliders@
        == bodies[k].colliders@ && (!(i2[k].status is Static) ==> i2[k].movement.x.raw == 0
        && i2[k].movement.y.raw == 0) by {
        assert(i2[k] == integrate_body(bodies[k], dt));
        if bodies[k].status is Kinematic {
            crate::fp::lemma_fp_mul_zero(bodies[k].velocity.x.raw as int);
            crate::fp::lemma_fp_mul_zero(bodies[k].velocity.y.raw as int);
        }
    }
    assert(zero_movement(i2));
    assert(no_solid_penetration(i2, colliders)) by {
        assert forall|k1: usize, k2: usize|
            #[trigger] colliders.dom().contains(k1) && #[trigger] colliders.dom().contains(k2)
                && k1 != k2 implies {
            let c1 = colliders[k1];
            let c2 = colliders[k2];
            let b1 = i2[c1.owner.0];
            let b2 = i2[c2.owner.0];
            !(b1.status is Static) && c1.state is Solid && c2.state is Solid && can_collide_spec(
                b1,
                c1,
                c2,
            ) ==> !penetrating_spec(
                c1,
                b1.position,
                c2,
                b2.position,
                CONTACT_TOLERANCE_RAW as int,
            )
        } by {
            assert(bodies.dom().contains(colliders[k1].owner.0));
            assert(bodies.dom().contains(colliders[k2].owner.0));
        }
    }
    assert(graph_complete(i2, colliders, edges)) by {
        assert forall|k1: usize, k2: usize|
            #[trigger] colliders.dom().contains(k1) && #[trigger] colliders.dom().contains(k2)
                && k1 != k2 implies {
            let c1 = colliders[k1];
            let c2 = colliders[k2];
            let b1 = i2[c1.owner.0];
            let b2 = i2[c2.owner.0];
            !(b1.status is Static) && can_collide_spec(b1, c1, c2) && colliding_spec(
                c1,
                b1.position,
                c2,
                b2.position,
            ) ==> has_edge(edges, ColliderHandle(k1), ColliderHandle(k2))
        } by {
            assert(bodies.dom().contains(colliders[k1].owner.0));
            assert(bodies.dom().contains(colliders[k2].owner.0));
        }
    }
    let hs = body_handles_of(bodies);
    let cs = collider_handles_of(colliders);
    assert forall|i: int| 0 <= i < hs.len() implies i2.dom().contains((#[trigger] hs[i]).0) by {
        assert(hs[i].0 == key_list(bodies.dom())[i]);
    }
    assert forall|i: int| 0 <= i < cs.len() implies colliders.dom().contains(
        (#[trigger] cs[i]).0,
    ) by {
        assert(cs[i].0 == key_list(colliders.dom())[i]);
    }
    lemma_zero_step_x_all(i2, colliders, hs, cs);
    assert(step_bodies_mid_x(bodies, colliders, dt) == i2);
    lemma_zero_step_y_all(i2, edges, colliders, hs, cs);
    assert(step_state_spec(bodies, edges, colliders, dt) == (i2, edges));
    assert(graph_current(i2, colliders, edges)) by {
        assert forall|i: int| 0 <= i < edges.len() implies (#[trigger] edges[i]).interaction
            is Some && edges[i].interaction == edge_classify(edges[i], i2, colliders) by {
            assert(edges[i].interaction == edge_classify(edges[i], bodies, colliders));
            assert(colliders.dom().contains(edges[i].a.0) && colliders.dom().contains(
                edges[i].b.0,
            ));
            assert(bodies.dom().contains(colliders[edges[i].a.0].owner.0));
            assert(bodies.dom().contains(colliders[edges[i].b.0].owner.0));
        }
    }
    lemma_zero_describe(edges, i2, colliders);
}

/// Removing a collider defers exactly one ended event per neighbor, each of
/// the kind the pair's states imply, in neighbor order.
pub proof fn lemma_removal_ends_interactions(
    others: Seq<ColliderHandle>,
    h: ColliderHandle,
    c: Collider,
    colliders: Map<usize, Collider>,
)
    ensures
        ended_events_of(others, h, c, colliders).len() == others.len(),
        forall|j: int|
            0 <= j < others.len() ==> ended_events_of(others, h, c, colliders)[j]
                == crate::event::ended_event_spec(
                h,
                c,
                others[j],
                colliders[(#[trigger] others[j]).0],
            ),
    decreases others.len(),
{
    if others.len() > 0 {
        lemma_removal_ends_interactions(others.drop_first(), h, c, colliders);
        let es = ended_events_of(others, h, c, colliders);
        let rest = ended_events_of(others.drop_first(), h, c, colliders);
        assert forall|j: int| 0 <= j < others.len() implies es[j]
            == crate::event::ended_event_spec(
            h,
            c,
            others[j],
            colliders[(#[trigger] others[j]).0],
        ) by {
            if j > 0 {
                assert(es[j] == rest[j - 1]);
                assert(others.drop_first()[j - 1] == others[j]);
            }
        }
    }
}

} // verus!
