//! Tests of the fixed-point scalars, the box math and the entity stores.

use resphys::{
    collision_manifold, contact_aabb_aabb, intersection_aabb_aabb, is_colliding, is_penetrating,
    Body, BodySet, BodyStatus, Collider, ColliderSet, ColliderState, Vec2, AABB, FP, FP_ONE,
};

#[test]
fn fixed_point_arithmetic_is_exact() {
    assert_eq!(FP::from_int(3).raw, 3 * FP_ONE);
    assert_eq!(FP::from_int(-3).raw, -3 * FP_ONE);
    assert_eq!(FP::from_int(3).add(FP::from_int(4)).raw, 7 * FP_ONE);
    assert_eq!(FP::from_int(3).sub(FP::from_int(4)).raw, -FP_ONE);
    assert_eq!(FP::from_int(3).mul(FP::from_int(2)).raw, 6 * FP_ONE);
    assert_eq!(FP::from_int(-3).mul(FP::from_int(2)).raw, -6 * FP_ONE);
    assert_eq!(FP::from_int(60).mul(FP::from_int(1)).raw, 60 * FP_ONE);
    assert_eq!(FP::from_int(5).mul(FP::zero()).raw, 0);
    // division rounds toward zero and saturates instead of overflowing
    assert_eq!(FP::from_int(1).div_sat(FP::from_int(2)).raw, FP_ONE / 2);
    assert_eq!(FP::from_int(-1).div_sat(FP::from_int(2)).raw, -FP_ONE / 2);
    assert_eq!(FP::from_int(7).div_sat(FP::zero()).raw, 0);
    assert_eq!(FP::from_raw(i64::MAX).div_sat(FP::from_raw(1)).raw, i64::MAX);
    assert_eq!(FP::from_int(2).min(FP::from_int(5)), FP::from_int(2));
    assert_eq!(FP::from_int(2).max(FP::from_int(5)), FP::from_int(5));
}

#[test]
fn overlap_is_inclusive_at_the_boundary() {
    let he = Vec2::from_int(16, 16);
    // separated by a gap: no overlap
    assert!(!intersection_aabb_aabb(Vec2::from_int(0, 0), he, Vec2::from_int(33, 0), he));
    // exactly touching (zero gap): overlap
    assert!(intersection_aabb_aabb(Vec2::from_int(0, 0), he, Vec2::from_int(32, 0), he));
    // clearly overlapping
    assert!(intersection_aabb_aabb(Vec2::from_int(0, 0), he, Vec2::from_int(20, 5), he));
    // one raw unit past touching: no overlap
    assert!(!intersection_aabb_aabb(
        Vec2::from_int(0, 0),
        he,
        Vec2 { x: FP::from_raw(32 * FP_ONE + 1), y: FP::zero() },
        he,
    ));
}

#[test]
fn manifold_picks_smaller_overlap_axis_with_unit_normal() {
    let he = Vec2::from_int(16, 16);
    // second box far to the right, slightly below: x overlap (4) < y overlap (30)
    let m = contact_aabb_aabb(Vec2::from_int(0, 0), he, Vec2::from_int(28, 2), he).unwrap();
    assert_eq!(m.depth, FP::from_int(4));
    assert_eq!(m.normal, Vec2::from_int(-1, 0));
    // second box above: y axis separates, normal points from it toward the first
    let m2 = contact_aabb_aabb(Vec2::from_int(0, 0), he, Vec2::from_int(2, -28), he).unwrap();
    assert_eq!(m2.depth, FP::from_int(4));
    assert_eq!(m2.normal, Vec2::from_int(0, 1));
    // disjoint boxes produce no manifold
    assert!(contact_aabb_aabb(Vec2::from_int(0, 0), he, Vec2::from_int(100, 0), he).is_none());
}

#[test]
fn collider_tests_apply_offsets_and_tolerance() {
    let mut bodies = BodySet::new();
    let a = bodies.insert(Body::new(Vec2::zero(), BodyStatus::Static, false));
    let c1 = Collider::new(
        AABB { half_exts: Vec2::from_int(16, 16) },
        Vec2::from_int(10, 0),
        ColliderState::Solid,
        1,
        1,
        0,
        a,
    );
    let c2 = Collider::new(
        AABB { half_exts: Vec2::from_int(16, 16) },
        Vec2::zero(),
        ColliderState::Solid,
        1,
        1,
        0,
        a,
    );
    // centers 42 apart without offsets, 32 apart with c1's offset: touching
    assert!(is_colliding(&c1, Vec2::from_int(0, 0), &c2, Vec2::from_int(42, 0)));
    assert!(!is_colliding(&c1, Vec2::from_int(0, 0), &c2, Vec2::from_int(43, 0)));
    // flush contact does not count as penetrating under the tolerance
    assert!(!is_penetrating(
        &c1,
        Vec2::from_int(0, 0),
        &c2,
        Vec2::from_int(42, 0),
        FP::from_raw(66),
    ));
    assert!(is_penetrating(
        &c1,
        Vec2::from_int(0, 0),
        &c2,
        Vec2::from_int(41, 0),
        FP::from_raw(66),
    ));
    // the manifold of placed colliders also honors the offsets
    let m = collision_manifold(&c1, Vec2::from_int(0, 0), &c2, Vec2::from_int(40, 0)).unwrap();
    assert_eq!(m.depth, FP::from_int(2));
    assert_eq!(m.normal, Vec2::from_int(-1, 0));
}

#[test]
fn body_store_returns_what_was_inserted() {
    let mut bodies = BodySet::new();
    let h1 = bodies.insert(Body::new(Vec2::from_int(1, 2), BodyStatus::Kinematic, true));
    let h2 = bodies.insert(Body::new(Vec2::from_int(3, 4), BodyStatus::Static, false));
    assert_ne!(h1, h2);

    let b1 = bodies.get(h1).unwrap();
    assert_eq!(b1.position, Vec2::from_int(1, 2));
    assert_eq!(b1.status, BodyStatus::Kinematic);
    assert!(b1.self_collide);
    assert_eq!(bodies.get(h2).unwrap().position, Vec2::from_int(3, 4));

    // mutation through the handle is visible afterwards
    bodies.get_mut(h1).velocity = Vec2::from_int(5, 6);
    assert_eq!(bodies.get(h1).unwrap().velocity, Vec2::from_int(5, 6));

    // iteration yields exactly the live handles, in slot order
    let hs = bodies.iter();
    assert_eq!(hs, vec![h1, h2]);
    assert!(bodies.contains(h1));
}

#[test]
fn collider_store_attaches_to_owner_and_lists_live_handles() {
    let mut bodies = BodySet::new();
    let mut colliders = ColliderSet::new();
    let a = bodies.insert(Body::new(Vec2::zero(), BodyStatus::Static, false));
    let c = Collider::new(
        AABB { half_exts: Vec2::from_int(8, 8) },
        Vec2::zero(),
        ColliderState::Sensor,
        4,
        5,
        42,
        a,
    );
    let h = colliders.insert(c, &mut bodies).unwrap();
    assert_eq!(bodies.get(a).unwrap().colliders, vec![h]);
    let got = colliders.get(h).unwrap();
    assert_eq!(got.user_tag, 42);
    assert_eq!(got.category_bits, 4);
    assert_eq!(got.mask_bits, 5);
    assert_eq!(got.owner, a);
    assert_eq!(colliders.iter(), vec![h]);
    assert_eq!(colliders.index(h).user_tag, 42);
}

#[test]
fn collider_overlaps_aabb_and_ray_contact() {
    let a_owner = {
        let mut bodies = BodySet::new();
        bodies.insert(Body::new(Vec2::zero(), BodyStatus::Static, false))
    };
    let c = Collider::new(
        AABB { half_exts: Vec2::from_int(16, 16) },
        Vec2::from_int(0, 0),
        ColliderState::Solid,
        1,
        1,
        0,
        a_owner,
    );
    assert!(c.overlaps_aabb(Vec2::from_int(0, 0), Vec2::from_int(20, 0), Vec2::from_int(5, 5)));
    assert!(!c.overlaps_aabb(Vec2::from_int(0, 0), Vec2::from_int(30, 0), Vec2::from_int(5, 5)));

    let ray = resphys::Ray { origin: Vec2::from_int(0, -40), dir: Vec2::from_int(0, 1) };
    let hit = c.ray_contact(Vec2::from_int(0, 0), &ray).unwrap();
    assert_eq!(hit.distance, FP::from_int(24));
    assert_eq!(hit.normal, Vec2::from_int(0, -1));
    let miss = resphys::Ray { origin: Vec2::from_int(100, -40), dir: Vec2::from_int(0, 1) };
    assert!(c.ray_contact(Vec2::from_int(0, 0), &miss).is_none());
}
