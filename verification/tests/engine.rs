//! End-to-end tests of the collision engine: stepping, events, removal and
//! the query helpers, on concrete scenes.

use resphys::{
    Body, BodyHandle, BodySet, BodyStatus, Collider, ColliderSet, ColliderState, PhysicsEvent,
    PhysicsWorld, Vec2, AABB, FP,
};

fn solid_box(half: i32, owner: BodyHandle, tag: u64) -> Collider {
    Collider::new(
        AABB { half_exts: Vec2::from_int(half, half) },
        Vec2::zero(),
        ColliderState::Solid,
        1,
        u32::MAX,
        tag,
        owner,
    )
}

fn sensor_box(half: i32, owner: BodyHandle, tag: u64) -> Collider {
    Collider::new(
        AABB { half_exts: Vec2::from_int(half, half) },
        Vec2::zero(),
        ColliderState::Sensor,
        1,
        u32::MAX,
        tag,
        owner,
    )
}

#[test]
fn moving_body_stops_flush_against_static_obstacle() {
    let mut world = PhysicsWorld::new();
    let mut bodies = BodySet::new();
    let mut colliders = ColliderSet::new();

    let a = bodies.insert(Body::new(Vec2::from_int(0, 0), BodyStatus::Kinematic, false));
    bodies.get_mut(a).velocity = Vec2::from_int(60, 0);
    let ca = colliders.insert(solid_box(16, a, 1), &mut bodies).unwrap();

    let b = bodies.insert(Body::new(Vec2::from_int(40, 0), BodyStatus::Static, false));
    let cb = colliders.insert(solid_box(16, b, 2), &mut bodies).unwrap();

    world.step(FP::from_int(1), &mut bodies, &mut colliders);

    // clamped to exact contact: 40 - 16 - 16 = 8, not 60
    assert_eq!(bodies.get(a).unwrap().position.x, FP::from_int(8));
    assert_eq!(bodies.get(a).unwrap().position.y, FP::from_int(0));
    // the static body did not move
    assert_eq!(bodies.get(b).unwrap().position.x, FP::from_int(40));
    // exactly one collision-started event, solid pair order as scanned
    assert_eq!(world.events().len(), 1);
    assert_eq!(world.events()[0], PhysicsEvent::CollisionStarted(ca, cb, 1, 2));
}

#[test]
fn contact_lifecycle_emits_one_started_and_one_ended_event() {
    let mut world = PhysicsWorld::new();
    let mut bodies = BodySet::new();
    let mut colliders = ColliderSet::new();

    let a = bodies.insert(Body::new(Vec2::from_int(0, 0), BodyStatus::Kinematic, false));
    bodies.get_mut(a).velocity = Vec2::from_int(60, 0);
    let ca = colliders.insert(solid_box(16, a, 1), &mut bodies).unwrap();
    let b = bodies.insert(Body::new(Vec2::from_int(40, 0), BodyStatus::Static, false));
    let cb = colliders.insert(solid_box(16, b, 2), &mut bodies).unwrap();

    // tick 1: contact begins, exactly one started event
    world.step(FP::from_int(1), &mut bodies, &mut colliders);
    assert_eq!(world.events().len(), 1);
    assert_eq!(world.events()[0], PhysicsEvent::CollisionStarted(ca, cb, 1, 2));

    // tick 2: contact persists unchanged, no events
    world.step(FP::from_int(1), &mut bodies, &mut colliders);
    assert_eq!(world.events().len(), 0);
    assert_eq!(bodies.get(a).unwrap().position.x, FP::from_int(8));

    // tick 3: the mover retreats, exactly one ended event
    bodies.get_mut(a).velocity = Vec2::from_int(-60, 0);
    world.step(FP::from_int(1), &mut bodies, &mut colliders);
    assert_eq!(bodies.get(a).unwrap().position.x, FP::from_int(-52));
    assert_eq!(world.events().len(), 1);
    assert_eq!(world.events()[0], PhysicsEvent::CollisionEnded(ca, cb, 1, 2));

    // tick 4: already apart, nothing further
    world.step(FP::from_int(1), &mut bodies, &mut colliders);
    assert_eq!(world.events().len(), 0);
}

#[test]
fn sensor_reports_overlap_but_never_corrects_position() {
    let mut world = PhysicsWorld::new();
    let mut bodies = BodySet::new();
    let mut colliders = ColliderSet::new();

    // a kinematic solid body moving right, and a static sensor in its path
    let a = bodies.insert(Body::new(Vec2::from_int(0, 0), BodyStatus::Kinematic, false));
    bodies.get_mut(a).velocity = Vec2::from_int(30, 0);
    let ca = colliders.insert(solid_box(16, a, 7), &mut bodies).unwrap();
    let s = bodies.insert(Body::new(Vec2::from_int(40, 0), BodyStatus::Static, false));
    let cs = colliders.insert(sensor_box(16, s, 9), &mut bodies).unwrap();

    world.step(FP::from_int(1), &mut bodies, &mut colliders);
    // no clamping against the sensor: the full movement was applied
    assert_eq!(bodies.get(a).unwrap().position.x, FP::from_int(30));
    // for a solid/sensor pair the solid participant comes first
    assert_eq!(world.events().len(), 1);
    assert_eq!(world.events()[0], PhysicsEvent::OverlapStarted(ca, cs, 7, 9));

    // moving on through: the overlap ends, still no correction
    world.step(FP::from_int(1), &mut bodies, &mut colliders);
    assert_eq!(bodies.get(a).unwrap().position.x, FP::from_int(60));
    world.step(FP::from_int(1), &mut bodies, &mut colliders);
    assert_eq!(bodies.get(a).unwrap().position.x, FP::from_int(90));
    assert_eq!(world.events().len(), 1);
    assert_eq!(world.events()[0], PhysicsEvent::OverlapEnded(ca, cs, 7, 9));
}

#[test]
fn removing_collider_defers_one_ended_event_to_next_step() {
    let mut world = PhysicsWorld::new();
    let mut bodies = BodySet::new();
    let mut colliders = ColliderSet::new();

    // the scanning side must be kinematic: static bodies are skipped as movers
    let a = bodies.insert(Body::new(Vec2::from_int(0, 0), BodyStatus::Kinematic, false));
    let ca = colliders.insert(solid_box(16, a, 1), &mut bodies).unwrap();
    let s = bodies.insert(Body::new(Vec2::from_int(10, 0), BodyStatus::Static, false));
    let cs = colliders.insert(sensor_box(16, s, 2), &mut bodies).unwrap();

    world.step(FP::from_int(1), &mut bodies, &mut colliders);
    assert_eq!(world.events().len(), 1);
    assert_eq!(world.events()[0], PhysicsEvent::OverlapStarted(ca, cs, 1, 2));

    // removal defers the ended event: it surfaces on the next step
    world.remove_collider(cs, &mut bodies, &mut colliders);
    assert_eq!(world.events().len(), 1);
    world.step(FP::from_int(1), &mut bodies, &mut colliders);
    assert_eq!(world.events().len(), 1);
    assert_eq!(world.events()[0], PhysicsEvent::OverlapEnded(ca, cs, 1, 2));

    // and nothing further after that
    world.step(FP::from_int(1), &mut bodies, &mut colliders);
    assert_eq!(world.events().len(), 0);
}

#[test]
fn removing_body_cascades_to_its_colliders() {
    let mut world = PhysicsWorld::new();
    let mut bodies = BodySet::new();
    let mut colliders = ColliderSet::new();

    let a = bodies.insert(Body::new(Vec2::from_int(0, 0), BodyStatus::Kinematic, false));
    let ca = colliders.insert(solid_box(16, a, 1), &mut bodies).unwrap();
    let b = bodies.insert(Body::new(Vec2::from_int(32, 0), BodyStatus::Static, false));
    let cb = colliders.insert(solid_box(16, b, 2), &mut bodies).unwrap();

    world.step(FP::from_int(1), &mut bodies, &mut colliders);
    assert_eq!(world.events().len(), 1);

    world.remove_body(a, &mut bodies, &mut colliders);
    assert!(bodies.get(a).is_none());
    assert!(colliders.get(ca).is_none());
    assert!(colliders.get(cb).is_some());

    world.step(FP::from_int(1), &mut bodies, &mut colliders);
    assert_eq!(world.events().len(), 1);
    assert_eq!(world.events()[0], PhysicsEvent::CollisionEnded(ca, cb, 1, 2));
}

#[test]
fn zero_delta_time_steps_change_nothing() {
    let mut world = PhysicsWorld::new();
    let mut bodies = BodySet::new();
    let mut colliders = ColliderSet::new();

    let a = bodies.insert(Body::new(Vec2::from_int(0, 0), BodyStatus::Kinematic, false));
    bodies.get_mut(a).velocity = Vec2::from_int(60, 0);
    let _ca = colliders.insert(solid_box(16, a, 1), &mut bodies).unwrap();
    let b = bodies.insert(Body::new(Vec2::from_int(40, 0), BodyStatus::Static, false));
    let _cb = colliders.insert(solid_box(16, b, 2), &mut bodies).unwrap();

    // settle: one real tick brings the pair into contact
    world.step(FP::from_int(1), &mut bodies, &mut colliders);
    let ax = bodies.get(a).unwrap().position;
    let bx = bodies.get(b).unwrap().position;

    for _ in 0..5 {
        world.step(FP::from_int(0), &mut bodies, &mut colliders);
        assert_eq!(bodies.get(a).unwrap().position, ax);
        assert_eq!(bodies.get(b).unwrap().position, bx);
        assert_eq!(world.events().len(), 0);
    }
}

#[test]
fn mask_filtering_suppresses_interaction_in_either_direction() {
    // A's mask excludes B's category, though B still detects A
    let mut world = PhysicsWorld::new();
    let mut bodies = BodySet::new();
    let mut colliders = ColliderSet::new();

    let a = bodies.insert(Body::new(Vec2::from_int(0, 0), BodyStatus::Kinematic, false));
    bodies.get_mut(a).velocity = Vec2::from_int(60, 0);
    let ca = Collider::new(
        AABB { half_exts: Vec2::from_int(16, 16) },
        Vec2::zero(),
        ColliderState::Solid,
        0b01,
        0b01, // detects only category 0b01; B is 0b10
        1,
        a,
    );
    let _ca = colliders.insert(ca, &mut bodies).unwrap();
    let b = bodies.insert(Body::new(Vec2::from_int(40, 0), BodyStatus::Static, false));
    let cb = Collider::new(
        AABB { half_exts: Vec2::from_int(16, 16) },
        Vec2::zero(),
        ColliderState::Solid,
        0b10,
        0b11, // would detect A
        2,
        b,
    );
    let _cb = colliders.insert(cb, &mut bodies).unwrap();

    world.step(FP::from_int(1), &mut bodies, &mut colliders);
    // the pair never interacts: no clamping, no events
    assert_eq!(bodies.get(a).unwrap().position.x, FP::from_int(60));
    assert_eq!(world.events().len(), 0);
}

#[test]
fn self_collision_flag_gates_same_body_pairs() {
    let mut bodies = BodySet::new();

    let off = bodies.insert(Body::new(Vec2::zero(), BodyStatus::Kinematic, false));
    let on = bodies.insert(Body::new(Vec2::zero(), BodyStatus::Kinematic, true));

    let c1 = solid_box(16, off, 1);
    let c2 = solid_box(16, off, 2);
    assert!(!resphys::can_collide(bodies.get(off).unwrap(), &c1, &c2));

    let c3 = solid_box(16, on, 3);
    let c4 = solid_box(16, on, 4);
    assert!(resphys::can_collide(bodies.get(on).unwrap(), &c3, &c4));

    // different owners are unaffected by the flag
    let c5 = solid_box(16, on, 5);
    let c6 = solid_box(16, off, 6);
    assert!(resphys::can_collide(bodies.get(on).unwrap(), &c5, &c6));
}

#[test]
fn overlap_test_finds_matching_colliders() {
    let world = PhysicsWorld::new();
    let mut bodies = BodySet::new();
    let mut colliders = ColliderSet::new();

    let a = bodies.insert(Body::new(Vec2::from_int(0, 0), BodyStatus::Static, false));
    let ca = colliders.insert(solid_box(16, a, 1), &mut bodies).unwrap();
    let b = bodies.insert(Body::new(Vec2::from_int(100, 0), BodyStatus::Static, false));
    let _cb = colliders.insert(solid_box(16, b, 2), &mut bodies).unwrap();

    let hits = world.overlap_test(
        Vec2::from_int(10, 0),
        Vec2::from_int(5, 5),
        u32::MAX,
        &bodies,
        &colliders,
    );
    assert_eq!(hits, vec![ca]);

    // a mask with no common bit matches nothing
    let none = world.overlap_test(
        Vec2::from_int(10, 0),
        Vec2::from_int(5, 5),
        0,
        &bodies,
        &colliders,
    );
    assert!(none.is_empty());
}

#[test]
fn project_ray_reports_entry_distance_and_normal() {
    let world = PhysicsWorld::new();
    let mut bodies = BodySet::new();
    let mut colliders = ColliderSet::new();

    let a = bodies.insert(Body::new(Vec2::from_int(0, 0), BodyStatus::Static, false));
    let ca = colliders.insert(solid_box(16, a, 1), &mut bodies).unwrap();

    let ray = resphys::Ray { origin: Vec2::from_int(-40, 0), dir: Vec2::from_int(1, 0) };
    let hits = world.project_ray(&ray, u32::MAX, &bodies, &colliders);
    assert_eq!(hits.len(), 1);
    assert_eq!(hits[0].0, ca);
    // entry at x = -16, i.e. 24 units from the origin, through the left face
    assert_eq!(hits[0].1.distance, FP::from_int(24));
    assert_eq!(hits[0].1.normal, Vec2::from_int(-1, 0));

    // a ray pointing away misses
    let away = resphys::Ray { origin: Vec2::from_int(-40, 0), dir: Vec2::from_int(-1, 0) };
    assert!(world.project_ray(&away, u32::MAX, &bodies, &colliders).is_empty());
}

#[test]
fn inserting_collider_with_stale_owner_returns_none() {
    let mut world = PhysicsWorld::new();
    let mut bodies = BodySet::new();
    let mut colliders = ColliderSet::new();

    let a = bodies.insert(Body::new(Vec2::zero(), BodyStatus::Static, false));
    world.remove_body(a, &mut bodies, &mut colliders);
    assert!(colliders.insert(solid_box(16, a, 1), &mut bodies).is_none());
}

#[test]
fn interactions_queries_split_collisions_and_overlaps() {
    let mut world = PhysicsWorld::new();
    let mut bodies = BodySet::new();
    let mut colliders = ColliderSet::new();

    let a = bodies.insert(Body::new(Vec2::from_int(0, 0), BodyStatus::Kinematic, false));
    let ca = colliders.insert(solid_box(16, a, 1), &mut bodies).unwrap();
    let b = bodies.insert(Body::new(Vec2::from_int(32, 0), BodyStatus::Static, false));
    let cb = colliders.insert(solid_box(16, b, 2), &mut bodies).unwrap();
    let s = bodies.insert(Body::new(Vec2::from_int(-20, 0), BodyStatus::Static, false));
    let cs = colliders.insert(sensor_box(16, s, 3), &mut bodies).unwrap();

    world.step(FP::from_int(1), &mut bodies, &mut colliders);

    let all = world.interactions_of(ca);
    assert_eq!(all.len(), 2);
    let collisions = world.collisions_of(ca);
    assert_eq!(collisions.len(), 1);
    assert_eq!(collisions[0].0, cb);
    let overlaps = world.overlaps_of(ca);
    assert_eq!(overlaps.len(), 1);
    assert_eq!(overlaps[0].0, cs);
}

#[test]
fn stepping_an_empty_world_does_nothing() {
    let mut world = PhysicsWorld::new();
    let mut bodies = BodySet::new();
    let mut colliders = ColliderSet::new();
    world.step(FP::from_int(1), &mut bodies, &mut colliders);
    assert_eq!(world.events().len(), 0);
    assert!(bodies.iter().is_empty());
    assert!(colliders.iter().is_empty());
}

#[test]
fn removed_slots_are_reused_by_later_insertions() {
    let mut world = PhysicsWorld::new();
    let mut bodies = BodySet::new();
    let mut colliders = ColliderSet::new();
    let h1 = bodies.insert(Body::new(Vec2::from_int(1, 1), BodyStatus::Static, false));
    world.remove_body(h1, &mut bodies, &mut colliders);
    assert!(bodies.get(h1).is_none());
    let h2 = bodies.insert(Body::new(Vec2::from_int(2, 2), BodyStatus::Static, false));
    // the freed slot is reused: stale handles must not be retained
    assert_eq!(h1, h2);
    assert_eq!(bodies.get(h2).unwrap().position, Vec2::from_int(2, 2));
}

#[test]
fn same_body_sensors_overlap_only_with_self_collision_enabled() {
    for (flag, expected_events) in [(false, 0), (true, 1)] {
        let mut world = PhysicsWorld::new();
        let mut bodies = BodySet::new();
        let mut colliders = ColliderSet::new();
        let a = bodies.insert(Body::new(Vec2::from_int(0, 0), BodyStatus::Kinematic, flag));
        let c1 = colliders.insert(sensor_box(16, a, 1), &mut bodies).unwrap();
        let c2 = colliders
            .insert(
                Collider::new(
                    AABB { half_exts: Vec2::from_int(16, 16) },
                    Vec2::from_int(10, 0),
                    ColliderState::Sensor,
                    1,
                    u32::MAX,
                    2,
                    a,
                ),
                &mut bodies,
            )
            .unwrap();
        world.step(FP::from_int(1), &mut bodies, &mut colliders);
        assert_eq!(world.events().len(), expected_events);
        if flag {
            assert_eq!(world.events()[0], PhysicsEvent::OverlapStarted(c1, c2, 1, 2));
        }
    }
}
