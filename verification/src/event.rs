//! Events generated by the physics engine: start and end transitions of
//! overlaps and collisions, derived from contact-graph edges.

use vstd::prelude::*;
use crate::collider::{Collider, ColliderHandle};

verus! {

/// An interaction transition, carrying both participants' handles and tags.
/// For a pair of a solid and a sensor collider the solid participant is
/// always first.
#[derive(Copy, Clone, Debug, PartialEq, Eq, Structural)]
pub enum PhysicsEvent {
    OverlapStarted(ColliderHandle, ColliderHandle, u64, u64),
    OverlapEnded(ColliderHandle, ColliderHandle, u64, u64),
    CollisionStarted(ColliderHandle, ColliderHandle, u64, u64),
    CollisionEnded(ColliderHandle, ColliderHandle, u64, u64),
}

/// The event announcing that an interaction began: a collision when both
/// colliders are solid, otherwise an overlap with the solid participant, if
/// any, first.
pub open spec fn started_event_spec(h1: ColliderHandle, c1: Collider, h2: ColliderHandle, c2: Collider) -> PhysicsEvent {
    if c1.state is Solid && c2.state is Solid {
        PhysicsEvent::CollisionStarted(h1, h2, c1.user_tag, c2.user_tag)
    } else if c1.state is Sensor && c2.state is Solid {
        PhysicsEvent::OverlapStarted(h2, h1, c2.user_tag, c1.user_tag)
    } else {
        PhysicsEvent::OverlapStarted(h1, h2, c1.user_tag, c2.user_tag)
    }
}

/// The event announcing that an interaction ended, ordered like the started
/// event of the same pair.
pub open spec fn ended_event_spec(h1: ColliderHandle, c1: Collider, h2: ColliderHandle, c2: Collider) -> PhysicsEvent {
    if c1.state is Solid && c2.state is Solid {
        PhysicsEvent::CollisionEnded(h1, h2, c1.user_tag, c2.user_tag)
    } else if c1.state is Sensor && c2.state is Solid {
        PhysicsEvent::OverlapEnded(h2, h1, c2.user_tag, c1.user_tag)
    } else {
        PhysicsEvent::OverlapEnded(h1, h2, c1.user_tag, c2.user_tag)
    }
}

/// Builds the started event of a pair from its colliders' states and tags.
pub fn started_event(h1: ColliderHandle, c1: &Collider, h2: ColliderHandle, c2: &Collider) -> (e: PhysicsEvent)
    ensures
        e == started_event_spec(h1, *c1, h2, *c2),
{
    match (c1.state, c2.state) {
        (crate::collider::ColliderState::Solid, crate::collider::ColliderState::Solid) => {
            PhysicsEvent::CollisionStarted(h1, h2, c1.user_tag, c2.user_tag)
        },
        (crate::collider::ColliderState::Sensor, crate::collider::ColliderState::Solid) => {
            PhysicsEvent::OverlapStarted(h2, h1, c2.user_tag, c1.user_tag)
        },
        _ => PhysicsEvent::OverlapStarted(h1, h2, c1.user_tag, c2.user_tag),
    }
}

/// Builds the ended event of a pair from its colliders' states and tags.
pub fn ended_event(h1: ColliderHandle, c1: &Collider, h2: ColliderHandle, c2: &Collider) -> (e: PhysicsEvent)
    ensures
        e == ended_event_spec(h1, *c1, h2, *c2),
{
    match (c1.state, c2.state) {
        (crate::collider::ColliderState::Solid, crate::collider::ColliderState::Solid) => {
            PhysicsEvent::CollisionEnded(h1, h2, c1.user_tag, c2.user_tag)
        },
        (crate::collider::ColliderState::Sensor, crate::collider::ColliderState::Solid) => {
            PhysicsEvent::OverlapEnded(h2, h1, c2.user_tag, c1.user_tag)
        },
        _ => PhysicsEvent::OverlapEnded(h1, h2, c1.user_tag, c2.user_tag),
    }
}

} // verus!
