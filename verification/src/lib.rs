//! A deterministic 2D rigid-body collision engine for axis-aligned boxes.
//!
//! Bodies move under velocity; solid colliders resolve penetration with an
//! axis-separated sweep; sensor colliders only report overlap. A persistent
//! contact graph tracks interaction lifetimes across steps and start/end
//! transition events are derived from its edges.
#![verifier::loop_isolation(false)]

mod body;
mod collider;
mod collision;
mod event;
mod fp;
mod graph;
mod laws;
mod store;
mod world;

pub use event::{ended_event, ended_event_spec, started_event, started_event_spec, PhysicsEvent};
pub use graph::{
    edge_connects, edge_touches, graph_wf, has_edge, interactions_of_spec, neighbors_spec,
    remove_node_spec, update_edge_spec, CollisionGraph, CollisionInfo, ContactEdge, Interaction,
};

pub use body::{body_handles_of, Body, BodyHandle, BodySet, BodyStatus};
pub use collider::{
    body_with_collider, collider_handles_of, collision_manifold, colliding_spec, is_colliding,
    is_penetrating, manifold_between, penetrating_spec, shifted, Collider, ColliderHandle,
    ColliderSet, ColliderState,
};
pub use laws::{
    count_pair_events, edge_transition_count, event_names_pair, graph_complete, graph_current,
    lemma_can_collide_symmetric, lemma_contact_lifecycle, lemma_manifold_contact,
    lemma_overlap_boundary, lemma_removal_ends_interactions, lemma_self_collision_flag,
    lemma_sensor_no_position_correction, lemma_zero_dt_step, no_solid_penetration, zero_movement,
};
pub use store::{is_key_list, key_list};
pub use world::{
    bodies_collider_detached, can_collide, can_collide_spec, classify, describe_args_ok,
    describe_edges_spec, describe_events_spec, edge_classify, edge_events, edges_live,
    ended_events_of, graph_ok, integrate_body, integrate_ok, integrate_spec, list_without,
    owned_ok, placements_ok, overlap_test_spec, project_ray_spec, removal_events_spec,
    lemma_step_preserves_graph_wf, remove_all_spec, step_bodies_spec, step_edges_pre_describe,
    step_events_spec, step_graph_spec,
    step_req, step_state_spec, step_x_all, step_x_all_ok, step_y_all, step_y_all_ok, stores_wf,
    PhysicsWorld, CONTACT_TOLERANCE_RAW,
};
pub use collision::{
    aabb_overlap, aabb_overlap_shrunk, contact_aabb_aabb, contact_ray_aabb,
    intersection_aabb_aabb, manifold_spec, ray_box_spec, ContactManifold, Ray, Raycast, AABB,
};
pub use fp::{fp_div_sat_val, fp_mul_val, iabs, imax, imin, lemma_fp_mul_zero, FP, Vec2, ARITH_MAX, FP_ONE};
