//! Bodies and the handle-based body store.

use vstd::prelude::*;
use crate::collider::ColliderHandle;
use crate::fp::Vec2;
use crate::store::{is_key_list, key_list, lemma_is_key_list_canon};

verus! {

/// Unique identifier of a body stored in the world. If the body is removed
/// the identifier's slot is reused by later insertions.
#[derive(Copy, Clone, Debug, Hash, PartialEq, Eq, Structural)]
pub struct BodyHandle(pub usize);

/// Whether a body is moved by the integrator.
#[derive(Copy, Clone, Debug, PartialEq, Eq, Structural)]
pub enum BodyStatus {
    /// Never moved, but collidable.
    Static,
    /// Moved by its velocity each step.
    Kinematic,
}

/// A point-mass entity owning zero or more colliders.
#[derive(Clone, Debug)]
pub struct Body {
    pub position: Vec2,
    pub velocity: Vec2,
    /// Movement pending in the current step; recomputed every tick and not
    /// meaningful across ticks.
    pub movement: Vec2,
    pub status: BodyStatus,
    /// Whether two colliders owned by this body may interact with each other.
    pub self_collide: bool,
    /// Handles of the colliders attached to this body.
    pub colliders: Vec<ColliderHandle>,
}

impl Body {
    /// A new body at `position` with zero velocity and no colliders.
    pub fn new(position: Vec2, status: BodyStatus, self_collide: bool) -> (b: Body)
        ensures
            b.position == position,
            b.velocity.x.raw == 0 && b.velocity.y.raw == 0,
            b.movement.x.raw == 0 && b.movement.y.raw == 0,
            b.status == status,
            b.self_collide == self_collide,
            b.colliders@ == Seq::<ColliderHandle>::empty(),
    {
        Body {
            position,
            velocity: Vec2::zero(),
            movement: Vec2::zero(),
            status,
            self_collide,
            colliders: Vec::new(),
        }
    }
}

/// The handles of a body store's live entries, in increasing slot order.
pub open spec fn body_handles_of(bodies: Map<usize, Body>) -> Seq<BodyHandle> {
    key_list(bodies.dom()).map_values(|k: usize| BodyHandle(k))
}

/// The bodies a body slab holds, as a map from slot key to value.
pub uninterp spec fn body_slab_view(s: slab::Slab<Body>) -> Map<usize, Body>;

/// Relies on `slab::Slab::insert`: the value is stored under a previously
/// vacant key, which is returned; other entries are untouched.
#[verifier::external_body]
fn body_slab_insert(s: &mut slab::Slab<Body>, body: Body) -> (k: usize)
    ensures
        !body_slab_view(*old(s)).dom().contains(k),
        body_slab_view(*final(s)) == body_slab_view(*old(s)).insert(k, body),
{
    s.insert(body)
}

/// Relies on `slab::Slab::get`: returns the value stored under the key, or
/// `None` when the slot is vacant or out of range.
#[verifier::external_body]
fn body_slab_get(s: &slab::Slab<Body>, k: usize) -> (r: Option<&Body>)
    ensures
        match r {
            Some(b) => body_slab_view(*s).dom().contains(k) && *b == body_slab_view(*s)[k],
            None => !body_slab_view(*s).dom().contains(k),
        },
{
    s.get(k)
}

/// Relies on `slab::Slab::get_mut`: returns a mutable reference to the value
/// stored under an occupied key.
#[verifier::external_body]
fn body_slab_get_mut(s: &mut slab::Slab<Body>, k: usize) -> (r: &mut Body)
    requires
        body_slab_view(*old(s)).dom().contains(k),
    ensures
        *r == body_slab_view(*old(s))[k],
        body_slab_view(*final(s)) == body_slab_view(*old(s)).insert(k, *final(r)),
{
    s.get_mut(k).unwrap()
}

/// Relies on `slab::Slab::remove`: removes and returns the value stored
/// under an occupied key; other entries are untouched.
#[verifier::external_body]
fn body_slab_remove(s: &mut slab::Slab<Body>, k: usize) -> (b: Body)
    requires
        body_slab_view(*old(s)).dom().contains(k),
    ensures
        b == body_slab_view(*old(s))[k],
        body_slab_view(*final(s)) == body_slab_view(*old(s)).remove(k),
{
    s.remove(k)
}

/// Relies on `slab::Slab::iter`: yields exactly the occupied entries, in
/// increasing key order.
#[verifier::external_body]
fn body_slab_keys(s: &slab::Slab<Body>) -> (ks: Vec<usize>)
    ensures
        is_key_list(ks@, body_slab_view(*s).dom()),
{
    s.iter().map(|e| e.0).collect()
}

/// Container for bodies. Each insertion returns a stable handle, valid until
/// the body is removed; removal is mediated by the world so that the contact
/// graph is cleaned up.
pub struct BodySet {
    slots: slab::Slab<Body>,
}

impl View for BodySet {
    type V = Map<usize, Body>;

    closed spec fn view(&self) -> Map<usize, Body> {
        body_slab_view(self.slots)
    }
}

impl Default for BodySet {
    fn default() -> (s: Self)
        ensures
            forall|k: usize| !s@.dom().contains(k),
    {
        BodySet::new()
    }
}

impl BodySet {
    /// Relies on `slab::Slab::new`: the new store is empty.
    #[verifier::external_body]
    pub fn new() -> (s: BodySet)
        ensures
            forall|k: usize| !s@.dom().contains(k),
    {
        BodySet { slots: slab::Slab::new() }
    }

    /// Inserts a new body and returns its unique handle.
    pub fn insert(&mut self, body: Body) -> (h: BodyHandle)
        ensures
            !old(self)@.dom().contains(h.0),
            final(self)@ == old(self)@.insert(h.0, body),
    {
        BodyHandle(body_slab_insert(&mut self.slots, body))
    }

    /// The body stored under the handle, or `None` when the handle is stale
    /// or was never issued.
    pub fn get(&self, handle: BodyHandle) -> (r: Option<&Body>)
        ensures
            match r {
                Some(b) => self@.dom().contains(handle.0) && *b == self@[handle.0],
                None => !self@.dom().contains(handle.0),
            },
    {
        body_slab_get(&self.slots, handle.0)
    }

    /// Whether a body lives under the handle.
    pub fn contains(&self, handle: BodyHandle) -> (r: bool)
        ensures
            r == self@.dom().contains(handle.0),
    {
        self.get(handle).is_some()
    }

    /// The body stored under a live handle.
    pub fn index(&self, handle: BodyHandle) -> (r: &Body)
        requires
            self@.dom().contains(handle.0),
        ensures
            *r == self@[handle.0],
    {
        self.get(handle).unwrap()
    }

    /// Mutable access to the body stored under a live handle.
    pub fn get_mut(&mut self, handle: BodyHandle) -> (r: &mut Body)
        requires
            old(self)@.dom().contains(handle.0),
        ensures
            *r == old(self)@[handle.0],
            final(self)@ == old(self)@.insert(handle.0, *final(r)),
    {
        body_slab_get_mut(&mut self.slots, handle.0)
    }

    /// The handles of all live bodies, in increasing slot order.
    pub fn iter(&self) -> (hs: Vec<BodyHandle>)
        ensures
            hs@ == body_handles_of(self@),
            is_key_list(hs@.map_values(|h: BodyHandle| h.0), self@.dom()),
    {
        let ks = body_slab_keys(&self.slots);
        let mut hs: Vec<BodyHandle> = Vec::new();
        let mut i: usize = 0;
        while i < ks.len()
            invariant
                i <= ks@.len(),
                hs@.map_values(|h: BodyHandle| h.0) == ks@.take(i as int),
            decreases ks@.len() - i,
        {
            hs.push(BodyHandle(ks[i]));
            proof {
                assert(hs@.map_values(|h: BodyHandle| h.0) =~= ks@.take(i as int + 1));
            }
            i += 1;
        }
        proof {
            assert(ks@.take(ks@.len() as int) =~= ks@);
            lemma_is_key_list_canon(ks@, self@.dom());
            assert(hs@ =~= key_list(self@.dom()).map_values(|k: usize| BodyHandle(k))) by {
                assert(forall|j: int|
                    0 <= j < hs@.len() ==> (#[trigger] hs@[j]).0 == ks@[j]);
            }
        }
        hs
    }

    /// Removes and returns the body under a live handle. Internal: public
    /// removal goes through the world, which also removes owned colliders.
    pub(crate) fn internal_remove(&mut self, handle: BodyHandle) -> (b: Body)
        requires
            old(self)@.dom().contains(handle.0),
        ensures
            b == old(self)@[handle.0],
            final(self)@ == old(self)@.remove(handle.0),
    {
        body_slab_remove(&mut self.slots, handle.0)
    }
}

} // verus!
