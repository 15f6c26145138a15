//! Colliders, the handle-based collider store, and the narrow-phase tests
//! between placed colliders.

use vstd::prelude::*;
use crate::body::{Body, BodyHandle, BodySet};
use crate::collision::{
    aabb_overlap, contact_aabb_aabb, contact_ray_aabb, intersection_aabb_aabb, manifold_spec,
    ray_box_spec, ContactManifold, Ray, Raycast, AABB,
};
use crate::fp::{iabs, FP, Vec2, ARITH_MAX};
use crate::store::{is_key_list, key_list, lemma_is_key_list_canon};

verus! {

/// Unique identifier of a collider stored in the world. If the collider is
/// removed the identifier's slot is reused by later insertions.
#[derive(Copy, Clone, Debug, Hash, PartialEq, Eq, Structural)]
pub struct ColliderHandle(pub usize);

/// State of the collider: whether it resolves penetration or only reports
/// overlap.
#[derive(Copy, Clone, Debug, PartialEq, Eq, Structural)]
pub enum ColliderState {
    /// A solid body resolves collision.
    Solid,
    /// A sensor only sends events about overlap.
    Sensor,
}

/// An axis-aligned box attached to a body.
#[derive(Copy, Clone, Debug, PartialEq, Eq, Structural)]
pub struct Collider {
    /// The box shape.
    pub shape: AABB,
    /// Offset from the owning body's position; zero when centered.
    pub offset: Vec2,
    /// Whether the collider is physical or a sensor.
    pub state: ColliderState,
    /// What the collider is, as a bitmask; ideally one bit.
    pub category_bits: u32,
    /// What the collider detects: two colliders interact only if each one's
    /// category intersects the other's mask.
    pub mask_bits: u32,
    /// Caller-supplied tag, carried into events.
    pub user_tag: u64,
    /// The body owning this collider.
    pub owner: BodyHandle,
}

impl Collider {
    pub fn new(
        shape: AABB,
        offset: Vec2,
        state: ColliderState,
        category_bits: u32,
        mask_bits: u32,
        user_tag: u64,
        owner: BodyHandle,
    ) -> (c: Collider)
        ensures
            c == (Collider { shape, offset, state, category_bits, mask_bits, user_tag, owner }),
    {
        Collider { shape, offset, state, category_bits, mask_bits, user_tag, owner }
    }

    /// The sums placing this collider at a body position stay within the
    /// range the arithmetic assumes.
    pub open spec fn placed_ok(self, pos: Vec2) -> bool {
        &&& -ARITH_MAX <= pos.x.raw + self.offset.x.raw <= ARITH_MAX
        &&& -ARITH_MAX <= pos.y.raw + self.offset.y.raw <= ARITH_MAX
        &&& self.shape.half_exts.bounded()
    }

    /// Whether this collider, owned by a body at `own_position`, overlaps the
    /// box of `half_exts` centered at `position`.
    pub open spec fn overlaps_aabb_spec(self, own_position: Vec2, position: Vec2, half_exts: Vec2) -> bool {
        &&& iabs(own_position.x.raw + self.offset.x.raw - position.x.raw)
            <= self.shape.half_exts.x.raw + half_exts.x.raw
        &&& iabs(own_position.y.raw + self.offset.y.raw - position.y.raw)
            <= self.shape.half_exts.y.raw + half_exts.y.raw
    }

    /// Boundary-inclusive overlap test against a free-standing box.
    pub fn overlaps_aabb(&self, own_position: Vec2, position: Vec2, half_exts: Vec2) -> (r: bool)
        requires
            self.placed_ok(own_position),
            position.bounded(),
            half_exts.bounded(),
        ensures
            r == self.overlaps_aabb_spec(own_position, position, half_exts),
    {
        let own_position = own_position.add(self.offset);
        intersection_aabb_aabb(own_position, self.shape.half_exts, position, half_exts)
    }

    /// Slab intersection of a ray and this collider placed at `own_position`.
    pub fn ray_contact(&self, own_position: Vec2, ray: &Ray) -> (r: Option<Raycast>)
        requires
            self.placed_ok(own_position),
            ray.origin.bounded(),
        ensures
            r == ray_box_spec(*ray, shifted(own_position, self.offset), self.shape.half_exts),
    {
        let own_position = own_position.add(self.offset);
        contact_ray_aabb(ray, own_position, self.shape.half_exts)
    }
}

/// A position displaced by an offset; exact for bounded inputs.
pub open spec fn shifted(p: Vec2, off: Vec2) -> Vec2 {
    Vec2 {
        x: FP { raw: (p.x.raw + off.x.raw) as i64 },
        y: FP { raw: (p.y.raw + off.y.raw) as i64 },
    }
}

/// Two placed colliders' boxes overlap, boundary included.
pub open spec fn colliding_spec(c1: Collider, position1: Vec2, c2: Collider, position2: Vec2) -> bool {
    &&& iabs(
        (position1.x.raw + c1.offset.x.raw) - (position2.x.raw + c2.offset.x.raw),
    ) <= c1.shape.half_exts.x.raw + c2.shape.half_exts.x.raw
    &&& iabs(
        (position1.y.raw + c1.offset.y.raw) - (position2.y.raw + c2.offset.y.raw),
    ) <= c1.shape.half_exts.y.raw + c2.shape.half_exts.y.raw
}

/// Two placed colliders' boxes overlap after the first box is shrunk by
/// `tolerance` raw units on both axes.
pub open spec fn penetrating_spec(
    c1: Collider,
    position1: Vec2,
    c2: Collider,
    position2: Vec2,
    tolerance: int,
) -> bool {
    &&& iabs(
        (position1.x.raw + c1.offset.x.raw) - (position2.x.raw + c2.offset.x.raw),
    ) <= c1.shape.half_exts.x.raw - tolerance + c2.shape.half_exts.x.raw
    &&& iabs(
        (position1.y.raw + c1.offset.y.raw) - (position2.y.raw + c2.offset.y.raw),
    ) <= c1.shape.half_exts.y.raw - tolerance + c2.shape.half_exts.y.raw
}

/// The minimum-translation contact between two placed colliders.
pub open spec fn manifold_between(c1: Collider, position1: Vec2, c2: Collider, position2: Vec2) -> Option<ContactManifold> {
    manifold_spec(
        shifted(position1, c1.offset),
        c1.shape.half_exts,
        shifted(position2, c2.offset),
        c2.shape.half_exts,
    )
}

/// Boolean test whether two placed colliders' boxes touch or overlap.
pub fn is_colliding(collider1: &Collider, position1: Vec2, collider2: &Collider, position2: Vec2) -> (r: bool)
    requires
        collider1.placed_ok(position1),
        collider2.placed_ok(position2),
    ensures
        r == colliding_spec(*collider1, position1, *collider2, position2),
{
    let position1 = position1.add(collider1.offset);
    let position2 = position2.add(collider2.offset);
    intersection_aabb_aabb(
        position1,
        collider1.shape.half_exts,
        position2,
        collider2.shape.half_exts,
    )
}

/// Whether moving the first collider to `position1` would make it penetrate
/// the second beyond `tolerance`: the overlap test with the first box shrunk
/// by `tolerance`, so that boxes resting exactly flush do not count.
pub fn is_penetrating(
    collider1: &Collider,
    position1: Vec2,
    collider2: &Collider,
    position2: Vec2,
    tolerance: FP,
) -> (r: bool)
    requires
        collider1.placed_ok(position1),
        collider2.placed_ok(position2),
        -ARITH_MAX <= collider1.shape.half_exts.x.raw - tolerance.raw <= ARITH_MAX,
        -ARITH_MAX <= collider1.shape.half_exts.y.raw - tolerance.raw <= ARITH_MAX,
    ensures
        r == penetrating_spec(*collider1, position1, *collider2, position2, tolerance.raw as int),
{
    let position1 = position1.add(collider1.offset);
    let position2 = position2.add(collider2.offset);
    let shrunk = Vec2 {
        x: collider1.shape.half_exts.x.sub(tolerance),
        y: collider1.shape.half_exts.y.sub(tolerance),
    };
    intersection_aabb_aabb(position1, shrunk, position2, collider2.shape.half_exts)
}

/// Generates the minimum-translation contact if two placed colliders
/// overlap.
pub fn collision_manifold(
    collider1: &Collider,
    position1: Vec2,
    collider2: &Collider,
    position2: Vec2,
) -> (r: Option<ContactManifold>)
    requires
        collider1.placed_ok(position1),
        collider2.placed_ok(position2),
    ensures
        r == manifold_between(*collider1, position1, *collider2, position2),
{
    let position1 = position1.add(collider1.offset);
    let position2 = position2.add(collider2.offset);
    contact_aabb_aabb(
        position1,
        collider1.shape.half_exts,
        position2,
        collider2.shape.half_exts,
    )
}

/// The handles of a collider store's live entries, in increasing slot order.
pub open spec fn collider_handles_of(colliders: Map<usize, Collider>) -> Seq<ColliderHandle> {
    key_list(colliders.dom()).map_values(|k: usize| ColliderHandle(k))
}

/// The colliders a collider slab holds, as a map from slot key to value.
pub uninterp spec fn collider_slab_view(s: slab::Slab<Collider>) -> Map<usize, Collider>;

/// Relies on `slab::Slab::insert`: the value is stored under a previously
/// vacant key, which is returned; other entries are untouched.
#[verifier::external_body]
fn collider_slab_insert(s: &mut slab::Slab<Collider>, collider: Collider) -> (k: usize)
    ensures
        !collider_slab_view(*old(s)).dom().contains(k),
        collider_slab_view(*final(s)) == collider_slab_view(*old(s)).insert(k, collider),
{
    s.insert(collider)
}

/// Relies on `slab::Slab::get`: returns the value stored under the key, or
/// `None` when the slot is vacant or out of range.
#[verifier::external_body]
fn collider_slab_get(s: &slab::Slab<Collider>, k: usize) -> (r: Option<&Collider>)
    ensures
        match r {
            Some(c) => collider_slab_view(*s).dom().contains(k) && *c == collider_slab_view(*s)[k],
            None => !collider_slab_view(*s).dom().contains(k),
        },
{
    s.get(k)
}

/// Relies on `slab::Slab::remove`: removes and returns the value stored
/// under an occupied key; other entries are untouched.
#[verifier::external_body]
fn collider_slab_remove(s: &mut slab::Slab<Collider>, k: usize) -> (c: Collider)
    requires
        collider_slab_view(*old(s)).dom().contains(k),
    ensures
        c == collider_slab_view(*old(s))[k],
        collider_slab_view(*final(s)) == collider_slab_view(*old(s)).remove(k),
{
    s.remove(k)
}

/// Relies on `slab::Slab::iter`: yields exactly the occupied entries, in
/// increasing key order.
#[verifier::external_body]
fn collider_slab_keys(s: &slab::Slab<Collider>) -> (ks: Vec<usize>)
    ensures
        is_key_list(ks@, collider_slab_view(*s).dom()),
{
    s.iter().map(|e| e.0).collect()
}

/// The body equals the old one with one collider handle appended.
pub open spec fn body_with_collider(b: Body, b2: Body, h: ColliderHandle) -> bool {
    &&& b2.position == b.position
    &&& b2.velocity == b.velocity
    &&& b2.movement == b.movement
    &&& b2.status == b.status
    &&& b2.self_collide == b.self_collide
    &&& b2.colliders@ == b.colliders@.push(h)
}

/// Container for colliders. Each insertion attaches the collider to its
/// owning body and returns a stable handle, valid until removal.
pub struct ColliderSet {
    slots: slab::Slab<Collider>,
}

impl View for ColliderSet {
    type V = Map<usize, Collider>;

    closed spec fn view(&self) -> Map<usize, Collider> {
        collider_slab_view(self.slots)
    }
}

impl Default for ColliderSet {
    fn default() -> (s: Self)
        ensures
            forall|k: usize| !s@.dom().contains(k),
    {
        ColliderSet::new()
    }
}

impl ColliderSet {
    /// Relies on `slab::Slab::new`: the new store is empty.
    #[verifier::external_body]
    pub fn new() -> (s: ColliderSet)
        ensures
            forall|k: usize| !s@.dom().contains(k),
    {
        ColliderSet { slots: slab::Slab::new() }
    }

    /// Inserts a new collider and attaches it to its owning body, whose
    /// handle the collider carries. Returns `None`, storing nothing, when the
    /// owner does not resolve to a live body.
    pub fn insert(&mut self, collider: Collider, bodies: &mut BodySet) -> (r: Option<ColliderHandle>)
        ensures
            match r {
                Some(h) => {
                    &&& old(bodies)@.dom().contains(collider.owner.0)
                    &&& !old(self)@.dom().contains(h.0)
                    &&& final(self)@ == old(self)@.insert(h.0, collider)
                    &&& final(bodies)@ == old(bodies)@.insert(
                        collider.owner.0,
                        final(bodies)@[collider.owner.0],
                    )
                    &&& body_with_collider(
                        old(bodies)@[collider.owner.0],
                        final(bodies)@[collider.owner.0],
                        h,
                    )
                },
                None => {
                    &&& !old(bodies)@.dom().contains(collider.owner.0)
                    &&& final(self)@ == old(self)@
                    &&& final(bodies)@ == old(bodies)@
                },
            },
    {
        if bodies.contains(collider.owner) {
            let owner = collider.owner;
            let k = collider_slab_insert(&mut self.slots, collider);
            let h = ColliderHandle(k);
            let body = bodies.get_mut(owner);
            body.colliders.push(h);
            Some(h)
        } else {
            None
        }
    }

    /// The collider stored under the handle, or `None` when the handle is
    /// stale or was never issued.
    pub fn get(&self, handle: ColliderHandle) -> (r: Option<&Collider>)
        ensures
            match r {
                Some(c) => self@.dom().contains(handle.0) && *c == self@[handle.0],
                None => !self@.dom().contains(handle.0),
            },
    {
        collider_slab_get(&self.slots, handle.0)
    }

    /// Whether a collider lives under the handle.
    pub fn contains(&self, handle: ColliderHandle) -> (r: bool)
        ensures
            r == self@.dom().contains(handle.0),
    {
        self.get(handle).is_some()
    }

    /// The collider stored under a live handle.
    pub fn index(&self, handle: ColliderHandle) -> (r: &Collider)
        requires
            self@.dom().contains(handle.0),
        ensures
            *r == self@[handle.0],
    {
        self.get(handle).unwrap()
    }

    /// The handles of all live colliders, in increasing slot order.
    pub fn iter(&self) -> (hs: Vec<ColliderHandle>)
        ensures
            hs@ == collider_handles_of(self@),
            is_key_list(hs@.map_values(|h: ColliderHandle| h.0), self@.dom()),
    {
        let ks = collider_slab_keys(&self.slots);
        let mut hs: Vec<ColliderHandle> = Vec::new();
        let mut i: usize = 0;
        proof {
            assert(hs@.map_values(|h: ColliderHandle| h.0) =~= ks@.take(0));
        }
        while i < ks.len()
            invariant
                i <= ks@.len(),
                hs@.map_values(|h: ColliderHandle| h.0) == ks@.take(i as int),
            decreases ks@.len() - i,
        {
            hs.push(ColliderHandle(ks[i]));
            proof {
                assert(hs@.map_values(|h: ColliderHandle| h.0) =~= ks@.take(i as int + 1));
            }
            i += 1;
        }
        proof {
            assert(ks@.take(ks@.len() as int) =~= ks@);
            lemma_is_key_list_canon(ks@, self@.dom());
            assert(hs@ =~= key_list(self@.dom()).map_values(|k: usize| ColliderHandle(k))) by {
                assert(forall|j: int|
                    0 <= j < hs@.len() ==> (#[trigger] hs@[j]).0 == ks@[j]);
            }
        }
        hs
    }

    /// Removes and returns the collider under a live handle. Internal: public
    /// removal goes through the world, which also ends live interactions.
    pub(crate) fn internal_remove(&mut self, handle: ColliderHandle) -> (c: Collider)
        requires
            old(self)@.dom().contains(handle.0),
        ensures
            c == old(self)@[handle.0],
            final(self)@ == old(self)@.remove(handle.0),
    {
        collider_slab_remove(&mut self.slots, handle.0)
    }
}

} // verus!
