//! The persistent contact graph: the set of collider pairs currently in
//! contact, each edge carrying the interaction classified on the last
//! completed step. Represented as an edge list over collider handles.

use vstd::prelude::*;
use crate::collider::ColliderHandle;
use crate::fp::{FP, Vec2};

verus! {

/// Cached contact of a solid/solid collision: the unit axis normal and the
/// penetration depth along it.
#[derive(Copy, Clone, Debug, PartialEq, Eq, Structural)]
pub struct CollisionInfo {
    pub normal: Vec2,
    pub depth: FP,
}

/// The classified interaction of a pair of colliders.
#[derive(Copy, Clone, Debug, PartialEq, Eq, Structural)]
pub enum Interaction {
    /// The pair overlaps but at least one side is a sensor.
    Overlap,
    /// Both sides are solid and a contact was computed.
    Collision(CollisionInfo),
}

impl Interaction {
    /// The cached contact, when the interaction is a collision.
    pub fn collision(&self) -> (r: Option<&CollisionInfo>)
        ensures
            match r {
                Some(info) => *self is Collision && *info == self->Collision_0,
                None => *self is Overlap,
            },
    {
        match self {
            Interaction::Collision(info) => Some(info),
            Interaction::Overlap => None,
        }
    }

    pub fn is_overlap(&self) -> (r: bool)
        ensures
            r == (*self is Overlap),
    {
        match self {
            Interaction::Overlap => true,
            Interaction::Collision(_) => false,
        }
    }
}

/// An undirected edge between two collider handles. `interaction` is the
/// classification of the previous step; `None` marks an edge recorded this
/// step and not yet classified.
#[derive(Copy, Clone, Debug, PartialEq, Eq, Structural)]
pub struct ContactEdge {
    pub a: ColliderHandle,
    pub b: ColliderHandle,
    pub interaction: Option<Interaction>,
}

/// The edge joins `h1` and `h2`, in either orientation.
pub open spec fn edge_connects(e: ContactEdge, h1: ColliderHandle, h2: ColliderHandle) -> bool {
    (e.a == h1 && e.b == h2) || (e.a == h2 && e.b == h1)
}

/// The edge has `h` as one of its endpoints.
pub open spec fn edge_touches(e: ContactEdge, h: ColliderHandle) -> bool {
    e.a == h || e.b == h
}

/// Some edge of the list joins `h1` and `h2`.
pub open spec fn has_edge(s: Seq<ContactEdge>, h1: ColliderHandle, h2: ColliderHandle) -> bool {
    exists|i: int| 0 <= i < s.len() && edge_connects(#[trigger] s[i], h1, h2)
}

/// No self-loops and no two edges joining the same pair.
pub open spec fn graph_wf(s: Seq<ContactEdge>) -> bool {
    &&& forall|i: int| 0 <= i < s.len() ==> (#[trigger] s[i]).a != s[i].b
    &&& forall|i: int, j: int|
        0 <= i < j < s.len() ==> !edge_connects(#[trigger] s[j], (#[trigger] s[i]).a, s[i].b)
}

/// The edge list after recording contact between `h1` and `h2`: unchanged
/// when the pair already has an edge, otherwise extended by an unclassified
/// edge.
pub open spec fn update_edge_spec(s: Seq<ContactEdge>, h1: ColliderHandle, h2: ColliderHandle) -> Seq<ContactEdge> {
    if has_edge(s, h1, h2) {
        s
    } else {
        s.push(ContactEdge { a: h1, b: h2, interaction: None })
    }
}

/// The other endpoints of the edges touching `h`, in edge order.
pub open spec fn neighbors_spec(s: Seq<ContactEdge>, h: ColliderHandle) -> Seq<ColliderHandle>
    decreases s.len(),
{
    if s.len() == 0 {
        Seq::empty()
    } else {
        let rest = neighbors_spec(s.drop_first(), h);
        if s[0].a == h {
            seq![s[0].b] + rest
        } else if s[0].b == h {
            seq![s[0].a] + rest
        } else {
            rest
        }
    }
}

/// The edge list without the edges touching `h`, in order.
pub open spec fn remove_node_spec(s: Seq<ContactEdge>, h: ColliderHandle) -> Seq<ContactEdge>
    decreases s.len(),
{
    if s.len() == 0 {
        Seq::empty()
    } else {
        let rest = remove_node_spec(s.drop_first(), h);
        if edge_touches(s[0], h) {
            rest
        } else {
            seq![s[0]] + rest
        }
    }
}

/// The classified interactions on edges touching `h`, paired with the other
/// endpoint, in edge order; unclassified edges are not reported.
pub open spec fn interactions_of_spec(s: Seq<ContactEdge>, h: ColliderHandle) -> Seq<(ColliderHandle, Interaction)>
    decreases s.len(),
{
    if s.len() == 0 {
        Seq::empty()
    } else {
        let rest = interactions_of_spec(s.drop_first(), h);
        match s[0].interaction {
            Some(inter) => {
                if s[0].a == h {
                    seq![(s[0].b, inter)] + rest
                } else if s[0].b == h {
                    seq![(s[0].a, inter)] + rest
                } else {
                    rest
                }
            },
            None => rest,
        }
    }
}

/// An undirected graph over collider handles whose edges record the current
/// classified interaction of each pair in contact.
pub struct CollisionGraph {
    pub edges: Vec<ContactEdge>,
}

impl CollisionGraph {
    pub fn new() -> (g: CollisionGraph)
        ensures
            g.edges@ == Seq::<ContactEdge>::empty(),
    {
        CollisionGraph { edges: Vec::new() }
    }

    /// Records that `h1` and `h2` are in contact: adds an unclassified edge
    /// unless the pair already has one.
    pub fn update_edge(&mut self, h1: ColliderHandle, h2: ColliderHandle)
        ensures
            final(self).edges@ == update_edge_spec(old(self).edges@, h1, h2),
    {
        let n = self.edges.len();
        let mut i: usize = 0;
        while i < n
            invariant
                i <= n,
                n == self.edges@.len(),
                self.edges@ == old(self).edges@,
                forall|j: int| 0 <= j < i ==> !edge_connects(#[trigger] self.edges@[j], h1, h2),
            decreases n - i,
        {
            let e = self.edges[i];
            if (e.a == h1 && e.b == h2) || (e.a == h2 && e.b == h1) {
                proof {
                    assert(has_edge(self.edges@, h1, h2));
                }
                return ;
            }
            i += 1;
        }
        proof {
            assert(!has_edge(self.edges@, h1, h2));
        }
        self.edges.push(ContactEdge { a: h1, b: h2, interaction: None });
    }

    /// The other endpoints of all edges touching `h`, in edge order.
    pub fn neighbors_of(&self, h: ColliderHandle) -> (r: Vec<ColliderHandle>)
        ensures
            r@ == neighbors_spec(self.edges@, h),
    {
        let s = &self.edges;
        let n = s.len();
        let ghost sq = s@;
        let mut out: Vec<ColliderHandle> = Vec::new();
        let mut i: usize = 0;
        proof {
            assert(sq.skip(0) =~= sq);
            assert(neighbors_spec(sq, h) =~= out@ + neighbors_spec(sq.skip(0), h));
        }
        while i < n
            invariant
                i <= n,
                n == sq.len(),
                sq == self.edges@,
                neighbors_spec(sq, h) == out@ + neighbors_spec(sq.skip(i as int), h),
            decreases n - i,
        {
            proof {
                assert(sq.skip(i as int).drop_first() =~= sq.skip(i as int + 1));
                assert(sq.skip(i as int)[0] == sq[i as int]);
            }
            let e = s[i];
            if e.a == h {
                out.push(e.b);
                proof {
                    assert(neighbors_spec(sq, h) =~= out@ + neighbors_spec(sq.skip(i as int + 1), h));
                }
            } else if e.b == h {
                out.push(e.a);
                proof {
                    assert(neighbors_spec(sq, h) =~= out@ + neighbors_spec(sq.skip(i as int + 1), h));
                }
            }
            i += 1;
        }
        proof {
            assert(sq.skip(n as int) =~= Seq::<ContactEdge>::empty());
            assert(neighbors_spec(sq, h) =~= out@);
        }
        out
    }

    /// Deletes `h`'s node: every edge touching `h` is removed.
    pub fn remove_node(&mut self, h: ColliderHandle)
        ensures
            final(self).edges@ == remove_node_spec(old(self).edges@, h),
    {
        let n = self.edges.len();
        let ghost sq = self.edges@;
        let mut out: Vec<ContactEdge> = Vec::new();
        let mut i: usize = 0;
        proof {
            assert(sq.skip(0) =~= sq);
            assert(remove_node_spec(sq, h) =~= out@ + remove_node_spec(sq.skip(0), h));
        }
        while i < n
            invariant
                i <= n,
                n == sq.len(),
                sq == self.edges@,
                remove_node_spec(sq, h) == out@ + remove_node_spec(sq.skip(i as int), h),
            decreases n - i,
        {
            proof {
                assert(sq.skip(i as int).drop_first() =~= sq.skip(i as int + 1));
                assert(sq.skip(i as int)[0] == sq[i as int]);
            }
            let e = self.edges[i];
            if !(e.a == h || e.b == h) {
                out.push(e);
                proof {
                    assert(remove_node_spec(sq, h) =~= out@ + remove_node_spec(sq.skip(i as int + 1), h));
                }
            }
            i += 1;
        }
        proof {
            assert(sq.skip(n as int) =~= Seq::<ContactEdge>::empty());
            assert(remove_node_spec(sq, h) =~= out@);
        }
        self.edges = out;
    }

    /// The classified interactions of the edges touching `h`, each paired
    /// with the other endpoint, in edge order.
    pub fn edges_of(&self, h: ColliderHandle) -> (r: Vec<(ColliderHandle, Interaction)>)
        ensures
            r@ == interactions_of_spec(self.edges@, h),
    {
        let s = &self.edges;
        let n = s.len();
        let ghost sq = s@;
        let mut out: Vec<(ColliderHandle, Interaction)> = Vec::new();
        let mut i: usize = 0;
        proof {
            assert(sq.skip(0) =~= sq);
            assert(interactions_of_spec(sq, h) =~= out@ + interactions_of_spec(sq.skip(0), h));
        }
        while i < n
            invariant
                i <= n,
                n == sq.len(),
                sq == self.edges@,
                interactions_of_spec(sq, h) == out@ + interactions_of_spec(sq.skip(i as int), h),
            decreases n - i,
        {
            proof {
                assert(sq.skip(i as int).drop_first() =~= sq.skip(i as int + 1));
                assert(sq.skip(i as int)[0] == sq[i as int]);
            }
            let e = s[i];
            match e.interaction {
                Some(inter) => {
                    if e.a == h {
                        out.push((e.b, inter));
                        proof {
                            assert(interactions_of_spec(sq, h) =~= out@ + interactions_of_spec(
                                sq.skip(i as int + 1),
                                h,
                            ));
                        }
                    } else if e.b == h {
                        out.push((e.a, inter));
                        proof {
                            assert(interactions_of_spec(sq, h) =~= out@ + interactions_of_spec(
                                sq.skip(i as int + 1),
                                h,
                            ));
                        }
                    }
                },
                None => {},
            }
            i += 1;
        }
        proof {
            assert(sq.skip(n as int) =~= Seq::<ContactEdge>::empty());
            assert(interactions_of_spec(sq, h) =~= out@);
        }
        out
    }
}

} // verus!
