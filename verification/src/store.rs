//! Shared support for the handle-based entity stores, which keep their
//! values in `slab::Slab`: the declaration of the outside type and the
//! sorted key list through which iteration order is specified.

use vstd::prelude::*;

verus! {

/// `slab::Slab` is an outside collection; its values are reached only
/// through the trusted wrappers of the entity stores.
#[verifier::external_type_specification]
#[verifier::external_body]
#[verifier::reject_recursive_types(T)]
pub struct ExSlab<T>(slab::Slab<T>);

/// `ks` lists exactly the keys of `dom`, in strictly increasing order.
pub open spec fn is_key_list(ks: Seq<usize>, dom: Set<usize>) -> bool {
    &&& forall|i: int, j: int| 0 <= i < j < ks.len() ==> ks[i] < ks[j]
    &&& forall|i: int| 0 <= i < ks.len() ==> dom.contains(#[trigger] ks[i])
    &&& forall|k: usize| #[trigger] dom.contains(k) ==> ks.contains(k)
}

/// The unique strictly increasing list of the keys of `dom`; meaningful
/// whenever some key list exists, which the stores' iteration wrappers
/// witness.
pub open spec fn key_list(dom: Set<usize>) -> Seq<usize> {
    choose|ks: Seq<usize>| is_key_list(ks, dom)
}

/// Two strictly increasing lists of the same key set are equal.
pub proof fn lemma_key_list_unique(ks1: Seq<usize>, ks2: Seq<usize>, dom: Set<usize>)
    requires
        is_key_list(ks1, dom),
        is_key_list(ks2, dom),
    ensures
        ks1 == ks2,
    decreases ks1.len(),
{
    if ks1.len() == 0 {
        if ks2.len() > 0 {
            assert(dom.contains(ks2[0]));
            assert(ks1.contains(ks2[0]));
            assert(false);
        }
        assert(ks1 =~= ks2);
    } else if ks2.len() == 0 {
        assert(dom.contains(ks1[0]));
        assert(ks2.contains(ks1[0]));
        assert(false);
    } else {
        assert(dom.contains(ks1[0]));
        assert(dom.contains(ks2[0]));
        assert(ks2.contains(ks1[0]));
        assert(ks1.contains(ks2[0]));
        let i2 = choose|i: int| 0 <= i < ks2.len() && ks2[i] == ks1[0];
        let i1 = choose|i: int| 0 <= i < ks1.len() && ks1[i] == ks2[0];
        assert(ks2[0] <= ks2[i2]);
        assert(ks1[0] <= ks1[i1]);
        assert(ks1[0] == ks2[0]);
        let head = ks1[0];
        let d = dom.remove(head);
        let t1 = ks1.drop_first();
        let t2 = ks2.drop_first();
        assert(is_key_list(t1, d)) by {
            assert forall|i: int| 0 <= i < t1.len() implies d.contains(#[trigger] t1[i]) by {
                assert(t1[i] == ks1[i + 1]);
                assert(ks1[0] < ks1[i + 1]);
            }
            assert forall|k: usize| #[trigger] d.contains(k) implies t1.contains(k) by {
                assert(dom.contains(k));
                let i = choose|i: int| 0 <= i < ks1.len() && ks1[i] == k;
                assert(i != 0);
                assert(t1[i - 1] == k);
            }
        }
        assert(is_key_list(t2, d)) by {
            assert forall|i: int| 0 <= i < t2.len() implies d.contains(#[trigger] t2[i]) by {
                assert(t2[i] == ks2[i + 1]);
                assert(ks2[0] < ks2[i + 1]);
            }
            assert forall|k: usize| #[trigger] d.contains(k) implies t2.contains(k) by {
                assert(dom.contains(k));
                let i = choose|i: int| 0 <= i < ks2.len() && ks2[i] == k;
                assert(i != 0);
                assert(t2[i - 1] == k);
            }
        }
        lemma_key_list_unique(t1, t2, d);
        assert(ks1 =~= ks2) by {
            assert(ks1.len() == ks2.len());
            assert forall|i: int| 0 <= i < ks1.len() implies ks1[i] == ks2[i] by {
                if i > 0 {
                    assert(ks1[i] == t1[i - 1]);
                    assert(ks2[i] == t2[i - 1]);
                }
            }
        }
    }
}

/// A key list witnesses that it is the canonical `key_list` of its set.
pub proof fn lemma_is_key_list_canon(ks: Seq<usize>, dom: Set<usize>)
    requires
        is_key_list(ks, dom),
    ensures
        ks == key_list(dom),
{
    assert(is_key_list(key_list(dom), dom)) by {
        assert(exists|s: Seq<usize>| is_key_list(s, dom)) by {
            assert(is_key_list(ks, dom));
        }
    }
    lemma_key_list_unique(ks, key_list(dom), dom);
}

} // verus!
