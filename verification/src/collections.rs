//! The concurrent collections of the `dashmap` crate.
use vstd::prelude::*;

verus! {

/// A concurrent map.
#[verifier::external_type_specification]
#[verifier::external_body]
#[verifier::reject_recursive_types(K)]
#[verifier::reject_recursive_types(V)]
#[verifier::reject_recursive_types(S)]
pub struct ExDashMap<K, V, S>(dashmap::DashMap<K, V, S>);

/// A concurrent set.
#[verifier::external_type_specification]
#[verifier::external_body]
#[verifier::reject_recursive_types(K)]
#[verifier::reject_recursive_types(S)]
pub struct ExDashSet<K, S>(dashmap::DashSet<K, S>);

/// `keys` lists what is in `dom`, each once, in no particular order.
pub open spec fn lists<K>(keys: Seq<K>, dom: Set<K>) -> bool {
    &&& keys.no_duplicates()
    &&& forall|k: K| #[trigger] dom.contains(k) <==> keys.contains(k)
}

/// A list of what is in a set holds each element once, and nothing else.
pub proof fn a_list_holds_each_element_once<K>(keys: Seq<K>, dom: Set<K>, i: int, j: int)
    requires
        lists(keys, dom),
        0 <= i < keys.len(),
        0 <= j < keys.len(),
    ensures
        dom.contains(keys[i]),
        keys[i] == keys[j] ==> i == j,
        forall|k: K| #[trigger] dom.contains(k) ==> keys.contains(k),
{
    assert(keys.contains(keys[i]));
}

} // verus!
