//! The trusted interface to the `multimap` crate.
//!
//! The flag pass accumulates its captures in a `multimap::MultiMap`, the
//! multi-valued mapping the library hands back to its callers. The type is
//! opaque to the verifier, so its contents are named by [`flag_entries`]:
//! the mapping from a key's text to the views of the values stored under
//! it, in insertion order. The wrappers below state, over that name, what
//! the `multimap` source shows of each method the library calls.

use vstd::prelude::*;

use crate::args::{Output, OutputView};

verus! {

#[verifier::external_type_specification]
#[verifier::external_body]
#[verifier::reject_recursive_types(K)]
#[verifier::reject_recursive_types(V)]
#[verifier::reject_recursive_types(S)]
pub struct ExMultiMap<K, V, S>(multimap::MultiMap<K, V, S>);

pub uninterp spec fn flag_entries(m: multimap::MultiMap<String, Output>) -> Map<
    Seq<char>,
    Seq<OutputView>,
>;

/// The contents after one insertion: the value's view is pushed onto the
/// key's sequence, or starts a fresh one-element sequence.
pub open spec fn push_entry(
    m: Map<Seq<char>, Seq<OutputView>>,
    k: Seq<char>,
    o: OutputView,
) -> Map<Seq<char>, Seq<OutputView>> {
    if m.contains_key(k) {
        m.insert(k, m[k].push(o))
    } else {
        m.insert(k, seq![o])
    }
}

/// Relies on `multimap::MultiMap::new`: the created map holds nothing.
#[verifier::external_body]
pub(crate) fn mm_new() -> (r: multimap::MultiMap<String, Output>)
    ensures
        flag_entries(r) =~= Map::empty(),
{
    multimap::MultiMap::new()
}

/// Relies on `multimap::MultiMap::insert`: the value is pushed onto the
/// vector already stored under the key, or a new one-element vector is
/// created for it.
#[verifier::external_body]
pub(crate) fn mm_insert(m: &mut multimap::MultiMap<String, Output>, k: String, v: Output)
    ensures
        flag_entries(*final(m)) == push_entry(flag_entries(*old(m)), k@, v@),
{
    m.insert(k, v);
}

/// Relies on `multimap::MultiMap::is_empty`: no key was ever inserted.
#[verifier::external_body]
pub(crate) fn mm_is_empty(m: &multimap::MultiMap<String, Output>) -> (r: bool)
    ensures
        r == (flag_entries(*m) =~= Map::empty()),
{
    m.is_empty()
}

/// Relies on `multimap::MultiMap::contains_key`.
#[verifier::external_body]
pub(crate) fn mm_contains_key(m: &multimap::MultiMap<String, Output>, k: &String) -> (r: bool)
    ensures
        r == flag_entries(*m).contains_key(k@),
{
    m.contains_key(k.as_str())
}

} // verus!
