use vstd::prelude::*;

verus! {

/// Picks an element of `items` with `rand`'s thread-local generator
/// (`rand::seq::IndexedRandom::choose` on `rand::rng()`).
///
/// As the crate's source shows, the result is `None` exactly when `items` is
/// empty and otherwise one of its elements; which one is left to chance and
/// is not stated.
#[verifier::external_body]
pub(crate) fn choose_item<T>(items: &[T]) -> (r: Option<&T>)
    ensures
        r is None <==> items@.len() == 0,
        r matches Some(x) ==> items@.contains(*x),
{
    rand::seq::IndexedRandom::choose(items, &mut rand::rng())
}

} // verus!
