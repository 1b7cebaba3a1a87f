//! The one string-building primitive the library takes on trust.

use vstd::prelude::*;

verus! {

/// Relies on `String::from_iter` over characters: collecting chars yields
/// the string holding exactly those characters in order.
#[verifier::external_body]
pub(crate) fn string_of_chars(v: Vec<char>) -> (r: String)
    ensures
        r@ == v@,
{
    v.into_iter().collect()
}

} // verus!
