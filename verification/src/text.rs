//! The few operations on shared strings that the library needs from std.

use std::sync::Arc;
use vstd::prelude::*;

verus! {

/// `==` on `str`: whether two strings hold the same characters.
#[verifier::external_body]
pub(crate) fn str_eq(left: &str, right: &str) -> (equal: bool)
    ensures
        equal == (left@ == right@),
{
    left == right
}

/// `Arc::<str>::from`: a shared copy of a string.
#[verifier::external_body]
pub(crate) fn shared_str(text: &str) -> (shared: Arc<str>)
    ensures
        (*shared)@ == text@,
{
    Arc::from(text)
}

} // verus!
