//! Platform-specific helpers.
use vstd::prelude::*;

use crate::text::{chars_of, string_from_chars};

verus! {

/// NFD normalization of a filename on the platform side. Names are taken
/// as they are: the result is the input, unchanged.
pub fn nfd_normalize(s: &str) -> (r: String)
    ensures
        r@ == s@,
{
    string_from_chars(&chars_of(s))
}

} // verus!
