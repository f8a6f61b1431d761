//! Paths are ordered by their normalized form.
use std::cmp::Ordering;
use vstd::prelude::*;
use vstd::std_specs::cmp::PartialOrdSpecImpl;

use crate::path::RelPath;
use crate::text::{compare_chars, seq_lt, KeyOrder};

verus! {

/// How two paths compare: by their normalized forms, character by character.
pub open spec fn path_order(a: RelPath, b: RelPath) -> Option<Ordering> {
    if seq_lt(a.key(), b.key()) {
        Some(Ordering::Less)
    } else if a.key() == b.key() {
        Some(Ordering::Equal)
    } else {
        Some(Ordering::Greater)
    }
}

impl PartialOrd for RelPath {
    fn partial_cmp(&self, other: &Self) -> (r: Option<Ordering>) {
        let a = self.key_chars();
        let b = other.key_chars();
        match compare_chars(a.as_slice(), b.as_slice()) {
            KeyOrder::Less => Some(Ordering::Less),
            KeyOrder::Equal => Some(Ordering::Equal),
            KeyOrder::Greater => Some(Ordering::Greater),
        }
    }
}

impl PartialOrdSpecImpl for RelPath {
    open spec fn obeys_partial_cmp_spec() -> bool {
        true
    }

    open spec fn partial_cmp_spec(&self, other: &Self) -> Option<Ordering> {
        path_order(*self, *other)
    }
}

} // verus!
