//! A feature-composed options provider: feature files contribute JSON
//! fragments, and requests compose the fragments of the named features by a
//! deep-merge rule, filtered by conditions over caller constraints.

pub mod alias;
pub mod bindings;
pub mod builder;
pub mod conditions;
pub mod configurable_string;
pub mod constraints;
pub mod feature;
pub mod json;
pub mod json_text;
pub mod locator;
pub mod merge;
pub mod metadata;
pub mod pointer;
pub mod preferences;
pub mod provider;
pub mod serde_support;
pub mod strings;
pub mod watcher;

use vstd::prelude::*;

verus! {

/// Sums two counters.
pub fn add(left: u64, right: u64) -> (r: u64)
    requires
        left + right <= u64::MAX,
    ensures
        r == left + right,
{
    left + right
}

} // verus!
