//! Informational metadata carried by each feature.

use vstd::prelude::*;

use crate::json::JsonValue;

verus! {

/// Information about a group of options.
pub struct OptionsMetadata {
    /// Alternative, case-insensitive names for the feature.
    pub aliases: Option<Vec<String>>,
    /// The canonical names of features that import this one.
    pub dependents: Option<Vec<String>>,
    /// Free-form details from the feature file.
    pub details: Option<JsonValue>,
    /// The canonical feature name, derived from the file path.
    pub name: Option<String>,
    pub owners: Option<String>,
    /// The path of the feature file.
    pub path: Option<String>,
}

/// Copies a list of strings; the copy reads the same.
pub fn clone_string_vec(v: &Vec<String>) -> (r: Vec<String>)
    ensures
        r@ == v@,
{
    let mut out: Vec<String> = Vec::new();
    let n = v.len();
    for i in 0..n
        invariant
            n == v@.len(),
            out@.len() == i,
            forall|j: int| 0 <= j < i ==> out@[j] == v@[j],
        decreases n - i,
    {
        out.push(v[i].clone());
    }
    proof {
        assert(out@ =~= v@);
    }
    out
}

fn clone_opt_string(v: &Option<String>) -> (r: Option<String>)
    ensures
        r == v,
{
    match v {
        Some(s) => Some(s.clone()),
        None => None,
    }
}

fn clone_opt_string_vec(v: &Option<Vec<String>>) -> (r: Option<Vec<String>>)
    ensures
        (r matches Some(a) <==> v matches Some(b)),
        r matches Some(a) ==> v matches Some(b) && a@ == b@,
{
    match v {
        Some(s) => Some(clone_string_vec(s)),
        None => None,
    }
}

impl Clone for OptionsMetadata {
    fn clone(&self) -> (r: Self)
        ensures
            (r.aliases matches Some(a) <==> self.aliases matches Some(b)),
            r.aliases matches Some(a) ==> self.aliases matches Some(b) && a@ == b@,
            (r.dependents matches Some(a) <==> self.dependents matches Some(b)),
            r.dependents matches Some(a) ==> self.dependents matches Some(b) && a@ == b@,
            (r.details matches Some(a) <==> self.details matches Some(b)),
            r.details matches Some(a) ==> self.details matches Some(b) && a@ == b@,
            r.name == self.name,
            r.owners == self.owners,
            r.path == self.path,
    {
        OptionsMetadata {
            aliases: clone_opt_string_vec(&self.aliases),
            dependents: clone_opt_string_vec(&self.dependents),
            details: match &self.details {
                Some(d) => Some(d.clone()),
                None => None,
            },
            name: clone_opt_string(&self.name),
            owners: clone_opt_string(&self.owners),
            path: clone_opt_string(&self.path),
        }
    }
}

} // verus!
