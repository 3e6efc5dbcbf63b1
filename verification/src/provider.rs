//! The provider: the read API over a frozen registry. A request names
//! features, optionally constrains them, and receives the deep-merged
//! options those features contribute, with optional overrides, optional
//! configurable-string rendering, and an optional sub-tree projection.

use vstd::prelude::*;

use crate::alias::{aget, alias_find, aview, fold_case, folded_case, AliasEntry};
use crate::configurable_string::LoadedFiles;
use crate::constraints::Constraints;
use crate::feature::Feature;
use crate::json::{Json, JsonValue};
use crate::locator::{spec_render_doc, render_document, doc_mentions_date, spec_doc_mentions_date, strs_view};
use crate::merge::{lemma_merge_wf, merge_json_value, spec_merge};
use crate::metadata::OptionsMetadata;
use crate::pointer::{dotted_lookup, spec_dotted_lookup};
use crate::preferences::{CacheOptions, GetOptionsPreferences};
use crate::strings::{push_str, str_eq};

verus! {

/// The canonical names of the features, in storage order.
pub open spec fn names_view(features: Seq<Feature>) -> Seq<Seq<char>> {
    Seq::new(features.len(), |i: int| features[i].canonical_name@)
}

/// The models of the resolved sources.
pub open spec fn srcs_view(sources: Seq<JsonValue>) -> Seq<Json> {
    Seq::new(sources.len(), |i: int| sources[i]@)
}

/// The position of a name in a list, scanning front to back.
pub open spec fn idx_of(names: Seq<Seq<char>>, n: Seq<char>) -> Option<int>
    decreases names.len(),
{
    if names.len() == 0 {
        None
    } else if names[0] == n {
        Some(0)
    } else {
        match idx_of(names.drop_first(), n) {
            Some(i) => Some(i + 1),
            None => None,
        }
    }
}

pub proof fn lemma_idx_of_props(names: Seq<Seq<char>>, n: Seq<char>)
    ensures
        match idx_of(names, n) {
            Some(i) => 0 <= i < names.len() && names[i] == n && forall|j: int|
                0 <= j < i ==> names[j] != n,
            None => forall|j: int| 0 <= j < names.len() ==> names[j] != n,
        },
    decreases names.len(),
{
    if names.len() > 0 && names[0] != n {
        let tail = names.drop_first();
        lemma_idx_of_props(tail, n);
        assert(forall|j: int| 0 <= j < tail.len() ==> tail[j] == names[j + 1]);
        match idx_of(tail, n) {
            Some(ip) => {
                assert(names[ip + 1] == tail[ip]);
                assert forall|j: int| 0 <= j < ip + 1 implies names[j] != n by {
                    if j > 0 {
                        assert(tail[j - 1] != n);
                    }
                }
            },
            None => {
                assert forall|j: int| 0 <= j < names.len() implies names[j] != n by {
                    if j > 0 {
                        assert(tail[j - 1] != n);
                    }
                }
            },
        }
    }
}

/// The exact text reported for the first name a request uses that no
/// feature answers to.
pub open spec fn spec_unknown_feature_message(name: Seq<char>) -> Seq<char> {
    ("The given feature \"")@ + name + ("\" was not found.")@
}

/// Whether a feature applies under a constraints document: it has no
/// conditions, or its conditions hold.
pub open spec fn cond_pass(f: Feature, c: Json) -> bool {
    match f.conditions {
        Some(e) => e.spec_eval(c),
        None => true,
    }
}

/// The canonical form of each requested name, in request order; `None`
/// when a name is unknown. With conversion skipped, each name must itself
/// be a canonical name.
pub open spec fn spec_canonicalize(
    table: Seq<(Seq<char>, Seq<char>)>,
    fnames: Seq<Seq<char>>,
    names: Seq<Seq<char>>,
    skip: bool,
    i: int,
) -> Option<Seq<Seq<char>>>
    decreases names.len() - i,
{
    if i < 0 || i >= names.len() {
        Some(Seq::empty())
    } else {
        let c = if skip {
            if idx_of(fnames, names[i]) is Some {
                Some(names[i])
            } else {
                None
            }
        } else {
            aget(table, folded_case(names[i]))
        };
        match c {
            Some(cn) => match spec_canonicalize(table, fnames, names, skip, i + 1) {
                Some(rest) => Some(seq![cn] + rest),
                None => None,
            },
            None => None,
        }
    }
}

/// The position of the first requested name that does not resolve;
/// `None` when every name resolves. A failing request reports this name.
pub open spec fn spec_first_unknown(
    table: Seq<(Seq<char>, Seq<char>)>,
    fnames: Seq<Seq<char>>,
    names: Seq<Seq<char>>,
    skip: bool,
    i: int,
) -> Option<int>
    decreases names.len() - i,
{
    if i < 0 || i >= names.len() {
        None
    } else {
        let c = if skip {
            if idx_of(fnames, names[i]) is Some {
                Some(names[i])
            } else {
                None
            }
        } else {
            aget(table, folded_case(names[i]))
        };
        match c {
            Some(_) => spec_first_unknown(table, fnames, names, skip, i + 1),
            None => Some(i),
        }
    }
}

/// The feature positions that survive the condition filter, in request
/// order.
pub open spec fn spec_filter_indices(
    features: Seq<Feature>,
    canon: Seq<Seq<char>>,
    c: Json,
    i: int,
) -> Seq<int>
    decreases canon.len() - i,
{
    if i < 0 || i >= canon.len() {
        Seq::empty()
    } else {
        let rest = spec_filter_indices(features, canon, c, i + 1);
        match idx_of(names_view(features), canon[i]) {
            Some(j) => if cond_pass(features[j], c) {
                seq![j] + rest
            } else {
                rest
            },
            None => rest,
        }
    }
}

/// The surviving canonical names, in request order.
pub open spec fn spec_filter_names(
    features: Seq<Feature>,
    canon: Seq<Seq<char>>,
    c: Json,
    i: int,
) -> Seq<Seq<char>>
    decreases canon.len() - i,
{
    if i < 0 || i >= canon.len() {
        Seq::empty()
    } else {
        let rest = spec_filter_names(features, canon, c, i + 1);
        match idx_of(names_view(features), canon[i]) {
            Some(j) => if cond_pass(features[j], c) {
                seq![canon[i]] + rest
            } else {
                rest
            },
            None => rest,
        }
    }
}

/// Layers the named sources over `acc`, in order.
pub open spec fn spec_fold_sources(srcs: Seq<Json>, idxs: Seq<int>, i: int, acc: Json) -> Json
    decreases idxs.len() - i,
{
    if i < 0 || i >= idxs.len() {
        acc
    } else {
        let acc2 = if 0 <= idxs[i] < srcs.len() {
            spec_merge(acc, srcs[idxs[i]])
        } else {
            acc
        };
        spec_fold_sources(srcs, idxs, i + 1, acc2)
    }
}

/// The constraints document a request evaluates against: the given one, or
/// the empty object.
pub open spec fn spec_constraints_doc(constraints: Option<Json>) -> Json {
    match constraints {
        Some(c) => c,
        None => Json::Obj(Seq::empty()),
    }
}

/// The layered document of a request, before rendering and before any key
/// projection: resolve names, filter by conditions, layer the surviving
/// sources in request order over the empty object, and layer the
/// overrides last. `None` is a request error.
pub open spec fn spec_composed_doc(
    features: Seq<Feature>,
    srcs: Seq<Json>,
    table: Seq<(Seq<char>, Seq<char>)>,
    names: Seq<Seq<char>>,
    skip: bool,
    constraints: Option<Json>,
    overrides: Option<Json>,
) -> Option<Json> {
    match spec_canonicalize(table, names_view(features), names, skip, 0) {
        Some(canon) => {
            let c = spec_constraints_doc(constraints);
            let idxs = spec_filter_indices(features, canon, c, 0);
            let folded = spec_fold_sources(srcs, idxs, 0, Json::Obj(Seq::empty()));
            Some(
                match overrides {
                    Some(o) => spec_merge(folded, o),
                    None => folded,
                },
            )
        },
        None => None,
    }
}

/// The composed document of a request: the layered document, rendered
/// when configurable strings are enabled.
pub open spec fn spec_request_doc(
    features: Seq<Feature>,
    srcs: Seq<Json>,
    table: Seq<(Seq<char>, Seq<char>)>,
    files: Seq<(Seq<char>, Seq<char>)>,
    names: Seq<Seq<char>>,
    skip: bool,
    cse: bool,
    constraints: Option<Json>,
    overrides: Option<Json>,
) -> Option<Json> {
    match spec_composed_doc(features, srcs, table, names, skip, constraints, overrides) {
        Some(d) => if cse {
            spec_render_doc(d, files)
        } else {
            Some(d)
        },
        None => None,
    }
}

/// Whether the request renders a document that invokes the clock-reading
/// `date` filter. Such a request still runs, but its outcome is not a
/// function of the inputs, so no contract pins it and its result is never
/// memoized.
pub open spec fn spec_request_dated(
    features: Seq<Feature>,
    srcs: Seq<Json>,
    table: Seq<(Seq<char>, Seq<char>)>,
    names: Seq<Seq<char>>,
    skip: bool,
    cse: bool,
    constraints: Option<Json>,
    overrides: Option<Json>,
) -> bool {
    cse && match spec_composed_doc(features, srcs, table, names, skip, constraints, overrides) {
        Some(d) => spec_doc_mentions_date(d),
        None => false,
    }
}

/// The outcome of a whole request: the composed document, projected at the
/// dotted key when one is given.
pub open spec fn spec_request(
    features: Seq<Feature>,
    srcs: Seq<Json>,
    table: Seq<(Seq<char>, Seq<char>)>,
    files: Seq<(Seq<char>, Seq<char>)>,
    key: Option<Seq<char>>,
    names: Seq<Seq<char>>,
    skip: bool,
    cse: bool,
    constraints: Option<Json>,
    overrides: Option<Json>,
) -> Option<Json> {
    match spec_request_doc(features, srcs, table, files, names, skip, cse, constraints, overrides) {
        Some(doc) => match key {
            Some(k) => spec_dotted_lookup(doc, k),
            None => Some(doc),
        },
        None => None,
    }
}

/// The normalized cache key of a request: the dotted key, the names a
/// probe compares (canonical form unless conversion is skipped), the two
/// switches, and the constraints document. `None` when a name is unknown.
pub open spec fn spec_normalized_key(
    table: Seq<(Seq<char>, Seq<char>)>,
    fnames: Seq<Seq<char>>,
    key: Option<Seq<char>>,
    names: Seq<Seq<char>>,
    skip: bool,
    cse: bool,
    constraints: Option<Json>,
) -> Option<(Option<Seq<char>>, Seq<Seq<char>>, bool, bool, Option<Json>)> {
    if skip {
        Some((key, names, true, cse, constraints))
    } else {
        match spec_canonicalize(table, fnames, names, false, 0) {
            Some(canon) => Some((key, canon, false, cse, constraints)),
            None => None,
        }
    }
}

/// One memoized request: its normalized key parts and its outcome.
struct CacheEntry {
    key: Option<String>,
    names: Vec<String>,
    skip: bool,
    cse: bool,
    constraints: Option<JsonValue>,
    value: JsonValue,
}

impl CacheEntry {
    spec fn key_view(self) -> (Option<Seq<char>>, Seq<Seq<char>>, bool, bool, Option<Json>) {
        (
            match self.key {
                Some(k) => Some(k@),
                None => None,
            },
            strs_view(self.names@),
            self.skip,
            self.cse,
            match self.constraints {
                Some(c) => Some(c@),
                None => None,
            },
        )
    }
}

/// The frozen registry and its read API.
pub struct OptionsProvider {
    aliases: Vec<AliasEntry>,
    features: Vec<Feature>,
    sources: Vec<JsonValue>,
    files: LoadedFiles,
    cache: Vec<CacheEntry>,
}

impl OptionsProvider {
    #[verifier::type_invariant]
    pub closed spec fn inv(self) -> bool {
        &&& self.features@.len() == self.sources@.len()
        &&& forall|i: int|
            0 <= i < self.features@.len() ==> (#[trigger] self.features@[i]).wf()
        &&& forall|i: int|
            0 <= i < self.sources@.len() ==> (#[trigger] srcs_view(self.sources@)[i]).wf()
        &&& forall|i: int, j: int|
            0 <= i < j < self.features@.len() ==> (#[trigger] self.features@[i]).canonical_name@
                != (#[trigger] self.features@[j]).canonical_name@
        &&& forall|i: int, j: int|
            0 <= i < j < self.aliases@.len() ==> (#[trigger] self.aliases@[i]).key@ != (
            #[trigger] self.aliases@[j]).key@
        &&& forall|i: int|
            0 <= i < self.aliases@.len() ==> idx_of(
                names_view(self.features@),
                (#[trigger] self.aliases@[i]).canonical@,
            ) is Some
        &&& forall|i: int|
            0 <= i < self.features@.len() ==> aget(
                aview(self.aliases@),
                folded_case((#[trigger] self.features@[i]).canonical_name@),
            ) == Some(self.features@[i].canonical_name@)
        &&& forall|i: int|
            0 <= i < self.cache@.len() ==> {
                let e = #[trigger] self.cache@[i];
                Some(e.value@) == spec_request(
                    self.features@,
                    srcs_view(self.sources@),
                    aview(self.aliases@),
                    self.files.view_table(),
                    e.key_view().0,
                    e.key_view().1,
                    e.key_view().2,
                    e.key_view().3,
                    e.key_view().4,
                    None,
                ) && e.value@.wf()
            }
    }

    pub closed spec fn spec_features(self) -> Seq<Feature> {
        self.features@
    }

    pub closed spec fn spec_sources(self) -> Seq<Json> {
        srcs_view(self.sources@)
    }

    pub closed spec fn spec_alias_table(self) -> Seq<(Seq<char>, Seq<char>)> {
        aview(self.aliases@)
    }

    pub closed spec fn spec_alias_entries(self) -> Seq<AliasEntry> {
        self.aliases@
    }

    pub closed spec fn spec_files(self) -> Seq<(Seq<char>, Seq<char>)> {
        self.files.view_table()
    }

    /// The normalized keys of the memoized requests, in storage order.
    pub closed spec fn spec_cache_keys(self) -> Seq<
        (Option<Seq<char>>, Seq<Seq<char>>, bool, bool, Option<Json>),
    > {
        Seq::new(self.cache@.len(), |i: int| self.cache@[i].key_view())
    }

    /// The registry part of the provider: everything except the cache.
    pub open spec fn registry(self) -> (
        Seq<Feature>,
        Seq<Json>,
        Seq<(Seq<char>, Seq<char>)>,
        Seq<(Seq<char>, Seq<char>)>,
    ) {
        (self.spec_features(), self.spec_sources(), self.spec_alias_table(), self.spec_files())
    }

    /// Builds a provider from the builder's parts; used only by `build`.
    pub(crate) fn assemble(
        aliases: Vec<AliasEntry>,
        features: Vec<Feature>,
        sources: Vec<JsonValue>,
        files: LoadedFiles,
    ) -> (r: OptionsProvider)
        requires
            features@.len() == sources@.len(),
            forall|i: int| 0 <= i < features@.len() ==> (#[trigger] features@[i]).wf(),
            forall|i: int|
                0 <= i < sources@.len() ==> (#[trigger] srcs_view(sources@)[i]).wf(),
            forall|i: int, j: int|
                0 <= i < j < features@.len() ==> (#[trigger] features@[i]).canonical_name@ != (
                #[trigger] features@[j]).canonical_name@,
            forall|i: int, j: int|
                0 <= i < j < aliases@.len() ==> (#[trigger] aliases@[i]).key@ != (
                #[trigger] aliases@[j]).key@,
            forall|i: int|
                0 <= i < aliases@.len() ==> idx_of(
                    names_view(features@),
                    (#[trigger] aliases@[i]).canonical@,
                ) is Some,
            forall|i: int|
                0 <= i < features@.len() ==> aget(
                    aview(aliases@),
                    folded_case((#[trigger] features@[i]).canonical_name@),
                ) == Some(features@[i].canonical_name@),
        ensures
            r.spec_features() == features@,
            r.spec_sources() == srcs_view(sources@),
            r.spec_alias_table() == aview(aliases@),
            r.spec_alias_entries() == aliases@,
            r.spec_files() == files.view_table(),
    {
        OptionsProvider { aliases, features, sources, files, cache: Vec::new() }
    }

    /// Maps a name, alias or canonical, to its canonical feature name.
    /// Lookups ignore case; an unknown name is reported with the message
    /// callers grep for.
    pub fn get_canonical_feature_name(&self, feature_name: &str) -> (r: Result<String, String>)
        ensures
            r matches Ok(c) ==> aget(self.spec_alias_table(), folded_case(feature_name@)) == Some(
                c@,
            ),
            r matches Err(m) ==> aget(self.spec_alias_table(), folded_case(feature_name@)) is None
                && m@ == spec_unknown_feature_message(feature_name@),
    {
        proof {
            use_type_invariant(self);
        }
        let folded = fold_case(feature_name);
        match alias_find(&self.aliases, folded.as_str()) {
            Some(i) => Ok(self.aliases[i].canonical.clone()),
            None => {
                let mut m = String::new();
                push_str(&mut m, "The given feature \"");
                push_str(&mut m, feature_name);
                push_str(&mut m, "\" was not found.");
                Err(m)
            },
        }
    }

    /// Maps each name to its canonical feature name, failing on the first
    /// unknown name.
    pub fn get_canonical_feature_names(&self, feature_names: &Vec<String>) -> (r: Result<
        Vec<String>,
        String,
    >)
        ensures
            r matches Ok(canon) ==> Some(strs_view(canon@)) == spec_canonicalize(
                self.spec_alias_table(),
                names_view(self.spec_features()),
                strs_view(feature_names@),
                false,
                0,
            ),
            r is Err ==> spec_canonicalize(
                self.spec_alias_table(),
                names_view(self.spec_features()),
                strs_view(feature_names@),
                false,
                0,
            ) is None,
            r matches Err(m) ==> (spec_first_unknown(
                self.spec_alias_table(),
                names_view(self.spec_features()),
                strs_view(feature_names@),
                false,
                0,
            ) matches Some(k) && m@ == spec_unknown_feature_message(
                strs_view(feature_names@)[k],
            )),
    {
        self.canonicalize(feature_names, false)
    }

    /// Maps names to canonical names, or checks them verbatim when
    /// conversion is skipped.
    #[verifier::loop_isolation(false)]
    fn canonicalize(&self, feature_names: &Vec<String>, skip: bool) -> (r: Result<
        Vec<String>,
        String,
    >)
        ensures
            r matches Ok(canon) ==> Some(strs_view(canon@)) == spec_canonicalize(
                self.spec_alias_table(),
                names_view(self.spec_features()),
                strs_view(feature_names@),
                skip,
                0,
            ),
            r is Err ==> spec_canonicalize(
                self.spec_alias_table(),
                names_view(self.spec_features()),
                strs_view(feature_names@),
                skip,
                0,
            ) is None,
            r matches Err(m) ==> (spec_first_unknown(
                self.spec_alias_table(),
                names_view(self.spec_features()),
                strs_view(feature_names@),
                skip,
                0,
            ) matches Some(k) && m@ == spec_unknown_feature_message(
                strs_view(feature_names@)[k],
            )),
    {
        proof {
            use_type_invariant(self);
        }
        let ghost table = aview(self.aliases@);
        let ghost fnames = names_view(self.features@);
        let ghost req = strs_view(feature_names@);
        let n = feature_names.len();
        let mut out: Vec<String> = Vec::new();
        let mut i: usize = 0;
        while i < n
            invariant
                i <= n,
                n == feature_names@.len(),
                out@.len() == i,
                spec_canonicalize(table, fnames, req, skip, 0) == (match spec_canonicalize(
                    table,
                    fnames,
                    req,
                    skip,
                    i as int,
                ) {
                    Some(rest) => Some(strs_view(out@) + rest),
                    None => None::<Seq<Seq<char>>>,
                }),
                spec_first_unknown(table, fnames, req, skip, 0) == spec_first_unknown(
                    table,
                    fnames,
                    req,
                    skip,
                    i as int,
                ),
            decreases n - i,
        {
            let name = &feature_names[i];
            let converted: Option<String> = if skip {
                match crate::builder::feature_index(&self.features, name.as_str()) {
                    Some(_) => Some(name.clone()),
                    None => None,
                }
            } else {
                let folded = fold_case(name.as_str());
                match alias_find(&self.aliases, folded.as_str()) {
                    Some(j) => Some(self.aliases[j].canonical.clone()),
                    None => None,
                }
            };
            match converted {
                Some(c) => {
                    let ghost prev = out@;
                    out.push(c);
                    proof {
                        assert(spec_first_unknown(table, fnames, req, skip, i as int)
                            == spec_first_unknown(table, fnames, req, skip, i + 1));
                        assert(strs_view(out@) =~= strs_view(prev).push(out@.last()@));
                        match spec_canonicalize(table, fnames, req, skip, i + 1) {
                            Some(rest) => {
                                assert(strs_view(prev) + (seq![out@.last()@] + rest) =~= strs_view(
                                    out@,
                                ) + rest);
                            },
                            None => {},
                        }
                    }
                },
                None => {
                    let mut m = String::new();
                    push_str(&mut m, "The given feature \"");
                    push_str(&mut m, name.as_str());
                    push_str(&mut m, "\" was not found.");
                    proof {
                        assert(spec_first_unknown(table, fnames, req, skip, i as int) == Some(
                            i as int,
                        ));
                        assert(m@ =~= spec_unknown_feature_message(strs_view(feature_names@)[
                            i as int
                        ]));
                    }
                    return Err(m);
                },
            }
            i += 1;
        }
        proof {
            assert(spec_canonicalize(table, fnames, req, skip, n as int) == Some(Seq::<
                Seq<char>,
            >::empty()));
            match spec_canonicalize(table, fnames, req, skip, 0) {
                Some(all) => {
                    assert(strs_view(out@) + Seq::<Seq<char>>::empty() =~= strs_view(out@));
                },
                None => {},
            }
        }
        Ok(out)
    }

    /// Every canonical feature name.
    pub fn get_features(&self) -> (r: Vec<String>)
        ensures
            strs_view(r@) == names_view(self.spec_features()),
    {
        proof {
            use_type_invariant(self);
        }
        let n = self.features.len();
        let mut out: Vec<String> = Vec::new();
        let mut i: usize = 0;
        while i < n
            invariant
                i <= n,
                n == self.features@.len(),
                out@.len() == i,
                forall|j: int| 0 <= j < i ==> strs_view(out@)[j] == names_view(self.features@)[j],
            decreases n - i,
        {
            let ghost prev = out@;
            out.push(self.features[i].canonical_name.clone());
            proof {
                assert(forall|j: int|
                    0 <= j < prev.len() ==> #[trigger] strs_view(out@)[j] == strs_view(prev)[j]);
                assert(strs_view(out@)[i as int] == names_view(self.features@)[i as int]);
            }
            i += 1;
        }
        proof {
            assert(strs_view(out@) =~= names_view(self.features@));
        }
        out
    }

    /// Every declared alias, as written in the feature files.
    pub fn get_aliases(&self) -> (r: Vec<String>)
        ensures
            strs_view(r@) == declared_aliases(self.spec_alias_entries()),
    {
        proof {
            use_type_invariant(self);
        }
        let n = self.aliases.len();
        let mut out: Vec<String> = Vec::new();
        let mut i: usize = 0;
        while i < n
            invariant
                i <= n,
                n == self.aliases@.len(),
                strs_view(out@) == declared_aliases(self.aliases@.take(i as int)),
            decreases n - i,
        {
            proof {
                assert(self.aliases@.take(i + 1).drop_last() =~= self.aliases@.take(i as int));
                assert(self.aliases@.take(i + 1).last() == self.aliases@[i as int]);
                lemma_declared_aliases_step(self.aliases@.take(i + 1));
            }
            if self.aliases[i].declared {
                out.push(self.aliases[i].original.clone());
                proof {
                    assert(strs_view(out@) =~= declared_aliases(self.aliases@.take(i as int)).push(
                        self.aliases@[i as int].original@,
                    ));
                }
            }
            i += 1;
        }
        proof {
            assert(self.aliases@.take(n as int) =~= self.aliases@);
        }
        out
    }

    /// Every name a request may use: canonical names and declared aliases.
    pub fn get_features_and_aliases(&self) -> (r: Vec<String>)
        ensures
            strs_view(r@) == names_view(self.spec_features()) + declared_aliases(
                self.spec_alias_entries(),
            ),
    {
        let mut out = self.get_features();
        let mut aliases = self.get_aliases();
        let ghost before = strs_view(out@);
        let ghost extra = strs_view(aliases@);
        let n = aliases.len();
        let mut i: usize = 0;
        while i < n
            invariant
                i <= n,
                n == aliases@.len(),
                extra == strs_view(aliases@),
                strs_view(out@) == before + extra.take(i as int),
            decreases n - i,
        {
            let ghost prev = out@;
            out.push(aliases[i].clone());
            proof {
                assert(forall|j: int|
                    0 <= j < prev.len() ==> #[trigger] strs_view(out@)[j] == strs_view(prev)[j]);
                assert(strs_view(out@)[prev.len() as int] == extra[i as int]);
                assert(extra.take(i + 1) =~= extra.take(i as int).push(extra[i as int]));
                assert(strs_view(prev).len() == before.len() + i);
                assert forall|j: int|
                    0 <= j < strs_view(out@).len() implies strs_view(out@)[j] == (before
                    + extra.take(i + 1))[j] by {
                    if j < before.len() + i {
                        assert(strs_view(out@)[j] == strs_view(prev)[j]);
                        assert(strs_view(prev)[j] == (before + extra.take(i as int))[j]);
                        if j < before.len() {
                            assert((before + extra.take(i as int))[j] == before[j]);
                            assert((before + extra.take(i + 1))[j] == before[j]);
                        } else {
                            assert((before + extra.take(i as int))[j] == extra.take(i as int)[j
                                - before.len()]);
                            assert(extra.take(i as int)[j - before.len()] == extra[j
                                - before.len()]);
                            assert((before + extra.take(i + 1))[j] == extra.take(i + 1)[j
                                - before.len()]);
                            assert(extra.take(i + 1)[j - before.len()] == extra[j - before.len()]);
                        }
                    } else {
                        assert(j == before.len() + i);
                        assert(strs_view(out@)[j] == extra[i as int]);
                        assert((before + extra.take(i + 1))[j] == extra.take(i + 1)[i as int]);
                    }
                }
                assert(strs_view(out@) =~= before + extra.take(i + 1));
            }
            i += 1;
        }
        proof {
            assert(extra.take(n as int) =~= extra);
        }
        out
    }

    /// The metadata of one feature, by canonical name (exact match).
    pub fn get_feature_metadata(&self, canonical_feature_name: &str) -> (r: Option<
        OptionsMetadata,
    >)
        ensures
            match idx_of(names_view(self.spec_features()), canonical_feature_name@) {
                Some(i) => r is Some && metadata_like(
                    r->0,
                    self.spec_features()[i].metadata,
                ),
                None => r is None,
            },
    {
        proof {
            use_type_invariant(self);
        }
        match crate::builder::feature_index(&self.features, canonical_feature_name) {
            Some(i) => {
                proof {
                    lemma_idx_of_props(names_view(self.features@), canonical_feature_name@);
                }
                let m = self.features[i].metadata.clone();
                proof {
                    assert(metadata_like(m, self.features@[i as int].metadata));
                }
                Some(m)
            },
            None => None,
        }
    }

    /// Every feature's canonical name with its metadata, in storage order.
    pub fn get_features_with_metadata(&self) -> (r: Vec<(String, OptionsMetadata)>)
        ensures
            r@.len() == self.spec_features().len(),
            forall|i: int|
                0 <= i < r@.len() ==> (#[trigger] r@[i]).0@
                    == self.spec_features()[i].canonical_name@ && metadata_like(
                    r@[i].1,
                    self.spec_features()[i].metadata,
                ),
    {
        proof {
            use_type_invariant(self);
        }
        let n = self.features.len();
        let mut out: Vec<(String, OptionsMetadata)> = Vec::new();
        let mut i: usize = 0;
        while i < n
            invariant
                i <= n,
                n == self.features@.len(),
                out@.len() == i,
                forall|j: int|
                    0 <= j < i ==> (#[trigger] out@[j]).0@
                        == self.features@[j].canonical_name@ && metadata_like(
                        out@[j].1,
                        self.features@[j].metadata,
                    ),
            decreases n - i,
        {
            let ghost prev = out@;
            let cloned_name = self.features[i].canonical_name.clone();
            let cloned_meta = self.features[i].metadata.clone();
            proof {
                assert(metadata_like(cloned_meta, self.features@[i as int].metadata));
            }
            out.push((cloned_name, cloned_meta));
            proof {
                assert(forall|j: int| 0 <= j < prev.len() ==> #[trigger] out@[j] == prev[j]);
            }
            i += 1;
        }
        out
    }

    /// Whether the named feature carries conditions; an unknown name has
    /// none.
    pub fn has_conditions(&self, canonical_feature_name: &str) -> (r: bool)
        ensures
            r == match idx_of(names_view(self.spec_features()), canonical_feature_name@) {
                Some(i) => self.spec_features()[i].conditions is Some,
                None => false,
            },
    {
        proof {
            use_type_invariant(self);
        }
        match crate::builder::feature_index(&self.features, canonical_feature_name) {
            Some(i) => {
                proof {
                    lemma_idx_of_props(names_view(self.features@), canonical_feature_name@);
                }
                self.features[i].conditions.is_some()
            },
            None => false,
        }
    }

    /// The requested names mapped to canonical form (unless conversion is
    /// skipped), with every feature whose conditions reject the request's
    /// constraints dropped.
    #[verifier::loop_isolation(false)]
    pub fn get_filtered_feature_names(
        &self,
        feature_names: &Vec<String>,
        preferences: Option<&GetOptionsPreferences>,
    ) -> (r: Result<Vec<String>, String>)
        requires
            match preferences {
                Some(p) => p.wf(),
                None => true,
            },
        ensures
            ({
                let skip = match preferences {
                    Some(p) => p.skip_feature_name_conversion,
                    None => false,
                };
                let c = spec_constraints_doc(
                    match preferences {
                        Some(p) => match p.constraints {
                            Some(cs) => Some(cs.constraints@),
                            None => None,
                        },
                        None => None,
                    },
                );
                match spec_canonicalize(
                    self.spec_alias_table(),
                    names_view(self.spec_features()),
                    strs_view(feature_names@),
                    skip,
                    0,
                ) {
                    Some(canon) => r matches Ok(kept) && strs_view(kept@) == spec_filter_names(
                        self.spec_features(),
                        canon,
                        c,
                        0,
                    ),
                    None => r is Err,
                }
            }),
    {
        proof {
            use_type_invariant(self);
        }
        let skip = match preferences {
            Some(p) => p.skip_feature_name_conversion,
            None => false,
        };
        let canon = match self.canonicalize(feature_names, skip) {
            Ok(c) => c,
            Err(e) => {
                return Err(e);
            },
        };
        let empty_fields: Vec<(String, JsonValue)> = Vec::new();
        proof {
            assert(crate::json::fields_view(empty_fields@) =~= Seq::<(Seq<char>, Json)>::empty());
        }
        let empty_constraints = Constraints { constraints: JsonValue::Obj(empty_fields) };
        let constraints: &Constraints = match preferences {
            Some(p) => match &p.constraints {
                Some(cs) => cs,
                None => &empty_constraints,
            },
            None => &empty_constraints,
        };
        let ghost c = constraints.constraints@;
        let ghost canonv = strs_view(canon@);
        let n = canon.len();
        let mut out: Vec<String> = Vec::new();
        let mut i: usize = 0;
        while i < n
            invariant
                i <= n,
                n == canon@.len(),
                canonv == strs_view(canon@),
                c == constraints.constraints@,
                constraints.constraints@.wf(),
                self.inv(),
                spec_filter_names(self.features@, canonv, c, 0) == strs_view(out@)
                    + spec_filter_names(self.features@, canonv, c, i as int),
            decreases n - i,
        {
            match crate::builder::feature_index(&self.features, canon[i].as_str()) {
                Some(j) => {
                    proof {
                        lemma_idx_of_props(names_view(self.features@), canonv[i as int]);
                    }
                    let keep = match &self.features[j].conditions {
                        Some(e) => {
                            proof {
                                assert(self.features@[j as int].wf());
                            }
                            constraints.evaluate(e)
                        },
                        None => true,
                    };
                    if keep {
                        let ghost prev = out@;
                        out.push(canon[i].clone());
                        proof {
                            assert(strs_view(out@) =~= strs_view(prev).push(canonv[i as int]));
                            assert(strs_view(prev) + (seq![canonv[i as int]]
                                + spec_filter_names(self.features@, canonv, c, i + 1))
                                =~= strs_view(out@) + spec_filter_names(
                                self.features@,
                                canonv,
                                c,
                                i + 1,
                            ));
                        }
                    }
                },
                None => {},
            }
            i += 1;
        }
        proof {
            assert(spec_filter_names(self.features@, canonv, c, n as int) =~= Seq::<
                Seq<char>,
            >::empty());
            assert(strs_view(out@) + Seq::<Seq<char>>::empty() =~= strs_view(out@));
        }
        Ok(out)
    }
}

/// The originals of the declared (non-identity) alias entries, in order.
pub open spec fn declared_aliases(entries: Seq<AliasEntry>) -> Seq<Seq<char>>
    decreases entries.len(),
{
    if entries.len() == 0 {
        Seq::empty()
    } else if entries.last().declared {
        declared_aliases(entries.drop_last()).push(entries.last().original@)
    } else {
        declared_aliases(entries.drop_last())
    }
}

proof fn lemma_declared_aliases_step(entries: Seq<AliasEntry>)
    requires
        entries.len() > 0,
    ensures
        declared_aliases(entries) == if entries.last().declared {
            declared_aliases(entries.drop_last()).push(entries.last().original@)
        } else {
            declared_aliases(entries.drop_last())
        },
{
}

/// The two metadata values read the same, field by field.
pub open spec fn metadata_like(a: OptionsMetadata, b: OptionsMetadata) -> bool {
    &&& match (a.aliases, b.aliases) {
        (Some(x), Some(y)) => strs_view(x@) == strs_view(y@),
        (None, None) => true,
        _ => false,
    }
    &&& match (a.dependents, b.dependents) {
        (Some(x), Some(y)) => strs_view(x@) == strs_view(y@),
        (None, None) => true,
        _ => false,
    }
    &&& match (a.details, b.details) {
        (Some(x), Some(y)) => x@ == y@,
        (None, None) => true,
        _ => false,
    }
    &&& a.name == b.name
    &&& a.owners == b.owners
    &&& a.path == b.path
}


/// The positions as mathematical integers.
pub open spec fn idxs_view(v: Seq<usize>) -> Seq<int> {
    Seq::new(v.len(), |i: int| v[i] as int)
}

/// What `aget` returns is the target of some entry.
pub proof fn lemma_aget_is_entry(entries: Seq<AliasEntry>, k: Seq<char>)
    requires
        aget(aview(entries), k) is Some,
    ensures
        exists|i: int|
            0 <= i < entries.len() && (#[trigger] entries[i]).canonical@ == aget(
                aview(entries),
                k,
            )->0,
    decreases entries.len(),
{
    if entries.len() > 0 {
        if entries[0].key@ == k {
            assert(entries[0].canonical@ == aget(aview(entries), k)->0);
        } else {
            assert(aview(entries).drop_first() =~= aview(entries.drop_first()));
            lemma_aget_is_entry(entries.drop_first(), k);
            let i = choose|i: int|
                0 <= i < entries.drop_first().len() && (#[trigger] entries.drop_first()[i]).canonical@
                    == aget(aview(entries.drop_first()), k)->0;
            assert(entries[i + 1].canonical@ == aget(aview(entries), k)->0);
        }
    }
}

/// Every name a canonicalization produces names a feature.
pub proof fn lemma_canon_elements(
    entries: Seq<AliasEntry>,
    fnames: Seq<Seq<char>>,
    names: Seq<Seq<char>>,
    skip: bool,
    canon: Seq<Seq<char>>,
    i: int,
    k: int,
)
    requires
        spec_canonicalize(aview(entries), fnames, names, skip, i) == Some(canon),
        forall|e: int|
            0 <= e < entries.len() ==> idx_of(fnames, (#[trigger] entries[e]).canonical@) is Some,
        0 <= i <= names.len(),
        0 <= k < canon.len(),
    ensures
        idx_of(fnames, canon[k]) is Some,
    decreases names.len() - i,
{
    if i < names.len() {
        let c = if skip {
            if idx_of(fnames, names[i]) is Some {
                Some(names[i])
            } else {
                None
            }
        } else {
            aget(aview(entries), folded_case(names[i]))
        };
        match c {
            Some(cn) => {
                match spec_canonicalize(aview(entries), fnames, names, skip, i + 1) {
                    Some(rest) => {
                        assert(canon =~= seq![cn] + rest);
                        if k == 0 {
                            if !skip {
                                lemma_aget_is_entry(entries, folded_case(names[i]));
                            }
                        } else {
                            assert(rest[k - 1] == canon[k]);
                            lemma_canon_elements(entries, fnames, names, skip, rest, i + 1, k - 1);
                        }
                    },
                    None => {},
                }
            },
            None => {},
        }
    }
}

/// Canonical names canonicalize to themselves: normalization is
/// idempotent.
pub proof fn lemma_canonicalize_fixed(
    table: Seq<(Seq<char>, Seq<char>)>,
    fnames: Seq<Seq<char>>,
    canon: Seq<Seq<char>>,
    i: int,
)
    requires
        0 <= i <= canon.len(),
        forall|k: int| 0 <= k < canon.len() ==> idx_of(fnames, #[trigger] canon[k]) is Some,
        forall|j: int|
            0 <= j < fnames.len() ==> aget(table, folded_case(#[trigger] fnames[j])) == Some(
                fnames[j],
            ),
    ensures
        spec_canonicalize(table, fnames, canon, false, i) == Some(canon.skip(i)),
    decreases canon.len() - i,
{
    if i == canon.len() {
        assert(canon.skip(i) =~= Seq::<Seq<char>>::empty());
    } else {
        lemma_idx_of_props(fnames, canon[i]);
        let j = idx_of(fnames, canon[i])->0;
        assert(fnames[j] == canon[i]);
        lemma_canonicalize_fixed(table, fnames, canon, i + 1);
        assert(seq![canon[i]] + canon.skip(i + 1) =~= canon.skip(i));
    }
}

/// Two requests whose normalized keys agree produce equal outputs: the
/// composed result depends only on the canonical name list and the other
/// normalized key parts.
pub proof fn lemma_cache_determinism(
    features: Seq<Feature>,
    srcs: Seq<Json>,
    table: Seq<(Seq<char>, Seq<char>)>,
    files: Seq<(Seq<char>, Seq<char>)>,
    key: Option<Seq<char>>,
    names1: Seq<Seq<char>>,
    skip1: bool,
    names2: Seq<Seq<char>>,
    skip2: bool,
    cse: bool,
    constraints: Option<Json>,
    overrides: Option<Json>,
)
    requires
        spec_canonicalize(table, names_view(features), names1, skip1, 0) == spec_canonicalize(
            table,
            names_view(features),
            names2,
            skip2,
            0,
        ),
    ensures
        spec_request(features, srcs, table, files, key, names1, skip1, cse, constraints, overrides)
            == spec_request(
            features,
            srcs,
            table,
            files,
            key,
            names2,
            skip2,
            cse,
            constraints,
            overrides,
        ),
{
}

impl OptionsProvider {
    /// Composes the document of a request, without any key projection.
    #[verifier::loop_isolation(false)]
    #[verifier::rlimit(100)]
    /// Composes the layered (unrendered) document of a request.
    fn compose_unrendered(&self, feature_names: &Vec<String>, preferences: Option<
        &GetOptionsPreferences,
    >) -> (r: Result<JsonValue, String>)
        requires
            match preferences {
                Some(p) => p.wf(),
                None => true,
            },
        ensures
            ({
                let outcome = spec_composed_doc(
                    self.spec_features(),
                    self.spec_sources(),
                    self.spec_alias_table(),
                    strs_view(feature_names@),
                    spec_pref_skip(preferences),
                    spec_pref_constraints(preferences),
                    spec_pref_overrides(preferences),
                );
                match r {
                    Ok(v) => Some(v@) == outcome && v@.wf(),
                    Err(_) => outcome is None,
                }
            }),
            spec_canonicalize(
                self.spec_alias_table(),
                names_view(self.spec_features()),
                strs_view(feature_names@),
                spec_pref_skip(preferences),
                0,
            ) is None ==> (r matches Err(m) && (spec_first_unknown(
                self.spec_alias_table(),
                names_view(self.spec_features()),
                strs_view(feature_names@),
                spec_pref_skip(preferences),
                0,
                ) matches Some(k) && m@ == spec_unknown_feature_message(
                strs_view(feature_names@)[k],
                ))),
    {
        proof {
            use_type_invariant(self);
        }
        let ghost table = aview(self.aliases@);
        let ghost fnames = names_view(self.features@);
        let ghost srcs = srcs_view(self.sources@);
        let skip = match preferences {
            Some(p) => p.skip_feature_name_conversion,
            None => false,
        };
        let canon = match self.canonicalize(feature_names, skip) {
            Ok(c) => c,
            Err(e) => {
                return Err(e);
            },
        };
        let empty_fields: Vec<(String, JsonValue)> = Vec::new();
        proof {
            assert(crate::json::fields_view(empty_fields@) =~= Seq::<(Seq<char>, Json)>::empty());
        }
        let empty_constraints = Constraints { constraints: JsonValue::Obj(empty_fields) };
        let constraints: &Constraints = match preferences {
            Some(p) => match &p.constraints {
                Some(cs) => cs,
                None => &empty_constraints,
            },
            None => &empty_constraints,
        };
        let ghost c = constraints.constraints@;
        proof {
            assert(c == spec_constraints_doc(spec_pref_constraints(preferences)));
        }
        let ghost canonv = strs_view(canon@);
        // which features survive the condition filter
        let n = canon.len();
        let mut idxs: Vec<usize> = Vec::new();
        let mut i: usize = 0;
        while i < n
            invariant
                i <= n,
                n == canon@.len(),
                canonv == strs_view(canon@),
                c == constraints.constraints@,
                constraints.constraints@.wf(),
                self.inv(),
                fnames == names_view(self.features@),
                forall|q: int|
                    0 <= q < idxs@.len() ==> (#[trigger] idxs@[q]) < self.features@.len(),
                spec_filter_indices(self.features@, canonv, c, 0) == idxs_view(idxs@)
                    + spec_filter_indices(self.features@, canonv, c, i as int),
            decreases n - i,
        {
            match crate::builder::feature_index(&self.features, canon[i].as_str()) {
                Some(j) => {
                    proof {
                        lemma_idx_of_props(fnames, canonv[i as int]);
                    }
                    let keep = match &self.features[j].conditions {
                        Some(e) => {
                            proof {
                                assert(self.features@[j as int].wf());
                            }
                            constraints.evaluate(e)
                        },
                        None => true,
                    };
                    if keep {
                        let ghost prev = idxs@;
                        idxs.push(j);
                        proof {
                            assert(idxs_view(idxs@) =~= idxs_view(prev).push(j as int));
                            assert(idxs_view(prev) + (seq![j as int] + spec_filter_indices(
                                self.features@,
                                canonv,
                                c,
                                i + 1,
                            )) =~= idxs_view(idxs@) + spec_filter_indices(
                                self.features@,
                                canonv,
                                c,
                                i + 1,
                            ));
                        }
                    }
                },
                None => {},
            }
            i += 1;
        }
        proof {
            assert(spec_filter_indices(self.features@, canonv, c, n as int) =~= Seq::<int>::empty());
            assert(idxs_view(idxs@) + Seq::<int>::empty() =~= idxs_view(idxs@));
        }
        // layer the surviving sources in request order
        let empty_fields2: Vec<(String, JsonValue)> = Vec::new();
        proof {
            assert(crate::json::fields_view(empty_fields2@) =~= Seq::<(Seq<char>, Json)>::empty());
        }
        let mut acc = JsonValue::Obj(empty_fields2);
        let m = idxs.len();
        let mut k: usize = 0;
        while k < m
            invariant
                k <= m,
                m == idxs@.len(),
                self.inv(),
                srcs == srcs_view(self.sources@),
                self.features@.len() == self.sources@.len(),
                forall|q: int|
                    0 <= q < idxs@.len() ==> (#[trigger] idxs@[q]) < self.features@.len(),
                acc@.wf(),
                spec_fold_sources(srcs, idxs_view(idxs@), 0, Json::Obj(Seq::empty()))
                    == spec_fold_sources(srcs, idxs_view(idxs@), k as int, acc@),
            decreases m - k,
        {
            let j = idxs[k];
            proof {
                assert(srcs_view(self.sources@)[j as int].wf());
                crate::merge::lemma_merge_wf(acc@, self.sources@[j as int]@);
            }
            acc = merge_json_value(acc, &self.sources[j]);
            k += 1;
        }
        // overrides last
        let withov = match preferences {
            Some(p) => match &p.overrides {
                Some(o) => {
                    proof {
                        crate::merge::lemma_merge_wf(acc@, o@);
                    }
                    merge_json_value(acc, o)
                },
                None => acc,
            },
            None => acc,
        };
        Ok(withov)
    }

    /// Composes the document of a request, rendering configurable strings
    /// when enabled. Where the composed document invokes the `date`
    /// filter, the rendering still runs but its outcome is not pinned.
    fn compute_doc(&self, feature_names: &Vec<String>, preferences: Option<
        &GetOptionsPreferences,
    >) -> (r: Result<JsonValue, String>)
        requires
            match preferences {
                Some(p) => p.wf(),
                None => true,
            },
        ensures
            !spec_request_dated(
                self.spec_features(),
                self.spec_sources(),
                self.spec_alias_table(),
                strs_view(feature_names@),
                spec_pref_skip(preferences),
                spec_pref_cse(preferences),
                spec_pref_constraints(preferences),
                spec_pref_overrides(preferences),
            ) ==> ({
                let outcome = spec_request_doc(
                    self.spec_features(),
                    self.spec_sources(),
                    self.spec_alias_table(),
                    self.spec_files(),
                    strs_view(feature_names@),
                    spec_pref_skip(preferences),
                    spec_pref_cse(preferences),
                    spec_pref_constraints(preferences),
                    spec_pref_overrides(preferences),
                );
                match r {
                    Ok(v) => Some(v@) == outcome,
                    Err(_) => outcome is None,
                }
            }),
            r matches Ok(v) ==> v@.wf(),
            spec_canonicalize(
                self.spec_alias_table(),
                names_view(self.spec_features()),
                strs_view(feature_names@),
                spec_pref_skip(preferences),
                0,
            ) is None ==> (r matches Err(m) && (spec_first_unknown(
                self.spec_alias_table(),
                names_view(self.spec_features()),
                strs_view(feature_names@),
                spec_pref_skip(preferences),
                0,
                ) matches Some(k) && m@ == spec_unknown_feature_message(
                strs_view(feature_names@)[k],
                ))),
    {
        let composed = match self.compose_unrendered(feature_names, preferences) {
            Ok(d) => d,
            Err(e) => {
                return Err(e);
            },
        };
        let cse = match preferences {
            Some(p) => p.are_configurable_strings_enabled,
            None => false,
        };
        if cse {
            match render_document(&composed, &self.files) {
                Ok(rendered) => Ok(rendered),
                Err(e) => Err(e),
            }
        } else {
            Ok(composed)
        }
    }
}

/// The name-conversion switch of optional preferences.
pub open spec fn spec_pref_skip(preferences: Option<&GetOptionsPreferences>) -> bool {
    match preferences {
        Some(p) => p.skip_feature_name_conversion,
        None => false,
    }
}

/// The configurable-strings switch of optional preferences.
pub open spec fn spec_pref_cse(preferences: Option<&GetOptionsPreferences>) -> bool {
    match preferences {
        Some(p) => p.are_configurable_strings_enabled,
        None => false,
    }
}

/// The constraints document of optional preferences.
pub open spec fn spec_pref_constraints(preferences: Option<&GetOptionsPreferences>) -> Option<
    Json,
> {
    match preferences {
        Some(p) => match p.constraints {
            Some(cs) => Some(cs.constraints@),
            None => None,
        },
        None => None,
    }
}

/// The overrides document of optional preferences.
pub open spec fn spec_pref_overrides(preferences: Option<&GetOptionsPreferences>) -> Option<Json> {
    match preferences {
        Some(p) => match p.overrides {
            Some(o) => Some(o@),
            None => None,
        },
        None => None,
    }
}


/// The dotted key of a request, viewed.
pub open spec fn spec_key_view(key: Option<&str>) -> Option<Seq<char>> {
    match key {
        Some(k) => Some(k@),
        None => None,
    }
}

impl OptionsProvider {
    /// Looks a normalized request up in the cache.
    #[verifier::loop_isolation(false)]
    fn cache_probe(
        &self,
        key: Option<&str>,
        names: &Vec<String>,
        skip: bool,
        cse: bool,
        constraints: &Option<JsonValue>,
    ) -> (r: Option<JsonValue>)
        ensures
            r matches Some(v) ==> Some(v@) == spec_request(
                self.spec_features(),
                self.spec_sources(),
                self.spec_alias_table(),
                self.spec_files(),
                spec_key_view(key),
                strs_view(names@),
                skip,
                cse,
                match constraints {
                    Some(c) => Some(c@),
                    None => None,
                },
                None,
            ) && v@.wf(),
            r is Some <==> self.spec_cache_keys().contains(
                (
                    spec_key_view(key),
                    strs_view(names@),
                    skip,
                    cse,
                    match constraints {
                        Some(c) => Some(c@),
                        None => None::<Json>,
                    },
                ),
            ),
    {
        proof {
            use_type_invariant(self);
        }
        let ghost probe_key = (
            spec_key_view(key),
            strs_view(names@),
            skip,
            cse,
            match constraints {
                Some(c) => Some(c@),
                None => None::<Json>,
            },
        );
        let n = self.cache.len();
        let mut i: usize = 0;
        while i < n
            invariant
                i <= n,
                n == self.cache@.len(),
                self.inv(),
                probe_key == (
                    spec_key_view(key),
                    strs_view(names@),
                    skip,
                    cse,
                    match constraints {
                        Some(c) => Some(c@),
                        None => None::<Json>,
                    },
                ),
                forall|j: int| 0 <= j < i ==> #[trigger] self.spec_cache_keys()[j] != probe_key,
            decreases n - i,
        {
            let e = &self.cache[i];
            let key_match = match (key, &e.key) {
                (None, None) => true,
                (Some(a), Some(b)) => crate::strings::str_eq(a, b.as_str()),
                _ => false,
            };
            let names_match = if key_match {
                string_lists_equal(names, &e.names)
            } else {
                false
            };
            let flags_match = e.skip == skip && e.cse == cse;
            let constraints_match = if names_match && flags_match {
                match (constraints, &e.constraints) {
                    (None, None) => true,
                    (Some(a), Some(b)) => crate::json::json_eq(a, b),
                    _ => false,
                }
            } else {
                false
            };
            if key_match && names_match && flags_match && constraints_match {
                proof {
                    assert(self.spec_cache_keys()[i as int] == probe_key);
                    assert(self.spec_cache_keys().contains(probe_key));
                }
                return Some(e.value.clone());
            }
            proof {
                assert(self.spec_cache_keys()[i as int] == self.cache@[i as int].key_view());
                assert(self.spec_cache_keys()[i as int] != probe_key);
            }
            i += 1;
        }
        proof {
            if self.spec_cache_keys().contains(probe_key) {
                let w = choose|w: int|
                    0 <= w < self.spec_cache_keys().len() && self.spec_cache_keys()[w]
                        == probe_key;
            }
        }
        None
    }

    /// Stores a computed request outcome in the cache.
    fn cache_store(
        &mut self,
        key: Option<&str>,
        names: Vec<String>,
        skip: bool,
        cse: bool,
        constraints: Option<JsonValue>,
        value: &JsonValue,
    )
        requires
            Some(value@) == spec_request(
                old(self).spec_features(),
                old(self).spec_sources(),
                old(self).spec_alias_table(),
                old(self).spec_files(),
                spec_key_view(key),
                strs_view(names@),
                skip,
                cse,
                match constraints {
                    Some(c) => Some(c@),
                    None => None::<Json>,
                },
                None,
            ),
            value@.wf(),
        ensures
            final(self).registry() == old(self).registry(),
            final(self).spec_cache_keys() == old(self).spec_cache_keys().push(
                (
                    spec_key_view(key),
                    strs_view(names@),
                    skip,
                    cse,
                    match constraints {
                        Some(c) => Some(c@),
                        None => None::<Json>,
                    },
                ),
            ),
    {
        proof {
            use_type_invariant(&*self);
        }
        let ghost stored_key = (
            spec_key_view(key),
            strs_view(names@),
            skip,
            cse,
            match &constraints {
                Some(c) => Some(c@),
                None => None::<Json>,
            },
        );
        let entry = CacheEntry {
            key: match key {
                Some(k) => Some(k.to_owned()),
                None => None,
            },
            names,
            skip,
            cse,
            constraints,
            value: value.clone(),
        };
        let mut tmp: Vec<CacheEntry> = Vec::new();
        core::mem::swap(&mut tmp, &mut self.cache);
        tmp.push(entry);
        core::mem::swap(&mut tmp, &mut self.cache);
        proof {
            assert(self.cache@.last().key_view() == stored_key);
            assert(self.spec_cache_keys() =~= old(self).spec_cache_keys().push(stored_key));
        }
    }

    /// The full merged document for the named features: conditions filter
    /// the features against the request's constraints, the survivors'
    /// sources layer in request order, overrides layer last, and
    /// configurable strings render when enabled. With cache options, the
    /// normalized request is memoized; caching a request that carries
    /// overrides is refused.
    pub fn get_all_options(
        &mut self,
        feature_names: &Vec<String>,
        cache_options: Option<&CacheOptions>,
        preferences: Option<&GetOptionsPreferences>,
    ) -> (r: Result<JsonValue, String>)
        requires
            match preferences {
                Some(p) => p.wf(),
                None => true,
            },
        ensures
            final(self).registry() == old(self).registry(),
            forall|i: int|
                0 <= i < old(self).spec_cache_keys().len()
                    ==> #[trigger] final(self).spec_cache_keys()[i] == old(
                    self,
                ).spec_cache_keys()[i],
            final(self).spec_cache_keys().len() >= old(self).spec_cache_keys().len(),
            (spec_canonicalize(
                old(self).spec_alias_table(),
                names_view(old(self).spec_features()),
                strs_view(feature_names@),
                spec_pref_skip(preferences),
                0,
            ) is None && !(cache_options is Some && spec_pref_overrides(preferences) is Some))
                ==> (r matches Err(m) && (spec_first_unknown(
                old(self).spec_alias_table(),
                names_view(old(self).spec_features()),
                strs_view(feature_names@),
                spec_pref_skip(preferences),
                0,
                ) matches Some(k) && m@ == spec_unknown_feature_message(
                strs_view(feature_names@)[k],
                ))),
            cache_options is None ==> final(self).spec_cache_keys() == old(
                self,
            ).spec_cache_keys(),
            (cache_options is Some && spec_pref_overrides(preferences) is None && r is Ok
                && !spec_request_dated(
                old(self).spec_features(),
                old(self).spec_sources(),
                old(self).spec_alias_table(),
                strs_view(feature_names@),
                spec_pref_skip(preferences),
                spec_pref_cse(preferences),
                spec_pref_constraints(preferences),
                spec_pref_overrides(preferences),
            )) ==> final(self).spec_cache_keys().contains(
                spec_normalized_key(
                    old(self).spec_alias_table(),
                    names_view(old(self).spec_features()),
                    None,
                    strs_view(feature_names@),
                    spec_pref_skip(preferences),
                    spec_pref_cse(preferences),
                    spec_pref_constraints(preferences),
                )->0,
            ),
            ({
                let dated = spec_request_dated(
                    old(self).spec_features(),
                    old(self).spec_sources(),
                    old(self).spec_alias_table(),
                    strs_view(feature_names@),
                    spec_pref_skip(preferences),
                    spec_pref_cse(preferences),
                    spec_pref_constraints(preferences),
                    spec_pref_overrides(preferences),
                );
                let outcome = spec_request(
                    old(self).spec_features(),
                    old(self).spec_sources(),
                    old(self).spec_alias_table(),
                    old(self).spec_files(),
                    None,
                    strs_view(feature_names@),
                    spec_pref_skip(preferences),
                    spec_pref_cse(preferences),
                    spec_pref_constraints(preferences),
                    spec_pref_overrides(preferences),
                );
                &&& (!dated ==> (r matches Ok(v) ==> Some(v@) == outcome && v@.wf()))
                &&& (!dated ==> (r is Ok <==> outcome is Some && !(cache_options is Some
                    && spec_pref_overrides(preferences) is Some)))
                &&& (cache_options is Some && spec_pref_overrides(preferences) is Some
                    ==> (r matches Err(m) && m@ == (
                "Caching when overrides are given is not supported")@))
            }),
    {
        self.request(None, feature_names, cache_options, preferences)
    }

    /// The shared request path; the key, when given, projects the composed
    /// document.
    #[verifier::rlimit(60)]
    fn request(
        &mut self,
        key: Option<&str>,
        feature_names: &Vec<String>,
        cache_options: Option<&CacheOptions>,
        preferences: Option<&GetOptionsPreferences>,
    ) -> (r: Result<JsonValue, String>)
        requires
            match preferences {
                Some(p) => p.wf(),
                None => true,
            },
        ensures
            final(self).registry() == old(self).registry(),
            forall|i: int|
                0 <= i < old(self).spec_cache_keys().len()
                    ==> #[trigger] final(self).spec_cache_keys()[i] == old(
                    self,
                ).spec_cache_keys()[i],
            final(self).spec_cache_keys().len() >= old(self).spec_cache_keys().len(),
            (spec_canonicalize(
                old(self).spec_alias_table(),
                names_view(old(self).spec_features()),
                strs_view(feature_names@),
                spec_pref_skip(preferences),
                0,
            ) is None && !(cache_options is Some && spec_pref_overrides(preferences) is Some))
                ==> (r matches Err(m) && (spec_first_unknown(
                old(self).spec_alias_table(),
                names_view(old(self).spec_features()),
                strs_view(feature_names@),
                spec_pref_skip(preferences),
                0,
                ) matches Some(k) && m@ == spec_unknown_feature_message(
                strs_view(feature_names@)[k],
                ))),
            cache_options is None ==> final(self).spec_cache_keys() == old(
                self,
            ).spec_cache_keys(),
            (cache_options is Some && spec_pref_overrides(preferences) is None && r is Ok
                && !spec_request_dated(
                old(self).spec_features(),
                old(self).spec_sources(),
                old(self).spec_alias_table(),
                strs_view(feature_names@),
                spec_pref_skip(preferences),
                spec_pref_cse(preferences),
                spec_pref_constraints(preferences),
                spec_pref_overrides(preferences),
            )) ==> final(self).spec_cache_keys().contains(
                spec_normalized_key(
                    old(self).spec_alias_table(),
                    names_view(old(self).spec_features()),
                    spec_key_view(key),
                    strs_view(feature_names@),
                    spec_pref_skip(preferences),
                    spec_pref_cse(preferences),
                    spec_pref_constraints(preferences),
                )->0,
            ),
            ({
                let dated = spec_request_dated(
                    old(self).spec_features(),
                    old(self).spec_sources(),
                    old(self).spec_alias_table(),
                    strs_view(feature_names@),
                    spec_pref_skip(preferences),
                    spec_pref_cse(preferences),
                    spec_pref_constraints(preferences),
                    spec_pref_overrides(preferences),
                );
                let outcome = spec_request(
                    old(self).spec_features(),
                    old(self).spec_sources(),
                    old(self).spec_alias_table(),
                    old(self).spec_files(),
                    spec_key_view(key),
                    strs_view(feature_names@),
                    spec_pref_skip(preferences),
                    spec_pref_cse(preferences),
                    spec_pref_constraints(preferences),
                    spec_pref_overrides(preferences),
                );
                &&& (!dated ==> (r matches Ok(v) ==> Some(v@) == outcome && v@.wf()))
                &&& (!dated ==> (r is Ok <==> outcome is Some && !(cache_options is Some
                    && spec_pref_overrides(preferences) is Some)))
                &&& (cache_options is Some && spec_pref_overrides(preferences) is Some
                    ==> (r matches Err(m) && m@ == (
                "Caching when overrides are given is not supported")@))
                &&& ((!dated && (spec_request_doc(
                    old(self).spec_features(),
                    old(self).spec_sources(),
                    old(self).spec_alias_table(),
                    old(self).spec_files(),
                    strs_view(feature_names@),
                    spec_pref_skip(preferences),
                    spec_pref_cse(preferences),
                    spec_pref_constraints(preferences),
                    spec_pref_overrides(preferences),
                ) matches Some(doc) && key is Some && spec_dotted_lookup(
                    doc,
                    spec_key_view(key)->0,
                ) is None) && !(cache_options is Some && spec_pref_overrides(preferences)
                    is Some)) ==> (r matches Err(m) && m@ == spec_missing_key_message(
                    strs_view(feature_names@),
                    spec_key_view(key)->0,
                )))
            }),
    {
        proof {
            use_type_invariant(&*self);
        }
        let has_overrides = match preferences {
            Some(p) => p.overrides.is_some(),
            None => false,
        };
        if cache_options.is_some() && has_overrides {
            return Err(("Caching when overrides are given is not supported").to_owned());
        }
        let skip = match preferences {
            Some(p) => p.skip_feature_name_conversion,
            None => false,
        };
        let cse = match preferences {
            Some(p) => p.are_configurable_strings_enabled,
            None => false,
        };
        let use_cache = cache_options.is_some() && !has_overrides;
        let mut stored_names: Vec<String> = Vec::new();
        let mut stored_constraints: Option<JsonValue> = None;
        if use_cache {
            // normalize the names for the cache key
            stored_names = if skip {
                crate::metadata::clone_string_vec(feature_names)
            } else {
                match self.canonicalize(feature_names, false) {
                    Ok(c) => c,
                    Err(e) => {
                        return Err(e);
                    },
                }
            };
            stored_constraints = match preferences {
                Some(p) => match &p.constraints {
                    Some(cs) => Some(cs.constraints.clone()),
                    None => None,
                },
                None => None,
            };
            proof {
                self.lemma_normalized_names(
                    strs_view(feature_names@),
                    strs_view(stored_names@),
                    skip,
                );
                assert(spec_normalized_key(
                    self.spec_alias_table(),
                    names_view(self.spec_features()),
                    spec_key_view(key),
                    strs_view(feature_names@),
                    skip,
                    cse,
                    spec_pref_constraints(preferences),
                ) == Some(
                    (
                        spec_key_view(key),
                        strs_view(stored_names@),
                        skip,
                        cse,
                        match &stored_constraints {
                            Some(c) => Some(c@),
                            None => None::<Json>,
                        },
                    ),
                ));
            }
            match self.cache_probe(key, &stored_names, skip, cse, &stored_constraints) {
                Some(v) => {
                    proof {
                        lemma_cache_determinism(
                            self.spec_features(),
                            self.spec_sources(),
                            self.spec_alias_table(),
                            self.spec_files(),
                            spec_key_view(key),
                            strs_view(stored_names@),
                            skip,
                            strs_view(feature_names@),
                            skip,
                            cse,
                            spec_pref_constraints(preferences),
                            None,
                        );
                    }
                    return Ok(v);
                },
                None => {},
            }
        }
        let composed = match self.compose_unrendered(feature_names, preferences) {
            Ok(d) => d,
            Err(e) => {
                return Err(e);
            },
        };
        let mut dated = false;
        let doc = if cse {
            dated = doc_mentions_date(&composed);
            match render_document(&composed, &self.files) {
                Ok(rendered) => rendered,
                Err(e) => {
                    return Err(e);
                },
            }
        } else {
            composed
        };
        let result = match key {
            Some(kp) => match dotted_lookup(&doc, kp) {
                Some(v) => v.clone(),
                None => {
                    let m = missing_key_message(feature_names, kp);
                    return Err(m);
                },
            },
            None => doc,
        };
        if use_cache && !dated {
            proof {
                self.lemma_normalized_names(
                    strs_view(feature_names@),
                    strs_view(stored_names@),
                    skip,
                );
                lemma_cache_determinism(
                    self.spec_features(),
                    self.spec_sources(),
                    self.spec_alias_table(),
                    self.spec_files(),
                    spec_key_view(key),
                    strs_view(feature_names@),
                    skip,
                    strs_view(stored_names@),
                    skip,
                    cse,
                    spec_pref_constraints(preferences),
                    None,
                );
            }
            let ghost normalized = spec_normalized_key(
                self.spec_alias_table(),
                names_view(self.spec_features()),
                spec_key_view(key),
                strs_view(feature_names@),
                skip,
                cse,
                spec_pref_constraints(preferences),
            )->0;
            self.cache_store(key, stored_names, skip, cse, stored_constraints, &result);
            proof {
                assert(self.spec_cache_keys().last() == normalized);
                assert(self.spec_cache_keys().contains(normalized));
            }
        }
        Ok(result)
    }

    /// The stored cache names of a request normalize the same way the
    /// request's own names do.
    proof fn lemma_normalized_names(
        &self,
        names: Seq<Seq<char>>,
        stored: Seq<Seq<char>>,
        skip: bool,
    )
        requires
            self.inv(),
            if skip {
                stored == names
            } else {
                spec_canonicalize(
                    self.spec_alias_table(),
                    names_view(self.spec_features()),
                    names,
                    false,
                    0,
                ) == Some(stored)
            },
        ensures
            spec_canonicalize(
                self.spec_alias_table(),
                names_view(self.spec_features()),
                stored,
                skip,
                0,
            ) == spec_canonicalize(
                self.spec_alias_table(),
                names_view(self.spec_features()),
                names,
                skip,
                0,
            ),
    {
        if !skip {
            let fnames = names_view(self.spec_features());
            assert forall|k: int| 0 <= k < stored.len() implies idx_of(
                fnames,
                #[trigger] stored[k],
            ) is Some by {
                lemma_canon_elements(
                    self.spec_alias_entries(),
                    fnames,
                    names,
                    false,
                    stored,
                    0,
                    k,
                );
            }
            lemma_canonicalize_fixed(self.spec_alias_table(), fnames, stored, 0);
            assert(stored.skip(0) =~= stored);
        }
    }
}

/// Whether two string lists read the same.
fn string_lists_equal(a: &Vec<String>, b: &Vec<String>) -> (r: bool)
    ensures
        r == (strs_view(a@) == strs_view(b@)),
{
    if a.len() != b.len() {
        proof {
            assert(strs_view(a@).len() != strs_view(b@).len());
        }
        return false;
    }
    let n = a.len();
    let mut i: usize = 0;
    loop
        invariant
            i <= n,
            n == a@.len(),
            n == b@.len(),
            forall|j: int| 0 <= j < i ==> #[trigger] strs_view(a@)[j] == strs_view(b@)[j],
        decreases n - i,
    {
        if i == n {
            proof {
                assert(strs_view(a@) =~= strs_view(b@));
            }
            return true;
        }
        if !str_eq(a[i].as_str(), b[i].as_str()) {
            proof {
                assert(strs_view(a@)[i as int] != strs_view(b@)[i as int]);
            }
            return false;
        }
        i += 1;
    }
}

/// The exact text reported when a requested key is absent.
pub open spec fn spec_missing_key_message(names: Seq<Seq<char>>, key: Seq<char>) -> Seq<char> {
    ("Error getting options with features [")@ + spec_name_list(names, 0) + (
    "]: configuration property \"")@ + key + ("\" not found")@
}

/// The requested names, quoted and comma-separated.
pub open spec fn spec_name_list(names: Seq<Seq<char>>, i: int) -> Seq<char>
    decreases names.len() - i,
{
    if i < 0 || i >= names.len() {
        Seq::empty()
    } else {
        (if i > 0 {
            (", ")@
        } else {
            Seq::empty()
        }) + seq!['"'] + names[i] + seq!['"'] + spec_name_list(names, i + 1)
    }
}

/// Builds the missing-key message.
#[verifier::loop_isolation(false)]
fn missing_key_message(names: &Vec<String>, key: &str) -> (r: String)
    ensures
        r@ == spec_missing_key_message(strs_view(names@), key@),
{
    let ghost nv = strs_view(names@);
    let mut m = String::new();
    push_str(&mut m, "Error getting options with features [");
    let ghost base = m@;
    let n = names.len();
    let mut i: usize = 0;
    while i < n
        invariant
            i <= n,
            n == names@.len(),
            nv == strs_view(names@),
            base + spec_name_list(nv, 0) == m@ + spec_name_list(nv, i as int),
        decreases n - i,
    {
        if i > 0 {
            push_str(&mut m, ", ");
        }
        push_str(&mut m, "\"");
        push_str(&mut m, names[i].as_str());
        push_str(&mut m, "\"");
        proof {
            assert(("\"")@ =~= seq!['"']) by {
                reveal_strlit("\"");
            }
            assert(base + spec_name_list(nv, 0) =~= m@ + spec_name_list(nv, i + 1));
        }
        i += 1;
    }
    proof {
        assert(spec_name_list(nv, n as int) == Seq::<char>::empty());
        assert(base + spec_name_list(nv, 0) =~= m@);
    }
    push_str(&mut m, "]: configuration property \"");
    push_str(&mut m, key);
    push_str(&mut m, "\" not found");
    proof {
        assert(m@ =~= spec_missing_key_message(nv, key@));
    }
    m
}


/// The object keys of `f`, in stored (sorted) order.
pub open spec fn obj_keys(f: Seq<(Seq<char>, Json)>) -> Seq<Seq<char>> {
    Seq::new(f.len(), |i: int| f[i].0)
}

impl OptionsProvider {
    /// The sub-tree of the composed document at a dotted key, such as
    /// `myConfig.rootString`; an absent key is reported with the message
    /// callers grep for.
    pub fn get_options(&self, key: &str, feature_names: &Vec<String>) -> (r: Result<
        JsonValue,
        String,
    >)
        ensures
            ({
                let outcome = spec_request(
                    self.spec_features(),
                    self.spec_sources(),
                    self.spec_alias_table(),
                    self.spec_files(),
                    Some(key@),
                    strs_view(feature_names@),
                    false,
                    false,
                    None,
                    None,
                );
                &&& (r matches Ok(v) ==> Some(v@) == outcome && v@.wf())
                &&& (r is Ok <==> outcome is Some)
                &&& ((spec_request_doc(
                    self.spec_features(),
                    self.spec_sources(),
                    self.spec_alias_table(),
                    self.spec_files(),
                    strs_view(feature_names@),
                    false,
                    false,
                    None,
                    None,
                ) matches Some(doc) && spec_dotted_lookup(doc, key@) is None) ==> (r matches Err(
                    m,
                ) && m@ == spec_missing_key_message(strs_view(feature_names@), key@)))
            }),
            spec_canonicalize(
                self.spec_alias_table(),
                names_view(self.spec_features()),
                strs_view(feature_names@),
                false,
                0,
            ) is None ==> (r matches Err(m) && (spec_first_unknown(
                self.spec_alias_table(),
                names_view(self.spec_features()),
                strs_view(feature_names@),
                false,
                0,
                ) matches Some(k) && m@ == spec_unknown_feature_message(
                strs_view(feature_names@)[k],
                ))),
    {
        match self.compute_doc(feature_names, None) {
            Ok(doc) => match dotted_lookup(&doc, key) {
                Some(v) => Ok(v.clone()),
                None => Err(missing_key_message(feature_names, key)),
            },
            Err(e) => Err(e),
        }
    }

    /// As `get_options`, with preferences and optional caching.
    pub fn get_options_with_preferences(
        &mut self,
        key: &str,
        feature_names: &Vec<String>,
        cache_options: Option<&CacheOptions>,
        preferences: Option<&GetOptionsPreferences>,
    ) -> (r: Result<JsonValue, String>)
        requires
            match preferences {
                Some(p) => p.wf(),
                None => true,
            },
        ensures
            final(self).registry() == old(self).registry(),
            forall|i: int|
                0 <= i < old(self).spec_cache_keys().len()
                    ==> #[trigger] final(self).spec_cache_keys()[i] == old(
                    self,
                ).spec_cache_keys()[i],
            final(self).spec_cache_keys().len() >= old(self).spec_cache_keys().len(),
            (spec_canonicalize(
                old(self).spec_alias_table(),
                names_view(old(self).spec_features()),
                strs_view(feature_names@),
                spec_pref_skip(preferences),
                0,
            ) is None && !(cache_options is Some && spec_pref_overrides(preferences) is Some))
                ==> (r matches Err(m) && (spec_first_unknown(
                old(self).spec_alias_table(),
                names_view(old(self).spec_features()),
                strs_view(feature_names@),
                spec_pref_skip(preferences),
                0,
                ) matches Some(k) && m@ == spec_unknown_feature_message(
                strs_view(feature_names@)[k],
                ))),
            cache_options is None ==> final(self).spec_cache_keys() == old(
                self,
            ).spec_cache_keys(),
            (cache_options is Some && spec_pref_overrides(preferences) is None && r is Ok
                && !spec_request_dated(
                old(self).spec_features(),
                old(self).spec_sources(),
                old(self).spec_alias_table(),
                strs_view(feature_names@),
                spec_pref_skip(preferences),
                spec_pref_cse(preferences),
                spec_pref_constraints(preferences),
                spec_pref_overrides(preferences),
            )) ==> final(self).spec_cache_keys().contains(
                spec_normalized_key(
                    old(self).spec_alias_table(),
                    names_view(old(self).spec_features()),
                    Some(key@),
                    strs_view(feature_names@),
                    spec_pref_skip(preferences),
                    spec_pref_cse(preferences),
                    spec_pref_constraints(preferences),
                )->0,
            ),
            ({
                let dated = spec_request_dated(
                    old(self).spec_features(),
                    old(self).spec_sources(),
                    old(self).spec_alias_table(),
                    strs_view(feature_names@),
                    spec_pref_skip(preferences),
                    spec_pref_cse(preferences),
                    spec_pref_constraints(preferences),
                    spec_pref_overrides(preferences),
                );
                let outcome = spec_request(
                    old(self).spec_features(),
                    old(self).spec_sources(),
                    old(self).spec_alias_table(),
                    old(self).spec_files(),
                    Some(key@),
                    strs_view(feature_names@),
                    spec_pref_skip(preferences),
                    spec_pref_cse(preferences),
                    spec_pref_constraints(preferences),
                    spec_pref_overrides(preferences),
                );
                &&& (!dated ==> (r matches Ok(v) ==> Some(v@) == outcome && v@.wf()))
                &&& (!dated ==> (r is Ok <==> outcome is Some && !(cache_options is Some
                    && spec_pref_overrides(preferences) is Some)))
            }),
    {
        self.request(Some(key), feature_names, cache_options, preferences)
    }

    /// The cached outcome of a request, without computing on a miss.
    /// Probing with overrides is refused, as caching them is.
    pub fn get_options_from_cache(
        &self,
        key: &str,
        feature_names: &Vec<String>,
        cache_options: Option<&CacheOptions>,
        preferences: Option<&GetOptionsPreferences>,
    ) -> (r: Result<Option<JsonValue>, String>)
        requires
            match preferences {
                Some(p) => p.wf(),
                None => true,
            },
        ensures
            match r {
                Ok(hit) => match hit {
                    Some(v) => Some(v@) == spec_request(
                        self.spec_features(),
                        self.spec_sources(),
                        self.spec_alias_table(),
                        self.spec_files(),
                        Some(key@),
                        strs_view(feature_names@),
                        spec_pref_skip(preferences),
                        spec_pref_cse(preferences),
                        spec_pref_constraints(preferences),
                        None,
                    ) && v@.wf(),
                    None => true,
                },
                Err(_) => true,
            },
            spec_pref_overrides(preferences) is Some ==> r is Err,
            spec_pref_overrides(preferences) is None ==> (r is Ok <==> spec_normalized_key(
                self.spec_alias_table(),
                names_view(self.spec_features()),
                Some(key@),
                strs_view(feature_names@),
                spec_pref_skip(preferences),
                spec_pref_cse(preferences),
                spec_pref_constraints(preferences),
            ) is Some),
            (spec_pref_overrides(preferences) is None && spec_normalized_key(
                self.spec_alias_table(),
                names_view(self.spec_features()),
                Some(key@),
                strs_view(feature_names@),
                spec_pref_skip(preferences),
                spec_pref_cse(preferences),
                spec_pref_constraints(preferences),
            ) is Some && self.spec_cache_keys().contains(
                spec_normalized_key(
                    self.spec_alias_table(),
                    names_view(self.spec_features()),
                    Some(key@),
                    strs_view(feature_names@),
                    spec_pref_skip(preferences),
                    spec_pref_cse(preferences),
                    spec_pref_constraints(preferences),
                )->0,
            )) ==> (r matches Ok(hit) && hit is Some),
    {
        proof {
            use_type_invariant(self);
        }
        let has_overrides = match preferences {
            Some(p) => p.overrides.is_some(),
            None => false,
        };
        if has_overrides {
            return Err(("Caching when overrides are given is not supported").to_owned());
        }
        let skip = match preferences {
            Some(p) => p.skip_feature_name_conversion,
            None => false,
        };
        let cse = match preferences {
            Some(p) => p.are_configurable_strings_enabled,
            None => false,
        };
        let stored_names = if skip {
            crate::metadata::clone_string_vec(feature_names)
        } else {
            match self.canonicalize(feature_names, false) {
                Ok(c) => c,
                Err(e) => {
                    return Err(e);
                },
            }
        };
        let stored_constraints: Option<JsonValue> = match preferences {
            Some(p) => match &p.constraints {
                Some(cs) => Some(cs.constraints.clone()),
                None => None,
            },
            None => None,
        };
        proof {
            self.lemma_normalized_names(
                strs_view(feature_names@),
                strs_view(stored_names@),
                skip,
            );
            assert(spec_normalized_key(
                self.spec_alias_table(),
                names_view(self.spec_features()),
                Some(key@),
                strs_view(feature_names@),
                skip,
                cse,
                spec_pref_constraints(preferences),
            ) == Some(
                (
                    Some(key@),
                    strs_view(stored_names@),
                    skip,
                    cse,
                    match &stored_constraints {
                        Some(c) => Some(c@),
                        None => None::<Json>,
                    },
                ),
            ));
        }
        match self.cache_probe(Some(key), &stored_names, skip, cse, &stored_constraints) {
            Some(v) => {
                proof {
                    lemma_cache_determinism(
                        self.spec_features(),
                        self.spec_sources(),
                        self.spec_alias_table(),
                        self.spec_files(),
                        Some(key@),
                        strs_view(stored_names@),
                        skip,
                        strs_view(feature_names@),
                        skip,
                        cse,
                        spec_pref_constraints(preferences),
                        None,
                    );
                }
                Ok(Some(v))
            },
            None => Ok(None),
        }
    }

    /// The child keys of the object addressed by a JSON Pointer inside the
    /// document composed from every feature; arrays, scalars, absent paths
    /// and failing requests give an empty list.
    #[verifier::loop_isolation(false)]
    pub fn get_possible_keys(&self, key: &str, preferences: Option<&GetOptionsPreferences>) -> (r:
        Vec<String>)
        requires
            match preferences {
                Some(p) => p.wf(),
                None => true,
            },
        ensures
            !spec_request_dated(
                self.spec_features(),
                self.spec_sources(),
                self.spec_alias_table(),
                names_view(self.spec_features()),
                spec_pref_skip(preferences),
                spec_pref_cse(preferences),
                spec_pref_constraints(preferences),
                spec_pref_overrides(preferences),
            ) ==> strs_view(r@) == ({
                match spec_request_doc(
                    self.spec_features(),
                    self.spec_sources(),
                    self.spec_alias_table(),
                    self.spec_files(),
                    names_view(self.spec_features()),
                    spec_pref_skip(preferences),
                    spec_pref_cse(preferences),
                    spec_pref_constraints(preferences),
                    spec_pref_overrides(preferences),
                ) {
                    Some(doc) => match crate::pointer::spec_ptr_lookup(doc, key@) {
                        Some(Json::Obj(f)) => obj_keys(f),
                        _ => Seq::empty(),
                    },
                    None => Seq::empty(),
                }
            }),
    {
        broadcast use crate::json::group_json_views, vstd::std_specs::vec::group_vec_axioms;

        let names = self.get_features();
        let empty: Vec<String> = Vec::new();
        proof {
            assert(strs_view(empty@) =~= Seq::<Seq<char>>::empty());
        }
        let doc = match self.compute_doc(&names, preferences) {
            Ok(d) => d,
            Err(_) => {
                return empty;
            },
        };
        match crate::pointer::json_pointer_lookup(&doc, key) {
            Some(sub) => match sub {
                JsonValue::Obj(fields) => {
                    let ghost fv = crate::json::fields_view(fields@);
                    let n = fields.len();
                    let mut out: Vec<String> = Vec::new();
                    let mut i: usize = 0;
                    while i < n
                        invariant
                            i <= n,
                            n == fields@.len(),
                            fv == crate::json::fields_view(fields@),
                            out@.len() == i,
                            forall|j: int|
                                0 <= j < i ==> #[trigger] strs_view(out@)[j] == obj_keys(fv)[j],
                        decreases n - i,
                    {
                        let ghost prev = out@;
                        out.push(fields[i].0.clone());
                        proof {
                            assert(forall|j: int|
                                0 <= j < prev.len() ==> #[trigger] strs_view(out@)[j] == strs_view(
                                    prev,
                                )[j]);
                            assert(strs_view(out@)[i as int] == obj_keys(fv)[i as int]);
                        }
                        i += 1;
                    }
                    proof {
                        assert(strs_view(out@) =~= obj_keys(fv));
                    }
                    out
                },
                _ => empty,
            },
            None => empty,
        }
    }
}

/// Canonicalization: where the alias table maps each canonical feature
/// name, case-folded, to itself — as every built registry does — any
/// spelling of the name that folds the same way maps to the canonical name
/// too.
pub proof fn lemma_canonicalization(
    table: Seq<(Seq<char>, Seq<char>)>,
    fnames: Seq<Seq<char>>,
    n: Seq<char>,
    i: int,
)
    requires
        0 <= i < fnames.len(),
        aget(table, folded_case(fnames[i])) == Some(fnames[i]),
        folded_case(n) == folded_case(fnames[i]),
    ensures
        aget(table, folded_case(n)) == Some(fnames[i]),
{
}

} // verus!
