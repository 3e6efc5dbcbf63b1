//! Building a registry: features are added one by one from parsed
//! documents; `build` resolves the import graph into per-feature sources,
//! computes dependents, and freezes the result into a provider.

use vstd::prelude::*;

use crate::alias::{add_alias, aget, alias_find, aview, fold_case, folded_case, AliasEntry};
use crate::configurable_string::LoadedFiles;
use crate::feature::{feature_doc_parseable, parse_feature, Feature};
use crate::json::{Json, JsonValue};
use crate::merge::{lemma_merge_wf, merge_json_value, spec_merge};
use crate::provider::{
    idx_of, lemma_idx_of_props, names_view, srcs_view, OptionsProvider,
};
use crate::strings::{push_str, str_eq};

verus! {

/// Accumulates features, aliases and resource files before the registry is
/// frozen.
pub struct OptionsProviderBuilder {
    aliases: Vec<AliasEntry>,
    features: Vec<Feature>,
    files: LoadedFiles,
}

impl OptionsProviderBuilder {
    pub closed spec fn wf(self) -> bool {
        &&& forall|i: int|
            0 <= i < self.features@.len() ==> (#[trigger] self.features@[i]).wf()
        &&& forall|i: int, j: int|
            0 <= i < j < self.features@.len() ==> (#[trigger] self.features@[i]).canonical_name@
                != (#[trigger] self.features@[j]).canonical_name@
        &&& forall|i: int, j: int|
            0 <= i < j < self.aliases@.len() ==> (#[trigger] self.aliases@[i]).key@ != (
            #[trigger] self.aliases@[j]).key@
        &&& forall|i: int|
            0 <= i < self.aliases@.len() ==> idx_of(
                names_view(self.features@),
                (#[trigger] self.aliases@[i]).canonical@,
            ) is Some
        &&& forall|i: int|
            0 <= i < self.features@.len() ==> aget(
                aview(self.aliases@),
                folded_case((#[trigger] self.features@[i]).canonical_name@),
            ) == Some(self.features@[i].canonical_name@)
    }

    pub closed spec fn spec_features(self) -> Seq<Feature> {
        self.features@
    }

    pub closed spec fn spec_alias_table(self) -> Seq<(Seq<char>, Seq<char>)> {
        aview(self.aliases@)
    }

    pub closed spec fn spec_alias_entries(self) -> Seq<AliasEntry> {
        self.aliases@
    }

    pub closed spec fn spec_files(self) -> Seq<(Seq<char>, Seq<char>)> {
        self.files.view_table()
    }

    pub fn new() -> (r: Self)
        ensures
            r.wf(),
            r.spec_features().len() == 0,
            r.spec_alias_table().len() == 0,
    {
        let r = OptionsProviderBuilder {
            aliases: Vec::new(),
            features: Vec::new(),
            files: LoadedFiles::new(),
        };
        proof {
            assert(aview(r.aliases@) =~= Seq::<(Seq<char>, Seq<char>)>::empty());
        }
        r
    }

    /// Stores one resource file for configurable strings.
    pub fn add_file(&mut self, path: String, contents: String)
        requires
            old(self).wf(),
        ensures
            final(self).wf(),
            final(self).spec_features() == old(self).spec_features(),
            final(self).spec_alias_table() == old(self).spec_alias_table(),
    {
        self.files.insert(path, contents);
    }

    /// Adds one feature from its parsed document. The canonical name comes
    /// from the file path relative to its root, extension removed. The
    /// document must fit the feature schema; a canonical name or alias
    /// already taken, under any case, is rejected.
    pub fn add_feature(&mut self, canonical_name: &str, path: &str, document: &JsonValue) -> (r:
        Result<(), String>)
        requires
            old(self).wf(),
            document@.wf(),
        ensures
            final(self).wf(),
            r is Ok <==> {
                &&& feature_doc_parseable(document@)
                &&& idx_of(names_view(old(self).spec_features()), canonical_name@) is None
                &&& spec_aliases_free(
                    old(self).spec_alias_table(),
                    seq![canonical_name@] + crate::feature::doc_alias_names(document@),
                    canonical_name@,
                    0,
                )
            },
            r is Ok ==> {
                &&& feature_doc_parseable(document@)
                &&& final(self).spec_features().len() == old(self).spec_features().len() + 1
                &&& final(self).spec_features().last().canonical_name@ == canonical_name@
                &&& crate::feature::feature_represents(
                    final(self).spec_features().last(),
                    canonical_name@,
                    path@,
                    document@,
                )
                &&& forall|i: int|
                    0 <= i < old(self).spec_features().len() ==> final(self).spec_features()[i]
                        == old(self).spec_features()[i]
                &&& aget(final(self).spec_alias_table(), folded_case(canonical_name@)) == Some(
                    canonical_name@,
                )
                &&& forall|k: int|
                    0 <= k < crate::feature::doc_alias_names(document@).len() ==> aget(
                        final(self).spec_alias_table(),
                        folded_case(#[trigger] crate::feature::doc_alias_names(document@)[k]),
                    ) == Some(canonical_name@)
                &&& forall|k: Seq<char>|
                    aget(old(self).spec_alias_table(), k) is Some ==> #[trigger] aget(
                        final(self).spec_alias_table(),
                        k,
                    ) == aget(old(self).spec_alias_table(), k)
            },
            (feature_doc_parseable(document@) && idx_of(
                names_view(old(self).spec_features()),
                canonical_name@,
            ) is Some) ==> (r matches Err(m) && m@ == spec_duplicate_name_message(
                path@,
                canonical_name@,
            )),
            (feature_doc_parseable(document@) && idx_of(
                names_view(old(self).spec_features()),
                canonical_name@,
            ) is None && spec_first_alias_collision(
                old(self).spec_alias_table(),
                seq![canonical_name@] + crate::feature::doc_alias_names(document@),
                canonical_name@,
                0,
            ) is Some) ==> (r matches Err(m) && m@ == crate::alias::spec_duplicate_alias_message(
                (spec_first_alias_collision(
                    old(self).spec_alias_table(),
                    seq![canonical_name@] + crate::feature::doc_alias_names(document@),
                    canonical_name@,
                    0,
                )->0).0,
                canonical_name@,
                (spec_first_alias_collision(
                    old(self).spec_alias_table(),
                    seq![canonical_name@] + crate::feature::doc_alias_names(document@),
                    canonical_name@,
                    0,
                )->0).1,
            )),
    {
        let ghost all_names = seq![canonical_name@] + crate::feature::doc_alias_names(
            document@,
        );
        let ghost table0 = aview(self.aliases@);
        proof {
            assert(all_names[0] == canonical_name@);
        }
        let f = match parse_feature(canonical_name, path, document) {
            Ok(f) => f,
            Err(e) => {
                return Err(e);
            },
        };
        // a second file with the same canonical name is rejected
        if let Some(_i) = feature_index(&self.features, canonical_name) {
            let mut m = String::new();
            push_str(&mut m, "Error when loading '");
            push_str(&mut m, path);
            push_str(&mut m, "'. The canonical feature name for the file, '");
            push_str(&mut m, canonical_name);
            push_str(&mut m, "', was already added.");
            proof {
                assert(m@ =~= spec_duplicate_name_message(path@, canonical_name@));
            }
            return Err(m);
        }
        // the canonical name must be free in the alias table before the
        // feature is committed
        let folded = fold_case(canonical_name);
        if let Some(i) = alias_find(&self.aliases, folded.as_str()) {
            proof {
                assert(!spec_aliases_free(table0, all_names, canonical_name@, 0));
                assert(spec_first_alias_collision(table0, all_names, canonical_name@, 0) == Some(
                    (canonical_name@, aget(table0, folded_case(canonical_name@))->0),
                ));
            }
            let mut m = String::new();
            push_str(&mut m, "The alias '");
            push_str(&mut m, canonical_name);
            push_str(&mut m, "' for canonical feature name '");
            push_str(&mut m, canonical_name);
            push_str(&mut m, "' is already mapped to '");
            push_str(&mut m, self.aliases[i].canonical.as_str());
            push_str(&mut m, "'.");
            proof {
                assert(m@ =~= crate::alias::spec_duplicate_alias_message(
                    canonical_name@,
                    canonical_name@,
                    aget(table0, folded_case(canonical_name@))->0,
                ));
            }
            return Err(m);
        }
        let ghost pre_features = self.features@;
        self.features.push(f);
        proof {
            assert forall|i: int, j: int|
                0 <= i < j < self.features@.len() implies (
            #[trigger] self.features@[i]).canonical_name@ != (
            #[trigger] self.features@[j]).canonical_name@ by {
                if j == self.features@.len() - 1 {
                    lemma_idx_of_props(names_view(pre_features), canonical_name@);
                    assert(names_view(pre_features)[i] == pre_features[i].canonical_name@);
                }
            }
            assert forall|i: int|
                0 <= i < self.aliases@.len() implies idx_of(
                names_view(self.features@),
                (#[trigger] self.aliases@[i]).canonical@,
            ) is Some by {
                lemma_idx_of_extend(names_view(pre_features), self.aliases@[i].canonical@, canonical_name@);
                assert(names_view(self.features@) =~= names_view(pre_features).push(
                    canonical_name@,
                ));
            }
            assert forall|i: int|
                0 <= i < self.features@.len() && i < pre_features.len() implies aget(
                aview(self.aliases@),
                folded_case((#[trigger] self.features@[i]).canonical_name@),
            ) == Some(self.features@[i].canonical_name@) by {
                assert(self.features@[i] == pre_features[i]);
            }
        }
        // now the identity entry cannot collide
        let ghost pre_identity = self.aliases@;
        match add_alias(&mut self.aliases, canonical_name, canonical_name, false) {
            Ok(()) => {},
            Err(e) => {
                proof {
                    assert(false);
                }
                return Err(e);
            },
        }
        proof {
            lemma_idx_of_last(names_view(self.features@), canonical_name@);
            assert(names_view(self.features@).last() == canonical_name@);
            assert(self.aliases@.drop_last() =~= pre_identity);
            lemma_table_extended(self.aliases@, self.features@, canonical_name@);
            assert(aview(self.aliases@) =~= table0.push(
                (folded_case(canonical_name@), canonical_name@),
            ));
            assert(spec_aliases_free(table0, all_names, canonical_name@, 0) == spec_aliases_free(
                aview(self.aliases@),
                all_names,
                canonical_name@,
                1,
            ));
            assert(spec_first_alias_collision(table0, all_names, canonical_name@, 0)
                == spec_first_alias_collision(
                aview(self.aliases@),
                all_names,
                canonical_name@,
                1,
            ));
            assert forall|k: Seq<char>| aget(table0, k) is Some implies #[trigger] aget(
                aview(self.aliases@),
                k,
            ) == aget(table0, k) by {
                crate::alias::lemma_aget_push(
                    table0,
                    (folded_case(canonical_name@), canonical_name@),
                    k,
                );
            }
            crate::alias::lemma_aget_push(
                table0,
                (folded_case(canonical_name@), canonical_name@),
                folded_case(canonical_name@),
            );
            assert(aget(aview(self.aliases@), folded_case(canonical_name@)) == Some(
                canonical_name@,
            ));
        }
        // declared aliases
        let alias_list = match &self.features[self.features.len() - 1].metadata.aliases {
            Some(list) => crate::metadata::clone_string_vec(list),
            None => Vec::new(),
        };
        proof {
            assert(crate::locator::strs_view(alias_list@) =~= crate::feature::doc_alias_names(
                document@,
            ));
            assert(all_names.len() == 1 + alias_list@.len());
            assert(forall|q: int|
                0 <= q < alias_list@.len() ==> all_names[q + 1] == #[trigger] crate::locator::strs_view(
                    alias_list@,
                )[q]);
        }
        let n = alias_list.len();
        let mut i: usize = 0;
        while i < n
            invariant
                i <= n,
                n == alias_list@.len(),
                self.wf(),
                all_names.len() == 1 + n,
                all_names[0] == canonical_name@,
                forall|q: int|
                    0 <= q < n ==> all_names[q + 1] == #[trigger] crate::locator::strs_view(
                        alias_list@,
                    )[q],
                spec_aliases_free(table0, all_names, canonical_name@, 0) == spec_aliases_free(
                    aview(self.aliases@),
                    all_names,
                    canonical_name@,
                    i as int + 1,
                ),
                spec_first_alias_collision(table0, all_names, canonical_name@, 0)
                    == spec_first_alias_collision(
                    aview(self.aliases@),
                    all_names,
                    canonical_name@,
                    i as int + 1,
                ),
                aget(aview(self.aliases@), folded_case(canonical_name@)) == Some(canonical_name@),
                forall|q: int|
                    0 <= q < i ==> aget(
                        aview(self.aliases@),
                        folded_case(#[trigger] all_names[q + 1]),
                    ) == Some(canonical_name@),
                forall|k: Seq<char>|
                    aget(table0, k) is Some ==> #[trigger] aget(aview(self.aliases@), k) == aget(
                        table0,
                        k,
                    ),
                self.features@.len() == old(self).spec_features().len() + 1,
                self.features@.last().canonical_name@ == canonical_name@,
                crate::feature::feature_represents(
                    self.features@.last(),
                    canonical_name@,
                    path@,
                    document@,
                ),
                feature_doc_parseable(document@),
                idx_of(names_view(old(self).spec_features()), canonical_name@) is None,
                table0 == old(self).spec_alias_table(),
                all_names == seq![canonical_name@] + crate::feature::doc_alias_names(document@),
                forall|q: int|
                    0 <= q < old(self).spec_features().len() ==> self.features@[q] == old(
                        self,
                    ).spec_features()[q],
            decreases n - i,
        {
            let ghost pre_aliases = self.aliases@;
            proof {
                lemma_idx_of_last(names_view(self.features@), canonical_name@);
            }
            match add_alias(&mut self.aliases, alias_list[i].as_str(), canonical_name, true) {
                Ok(()) => {
                    proof {
                        lemma_alias_invariants_extend(
                            pre_aliases,
                            self.aliases@,
                            self.features@,
                            canonical_name@,
                        );
                        assert(crate::locator::strs_view(alias_list@)[i as int]
                            == alias_list@[i as int]@);
                        assert(all_names[i as int + 1] == alias_list@[i as int]@);
                        assert(aview(self.aliases@) =~= aview(pre_aliases).push(
                            (folded_case(all_names[i as int + 1]), canonical_name@),
                        ));
                        assert(spec_aliases_free(
                            aview(pre_aliases),
                            all_names,
                            canonical_name@,
                            i as int + 1,
                        ) == spec_aliases_free(
                            aview(self.aliases@),
                            all_names,
                            canonical_name@,
                            i as int + 2,
                        ));
                        assert(spec_first_alias_collision(
                            aview(pre_aliases),
                            all_names,
                            canonical_name@,
                            i as int + 1,
                        ) == spec_first_alias_collision(
                            aview(self.aliases@),
                            all_names,
                            canonical_name@,
                            i as int + 2,
                        ));
                        let e = (folded_case(all_names[i as int + 1]), canonical_name@);
                        assert forall|k: Seq<char>| aget(table0, k) is Some implies #[trigger] aget(
                            aview(self.aliases@),
                            k,
                        ) == aget(table0, k) by {
                            crate::alias::lemma_aget_push(aview(pre_aliases), e, k);
                        }
                        crate::alias::lemma_aget_push(
                            aview(pre_aliases),
                            e,
                            folded_case(canonical_name@),
                        );
                        assert forall|q: int| 0 <= q < i + 1 implies aget(
                            aview(self.aliases@),
                            folded_case(#[trigger] all_names[q + 1]),
                        ) == Some(canonical_name@) by {
                            crate::alias::lemma_aget_push(
                                aview(pre_aliases),
                                e,
                                folded_case(all_names[q + 1]),
                            );
                        }
                    }
                },
                Err(e) => {
                    proof {
                        assert(crate::locator::strs_view(alias_list@)[i as int]
                            == alias_list@[i as int]@);
                        assert(all_names[i as int + 1] == alias_list@[i as int]@);
                        assert(!spec_aliases_free(
                            aview(self.aliases@),
                            all_names,
                            canonical_name@,
                            i as int + 1,
                        ));
                        assert(spec_first_alias_collision(
                            aview(self.aliases@),
                            all_names,
                            canonical_name@,
                            i as int + 1,
                        ) == Some(
                            (
                                all_names[i as int + 1],
                                aget(
                                    aview(self.aliases@),
                                    folded_case(all_names[i as int + 1]),
                                )->0,
                            ),
                        ));
                    }
                    return Err(e);
                },
            }
            i += 1;
        }
        proof {
            assert(spec_aliases_free(
                aview(self.aliases@),
                all_names,
                canonical_name@,
                n as int + 1,
            ));
            assert forall|k: int|
                0 <= k < crate::feature::doc_alias_names(document@).len() implies aget(
                aview(self.aliases@),
                folded_case(#[trigger] crate::feature::doc_alias_names(document@)[k]),
            ) == Some(canonical_name@) by {
                assert(all_names[k + 1] == crate::feature::doc_alias_names(document@)[k]);
            }
        }
        Ok(())
    }
}


/// Whether every name, case-folded, lands in the table without colliding,
/// when inserted in order, each mapped to `canonical`.
pub open spec fn spec_aliases_free(
    table: Seq<(Seq<char>, Seq<char>)>,
    names: Seq<Seq<char>>,
    canonical: Seq<char>,
    i: int,
) -> bool
    decreases names.len() - i,
{
    if i < 0 || i >= names.len() {
        true
    } else if aget(table, folded_case(names[i])) is Some {
        false
    } else {
        spec_aliases_free(
            table.push((folded_case(names[i]), canonical)),
            names,
            canonical,
            i + 1,
        )
    }
}

/// The first declared name whose folded form collides with the table as
/// the names are inserted in order, with the canonical name it is already
/// mapped to.
pub open spec fn spec_first_alias_collision(
    table: Seq<(Seq<char>, Seq<char>)>,
    names: Seq<Seq<char>>,
    canonical: Seq<char>,
    i: int,
) -> Option<(Seq<char>, Seq<char>)>
    decreases names.len() - i,
{
    if i < 0 || i >= names.len() {
        None
    } else {
        match aget(table, folded_case(names[i])) {
            Some(existing) => Some((names[i], existing)),
            None => spec_first_alias_collision(
                table.push((folded_case(names[i]), canonical)),
                names,
                canonical,
                i + 1,
            ),
        }
    }
}

/// The exact text reported when two files yield the same canonical name.
pub open spec fn spec_duplicate_name_message(path: Seq<char>, canonical: Seq<char>) -> Seq<char> {
    ("Error when loading '")@ + path + ("'. The canonical feature name for the file, '")@
        + canonical + ("', was already added.")@
}

/// After a fresh entry targeting an existing feature is pushed, the alias
/// invariants still hold.
proof fn lemma_alias_invariants_extend(
    pre: Seq<AliasEntry>,
    post: Seq<AliasEntry>,
    features: Seq<Feature>,
    canonical: Seq<char>,
)
    requires
        post.len() == pre.len() + 1,
        post == pre.push(post.last()),
        post.last().canonical@ == canonical,
        idx_of(names_view(features), canonical) is Some,
        aget(aview(pre), post.last().key@) is None,
        forall|i: int, j: int|
            0 <= i < j < pre.len() ==> (#[trigger] pre[i]).key@ != (#[trigger] pre[j]).key@,
        forall|i: int|
            0 <= i < pre.len() ==> idx_of(names_view(features), (#[trigger] pre[i]).canonical@)
                is Some,
        forall|i: int|
            0 <= i < features.len() ==> aget(
                aview(pre),
                folded_case((#[trigger] features[i]).canonical_name@),
            ) == Some(features[i].canonical_name@),
    ensures
        forall|i: int, j: int|
            0 <= i < j < post.len() ==> (#[trigger] post[i]).key@ != (#[trigger] post[j]).key@,
        forall|i: int|
            0 <= i < post.len() ==> idx_of(names_view(features), (#[trigger] post[i]).canonical@)
                is Some,
        forall|i: int|
            0 <= i < features.len() ==> aget(
                aview(post),
                folded_case((#[trigger] features[i]).canonical_name@),
            ) == Some(features[i].canonical_name@),
{
    assert forall|i: int, j: int| 0 <= i < j < post.len() implies (#[trigger] post[i]).key@ != (
    #[trigger] post[j]).key@ by {
        if j == post.len() - 1 {
            lemma_aget_of_key(pre, i);
        }
    }
    assert forall|i: int| 0 <= i < features.len() implies aget(
        aview(post),
        folded_case((#[trigger] features[i]).canonical_name@),
    ) == Some(features[i].canonical_name@) by {
        assert(aview(post) =~= aview(pre).push((post.last().key@, post.last().canonical@)));
        crate::alias::lemma_aget_push(
            aview(pre),
            (post.last().key@, post.last().canonical@),
            folded_case(features[i].canonical_name@),
        );
    }
}

/// An entry's key reads back some canonical name.
proof fn lemma_aget_of_key(entries: Seq<AliasEntry>, i: int)
    requires
        0 <= i < entries.len(),
    ensures
        aget(aview(entries), entries[i].key@) is Some,
    decreases entries.len(),
{
    if i > 0 && entries[0].key@ != entries[i].key@ {
        assert(aview(entries).drop_first() =~= aview(entries.drop_first()));
        lemma_aget_of_key(entries.drop_first(), i - 1);
    } else {
        if entries[0].key@ == entries[i].key@ {
            assert(aview(entries)[0].0 == entries[0].key@);
        }
    }
}

/// Appending a name keeps every present name present.
proof fn lemma_idx_of_extend(names: Seq<Seq<char>>, probe: Seq<char>, appended: Seq<char>)
    requires
        idx_of(names, probe) is Some,
    ensures
        idx_of(names.push(appended), probe) is Some,
    decreases names.len(),
{
    if names.len() > 0 && names[0] != probe {
        assert(names.push(appended).drop_first() =~= names.drop_first().push(appended));
        lemma_idx_of_extend(names.drop_first(), probe, appended);
    } else {
        assert(names.push(appended)[0] == names[0]);
    }
}

/// The last name of a list is found.
proof fn lemma_idx_of_last(names: Seq<Seq<char>>, last: Seq<char>)
    requires
        names.len() > 0,
        names.last() == last,
    ensures
        idx_of(names, last) is Some,
    decreases names.len(),
{
    if names[0] != last {
        assert(names.drop_first().last() == last);
        lemma_idx_of_last(names.drop_first(), last);
    }
}

/// After the identity entry lands, every feature (the newest included)
/// still reads back its own canonical name.
proof fn lemma_table_extended(
    entries: Seq<AliasEntry>,
    features: Seq<Feature>,
    canonical: Seq<char>,
)
    requires
        entries.len() > 0,
        entries.last().key@ == folded_case(canonical),
        entries.last().canonical@ == canonical,
        features.len() > 0,
        features.last().canonical_name@ == canonical,
        aget(aview(entries.drop_last()), folded_case(canonical)) is None,
        forall|i: int|
            0 <= i < features.len() - 1 ==> aget(
                aview(entries.drop_last()),
                folded_case((#[trigger] features[i]).canonical_name@),
            ) == Some(features[i].canonical_name@),
        forall|i: int|
            0 <= i < entries.len() - 1 ==> idx_of(
                names_view(features),
                (#[trigger] entries[i]).canonical@,
            ) is Some,
        idx_of(names_view(features), canonical) is Some,
        forall|i: int, j: int|
            0 <= i < j < entries.len() - 1 ==> (#[trigger] entries[i]).key@ != (
            #[trigger] entries[j]).key@,
        forall|i: int|
            0 <= i < entries.len() - 1 ==> entries.drop_last()[i] == entries[i],
    ensures
        forall|i: int|
            0 <= i < features.len() ==> aget(
                aview(entries),
                folded_case((#[trigger] features[i]).canonical_name@),
            ) == Some(features[i].canonical_name@),
        forall|i: int|
            0 <= i < entries.len() ==> idx_of(
                names_view(features),
                (#[trigger] entries[i]).canonical@,
            ) is Some,
        forall|i: int, j: int|
            0 <= i < j < entries.len() ==> (#[trigger] entries[i]).key@ != (
            #[trigger] entries[j]).key@,
{
    assert(aview(entries) =~= aview(entries.drop_last()).push(
        (entries.last().key@, entries.last().canonical@),
    ));
    assert forall|i: int| 0 <= i < features.len() implies aget(
        aview(entries),
        folded_case((#[trigger] features[i]).canonical_name@),
    ) == Some(features[i].canonical_name@) by {
        crate::alias::lemma_aget_push(
            aview(entries.drop_last()),
            (entries.last().key@, entries.last().canonical@),
            folded_case(features[i].canonical_name@),
        );
    }
    assert forall|i: int, j: int| 0 <= i < j < entries.len() implies (
    #[trigger] entries[i]).key@ != (#[trigger] entries[j]).key@ by {
        if j == entries.len() - 1 {
            lemma_aget_of_key(entries.drop_last(), i);
        }
    }
}

/// The position of a canonical name among the features, scanning in order.
pub fn feature_index(features: &Vec<Feature>, name: &str) -> (r: Option<usize>)
    ensures
        match r {
            Some(i) => idx_of(names_view(features@), name@) == Some(i as int),
            None => idx_of(names_view(features@), name@) is None,
        },
{
    let ghost fnames = names_view(features@);
    let n = features.len();
    let mut i: usize = 0;
    loop
        invariant
            i <= n,
            n == features@.len(),
            fnames == names_view(features@),
            forall|j: int| 0 <= j < i ==> fnames[j] != name@,
        decreases n - i,
    {
        if i == n {
            proof {
                lemma_idx_of_props(fnames, name@);
                if idx_of(fnames, name@) is Some {
                    let w = idx_of(fnames, name@)->0;
                    assert(fnames[w] == name@);
                }
            }
            return None;
        }
        if str_eq(features[i].canonical_name.as_str(), name) {
            proof {
                assert(fnames[i as int] == name@);
                lemma_idx_of_props(fnames, name@);
                let w = idx_of(fnames, name@)->0;
                if w != i as int {
                    assert(fnames[w] == name@);
                }
            }
            return Some(i);
        }
        i += 1;
    }
}


/// Why an import graph fails to resolve, with the data its message names.
pub enum ResolveFailure {
    Cycle { parent: Seq<char>, import: Seq<char>, path: Seq<Seq<char>> },
    Unknown { parent: Seq<char>, import: Seq<char> },
    Aliased { parent: Seq<char>, import: Seq<char>, canonical: Seq<char> },
    HasConditions { parent: Seq<char>, import: Seq<char> },
}

/// The members of a resolution path, quoted and comma-separated.
pub open spec fn spec_quoted_path(path: Seq<Seq<char>>, i: int) -> Seq<char>
    decreases path.len() - i,
{
    if i < 0 || i >= path.len() {
        Seq::empty()
    } else {
        (if i > 0 {
            (", ")@
        } else {
            Seq::empty()
        }) + seq!['"'] + path[i] + seq!['"'] + spec_quoted_path(path, i + 1)
    }
}

/// The exact text reported for each way imports fail to resolve.
pub open spec fn spec_resolve_error_message(f: ResolveFailure) -> Seq<char> {
    match f {
        ResolveFailure::Cycle { parent, import, path } => ("Error when resolving imports for '")@
            + parent + ("': Cycle detected with import '")@ + import + (
        "'. The features in the path (not in order): {")@ + spec_quoted_path(path, 0) + ("}")@,
        ResolveFailure::Unknown { parent, import } => ("Error when resolving imports for '")@
            + parent + ("': The import '")@ + import + (
        "' is not a canonical feature name and not a recognized alias. Use a canonical feature name in order to keep dependencies clear and to help with navigating through files.")@,
        ResolveFailure::Aliased { parent, import, canonical } => (
        "Error when resolving imports for '")@ + parent + ("': The import '")@ + import + (
        "' is not a canonical feature name. Use '")@ + canonical + ("' instead of '")@ + import + (
        "' in order to keep dependencies clear and to help with navigating through files.")@,
        ResolveFailure::HasConditions { parent, import } => (
        "Error when resolving imports for '")@ + parent + ("': The import '")@ + import + (
        "' has conditions. Conditions cannot be used in imported features.")@,
    }
}

/// As `spec_resolve`, but naming the failure. The alias table only picks
/// which message an unresolvable import gets.
pub open spec fn spec_resolve_r(
    features: Seq<Feature>,
    table: Seq<(Seq<char>, Seq<char>)>,
    idx: int,
    path: Seq<Seq<char>>,
    fuel: nat,
) -> Result<Json, ResolveFailure>
    decreases fuel, 1nat, 0nat,
{
    if !(0 <= idx < features.len()) {
        Err(ResolveFailure::Unknown { parent: Seq::empty(), import: Seq::empty() })
    } else {
        spec_resolve_imports_r(features, table, idx, 0, Json::Obj(Seq::empty()), path, fuel)
    }
}

pub open spec fn spec_resolve_imports_r(
    features: Seq<Feature>,
    table: Seq<(Seq<char>, Seq<char>)>,
    idx: int,
    i: int,
    acc: Json,
    path: Seq<Seq<char>>,
    fuel: nat,
) -> Result<Json, ResolveFailure>
    decreases fuel, 0nat, crate::locator::strs_view(features[idx].imports@).len() - i,
{
    let imps = crate::locator::strs_view(features[idx].imports@);
    if !(0 <= idx < features.len()) {
        Err(ResolveFailure::Unknown { parent: Seq::empty(), import: Seq::empty() })
    } else if i < 0 {
        Err(ResolveFailure::Unknown { parent: Seq::empty(), import: Seq::empty() })
    } else {
        let parent = features[idx].canonical_name@;
        if i >= imps.len() {
            Ok(spec_merge(acc, features[idx].options@))
        } else {
            let im = imps[i];
            if path.contains(im) {
                Err(ResolveFailure::Cycle { parent, import: im, path })
            } else {
                match idx_of(names_view(features), im) {
                    Some(j) => {
                        if features[j].conditions is Some {
                            Err(ResolveFailure::HasConditions { parent, import: im })
                        } else if fuel == 0 {
                            Err(ResolveFailure::Cycle { parent, import: im, path })
                        } else {
                            match spec_resolve_r(
                                features,
                                table,
                                j,
                                path.push(im),
                                (fuel - 1) as nat,
                            ) {
                                Ok(src) => spec_resolve_imports_r(
                                    features,
                                    table,
                                    idx,
                                    i + 1,
                                    spec_merge(acc, src),
                                    path.push(im),
                                    fuel,
                                ),
                                Err(f) => Err(f),
                            }
                        }
                    },
                    None => match aget(table, folded_case(im)) {
                        Some(c) => Err(ResolveFailure::Aliased { parent, import: im, canonical: c }),
                        None => Err(ResolveFailure::Unknown { parent, import: im }),
                    },
                }
            }
        }
    }
}

/// The resolved source of the feature at `idx`: its imports' resolved
/// sources layered in order under its own options. `None` is a build
/// error — an unknown or aliased import, an import that carries
/// conditions, or a cycle.
pub open spec fn spec_resolve(
    features: Seq<Feature>,
    idx: int,
    path: Seq<Seq<char>>,
    fuel: nat,
) -> Option<Json>
    decreases fuel, 1nat, 0nat,
{
    if !(0 <= idx < features.len()) {
        None
    } else {
        spec_resolve_imports(features, idx, 0, Json::Obj(Seq::empty()), path, fuel)
    }
}

/// Folds the imports of `features[idx]` from position `i` onward into
/// `acc`, then layers the feature's own options last.
pub open spec fn spec_resolve_imports(
    features: Seq<Feature>,
    idx: int,
    i: int,
    acc: Json,
    path: Seq<Seq<char>>,
    fuel: nat,
) -> Option<Json>
    decreases fuel, 0nat, crate::locator::strs_view(features[idx].imports@).len() - i,
{
    let imps = crate::locator::strs_view(features[idx].imports@);
    if !(0 <= idx < features.len()) {
        None
    } else if i < 0 {
        None
    } else if i >= imps.len() {
        Some(spec_merge(acc, features[idx].options@))
    } else {
        let im = imps[i];
        if path.contains(im) {
            None
        } else {
            match idx_of(names_view(features), im) {
                Some(j) => {
                    if features[j].conditions is Some {
                        None
                    } else if fuel == 0 {
                        None
                    } else {
                        match spec_resolve(features, j, path.push(im), (fuel - 1) as nat) {
                            Some(src) => spec_resolve_imports(
                                features,
                                idx,
                                i + 1,
                                spec_merge(acc, src),
                                path.push(im),
                                fuel,
                            ),
                            None => None,
                        }
                    }
                },
                None => None,
            }
        }
    }
}

/// Builds the cycle message, quoting the features in the resolution path.
#[verifier::loop_isolation(false)]
fn resolve_cycle_message(parent: &str, import: &str, path: &Vec<String>) -> (r: String)
    ensures
        r@ == spec_resolve_error_message(
            ResolveFailure::Cycle {
                parent: parent@,
                import: import@,
                path: crate::locator::strs_view(path@),
            },
        ),
{
    let ghost pv = crate::locator::strs_view(path@);
    let mut m = String::new();
    push_str(&mut m, "Error when resolving imports for '");
    push_str(&mut m, parent);
    push_str(&mut m, "': Cycle detected with import '");
    push_str(&mut m, import);
    push_str(&mut m, "'. The features in the path (not in order): {");
    let ghost base = m@;
    let pn = path.len();
    let mut q: usize = 0;
    while q < pn
        invariant
            q <= pn,
            pn == path@.len(),
            pv == crate::locator::strs_view(path@),
            base + spec_quoted_path(pv, 0) == m@ + spec_quoted_path(pv, q as int),
        decreases pn - q,
    {
        if q > 0 {
            push_str(&mut m, ", ");
        }
        push_str(&mut m, "\"");
        push_str(&mut m, path[q].as_str());
        push_str(&mut m, "\"");
        proof {
            assert(("\"")@ =~= seq!['"']) by {
                reveal_strlit("\"");
            }
            assert(base + spec_quoted_path(pv, 0) =~= m@ + spec_quoted_path(pv, q + 1));
        }
        q += 1;
    }
    proof {
        assert(spec_quoted_path(pv, pn as int) == Seq::<char>::empty());
        assert(base + spec_quoted_path(pv, 0) =~= m@);
    }
    push_str(&mut m, "}");
    proof {
        assert(m@ =~= spec_resolve_error_message(
            ResolveFailure::Cycle { parent: parent@, import: import@, path: pv },
        ));
    }
    m
}

/// Resolves the feature at `idx` against the whole feature list.
#[verifier::loop_isolation(false)]
#[verifier::rlimit(100)]
fn resolve_feature(
    features: &Vec<Feature>,
    aliases: &Vec<AliasEntry>,
    idx: usize,
    path: &Vec<String>,
    fuel: usize,
) -> (r: Result<JsonValue, String>)
    requires
        idx < features@.len(),
        forall|q: int| 0 <= q < features@.len() ==> (#[trigger] features@[q]).wf(),
    ensures
        r matches Ok(v) ==> spec_resolve(
            features@,
            idx as int,
            crate::locator::strs_view(path@),
            fuel as nat,
        ) == Some(v@) && v@.wf(),
        r is Err ==> spec_resolve(
            features@,
            idx as int,
            crate::locator::strs_view(path@),
            fuel as nat,
        ) is None,
        r matches Err(m) ==> (spec_resolve_r(
            features@,
            aview(aliases@),
            idx as int,
            crate::locator::strs_view(path@),
            fuel as nat,
        ) matches Err(f) && m@ == spec_resolve_error_message(f)),
        r matches Ok(v) ==> spec_resolve_r(
            features@,
            aview(aliases@),
            idx as int,
            crate::locator::strs_view(path@),
            fuel as nat,
        ) == Ok::<Json, ResolveFailure>(v@),
    decreases fuel, 1nat, 0nat,
{
    broadcast use vstd::std_specs::vec::group_vec_axioms;

    let empty_fields: Vec<(String, JsonValue)> = Vec::new();
    proof {
        assert(crate::json::fields_view(empty_fields@) =~= Seq::<(Seq<char>, Json)>::empty());
    }
    resolve_imports(features, aliases, idx, 0, JsonValue::Obj(empty_fields), path, fuel)
}

#[verifier::loop_isolation(false)]
#[verifier::rlimit(100)]
fn resolve_imports(
    features: &Vec<Feature>,
    aliases: &Vec<AliasEntry>,
    idx: usize,
    i: usize,
    acc: JsonValue,
    path: &Vec<String>,
    fuel: usize,
) -> (r: Result<JsonValue, String>)
    requires
        idx < features@.len(),
        acc@.wf(),
        forall|q: int| 0 <= q < features@.len() ==> (#[trigger] features@[q]).wf(),
    ensures
        r matches Ok(v) ==> spec_resolve_imports(
            features@,
            idx as int,
            i as int,
            acc@,
            crate::locator::strs_view(path@),
            fuel as nat,
        ) == Some(v@) && v@.wf(),
        r is Err ==> spec_resolve_imports(
            features@,
            idx as int,
            i as int,
            acc@,
            crate::locator::strs_view(path@),
            fuel as nat,
        ) is None,
        r matches Err(m) ==> (spec_resolve_imports_r(
            features@,
            aview(aliases@),
            idx as int,
            i as int,
            acc@,
            crate::locator::strs_view(path@),
            fuel as nat,
        ) matches Err(f) && m@ == spec_resolve_error_message(f)),
        r matches Ok(v) ==> spec_resolve_imports_r(
            features@,
            aview(aliases@),
            idx as int,
            i as int,
            acc@,
            crate::locator::strs_view(path@),
            fuel as nat,
        ) == Ok::<Json, ResolveFailure>(v@),
    decreases fuel, 0nat, features@[idx as int].imports@.len() - i,
{
    broadcast use vstd::std_specs::vec::group_vec_axioms;

    let ghost imps = crate::locator::strs_view(features@[idx as int].imports@);
    if i >= features[idx].imports.len() {
        proof {
            crate::merge::lemma_merge_wf(acc@, features@[idx as int].options@);
        }
        return Ok(merge_json_value(acc, &features[idx].options));
    }
    let im = features[idx].imports[i].clone();
    if crate::configurable_string::contains_string(path, im.as_str()) {
        return Err(resolve_cycle_message(features[idx].canonical_name.as_str(), im.as_str(), path));
    }
    match feature_index(features, im.as_str()) {
        Some(j) => {
            proof {
                lemma_idx_of_props(names_view(features@), im@);
            }
            if features[j].conditions.is_some() {
                proof {
                    lemma_idx_of_props(names_view(features@), im@);
                }
                let mut m = String::new();
                push_str(&mut m, "Error when resolving imports for '");
                push_str(&mut m, features[idx].canonical_name.as_str());
                push_str(&mut m, "': The import '");
                push_str(&mut m, im.as_str());
                push_str(
                    &mut m,
                    "' has conditions. Conditions cannot be used in imported features.",
                );
                proof {
                    assert(m@ =~= spec_resolve_error_message(
                        ResolveFailure::HasConditions {
                            parent: features@[idx as int].canonical_name@,
                            import: im@,
                        },
                    ));
                }
                return Err(m);
            }
            if fuel == 0 {
                return Err(
                    resolve_cycle_message(
                        features[idx].canonical_name.as_str(),
                        im.as_str(),
                        path,
                    ),
                );
            }
            proof {
                lemma_idx_of_props(names_view(features@), im@);
            }
            let mut child_path = crate::metadata::clone_string_vec(path);
            child_path.push(im.clone());
            proof {
                assert(crate::locator::strs_view(child_path@) =~= crate::locator::strs_view(
                    path@,
                ).push(im@));
            }
            match resolve_feature(features, aliases, j, &child_path, fuel - 1) {
                Ok(src) => {
                    proof {
                        crate::merge::lemma_merge_wf(acc@, src@);
                    }
                    let acc2 = merge_json_value(acc, &src);
                    resolve_imports(features, aliases, idx, i + 1, acc2, &child_path, fuel)
                },
                Err(e) => Err(e),
            }
        },
        None => {
            proof {
                lemma_idx_of_props(names_view(features@), im@);
            }
            let mut m = String::new();
            push_str(&mut m, "Error when resolving imports for '");
            push_str(&mut m, features[idx].canonical_name.as_str());
            push_str(&mut m, "': The import '");
            push_str(&mut m, im.as_str());
            let folded = fold_case(im.as_str());
            match alias_find(aliases, folded.as_str()) {
                Some(e) => {
                    push_str(&mut m, "' is not a canonical feature name. Use '");
                    push_str(&mut m, aliases[e].canonical.as_str());
                    push_str(&mut m, "' instead of '");
                    push_str(&mut m, im.as_str());
                    push_str(
                        &mut m,
                        "' in order to keep dependencies clear and to help with navigating through files.",
                    );
                    proof {
                        assert(m@ =~= spec_resolve_error_message(
                            ResolveFailure::Aliased {
                                parent: features@[idx as int].canonical_name@,
                                import: im@,
                                canonical: aget(aview(aliases@), folded_case(im@))->0,
                            },
                        ));
                    }
                },
                None => {
                    push_str(
                        &mut m,
                        "' is not a canonical feature name and not a recognized alias. Use a canonical feature name in order to keep dependencies clear and to help with navigating through files.",
                    );
                    proof {
                        assert(m@ =~= spec_resolve_error_message(
                            ResolveFailure::Unknown {
                                parent: features@[idx as int].canonical_name@,
                                import: im@,
                            },
                        ));
                    }
                },
            }
            Err(m)
        },
    }
}


/// Strings in non-decreasing order.
pub open spec fn sorted_strs(sv: Seq<Seq<char>>) -> bool {
    forall|p: int, q: int|
        0 <= p < q < sv.len() ==> !crate::strings::str_lt(#[trigger] sv[q], #[trigger] sv[p])
}

/// `nm` names a feature that imports the feature at position `y`.
pub open spec fn spec_is_dependent(features: Seq<Feature>, y: int, nm: Seq<char>) -> bool {
    exists|x: int|
        0 <= x < features.len() && (#[trigger] features[x]).canonical_name@ == nm
            && crate::locator::strs_view(features[x].imports@).contains(
            names_view(features)[y],
        )
}

/// Inserts a string into a sorted list, keeping the order.
#[verifier::loop_isolation(false)]
fn insert_string_sorted(v: &mut Vec<String>, s: String)
    requires
        sorted_strs(crate::locator::strs_view(old(v)@)),
    ensures
        sorted_strs(crate::locator::strs_view(final(v)@)),
        final(v)@.len() == old(v)@.len() + 1,
        forall|nm: Seq<char>|
            #[trigger] crate::locator::strs_view(final(v)@).contains(nm)
                <==> (crate::locator::strs_view(old(v)@).contains(nm) || nm == s@),
{
    broadcast use vstd::std_specs::vec::group_vec_axioms;

    let ghost sv = crate::locator::strs_view(v@);
    let n = v.len();
    let mut i: usize = 0;
    while i < n && crate::strings::str_less(v[i].as_str(), s.as_str())
        invariant
            i <= n,
            n == v@.len(),
            sv == crate::locator::strs_view(v@),
            forall|j: int| 0 <= j < i ==> crate::strings::str_lt(#[trigger] sv[j], s@),
        decreases n - i,
    {
        i += 1;
    }
    v.insert(i, s);
    proof {
        let nv = crate::locator::strs_view(v@);
        assert(nv =~= sv.insert(i as int, s@));
        assert forall|p: int, q: int| 0 <= p < q < nv.len() implies !crate::strings::str_lt(
            #[trigger] nv[q],
            #[trigger] nv[p],
        ) by {
            if q < i {
                assert(nv[p] == sv[p] && nv[q] == sv[q]);
            } else if q == i {
                if p < i {
                    assert(nv[p] == sv[p]);
                    crate::strings::lemma_str_lt_asym(sv[p], s@);
                }
            } else {
                assert(nv[q] == sv[q - 1]);
                if p < i {
                    assert(nv[p] == sv[p]);
                } else if p == i {
                    // s comes no later than sv[i], which comes no later
                    // than sv[q - 1]
                    if i < sv.len() && crate::strings::str_lt(sv[q - 1], s@) {
                        crate::strings::lemma_str_lt_connected(sv[i as int], s@);
                        if crate::strings::str_lt(s@, sv[i as int]) {
                            crate::strings::lemma_str_lt_trans(sv[q - 1], s@, sv[i as int]);
                        }
                    }
                } else {
                    assert(nv[p] == sv[p - 1]);
                }
            }
        }
        assert forall|nm: Seq<char>| #[trigger] nv.contains(nm) implies (sv.contains(nm) || nm
            == s@) by {
            let w = choose|w: int| 0 <= w < nv.len() && nv[w] == nm;
            if w < i {
                assert(sv[w] == nm);
            } else if w > i {
                assert(sv[w - 1] == nm);
            }
        }
        assert forall|nm: Seq<char>| (sv.contains(nm) || nm == s@) implies #[trigger] nv.contains(
            nm,
        ) by {
            if nm == s@ {
                assert(nv[i as int] == nm);
            } else {
                let w = choose|w: int| 0 <= w < sv.len() && sv[w] == nm;
                if w < i {
                    assert(nv[w] == nm);
                } else {
                    assert(nv[w + 1] == nm);
                }
            }
        }
    }
}

/// The sorted dependents of each feature: the canonical names of the
/// features that import it.
#[verifier::loop_isolation(false)]
fn compute_dependents(features: &Vec<Feature>) -> (r: Vec<Vec<String>>)
    ensures
        r@.len() == features@.len(),
        forall|y: int|
            0 <= y < features@.len() ==> {
                &&& sorted_strs(crate::locator::strs_view((#[trigger] r@[y])@))
                &&& forall|nm: Seq<char>|
                    #[trigger] crate::locator::strs_view(r@[y]@).contains(nm)
                        <==> spec_is_dependent(features@, y, nm)
            },
{
    broadcast use vstd::std_specs::vec::group_vec_axioms;

    let n = features.len();
    let mut out: Vec<Vec<String>> = Vec::new();
    let mut y: usize = 0;
    while y < n
        invariant
            y <= n,
            n == features@.len(),
            out@.len() == y,
            forall|q: int|
                0 <= q < y ==> {
                    &&& sorted_strs(crate::locator::strs_view((#[trigger] out@[q])@))
                    &&& forall|nm: Seq<char>|
                        #[trigger] crate::locator::strs_view(out@[q]@).contains(nm)
                            <==> spec_is_dependent(features@, q, nm)
                },
        decreases n - y,
    {
        let yname = &features[y].canonical_name;
        let mut list: Vec<String> = Vec::new();
        proof {
            assert(crate::locator::strs_view(list@) =~= Seq::<Seq<char>>::empty());
        }
        let mut x: usize = 0;
        while x < n
            invariant
                x <= n,
                y < n,
                n == features@.len(),
                yname == features@[y as int].canonical_name,
                sorted_strs(crate::locator::strs_view(list@)),
                forall|nm: Seq<char>|
                    #[trigger] crate::locator::strs_view(list@).contains(nm) <==> exists|w: int|
                        0 <= w < x && (#[trigger] features@[w]).canonical_name@ == nm
                            && crate::locator::strs_view(features@[w].imports@).contains(
                            names_view(features@)[y as int],
                        ),
            decreases n - x,
        {
            let is_importer = crate::configurable_string::contains_string(
                &features[x].imports,
                yname.as_str(),
            );
            proof {
                assert(crate::configurable_string::path_view(features@[x as int].imports@)
                    =~= crate::locator::strs_view(features@[x as int].imports@));
                assert(names_view(features@)[y as int] == yname@);
            }
            if is_importer {
                insert_string_sorted(&mut list, features[x].canonical_name.clone());
                proof {
                    assert forall|nm: Seq<char>|
                        #[trigger] crate::locator::strs_view(list@).contains(nm) implies (exists|
                        w: int,
                    |
                        0 <= w < x + 1 && (#[trigger] features@[w]).canonical_name@ == nm
                            && crate::locator::strs_view(features@[w].imports@).contains(
                            names_view(features@)[y as int],
                        )) by {
                        if nm == features@[x as int].canonical_name@ {
                            assert(features@[x as int].canonical_name@ == nm
                                && crate::locator::strs_view(features@[x as int].imports@).contains(
                                names_view(features@)[y as int],
                            ));
                        }
                    }
                }
            }
            proof {
                assert forall|nm: Seq<char>|
                    (exists|w: int|
                        0 <= w < x + 1 && (#[trigger] features@[w]).canonical_name@ == nm
                            && crate::locator::strs_view(features@[w].imports@).contains(
                            names_view(features@)[y as int],
                        )) implies #[trigger] crate::locator::strs_view(list@).contains(nm) by {
                    let w = choose|w: int|
                        0 <= w < x + 1 && (#[trigger] features@[w]).canonical_name@ == nm
                            && crate::locator::strs_view(features@[w].imports@).contains(
                            names_view(features@)[y as int],
                        );
                    if w < x {
                    }
                }
            }
            x += 1;
        }
        out.push(list);
        y += 1;
    }
    out
}

/// The fuel under which every acyclic import chain among `n` features
/// resolves.
pub open spec fn spec_build_fuel(n: nat) -> nat {
    if n < usize::MAX as nat {
        n + 1
    } else {
        n
    }
}

/// The fields of the two features agree, dependents aside.
pub open spec fn feature_core_eq(a: Feature, b: Feature) -> bool {
    &&& a.canonical_name == b.canonical_name
    &&& a.imports == b.imports
    &&& a.conditions == b.conditions
    &&& a.options == b.options
    &&& a.metadata.aliases == b.metadata.aliases
    &&& a.metadata.details == b.metadata.details
    &&& a.metadata.name == b.metadata.name
    &&& a.metadata.owners == b.metadata.owners
    &&& a.metadata.path == b.metadata.path
}

impl OptionsProviderBuilder {
    /// Resolves every feature's imports, computes dependents, and freezes
    /// the registry. Building fails exactly when some feature's imports do
    /// not resolve: an unknown or aliased import, an import carrying
    /// conditions, or a cycle.
    #[verifier::loop_isolation(false)]
    #[verifier::rlimit(100)]
    pub fn build(self) -> (r: Result<OptionsProvider, String>)
        requires
            self.wf(),
        ensures
            r is Ok <==> forall|i: int|
                0 <= i < self.spec_features().len() ==> #[trigger] spec_resolve(
                    self.spec_features(),
                    i,
                    seq![self.spec_features()[i].canonical_name@],
                    spec_build_fuel(self.spec_features().len()),
                ) is Some,
            match r {
                Err(m) => exists|i: int|
                    {
                        &&& 0 <= i < self.spec_features().len()
                        &&& #[trigger] spec_resolve_r(
                            self.spec_features(),
                            self.spec_alias_table(),
                            i,
                            seq![self.spec_features()[i].canonical_name@],
                            spec_build_fuel(self.spec_features().len()),
                        ) matches Err(f) && m@ == spec_resolve_error_message(f)
                        &&& forall|j: int|
                            0 <= j < i ==> (#[trigger] spec_resolve_r(
                                self.spec_features(),
                                self.spec_alias_table(),
                                j,
                                seq![self.spec_features()[j].canonical_name@],
                                spec_build_fuel(self.spec_features().len()),
                            )) is Ok
                    },
                Ok(_) => true,
            },
            r matches Ok(p) ==> {
                &&& p.spec_alias_table() == self.spec_alias_table()
                &&& p.spec_alias_entries() == self.spec_alias_entries()
                &&& p.spec_files() == self.spec_files()
                &&& p.spec_features().len() == self.spec_features().len()
                &&& p.spec_sources().len() == p.spec_features().len()
                &&& names_view(p.spec_features()) == names_view(self.spec_features())
                &&& forall|i: int|
                    0 <= i < p.spec_features().len() ==> feature_core_eq(
                        #[trigger] p.spec_features()[i],
                        self.spec_features()[i],
                    )
                &&& forall|i: int|
                    0 <= i < p.spec_features().len() ==> Some(#[trigger] p.spec_sources()[i])
                        == spec_resolve(
                        self.spec_features(),
                        i,
                        seq![self.spec_features()[i].canonical_name@],
                        spec_build_fuel(self.spec_features().len()),
                    )
                &&& forall|i: int|
                    0 <= i < p.spec_features().len() ==> aget(
                        p.spec_alias_table(),
                        folded_case(#[trigger] names_view(p.spec_features())[i]),
                    ) == Some(names_view(p.spec_features())[i])
                &&& forall|y: int|
                    0 <= y < p.spec_features().len() ==> {
                        let d = (#[trigger] p.spec_features()[y]).metadata.dependents;
                        match d {
                            Some(list) => sorted_strs(crate::locator::strs_view(list@)) && (
                            forall|nm: Seq<char>|
                                #[trigger] crate::locator::strs_view(list@).contains(nm)
                                    <==> spec_is_dependent(self.spec_features(), y, nm)),
                            None => forall|nm: Seq<char>|
                                !spec_is_dependent(self.spec_features(), y, nm),
                        }
                    }
            },
    {
        broadcast use vstd::std_specs::vec::group_vec_axioms;

        let OptionsProviderBuilder { aliases, mut features, files } = self;
        let ghost orig = features@;
        let n = features.len();
        let fuel: usize = if n < usize::MAX {
            n + 1
        } else {
            n
        };
        let mut sources: Vec<JsonValue> = Vec::new();
        let mut idx: usize = 0;
        while idx < n
            invariant
                idx <= n,
                n == features@.len(),
                features@ == orig,
                fuel as nat == spec_build_fuel(n as nat),
                self.spec_features() == orig,
                forall|q: int| 0 <= q < orig.len() ==> (#[trigger] orig[q]).wf(),
                sources@.len() == idx,
                forall|q: int|
                    0 <= q < idx ==> Some(#[trigger] srcs_view(sources@)[q]) == spec_resolve(
                        orig,
                        q,
                        seq![orig[q].canonical_name@],
                        spec_build_fuel(n as nat),
                    ) && srcs_view(sources@)[q].wf(),
                forall|q: int|
                    0 <= q < idx ==> (#[trigger] spec_resolve_r(
                        orig,
                        aview(aliases@),
                        q,
                        seq![orig[q].canonical_name@],
                        spec_build_fuel(n as nat),
                    )) is Ok,
                aview(aliases@) == self.spec_alias_table(),
            decreases n - idx,
        {
            let mut path0: Vec<String> = Vec::new();
            path0.push(features[idx].canonical_name.clone());
            proof {
                assert(crate::locator::strs_view(path0@) =~= seq![
                    orig[idx as int].canonical_name@,
                ]);
            }
            match resolve_feature(&features, &aliases, idx, &path0, fuel) {
                Ok(v) => {
                    let ghost prev = sources@;
                    sources.push(v);
                    proof {
                        assert(forall|q: int|
                            0 <= q < prev.len() ==> #[trigger] srcs_view(sources@)[q] == srcs_view(
                                prev,
                            )[q]);
                        assert(srcs_view(sources@)[idx as int] == sources@.last()@);
                    }
                },
                Err(e) => {
                    return Err(e);
                },
            }
            idx += 1;
        }
        proof {
            assert forall|i: int| 0 <= i < n implies #[trigger] spec_resolve(
                orig,
                i,
                seq![orig[i].canonical_name@],
                spec_build_fuel(n as nat),
            ) is Some by {
                assert(Some(srcs_view(sources@)[i]) == spec_resolve(
                    orig,
                    i,
                    seq![orig[i].canonical_name@],
                    spec_build_fuel(n as nat),
                ));
            }
        }
        // dependents, computed over the same feature list
        let deps_lists = compute_dependents(&features);
        let mut updated: Vec<Feature> = Vec::new();
        let mut rest = features;
        let mut deps_rest = deps_lists;
        let ghost depsv = deps_rest@;
        while rest.len() > 0
            invariant
                updated@.len() + rest@.len() == n,
                n == orig.len(),
                rest@ == orig.skip(updated@.len() as int),
                deps_rest@ == depsv.skip(updated@.len() as int),
                depsv.len() == n,
                forall|y: int|
                    0 <= y < n ==> {
                        &&& sorted_strs(crate::locator::strs_view((#[trigger] depsv[y])@))
                        &&& forall|nm: Seq<char>|
                            #[trigger] crate::locator::strs_view(depsv[y]@).contains(nm)
                                <==> spec_is_dependent(orig, y, nm)
                    },
                forall|q: int|
                    0 <= q < updated@.len() ==> {
                        &&& feature_core_eq(#[trigger] updated@[q], orig[q])
                        &&& (#[trigger] updated@[q]).wf()
                        &&& match updated@[q].metadata.dependents {
                            Some(list) => crate::locator::strs_view(list@) == crate::locator::strs_view(
                                depsv[q]@,
                            ) && list@.len() > 0,
                            None => depsv[q]@.len() == 0,
                        }
                    },
            decreases rest@.len(),
        {
            let mut f = rest.remove(0);
            let d = deps_rest.remove(0);
            let ghost q = updated@.len();
            proof {
                assert(orig.skip(q as int)[0] == orig[q as int]);
                assert(orig.skip(q as int).drop_first() =~= orig.skip(q as int + 1));
                assert(depsv.skip(q as int)[0] == depsv[q as int]);
                assert(depsv.skip(q as int).drop_first() =~= depsv.skip(q as int + 1));
            }
            if d.len() == 0 {
                f.metadata.dependents = None;
            } else {
                f.metadata.dependents = Some(d);
            }
            updated.push(f);
        }
        proof {
            assert(updated@.len() == n);
            assert(names_view(updated@) =~= names_view(orig));
            assert forall|i: int, j: int|
                0 <= i < j < updated@.len() implies (#[trigger] updated@[i]).canonical_name@ != (
            #[trigger] updated@[j]).canonical_name@ by {
                assert(feature_core_eq(updated@[i], orig[i]));
                assert(feature_core_eq(updated@[j], orig[j]));
            }
            assert forall|i: int|
                0 <= i < aliases@.len() implies idx_of(
                names_view(updated@),
                (#[trigger] aliases@[i]).canonical@,
            ) is Some by {}
            assert forall|i: int|
                0 <= i < updated@.len() implies aget(
                aview(aliases@),
                folded_case((#[trigger] updated@[i]).canonical_name@),
            ) == Some(updated@[i].canonical_name@) by {
                assert(feature_core_eq(updated@[i], orig[i]));
            }
        }
        let provider = OptionsProvider::assemble(aliases, updated, sources, files);
        proof {
            assert forall|y: int|
                0 <= y < provider.spec_features().len() implies {
                let d = (#[trigger] provider.spec_features()[y]).metadata.dependents;
                match d {
                    Some(list) => sorted_strs(crate::locator::strs_view(list@)) && (forall|
                        nm: Seq<char>,
                    |
                        #[trigger] crate::locator::strs_view(list@).contains(nm)
                            <==> spec_is_dependent(orig, y, nm)),
                    None => forall|nm: Seq<char>| !spec_is_dependent(orig, y, nm),
                }
            } by {
                match provider.spec_features()[y].metadata.dependents {
                    Some(list) => {},
                    None => {
                        assert forall|nm: Seq<char>| !spec_is_dependent(orig, y, nm) by {
                            assert(depsv[y]@.len() == 0);
                            assert(!crate::locator::strs_view(depsv[y]@).contains(nm));
                        }
                    },
                }
            }
        }
        Ok(provider)
    }
}


/// Import purity: a feature that merely imports another — adding no
/// options of its own — resolves to exactly the imported feature's
/// resolved source, so requesting either name composes the same document.
pub proof fn lemma_import_purity(
    features: Seq<Feature>,
    child: int,
    base: int,
    path: Seq<Seq<char>>,
    fuel: nat,
    s: Json,
)
    requires
        0 <= child < features.len(),
        0 <= base < features.len(),
        crate::locator::strs_view(features[child].imports@) == seq![
            features[base].canonical_name@,
        ],
        features[child].options@ == Json::Obj(Seq::empty()),
        features[base].conditions is None,
        idx_of(names_view(features), features[base].canonical_name@) == Some(base),
        !path.contains(features[base].canonical_name@),
        fuel > 0,
        spec_resolve(
            features,
            base,
            path.push(features[base].canonical_name@),
            (fuel - 1) as nat,
        ) == Some(s),
        s.is_object(),
        s.wf(),
    ensures
        spec_resolve(features, child, path, fuel) == Some(s),
{
    let imps = crate::locator::strs_view(features[child].imports@);
    let acc1 = spec_merge(Json::Obj(Seq::empty()), s);
    crate::merge::lemma_merge_left_identity(s);
    assert(acc1 == s);
    assert(spec_resolve_imports(
        features,
        child,
        1,
        s,
        path.push(features[base].canonical_name@),
        fuel,
    ) == Some(spec_merge(s, features[child].options@)));
    match s {
        Json::Obj(sf) => {
            assert(spec_merge(s, Json::Obj(Seq::empty())) == Json::Obj(
                crate::merge::spec_merge_fields(sf, Seq::empty(), 0),
            ));
            assert(crate::merge::spec_merge_fields(sf, Seq::empty(), 0) == sf);
        },
        _ => {},
    }
}


/// The core operations of a registry builder, for bindings that are
/// generic over how the registry is assembled.
pub trait OptionsProviderBuilderTrait<T> {
    /// Adds a directory of feature configurations.
    fn add_directory(&mut self, directory: &str) -> Result<(), String>;

    /// Builds the registry.
    fn build(&mut self) -> Result<T, String>;
}

} // verus!
