//! Deep merge of JSON documents.
//!
//! `merge_json_value` layers a source document over a target: when both are
//! objects the fields merge recursively, otherwise the source replaces the
//! target outright — arrays are replaced, never concatenated.
//! `merge_json_with_defaults` is the symmetric overlay: the target wins and
//! defaults fill only the gaps.

use vstd::prelude::*;

use crate::json::{
    fields_view, group_json_views, keys_sorted, obj_get, obj_set, fields_get, fields_set,
    lemma_obj_set, Json, JsonValue,
};

verus! {

/// The result of layering `source` over `target`.
pub open spec fn spec_merge(target: Json, source: Json) -> Json
    decreases source, 0nat,
{
    match source {
        Json::Obj(sf) => match target {
            Json::Obj(tf) => {
                proof {
                    assert(decreases_to!(source => sf));
                }
                Json::Obj(spec_merge_fields(tf, sf, 0))
            },
            _ => source,
        },
        _ => source,
    }
}

/// Folds the source fields from position `i` onward into the target fields.
pub open spec fn spec_merge_fields(
    tf: Seq<(Seq<char>, Json)>,
    sf: Seq<(Seq<char>, Json)>,
    i: int,
) -> Seq<(Seq<char>, Json)>
    decreases sf, sf.len() - i,
{
    if i < 0 || i >= sf.len() {
        tf
    } else {
        let k = sf[i].0;
        let v = sf[i].1;
        proof {
            assert(decreases_to!(sf => sf[i]));
            assert(decreases_to!(sf[i] => sf[i].1));
            assert(decreases_to!(sf => sf[i].1));
        }
        let tf2 = match obj_get(tf, k) {
            Some(tv) => obj_set(tf, k, spec_merge(tv, v)),
            None => obj_set(tf, k, v),
        };
        spec_merge_fields(tf2, sf, i + 1)
    }
}

/// Merging keeps objecthood exactly when the source is an object.
pub proof fn lemma_merge_objectness(target: Json, source: Json)
    ensures
        spec_merge(target, source).is_object() == source.is_object(),
{
}

/// What each key reads as after a merge: a key of the source reads as the
/// merge of the two bound values (or the source's value where the target
/// lacks the key); any other key is untouched.
pub proof fn lemma_merge_fields_get(
    tf: Seq<(Seq<char>, Json)>,
    sf: Seq<(Seq<char>, Json)>,
    i: int,
    k: Seq<char>,
)
    requires
        keys_sorted(tf),
        keys_sorted(sf),
        0 <= i <= sf.len(),
    ensures
        obj_get(spec_merge_fields(tf, sf, i), k) == match obj_get(sf.skip(i), k) {
            Some(sv) => match obj_get(tf, k) {
                Some(tv) => Some(spec_merge(tv, sv)),
                None => Some(sv),
            },
            None => obj_get(tf, k),
        },
        keys_sorted(spec_merge_fields(tf, sf, i)),
    decreases sf.len() - i,
{
    if i == sf.len() {
        assert(sf.skip(i) =~= Seq::<(Seq<char>, Json)>::empty());
    } else {
        let ki = sf[i].0;
        let tf2 = match obj_get(tf, ki) {
            Some(tv) => obj_set(tf, ki, spec_merge(tv, sf[i].1)),
            None => obj_set(tf, ki, sf[i].1),
        };
        lemma_obj_set(
            tf,
            ki,
            match obj_get(tf, ki) {
                Some(tv) => spec_merge(tv, sf[i].1),
                None => sf[i].1,
            },
        );
        lemma_merge_fields_get(tf2, sf, i + 1, k);
        assert(sf.skip(i)[0] == sf[i]);
        assert(sf.skip(i).drop_first() =~= sf.skip(i + 1));
        if k == ki {
            // the key handled at position i is not among the later source keys
            assert(obj_get(sf.skip(i + 1), k) is None) by {
                let suffix = sf.skip(i + 1);
                assert forall|p: int, q: int| 0 <= p < q < suffix.len() implies
                    crate::strings::str_lt((#[trigger] suffix[p]).0, (#[trigger] suffix[q]).0) by {
                    assert(suffix[p] == sf[i + 1 + p]);
                    assert(suffix[q] == sf[i + 1 + q]);
                }
                if suffix.len() > 0 {
                    assert(suffix[0] == sf[i + 1]);
                    assert(crate::strings::str_lt(sf[i].0, sf[i + 1].0));
                }
                crate::json::lemma_obj_get_before_first(suffix, k);
            }
        }
    }
}

/// Merging well-formed documents yields a well-formed document.
pub proof fn lemma_merge_wf(target: Json, source: Json)
    requires
        target.wf(),
        source.wf(),
    ensures
        spec_merge(target, source).wf(),
    decreases source, 0nat,
{
    match source {
        Json::Obj(sf) => match target {
            Json::Obj(tf) => {
                lemma_merge_fields_wf(tf, sf, 0);
            },
            _ => {},
        },
        _ => {},
    }
}

pub proof fn lemma_merge_fields_wf(tf: Seq<(Seq<char>, Json)>, sf: Seq<(Seq<char>, Json)>, i: int)
    requires
        keys_sorted(tf),
        keys_sorted(sf),
        forall|n: int| 0 <= n < tf.len() ==> (#[trigger] tf[n]).1.wf(),
        forall|n: int| 0 <= n < sf.len() ==> (#[trigger] sf[n]).1.wf(),
        0 <= i <= sf.len(),
    ensures
        keys_sorted(spec_merge_fields(tf, sf, i)),
        forall|n: int|
            0 <= n < spec_merge_fields(tf, sf, i).len() ==> (#[trigger] spec_merge_fields(
                tf,
                sf,
                i,
            )[n]).1.wf(),
    decreases sf, sf.len() - i,
{
    if i < sf.len() {
        let ki = sf[i].0;
        let vi = match obj_get(tf, ki) {
            Some(tv) => spec_merge(tv, sf[i].1),
            None => sf[i].1,
        };
        assert(vi.wf()) by {
            match obj_get(tf, ki) {
                Some(tv) => {
                    lemma_obj_get_wf(tf, ki);
                    lemma_merge_wf(tv, sf[i].1);
                },
                None => {},
            }
        }
        lemma_obj_set(tf, ki, vi);
        lemma_merge_fields_wf(obj_set(tf, ki, vi), sf, i + 1);
    }
}

/// A value read out of well-formed fields is well-formed.
pub proof fn lemma_obj_get_wf(fields: Seq<(Seq<char>, Json)>, k: Seq<char>)
    requires
        forall|n: int| 0 <= n < fields.len() ==> (#[trigger] fields[n]).1.wf(),
        obj_get(fields, k) is Some,
    ensures
        obj_get(fields, k)->0.wf(),
    decreases fields.len(),
{
    if fields.len() > 0 && fields[0].0 != k {
        assert(forall|n: int|
            0 <= n < fields.drop_first().len() ==> (#[trigger] fields.drop_first()[n]).1.wf())
            by {
            assert(forall|n: int|
                0 <= n < fields.drop_first().len() ==> fields.drop_first()[n] == fields[n + 1]);
        }
        lemma_obj_get_wf(fields.drop_first(), k);
    }
}

/// A key bound in none of the fields reads as `None`.
pub proof fn lemma_obj_get_absent(fields: Seq<(Seq<char>, Json)>, k: Seq<char>)
    requires
        forall|n: int| 0 <= n < fields.len() ==> (#[trigger] fields[n]).0 != k,
    ensures
        obj_get(fields, k) is None,
    decreases fields.len(),
{
    if fields.len() > 0 {
        assert(forall|n: int|
            0 <= n < fields.drop_first().len() ==> (#[trigger] fields.drop_first()[n]).0 != k) by {
            assert(forall|n: int|
                0 <= n < fields.drop_first().len() ==> fields.drop_first()[n] == fields[n + 1]);
        }
        lemma_obj_get_absent(fields.drop_first(), k);
    }
}

/// Binding a key greater than every stored key appends it at the end.
pub proof fn lemma_obj_set_append(fields: Seq<(Seq<char>, Json)>, k: Seq<char>, v: Json)
    requires
        forall|n: int|
            0 <= n < fields.len() ==> crate::strings::str_lt((#[trigger] fields[n]).0, k),
    ensures
        obj_set(fields, k, v) == fields.push((k, v)),
    decreases fields.len(),
{
    if fields.len() == 0 {
        assert(obj_set(fields, k, v) =~= fields.push((k, v)));
    } else {
        crate::strings::lemma_str_lt_asym(fields[0].0, k);
        assert(forall|n: int|
            0 <= n < fields.drop_first().len() ==> crate::strings::str_lt(
                (#[trigger] fields.drop_first()[n]).0,
                k,
            )) by {
            assert(forall|n: int|
                0 <= n < fields.drop_first().len() ==> fields.drop_first()[n] == fields[n + 1]);
        }
        lemma_obj_set_append(fields.drop_first(), k, v);
        assert(obj_set(fields, k, v) =~= fields.push((k, v)));
    }
}

/// Layering any document over the empty object gives that document back.
pub proof fn lemma_merge_left_identity(x: Json)
    requires
        x.wf(),
    ensures
        spec_merge(Json::Obj(Seq::empty()), x) == x,
{
    match x {
        Json::Obj(xf) => {
            lemma_merge_fields_prefix(xf, 0);
            assert(xf.take(0) =~= Seq::<(Seq<char>, Json)>::empty());
            assert(xf.take(xf.len() as int) =~= xf);
        },
        _ => {},
    }
}

/// Folding sorted fields into their own prefix reproduces the fields.
pub proof fn lemma_merge_fields_prefix(xf: Seq<(Seq<char>, Json)>, i: int)
    requires
        keys_sorted(xf),
        0 <= i <= xf.len(),
    ensures
        spec_merge_fields(xf.take(i), xf, i) == xf.take(xf.len() as int),
    decreases xf.len() - i,
{
    if i == xf.len() {
    } else {
        let k = xf[i].0;
        assert(forall|n: int| 0 <= n < i ==> (#[trigger] xf.take(i)[n]) == xf[n]);
        assert(forall|n: int|
            0 <= n < i ==> crate::strings::str_lt((#[trigger] xf.take(i)[n]).0, k));
        assert(forall|n: int| 0 <= n < i ==> (#[trigger] xf.take(i)[n]).0 != k) by {
            assert forall|n: int| 0 <= n < i implies (#[trigger] xf.take(i)[n]).0 != k by {
                crate::strings::lemma_str_lt_asym(xf.take(i)[n].0, k);
            }
        }
        lemma_obj_get_absent(xf.take(i), k);
        lemma_obj_set_append(xf.take(i), k, xf[i].1);
        assert(xf.take(i).push((k, xf[i].1)) =~= xf.take(i + 1));
        lemma_merge_fields_prefix(xf, i + 1);
    }
}

/// A source that is not an object — an array in particular — replaces the
/// target outright.
pub proof fn lemma_merge_replaces_arrays(target: Json, source: Json)
    requires
        !(source matches Json::Obj(_)),
    ensures
        spec_merge(target, source) == source,
{
}

/// Layers `source` over `target` and returns the result.
#[verifier::loop_isolation(false)]
pub fn merge_json_value(target: JsonValue, source: &JsonValue) -> (r: JsonValue)
    requires
        target@.wf(),
        source@.wf(),
    ensures
        r@ == spec_merge(target@, source@),
        r@.wf(),
    decreases source,
{
    broadcast use group_json_views, vstd::std_specs::vec::group_vec_axioms;

    proof {
        lemma_merge_wf(target@, source@);
    }
    match target {
        JsonValue::Obj(mut tf) => {
            match source {
                JsonValue::Obj(sf) => {
                    let ghost tf0 = fields_view(tf@);
                    let ghost fsv = fields_view(sf@);
                    let n = sf.len();
                    let mut i: usize = 0;
                    while i < n
                        invariant
                            i <= n,
                            n == sf@.len(),
                            source == JsonValue::Obj(*sf),
                            fsv == fields_view(sf@),
                            keys_sorted(fsv),
                            forall|m: int| 0 <= m < fsv.len() ==> (#[trigger] fsv[m]).1.wf(),
                            keys_sorted(fields_view(tf@)),
                            forall|m: int|
                                0 <= m < fields_view(tf@).len() ==> (#[trigger] fields_view(
                                    tf@,
                                )[m]).1.wf(),
                            spec_merge_fields(tf0, fsv, 0) == spec_merge_fields(
                                fields_view(tf@),
                                fsv,
                                i as int,
                            ),
                        decreases n - i,
                    {
                        let ghost tfv = fields_view(tf@);
                        let k = sf[i].0.clone();
                        proof {
                            assert(decreases_to!(source => sf));
                            assert(decreases_to!(sf => sf@[i as int]));
                            assert(decreases_to!(sf@[i as int] => sf@[i as int].1));
                            assert(decreases_to!(source => sf@[i as int].1));
                        }
                        let newv = match fields_get(&tf, k.as_str()) {
                            Some(tv) => {
                                proof {
                                    lemma_obj_get_wf(fields_view(tf@), k@);
                                }
                                let tv_owned = tv.clone();
                                merge_json_value(tv_owned, &sf[i].1)
                            },
                            None => sf[i].1.clone(),
                        };
                        proof {
                            lemma_obj_set(tfv, k@, newv@);
                        }
                        fields_set(&mut tf, k, newv);
                        i += 1;
                    }
                    proof {
                        assert(spec_merge_fields(fields_view(tf@), fsv, n as int) == fields_view(
                            tf@,
                        ));
                    }
                    JsonValue::Obj(tf)
                },
                _ => source.clone(),
            }
        },
        _ => source.clone(),
    }
}

/// The result of filling the gaps of `target` from `defaults`.
pub open spec fn spec_merge_defaults(target: Json, defaults: Json) -> Json
    decreases defaults, 0nat,
{
    match target {
        Json::Obj(tf) => match defaults {
            Json::Obj(df) => {
                proof {
                    assert(decreases_to!(defaults => df));
                }
                Json::Obj(spec_defaults_fields(tf, df, 0))
            },
            _ => target,
        },
        _ => target,
    }
}

/// Folds the default fields from position `i` onward into the target fields.
pub open spec fn spec_defaults_fields(
    tf: Seq<(Seq<char>, Json)>,
    df: Seq<(Seq<char>, Json)>,
    i: int,
) -> Seq<(Seq<char>, Json)>
    decreases df, df.len() - i,
{
    if i < 0 || i >= df.len() {
        tf
    } else {
        let k = df[i].0;
        let dv = df[i].1;
        proof {
            assert(decreases_to!(df => df[i]));
            assert(decreases_to!(df[i] => df[i].1));
            assert(decreases_to!(df => df[i].1));
        }
        let tf2 = match obj_get(tf, k) {
            Some(tv) => obj_set(tf, k, spec_merge_defaults(tv, dv)),
            None => obj_set(tf, k, dv),
        };
        spec_defaults_fields(tf2, df, i + 1)
    }
}

/// Fills gaps in `target` from `defaults`: the target always wins.
#[verifier::loop_isolation(false)]
pub fn merge_json_with_defaults(target: JsonValue, defaults: &JsonValue) -> (r: JsonValue)
    requires
        target@.wf(),
        defaults@.wf(),
    ensures
        r@ == spec_merge_defaults(target@, defaults@),
        r@.wf(),
    decreases defaults,
{
    broadcast use group_json_views, vstd::std_specs::vec::group_vec_axioms;

    proof {
        lemma_merge_defaults_wf(target@, defaults@);
    }
    match target {
        JsonValue::Obj(mut tf) => {
            match defaults {
                JsonValue::Obj(df) => {
                    let ghost tf0 = fields_view(tf@);
                    let ghost fdv = fields_view(df@);
                    let n = df.len();
                    let mut i: usize = 0;
                    while i < n
                        invariant
                            i <= n,
                            n == df@.len(),
                            defaults == JsonValue::Obj(*df),
                            fdv == fields_view(df@),
                            keys_sorted(fdv),
                            forall|m: int| 0 <= m < fdv.len() ==> (#[trigger] fdv[m]).1.wf(),
                            keys_sorted(fields_view(tf@)),
                            forall|m: int|
                                0 <= m < fields_view(tf@).len() ==> (#[trigger] fields_view(
                                    tf@,
                                )[m]).1.wf(),
                            spec_defaults_fields(tf0, fdv, 0) == spec_defaults_fields(
                                fields_view(tf@),
                                fdv,
                                i as int,
                            ),
                        decreases n - i,
                    {
                        let ghost tfv = fields_view(tf@);
                        let k = df[i].0.clone();
                        proof {
                            assert(decreases_to!(defaults => df));
                            assert(decreases_to!(df => df@[i as int]));
                            assert(decreases_to!(df@[i as int] => df@[i as int].1));
                            assert(decreases_to!(defaults => df@[i as int].1));
                        }
                        let newv = match fields_get(&tf, k.as_str()) {
                            Some(tv) => {
                                proof {
                                    lemma_obj_get_wf(fields_view(tf@), k@);
                                }
                                let tv_owned = tv.clone();
                                merge_json_with_defaults(tv_owned, &df[i].1)
                            },
                            None => df[i].1.clone(),
                        };
                        proof {
                            lemma_obj_set(tfv, k@, newv@);
                        }
                        fields_set(&mut tf, k, newv);
                        i += 1;
                    }
                    proof {
                        assert(spec_defaults_fields(fields_view(tf@), fdv, n as int)
                            == fields_view(tf@));
                    }
                    JsonValue::Obj(tf)
                },
                _ => JsonValue::Obj(tf),
            }
        },
        other => other,
    }
}

/// Filling gaps keeps the document well-formed.
pub proof fn lemma_merge_defaults_wf(target: Json, defaults: Json)
    requires
        target.wf(),
        defaults.wf(),
    ensures
        spec_merge_defaults(target, defaults).wf(),
    decreases defaults, 0nat,
{
    match target {
        Json::Obj(tf) => match defaults {
            Json::Obj(df) => {
                lemma_defaults_fields_wf(tf, df, 0);
            },
            _ => {},
        },
        _ => {},
    }
}

pub proof fn lemma_defaults_fields_wf(
    tf: Seq<(Seq<char>, Json)>,
    df: Seq<(Seq<char>, Json)>,
    i: int,
)
    requires
        keys_sorted(tf),
        keys_sorted(df),
        forall|n: int| 0 <= n < tf.len() ==> (#[trigger] tf[n]).1.wf(),
        forall|n: int| 0 <= n < df.len() ==> (#[trigger] df[n]).1.wf(),
        0 <= i <= df.len(),
    ensures
        keys_sorted(spec_defaults_fields(tf, df, i)),
        forall|n: int|
            0 <= n < spec_defaults_fields(tf, df, i).len() ==> (#[trigger] spec_defaults_fields(
                tf,
                df,
                i,
            )[n]).1.wf(),
    decreases df, df.len() - i,
{
    if i < df.len() {
        let ki = df[i].0;
        let vi = match obj_get(tf, ki) {
            Some(tv) => spec_merge_defaults(tv, df[i].1),
            None => df[i].1,
        };
        assert(vi.wf()) by {
            match obj_get(tf, ki) {
                Some(tv) => {
                    lemma_obj_get_wf(tf, ki);
                    lemma_merge_defaults_wf(tv, df[i].1);
                },
                None => {},
            }
        }
        lemma_obj_set(tf, ki, vi);
        lemma_defaults_fields_wf(obj_set(tf, ki, vi), df, i + 1);
    }
}

/// `r` preserves `t`: every part of `t` is present unchanged in `r`, except
/// that objects of `t` may have gained extra keys in `r`.
pub open spec fn preserves(r: Json, t: Json) -> bool
    decreases t, 0nat,
{
    match t {
        Json::Obj(tf) => {
            proof {
                assert(decreases_to!(t => tf));
            }
            r is Obj && fields_preserved(r.obj_fields(), tf, 0)
        },
        _ => r == t,
    }
}

/// Every field of `tf` from position `i` onward is present and preserved in
/// `rf`.
pub open spec fn fields_preserved(
    rf: Seq<(Seq<char>, Json)>,
    tf: Seq<(Seq<char>, Json)>,
    i: int,
) -> bool
    decreases tf, tf.len() - i,
{
    if i < 0 || i >= tf.len() {
        true
    } else {
        proof {
            assert(decreases_to!(tf => tf[i]));
            assert(decreases_to!(tf[i] => tf[i].1));
            assert(decreases_to!(tf => tf[i].1));
        }
        (match obj_get(rf, tf[i].0) {
            Some(rv) => preserves(rv, tf[i].1),
            None => false,
        }) && fields_preserved(rf, tf, i + 1)
    }
}

/// Unrolls `fields_preserved` at one position.
pub proof fn lemma_fields_preserved_extract(
    rf: Seq<(Seq<char>, Json)>,
    tf: Seq<(Seq<char>, Json)>,
    i: int,
    j: int,
)
    requires
        fields_preserved(rf, tf, i),
        0 <= i <= j < tf.len(),
    ensures
        obj_get(rf, tf[j].0) is Some,
        preserves(obj_get(rf, tf[j].0)->0, tf[j].1),
    decreases j - i,
{
    if i < j {
        lemma_fields_preserved_extract(rf, tf, i + 1, j);
    }
}

/// Builds `fields_preserved` from per-position facts.
pub proof fn lemma_fields_preserved_intro(
    rf: Seq<(Seq<char>, Json)>,
    tf: Seq<(Seq<char>, Json)>,
    i: int,
)
    requires
        0 <= i <= tf.len(),
        forall|j: int|
            i <= j < tf.len() ==> (#[trigger] obj_get(rf, tf[j].0)) is Some && preserves(
                obj_get(rf, tf[j].0)->0,
                tf[j].1,
            ),
    ensures
        fields_preserved(rf, tf, i),
    decreases tf.len() - i,
{
    if i < tf.len() {
        lemma_fields_preserved_intro(rf, tf, i + 1);
    }
}

/// In sorted fields, the key at position `j` reads back its own value.
pub proof fn lemma_obj_get_own_key(tf: Seq<(Seq<char>, Json)>, j: int)
    requires
        keys_sorted(tf),
        0 <= j < tf.len(),
    ensures
        obj_get(tf, tf[j].0) == Some(tf[j].1),
{
    lemma_obj_get_at(tf, j);
    let p = choose|p: int|
        0 <= p <= j && #[trigger] tf[p].0 == tf[j].0 && obj_get(tf, tf[j].0) == Some(tf[p].1);
    if p < j {
        crate::strings::lemma_str_lt_asym(tf[p].0, tf[j].0);
    }
}

/// Preservation is reflexive on well-formed documents.
pub proof fn lemma_preserves_refl(t: Json)
    requires
        t.wf(),
    ensures
        preserves(t, t),
    decreases t,
{
    match t {
        Json::Obj(tf) => {
            assert forall|j: int|
                0 <= j < tf.len() implies (#[trigger] obj_get(tf, tf[j].0)) is Some && preserves(
                obj_get(tf, tf[j].0)->0,
                tf[j].1,
            ) by {
                lemma_obj_get_own_key(tf, j);
                assert(decreases_to!(t => tf));
                assert(decreases_to!(tf => tf[j]));
                assert(decreases_to!(tf[j] => tf[j].1));
                lemma_preserves_refl(tf[j].1);
            }
            lemma_fields_preserved_intro(tf, tf, 0);
        },
        _ => {},
    }
}

/// What `obj_get` finds for the key at position `i` is bound at some
/// position up to `i`.
pub proof fn lemma_obj_get_at(tf: Seq<(Seq<char>, Json)>, i: int)
    requires
        0 <= i < tf.len(),
    ensures
        exists|j: int|
            0 <= j <= i && #[trigger] tf[j].0 == tf[i].0 && obj_get(tf, tf[i].0) == Some(tf[j].1),
    decreases tf.len(),
{
    if tf[0].0 == tf[i].0 {
        assert(tf[0].0 == tf[i].0 && obj_get(tf, tf[i].0) == Some(tf[0].1));
    } else {
        let tail = tf.drop_first();
        lemma_obj_get_at(tail, i - 1);
        let j = choose|j: int|
            0 <= j <= i - 1 && #[trigger] tail[j].0 == tail[i - 1].0 && obj_get(tail, tail[i - 1].0)
                == Some(tail[j].1);
        assert(tail[j] == tf[j + 1]);
        assert(tail[i - 1] == tf[i]);
        assert(tf[j + 1].0 == tf[i].0 && obj_get(tf, tf[i].0) == Some(tf[j + 1].1));
    }
}

/// Filling gaps from defaults only adds: everything the target held is
/// still there, unchanged.
pub proof fn lemma_defaults_fill_only_gaps(target: Json, defaults: Json)
    requires
        target.wf(),
        defaults.wf(),
    ensures
        preserves(spec_merge_defaults(target, defaults), target),
    decreases defaults, 0nat,
{
    match target {
        Json::Obj(tf) => match defaults {
            Json::Obj(df) => {
                let m = spec_merge_defaults(target, defaults);
                assert forall|j: int|
                    0 <= j < tf.len() implies (#[trigger] obj_get(m.obj_fields(), tf[j].0))
                    is Some && preserves(obj_get(m.obj_fields(), tf[j].0)->0, tf[j].1) by {
                    lemma_obj_get_own_key(tf, j);
                    lemma_merge_defaults_get(tf, df, tf[j].0, target, defaults);
                    assert(tf[j].1.wf());
                    match obj_get(df, tf[j].0) {
                        Some(dv) => {
                            lemma_obj_get_wf(df, tf[j].0);
                            lemma_obj_get_is_element(df, tf[j].0);
                            let l = choose|l: int|
                                0 <= l < df.len() && (#[trigger] df[l]).0 == tf[j].0 && obj_get(
                                    df,
                                    tf[j].0,
                                ) == Some(df[l].1);
                            assert(decreases_to!(defaults => df));
                            assert(decreases_to!(df => df[l]));
                            assert(decreases_to!(df[l] => df[l].1));
                            lemma_defaults_fill_only_gaps(tf[j].1, dv);
                        },
                        None => {
                            lemma_preserves_refl(tf[j].1);
                        },
                    }
                }
                lemma_fields_preserved_intro(m.obj_fields(), tf, 0);
            },
            _ => {
                lemma_preserves_refl(target);
            },
        },
        _ => {},
    }
}

/// What `obj_get` returns is one of the stored values.
pub proof fn lemma_obj_get_is_element(fields: Seq<(Seq<char>, Json)>, k: Seq<char>)
    requires
        obj_get(fields, k) is Some,
    ensures
        exists|j: int|
            0 <= j < fields.len() && (#[trigger] fields[j]).0 == k && obj_get(fields, k) == Some(
                fields[j].1,
            ),
    decreases fields.len(),
{
    if fields[0].0 == k {
        assert(fields[0].0 == k && obj_get(fields, k) == Some(fields[0].1));
    } else {
        let tail = fields.drop_first();
        lemma_obj_get_is_element(tail, k);
        let j = choose|j: int|
            0 <= j < tail.len() && (#[trigger] tail[j]).0 == k && obj_get(tail, k) == Some(
                tail[j].1,
            );
        assert(tail[j] == fields[j + 1]);
        assert(fields[j + 1].0 == k && obj_get(fields, k) == Some(fields[j + 1].1));
    }
}

/// What each key reads as after filling gaps: a key of the target keeps the
/// target's value, merged recursively with the default where both are bound.
pub proof fn lemma_merge_defaults_get(
    tf: Seq<(Seq<char>, Json)>,
    df: Seq<(Seq<char>, Json)>,
    k: Seq<char>,
    t: Json,
    d: Json,
)
    requires
        t == Json::Obj(tf),
        d == Json::Obj(df),
        t.wf(),
        d.wf(),
    ensures
        obj_get(spec_merge_defaults(t, d).obj_fields(), k) == match obj_get(tf, k) {
            Some(tv) => match obj_get(df, k) {
                Some(dv) => Some(spec_merge_defaults(tv, dv)),
                None => Some(tv),
            },
            None => obj_get(df, k),
        },
{
    lemma_defaults_fields_get(tf, df, 0, k);
    assert(df.skip(0) =~= df);
}

pub proof fn lemma_defaults_fields_get(
    tf: Seq<(Seq<char>, Json)>,
    df: Seq<(Seq<char>, Json)>,
    i: int,
    k: Seq<char>,
)
    requires
        keys_sorted(tf),
        keys_sorted(df),
        0 <= i <= df.len(),
    ensures
        obj_get(spec_defaults_fields(tf, df, i), k) == match obj_get(tf, k) {
            Some(tv) => match obj_get(df.skip(i), k) {
                Some(dv) => Some(spec_merge_defaults(tv, dv)),
                None => Some(tv),
            },
            None => obj_get(df.skip(i), k),
        },
        keys_sorted(spec_defaults_fields(tf, df, i)),
    decreases df.len() - i,
{
    if i == df.len() {
        assert(df.skip(i) =~= Seq::<(Seq<char>, Json)>::empty());
    } else {
        let ki = df[i].0;
        let vi = match obj_get(tf, ki) {
            Some(tv) => spec_merge_defaults(tv, df[i].1),
            None => df[i].1,
        };
        let tf2 = obj_set(tf, ki, vi);
        lemma_obj_set(tf, ki, vi);
        lemma_defaults_fields_get(tf2, df, i + 1, k);
        assert(df.skip(i)[0] == df[i]);
        assert(df.skip(i).drop_first() =~= df.skip(i + 1));
        if k == ki {
            assert(obj_get(df.skip(i + 1), k) is None) by {
                let suffix = df.skip(i + 1);
                assert forall|p: int, q: int| 0 <= p < q < suffix.len() implies
                    crate::strings::str_lt((#[trigger] suffix[p]).0, (#[trigger] suffix[q]).0) by {
                    assert(suffix[p] == df[i + 1 + p]);
                    assert(suffix[q] == df[i + 1 + q]);
                }
                if suffix.len() > 0 {
                    assert(suffix[0] == df[i + 1]);
                    assert(crate::strings::str_lt(df[i].0, df[i + 1].0));
                }
                crate::json::lemma_obj_get_before_first(suffix, k);
            }
            assert(obj_get(tf2, k) == Some(vi));
        } else {
            assert(obj_get(tf2, k) == obj_get(tf, k));
        }
    }
}

} // verus!
