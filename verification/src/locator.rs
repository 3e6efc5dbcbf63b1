//! Finding and rendering configurable-string sites inside a composed
//! document: any object whose `$type` is the marker is a site; the walk
//! does not descend into a site's own sub-tree.

use vstd::prelude::*;

use crate::configurable_string::{
    comps_date_free, files_get, has_date_filter, spec_has_date_filter, spec_resolve_value,
    value_date_free, LoadedFiles, Replacement, ReplacementObject, ReplacementValue, resolve_value,
};
use crate::json::{fields_view, obj_get, Json, JsonValue};
use crate::strings::{push_char, push_str, spec_dec_digits};

verus! {

/// Whether object fields carry the configurable-string marker.
pub open spec fn is_site(fields: Seq<(Seq<char>, Json)>) -> bool {
    obj_get(fields, ("$type")@) == Some(Json::Str(("Optify.ConfigurableString")@))
}

/// The JSON Pointers of every site in the document, in walk order.
pub open spec fn spec_site_pointers(j: Json, prefix: Seq<char>) -> Seq<Seq<char>>
    decreases j, 0nat,
{
    match j {
        Json::Obj(fields) => {
            if is_site(fields) {
                seq![prefix]
            } else {
                proof {
                    assert(decreases_to!(j => fields));
                }
                obj_site_pointers(fields, prefix, 0)
            }
        },
        Json::Arr(items) => {
            proof {
                assert(decreases_to!(j => items));
            }
            arr_site_pointers(items, prefix, 0)
        },
        _ => Seq::empty(),
    }
}

pub open spec fn obj_site_pointers(
    fields: Seq<(Seq<char>, Json)>,
    prefix: Seq<char>,
    i: int,
) -> Seq<Seq<char>>
    decreases fields, fields.len() - i,
{
    if i < 0 || i >= fields.len() {
        Seq::empty()
    } else {
        proof {
            assert(decreases_to!(fields => fields[i]));
            assert(decreases_to!(fields[i] => fields[i].1));
            assert(decreases_to!(fields => fields[i].1));
        }
        spec_site_pointers(fields[i].1, prefix + seq!['/'] + fields[i].0) + obj_site_pointers(
            fields,
            prefix,
            i + 1,
        )
    }
}

pub open spec fn arr_site_pointers(items: Seq<Json>, prefix: Seq<char>, i: int) -> Seq<Seq<char>>
    decreases items, items.len() - i,
{
    if i < 0 || i >= items.len() {
        Seq::empty()
    } else {
        proof {
            assert(decreases_to!(items => items[i]));
        }
        spec_site_pointers(items[i], prefix + seq!['/'] + spec_dec_digits(i as nat))
            + arr_site_pointers(items, prefix, i + 1)
    }
}

/// The views of a list of strings.
pub open spec fn strs_view(list: Seq<String>) -> Seq<Seq<char>> {
    Seq::new(list.len(), |i: int| list[i]@)
}

/// Whether these object fields form a site, decided executably.
fn site_check(fields: &Vec<(String, JsonValue)>) -> (r: bool)
    requires
        crate::json::keys_sorted(fields_view(fields@)),
    ensures
        r == is_site(fields_view(fields@)),
{
    match crate::json::fields_get(fields, "$type") {
        Some(v) => match v {
            JsonValue::Str(s) => crate::strings::str_eq(s.as_str(), "Optify.ConfigurableString"),
            _ => false,
        },
        None => false,
    }
}

/// Collects the pointers of every site under `v`.
#[verifier::loop_isolation(false)]
#[verifier::rlimit(60)]
fn collect_site_pointers(v: &JsonValue, prefix: &str, out: &mut Vec<String>)
    requires
        v@.wf(),
    ensures
        strs_view(final(out)@) == strs_view(old(out)@) + spec_site_pointers(v@, prefix@),
    decreases v,
{
    broadcast use crate::json::group_json_views, vstd::std_specs::vec::group_vec_axioms;

    match v {
        JsonValue::Obj(fields) => {
            if site_check(fields) {
                out.push(prefix.to_owned());
                proof {
                    assert(strs_view(out@) =~= strs_view(old(out)@) + seq![prefix@]);
                }
                return;
            }
            let ghost fv = fields_view(fields@);
            let n = fields.len();
            let mut i: usize = 0;
            proof {
                assert(strs_view(out@) =~= strs_view(old(out)@) + Seq::<Seq<char>>::empty());
            }
            while i < n
                invariant
                    i <= n,
                    n == fields@.len(),
                    v == JsonValue::Obj(*fields),
                    fv == fields_view(fields@),
                    v@.wf(),
                    !is_site(fv),
                    strs_view(out@) + obj_site_pointers(fv, prefix@, i as int) == strs_view(
                        old(out)@,
                    ) + obj_site_pointers(fv, prefix@, 0),
                decreases n - i,
            {
                proof {
                    assert(decreases_to!(v => fields));
                    assert(decreases_to!(fields => fields@[i as int]));
                    assert(decreases_to!(fields@[i as int] => fields@[i as int].1));
                    assert(decreases_to!(v => fields@[i as int].1));
                }
                let mut child_prefix = prefix.to_owned();
                push_char(&mut child_prefix, '/');
                push_str(&mut child_prefix, fields[i].0.as_str());
                proof {
                    assert(child_prefix@ =~= prefix@ + seq!['/'] + fv[i as int].0);
                    crate::json::lemma_obj_elem_wf(v@, fv, i as int);
                }
                collect_site_pointers(&fields[i].1, child_prefix.as_str(), out);
                proof {
                    assert(strs_view(out@) + obj_site_pointers(fv, prefix@, i + 1) =~= strs_view(
                        old(out)@,
                    ) + obj_site_pointers(fv, prefix@, 0));
                }
                i += 1;
            }
            proof {
                assert(obj_site_pointers(fv, prefix@, n as int) =~= Seq::<Seq<char>>::empty());
                assert(strs_view(out@) =~= strs_view(old(out)@) + obj_site_pointers(
                    fv,
                    prefix@,
                    0,
                ));
            }
        },
        JsonValue::Arr(items) => {
            let ghost itv = crate::json::arr_view(items@);
            let n = items.len();
            let mut i: usize = 0;
            proof {
                assert(strs_view(out@) =~= strs_view(old(out)@) + Seq::<Seq<char>>::empty());
            }
            while i < n
                invariant
                    i <= n,
                    n == items@.len(),
                    v == JsonValue::Arr(*items),
                    itv == crate::json::arr_view(items@),
                    v@.wf(),
                    strs_view(out@) + arr_site_pointers(itv, prefix@, i as int) == strs_view(
                        old(out)@,
                    ) + arr_site_pointers(itv, prefix@, 0),
                decreases n - i,
            {
                proof {
                    assert(decreases_to!(v => items));
                    assert(decreases_to!(items => items@[i as int]));
                    assert(decreases_to!(v => items@[i as int]));
                }
                let mut child_prefix = prefix.to_owned();
                push_char(&mut child_prefix, '/');
                crate::strings::push_u64_dec(&mut child_prefix, i as u64);
                proof {
                    assert(child_prefix@ =~= prefix@ + seq!['/'] + spec_dec_digits(i as nat));
                    crate::json::lemma_arr_elem_wf(v@, itv, i as int);
                }
                collect_site_pointers(&items[i], child_prefix.as_str(), out);
                proof {
                    assert(strs_view(out@) + arr_site_pointers(itv, prefix@, i + 1) =~= strs_view(
                        old(out)@,
                    ) + arr_site_pointers(itv, prefix@, 0));
                }
                i += 1;
            }
            proof {
                assert(arr_site_pointers(itv, prefix@, n as int) =~= Seq::<Seq<char>>::empty());
                assert(strs_view(out@) =~= strs_view(old(out)@) + arr_site_pointers(
                    itv,
                    prefix@,
                    0,
                ));
            }
        },
        _ => {
            proof {
                assert(strs_view(out@) =~= strs_view(old(out)@) + Seq::<Seq<char>>::empty());
            }
        },
    }
}

/// The JSON Pointers of every configurable-string site in the document.
pub fn find_configurable_value_pointers(options: Option<&JsonValue>) -> (r: Vec<String>)
    requires
        match options {
            Some(v) => v@.wf(),
            None => true,
        },
    ensures
        match options {
            Some(v) => strs_view(r@) == spec_site_pointers(v@, Seq::empty()),
            None => r@.len() == 0,
        },
{
    let mut out: Vec<String> = Vec::new();
    match options {
        Some(v) => {
            collect_site_pointers(v, "", &mut out);
            proof {
                reveal_strlit("");
                assert(("")@ =~= Seq::<char>::empty());
                assert(strs_view(out@) =~= spec_site_pointers(v@, Seq::empty()));
            }
        },
        None => {},
    }
    out
}

/// What the root or a component of a site parses to.
pub open spec fn spec_parse_replacement(j: Json) -> Option<Replacement> {
    match j {
        Json::Str(s) => Some(Replacement::Text(s)),
        Json::Obj(f) => {
            if obj_get(f, ("liquid")@) is Some {
                match obj_get(f, ("liquid")@)->0 {
                    Json::Str(t) => Some(Replacement::Template(t)),
                    _ => None,
                }
            } else if obj_get(f, ("file")@) is Some {
                match obj_get(f, ("file")@)->0 {
                    Json::Str(p) => Some(Replacement::FromFile(p)),
                    _ => None,
                }
            } else {
                None
            }
        },
        _ => None,
    }
}

/// Parses the root or a component of a site.
fn parse_replacement(v: &JsonValue) -> (r: Result<ReplacementValue, String>)
    requires
        v@.wf(),
    ensures
        r is Ok <==> spec_parse_replacement(v@) is Some,
        r matches Ok(rv) ==> Some(rv.repl()) == spec_parse_replacement(v@),
{
    match v {
        JsonValue::Str(s) => Ok(ReplacementValue::String(s.clone())),
        JsonValue::Obj(fields) => {
            if let Some(t) = crate::json::fields_get(fields, "liquid") {
                match t {
                    JsonValue::Str(s) => Ok(
                        ReplacementValue::Object(ReplacementObject::Liquid { liquid: s.clone() }),
                    ),
                    _ => Err(bad_site_error()),
                }
            } else if let Some(p) = crate::json::fields_get(fields, "file") {
                match p {
                    JsonValue::Str(s) => Ok(
                        ReplacementValue::Object(ReplacementObject::File { file: s.clone() }),
                    ),
                    _ => Err(bad_site_error()),
                }
            } else {
                Err(bad_site_error())
            }
        },
        _ => Err(bad_site_error()),
    }
}

/// The root value of a site: its `root`, or failing that its `base`.
pub open spec fn spec_site_root(fields: Seq<(Seq<char>, Json)>) -> Option<Json> {
    match obj_get(fields, ("root")@) {
        Some(v) => Some(v),
        None => obj_get(fields, ("base")@),
    }
}

/// The components object of a site: its `components`, or failing that its
/// `arguments`; absent means no components.
pub open spec fn spec_site_components(fields: Seq<(Seq<char>, Json)>) -> Option<Json> {
    match obj_get(fields, ("components")@) {
        Some(v) => Some(v),
        None => obj_get(fields, ("arguments")@),
    }
}

/// The parsed components of a site, from field position `i` onward.
pub open spec fn spec_parse_components(cf: Seq<(Seq<char>, Json)>, i: int) -> Option<
    Seq<(Seq<char>, Replacement)>,
>
    decreases cf.len() - i,
{
    if i < 0 || i >= cf.len() {
        Some(Seq::empty())
    } else {
        match spec_parse_replacement(cf[i].1) {
            Some(rv) => match spec_parse_components(cf, i + 1) {
                Some(rest) => Some(seq![(cf[i].0, rv)] + rest),
                None => None,
            },
            None => None,
        }
    }
}

/// The fuel that suffices for any acyclic chain among `n` components.
pub open spec fn spec_site_fuel(n: nat) -> nat {
    if n < usize::MAX as nat {
        n + 1
    } else {
        n
    }
}

/// What a whole site renders to, or `None` for a rendering error.
pub open spec fn spec_render_site(
    fields: Seq<(Seq<char>, Json)>,
    files: Seq<(Seq<char>, Seq<char>)>,
) -> Option<Seq<char>> {
    match spec_site_root(fields) {
        Some(root_json) => match spec_parse_replacement(root_json) {
            Some(root) => {
                let comps = match spec_site_components(fields) {
                    Some(cv) => match cv {
                        Json::Obj(cf) => spec_parse_components(cf, 0),
                        _ => None,
                    },
                    None => Some(Seq::empty()),
                };
                match comps {
                    Some(components) => spec_resolve_value(
                        root,
                        components,
                        files,
                        Seq::empty(),
                        spec_site_fuel(components.len()),
                    ),
                    None => None,
                }
            },
            None => None,
        },
        None => None,
    }
}

/// A replacement document that embeds a `date`-invoking liquid template.
pub open spec fn repl_json_dated(v: Json) -> bool {
    match v {
        Json::Obj(rf) => match obj_get(rf, ("liquid")@) {
            Some(Json::Str(t)) => spec_has_date_filter(t),
            _ => false,
        },
        _ => false,
    }
}

/// Some template of the site — its root or a component — invokes the
/// clock-reading `date` filter; such a site's rendering is not pinned.
pub open spec fn spec_site_mentions_date(fields: Seq<(Seq<char>, Json)>) -> bool {
    ||| match spec_site_root(fields) {
        Some(r) => repl_json_dated(r),
        None => false,
    }
    ||| match spec_site_components(fields) {
        Some(cv) => match cv {
            Json::Obj(cf) => exists|i: int|
                0 <= i < cf.len() && repl_json_dated((#[trigger] cf[i]).1),
            _ => false,
        },
        None => false,
    }
}

/// Some site of the document invokes the `date` filter.
pub open spec fn spec_doc_mentions_date(j: Json) -> bool
    decreases j, 0nat,
{
    match j {
        Json::Obj(fields) => {
            if is_site(fields) {
                spec_site_mentions_date(fields)
            } else {
                proof {
                    assert(decreases_to!(j => fields));
                }
                obj_mentions_date(fields, 0)
            }
        },
        Json::Arr(items) => {
            proof {
                assert(decreases_to!(j => items));
            }
            arr_mentions_date(items, 0)
        },
        _ => false,
    }
}

pub open spec fn obj_mentions_date(fields: Seq<(Seq<char>, Json)>, i: int) -> bool
    decreases fields, fields.len() - i,
{
    if i < 0 || i >= fields.len() {
        false
    } else {
        proof {
            assert(decreases_to!(fields => fields[i]));
            assert(decreases_to!(fields[i] => fields[i].1));
            assert(decreases_to!(fields => fields[i].1));
        }
        spec_doc_mentions_date(fields[i].1) || obj_mentions_date(fields, i + 1)
    }
}

pub open spec fn arr_mentions_date(items: Seq<Json>, i: int) -> bool
    decreases items, items.len() - i,
{
    if i < 0 || i >= items.len() {
        false
    } else {
        proof {
            assert(decreases_to!(items => items[i]));
        }
        spec_doc_mentions_date(items[i]) || arr_mentions_date(items, i + 1)
    }
}

/// A date-free object has only date-free field values.
pub proof fn lemma_obj_mentions_extract(fields: Seq<(Seq<char>, Json)>, i: int, j: int)
    requires
        !obj_mentions_date(fields, i),
        0 <= i <= j < fields.len(),
    ensures
        !spec_doc_mentions_date(fields[j].1),
    decreases j - i,
{
    if i < j {
        lemma_obj_mentions_extract(fields, i + 1, j);
    }
}

/// A date-free array has only date-free items.
pub proof fn lemma_arr_mentions_extract(items: Seq<Json>, i: int, j: int)
    requires
        !arr_mentions_date(items, i),
        0 <= i <= j < items.len(),
    ensures
        !spec_doc_mentions_date(items[j]),
    decreases j - i,
{
    if i < j {
        lemma_arr_mentions_extract(items, i + 1, j);
    }
}

/// Whether a replacement document embeds a `date`-invoking template.
fn repl_dated_check(v: &JsonValue) -> (r: bool)
    requires
        v@.wf(),
    ensures
        r == repl_json_dated(v@),
{
    match v {
        JsonValue::Obj(rf) => match crate::json::fields_get(rf, "liquid") {
            Some(t) => match t {
                JsonValue::Str(tx) => has_date_filter(tx.as_str()),
                _ => false,
            },
            None => false,
        },
        _ => false,
    }
}

/// Whether any template of the site invokes the `date` filter.
#[verifier::loop_isolation(false)]
pub fn site_mentions_date(fields: &Vec<(String, JsonValue)>) -> (r: bool)
    requires
        crate::json::keys_sorted(fields_view(fields@)),
        forall|i: int| 0 <= i < fields_view(fields@).len() ==> (#[trigger] fields_view(
            fields@,
        )[i]).1.wf(),
    ensures
        r == spec_site_mentions_date(fields_view(fields@)),
{
    broadcast use crate::json::group_json_views, vstd::std_specs::vec::group_vec_axioms;

    let ghost fv = fields_view(fields@);
    let root_dated = {
        let root_json = match crate::json::fields_get(fields, "root") {
            Some(v) => Some(v),
            None => crate::json::fields_get(fields, "base"),
        };
        match root_json {
            Some(v) => {
                proof {
                    if obj_get(fv, ("root")@) is Some {
                        crate::merge::lemma_obj_get_wf(fv, ("root")@);
                    } else {
                        crate::merge::lemma_obj_get_wf(fv, ("base")@);
                    }
                }
                repl_dated_check(v)
            },
            None => false,
        }
    };
    if root_dated {
        return true;
    }
    let comps_json = match crate::json::fields_get(fields, "components") {
        Some(v) => Some(v),
        None => crate::json::fields_get(fields, "arguments"),
    };
    match comps_json {
        Some(cv) => {
            proof {
                if obj_get(fv, ("components")@) is Some {
                    crate::merge::lemma_obj_get_wf(fv, ("components")@);
                } else {
                    crate::merge::lemma_obj_get_wf(fv, ("arguments")@);
                }
            }
            match cv {
                JsonValue::Obj(cf) => {
                    let ghost cfv = fields_view(cf@);
                    let n = cf.len();
                    let mut i: usize = 0;
                    while i < n
                        invariant
                            i <= n,
                            n == cf@.len(),
                            cfv == fields_view(cf@),
                            cv@.wf(),
                            *cv == JsonValue::Obj(*cf),
                            forall|q: int| 0 <= q < i ==> !repl_json_dated((#[trigger] cfv[q]).1),
                        decreases n - i,
                    {
                        proof {
                            crate::json::lemma_obj_elem_wf(cv@, cfv, i as int);
                        }
                        if repl_dated_check(&cf[i].1) {
                            return true;
                        }
                        i += 1;
                    }
                    false
                },
                _ => false,
            }
        },
        None => false,
    }
}

/// Renders one site against the file table. Where no template of the site
/// invokes the `date` filter, the result is exactly `spec_render_site`;
/// a `date`-bearing site still renders, with nothing promised of its
/// text.
#[verifier::loop_isolation(false)]
pub fn render_site(fields: &Vec<(String, JsonValue)>, files: &LoadedFiles) -> (r: Result<
    String,
    String,
>)
    requires
        crate::json::keys_sorted(fields_view(fields@)),
        forall|i: int| 0 <= i < fields_view(fields@).len() ==> (#[trigger] fields_view(
            fields@,
        )[i]).1.wf(),
    ensures
        !spec_site_mentions_date(fields_view(fields@)) ==> match r {
            Ok(s) => spec_render_site(fields_view(fields@), files.view_table()) == Some(s@),
            Err(_) => spec_render_site(fields_view(fields@), files.view_table()) is None,
        },
{
    broadcast use crate::json::group_json_views, vstd::std_specs::vec::group_vec_axioms;

    let ghost fv = fields_view(fields@);
    let root_json = match crate::json::fields_get(fields, "root") {
        Some(v) => v,
        None => match crate::json::fields_get(fields, "base") {
            Some(v) => v,
            None => {
                return Err(bad_site_error());
            },
        },
    };
    proof {
        if obj_get(fv, ("root")@) is Some {
            crate::merge::lemma_obj_get_wf(fv, ("root")@);
        } else {
            crate::merge::lemma_obj_get_wf(fv, ("base")@);
        }
    }
    let root = match parse_replacement(root_json) {
        Ok(rv) => rv,
        Err(e) => {
            return Err(e);
        },
    };
    let mut components: Vec<(String, ReplacementValue)> = Vec::new();
    match crate::json::fields_get(fields, "components") {
        Some(cv) => {
            proof {
                crate::merge::lemma_obj_get_wf(fv, ("components")@);
            }
            match parse_components(cv, &mut components) {
                Ok(()) => {},
                Err(e) => {
                    return Err(e);
                },
            }
        },
        None => match crate::json::fields_get(fields, "arguments") {
            Some(cv) => {
                proof {
                    crate::merge::lemma_obj_get_wf(fv, ("arguments")@);
                }
                match parse_components(cv, &mut components) {
                    Ok(()) => {},
                    Err(e) => {
                        return Err(e);
                    },
                }
            },
            None => {
                proof {
                    assert(crate::configurable_string::comp_view(components@) =~= Seq::<
                        (Seq<char>, Replacement),
                    >::empty());
                }
            },
        },
    }
    let fuel: usize = if components.len() < usize::MAX {
        components.len() + 1
    } else {
        components.len()
    };
    let empty_path: Vec<String> = Vec::new();
    proof {
        assert(crate::configurable_string::path_view(empty_path@) =~= Seq::<Seq<char>>::empty());
        if !spec_site_mentions_date(fv) {
            assert(value_date_free(root.repl()));
            match spec_site_components(fv) {
                Some(cv) => {
                    match cv {
                        Json::Obj(cf) => {
                            lemma_parse_components_date_free(
                                cf,
                                0,
                                crate::configurable_string::comp_view(components@),
                            );
                        },
                        _ => {},
                    }
                },
                None => {
                    assert(crate::configurable_string::comp_view(components@).len() == 0);
                },
            }
            assert(comps_date_free(crate::configurable_string::comp_view(components@)));
        }
    }
    resolve_value(&root, &components, files, &empty_path, fuel)
}

/// Components parsed from a date-free components object are date-free.
proof fn lemma_parse_components_date_free(
    cf: Seq<(Seq<char>, Json)>,
    i: int,
    out: Seq<(Seq<char>, Replacement)>,
)
    requires
        0 <= i <= cf.len(),
        spec_parse_components(cf, i) == Some(out),
        forall|q: int| 0 <= q < cf.len() ==> !repl_json_dated((#[trigger] cf[q]).1),
    ensures
        comps_date_free(out),
    decreases cf.len() - i,
{
    if i < cf.len() {
        match spec_parse_replacement(cf[i].1) {
            Some(rv) => {
                match spec_parse_components(cf, i + 1) {
                    Some(rest) => {
                        lemma_parse_components_date_free(cf, i + 1, rest);
                        assert(out =~= seq![(cf[i].0, rv)] + rest);
                        assert(value_date_free(rv));
                        assert forall|q: int| 0 <= q < out.len() implies value_date_free(
                            (#[trigger] out[q]).1,
                        ) by {
                            if q > 0 {
                                assert(out[q] == rest[q - 1]);
                            }
                        }
                    },
                    None => {},
                }
            },
            None => {},
        }
    } else {
        assert(out =~= Seq::<(Seq<char>, Replacement)>::empty());
    }
}

/// Parses the components object of a site into the output list.
#[verifier::loop_isolation(false)]
fn parse_components(cv: &JsonValue, out: &mut Vec<(String, ReplacementValue)>) -> (r: Result<
    (),
    String,
>)
    requires
        cv@.wf(),
        old(out)@.len() == 0,
    ensures
        r is Ok <==> (cv@ matches Json::Obj(cf) && spec_parse_components(cf, 0) is Some),
        r is Ok ==> (cv@ matches Json::Obj(cf) && Some(
            crate::configurable_string::comp_view(final(out)@),
        ) == spec_parse_components(cf, 0)),
{
    broadcast use crate::json::group_json_views, vstd::std_specs::vec::group_vec_axioms;

    let cfields = match cv {
        JsonValue::Obj(cfields) => cfields,
        _ => {
            return Err(bad_site_error());
        },
    };
    let ghost cfv = fields_view(cfields@);
    let n = cfields.len();
    let mut i: usize = 0;
    while i < n
        invariant
            i <= n,
            n == cfields@.len(),
            *cv == JsonValue::Obj(*cfields),
            cfv == fields_view(cfields@),
            cv@.wf(),
            out@.len() == i,
            spec_parse_components(cfv, 0) == (match spec_parse_components(cfv, i as int) {
                Some(rest) => Some(crate::configurable_string::comp_view(out@) + rest),
                None => None::<Seq<(Seq<char>, Replacement)>>,
            }),
        decreases n - i,
    {
        proof {
            crate::json::lemma_obj_elem_wf(cv@, cfv, i as int);
        }
        match parse_replacement(&cfields[i].1) {
            Ok(rv) => {
                out.push((cfields[i].0.clone(), rv));
                proof {
                    assert(crate::configurable_string::comp_view(out@) =~= crate::configurable_string::comp_view(
                        out@.drop_last(),
                    ).push((cfv[i as int].0, out@.last().1.repl())));
                    assert(spec_parse_components(cfv, 0) == (match spec_parse_components(
                        cfv,
                        i + 1,
                    ) {
                        Some(rest) => Some(crate::configurable_string::comp_view(out@) + rest),
                        None => None::<Seq<(Seq<char>, Replacement)>>,
                    })) by {
                        match spec_parse_components(cfv, i + 1) {
                            Some(rest) => {
                                assert(crate::configurable_string::comp_view(out@.drop_last())
                                    + (seq![(cfv[i as int].0, out@.last().1.repl())] + rest)
                                    =~= crate::configurable_string::comp_view(out@) + rest);
                            },
                            None => {},
                        }
                    }
                }
            },
            Err(e) => {
                return Err(e);
            },
        }
        i += 1;
    }
    proof {
        assert(spec_parse_components(cfv, n as int) == Some(Seq::<(Seq<char>, Replacement)>::empty()));
        match spec_parse_components(cfv, 0) {
            Some(all) => {
                assert(crate::configurable_string::comp_view(out@) + Seq::<
                    (Seq<char>, Replacement),
                >::empty() =~= crate::configurable_string::comp_view(out@));
            },
            None => {},
        }
    }
    Ok(())
}


/// The document with every site rendered in place, or `None` when any site
/// fails to render.
pub open spec fn spec_render_doc(
    j: Json,
    files: Seq<(Seq<char>, Seq<char>)>,
) -> Option<Json>
    decreases j, 0nat,
{
    match j {
        Json::Obj(fields) => {
            if is_site(fields) {
                match spec_render_site(fields, files) {
                    Some(s) => Some(Json::Str(s)),
                    None => None,
                }
            } else {
                proof {
                    assert(decreases_to!(j => fields));
                }
                match spec_render_fields(fields, files, 0) {
                    Some(nf) => Some(Json::Obj(nf)),
                    None => None,
                }
            }
        },
        Json::Arr(items) => {
            proof {
                assert(decreases_to!(j => items));
            }
            match spec_render_items(items, files, 0) {
                Some(ni) => Some(Json::Arr(ni)),
                None => None,
            }
        },
        _ => Some(j),
    }
}

pub open spec fn spec_render_fields(
    fields: Seq<(Seq<char>, Json)>,
    files: Seq<(Seq<char>, Seq<char>)>,
    i: int,
) -> Option<Seq<(Seq<char>, Json)>>
    decreases fields, fields.len() - i,
{
    if i < 0 || i >= fields.len() {
        Some(Seq::empty())
    } else {
        proof {
            assert(decreases_to!(fields => fields[i]));
            assert(decreases_to!(fields[i] => fields[i].1));
            assert(decreases_to!(fields => fields[i].1));
        }
        match spec_render_doc(fields[i].1, files) {
            Some(rv) => match spec_render_fields(fields, files, i + 1) {
                Some(rest) => Some(seq![(fields[i].0, rv)] + rest),
                None => None,
            },
            None => None,
        }
    }
}

pub open spec fn spec_render_items(
    items: Seq<Json>,
    files: Seq<(Seq<char>, Seq<char>)>,
    i: int,
) -> Option<Seq<Json>>
    decreases items, items.len() - i,
{
    if i < 0 || i >= items.len() {
        Some(Seq::empty())
    } else {
        proof {
            assert(decreases_to!(items => items[i]));
        }
        match spec_render_doc(items[i], files) {
            Some(rv) => match spec_render_items(items, files, i + 1) {
                Some(rest) => Some(seq![rv] + rest),
                None => None,
            },
            None => None,
        }
    }
}

/// Whether any site of the document invokes the `date` filter; such a
/// document's rendering can depend on the clock, so requests over it are
/// computed fresh and never memoized.
#[verifier::loop_isolation(false)]
pub fn doc_mentions_date(v: &JsonValue) -> (r: bool)
    requires
        v@.wf(),
    ensures
        r == spec_doc_mentions_date(v@),
    decreases v,
{
    broadcast use crate::json::group_json_views, vstd::std_specs::vec::group_vec_axioms;

    match v {
        JsonValue::Obj(fields) => {
            if site_check(fields) {
                return site_mentions_date(fields);
            }
            let ghost fv = fields_view(fields@);
            let n = fields.len();
            let mut i: usize = 0;
            while i < n
                invariant
                    i <= n,
                    n == fields@.len(),
                    v == JsonValue::Obj(*fields),
                    fv == fields_view(fields@),
                    v@.wf(),
                    !is_site(fv),
                    obj_mentions_date(fv, 0) == obj_mentions_date(fv, i as int),
                decreases n - i,
            {
                proof {
                    assert(decreases_to!(v => fields));
                    assert(decreases_to!(fields => fields@[i as int]));
                    assert(decreases_to!(fields@[i as int] => fields@[i as int].1));
                    assert(decreases_to!(v => fields@[i as int].1));
                    crate::json::lemma_obj_elem_wf(v@, fv, i as int);
                }
                if doc_mentions_date(&fields[i].1) {
                    return true;
                }
                i += 1;
            }
            false
        },
        JsonValue::Arr(items) => {
            let ghost itv = crate::json::arr_view(items@);
            let n = items.len();
            let mut i: usize = 0;
            while i < n
                invariant
                    i <= n,
                    n == items@.len(),
                    v == JsonValue::Arr(*items),
                    itv == crate::json::arr_view(items@),
                    v@.wf(),
                    arr_mentions_date(itv, 0) == arr_mentions_date(itv, i as int),
                decreases n - i,
            {
                proof {
                    assert(decreases_to!(v => items));
                    assert(decreases_to!(items => items@[i as int]));
                    assert(decreases_to!(v => items@[i as int]));
                    crate::json::lemma_arr_elem_wf(v@, itv, i as int);
                }
                if doc_mentions_date(&items[i]) {
                    return true;
                }
                i += 1;
            }
            false
        },
        _ => false,
    }
}

/// Renders every configurable-string site in the document, replacing each
/// site object with the string it renders to. Where no site invokes the
/// `date` filter, the result is exactly `spec_render_doc`; the rendered
/// document is well-formed in every case.
#[verifier::loop_isolation(false)]
#[verifier::rlimit(100)]
pub fn render_document(v: &JsonValue, files: &LoadedFiles) -> (r: Result<JsonValue, String>)
    requires
        v@.wf(),
    ensures
        !spec_doc_mentions_date(v@) ==> match r {
            Ok(out) => spec_render_doc(v@, files.view_table()) == Some(out@),
            Err(_) => spec_render_doc(v@, files.view_table()) is None,
        },
        r matches Ok(out) ==> out@.wf(),
    decreases v,
{
    broadcast use crate::json::group_json_views, vstd::std_specs::vec::group_vec_axioms;

    match v {
        JsonValue::Obj(fields) => {
            if site_check(fields) {
                match render_site(fields, files) {
                    Ok(s) => Ok(JsonValue::Str(s)),
                    Err(e) => Err(e),
                }
            } else {
                let ghost fv = fields_view(fields@);
                let n = fields.len();
                let mut out: Vec<(String, JsonValue)> = Vec::new();
                let mut i: usize = 0;
                while i < n
                    invariant
                        i <= n,
                        n == fields@.len(),
                        v == JsonValue::Obj(*fields),
                        fv == fields_view(fields@),
                        v@.wf(),
                        !is_site(fv),
                        out@.len() == i,
                        forall|q: int|
                            0 <= q < i ==> (#[trigger] fields_view(out@)[q]).0 == fv[q].0
                                && fields_view(out@)[q].1.wf(),
                        !spec_doc_mentions_date(v@) ==> forall|q: int|
                            0 <= q < i ==> Some(#[trigger] fields_view(out@)[q].1)
                                == spec_render_doc(fv[q].1, files.view_table()),
                    decreases n - i,
                {
                    proof {
                        assert(decreases_to!(v => fields));
                        assert(decreases_to!(fields => fields@[i as int]));
                        assert(decreases_to!(fields@[i as int] => fields@[i as int].1));
                        assert(decreases_to!(v => fields@[i as int].1));
                        crate::json::lemma_obj_elem_wf(v@, fv, i as int);
                    }
                    proof {
                        if !spec_doc_mentions_date(v@) {
                            lemma_obj_mentions_extract(fv, 0, i as int);
                        }
                    }
                    match render_document(&fields[i].1, files) {
                        Ok(rv) => {
                            let ghost prev = out@;
                            out.push((fields[i].0.clone(), rv));
                            proof {
                                assert(out@.len() == i + 1);
                                assert(fields_view(out@)[i as int].0 == fv[i as int].0);
                                if !spec_doc_mentions_date(v@) {
                                    assert(Some(fields_view(out@)[i as int].1) == spec_render_doc(
                                        fv[i as int].1,
                                        files.view_table(),
                                    ));
                                }
                                assert(forall|q: int|
                                    0 <= q < i ==> #[trigger] fields_view(out@)[q] == fields_view(
                                        prev,
                                    )[q]);
                            }
                        },
                        Err(e) => {
                            proof {
                                if !spec_doc_mentions_date(v@) {
                                    lemma_render_fields_fail(fv, files.view_table(), i as int);
                                }
                            }
                            return Err(e);
                        },
                    }
                    i += 1;
                }
                proof {
                    if !spec_doc_mentions_date(v@) {
                        lemma_render_fields_join(fv, files.view_table(), fields_view(out@));
                    }
                    assert forall|p: int, q: int|
                        0 <= p < q < fields_view(out@).len() implies crate::strings::str_lt(
                        (#[trigger] fields_view(out@)[p]).0,
                        (#[trigger] fields_view(out@)[q]).0,
                    ) by {
                        assert(fields_view(out@)[p].0 == fv[p].0);
                        assert(fields_view(out@)[q].0 == fv[q].0);
                    }
                }
                Ok(JsonValue::Obj(out))
            }
        },
        JsonValue::Arr(items) => {
            let ghost itv = crate::json::arr_view(items@);
            let n = items.len();
            let mut out: Vec<JsonValue> = Vec::new();
            let mut i: usize = 0;
            while i < n
                invariant
                    i <= n,
                    n == items@.len(),
                    v == JsonValue::Arr(*items),
                    itv == crate::json::arr_view(items@),
                    v@.wf(),
                    out@.len() == i,
                    forall|q: int|
                        0 <= q < i ==> (#[trigger] crate::json::arr_view(out@)[q]).wf(),
                    !spec_doc_mentions_date(v@) ==> forall|q: int|
                        0 <= q < i ==> Some(#[trigger] crate::json::arr_view(out@)[q])
                            == spec_render_doc(itv[q], files.view_table()),
                decreases n - i,
            {
                proof {
                    assert(decreases_to!(v => items));
                    assert(decreases_to!(items => items@[i as int]));
                    assert(decreases_to!(v => items@[i as int]));
                    crate::json::lemma_arr_elem_wf(v@, itv, i as int);
                }
                proof {
                    if !spec_doc_mentions_date(v@) {
                        lemma_arr_mentions_extract(itv, 0, i as int);
                    }
                }
                match render_document(&items[i], files) {
                    Ok(rv) => {
                        let ghost prev = out@;
                        out.push(rv);
                        proof {
                            assert(out@.len() == i + 1);
                            if !spec_doc_mentions_date(v@) {
                                assert(Some(crate::json::arr_view(out@)[i as int])
                                    == spec_render_doc(itv[i as int], files.view_table()));
                            }
                            assert(forall|q: int|
                                0 <= q < i ==> #[trigger] crate::json::arr_view(out@)[q]
                                    == crate::json::arr_view(prev)[q]);
                        }
                    },
                    Err(e) => {
                        proof {
                            if !spec_doc_mentions_date(v@) {
                                lemma_render_items_fail(itv, files.view_table(), i as int);
                            }
                        }
                        return Err(e);
                    },
                }
                i += 1;
            }
            proof {
                if !spec_doc_mentions_date(v@) {
                    lemma_render_items_join(itv, files.view_table(), crate::json::arr_view(out@));
                }
                crate::json::lemma_arr_elems_wf_intro(crate::json::arr_view(out@), 0);
            }
            Ok(JsonValue::Arr(out))
        },
        _ => Ok(v.clone()),
    }
}

/// If each position up to the end rendered, the whole field list renders to
/// exactly those parts.
proof fn lemma_render_fields_join(
    fields: Seq<(Seq<char>, Json)>,
    files: Seq<(Seq<char>, Seq<char>)>,
    out: Seq<(Seq<char>, Json)>,
)
    requires
        out.len() == fields.len(),
        forall|q: int|
            0 <= q < fields.len() ==> (#[trigger] out[q]).0 == fields[q].0 && Some(out[q].1)
                == spec_render_doc(fields[q].1, files),
    ensures
        spec_render_fields(fields, files, 0) == Some(out),
{
    lemma_render_fields_join_from(fields, files, out, 0);
}

proof fn lemma_render_fields_join_from(
    fields: Seq<(Seq<char>, Json)>,
    files: Seq<(Seq<char>, Seq<char>)>,
    out: Seq<(Seq<char>, Json)>,
    i: int,
)
    requires
        out.len() == fields.len(),
        0 <= i <= fields.len(),
        forall|q: int|
            0 <= q < fields.len() ==> (#[trigger] out[q]).0 == fields[q].0 && Some(out[q].1)
                == spec_render_doc(fields[q].1, files),
    ensures
        spec_render_fields(fields, files, i) == Some(out.skip(i)),
    decreases fields.len() - i,
{
    if i == fields.len() {
        assert(out.skip(i) =~= Seq::<(Seq<char>, Json)>::empty());
    } else {
        lemma_render_fields_join_from(fields, files, out, i + 1);
        assert(seq![(fields[i].0, out[i].1)] + out.skip(i + 1) =~= out.skip(i));
    }
}

proof fn lemma_render_fields_fail(
    fields: Seq<(Seq<char>, Json)>,
    files: Seq<(Seq<char>, Seq<char>)>,
    i: int,
)
    requires
        0 <= i < fields.len(),
        spec_render_doc(fields[i].1, files) is None,
    ensures
        spec_render_fields(fields, files, 0) is None,
{
    lemma_render_fields_fail_from(fields, files, i, 0);
}

proof fn lemma_render_fields_fail_from(
    fields: Seq<(Seq<char>, Json)>,
    files: Seq<(Seq<char>, Seq<char>)>,
    i: int,
    j: int,
)
    requires
        0 <= j <= i < fields.len(),
        spec_render_doc(fields[i].1, files) is None,
    ensures
        spec_render_fields(fields, files, j) is None,
    decreases i - j,
{
    if j < i {
        lemma_render_fields_fail_from(fields, files, i, j + 1);
    }
}

proof fn lemma_render_items_join(
    items: Seq<Json>,
    files: Seq<(Seq<char>, Seq<char>)>,
    out: Seq<Json>,
)
    requires
        out.len() == items.len(),
        forall|q: int|
            0 <= q < items.len() ==> Some(#[trigger] out[q]) == spec_render_doc(items[q], files),
    ensures
        spec_render_items(items, files, 0) == Some(out),
{
    lemma_render_items_join_from(items, files, out, 0);
}

proof fn lemma_render_items_join_from(
    items: Seq<Json>,
    files: Seq<(Seq<char>, Seq<char>)>,
    out: Seq<Json>,
    i: int,
)
    requires
        out.len() == items.len(),
        0 <= i <= items.len(),
        forall|q: int|
            0 <= q < items.len() ==> Some(#[trigger] out[q]) == spec_render_doc(items[q], files),
    ensures
        spec_render_items(items, files, i) == Some(out.skip(i)),
    decreases items.len() - i,
{
    if i == items.len() {
        assert(out.skip(i) =~= Seq::<Json>::empty());
    } else {
        lemma_render_items_join_from(items, files, out, i + 1);
        assert(seq![out[i]] + out.skip(i + 1) =~= out.skip(i));
    }
}

proof fn lemma_render_items_fail(
    items: Seq<Json>,
    files: Seq<(Seq<char>, Seq<char>)>,
    i: int,
)
    requires
        0 <= i < items.len(),
        spec_render_doc(items[i], files) is None,
    ensures
        spec_render_items(items, files, 0) is None,
{
    lemma_render_items_fail_from(items, files, i, 0);
}

proof fn lemma_render_items_fail_from(
    items: Seq<Json>,
    files: Seq<(Seq<char>, Seq<char>)>,
    i: int,
    j: int,
)
    requires
        0 <= j <= i < items.len(),
        spec_render_doc(items[i], files) is None,
    ensures
        spec_render_items(items, files, j) is None,
    decreases i - j,
{
    if j < i {
        lemma_render_items_fail_from(items, files, i, j + 1);
    }
}

fn bad_site_error() -> (r: String)
    ensures
        r@ == ("A configurable string must have a root that is a string, a liquid template, or a file reference.")@,
{
    ("A configurable string must have a root that is a string, a liquid template, or a file reference.").to_owned()
}

} // verus!
