//! The shape of a feature file, and the parser from a parsed document to a
//! feature record: metadata, imports, conditions and options.

use vstd::prelude::*;

use crate::conditions::{
    regex_valid, Condition, ConditionExpression, Predicate, RegexWrapper,
};
use crate::json::{obj_get, Json, JsonValue};
use crate::merge::{lemma_obj_get_is_element, lemma_obj_get_wf};
use crate::metadata::OptionsMetadata;
use vstd::string::StringExecFns;

verus! {

/// One feature: a named fragment of options contributed by a single file.
pub struct Feature {
    /// The file path relative to its root, extension removed.
    pub canonical_name: String,
    pub metadata: OptionsMetadata,
    /// Canonical names layered underneath this feature's options.
    pub imports: Vec<String>,
    /// Gates the feature's inclusion in a request; absent means the feature
    /// always applies.
    pub conditions: Option<ConditionExpression>,
    /// The JSON fragment this feature contributes.
    pub options: JsonValue,
}

impl Feature {
    pub open spec fn wf(self) -> bool {
        &&& match self.conditions {
            Some(c) => c.wf(),
            None => true,
        }
        &&& self.options@.wf()
    }
}

/// Whether a document fits the condition grammar: a tagged object that is
/// one of `and` / `or` / `not`, or a `jsonPointer` with exactly one of
/// `equals` / `matches` (whose pattern the regex engine accepts).
pub open spec fn cond_parseable(j: Json) -> bool
    decreases j, 0nat,
{
    match j {
        Json::Obj(f) => {
            if obj_get(f, ("jsonPointer")@) is Some {
                &&& obj_get(f, ("jsonPointer")@)->0 is Str
                &&& if obj_get(f, ("equals")@) is Some {
                    true
                } else {
                    match obj_get(f, ("matches")@) {
                        Some(Json::Str(p)) => regex_valid(p),
                        _ => false,
                    }
                }
            } else if obj_get(f, ("and")@) is Some {
                match obj_get(f, ("and")@)->0 {
                    Json::Arr(items) => {
                        proof {
                            lemma_to_obj_child(j, f, ("and")@);
                        }
                        conds_parseable(items, 0)
                    },
                    _ => false,
                }
            } else if obj_get(f, ("or")@) is Some {
                match obj_get(f, ("or")@)->0 {
                    Json::Arr(items) => {
                        proof {
                            lemma_to_obj_child(j, f, ("or")@);
                        }
                        conds_parseable(items, 0)
                    },
                    _ => false,
                }
            } else if obj_get(f, ("not")@) is Some {
                proof {
                    lemma_to_obj_value(j, f, ("not")@);
                }
                cond_parseable(obj_get(f, ("not")@)->0)
            } else {
                false
            }
        },
        _ => false,
    }
}

/// All documents from position `i` onward fit the condition grammar.
pub open spec fn conds_parseable(items: Seq<Json>, i: int) -> bool
    decreases items, items.len() - i,
{
    if i < 0 || i >= items.len() {
        true
    } else {
        proof {
            assert(decreases_to!(items => items[i]));
        }
        cond_parseable(items[i]) && conds_parseable(items, i + 1)
    }
}

/// For termination: the array behind a bound key sits inside the object.
pub proof fn lemma_to_obj_child(j: Json, f: Seq<(Seq<char>, Json)>, k: Seq<char>)
    requires
        j == Json::Obj(f),
        obj_get(f, k) is Some,
        obj_get(f, k)->0 is Arr,
    ensures
        decreases_to!(j => obj_get(f, k)->0.arr_items()),
{
    lemma_obj_get_is_element(f, k);
    let idx = choose|idx: int|
        0 <= idx < f.len() && (#[trigger] f[idx]).0 == k && obj_get(f, k) == Some(f[idx].1);
    match j {
        Json::Obj(ff) => {
            assert(ff == f);
            assert(decreases_to!(j => ff));
        },
        _ => {
            assert(false);
        },
    }
    assert(decreases_to!(f => f[idx]));
    assert(decreases_to!(f[idx] => f[idx].1));
    match f[idx].1 {
        Json::Arr(aa) => {
            assert(decreases_to!(f[idx].1 => aa));
            assert(aa == obj_get(f, k)->0.arr_items());
        },
        _ => {
            assert(false);
        },
    }
}

/// For termination: the value behind a bound key sits inside the object.
pub proof fn lemma_to_obj_value(j: Json, f: Seq<(Seq<char>, Json)>, k: Seq<char>)
    requires
        j == Json::Obj(f),
        obj_get(f, k) is Some,
    ensures
        decreases_to!(j => obj_get(f, k)->0),
{
    lemma_obj_get_is_element(f, k);
    let idx = choose|idx: int|
        0 <= idx < f.len() && (#[trigger] f[idx]).0 == k && obj_get(f, k) == Some(f[idx].1);
    match j {
        Json::Obj(ff) => {
            assert(ff == f);
            assert(decreases_to!(j => ff));
        },
        _ => {
            assert(false);
        },
    }
    assert(decreases_to!(f => f[idx]));
    assert(decreases_to!(f[idx] => f[idx].1));
}

/// `e` is a faithful reading of the condition document `j`.
pub open spec fn cond_represents(e: ConditionExpression, j: Json) -> bool
    decreases j, 0nat,
{
    match j {
        Json::Obj(f) => {
            if obj_get(f, ("jsonPointer")@) is Some {
                match e {
                    ConditionExpression::Condition(c) => {
                        &&& Some(Json::Str(c.json_pointer@)) == obj_get(f, ("jsonPointer")@)
                        &&& if obj_get(f, ("equals")@) is Some {
                            c.operator_value matches Predicate::Equals { equals } && Some(equals@)
                                == obj_get(f, ("equals")@)
                        } else {
                            c.operator_value matches Predicate::Matches { matches } && Some(
                                Json::Str(matches.spec_pattern()),
                            ) == obj_get(f, ("matches")@)
                        }
                    },
                    _ => false,
                }
            } else if obj_get(f, ("and")@) is Some {
                match obj_get(f, ("and")@)->0 {
                    Json::Arr(items) => {
                        proof {
                            lemma_to_obj_child(j, f, ("and")@);
                        }
                        match e {
                            ConditionExpression::And { and } => and@.len() == items.len()
                                && conds_represent(and@, items, 0),
                            _ => false,
                        }
                    },
                    _ => false,
                }
            } else if obj_get(f, ("or")@) is Some {
                match obj_get(f, ("or")@)->0 {
                    Json::Arr(items) => {
                        proof {
                            lemma_to_obj_child(j, f, ("or")@);
                        }
                        match e {
                            ConditionExpression::Or { or } => or@.len() == items.len()
                                && conds_represent(or@, items, 0),
                            _ => false,
                        }
                    },
                    _ => false,
                }
            } else if obj_get(f, ("not")@) is Some {
                proof {
                    lemma_to_obj_value(j, f, ("not")@);
                }
                match e {
                    ConditionExpression::Not { not } => cond_represents(
                        *not,
                        obj_get(f, ("not")@)->0,
                    ),
                    _ => false,
                }
            } else {
                false
            }
        },
        _ => false,
    }
}

/// The expressions from position `i` onward each read their document.
pub open spec fn conds_represent(
    list: Seq<ConditionExpression>,
    items: Seq<Json>,
    i: int,
) -> bool
    decreases items, items.len() - i,
{
    if i < 0 || i >= items.len() {
        true
    } else {
        proof {
            assert(decreases_to!(items => items[i]));
        }
        (i < list.len() && cond_represents(list[i], items[i])) && conds_represent(
            list,
            items,
            i + 1,
        )
    }
}

/// Parses a condition document into an expression. The result is rejected
/// exactly when the document does not fit the grammar (an invalid regex
/// pattern included).
#[verifier::loop_isolation(false)]
#[verifier::rlimit(60)]
pub fn parse_condition_expression(v: &JsonValue) -> (r: Result<ConditionExpression, String>)
    requires
        v@.wf(),
    ensures
        r is Ok <==> cond_parseable(v@),
        r matches Ok(e) ==> cond_represents(e, v@) && e.wf(),
    decreases v, 1nat,
{
    broadcast use crate::json::group_json_views, vstd::std_specs::vec::group_vec_axioms;

    let fields = match v {
        JsonValue::Obj(fields) => fields,
        _ => {
            return Err(invalid_condition_error());
        },
    };
    let ghost fv = crate::json::fields_view(fields@);
    if let Some(jp) = crate::json::fields_get(fields, "jsonPointer") {
        let jp_str = match jp {
            JsonValue::Str(s) => s,
            _ => {
                return Err(invalid_condition_error());
            },
        };
        if let Some(eq) = crate::json::fields_get(fields, "equals") {
            proof {
                lemma_obj_get_wf(fv, ("equals")@);
            }
            return Ok(
                ConditionExpression::Condition(
                    Condition {
                        json_pointer: jp_str.clone(),
                        operator_value: Predicate::Equals { equals: eq.clone() },
                    },
                ),
            );
        }
        if let Some(m) = crate::json::fields_get(fields, "matches") {
            let pattern = match m {
                JsonValue::Str(p) => p,
                _ => {
                    return Err(invalid_condition_error());
                },
            };
            match RegexWrapper::new(pattern.clone()) {
                Ok(w) => {
                    return Ok(
                        ConditionExpression::Condition(
                            Condition {
                                json_pointer: jp_str.clone(),
                                operator_value: Predicate::Matches { matches: w },
                            },
                        ),
                    );
                },
                Err(p) => {
                    let mut msg = String::from_str("Invalid regex pattern: ");
                    crate::strings::push_str(&mut msg, p.as_str());
                    return Err(msg);
                },
            }
        }
        return Err(invalid_condition_error());
    }
    if let Some(list_val) = crate::json::fields_get(fields, "and") {
        proof {
            lemma_obj_get_wf(fv, ("and")@);
        }
        match parse_condition_list(v, list_val) {
            Ok(list) => {
                return Ok(ConditionExpression::And { and: list });
            },
            Err(e) => {
                return Err(e);
            },
        }
    }
    if let Some(list_val) = crate::json::fields_get(fields, "or") {
        proof {
            lemma_obj_get_wf(fv, ("or")@);
        }
        match parse_condition_list(v, list_val) {
            Ok(list) => {
                return Ok(ConditionExpression::Or { or: list });
            },
            Err(e) => {
                return Err(e);
            },
        }
    }
    if let Some(inner) = crate::json::fields_get(fields, "not") {
        proof {
            lemma_obj_get_wf(fv, ("not")@);
            lemma_to_obj_value(v@, fv, ("not")@);
            lemma_inner_value(v, fields, inner, ("not")@);
        }
        match parse_condition_expression(inner) {
            Ok(e) => {
                return Ok(ConditionExpression::Not { not: Box::new(e) });
            },
            Err(e) => {
                return Err(e);
            },
        }
    }
    Err(invalid_condition_error())
}

/// For termination of the exec parser: a value read out of an object's
/// fields is, as a value, one of the stored field values.
proof fn lemma_inner_value(
    v: &JsonValue,
    fields: &Vec<(String, JsonValue)>,
    inner: &JsonValue,
    k: Seq<char>,
)
    requires
        *v == JsonValue::Obj(*fields),
        is_field_value_of(*v, *inner),
    ensures
        decreases_to!(*v => *inner),
{
    broadcast use vstd::std_specs::vec::group_vec_axioms;

    let j = choose|j: int| 0 <= j < fields@.len() && *inner == (#[trigger] fields@[j]).1;
    assert(fields@[j].1 == *inner);
    assert(decreases_to!(*v => *fields));
    assert(decreases_to!(*fields => fields@[j]));
    assert(decreases_to!(fields@[j] => fields@[j].1));
}

/// `v` is, as a value, one of `parent`'s field values.
pub open spec fn is_field_value_of(parent: JsonValue, v: JsonValue) -> bool {
    match parent {
        JsonValue::Obj(fields) => exists|j: int|
            0 <= j < fields@.len() && v == (#[trigger] fields@[j]).1,
        _ => false,
    }
}

/// Parses the members of an `and` / `or` array.
#[verifier::loop_isolation(false)]
fn parse_condition_list(parent: &JsonValue, list_val: &JsonValue) -> (r: Result<
    Vec<ConditionExpression>,
    String,
>)
    requires
        list_val@.wf(),
        is_field_value_of(*parent, *list_val),
    ensures
        r is Ok <==> (list_val@ matches Json::Arr(items) && conds_parseable(items, 0)),
        r matches Ok(list) ==> list_val@ matches Json::Arr(items) && list@.len() == items.len()
            && conds_represent(list@, items, 0) && crate::conditions::exprs_wf(list@, 0),
    decreases parent, 0nat,
{
    broadcast use crate::json::group_json_views, vstd::std_specs::vec::group_vec_axioms;

    let items = match list_val {
        JsonValue::Arr(items) => items,
        _ => {
            return Err(invalid_condition_error());
        },
    };
    let ghost itv = crate::json::arr_view(items@);
    let n = items.len();
    let mut out: Vec<ConditionExpression> = Vec::new();
    let mut i: usize = 0;
    loop
        invariant
            i <= n,
            n == items@.len(),
            is_field_value_of(*parent, *list_val),
            *list_val == JsonValue::Arr(*items),
            itv == crate::json::arr_view(items@),
            list_val@.wf(),
            out@.len() == i,
            conds_parseable(itv, 0) == conds_parseable(itv, i as int),
            forall|j: int|
                0 <= j < i ==> cond_represents(#[trigger] out@[j], itv[j]) && out@[j].wf(),
        decreases n - i,
    {
        if i == n {
            proof {
                lemma_conds_represent_intro(out@, itv, 0);
                lemma_exprs_wf_intro(out@, 0);
            }
            return Ok(out);
        }
        proof {
            match parent {
                JsonValue::Obj(pfe) => {
                    let j = choose|j: int|
                        0 <= j < pfe@.len() && *list_val == (#[trigger] pfe@[j]).1;
                    assert(decreases_to!(*parent => *pfe));
                    assert(decreases_to!(*pfe => pfe@[j]));
                    assert(decreases_to!(pfe@[j] => pfe@[j].1));
                },
                _ => {
                    assert(false);
                },
            }
            assert(decreases_to!(*list_val => *items));
            assert(decreases_to!(*items => items@[i as int]));
            assert(decreases_to!(*parent => items@[i as int]));
            assert(list_val@ == Json::Arr(itv));
            crate::json::lemma_arr_elem_wf(list_val@, itv, i as int);
        }
        match parse_condition_expression(&items[i]) {
            Ok(e) => {
                out.push(e);
            },
            Err(msg) => {
                return Err(msg);
            },
        }
        i += 1;
    }
}

/// Per-position representation facts fold into `conds_represent`.
proof fn lemma_conds_represent_intro(
    list: Seq<ConditionExpression>,
    items: Seq<Json>,
    i: int,
)
    requires
        0 <= i <= items.len(),
        list.len() == items.len(),
        forall|j: int| i <= j < items.len() ==> cond_represents(#[trigger] list[j], items[j]),
    ensures
        conds_represent(list, items, i),
    decreases items.len() - i,
{
    if i < items.len() {
        lemma_conds_represent_intro(list, items, i + 1);
    }
}

/// Per-position well-formedness folds into `exprs_wf`.
proof fn lemma_exprs_wf_intro(list: Seq<ConditionExpression>, i: int)
    requires
        0 <= i <= list.len(),
        forall|j: int| i <= j < list.len() ==> (#[trigger] list[j]).wf(),
    ensures
        crate::conditions::exprs_wf(list, i),
    decreases list.len() - i,
{
    if i < list.len() {
        lemma_exprs_wf_intro(list, i + 1);
    }
}


/// Every document in the list is a string.
pub open spec fn all_strings(items: Seq<Json>) -> bool {
    forall|i: int| 0 <= i < items.len() ==> (#[trigger] items[i]) is Str
}

/// `list` reads the strings of `items`, one for one.
pub open spec fn strings_represent(list: Seq<String>, items: Seq<Json>) -> bool {
    &&& list.len() == items.len()
    &&& forall|i: int|
        0 <= i < items.len() ==> ((#[trigger] items[i]) matches Json::Str(s) && list[i]@ == s)
}

/// Whether a metadata document fits the schema: an object whose `aliases`
/// is a string array and whose `owners` is a string, each optional.
pub open spec fn metadata_parseable(m: Json) -> bool {
    &&& m is Obj
    &&& match obj_get(m.obj_fields(), ("aliases")@) {
        None => true,
        Some(v) => v matches Json::Arr(items) && all_strings(items),
    }
    &&& match obj_get(m.obj_fields(), ("owners")@) {
        None => true,
        Some(v) => v is Str,
    }
}

/// Whether a whole feature document fits the schema.
pub open spec fn feature_doc_parseable(j: Json) -> bool {
    &&& j is Obj
    &&& match obj_get(j.obj_fields(), ("imports")@) {
        None => true,
        Some(v) => v matches Json::Arr(items) && all_strings(items),
    }
    &&& match obj_get(j.obj_fields(), ("conditions")@) {
        None => true,
        Some(c) => cond_parseable(c),
    }
    &&& match obj_get(j.obj_fields(), ("metadata")@) {
        None => true,
        Some(m) => metadata_parseable(m),
    }
}

/// The options fragment of a feature document: its `options` value, or the
/// empty object when absent.
pub open spec fn spec_feature_options(j: Json) -> Json {
    match obj_get(j.obj_fields(), ("options")@) {
        Some(o) => o,
        None => Json::Obj(Seq::empty()),
    }
}

/// Reads a string array; anything else is rejected.
#[verifier::loop_isolation(false)]
fn parse_string_array(v: &JsonValue) -> (r: Result<Vec<String>, String>)
    ensures
        r is Ok <==> (v@ matches Json::Arr(items) && all_strings(items)),
        r matches Ok(list) ==> v@ matches Json::Arr(items) && strings_represent(list@, items),
{
    broadcast use crate::json::group_json_views, vstd::std_specs::vec::group_vec_axioms;

    let items = match v {
        JsonValue::Arr(items) => items,
        _ => {
            return Err(String::from_str("Expected an array of strings."));
        },
    };
    let ghost itv = crate::json::arr_view(items@);
    let n = items.len();
    let mut out: Vec<String> = Vec::new();
    let mut i: usize = 0;
    while i < n
        invariant
            i <= n,
            n == items@.len(),
            *v == JsonValue::Arr(*items),
            itv == crate::json::arr_view(items@),
            out@.len() == i,
            forall|j: int|
                0 <= j < i ==> ((#[trigger] itv[j]) matches Json::Str(sj) && out@[j]@ == sj),
        decreases n - i,
    {
        match &items[i] {
            JsonValue::Str(sv) => {
                out.push(sv.clone());
            },
            _ => {
                proof {
                    assert(!(itv[i as int] is Str));
                }
                return Err(String::from_str("Expected an array of strings."));
            },
        }
        i += 1;
    }
    Ok(out)
}

/// `f` is a faithful reading of the feature document `j`, under the given
/// canonical name and file path.
pub open spec fn feature_represents(
    f: Feature,
    canonical_name: Seq<char>,
    path: Seq<char>,
    j: Json,
) -> bool {
    &&& f.canonical_name@ == canonical_name
    &&& f.metadata.name matches Some(n) && n@ == canonical_name
    &&& f.metadata.path matches Some(p) && p@ == path
    &&& match obj_get(j.obj_fields(), ("imports")@) {
        None => f.imports@.len() == 0,
        Some(v) => v matches Json::Arr(items) && strings_represent(f.imports@, items),
    }
    &&& match obj_get(j.obj_fields(), ("conditions")@) {
        None => f.conditions is None,
        Some(c) => f.conditions matches Some(e) && cond_represents(e, c) && e.wf(),
    }
    &&& f.options@ == spec_feature_options(j)
    &&& match obj_get(j.obj_fields(), ("metadata")@) {
        None => f.metadata.aliases is None && f.metadata.owners is None && f.metadata.details
            is None,
        Some(m) => {
            &&& match obj_get(m.obj_fields(), ("aliases")@) {
                None => f.metadata.aliases is None,
                Some(v) => v matches Json::Arr(items) && f.metadata.aliases matches Some(a)
                    && strings_represent(a@, items),
            }
            &&& match obj_get(m.obj_fields(), ("owners")@) {
                None => f.metadata.owners is None,
                Some(v) => v matches Json::Str(os) && f.metadata.owners matches Some(o) && o@
                    == os
            }
            &&& match obj_get(m.obj_fields(), ("details")@) {
                None => f.metadata.details is None,
                Some(v) => f.metadata.details matches Some(d) && d@ == v,
            }
        },
    }
    &&& f.wf()
}

/// Reads a feature document into a feature record. The canonical name and
/// file path always come from the loader, never from the file.
#[verifier::rlimit(100)]
pub fn parse_feature(canonical_name: &str, path: &str, doc: &JsonValue) -> (r: Result<
    Feature,
    String,
>)
    requires
        doc@.wf(),
    ensures
        r is Ok <==> feature_doc_parseable(doc@),
        r matches Ok(f) ==> feature_represents(f, canonical_name@, path@, doc@),
{
    broadcast use crate::json::group_json_views, vstd::std_specs::vec::group_vec_axioms;

    let fields = match doc {
        JsonValue::Obj(fields) => fields,
        _ => {
            return Err(String::from_str("A feature configuration must be an object."));
        },
    };
    let ghost fv = crate::json::fields_view(fields@);

    let imports: Vec<String> = match crate::json::fields_get(fields, "imports") {
        Some(v) => match parse_string_array(v) {
            Ok(list) => list,
            Err(e) => {
                return Err(e);
            },
        },
        None => Vec::new(),
    };

    let conditions: Option<ConditionExpression> = match crate::json::fields_get(
        fields,
        "conditions",
    ) {
        Some(c) => {
            proof {
                lemma_obj_get_wf(fv, ("conditions")@);
            }
            match parse_condition_expression(c) {
                Ok(e) => Some(e),
                Err(e) => {
                    return Err(e);
                },
            }
        },
        None => None,
    };

    let options: JsonValue = match crate::json::fields_get(fields, "options") {
        Some(o) => {
            proof {
                lemma_obj_get_wf(fv, ("options")@);
            }
            o.clone()
        },
        None => JsonValue::Obj(Vec::new()),
    };

    let mut aliases: Option<Vec<String>> = None;
    let mut owners: Option<String> = None;
    let mut details: Option<JsonValue> = None;
    match crate::json::fields_get(fields, "metadata") {
        Some(m) => {
            proof {
                lemma_obj_get_wf(fv, ("metadata")@);
            }
            let mfields = match m {
                JsonValue::Obj(mfields) => mfields,
                _ => {
                    return Err(String::from_str("The feature metadata must be an object."));
                },
            };
            let ghost mfv = crate::json::fields_view(mfields@);
            match crate::json::fields_get(mfields, "aliases") {
                Some(v) => match parse_string_array(v) {
                    Ok(list) => {
                        aliases = Some(list);
                    },
                    Err(e) => {
                        return Err(e);
                    },
                },
                None => {},
            }
            match crate::json::fields_get(mfields, "owners") {
                Some(v) => match v {
                    JsonValue::Str(o) => {
                        owners = Some(o.clone());
                    },
                    _ => {
                        return Err(String::from_str("The feature owners must be a string."));
                    },
                },
                None => {},
            }
            match crate::json::fields_get(mfields, "details") {
                Some(v) => {
                    details = Some(v.clone());
                },
                None => {},
            }
        },
        None => {},
    }

    Ok(
        Feature {
            canonical_name: canonical_name.to_owned(),
            metadata: OptionsMetadata {
                aliases,
                dependents: None,
                details,
                name: Some(canonical_name.to_owned()),
                owners,
                path: Some(path.to_owned()),
            },
            imports,
            conditions,
            options,
        },
    )
}


/// The string content of a document, where it is a string.
pub open spec fn str_of(j: Json) -> Seq<char> {
    match j {
        Json::Str(s) => s,
        _ => Seq::empty(),
    }
}

/// The alias names a feature document declares, in order.
pub open spec fn doc_alias_names(j: Json) -> Seq<Seq<char>> {
    match obj_get(j.obj_fields(), ("metadata")@) {
        Some(m) => match obj_get(m.obj_fields(), ("aliases")@) {
            Some(v) => match v {
                Json::Arr(items) => Seq::new(items.len(), |i: int| str_of(items[i])),
                _ => Seq::empty(),
            },
            None => Seq::empty(),
        },
        None => Seq::empty(),
    }
}

fn invalid_condition_error() -> (r: String)
    ensures
        r@ == ("A condition must be an object with one of: and, or, not, or jsonPointer with equals or matches.")@,
{
    String::from_str(
        "A condition must be an object with one of: and, or, not, or jsonPointer with equals or matches.",
    )
}

} // verus!
