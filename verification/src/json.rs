//! The JSON data model.
//!
//! `JsonValue` is the executable representation; its mathematical model is
//! `Json`. Numbers carry their canonical decimal token so that equality and
//! serialization need no floating point. Objects hold their fields sorted
//! strictly by key (code-point order), so a well-formed value is a canonical
//! form: two well-formed values are JSON-equal exactly when their models are
//! equal.

use vstd::prelude::*;

use crate::strings::{str_eq, str_less, str_lt};

verus! {

/// The mathematical model of a JSON document.
pub enum Json {
    Null,
    Bool(bool),
    Num(Seq<char>),
    Str(Seq<char>),
    Arr(Seq<Json>),
    Obj(Seq<(Seq<char>, Json)>),
}

/// A JSON document: the unit that features contribute and requests receive.
#[derive(Debug)]
pub enum JsonValue {
    Null,
    Bool(bool),
    /// A number, as its canonical decimal token (for example `30` or `95.5`).
    Num(String),
    Str(String),
    Arr(Vec<JsonValue>),
    Obj(Vec<(String, JsonValue)>),
}

impl JsonValue {
    pub open spec fn model(self) -> Json
        decreases self,
    {
        match self {
            JsonValue::Null => Json::Null,
            JsonValue::Bool(b) => Json::Bool(b),
            JsonValue::Num(s) => Json::Num(s@),
            JsonValue::Str(s) => Json::Str(s@),
            JsonValue::Arr(items) => {
                proof {
                    assert(decreases_to!(self => items));
                    assert(decreases_to!(items => items@));
                }
                Json::Arr(arr_view(items@))
            },
            JsonValue::Obj(fields) => {
                proof {
                    assert(decreases_to!(self => fields));
                    assert(decreases_to!(fields => fields@));
                }
                Json::Obj(fields_view(fields@))
            },
        }
    }
}

/// The models of a sequence of array elements.
pub open spec fn arr_view(items: Seq<JsonValue>) -> Seq<Json>
    decreases items,
{
    if items.len() == 0 {
        Seq::empty()
    } else {
        proof {
            assert(decreases_to!(items => items.drop_first()));
        }
        seq![items[0].model()] + arr_view(items.drop_first())
    }
}

/// The models of a sequence of object fields.
pub open spec fn fields_view(fields: Seq<(String, JsonValue)>) -> Seq<(Seq<char>, Json)>
    decreases fields,
{
    if fields.len() == 0 {
        Seq::empty()
    } else {
        proof {
            assert(decreases_to!(fields => fields[0]));
            assert(decreases_to!(fields[0] => fields[0].1));
            assert(decreases_to!(fields => fields.drop_first()));
        }
        seq![(fields[0].0@, fields[0].1.model())] + fields_view(fields.drop_first())
    }
}

pub broadcast proof fn lemma_arr_view_len(items: Seq<JsonValue>)
    ensures
        (#[trigger] arr_view(items)).len() == items.len(),
    decreases items.len(),
{
    if items.len() > 0 {
        lemma_arr_view_len(items.drop_first());
    }
}

pub broadcast proof fn lemma_arr_view_index(items: Seq<JsonValue>, i: int)
    requires
        0 <= i < items.len(),
    ensures
        #[trigger] arr_view(items)[i] == items[i].model(),
    decreases items.len(),
{
    lemma_arr_view_len(items);
    if i > 0 {
        lemma_arr_view_index(items.drop_first(), i - 1);
    }
}

pub broadcast proof fn lemma_fields_view_len(fields: Seq<(String, JsonValue)>)
    ensures
        (#[trigger] fields_view(fields)).len() == fields.len(),
    decreases fields.len(),
{
    if fields.len() > 0 {
        lemma_fields_view_len(fields.drop_first());
    }
}

pub broadcast proof fn lemma_fields_view_index(fields: Seq<(String, JsonValue)>, i: int)
    requires
        0 <= i < fields.len(),
    ensures
        #[trigger] fields_view(fields)[i] == (fields[i].0@, fields[i].1.model()),
    decreases fields.len(),
{
    lemma_fields_view_len(fields);
    if i > 0 {
        lemma_fields_view_index(fields.drop_first(), i - 1);
    }
}

pub broadcast group group_json_views {
    lemma_arr_view_len,
    lemma_arr_view_index,
    lemma_fields_view_len,
    lemma_fields_view_index,
}

impl View for JsonValue {
    type V = Json;

    open spec fn view(&self) -> Json {
        self.model()
    }
}

impl Json {
    /// Well-formed: every object holds its fields strictly sorted by key.
    pub open spec fn wf(self) -> bool
        decreases self, 0nat,
    {
        match self {
            Json::Arr(items) => {
                proof {
                    assert(decreases_to!(self => items));
                }
                arr_elems_wf(items, 0)
            },
            Json::Obj(fields) => {
                &&& forall|i: int|
                    0 <= i < fields.len() ==> (#[trigger] fields[i]).1.wf()
                &&& keys_sorted(fields)
            },
            _ => true,
        }
    }

    pub open spec fn is_object(self) -> bool {
        self matches Json::Obj(_)
    }

    pub open spec fn obj_fields(self) -> Seq<(Seq<char>, Json)> {
        match self {
            Json::Obj(fields) => fields,
            _ => Seq::empty(),
        }
    }

    pub open spec fn arr_items(self) -> Seq<Json> {
        match self {
            Json::Arr(items) => items,
            _ => Seq::empty(),
        }
    }
}

/// The array elements from position `i` onward are well-formed.
pub open spec fn arr_elems_wf(items: Seq<Json>, i: int) -> bool
    decreases items, items.len() - i,
{
    if i < 0 || i >= items.len() {
        true
    } else {
        proof {
            assert(decreases_to!(items => items[i]));
        }
        items[i].wf() && arr_elems_wf(items, i + 1)
    }
}

/// An element of a well-formed array is well-formed.
pub proof fn lemma_arr_elem_wf(j: Json, items: Seq<Json>, i: int)
    requires
        j.wf(),
        j == Json::Arr(items),
        0 <= i < items.len(),
    ensures
        items[i].wf(),
{
    lemma_arr_elems_wf_extract(items, 0, i);
}

pub proof fn lemma_arr_elems_wf_extract(items: Seq<Json>, i: int, j: int)
    requires
        arr_elems_wf(items, i),
        0 <= i <= j < items.len(),
    ensures
        items[j].wf(),
    decreases j - i,
{
    if i < j {
        lemma_arr_elems_wf_extract(items, i + 1, j);
    }
}

/// Per-element well-formedness folds into `arr_elems_wf`.
pub proof fn lemma_arr_elems_wf_intro(items: Seq<Json>, i: int)
    requires
        0 <= i <= items.len(),
        forall|j: int| i <= j < items.len() ==> (#[trigger] items[j]).wf(),
    ensures
        arr_elems_wf(items, i),
    decreases items.len() - i,
{
    if i < items.len() {
        lemma_arr_elems_wf_intro(items, i + 1);
    }
}

/// An entry of a well-formed object holds a well-formed value.
pub proof fn lemma_obj_elem_wf(j: Json, fields: Seq<(Seq<char>, Json)>, i: int)
    requires
        j.wf(),
        j == Json::Obj(fields),
        0 <= i < fields.len(),
    ensures
        fields[i].1.wf(),
{
}

/// Field keys appear in strictly increasing order.
pub open spec fn keys_sorted(fields: Seq<(Seq<char>, Json)>) -> bool {
    forall|i: int, j: int|
        0 <= i < j < fields.len() ==> str_lt(
            (#[trigger] fields[i]).0,
            (#[trigger] fields[j]).0,
        )
}

pub proof fn lemma_keys_sorted_tail(fields: Seq<(Seq<char>, Json)>)
    requires
        keys_sorted(fields),
        fields.len() > 0,
    ensures
        keys_sorted(fields.drop_first()),
{
    let tail = fields.drop_first();
    assert forall|i: int, j: int| 0 <= i < j < tail.len() implies str_lt(
        (#[trigger] tail[i]).0,
        (#[trigger] tail[j]).0,
    ) by {
        assert(fields[i + 1] == tail[i]);
        assert(fields[j + 1] == tail[j]);
    }
}

/// The value stored under `k`, scanning fields front to back.
pub open spec fn obj_get(fields: Seq<(Seq<char>, Json)>, k: Seq<char>) -> Option<Json>
    decreases fields.len(),
{
    if fields.len() == 0 {
        None
    } else if fields[0].0 == k {
        Some(fields[0].1)
    } else {
        obj_get(fields.drop_first(), k)
    }
}

/// The fields with `k` bound to `v`, inserted in key order.
pub open spec fn obj_set(fields: Seq<(Seq<char>, Json)>, k: Seq<char>, v: Json) -> Seq<
    (Seq<char>, Json),
>
    decreases fields.len(),
{
    if fields.len() == 0 {
        seq![(k, v)]
    } else if str_lt(k, fields[0].0) {
        seq![(k, v)] + fields
    } else if k == fields[0].0 {
        seq![(k, v)] + fields.drop_first()
    } else {
        seq![fields[0]] + obj_set(fields.drop_first(), k, v)
    }
}

/// After `obj_set`, the new key reads back as the new value and every other
/// key is unchanged; sortedness and well-formedness are preserved.
pub proof fn lemma_obj_set(fields: Seq<(Seq<char>, Json)>, k: Seq<char>, v: Json)
    requires
        keys_sorted(fields),
    ensures
        keys_sorted(obj_set(fields, k, v)),
        obj_get(obj_set(fields, k, v), k) == Some(v),
        forall|k2: Seq<char>| k2 != k ==> obj_get(obj_set(fields, k, v), k2) == obj_get(fields, k2),
        (forall|i: int| 0 <= i < fields.len() ==> (#[trigger] fields[i]).1.wf()) && v.wf()
            ==> forall|i: int|
            0 <= i < obj_set(fields, k, v).len() ==> (#[trigger] obj_set(fields, k, v)[i]).1.wf(),
        obj_set(fields, k, v).len() <= fields.len() + 1,
    decreases fields.len(),
{
    let out = obj_set(fields, k, v);
    if fields.len() == 0 {
        assert(out =~= seq![(k, v)]);
        assert(out.drop_first() =~= Seq::<(Seq<char>, Json)>::empty());
        assert forall|k2: Seq<char>| k2 != k implies obj_get(out, k2) == obj_get(
            fields,
            k2,
        ) by {
            assert(obj_get(out, k2) == obj_get(out.drop_first(), k2));
        }
    } else if str_lt(k, fields[0].0) {
        assert(out[0] == (k, v));
        assert(out.drop_first() =~= fields);
        assert forall|i: int, j: int| 0 <= i < j < out.len() implies str_lt(
            (#[trigger] out[i]).0,
            (#[trigger] out[j]).0,
        ) by {
            if i == 0 {
                if j > 1 {
                    crate::strings::lemma_str_lt_trans(k, fields[0].0, fields[j - 1].0);
                }
            } else {
                assert(out[i] == fields[i - 1]);
                assert(out[j] == fields[j - 1]);
            }
        }
        assert(obj_get(out, k) == Some(v));
        assert forall|k2: Seq<char>| k2 != k implies obj_get(out, k2) == obj_get(
            fields,
            k2,
        ) by {
            assert(obj_get(out, k2) == obj_get(out.drop_first(), k2));
        }
        assert forall|i: int| 0 <= i < out.len() && (forall|n: int|
            0 <= n < fields.len() ==> (#[trigger] fields[n]).1.wf()) && v.wf() implies (
        #[trigger] out[i]).1.wf() by {
            if i > 0 {
                assert(out[i] == fields[i - 1]);
            }
        }
    } else if k == fields[0].0 {
        assert(out[0] == (k, v));
        assert(out.drop_first() =~= fields.drop_first());
        assert forall|k2: Seq<char>| k2 != k implies obj_get(out, k2) == obj_get(
            fields,
            k2,
        ) by {
            assert(obj_get(out, k2) == obj_get(out.drop_first(), k2));
            assert(obj_get(fields, k2) == obj_get(fields.drop_first(), k2));
        }
        assert forall|i: int, j: int| 0 <= i < j < out.len() implies str_lt(
            (#[trigger] out[i]).0,
            (#[trigger] out[j]).0,
        ) by {
            if i > 0 {
                assert(out[i] == fields[i]);
            }
            assert(out[j] == fields[j]);
        }
        assert forall|i: int| 0 <= i < out.len() && (forall|n: int|
            0 <= n < fields.len() ==> (#[trigger] fields[n]).1.wf()) && v.wf() implies (
        #[trigger] out[i]).1.wf() by {
            if i > 0 {
                assert(out[i] == fields[i]);
            }
        }
    } else {
        crate::strings::lemma_str_lt_connected(k, fields[0].0);
        assert(str_lt(fields[0].0, k));
        let tail = fields.drop_first();
        lemma_keys_sorted_tail(fields);
        lemma_obj_set(tail, k, v);
        assert(out =~= seq![fields[0]] + obj_set(tail, k, v));
        assert(out[0] == fields[0]);
        assert(out.drop_first() =~= obj_set(tail, k, v));
        assert forall|i: int, j: int| 0 <= i < j < out.len() implies str_lt(
            (#[trigger] out[i]).0,
            (#[trigger] out[j]).0,
        ) by {
            if i == 0 {
                lemma_obj_set_key_origin(tail, k, v, j - 1);
                let kj = out[j].0;
                assert(obj_set(tail, k, v)[j - 1] == out[j]);
                if kj == k {
                } else {
                    let idx = choose|idx: int|
                        0 <= idx < tail.len() && (#[trigger] tail[idx]).0 == kj;
                    assert(fields[idx + 1] == tail[idx]);
                }
            } else {
                assert(obj_set(tail, k, v)[i - 1] == out[i]);
                assert(obj_set(tail, k, v)[j - 1] == out[j]);
            }
        }
        assert(obj_get(out, k) == Some(v));
        assert forall|k2: Seq<char>| k2 != k implies obj_get(out, k2) == obj_get(
            fields,
            k2,
        ) by {
            if k2 != fields[0].0 {
                assert(obj_get(out, k2) == obj_get(obj_set(tail, k, v), k2));
                assert(obj_get(fields, k2) == obj_get(tail, k2));
            }
        }
        assert forall|i: int| 0 <= i < out.len() && (forall|n: int|
            0 <= n < fields.len() ==> (#[trigger] fields[n]).1.wf()) && v.wf() implies (
        #[trigger] out[i]).1.wf() by {
            assert(forall|n: int| 0 <= n < tail.len() ==> (#[trigger] tail[n]).1.wf()) by {
                assert(forall|n: int|
                    0 <= n < tail.len() ==> tail[n] == fields[n + 1]);
            }
            if i > 0 {
                assert(out[i] == obj_set(tail, k, v)[i - 1]);
            }
        }
    }
}

/// Every key of `obj_set(fields, k, v)` is `k` or a key of `fields`.
pub proof fn lemma_obj_set_key_origin(
    fields: Seq<(Seq<char>, Json)>,
    k: Seq<char>,
    v: Json,
    i: int,
)
    requires
        0 <= i < obj_set(fields, k, v).len(),
    ensures
        obj_set(fields, k, v)[i].0 == k || exists|j: int|
            0 <= j < fields.len() && (#[trigger] fields[j]).0 == obj_set(fields, k, v)[i].0,
    decreases fields.len(),
{
    let out = obj_set(fields, k, v);
    if fields.len() == 0 {
    } else if str_lt(k, fields[0].0) {
        if i > 0 {
            assert(fields[i - 1].0 == out[i].0);
        }
    } else if k == fields[0].0 {
        if i > 0 {
            assert(fields.drop_first()[i - 1] == out[i]);
            assert(fields[i].0 == out[i].0);
        }
    } else {
        if i == 0 {
            assert(fields[0].0 == out[0].0);
        } else {
            let tail = fields.drop_first();
            assert(out[i] == obj_set(tail, k, v)[i - 1]);
            lemma_obj_set_key_origin(tail, k, v, i - 1);
            if obj_set(tail, k, v)[i - 1].0 != k {
                let j = choose|j: int|
                    0 <= j < tail.len() && (#[trigger] tail[j]).0 == obj_set(tail, k, v)[i - 1].0;
                assert(fields[j + 1].0 == out[i].0);
            }
        }
    }
}

/// A key strictly before every stored key is absent.
pub proof fn lemma_obj_get_before_first(fields: Seq<(Seq<char>, Json)>, k: Seq<char>)
    requires
        keys_sorted(fields),
        fields.len() > 0 ==> str_lt(k, fields[0].0),
    ensures
        obj_get(fields, k) is None,
    decreases fields.len(),
{
    if fields.len() > 0 {
        crate::strings::lemma_str_lt_connected(k, fields[0].0);
        let tail = fields.drop_first();
        lemma_keys_sorted_tail(fields);
        if tail.len() > 0 {
            assert(fields[1] == tail[0]);
            crate::strings::lemma_str_lt_trans(k, fields[0].0, tail[0].0);
        }
        lemma_obj_get_before_first(tail, k);
    }
}

impl Clone for JsonValue {
    /// A deep copy with the same model.
    #[verifier::loop_isolation(false)]
    fn clone(&self) -> (r: Self)
        ensures
            r@ == self@,
        decreases self,
    {
        broadcast use group_json_views, vstd::std_specs::vec::group_vec_axioms;

        match self {
            JsonValue::Null => JsonValue::Null,
            JsonValue::Bool(b) => JsonValue::Bool(*b),
            JsonValue::Num(s) => JsonValue::Num(s.clone()),
            JsonValue::Str(s) => JsonValue::Str(s.clone()),
            JsonValue::Arr(items) => {
                let mut out: Vec<JsonValue> = Vec::new();
                let n = items.len();
                for i in 0..n
                    invariant
                        n == items@.len(),
                        out@.len() == i,
                        self == JsonValue::Arr(*items),
                        forall|j: int| 0 <= j < i ==> (#[trigger] out@[j])@ == items@[j]@,
                    decreases n - i,
                {
                    proof {
                        broadcast use group_json_views, vstd::std_specs::vec::group_vec_axioms;

                        assert(decreases_to!(self => items));
                        assert(decreases_to!(items => items@[i as int]));
                        assert(decreases_to!(self => items@[i as int]));
                    }
                    out.push(items[i].clone());
                }
                proof {
                    assert(arr_view(out@) =~= arr_view(items@));
                }
                JsonValue::Arr(out)
            },
            JsonValue::Obj(fields) => {
                let mut out: Vec<(String, JsonValue)> = Vec::new();
                let n = fields.len();
                for i in 0..n
                    invariant
                        n == fields@.len(),
                        out@.len() == i,
                        self == JsonValue::Obj(*fields),
                        forall|j: int|
                            0 <= j < i ==> (#[trigger] out@[j]).0@ == fields@[j].0@ && out@[j].1@
                                == fields@[j].1@,
                    decreases n - i,
                {
                    proof {
                        broadcast use group_json_views, vstd::std_specs::vec::group_vec_axioms;

                        assert(decreases_to!(self => fields));
                        assert(decreases_to!(fields => fields@[i as int]));
                        assert(decreases_to!(fields@[i as int] => fields@[i as int].1));
                        assert(decreases_to!(self => fields@[i as int].1));
                    }
                    let key = fields[i].0.clone();
                    let val = fields[i].1.clone();
                    out.push((key, val));
                }
                proof {
                    assert(fields_view(out@) =~= fields_view(fields@));
                }
                JsonValue::Obj(out)
            },
        }
    }
}

/// Structural equality of models.
#[verifier::loop_isolation(false)]
pub fn json_eq(a: &JsonValue, b: &JsonValue) -> (r: bool)
    ensures
        r == (a@ == b@),
    decreases a,
{
    broadcast use group_json_views, vstd::std_specs::vec::group_vec_axioms;

    match (a, b) {
        (JsonValue::Null, JsonValue::Null) => true,
        (JsonValue::Bool(x), JsonValue::Bool(y)) => x == y,
        (JsonValue::Num(x), JsonValue::Num(y)) => str_eq(x.as_str(), y.as_str()),
        (JsonValue::Str(x), JsonValue::Str(y)) => str_eq(x.as_str(), y.as_str()),
        (JsonValue::Arr(xs), JsonValue::Arr(ys)) => {
            if xs.len() != ys.len() {
                proof {
                    assert(arr_view(xs@).len() != arr_view(ys@).len());
                }
                return false;
            }
            let n = xs.len();
            for i in 0..n
                invariant
                    n == xs@.len(),
                    n == ys@.len(),
                    a == JsonValue::Arr(*xs),
                    b == JsonValue::Arr(*ys),
                    forall|j: int| 0 <= j < i ==> #[trigger] arr_view(xs@)[j] == arr_view(ys@)[j],
                decreases n - i,
            {
                proof {
                    broadcast use group_json_views, vstd::std_specs::vec::group_vec_axioms;

                    assert(decreases_to!(a => xs));
                    assert(decreases_to!(xs => xs@[i as int]));
                    assert(decreases_to!(a => xs@[i as int]));
                }
                if !json_eq(&xs[i], &ys[i]) {
                    proof {
                        assert(arr_view(xs@)[i as int] != arr_view(ys@)[i as int]);
                    }
                    return false;
                }
            }
            proof {
                assert(arr_view(xs@) =~= arr_view(ys@));
            }
            true
        },
        (JsonValue::Obj(xs), JsonValue::Obj(ys)) => {
            if xs.len() != ys.len() {
                proof {
                    assert(fields_view(xs@).len() != fields_view(ys@).len());
                }
                return false;
            }
            let n = xs.len();
            for i in 0..n
                invariant
                    n == xs@.len(),
                    n == ys@.len(),
                    a == JsonValue::Obj(*xs),
                    b == JsonValue::Obj(*ys),
                    forall|j: int|
                        0 <= j < i ==> #[trigger] fields_view(xs@)[j] == fields_view(ys@)[j],
                decreases n - i,
            {
                proof {
                    broadcast use group_json_views, vstd::std_specs::vec::group_vec_axioms;

                    assert(decreases_to!(a => xs));
                    assert(decreases_to!(xs => xs@[i as int]));
                    assert(decreases_to!(xs@[i as int] => xs@[i as int].1));
                    assert(decreases_to!(a => xs@[i as int].1));
                }
                if !str_eq(xs[i].0.as_str(), ys[i].0.as_str()) {
                    proof {
                        assert(fields_view(xs@)[i as int].0 != fields_view(ys@)[i as int].0);
                    }
                    return false;
                }
                if !json_eq(&xs[i].1, &ys[i].1) {
                    proof {
                        assert(fields_view(xs@)[i as int].1 != fields_view(ys@)[i as int].1);
                    }
                    return false;
                }
            }
            proof {
                assert(fields_view(xs@) =~= fields_view(ys@));
            }
            true
        },
        _ => false,
    }
}

/// Looks a key up among sorted object fields.
#[verifier::loop_isolation(false)]
pub fn fields_get<'a>(fields: &'a Vec<(String, JsonValue)>, key: &str) -> (r: Option<
    &'a JsonValue,
>)
    requires
        keys_sorted(fields_view(fields@)),
    ensures
        match r {
            Some(v) => obj_get(fields_view(fields@), key@) == Some(v@) && exists|j: int|
                0 <= j < fields@.len() && *v == (#[trigger] fields@[j]).1,
            None => obj_get(fields_view(fields@), key@) is None,
        },
{
    broadcast use group_json_views, vstd::std_specs::vec::group_vec_axioms;

    let ghost fv = fields_view(fields@);
    let n = fields.len();
    let mut i: usize = 0;
    proof {
        assert(fv.skip(0) =~= fv);
    }
    loop
        invariant
            i <= n,
            n == fields@.len(),
            fv == fields_view(fields@),
            keys_sorted(fv),
            obj_get(fv, key@) == obj_get(fv.skip(i as int), key@),
            forall|j: int| 0 <= j < i ==> str_lt((#[trigger] fv[j]).0, key@),
        decreases n - i,
    {
        if i == n {
            proof {
                assert(fv.skip(i as int) =~= Seq::<(Seq<char>, Json)>::empty());
            }
            return None;
        }
        let entry_key = fields[i].0.as_str();
        proof {
            assert(fv.skip(i as int)[0] == fv[i as int]);
        }
        if str_eq(entry_key, key) {
            proof {
                assert(obj_get(fv.skip(i as int), key@) == Some(fv[i as int].1));
                assert(fields@[i as int].1 == fields@[i as int].1);
            }
            return Some(&fields[i].1);
        }
        if str_less(key, entry_key) {
            proof {
                let suffix = fv.skip(i as int);
                assert forall|p: int, q: int| 0 <= p < q < suffix.len() implies str_lt(
                    (#[trigger] suffix[p]).0,
                    (#[trigger] suffix[q]).0,
                ) by {
                    assert(suffix[p] == fv[i + p]);
                    assert(suffix[q] == fv[i + q]);
                }
                lemma_obj_get_before_first(suffix, key@);
            }
            return None;
        }
        proof {
            crate::strings::lemma_str_lt_connected(key@, fv[i as int].0);
            assert(str_lt(fv[i as int].0, key@));
            assert(fv.skip(i as int).drop_first() =~= fv.skip(i + 1));
        }
        i += 1;
    }
}

/// Binds `key` to `value` among sorted object fields, keeping the order.
#[verifier::loop_isolation(false)]
pub fn fields_set(fields: &mut Vec<(String, JsonValue)>, key: String, value: JsonValue)
    requires
        keys_sorted(fields_view(old(fields)@)),
    ensures
        fields_view(final(fields)@) == obj_set(fields_view(old(fields)@), key@, value@),
{
    broadcast use group_json_views, vstd::std_specs::vec::group_vec_axioms;

    let ghost fv = fields_view(fields@);
    let n = fields.len();
    let mut i: usize = 0;
    proof {
        assert(fv.skip(0) =~= fv);
        assert(fv.take(0) =~= Seq::<(Seq<char>, Json)>::empty());
        assert(obj_set(fv, key@, value@) =~= fv.take(0) + obj_set(fv.skip(0), key@, value@));
    }
    loop
        invariant
            i <= n,
            n == fields@.len(),
            fv == fields_view(fields@),
            keys_sorted(fv),
            obj_set(fv, key@, value@) == fv.take(i as int) + obj_set(
                fv.skip(i as int),
                key@,
                value@,
            ),
            forall|j: int| 0 <= j < i ==> str_lt((#[trigger] fv[j]).0, key@),
        decreases n - i,
    {
        if i == n {
            proof {
                assert(fv.skip(n as int) =~= Seq::<(Seq<char>, Json)>::empty());
                assert(fv.take(n as int) =~= fv);
            }
            fields.push((key, value));
            proof {
                assert(fields_view(fields@) =~= fv + seq![(key@, value@)]);
                assert(fv + obj_set(Seq::<(Seq<char>, Json)>::empty(), key@, value@) =~= fv
                    + seq![(key@, value@)]);
            }
            return;
        }
        proof {
            assert(fv.skip(i as int)[0] == fv[i as int]);
        }
        let entry_key_lt = str_less(fields[i].0.as_str(), key.as_str());
        if !entry_key_lt {
            let key_lt_entry = str_less(key.as_str(), fields[i].0.as_str());
            if key_lt_entry {
                // insert strictly before position i
                proof {
                    assert(obj_set(fv.skip(i as int), key@, value@) =~= seq![(key@, value@)]
                        + fv.skip(i as int));
                }
                fields.insert(i, (key, value));
                proof {
                    assert(fields_view(fields@) =~= fv.take(i as int) + (seq![(key@, value@)]
                        + fv.skip(i as int)));
                }
                return;
            } else {
                // keys are equal: replace in place
                proof {
                    crate::strings::lemma_str_lt_connected(key@, fv[i as int].0);
                    assert(key@ == fv[i as int].0);
                    assert(fv.skip(i as int).drop_first() =~= fv.skip(i + 1));
                    assert(obj_set(fv.skip(i as int), key@, value@) =~= seq![(key@, value@)]
                        + fv.skip(i + 1));
                }
                fields.set(i, (key, value));
                proof {
                    assert(fields_view(fields@) =~= fv.take(i as int) + (seq![(key@, value@)]
                        + fv.skip(i + 1)));
                }
                return;
            }
        }
        proof {
            assert(str_lt(fv[i as int].0, key@));
            crate::strings::lemma_str_lt_asym(fv[i as int].0, key@);
            assert(fv.skip(i as int).drop_first() =~= fv.skip(i + 1));
            assert(obj_set(fv.skip(i as int), key@, value@) =~= seq![fv[i as int]] + obj_set(
                fv.skip(i + 1),
                key@,
                value@,
            ));
            assert(fv.take(i + 1) =~= fv.take(i as int) + seq![fv[i as int]]);
            assert(fv.take(i as int) + (seq![fv[i as int]] + obj_set(fv.skip(i + 1), key@, value@))
                =~= fv.take(i + 1) + obj_set(fv.skip(i + 1), key@, value@));
        }
        i += 1;
    }
}


/// The fields bound in order, later pairs winning, each key in sorted
/// position.
pub open spec fn spec_obj_build(
    pv: Seq<(Seq<char>, Json)>,
    i: int,
    acc: Seq<(Seq<char>, Json)>,
) -> Seq<(Seq<char>, Json)>
    decreases pv.len() - i,
{
    if i < 0 || i >= pv.len() {
        acc
    } else {
        spec_obj_build(pv, i + 1, obj_set(acc, pv[i].0, pv[i].1))
    }
}

/// Builds an object document from key / value pairs, in any order; later
/// pairs win on equal keys.
#[verifier::loop_isolation(false)]
pub fn json_object(pairs: Vec<(String, JsonValue)>) -> (r: JsonValue)
    requires
        forall|i: int| 0 <= i < pairs@.len() ==> (#[trigger] pairs@[i]).1@.wf(),
    ensures
        r@ == Json::Obj(spec_obj_build(fields_view(pairs@), 0, Seq::empty())),
        r@.wf(),
{
    broadcast use group_json_views, vstd::std_specs::vec::group_vec_axioms;

    let ghost pv = fields_view(pairs@);
    let mut fields: Vec<(String, JsonValue)> = Vec::new();
    proof {
        assert(fields_view(fields@) =~= Seq::<(Seq<char>, Json)>::empty());
    }
    let n = pairs.len();
    let mut i: usize = 0;
    let mut rest = pairs;
    while i < n
        invariant
            i <= n,
            n == pv.len(),
            rest@.len() == n - i,
            fields_view(rest@) =~= pv.skip(i as int),
            keys_sorted(fields_view(fields@)),
            forall|q: int|
                0 <= q < fields_view(fields@).len() ==> (#[trigger] fields_view(
                    fields@,
                )[q]).1.wf(),
            forall|q: int| i <= q < n ==> (#[trigger] pv[q]).1.wf(),
            spec_obj_build(pv, 0, Seq::empty()) == spec_obj_build(
                pv,
                i as int,
                fields_view(fields@),
            ),
        decreases n - i,
    {
        let ghost prev_rest = rest@;
        let (k, v) = rest.remove(0);
        proof {
            assert(pv.skip(i as int)[0] == pv[i as int]);
            assert(rest@ =~= prev_rest.drop_first());
            assert forall|q: int| 0 <= q < rest@.len() implies #[trigger] fields_view(rest@)[q]
                == pv.skip(i as int + 1)[q] by {
                assert(rest@[q] == prev_rest[q + 1]);
                assert(fields_view(prev_rest)[q + 1] == pv.skip(i as int)[q + 1]);
            }
            assert(fields_view(rest@) =~= pv.skip(i as int + 1));
            assert(fields_view(prev_rest)[0] == pv.skip(i as int)[0]);
            assert(pv[i as int] == (k@, v@));
            lemma_obj_set(fields_view(fields@), k@, v@);
        }
        fields_set(&mut fields, k, v);
        i += 1;
    }
    JsonValue::Obj(fields)
}


/// Chained adjacent key orderings extend to any pair of positions.
proof fn lemma_keys_chain(fields: Seq<(Seq<char>, Json)>, i: int, j: int)
    requires
        forall|k: int|
            0 < k < fields.len() ==> str_lt((#[trigger] fields[k - 1]).0, fields[k].0),
        0 <= i < j < fields.len(),
    ensures
        str_lt(fields[i].0, fields[j].0),
    decreases j - i,
{
    assert(str_lt(fields[j - 1].0, fields[j].0));
    if i + 1 < j {
        lemma_keys_chain(fields, i, j - 1);
        crate::strings::lemma_str_lt_trans(fields[i].0, fields[j - 1].0, fields[j].0);
    }
}

/// Whether a document is well-formed: every object holds its fields in
/// strictly increasing key order. A document of unknown provenance is
/// tested here before registration, which demands a well-formed one.
#[verifier::loop_isolation(false)]
pub fn json_is_wf(v: &JsonValue) -> (r: bool)
    ensures
        r == v@.wf(),
    decreases v,
{
    broadcast use group_json_views, vstd::std_specs::vec::group_vec_axioms;

    match v {
        JsonValue::Obj(fields) => {
            let ghost fv = fields_view(fields@);
            proof {
                assert(v@ == Json::Obj(fv));
            }
            let n = fields.len();
            let mut i: usize = 0;
            while i < n
                invariant
                    i <= n,
                    n == fields@.len(),
                    v == JsonValue::Obj(*fields),
                    fv == fields_view(fields@),
                    forall|j: int| 0 <= j < i ==> (#[trigger] fv[j]).1.wf(),
                    forall|j: int| 0 < j < i ==> str_lt((#[trigger] fv[j - 1]).0, fv[j].0),
                decreases n - i,
            {
                proof {
                    assert(decreases_to!(v => fields));
                    assert(decreases_to!(fields => fields@[i as int]));
                    assert(decreases_to!(fields@[i as int] => fields@[i as int].1));
                    assert(decreases_to!(v => fields@[i as int].1));
                }
                if !json_is_wf(&fields[i].1) {
                    proof {
                        assert(!fv[i as int].1.wf());
                        assert(!v@.wf());
                    }
                    return false;
                }
                if i > 0 {
                    if !str_less(fields[i - 1].0.as_str(), fields[i].0.as_str()) {
                        proof {
                            assert(!str_lt(fv[i - 1].0, fv[i as int].0));
                            assert(!keys_sorted(fv));
                            assert(!v@.wf());
                        }
                        return false;
                    }
                }
                i += 1;
            }
            proof {
                assert forall|a: int, b: int| 0 <= a < b < fv.len() implies str_lt(
                    (#[trigger] fv[a]).0,
                    (#[trigger] fv[b]).0,
                ) by {
                    lemma_keys_chain(fv, a, b);
                }
                assert(keys_sorted(fv));
                assert(v@.wf());
            }
            true
        },
        JsonValue::Arr(items) => {
            let ghost itv = arr_view(items@);
            proof {
                assert(v@ == Json::Arr(itv));
            }
            let n = items.len();
            let mut i: usize = 0;
            while i < n
                invariant
                    i <= n,
                    n == items@.len(),
                    v == JsonValue::Arr(*items),
                    itv == arr_view(items@),
                    forall|j: int| 0 <= j < i ==> (#[trigger] itv[j]).wf(),
                decreases n - i,
            {
                proof {
                    assert(decreases_to!(v => items));
                    assert(decreases_to!(items => items@[i as int]));
                    assert(decreases_to!(v => items@[i as int]));
                }
                if !json_is_wf(&items[i]) {
                    proof {
                        assert(!arr_elems_wf(itv, 0)) by {
                            if arr_elems_wf(itv, 0) {
                                lemma_arr_elems_wf_extract(itv, 0, i as int);
                            }
                        }
                        assert(!v@.wf());
                    }
                    return false;
                }
                i += 1;
            }
            proof {
                lemma_arr_elems_wf_intro(itv, 0);
                assert(v@.wf());
            }
            true
        },
        _ => true,
    }
}

} // verus!
