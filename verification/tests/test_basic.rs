use optify::json::{json_eq, json_object, JsonValue};
use optify::merge::{merge_json_value, merge_json_with_defaults};

fn s(x: &str) -> String {
    x.to_string()
}

fn num(x: &str) -> JsonValue {
    JsonValue::Num(s(x))
}

fn st(x: &str) -> JsonValue {
    JsonValue::Str(s(x))
}

fn obj(pairs: Vec<(&str, JsonValue)>) -> JsonValue {
    json_object(pairs.into_iter().map(|(k, v)| (s(k), v)).collect())
}

#[test]
fn it_works() {
    let result = optify::add(2, 2);
    assert_eq!(result, 4);
}

#[test]
fn test_merge_left_identity() {
    let x = obj(vec![("a", num("1")), ("b", st("two"))]);
    let empty = obj(vec![]);
    let merged = merge_json_value(empty, &x);
    assert!(json_eq(&merged, &x));
}

#[test]
fn test_merge_order_matters() {
    let a = obj(vec![("x", num("1")), ("y", num("2"))]);
    let b = obj(vec![("y", num("9")), ("z", num("3"))]);
    let ab = merge_json_value(a.clone(), &b);
    let ba = merge_json_value(b.clone(), &a);
    assert!(json_eq(
        &ab,
        &obj(vec![("x", num("1")), ("y", num("9")), ("z", num("3"))])
    ));
    assert!(json_eq(
        &ba,
        &obj(vec![("x", num("1")), ("y", num("2")), ("z", num("3"))])
    ));
}

#[test]
fn test_merge_arrays_replaced() {
    let a = obj(vec![(
        "a",
        JsonValue::Arr(vec![num("1"), num("2"), num("3")]),
    )]);
    let b = obj(vec![("a", JsonValue::Arr(vec![num("4"), num("5")]))]);
    let merged = merge_json_value(a, &b);
    assert!(json_eq(
        &merged,
        &obj(vec![("a", JsonValue::Arr(vec![num("4"), num("5")]))])
    ));
}

#[test]
fn test_merge_deep_objects() {
    let a = obj(vec![("k", obj(vec![("one", num("1")), ("two", num("2"))]))]);
    let b = obj(vec![(
        "k",
        obj(vec![("one", num("11")), ("three", num("3"))]),
    )]);
    let merged = merge_json_value(a, &b);
    assert!(json_eq(
        &merged,
        &obj(vec![(
            "k",
            obj(vec![("one", num("11")), ("three", num("3")), ("two", num("2"))])
        )])
    ));
}

#[test]
fn test_merge_with_defaults() {
    let target = obj(vec![("a", num("1")), ("b", num("2"))]);
    let defaults = obj(vec![("b", num("3")), ("c", num("4"))]);
    let merged = merge_json_with_defaults(target, &defaults);
    assert!(json_eq(
        &merged,
        &obj(vec![("a", num("1")), ("b", num("2")), ("c", num("4"))])
    ));
}

#[test]
fn test_merge_with_defaults_nested() {
    let target = obj(vec![("level1", obj(vec![("a", num("1")), ("b", num("2"))]))]);
    let defaults = obj(vec![("level1", obj(vec![("b", num("3")), ("c", num("4"))]))]);
    let merged = merge_json_with_defaults(target, &defaults);
    assert!(json_eq(
        &merged,
        &obj(vec![(
            "level1",
            obj(vec![("a", num("1")), ("b", num("2")), ("c", num("4"))])
        )])
    ));
}

#[test]
fn test_merge_with_defaults_deeply_nested() {
    let target = obj(vec![(
        "l1",
        obj(vec![("l2", obj(vec![("l3", obj(vec![("a", num("1"))]))]))]),
    )]);
    let defaults = obj(vec![(
        "l1",
        obj(vec![(
            "l2",
            obj(vec![
                ("l3", obj(vec![("a", num("57")), ("b", num("2"))])),
                ("new", st("value")),
            ]),
        )]),
    )]);
    let merged = merge_json_with_defaults(target, &defaults);
    assert!(json_eq(
        &merged,
        &obj(vec![(
            "l1",
            obj(vec![(
                "l2",
                obj(vec![
                    ("l3", obj(vec![("a", num("1")), ("b", num("2"))])),
                    ("new", st("value")),
                ]),
            )]),
        )])
    ));
}

#[test]
fn test_merge_with_defaults_type_override() {
    let target = obj(vec![("key", obj(vec![("nested", num("1"))]))]);
    let defaults = obj(vec![("key", st("string"))]);
    let merged = merge_json_with_defaults(target.clone(), &defaults);
    assert!(json_eq(&merged, &target));
}

#[test]
fn test_merge_with_defaults_missing_key() {
    let target = obj(vec![("a", num("1"))]);
    let defaults = obj(vec![("b", num("2"))]);
    let merged = merge_json_with_defaults(target, &defaults);
    assert!(json_eq(&merged, &obj(vec![("a", num("1")), ("b", num("2"))])));
}

#[test]
fn test_merge_with_defaults_arrays_not_merged() {
    let target = obj(vec![(
        "arr",
        JsonValue::Arr(vec![num("1"), num("2"), num("3")]),
    )]);
    let defaults = obj(vec![("arr", JsonValue::Arr(vec![num("4"), num("5")]))]);
    let merged = merge_json_with_defaults(target.clone(), &defaults);
    assert!(json_eq(&merged, &target));
}
