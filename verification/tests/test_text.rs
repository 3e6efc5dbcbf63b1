use optify::bindings::to_js_options_metadata;
use optify::json::{json_object, JsonValue};
use optify::json_text::to_json_string;
use optify::metadata::OptionsMetadata;
use optify::pointer::{dotted_lookup, json_pointer_lookup};

fn s(x: &str) -> String {
    x.to_string()
}

fn num(x: &str) -> JsonValue {
    JsonValue::Num(s(x))
}

fn st(x: &str) -> JsonValue {
    JsonValue::Str(s(x))
}

fn obj(pairs: Vec<(&str, JsonValue)>) -> JsonValue {
    json_object(pairs.into_iter().map(|(k, v)| (s(k), v)).collect())
}

#[test]
fn test_canonical_text_sorts_keys() {
    let value = obj(vec![
        ("name", st("John")),
        ("age", num("30")),
        ("city", st("New York")),
    ]);
    assert_eq!(
        to_json_string(&value),
        r#"{"age":30,"city":"New York","name":"John"}"#
    );
}

#[test]
fn test_canonical_text_escapes() {
    let value = obj(vec![("text", st("a\"b\\c\nd"))]);
    assert_eq!(to_json_string(&value), "{\"text\":\"a\\\"b\\\\c\\nd\"}");
    let scalars = JsonValue::Arr(vec![
        JsonValue::Null,
        JsonValue::Bool(true),
        JsonValue::Bool(false),
        num("-1.5"),
    ]);
    assert_eq!(to_json_string(&scalars), "[null,true,false,-1.5]");
}

#[test]
fn test_json_pointer_lookup_escapes() {
    let value = obj(vec![
        ("key/with/slashes", st("value1")),
        ("plain", obj(vec![("inner", num("7"))])),
        ("items", JsonValue::Arr(vec![st("zero"), st("one")])),
    ]);
    let found = json_pointer_lookup(&value, "/key~1with~1slashes").unwrap();
    assert_eq!(to_json_string(found), "\"value1\"");
    let found = json_pointer_lookup(&value, "/plain/inner").unwrap();
    assert_eq!(to_json_string(found), "7");
    let found = json_pointer_lookup(&value, "/items/1").unwrap();
    assert_eq!(to_json_string(found), "\"one\"");
    assert!(json_pointer_lookup(&value, "/items/01").is_none());
    assert!(json_pointer_lookup(&value, "/missing").is_none());
    assert!(json_pointer_lookup(&value, "no_slash").is_none());
}

#[test]
fn test_dotted_lookup_walks_objects() {
    let value = obj(vec![(
        "myConfig",
        obj(vec![("rootString", st("root string"))]),
    )]);
    let found = dotted_lookup(&value, "myConfig.rootString").unwrap();
    assert_eq!(to_json_string(found), "\"root string\"");
    assert!(dotted_lookup(&value, "myConfig.missing").is_none());
}

#[test]
fn test_to_js_options_metadata_keeps_fields() {
    let metadata = OptionsMetadata {
        aliases: Some(vec![s("a")]),
        dependents: None,
        details: Some(st("details")),
        name: Some(s("feature_A")),
        owners: Some(s("team@example.com")),
        path: Some(s("/configs/feature_A.json")),
    };
    let wrapped = to_js_options_metadata(metadata);
    assert_eq!(wrapped.aliases(), Some(vec![s("a")]));
    assert!(wrapped.dependents().is_none());
    assert_eq!(wrapped.name(), Some(s("feature_A")));
    assert_eq!(wrapped.owners(), Some(s("team@example.com")));
    assert_eq!(wrapped.path(), Some(s("/configs/feature_A.json")));
}
