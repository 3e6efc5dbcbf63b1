use optify::builder::OptionsProviderBuilder;
use optify::json::{json_object, JsonValue};
use optify::provider::OptionsProvider;

fn s(x: &str) -> String {
    x.to_string()
}

fn num(x: &str) -> JsonValue {
    JsonValue::Num(s(x))
}

fn st(x: &str) -> JsonValue {
    JsonValue::Str(s(x))
}

fn obj(pairs: Vec<(&str, JsonValue)>) -> JsonValue {
    json_object(pairs.into_iter().map(|(k, v)| (s(k), v)).collect())
}

fn get_provider() -> OptionsProvider {
    let mut builder = OptionsProviderBuilder::new();
    let doc_a = obj(vec![(
        "options",
        obj(vec![(
            "myConfig",
            obj(vec![
                ("rootString", st("root string")),
                ("rootString2", st("gets overridden")),
                ("myArray", JsonValue::Arr(vec![st("example item 1")])),
                (
                    "myObject",
                    obj(vec![
                        ("one", num("1")),
                        ("two", num("2")),
                        ("string", st("string")),
                        (
                            "deeper",
                            obj(vec![
                                ("wtv", num("3")),
                                ("list", JsonValue::Arr(vec![num("1"), num("2")])),
                            ]),
                        ),
                    ]),
                ),
            ]),
        )]),
    )]);
    builder
        .add_feature("feature_A", "/configs/feature_A.json", &doc_a)
        .unwrap();
    let doc_b = obj(vec![(
        "options",
        obj(vec![(
            "myConfig",
            obj(vec![(
                "myObject",
                obj(vec![
                    ("three", num("3")),
                    ("deeper", obj(vec![("new", st("value"))])),
                ]),
            )]),
        )]),
    )]);
    builder
        .add_feature(
            "feature_B/initial",
            "/configs/feature_B/initial.yaml",
            &doc_b,
        )
        .unwrap();
    builder.build().unwrap()
}

#[test]
fn test_get_possible_keys_root() {
    let provider = get_provider();
    let keys = provider.get_possible_keys("", None);
    assert_eq!(keys, vec![s("myConfig")]);
}

#[test]
fn test_get_possible_keys_invalid_root_slash() {
    let provider = get_provider();
    let keys = provider.get_possible_keys("/", None);
    assert_eq!(keys, Vec::<String>::new());
}

#[test]
fn test_get_possible_keys_my_config() {
    let provider = get_provider();
    let keys = provider.get_possible_keys("/myConfig", None);
    assert_eq!(
        keys,
        vec![s("myArray"), s("myObject"), s("rootString"), s("rootString2")]
    );
}

#[test]
fn test_get_possible_keys_nested_object() {
    let provider = get_provider();
    let keys = provider.get_possible_keys("/myConfig/myObject", None);
    assert_eq!(
        keys,
        vec![s("deeper"), s("one"), s("string"), s("three"), s("two")]
    );
}

#[test]
fn test_get_possible_keys_deeper_nested() {
    let provider = get_provider();
    let keys = provider.get_possible_keys("/myConfig/myObject/deeper", None);
    assert_eq!(keys, vec![s("list"), s("new"), s("wtv")]);
}

#[test]
fn test_get_possible_keys_array_path() {
    let provider = get_provider();
    let keys = provider.get_possible_keys("/myConfig/myArray", None);
    assert_eq!(keys, Vec::<String>::new());
}

#[test]
fn test_get_possible_keys_my_array_element() {
    let provider = get_provider();
    let keys = provider.get_possible_keys("/myConfig/myArray/0", None);
    assert_eq!(keys, Vec::<String>::new());
}

#[test]
fn test_get_possible_keys_nonexistent_path() {
    let provider = get_provider();
    let keys = provider.get_possible_keys("/nonexistent/path", None);
    assert_eq!(keys, Vec::<String>::new());
}

#[test]
fn test_get_possible_keys_scalar_value() {
    let provider = get_provider();
    let keys = provider.get_possible_keys("/myConfig/rootString", None);
    assert_eq!(keys, Vec::<String>::new());
}

#[test]
fn test_get_possible_keys_integer_value() {
    let provider = get_provider();
    let keys = provider.get_possible_keys("/myConfig/myObject/one", None);
    assert_eq!(keys, Vec::<String>::new());
}
