use optify::json::{json_object, JsonValue};
use optify::locator::find_configurable_value_pointers;

fn s(x: &str) -> String {
    x.to_string()
}

fn num(x: &str) -> JsonValue {
    JsonValue::Num(s(x))
}

fn st(x: &str) -> JsonValue {
    JsonValue::Str(s(x))
}

fn obj(pairs: Vec<(&str, JsonValue)>) -> JsonValue {
    json_object(pairs.into_iter().map(|(k, v)| (s(k), v)).collect())
}

fn site(root: &str) -> JsonValue {
    obj(vec![
        ("$type", st("Optify.ConfigurableString")),
        ("root", st(root)),
        ("components", obj(vec![])),
    ])
}

fn pointers(v: &JsonValue) -> Vec<String> {
    find_configurable_value_pointers(Some(v))
}

#[test]
fn test_configurable_string_at_root() {
    let value = site("Root level configurable string");
    assert_eq!(pointers(&value), vec![s("")]);
}

#[test]
fn test_find_single_configurable_string() {
    let value = obj(vec![("feature", site("Hello {{ name }}!"))]);
    assert_eq!(pointers(&value), vec![s("/feature")]);
}

#[test]
fn test_find_nested_configurable_string() {
    let value = obj(vec![(
        "nested",
        obj(vec![("deep", obj(vec![("value", site("Deep nested"))]))]),
    )]);
    assert_eq!(pointers(&value), vec![s("/nested/deep/value")]);
}

#[test]
fn test_find_configurable_string_in_array() {
    let value = obj(vec![("array", JsonValue::Arr(vec![site("Array item")]))]);
    assert_eq!(pointers(&value), vec![s("/array/0")]);
}

#[test]
fn test_find_multiple_configurable_strings() {
    let value = obj(vec![
        ("feature", site("Hello {{ name }}!")),
        (
            "nested",
            obj(vec![("deep", obj(vec![("value", site("Deep nested"))]))]),
        ),
        (
            "array",
            JsonValue::Arr(vec![
                site("Array item"),
                obj(vec![("regular", st("object"))]),
                site("Second array item"),
            ]),
        ),
        ("regular", st("not configurable")),
    ]);
    assert_eq!(
        pointers(&value),
        vec![s("/array/0"), s("/array/2"), s("/feature"), s("/nested/deep/value")]
    );
}

#[test]
fn test_empty_input() {
    assert!(find_configurable_value_pointers(None).is_empty());
    assert!(pointers(&obj(vec![])).is_empty());
    assert!(pointers(&JsonValue::Arr(vec![])).is_empty());
}

#[test]
fn test_no_configurable_strings() {
    let value = obj(vec![
        ("regular", st("value")),
        ("number", num("42")),
        ("boolean", JsonValue::Bool(true)),
        ("null_value", JsonValue::Null),
        ("array", JsonValue::Arr(vec![num("1"), num("2"), num("3")])),
        (
            "object",
            obj(vec![
                ("nested", st("value")),
                ("more_nested", obj(vec![("deep", st("value"))])),
            ]),
        ),
    ]);
    assert!(pointers(&value).is_empty());
}

#[test]
fn test_wrong_type_value() {
    let value = obj(vec![
        (
            "feature",
            obj(vec![
                ("$type", st("SomeOtherType")),
                ("root", st("Hello {{ name }}!")),
                ("components", obj(vec![])),
            ]),
        ),
        (
            "another",
            obj(vec![
                ("$type", num("42")),
                ("root", st("Hello")),
                ("components", obj(vec![])),
            ]),
        ),
    ]);
    assert!(pointers(&value).is_empty());
}

#[test]
fn test_deeply_nested_structure() {
    let value = obj(vec![(
        "level1",
        obj(vec![(
            "level2",
            obj(vec![(
                "level3",
                obj(vec![("level4", obj(vec![("level5", site("Very deep"))]))]),
            )]),
        )]),
    )]);
    assert_eq!(pointers(&value), vec![s("/level1/level2/level3/level4/level5")]);
}

#[test]
fn test_complex_array_structure() {
    let value = obj(vec![(
        "items",
        JsonValue::Arr(vec![
            JsonValue::Arr(vec![site("Nested array item")]),
            obj(vec![("nested_object", site("Object in array"))]),
        ]),
    )]);
    assert_eq!(
        pointers(&value),
        vec![s("/items/0/0"), s("/items/1/nested_object")]
    );
}

#[test]
fn test_does_not_recurse_into_configurable_strings() {
    let value = obj(vec![(
        "feature",
        obj(vec![
            ("$type", st("Optify.ConfigurableString")),
            ("root", st("Hello {{ name }}!")),
            ("components", obj(vec![("nested", site("Should not be found"))])),
        ]),
    )]);
    assert_eq!(pointers(&value), vec![s("/feature")]);
}

#[test]
fn test_with_real_config_structure() {
    let value = obj(vec![
        (
            "feature",
            obj(vec![
                ("$type", st("Optify.ConfigurableString")),
                (
                    "root",
                    st("Hello {{ name }}! Welcome to {{ resources.app_name }}."),
                ),
                (
                    "components",
                    obj(vec![
                        ("simple.txt", st("simple.txt")),
                        ("template.liquid", st("template.liquid")),
                    ]),
                ),
            ]),
        ),
        (
            "nested",
            obj(vec![(
                "deep",
                obj(vec![(
                    "value",
                    obj(vec![
                        ("$type", st("Optify.ConfigurableString")),
                        ("root", st("Deep nested: {{ resources.template }}")),
                        (
                            "components",
                            obj(vec![("template.liquid", st("template.liquid"))]),
                        ),
                    ]),
                )]),
            )]),
        ),
        ("array", JsonValue::Arr(vec![site("Array item: {{ index }}")])),
        ("regular_value", st("not a configurable string")),
    ]);
    assert_eq!(
        pointers(&value),
        vec![s("/array/0"), s("/feature"), s("/nested/deep/value")]
    );
}
