use optify::builder::OptionsProviderBuilder;
use optify::json::{json_eq, json_object, JsonValue};

fn s(x: &str) -> String {
    x.to_string()
}

fn num(x: &str) -> JsonValue {
    JsonValue::Num(s(x))
}

fn st(x: &str) -> JsonValue {
    JsonValue::Str(s(x))
}

fn obj(pairs: Vec<(&str, JsonValue)>) -> JsonValue {
    json_object(pairs.into_iter().map(|(k, v)| (s(k), v)).collect())
}

fn importing(imports: Vec<&str>) -> JsonValue {
    obj(vec![(
        "imports",
        JsonValue::Arr(imports.into_iter().map(st).collect()),
    )])
}

#[test]
fn test_builder_circular_imports() {
    let mut builder = OptionsProviderBuilder::new();
    builder
        .add_feature("a", "/c/a.json", &importing(vec!["b"]))
        .unwrap();
    builder
        .add_feature("b", "/c/b.json", &importing(vec!["a"]))
        .unwrap();
    match builder.build() {
        Ok(_) => panic!("Expected an error."),
        Err(e) => {
            let pattern = r#"Error when resolving imports for '[ab]': Cycle detected with import '[ab]'"#;
            assert!(
                regex::Regex::new(pattern).unwrap().is_match(&e),
                "Got: {e}\nExpected pattern: {pattern}",
            );
        }
    }
}

#[test]
fn test_builder_cycle_in_imports() {
    let mut builder = OptionsProviderBuilder::new();
    builder
        .add_feature("start", "/c/start.json", &importing(vec!["a"]))
        .unwrap();
    builder
        .add_feature("a", "/c/a.json", &importing(vec!["b"]))
        .unwrap();
    builder
        .add_feature("b", "/c/b.json", &importing(vec!["c"]))
        .unwrap();
    builder
        .add_feature("c", "/c/c.json", &importing(vec!["a"]))
        .unwrap();
    match builder.build() {
        Ok(_) => panic!("Expected an error."),
        Err(e) => {
            let pattern = r#"Error when resolving imports for '[abc]': Cycle detected with import '[abc]'\. The features in the path \(not in order\): \{("([abc]|start)", ){2,3}"([abc]|start)"}"#;
            assert!(
                regex::Regex::new(pattern).unwrap().is_match(&e),
                "Got: {e}\nExpected pattern: {pattern}",
            );
        }
    }
}

#[test]
fn test_builder_duplicate_alias() {
    let mut builder = OptionsProviderBuilder::new();
    let with_alias = |alias: &str| {
        obj(vec![(
            "metadata",
            obj(vec![("aliases", JsonValue::Arr(vec![st(alias)]))]),
        )])
    };
    builder
        .add_feature("a", "/c/a.json", &with_alias("b"))
        .unwrap();
    match builder.add_feature("b", "/c/b.json", &with_alias("shared")) {
        Ok(_) => panic!("Expected an error."),
        Err(e) => {
            assert_eq!(
                e,
                "The alias 'b' for canonical feature name 'b' is already mapped to 'a'.",
            );
        }
    }
}

#[test]
fn test_builder_invalid_file() {
    // a document that does not fit the feature schema is rejected
    let mut builder = OptionsProviderBuilder::new();
    let bad = obj(vec![("imports", st("not an array"))]);
    let result = builder.add_feature("invalid", "/c/invalid.yaml", &bad);
    assert!(result.is_err());
}

#[test]
fn test_builder_conditions_in_imported_feature() {
    let mut builder = OptionsProviderBuilder::new();
    let conditioned = obj(vec![(
        "conditions",
        obj(vec![("jsonPointer", st("/x")), ("equals", num("1"))]),
    )]);
    builder
        .add_feature("invalid", "/c/invalid.json", &conditioned)
        .unwrap();
    builder
        .add_feature("parent", "/c/parent.json", &importing(vec!["invalid"]))
        .unwrap();
    match builder.build() {
        Ok(_) => panic!("Expected an error."),
        Err(e) => {
            assert_eq!(
                e,
                "Error when resolving imports for 'parent': The import 'invalid' has conditions. Conditions cannot be used in imported features."
            );
        }
    }
}

#[test]
fn test_builder_invalid_condition_pattern() {
    let mut builder = OptionsProviderBuilder::new();
    let bad = obj(vec![(
        "conditions",
        obj(vec![("jsonPointer", st("/x")), ("matches", st("{invalid}"))]),
    )]);
    let result = builder.add_feature("invalid", "/c/invalid.yaml", &bad);
    assert!(result.is_err());
    assert!(result.unwrap_err().starts_with("Invalid regex pattern"));
}

#[test]
fn test_builder_name_with_no_metadata() {
    let mut builder = OptionsProviderBuilder::new();
    let doc = obj(vec![("options", obj(vec![("wtv", num("3"))]))]);
    builder
        .add_feature("subdir/a", "/c/subdir/a.json", &doc)
        .unwrap();
    let provider = builder.build().unwrap();
    let metadata = provider
        .get_feature_metadata("subdir/a")
        .expect("metadata should be found");
    assert_eq!(metadata.name, Some(s("subdir/a")));
    assert!(metadata.dependents.is_none());
    let opts = provider.get_options("wtv", &vec![s("subdir/a")]).unwrap();
    assert!(json_eq(&opts, &num("3")));
}

#[test]
fn test_builder_used_canonical_alias() {
    let mut builder = OptionsProviderBuilder::new();
    let doc = obj(vec![(
        "metadata",
        obj(vec![("aliases", JsonValue::Arr(vec![st("a")]))]),
    )]);
    match builder.add_feature("a", "/c/a.json", &doc) {
        Ok(_) => panic!("Expected an error."),
        Err(e) => {
            assert_eq!(
                e,
                "The alias 'a' for canonical feature name 'a' is already mapped to 'a'.",
            );
        }
    }
}

#[test]
fn test_builder_duplicate_canonical_name() {
    let mut builder = OptionsProviderBuilder::new();
    let doc = obj(vec![("options", obj(vec![]))]);
    builder.add_feature("a", "/c/a.json", &doc).unwrap();
    match builder.add_feature("a", "/c/other/a.yaml", &doc) {
        Ok(_) => panic!("Expected an error."),
        Err(e) => {
            assert_eq!(
                e,
                "Error when loading '/c/other/a.yaml'. The canonical feature name for the file, 'a', was already added.",
            );
        }
    }
}

#[test]
fn test_builder_unknown_import() {
    let mut builder = OptionsProviderBuilder::new();
    builder
        .add_feature("parent", "/c/parent.json", &importing(vec!["missing"]))
        .unwrap();
    match builder.build() {
        Ok(_) => panic!("Expected an error."),
        Err(e) => {
            assert_eq!(
                e,
                "Error when resolving imports for 'parent': The import 'missing' is not a canonical feature name and not a recognized alias. Use a canonical feature name in order to keep dependencies clear and to help with navigating through files."
            );
        }
    }
}

#[test]
fn test_builder_import_by_alias() {
    let mut builder = OptionsProviderBuilder::new();
    let doc = obj(vec![(
        "metadata",
        obj(vec![("aliases", JsonValue::Arr(vec![st("shortcut")]))]),
    )]);
    builder.add_feature("real_name", "/c/real_name.json", &doc).unwrap();
    builder
        .add_feature("parent", "/c/parent.json", &importing(vec!["shortcut"]))
        .unwrap();
    match builder.build() {
        Ok(_) => panic!("Expected an error."),
        Err(e) => {
            assert_eq!(
                e,
                "Error when resolving imports for 'parent': The import 'shortcut' is not a canonical feature name. Use 'real_name' instead of 'shortcut' in order to keep dependencies clear and to help with navigating through files."
            );
        }
    }
}
