use optify::builder::OptionsProviderBuilder;
use optify::json::{json_eq, json_object, JsonValue};
use optify::preferences::GetOptionsPreferences;
use optify::provider::OptionsProvider;

fn s(x: &str) -> String {
    x.to_string()
}

fn num(x: &str) -> JsonValue {
    JsonValue::Num(s(x))
}

fn st(x: &str) -> JsonValue {
    JsonValue::Str(s(x))
}

fn obj(pairs: Vec<(&str, JsonValue)>) -> JsonValue {
    json_object(pairs.into_iter().map(|(k, v)| (s(k), v)).collect())
}

fn names(list: Vec<&str>) -> Vec<String> {
    list.into_iter().map(s).collect()
}

fn feature_a_options() -> JsonValue {
    obj(vec![(
        "myConfig",
        obj(vec![
            ("rootString", st("root string")),
            ("rootString2", st("gets overridden")),
            ("myArray", JsonValue::Arr(vec![st("example item 1")])),
            (
                "myObject",
                obj(vec![
                    ("one", num("1")),
                    ("two", num("2")),
                    ("string", st("string")),
                    (
                        "deeper",
                        obj(vec![("wtv", num("3")), ("list", JsonValue::Arr(vec![num("1"), num("2")]))]),
                    ),
                ]),
            ),
        ]),
    )])
}

fn feature_b_options() -> JsonValue {
    obj(vec![(
        "myConfig",
        obj(vec![
            ("rootString2", st("from feature B")),
            (
                "myObject",
                obj(vec![
                    ("three", num("3")),
                    ("deeper", obj(vec![("new", st("from B"))])),
                ]),
            ),
        ]),
    )])
}

fn build_simple() -> OptionsProvider {
    let mut builder = OptionsProviderBuilder::new();
    let doc_a = obj(vec![
        (
            "metadata",
            obj(vec![
                ("aliases", JsonValue::Arr(vec![st("a")])),
                ("owners", st("a-team@company.com")),
                ("details", st("The file is for testing.")),
            ]),
        ),
        ("options", feature_a_options()),
    ]);
    builder
        .add_feature("feature_A", "/configs/feature_A.json", &doc_a)
        .unwrap();
    let doc_b = obj(vec![
        (
            "metadata",
            obj(vec![("aliases", JsonValue::Arr(vec![st("b")]))]),
        ),
        ("options", feature_b_options()),
    ]);
    builder
        .add_feature(
            "feature_B/initial",
            "/configs/feature_B/initial.yaml",
            &doc_b,
        )
        .unwrap();
    let doc_c = obj(vec![("options", obj(vec![("myConfig", obj(vec![]))]))]);
    builder
        .add_feature("A_with_comments", "/configs/A_with_comments.json5", &doc_c)
        .unwrap();
    builder.build().unwrap()
}

fn build_with_conditions() -> OptionsProvider {
    let mut builder = OptionsProviderBuilder::new();
    let doc_a = obj(vec![
        (
            "conditions",
            obj(vec![("jsonPointer", st("/info")), ("equals", num("3"))]),
        ),
        ("options", obj(vec![("on", st("A"))])),
    ]);
    builder.add_feature("A", "/configs/A.json", &doc_a).unwrap();
    let doc_b = obj(vec![("options", obj(vec![("on", st("B"))]))]);
    builder.add_feature("B", "/configs/B.json", &doc_b).unwrap();
    builder.build().unwrap()
}

fn build_inheritance() -> OptionsProvider {
    let mut builder = OptionsProviderBuilder::new();
    let plain = |opts: JsonValue| obj(vec![("options", opts)]);
    let importing = |imports: Vec<&str>, opts: JsonValue| {
        obj(vec![
            (
                "imports",
                JsonValue::Arr(imports.into_iter().map(st).collect()),
            ),
            ("options", opts),
        ])
    };
    builder
        .add_feature("base1", "/c/base1.json", &plain(obj(vec![("b1", num("1"))])))
        .unwrap();
    builder
        .add_feature("base2", "/c/base2.json", &plain(obj(vec![("b2", num("2"))])))
        .unwrap();
    builder
        .add_feature(
            "parent1",
            "/c/parent1.json",
            &importing(vec!["base1"], obj(vec![("p1", num("1"))])),
        )
        .unwrap();
    builder
        .add_feature(
            "parent2",
            "/c/parent2.json",
            &importing(vec!["base2"], obj(vec![("p2", num("2"))])),
        )
        .unwrap();
    builder
        .add_feature(
            "grandparent",
            "/c/grandparent.json",
            &importing(vec!["parent1"], obj(vec![("g", num("1"))])),
        )
        .unwrap();
    builder
        .add_feature(
            "grandparent_too",
            "/c/grandparent_too.json",
            &importing(vec!["parent1"], obj(vec![("g2", num("1"))])),
        )
        .unwrap();
    builder
        .add_feature(
            "super",
            "/c/super.json",
            &importing(vec!["base1", "base2"], obj(vec![])),
        )
        .unwrap();
    builder
        .add_feature(
            "super_with_options",
            "/c/super_with_options.json",
            &importing(vec!["base1", "base2"], obj(vec![("s", num("1"))])),
        )
        .unwrap();
    builder.build().unwrap()
}

#[test]
fn test_filtered_feature_names() {
    let provider = build_with_conditions();
    // without constraints, a condition is read against the empty document,
    // so the conditioned feature drops out
    let filtered = provider
        .get_filtered_feature_names(&names(vec!["a", "b"]), None)
        .unwrap();
    assert_eq!(filtered, names(vec!["B"]));

    let mut preferences = GetOptionsPreferences::new();
    preferences.skip_feature_name_conversion = true;
    let filtered = provider
        .get_filtered_feature_names(&names(vec!["A", "B"]), Some(&preferences))
        .unwrap();
    assert_eq!(filtered, names(vec!["B"]));

    preferences.set_constraints(Some(obj(vec![("info", num("3")), ("status", st("new"))])));
    let filtered = provider
        .get_filtered_feature_names(&names(vec!["A", "B"]), Some(&preferences))
        .unwrap();
    assert_eq!(filtered, names(vec!["A", "B"]));

    preferences.set_constraints(Some(obj(vec![("info", num("2")), ("status", st("new"))])));
    preferences.skip_feature_name_conversion = false;
    let filtered = provider
        .get_filtered_feature_names(&names(vec!["a", "b"]), Some(&preferences))
        .unwrap();
    assert_eq!(filtered, names(vec!["B"]));
}

#[test]
fn test_provider_get_aliases() {
    let provider = build_simple();
    let mut aliases = provider.get_aliases();
    aliases.sort();
    assert_eq!(aliases, names(vec!["a", "b"]));
}

#[test]
fn test_provider_get_features_and_aliases() {
    let provider = build_simple();
    let mut features_and_aliases = provider.get_features_and_aliases();
    features_and_aliases.sort();
    assert_eq!(
        features_and_aliases,
        names(vec!["A_with_comments", "a", "b", "feature_A", "feature_B/initial"])
    );
}

#[test]
fn test_provider_get_options_missing_key() {
    let key = "does not exist";
    let feature_names = names(vec!["a"]);
    let mut provider = build_simple();
    let opts = provider.get_options(key, &feature_names);
    assert!(opts.is_err());
    assert_eq!(
        opts.unwrap_err(),
        "Error getting options with features [\"a\"]: configuration property \"does not exist\" not found"
    );

    let mut preferences = GetOptionsPreferences::new();
    preferences.overrides = Some(obj(vec![("does not exist", num("42"))]));
    let opts = provider.get_options_with_preferences(key, &feature_names, None, Some(&preferences));
    let value = opts.expect("should be able to get options");
    assert!(json_eq(&value, &num("42")));
}

#[test]
fn test_provider_get_options_no_features() {
    let key = "wtv";
    let mut provider = build_simple();
    let feature_names: Vec<String> = vec![];
    let opts = provider.get_options(key, &feature_names);
    assert!(opts.is_err());
    assert_eq!(
        opts.unwrap_err(),
        "Error getting options with features []: configuration property \"wtv\" not found"
    );

    let mut preferences = GetOptionsPreferences::new();
    preferences.overrides = Some(obj(vec![(key, num("42"))]));
    let opts = provider.get_options_with_preferences(key, &feature_names, None, Some(&preferences));
    let value = opts.expect("should be able to get options");
    assert!(json_eq(&value, &num("42")));
}

#[test]
fn test_provider_get_options_with_overrides() {
    let mut provider = build_simple();
    let mut preferences = GetOptionsPreferences::new();
    preferences.overrides = Some(obj(vec![(
        "myConfig",
        obj(vec![
            ("new key", num("33")),
            ("rootString", st("new string")),
            (
                "myObject",
                obj(vec![
                    ("one", num("1321")),
                    (
                        "something new for test_provider_get_options_with_overrides",
                        st("hello"),
                    ),
                ]),
            ),
        ]),
    )]));
    let opts = provider
        .get_options_with_preferences("myConfig", &names(vec!["a"]), None, Some(&preferences))
        .unwrap();

    let expected = obj(vec![
        ("new key", num("33")),
        ("rootString", st("new string")),
        ("rootString2", st("gets overridden")),
        ("myArray", JsonValue::Arr(vec![st("example item 1")])),
        (
            "myObject",
            obj(vec![
                ("one", num("1321")),
                ("two", num("2")),
                (
                    "something new for test_provider_get_options_with_overrides",
                    st("hello"),
                ),
                ("string", st("string")),
                (
                    "deeper",
                    obj(vec![("wtv", num("3")), ("list", JsonValue::Arr(vec![num("1"), num("2")]))]),
                ),
            ]),
        ),
    ]);
    assert!(json_eq(&opts, &expected));
}

#[test]
fn test_provider_get_canonical_feature_names() {
    let provider = build_simple();
    let canonical = provider
        .get_canonical_feature_names(&names(vec!["a", "b", "feature_A"]))
        .unwrap();
    assert_eq!(
        canonical,
        names(vec!["feature_A", "feature_B/initial", "feature_A"])
    );
}

#[test]
fn test_provider_get_canonical_feature_name_case_insensitive() {
    let provider = build_simple();
    assert_eq!(
        provider.get_canonical_feature_name("FEATURE_a").unwrap(),
        s("feature_A")
    );
    assert_eq!(provider.get_canonical_feature_name("A").unwrap(), s("feature_A"));
    let missing = provider.get_canonical_feature_name("unknown");
    assert_eq!(
        missing.unwrap_err(),
        "The given feature \"unknown\" was not found."
    );
}

#[test]
fn test_provider_get_all_options() {
    let mut provider = build_simple();
    let feature_names = names(vec!["a"]);
    let entire_config = provider.get_all_options(&feature_names, None, None).unwrap();
    let key = "myConfig";
    let opts = provider.get_options(key, &feature_names).unwrap();
    let expected = json_object(vec![(s(key), opts)]);
    assert!(json_eq(&entire_config, &expected));
}

#[test]
fn test_provider_get_dependents() {
    let provider = build_inheritance();
    let grandparent_metadata = provider.get_feature_metadata("grandparent").unwrap();
    assert!(grandparent_metadata.dependents.is_none());

    let parent_metadata = provider.get_feature_metadata("parent1").unwrap();
    assert_eq!(
        parent_metadata.dependents,
        Some(names(vec!["grandparent", "grandparent_too"]))
    );

    let base1_metadata = provider.get_feature_metadata("base1").unwrap();
    assert_eq!(
        base1_metadata.dependents,
        Some(names(vec!["parent1", "super", "super_with_options"]))
    );

    let base2_metadata = provider.get_feature_metadata("base2").unwrap();
    assert_eq!(
        base2_metadata.dependents,
        Some(names(vec!["parent2", "super", "super_with_options"]))
    );
}

#[test]
fn test_provider_get_features() {
    let provider = build_simple();
    let mut features = provider.get_features();
    features.sort_unstable();
    assert_eq!(
        features,
        names(vec!["A_with_comments", "feature_A", "feature_B/initial"])
    );
}

#[test]
fn test_provider_get_metadata() {
    let provider = build_simple();
    let mut features = provider.get_features();
    features.sort_unstable();
    let metadata = provider.get_features_with_metadata();
    let mut metadata_keys: Vec<String> = metadata.iter().map(|(k, _)| k.clone()).collect();
    metadata_keys.sort_unstable();
    assert_eq!(metadata_keys, features);

    let key = provider.get_canonical_feature_name("a").unwrap();
    let a_metadata = metadata
        .iter()
        .find(|(k, _)| *k == key)
        .map(|(_, m)| m)
        .unwrap();
    assert_eq!(a_metadata.aliases, Some(names(vec!["a"])));
    let details = a_metadata.details.as_ref().unwrap();
    assert!(json_eq(details, &st("The file is for testing.")));
    assert_eq!(a_metadata.name.as_ref().unwrap(), "feature_A");
    assert_eq!(a_metadata.owners.as_ref().unwrap(), "a-team@company.com");
    assert!(a_metadata.dependents.is_none());
    assert_eq!(a_metadata.path.as_ref().unwrap(), "/configs/feature_A.json");
}

#[test]
fn test_provider_has_conditions() {
    let conditions_provider = build_with_conditions();
    assert!(conditions_provider.has_conditions("A"));
    assert!(!conditions_provider.has_conditions("B"));
}

#[test]
fn test_configurable_values_get_all_options_with_overrides() {
    let builder = OptionsProviderBuilder::new();
    let mut provider = builder.build().unwrap();
    let mut preferences = GetOptionsPreferences::new();
    preferences.are_configurable_strings_enabled = true;
    preferences.overrides = Some(obj(vec![(
        "message",
        obj(vec![
            ("$type", st("Optify.ConfigurableString")),
            ("base", obj(vec![("liquid", st("Hello {{ name }}!"))])),
            ("arguments", obj(vec![("name", st("from the test"))])),
        ]),
    )]));

    let features: Vec<String> = vec![];
    let opts = provider
        .get_all_options(&features, None, Some(&preferences))
        .unwrap();
    assert!(json_eq(
        &opts,
        &obj(vec![("message", st("Hello from the test!"))])
    ));
}

#[test]
fn test_import_inheritance() {
    let mut builder = OptionsProviderBuilder::new();
    let base = obj(vec![(
        "options",
        obj(vec![("obj", obj(vec![("one", num("1")), ("two", num("2"))]))]),
    )]);
    builder.add_feature("base", "/c/base.json", &base).unwrap();
    let child = obj(vec![
        ("imports", JsonValue::Arr(vec![st("base")])),
        (
            "options",
            obj(vec![("obj", obj(vec![("one", num("11")), ("three", num("3"))]))]),
        ),
    ]);
    builder.add_feature("child", "/c/child.json", &child).unwrap();
    let provider = builder.build().unwrap();
    let opts = provider.get_options("obj", &names(vec!["child"])).unwrap();
    assert!(json_eq(
        &opts,
        &obj(vec![("one", num("11")), ("two", num("2")), ("three", num("3"))])
    ));
}

#[test]
fn test_import_purity_for_pure_importer() {
    let mut builder = OptionsProviderBuilder::new();
    let base = obj(vec![(
        "options",
        obj(vec![("k", obj(vec![("a", num("1"))]))]),
    )]);
    builder.add_feature("base", "/c/base.json", &base).unwrap();
    let wrapper = obj(vec![("imports", JsonValue::Arr(vec![st("base")]))]);
    builder
        .add_feature("wrapper", "/c/wrapper.json", &wrapper)
        .unwrap();
    let mut provider = builder.build().unwrap();
    let direct = provider.get_all_options(&names(vec!["base"]), None, None).unwrap();
    let through = provider
        .get_all_options(&names(vec!["wrapper"]), None, None)
        .unwrap();
    assert!(json_eq(&direct, &through));
}

#[test]
fn test_simple_merge_in_request_order() {
    let mut builder = OptionsProviderBuilder::new();
    let a = obj(vec![(
        "options",
        obj(vec![("myConfig", obj(vec![("x", num("1")), ("y", num("2"))]))]),
    )]);
    builder.add_feature("A", "/c/A.json", &a).unwrap();
    let b = obj(vec![(
        "options",
        obj(vec![("myConfig", obj(vec![("y", num("9")), ("z", num("3"))]))]),
    )]);
    builder.add_feature("B", "/c/B.json", &b).unwrap();
    let provider = builder.build().unwrap();
    let forward = provider
        .get_options("myConfig", &names(vec!["A", "B"]))
        .unwrap();
    assert!(json_eq(
        &forward,
        &obj(vec![("x", num("1")), ("y", num("9")), ("z", num("3"))])
    ));
    let backward = provider
        .get_options("myConfig", &names(vec!["B", "A"]))
        .unwrap();
    assert!(json_eq(
        &backward,
        &obj(vec![("x", num("1")), ("y", num("2")), ("z", num("3"))])
    ));
}

#[test]
fn test_arrays_replaced_in_request() {
    let mut builder = OptionsProviderBuilder::new();
    let a = obj(vec![(
        "options",
        obj(vec![(
            "k",
            obj(vec![("arr", JsonValue::Arr(vec![num("1"), num("2"), num("3")]))]),
        )]),
    )]);
    builder.add_feature("A", "/c/A.json", &a).unwrap();
    let b = obj(vec![(
        "options",
        obj(vec![(
            "k",
            obj(vec![("arr", JsonValue::Arr(vec![num("4"), num("5")]))]),
        )]),
    )]);
    builder.add_feature("B", "/c/B.json", &b).unwrap();
    let provider = builder.build().unwrap();
    let merged = provider.get_options("k", &names(vec!["A", "B"])).unwrap();
    assert!(json_eq(
        &merged,
        &obj(vec![("arr", JsonValue::Arr(vec![num("4"), num("5")]))])
    ));
}

#[test]
fn test_filtered_with_constraints_from_json() {
    let provider = build_with_conditions();
    let mut preferences = GetOptionsPreferences::new();
    preferences
        .set_constraints_json(Some(r#"{"info": 3}"#))
        .unwrap();
    let filtered = provider
        .get_filtered_feature_names(&names(vec!["a", "b"]), Some(&preferences))
        .unwrap();
    assert_eq!(filtered, names(vec!["A", "B"]));
    preferences
        .set_constraints_json(Some(r#"{"info": 4}"#))
        .unwrap();
    let filtered = provider
        .get_filtered_feature_names(&names(vec!["a", "b"]), Some(&preferences))
        .unwrap();
    assert_eq!(filtered, names(vec!["B"]));
}
