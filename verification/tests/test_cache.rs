use optify::builder::OptionsProviderBuilder;
use optify::json::{json_eq, json_object, JsonValue};
use optify::preferences::{CacheOptions, GetOptionsPreferences};
use optify::provider::OptionsProvider;

fn s(x: &str) -> String {
    x.to_string()
}

fn num(x: &str) -> JsonValue {
    JsonValue::Num(s(x))
}

fn st(x: &str) -> JsonValue {
    JsonValue::Str(s(x))
}

fn obj(pairs: Vec<(&str, JsonValue)>) -> JsonValue {
    json_object(pairs.into_iter().map(|(k, v)| (s(k), v)).collect())
}

fn names(list: Vec<&str>) -> Vec<String> {
    list.into_iter().map(s).collect()
}

fn get_new_provider() -> OptionsProvider {
    let mut builder = OptionsProviderBuilder::new();
    let doc_a = obj(vec![
        (
            "metadata",
            obj(vec![("aliases", JsonValue::Arr(vec![st("a")]))]),
        ),
        (
            "options",
            obj(vec![(
                "myConfig",
                obj(vec![
                    ("rootString", st("root string")),
                    ("myObject", obj(vec![("one", num("1"))])),
                ]),
            )]),
        ),
    ]);
    builder
        .add_feature("feature_A", "/configs/feature_A.json", &doc_a)
        .unwrap();
    let doc_b = obj(vec![
        (
            "metadata",
            obj(vec![("aliases", JsonValue::Arr(vec![st("b")]))]),
        ),
        (
            "options",
            obj(vec![(
                "myConfig",
                obj(vec![("rootString", st("from B")), ("extra", num("7"))]),
            )]),
        ),
    ]);
    builder
        .add_feature(
            "feature_B/initial",
            "/configs/feature_B/initial.yaml",
            &doc_b,
        )
        .unwrap();
    builder.build().unwrap()
}

#[test]
fn test_entire_config_cache_hit() {
    let mut provider = get_new_provider();
    let cache_options = CacheOptions {};
    let result1 = provider
        .get_all_options(&names(vec!["a"]), Some(&cache_options), None)
        .unwrap();
    let result2 = provider
        .get_all_options(&names(vec!["a"]), Some(&cache_options), None)
        .unwrap();
    assert!(json_eq(&result1, &result2));
}

#[test]
fn test_options_cache_hit() {
    let mut provider = get_new_provider();
    let cache_options = CacheOptions {};
    let result1 = provider
        .get_options_with_preferences("myConfig", &names(vec!["a"]), Some(&cache_options), None)
        .unwrap();
    let cached_result = provider
        .get_options_from_cache("myConfig", &names(vec!["a"]), Some(&cache_options), None)
        .unwrap();
    assert!(cached_result.is_some());
    assert!(json_eq(&cached_result.unwrap(), &result1));
    let result2 = provider
        .get_options_with_preferences("myConfig", &names(vec!["a"]), Some(&cache_options), None)
        .unwrap();
    assert!(json_eq(&result1, &result2));
}

#[test]
fn test_cache_different_keys() {
    let mut provider = get_new_provider();
    let cache_options = CacheOptions {};
    let result1 = provider
        .get_options_with_preferences("myConfig", &names(vec!["a"]), Some(&cache_options), None)
        .unwrap();
    let result2 = provider
        .get_options_with_preferences(
            "myConfig.rootString",
            &names(vec!["a"]),
            Some(&cache_options),
            None,
        )
        .unwrap();
    assert!(!json_eq(&result1, &result2));
}

#[test]
fn test_cache_different_features() {
    let mut provider = get_new_provider();
    let cache_options = CacheOptions {};
    let result_a = provider
        .get_options_with_preferences("myConfig", &names(vec!["a"]), Some(&cache_options), None)
        .unwrap();
    let result_b = provider
        .get_options_with_preferences("myConfig", &names(vec!["b"]), Some(&cache_options), None)
        .unwrap();
    assert!(!json_eq(&result_a, &result_b));
}

#[test]
fn test_cache_with_preferences() {
    let mut provider = get_new_provider();
    let cache_options = CacheOptions {};
    let mut preferences1 = GetOptionsPreferences::new();
    preferences1.skip_feature_name_conversion = false;
    let mut preferences2 = GetOptionsPreferences::new();
    preferences2.skip_feature_name_conversion = false;
    let result1 = provider
        .get_all_options(&names(vec!["a"]), Some(&cache_options), Some(&preferences1))
        .unwrap();
    let result2 = provider
        .get_all_options(&names(vec!["a"]), Some(&cache_options), Some(&preferences2))
        .unwrap();
    assert!(json_eq(&result1, &result2));
}

#[test]
fn test_cache_with_overrides() {
    let mut provider = get_new_provider();
    let cache_options = CacheOptions {};
    let mut preferences = GetOptionsPreferences::new();
    preferences
        .set_overrides_json(Some(r#"{"test": "override"}"#))
        .unwrap();
    let result = provider.get_all_options(&names(vec!["a"]), Some(&cache_options), Some(&preferences));
    assert!(result.is_err());
    assert!(result
        .unwrap_err()
        .contains("Caching when overrides are given is not supported"));
}

#[test]
fn test_cache_feature_name_conversion() {
    let mut provider = get_new_provider();
    let cache_options = CacheOptions {};
    let result1 = provider
        .get_options_with_preferences("myConfig", &names(vec!["a"]), Some(&cache_options), None)
        .unwrap();
    let cached_result = provider
        .get_options_from_cache("myConfig", &names(vec!["A"]), Some(&cache_options), None)
        .unwrap();
    assert!(cached_result.is_some());
    assert!(json_eq(&cached_result.unwrap(), &result1));
}

#[test]
fn test_cache_multiple_features() {
    let mut provider = get_new_provider();
    let cache_options = CacheOptions {};
    let result1 = provider
        .get_all_options(&names(vec!["a", "feature_B/initial"]), Some(&cache_options), None)
        .unwrap();
    let result2 = provider
        .get_all_options(&names(vec!["a", "feature_B/initial"]), Some(&cache_options), None)
        .unwrap();
    assert!(json_eq(&result1, &result2));
    let result3 = provider
        .get_all_options(&names(vec!["feature_B/initial", "a"]), Some(&cache_options), None)
        .unwrap();
    assert!(!json_eq(&result1, &result3));
}

#[test]
fn test_cache_multiple_features_get_options() {
    let mut provider = get_new_provider();
    let cache_options = CacheOptions {};
    let result1 = provider
        .get_options_with_preferences(
            "myConfig",
            &names(vec!["a", "feature_B/initial"]),
            Some(&cache_options),
            None,
        )
        .unwrap();
    let cached_result = provider
        .get_options_from_cache(
            "myConfig",
            &names(vec!["A", "FEature_B/initial"]),
            Some(&cache_options),
            None,
        )
        .unwrap();
    assert!(cached_result.is_some());
    assert!(json_eq(&cached_result.unwrap(), &result1));
    let result2 = provider
        .get_options_with_preferences(
            "myConfig",
            &names(vec!["A", "feature_B/iniTial"]),
            Some(&cache_options),
            None,
        )
        .unwrap();
    assert!(json_eq(&result1, &result2));
}

#[test]
fn test_cache_multiple_features_get_options_with_preferences() {
    let mut provider = get_new_provider();
    let cache_options = CacheOptions {};
    let mut preferences = GetOptionsPreferences::new();
    preferences.skip_feature_name_conversion = true;
    let feature_names = names(vec!["feature_A", "feature_B/initial"]);
    let result1 = provider
        .get_options_with_preferences(
            "myConfig",
            &feature_names,
            Some(&cache_options),
            Some(&preferences),
        )
        .unwrap();

    let cached_miss_result = provider
        .get_options_from_cache(
            "myConfig",
            &names(vec!["a", "FEature_B/initial"]),
            Some(&cache_options),
            Some(&preferences),
        )
        .unwrap();
    assert!(cached_miss_result.is_none());

    let mut preferences = GetOptionsPreferences::new();
    preferences.skip_feature_name_conversion = true;
    let cached_hit_result = provider
        .get_options_from_cache(
            "myConfig",
            &feature_names,
            Some(&cache_options),
            Some(&preferences),
        )
        .unwrap();
    assert!(cached_hit_result.is_some());
    assert!(json_eq(&cached_hit_result.unwrap(), &result1));
}

#[test]
fn test_cache_empty_features() {
    let mut provider = get_new_provider();
    let cache_options = CacheOptions {};
    let empty_features: Vec<String> = vec![];
    let result1 = provider
        .get_all_options(&empty_features, Some(&cache_options), None)
        .unwrap();
    let result2 = provider
        .get_all_options(&empty_features, Some(&cache_options), None)
        .unwrap();
    assert!(json_eq(&result1, &result2));
}

#[test]
fn test_cache_get_all_options_configurable_strings() {
    let mut provider = get_new_provider();
    let cache_options = CacheOptions {};
    let mut preferences_false = GetOptionsPreferences::new();
    preferences_false.are_configurable_strings_enabled = false;
    let result_false = provider
        .get_all_options(&names(vec!["a"]), Some(&cache_options), Some(&preferences_false))
        .unwrap();
    let mut preferences_true = GetOptionsPreferences::new();
    preferences_true.are_configurable_strings_enabled = true;
    let result_true = provider
        .get_all_options(&names(vec!["a"]), Some(&cache_options), Some(&preferences_true))
        .unwrap();
    let result_true2 = provider
        .get_all_options(&names(vec!["a"]), Some(&cache_options), Some(&preferences_true))
        .unwrap();
    assert!(json_eq(&result_true, &result_true2));
    let result_false2 = provider
        .get_all_options(&names(vec!["a"]), Some(&cache_options), Some(&preferences_false))
        .unwrap();
    assert!(json_eq(&result_false, &result_false2));
}

#[test]
fn test_cache_configurable_strings_false_equals_no_preferences() {
    let mut provider = get_new_provider();
    let cache_options = CacheOptions {};
    let mut preferences_false = GetOptionsPreferences::new();
    preferences_false.are_configurable_strings_enabled = false;
    let feature_names = names(vec!["a"]);
    let result_no_preferences = provider
        .get_options_with_preferences("myConfig", &feature_names, Some(&cache_options), None)
        .unwrap();
    let cached_result = provider
        .get_options_from_cache(
            "myConfig",
            &feature_names,
            Some(&cache_options),
            Some(&preferences_false),
        )
        .unwrap();
    assert!(cached_result.is_some());
    let result_with_false = cached_result.unwrap();
    assert!(json_eq(&result_no_preferences, &result_with_false));
    let cached_result = provider
        .get_options_from_cache("myConfig", &names(vec!["a"]), Some(&cache_options), None)
        .unwrap();
    assert!(cached_result.is_some());
    assert!(json_eq(&cached_result.unwrap(), &result_with_false));
}

#[test]
fn test_cache_get_options_configurable_strings_enabled() {
    let mut provider = get_new_provider();
    let cache_options = CacheOptions {};
    let mut preferences_false = GetOptionsPreferences::new();
    preferences_false.are_configurable_strings_enabled = false;
    let _result_false = provider
        .get_options_with_preferences(
            "myConfig",
            &names(vec!["a"]),
            Some(&cache_options),
            Some(&preferences_false),
        )
        .unwrap();
    let cached_hit_with_false = provider
        .get_options_from_cache(
            "myConfig",
            &names(vec!["a"]),
            Some(&cache_options),
            Some(&preferences_false),
        )
        .unwrap();
    assert!(cached_hit_with_false.is_some());
    let mut preferences_true = GetOptionsPreferences::new();
    preferences_true.are_configurable_strings_enabled = true;
    let cached_miss = provider
        .get_options_from_cache(
            "myConfig",
            &names(vec!["a"]),
            Some(&cache_options),
            Some(&preferences_true),
        )
        .unwrap();
    assert!(cached_miss.is_none());
    let result_true = provider
        .get_options_with_preferences(
            "myConfig",
            &names(vec!["a"]),
            Some(&cache_options),
            Some(&preferences_true),
        )
        .unwrap();
    let cached_hit = provider
        .get_options_from_cache(
            "myConfig",
            &names(vec!["a"]),
            Some(&cache_options),
            Some(&preferences_true),
        )
        .unwrap();
    assert!(cached_hit.is_some());
    assert!(json_eq(&cached_hit.unwrap(), &result_true));
}

#[test]
fn test_cache_constraints() {
    let mut provider = get_new_provider();
    let cache_options = CacheOptions {};
    let mut preferences1 = GetOptionsPreferences::new();
    preferences1
        .set_constraints_json(Some(r#"{"env": "test"}"#))
        .unwrap();
    let mut preferences2 = GetOptionsPreferences::new();
    preferences2
        .set_constraints_json(Some(r#"{"env": "test"}"#))
        .unwrap();
    let result1 = provider
        .get_all_options(&names(vec!["a"]), Some(&cache_options), Some(&preferences1))
        .unwrap();
    let result2 = provider
        .get_all_options(&names(vec!["a"]), Some(&cache_options), Some(&preferences2))
        .unwrap();
    assert!(json_eq(&result1, &result2));
}
