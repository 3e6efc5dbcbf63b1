use optify::bindings::{JsGetOptionsPreferences, JsOptionsMetadata, JsWatcherOptions};
use optify::watcher::{
    OptionsWatcherBuilder, OptionsWatcherState, WatchableOptionsProviderBuilder, WatcherOptions,
};

#[test]
fn test_watcher_options_default_debounce() {
    let options = WatcherOptions::default();
    assert_eq!(options.debounce_duration_ms, 1000);
}

#[test]
fn test_watcher_builder_collects_directories() {
    let mut builder = OptionsWatcherBuilder::new();
    builder.add_directory("/configs/main").unwrap();
    builder.add_directory("/configs/extra").unwrap();
    builder.with_debounce_timeout(250).unwrap();
    assert_eq!(
        builder.directories(),
        &vec!["/configs/main".to_string(), "/configs/extra".to_string()]
    );
    assert_eq!(builder.debounce_timeout_ms(), 250);
    let mut options = JsWatcherOptions::new();
    options.set_debounce_duration_ms(75);
    assert_eq!(options.get_debounce_duration_ms(), 75);
    builder.with_watcher_options(options.inner.clone());
    assert_eq!(builder.debounce_timeout_ms(), 75);
}

#[test]
fn test_watchable_builder_collects_directories() {
    let mut builder = WatchableOptionsProviderBuilder::new();
    builder.add_directory("/configs").unwrap();
    assert_eq!(builder.directories(), &vec!["/configs".to_string()]);
}

#[test]
fn test_watcher_debounce_fires_after_window() {
    let mut state = OptionsWatcherState::new(1000, 5_000);
    assert!(state.on_timer(10_000).is_none());
    state.on_file_changed("a.json".to_string(), 10_000);
    // before the window elapses nothing fires
    assert!(state.on_timer(10_500).is_none());
    // after the window elapses the pending paths come out
    let fired = state.on_timer(11_000);
    assert_eq!(fired, Some(vec!["a.json".to_string()]));
    // a successful rebuild advances the build time
    state.on_rebuild_succeeded(11_050);
    assert_eq!(state.last_modified_ms, 11_050);
    assert!(state.last_modified_ms > 5_000);
}

#[test]
fn test_watcher_coalesces_changes() {
    let mut state = OptionsWatcherState::new(1000, 0);
    state.on_file_changed("a.json".to_string(), 100);
    state.on_file_changed("b.json".to_string(), 400);
    assert!(state.on_timer(1_200).is_none());
    let fired = state.on_timer(1_400);
    assert_eq!(fired, Some(vec!["a.json".to_string(), "b.json".to_string()]));
}

#[test]
fn test_watcher_failed_rebuild_keeps_last_modified() {
    let mut state = OptionsWatcherState::new(100, 42);
    state.on_file_changed("a.json".to_string(), 50);
    let _ = state.on_timer(200);
    state.on_rebuild_failed();
    assert_eq!(state.last_modified_ms, 42);
}

#[test]
fn test_js_metadata_empty() {
    let metadata = JsOptionsMetadata::new();
    assert!(metadata.aliases().is_none());
    assert!(metadata.dependents().is_none());
    assert!(metadata.name().is_none());
    assert!(metadata.owners().is_none());
    assert!(metadata.path().is_none());
}

#[test]
fn test_js_preferences_round_trip() {
    let mut preferences = JsGetOptionsPreferences::new();
    assert!(!preferences.are_configurable_strings_enabled());
    preferences.enable_configurable_strings();
    assert!(preferences.are_configurable_strings_enabled());
    preferences.disable_configurable_strings();
    assert!(!preferences.are_configurable_strings_enabled());
    preferences.set_skip_feature_name_conversion(true);
    assert!(preferences.inner.skip_feature_name_conversion);
    preferences
        .set_constraints_json(Some(r#"{"env": "test"}"#))
        .unwrap();
    assert!(preferences.inner.constraints.is_some());
    assert!(preferences.set_constraints_json(Some("{not json")).is_err());
    preferences
        .set_overrides_json(Some(r#"{"x": 1}"#))
        .unwrap();
    assert!(preferences.inner.overrides.is_some());
}
