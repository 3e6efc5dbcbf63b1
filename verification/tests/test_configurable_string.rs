use optify::configurable_string::{
    ConfigurableString, LoadedFiles, ReplacementObject, ReplacementValue,
};
use std::collections::HashMap;

fn s(x: &str) -> String {
    x.to_string()
}

fn liquid(t: &str) -> ReplacementValue {
    ReplacementValue::Object(ReplacementObject::Liquid { liquid: s(t) })
}

fn file(p: &str) -> ReplacementValue {
    ReplacementValue::Object(ReplacementObject::File { file: s(p) })
}

fn plain(t: &str) -> ReplacementValue {
    ReplacementValue::String(s(t))
}

fn with_components(
    root: ReplacementValue,
    components: Vec<(&str, ReplacementValue)>,
) -> ConfigurableString {
    let mut map = HashMap::new();
    for (k, v) in components {
        map.insert(s(k), v);
    }
    ConfigurableString {
        root,
        components: Some(map),
    }
}

#[test]
fn test_configurable_string_deserialization() {
    let config = with_components(
        liquid("Welcome {{ user }} to {{ app }}"),
        vec![("user", plain("Alice")), ("app", plain("Optify"))],
    );
    let files = LoadedFiles::new();
    assert_eq!(config.build(&files).unwrap(), "Welcome Alice to Optify");
}

#[test]
fn test_with_object_components_liquid() {
    let config = with_components(
        liquid("Rendered: {{ liquid_template }} was {{ name }} and {{ name }}"),
        vec![
            ("name", plain("world")),
            ("liquid_template", liquid("Hello {{ name | upcase }}")),
        ],
    );
    let files = LoadedFiles::new();
    assert_eq!(
        config.build(&files).unwrap(),
        "Rendered: Hello WORLD was world and world"
    );
}

#[test]
fn test_with_file_containing_liquid_template() {
    let mut files = LoadedFiles::new();
    let file_path = s("test_template.liquid");
    files.insert(file_path.clone(), "Hello {{ name | upcase }}!".into());
    let config = with_components(
        liquid("File content: {{ template_file }}"),
        vec![("name", plain("Justin")), ("template_file", file(&file_path))],
    );
    // a file component contributes its literal contents
    assert_eq!(
        config.build(&files).unwrap(),
        "File content: Hello {{ name | upcase }}!"
    );
}

#[test]
fn test_build_with_liquid_filters() {
    let mut components = HashMap::new();
    components.insert(
        "action".to_string(),
        ReplacementValue::String("building".to_string()),
    );
    components.insert(
        "target".to_string(),
        ReplacementValue::String("application".to_string()),
    );

    let config = ConfigurableString {
        root: ReplacementValue::Object(ReplacementObject::Liquid {
            liquid: "Currently {{ action | upcase }} the {{ target | capitalize }}...".to_string(),
        }),
        components: Some(components),
    };

    let files = LoadedFiles::new();
    let result: String = config.build(&files).unwrap();
    assert_eq!(result, "Currently BUILDING the Application...");
}

#[test]
fn test_liquid_control_flow() {
    let config = with_components(
        liquid("{% if show_message != \"\" %}{{ message }}{% else %}No message{% endif %}"),
        vec![
            ("show_message", plain("true")),
            ("message", plain("Hello from Liquid!")),
        ],
    );
    let files = LoadedFiles::new();
    assert_eq!(config.build(&files).unwrap(), "Hello from Liquid!");

    let config2 = with_components(
        liquid("{% if show_message != \"\" %}{{ message }}{% else %}No message{% endif %}"),
        vec![
            ("show_message", plain("")),
            ("message", plain("Hello from Liquid!")),
        ],
    );
    assert_eq!(config2.build(&files).unwrap(), "No message");
}

#[test]
fn test_nested_liquid_template_access() {
    let config = with_components(
        liquid("{{ greeting }}, {{ formatted_name }}!"),
        vec![
            ("name", plain("alice")),
            ("greeting", plain("Hello")),
            ("formatted_name", liquid("dear {{ name | capitalize }}")),
        ],
    );
    let files = LoadedFiles::new();
    assert_eq!(config.build(&files).unwrap(), "Hello, dear Alice!");
}

#[test]
fn test_file_loading_with_root_path() {
    let mut files = LoadedFiles::new();
    files.insert("simple.txt".into(), "simple text not {{ replaced }}".into());
    let config = with_components(
        liquid("File content: {{ simple_file }}"),
        vec![("simple_file", file("simple.txt"))],
    );
    let result = config.build(&files);
    assert!(result.is_ok());
    assert_eq!(result.unwrap(), "File content: simple text not {{ replaced }}");
}

#[test]
fn test_root_as_liquid_object() {
    let config = with_components(
        liquid("Hello {{ name | upcase }}, welcome to {{ place }}!"),
        vec![("name", plain("alice")), ("place", plain("Wonderland"))],
    );
    let files = LoadedFiles::new();
    assert_eq!(
        config.build(&files).unwrap(),
        "Hello ALICE, welcome to Wonderland!"
    );
}

#[test]
fn test_root_as_file_object() {
    let mut files = LoadedFiles::new();
    files.insert(
        "main_template.txt".into(),
        "This is the main content from a file.".into(),
    );
    let config = with_components(file("main_template.txt"), vec![]);
    assert_eq!(
        config.build(&files).unwrap(),
        "This is the main content from a file."
    );
}

#[test]
fn test_root_as_liquid_file_object() {
    let mut files = LoadedFiles::new();
    files.insert(
        "main.liquid".into(),
        "Processing: {{ title | upcase }} by {{ author }}".into(),
    );
    let config = with_components(file("main.liquid"), vec![
        ("title", plain("the book")),
        ("author", plain("Jane Doe")),
    ]);
    // a file root is returned literally, without template processing
    assert_eq!(
        config.build(&files).unwrap(),
        "Processing: {{ title | upcase }} by {{ author }}"
    );
}

#[test]
fn test_root_object_with_nested_liquid_components() {
    let config = with_components(
        liquid("Report: {{ header }}\n{{ content }}"),
        vec![
            ("title", plain("quarterly report")),
            ("header", liquid("{{ title | upcase }}")),
            ("content", plain("This is the content section.")),
        ],
    );
    let files = LoadedFiles::new();
    assert_eq!(
        config.build(&files).unwrap(),
        "Report: QUARTERLY REPORT\nThis is the content section."
    );
}

#[test]
fn test_root_as_string() {
    let config = ConfigurableString {
        root: plain("Hello, world! {{ do_not_replace }}"),
        components: None,
    };
    let files = LoadedFiles::new();
    assert_eq!(
        config.build(&files).unwrap(),
        "Hello, world! {{ do_not_replace }}"
    );
}

#[test]
fn test_root_file_not_found_error() {
    let config = with_components(file("nonexistent.txt"), vec![]);
    let files = LoadedFiles::new();
    let result = config.build(&files);
    assert!(result.is_err());
    assert_eq!("File 'nonexistent.txt' not found.", result.unwrap_err());
}

#[test]
fn test_component_cycle_is_an_error() {
    let config = with_components(
        liquid("{{ a }}"),
        vec![("a", liquid("{{ b }}")), ("b", liquid("{{ a }}"))],
    );
    let files = LoadedFiles::new();
    let result = config.build(&files);
    assert!(result.is_err());
}

#[test]
fn test_date_filter_renders() {
    let config = with_components(liquid("Year: {{ stamp | date: \"%Y\" }}"), vec![
        ("stamp", plain("2024-01-15 10:00:00 +0000")),
    ]);
    let files = LoadedFiles::new();
    assert_eq!(config.build(&files).unwrap(), "Year: 2024");
}

#[test]
fn test_date_filter_after_newline_renders() {
    let config = with_components(liquid("Year: {{ stamp |\n date: \"%Y\" }}"), vec![
        ("stamp", plain("2024-01-15 10:00:00 +0000")),
    ]);
    let files = LoadedFiles::new();
    assert_eq!(config.build(&files).unwrap(), "Year: 2024");
}

#[test]
fn test_date_as_plain_word_renders() {
    let config = with_components(
        liquid("The date is {{ date }}"),
        vec![("date", plain("today's value"))],
    );
    let files = LoadedFiles::new();
    assert_eq!(config.build(&files).unwrap(), "The date is today's value");
}

#[test]
fn test_build_is_deterministic() {
    let make = || {
        with_components(
            liquid("{{ b }}-{{ a }}"),
            vec![("a", plain("one")), ("b", liquid("[{{ a }}]"))],
        )
    };
    let files = LoadedFiles::new();
    let first = make().build(&files).unwrap();
    let second = make().build(&files).unwrap();
    assert_eq!(first, second);
    assert_eq!(first, "[one]-one");
}
