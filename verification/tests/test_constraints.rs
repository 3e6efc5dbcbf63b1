use optify::conditions::{Condition, ConditionExpression, Predicate, RegexWrapper};
use optify::constraints::Constraints;
use optify::json::{json_object, JsonValue};

fn s(x: &str) -> String {
    x.to_string()
}

fn num(x: &str) -> JsonValue {
    JsonValue::Num(s(x))
}

fn st(x: &str) -> JsonValue {
    JsonValue::Str(s(x))
}

fn obj(pairs: Vec<(&str, JsonValue)>) -> JsonValue {
    json_object(pairs.into_iter().map(|(k, v)| (s(k), v)).collect())
}

fn equals(pointer: &str, value: JsonValue) -> ConditionExpression {
    ConditionExpression::Condition(Condition {
        json_pointer: s(pointer),
        operator_value: Predicate::Equals { equals: value },
    })
}

fn matches(pointer: &str, pattern: &str) -> ConditionExpression {
    ConditionExpression::Condition(Condition {
        json_pointer: s(pointer),
        operator_value: Predicate::Matches {
            matches: RegexWrapper::new(s(pattern)).unwrap(),
        },
    })
}

#[test]
fn test_evaluate_equals_string() {
    let constraints = Constraints {
        constraints: obj(vec![
            ("name", st("John")),
            ("age", num("30")),
            ("city", st("New York")),
        ]),
    };
    assert!(constraints.evaluate(&equals("/name", st("John"))));
    assert!(!constraints.evaluate(&equals("/name", st("Jane"))));
}

#[test]
fn test_evaluate_equals_number() {
    let constraints = Constraints {
        constraints: obj(vec![("age", num("30")), ("score", num("95.5"))]),
    };
    assert!(constraints.evaluate(&equals("/age", num("30"))));
    assert!(constraints.evaluate(&equals("/score", num("95.5"))));
}

#[test]
fn test_evaluate_equals_boolean() {
    let constraints = Constraints {
        constraints: obj(vec![
            ("active", JsonValue::Bool(true)),
            ("disabled", JsonValue::Bool(false)),
        ]),
    };
    assert!(constraints.evaluate(&equals("/active", JsonValue::Bool(true))));
    assert!(constraints.evaluate(&equals("/disabled", JsonValue::Bool(false))));
    assert!(!constraints.evaluate(&equals("/active", JsonValue::Bool(false))));
}

#[test]
fn test_evaluate_equals_null() {
    let constraints = Constraints {
        constraints: obj(vec![("value", JsonValue::Null), ("name", st("test"))]),
    };
    assert!(constraints.evaluate(&equals("/value", JsonValue::Null)));
    assert!(!constraints.evaluate(&equals("/name", JsonValue::Null)));
}

#[test]
fn test_evaluate_equals_array() {
    let constraints = Constraints {
        constraints: obj(vec![
            (
                "tags",
                JsonValue::Arr(vec![st("rust"), st("programming"), st("systems")]),
            ),
            ("numbers", JsonValue::Arr(vec![num("1"), num("2"), num("3")])),
        ]),
    };
    assert!(constraints.evaluate(&equals(
        "/tags",
        JsonValue::Arr(vec![st("rust"), st("programming"), st("systems")])
    )));
    assert!(constraints.evaluate(&equals(
        "/numbers",
        JsonValue::Arr(vec![num("1"), num("2"), num("3")])
    )));
    assert!(!constraints.evaluate(&equals(
        "/numbers",
        JsonValue::Arr(vec![num("1"), num("2"), num("3"), num("4")])
    )));
}

#[test]
fn test_evaluate_equals_object() {
    let user = obj(vec![
        ("name", st("John")),
        ("age", num("30")),
        ("city", st("New York")),
        ("numbers", JsonValue::Arr(vec![num("1"), num("2"), num("3")])),
    ]);
    let constraints = Constraints {
        constraints: obj(vec![("user", user.clone())]),
    };
    let condition = equals("/user", user);
    assert!(constraints.evaluate(&condition));
    let negated = ConditionExpression::Not {
        not: Box::new(condition),
    };
    assert!(!constraints.evaluate(&negated));
}

#[test]
fn test_evaluate_equals_nested_path() {
    let constraints = Constraints {
        constraints: obj(vec![(
            "user",
            obj(vec![("profile", obj(vec![("name", st("Alice"))]))]),
        )]),
    };
    assert!(constraints.evaluate(&equals("/user/profile/name", st("Alice"))));
}

#[test]
fn test_evaluate_equals_missing_path() {
    let constraints = Constraints {
        constraints: obj(vec![("name", st("John"))]),
    };
    assert!(!constraints.evaluate(&equals("/missing/path", st("value"))));
}

#[test]
fn test_evaluate_matches_basic() {
    let constraints = Constraints {
        constraints: obj(vec![
            ("email", st("john@example.com")),
            ("phone", st("+1-555-1234")),
        ]),
    };
    assert!(constraints.evaluate(&matches("/email", r".*@example\.com")));
    assert!(!constraints.evaluate(&matches("/email", r".*@gmail\.com")));
}

#[test]
fn test_evaluate_matches_regex_patterns() {
    let constraints = Constraints {
        constraints: obj(vec![("version", st("v1.2.3")), ("id", st("ABC123"))]),
    };
    assert!(constraints.evaluate(&matches("/version", r"^v\d+\.\d+\.\d+$")));
    assert!(constraints.evaluate(&matches("/id", r"^[A-Z]+\d+$")));
}

#[test]
fn test_evaluate_matches_regex_patterns_with_array() {
    let constraints = Constraints {
        constraints: obj(vec![(
            "numbers",
            JsonValue::Arr(vec![num("1"), num("2"), num("3")]),
        )]),
    };
    assert!(constraints.evaluate(&matches("/numbers", r"1")));
    assert!(constraints.evaluate(&matches("/numbers/1", r"^2$")));
    assert!(!constraints.evaluate(&matches("/numbers/1", r"^1$")));
    assert!(!constraints.evaluate(&matches("/numbers", r"4")));
}

#[test]
fn test_evaluate_matches_regex_patterns_with_boolean() {
    let constraints = Constraints {
        constraints: obj(vec![("active", JsonValue::Bool(true))]),
    };
    assert!(constraints.evaluate(&matches("/active", r"^tr..$")));
    assert!(!constraints.evaluate(&matches("/active", r"false")));
}

#[test]
fn test_evaluate_matches_regex_patterns_with_object() {
    let constraints = Constraints {
        constraints: obj(vec![(
            "user",
            obj(vec![
                ("age", num("30")),
                ("city", st("New York")),
                ("name", st("John")),
            ]),
        )]),
    };
    assert!(constraints.evaluate(&matches("/user", r"John")));
    assert!(constraints.evaluate(&matches(
        "/user",
        r#"^\{"age":30,"city":"New York","name":"John"\}$"#
    )));
    assert!(!constraints.evaluate(&matches(
        "/user",
        r#"\{"blah":"John","age":30,"city":"New York"\}"#
    )));
}

#[test]
fn test_evaluate_and_group() {
    let constraints = Constraints {
        constraints: obj(vec![
            ("name", st("John")),
            ("age", st("30")),
            ("city", st("New York")),
        ]),
    };
    let both = ConditionExpression::And {
        and: vec![
            equals("/name", st("John")),
            equals("/city", st("New York")),
        ],
    };
    assert!(constraints.evaluate(&both));
    let one_false = ConditionExpression::And {
        and: vec![
            equals("/name", st("John")),
            equals("/city", st("Los Angeles")),
        ],
    };
    assert!(!constraints.evaluate(&one_false));
}

#[test]
fn test_evaluate_or_group() {
    let constraints = Constraints {
        constraints: obj(vec![("status", st("active")), ("type", st("premium"))]),
    };
    let one_true = ConditionExpression::Or {
        or: vec![
            matches("/status", r"^(active|new)$"),
            equals("/type", st("basic")),
        ],
    };
    assert!(constraints.evaluate(&one_true));
    let both_false = ConditionExpression::Or {
        or: vec![
            equals("/status", st("inactive")),
            equals("/type", st("basic")),
        ],
    };
    assert!(!constraints.evaluate(&both_false));
}

#[test]
fn test_evaluate_not_group() {
    let constraints = Constraints {
        constraints: obj(vec![("enabled", st("true"))]),
    };
    let not_true = ConditionExpression::Not {
        not: Box::new(equals("/enabled", st("true"))),
    };
    assert!(!constraints.evaluate(&not_true));
    let not_false = ConditionExpression::Not {
        not: Box::new(equals("/enabled", st("false"))),
    };
    assert!(constraints.evaluate(&not_false));
}

#[test]
fn test_evaluate_nested_groups() {
    let constraints = Constraints {
        constraints: obj(vec![
            (
                "user",
                obj(vec![("role", st("admin")), ("active", st("true"))]),
            ),
            ("department", st("IT")),
        ]),
    };
    let grouped = ConditionExpression::Or {
        or: vec![
            ConditionExpression::And {
                and: vec![
                    equals("/user/role", st("admin")),
                    equals("/user/active", st("true")),
                ],
            },
            equals("/department", st("HR")),
        ],
    };
    assert!(constraints.evaluate(&grouped));
    let negated = ConditionExpression::Not {
        not: Box::new(ConditionExpression::Or {
            or: vec![
                equals("/user/role", st("admin")),
                equals("/department", st("IT")),
            ],
        }),
    };
    assert!(!constraints.evaluate(&negated));
}

#[test]
fn test_evaluate_empty_groups() {
    let constraints = Constraints {
        constraints: obj(vec![]),
    };
    assert!(constraints.evaluate(&ConditionExpression::And { and: vec![] }));
    assert!(!constraints.evaluate(&ConditionExpression::Or { or: vec![] }));
}

#[test]
fn test_evaluate_array_elements() {
    let constraints = Constraints {
        constraints: obj(vec![
            (
                "tags",
                JsonValue::Arr(vec![st("rust"), st("programming"), st("systems")]),
            ),
            ("numbers", JsonValue::Arr(vec![num("1"), num("2"), num("3")])),
        ]),
    };
    let both = ConditionExpression::And {
        and: vec![equals("/tags/0", st("rust")), equals("/numbers/1", num("2"))],
    };
    assert!(constraints.evaluate(&both));
    assert!(!constraints.evaluate(&equals("/tags/10", st("rust"))));
}

#[test]
fn test_evaluate_special_characters_in_path() {
    let constraints = Constraints {
        constraints: obj(vec![
            ("key/with/slashes", st("value1")),
            ("key~with~tildes", st("value2")),
            ("key.with.dots", st("value3")),
        ]),
    };
    assert!(constraints.evaluate(&equals("/key~1with~1slashes", st("value1"))));
    assert!(constraints.evaluate(&equals("/key~0with~0tildes", st("value2"))));
}

#[test]
fn test_evaluate_complex_nested_conditions() {
    let constraints = Constraints {
        constraints: obj(vec![
            (
                "request",
                obj(vec![
                    ("method", st("POST")),
                    ("path", st("/api/users")),
                    (
                        "headers",
                        obj(vec![
                            ("content-type", st("application/json")),
                            ("authorization", st("Bearer token123")),
                        ]),
                    ),
                ]),
            ),
            ("timestamp", st("2023-01-01T00:00:00Z")),
        ]),
    };
    let condition = ConditionExpression::And {
        and: vec![
            ConditionExpression::And {
                and: vec![
                    equals("/request/method", st("POST")),
                    matches("/request/path", r"^/api/.*"),
                ],
            },
            ConditionExpression::Or {
                or: vec![
                    equals("/request/headers/content-type", st("application/json")),
                    matches("/request/headers/authorization", r"^Bearer .*"),
                ],
            },
        ],
    };
    assert!(constraints.evaluate(&condition));
}

#[test]
fn test_invalid_regex_is_rejected() {
    assert!(RegexWrapper::new("{invalid}".to_string()).is_err());
}
