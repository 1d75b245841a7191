use omniverlay_core::errors::OmniverlayError;
use omniverlay_core::extensions::config::{
    ConfigCategory, ConfigCategoryBuilder, ConfigEnum, ConfigValue, ConfigValueType,
    ExtensionConfig, ExtensionConfigBuilder, ExtensionConfigManager,
};
use omniverlay_core::utils::json::{JsonNumber, JsonValue};

fn text(s: &str) -> ConfigValueType {
    ConfigValueType::String(s.to_string())
}

fn value(t: ConfigValueType) -> ConfigValue {
    ConfigValue::new("a value".to_string(), t)
}

fn grades(current: &str, values: &[&str]) -> ConfigValueType {
    ConfigValueType::Enum(ConfigEnum::new(
        "grades".to_string(),
        current.to_string(),
        values.iter().map(|v| v.to_string()).collect(),
    ))
}

fn person(first: &str, age: i64) -> ExtensionConfig {
    ExtensionConfigBuilder::new()
        .add_category(
            ConfigCategoryBuilder::new("General".to_string())
                .add_value("first_name".to_string(), value(text(first)))
                .add_value("age".to_string(), value(ConfigValueType::Int(age)))
                .add_value("ratio".to_string(), value(ConfigValueType::Float(1.5f64.to_bits())))
                .build(),
        )
        .add_category(
            ConfigCategoryBuilder::new("Job".to_string())
                .add_value("Grade".to_string(), value(grades("A", &["A", "B", "C"])))
                .build(),
        )
        .build()
}

#[test]
fn match_structure_is_reflexive() {
    let a = person("Jhon", 30);
    assert!(a.match_structure(&a));
    let empty = ExtensionConfigBuilder::new().build();
    assert!(empty.match_structure(&empty));
}

#[test]
fn match_structure_ignores_current_values() {
    let a = person("Jhon", 30);
    let b = person("Jane", 41);
    assert!(a.match_structure(&b));
    assert!(b.match_structure(&a));
}

#[test]
fn match_structure_is_symmetric_on_a_mismatch() {
    let a = person("Jhon", 30);
    let shorter = ExtensionConfigBuilder::new()
        .add_category(
            ConfigCategoryBuilder::new("General".to_string())
                .add_value("first_name".to_string(), value(text("x")))
                .build(),
        )
        .build();
    assert!(!a.match_structure(&shorter));
    assert!(!shorter.match_structure(&a));
}

#[test]
fn match_structure_needs_the_same_category_names() {
    let a = ExtensionConfigBuilder::new()
        .add_category(ConfigCategory::new("One".to_string()))
        .build();
    let b = ExtensionConfigBuilder::new()
        .add_category(ConfigCategory::new("Two".to_string()))
        .build();
    let both = ExtensionConfigBuilder::new()
        .add_category(ConfigCategory::new("One".to_string()))
        .add_category(ConfigCategory::new("Two".to_string()))
        .build();
    assert!(!a.match_structure(&b));
    assert!(!a.match_structure(&both));
    assert!(!both.match_structure(&a));
}

#[test]
fn match_structure_does_not_depend_on_category_order() {
    let a = ExtensionConfigBuilder::new()
        .add_category(ConfigCategory::new("One".to_string()))
        .add_category(ConfigCategory::new("Two".to_string()))
        .build();
    let b = ExtensionConfigBuilder::new()
        .add_category(ConfigCategory::new("Two".to_string()))
        .add_category(ConfigCategory::new("One".to_string()))
        .build();
    assert!(a.match_structure(&b));
}

#[test]
fn a_category_added_under_a_name_that_is_there_overwrites() {
    let first = ConfigCategoryBuilder::new("One".to_string())
        .add_value("a".to_string(), value(text("x")))
        .build();
    let last = ConfigCategoryBuilder::new("One".to_string())
        .add_value("b".to_string(), value(ConfigValueType::Bool(true)))
        .build();
    let twice = ExtensionConfigBuilder::new().add_category(first).add_category(last).build();
    assert_eq!(twice.categories.len(), 1);
    assert_eq!(twice.categories[0].name, "One");
    assert!(twice.categories[0].get_value("a").is_none());
    assert!(twice.categories[0].get_value("b").is_some());
    let once = ExtensionConfigBuilder::new()
        .add_category(
            ConfigCategoryBuilder::new("One".to_string())
                .add_value("b".to_string(), value(ConfigValueType::Bool(false)))
                .build(),
        )
        .build();
    assert!(twice.match_structure(&once));
    assert!(once.match_structure(&twice));
    assert!(twice.match_structure(&twice));
}

#[test]
fn in_a_config_put_together_by_hand_the_last_of_a_name_counts() {
    let first = ConfigCategoryBuilder::new("One".to_string())
        .add_value("a".to_string(), value(text("x")))
        .build();
    let last = ConfigCategoryBuilder::new("One".to_string())
        .add_value("b".to_string(), value(ConfigValueType::Bool(true)))
        .build();
    let twice = ExtensionConfig { categories: vec![first, last] };
    let once = ExtensionConfigBuilder::new()
        .add_category(
            ConfigCategoryBuilder::new("One".to_string())
                .add_value("b".to_string(), value(ConfigValueType::Bool(false)))
                .build(),
        )
        .build();
    assert!(twice.match_structure(&once));
    assert!(once.match_structure(&twice));
}

#[test]
fn value_types_match_by_variant() {
    let all = [
        text("a"),
        ConfigValueType::Float(2.5f64.to_bits()),
        ConfigValueType::Int(3),
        ConfigValueType::Bool(false),
        ConfigValueType::List(vec![]),
        grades("A", &["A"]),
        ConfigValueType::Path("/tmp".to_string()),
    ];
    for (i, a) in all.iter().enumerate() {
        for (j, b) in all.iter().enumerate() {
            assert_eq!(ExtensionConfig::value_type_matches(a, b), i == j);
        }
    }
    assert!(ExtensionConfig::value_type_matches(&text("a"), &text("b")));
    assert!(ExtensionConfig::value_type_matches(
        &ConfigValueType::Float(1.0f64.to_bits()),
        &ConfigValueType::Float(f64::NAN.to_bits())
    ));
}

#[test]
fn lists_match_by_length_and_item_types() {
    let a = ConfigValueType::List(vec![ConfigValueType::Int(1), text("x")]);
    let b = ConfigValueType::List(vec![ConfigValueType::Int(9), text("y")]);
    let swapped = ConfigValueType::List(vec![text("y"), ConfigValueType::Int(9)]);
    let shorter = ConfigValueType::List(vec![ConfigValueType::Int(9)]);
    let nested_a = ConfigValueType::List(vec![a.clone(), ConfigValueType::Bool(true)]);
    let nested_b = ConfigValueType::List(vec![b.clone(), ConfigValueType::Bool(false)]);
    let nested_c = ConfigValueType::List(vec![shorter.clone(), ConfigValueType::Bool(false)]);
    assert!(ExtensionConfig::value_type_matches(&a, &b));
    assert!(!ExtensionConfig::value_type_matches(&a, &swapped));
    assert!(!ExtensionConfig::value_type_matches(&a, &shorter));
    assert!(!ExtensionConfig::value_type_matches(&shorter, &a));
    assert!(ExtensionConfig::value_type_matches(&nested_a, &nested_b));
    assert!(!ExtensionConfig::value_type_matches(&nested_a, &nested_c));
}

#[test]
fn enums_match_by_name_and_set_of_allowed_values() {
    let a = grades("A", &["A", "B", "C"]);
    let other_current = grades("C", &["A", "B", "C"]);
    let other_order = grades("A", &["C", "A", "B", "A"]);
    let fewer = grades("A", &["A", "B"]);
    let renamed = ConfigValueType::Enum(ConfigEnum::new(
        "marks".to_string(),
        "A".to_string(),
        vec!["A".to_string(), "B".to_string(), "C".to_string()],
    ));
    assert!(ExtensionConfig::value_type_matches(&a, &other_current));
    assert!(ExtensionConfig::value_type_matches(&a, &other_order));
    assert!(ExtensionConfig::value_type_matches(&other_order, &a));
    assert!(!ExtensionConfig::value_type_matches(&a, &fewer));
    assert!(!ExtensionConfig::value_type_matches(&fewer, &a));
    assert!(!ExtensionConfig::value_type_matches(&a, &renamed));
}

#[test]
fn categories_match_by_value_names_and_types() {
    let a = ConfigCategoryBuilder::new("One".to_string())
        .add_value("x".to_string(), value(ConfigValueType::Int(1)))
        .add_value("y".to_string(), value(text("t")))
        .build();
    let b = ConfigCategoryBuilder::new("Other".to_string())
        .add_value("y".to_string(), value(text("u")))
        .add_value("x".to_string(), value(ConfigValueType::Int(2)))
        .build();
    let c = ConfigCategoryBuilder::new("One".to_string())
        .add_value("x".to_string(), value(ConfigValueType::Bool(true)))
        .add_value("y".to_string(), value(text("t")))
        .build();
    let d = ConfigCategoryBuilder::new("One".to_string())
        .add_value("x".to_string(), value(ConfigValueType::Int(1)))
        .build();
    assert!(ExtensionConfig::category_structure_matches(&a, &b));
    assert!(!ExtensionConfig::category_structure_matches(&a, &c));
    assert!(!ExtensionConfig::category_structure_matches(&a, &d));
    assert!(!ExtensionConfig::category_structure_matches(&d, &a));
}

#[test]
fn a_builder_overwrites_a_value_added_twice() {
    let category = ConfigCategoryBuilder::new("One".to_string())
        .add_value("x".to_string(), value(ConfigValueType::Int(1)))
        .add_value("y".to_string(), value(text("t")))
        .add_value("x".to_string(), value(ConfigValueType::Bool(true)))
        .build();
    assert_eq!(category.name, "One");
    assert_eq!(category.values.len(), 2);
    assert!(matches!(category.get_value("x").unwrap().value, ConfigValueType::Bool(true)));
    assert!(matches!(category.get_value("y").unwrap().value, ConfigValueType::String(_)));
    assert!(category.get_value("z").is_none());
}

#[test]
fn a_category_holds_what_is_added() {
    let mut category = ConfigCategory::new("One".to_string());
    assert!(category.get_value("x").is_none());
    category.add_value("x".to_string(), value(ConfigValueType::Int(7)));
    category.add_value("x".to_string(), value(ConfigValueType::Int(8)));
    let held = category.get_value("x").unwrap();
    assert_eq!(held.description, "a value");
    assert!(matches!(held.value, ConfigValueType::Int(8)));
}

#[test]
fn the_config_builder_keeps_each_name_once_and_the_order_of_the_names() {
    let second_b = ConfigCategoryBuilder::new("B".to_string())
        .add_value("x".to_string(), value(ConfigValueType::Int(1)))
        .build();
    let config = ExtensionConfigBuilder::new()
        .add_category(ConfigCategory::new("B".to_string()))
        .add_category(ConfigCategory::new("A".to_string()))
        .add_category(ConfigCategory::new("C".to_string()))
        .add_category(second_b)
        .build();
    let names: Vec<&str> = config.categories.iter().map(|c| c.name.as_str()).collect();
    assert_eq!(names, vec!["B", "A", "C"]);
    // The category added last under the name is the one that is held.
    assert!(config.categories[0].get_value("x").is_some());
    assert!(ExtensionConfigBuilder::new().build().categories.is_empty());
}

#[test]
fn get_value_finds_the_first_category_with_the_value() {
    let config = ExtensionConfigBuilder::new()
        .add_category(
            ConfigCategoryBuilder::new("One".to_string())
                .add_value("x".to_string(), value(ConfigValueType::Int(1)))
                .build(),
        )
        .add_category(
            ConfigCategoryBuilder::new("Two".to_string())
                .add_value("x".to_string(), value(ConfigValueType::Int(2)))
                .add_value("y".to_string(), value(ConfigValueType::Int(3)))
                .build(),
        )
        .build();
    let (category, found) = config.get_value("x").unwrap();
    assert_eq!(category.name, "One");
    assert!(matches!(found.value, ConfigValueType::Int(1)));
    let (category, found) = config.get_value("y").unwrap();
    assert_eq!(category.name, "Two");
    assert!(matches!(found.value, ConfigValueType::Int(3)));
    assert!(config.get_value("z").is_none());
}

#[test]
fn get_category_finds_the_category_of_a_name() {
    let first = ConfigCategoryBuilder::new("One".to_string())
        .add_value("a".to_string(), value(text("x")))
        .build();
    let config = ExtensionConfigBuilder::new()
        .add_category(first)
        .add_category(ConfigCategory::new("Two".to_string()))
        .build();
    let found = config.get_category("One").unwrap();
    assert!(found.get_value("a").is_some());
    assert_eq!(config.get_category("Two").unwrap().name, "Two");
    assert!(config.get_category("Three").is_none());
    // Once the name is added again, the new category is the one found.
    let config = ExtensionConfigBuilder::new()
        .add_category(
            ConfigCategoryBuilder::new("One".to_string())
                .add_value("a".to_string(), value(text("x")))
                .build(),
        )
        .add_category(ConfigCategory::new("One".to_string()))
        .build();
    assert!(config.get_category("One").unwrap().get_value("a").is_none());
}

#[test]
fn config_enum_new_keeps_its_arguments() {
    let e = ConfigEnum::new("n".to_string(), "c".to_string(), vec!["c".to_string()]);
    assert_eq!(e.name, "n");
    assert_eq!(e.current, "c");
    assert_eq!(e.values, vec!["c".to_string()]);
}

#[test]
fn the_config_manager_finds_what_was_registered() {
    let mut manager = ExtensionConfigManager::new();
    assert!(matches!(
        manager.get_config("Perf"),
        Err(OmniverlayError::ConfigNotFound(ref n)) if n == "Perf"
    ));
    assert!(manager.register_config("Perf".to_string(), person("Jhon", 30)).is_ok());
    assert!(manager
        .register_config("Perf".to_string(), ExtensionConfigBuilder::new().build())
        .is_ok());
    assert_eq!(manager.get_config("Perf").unwrap().categories.len(), 0);
    assert!(manager.get_config("Clock").is_err());
}

#[test]
fn a_config_read_back_from_its_json_matches_it() {
    let config = person("Jhon", 30);
    let json = config.to_json().unwrap();
    let back = ExtensionConfig::from_json(&json).unwrap();
    assert!(back.match_structure(&config));
    assert!(config.match_structure(&back));
    assert_eq!(format!("{:?}", back), format!("{:?}", config));
}

#[test]
fn the_json_of_a_config_has_the_tagged_shape() {
    let config = ExtensionConfigBuilder::new()
        .add_category(
            ConfigCategoryBuilder::new("General".to_string())
                .add_value("age".to_string(), ConfigValue::new("d".to_string(), ConfigValueType::Int(30)))
                .build(),
        )
        .build();
    let json = config.to_json().unwrap();
    let expected = JsonValue::Object(vec![(
        "categories".to_string(),
        JsonValue::Array(vec![JsonValue::Object(vec![
            ("name".to_string(), JsonValue::String("General".to_string())),
            (
                "values".to_string(),
                JsonValue::Object(vec![(
                    "age".to_string(),
                    JsonValue::Object(vec![
                        ("description".to_string(), JsonValue::String("d".to_string())),
                        (
                            "value".to_string(),
                            JsonValue::Object(vec![(
                                "Int".to_string(),
                                JsonValue::Number(JsonNumber {
                                    unsigned: Some(30),
                                    signed: Some(30),
                                    float_bits: None,
                                }),
                            )]),
                        ),
                    ]),
                )]),
            ),
        ])]),
    )]);
    assert_eq!(format!("{:?}", json), format!("{:?}", expected));
}

fn shape_failure(r: Result<ExtensionConfig, OmniverlayError>) -> bool {
    matches!(
        r,
        Err(OmniverlayError::SerdeJson(ref m)) if m == "JSON value does not have the expected shape"
    )
}

fn config_json(value: JsonValue) -> JsonValue {
    JsonValue::Object(vec![(
        "categories".to_string(),
        JsonValue::Array(vec![JsonValue::Object(vec![
            ("name".to_string(), JsonValue::String("General".to_string())),
            (
                "values".to_string(),
                JsonValue::Object(vec![(
                    "v".to_string(),
                    JsonValue::Object(vec![
                        ("description".to_string(), JsonValue::String("d".to_string())),
                        ("value".to_string(), value),
                    ]),
                )]),
            ),
        ])]),
    )])
}

#[test]
fn from_json_refuses_what_is_not_a_config() {
    assert!(shape_failure(ExtensionConfig::from_json(&JsonValue::Null)));
    assert!(shape_failure(ExtensionConfig::from_json(&JsonValue::Object(vec![]))));
    assert!(shape_failure(ExtensionConfig::from_json(&JsonValue::Object(vec![(
        "categories".to_string(),
        JsonValue::Bool(true)
    )]))));
    // A value must be an object with a single member named after a variant.
    assert!(shape_failure(ExtensionConfig::from_json(&config_json(JsonValue::Bool(true)))));
    assert!(shape_failure(ExtensionConfig::from_json(&config_json(JsonValue::Object(vec![(
        "Colour".to_string(),
        JsonValue::Bool(true)
    )])))));
    assert!(shape_failure(ExtensionConfig::from_json(&config_json(JsonValue::Object(vec![
        ("Bool".to_string(), JsonValue::Bool(true)),
        ("Int".to_string(), JsonValue::Bool(true)),
    ])))));
    // The payload must fit the variant.
    assert!(shape_failure(ExtensionConfig::from_json(&config_json(JsonValue::Object(vec![(
        "Int".to_string(),
        JsonValue::String("3".to_string())
    )])))));
    assert!(shape_failure(ExtensionConfig::from_json(&config_json(JsonValue::Object(vec![(
        "Int".to_string(),
        JsonValue::Number(JsonNumber { unsigned: None, signed: None, float_bits: Some(0) })
    )])))));
    assert!(shape_failure(ExtensionConfig::from_json(&config_json(JsonValue::Object(vec![(
        "List".to_string(),
        JsonValue::Array(vec![JsonValue::Null])
    )])))));
}

#[test]
fn from_json_reads_each_variant() {
    let number = JsonNumber { unsigned: Some(3), signed: Some(3), float_bits: Some(3.0f64.to_bits()) };
    let cases: Vec<(JsonValue, ConfigValueType)> = vec![
        (
            JsonValue::Object(vec![("String".to_string(), JsonValue::String("s".to_string()))]),
            text("s"),
        ),
        (
            JsonValue::Object(vec![("Float".to_string(), JsonValue::Number(number))]),
            ConfigValueType::Float(3.0f64.to_bits()),
        ),
        (
            JsonValue::Object(vec![("Int".to_string(), JsonValue::Number(number))]),
            ConfigValueType::Int(3),
        ),
        (
            JsonValue::Object(vec![("Bool".to_string(), JsonValue::Bool(true))]),
            ConfigValueType::Bool(true),
        ),
        (
            JsonValue::Object(vec![("Path".to_string(), JsonValue::String("/p".to_string()))]),
            ConfigValueType::Path("/p".to_string()),
        ),
        (
            JsonValue::Object(vec![(
                "List".to_string(),
                JsonValue::Array(vec![JsonValue::Object(vec![(
                    "Bool".to_string(),
                    JsonValue::Bool(false),
                )])]),
            )]),
            ConfigValueType::List(vec![ConfigValueType::Bool(false)]),
        ),
        (
            JsonValue::Object(vec![(
                "Enum".to_string(),
                JsonValue::Object(vec![
                    ("values".to_string(), JsonValue::Array(vec![JsonValue::String("A".to_string())])),
                    ("name".to_string(), JsonValue::String("grades".to_string())),
                    ("current".to_string(), JsonValue::String("A".to_string())),
                    ("extra".to_string(), JsonValue::Null),
                ]),
            )]),
            grades("A", &["A"]),
        ),
    ];
    for (json, expected) in cases {
        let config = ExtensionConfig::from_json(&config_json(json)).unwrap();
        let held = config.categories[0].get_value("v").unwrap();
        assert_eq!(held.description, "d");
        assert_eq!(format!("{:?}", held.value), format!("{:?}", expected));
    }
}

#[test]
fn of_two_members_with_one_name_the_last_counts() {
    let json = JsonValue::Object(vec![
        ("categories".to_string(), JsonValue::Bool(true)),
        ("categories".to_string(), JsonValue::Array(vec![])),
    ]);
    let config = ExtensionConfig::from_json(&json).unwrap();
    assert_eq!(config.categories.len(), 0);
}
