use rust_graphql_generator_demo::toml_generator::{DependencyInfo, TomlStructure};

fn text(s: &str) -> String {
    s.to_string()
}

#[test]
fn package_table_holds_name_version_and_edition_in_key_order() {
    let manifest = TomlStructure::new(text("generated"));
    let expected = vec![
        (text("edition"), text("2021")),
        (text("name"), text("generated")),
        (text("version"), text("0.1.0")),
    ];
    assert_eq!(manifest.package(), &expected);
}

#[test]
fn dependency_table_lists_nine_crates_in_key_order() {
    let manifest = TomlStructure::new(text("generated"));
    let keys: Vec<&str> = manifest.dependencies().iter().map(|e| e.0.as_str()).collect();
    assert_eq!(
        keys,
        vec![
            "async-graphql",
            "async-graphql-poem",
            "async-trait",
            "itertools",
            "poem",
            "sea-orm",
            "tokio",
            "tracing",
            "tracing-subscriber",
        ]
    );
    let mut sorted = keys.clone();
    sorted.sort();
    assert_eq!(keys, sorted);
}

#[test]
fn dependency_versions_and_features_are_as_listed() {
    let manifest = TomlStructure::new(text("demo"));
    let deps = manifest.dependencies();
    assert_eq!(
        deps[0].1,
        DependencyInfo {
            version: text("3.0.38"),
            features: Some(vec![text("decimal"), text("chrono"), text("dataloader")]),
        }
    );
    assert_eq!(deps[1].1, DependencyInfo { version: text("3.0.38"), features: None });
    assert_eq!(deps[2].1, DependencyInfo { version: text("0.1.53"), features: None });
    assert_eq!(deps[3].1, DependencyInfo { version: text("0.10.3"), features: None });
    assert_eq!(deps[4].1, DependencyInfo { version: text("1.3.29"), features: None });
    assert_eq!(
        deps[5].1,
        DependencyInfo {
            version: text("0.7.0"),
            features: Some(vec![text("sqlx-sqlite"), text("runtime-async-std-native-tls")]),
        }
    );
    assert_eq!(
        deps[6].1,
        DependencyInfo {
            version: text("1.17.0"),
            features: Some(vec![text("macros"), text("rt-multi-thread")]),
        }
    );
    assert_eq!(deps[7].1, DependencyInfo { version: text("0.1.34"), features: None });
    assert_eq!(deps[8].1, DependencyInfo { version: text("0.3.11"), features: None });
}
