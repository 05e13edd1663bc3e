use manifest_parser_rs::{Manifest, ManifestError, ManifestParser, Rule};

#[test]
fn valid_key_queries() {
    let manifest = Manifest::parse(
        r#"
                [package]
                name = "test"
                version = "1.0.0"
                
                [dependencies]
                serde = "1.0.0"
            "#,
    )
    .unwrap();

    assert_eq!(manifest.get_by_key("package", "name").unwrap(), "test");
    assert_eq!(manifest.get_by_key("package", "version").unwrap(), "1.0.0");
    assert_eq!(manifest.get_by_key("dependencies", "serde").unwrap(), "1.0.0");
}

#[test]
fn invalid_key_queries() {
    let manifest = Manifest::parse(
        r#"
                [package]
                name = "test"
                version = "1.0.0"
            "#,
    )
    .unwrap();

    assert!(matches!(
        manifest.get_by_key("invalid", "key"),
        Err(ManifestError::MissingSection(_))
    ));

    assert!(matches!(
        manifest.get_by_key("package", "invalid"),
        Err(ManifestError::MissingKey(_, _))
    ));
}

#[test]
fn valid_section_queries() {
    let manifest = Manifest::parse(
        r#"
                [package]
                name = "test"
                version = "1.0.0"
            "#,
    )
    .unwrap();

    let section = manifest.get_by_section("package").unwrap();
    assert_eq!(section.get("name"), Some(&"test".to_string()));
    assert_eq!(section.get("version"), Some(&"1.0.0".to_string()));
}

#[test]
fn invalid_section_queries() {
    let manifest = Manifest::parse(
        "
                [package]
                name = \"test\"
\t\t\t\tversion = \"1.0.0\"
            ",
    )
    .unwrap();

    assert!(matches!(
        manifest.get_by_section("invalid"),
        Err(ManifestError::MissingSection(_))
    ));
}

#[test]
fn valid_package_section() {
    let input = r#"[package]
            name = "test"
            version = "1.0.0"
            description = "A test package""#;

    let pair = ManifestParser::parse(Rule::PackageSection, input).unwrap();
    assert!(pair.as_str().contains("name"));
    assert!(pair.as_str().contains("version"));
}

#[test]
fn valid_dependencies_section() {
    let input = r#"[dependencies]
            serde = "1.0.0"
            tokio = { version = "1.0.0" }"#;

    let pair = ManifestParser::parse(Rule::DependenciesSection, input).unwrap();

    assert!(pair.as_str().contains("tokio"));
    assert!(pair.as_str().contains("tokio"));
}

#[test]
fn valid_section() {
    let inputs = [
        r#"[lib]
                name = "mylib"
                path = "src/lib.rs""#,
        r#"[[bin]]
                name = "mycli"
                path = "src/main.rs""#,
    ];

    for input in inputs {
        let pair = ManifestParser::parse(Rule::Section, input).unwrap();
        assert!(pair.as_str().contains("name"));
    }
}

#[test]
fn invalid_sections() {
    let invalid_inputs = [
        // Missing required fields
        r#"[package]
                name = "test""#,
        // Malformed section
        r#"[dependencies
                serde = "1.0""#,
    ];

    for input in invalid_inputs {
        assert!(
            ManifestParser::parse(Rule::Manifest, input).is_err(),
            "Should fail: {}",
            input
        );
    }

    // A header of any name opens a generic section.
    let input = r#"[invalid]
                key = "value""#;
    assert!(ManifestParser::parse(Rule::Manifest, input).is_ok());
    let manifest = Manifest::parse(input).unwrap();
    assert_eq!(manifest.sections(), vec![&"invalid".to_string()]);
    assert_eq!(manifest.get_by_section("invalid").unwrap().keys(), vec![&"key".to_string()]);
    assert_eq!(manifest.get_by_key("invalid", "key").unwrap(), "value");
}

#[test]
fn verbose_dependencies_section() {
    let input = "[dependencies]
\t\t\tserde = \"1.0.0\"
\t\t\ttokio = { version = \"1.0.0\", features = [\"full\"], optional = true }";

    let pair = ManifestParser::parse(Rule::DependenciesSection, input).unwrap();

    assert!(pair.as_str().contains("tokio"));
    assert!(pair.as_str().contains("full"));
    assert!(pair.as_str().contains("optional"));
}

#[test]
fn version_correct_examples() {
    let inputs = [
        "\"1.0.0\"",
        "\"1.0.0-alpha\"",
        "\"1.0.0-alpha.1\"",
        "\"1.0.0-alpha+001\"",
        "\"1.0.0+20130313144700\"",
        "\"1.0.0-beta+exp.sha.5114f85\"",
        "\"1.0.0+21AF26D3--117B344092BD\"",
    ];

    for input in inputs {
        let pair = ManifestParser::parse(Rule::Version, input).unwrap();
        assert_eq!(pair.as_str(), input);
    }
}

#[test]
fn incorrect_version_examples() {
    let inputs = [
        "\"1.0\"",
        "\"1.0.0+\"",
        "\"1.0.0+20130313144700+\"",
        "\"1.0.0+21AF26D3--117B344092BD+\"",
        "\"1.1.1.1.1.1.1\"",
        "\"word\"",
    ];

    for input in inputs {
        assert!(ManifestParser::parse(Rule::Version, input).is_err());
    }
}

#[test]
fn features_with_multiple_entries() {
    let input = "[dependencies]
\t\t\ttokio = { version = \"1.0.0\", features = [\"full\", \"io-std\", \"net\"] }
\t\t\t";

    let pair = ManifestParser::parse(Rule::DependenciesSection, input).unwrap();

    assert!(pair.as_str().contains("features"));
    assert!(pair.as_str().contains("full"));
    assert!(pair.as_str().contains("io-std"));
    assert!(pair.as_str().contains("net"));
}

#[test]
fn dependency_spec_edge_cases() {
    let inputs = [
        "[dependencies]
\t\t\t\tcrate_a = { version = \"1.0.0\", git = \"https://mohylyanka.com/some.git\" }",
        "[dependencies]
\t\t\t\tcrate_b = { path = \"../local/path\" }",
        "[dependencies]
\t\t\t\tcrate_c = { registry = \"custom\", workspace = true, optional = true }",
    ];

    for input in inputs {
        let pair = ManifestParser::parse(Rule::DependenciesSection, input).unwrap();
        assert!(pair.as_str().contains("crate"));
    }
}

#[test]
fn invalid_numeric_identifier_in_version() {
    let invalid_versions = ["\"001.1.0\"", "\"1.01.0\"", "\"0.0.01\""];

    for version in invalid_versions {
        assert!(
            ManifestParser::parse(Rule::Version, version).is_err(),
            "Should fail for invalid version: {}",
            version
        );
    }
}

#[test]
fn all_section_names_coverage() {
    let section_inputs = [
        r#"[lib]"#,
        r#"[bin]"#,
        r#"[example]"#,
        r#"[test]"#,
        r#"[bench]"#,
        r#"[build-dependencies]"#,
        r#"[target]"#,
        r#"[badges]"#,
        r#"[features]"#,
        r#"[lints]"#,
        r#"[patch]"#,
        r#"[replace]"#,
        r#"[profile]"#,
        r#"[workspace]"#,
    ];

    for input in section_inputs {
        let pair = ManifestParser::parse(Rule::SectionDefinition, input).unwrap();
        assert!(pair.as_str().starts_with("["));
    }
}

#[test]
fn comment_parsing() {
    let input = r#"
        # Test
        [package]
        name = "test" # Test
        version = "1.0.0"
        "#;

    let manifest = Manifest::parse(input).unwrap();
    assert_eq!(manifest.get_by_key("package", "name").unwrap(), "test");
    assert_eq!(manifest.get_by_key("package", "version").unwrap(), "1.0.0");
}

#[test]
fn possible_value_characters() {
    let input = r#"[package]
        name = "test"
        version = "1.0.0"
        description = "Symbols: []<>@:\\/,-_\""
        "#;

    let pair = ManifestParser::parse(Rule::PackageSection, input).unwrap();
    assert!(pair.as_str().contains("description"));
    assert!(pair.as_str().contains("Symbols: []<>@:\\\\/,-_\\\""));
}

#[test]
fn whitespace_flexibility() {
    let input = "[package]
\t\t\tname    =    \"test\"
\t\t\tversion = \"1.0.0\"";

    let manifest = Manifest::parse(input).unwrap();
    assert_eq!(manifest.get_by_key("package", "name").unwrap(), "test");
    assert_eq!(manifest.get_by_key("package", "version").unwrap(), "1.0.0");
}

#[test]
fn extended_version_parsing() {
    let versions = [
        "\"1.2.3\"",
        "\"1.2.3-alpha\"",
        "\"1.2.3+build123\"",
        "\"1.2.3-alpha+build123\"",
    ];

    for version in versions.iter() {
        let input = format!(
            "[package]
       \t\t\t\tname = \"test\"
        \t\t\tversion = {}
        \t\t\t",
            version
        );

        let manifest = Manifest::parse(&input).unwrap();
        assert_eq!(
            manifest.get_by_key("package", "version").unwrap(),
            version.trim_matches('"')
        );
    }
}

#[test]
fn complex_dependency_spec() {
    let input = "[package]
\t\t\tname = \"test\"
\t\t\tversion = \"1.0.0\"
\t\t\t
\t\t\t[dependencies]
\t\t\tmycrate = { version = \"1.0.0\", git = \"https://mohylyanka.com/rust.git\", path = \"../local/path\", registry = \"custom\", optional = true, workspace = true, features = [\"full\", \"io-std\", \"net\"] }
\t\t\t";

    let manifest = Manifest::parse(input).unwrap();
    let dependency = manifest.get_by_key("dependencies", "mycrate").unwrap();
    assert!(dependency.contains("version"));
    assert!(dependency.contains("git"));
    assert!(dependency.contains("path"));
    assert!(dependency.contains("registry"));
    assert!(dependency.contains("optional"));
    assert!(dependency.contains("workspace"));
    assert!(dependency.contains("features"));
}

#[test]
fn generic_section_inside() {
    let input = "[package]
\t\t\tname = \"test\"
\t\t\tversion = \"1.0.0\"

    \t\t[profile]
    \t\topt-level = 2
    \t\tdebug = true
    \t\toverflow-checks = true
\t\t\tsupreme-overflows = false
    \t\t";

    let manifest = Manifest::parse(input).unwrap();
    let profile_section = manifest.get_by_section("profile").unwrap();
    assert_eq!(profile_section.get("opt-level"), Some(&"2".to_string()));
    assert_eq!(profile_section.get("debug"), Some(&"true".to_string()));
    assert_eq!(
        profile_section.get("overflow-checks"),
        Some(&"true".to_string())
    );
    assert_eq!(
        profile_section.get("supreme-overflows"),
        Some(&"false".to_string())
    );
}

#[test]
fn full_manifest_parsing() {
    let input = r#"
        [package]
        name = "full-test"
        version = "1.0.0"
        edition = "2021"

        [dependencies]
        serde = "1.0.0"
        tokio = { version = "1.0.0", features = ["full"] }

        [lib]
        name = "mylib"
        path = "src/lib.rs"

        [[bin]]
        name = "mycli"
        path = "src/main.rs"
        "#;

    let manifest = Manifest::parse(input).unwrap();

    // Test package section
    assert_eq!(manifest.get_by_key("package", "name").unwrap(), "full-test");
    assert_eq!(manifest.get_by_key("package", "version").unwrap(), "1.0.0");

    // Test dependencies
    assert_eq!(manifest.get_by_key("dependencies", "serde").unwrap(), "1.0.0");

    // Test lib section
    assert_eq!(manifest.get_by_key("lib", "name").unwrap(), "mylib");

    // Test bin section
    assert_eq!(manifest.get_by_key("bin", "name").unwrap(), "mycli");
}

#[test]
fn sections_iterator() {
    let manifest = Manifest::parse(
        r#"
            [package]
            name = "test"
            version = "1.0.0"
            
            [dependencies]
            serde = "1.0.0"
            
            [lib]
            name = "mylib"
        "#,
    )
    .unwrap();

    let sections: Vec<&String> = manifest.sections();
    assert!(sections.contains(&&"package".to_string()));
    assert!(sections.contains(&&"dependencies".to_string()));
    assert!(sections.contains(&&"lib".to_string()));
}
