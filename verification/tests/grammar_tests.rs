use manifest_parser_rs::{Manifest, ManifestError, ManifestParser, Node, Rule};

fn sorted(names: Vec<&String>) -> Vec<String> {
    let mut out: Vec<String> = names.into_iter().cloned().collect();
    out.sort();
    out
}

#[test]
fn package_name_and_version_are_read() {
    let manifest = Manifest::parse("[package]\nname = \"p\"\nversion = \"1.0.0\"").unwrap();
    assert_eq!(manifest.get_by_key("package", "name").unwrap(), "p");
    assert_eq!(manifest.get_by_key("package", "version").unwrap(), "1.0.0");
    assert_eq!(sorted(manifest.sections()), vec!["package".to_string()]);
}

#[test]
fn second_dependency_block_becomes_dev_dependencies() {
    let manifest = Manifest::parse(
        "[dependencies]\nserde = \"1.0.0\"\n[dependencies]\ntokio = \"2.3.4\"\n",
    )
    .unwrap();
    assert_eq!(manifest.get_by_key("dependencies", "serde").unwrap(), "1.0.0");
    assert_eq!(manifest.get_by_key("dev-dependencies", "tokio").unwrap(), "2.3.4");
    assert!(matches!(
        manifest.get_by_key("dependencies", "tokio"),
        Err(ManifestError::MissingKey(_, _))
    ));
    assert_eq!(
        sorted(manifest.sections()),
        vec!["dependencies".to_string(), "dev-dependencies".to_string()]
    );
}

#[test]
fn dev_dependencies_header_first_is_stored_as_dependencies() {
    let manifest = Manifest::parse("[dev-dependencies]\nserde = \"1.0.0\"\n").unwrap();
    assert_eq!(manifest.get_by_key("dependencies", "serde").unwrap(), "1.0.0");
    assert_eq!(sorted(manifest.sections()), vec!["dependencies".to_string()]);
}

#[test]
fn third_dependency_block_overwrites_dev_dependencies() {
    let manifest = Manifest::parse(
        "[dependencies]\na = \"1.0.0\"\n[dev-dependencies]\nb = \"1.0.0\"\n[dependencies]\nc = \"1.0.0\"\n",
    )
    .unwrap();
    assert_eq!(manifest.get_by_key("dependencies", "a").unwrap(), "1.0.0");
    assert_eq!(manifest.get_by_key("dev-dependencies", "c").unwrap(), "1.0.0");
    assert!(matches!(
        manifest.get_by_key("dev-dependencies", "b"),
        Err(ManifestError::MissingKey(_, _))
    ));
    assert_eq!(manifest.sections().len(), 2);
}

#[test]
fn lookup_errors_carry_the_names_asked_for() {
    let manifest = Manifest::parse("[lib]\nname = \"x\"\n").unwrap();
    match manifest.get_by_key("bin", "name") {
        Err(ManifestError::MissingSection(section)) => assert_eq!(section, "bin"),
        other => panic!("unexpected: {:?}", other),
    }
    match manifest.get_by_key("lib", "path") {
        Err(ManifestError::MissingKey(section, key)) => {
            assert_eq!(section, "lib");
            assert_eq!(key, "path");
        }
        other => panic!("unexpected: {:?}", other),
    }
    match manifest.get_by_section("bin") {
        Err(ManifestError::MissingSection(section)) => assert_eq!(section, "bin"),
        other => panic!("unexpected: {:?}", other),
    }
}

#[test]
fn lookups_are_case_sensitive() {
    let manifest = Manifest::parse("[lib]\nName = \"x\"\n").unwrap();
    assert_eq!(manifest.get_by_key("lib", "Name").unwrap(), "x");
    assert!(matches!(
        manifest.get_by_key("lib", "name"),
        Err(ManifestError::MissingKey(_, _))
    ));
    assert!(matches!(
        manifest.get_by_key("Lib", "Name"),
        Err(ManifestError::MissingSection(_))
    ));
}

#[test]
fn parsing_twice_gives_the_same_contents() {
    let text = "# head\n[package]\nname = \"p\"\nversion = \"1.2.3\"\nedition = \"2021\"\n\n[dependencies]\nserde = { version = \"1.0.0\" }\n[lib]\npath = \"src/lib.rs\"\n";
    let first = Manifest::parse(text).unwrap();
    let second = Manifest::parse(text).unwrap();
    let names = sorted(first.sections());
    assert_eq!(names, sorted(second.sections()));
    assert_eq!(names, vec!["dependencies", "lib", "package"]);
    for name in names {
        let a = first.get_by_section(&name).unwrap();
        let b = second.get_by_section(&name).unwrap();
        let keys = sorted(a.keys());
        assert_eq!(keys, sorted(b.keys()));
        for key in keys {
            assert_eq!(a.get(&key), b.get(&key));
        }
    }
    let bad = "[package]\nname = \"p\"\n";
    match (Manifest::parse(bad), Manifest::parse(bad)) {
        (Err(ManifestError::ParseError(a)), Err(ManifestError::ParseError(b))) => assert_eq!(a, b),
        other => panic!("unexpected: {:?}", other),
    }
}

#[test]
fn blanks_around_the_equals_sign_do_not_matter() {
    let wide = Manifest::parse("[lib]\nname    =    \"x\"").unwrap();
    let narrow = Manifest::parse("[lib]\nname = \"x\"").unwrap();
    let none = Manifest::parse("[lib]\nname=\"x\"").unwrap();
    let tabs = Manifest::parse("[lib]\nname\t=\t\t\"x\"").unwrap();
    assert_eq!(wide.get_by_key("lib", "name").unwrap(), "x");
    assert_eq!(narrow.get_by_key("lib", "name").unwrap(), "x");
    assert_eq!(none.get_by_key("lib", "name").unwrap(), "x");
    assert_eq!(tabs.get_by_key("lib", "name").unwrap(), "x");
}

#[test]
fn key_equals_and_value_stand_on_one_line() {
    assert!(Manifest::parse("[lib]\nname\n= \"x\"").is_err());
    assert!(Manifest::parse("[lib]\nname =\n\"x\"").is_err());
    assert!(Manifest::parse("[lib]\nname = # why\n\"x\"").is_err());
    assert!(Manifest::parse("[lib]\nname =").is_err());
    assert!(Manifest::parse("[lib]\nname").is_err());
}

#[test]
fn comment_lines_change_nothing() {
    let plain = "[package]\nname = \"p\"\nversion = \"1.0.0\"\n[lib]\npath = \"a\"\n";
    let commented = "# one\n[package]\n   # two\nname = \"p\"\n#three = \"3\"\nversion = \"1.0.0\"\n\t# [bin]\n[lib]\n# four\npath = \"a\"\n# five";
    let a = Manifest::parse(plain).unwrap();
    let b = Manifest::parse(commented).unwrap();
    assert_eq!(sorted(a.sections()), sorted(b.sections()));
    assert_eq!(sorted(b.sections()), vec!["lib", "package"]);
    assert_eq!(sorted(b.get_by_section("package").unwrap().keys()), vec!["name", "version"]);
    assert_eq!(sorted(b.get_by_section("lib").unwrap().keys()), vec!["path"]);
    assert_eq!(b.get_by_key("package", "name").unwrap(), "p");
    assert_eq!(b.get_by_key("package", "version").unwrap(), "1.0.0");
    assert_eq!(b.get_by_key("lib", "path").unwrap(), "a");
}

#[test]
fn comment_after_a_header_and_after_a_value() {
    let manifest =
        Manifest::parse("[lib] # the library\nname = \"x\" # its name\npath = src # bare\n")
            .unwrap();
    assert_eq!(manifest.get_by_key("lib", "name").unwrap(), "x");
    assert_eq!(manifest.get_by_key("lib", "path").unwrap(), "src");
}

#[test]
fn hash_inside_a_string_is_no_comment() {
    let manifest = Manifest::parse("[lib]\nname = \"a # b\"\n").unwrap();
    assert_eq!(manifest.get_by_key("lib", "name").unwrap(), "a # b");
    let manifest = Manifest::parse("[lib]\nname = \"a\n# b\n\"\n").unwrap();
    assert_eq!(manifest.get_by_key("lib", "name").unwrap(), "a\n# b\n");
}

#[test]
fn empty_and_blank_texts_are_no_manifest() {
    for text in ["", "   ", "\n\n", "# only a comment", "# only a comment\n", " \t\r\n"] {
        assert!(
            matches!(Manifest::parse(text), Err(ManifestError::ParseError(_))),
            "should fail: {:?}",
            text
        );
    }
}

#[test]
fn parse_error_tells_the_place() {
    let cases = [
        ("", "line 1, column 1"),
        ("\n\n  ", "line 3, column 3"),
        ("[package]\nname = \"test\"", "line 1, column 1"),
        ("[lib]\nname = \"x\"\n@", "line 3, column 1"),
        ("[lib]\nname = \"x\"\n  [package]\nkey = \"v\"", "line 3, column 3"),
        ("[lib]\nname = \"x\" y", "line 2, column 12"),
        ("[lib]\n[dependencies\nserde = \"1.0.0\"", "line 2, column 1"),
        ("[dependencies]\nserde = \"1.0\"", "line 2, column 1"),
        ("name = \"x\"\n[lib]", "line 1, column 1"),
        ("[lib]\nname = \"x", "line 2, column 1"),
        ("[lib]\nt = { a = \"}\"", "line 2, column 1"),
        ("[lib]\r\nname = \"x\"\r\n[nope", "line 3, column 1"),
        ("[lib]\nk1 = v\nk2 = v\nk3 = v\nk4 = v\nk5 = v\nk6 = v\nk7 = v\nk8 = v\n          !", "line 10, column 11"),
    ];
    for (text, place) in cases {
        match Manifest::parse(text) {
            Err(ManifestError::ParseError(message)) => assert_eq!(message, place, "{:?}", text),
            other => panic!("unexpected for {:?}: {:?}", text, other),
        }
    }
}

#[test]
fn other_productions_fail_at_the_start() {
    for (rule, text) in [
        (Rule::Version, "\"1.0\""),
        (Rule::Version, " \"1.0.0\""),
        (Rule::Version, "1.0.0"),
        (Rule::Section, "[package]"),
        (Rule::Section, "\n[lib]"),
        (Rule::SectionDefinition, "[lib"),
        (Rule::KeyValue, "[lib]"),
        (Rule::KeyValue, "= \"x\""),
        (Rule::PackageSection, "[package]\nversion = \"1.0.0\"\nname = \"p\""),
        (Rule::DependenciesSection, "[lib]"),
        (Rule::DependenciesSection, ""),
    ] {
        match ManifestParser::parse(rule, text) {
            Err(ManifestError::ParseError(message)) => {
                assert_eq!(message, "line 1, column 1", "{:?}", text)
            }
            other => panic!("unexpected for {:?}: {:?}", text, other),
        }
    }
}

#[test]
fn error_messages() {
    assert_eq!(
        ManifestError::ParseError("line 2, column 7".to_string()).message(),
        "Parse error: line 2, column 7"
    );
    assert_eq!(
        ManifestError::MissingSection("lib".to_string()).message(),
        "Missing section: lib"
    );
    assert_eq!(
        ManifestError::MissingKey("lib".to_string(), "path".to_string()).message(),
        "Missing key path in section lib"
    );
    let manifest = Manifest::parse("[lib]\n").unwrap();
    assert_eq!(
        manifest.get_by_key("lib", "k").unwrap_err().message(),
        "Missing key k in section lib"
    );
    assert_eq!(
        manifest.get_by_key("bin", "k").unwrap_err().message(),
        "Missing section: bin"
    );
    assert_eq!(
        Manifest::parse("[lib]\n ?").unwrap_err().message(),
        "Parse error: line 2, column 2"
    );
}

#[test]
fn headers_of_any_name_open_a_section() {
    for (text, name) in [
        ("[invalid]", "invalid"),
        ("[lib]", "lib"),
        ("[[lib]]", "lib"),
        ("[Lib]", "Lib"),
        ("[libs]", "libs"),
        ("[a-b_c-9]", "a-b_c-9"),
        ("[0]", "0"),
        ("[-]", "-"),
        ("[[workspace]]", "workspace"),
        ("  [test]  ", "test"),
        ("[[package]]", "package"),
        ("[[dependencies]]", "dependencies"),
        ("[[dev-dependencies]]", "dev-dependencies"),
        ("[dependencies]", "dependencies"),
        ("[dev-dependencies]", "dependencies"),
    ] {
        let manifest = Manifest::parse(text).unwrap();
        assert_eq!(manifest.sections(), vec![&name.to_string()], "{:?}", text);
        assert!(manifest.get_by_section(name).unwrap().keys().is_empty(), "{:?}", text);
    }
    let manifest = Manifest::parse("[invalid]\nkey = \"value\"").unwrap();
    assert_eq!(manifest.sections(), vec![&"invalid".to_string()]);
    assert_eq!(manifest.get_by_section("invalid").unwrap().keys(), vec![&"key".to_string()]);
    assert_eq!(manifest.get_by_key("invalid", "key").unwrap(), "value");
}

#[test]
fn malformed_headers_are_rejected() {
    for text in [
        "[package]",
        "[lib ]",
        "[ lib]",
        "[]",
        "[[]]",
        "[[lib]",
        "[lib]]",
        "[lib.x]",
        "[lib",
        "lib]",
        "[l\u{e9}]",
        "[[[lib]]]",
    ] {
        assert!(Manifest::parse(text).is_err(), "should fail: {:?}", text);
    }
}

#[test]
fn generic_package_header_and_package_section() {
    let manifest = Manifest::parse(
        "[[package]]\nold = \"1\"\n[package]\nname = \"p\"\nversion = \"1.0.0\"\n",
    )
    .unwrap();
    assert_eq!(sorted(manifest.sections()), vec!["package"]);
    assert_eq!(manifest.get_by_key("package", "name").unwrap(), "p");
    assert!(matches!(
        manifest.get_by_key("package", "old"),
        Err(ManifestError::MissingKey(_, _))
    ));
    let manifest = Manifest::parse(
        "[[dependencies]]\nfree = \"text\"\n[dependencies]\nserde = \"1.0.0\"\n",
    )
    .unwrap();
    assert_eq!(sorted(manifest.sections()), vec!["dependencies", "dev-dependencies"]);
    assert_eq!(manifest.get_by_key("dependencies", "free").unwrap(), "text");
    assert_eq!(manifest.get_by_key("dev-dependencies", "serde").unwrap(), "1.0.0");
}

#[test]
fn empty_generic_section_is_listed() {
    let manifest = Manifest::parse("[lib]\n[[bin]]\n").unwrap();
    assert_eq!(sorted(manifest.sections()), vec!["bin", "lib"]);
    assert!(manifest.get_by_section("lib").unwrap().keys().is_empty());
    assert!(manifest.get_by_section("bin").unwrap().keys().is_empty());
}

#[test]
fn later_line_overwrites_earlier_one() {
    let manifest = Manifest::parse("[lib]\nname = \"a\"\npath = \"p\"\nname = \"b\"\n").unwrap();
    assert_eq!(manifest.get_by_key("lib", "name").unwrap(), "b");
    assert_eq!(manifest.get_by_key("lib", "path").unwrap(), "p");
    assert_eq!(manifest.get_by_section("lib").unwrap().keys().len(), 2);
}

#[test]
fn reentered_section_keeps_its_keys() {
    let manifest =
        Manifest::parse("[lib]\nname = \"a\"\n[bin]\nname = \"b\"\n[lib]\npath = \"p\"\n[[lib]]\n")
            .unwrap();
    assert_eq!(manifest.get_by_key("lib", "name").unwrap(), "a");
    assert_eq!(manifest.get_by_key("lib", "path").unwrap(), "p");
    assert_eq!(manifest.get_by_key("bin", "name").unwrap(), "b");
    assert_eq!(sorted(manifest.sections()), vec!["bin", "lib"]);
}

#[test]
fn package_lines_beyond_name_and_version() {
    let manifest = Manifest::parse(
        "[package]\nname = \"p\"\nversion = \"1.0.0\"\nedition = \"2021\"\nname = \"q\"\nflag = true\n",
    )
    .unwrap();
    assert_eq!(manifest.get_by_key("package", "name").unwrap(), "q");
    assert_eq!(manifest.get_by_key("package", "version").unwrap(), "1.0.0");
    assert_eq!(manifest.get_by_key("package", "edition").unwrap(), "2021");
    assert_eq!(manifest.get_by_key("package", "flag").unwrap(), "true");
    assert_eq!(
        sorted(manifest.get_by_section("package").unwrap().keys()),
        vec!["edition", "flag", "name", "version"]
    );
}

#[test]
fn second_package_section_replaces_the_first() {
    let manifest = Manifest::parse(
        "[package]\nname = \"p\"\nversion = \"1.0.0\"\nedition = \"2021\"\n[package]\nname = \"q\"\nversion = \"2.0.0\"\n",
    )
    .unwrap();
    assert_eq!(manifest.get_by_key("package", "name").unwrap(), "q");
    assert_eq!(manifest.get_by_key("package", "version").unwrap(), "2.0.0");
    assert!(matches!(
        manifest.get_by_key("package", "edition"),
        Err(ManifestError::MissingKey(_, _))
    ));
}

#[test]
fn package_needs_name_then_version() {
    for text in [
        "[package]",
        "[package]\nname = \"p\"",
        "[package]\nversion = \"1.0.0\"",
        "[package]\nversion = \"1.0.0\"\nname = \"p\"",
        "[package]\nname = p\nversion = \"1.0.0\"",
        "[package]\nname = \"p\"\nversion = \"1.0\"",
        "[package]\nname = \"p\"\nversion = 1.0.0",
        "[package]\nname = \"p\"\nedition = \"2021\"\nversion = \"1.0.0\"",
        "[package]\nnames = \"p\"\nversion = \"1.0.0\"",
    ] {
        assert!(Manifest::parse(text).is_err(), "should fail: {:?}", text);
    }
}

#[test]
fn dependency_values_are_versions_or_tables() {
    for text in [
        "[dependencies]\nserde = \"1.0\"",
        "[dependencies]\nserde = \"latest\"",
        "[dependencies]\nserde = 1.0.0",
        "[dependencies]\nserde = true",
        "[dependencies]\nserde = { version = \"1.0.0\"",
    ] {
        assert!(Manifest::parse(text).is_err(), "should fail: {:?}", text);
    }
    let manifest = Manifest::parse(
        "[dependencies]\na = \"1.0.0-rc.1+b\"\nb = {}\nc = { v = \"not a version\" }\n",
    )
    .unwrap();
    assert_eq!(manifest.get_by_key("dependencies", "a").unwrap(), "1.0.0-rc.1+b");
    assert_eq!(manifest.get_by_key("dependencies", "b").unwrap(), "{}");
    assert_eq!(
        manifest.get_by_key("dependencies", "c").unwrap(),
        "{ v = \"not a version\" }"
    );
}

#[test]
fn inline_table_is_kept_as_it_stands() {
    let manifest = Manifest::parse(
        "[dependencies]\nt = { a = { b = [\"}\", \"{\"] }, c = \"\\\"}\" }   # tail\n",
    )
    .unwrap();
    assert_eq!(
        manifest.get_by_key("dependencies", "t").unwrap(),
        "{ a = { b = [\"}\", \"{\"] }, c = \"\\\"}\" }"
    );
    let manifest = Manifest::parse("[lib]\nt = { a = 1,\n  b = 2 }\n").unwrap();
    assert_eq!(manifest.get_by_key("lib", "t").unwrap(), "{ a = 1,\n  b = 2 }");
}

#[test]
fn one_pair_of_quotes_is_taken_away() {
    let manifest = Manifest::parse(
        "[lib]\na = \"\"\nb = \"\\\"x\\\"\"\nc = \"back\\\\\"\nd = \" spaced \"\ne = \"Symbols: []<>@:\\\\/,-_\\\"\"\n",
    )
    .unwrap();
    assert_eq!(manifest.get_by_key("lib", "a").unwrap(), "");
    assert_eq!(manifest.get_by_key("lib", "b").unwrap(), "\\\"x\\\"");
    assert_eq!(manifest.get_by_key("lib", "c").unwrap(), "back\\\\");
    assert_eq!(manifest.get_by_key("lib", "d").unwrap(), " spaced ");
    assert_eq!(manifest.get_by_key("lib", "e").unwrap(), "Symbols: []<>@:\\\\/,-_\\\"");
}

#[test]
fn unescaped_quote_inside_a_value_is_rejected() {
    assert!(Manifest::parse("[lib]\nname = \"a\"b\"").is_err());
    assert!(Manifest::parse("[lib]\nname = \"a\\\"").is_err());
    assert!(Manifest::parse("[lib]\nname = \"a\\").is_err());
}

#[test]
fn text_outside_ascii_is_kept() {
    let manifest = Manifest::parse("# commentaire é\n[lib]\nname = \"héllo wörld ✓\"\n").unwrap();
    assert_eq!(manifest.get_by_key("lib", "name").unwrap(), "héllo wörld ✓");
    match Manifest::parse("[lib]\nname = \"é\"\né = \"x\"") {
        Err(ManifestError::ParseError(message)) => assert_eq!(message, "line 3, column 1"),
        other => panic!("unexpected: {:?}", other),
    }
}

#[test]
fn matched_text_ends_with_the_last_token() {
    let pair = ManifestParser::parse(Rule::Section, "[lib]\nname = \"x\"   # c\n\n[bin]\n").unwrap();
    assert_eq!(pair.as_rule(), Rule::Section);
    assert_eq!(pair.as_str(), "[lib]\nname = \"x\"");
    let pair = ManifestParser::parse(Rule::SectionDefinition, "[[bin]]\nname = \"x\"").unwrap();
    assert_eq!(pair.as_str(), "[[bin]]");
    let pair = ManifestParser::parse(Rule::KeyValue, "a-b_c = { x = 1 } trailing").unwrap();
    assert_eq!(pair.as_str(), "a-b_c = { x = 1 }");
    let pair = ManifestParser::parse(Rule::Version, "\"1.0.0\" and more").unwrap();
    assert_eq!(pair.as_str(), "\"1.0.0\"");
    let pair = ManifestParser::parse(Rule::DependenciesSection, "[dependencies]\n\n").unwrap();
    assert_eq!(pair.as_str(), "[dependencies]");
    let text = "\n[lib]\n\n";
    let pair = ManifestParser::parse(Rule::Manifest, text).unwrap();
    assert_eq!(pair.as_str(), text);
    assert_eq!(pair.as_rule(), Rule::Manifest);
}

#[test]
fn nodes_hold_the_raw_text() {
    let text = "[package]\nname = \"p\"\nversion = \"1.0.0\"\nk = v\n[dependencies]\nd = { a = 1 }\n[[bin]]\npath = \"x\"\n";
    let nodes = ManifestParser::parse(Rule::Manifest, text).unwrap().into_inner();
    assert_eq!(nodes.len(), 4);
    match &nodes[0] {
        Node::Package { name, version, fields } => {
            assert_eq!(name, "\"p\"");
            assert_eq!(version, "\"1.0.0\"");
            assert_eq!(fields, &vec![("k".to_string(), "v".to_string())]);
        }
        other => panic!("unexpected: {:?}", other),
    }
    match &nodes[1] {
        Node::Dependencies { entries } => {
            assert_eq!(entries, &vec![("d".to_string(), "{ a = 1 }".to_string())]);
        }
        other => panic!("unexpected: {:?}", other),
    }
    match &nodes[2] {
        Node::Section { header } => assert_eq!(header, "[[bin]]"),
        other => panic!("unexpected: {:?}", other),
    }
    match &nodes[3] {
        Node::KeyValue { key, value } => {
            assert_eq!(key, "path");
            assert_eq!(value, "\"x\"");
        }
        other => panic!("unexpected: {:?}", other),
    }
    assert!(ManifestParser::parse(Rule::Version, "\"1.0.0\"").unwrap().into_inner().is_empty());
}

#[test]
fn more_versions() {
    for version in [
        "0.0.0",
        "10.20.30",
        "1.0.0-0",
        "1.0.0-0a",
        "1.0.0-a.0.b",
        "1.0.0--",
        "1.0.0-a-",
        "1.0.0+-",
        "1.0.0+00.01",
        "1.0.0-x-y-z.--",
        "1.0.0-alpha+-",
        "999999999999999999999999.0.0",
    ] {
        let text = format!("\"{}\"", version);
        let pair = ManifestParser::parse(Rule::Version, &text).unwrap();
        assert_eq!(pair.as_str(), text, "{}", version);
    }
    for version in [
        "",
        "1",
        "1.0",
        "1.0.",
        ".1.0",
        "1..0",
        "1.0.0.",
        "1.0.0.0",
        "01.0.0",
        "1.00.0",
        "1.0.00",
        "v1.0.0",
        "1.0.0-",
        "1.0.0+",
        "1.0.0-+b",
        "1.0.0-a+",
        "1.0.0-00",
        "1.0.0-a.01",
        "1.0.0-a..b",
        "1.0.0-a.",
        "1.0.0+a..b",
        "1.0.0+a.",
        "1.0.0+a+b",
        "1.0.0-a_b",
        "1.0.0 ",
        " 1.0.0",
        "1.0.0-é",
        "1.a.0",
        "-1.0.0",
    ] {
        let text = format!("\"{}\"", version);
        assert!(ManifestParser::parse(Rule::Version, &text).is_err(), "{}", version);
    }
    assert!(ManifestParser::parse(Rule::Version, "\"1.0.0").is_err());
    assert!(ManifestParser::parse(Rule::Version, "\"").is_err());
    assert!(ManifestParser::parse(Rule::Version, "").is_err());
}
