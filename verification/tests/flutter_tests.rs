use asset_squeeze::flutter::{asset_entry_path, join, pubspec_asset_entries, resolve_pubspec_entry, PubspecEntry, YamlValue};

#[test]
fn parses_string_and_map_asset_entries() {
    let yaml = r#"
flutter:
  assets:
    - assets/images/
    - path: assets/logo.png
      flavors:
        - free
"#;
    let paths = pubspec_asset_entries(yaml).unwrap();

    assert_eq!(paths, vec!["assets/images/", "assets/logo.png"]);
}

#[test]
fn lists_the_declared_assets_of_a_pubspec() {
    let yaml = r#"
name: demo
flutter:
  uses-material-design: true
  assets:
    - assets/images/
    - 42
    - path: assets/logo.png
    - !tagged assets/tagged.png
    - {other: x}
"#;
    let entries = pubspec_asset_entries(yaml).unwrap();
    assert_eq!(entries, vec!["assets/images/", "assets/logo.png", "assets/tagged.png"]);
}

#[test]
fn documents_without_assets_declare_none() {
    for yaml in ["name: demo", "flutter:\n  generate: true", "flutter:\n  assets: assets/", "- a\n- b", ""] {
        assert!(pubspec_asset_entries(yaml).unwrap().is_empty(), "{yaml}");
    }
}

#[test]
fn text_that_is_not_yaml_is_an_error() {
    let err = pubspec_asset_entries("flutter:\n  assets: [assets/\n").unwrap_err();
    assert!(!err.is_empty());
}

#[test]
fn entry_paths_of_hand_built_nodes() {
    let plain = YamlValue::String("assets/a.png".to_string());
    let mapped = YamlValue::Mapping(vec![(
        YamlValue::String("path".to_string()),
        YamlValue::String("assets/b.png".to_string()),
    )]);
    let tagged = YamlValue::Tagged("!t".to_string(), Box::new(YamlValue::String("assets/c.png".to_string())));
    assert_eq!(asset_entry_path(&plain), Some("assets/a.png"));
    assert_eq!(asset_entry_path(&mapped), Some("assets/b.png"));
    assert_eq!(asset_entry_path(&tagged), Some("assets/c.png"));
    assert_eq!(asset_entry_path(&YamlValue::Number("42".to_string())), None);
    assert_eq!(asset_entry_path(&YamlValue::Null), None);
}

#[test]
fn entries_resolve_against_the_project() {
    match resolve_pubspec_entry("/app", "assets/images/") {
        PubspecEntry::Directory(path) => assert_eq!(path, "/app/assets/images/"),
        other => panic!("unexpected entry {other:?}"),
    }
    match resolve_pubspec_entry("/app/", "assets/logo.png") {
        PubspecEntry::File(path) => assert_eq!(path, "/app/assets/logo.png"),
        other => panic!("unexpected entry {other:?}"),
    }
    assert!(matches!(resolve_pubspec_entry("/app", "packages/icons/star.png"), PubspecEntry::Package));
}

#[test]
fn joins_paths_like_the_standard_library() {
    for (base, p) in [("/a", "b"), ("/a/", "b"), ("", "b"), ("/a", "/b"), ("a", ""), ("a/b", "../c")] {
        let expected = std::path::Path::new(base).join(p);
        assert_eq!(join(base, p), expected.to_str().unwrap(), "{base} + {p}");
    }
}
