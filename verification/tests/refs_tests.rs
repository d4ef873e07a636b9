use asset_squeeze::refs::{
    clean_web_asset_ref, extract_react_native_asset_refs, extract_web_asset_refs, is_external_web_ref,
    is_local_asset_ref, is_resolution_variant_dir, looks_like_react_native_manifest,
    normalize_react_native_asset_stem, react_native_refs_from_captures, strip_react_native_density_suffix,
    web_refs_from_captures,
};

#[test]
fn extracts_react_native_static_asset_refs() {
    let source = r#"
import logo from "./assets/logo.png";
import "./assets/splash.svg";
const icon = require('../icons/home@2x.jpg');
const remote = require('https://example.com/image.png');
const dynamic = require('./assets/' + name + '.png');
"#;

    let refs = extract_react_native_asset_refs(source);

    assert_eq!(refs, vec!["../icons/home@2x.jpg", "./assets/logo.png", "./assets/splash.svg"]);
}

#[test]
fn normalizes_react_native_variant_stems() {
    assert_eq!(normalize_react_native_asset_stem("check@2x"), "check");
    assert_eq!(normalize_react_native_asset_stem("check.ios"), "check");
    assert_eq!(normalize_react_native_asset_stem("check.ios@3x"), "check");
    assert_eq!(normalize_react_native_asset_stem("check@3x.android"), "check");
}

#[test]
fn normalizing_twice_is_normalizing_once() {
    for stem in ["logo@2x.native", "a.ios.android", "icon@1.5x", "plain", "x@0x", "@2x"] {
        let once = normalize_react_native_asset_stem(stem);
        assert_eq!(normalize_react_native_asset_stem(&once), once);
    }
    assert_eq!(normalize_react_native_asset_stem("x@0x"), "x@0x");
    assert_eq!(normalize_react_native_asset_stem("@2x"), "");
}

#[test]
fn variant_suffixes_do_not_change_the_stem() {
    for base in ["logo", "logo@2x", "hero.ios", "a@b"] {
        let expected = normalize_react_native_asset_stem(base);
        for suffix in [".ios", ".android", ".native", "@2x", "@1.5x"] {
            let variant = format!("{base}{suffix}");
            assert_eq!(normalize_react_native_asset_stem(&variant), expected, "{variant}");
        }
        let upper = format!("{base}@3X");
        assert_eq!(normalize_react_native_asset_stem(&upper), upper);
    }
}

#[test]
fn strips_only_positive_density_suffixes() {
    assert_eq!(strip_react_native_density_suffix("logo@2x"), Some("logo".to_string()));
    assert_eq!(strip_react_native_density_suffix("logo@1.5x"), Some("logo".to_string()));
    assert_eq!(strip_react_native_density_suffix("logo@0x"), None);
    assert_eq!(strip_react_native_density_suffix("logo@-1x"), None);
    assert_eq!(strip_react_native_density_suffix("logo@x"), None);
    assert_eq!(strip_react_native_density_suffix("logo@2"), None);
    assert_eq!(strip_react_native_density_suffix("logo"), None);
    assert_eq!(strip_react_native_density_suffix("a@b@infx"), Some("a@b".to_string()));
}

#[test]
fn detects_resolution_variant_directories() {
    assert!(is_resolution_variant_dir("2.0x"));
    assert!(is_resolution_variant_dir("3x"));
    assert!(!is_resolution_variant_dir("images"));
    assert!(!is_resolution_variant_dir("x"));
}

#[test]
fn resolution_directories_need_a_positive_plain_number() {
    assert!(is_resolution_variant_dir("assets/images/1.5x"));
    assert!(!is_resolution_variant_dir("0x"));
    assert!(!is_resolution_variant_dir("0.0x"));
    assert!(!is_resolution_variant_dir("1e2x"));
    assert!(!is_resolution_variant_dir("..x"));
    assert!(!is_resolution_variant_dir("2x/.."));
}

#[test]
fn local_refs_are_relative_image_paths() {
    assert!(is_local_asset_ref("./a.png"));
    assert!(is_local_asset_ref("../b/c.SVG"));
    assert!(!is_local_asset_ref("assets/a.png"));
    assert!(!is_local_asset_ref("./a.txt"));
    assert!(!is_local_asset_ref("@assets/logo.png"));
}

#[test]
fn react_native_manifests_name_react_native_or_expo() {
    assert!(looks_like_react_native_manifest(r#"{"dependencies":{"react-native":"latest"}}"#));
    assert!(looks_like_react_native_manifest(r#"{"dependencies":{"expo":"50"}}"#));
    assert!(!looks_like_react_native_manifest(r#"{"dependencies":{"vite":"latest","react":"latest"}}"#));
}

#[test]
fn external_refs_are_recognized() {
    for r in ["http://a/b.png", "https://a/b.png", "//cdn/b.png", "data:image/png;base64,xx", "blob:abc"] {
        assert!(is_external_web_ref(r));
    }
    assert!(!is_external_web_ref("/images/a.png"));
    assert!(!is_external_web_ref("./a.png"));
}

#[test]
fn cleans_web_refs() {
    assert_eq!(clean_web_asset_ref("  ./assets/card.jpg?inline "), Some("./assets/card.jpg".to_string()));
    assert_eq!(clean_web_asset_ref("../assets/bg.png#hash"), Some("../assets/bg.png".to_string()));
    assert_eq!(clean_web_asset_ref("https://example.com/remote.png"), None);
    assert_eq!(clean_web_asset_ref("   "), None);
    assert_eq!(clean_web_asset_ref("notes.txt?x.png"), None);
}

#[test]
fn extracts_web_refs_sorted_and_deduplicated() {
    let source = r#"
import logo from "@/assets/logo.svg";
const card = new URL("./assets/card.jpg?inline", import.meta.url);
const again = "./assets/card.jpg";
const remote = "https://example.com/remote.png";
.hero { background-image: url("../assets/bg.png#hash"); }
"#;
    let refs = extract_web_asset_refs(source);
    assert_eq!(refs, vec!["../assets/bg.png", "./assets/card.jpg", "@/assets/logo.svg"]);
}

#[test]
fn captured_refs_are_filtered_sorted_and_unique() {
    let requires = vec![Some("./b.png".to_string()), None, Some("./a.png".to_string())];
    let imports = vec![Some("./b.png".to_string()), Some("react".to_string())];
    assert_eq!(react_native_refs_from_captures(&requires, &imports), vec!["./a.png", "./b.png"]);

    let quoted = vec![Some("b.webp?x".to_string()), Some("//cdn/c.png".to_string())];
    let css = vec![Some(" a.gif ".to_string()), Some("b.webp".to_string())];
    assert_eq!(web_refs_from_captures(&quoted, &css), vec!["a.gif", "b.webp"]);
}

#[test]
fn normalized_stems_are_prefixes_without_suffixes() {
    for stem in ["logo@2x.ios", "logo.android@1.5x", "logo", "a.native.ios@3x", "@2x", ".ios"] {
        let normalized = normalize_react_native_asset_stem(stem);
        assert!(stem.starts_with(normalized.as_str()), "{stem}");
        assert_eq!(normalize_react_native_asset_stem(&normalized), normalized, "{stem}");
    }
    assert_eq!(normalize_react_native_asset_stem("a.native.ios@3x"), "a");
}
