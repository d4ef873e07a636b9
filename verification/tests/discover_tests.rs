use asset_squeeze::discover::{
    detect_framework, framework_name, is_lock_file, is_react_native_source_file, is_web_source_file,
    looks_like_web_project, react_native_variant, resolve_directory_entry, resolve_react_native_variants,
    resolve_variants, resolve_web_asset_ref, should_skip_direct_dir,
    should_skip_react_native_dir, should_skip_web_dir, web_asset_dirs,
};
use asset_squeeze::kinds::Framework;
use asset_squeeze::path::{classify_asset, is_supported_image};
use asset_squeeze::kinds::AssetKind;

#[test]
fn detects_package_json_projects_as_react_native_or_web() {
    let web = detect_framework("/p", false, Some(r#"{"dependencies":{"vite":"latest","react":"latest"}}"#), false);
    assert_eq!(web, Ok(Framework::Web));
    let native = detect_framework("/p", false, Some(r#"{"dependencies":{"react-native":"latest"}}"#), false);
    assert_eq!(native, Ok(Framework::ReactNative));
}

#[test]
fn framework_detection_order() {
    assert_eq!(detect_framework("/p", true, Some("\"expo\""), true), Ok(Framework::Flutter));
    assert_eq!(detect_framework("/p", false, Some(""), false), Ok(Framework::Web));
    assert_eq!(detect_framework("/p", false, None, true), Ok(Framework::Web));
    assert_eq!(
        detect_framework("/p", false, None, false),
        Err("could not detect framework in /p; pass --framework flutter, --framework react-native, or --framework web"
            .to_string())
    );
    assert_eq!(framework_name(Framework::ReactNative), Some("React Native"));
    assert_eq!(framework_name(Framework::Flutter), Some("Flutter"));
    assert_eq!(framework_name(Framework::Web), Some("Web"));
    assert_eq!(framework_name(Framework::Auto), None);
}

#[test]
fn web_projects_are_recognized_by_marker_files() {
    assert!(looks_like_web_project("/site", |p: &str| p == "/site/astro.config.mjs"));
    assert!(!looks_like_web_project("/site", |p: &str| p == "/site/README.md"));
    let asked = std::cell::RefCell::new(Vec::new());
    assert!(looks_like_web_project("/w", |p: &str| {
        asked.borrow_mut().push(p.to_string());
        p.ends_with("vite.config.ts")
    }));
    assert_eq!(*asked.borrow(), vec!["/w/index.html", "/w/vite.config.js", "/w/vite.config.ts"]);
}

#[test]
fn skipped_directories() {
    for dir in ["node_modules", "a/.git", "x/dist", "ios", ".svelte-kit", "out", "target"] {
        assert!(should_skip_web_dir(dir), "{dir}");
    }
    assert!(!should_skip_web_dir("src"));
    assert!(!should_skip_web_dir("/"));
    assert!(should_skip_react_native_dir("app/.expo"));
    assert!(!should_skip_react_native_dir("app/out"));
    assert!(should_skip_direct_dir("assets/node_modules"));
    assert!(!should_skip_direct_dir("assets/build"));
}

#[test]
fn source_files_are_chosen_by_extension() {
    assert!(is_web_source_file("src/App.TSX", Some(10)));
    assert!(is_web_source_file("index.html", None));
    assert!(!is_web_source_file("package-lock.json", Some(10)));
    assert!(!is_web_source_file("big.js", Some(2 * 1024 * 1024 + 1)));
    assert!(is_web_source_file("edge.js", Some(2 * 1024 * 1024)));
    assert!(!is_web_source_file("image.png", Some(10)));
    assert!(is_lock_file("x/yarn.lock"));
    assert!(!is_lock_file("x/yarn.lock.bak"));
    assert!(is_react_native_source_file("src/App.tsx"));
    assert!(is_react_native_source_file("index.MJS"));
    assert!(!is_react_native_source_file("App.vue"));
}

#[test]
fn web_reference_candidates() {
    assert_eq!(resolve_web_asset_ref("/p", "/p/src", "./assets/card.jpg"), vec!["/p/src/./assets/card.jpg"]);
    assert_eq!(resolve_web_asset_ref("/p", "/p/src/styles", "../assets/bg.png"), vec!["/p/src/styles/../assets/bg.png"]);
    assert_eq!(
        resolve_web_asset_ref("/p", "/p", "/images/hero.webp"),
        vec!["/p/public/images/hero.webp", "/p/images/hero.webp"]
    );
    assert_eq!(
        resolve_web_asset_ref("/p", "/p/src", "@/assets/logo.svg"),
        vec!["/p/src/assets/logo.svg", "/p/assets/logo.svg"]
    );
    assert_eq!(
        resolve_web_asset_ref("/p", "/p/src", "~/logo.svg"),
        vec!["/p/src/logo.svg", "/p/logo.svg"]
    );
    assert_eq!(
        resolve_web_asset_ref("/p", "/p/src", "img/a.png"),
        vec!["/p/src/img/a.png", "/p/public/img/a.png", "/p/img/a.png"]
    );
}

#[test]
fn web_asset_folders() {
    assert_eq!(
        web_asset_dirs("/p"),
        vec![
            "/p/public",
            "/p/static",
            "/p/assets",
            "/p/images",
            "/p/src/assets",
            "/p/src/images",
            "/p/app/assets",
            "/p/app/images",
        ]
    );
}

#[test]
fn react_native_variants_share_extension_and_stem() {
    let main = "/p/src/assets/logo.png";
    assert!(react_native_variant(main, "/p/src/assets/logo.png"));
    assert!(react_native_variant(main, "/p/src/assets/logo@2x.png"));
    assert!(react_native_variant(main, "/p/src/assets/logo.ios.PNG"));
    assert!(react_native_variant(main, "/p/src/assets/logo@3x.android.png"));
    assert!(!react_native_variant(main, "/p/src/assets/logo.jpg"));
    assert!(!react_native_variant(main, "/p/src/assets/logo-dark.png"));
    assert!(!react_native_variant("/p/src/assets/logo", "/p/src/assets/logo"));
}

#[test]
fn classifies_assets_by_extension() {
    assert_eq!(classify_asset("a/b.JPEG"), AssetKind::Jpeg);
    assert_eq!(classify_asset("a/.png"), AssetKind::Other);
    assert_eq!(classify_asset("a/b.png/"), AssetKind::Png);
    assert_eq!(classify_asset("a/b.png/.."), AssetKind::Other);
    assert_eq!(classify_asset("b.tar.gz"), AssetKind::Other);
    assert!(is_supported_image("icon.Wbmp"));
    assert!(!is_supported_image("notes.md"));
}

fn entries(list: &[(&str, bool)]) -> Vec<(String, bool)> {
    list.iter().map(|(p, f)| (p.to_string(), *f)).collect()
}

#[test]
fn lists_directory_assets_and_density_variants() {
    let listing = entries(&[
        ("assets/images/icon.png", true),
        ("assets/images/2.0x", false),
        ("assets/images/ignored.txt", true),
        ("assets/images/folder.png", false),
    ]);
    assert_eq!(resolve_directory_entry(&listing), vec!["assets/images/icon.png"]);

    let siblings = entries(&[
        ("assets/images/icon.png", false),
        ("assets/images/2.0x", true),
        ("assets/images/3x", true),
        ("assets/images/icons", true),
        ("assets/images/4x", false),
    ]);
    assert_eq!(
        resolve_variants("assets/images/icon.png", &siblings),
        vec!["assets/images/2.0x/icon.png", "assets/images/3x/icon.png"]
    );
    assert!(resolve_variants("/", &siblings).is_empty());
}

#[test]
fn finds_react_native_variants_in_a_listing() {
    let listing = entries(&[
        ("src/assets/logo.png", true),
        ("src/assets/logo@2x.png", true),
        ("src/assets/logo.ios.png", true),
        ("src/assets/logo@2x.jpg", true),
        ("src/assets/hero.jpg", true),
        ("src/assets/logo@3x.png", false),
    ]);
    assert_eq!(
        resolve_react_native_variants("src/assets/logo.png", &listing),
        vec!["src/assets/logo.png", "src/assets/logo@2x.png", "src/assets/logo.ios.png"]
    );
}
