use asset_squeeze::discover::merge_react_native_variants;
use asset_squeeze::pathset::{insert_path, insert_paths};
use std::collections::BTreeSet;
use std::path::PathBuf;

/// The strings a `BTreeSet<PathBuf>` holds after inserting `items` in order.
fn std_order(items: &[&str]) -> Vec<String> {
    let mut set = BTreeSet::new();
    for item in items {
        set.insert(PathBuf::from(item));
    }
    set.into_iter().map(|p| p.to_str().unwrap().to_string()).collect()
}

#[test]
fn paths_are_ordered_and_merged_like_a_set_of_paths() {
    let items = [
        "/a.b/c", "/a/b", "/a/b/", "/a//b", "/a", "a", "./a", ".", "..", "../x", "/a/./b", "a/..", "/", "",
        "/a/b/c", "/ä", "/z", "/a-b", "b/a", "a/b/../c", "./", "/A",
    ];
    let mut set = Vec::new();
    insert_paths(&mut set, &items.iter().map(|s| s.to_string()).collect::<Vec<_>>());
    assert_eq!(set, std_order(&items));
}

#[test]
fn inserting_a_path_twice_keeps_one() {
    let mut set = Vec::new();
    insert_path(&mut set, "/x/y.png".to_string());
    insert_path(&mut set, "/x//y.png".to_string());
    insert_path(&mut set, "/x/a.png".to_string());
    assert_eq!(set, vec!["/x/a.png", "/x/y.png"]);
}

#[test]
fn react_native_variants_join_the_found_assets() {
    let mut resolved = vec!["/r/logo.png".to_string()];
    let entries = vec![
        ("/p/logo@2x.png".to_string(), true, "/r/logo@2x.png".to_string()),
        ("/p/logo.ios.png".to_string(), true, "/r/logo.ios.png".to_string()),
        ("/p/other.png".to_string(), true, "/r/other.png".to_string()),
        ("/p/logo@3x.png".to_string(), false, "/p/logo@3x.png".to_string()),
        ("/p/logo.jpg".to_string(), true, "/r/logo.jpg".to_string()),
        ("/p/logo.png".to_string(), true, "/r/logo.png".to_string()),
    ];
    merge_react_native_variants(&mut resolved, "/p/logo.png", &entries);
    assert_eq!(resolved, vec!["/r/logo.ios.png", "/r/logo.png", "/r/logo@2x.png"]);
    assert_eq!(resolved, std_order(&["/r/logo.png", "/r/logo@2x.png", "/r/logo.ios.png"]));
}

#[test]
fn assets_without_stem_or_extension_have_no_variants() {
    let mut resolved = Vec::new();
    let entries = vec![("/p/logo.png".to_string(), true, "/p/logo.png".to_string())];
    merge_react_native_variants(&mut resolved, "/p/logo", &entries);
    assert!(resolved.is_empty());
}
