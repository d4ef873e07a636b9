//! The rules of asset discovery: which directories are passed over, which
//! files are scanned for references, where a reference may point, and how a
//! project's framework is recognized.

use vstd::prelude::*;
use crate::kinds::{AssetKind, Framework};
use crate::flutter::{join, join_path};
use crate::path::{asset_kind, extension_of, file_name, file_stem_of, extension_chars, file_name_chars, file_stem_chars};
use crate::refs::{is_react_native_manifest, normalized_stem, looks_like_react_native_manifest, normalize_react_native_asset_stem};
use crate::pathset::{insert_paths, lemma_insert_all, path_set_insert_all, path_sorted};
use crate::refs::string_views;
use crate::text::{ascii_lower_seq, ascii_lowercase, chars_eq, chars_eq_str, chars_of, has_prefix, push_str, starts_with_exec, string_from_chars, sub_chars};

verus! {

broadcast use vstd::string::group_string_axioms;

/// Is `name` one of `names`?
pub open spec fn one_of(name: Seq<char>, names: Seq<Seq<char>>) -> bool {
    exists|i: int| 0 <= i < names.len() && names[i] == name
}

/// Is the character sequence `name` one of the strings `names`?
fn name_in(name: &[char], names: &Vec<&str>) -> (b: bool)
    ensures
        b == one_of(name@, names@.map_values(|s: &str| s@)),
{
    let ghost views = names@.map_values(|s: &str| s@);
    let mut i: usize = 0;
    while i < names.len()
        invariant
            i <= names@.len(),
            views == names@.map_values(|s: &str| s@),
            forall|j: int| 0 <= j < i ==> views[j] != name@,
        decreases names@.len() - i,
    {
        if chars_eq_str(name, names[i]) {
            assert(views[i as int] == name@);
            return true;
        }
        i = i + 1;
    }
    false
}

/// Does the file name of `path` appear among `names`?
fn file_name_in(path: &str, names: &Vec<&str>) -> (b: bool)
    ensures
        b == (file_name(path@) matches Some(n) && one_of(n, names@.map_values(|s: &str| s@))),
{
    let p = chars_of(path);
    match file_name_chars(p.as_slice()) {
        Some(n) => name_in(n.as_slice(), names),
        None => false,
    }
}

/// Directories never searched by web discovery.
pub open spec fn web_skipped_dirs() -> Seq<Seq<char>> {
    seq![
        ".astro"@, ".cache"@, ".git"@, ".next"@, ".nuxt"@, ".output"@, ".svelte-kit"@, ".turbo"@,
        "android"@, "build"@, "coverage"@, "dist"@, "ios"@, "node_modules"@, "out"@, "target"@,
    ]
}

/// Is the directory at `path` passed over by web discovery (build output,
/// dependencies, tool caches, native subprojects)?
pub fn should_skip_web_dir(path: &str) -> (b: bool)
    ensures
        b == (file_name(path@) matches Some(n) && one_of(n, web_skipped_dirs())),
{
    let names = vec![
        ".astro", ".cache", ".git", ".next", ".nuxt", ".output", ".svelte-kit", ".turbo", "android",
        "build", "coverage", "dist", "ios", "node_modules", "out", "target",
    ];
    assert(names@.map_values(|s: &str| s@) =~= web_skipped_dirs());
    file_name_in(path, &names)
}

/// Directories never searched by React Native discovery.
pub open spec fn react_native_skipped_dirs() -> Seq<Seq<char>> {
    seq![
        ".git"@, ".expo"@, ".next"@, ".turbo"@, "android"@, "build"@, "coverage"@, "dist"@, "ios"@,
        "node_modules"@, "target"@,
    ]
}

/// Is the directory at `path` passed over by React Native discovery?
pub fn should_skip_react_native_dir(path: &str) -> (b: bool)
    ensures
        b == (file_name(path@) matches Some(n) && one_of(n, react_native_skipped_dirs())),
{
    let names = vec![
        ".git", ".expo", ".next", ".turbo", "android", "build", "coverage", "dist", "ios", "node_modules",
        "target",
    ];
    assert(names@.map_values(|s: &str| s@) =~= react_native_skipped_dirs());
    file_name_in(path, &names)
}

/// Directories passed over below a directory given on the command line.
pub open spec fn direct_skipped_dirs() -> Seq<Seq<char>> {
    seq![".git"@, "node_modules"@, "target"@]
}

/// Is the directory at `path` passed over when searching a directory given
/// on the command line?
pub fn should_skip_direct_dir(path: &str) -> (b: bool)
    ensures
        b == (file_name(path@) matches Some(n) && one_of(n, direct_skipped_dirs())),
{
    let names = vec![".git", "node_modules", "target"];
    assert(names@.map_values(|s: &str| s@) =~= direct_skipped_dirs());
    file_name_in(path, &names)
}

/// Package manager lock files.
pub open spec fn lock_file_names() -> Seq<Seq<char>> {
    seq!["package-lock.json"@, "pnpm-lock.yaml"@, "yarn.lock"@, "bun.lock"@, "bun.lockb"@]
}

/// Is the file at `path` a package manager lock file?
pub fn is_lock_file(path: &str) -> (b: bool)
    ensures
        b == (file_name(path@) matches Some(n) && one_of(n, lock_file_names())),
{
    let names = vec!["package-lock.json", "pnpm-lock.yaml", "yarn.lock", "bun.lock", "bun.lockb"];
    assert(names@.map_values(|s: &str| s@) =~= lock_file_names());
    file_name_in(path, &names)
}

/// Does the extension of `path`, lowercased, appear among `exts`?
fn extension_in(path: &str, exts: &Vec<&str>) -> (b: bool)
    ensures
        b == (extension_of(path@) matches Some(e) && one_of(ascii_lower_seq(e), exts@.map_values(|s: &str| s@))),
{
    let p = chars_of(path);
    match extension_chars(p.as_slice()) {
        Some(e) => {
            let lower = ascii_lowercase(e.as_slice());
            name_in(lower.as_slice(), exts)
        },
        None => false,
    }
}

/// Extensions of the text files searched for web asset references.
pub open spec fn web_source_extensions() -> Seq<Seq<char>> {
    seq![
        "html"@, "htm"@, "css"@, "scss"@, "sass"@, "less"@, "js"@, "jsx"@, "ts"@, "tsx"@, "cjs"@, "mjs"@,
        "vue"@, "svelte"@, "astro"@, "md"@, "mdx"@, "json"@,
    ]
}

/// The largest web source file searched for references, in bytes.
pub open spec fn web_source_size_limit() -> nat {
    2 * 1024 * 1024
}

/// Is the file at `path`, whose size is `size` when it could be read, a
/// web source file to search for asset references? Lock files and files
/// over 2 MiB are not; otherwise its extension decides, ignoring case.
pub fn is_web_source_file(path: &str, size: Option<u64>) -> (b: bool)
    ensures
        b == (!(file_name(path@) matches Some(n) && one_of(n, lock_file_names())) && !(size matches Some(
            s,
        ) && s > web_source_size_limit()) && (extension_of(path@) matches Some(e) && one_of(
            ascii_lower_seq(e),
            web_source_extensions(),
        ))),
{
    if is_lock_file(path) {
        return false;
    }
    if let Some(s) = size {
        if s > 2 * 1024 * 1024 {
            return false;
        }
    }
    let exts = vec![
        "html", "htm", "css", "scss", "sass", "less", "js", "jsx", "ts", "tsx", "cjs", "mjs", "vue",
        "svelte", "astro", "md", "mdx", "json",
    ];
    assert(exts@.map_values(|s: &str| s@) =~= web_source_extensions());
    extension_in(path, &exts)
}

/// Extensions of the script files searched for React Native asset
/// references.
pub open spec fn react_native_source_extensions() -> Seq<Seq<char>> {
    seq!["js"@, "jsx"@, "ts"@, "tsx"@, "cjs"@, "mjs"@]
}

/// Is the file at `path` a JavaScript or TypeScript source to search for
/// React Native asset references? Its extension decides, ignoring case.
pub fn is_react_native_source_file(path: &str) -> (b: bool)
    ensures
        b == (extension_of(path@) matches Some(e) && one_of(ascii_lower_seq(e), react_native_source_extensions())),
{
    let exts = vec!["js", "jsx", "ts", "tsx", "cjs", "mjs"];
    assert(exts@.map_values(|s: &str| s@) =~= react_native_source_extensions());
    extension_in(path, &exts)
}

/// The folders of a web project whose images are all assets.
pub open spec fn web_asset_folders() -> Seq<Seq<char>> {
    seq![
        "public"@, "static"@, "assets"@, "images"@, "src/assets"@, "src/images"@, "app/assets"@,
        "app/images"@,
    ]
}

/// The asset folders of the web project at `project`, in search order.
pub fn web_asset_dirs(project: &str) -> (r: Vec<String>)
    ensures
        r@.map_values(|s: String| s@) == web_asset_folders().map_values(|d: Seq<char>| join_path(project@, d)),
{
    let dirs = vec![
        "public", "static", "assets", "images", "src/assets", "src/images", "app/assets", "app/images",
    ];
    let ghost want = web_asset_folders().map_values(|d: Seq<char>| join_path(project@, d));
    assert(dirs@.map_values(|s: &str| s@) =~= web_asset_folders());
    let mut r: Vec<String> = Vec::new();
    let mut i: usize = 0;
    while i < dirs.len()
        invariant
            i <= dirs@.len(),
            dirs@.len() == web_asset_folders().len(),
            dirs@.map_values(|s: &str| s@) == web_asset_folders(),
            want == web_asset_folders().map_values(|d: Seq<char>| join_path(project@, d)),
            r@.map_values(|s: String| s@) == want.take(i as int),
        decreases dirs@.len() - i,
    {
        let p = join(project, dirs[i]);
        assert(dirs@.map_values(|s: &str| s@)[i as int] == dirs@[i as int]@);
        assert(want[i as int] == join_path(project@, web_asset_folders()[i as int]));
        let ghost before = r@;
        r.push(p);
        assert(r@.map_values(|s: String| s@) =~= before.map_values(|s: String| s@).push(p@));
        i = i + 1;
        assert(want.take(i as int) =~= want.take(i - 1).push(want[i - 1]));
    }
    assert(want.take(want.len() as int) =~= want);
    r
}

/// The files whose presence marks a web project.
pub open spec fn web_project_markers() -> Seq<Seq<char>> {
    seq![
        "index.html"@, "vite.config.js"@, "vite.config.ts"@, "next.config.js"@, "next.config.mjs"@,
        "next.config.ts"@, "astro.config.mjs"@, "svelte.config.js"@, "angular.json"@,
    ]
}

/// Does the project at `project` look like a web project: is one of the
/// marker files (an `index.html`, or a Vite, Next.js, Astro, Svelte or
/// Angular configuration) a file there? `is_file` answers for a path; the
/// markers are tried in order until one is.
pub fn looks_like_web_project<F>(project: &str, is_file: F) -> (b: bool) where F: Fn(&str) -> bool
    requires
        forall|p: &str| call_requires(is_file, (p,)),
    ensures
        b ==> exists|i: int, p: &str|
            0 <= i < web_project_markers().len() && p@ == join_path(project@, web_project_markers()[i])
                && call_ensures(is_file, (p,), true),
        !b ==> forall|i: int|
            0 <= i < web_project_markers().len() ==> exists|p: &str|
                p@ == join_path(project@, #[trigger] web_project_markers()[i]) && call_ensures(is_file, (p,), false),
{
    let markers = vec![
        "index.html", "vite.config.js", "vite.config.ts", "next.config.js", "next.config.mjs",
        "next.config.ts", "astro.config.mjs", "svelte.config.js", "angular.json",
    ];
    assert(markers@.map_values(|s: &str| s@) =~= web_project_markers());
    let mut i: usize = 0;
    while i < markers.len()
        invariant
            i <= markers@.len(),
            markers@.len() == web_project_markers().len(),
            markers@.map_values(|s: &str| s@) == web_project_markers(),
            forall|p: &str| call_requires(is_file, (p,)),
            forall|j: int|
                0 <= j < i ==> exists|p: &str|
                    p@ == join_path(project@, #[trigger] web_project_markers()[j]) && call_ensures(is_file, (p,), false),
        decreases markers@.len() - i,
    {
        let candidate = join(project, markers[i]);
        assert(markers@[i as int]@ == web_project_markers()[i as int]);
        let path: &str = candidate.as_str();
        let found = is_file(path);
        if found {
            return true;
        }
        assert(path@ == join_path(project@, web_project_markers()[i as int]));
        i = i + 1;
    }
    false
}

/// The framework recognized from a project's files: Flutter when it has a
/// `pubspec.yaml`; with a `package.json`, React Native when the manifest
/// names `react-native` or `expo`, else web; without either, web when the
/// project looks like one.
pub open spec fn detected_framework(has_pubspec: bool, package_json: Option<Seq<char>>, looks_web: bool) -> Option<
    Framework,
> {
    if has_pubspec {
        Some(Framework::Flutter)
    } else if package_json is Some {
        if is_react_native_manifest(package_json->0) {
            Some(Framework::ReactNative)
        } else {
            Some(Framework::Web)
        }
    } else if looks_web {
        Some(Framework::Web)
    } else {
        None
    }
}

/// The text of the error when no framework is recognized.
pub open spec fn detection_failure_text(project: Seq<char>) -> Seq<char> {
    "could not detect framework in "@ + project
        + "; pass --framework flutter, --framework react-native, or --framework web"@
}

/// Recognizes the framework of the project at `project` from what its
/// files show: whether it has a `pubspec.yaml`, the text of its
/// `package.json` if it has one (empty when unreadable), and whether it
/// looks like a web project.
pub fn detect_framework(project: &str, has_pubspec: bool, package_json: Option<&str>, looks_web: bool) -> (r: Result<
    Framework,
    String,
>)
    ensures
        match detected_framework(
            has_pubspec,
            match package_json {
                Some(t) => Some(t@),
                None => None,
            },
            looks_web,
        ) {
            Some(f) => r == Ok::<Framework, String>(f),
            None => r matches Err(e) && e@ == detection_failure_text(project@),
        },
{
    if has_pubspec {
        return Ok(Framework::Flutter);
    }
    if let Some(manifest) = package_json {
        if looks_like_react_native_manifest(manifest) {
            return Ok(Framework::ReactNative);
        }
        return Ok(Framework::Web);
    }
    if looks_web {
        return Ok(Framework::Web);
    }
    let mut out: Vec<char> = Vec::new();
    push_str(&mut out, "could not detect framework in ");
    push_str(&mut out, project);
    push_str(&mut out, "; pass --framework flutter, --framework react-native, or --framework web");
    Err(string_from_chars(out.as_slice()))
}

/// The display name of a concrete framework; `Auto` has none.
pub fn framework_name(f: Framework) -> (s: Option<&'static str>)
    ensures
        match f {
            Framework::Auto => s is None,
            Framework::Flutter => s matches Some(n) && n@ == "Flutter"@,
            Framework::ReactNative => s matches Some(n) && n@ == "React Native"@,
            Framework::Web => s matches Some(n) && n@ == "Web"@,
        },
{
    match f {
        Framework::Auto => None,
        Framework::Flutter => Some("Flutter"),
        Framework::ReactNative => Some("React Native"),
        Framework::Web => Some("Web"),
    }
}

/// The paths where a web asset reference may point, in the order they are
/// tried: relative references (`./`, `../`) from the referencing file's
/// directory; root references (`/`) under `public` and then the project;
/// alias references (`@/`, `~/`) under `src` and then the project; other
/// references from the file's directory, under `public`, and the project.
pub open spec fn web_ref_candidates(project: Seq<char>, parent: Seq<char>, r: Seq<char>) -> Seq<Seq<char>> {
    if has_prefix(r, "./"@) || has_prefix(r, "../"@) {
        seq![join_path(parent, r)]
    } else if has_prefix(r, "/"@) {
        seq![join_path(join_path(project, "public"@), r.skip(1)), join_path(project, r.skip(1))]
    } else if has_prefix(r, "@/"@) || has_prefix(r, "~/"@) {
        seq![join_path(join_path(project, "src"@), r.skip(2)), join_path(project, r.skip(2))]
    } else {
        seq![join_path(parent, r), join_path(join_path(project, "public"@), r), join_path(project, r)]
    }
}

/// The candidate paths of the web asset reference `asset_ref`, made in the
/// file whose directory is `parent`, in the project at `project`.
pub fn resolve_web_asset_ref(project: &str, parent: &str, asset_ref: &str) -> (r: Vec<String>)
    ensures
        r@.map_values(|s: String| s@) == web_ref_candidates(project@, parent@, asset_ref@),
{
    let a = chars_of(asset_ref);
    let n = a.len();
    let dot = chars_of("./");
    let dotdot = chars_of("../");
    let slash = chars_of("/");
    let at = chars_of("@/");
    let tilde = chars_of("~/");
    proof {
        reveal_strlit("/");
        reveal_strlit("@/");
        reveal_strlit("~/");
    }
    let r: Vec<String>;
    if starts_with_exec(a.as_slice(), dot.as_slice()) || starts_with_exec(a.as_slice(), dotdot.as_slice()) {
        r = vec![join(parent, asset_ref)];
    } else if starts_with_exec(a.as_slice(), slash.as_slice()) {
        let rest = string_from_chars(sub_chars(a.as_slice(), 1, n).as_slice());
        assert(rest@ =~= asset_ref@.skip(1));
        let public = join(project, "public");
        r = vec![join(public.as_str(), rest.as_str()), join(project, rest.as_str())];
    } else if starts_with_exec(a.as_slice(), at.as_slice()) || starts_with_exec(a.as_slice(), tilde.as_slice()) {
        let rest = string_from_chars(sub_chars(a.as_slice(), 2, n).as_slice());
        assert(rest@ =~= asset_ref@.skip(2));
        let src = join(project, "src");
        r = vec![join(src.as_str(), rest.as_str()), join(project, rest.as_str())];
    } else {
        let public = join(project, "public");
        r = vec![join(parent, asset_ref), join(public.as_str(), asset_ref), join(project, asset_ref)];
    }
    assert(r@.map_values(|s: String| s@) =~= web_ref_candidates(project@, parent@, asset_ref@));
    r
}

/// Is `candidate` a variant of the React Native asset `main`: a supported
/// image with the same extension (ignoring case) whose stem normalizes to
/// the same name (density suffixes like `@2x` and platform suffixes like
/// `.ios` removed)? An asset without stem or extension has no variants.
pub open spec fn is_react_native_variant(main: Seq<char>, candidate: Seq<char>) -> bool {
    &&& file_stem_of(main) is Some
    &&& extension_of(main) is Some
    &&& asset_kind(candidate) != AssetKind::Other
    &&& extension_of(candidate) matches Some(e) && ascii_lower_seq(e) == ascii_lower_seq(extension_of(main)->0)
    &&& file_stem_of(candidate) matches Some(s) && normalized_stem(s) == normalized_stem(file_stem_of(main)->0)
}

/// Is the file `candidate` a variant of the React Native asset `main`?
pub fn react_native_variant(main: &str, candidate: &str) -> (b: bool)
    ensures
        b == is_react_native_variant(main@, candidate@),
{
    let m = chars_of(main);
    let c = chars_of(candidate);
    let base_stem = match file_stem_chars(m.as_slice()) {
        Some(s) => s,
        None => return false,
    };
    let base_ext = match extension_chars(m.as_slice()) {
        Some(e) => e,
        None => return false,
    };
    if !crate::path::is_supported_image(candidate) {
        return false;
    }
    let cand_ext = match extension_chars(c.as_slice()) {
        Some(e) => e,
        None => return false,
    };
    let lower_base = ascii_lowercase(base_ext.as_slice());
    let lower_cand = ascii_lowercase(cand_ext.as_slice());
    if !chars_eq(lower_cand.as_slice(), lower_base.as_slice()) {
        return false;
    }
    let cand_stem = match file_stem_chars(c.as_slice()) {
        Some(s) => s,
        None => return false,
    };
    let base_text = string_from_chars(base_stem.as_slice());
    let cand_text = string_from_chars(cand_stem.as_slice());
    let nb = normalize_react_native_asset_stem(base_text.as_str());
    let nc = normalize_react_native_asset_stem(cand_text.as_str());
    let nbc = chars_of(nb.as_str());
    let ncc = chars_of(nc.as_str());
    chars_eq(ncc.as_slice(), nbc.as_slice())
}

/// Directory entries (path, flag) taken by their characters.
pub open spec fn entry_views(entries: Seq<(String, bool)>) -> Seq<(Seq<char>, bool)> {
    entries.map_values(|e: (String, bool)| (e.0@, e.1))
}

/// The paths of the flagged entries that satisfy `keep`, each mapped by
/// `make`, in order.
pub open spec fn flagged_paths(
    entries: Seq<(Seq<char>, bool)>,
    keep: spec_fn(Seq<char>) -> bool,
    make: spec_fn(Seq<char>) -> Seq<char>,
) -> Seq<Seq<char>>
    decreases entries.len(),
{
    if entries.len() == 0 {
        Seq::empty()
    } else {
        let rest = flagged_paths(entries.drop_last(), keep, make);
        let e = entries.last();
        if e.1 && keep(e.0) {
            rest.push(make(e.0))
        } else {
            rest
        }
    }
}

/// The supported images among the entries of a directory listed by a
/// `flutter.assets` directory entry, given as (path, is a file) pairs, in
/// order.
pub fn resolve_directory_entry(entries: &[(String, bool)]) -> (r: Vec<String>)
    ensures
        r@.map_values(|s: String| s@) == flagged_paths(
            entry_views(entries@),
            |p: Seq<char>| asset_kind(p) != AssetKind::Other,
            |p: Seq<char>| p,
        ),
{
    let ghost keep = |p: Seq<char>| asset_kind(p) != AssetKind::Other;
    let ghost make = |p: Seq<char>| p;
    let ghost views = entry_views(entries@);
    let mut r: Vec<String> = Vec::new();
    let mut i: usize = 0;
    assert(views.take(0) =~= Seq::<(Seq<char>, bool)>::empty());
    while i < entries.len()
        invariant
            i <= entries@.len(),
            views == entry_views(entries@),
            keep == (|p: Seq<char>| asset_kind(p) != AssetKind::Other),
            make == (|p: Seq<char>| p),
            r@.map_values(|s: String| s@) == flagged_paths(views.take(i as int), keep, make),
        decreases entries@.len() - i,
    {
        assert(views.take(i + 1).drop_last() =~= views.take(i as int));
        assert(views.take(i + 1).last() == (entries@[i as int].0@, entries@[i as int].1));
        let (path, is_file) = (&entries[i].0, entries[i].1);
        if is_file && crate::path::is_supported_image(path.as_str()) {
            let ghost before = r@;
            r.push(path.clone());
            assert(r@.map_values(|s: String| s@) =~= before.map_values(|s: String| s@).push(path@));
        }
        i = i + 1;
    }
    assert(views.take(entries@.len() as int) =~= views);
    r
}

/// Where the density variants of a Flutter asset may be: for each
/// subdirectory of the asset's directory named like `2.0x` (the entries
/// given as (path, is a directory) pairs), the file of the same name inside
/// it, in order. A path without a file name has none.
pub fn resolve_variants(main_asset: &str, entries: &[(String, bool)]) -> (r: Vec<String>)
    ensures
        match file_name(main_asset@) {
            Some(name) => r@.map_values(|s: String| s@) == flagged_paths(
                entry_views(entries@),
                |p: Seq<char>| file_name(p) matches Some(d) && crate::refs::is_resolution_variant_name(d),
                |p: Seq<char>| join_path(p, name),
            ),
            None => r@.len() == 0,
        },
{
    let m = chars_of(main_asset);
    let name = match file_name_chars(m.as_slice()) {
        Some(n) => string_from_chars(n.as_slice()),
        None => return Vec::new(),
    };
    let ghost keep = |p: Seq<char>| file_name(p) matches Some(d) && crate::refs::is_resolution_variant_name(d);
    let ghost make = |p: Seq<char>| join_path(p, name@);
    let ghost views = entry_views(entries@);
    let mut r: Vec<String> = Vec::new();
    let mut i: usize = 0;
    assert(views.take(0) =~= Seq::<(Seq<char>, bool)>::empty());
    while i < entries.len()
        invariant
            i <= entries@.len(),
            views == entry_views(entries@),
            keep == (|p: Seq<char>| file_name(p) matches Some(d) && crate::refs::is_resolution_variant_name(d)),
            make == (|p: Seq<char>| join_path(p, name@)),
            r@.map_values(|s: String| s@) == flagged_paths(views.take(i as int), keep, make),
        decreases entries@.len() - i,
    {
        assert(views.take(i + 1).drop_last() =~= views.take(i as int));
        assert(views.take(i + 1).last() == (entries@[i as int].0@, entries@[i as int].1));
        let (path, is_dir) = (&entries[i].0, entries[i].1);
        if is_dir && crate::refs::is_resolution_variant_dir(path.as_str()) {
            let candidate = join(path.as_str(), name.as_str());
            let ghost before = r@;
            r.push(candidate);
            assert(r@.map_values(|s: String| s@) =~= before.map_values(|s: String| s@).push(join_path(path@, name@)));
        }
        i = i + 1;
    }
    assert(views.take(entries@.len() as int) =~= views);
    r
}

/// The variants of the React Native asset `main_asset` among the entries
/// of its directory, given as (path, is a file) pairs, in order.
pub fn resolve_react_native_variants(main_asset: &str, entries: &[(String, bool)]) -> (r: Vec<String>)
    ensures
        r@.map_values(|s: String| s@) == flagged_paths(
            entry_views(entries@),
            |p: Seq<char>| is_react_native_variant(main_asset@, p),
            |p: Seq<char>| p,
        ),
{
    let ghost keep = |p: Seq<char>| is_react_native_variant(main_asset@, p);
    let ghost make = |p: Seq<char>| p;
    let ghost views = entry_views(entries@);
    let mut r: Vec<String> = Vec::new();
    let mut i: usize = 0;
    assert(views.take(0) =~= Seq::<(Seq<char>, bool)>::empty());
    while i < entries.len()
        invariant
            i <= entries@.len(),
            views == entry_views(entries@),
            keep == (|p: Seq<char>| is_react_native_variant(main_asset@, p)),
            make == (|p: Seq<char>| p),
            r@.map_values(|s: String| s@) == flagged_paths(views.take(i as int), keep, make),
        decreases entries@.len() - i,
    {
        assert(views.take(i + 1).drop_last() =~= views.take(i as int));
        assert(views.take(i + 1).last() == (entries@[i as int].0@, entries@[i as int].1));
        let (path, is_file) = (&entries[i].0, entries[i].1);
        if is_file && react_native_variant(main_asset, path.as_str()) {
            let ghost before = r@;
            r.push(path.clone());
            assert(r@.map_values(|s: String| s@) =~= before.map_values(|s: String| s@).push(path@));
        }
        i = i + 1;
    }
    assert(views.take(entries@.len() as int) =~= views);
    r
}

/// Directory entries (path, flag, resolved path) taken by their characters.
pub open spec fn resolved_entry_views(entries: Seq<(String, bool, String)>) -> Seq<(Seq<char>, bool, Seq<char>)> {
    entries.map_values(|e: (String, bool, String)| (e.0@, e.1, e.2@))
}

/// The resolved paths of the entries that are files and variants of the
/// React Native asset `main`, in order.
pub open spec fn variant_targets(main: Seq<char>, entries: Seq<(Seq<char>, bool, Seq<char>)>) -> Seq<Seq<char>>
    decreases entries.len(),
{
    if entries.len() == 0 {
        Seq::empty()
    } else {
        let rest = variant_targets(main, entries.drop_last());
        let e = entries.last();
        if e.1 && is_react_native_variant(main, e.0) {
            rest.push(e.2)
        } else {
            rest
        }
    }
}

/// Adds to the set of paths `resolved` (kept in `Path` order, as a
/// `BTreeSet<PathBuf>`) the variants of the React Native asset
/// `main_asset` among the entries of its directory, given as (path, is a
/// file, the path resolved through symbolic links or, failing that, the
/// path itself): each variant's resolved path, in the entries' order.
pub fn merge_react_native_variants(resolved: &mut Vec<String>, main_asset: &str, entries: &[(String, bool, String)])
    ensures
        string_views(final(resolved)@) == path_set_insert_all(
            string_views(old(resolved)@),
            variant_targets(main_asset@, resolved_entry_views(entries@)),
        ),
        path_sorted(string_views(old(resolved)@)) ==> path_sorted(string_views(final(resolved)@)),
{
    let ghost views = resolved_entry_views(entries@);
    let mut targets: Vec<String> = Vec::new();
    let mut i: usize = 0;
    assert(views.take(0) =~= Seq::<(Seq<char>, bool, Seq<char>)>::empty());
    while i < entries.len()
        invariant
            i <= entries@.len(),
            views == resolved_entry_views(entries@),
            string_views(targets@) == variant_targets(main_asset@, views.take(i as int)),
        decreases entries@.len() - i,
    {
        assert(views.take(i + 1).drop_last() =~= views.take(i as int));
        assert(views.take(i + 1).last() == (entries@[i as int].0@, entries@[i as int].1, entries@[i as int].2@));
        if entries[i].1 && react_native_variant(main_asset, entries[i].0.as_str()) {
            let ghost before = string_views(targets@);
            targets.push(entries[i].2.clone());
            assert(string_views(targets@) =~= before.push(entries@[i as int].2@));
        }
        i = i + 1;
    }
    assert(views.take(entries@.len() as int) =~= views);
    let ghost old_views = string_views(resolved@);
    insert_paths(resolved, targets.as_slice());
    proof {
        if path_sorted(old_views) {
            lemma_insert_all(old_views, string_views(targets@));
        }
    }
}

/// React Native discovery passes over exactly the directories named
/// `.git`, `.expo`, `.next`, `.turbo`, `android`, `build`, `coverage`,
/// `dist`, `ios`, `node_modules` and `target`.
pub proof fn lemma_react_native_skipped_names(path: Seq<char>)
    ensures
        (file_name(path) matches Some(n) && one_of(n, react_native_skipped_dirs())) <==> (file_name(path) matches Some(n)
            && (n == ".git"@ || n == ".expo"@ || n == ".next"@ || n == ".turbo"@ || n == "android"@ || n == "build"@
            || n == "coverage"@ || n == "dist"@ || n == "ios"@ || n == "node_modules"@ || n == "target"@)),
{
    if let Some(n) = file_name(path) {
        let l = react_native_skipped_dirs();
        if one_of(n, l) {
            let i = choose|i: int| 0 <= i < l.len() && l[i] == n;
            assert(0 <= i < 11);
        }
        if n == ".git"@ { assert(l[0] == n); }
        if n == ".expo"@ { assert(l[1] == n); }
        if n == ".next"@ { assert(l[2] == n); }
        if n == ".turbo"@ { assert(l[3] == n); }
        if n == "android"@ { assert(l[4] == n); }
        if n == "build"@ { assert(l[5] == n); }
        if n == "coverage"@ { assert(l[6] == n); }
        if n == "dist"@ { assert(l[7] == n); }
        if n == "ios"@ { assert(l[8] == n); }
        if n == "node_modules"@ { assert(l[9] == n); }
        if n == "target"@ { assert(l[10] == n); }
    }
}

/// Web discovery passes over exactly the directories named `.astro`,
/// `.cache`, `.git`, `.next`, `.nuxt`, `.output`, `.svelte-kit`, `.turbo`,
/// `android`, `build`, `coverage`, `dist`, `ios`, `node_modules`, `out` and
/// `target`.
pub proof fn lemma_web_skipped_names(path: Seq<char>)
    ensures
        (file_name(path) matches Some(n) && one_of(n, web_skipped_dirs())) <==> (file_name(path) matches Some(n)
            && (n == ".astro"@ || n == ".cache"@ || n == ".git"@ || n == ".next"@ || n == ".nuxt"@ || n == ".output"@ || n == ".svelte-kit"@ || n == ".turbo"@ || n == "android"@ || n == "build"@ || n == "coverage"@ || n == "dist"@ || n == "ios"@ || n == "node_modules"@ || n == "out"@ || n == "target"@)),
{
    if let Some(n) = file_name(path) {
        let l = web_skipped_dirs();
        if one_of(n, l) {
            let i = choose|i: int| 0 <= i < l.len() && l[i] == n;
            assert(0 <= i < 16);
        }
        if n == ".astro"@ { assert(l[0] == n); }
        if n == ".cache"@ { assert(l[1] == n); }
        if n == ".git"@ { assert(l[2] == n); }
        if n == ".next"@ { assert(l[3] == n); }
        if n == ".nuxt"@ { assert(l[4] == n); }
        if n == ".output"@ { assert(l[5] == n); }
        if n == ".svelte-kit"@ { assert(l[6] == n); }
        if n == ".turbo"@ { assert(l[7] == n); }
        if n == "android"@ { assert(l[8] == n); }
        if n == "build"@ { assert(l[9] == n); }
        if n == "coverage"@ { assert(l[10] == n); }
        if n == "dist"@ { assert(l[11] == n); }
        if n == "ios"@ { assert(l[12] == n); }
        if n == "node_modules"@ { assert(l[13] == n); }
        if n == "out"@ { assert(l[14] == n); }
        if n == "target"@ { assert(l[15] == n); }
    }
}

/// Below a directory given on the command line, exactly the directories
/// named `.git`, `node_modules` and `target` are passed over.
pub proof fn lemma_direct_skipped_names(path: Seq<char>)
    ensures
        (file_name(path) matches Some(n) && one_of(n, direct_skipped_dirs())) <==> (file_name(path) matches Some(n)
            && (n == ".git"@ || n == "node_modules"@ || n == "target"@)),
{
    if let Some(n) = file_name(path) {
        let l = direct_skipped_dirs();
        if one_of(n, l) {
            let i = choose|i: int| 0 <= i < l.len() && l[i] == n;
            assert(0 <= i < 3);
        }
        if n == ".git"@ { assert(l[0] == n); }
        if n == "node_modules"@ { assert(l[1] == n); }
        if n == "target"@ { assert(l[2] == n); }
    }
}

/// The lock files are exactly the files named `package-lock.json`,
/// `pnpm-lock.yaml`, `yarn.lock`, `bun.lock` and `bun.lockb`.
pub proof fn lemma_lock_file_names(path: Seq<char>)
    ensures
        (file_name(path) matches Some(n) && one_of(n, lock_file_names())) <==> (file_name(path) matches Some(n)
            && (n == "package-lock.json"@ || n == "pnpm-lock.yaml"@ || n == "yarn.lock"@ || n == "bun.lock"@ || n == "bun.lockb"@)),
{
    if let Some(n) = file_name(path) {
        let l = lock_file_names();
        if one_of(n, l) {
            let i = choose|i: int| 0 <= i < l.len() && l[i] == n;
            assert(0 <= i < 5);
        }
        if n == "package-lock.json"@ { assert(l[0] == n); }
        if n == "pnpm-lock.yaml"@ { assert(l[1] == n); }
        if n == "yarn.lock"@ { assert(l[2] == n); }
        if n == "bun.lock"@ { assert(l[3] == n); }
        if n == "bun.lockb"@ { assert(l[4] == n); }
    }
}

/// The web sources searched for references are exactly the files whose
/// extension, lowercased, is one of `html`, `htm`, `css`, `scss`, `sass`,
/// `less`, `js`, `jsx`, `ts`, `tsx`, `cjs`, `mjs`, `vue`, `svelte`,
/// `astro`, `md`, `mdx` and `json`.
pub proof fn lemma_web_source_extensions(path: Seq<char>)
    ensures
        (extension_of(path) matches Some(e) && one_of(ascii_lower_seq(e), web_source_extensions())) <==> (extension_of(path) matches Some(e)
            && (ascii_lower_seq(e) == "html"@ || ascii_lower_seq(e) == "htm"@ || ascii_lower_seq(e) == "css"@ || ascii_lower_seq(e) == "scss"@ || ascii_lower_seq(e) == "sass"@ || ascii_lower_seq(e) == "less"@ || ascii_lower_seq(e) == "js"@ || ascii_lower_seq(e) == "jsx"@ || ascii_lower_seq(e) == "ts"@ || ascii_lower_seq(e) == "tsx"@ || ascii_lower_seq(e) == "cjs"@ || ascii_lower_seq(e) == "mjs"@ || ascii_lower_seq(e) == "vue"@ || ascii_lower_seq(e) == "svelte"@ || ascii_lower_seq(e) == "astro"@ || ascii_lower_seq(e) == "md"@ || ascii_lower_seq(e) == "mdx"@ || ascii_lower_seq(e) == "json"@)),
{
    if let Some(e) = extension_of(path) {
        let n = ascii_lower_seq(e);
        let l = web_source_extensions();
        if one_of(n, l) {
            let i = choose|i: int| 0 <= i < l.len() && l[i] == n;
            assert(0 <= i < 18);
        }
        if n == "html"@ { assert(l[0] == n); }
        if n == "htm"@ { assert(l[1] == n); }
        if n == "css"@ { assert(l[2] == n); }
        if n == "scss"@ { assert(l[3] == n); }
        if n == "sass"@ { assert(l[4] == n); }
        if n == "less"@ { assert(l[5] == n); }
        if n == "js"@ { assert(l[6] == n); }
        if n == "jsx"@ { assert(l[7] == n); }
        if n == "ts"@ { assert(l[8] == n); }
        if n == "tsx"@ { assert(l[9] == n); }
        if n == "cjs"@ { assert(l[10] == n); }
        if n == "mjs"@ { assert(l[11] == n); }
        if n == "vue"@ { assert(l[12] == n); }
        if n == "svelte"@ { assert(l[13] == n); }
        if n == "astro"@ { assert(l[14] == n); }
        if n == "md"@ { assert(l[15] == n); }
        if n == "mdx"@ { assert(l[16] == n); }
        if n == "json"@ { assert(l[17] == n); }
    }
}

/// The React Native sources searched for references are exactly the files
/// whose extension, lowercased, is one of `js`, `jsx`, `ts`, `tsx`, `cjs`
/// and `mjs`.
pub proof fn lemma_react_native_source_extensions(path: Seq<char>)
    ensures
        (extension_of(path) matches Some(e) && one_of(ascii_lower_seq(e), react_native_source_extensions())) <==> (extension_of(path) matches Some(e)
            && (ascii_lower_seq(e) == "js"@ || ascii_lower_seq(e) == "jsx"@ || ascii_lower_seq(e) == "ts"@ || ascii_lower_seq(e) == "tsx"@ || ascii_lower_seq(e) == "cjs"@ || ascii_lower_seq(e) == "mjs"@)),
{
    if let Some(e) = extension_of(path) {
        let n = ascii_lower_seq(e);
        let l = react_native_source_extensions();
        if one_of(n, l) {
            let i = choose|i: int| 0 <= i < l.len() && l[i] == n;
            assert(0 <= i < 6);
        }
        if n == "js"@ { assert(l[0] == n); }
        if n == "jsx"@ { assert(l[1] == n); }
        if n == "ts"@ { assert(l[2] == n); }
        if n == "tsx"@ { assert(l[3] == n); }
        if n == "cjs"@ { assert(l[4] == n); }
        if n == "mjs"@ { assert(l[5] == n); }
    }
}

/// The asset folders of a web project are, in search order, `public`,
/// `static`, `assets`, `images`, `src/assets`, `src/images`, `app/assets`
/// and `app/images`, and its marker files `index.html`, `vite.config.js`,
/// `vite.config.ts`, `next.config.js`, `next.config.mjs`, `next.config.ts`,
/// `astro.config.mjs`, `svelte.config.js` and `angular.json`, in the order
/// they are tried.
pub proof fn lemma_web_project_names()
    ensures
        web_asset_folders() == seq![
            "public"@, "static"@, "assets"@, "images"@, "src/assets"@, "src/images"@, "app/assets"@,
            "app/images"@,
        ],
        web_project_markers() == seq![
            "index.html"@, "vite.config.js"@, "vite.config.ts"@, "next.config.js"@, "next.config.mjs"@,
            "next.config.ts"@, "astro.config.mjs"@, "svelte.config.js"@, "angular.json"@,
        ],
{
}

} // verus!
