//! Flutter asset declarations: the `flutter.assets` list of a parsed
//! `pubspec.yaml`, and where each entry points in the project.

use vstd::prelude::*;
use crate::text::{chars_eq_str, chars_of, has_prefix, has_suffix, starts_with_exec, ends_with_exec, string_from_chars};

verus! {

broadcast use vstd::string::group_string_axioms;

/// A YAML document node, as the YAML parser delivers it.
#[derive(Debug)]
pub enum YamlValue {
    Null,
    Bool(bool),
    /// A number, in its textual form.
    Number(String),
    String(String),
    Sequence(Vec<YamlValue>),
    /// A mapping's entries, in document order.
    Mapping(Vec<(YamlValue, YamlValue)>),
    /// A node with an explicit tag, and the node it tags.
    Tagged(String, Box<YamlValue>),
}

/// The node with its tags removed.
pub open spec fn untagged(v: YamlValue) -> YamlValue
    decreases v,
{
    match v {
        YamlValue::Tagged(_, inner) => untagged(*inner),
        _ => v,
    }
}

/// Is `k` the (untagged) string key `key`?
pub open spec fn is_string_key(k: YamlValue, key: Seq<char>) -> bool {
    match k {
        YamlValue::String(s) => s@ == key,
        _ => false,
    }
}

/// The value of the entry with string key `key`.
pub open spec fn entry_value(entries: Seq<(YamlValue, YamlValue)>, key: Seq<char>) -> Option<YamlValue>
    decreases entries.len(),
{
    if entries.len() == 0 {
        None
    } else if is_string_key(entries[0].0, key) {
        Some(entries[0].1)
    } else {
        entry_value(entries.skip(1), key)
    }
}

/// Looking `key` up in a node (`Value::get` with a string key): the node,
/// with tags removed, must be a mapping with that string key.
pub open spec fn value_get(v: YamlValue, key: Seq<char>) -> Option<YamlValue> {
    match untagged(v) {
        YamlValue::Mapping(m) => entry_value(m@, key),
        _ => None,
    }
}

/// The string of a node, tags removed (`Value::as_str`).
pub open spec fn value_str(v: YamlValue) -> Option<Seq<char>> {
    match untagged(v) {
        YamlValue::String(s) => Some(s@),
        _ => None,
    }
}

/// The path of one `flutter.assets` entry: the entry itself when it is a
/// string, else the string under the `path` key of a mapping entry.
pub open spec fn entry_path(v: YamlValue) -> Option<Seq<char>> {
    match value_str(v) {
        Some(s) => Some(s),
        None => match value_get(v, "path"@) {
            Some(p) => value_str(p),
            None => None,
        },
    }
}

/// The paths of the entries that have one, in order.
pub open spec fn entry_paths(items: Seq<YamlValue>) -> Seq<Seq<char>>
    decreases items.len(),
{
    if items.len() == 0 {
        Seq::empty()
    } else {
        let rest = entry_paths(items.drop_last());
        match entry_path(items.last()) {
            Some(p) => rest.push(p),
            None => rest,
        }
    }
}

/// The asset paths declared under `flutter.assets`; none when the document
/// has no such sequence.
pub open spec fn flutter_entries(doc: YamlValue) -> Seq<Seq<char>> {
    match value_get(doc, "flutter"@) {
        Some(f) => match value_get(f, "assets"@) {
            Some(a) => match untagged(a) {
                YamlValue::Sequence(items) => entry_paths(items@),
                _ => Seq::empty(),
            },
            None => Seq::empty(),
        },
        None => Seq::empty(),
    }
}

/// The node with its tags removed.
fn untag(v: &YamlValue) -> (r: &YamlValue)
    ensures
        *r == untagged(*v),
    decreases v,
{
    match v {
        YamlValue::Tagged(_, inner) => untag(inner),
        _ => v,
    }
}

/// Is `k` the string key `key`?
fn string_key_is(k: &YamlValue, key: &str) -> (b: bool)
    ensures
        b == is_string_key(*k, key@),
{
    match k {
        YamlValue::String(s) => {
            let cs = chars_of(s.as_str());
            chars_eq_str(cs.as_slice(), key)
        },
        _ => false,
    }
}

/// The value of the entry of `entries` with string key `key`.
fn lookup<'a>(entries: &'a Vec<(YamlValue, YamlValue)>, key: &str) -> (r: Option<&'a YamlValue>)
    ensures
        match (r, entry_value(entries@, key@)) {
            (Some(x), Some(y)) => *x == y,
            (None, None) => true,
            _ => false,
        },
{
    let mut i: usize = 0;
    assert(entries@.skip(0) =~= entries@);
    while i < entries.len()
        invariant
            i <= entries@.len(),
            entry_value(entries@, key@) == entry_value(entries@.skip(i as int), key@),
        decreases entries@.len() - i,
    {
        assert(entries@.skip(i as int)[0] == entries@[i as int]);
        assert(entries@.skip(i as int).skip(1) =~= entries@.skip(i + 1));
        if string_key_is(&entries[i].0, key) {
            return Some(&entries[i].1);
        }
        i = i + 1;
    }
    None
}

/// `Value::get` with a string key.
fn get<'a>(v: &'a YamlValue, key: &str) -> (r: Option<&'a YamlValue>)
    ensures
        match (r, value_get(*v, key@)) {
            (Some(x), Some(y)) => *x == y,
            (None, None) => true,
            _ => false,
        },
{
    match untag(v) {
        YamlValue::Mapping(m) => lookup(m, key),
        _ => None,
    }
}

/// `Value::as_str`.
fn as_str(v: &YamlValue) -> (r: Option<&str>)
    ensures
        match (r, value_str(*v)) {
            (Some(x), Some(y)) => x@ == y,
            (None, None) => true,
            _ => false,
        },
{
    match untag(v) {
        YamlValue::String(s) => Some(s.as_str()),
        _ => None,
    }
}

/// The path of one `flutter.assets` entry: a plain string entry, or the
/// `path` of a mapping entry (as with flavored assets).
pub fn asset_entry_path(entry: &YamlValue) -> (r: Option<&str>)
    ensures
        match (r, entry_path(*entry)) {
            (Some(x), Some(y)) => x@ == y,
            (None, None) => true,
            _ => false,
        },
{
    if let Some(path) = as_str(entry) {
        return Some(path);
    }
    match get(entry, "path") {
        Some(p) => as_str(p),
        None => None,
    }
}

/// The asset paths declared under `flutter.assets` of a parsed pubspec, in
/// order; entries without a path are passed over.
pub fn flutter_asset_entries(doc: &YamlValue) -> (r: Vec<String>)
    ensures
        r@.map_values(|s: String| s@) == flutter_entries(*doc),
{
    let flutter = match get(doc, "flutter") {
        Some(f) => f,
        None => return Vec::new(),
    };
    let assets = match get(flutter, "assets") {
        Some(a) => a,
        None => return Vec::new(),
    };
    let items = match untag(assets) {
        YamlValue::Sequence(items) => items,
        _ => return Vec::new(),
    };
    let mut r: Vec<String> = Vec::new();
    let mut i: usize = 0;
    assert(items@.take(0) =~= Seq::<YamlValue>::empty());
    while i < items.len()
        invariant
            i <= items@.len(),
            r@.map_values(|s: String| s@) == entry_paths(items@.take(i as int)),
        decreases items@.len() - i,
    {
        assert(items@.take(i + 1).drop_last() =~= items@.take(i as int));
        assert(items@.take(i + 1).last() == items@[i as int]);
        if let Some(path) = asset_entry_path(&items[i]) {
            let s = path.to_string();
            r.push(s);
            assert(r@.map_values(|s: String| s@) =~= entry_paths(items@.take(i as int)).push(path@));
        }
        i = i + 1;
    }
    assert(items@.take(items@.len() as int) =~= items@);
    r
}

/// `serde_yaml_ng::Value`, carried through opaquely.
#[verifier::external_type_specification]
#[verifier::external_body]
pub struct ExYamlValue(serde_yaml_ng::Value);

/// What the YAML parser makes of a document: its root node, or the text of
/// its error.
pub uninterp spec fn yaml_doc_of(text: Seq<char>) -> Result<YamlValue, Seq<char>>;

/// The value of a parse result, the error taken by its text.
pub open spec fn yaml_parse_view(r: Result<YamlValue, String>) -> Result<YamlValue, Seq<char>> {
    match r {
        Ok(v) => Ok(v),
        Err(e) => Err(e@),
    }
}

/// Rewrites a `serde_yaml_ng::Value` node by node as a [`YamlValue`]:
/// numbers by their text, tags by their `!`-prefixed text.
#[verifier::external_body]
fn yaml_from_value(value: &serde_yaml_ng::Value) -> YamlValue {
    match value {
        serde_yaml_ng::Value::Null => YamlValue::Null,
        serde_yaml_ng::Value::Bool(b) => YamlValue::Bool(*b),
        serde_yaml_ng::Value::Number(n) => YamlValue::Number(n.to_string()),
        serde_yaml_ng::Value::String(s) => YamlValue::String(s.clone()),
        serde_yaml_ng::Value::Sequence(items) => YamlValue::Sequence(items.iter().map(yaml_from_value).collect()),
        serde_yaml_ng::Value::Mapping(map) => YamlValue::Mapping(
            map.iter().map(|(k, v)| (yaml_from_value(k), yaml_from_value(v))).collect(),
        ),
        serde_yaml_ng::Value::Tagged(t) => YamlValue::Tagged(t.tag.to_string(), Box::new(yaml_from_value(&t.value))),
    }
}

/// Parses a YAML document with `serde_yaml_ng::from_str` into a
/// `serde_yaml_ng::Value` and gives its nodes as a [`YamlValue`], or the
/// parser's error text. The result depends on the text alone.
#[verifier::external_body]
fn parse_yaml(text: &str) -> (r: Result<YamlValue, String>)
    ensures
        yaml_parse_view(r) == yaml_doc_of(text@),
{
    match serde_yaml_ng::from_str::<serde_yaml_ng::Value>(text) {
        Ok(value) => Ok(yaml_from_value(&value)),
        Err(err) => Err(err.to_string()),
    }
}

/// The asset paths declared under `flutter.assets` of a pubspec's text, in
/// order, or the parser's error when the text is not YAML.
pub fn pubspec_asset_entries(text: &str) -> (r: Result<Vec<String>, String>)
    ensures
        match yaml_doc_of(text@) {
            Ok(doc) => r matches Ok(v) && v@.map_values(|s: String| s@) == flutter_entries(doc),
            Err(e) => r matches Err(m) && m@ == e,
        },
{
    match parse_yaml(text) {
        Ok(doc) => Ok(flutter_asset_entries(&doc)),
        Err(e) => Err(e),
    }
}

/// `base.join(p)` for Unix paths (`Path::join`): an absolute `p` replaces
/// `base`; otherwise `p` is appended, with a `/` between them unless `base`
/// is empty or already ends with one.
pub open spec fn join_path(base: Seq<char>, p: Seq<char>) -> Seq<char> {
    if p.len() > 0 && p[0] == '/' {
        p
    } else if base.len() == 0 || base.last() == '/' {
        base + p
    } else {
        base + seq!['/'] + p
    }
}

/// Joins `p` onto `base` as `Path::join` does on Unix.
pub fn join(base: &str, p: &str) -> (r: String)
    ensures
        r@ == join_path(base@, p@),
{
    let b = chars_of(base);
    let q = chars_of(p);
    if q.len() > 0 && q[0] == '/' {
        return p.to_string();
    }
    let mut out: Vec<char> = b.clone();
    if !(b.len() == 0 || b[b.len() - 1] == '/') {
        out.push('/');
    }
    let ghost mid = out@;
    let mut i: usize = 0;
    while i < q.len()
        invariant
            i <= q@.len(),
            out@ == mid + q@.take(i as int),
        decreases q@.len() - i,
    {
        out.push(q[i]);
        i = i + 1;
        assert(out@ =~= mid + q@.take(i as int));
    }
    assert(q@.take(q@.len() as int) =~= q@);
    proof {
        if b@.len() == 0 || b@.last() == '/' {
            assert(out@ =~= base@ + p@);
        } else {
            assert(out@ =~= base@ + seq!['/'] + p@);
        }
    }
    string_from_chars(out.as_slice())
}

/// Where a `flutter.assets` entry points.
#[derive(Debug)]
pub enum PubspecEntry {
    /// An asset of a dependency package (`packages/...`), not the project's.
    Package,
    /// A directory entry (ending in `/`): its supported images are assets.
    Directory(String),
    /// A single file entry.
    File(String),
}

/// Resolves a `flutter.assets` entry against the project root: package
/// assets are left out, entries ending in `/` name directories, the rest
/// name files.
pub fn resolve_pubspec_entry(project: &str, entry: &str) -> (r: PubspecEntry)
    ensures
        has_prefix(entry@, "packages/"@) ==> r is Package,
        !has_prefix(entry@, "packages/"@) && has_suffix(entry@, "/"@) ==> (r matches PubspecEntry::Directory(
            p,
        ) && p@ == join_path(project@, entry@)),
        !has_prefix(entry@, "packages/"@) && !has_suffix(entry@, "/"@) ==> (r matches PubspecEntry::File(p)
            && p@ == join_path(project@, entry@)),
{
    let e = chars_of(entry);
    let packages = chars_of("packages/");
    if starts_with_exec(e.as_slice(), packages.as_slice()) {
        return PubspecEntry::Package;
    }
    let path = join(project, entry);
    let slash = chars_of("/");
    if ends_with_exec(e.as_slice(), slash.as_slice()) {
        PubspecEntry::Directory(path)
    } else {
        PubspecEntry::File(path)
    }
}

} // verus!
