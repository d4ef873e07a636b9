//! Rules for asset references found in source files: which references are
//! local images, how web references are cleaned, and how React Native and
//! Flutter name their density and platform variants.

use vstd::prelude::*;
use crate::float::{parses_as_positive_f32, parses_positive_f32};
use crate::kinds::AssetKind;
use crate::path::{asset_kind, classify_chars, file_name, file_name_chars};
use crate::text::{
    chars_of, contains_exec, contains_seq, ends_with_exec, has_prefix, has_suffix,
    lemma_last_index_of, last_index_of, rfind_char, starts_with_exec, string_from_chars,
    sub_chars, trim_chars, trim_seq,
};

verus! {

broadcast use vstd::string::group_string_axioms;

/// A web reference that points outside the project: an absolute URL, a
/// protocol-relative URL, or a `data:` or `blob:` URL.
pub open spec fn is_external_ref(r: Seq<char>) -> bool {
    has_prefix(r, "http://"@) || has_prefix(r, "https://"@) || has_prefix(r, "//"@) || has_prefix(r, "data:"@)
        || has_prefix(r, "blob:"@)
}

/// Does the web reference point outside the project?
pub fn is_external_web_ref(asset_ref: &str) -> (b: bool)
    ensures
        b == is_external_ref(asset_ref@),
{
    let r = chars_of(asset_ref);
    let r = r.as_slice();
    starts_with_exec(r, chars_of("http://").as_slice()) || starts_with_exec(r, chars_of("https://").as_slice())
        || starts_with_exec(r, chars_of("//").as_slice()) || starts_with_exec(r, chars_of("data:").as_slice())
        || starts_with_exec(r, chars_of("blob:").as_slice())
}

/// Position of the first `?` or `#` in `s`.
pub open spec fn query_start(s: Seq<char>) -> Option<int>
    decreases s.len(),
{
    if s.len() == 0 {
        None
    } else if s[0] == '?' || s[0] == '#' {
        Some(0)
    } else {
        match query_start(s.skip(1)) {
            Some(i) => Some(i + 1),
            None => None,
        }
    }
}

/// A web reference reduced to the local image path it names: white space
/// trimmed, query and fragment removed; none for empty, external or
/// non-image references.
pub open spec fn cleaned_web_ref(r: Seq<char>) -> Option<Seq<char>> {
    let t = trim_seq(r);
    if t.len() == 0 || is_external_ref(t) {
        None
    } else {
        let path = match query_start(t) {
            Some(i) => t.take(i),
            None => t,
        };
        if asset_kind(path) != AssetKind::Other {
            Some(path)
        } else {
            None
        }
    }
}

/// Position of the first `?` or `#` in `s`.
fn query_start_exec(s: &[char]) -> (r: Option<usize>)
    ensures
        match r {
            Some(i) => query_start(s@) == Some(i as int) && i < s@.len(),
            None => query_start(s@) is None,
        },
{
    let mut i: usize = 0;
    assert(s@.skip(0) =~= s@);
    while i < s.len()
        invariant
            i <= s@.len(),
            query_start(s@) == (match query_start(s@.skip(i as int)) {
                Some(j) => Some(j + i),
                None => None,
            }),
        decreases s@.len() - i,
    {
        assert(s@.skip(i as int).skip(1) =~= s@.skip(i + 1));
        if s[i] == '?' || s[i] == '#' {
            return Some(i);
        }
        i = i + 1;
    }
    None
}

/// Reduces a web reference to the local image path it names, if any.
pub fn clean_web_asset_ref(asset_ref: &str) -> (r: Option<String>)
    ensures
        match (r, cleaned_web_ref(asset_ref@)) {
            (Some(s), Some(p)) => s@ == p,
            (None, None) => true,
            _ => false,
        },
{
    let chars = chars_of(asset_ref);
    let t = trim_chars(chars.as_slice());
    if t.len() == 0 {
        return None;
    }
    let ts = string_from_chars(t.as_slice());
    if is_external_web_ref(ts.as_str()) {
        return None;
    }
    let path = match query_start_exec(t.as_slice()) {
        Some(i) => sub_chars(t.as_slice(), 0, i),
        None => sub_chars(t.as_slice(), 0, t.len()),
    };
    assert(t@.subrange(0, t@.len() as int) =~= t@);
    if classify_chars(path.as_slice()) != AssetKind::Other {
        Some(string_from_chars(path.as_slice()))
    } else {
        None
    }
}

/// A React Native reference to a local image: relative (`./` or `../`) and
/// naming a supported image format.
pub open spec fn is_local_ref(r: Seq<char>) -> bool {
    (has_prefix(r, "./"@) || has_prefix(r, "../"@)) && asset_kind(r) != AssetKind::Other
}

/// Is the reference a relative path to a supported image?
pub fn is_local_asset_ref(asset_ref: &str) -> (b: bool)
    ensures
        b == is_local_ref(asset_ref@),
{
    let r = chars_of(asset_ref);
    (starts_with_exec(r.as_slice(), chars_of("./").as_slice()) || starts_with_exec(
        r.as_slice(),
        chars_of("../").as_slice(),
    )) && classify_chars(r.as_slice()) != AssetKind::Other
}

/// A package manifest of a React Native or Expo project names the
/// `"react-native"` or `"expo"` package.
pub open spec fn is_react_native_manifest(manifest: Seq<char>) -> bool {
    contains_seq(manifest, "\"react-native\""@) || contains_seq(manifest, "\"expo\""@)
}

/// Does the package manifest belong to a React Native or Expo project?
pub fn looks_like_react_native_manifest(manifest: &str) -> (b: bool)
    ensures
        b == is_react_native_manifest(manifest@),
{
    let m = chars_of(manifest);
    contains_exec(m.as_slice(), chars_of("\"react-native\"").as_slice()) || contains_exec(
        m.as_slice(),
        chars_of("\"expo\"").as_slice(),
    )
}

/// The stem without its density suffix `@<scale>x`, where `<scale>` parses
/// as a positive number; none when there is no such suffix.
pub open spec fn density_stripped(stem: Seq<char>) -> Option<Seq<char>> {
    match last_index_of(stem, '@') {
        None => None,
        Some(i) => {
            let scale = stem.skip(i + 1);
            if scale.len() > 0 && scale.last() == 'x' && parses_positive_f32(scale.drop_last()) {
                Some(stem.take(i))
            } else {
                None
            }
        },
    }
}

/// Strips a React Native density suffix such as `@2x` or `@1.5x`.
pub fn strip_react_native_density_suffix(stem: &str) -> (r: Option<String>)
    ensures
        match (r, density_stripped(stem@)) {
            (Some(s), Some(b)) => s@ == b,
            (None, None) => true,
            _ => false,
        },
{
    let s = chars_of(stem);
    proof {
        lemma_last_index_of(s@, '@');
    }
    let slen = s.len();
    match rfind_char(s.as_slice(), '@') {
        None => None,
        Some(i) => {
            assert(i < slen);
            let scale = sub_chars(s.as_slice(), i + 1, slen);
            assert(scale@ == s@.skip(i + 1));
            if scale.len() == 0 || scale[scale.len() - 1] != 'x' {
                return None;
            }
            let number = sub_chars(scale.as_slice(), 0, scale.len() - 1);
            assert(number@ =~= scale@.drop_last());
            if parses_as_positive_f32(number.as_slice()) {
                let base = sub_chars(s.as_slice(), 0, i);
                assert(base@ == s@.take(i as int));
                Some(string_from_chars(base.as_slice()))
            } else {
                None
            }
        },
    }
}

pub proof fn lemma_density_stripped_shorter(stem: Seq<char>)
    ensures
        density_stripped(stem) matches Some(b) ==> b.len() < stem.len(),
{
    lemma_last_index_of(stem, '@');
}

/// Length of a platform suffix (`.ios`, `.android` or `.native`, the first
/// that matches) at the end of `s`, or zero.
pub open spec fn platform_suffix_len(s: Seq<char>) -> int {
    if has_suffix(s, seq!['.', 'i', 'o', 's']) {
        4
    } else if has_suffix(s, seq!['.', 'a', 'n', 'd', 'r', 'o', 'i', 'd']) {
        8
    } else if has_suffix(s, seq!['.', 'n', 'a', 't', 'i', 'v', 'e']) {
        7
    } else {
        0
    }
}

/// A React Native asset stem with its density and platform suffixes
/// removed, repeatedly, until neither applies.
pub open spec fn normalized_stem(s: Seq<char>) -> Seq<char>
    decreases s.len(),
{
    let a = match density_stripped(s) {
        Some(b) => b,
        None => s,
    };
    let k = platform_suffix_len(a);
    if density_stripped(s) is None && k == 0 {
        s
    } else {
        proof {
            lemma_density_stripped_shorter(s);
        }
        normalized_stem(a.take(a.len() - k))
    }
}

/// Removes density (`@2x`) and platform (`.ios`, `.android`, `.native`)
/// suffixes from a React Native asset stem, so that all variants of one
/// asset normalize to the same stem.
pub fn normalize_react_native_asset_stem(stem: &str) -> (r: String)
    ensures
        r@ == normalized_stem(stem@),
{
    let ios: Vec<char> = vec!['.', 'i', 'o', 's'];
    let android: Vec<char> = vec!['.', 'a', 'n', 'd', 'r', 'o', 'i', 'd'];
    let native: Vec<char> = vec!['.', 'n', 'a', 't', 'i', 'v', 'e'];
    let mut normalized = chars_of(stem);
    loop
        invariant
            ios@ == seq!['.', 'i', 'o', 's'],
            android@ == seq!['.', 'a', 'n', 'd', 'r', 'o', 'i', 'd'],
            native@ == seq!['.', 'n', 'a', 't', 'i', 'v', 'e'],
            normalized_stem(stem@) == normalized_stem(normalized@),
        decreases normalized@.len(),
    {
        let mut changed = false;
        let ghost s = normalized@;
        let current = string_from_chars(normalized.as_slice());
        match strip_react_native_density_suffix(current.as_str()) {
            Some(stripped) => {
                normalized = chars_of(stripped.as_str());
                changed = true;
            },
            None => {},
        }
        let ghost a = normalized@;
        proof {
            lemma_density_stripped_shorter(s);
        }
        let n = normalized.as_slice();
        if ends_with_exec(n, ios.as_slice()) {
            normalized = sub_chars(n, 0, n.len() - 4);
            changed = true;
        } else if ends_with_exec(n, android.as_slice()) {
            normalized = sub_chars(n, 0, n.len() - 8);
            changed = true;
        } else if ends_with_exec(n, native.as_slice()) {
            normalized = sub_chars(n, 0, n.len() - 7);
            changed = true;
        }
        assert(normalized@ =~= a.take(a.len() - platform_suffix_len(a)));
        if !changed {
            return string_from_chars(normalized.as_slice());
        }
    }
}

/// A directory name such as `2.0x` or `3x`: a positive number made of
/// digits and dots, followed by `x`.
pub open spec fn is_resolution_variant_name(name: Seq<char>) -> bool {
    name.len() > 0 && name.last() == 'x' && {
        let number = name.drop_last();
        &&& number.len() > 0
        &&& forall|i: int| 0 <= i < number.len() ==> ('0' <= #[trigger] number[i] && number[i] <= '9') || number[i] == '.'
        &&& parses_positive_f32(number)
    }
}

/// Is the last component of `path` a Flutter resolution-variant directory
/// name such as `2.0x`?
pub fn is_resolution_variant_dir(path: &str) -> (b: bool)
    ensures
        b == match file_name(path@) {
            Some(name) => is_resolution_variant_name(name),
            None => false,
        },
{
    let p = chars_of(path);
    let name = match file_name_chars(p.as_slice()) {
        Some(name) => name,
        None => return false,
    };
    if name.len() == 0 || name[name.len() - 1] != 'x' {
        return false;
    }
    let number = sub_chars(name.as_slice(), 0, name.len() - 1);
    assert(number@ =~= name@.drop_last());
    if number.len() == 0 {
        return false;
    }
    let mut i: usize = 0;
    while i < number.len()
        invariant
            i <= number@.len(),
            number@ == name@.drop_last(),
            name@.len() > 0,
            file_name(path@) == Some(name@),
            forall|k: int| 0 <= k < i ==> ('0' <= #[trigger] number@[k] && number@[k] <= '9') || number@[k] == '.',
        decreases number@.len() - i,
    {
        let c = number[i];
        if !(('0' <= c && c <= '9') || c == '.') {
            assert(!(('0' <= number@[i as int] && number@[i as int] <= '9') || number@[i as int] == '.'));
            return false;
        }
        i = i + 1;
    }
    parses_as_positive_f32(number.as_slice())
}

/// Code-point lexicographic order on character sequences; it agrees with
/// the byte order of their UTF-8 encodings, the order of `String`.
pub open spec fn char_seq_lt(a: Seq<char>, b: Seq<char>) -> bool
    decreases a.len(),
{
    if a.len() == 0 {
        b.len() > 0
    } else if b.len() == 0 {
        false
    } else if a[0] != b[0] {
        a[0] < b[0]
    } else {
        char_seq_lt(a.skip(1), b.skip(1))
    }
}

/// Each element is below the next one.
pub open spec fn strictly_sorted(v: Seq<Seq<char>>) -> bool {
    forall|i: int| 0 <= i < v.len() - 1 ==> char_seq_lt(#[trigger] v[i], v[i + 1])
}

/// The characters of each string.
pub open spec fn string_views(v: Seq<String>) -> Seq<Seq<char>> {
    v.map_values(|s: String| s@)
}

/// Code-point order is a strict total order: of two different sequences,
/// exactly one is below the other.
pub proof fn lemma_char_seq_lt_total(a: Seq<char>, b: Seq<char>)
    ensures
        a == b || char_seq_lt(a, b) || char_seq_lt(b, a),
        !(char_seq_lt(a, b) && char_seq_lt(b, a)),
    decreases a.len(),
{
    if a.len() > 0 && b.len() > 0 {
        lemma_char_seq_lt_total(a.skip(1), b.skip(1));
        if a[0] == b[0] && a.skip(1) == b.skip(1) {
            assert(a =~= seq![a[0]] + a.skip(1));
            assert(b =~= seq![b[0]] + b.skip(1));
        }
    } else if a.len() == 0 && b.len() == 0 {
        assert(a =~= b);
    }
}

/// Is `a` below `b` in code-point lexicographic order?
pub fn chars_lt(a: &[char], b: &[char]) -> (r: bool)
    ensures
        r == char_seq_lt(a@, b@),
{
    let mut i: usize = 0;
    assert(a@.skip(0) =~= a@ && b@.skip(0) =~= b@);
    while i < a.len() && i < b.len() && a[i] == b[i]
        invariant
            i <= a@.len(),
            i <= b@.len(),
            char_seq_lt(a@, b@) == char_seq_lt(a@.skip(i as int), b@.skip(i as int)),
        decreases a@.len() - i,
    {
        assert(a@.skip(i as int).skip(1) =~= a@.skip(i + 1));
        assert(b@.skip(i as int).skip(1) =~= b@.skip(i + 1));
        i = i + 1;
    }
    if i == a.len() {
        i < b.len()
    } else if i == b.len() {
        false
    } else {
        a[i] < b[i]
    }
}

/// The first position of `set` whose element is not below `x`.
fn first_not_below(set: &Vec<String>, x: &[char]) -> (p: usize)
    ensures
        p <= set@.len(),
        forall|j: int| 0 <= j < p ==> char_seq_lt(#[trigger] string_views(set@)[j], x@),
        p < set@.len() ==> !char_seq_lt(string_views(set@)[p as int], x@),
{
    let mut p: usize = 0;
    while p < set.len()
        invariant
            p <= set@.len(),
            forall|j: int| 0 <= j < p ==> char_seq_lt(#[trigger] string_views(set@)[j], x@),
        decreases set@.len() - p,
    {
        let e = chars_of(set[p].as_str());
        if !chars_lt(e.as_slice(), x) {
            return p;
        }
        p = p + 1;
    }
    p
}

/// Adds `x` to the sorted, duplicate-free list `set`, keeping it so.
fn insert_sorted(set: &mut Vec<String>, x: String)
    requires
        strictly_sorted(string_views(old(set)@)),
    ensures
        strictly_sorted(string_views(final(set)@)),
        string_views(final(set)@).to_set() == string_views(old(set)@).to_set().insert(x@),
{
    let xc = chars_of(x.as_str());
    let ghost old_views = string_views(set@);
    let p = first_not_below(set, xc.as_slice());
    if p < set.len() {
        let e = chars_of(set[p].as_str());
        if crate::text::chars_eq(e.as_slice(), xc.as_slice()) {
            assert(old_views.to_set().insert(x@) =~= old_views.to_set()) by {
                assert(old_views[p as int] == x@);
            }
            return;
        }
        proof {
            lemma_char_seq_lt_total(old_views[p as int], x@);
        }
    }
    set.insert(p, x);
    proof {
        let nv = string_views(set@);
        assert(nv =~= old_views.insert(p as int, x@));
        assert forall|i: int| 0 <= i < nv.len() - 1 implies char_seq_lt(#[trigger] nv[i], nv[i + 1]) by {
            if i < p - 1 {
                assert(nv[i] == old_views[i] && nv[i + 1] == old_views[i + 1]);
            } else if i == p - 1 {
                assert(nv[i] == old_views[i]);
            } else if i == p {
                assert(nv[i + 1] == old_views[i]);
            } else {
                assert(nv[i] == old_views[i - 1] && nv[i + 1] == old_views[i]);
            }
        }
        assert(nv.to_set() =~= old_views.to_set().insert(x@)) by {
            assert forall|y: Seq<char>| nv.to_set().contains(y) implies old_views.to_set().insert(x@).contains(y) by {
                let i = choose|i: int| 0 <= i < nv.len() && nv[i] == y;
                if i < p {
                    assert(nv[i] == old_views[i]);
                } else if i > p {
                    assert(nv[i] == old_views[i - 1]);
                }
            }
            assert forall|y: Seq<char>| old_views.to_set().insert(x@).contains(y) implies nv.to_set().contains(y) by {
                if y == x@ {
                    assert(nv[p as int] == y);
                } else {
                    let i = choose|i: int| 0 <= i < old_views.len() && old_views[i] == y;
                    if i < p {
                        assert(nv[i] == y);
                    } else {
                        assert(nv[i + 1] == y);
                    }
                }
            }
        }
    }
}

/// The group-1 texts of regex captures, strings taken by their characters.
pub open spec fn captures_view(r: Option<Vec<Option<String>>>) -> Option<Seq<Option<Seq<char>>>> {
    match r {
        Some(v) => Some(v@.map_values(|c: Option<String>| match c {
            Some(s) => Some(s@),
            None => None,
        })),
        None => None,
    }
}

/// What the regex engine reports for a pattern and a text: none when the
/// pattern does not compile, else the text of capture group 1 of each
/// successive non-overlapping match.
pub uninterp spec fn regex_group1(pattern: Seq<char>, haystack: Seq<char>) -> Option<Seq<Option<Seq<char>>>>;

/// Compiles `pattern` with `regex::Regex::new` and collects capture group 1
/// of each match of `Regex::captures_iter` over `haystack`. The result
/// depends on the two texts alone.
#[verifier::external_body]
fn capture_group1(pattern: &str, haystack: &str) -> (r: Option<Vec<Option<String>>>)
    ensures
        captures_view(r) == regex_group1(pattern@, haystack@),
{
    let re = regex::Regex::new(pattern).ok()?;
    Some(re.captures_iter(haystack).map(|caps| caps.get(1).map(|m| m.as_str().to_string())).collect())
}

/// The captured references that are local React Native image references.
pub open spec fn local_refs_in(caps: Seq<Option<Seq<char>>>) -> Set<Seq<char>> {
    Set::new(|r: Seq<char>| exists|i: int| 0 <= i < caps.len() && caps[i] == Some(r) && is_local_ref(r))
}

/// The captured references that clean up to local web image paths.
pub open spec fn cleaned_refs_in(caps: Seq<Option<Seq<char>>>) -> Set<Seq<char>> {
    Set::new(
        |p: Seq<char>|
            exists|i: int, r: Seq<char>| 0 <= i < caps.len() && caps[i] == Some(r) && cleaned_web_ref(r) == Some(p),
    )
}

/// The option-of-string views of a capture list.
pub open spec fn caps_view(v: Seq<Option<String>>) -> Seq<Option<Seq<char>>> {
    v.map_values(|c: Option<String>| match c {
        Some(s) => Some(s@),
        None => None,
    })
}

/// Adds the local references among `caps` to `set`.
fn add_local_refs(set: &mut Vec<String>, caps: &Vec<Option<String>>)
    requires
        strictly_sorted(string_views(old(set)@)),
    ensures
        strictly_sorted(string_views(final(set)@)),
        string_views(final(set)@).to_set() == string_views(old(set)@).to_set().union(local_refs_in(caps_view(caps@))),
{
    let ghost start = string_views(set@).to_set();
    let mut i: usize = 0;
    while i < caps.len()
        invariant
            i <= caps@.len(),
            strictly_sorted(string_views(set@)),
            string_views(set@).to_set() == start.union(local_refs_in(caps_view(caps@.take(i as int)))),
        decreases caps@.len() - i,
    {
        let ghost before = string_views(set@).to_set();
        let ghost cv = caps_view(caps@.take(i as int));
        let ghost cv2 = caps_view(caps@.take(i + 1));
        assert(cv2 =~= cv.push(caps_view(caps@)[i as int]));
        match &caps[i] {
            Some(r) => {
                if is_local_asset_ref(r.as_str()) {
                    insert_sorted(set, r.clone());
                    assert(local_refs_in(cv2) =~= local_refs_in(cv).insert(r@)) by {
                        assert(cv2[i as int] == Some(r@));
                        assert forall|y: Seq<char>| local_refs_in(cv2).contains(y) implies local_refs_in(cv).insert(r@).contains(y) by {
                            let k = choose|k: int| 0 <= k < cv2.len() && cv2[k] == Some(y) && is_local_ref(y);
                            if k < i {
                                assert(cv[k] == cv2[k]);
                            }
                        }
                        assert forall|y: Seq<char>| local_refs_in(cv).insert(r@).contains(y) implies local_refs_in(cv2).contains(y) by {
                            if y != r@ {
                                let k = choose|k: int| 0 <= k < cv.len() && cv[k] == Some(y) && is_local_ref(y);
                                assert(cv2[k] == cv[k]);
                            }
                        }
                    }
                } else {
                    assert(local_refs_in(cv2) =~= local_refs_in(cv)) by {
                        assert forall|y: Seq<char>| local_refs_in(cv2).contains(y) implies local_refs_in(cv).contains(y) by {
                            let k = choose|k: int| 0 <= k < cv2.len() && cv2[k] == Some(y) && is_local_ref(y);
                            if k < i {
                                assert(cv[k] == cv2[k]);
                            }
                        }
                        assert forall|y: Seq<char>| local_refs_in(cv).contains(y) implies local_refs_in(cv2).contains(y) by {
                            let k = choose|k: int| 0 <= k < cv.len() && cv[k] == Some(y) && is_local_ref(y);
                            assert(cv2[k] == cv[k]);
                        }
                    }
                }
            },
            None => {
                assert(local_refs_in(cv2) =~= local_refs_in(cv)) by {
                    assert forall|y: Seq<char>| local_refs_in(cv2).contains(y) implies local_refs_in(cv).contains(y) by {
                        let k = choose|k: int| 0 <= k < cv2.len() && cv2[k] == Some(y) && is_local_ref(y);
                        if k < i {
                            assert(cv[k] == cv2[k]);
                        }
                    }
                    assert forall|y: Seq<char>| local_refs_in(cv).contains(y) implies local_refs_in(cv2).contains(y) by {
                        let k = choose|k: int| 0 <= k < cv.len() && cv[k] == Some(y) && is_local_ref(y);
                        assert(cv2[k] == cv[k]);
                    }
                }
            },
        }
        i = i + 1;
    }
    assert(caps@.take(caps@.len() as int) =~= caps@);
}

/// Adds the cleaned web references among `caps` to `set`.
fn add_cleaned_refs(set: &mut Vec<String>, caps: &Vec<Option<String>>)
    requires
        strictly_sorted(string_views(old(set)@)),
    ensures
        strictly_sorted(string_views(final(set)@)),
        string_views(final(set)@).to_set() == string_views(old(set)@).to_set().union(cleaned_refs_in(caps_view(caps@))),
{
    let ghost start = string_views(set@).to_set();
    let mut i: usize = 0;
    while i < caps.len()
        invariant
            i <= caps@.len(),
            strictly_sorted(string_views(set@)),
            string_views(set@).to_set() == start.union(cleaned_refs_in(caps_view(caps@.take(i as int)))),
        decreases caps@.len() - i,
    {
        let ghost before = string_views(set@).to_set();
        let ghost cv = caps_view(caps@.take(i as int));
        let ghost cv2 = caps_view(caps@.take(i + 1));
        assert(cv2 =~= cv.push(caps_view(caps@)[i as int]));
        match &caps[i] {
            Some(r) => {
                let cleaned = clean_web_asset_ref(r.as_str());
                if let Some(c) = cleaned {
                    insert_sorted(set, c);
                    assert(cleaned_refs_in(cv2) =~= cleaned_refs_in(cv).insert(c@)) by {
                        assert(cv2[i as int] == Some(r@));
                        assert forall|y: Seq<char>| cleaned_refs_in(cv2).contains(y) implies cleaned_refs_in(cv).insert(c@).contains(y) by {
                            let (k, rr) = choose|k: int, rr: Seq<char>| 0 <= k < cv2.len() && cv2[k] == Some(rr) && cleaned_web_ref(rr) == Some(y);
                            if k < i {
                                assert(cv[k] == cv2[k]);
                            }
                        }
                        assert forall|y: Seq<char>| cleaned_refs_in(cv).insert(c@).contains(y) implies cleaned_refs_in(cv2).contains(y) by {
                            if y != c@ {
                                let (k, rr) = choose|k: int, rr: Seq<char>| 0 <= k < cv.len() && cv[k] == Some(rr) && cleaned_web_ref(rr) == Some(y);
                                assert(cv2[k] == cv[k]);
                            } else {
                                assert(cv2[i as int] == Some(r@) && cleaned_web_ref(r@) == Some(y));
                            }
                        }
                    }
                } else {
                    assert(cleaned_refs_in(cv2) =~= cleaned_refs_in(cv)) by {
                        assert forall|y: Seq<char>| cleaned_refs_in(cv2).contains(y) implies cleaned_refs_in(cv).contains(y) by {
                            let (k, rr) = choose|k: int, rr: Seq<char>| 0 <= k < cv2.len() && cv2[k] == Some(rr) && cleaned_web_ref(rr) == Some(y);
                            if k < i {
                                assert(cv[k] == cv2[k]);
                            }
                        }
                        assert forall|y: Seq<char>| cleaned_refs_in(cv).contains(y) implies cleaned_refs_in(cv2).contains(y) by {
                            let (k, rr) = choose|k: int, rr: Seq<char>| 0 <= k < cv.len() && cv[k] == Some(rr) && cleaned_web_ref(rr) == Some(y);
                            assert(cv2[k] == cv[k]);
                        }
                    }
                }
            },
            None => {
                assert(cleaned_refs_in(cv2) =~= cleaned_refs_in(cv)) by {
                    assert forall|y: Seq<char>| cleaned_refs_in(cv2).contains(y) implies cleaned_refs_in(cv).contains(y) by {
                        let (k, rr) = choose|k: int, rr: Seq<char>| 0 <= k < cv2.len() && cv2[k] == Some(rr) && cleaned_web_ref(rr) == Some(y);
                        if k < i {
                            assert(cv[k] == cv2[k]);
                        }
                    }
                    assert forall|y: Seq<char>| cleaned_refs_in(cv).contains(y) implies cleaned_refs_in(cv2).contains(y) by {
                        let (k, rr) = choose|k: int, rr: Seq<char>| 0 <= k < cv.len() && cv[k] == Some(rr) && cleaned_web_ref(rr) == Some(y);
                        assert(cv2[k] == cv[k]);
                    }
                }
            },
        }
        i = i + 1;
    }
    assert(caps@.take(caps@.len() as int) =~= caps@);
}


/// The pattern of `require("...")` calls with a string literal argument.
pub open spec fn require_pattern() -> Seq<char> {
    "require\\s*\\(\\s*[\"']([^\"']+)[\"']\\s*\\)"@
}

/// The pattern of `import` statements and `import ... from` clauses.
pub open spec fn import_pattern() -> Seq<char> {
    "(?m)\\bimport(?:\\s+type)?(?:[\\s\\w*{},$]+?\\s+from\\s*)?\\s*[\"']([^\"']+)[\"']"@
}

/// The pattern of quoted strings that name image files.
pub open spec fn quoted_asset_pattern() -> Seq<char> {
    "(?i)[\"'`]([^\"'`]+?\\.(?:png|apng|jpe?g|webp|svg|gif|bmp|wbmp)(?:[?#][^\"'`]*)?)[\"'`]"@
}

/// The pattern of CSS `url(...)` values that name image files.
pub open spec fn css_url_pattern() -> Seq<char> {
    "(?i)url\\(\\s*[\"']?([^\"')]+?\\.(?:png|apng|jpe?g|webp|svg|gif|bmp|wbmp)(?:[?#][^\"')\\s]*)?)[\"']?\\s*\\)"@
}

/// The local image references among the captured `require` and `import`
/// targets, sorted and without duplicates.
pub fn react_native_refs_from_captures(require_caps: &Vec<Option<String>>, import_caps: &Vec<Option<String>>) -> (r:
    Vec<String>)
    ensures
        strictly_sorted(string_views(r@)),
        string_views(r@).to_set() == local_refs_in(caps_view(require_caps@)).union(
            local_refs_in(caps_view(import_caps@)),
        ),
{
    let mut set: Vec<String> = Vec::new();
    assert(string_views(set@).to_set() =~= Set::<Seq<char>>::empty());
    add_local_refs(&mut set, require_caps);
    add_local_refs(&mut set, import_caps);
    assert(string_views(set@).to_set() =~= local_refs_in(caps_view(require_caps@)).union(
        local_refs_in(caps_view(import_caps@)),
    ));
    set
}

/// The static local image references of a JavaScript or TypeScript source:
/// targets of `require("...")` and of `import` statements that are relative
/// paths to supported images, sorted and without duplicates.
pub fn extract_react_native_asset_refs(source: &str) -> (r: Vec<String>)
    ensures
        match (regex_group1(require_pattern(), source@), regex_group1(import_pattern(), source@)) {
            (Some(a), Some(b)) => strictly_sorted(string_views(r@)) && string_views(r@).to_set()
                == local_refs_in(a).union(local_refs_in(b)),
            _ => r@.len() == 0,
        },
{
    let require_caps = capture_group1("require\\s*\\(\\s*[\"']([^\"']+)[\"']\\s*\\)", source);
    let import_caps = capture_group1(
        "(?m)\\bimport(?:\\s+type)?(?:[\\s\\w*{},$]+?\\s+from\\s*)?\\s*[\"']([^\"']+)[\"']",
        source,
    );
    match (require_caps, import_caps) {
        (Some(a), Some(b)) => react_native_refs_from_captures(&a, &b),
        _ => Vec::new(),
    }
}

/// The local image paths named by captured web references, sorted and
/// without duplicates.
pub fn web_refs_from_captures(quoted_caps: &Vec<Option<String>>, css_caps: &Vec<Option<String>>) -> (r: Vec<String>)
    ensures
        strictly_sorted(string_views(r@)),
        string_views(r@).to_set() == cleaned_refs_in(caps_view(quoted_caps@)).union(
            cleaned_refs_in(caps_view(css_caps@)),
        ),
{
    let mut set: Vec<String> = Vec::new();
    assert(string_views(set@).to_set() =~= Set::<Seq<char>>::empty());
    add_cleaned_refs(&mut set, quoted_caps);
    add_cleaned_refs(&mut set, css_caps);
    assert(string_views(set@).to_set() =~= cleaned_refs_in(caps_view(quoted_caps@)).union(
        cleaned_refs_in(caps_view(css_caps@)),
    ));
    set
}

/// The local image paths referenced by a web source file: quoted strings
/// and CSS `url(...)` values naming image files, cleaned of queries and
/// fragments, external URLs left out, sorted and without duplicates.
pub fn extract_web_asset_refs(source: &str) -> (r: Vec<String>)
    ensures
        match (regex_group1(quoted_asset_pattern(), source@), regex_group1(css_url_pattern(), source@)) {
            (Some(a), Some(b)) => strictly_sorted(string_views(r@)) && string_views(r@).to_set()
                == cleaned_refs_in(a).union(cleaned_refs_in(b)),
            _ => r@.len() == 0,
        },
{
    let quoted_caps = capture_group1(
        "(?i)[\"'`]([^\"'`]+?\\.(?:png|apng|jpe?g|webp|svg|gif|bmp|wbmp)(?:[?#][^\"'`]*)?)[\"'`]",
        source,
    );
    let css_caps = capture_group1(
        "(?i)url\\(\\s*[\"']?([^\"')]+?\\.(?:png|apng|jpe?g|webp|svg|gif|bmp|wbmp)(?:[?#][^\"')\\s]*)?)[\"']?\\s*\\)",
        source,
    );
    match (quoted_caps, css_caps) {
        (Some(a), Some(b)) => web_refs_from_captures(&a, &b),
        _ => Vec::new(),
    }
}

/// A normalized React Native stem carries no density or platform suffix,
/// and is a prefix of the stem it came from.
pub proof fn lemma_normalized_is_fixed(s: Seq<char>)
    ensures
        density_stripped(normalized_stem(s)) is None,
        platform_suffix_len(normalized_stem(s)) == 0,
        normalized_stem(s).len() <= s.len(),
        normalized_stem(s) == s.take(normalized_stem(s).len() as int),
    decreases s.len(),
{
    let a = match density_stripped(s) {
        Some(b) => b,
        None => s,
    };
    let k = platform_suffix_len(a);
    lemma_last_index_of(s, '@');
    assert(a == s.take(a.len() as int));
    if !(density_stripped(s) is None && k == 0) {
        lemma_density_stripped_shorter(s);
        let t = a.take(a.len() - k);
        assert(t =~= s.take(t.len() as int));
        lemma_normalized_is_fixed(t);
        let n = normalized_stem(t);
        assert(n =~= s.take(n.len() as int));
    } else {
        assert(s =~= s.take(s.len() as int));
    }
}

/// Normalizing a React Native stem twice is normalizing it once.
pub proof fn lemma_normalize_idempotent(s: Seq<char>)
    ensures
        normalized_stem(normalized_stem(s)) == normalized_stem(s),
{
    lemma_normalized_is_fixed(s);
}

/// A platform suffix (`.ios`, `.android`, `.native`) does not change the
/// normalized stem: `logo.ios` is a variant of `logo`.
#[verifier::spinoff_prover]
pub proof fn lemma_platform_suffix_variant(s: Seq<char>, suffix: Seq<char>)
    requires
        suffix == seq!['.', 'i', 'o', 's'] || suffix == seq!['.', 'a', 'n', 'd', 'r', 'o', 'i', 'd'] || suffix
            == seq!['.', 'n', 'a', 't', 'i', 'v', 'e'],
    ensures
        normalized_stem(s + suffix) == normalized_stem(s),
{
    let t = s + suffix;
    lemma_last_index_of(t, '@');
    assert(t.last() == suffix.last());
    match last_index_of(t, '@') {
        Some(i) => {
            let scale = t.skip(i + 1);
            if scale.len() > 0 {
                assert(scale.last() == t.last());
            }
        },
        None => {},
    }
    assert(density_stripped(t) is None);
    if suffix == seq!['.', 'i', 'o', 's'] {
        assert(t.skip(t.len() - 4) =~= suffix);
    } else if suffix == seq!['.', 'a', 'n', 'd', 'r', 'o', 'i', 'd'] {
        assert(t.skip(t.len() - 8) =~= suffix);
        if has_suffix(t, seq!['.', 'i', 'o', 's']) {
            assert(t.skip(t.len() - 4)[3] == t[t.len() - 1]);
        }
    } else {
        assert(t.skip(t.len() - 7) =~= suffix);
        if has_suffix(t, seq!['.', 'i', 'o', 's']) {
            assert(t.skip(t.len() - 4)[3] == t[t.len() - 1]);
        }
        if has_suffix(t, seq!['.', 'a', 'n', 'd', 'r', 'o', 'i', 'd']) {
            assert(t.skip(t.len() - 8)[7] == t[t.len() - 1]);
        }
    }
    assert(t.take(t.len() - suffix.len()) =~= s);
}

/// A density suffix `@<scale>x`, where the scale is a positive number,
/// does not change the normalized stem: `logo@2x` is a variant of `logo`.
#[verifier::spinoff_prover]
pub proof fn lemma_density_suffix_variant(s: Seq<char>, scale: Seq<char>)
    requires
        parses_positive_f32(scale),
    ensures
        normalized_stem(s + seq!['@'] + scale + seq!['x']) == normalized_stem(s),
{
    let t = s + seq!['@'] + scale + seq!['x'];
    crate::float::lemma_positive_number_chars(scale);
    lemma_last_index_of(t, '@');
    assert(t[s.len() as int] == '@');
    assert forall|j: int| s.len() < j < t.len() implies t[j] != '@' by {
        if j < t.len() - 1 {
            assert(t[j] == scale[j - s.len() - 1]);
        }
    }
    assert(last_index_of(t, '@') == Some(s.len() as int));
    assert(t.skip(s.len() + 1int) =~= scale + seq!['x']);
    assert((scale + seq!['x']).drop_last() =~= scale);
    assert(t.take(s.len() as int) =~= s);
    assert(density_stripped(t) == Some(s));
    assert(platform_suffix_len(t) == 0) by {
        if has_suffix(t, seq!['.', 'i', 'o', 's']) {
            assert(t.skip(t.len() - 4)[3] == t[t.len() - 1]);
        }
        if has_suffix(t, seq!['.', 'a', 'n', 'd', 'r', 'o', 'i', 'd']) {
            assert(t.skip(t.len() - 8)[7] == t[t.len() - 1]);
        }
        if has_suffix(t, seq!['.', 'n', 'a', 't', 'i', 'v', 'e']) {
            assert(t.skip(t.len() - 7)[6] == t[t.len() - 1]);
        }
    }
    // Normalizing `t` strips the density suffix and then whatever platform
    // suffix `s` ends with, exactly as normalizing `s` does.
    let k = platform_suffix_len(s);
    assert(normalized_stem(t) == normalized_stem(s.take(s.len() - k)));
    match density_stripped(s) {
        None => {
            if k == 0 {
                assert(s.take(s.len() - k) =~= s);
            }
        },
        Some(b) => {
            lemma_last_index_of(s, '@');
            let i = last_index_of(s, '@')->0;
            assert(s.skip(i + 1).last() == s.last());
            assert(s.last() == 'x');
            assert(k == 0) by {
                if has_suffix(s, seq!['.', 'i', 'o', 's']) {
                    assert(s.skip(s.len() - 4)[3] == s[s.len() - 1]);
                }
                if has_suffix(s, seq!['.', 'a', 'n', 'd', 'r', 'o', 'i', 'd']) {
                    assert(s.skip(s.len() - 8)[7] == s[s.len() - 1]);
                }
                if has_suffix(s, seq!['.', 'n', 'a', 't', 'i', 'v', 'e']) {
                    assert(s.skip(s.len() - 7)[6] == s[s.len() - 1]);
                }
            }
            assert(s.take(s.len() - k) =~= s);
        },
    }
}

/// A package manifest marks a React Native project exactly when it holds
/// the quoted package name `"react-native"` or `"expo"`; references are
/// looked for with exactly these patterns.
pub proof fn lemma_react_native_markers_and_patterns(manifest: Seq<char>)
    ensures
        is_react_native_manifest(manifest) <==> (contains_seq(manifest, "\"react-native\""@) || contains_seq(
            manifest,
            "\"expo\""@,
        )),
        require_pattern() == "require\\s*\\(\\s*[\"']([^\"']+)[\"']\\s*\\)"@,
        import_pattern() == "(?m)\\bimport(?:\\s+type)?(?:[\\s\\w*{},$]+?\\s+from\\s*)?\\s*[\"']([^\"']+)[\"']"@,
        quoted_asset_pattern()
            == "(?i)[\"'`]([^\"'`]+?\\.(?:png|apng|jpe?g|webp|svg|gif|bmp|wbmp)(?:[?#][^\"'`]*)?)[\"'`]"@,
        css_url_pattern()
            == "(?i)url\\(\\s*[\"']?([^\"')]+?\\.(?:png|apng|jpe?g|webp|svg|gif|bmp|wbmp)(?:[?#][^\"')\\s]*)?)[\"']?\\s*\\)"@,
{
}

/// A Flutter resolution-variant directory name is a non-empty run of
/// digits and dots that parses as a positive number, followed by a
/// lowercase `x`.
pub proof fn lemma_resolution_variant_names(number: Seq<char>, last: char)
    ensures
        is_resolution_variant_name(number.push(last)) <==> (last == 'x' && number.len() > 0 && (forall|i: int|
            0 <= i < number.len() ==> ('0' <= #[trigger] number[i] && number[i] <= '9') || number[i] == '.')
            && parses_positive_f32(number)),
{
    assert(number.push(last).drop_last() =~= number);
}

} // verus!
