//! File-name and extension rules of paths (Unix `std::path` semantics),
//! and the asset kinds decided by extensions. Paths are `/`-separated;
//! callers on systems with another separator hand them over converted.

use vstd::prelude::*;
use crate::kinds::AssetKind;
use crate::text::{lemma_last_index_of, ascii_lower_seq, ascii_lowercase, chars_eq_str, chars_of, last_index_of, rfind_char, sub_chars};

verus! {

broadcast use vstd::string::group_string_axioms;

/// The file name of a path (`Path::file_name`): its last component when
/// that is a normal component. Empty components and `.` components are
/// skipped; a final `..`, or no component at all, gives none.
pub open spec fn file_name(p: Seq<char>) -> Option<Seq<char>>
    decreases p.len(),
{
    match last_index_of(p, '/') {
        Some(i) => {
            proof {
                lemma_last_index_of(p, '/');
            }
            let seg = p.skip(i + 1);
            if seg.len() == 0 || seg == seq!['.'] {
                file_name(p.take(i))
            } else if seg == seq!['.', '.'] {
                None
            } else {
                Some(seg)
            }
        },
        None => if p.len() == 0 || p == seq!['.'] || p == seq!['.', '.'] {
            None
        } else {
            Some(p)
        },
    }
}

/// Where a file name splits into stem and extension: its last `.`, unless
/// that is the first character.
pub open spec fn extension_dot(name: Seq<char>) -> Option<int> {
    match last_index_of(name, '.') {
        Some(i) => if i > 0 { Some(i) } else { None },
        None => None,
    }
}

/// The extension of a path (`Path::extension`).
pub open spec fn extension_of(p: Seq<char>) -> Option<Seq<char>> {
    match file_name(p) {
        None => None,
        Some(name) => match extension_dot(name) {
            Some(i) => Some(name.skip(i + 1)),
            None => None,
        },
    }
}

/// The stem of a path (`Path::file_stem`).
pub open spec fn file_stem_of(p: Seq<char>) -> Option<Seq<char>> {
    match file_name(p) {
        None => None,
        Some(name) => match extension_dot(name) {
            Some(i) => Some(name.take(i)),
            None => Some(name),
        },
    }
}

/// The asset kind named by a file extension, compared ASCII
/// case-insensitively.
pub open spec fn kind_of_extension(ext: Seq<char>) -> AssetKind {
    let e = ascii_lower_seq(ext);
    if e == "png"@ || e == "apng"@ {
        AssetKind::Png
    } else if e == "jpg"@ || e == "jpeg"@ {
        AssetKind::Jpeg
    } else if e == "webp"@ {
        AssetKind::Webp
    } else if e == "svg"@ {
        AssetKind::Svg
    } else if e == "gif"@ {
        AssetKind::Gif
    } else if e == "bmp"@ {
        AssetKind::Bmp
    } else if e == "wbmp"@ {
        AssetKind::Wbmp
    } else {
        AssetKind::Other
    }
}

/// The asset kind of a path, by its extension.
pub open spec fn asset_kind(p: Seq<char>) -> AssetKind {
    match extension_of(p) {
        Some(ext) => kind_of_extension(ext),
        None => AssetKind::Other,
    }
}

/// The file name of `p`, if it has one.
pub fn file_name_chars(p: &[char]) -> (r: Option<Vec<char>>)
    ensures
        match (r, file_name(p@)) {
            (Some(v), Some(n)) => v@ == n,
            (None, None) => true,
            _ => false,
        },
    decreases p@.len(),
{
    proof {
        lemma_last_index_of(p@, '/');
    }
    let len = p.len();
    match rfind_char(p, '/') {
        Some(i) => {
            assert(i < len);
            let seg = sub_chars(p, i + 1, p.len());
            assert(seg@ == p@.skip(i + 1));
            if seg.len() == 0 || (seg.len() == 1 && seg[0] == '.') {
                proof {
                    if seg@.len() == 1 && seg@[0] == '.' {
                        assert(seg@ =~= seq!['.']);
                    }
                }
                let head = sub_chars(p, 0, i);
                assert(head@ == p@.take(i as int));
                file_name_chars(head.as_slice())
            } else if seg.len() == 2 && seg[0] == '.' && seg[1] == '.' {
                assert(seg@ =~= seq!['.', '.']);
                None
            } else {
                proof {
                    if seg@ == seq!['.'] {
                        assert(seg@[0] == '.');
                    }
                    if seg@ == seq!['.', '.'] {
                        assert(seg@[0] == '.' && seg@[1] == '.');
                    }
                }
                Some(seg)
            }
        },
        None => {
            if p.len() == 0 || (p.len() == 1 && p[0] == '.') || (p.len() == 2 && p[0] == '.' && p[1] == '.') {
                proof {
                    if p@.len() == 1 {
                        assert(p@ =~= seq!['.']);
                    }
                    if p@.len() == 2 {
                        assert(p@ =~= seq!['.', '.']);
                    }
                }
                None
            } else {
                proof {
                    if p@ == seq!['.'] {
                        assert(p@[0] == '.');
                    }
                    if p@ == seq!['.', '.'] {
                        assert(p@[0] == '.' && p@[1] == '.');
                    }
                }
                let v = sub_chars(p, 0, p.len());
                assert(v@ =~= p@);
                Some(v)
            }
        },
    }
}

/// The extension of `p`, if it has one.
pub fn extension_chars(p: &[char]) -> (r: Option<Vec<char>>)
    ensures
        match (r, extension_of(p@)) {
            (Some(v), Some(e)) => v@ == e,
            (None, None) => true,
            _ => false,
        },
{
    match file_name_chars(p) {
        None => None,
        Some(name) => match {
            proof {
                lemma_last_index_of(name@, '.');
            }
            rfind_char(name.as_slice(), '.')
        } {
            Some(i) => if i > 0 {
                let nlen = name.len();
                assert(i < nlen);
                let e = sub_chars(name.as_slice(), i + 1, nlen);
                assert(e@ == name@.skip(i + 1));
                Some(e)
            } else {
                None
            },
            None => None,
        },
    }
}

/// The stem of `p`, if it has a file name.
pub fn file_stem_chars(p: &[char]) -> (r: Option<Vec<char>>)
    ensures
        match (r, file_stem_of(p@)) {
            (Some(v), Some(e)) => v@ == e,
            (None, None) => true,
            _ => false,
        },
{
    match file_name_chars(p) {
        None => None,
        Some(name) => match {
            proof {
                lemma_last_index_of(name@, '.');
            }
            rfind_char(name.as_slice(), '.')
        } {
            Some(i) => if i > 0 {
                let e = sub_chars(name.as_slice(), 0, i);
                assert(e@ == name@.take(i as int));
                Some(e)
            } else {
                Some(name)
            },
            None => Some(name),
        },
    }
}

/// The asset kind named by the extension `ext`.
pub fn kind_of_extension_chars(ext: &[char]) -> (k: AssetKind)
    ensures
        k == kind_of_extension(ext@),
{
    let e = ascii_lowercase(ext);
    let e = e.as_slice();
    if chars_eq_str(e, "png") || chars_eq_str(e, "apng") {
        AssetKind::Png
    } else if chars_eq_str(e, "jpg") || chars_eq_str(e, "jpeg") {
        AssetKind::Jpeg
    } else if chars_eq_str(e, "webp") {
        AssetKind::Webp
    } else if chars_eq_str(e, "svg") {
        AssetKind::Svg
    } else if chars_eq_str(e, "gif") {
        AssetKind::Gif
    } else if chars_eq_str(e, "bmp") {
        AssetKind::Bmp
    } else if chars_eq_str(e, "wbmp") {
        AssetKind::Wbmp
    } else {
        AssetKind::Other
    }
}

/// The asset kind of the path `p`, decided by its extension.
pub fn classify_chars(p: &[char]) -> (k: AssetKind)
    ensures
        k == asset_kind(p@),
{
    match extension_chars(p) {
        Some(ext) => kind_of_extension_chars(ext.as_slice()),
        None => AssetKind::Other,
    }
}

/// The asset kind of the file at `path`, decided by its extension.
pub fn classify_asset(path: &str) -> (k: AssetKind)
    ensures
        k == asset_kind(path@),
{
    let p = chars_of(path);
    classify_chars(p.as_slice())
}

/// Is the file at `path` an image format the tool knows about?
pub fn is_supported_image(path: &str) -> (b: bool)
    ensures
        b == (asset_kind(path@) != AssetKind::Other),
{
    classify_asset(path) != AssetKind::Other
}

/// The kind of a path is decided by its extension, in any letter case:
/// `png` and `apng` are PNG, `jpg` and `jpeg` JPEG, `webp` WebP, `svg`
/// SVG, `gif` GIF, `bmp` BMP and `wbmp` WBMP; a path with any other
/// extension, or none, is of no supported kind.
pub proof fn lemma_asset_kinds(p: Seq<char>)
    ensures
        ({
            let e = match extension_of(p) {
                Some(x) => Some(ascii_lower_seq(x)),
                None => None,
            };
            &&& asset_kind(p) == AssetKind::Png <==> (e == Some("png"@) || e == Some("apng"@))
            &&& asset_kind(p) == AssetKind::Jpeg <==> (e == Some("jpg"@) || e == Some("jpeg"@))
            &&& asset_kind(p) == AssetKind::Webp <==> e == Some("webp"@)
            &&& asset_kind(p) == AssetKind::Svg <==> e == Some("svg"@)
            &&& asset_kind(p) == AssetKind::Gif <==> e == Some("gif"@)
            &&& asset_kind(p) == AssetKind::Bmp <==> e == Some("bmp"@)
            &&& asset_kind(p) == AssetKind::Wbmp <==> e == Some("wbmp"@)
        }),
{
    reveal_strlit("png");
    reveal_strlit("apng");
    reveal_strlit("jpg");
    reveal_strlit("jpeg");
    reveal_strlit("webp");
    reveal_strlit("svg");
    reveal_strlit("gif");
    reveal_strlit("bmp");
    reveal_strlit("wbmp");
    if let Some(x) = extension_of(p) {
        let l = ascii_lower_seq(x);
        assert(asset_kind(p) == kind_of_extension(x));
        if l == "png"@ {
            assert(l.len() == 3 && l[0] == 'p' && l[1] == 'n');
        }
        if l == "apng"@ {
            assert(l.len() == 4 && l[0] == 'a' && l[1] == 'p');
            assert(l != "png"@);
        }
        if l == "jpg"@ {
            assert(l.len() == 3 && l[0] == 'j' && l[1] == 'p');
            assert(l != "png"@);
            assert(l != "apng"@);
        }
        if l == "jpeg"@ {
            assert(l.len() == 4 && l[0] == 'j' && l[1] == 'p');
            assert(l != "png"@);
            assert(l != "apng"@);
            assert(l != "jpg"@);
        }
        if l == "webp"@ {
            assert(l.len() == 4 && l[0] == 'w' && l[1] == 'e');
            assert(l != "png"@);
            assert(l != "apng"@);
            assert(l != "jpg"@);
            assert(l != "jpeg"@);
        }
        if l == "svg"@ {
            assert(l.len() == 3 && l[0] == 's' && l[1] == 'v');
            assert(l != "png"@);
            assert(l != "apng"@);
            assert(l != "jpg"@);
            assert(l != "jpeg"@);
            assert(l != "webp"@);
        }
        if l == "gif"@ {
            assert(l.len() == 3 && l[0] == 'g' && l[1] == 'i');
            assert(l != "png"@);
            assert(l != "apng"@);
            assert(l != "jpg"@);
            assert(l != "jpeg"@);
            assert(l != "webp"@);
            assert(l != "svg"@);
        }
        if l == "bmp"@ {
            assert(l.len() == 3 && l[0] == 'b' && l[1] == 'm');
            assert(l != "png"@);
            assert(l != "apng"@);
            assert(l != "jpg"@);
            assert(l != "jpeg"@);
            assert(l != "webp"@);
            assert(l != "svg"@);
            assert(l != "gif"@);
        }
        if l == "wbmp"@ {
            assert(l.len() == 4 && l[0] == 'w' && l[1] == 'b');
            assert(l != "png"@);
            assert(l != "apng"@);
            assert(l != "jpg"@);
            assert(l != "jpeg"@);
            assert(l != "webp"@);
            assert(l != "svg"@);
            assert(l != "gif"@);
            assert(l != "bmp"@);
        }
    }
}

} // verus!
