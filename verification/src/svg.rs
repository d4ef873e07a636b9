//! Conservative SVG text optimization: comment removal and collapsing of
//! white space between tags, guarded by XML validation before and after.

use vstd::prelude::*;
use crate::kinds::StripPolicy;
use crate::text::{
    ascii_lower_seq, ascii_lowercase, chars_of, contains_exec, contains_seq, find_from,
    find_from_spec, find_seq, is_white_space, is_white_space_exec, lemma_find_from, lemma_find_shift,
    string_from_chars, trim_chars, trim_seq, lemma_trim_len,
};

verus! {

broadcast use vstd::string::group_string_axioms;

/// What the XML parser reports for a document: the local name and
/// namespace of its root element, or the text of the parse error.
pub uninterp spec fn xml_root_of(text: Seq<char>) -> Result<(Seq<char>, Option<Seq<char>>), Seq<char>>;

/// The value of a parse result, strings taken by their characters.
pub open spec fn xml_result_view(r: Result<(String, Option<String>), String>) -> Result<
    (Seq<char>, Option<Seq<char>>),
    Seq<char>,
> {
    match r {
        Ok((name, ns)) => Ok(
            (
                name@,
                match ns {
                    Some(n) => Some(n@),
                    None => None,
                },
            ),
        ),
        Err(e) => Err(e@),
    }
}

/// Parses `text` with `roxmltree::Document::parse` and reports the local
/// name and namespace of the root element, or the parse error's text. The
/// result depends on the text alone.
#[verifier::external_body]
fn parse_xml_root(text: &str) -> (r: Result<(String, Option<String>), String>)
    ensures
        xml_result_view(r) == xml_root_of(text@),
{
    match roxmltree::Document::parse(text) {
        Ok(doc) => {
            let name = doc.root_element().tag_name();
            Ok((name.name().to_string(), name.namespace().map(|ns| ns.to_string())))
        },
        Err(err) => Err(err.to_string()),
    }
}

/// Why an SVG was left alone, in terms of character sequences.
pub enum SvgProblem {
    /// The SVG contains a construct whose rendering could change.
    Risky(Seq<char>),
    /// The SVG is not well-formed XML.
    InvalidXml(Seq<char>),
    /// The root element is not `<svg>`.
    RootNotSvg,
    /// A comment is opened and never closed.
    UnclosedComment,
    /// The original SVG is not well-formed XML.
    InvalidOriginalXml(Seq<char>),
    /// The optimized SVG is not well-formed XML.
    InvalidOptimizedXml(Seq<char>),
    /// The optimized SVG has a different root element.
    RootChanged,
}

/// Why an SVG was left alone.
#[derive(Debug)]
pub enum SvgError {
    /// The SVG contains the given marker of a construct whose rendering
    /// could change.
    Risky(String),
    /// The SVG is not well-formed XML; the parser's message.
    InvalidXml(String),
    /// The root element is not `<svg>`.
    RootNotSvg,
    /// A comment is opened and never closed.
    UnclosedComment,
    /// The original SVG is not well-formed XML; the parser's message.
    InvalidOriginalXml(String),
    /// The optimized SVG is not well-formed XML; the parser's message.
    InvalidOptimizedXml(String),
    /// The optimized SVG has a different root element.
    RootChanged,
}

impl View for SvgError {
    type V = SvgProblem;

    open spec fn view(&self) -> SvgProblem {
        match self {
            SvgError::Risky(m) => SvgProblem::Risky(m@),
            SvgError::InvalidXml(m) => SvgProblem::InvalidXml(m@),
            SvgError::RootNotSvg => SvgProblem::RootNotSvg,
            SvgError::UnclosedComment => SvgProblem::UnclosedComment,
            SvgError::InvalidOriginalXml(m) => SvgProblem::InvalidOriginalXml(m@),
            SvgError::InvalidOptimizedXml(m) => SvgProblem::InvalidOptimizedXml(m@),
            SvgError::RootChanged => SvgProblem::RootChanged,
        }
    }
}

/// The text reported for each SVG problem.
pub open spec fn svg_problem_text(p: SvgProblem) -> Seq<char> {
    match p {
        SvgProblem::Risky(m) => "SVG contains "@ + m + "; skipped for safety"@,
        SvgProblem::InvalidXml(m) => "invalid SVG XML: "@ + m,
        SvgProblem::RootNotSvg => "root element is not <svg>"@,
        SvgProblem::UnclosedComment => "SVG contains an unclosed XML comment"@,
        SvgProblem::InvalidOriginalXml(m) => "invalid original SVG XML: "@ + m,
        SvgProblem::InvalidOptimizedXml(m) => "optimized SVG is invalid XML: "@ + m,
        SvgProblem::RootChanged => "optimized SVG root element changed"@,
    }
}

impl SvgError {
    /// Human-readable description of the problem.
    pub fn message(&self) -> (s: String)
        ensures
            s@ == svg_problem_text(self@),
    {
        match self {
            SvgError::Risky(m) => String::from_str("SVG contains ").concat(m.as_str()).concat(
                "; skipped for safety",
            ),
            SvgError::InvalidXml(m) => String::from_str("invalid SVG XML: ").concat(m.as_str()),
            SvgError::RootNotSvg => String::from_str("root element is not <svg>"),
            SvgError::UnclosedComment => String::from_str("SVG contains an unclosed XML comment"),
            SvgError::InvalidOriginalXml(m) => String::from_str("invalid original SVG XML: ").concat(
                m.as_str(),
            ),
            SvgError::InvalidOptimizedXml(m) => String::from_str("optimized SVG is invalid XML: ").concat(
                m.as_str(),
            ),
            SvgError::RootChanged => String::from_str("optimized SVG root element changed"),
        }
    }
}

/// Markers of SVG constructs whose rendering could change when white space
/// or comments are touched, in the order they are looked for (lowercase).
pub open spec fn risky_markers() -> Seq<Seq<char>> {
    seq![
        "<!doctype"@,
        "<![cdata"@,
        "<?xml-stylesheet"@,
        "<script"@,
        "<style"@,
        "<text"@,
        "<tspan"@,
        "<foreignobject"@,
        "xml:space"@,
    ]
}

/// The first of `markers` that occurs in `s`.
pub open spec fn first_contained(s: Seq<char>, markers: Seq<Seq<char>>) -> Option<Seq<char>>
    decreases markers.len(),
{
    if markers.len() == 0 {
        None
    } else if contains_seq(s, markers[0]) {
        Some(markers[0])
    } else {
        first_contained(s, markers.skip(1))
    }
}

/// The reason a parse result refuses an SVG, if any: a parse error, or a
/// root element other than `<svg>`.
pub open spec fn root_problem(parsed: Result<(Seq<char>, Option<Seq<char>>), Seq<char>>) -> Option<SvgProblem> {
    match parsed {
        Err(msg) => Some(SvgProblem::InvalidXml(msg)),
        Ok((name, _ns)) => if name != "svg"@ {
            Some(SvgProblem::RootNotSvg)
        } else {
            None
        },
    }
}

/// The reason the SVG `input` is not optimized, if any.
pub open spec fn svg_input_problem(input: Seq<char>) -> Option<SvgProblem> {
    match first_contained(ascii_lower_seq(input), risky_markers()) {
        Some(m) => Some(SvgProblem::Risky(m)),
        None => root_problem(xml_root_of(input)),
    }
}

/// The reason the parse results of an original and of a candidate forbid
/// the replacement, if any: either fails to parse, or the root elements
/// differ in name or namespace.
pub open spec fn roots_problem(
    original: Result<(Seq<char>, Option<Seq<char>>), Seq<char>>,
    candidate: Result<(Seq<char>, Option<Seq<char>>), Seq<char>>,
) -> Option<SvgProblem> {
    match original {
        Err(msg) => Some(SvgProblem::InvalidOriginalXml(msg)),
        Ok(o) => match candidate {
            Err(msg) => Some(SvgProblem::InvalidOptimizedXml(msg)),
            Ok(c) => if o.0 != c.0 || o.1 != c.1 {
                Some(SvgProblem::RootChanged)
            } else {
                None
            },
        },
    }
}

/// The reason `candidate` may not replace `original`, if any.
pub open spec fn svg_candidate_problem(original: Seq<char>, candidate: Seq<char>) -> Option<SvgProblem> {
    roots_problem(xml_root_of(original), xml_root_of(candidate))
}

/// The XML comment delimiters `<!--` and `-->`.
pub open spec fn comment_open() -> Seq<char> {
    seq!['<', '!', '-', '-']
}

pub open spec fn comment_close() -> Seq<char> {
    seq!['-', '-', '>']
}

/// `s` with every `<!--` ... `-->` comment removed, or none when a comment
/// is not closed.
pub open spec fn without_comments(s: Seq<char>) -> Option<Seq<char>>
    decreases s.len(),
{
    match find_seq(s, comment_open()) {
        None => Some(s),
        Some(i) => {
            proof {
                lemma_find_from(s, comment_open(), 0);
            }
            let body = s.skip(i + 4);
            match find_seq(body, comment_close()) {
                None => None,
                Some(j) => {
                    proof {
                        lemma_find_from(body, comment_close(), 0);
                    }
                    match without_comments(body.skip(j + 3)) {
                        Some(rest) => Some(s.take(i) + rest),
                        None => None,
                    }
                },
            }
        },
    }
}

/// End of the run of white space in `s` starting at `i`.
pub open spec fn ws_run_end(s: Seq<char>, i: int) -> int
    decreases s.len() - i,
{
    if 0 <= i < s.len() && is_white_space(s[i]) {
        ws_run_end(s, i + 1)
    } else {
        i
    }
}

pub proof fn lemma_ws_run_end(s: Seq<char>, i: int)
    requires
        0 <= i <= s.len(),
    ensures
        i <= ws_run_end(s, i) <= s.len(),
        forall|k: int| i <= k < ws_run_end(s, i) ==> is_white_space(#[trigger] s[k]),
        ws_run_end(s, i) < s.len() ==> !is_white_space(s[ws_run_end(s, i)]),
    decreases s.len() - i,
{
    if i < s.len() && is_white_space(s[i]) {
        lemma_ws_run_end(s, i + 1);
    }
}

/// `s[i..]` with the white space between a `>` and a following `<` removed.
pub open spec fn collapse_from(s: Seq<char>, i: int) -> Seq<char>
    decreases s.len() - i,
{
    if i < 0 || i >= s.len() {
        Seq::empty()
    } else if s[i] == '>' {
        let e = ws_run_end(s, i + 1);
        proof {
            lemma_ws_run_end(s, i + 1);
        }
        let kept = if e < s.len() && s[e] == '<' {
            Seq::empty()
        } else {
            s.subrange(i + 1, e)
        };
        seq!['>'] + kept + collapse_from(s, e)
    } else {
        seq![s[i]] + collapse_from(s, i + 1)
    }
}

/// `s` with the white space between a `>` and a following `<` removed.
pub open spec fn collapsed(s: Seq<char>) -> Seq<char> {
    collapse_from(s, 0)
}

/// The optimized form of an SVG document, or why it is left alone.
pub open spec fn optimized_svg(input: Seq<char>, strip: StripPolicy) -> Result<Seq<char>, SvgProblem> {
    match svg_input_problem(input) {
        Some(p) => Err(p),
        None => {
            let t = trim_seq(input);
            let uncommented = if strip == StripPolicy::Keep {
                Some(t)
            } else {
                without_comments(t)
            };
            match uncommented {
                None => Err(SvgProblem::UnclosedComment),
                Some(c) => {
                    let candidate = collapsed(c);
                    match svg_candidate_problem(input, candidate) {
                        Some(p) => Err(p),
                        None => Ok(candidate),
                    }
                },
            }
        },
    }
}

/// Rejects SVGs holding constructs whose rendering could change, SVGs that
/// are not well-formed XML, and documents whose root is not `<svg>`.
pub fn validate_svg_input(input: &str) -> (r: Result<(), SvgError>)
    ensures
        match (r, svg_input_problem(input@)) {
            (Ok(()), None) => true,
            (Err(e), Some(p)) => e@ == p,
            _ => false,
        },
{
    let chars = chars_of(input);
    let lower = ascii_lowercase(chars.as_slice());
    let markers: [&str; 9] = [
        "<!doctype",
        "<![cdata",
        "<?xml-stylesheet",
        "<script",
        "<style",
        "<text",
        "<tspan",
        "<foreignobject",
        "xml:space",
    ];
    let ghost ms = risky_markers();
    assert(ms.skip(0) =~= ms);
    let mut k: usize = 0;
    while k < 9
        invariant
            k <= 9,
            lower@ == ascii_lower_seq(input@),
            ms == risky_markers(),
            forall|i: int| 0 <= i < 9 ==> (#[trigger] markers@[i])@ == ms[i],
            first_contained(lower@, ms) == first_contained(lower@, ms.skip(k as int)),
        decreases 9 - k,
    {
        let marker = chars_of(markers[k]);
        assert(ms.skip(k as int)[0] == ms[k as int]);
        assert(ms.skip(k as int).skip(1) =~= ms.skip(k + 1));
        if contains_exec(lower.as_slice(), marker.as_slice()) {
            return Err(SvgError::Risky(String::from_str(markers[k])));
        }
        k = k + 1;
    }
    assert(ms.skip(9).len() == 0);
    check_svg_root(parse_xml_root(input))
}

/// Judges a parse result of an SVG: a parse error, or a root element
/// other than `<svg>`, refuses it.
pub fn check_svg_root(parsed: Result<(String, Option<String>), String>) -> (r: Result<(), SvgError>)
    ensures
        match (r, root_problem(xml_result_view(parsed))) {
            (Ok(()), None) => true,
            (Err(e), Some(p)) => e@ == p,
            _ => false,
        },
{
    match parsed {
        Err(msg) => Err(SvgError::InvalidXml(msg)),
        Ok((name, _ns)) => {
            let n = chars_of(name.as_str());
            if !crate::text::chars_eq_str(n.as_slice(), "svg") {
                Err(SvgError::RootNotSvg)
            } else {
                Ok(())
            }
        },
    }
}

/// Do the two strings hold the same characters?
fn strings_equal(a: &String, b: &String) -> (r: bool)
    ensures
        r == (a@ == b@),
{
    let ac = chars_of(a.as_str());
    let bc = chars_of(b.as_str());
    crate::text::chars_eq(ac.as_slice(), bc.as_slice())
}

/// Checks that `candidate` is well-formed XML with the same root element
/// (name and namespace) as `original`.
pub fn validate_svg_candidate(original: &str, candidate: &str) -> (r: Result<(), SvgError>)
    ensures
        match (r, svg_candidate_problem(original@, candidate@)) {
            (Ok(()), None) => true,
            (Err(e), Some(p)) => e@ == p,
            _ => false,
        },
{
    let o = parse_xml_root(original);
    let c = parse_xml_root(candidate);
    compare_svg_roots(o, c)
}

/// Judges the parse results of an original SVG and of its optimized
/// candidate: both must parse, with root elements of the same name and
/// namespace.
pub fn compare_svg_roots(
    original: Result<(String, Option<String>), String>,
    candidate: Result<(String, Option<String>), String>,
) -> (r: Result<(), SvgError>)
    ensures
        match (r, roots_problem(xml_result_view(original), xml_result_view(candidate))) {
            (Ok(()), None) => true,
            (Err(e), Some(p)) => e@ == p,
            _ => false,
        },
{
    let o = match original {
        Err(msg) => return Err(SvgError::InvalidOriginalXml(msg)),
        Ok(o) => o,
    };
    let c = match candidate {
        Err(msg) => return Err(SvgError::InvalidOptimizedXml(msg)),
        Ok(c) => c,
    };
    let same_name = strings_equal(&o.0, &c.0);
    let same_ns = match (&o.1, &c.1) {
        (Some(a), Some(b)) => strings_equal(a, b),
        (None, None) => true,
        _ => false,
    };
    let ghost ov = xml_result_view(Ok::<(String, Option<String>), String>(o));
    let ghost cv = xml_result_view(Ok::<(String, Option<String>), String>(c));
    assert(same_name == (ov->Ok_0.0 == cv->Ok_0.0));
    assert(same_ns == (ov->Ok_0.1 == cv->Ok_0.1));
    if !same_name || !same_ns {
        return Err(SvgError::RootChanged);
    }
    Ok(())
}

/// Removes every `<!--` ... `-->` comment from `input`; fails when a
/// comment is never closed.
pub fn remove_xml_comments(input: &str) -> (r: Result<String, SvgError>)
    ensures
        match (r, without_comments(input@)) {
            (Ok(out), Some(expected)) => out@ == expected,
            (Err(e), None) => e@ == SvgProblem::UnclosedComment,
            _ => false,
        },
{
    let s = chars_of(input);
    let open: Vec<char> = vec!['<', '!', '-', '-'];
    let close: Vec<char> = vec!['-', '-', '>'];
    let mut output: Vec<char> = Vec::new();
    let mut cursor: usize = 0;
    let slen = s.len();
    assert(s@.skip(0) =~= s@);
    assert(output@ + s@ =~= s@);
    loop
        invariant
            cursor <= s@.len(),
            s@ == input@,
            slen == s@.len(),
            open@ == comment_open(),
            close@ == comment_close(),
            without_comments(s@) == (match without_comments(s@.skip(cursor as int)) {
                Some(rest) => Some(output@ + rest),
                None => None,
            }),
        decreases s@.len() - cursor,
    {
        let ghost t = s@.skip(cursor as int);
        let start = find_from(s.as_slice(), open.as_slice(), cursor);
        proof {
            lemma_find_from(s@, open@, cursor as int);
            lemma_find_shift(s@, open@, cursor as int);
        }
        match start {
            None => {
                assert(without_comments(t) == Some(t));
                let mut j = cursor;
                while j < s.len()
                    invariant
                        cursor <= j <= s@.len(),
                        s@ == input@,
                        without_comments(s@) == Some(output@ + s@.skip(j as int)),
                    decreases s@.len() - j,
                {
                    assert(s@.skip(j as int) =~= seq![s@[j as int]] + s@.skip(j + 1));
                    output.push(s[j]);
                    j = j + 1;
                    assert(output@ + s@.skip(j as int) =~= output@.drop_last() + seq![s@[j - 1]] + s@.skip(
                        j as int,
                    ));
                }
                assert(output@ + s@.skip(j as int) =~= output@);
                assert(without_comments(s@) == Some(output@));
                assert(s@ == input@);
                return Ok(string_from_chars(output.as_slice()));
            },
            Some(start) => {
                let body_start = start + 4;
                let end = find_from(s.as_slice(), close.as_slice(), body_start);
                proof {
                    assert(t.skip(start - cursor + 4) =~= s@.skip(body_start as int));
                    lemma_find_shift(s@, close@, body_start as int);
                    lemma_find_from(s@, close@, body_start as int);
                }
                match end {
                    None => {
                        assert(find_seq(t, comment_open()) == Some(start - cursor));
                        assert(without_comments(t) is None);
                        return Err(SvgError::UnclosedComment);
                    },
                    Some(end) => {
                        let ghost before = output@;
                        let mut m = cursor;
                        while m < start
                            invariant
                                cursor <= m <= start,
                                start + 4 <= s@.len(),
                                output@ == before + s@.subrange(cursor as int, m as int),
                            decreases start - m,
                        {
                            output.push(s[m]);
                            m = m + 1;
                            assert(output@ =~= before + s@.subrange(cursor as int, m as int));
                        }
                        proof {
                            assert(s@.skip(body_start as int).skip(end - body_start + 3) =~= s@.skip(end + 3));
                            assert(t.take(start - cursor) =~= s@.subrange(cursor as int, start as int));
                            assert forall|r: Seq<char>| before + (t.take(start - cursor) + r) =~= output@ + r by {}
                        }
                        cursor = end + 3;
                    },
                }
            },
        }
    }
}

/// Removes the white space between a `>` and a following `<`; white space
/// after a `>` that is not followed by `<` is kept.
pub fn collapse_intertag_whitespace(input: &str) -> (r: String)
    ensures
        r@ == collapsed(input@),
{
    let s = chars_of(input);
    let mut output: Vec<char> = Vec::new();
    let mut index: usize = 0;
    while index < s.len()
        invariant
            index <= s@.len(),
            collapsed(s@) == output@ + collapse_from(s@, index as int),
        decreases s@.len() - index,
    {
        let ch = s[index];
        let ghost before = output@;
        if ch == '>' {
            output.push(ch);
            index = index + 1;
            let whitespace_start = index;
            proof {
                lemma_ws_run_end(s@, whitespace_start as int);
            }
            while index < s.len() && is_white_space_exec(s[index])
                invariant
                    whitespace_start <= index <= s@.len(),
                    ws_run_end(s@, index as int) == ws_run_end(s@, whitespace_start as int),
                decreases s@.len() - index,
            {
                index = index + 1;
            }
            assert(ws_run_end(s@, index as int) == index as int);
            if index < s.len() && s[index] == '<' {
                assert(collapsed(s@) == output@ + collapse_from(s@, index as int)) by {
                    assert(before.push('>') =~= before + seq!['>']);
                    assert(seq!['>'] + Seq::<char>::empty() =~= seq!['>']);
                }
                continue;
            }
            let mut k = whitespace_start;
            let ghost mid = output@;
            while k < index
                invariant
                    whitespace_start <= k <= index <= s@.len(),
                    output@ == mid + s@.subrange(whitespace_start as int, k as int),
                decreases index - k,
            {
                output.push(s[k]);
                k = k + 1;
                assert(output@ =~= mid + s@.subrange(whitespace_start as int, k as int));
            }
            assert(collapsed(s@) == output@ + collapse_from(s@, index as int)) by {
                assert(mid =~= before + seq!['>']);
                assert(before + (seq!['>'] + s@.subrange(whitespace_start as int, index as int) + collapse_from(
                    s@,
                    index as int,
                )) =~= output@ + collapse_from(s@, index as int));
            }
        } else {
            output.push(ch);
            index = index + 1;
            assert(before + (seq![ch] + collapse_from(s@, index as int)) =~= output@ + collapse_from(
                s@,
                index as int,
            ));
        }
    }
    assert(output@ + Seq::<char>::empty() =~= output@);
    string_from_chars(output.as_slice())
}

/// Optimizes SVG text conservatively: rejects risky or malformed input,
/// trims surrounding white space, removes comments unless metadata is kept,
/// collapses white space between tags, and checks that the result is
/// well-formed XML with the same root element.
pub fn optimize_svg_text(input: &str, strip: &StripPolicy) -> (r: Result<String, SvgError>)
    ensures
        match (r, optimized_svg(input@, *strip)) {
            (Ok(out), Ok(expected)) => out@ == expected,
            (Err(e), Err(p)) => e@ == p,
            _ => false,
        },
{
    match validate_svg_input(input) {
        Err(e) => return Err(e),
        Ok(()) => {},
    }
    let chars = chars_of(input);
    let trimmed = trim_chars(chars.as_slice());
    let mut candidate = string_from_chars(trimmed.as_slice());
    if *strip != StripPolicy::Keep {
        candidate = match remove_xml_comments(candidate.as_str()) {
            Ok(c) => c,
            Err(e) => return Err(e),
        };
    }
    candidate = collapse_intertag_whitespace(candidate.as_str());
    match validate_svg_candidate(input, candidate.as_str()) {
        Err(e) => return Err(e),
        Ok(()) => {},
    }
    Ok(candidate)
}

/// An optimized SVG is well-formed XML with the same root element as the
/// input, an `<svg>` element.
pub proof fn lemma_optimized_svg_root(input: Seq<char>, strip: StripPolicy)
    ensures
        optimized_svg(input, strip) matches Ok(out) ==> (xml_root_of(out) matches Ok(r) && r.0 == "svg"@
            && xml_root_of(input) == Ok::<(Seq<char>, Option<Seq<char>>), Seq<char>>(r)),
{
}

proof fn lemma_first_contained(s: Seq<char>, markers: Seq<Seq<char>>)
    ensures
        (exists|i: int| 0 <= i < markers.len() && contains_seq(s, #[trigger] markers[i])) ==> first_contained(s, markers) is Some,
        first_contained(s, markers) matches Some(m) ==> contains_seq(s, m),
    decreases markers.len(),
{
    if markers.len() > 0 {
        lemma_first_contained(s, markers.skip(1));
        if exists|i: int| 0 <= i < markers.len() && contains_seq(s, #[trigger] markers[i]) {
            let i = choose|i: int| 0 <= i < markers.len() && contains_seq(s, #[trigger] markers[i]);
            if i > 0 {
                assert(markers.skip(1)[i - 1] == markers[i]);
            }
        }
    }
}

/// An SVG holding a construct whose rendering could change (a script, a
/// style sheet, text, a CDATA section, a document type, foreign objects or
/// `xml:space`), in any letter case, is never rewritten.
pub proof fn lemma_risky_svg_untouched(input: Seq<char>, strip: StripPolicy, marker: int)
    requires
        0 <= marker < risky_markers().len(),
        contains_seq(ascii_lower_seq(input), risky_markers()[marker]),
    ensures
        optimized_svg(input, strip) matches Err(SvgProblem::Risky(m)) && contains_seq(ascii_lower_seq(input), m),
{
    lemma_first_contained(ascii_lower_seq(input), risky_markers());
}

proof fn lemma_without_comments_len(s: Seq<char>)
    ensures
        without_comments(s) matches Some(r) ==> r.len() <= s.len(),
    decreases s.len(),
{
    if let Some(i) = find_seq(s, comment_open()) {
        lemma_find_from(s, comment_open(), 0);
        let body = s.skip(i + 4);
        if let Some(j) = find_seq(body, comment_close()) {
            lemma_find_from(body, comment_close(), 0);
            lemma_without_comments_len(body.skip(j + 3));
        }
    }
}

proof fn lemma_collapse_len(s: Seq<char>, i: int)
    requires
        0 <= i <= s.len(),
    ensures
        collapse_from(s, i).len() <= s.len() - i,
    decreases s.len() - i,
{
    if i < s.len() {
        if s[i] == '>' {
            lemma_ws_run_end(s, i + 1);
            lemma_collapse_len(s, ws_run_end(s, i + 1));
        } else {
            lemma_collapse_len(s, i + 1);
        }
    }
}

/// SVG optimization never makes a document longer.
pub proof fn lemma_optimized_svg_not_longer(input: Seq<char>, strip: StripPolicy)
    ensures
        optimized_svg(input, strip) matches Ok(out) ==> out.len() <= input.len(),
{
    let t = trim_seq(input);
    lemma_trim_len(input);
    lemma_without_comments_len(t);
    let c = if strip == StripPolicy::Keep {
        t
    } else {
        match without_comments(t) {
            Some(c) => c,
            None => t,
        }
    };
    lemma_collapse_len(c, 0);
}

/// Some `>` of `s` is followed by white space and then, directly, by `<`.
pub open spec fn has_gap_between_tags(s: Seq<char>) -> bool {
    exists|i: int, j: int|
        0 <= i && i + 1 < j < s.len() && #[trigger] s[i] == '>' && #[trigger] s[j] == '<' && forall|k: int|
            i < k < j ==> is_white_space(#[trigger] s[k])
}

proof fn lemma_collapse_first(s: Seq<char>, i: int)
    requires
        0 <= i < s.len(),
    ensures
        collapse_from(s, i).len() > 0,
        collapse_from(s, i)[0] == s[i],
{
    if s[i] == '>' {
        lemma_ws_run_end(s, i + 1);
    }
}

proof fn lemma_no_gap_shift(out: Seq<char>, prefix: Seq<char>, rest: Seq<char>)
    requires
        out == prefix + rest,
        !has_gap_between_tags(rest),
        forall|p: int| 0 <= p < prefix.len() ==> prefix[p] != '>',
    ensures
        !has_gap_between_tags(out),
{
    if has_gap_between_tags(out) {
        let (i, j) = choose|i: int, j: int|
            0 <= i && i + 1 < j < out.len() && #[trigger] out[i] == '>' && #[trigger] out[j] == '<' && forall|k: int|
                i < k < j ==> is_white_space(#[trigger] out[k]);
        if i < prefix.len() {
            assert(out[i] == prefix[i]);
        } else {
            let n = prefix.len() as int;
            assert(rest[i - n] == '>');
            assert(rest[j - n] == '<');
            assert forall|k: int| i - n < k < j - n implies is_white_space(#[trigger] rest[k]) by {
                assert(out[k + n] == rest[k]);
            }
        }
    }
}

#[verifier::spinoff_prover]
proof fn lemma_collapse_no_gap(s: Seq<char>, i: int)
    requires
        0 <= i <= s.len(),
    ensures
        !has_gap_between_tags(collapse_from(s, i)),
    decreases s.len() - i,
{
    if i < s.len() {
        if s[i] == '>' {
            let e = ws_run_end(s, i + 1);
            lemma_ws_run_end(s, i + 1);
            lemma_collapse_no_gap(s, e);
            let rest = collapse_from(s, e);
            let kept = if e < s.len() && s[e] == '<' {
                Seq::<char>::empty()
            } else {
                s.subrange(i + 1, e)
            };
            let out = collapse_from(s, i);
            assert(out == seq!['>'] + kept + rest);
            if e < s.len() {
                lemma_collapse_first(s, e);
            }
            let m = kept.len() as int;
            assert forall|p: int| 0 <= p < kept.len() implies is_white_space(#[trigger] kept[p]) by {
                assert(kept[p] == s[i + 1 + p]);
            }
            lemma_no_gap_shift(kept + rest, kept, rest);
            if has_gap_between_tags(out) {
                let (a, b) = choose|a: int, b: int|
                    0 <= a && a + 1 < b < out.len() && #[trigger] out[a] == '>' && #[trigger] out[b] == '<'
                        && forall|k: int| a < k < b ==> is_white_space(#[trigger] out[k]);
                if a == 0 {
                    if b <= m {
                        assert(out[b] == kept[b - 1]);
                    } else if b == m + 1 {
                        assert(out[b] == rest[0]);
                    } else {
                        assert(out[m + 1] == rest[0]);
                        assert(is_white_space(out[m + 1]));
                    }
                } else {
                    assert(out == seq!['>'] + (kept + rest));
                    assert(!has_gap_between_tags(kept + rest));
                    let tail = kept + rest;
                    assert(tail[a - 1] == '>');
                    assert(tail[b - 1] == '<');
                    assert forall|k: int| a - 1 < k < b - 1 implies is_white_space(#[trigger] tail[k]) by {
                        assert(out[k + 1] == tail[k]);
                    }
                }
            }
        } else {
            lemma_collapse_no_gap(s, i + 1);
            lemma_no_gap_shift(collapse_from(s, i), seq![s[i]], collapse_from(s, i + 1));
        }
    }
}

/// After collapsing, no white space stands between a `>` and a following
/// `<`.
pub proof fn lemma_collapsed_has_no_gaps(s: Seq<char>)
    ensures
        !has_gap_between_tags(collapsed(s)),
{
    lemma_collapse_no_gap(s, 0);
}

/// An optimized SVG has no white space between a `>` and a following `<`.
pub proof fn lemma_optimized_svg_has_no_gaps(input: Seq<char>, strip: StripPolicy)
    ensures
        optimized_svg(input, strip) matches Ok(out) ==> !has_gap_between_tags(out),
{
    let t = trim_seq(input);
    let c = if strip == StripPolicy::Keep {
        t
    } else {
        match without_comments(t) {
            Some(c) => c,
            None => t,
        }
    };
    lemma_collapse_no_gap(c, 0);
}

/// Collapsing never makes a text longer.
pub proof fn lemma_collapsed_not_longer(s: Seq<char>)
    ensures
        collapsed(s).len() <= s.len(),
{
    lemma_collapse_len(s, 0);
}

/// A text with no white space between a `>` and a following `<` is left
/// as it is from any position on.
#[verifier::spinoff_prover]
proof fn lemma_collapse_fixed(s: Seq<char>, i: int)
    requires
        0 <= i <= s.len(),
        !has_gap_between_tags(s),
    ensures
        collapse_from(s, i) == s.subrange(i, s.len() as int),
    decreases s.len() - i,
{
    if i < s.len() {
        if s[i] == '>' {
            let e = ws_run_end(s, i + 1);
            lemma_ws_run_end(s, i + 1);
            lemma_collapse_fixed(s, e);
            if e < s.len() && s[e] == '<' {
                if e > i + 1 {
                    assert(forall|k: int| i < k < e ==> is_white_space(#[trigger] s[k]));
                    assert(has_gap_between_tags(s));
                }
                assert(collapse_from(s, i) =~= s.subrange(i, s.len() as int));
            } else {
                assert(collapse_from(s, i) =~= s.subrange(i, s.len() as int));
            }
        } else {
            lemma_collapse_fixed(s, i + 1);
            assert(collapse_from(s, i) =~= s.subrange(i, s.len() as int));
        }
    } else {
        assert(collapse_from(s, i) =~= s.subrange(i, s.len() as int));
    }
}

/// Collapsing a second time changes nothing.
pub proof fn lemma_collapse_idempotent(s: Seq<char>)
    ensures
        collapsed(collapsed(s)) == collapsed(s),
{
    let c = collapsed(s);
    lemma_collapse_no_gap(s, 0);
    lemma_collapse_fixed(c, 0);
    assert(c.subrange(0, c.len() as int) =~= c);
}

proof fn lemma_first_contained_at(s: Seq<char>, markers: Seq<Seq<char>>, i: int)
    requires
        0 <= i < markers.len(),
        contains_seq(s, markers[i]),
        forall|j: int| 0 <= j < i ==> !contains_seq(s, #[trigger] markers[j]),
    ensures
        first_contained(s, markers) == Some(markers[i]),
    decreases i,
{
    if i > 0 {
        assert forall|j: int| 0 <= j < i - 1 implies !contains_seq(s, #[trigger] markers.skip(1)[j]) by {
            assert(markers.skip(1)[j] == markers[j + 1]);
        }
        assert(markers.skip(1)[i - 1] == markers[i]);
        assert(!contains_seq(s, markers[0]));
        lemma_first_contained_at(s, markers.skip(1), i - 1);
    }
}

proof fn lemma_first_contained_none(s: Seq<char>, markers: Seq<Seq<char>>)
    requires
        forall|j: int| 0 <= j < markers.len() ==> !contains_seq(s, #[trigger] markers[j]),
    ensures
        first_contained(s, markers) is None,
    decreases markers.len(),
{
    if markers.len() > 0 {
        assert forall|j: int| 0 <= j < markers.len() - 1 implies !contains_seq(s, #[trigger] markers.skip(1)[j]) by {
            assert(markers.skip(1)[j] == markers[j + 1]);
        }
        assert(!contains_seq(s, markers[0]));
        lemma_first_contained_none(s, markers.skip(1));
    }
}

/// An SVG whose text, lowercased, holds any of `<!doctype`, `<![cdata`,
/// `<?xml-stylesheet`, `<script`, `<style`, `<text`, `<tspan`,
/// `<foreignobject` or `xml:space` is refused as risky, under every
/// policy, naming the first of these (in that order) that it holds; one
/// that holds none of them is never refused as risky.
pub proof fn lemma_risky_markers(input: Seq<char>, strip: StripPolicy)
    ensures
        ({
            let lower = ascii_lower_seq(input);
            let ms = seq![
                "<!doctype"@,
                "<![cdata"@,
                "<?xml-stylesheet"@,
                "<script"@,
                "<style"@,
                "<text"@,
                "<tspan"@,
                "<foreignobject"@,
                "xml:space"@,
            ];
            &&& forall|i: int|
                0 <= i < ms.len() && contains_seq(lower, #[trigger] ms[i]) && (forall|j: int|
                    0 <= j < i ==> !contains_seq(lower, ms[j])) ==> svg_input_problem(input) == Some(
                    SvgProblem::Risky(ms[i]),
                ) && optimized_svg(input, strip) == Err::<Seq<char>, SvgProblem>(SvgProblem::Risky(ms[i]))
            &&& (forall|j: int| 0 <= j < ms.len() ==> !contains_seq(lower, #[trigger] ms[j])) ==> !(
            svg_input_problem(input) matches Some(SvgProblem::Risky(_)))
        }),
{
    let lower = ascii_lower_seq(input);
    let ms = seq![
        "<!doctype"@,
        "<![cdata"@,
        "<?xml-stylesheet"@,
        "<script"@,
        "<style"@,
        "<text"@,
        "<tspan"@,
        "<foreignobject"@,
        "xml:space"@,
    ];
    assert(ms =~= risky_markers());
    assert forall|i: int|
        0 <= i < ms.len() && contains_seq(lower, #[trigger] ms[i]) && (forall|j: int|
            0 <= j < i ==> !contains_seq(lower, ms[j])) implies svg_input_problem(input) == Some(
        SvgProblem::Risky(ms[i]),
    ) && optimized_svg(input, strip) == Err::<Seq<char>, SvgProblem>(SvgProblem::Risky(ms[i])) by {
        lemma_first_contained_at(lower, ms, i);
    }
    if forall|j: int| 0 <= j < ms.len() ==> !contains_seq(lower, #[trigger] ms[j]) {
        lemma_first_contained_none(lower, ms);
        match root_problem(xml_root_of(input)) {
            Some(p) => assert(!(p is Risky)),
            None => {},
        }
    }
}

/// Comments are the text from `<!--` to the next `-->`.
pub proof fn lemma_comment_delimiters()
    ensures
        comment_open() == seq!['<', '!', '-', '-'],
        comment_close() == seq!['-', '-', '>'],
{
}

} // verus!
