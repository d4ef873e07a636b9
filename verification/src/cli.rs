//! Command-line rules: option values, backend arguments and labels, tool
//! lookup, and the self-update command.

use vstd::prelude::*;
use crate::kinds::StripPolicy;
use crate::flutter::{join, join_path};
use crate::text::{chars_of, decimal_seq, digit_char, decimal_string, push_str, string_from_chars, trim_chars, trim_seq};

verus! {

broadcast use vstd::string::group_string_axioms;

/// Why a `--quality` value was refused.
#[derive(Debug, Clone, Copy, PartialEq, Eq, Structural)]
pub enum QualityError {
    /// The value is empty.
    Empty,
    /// The value is not an optionally signed decimal number.
    InvalidDigit,
    /// The number is above the largest 64-bit integer.
    PosOverflow,
    /// The number is below the smallest 64-bit integer.
    NegOverflow,
    /// The number is outside `1..=100`.
    OutOfRange(i64),
}

/// Is `c` an ASCII decimal digit?
pub open spec fn is_digit(c: char) -> bool {
    '0' <= c && c <= '9'
}

/// The value of a decimal digit character.
pub open spec fn digit_value(c: char) -> int {
    c as int - 48
}

/// Reads the digits `d[k..]` onto the magnitude `acc`, failing on the first
/// character that is no digit, or with `overflow` as soon as the magnitude
/// passes `limit`.
pub open spec fn scan_digits(d: Seq<char>, k: int, acc: int, limit: int, overflow: QualityError) -> Result<
    int,
    QualityError,
>
    decreases d.len() - k,
{
    if k < 0 || k >= d.len() {
        Ok(acc)
    } else if !is_digit(d[k]) {
        Err(QualityError::InvalidDigit)
    } else if acc * 10 + digit_value(d[k]) > limit {
        Err(overflow)
    } else {
        scan_digits(d, k + 1, acc * 10 + digit_value(d[k]), limit, overflow)
    }
}

/// A 64-bit signed decimal integer as `i64::from_str` reads it: an
/// optional `+` or `-`, then at least one digit and nothing else.
pub open spec fn parse_i64(s: Seq<char>) -> Result<int, QualityError> {
    if s.len() == 0 {
        Err(QualityError::Empty)
    } else if s.len() == 1 && (s[0] == '+' || s[0] == '-') {
        Err(QualityError::InvalidDigit)
    } else if s[0] == '+' {
        scan_digits(s.skip(1), 0, 0, i64::MAX as int, QualityError::PosOverflow)
    } else if s[0] == '-' {
        match scan_digits(s.skip(1), 0, 0, 0x8000_0000_0000_0000, QualityError::NegOverflow) {
            Ok(m) => Ok(-m),
            Err(e) => Err(e),
        }
    } else {
        scan_digits(s, 0, 0, i64::MAX as int, QualityError::PosOverflow)
    }
}

/// The lossy quality a `--quality` value gives: a 64-bit integer in
/// `1..=100`.
pub open spec fn quality_value(s: Seq<char>) -> Result<u8, QualityError> {
    match parse_i64(s) {
        Ok(v) => if 1 <= v <= 100 {
            Ok(v as u8)
        } else {
            Err(QualityError::OutOfRange(v as i64))
        },
        Err(e) => Err(e),
    }
}

proof fn lemma_scan_bounds(d: Seq<char>, k: int, acc: int, limit: int, overflow: QualityError)
    requires
        0 <= acc <= limit,
    ensures
        scan_digits(d, k, acc, limit, overflow) matches Ok(m) ==> 0 <= m <= limit,
    decreases d.len() - k,
{
    if 0 <= k < d.len() && is_digit(d[k]) && acc * 10 + digit_value(d[k]) <= limit {
        lemma_scan_bounds(d, k + 1, acc * 10 + digit_value(d[k]), limit, overflow);
    }
}

/// Reads the digits of `d` from position `k` onto the magnitude `acc`.
fn scan_digits_exec(d: &[char], k: usize, acc: u128, limit: u128, overflow: QualityError) -> (r: Result<
    u128,
    QualityError,
>)
    requires
        k <= d@.len(),
        acc <= limit,
        limit <= 0x8000_0000_0000_0000,
    ensures
        match (r, scan_digits(d@, k as int, acc as int, limit as int, overflow)) {
            (Ok(a), Ok(b)) => a == b,
            (Err(a), Err(b)) => a == b,
            _ => false,
        },
{
    let mut i = k;
    let mut a = acc;
    while i < d.len()
        invariant
            k <= i <= d@.len(),
            a <= limit,
            limit <= 0x8000_0000_0000_0000,
            scan_digits(d@, k as int, acc as int, limit as int, overflow) == scan_digits(
                d@,
                i as int,
                a as int,
                limit as int,
                overflow,
            ),
        decreases d@.len() - i,
    {
        let c = d[i];
        if !('0' <= c && c <= '9') {
            return Err(QualityError::InvalidDigit);
        }
        let v: u128 = (c as u32 - 48) as u128;
        assert(v == digit_value(c));
        if a * 10 + v > limit {
            return Err(overflow);
        }
        a = a * 10 + v;
        i = i + 1;
    }
    Ok(a)
}

/// Parses a `--quality` value: a decimal integer (optionally signed) from
/// 1 to 100.
pub fn parse_quality(value: &str) -> (r: Result<u8, QualityError>)
    ensures
        r == quality_value(value@),
{
    let s = chars_of(value);
    let n = s.len();
    if n == 0 {
        return Err(QualityError::Empty);
    }
    if n == 1 && (s[0] == '+' || s[0] == '-') {
        return Err(QualityError::InvalidDigit);
    }
    let v: i128;
    if s[0] == '+' || s[0] == '-' {
        let negative = s[0] == '-';
        let rest = crate::text::sub_chars(s.as_slice(), 1, n);
        assert(rest@ == s@.skip(1));
        let limit: u128 = if negative {
            0x8000_0000_0000_0000
        } else {
            0x7fff_ffff_ffff_ffff
        };
        let overflow = if negative {
            QualityError::NegOverflow
        } else {
            QualityError::PosOverflow
        };
        let m = match scan_digits_exec(rest.as_slice(), 0, 0, limit, overflow) {
            Ok(m) => m,
            Err(e) => return Err(e),
        };
        proof {
            lemma_scan_bounds(rest@, 0, 0, limit as int, overflow);
        }
        v = if negative {
            0 - (m as i128)
        } else {
            m as i128
        };
    } else {
        let m = match scan_digits_exec(s.as_slice(), 0, 0, 0x7fff_ffff_ffff_ffff, QualityError::PosOverflow) {
            Ok(m) => m,
            Err(e) => return Err(e),
        };
        proof {
            lemma_scan_bounds(s@, 0, 0, i64::MAX as int, QualityError::PosOverflow);
        }
        v = m as i128;
    }
    assert(parse_i64(value@) == Ok::<int, QualityError>(v as int));
    if 1 <= v && v <= 100 {
        Ok(v as u8)
    } else {
        Err(QualityError::OutOfRange(v as i64))
    }
}

/// The decimal text of a signed integer.
pub open spec fn signed_decimal(v: int) -> Seq<char> {
    if v < 0 {
        seq!['-'] + decimal_seq((-v) as nat)
    } else {
        decimal_seq(v as nat)
    }
}

/// The text of a quality error, as the option parser reports it.
pub open spec fn quality_error_text(e: QualityError) -> Seq<char> {
    match e {
        QualityError::Empty => "cannot parse integer from empty string"@,
        QualityError::InvalidDigit => "invalid digit found in string"@,
        QualityError::PosOverflow => "number too large to fit in target type"@,
        QualityError::NegOverflow => "number too small to fit in target type"@,
        QualityError::OutOfRange(v) => signed_decimal(v as int) + " is not in 1..=100"@,
    }
}

impl QualityError {
    /// The error message.
    pub fn message(&self) -> (s: String)
        ensures
            s@ == quality_error_text(*self),
    {
        match self {
            QualityError::Empty => "cannot parse integer from empty string".to_string(),
            QualityError::InvalidDigit => "invalid digit found in string".to_string(),
            QualityError::PosOverflow => "number too large to fit in target type".to_string(),
            QualityError::NegOverflow => "number too small to fit in target type".to_string(),
            QualityError::OutOfRange(v) => {
                let mut out: Vec<char> = Vec::new();
                let magnitude: u64;
                if *v < 0 {
                    out.push('-');
                    magnitude = (0 - (*v as i128)) as u64;
                } else {
                    magnitude = *v as u64;
                }
                let d = decimal_string(magnitude);
                push_str(&mut out, d.as_str());
                push_str(&mut out, " is not in 1..=100");
                proof {
                    if *v < 0 {
                        assert(out@ =~= seq!['-'] + decimal_seq((-(*v as int)) as nat) + " is not in 1..=100"@);
                    } else {
                        assert(out@ =~= decimal_seq(*v as nat) + " is not in 1..=100"@);
                    }
                }
                string_from_chars(out.as_slice())
            },
        }
    }
}

/// Checks the PNG optimization level, which must be at most 6.
pub fn check_level(level: u8) -> (r: Result<(), String>)
    ensures
        r is Ok <==> level <= 6,
        r matches Err(e) ==> e@ == "--level must be between 0 and 6"@,
{
    if level > 6 {
        return Err("--level must be between 0 and 6".to_string());
    }
    Ok(())
}

/// The `-copy` argument of `jpegtran` for a strip policy: all markers are
/// kept under the keep policy; the safe policy keeps only the ICC color
/// profile, so EXIF and XMP go; stripping everything keeps none.
pub fn jpegtran_copy_arg(strip: StripPolicy) -> (s: &'static str)
    ensures
        s@ == match strip {
            StripPolicy::Keep => "all"@,
            StripPolicy::Safe => "icc"@,
            StripPolicy::All => "none"@,
        },
{
    match strip {
        StripPolicy::Keep => "all",
        StripPolicy::Safe => "icc",
        StripPolicy::All => "none",
    }
}

/// The `-metadata` argument of `cwebp` for a strip policy: the safe policy
/// keeps the color profile only.
pub fn cwebp_metadata_arg(strip: StripPolicy) -> (s: &'static str)
    ensures
        s@ == match strip {
            StripPolicy::Keep => "all"@,
            StripPolicy::Safe => "icc"@,
            StripPolicy::All => "none"@,
        },
{
    match strip {
        StripPolicy::Keep => "all",
        StripPolicy::Safe => "icc",
        StripPolicy::All => "none",
    }
}

/// The error of a backend that ran and failed: its standard error output,
/// trimmed, or when that is empty, the exit status.
pub open spec fn backend_failure_text(name: Seq<char>, stderr: Seq<char>, status: Seq<char>) -> Seq<char> {
    if trim_seq(stderr).len() == 0 {
        name + " exited with "@ + status
    } else {
        trim_seq(stderr)
    }
}

/// Describes a failed backend run from its name, its standard error text
/// and its exit status text.
pub fn backend_failure_message(name: &str, stderr: &str, status: &str) -> (s: String)
    ensures
        s@ == backend_failure_text(name@, stderr@, status@),
{
    let e = chars_of(stderr);
    let t = trim_chars(e.as_slice());
    if t.len() == 0 {
        let mut out: Vec<char> = Vec::new();
        push_str(&mut out, name);
        push_str(&mut out, " exited with ");
        push_str(&mut out, status);
        assert(out@ =~= name@ + " exited with "@ + status@);
        string_from_chars(out.as_slice())
    } else {
        string_from_chars(t.as_slice())
    }
}

/// Describes a backend that could not be started.
pub fn backend_start_failure(name: &str, error: &str) -> (s: String)
    ensures
        s@ == "failed to start "@ + name@ + ": "@ + error@,
{
    let mut out: Vec<char> = Vec::new();
    push_str(&mut out, "failed to start ");
    push_str(&mut out, name);
    push_str(&mut out, ": ");
    push_str(&mut out, error);
    string_from_chars(out.as_slice())
}

/// The label of a decoder and encoder pair: both paths, or `not found`
/// when either is missing.
pub fn backend_pair_label(decoder: &Option<String>, encoder: &Option<String>) -> (s: String)
    ensures
        match (decoder, encoder) {
            (Some(d), Some(e)) => s@ == d@ + " + "@ + e@,
            _ => s@ == "not found"@,
        },
{
    match (decoder, encoder) {
        (Some(d), Some(e)) => {
            let mut out: Vec<char> = Vec::new();
            push_str(&mut out, d.as_str());
            push_str(&mut out, " + ");
            push_str(&mut out, e.as_str());
            string_from_chars(out.as_slice())
        },
        _ => "not found".to_string(),
    }
}

/// The file name of an executable: `.exe` is added on Windows.
pub fn platform_binary_name(binary: &str, windows: bool) -> (s: String)
    ensures
        s@ == if windows {
            binary@ + ".exe"@
        } else {
            binary@
        },
{
    if windows {
        let mut out: Vec<char> = Vec::new();
        push_str(&mut out, binary);
        push_str(&mut out, ".exe");
        string_from_chars(out.as_slice())
    } else {
        binary.to_string()
    }
}

/// Characters that need no quoting in a shell word.
pub open spec fn shell_safe(c: char) -> bool {
    ('a' <= c && c <= 'z') || ('A' <= c && c <= 'Z') || ('0' <= c && c <= '9') || c == '-' || c == '_'
        || c == '.' || c == '/' || c == ':' || c == '='
}

/// `s` with every `'` replaced by `'\''`.
pub open spec fn quote_escaped(s: Seq<char>) -> Seq<char>
    decreases s.len(),
{
    if s.len() == 0 {
        Seq::empty()
    } else {
        quote_escaped(s.drop_last()) + if s.last() == '\'' {
            seq!['\'', '\\', '\'', '\'']
        } else {
            seq![s.last()]
        }
    }
}

/// A value as one shell word: unchanged when every character is safe,
/// else single-quoted with embedded quotes escaped.
pub open spec fn shell_word(s: Seq<char>) -> Seq<char> {
    if forall|i: int| 0 <= i < s.len() ==> shell_safe(#[trigger] s[i]) {
        s
    } else {
        seq!['\''] + quote_escaped(s) + seq!['\'']
    }
}

/// Does `c` need no quoting?
fn shell_safe_exec(c: char) -> (b: bool)
    ensures
        b == shell_safe(c),
{
    ('a' <= c && c <= 'z') || ('A' <= c && c <= 'Z') || ('0' <= c && c <= '9') || c == '-' || c == '_'
        || c == '.' || c == '/' || c == ':' || c == '='
}

/// Writes `value` as one shell word, quoting it when needed.
pub fn shell_escape(value: &str) -> (s: String)
    ensures
        s@ == shell_word(value@),
{
    let v = chars_of(value);
    let mut i: usize = 0;
    let mut safe = true;
    while i < v.len()
        invariant
            i <= v@.len(),
            v@ == value@,
            safe == forall|j: int| 0 <= j < i ==> shell_safe(#[trigger] v@[j]),
        decreases v@.len() - i,
    {
        if !shell_safe_exec(v[i]) {
            safe = false;
        }
        i = i + 1;
    }
    if safe {
        return value.to_string();
    }
    let mut out: Vec<char> = Vec::new();
    out.push('\'');
    let mut k: usize = 0;
    while k < v.len()
        invariant
            k <= v@.len(),
            v@ == value@,
            out@ == seq!['\''] + quote_escaped(v@.take(k as int)),
        decreases v@.len() - k,
    {
        assert(v@.take(k + 1).drop_last() =~= v@.take(k as int));
        if v[k] == '\'' {
            out.push('\'');
            out.push('\\');
            out.push('\'');
            out.push('\'');
        } else {
            out.push(v[k]);
        }
        k = k + 1;
        assert(out@ =~= seq!['\''] + quote_escaped(v@.take(k as int)));
    }
    out.push('\'');
    assert(v@.take(v@.len() as int) =~= v@);
    assert(out@ =~= seq!['\''] + quote_escaped(value@) + seq!['\'']);
    string_from_chars(out.as_slice())
}

/// The words of a command line joined by single spaces.
pub open spec fn joined_words(words: Seq<Seq<char>>) -> Seq<char>
    decreases words.len(),
{
    if words.len() == 0 {
        Seq::empty()
    } else if words.len() == 1 {
        words[0]
    } else {
        joined_words(words.drop_last()) + seq![' '] + words.last()
    }
}

/// A command line for display: the program and its arguments, each as a
/// shell word, separated by spaces.
pub fn shell_display(program: &str, args: &[String]) -> (s: String)
    ensures
        s@ == joined_words(seq![shell_word(program@)] + args@.map_values(|a: String| shell_word(a@))),
{
    let ghost words = seq![shell_word(program@)] + args@.map_values(|a: String| shell_word(a@));
    let first = shell_escape(program);
    let mut out: Vec<char> = Vec::new();
    push_str(&mut out, first.as_str());
    assert(words.take(1) =~= seq![shell_word(program@)]);
    assert(out@ =~= joined_words(words.take(1)));
    let mut i: usize = 0;
    while i < args.len()
        invariant
            i <= args@.len(),
            words == seq![shell_word(program@)] + args@.map_values(|a: String| shell_word(a@)),
            out@ == joined_words(words.take(i + 1)),
        decreases args@.len() - i,
    {
        let w = shell_escape(args[i].as_str());
        out.push(' ');
        push_str(&mut out, w.as_str());
        assert(words.take(i + 2).drop_last() =~= words.take(i + 1));
        assert(words.take(i + 2).last() == shell_word(args@[i as int]@));
        i = i + 1;
        assert(out@ =~= joined_words(words.take(i + 1)));
    }
    assert(words.take(args@.len() + 1 as int) =~= words);
    string_from_chars(out.as_slice())
}

/// The installer script address for Unix systems.
pub open spec fn install_sh_url() -> Seq<char> {
    "https://raw.githubusercontent.com/temoorx/asset-squeeze/main/install.sh"@
}

/// The installer script address for Windows.
pub open spec fn install_ps1_url() -> Seq<char> {
    "https://raw.githubusercontent.com/temoorx/asset-squeeze/main/install.ps1"@
}

/// The program and arguments that update the tool to the latest release:
/// the PowerShell installer on Windows, the shell installer on Unix, and
/// none elsewhere.
pub fn update_command(windows: bool, unix: bool) -> (r: Option<(String, Vec<String>)>)
    ensures
        windows ==> (r matches Some((program, args)) && program@ == "powershell"@ && args@.map_values(
            |a: String| a@,
        ) == seq![
            "-NoProfile"@,
            "-ExecutionPolicy"@,
            "Bypass"@,
            "-Command"@,
            "irm "@ + install_ps1_url() + " | iex"@,
        ]),
        !windows && unix ==> (r matches Some((program, args)) && program@ == "sh"@ && args@.map_values(
            |a: String| a@,
        ) == seq!["-c"@, "curl -fsSL "@ + install_sh_url() + " | sh"@]),
        !windows && !unix ==> r is None,
{
    if windows {
        let mut script: Vec<char> = Vec::new();
        push_str(&mut script, "irm ");
        push_str(&mut script, "https://raw.githubusercontent.com/temoorx/asset-squeeze/main/install.ps1");
        push_str(&mut script, " | iex");
        let args = vec![
            "-NoProfile".to_string(),
            "-ExecutionPolicy".to_string(),
            "Bypass".to_string(),
            "-Command".to_string(),
            string_from_chars(script.as_slice()),
        ];
        assert(args@.map_values(|a: String| a@) =~= seq![
            "-NoProfile"@,
            "-ExecutionPolicy"@,
            "Bypass"@,
            "-Command"@,
            "irm "@ + install_ps1_url() + " | iex"@,
        ]);
        Some(("powershell".to_string(), args))
    } else if unix {
        let mut script: Vec<char> = Vec::new();
        push_str(&mut script, "curl -fsSL ");
        push_str(&mut script, "https://raw.githubusercontent.com/temoorx/asset-squeeze/main/install.sh");
        push_str(&mut script, " | sh");
        let args = vec!["-c".to_string(), string_from_chars(script.as_slice())];
        assert(args@.map_values(|a: String| a@) =~= seq!["-c"@, "curl -fsSL "@ + install_sh_url() + " | sh"@]);
        Some(("sh".to_string(), args))
    } else {
        None
    }
}

/// The places, in order, where a bundled copy of a tool may sit next to
/// the executable: the executable's directory, its `bin`, its `vendor/bin`,
/// and the platform's directory under `vendor/bin`.
pub fn bundled_tool_candidates(exe_dir: &str, binary_name: &str, platform_dir: &str) -> (r: Vec<String>)
    ensures
        r@.map_values(|s: String| s@) == seq![
            join_path(exe_dir@, binary_name@),
            join_path(join_path(exe_dir@, "bin"@), binary_name@),
            join_path(join_path(join_path(exe_dir@, "vendor"@), "bin"@), binary_name@),
            join_path(join_path(join_path(join_path(exe_dir@, "vendor"@), "bin"@), platform_dir@), binary_name@),
        ],
{
    let a = join(exe_dir, binary_name);
    let bin = join(exe_dir, "bin");
    let b = join(bin.as_str(), binary_name);
    let vendor = join(exe_dir, "vendor");
    let vendor_bin = join(vendor.as_str(), "bin");
    let c = join(vendor_bin.as_str(), binary_name);
    let platform = join(vendor_bin.as_str(), platform_dir);
    let d = join(platform.as_str(), binary_name);
    let r = vec![a, b, c, d];
    assert(r@.map_values(|s: String| s@) =~= seq![
        join_path(exe_dir@, binary_name@),
        join_path(join_path(exe_dir@, "bin"@), binary_name@),
        join_path(join_path(join_path(exe_dir@, "vendor"@), "bin"@), binary_name@),
        join_path(join_path(join_path(join_path(exe_dir@, "vendor"@), "bin"@), platform_dir@), binary_name@),
    ]);
    r
}

/// Finds a tool: a bundled copy when there is one, else one on the search
/// path. The search path is looked at only when no bundled copy is found.
pub fn find_tool<B, P>(binary: &str, find_bundled: B, find_on_path: P) -> (r: Option<String>) where
    B: Fn(&str) -> Option<String>,
    P: Fn(&str) -> Option<String>,

    requires
        call_requires(find_bundled, (binary,)),
        call_requires(find_on_path, (binary,)),
    ensures
        (r is Some && call_ensures(find_bundled, (binary,), r)) || (call_ensures(
            find_bundled,
            (binary,),
            None,
        ) && call_ensures(find_on_path, (binary,), r)),
{
    match find_bundled(binary) {
        Some(path) => Some(path),
        None => find_on_path(binary),
    }
}

/// The external programs used for JPEG and lossy WebP work, where found.
#[derive(Debug)]
pub struct Backends {
    pub jpegtran: Option<String>,
    pub cjpeg: Option<String>,
    pub djpeg: Option<String>,
    pub cwebp: Option<String>,
    pub dwebp: Option<String>,
}

impl Backends {
    /// Looks each backend program up with `find`.
    pub fn discover<F>(find: F) -> (b: Backends) where F: Fn(&str) -> Option<String>
        requires
            forall|name: &str| call_requires(find, (name,)),
        ensures
            call_ensures(find, ("jpegtran",), b.jpegtran),
            call_ensures(find, ("cjpeg",), b.cjpeg),
            call_ensures(find, ("djpeg",), b.djpeg),
            call_ensures(find, ("cwebp",), b.cwebp),
            call_ensures(find, ("dwebp",), b.dwebp),
    {
        Backends {
            jpegtran: find("jpegtran"),
            cjpeg: find("cjpeg"),
            djpeg: find("djpeg"),
            cwebp: find("cwebp"),
            dwebp: find("dwebp"),
        }
    }
}

proof fn lemma_scan_push(s: Seq<char>, c: char, k: int, acc: int, limit: int, overflow: QualityError)
    requires
        0 <= k <= s.len(),
    ensures
        scan_digits(s.push(c), k, acc, limit, overflow) == match scan_digits(s, k, acc, limit, overflow) {
            Ok(m) => scan_digits(seq![c], 0, m, limit, overflow),
            Err(e) => Err(e),
        },
    decreases s.len() - k,
{
    if k < s.len() {
        assert(s.push(c)[k] == s[k]);
        if is_digit(s[k]) && acc * 10 + digit_value(s[k]) <= limit {
            lemma_scan_push(s, c, k + 1, acc * 10 + digit_value(s[k]), limit, overflow);
        }
    } else {
        let t = s.push(c);
        let one = seq![c];
        assert(t[k] == c);
        assert(one[0] == c);
        if is_digit(c) && acc * 10 + digit_value(c) <= limit {
            let x = acc * 10 + digit_value(c);
            assert(scan_digits(t, k + 1, x, limit, overflow) == Ok::<int, QualityError>(x));
            assert(scan_digits(one, 1, x, limit, overflow) == Ok::<int, QualityError>(x));
        }
    }
}

proof fn lemma_decimal_digits(n: nat)
    ensures
        decimal_seq(n).len() >= 1,
        forall|i: int| 0 <= i < decimal_seq(n).len() ==> is_digit(#[trigger] decimal_seq(n)[i]),
    decreases n,
{
    if n >= 10 {
        lemma_decimal_digits(n / 10);
        let p = decimal_seq(n / 10);
        assert forall|i: int| 0 <= i < decimal_seq(n).len() implies is_digit(#[trigger] decimal_seq(n)[i]) by {
            if i < p.len() {
                assert(decimal_seq(n)[i] == p[i]);
            }
        }
    }
}

proof fn lemma_scan_decimal(n: nat, limit: int, overflow: QualityError)
    requires
        n <= limit,
    ensures
        scan_digits(decimal_seq(n), 0, 0, limit, overflow) == Ok::<int, QualityError>(n as int),
    decreases n,
{
    if n < 10 {
        let one = seq![digit_char(n)];
        assert(decimal_seq(n) =~= one);
        assert(digit_char(n) as int == n + 48);
        assert(digit_value(digit_char(n)) == n);
        assert(is_digit(one[0]));
        assert(scan_digits(one, 1, n as int, limit, overflow) == Ok::<int, QualityError>(n as int));
    } else {
        lemma_scan_decimal(n / 10, limit, overflow);
        lemma_scan_push(decimal_seq(n / 10), digit_char(n % 10), 0, 0, limit, overflow);
        let d = digit_char(n % 10);
        let one = seq![d];
        assert(d as int == n % 10 + 48);
        assert(digit_value(d) == n % 10);
        assert(one[0] == d);
        assert(is_digit(d));
        assert((n / 10) * 10 + n % 10 == n);
        assert(scan_digits(one, 1, n as int, limit, overflow) == Ok::<int, QualityError>(n as int));
    }
}

/// Reading back the decimal text of a non-negative 64-bit integer gives the
/// integer: `n.to_string().parse::<i64>()` is `n`.
pub proof fn lemma_parse_decimal_roundtrip(n: nat)
    requires
        n <= i64::MAX,
    ensures
        parse_i64(decimal_seq(n)) == Ok::<int, QualityError>(n as int),
{
    lemma_decimal_digits(n);
    lemma_scan_decimal(n, i64::MAX as int, QualityError::PosOverflow);
    let s = decimal_seq(n);
    assert(is_digit(s[0]));
}

/// Every quality from 1 to 100, written in decimal, is accepted as itself.
pub proof fn lemma_quality_roundtrip(q: u8)
    requires
        1 <= q <= 100,
    ensures
        quality_value(decimal_seq(q as nat)) == Ok::<u8, QualityError>(q),
{
    lemma_parse_decimal_roundtrip(q as nat);
}

/// Only qualities from 1 to 100 are ever accepted.
pub proof fn lemma_quality_in_range(s: Seq<char>)
    ensures
        quality_value(s) matches Ok(q) ==> 1 <= q <= 100,
{
}

/// What a POSIX shell makes of the word `w`, read from an unquoted (or,
/// when `quoted`, a single-quoted) state: characters between single quotes
/// stand for themselves, a backslash outside quotes escapes the next
/// character, and outside quotes only characters that need no quoting may
/// stand alone. None when the word would not be read as one literal word.
pub open spec fn sh_unquoted(w: Seq<char>, quoted: bool) -> Option<Seq<char>>
    decreases w.len(),
{
    if w.len() == 0 {
        if quoted {
            None
        } else {
            Some(Seq::empty())
        }
    } else if quoted {
        if w[0] == '\'' {
            sh_unquoted(w.skip(1), false)
        } else {
            match sh_unquoted(w.skip(1), true) {
                Some(r) => Some(seq![w[0]] + r),
                None => None,
            }
        }
    } else if w[0] == '\'' {
        sh_unquoted(w.skip(1), true)
    } else if w[0] == '\\' && w.len() >= 2 {
        match sh_unquoted(w.skip(2), false) {
            Some(r) => Some(seq![w[1]] + r),
            None => None,
        }
    } else if shell_safe(w[0]) {
        match sh_unquoted(w.skip(1), false) {
            Some(r) => Some(seq![w[0]] + r),
            None => None,
        }
    } else {
        None
    }
}

/// How one character is written inside single quotes.
pub open spec fn quote_escaped_char(c: char) -> Seq<char> {
    if c == '\'' {
        seq!['\'', '\\', '\'', '\'']
    } else {
        seq![c]
    }
}

proof fn lemma_quote_escaped_cons(c: char, t: Seq<char>)
    ensures
        quote_escaped(seq![c] + t) == quote_escaped_char(c) + quote_escaped(t),
    decreases t.len(),
{
    let s = seq![c] + t;
    if t.len() == 0 {
        assert(s =~= seq![c]);
        assert(s.drop_last() =~= Seq::<char>::empty());
        assert(quote_escaped(Seq::<char>::empty()) == Seq::<char>::empty());
        assert(t =~= Seq::<char>::empty());
        assert(quote_escaped(s) =~= quote_escaped_char(c) + quote_escaped(t));
    } else {
        lemma_quote_escaped_cons(c, t.drop_last());
        assert(s.drop_last() =~= seq![c] + t.drop_last());
        assert(s.last() == t.last());
        let tail = if t.last() == '\'' {
            seq!['\'', '\\', '\'', '\'']
        } else {
            seq![t.last()]
        };
        assert(quote_escaped(s) == quote_escaped(s.drop_last()) + tail);
        assert(quote_escaped(t) == quote_escaped(t.drop_last()) + tail);
        assert(quote_escaped_char(c) + quote_escaped(t.drop_last()) + tail =~= quote_escaped_char(c) + (
        quote_escaped(t.drop_last()) + tail));
    }
}

#[verifier::spinoff_prover]
proof fn lemma_unquote_quoted(s: Seq<char>, rest: Seq<char>)
    ensures
        sh_unquoted(quote_escaped(s) + seq!['\''] + rest, true) == match sh_unquoted(rest, false) {
            Some(r) => Some(s + r),
            None => None::<Seq<char>>,
        },
    decreases s.len(),
{
    if s.len() == 0 {
        assert(quote_escaped(s) =~= Seq::<char>::empty());
        let w = quote_escaped(s) + seq!['\''] + rest;
        assert(w[0] == '\'');
        assert(w.skip(1) =~= rest);
        assert(s + Seq::<char>::empty() =~= s);
        match sh_unquoted(rest, false) {
            Some(r) => assert(s + r =~= r),
            None => {},
        }
    } else {
        let c = s[0];
        let t = s.skip(1);
        assert(s =~= seq![c] + t);
        lemma_quote_escaped_cons(c, t);
        lemma_unquote_quoted(t, rest);
        let inner = quote_escaped(t) + seq!['\''] + rest;
        let w = quote_escaped(s) + seq!['\''] + rest;
        if c == '\'' {
            assert(w =~= seq!['\'', '\\', '\'', '\''] + inner);
            let w1 = w.skip(1);
            let w3 = w1.skip(2);
            assert(w1 =~= seq!['\\', '\'', '\''] + inner);
            assert(w3 =~= seq!['\''] + inner);
            assert(w3.skip(1) =~= inner);
            assert(sh_unquoted(w, true) == sh_unquoted(w1, false));
            assert(w1[0] == '\\' && w1[1] == '\'');
            assert(sh_unquoted(w1, false) == match sh_unquoted(w3, false) {
                Some(r) => Some(seq!['\''] + r),
                None => None::<Seq<char>>,
            });
            assert(w3[0] == '\'');
            assert(sh_unquoted(w3, false) == sh_unquoted(inner, true));
            match sh_unquoted(rest, false) {
                Some(r) => assert(seq!['\''] + (t + r) =~= s + r),
                None => {},
            }
        } else {
            assert(w =~= seq![c] + inner);
            assert(w.skip(1) =~= inner);
            assert(w[0] == c);
            assert(sh_unquoted(w, true) == match sh_unquoted(inner, true) {
                Some(r) => Some(seq![c] + r),
                None => None::<Seq<char>>,
            });
            match sh_unquoted(rest, false) {
                Some(r) => assert(seq![c] + (t + r) =~= s + r),
                None => {},
            }
        }
    }
}

proof fn lemma_unquote_safe(s: Seq<char>)
    requires
        forall|i: int| 0 <= i < s.len() ==> shell_safe(#[trigger] s[i]),
    ensures
        sh_unquoted(s, false) == Some(s),
    decreases s.len(),
{
    if s.len() > 0 {
        assert forall|i: int| 0 <= i < s.skip(1).len() implies shell_safe(#[trigger] s.skip(1)[i]) by {
            assert(s.skip(1)[i] == s[i + 1]);
        }
        lemma_unquote_safe(s.skip(1));
        assert(shell_safe(s[0]));
        assert(seq![s[0]] + s.skip(1) =~= s);
    }
}

/// A shell reads the word written for a value back as exactly that value:
/// displayed commands can be pasted into a shell as they are.
pub proof fn lemma_shell_word_roundtrip(s: Seq<char>)
    ensures
        sh_unquoted(shell_word(s), false) == Some(s),
{
    if forall|i: int| 0 <= i < s.len() ==> shell_safe(#[trigger] s[i]) {
        lemma_unquote_safe(s);
    } else {
        let w = seq!['\''] + quote_escaped(s) + seq!['\''];
        assert(w[0] == '\'');
        assert(w.skip(1) =~= quote_escaped(s) + seq!['\''] + Seq::<char>::empty());
        lemma_unquote_quoted(s, Seq::empty());
        assert(s + Seq::<char>::empty() =~= s);
    }
}

/// A `--quality` value is accepted exactly when it parses as an integer
/// from 1 to 100, and then it is that integer; a parsed integer outside
/// that range is refused with the integer named.
pub proof fn lemma_quality_range(s: Seq<char>)
    ensures
        quality_value(s) matches Ok(q) ==> 1 <= q <= 100 && parse_i64(s) == Ok::<int, QualityError>(q as int),
        match parse_i64(s) {
            Ok(v) => if 1 <= v <= 100 {
                quality_value(s) == Ok::<u8, QualityError>(v as u8)
            } else {
                quality_value(s) is Err
            },
            Err(_) => quality_value(s) is Err,
        },
{
}

} // verus!
