use asset_squeeze::cli::{
    backend_failure_message, backend_pair_label, backend_start_failure, bundled_tool_candidates, check_level,
    cwebp_metadata_arg, find_tool, jpegtran_copy_arg, parse_quality, platform_binary_name, shell_display,
    shell_escape, update_command, Backends, QualityError,
};
use asset_squeeze::kinds::StripPolicy;

#[test]
fn validates_lossy_quality_range() {
    let valid = parse_quality("60");
    let invalid = parse_quality("0");

    assert!(valid.is_ok());
    assert!(invalid.is_err());
}

#[test]
fn quality_values_parse_like_signed_integers() {
    assert_eq!(parse_quality("1"), Ok(1));
    assert_eq!(parse_quality("100"), Ok(100));
    assert_eq!(parse_quality("+42"), Ok(42));
    assert_eq!(parse_quality("007"), Ok(7));
    assert_eq!(parse_quality("101"), Err(QualityError::OutOfRange(101)));
    assert_eq!(parse_quality("-5"), Err(QualityError::OutOfRange(-5)));
    assert_eq!(parse_quality("-0"), Err(QualityError::OutOfRange(0)));
    assert_eq!(parse_quality(""), Err(QualityError::Empty));
    assert_eq!(parse_quality("+"), Err(QualityError::InvalidDigit));
    assert_eq!(parse_quality("5 "), Err(QualityError::InvalidDigit));
    assert_eq!(parse_quality("1e2"), Err(QualityError::InvalidDigit));
    assert_eq!(parse_quality("9223372036854775807"), Err(QualityError::OutOfRange(i64::MAX)));
    assert_eq!(parse_quality("9223372036854775808"), Err(QualityError::PosOverflow));
    assert_eq!(parse_quality("-9223372036854775808"), Err(QualityError::OutOfRange(i64::MIN)));
    assert_eq!(parse_quality("-9223372036854775809"), Err(QualityError::NegOverflow));
    assert_eq!(parse_quality("99999999999999999999x"), Err(QualityError::PosOverflow));
}

#[test]
fn every_quality_round_trips_through_its_decimal_text() {
    for q in 1..=100u8 {
        assert_eq!(parse_quality(&q.to_string()), Ok(q));
    }
}

#[test]
fn quality_errors_read_like_the_option_parser() {
    assert_eq!(QualityError::OutOfRange(0).message(), "0 is not in 1..=100");
    assert_eq!(QualityError::OutOfRange(-12).message(), "-12 is not in 1..=100");
    assert_eq!(
        QualityError::OutOfRange(i64::MIN).message(),
        "-9223372036854775808 is not in 1..=100"
    );
    assert_eq!(QualityError::InvalidDigit.message(), "invalid digit found in string");
    assert_eq!(QualityError::Empty.message(), "cannot parse integer from empty string");
    assert_eq!(QualityError::PosOverflow.message(), "number too large to fit in target type");
    assert_eq!(QualityError::NegOverflow.message(), "number too small to fit in target type");
    assert_eq!("x".parse::<i64>().unwrap_err().to_string(), QualityError::InvalidDigit.message());
}

#[test]
fn level_is_at_most_six() {
    assert!(check_level(0).is_ok());
    assert!(check_level(6).is_ok());
    assert_eq!(check_level(7), Err("--level must be between 0 and 6".to_string()));
}

#[test]
fn backend_arguments_follow_the_strip_policy() {
    assert_eq!(jpegtran_copy_arg(StripPolicy::Keep), "all");
    assert_eq!(jpegtran_copy_arg(StripPolicy::Safe), "icc");
    assert_eq!(jpegtran_copy_arg(StripPolicy::All), "none");
    assert_eq!(cwebp_metadata_arg(StripPolicy::Keep), "all");
    assert_eq!(cwebp_metadata_arg(StripPolicy::Safe), "icc");
    assert_eq!(cwebp_metadata_arg(StripPolicy::All), "none");
}

#[test]
fn backend_failures_are_described() {
    assert_eq!(backend_failure_message("djpeg", "  bad input \n", "exit status: 1"), "bad input");
    assert_eq!(
        backend_failure_message("djpeg", " \n\t", "exit status: 1"),
        "djpeg exited with exit status: 1"
    );
    assert_eq!(backend_start_failure("cwebp", "not found"), "failed to start cwebp: not found");
}

#[test]
fn labels_backend_pairs() {
    let d = Some("/bin/djpeg".to_string());
    let e = Some("/bin/cjpeg".to_string());
    assert_eq!(backend_pair_label(&d, &e), "/bin/djpeg + /bin/cjpeg");
    assert_eq!(backend_pair_label(&d, &None), "not found");
    assert_eq!(backend_pair_label(&None, &e), "not found");
}

#[test]
fn names_platform_binaries() {
    assert_eq!(platform_binary_name("jpegtran", true), "jpegtran.exe");
    assert_eq!(platform_binary_name("jpegtran", false), "jpegtran");
}

#[test]
fn builds_update_command_for_current_platform() {
    let (program, args) = update_command(false, true).expect("supported updater platform");
    let display = shell_display(&program, &args);
    assert!(display.contains("curl"));
    assert!(display.contains("install.sh"));
    assert_eq!(
        display,
        "sh -c 'curl -fsSL https://raw.githubusercontent.com/temoorx/asset-squeeze/main/install.sh | sh'"
    );

    let (program, args) = update_command(true, false).expect("supported updater platform");
    let display = shell_display(&program, &args);
    assert!(display.contains("powershell"));
    assert!(display.contains("install.ps1"));

    assert!(update_command(false, false).is_none());
}

#[test]
fn shell_words_are_quoted_only_when_needed() {
    assert_eq!(shell_escape("a-b_c.d/e:f=g"), "a-b_c.d/e:f=g");
    assert_eq!(shell_escape("two words"), "'two words'");
    assert_eq!(shell_escape("it's"), r#"'it'\''s'"#);
    assert_eq!(shell_escape(""), "");
    assert_eq!(shell_display("echo", &[]), "echo");
}

#[test]
fn bundled_tools_are_searched_next_to_the_executable() {
    let candidates = bundled_tool_candidates("/opt/app", "jpegtran", "linux-x86_64");
    assert_eq!(
        candidates,
        vec![
            "/opt/app/jpegtran",
            "/opt/app/bin/jpegtran",
            "/opt/app/vendor/bin/jpegtran",
            "/opt/app/vendor/bin/linux-x86_64/jpegtran",
        ]
    );
}

#[test]
fn the_search_path_is_a_fallback() {
    let found = find_tool("jpegtran", |_: &str| Some("/bundled/jpegtran".to_string()), |_: &str| {
        panic!("the search path is not consulted when a bundled copy exists")
    });
    assert_eq!(found, Some("/bundled/jpegtran".to_string()));

    let on_path = find_tool("cjpeg", |_: &str| None, |name: &str| Some(format!("/usr/bin/{name}")));
    assert_eq!(on_path, Some("/usr/bin/cjpeg".to_string()));

    assert_eq!(find_tool("djpeg", |_: &str| None, |_: &str| None), None);
}

#[test]
fn backends_are_looked_up_by_program_name() {
    let backends = Backends::discover(|name: &str| {
        if name.starts_with('c') {
            Some(format!("/tools/{name}"))
        } else {
            None
        }
    });
    assert_eq!(backends.jpegtran, None);
    assert_eq!(backends.djpeg, None);
    assert_eq!(backends.dwebp, None);
    assert_eq!(backends.cjpeg, Some("/tools/cjpeg".to_string()));
    assert_eq!(backends.cwebp, Some("/tools/cwebp".to_string()));
}
