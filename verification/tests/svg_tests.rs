use asset_squeeze::kinds::StripPolicy;
use asset_squeeze::svg::{
    check_svg_root, collapse_intertag_whitespace, compare_svg_roots, optimize_svg_text, remove_xml_comments,
    validate_svg_candidate, validate_svg_input, SvgError,
};

#[test]
fn optimizes_simple_svg_text() {
    let input = r#"
<svg xmlns="http://www.w3.org/2000/svg" viewBox="0 0 10 10">
  <!-- editor metadata -->
  <path d="M0 0h10v10H0z"/>
</svg>
"#;

    let output = optimize_svg_text(input, &StripPolicy::Safe).unwrap();

    assert!(!output.contains("editor metadata"));
    assert!(!output.contains(">\n"));
    assert!(output.len() < input.len());
    assert!(roxmltree::Document::parse(&output).is_ok());
}

#[test]
fn skips_svg_text_nodes_for_safety() {
    let input = r#"<svg xmlns="http://www.w3.org/2000/svg"><text>Hello</text></svg>"#;
    let error = optimize_svg_text(input, &StripPolicy::Safe).unwrap_err();

    assert!(error.message().contains("<text"));
}

#[test]
fn keep_policy_leaves_comments() {
    let input = "<svg xmlns=\"http://www.w3.org/2000/svg\">\n  <!-- note -->\n  <g/>\n</svg>";
    let output = optimize_svg_text(input, &StripPolicy::Keep).unwrap();
    assert_eq!(output, "<svg xmlns=\"http://www.w3.org/2000/svg\"><!-- note --><g/></svg>");
}

#[test]
fn risky_markers_are_found_in_any_case() {
    let input = "<svg xmlns=\"http://www.w3.org/2000/svg\"><SCRIPT>x</SCRIPT></svg>";
    match validate_svg_input(input) {
        Err(SvgError::Risky(marker)) => assert_eq!(marker, "<script"),
        other => panic!("unexpected result {other:?}"),
    }
    let spaced = "<svg xmlns=\"http://www.w3.org/2000/svg\" xml:space=\"preserve\"/>";
    assert_eq!(
        optimize_svg_text(spaced, &StripPolicy::Safe).unwrap_err().message(),
        "SVG contains xml:space; skipped for safety"
    );
}

#[test]
fn rejects_documents_that_are_not_svg() {
    assert!(matches!(validate_svg_input("<html></html>"), Err(SvgError::RootNotSvg)));
    match validate_svg_input("<svg>") {
        Err(SvgError::InvalidXml(message)) => assert!(!message.is_empty()),
        other => panic!("unexpected result {other:?}"),
    }
    assert_eq!(SvgError::RootNotSvg.message(), "root element is not <svg>");
}

#[test]
fn candidates_must_keep_the_root_element() {
    assert!(validate_svg_candidate("<svg/>", "<svg></svg>").is_ok());
    assert!(matches!(validate_svg_candidate("<svg/>", "<g/>"), Err(SvgError::RootChanged)));
    assert!(matches!(
        validate_svg_candidate("<svg/>", "<svg>"),
        Err(SvgError::InvalidOptimizedXml(_))
    ));
    assert!(matches!(
        validate_svg_candidate("<svg", "<svg/>"),
        Err(SvgError::InvalidOriginalXml(_))
    ));
}

#[test]
fn comments_are_removed_and_unclosed_ones_refused() {
    assert_eq!(remove_xml_comments("a<!-- b -->c<!---->d").unwrap(), "acd");
    assert!(matches!(remove_xml_comments("a<!-- b"), Err(SvgError::UnclosedComment)));
    assert_eq!(
        SvgError::UnclosedComment.message(),
        "SVG contains an unclosed XML comment"
    );
}

#[test]
fn only_white_space_between_tags_is_collapsed() {
    assert_eq!(collapse_intertag_whitespace("<a>\n  <b> x </b>  \n</a>"), "<a><b> x </b></a>");
    assert_eq!(collapse_intertag_whitespace("<a> text\t<b/>"), "<a> text\t<b/>");
    assert_eq!(collapse_intertag_whitespace("<a>  "), "<a>  ");
}

#[test]
fn optimizing_never_lengthens() {
    let input = "  <svg xmlns=\"http://www.w3.org/2000/svg\">  <g/>  </svg>  ";
    let output = optimize_svg_text(input, &StripPolicy::All).unwrap();
    assert_eq!(output, "<svg xmlns=\"http://www.w3.org/2000/svg\"><g/></svg>");
    assert!(output.len() <= input.len());
}

#[test]
fn parse_results_are_judged_by_their_root() {
    let svg = || Ok(("svg".to_string(), Some("http://www.w3.org/2000/svg".to_string())));
    assert!(check_svg_root(svg()).is_ok());
    assert!(matches!(check_svg_root(Ok(("g".to_string(), None))), Err(SvgError::RootNotSvg)));
    match check_svg_root(Err("unexpected end of stream".to_string())) {
        Err(err) => assert_eq!(err.message(), "invalid SVG XML: unexpected end of stream"),
        Ok(()) => panic!("a parse error must refuse the SVG"),
    }

    assert!(compare_svg_roots(svg(), svg()).is_ok());
    assert!(matches!(compare_svg_roots(svg(), Ok(("svg".to_string(), None))), Err(SvgError::RootChanged)));
    match compare_svg_roots(svg(), Err("bad".to_string())) {
        Err(err) => assert_eq!(err.message(), "optimized SVG is invalid XML: bad"),
        Ok(()) => panic!("an unparsable candidate must be refused"),
    }
    match compare_svg_roots(Err("worse".to_string()), Err("bad".to_string())) {
        Err(err) => assert_eq!(err.message(), "invalid original SVG XML: worse"),
        Ok(()) => panic!("an unparsable original must be refused"),
    }
}

#[test]
fn collapsing_twice_changes_nothing_more() {
    for input in ["<a>\n  <b> x </b>  \n</a>", "> \t<", "<a> text\t<b/>", "<a>  ", "> > <", ""] {
        let once = collapse_intertag_whitespace(input);
        assert!(once.len() <= input.len(), "{input:?}");
        assert_eq!(collapse_intertag_whitespace(&once), once, "{input:?}");
    }
    assert_eq!(collapse_intertag_whitespace("> > <"), "> ><");
}
