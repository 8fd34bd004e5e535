use kdl::parse_document;
use kdl::render_document;
use kdl::ContextLabel;
use kdl::IntIssue;
use kdl::KdlErrorKind;
use kdl::KdlParseError;
use kdl::KdlScalar;

#[test]
fn round_trip_simple_document() {
    let doc = parse_document("server port=8080 { tls enabled=true }").unwrap();
    let text = render_document(&doc);
    let again = parse_document(&text).unwrap();
    assert_eq!(doc, again);
}

#[test]
fn round_trip_canonical_text() {
    let doc = parse_document("server port=8080 { tls enabled=true }").unwrap();
    assert_eq!(render_document(&doc), "server port=8080 {tls enabled=true;};");
}

#[test]
fn round_trip_quoted_names_and_escapes() {
    let doc = parse_document("\"a b\" \"x\\\"y\" k=\"v w\" \"true\"=null").unwrap();
    let text = render_document(&doc);
    let again = parse_document(&text).unwrap();
    assert_eq!(doc, again);
}

#[test]
fn round_trip_values_and_children() {
    let src = "a 1 -2 0x10 1.5e2 true null k=\"s\" { b; (t)c (u)3; }";
    let doc = parse_document(src).unwrap();
    let text = render_document(&doc);
    let again = parse_document(&text).unwrap();
    assert_eq!(doc, again);
}

#[test]
fn round_trip_empty_document() {
    let doc = parse_document("").unwrap();
    assert_eq!(render_document(&doc), "");
}

#[test]
fn float_text_is_rendered_verbatim() {
    let doc = parse_document("n v=1.50e2").unwrap();
    assert_eq!(render_document(&doc), "n v=1.50e2;");
}

#[test]
fn grammar_mismatch_starts_unclassified() {
    let e = KdlParseError::from_grammar_mismatch(7);
    assert_eq!(e.offset, 7);
    assert_eq!(e.context, None);
    assert_eq!(e.kind, None);
    assert_eq!(e.cause(), KdlErrorKind::Other);
}

#[test]
fn first_label_wins_on_a_failure_path() {
    let e = KdlParseError::from_grammar_mismatch(3)
        .add_context(ContextLabel::Value)
        .add_context(ContextLabel::PropertyValue)
        .add_context(ContextLabel::NodeEntry);
    assert_eq!(e.context, Some(ContextLabel::Value));
    assert_eq!(e.cause(), KdlErrorKind::Context(ContextLabel::Value));
}

#[test]
fn conversion_cause_outranks_labels() {
    let e = KdlParseError::from_int_conversion(5, IntIssue::PosOverflow)
        .add_context(ContextLabel::Value)
        .add_context(ContextLabel::NodeEntry);
    assert_eq!(e.offset, 5);
    assert_eq!(e.cause(), KdlErrorKind::ParseIntError(IntIssue::PosOverflow));
}

#[test]
fn finalize_carries_the_input() {
    let e = KdlParseError::from_grammar_mismatch(2).add_context(ContextLabel::EndOfInput);
    let d = e.finalize("ab}");
    assert_eq!(d.input, "ab}");
    assert_eq!(d.offset, 2);
    assert_eq!(d.kind, KdlErrorKind::Context(ContextLabel::EndOfInput));
}

#[test]
fn conversions_read_matching_variants() {
    let doc = parse_document("n a=1 b=true c=\"s\" d=null").unwrap();
    let props = &doc.nodes[0].properties;
    assert_eq!(props[0].value.as_int().unwrap(), 1);
    assert!(props[1].value.as_bool().unwrap());
    assert_eq!(props[2].value.as_string().unwrap(), "s");
    assert!(props[3].value.as_null().is_ok());
}

#[test]
fn conversions_report_the_mismatch() {
    let doc = parse_document("n a=true b=1.5").unwrap();
    let props = &doc.nodes[0].properties;
    let e = props[0].value.as_int().unwrap_err();
    assert_eq!(e.expected, "integer");
    assert_eq!(e.variant, "boolean");
    let e = props[1].value.as_bool().unwrap_err();
    assert_eq!(e.expected, "boolean");
    assert_eq!(e.variant, "float");
    let e = props[0].value.as_string().unwrap_err();
    assert_eq!(e.expected, "string");
    assert_eq!(e.variant, "boolean");
    let e = props[1].value.as_null().unwrap_err();
    assert_eq!(e.expected, "null");
    assert_eq!(e.variant, "float");
}

#[test]
fn messages_follow_the_cause() {
    let err = parse_document("server port=abc").unwrap_err();
    assert_eq!(err.message(), "Expected a value.");
    let err = parse_document("n v=99999999999999999999").unwrap_err();
    assert_eq!(err.message(), "number too large to fit in target type");
    assert_eq!(
        KdlParseError::from_grammar_mismatch(0).cause().message(),
        "An unspecified error occurred."
    );
}

#[test]
fn negative_integers_render_with_sign() {
    let doc = parse_document("n -5 -9223372036854775808 0").unwrap();
    assert_eq!(render_document(&doc), "n -5 -9223372036854775808 0;");
    let vals = &doc.nodes[0].values;
    assert_eq!(vals[0].scalar, KdlScalar::Int(-5));
    assert_eq!(vals[1].scalar, KdlScalar::Int(i64::MIN));
    assert_eq!(vals[2].scalar, KdlScalar::Int(0));
}

#[test]
fn radix_literals_render_in_decimal() {
    let doc = parse_document("n 0x10").unwrap();
    let text = render_document(&doc);
    assert_eq!(text, "n 16;");
    let again = parse_document(&text).unwrap();
    assert_eq!(doc, again);
}

#[test]
fn keyword_like_names_render_quoted() {
    let doc = parse_document("\"null\" \"1x\"=2").unwrap();
    let text = render_document(&doc);
    assert_eq!(text, "\"null\" \"1x\"=2;");
    let again = parse_document(&text).unwrap();
    assert_eq!(doc, again);
}
