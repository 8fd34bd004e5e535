use kdl::parse_document;
use kdl::ContextLabel;
use kdl::FloatIssue;
use kdl::IntIssue;
use kdl::KdlErrorKind;
use kdl::KdlScalar;

#[test]
fn empty_input_gives_empty_document() {
    let doc = parse_document("").unwrap();
    assert_eq!(doc.nodes.len(), 0);
}

#[test]
fn whitespace_only_gives_empty_document() {
    let doc = parse_document("  \t\n\r\n  // nothing here\n/* or here */\n").unwrap();
    assert_eq!(doc.nodes.len(), 0);
}

#[test]
fn single_bare_node() {
    let doc = parse_document("server").unwrap();
    assert_eq!(doc.nodes.len(), 1);
    assert_eq!(doc.nodes[0].name, "server");
    assert!(doc.nodes[0].values.is_empty());
    assert!(doc.nodes[0].properties.is_empty());
    assert!(doc.nodes[0].children.is_none());
}

#[test]
fn example_server_block() {
    let doc = parse_document("server port=8080 { tls enabled=true }").unwrap();
    assert_eq!(doc.nodes.len(), 1);
    let server = &doc.nodes[0];
    assert_eq!(server.name, "server");
    assert_eq!(server.properties.len(), 1);
    assert_eq!(server.properties[0].name, "port");
    assert_eq!(server.properties[0].value.scalar, KdlScalar::Int(8080));
    let kids = server.children.as_ref().unwrap();
    assert_eq!(kids.len(), 1);
    let tls = &kids[0];
    assert_eq!(tls.name, "tls");
    assert_eq!(tls.properties.len(), 1);
    assert_eq!(tls.properties[0].name, "enabled");
    assert_eq!(tls.properties[0].value.scalar, KdlScalar::Bool(true));
}

#[test]
fn duplicate_property_keeps_last() {
    let doc = parse_document("node a=1 a=2").unwrap();
    let node = &doc.nodes[0];
    assert_eq!(node.properties.len(), 1);
    assert_eq!(node.properties[0].name, "a");
    assert_eq!(node.properties[0].value.scalar, KdlScalar::Int(2));
}

#[test]
fn malformed_value_reports_context_label() {
    let err = parse_document("server port=abc").unwrap_err();
    assert_eq!(err.offset, 12);
    assert_eq!(err.kind, KdlErrorKind::Context(ContextLabel::Value));
    assert_eq!(err.input, "server port=abc");
}

#[test]
fn integer_overflow_reports_conversion_failure() {
    let err = parse_document("server port=99999999999999999999").unwrap_err();
    assert_eq!(err.offset, 12);
    assert_eq!(err.kind, KdlErrorKind::ParseIntError(IntIssue::PosOverflow));
}

#[test]
fn negative_overflow_reports_conversion_failure() {
    let err = parse_document("n v=-99999999999999999999").unwrap_err();
    assert_eq!(err.offset, 4);
    assert_eq!(err.kind, KdlErrorKind::ParseIntError(IntIssue::NegOverflow));
}

#[test]
fn integer_bounds_parse_exactly() {
    let doc = parse_document("n a=9223372036854775807 b=-9223372036854775808").unwrap();
    let node = &doc.nodes[0];
    assert_eq!(node.properties[0].value.scalar, KdlScalar::Int(i64::MAX));
    assert_eq!(node.properties[1].value.scalar, KdlScalar::Int(i64::MIN));
}

#[test]
fn one_above_the_bound_overflows() {
    let err = parse_document("n v=9223372036854775808").unwrap_err();
    assert_eq!(err.kind, KdlErrorKind::ParseIntError(IntIssue::PosOverflow));
    let err = parse_document("n v=-9223372036854775809").unwrap_err();
    assert_eq!(err.kind, KdlErrorKind::ParseIntError(IntIssue::NegOverflow));
}

#[test]
fn radix_prefixed_integers() {
    let doc = parse_document("n 0x1F 0o17 0b101 -0x10").unwrap();
    let vals = &doc.nodes[0].values;
    assert_eq!(vals[0].scalar, KdlScalar::Int(31));
    assert_eq!(vals[1].scalar, KdlScalar::Int(15));
    assert_eq!(vals[2].scalar, KdlScalar::Int(5));
    assert_eq!(vals[3].scalar, KdlScalar::Int(-16));
}

#[test]
fn radix_prefix_without_digits_is_empty() {
    let err = parse_document("n v=0x").unwrap_err();
    assert_eq!(err.offset, 4);
    assert_eq!(err.kind, KdlErrorKind::ParseIntError(IntIssue::Empty));
}

#[test]
fn trailing_garbage_is_an_invalid_digit() {
    let err = parse_document("n v=12ab").unwrap_err();
    assert_eq!(err.offset, 4);
    assert_eq!(err.kind, KdlErrorKind::ParseIntError(IntIssue::InvalidDigit));
    let err = parse_document("n v=0b12").unwrap_err();
    assert_eq!(err.kind, KdlErrorKind::ParseIntError(IntIssue::InvalidDigit));
}

#[test]
fn float_literals_keep_their_text() {
    let doc = parse_document("n a=1.5 b=-2.5e-3 c=1e3").unwrap();
    let props = &doc.nodes[0].properties;
    assert_eq!(props[0].value.scalar, KdlScalar::Float("1.5".to_string()));
    assert_eq!(props[1].value.scalar, KdlScalar::Float("-2.5e-3".to_string()));
    assert_eq!(props[2].value.scalar, KdlScalar::Float("1e3".to_string()));
}

#[test]
fn malformed_float_reports_conversion_failure() {
    let err = parse_document("n v=1.5.2").unwrap_err();
    assert_eq!(err.offset, 4);
    assert_eq!(err.kind, KdlErrorKind::ParseFloatError(FloatIssue::Invalid));
    let err = parse_document("n v=1.").unwrap_err();
    assert_eq!(err.offset, 4);
    assert_eq!(err.kind, KdlErrorKind::ParseFloatError(FloatIssue::Invalid));
}

#[test]
fn string_escapes_are_resolved() {
    let doc = parse_document("n \"a\\nb\\\"c\\\\d\\te\"").unwrap();
    assert_eq!(
        doc.nodes[0].values[0].scalar,
        KdlScalar::Str("a\nb\"c\\d\te".to_string())
    );
}

#[test]
fn characters_outside_ascii_pass_through() {
    let doc = parse_document("n \"caf\u{e9}\" k=\"\u{3b1}\u{3b2}\"").unwrap();
    let node = &doc.nodes[0];
    assert_eq!(node.values[0].scalar, KdlScalar::Str("caf\u{e9}".to_string()));
    assert_eq!(
        node.properties[0].value.scalar,
        KdlScalar::Str("\u{3b1}\u{3b2}".to_string())
    );
}

#[test]
fn unterminated_string_is_labeled() {
    let err = parse_document("n \"abc").unwrap_err();
    assert_eq!(err.offset, 6);
    assert_eq!(err.kind, KdlErrorKind::Context(ContextLabel::StringLiteral));
}

#[test]
fn innermost_label_wins() {
    let err = parse_document("server port=").unwrap_err();
    assert_eq!(err.offset, 12);
    assert_eq!(err.kind, KdlErrorKind::Context(ContextLabel::Value));
}

#[test]
fn keyword_values() {
    let doc = parse_document("n true false null").unwrap();
    let vals = &doc.nodes[0].values;
    assert_eq!(vals[0].scalar, KdlScalar::Bool(true));
    assert_eq!(vals[1].scalar, KdlScalar::Bool(false));
    assert_eq!(vals[2].scalar, KdlScalar::Null);
}

#[test]
fn bare_word_is_no_value() {
    let err = parse_document("n abc").unwrap_err();
    assert_eq!(err.offset, 2);
    assert_eq!(err.kind, KdlErrorKind::Context(ContextLabel::NodeEntry));
}

#[test]
fn comments_are_skipped() {
    let doc = parse_document("a 1 // trailing comment\nb 2\n/* between */\nc 3").unwrap();
    assert_eq!(doc.nodes.len(), 3);
    assert_eq!(doc.nodes[1].name, "b");
    assert_eq!(doc.nodes[2].values[0].scalar, KdlScalar::Int(3));
}

#[test]
fn nested_children() {
    let doc = parse_document("a { b { c; }; d; }").unwrap();
    assert_eq!(doc.nodes.len(), 1);
    let a = &doc.nodes[0];
    let a_kids = a.children.as_ref().unwrap();
    assert_eq!(a_kids.len(), 2);
    let b_kids = a_kids[0].children.as_ref().unwrap();
    assert_eq!(b_kids[0].name, "c");
    assert_eq!(a_kids[1].name, "d");
}

#[test]
fn semicolons_separate_nodes() {
    let doc = parse_document("a; b; c").unwrap();
    assert_eq!(doc.nodes.len(), 3);
}

#[test]
fn quoted_and_bare_identifiers_agree() {
    let bare = parse_document("server 1").unwrap();
    let quoted = parse_document("\"server\" 1").unwrap();
    assert_eq!(bare.nodes[0].name, quoted.nodes[0].name);
}

#[test]
fn type_annotations() {
    let doc = parse_document("(wire)node (u8)1 k=(s)\"v\"").unwrap();
    let node = &doc.nodes[0];
    assert_eq!(node.annotation.as_deref(), Some("wire"));
    assert_eq!(node.values[0].annotation.as_deref(), Some("u8"));
    assert_eq!(node.values[0].scalar, KdlScalar::Int(1));
    assert_eq!(node.properties[0].value.annotation.as_deref(), Some("s"));
}

#[test]
fn unmatched_close_brace_expects_end_of_input() {
    let err = parse_document("}").unwrap_err();
    assert_eq!(err.offset, 0);
    assert_eq!(err.kind, KdlErrorKind::Context(ContextLabel::EndOfInput));
}

#[test]
fn unclosed_children_block() {
    let err = parse_document("a {").unwrap_err();
    assert_eq!(err.offset, 3);
    assert_eq!(err.kind, KdlErrorKind::Context(ContextLabel::ChildrenClose));
}

#[test]
fn missing_identifier_is_labeled() {
    let err = parse_document("=1").unwrap_err();
    assert_eq!(err.offset, 0);
    assert_eq!(
        err.kind,
        KdlErrorKind::Context(ContextLabel::NodeIdentifier)
    );
}

#[test]
fn bad_annotation_identifier_is_labeled() {
    let err = parse_document("(1)n").unwrap_err();
    assert_eq!(err.offset, 1);
    assert_eq!(
        err.kind,
        KdlErrorKind::Context(ContextLabel::TypeAnnotation)
    );
}

#[test]
fn unclosed_annotation_is_labeled() {
    let err = parse_document("(ab 1").unwrap_err();
    assert_eq!(err.offset, 3);
    assert_eq!(
        err.kind,
        KdlErrorKind::Context(ContextLabel::AnnotationClose)
    );
}

#[test]
fn minimal_child_block() {
    let doc = parse_document("a{b}").unwrap();
    assert_eq!(doc.nodes.len(), 1);
    let a = &doc.nodes[0];
    assert_eq!(a.name, "a");
    assert!(a.values.is_empty() && a.properties.is_empty());
    let kids = a.children.as_ref().unwrap();
    assert_eq!(kids.len(), 1);
    assert_eq!(kids[0].name, "b");
    assert!(kids[0].children.is_none());
}

#[test]
fn sign_without_digits_is_empty() {
    let err = parse_document("n v=+a").unwrap_err();
    assert_eq!(err.offset, 4);
    assert_eq!(err.kind, KdlErrorKind::ParseIntError(IntIssue::Empty));
}

#[test]
fn values_and_properties_mix() {
    let doc = parse_document("n 1 k=2 \"three\" j=null").unwrap();
    let node = &doc.nodes[0];
    assert_eq!(node.values.len(), 2);
    assert_eq!(node.properties.len(), 2);
    assert_eq!(node.values[1].scalar, KdlScalar::Str("three".to_string()));
}
