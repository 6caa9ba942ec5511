use webless_html::parse;
use webless_html::ParseError;

fn failure(source: &str) -> ParseError {
    match parse(source) {
        Ok(doc) => panic!("expected {:?} to fail, got {:?}", source, doc.html()),
        Err(e) => e,
    }
}

#[test]
fn duplicate_attribute_rejection() {
    let e = failure(r#"<a href="1" href="2">"#);
    assert_eq!(e.message().as_str(), "Element has two attributes with the same name");
}

#[test]
fn empty_comment_is_rejected() {
    let e = failure("<!---->");
    assert_eq!(e.message().as_str(), "Comments may not start with '>' or '->'");
}

#[test]
fn comment_starting_with_closing_bracket_is_rejected() {
    let e = failure("<!-->-->");
    assert_eq!(e.message().as_str(), "Comments may not start with '>' or '->'");
}

#[test]
fn comment_with_inner_double_dash_is_rejected() {
    let e = failure("<!--a--b-->");
    assert_eq!(e.message().as_str(), "Comments may not contain '--'");
}

#[test]
fn unterminated_comment() {
    let e = failure("<!--abc");
    assert_eq!(e.message().as_str(), "Expected comment tag closer '-->'");
}

#[test]
fn malformed_comment_opener() {
    let e = failure("<!-x");
    assert_eq!(
        e.message().as_str(),
        "Expected second - in comment declaration '-', found 'x'"
    );
}

#[test]
fn error_locality_reports_line_two() {
    let e = failure("<p>\n<q></p>");
    assert_eq!(e.message().as_str(), "Mismatched closing tag: Expected 'q', found 'p'");
    assert_eq!(e.line_and_column(), (2, 7));
}

#[test]
fn error_on_first_line_is_one_based() {
    let e = failure("x");
    assert_eq!(e.message().as_str(), "Expected start of a node '<', found 'x'");
    assert_eq!(e.line_and_column(), (1, 1));
}

#[test]
fn whitespace_only_input_fails_at_document_end() {
    let e = failure("   ");
    assert_eq!(
        e.message().as_str(),
        "Expected start of a node '<', found '[document end]'"
    );
}

#[test]
fn lone_open_bracket() {
    let e = failure("<");
    assert_eq!(e.message().as_str(), "Expected something after start of node");
}

#[test]
fn bang_without_doctype_or_comment() {
    let e = failure("<!x>");
    assert_eq!(e.message().as_str(), "Expected doctype declaration or comment");
}

#[test]
fn tag_name_must_start_alphanumerically() {
    let e = failure("<>");
    assert_eq!(e.message().as_str(), "Expected alphanumeric, found '>'");
}

#[test]
fn missing_closing_tag() {
    let e = failure("<p>abc");
    assert_eq!(e.message().as_str(), "Expected matching closing tag for p");
}

#[test]
fn closing_tag_name_must_be_alphanumeric() {
    let e = failure("</ p>");
    assert_eq!(e.message().as_str(), "Expected alphanumeric, found '/'");
}

#[test]
fn space_before_closing_name_is_rejected() {
    let e = failure("<p></ p>");
    assert_eq!(e.message().as_str(), "Expected alphanumeric, found ' '");
}

#[test]
fn empty_attribute_name() {
    let e = failure(r#"<p ">"#);
    assert_eq!(e.message().as_str(), "Expected attribute name");
}

#[test]
fn control_character_in_attribute_name() {
    let e = failure("<p a\u{1}=b>");
    assert_eq!(
        e.message().as_str(),
        "Unexpected control character [control character 0x1]"
    );
}

#[test]
fn input_ends_after_attribute_name() {
    let e = failure("<p a");
    assert_eq!(e.message().as_str(), "Expected something after attribute name");
}

#[test]
fn input_ends_after_equals_sign() {
    let e = failure("<p a=");
    assert_eq!(e.message().as_str(), "Expected attribute value after =");
}

#[test]
fn unterminated_quoted_value() {
    let e = failure(r#"<p a="x"#);
    assert_eq!(
        e.message().as_str(),
        "Expected value-ending quote '\"', found '[document end]'"
    );
}

#[test]
fn control_character_ends_a_quoted_value() {
    let e = failure("<p a=\"x\u{7f}y\">");
    assert_eq!(
        e.message().as_str(),
        "Expected value-ending quote '\"', found '[control character 0x7f]'"
    );
}

#[test]
fn non_void_element_may_not_self_close() {
    let e = failure("<p/>");
    assert_eq!(e.message().as_str(), "Expected end of opening tag '>', found '/'");
}

#[test]
fn unterminated_doctype() {
    let e = failure("<!DOCTYPE html");
    assert_eq!(e.message().as_str(), "Expected DOCTYPE tag closer '>'");
}

#[test]
fn unterminated_foreign_content() {
    let e = failure("<script>xx");
    assert_eq!(e.message().as_str(), "Expected closing tag </script>");
}

#[test]
fn control_character_in_element_children() {
    let e = failure("<p>\u{1}</p>");
    assert_eq!(
        e.message().as_str(),
        "Unexpected control character [control character 0x1]"
    );
}

#[test]
fn mismatched_closing_tag_names_both_tags() {
    let e = failure("<div>x</span>");
    assert_eq!(
        e.message().as_str(),
        "Mismatched closing tag: Expected 'div', found 'span'"
    );
}
