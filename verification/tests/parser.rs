use webless_html::parse;
use webless_html::HTMLAttribute;
use webless_html::HTMLNode;

fn element(node: &HTMLNode) -> (&[u8], &Vec<HTMLAttribute>, &Vec<HTMLNode>) {
    match node {
        HTMLNode::Element { name, attributes, children } => {
            (name.as_slice(), attributes, children)
        },
        other => panic!("expected an element, got {:?}", other),
    }
}

#[test]
fn parse_example_doc() {
    let doc = parse(
        r#"<!DOCTYPE html><!--Comment--><html lang='en'><h1>Hello World</h1><hr color="red"><p>Text here</p><hr bold="yes" italic/><script>javascript here </bla></script></html>"#,
    )
    .unwrap();
    let nodes = doc.html();
    assert_eq!(nodes.len(), 3);
    assert_eq!(nodes[0], HTMLNode::Doctype(b"html".to_vec()));
    assert_eq!(nodes[1], HTMLNode::Comment(b"Comment".to_vec()));
    let (name, attributes, children) = element(&nodes[2]);
    assert_eq!(name, b"html");
    assert_eq!(attributes.len(), 1);
    assert_eq!(attributes[0].name.as_slice(), b"lang");
    assert_eq!(attributes[0].value.as_slice(), b"en");
    assert_eq!(children.len(), 5);
}

#[test]
fn empty_input_is_a_valid_document() {
    let doc = parse("").unwrap();
    assert_eq!(doc.html().len(), 0);
}

#[test]
fn case_insensitive_tag_matching_upper_open() {
    let doc = parse("<DIV>x</div>").unwrap();
    let nodes = doc.html();
    assert_eq!(nodes.len(), 1);
    let (name, attributes, children) = element(&nodes[0]);
    assert_eq!(name, b"DIV");
    assert!(attributes.is_empty());
    assert_eq!(children.as_slice(), &[HTMLNode::Text(b"x".to_vec())]);
}

#[test]
fn case_insensitive_tag_matching_upper_close() {
    let doc = parse("<div>x</DIV>").unwrap();
    let (name, _, children) = element(&doc.html()[0]);
    assert_eq!(name, b"div");
    assert_eq!(children.as_slice(), &[HTMLNode::Text(b"x".to_vec())]);
}

#[test]
fn void_elements_never_consume_children() {
    let plain = parse("<br>").unwrap();
    let slash = parse("<br/>").unwrap();
    let spaced = parse("<br />").unwrap();
    for doc in [&plain, &slash, &spaced] {
        let nodes = doc.html();
        assert_eq!(nodes.len(), 1);
        let (name, attributes, children) = element(&nodes[0]);
        assert_eq!(name, b"br");
        assert!(attributes.is_empty());
        assert!(children.is_empty());
    }
    assert_eq!(plain.html(), slash.html());
    assert_eq!(plain.html(), spaced.html());
}

#[test]
fn void_elements_are_case_insensitive() {
    let doc = parse("<BR>").unwrap();
    let (name, _, children) = element(&doc.html()[0]);
    assert_eq!(name, b"BR");
    assert!(children.is_empty());
}

#[test]
fn void_element_with_attributes_and_slash() {
    let doc = parse(r#"<hr bold="yes" italic/>"#).unwrap();
    let (name, attributes, children) = element(&doc.html()[0]);
    assert_eq!(name, b"hr");
    assert_eq!(attributes.len(), 2);
    assert_eq!(attributes[0].name.as_slice(), b"bold");
    assert_eq!(attributes[0].value.as_slice(), b"yes");
    assert_eq!(attributes[1].name.as_slice(), b"italic");
    assert_eq!(attributes[1].value.as_slice(), b"");
    assert!(children.is_empty());
}

#[test]
fn foreign_content_opacity() {
    let doc = parse("<script>a < b </not-script> still here</script>").unwrap();
    let nodes = doc.html();
    assert_eq!(nodes.len(), 1);
    let (name, attributes, children) = element(&nodes[0]);
    assert_eq!(name, b"script");
    assert!(attributes.is_empty());
    assert_eq!(
        children.as_slice(),
        &[HTMLNode::Foreign(b"a < b </not-script> still here".to_vec())]
    );
}

#[test]
fn foreign_elements_are_case_insensitive() {
    let doc = parse("<SCRIPT>a<b</SCRIPT>").unwrap();
    let (name, _, children) = element(&doc.html()[0]);
    assert_eq!(name, b"SCRIPT");
    assert_eq!(children.as_slice(), &[HTMLNode::Foreign(b"a<b".to_vec())]);
}

#[test]
fn title_and_textarea_are_foreign() {
    let doc = parse("<title>a < b</title><textarea><div></textarea>").unwrap();
    let nodes = doc.html();
    assert_eq!(nodes.len(), 2);
    let (_, _, children) = element(&nodes[0]);
    assert_eq!(children.as_slice(), &[HTMLNode::Foreign(b"a < b".to_vec())]);
    let (_, _, children) = element(&nodes[1]);
    assert_eq!(children.as_slice(), &[HTMLNode::Foreign(b"<div>".to_vec())]);
}

#[test]
fn distinct_attribute_names_differing_in_case_are_kept() {
    let doc = parse(r#"<a href="1" HREF="2"></a>"#).unwrap();
    let (name, attributes, _) = element(&doc.html()[0]);
    assert_eq!(name, b"a");
    assert_eq!(attributes.len(), 2);
    assert_eq!(attributes[0].name.as_slice(), b"href");
    assert_eq!(attributes[0].value.as_slice(), b"1");
    assert_eq!(attributes[1].name.as_slice(), b"HREF");
    assert_eq!(attributes[1].value.as_slice(), b"2");
}

#[test]
fn comment_simple() {
    let doc = parse("<!--x-->").unwrap();
    assert_eq!(doc.html().as_slice(), &[HTMLNode::Comment(b"x".to_vec())]);
}

#[test]
fn end_to_end_example() {
    let doc = parse(r#"<!DOCTYPE html><!--c--><p id="x">Hi</p>"#).unwrap();
    let nodes = doc.html();
    assert_eq!(nodes.len(), 3);
    assert_eq!(nodes[0], HTMLNode::Doctype(b"html".to_vec()));
    assert_eq!(nodes[1], HTMLNode::Comment(b"c".to_vec()));
    let (name, attributes, children) = element(&nodes[2]);
    assert_eq!(name, b"p");
    assert_eq!(attributes.len(), 1);
    assert_eq!(attributes[0].name.as_slice(), b"id");
    assert_eq!(attributes[0].value.as_slice(), b"x");
    assert_eq!(children.as_slice(), &[HTMLNode::Text(b"Hi".to_vec())]);
}

#[test]
fn boolean_attribute_has_empty_value() {
    let doc = parse("<p id></p>").unwrap();
    let (_, attributes, _) = element(&doc.html()[0]);
    assert_eq!(attributes[0].name.as_slice(), b"id");
    assert_eq!(attributes[0].value.as_slice(), b"");
}

#[test]
fn unquoted_attribute_value() {
    let doc = parse("<p id=ab></p>").unwrap();
    let (_, attributes, _) = element(&doc.html()[0]);
    assert_eq!(attributes[0].value.as_slice(), b"ab");
}

#[test]
fn single_quoted_value_may_hold_a_double_quote() {
    let doc = parse(r#"<p id='a"b'></p>"#).unwrap();
    let (_, attributes, _) = element(&doc.html()[0]);
    assert_eq!(attributes[0].value.as_slice(), b"a\"b");
}

#[test]
fn whitespace_before_closing_bracket_of_end_tag() {
    let doc = parse("<p></p >").unwrap();
    let (name, _, children) = element(&doc.html()[0]);
    assert_eq!(name, b"p");
    assert!(children.is_empty());
}

#[test]
fn doctype_skips_leading_whitespace_and_keeps_case() {
    let doc = parse("<!doctype   HTML5 x>").unwrap();
    assert_eq!(doc.html().as_slice(), &[HTMLNode::Doctype(b"HTML5 x".to_vec())]);
}

#[test]
fn doctype_is_allowed_as_a_child() {
    let doc = parse("<p><!DOCTYPE html></p>").unwrap();
    let (_, _, children) = element(&doc.html()[0]);
    assert_eq!(children.as_slice(), &[HTMLNode::Doctype(b"html".to_vec())]);
}

#[test]
fn text_interleaves_with_child_elements() {
    let doc = parse("<p>a<b>c</b>d</p>").unwrap();
    let (_, _, children) = element(&doc.html()[0]);
    assert_eq!(children.len(), 3);
    assert_eq!(children[0], HTMLNode::Text(b"a".to_vec()));
    let (name, _, inner) = element(&children[1]);
    assert_eq!(name, b"b");
    assert_eq!(inner.as_slice(), &[HTMLNode::Text(b"c".to_vec())]);
    assert_eq!(children[2], HTMLNode::Text(b"d".to_vec()));
}

#[test]
fn leading_whitespace_between_top_level_nodes() {
    let doc = parse("  <br>\n\t<hr>").unwrap();
    let nodes = doc.html();
    assert_eq!(nodes.len(), 2);
    let (name, _, _) = element(&nodes[0]);
    assert_eq!(name, b"br");
    let (name, _, _) = element(&nodes[1]);
    assert_eq!(name, b"hr");
}
