use webless_html::parse;
use webless_html::HTMLNode;

const VOID_NAMES: [&str; 16] = [
    "area", "base", "br", "col", "command", "embed", "hr", "img", "input", "keygen", "link",
    "meta", "param", "source", "track", "wbr",
];

fn is_void(name: &[u8]) -> bool {
    VOID_NAMES.iter().any(|v| v.as_bytes().eq_ignore_ascii_case(name))
}

fn render(node: &HTMLNode, out: &mut Vec<u8>) {
    match node {
        HTMLNode::Text(t) => out.extend_from_slice(t),
        HTMLNode::Foreign(t) => out.extend_from_slice(t),
        HTMLNode::Comment(t) => {
            out.extend_from_slice(b"<!--");
            out.extend_from_slice(t);
            out.extend_from_slice(b"-->");
        },
        HTMLNode::Doctype(t) => {
            out.extend_from_slice(b"<!DOCTYPE ");
            out.extend_from_slice(t);
            out.push(b'>');
        },
        HTMLNode::Element { name, attributes, children } => {
            out.push(b'<');
            out.extend_from_slice(name);
            for a in attributes {
                out.push(b' ');
                out.extend_from_slice(&a.name);
                out.extend_from_slice(b"=\"");
                out.extend_from_slice(&a.value);
                out.push(b'"');
            }
            out.push(b'>');
            for c in children {
                render(c, out);
            }
            if !is_void(name) {
                out.extend_from_slice(b"</");
                out.extend_from_slice(name);
                out.push(b'>');
            }
        },
    }
}

fn assert_roundtrip(source: &str) {
    let doc = parse(source).unwrap();
    let mut rendered: Vec<u8> = Vec::new();
    for node in doc.html() {
        render(node, &mut rendered);
    }
    let rendered = String::from_utf8(rendered).unwrap();
    let again = parse(&rendered).unwrap();
    assert_eq!(doc.html(), again.html(), "round trip changed {:?}", source);
}

#[test]
fn roundtrip_void_element() {
    assert_roundtrip("<br>");
    assert_roundtrip("<br/>");
    assert_roundtrip(r#"<hr bold="yes" italic/>"#);
}

#[test]
fn roundtrip_foreign_element() {
    assert_roundtrip("<script>a < b </not-script> still here</script>");
    assert_roundtrip(r#"<style media="x">p { color: red }</style>"#);
}

#[test]
fn roundtrip_nested_elements() {
    assert_roundtrip(r#"<!DOCTYPE html><!--c--><p id="x">Hi</p>"#);
    assert_roundtrip("<div>a<b>c</b>d<br><script>x<y</script></div>");
}

#[test]
fn roundtrip_single_quote_inside_double_quoted_value() {
    assert_roundtrip(r#"<hr title="a'b">"#);
}

#[test]
fn roundtrip_deeply_nested_elements() {
    assert_roundtrip("<div><ul><li>one</li><li><b>two</b></li></ul><!--tail--></div>");
}

#[test]
fn roundtrip_boolean_attribute_becomes_empty_value() {
    // A boolean attribute re-serializes as name="" and keeps its meaning.
    assert_roundtrip("<p id></p>");
}
