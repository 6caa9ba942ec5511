//! The executable parser.
//!
//! Each function mirrors one production of [`crate::grammar`] and is proved
//! to return exactly the node (or the failure) that the corresponding spec
//! function describes, together with the offset just past what it consumed.

use vstd::prelude::*;
use vstd::slice::slice_subrange;
use vstd::slice::slice_to_vec;
use vstd::string::StringSliceAdditionalSpecFns;

use crate::ast::attr_models_of;
use crate::ast::lemma_models_of_push;
use crate::ast::models_of;
use crate::ast::HTMLAttribute;
use crate::ast::HTMLDocument;
use crate::ast::HTMLNode;
use crate::ast::SpecAttr;
use crate::ast::SpecNode;
use crate::chars::byte_is_alnum;
use crate::chars::byte_is_ctl;
use crate::chars::byte_is_ws;
use crate::chars::bytes_eq;
use crate::chars::bytes_eq_ci;
use crate::chars::is_ws;
use crate::chars::name_is_foreign;
use crate::chars::name_is_void;
use crate::grammar::alnum_end;
use crate::grammar::at_byte;
use crate::grammar::attr_name_end;
use crate::grammar::closer_at;
use crate::grammar::dd_scan;
use crate::grammar::doctype_end;
use crate::grammar::foreign_scan;
use crate::grammar::has_attr_name;
use crate::grammar::lemma_attribute_bounds;
use crate::grammar::lemma_dd_scan;
use crate::grammar::lemma_document_bounds;
use crate::grammar::lemma_foreign_scan;
use crate::grammar::lemma_node_bounds;
use crate::grammar::lemma_scan_while;
use crate::grammar::lemma_strict_node_bounds;
use crate::grammar::quoted_end;
use crate::grammar::spec_attribute;
use crate::grammar::spec_attrs;
use crate::grammar::spec_child_nodes;
use crate::grammar::spec_closing;
use crate::grammar::spec_comment;
use crate::grammar::spec_doctype;
use crate::grammar::spec_document;
use crate::grammar::spec_element;
use crate::grammar::spec_node;
use crate::grammar::spec_parse;
use crate::grammar::spec_strict_node;
use crate::grammar::text_end;
use crate::grammar::unquoted_end;
use crate::grammar::ws_end;
use crate::grammar::SpecErr;
use crate::messages::kind_msg;
use crate::messages::msg_ctl_byte;
use crate::messages::msg_expected;
use crate::messages::msg_expected_alnum;
use crate::messages::msg_foreign_closer;
use crate::messages::msg_mismatched_closing_tag;
use crate::messages::msg_missing_closing_tag;
use crate::messages::msg_plain;
use crate::messages::Failure;
use crate::parse_error::clamped;
use crate::parse_error::col_of;
use crate::parse_error::line_of;
use crate::parse_error::ParseError;

verus! {

/// Whether an executable node step returned exactly what the grammar says.
pub open spec fn node_step_matches(
    r: Result<(HTMLNode, usize), Failure>,
    sr: Result<(SpecNode, int), SpecErr>,
) -> bool {
    match (r, sr) {
        (Ok((node, end)), Ok((n, e))) => node@ == n && end == e,
        (Err(f), Err(se)) => f.matches(se),
        _ => false,
    }
}

/// Whether an executable attribute step returned exactly what the grammar
/// says.
pub open spec fn attr_step_matches(
    r: Result<(HTMLAttribute, usize), Failure>,
    sr: Result<(SpecAttr, int), SpecErr>,
) -> bool {
    match (r, sr) {
        (Ok((a, end)), Ok((sa, e))) => a@ == sa && end == e,
        (Err(f), Err(se)) => f.matches(se),
        _ => false,
    }
}

/// The byte at `i`, if any.
fn byte_at(s: &[u8], i: usize) -> (r: Option<u8>)
    ensures
        r == at_byte(s@, i as int),
{
    if i < s.len() {
        Some(s[i])
    } else {
        None
    }
}

/// Skips whitespace.
fn scan_ws(s: &[u8], pos: usize) -> (r: usize)
    requires
        pos <= s@.len(),
    ensures
        r == ws_end(s@, pos as int),
        pos <= r <= s@.len(),
{
    let n = s.len();
    let mut i = pos;
    while i < n && byte_is_ws(s[i])
        invariant
            pos <= i <= n,
            n == s@.len(),
            ws_end(s@, pos as int) == ws_end(s@, i as int),
        decreases n - i,
    {
        i += 1;
    }
    i
}

/// Consumes an alphanumeric run.
fn scan_alnum(s: &[u8], pos: usize) -> (r: usize)
    requires
        pos <= s@.len(),
    ensures
        r == alnum_end(s@, pos as int),
        pos <= r <= s@.len(),
{
    let n = s.len();
    let mut i = pos;
    while i < n && byte_is_alnum(s[i])
        invariant
            pos <= i <= n,
            n == s@.len(),
            alnum_end(s@, pos as int) == alnum_end(s@, i as int),
        decreases n - i,
    {
        i += 1;
    }
    i
}

/// Consumes a text run: up to the next `<`, control byte or the end.
fn scan_text(s: &[u8], pos: usize) -> (r: usize)
    requires
        pos <= s@.len(),
    ensures
        r == text_end(s@, pos as int),
        pos <= r <= s@.len(),
{
    let n = s.len();
    let mut i = pos;
    while i < n && s[i] != 60 && !byte_is_ctl(s[i])
        invariant
            pos <= i <= n,
            n == s@.len(),
            text_end(s@, pos as int) == text_end(s@, i as int),
        decreases n - i,
    {
        i += 1;
    }
    i
}

/// Consumes an attribute name.
fn scan_attr_name(s: &[u8], pos: usize) -> (r: usize)
    requires
        pos <= s@.len(),
    ensures
        r == attr_name_end(s@, pos as int),
        pos <= r <= s@.len(),
{
    let n = s.len();
    let mut i = pos;
    while i < n && !byte_is_ws(s[i]) && !byte_is_ctl(s[i]) && s[i] != 34 && s[i] != 39 && s[i]
        != 62 && s[i] != 47 && s[i] != 61
        invariant
            pos <= i <= n,
            n == s@.len(),
            attr_name_end(s@, pos as int) == attr_name_end(s@, i as int),
        decreases n - i,
    {
        i += 1;
    }
    i
}

/// Consumes a quoted attribute value, stopping at the quote byte `q`, a
/// control byte or the end.
fn scan_quoted(s: &[u8], pos: usize, q: u8) -> (r: usize)
    requires
        pos <= s@.len(),
    ensures
        r == quoted_end(s@, pos as int, q),
        pos <= r <= s@.len(),
{
    let n = s.len();
    let mut i = pos;
    while i < n && !byte_is_ctl(s[i]) && s[i] != q
        invariant
            pos <= i <= n,
            n == s@.len(),
            quoted_end(s@, pos as int, q) == quoted_end(s@, i as int, q),
        decreases n - i,
    {
        i += 1;
    }
    i
}

/// Consumes an unquoted attribute value.
fn scan_unquoted(s: &[u8], pos: usize) -> (r: usize)
    requires
        pos <= s@.len(),
    ensures
        r == unquoted_end(s@, pos as int),
        pos <= r <= s@.len(),
{
    let n = s.len();
    let mut i = pos;
    while i < n && !byte_is_ctl(s[i]) && !byte_is_ws(s[i]) && s[i] != 34 && s[i] != 39 && s[i]
        != 61 && s[i] != 62 && s[i] != 60 && s[i] != 96
        invariant
            pos <= i <= n,
            n == s@.len(),
            unquoted_end(s@, pos as int) == unquoted_end(s@, i as int),
        decreases n - i,
    {
        i += 1;
    }
    i
}

/// Consumes doctype content: up to the next `>` or the end.
fn scan_doctype(s: &[u8], pos: usize) -> (r: usize)
    requires
        pos <= s@.len(),
    ensures
        r == doctype_end(s@, pos as int),
        pos <= r <= s@.len(),
{
    let n = s.len();
    let mut i = pos;
    while i < n && s[i] != 62
        invariant
            pos <= i <= n,
            n == s@.len(),
            doctype_end(s@, pos as int) == doctype_end(s@, i as int),
        decreases n - i,
    {
        i += 1;
    }
    i
}

/// Finds the next `--`, or the end.
fn scan_dd(s: &[u8], pos: usize) -> (r: usize)
    requires
        pos <= s@.len(),
    ensures
        r == dd_scan(s@, pos as int),
        pos <= r <= s@.len(),
{
    let n = s.len();
    let mut i = pos;
    while i < n && !(s[i] == 45 && i + 1 < n && s[i + 1] == 45)
        invariant
            pos <= i <= n,
            n == s@.len(),
            dd_scan(s@, pos as int) == dd_scan(s@, i as int),
        decreases n - i,
    {
        i += 1;
    }
    i
}

/// Whether the case-insensitive closer `</name` stands at `pos`.
fn closer_at_here(s: &[u8], pos: usize, name: &[u8]) -> (r: bool)
    requires
        pos <= s@.len(),
    ensures
        r == closer_at(s@, pos as int, name@),
{
    let n = s.len();
    if n - pos < 2 || s[pos] != 60 || s[pos + 1] != 47 {
        return false;
    }
    if n - (pos + 2) < name.len() {
        return false;
    }
    let sub = slice_subrange(s, pos + 2, pos + 2 + name.len());
    bytes_eq_ci(sub, name)
}

/// Finds the closer of a foreign element, or the end.
fn scan_foreign(s: &[u8], pos: usize, name: &[u8]) -> (r: usize)
    requires
        pos <= s@.len(),
    ensures
        r == foreign_scan(s@, pos as int, name@),
        pos <= r <= s@.len(),
{
    let n = s.len();
    let mut i = pos;
    loop
        invariant
            pos <= i <= n,
            n == s@.len(),
            foreign_scan(s@, pos as int, name@) == foreign_scan(s@, i as int, name@),
        decreases n - i,
    {
        if i >= n {
            return i;
        }
        if closer_at_here(s, i, name) {
            return i;
        }
        i += 1;
    }
}

/// Whether an attribute of this name was already collected
/// (case-sensitively).
fn vec_has_attr_name(attrs: &Vec<HTMLAttribute>, name: &[u8]) -> (r: bool)
    ensures
        r == has_attr_name(attr_models_of(attrs@), name@),
{
    let n = attrs.len();
    let mut i: usize = 0;
    while i < n
        invariant
            i <= n,
            n == attrs@.len(),
            forall|j: int| 0 <= j < i ==> attrs@[j].name@ != name@,
        decreases n - i,
    {
        if bytes_eq(attrs[i].name.as_slice(), name) {
            assert(attr_models_of(attrs@)[i as int].name == name@);
            return true;
        }
        i += 1;
    }
    assert(forall|j: int|
        0 <= j < attrs@.len() ==> attr_models_of(attrs@)[j].name == attrs@[j].name@);
    false
}

/// The comment production, entered at the `<` of `<!--`.
fn p_comment(s: &[u8], pos: usize) -> (r: Result<(HTMLNode, usize), Failure>)
    requires
        pos + 2 < s@.len(),
    ensures
        node_step_matches(r, spec_comment(s@, pos as int)),
{
    let n = s.len();
    if !(pos + 3 < n && s[pos + 3] == 45) {
        return Err(
            Failure {
                msg: msg_expected("second - in comment declaration", 45, byte_at(s, pos + 3)),
                at: pos + 3,
            },
        );
    }
    let c = pos + 4;
    if c < n && (s[c] == 62 || s[c] == 45) {
        return Err(Failure { msg: msg_plain("Comments may not start with '>' or '->'"), at: c });
    }
    let q = scan_dd(s, c);
    proof {
        lemma_dd_scan(s@, c as int);
    }
    if q >= n {
        return Err(Failure { msg: msg_plain("Expected comment tag closer '-->'"), at: n });
    }
    if n - q > 2 && s[q + 2] == 62 {
        let text = slice_to_vec(slice_subrange(s, c, q));
        Ok((HTMLNode::Comment(text), q + 3))
    } else {
        Err(Failure { msg: msg_plain("Comments may not contain '--'"), at: q })
    }
}

/// The doctype production, entered at the `<` of `<!DOCTYPE`.
fn p_doctype(s: &[u8], pos: usize) -> (r: Result<(HTMLNode, usize), Failure>)
    requires
        pos < s@.len(),
    ensures
        node_step_matches(r, spec_doctype(s@, pos as int)),
{
    let n = s.len();
    let mut has_literal = n - pos >= 9;
    if has_literal {
        let lit: [u8; 7] = [68, 79, 67, 84, 89, 80, 69];  // DOCTYPE
        has_literal = bytes_eq_ci(slice_subrange(s, pos + 2, pos + 9), lit.as_slice());
        proof {
            assert(lit@ =~= seq![68u8, 79u8, 67u8, 84u8, 89u8, 80u8, 69u8]);
        }
    }
    if !has_literal {
        return Err(Failure { msg: msg_plain("Expected doctype declaration or comment"), at: pos });
    }
    let w = scan_ws(s, pos + 9);
    let e = scan_doctype(s, w);
    if e >= n {
        return Err(Failure { msg: msg_plain("Expected DOCTYPE tag closer '>'"), at: n });
    }
    let text = slice_to_vec(slice_subrange(s, w, e));
    Ok((HTMLNode::Doctype(text), e + 1))
}

/// The attribute production.
fn p_attribute(s: &[u8], pos: usize) -> (r: Result<(HTMLAttribute, usize), Failure>)
    requires
        pos <= s@.len(),
    ensures
        attr_step_matches(r, spec_attribute(s@, pos as int)),
{
    let n = s.len();
    let ne = scan_attr_name(s, pos);
    if ne == pos {
        return Err(Failure { msg: msg_plain("Expected attribute name"), at: pos });
    }
    if ne < n && byte_is_ctl(s[ne]) {
        return Err(Failure { msg: msg_ctl_byte(s[ne]), at: ne });
    }
    let name = slice_subrange(s, pos, ne);
    let w = scan_ws(s, ne);
    if w >= n {
        return Err(Failure { msg: msg_plain("Expected something after attribute name"), at: w });
    }
    if s[w] != 61 {
        let a = HTMLAttribute { name: slice_to_vec(name), value: Vec::new() };
        assert(a@.value =~= Seq::<u8>::empty());
        return Ok((a, w));
    }
    let v = w + 1;
    if v >= n {
        return Err(Failure { msg: msg_plain("Expected attribute value after ="), at: v });
    }
    let q = s[v];
    if q == 34 || q == 39 {
        let vs = v + 1;
        let ve = scan_quoted(s, vs, q);
        if ve < n && s[ve] == q {
            let a = HTMLAttribute {
                name: slice_to_vec(name),
                value: slice_to_vec(slice_subrange(s, vs, ve)),
            };
            Ok((a, ve + 1))
        } else {
            Err(Failure { msg: msg_expected("value-ending quote", q, byte_at(s, ve)), at: ve })
        }
    } else {
        let ve = scan_unquoted(s, v);
        let a = HTMLAttribute {
            name: slice_to_vec(name),
            value: slice_to_vec(slice_subrange(s, v, ve)),
        };
        Ok((a, ve))
    }
}

/// Whether the children parsed so far, together with what the grammar
/// yields from `cur`, make up exactly what it yields from `start`.
pub open spec fn children_resume(
    s: Seq<u8>,
    start: int,
    cur: int,
    done: Seq<SpecNode>,
    name: Seq<u8>,
) -> bool {
    match spec_child_nodes(s, cur, name) {
        Ok(r) => spec_child_nodes(s, start, name) == Ok::<(Seq<SpecNode>, int), SpecErr>(
            (done + r.0, r.1),
        ),
        Err(e) => spec_child_nodes(s, start, name) == Err::<(Seq<SpecNode>, int), SpecErr>(e),
    }
}

/// Whether the top-level nodes parsed so far, together with what the
/// grammar yields from `cur`, make up exactly the whole document.
pub open spec fn document_resume(s: Seq<u8>, cur: int, done: Seq<SpecNode>) -> bool {
    match spec_document(s, cur) {
        Ok(ns) => spec_document(s, 0) == Ok::<Seq<SpecNode>, SpecErr>(done + ns),
        Err(e) => spec_document(s, 0) == Err::<Seq<SpecNode>, SpecErr>(e),
    }
}

/// The closing tag of an element, entered at its `</`.
fn p_closing(
    s: &[u8],
    k: usize,
    name: &[u8],
    attributes: Vec<HTMLAttribute>,
    children: Vec<HTMLNode>,
) -> (r: Result<(HTMLNode, usize), Failure>)
    requires
        k + 2 <= s@.len(),
    ensures
        node_step_matches(
            r,
            spec_closing(s@, k as int, name@, attr_models_of(attributes@), models_of(children@)),
        ),
{
    let n = s.len();
    let cl = k + 2;
    let cne = scan_alnum(s, cl);
    if cne == cl {
        return Err(Failure { msg: msg_expected_alnum(byte_at(s, cl)), at: cl });
    }
    let closed = slice_subrange(s, cl, cne);
    if !bytes_eq_ci(closed, name) {
        return Err(Failure { msg: msg_mismatched_closing_tag(name, closed), at: cne });
    }
    let w = scan_ws(s, cne);
    if w < n && s[w] == 62 {
        Ok((HTMLNode::Element { name: slice_to_vec(name), attributes, children }, w + 1))
    } else {
        Err(Failure { msg: msg_expected("end of opening tag", 62, byte_at(s, w)), at: w })
    }
}

/// The element production, entered at its `<`.
#[verifier::loop_isolation(false)]
fn p_element(s: &[u8], pos: usize) -> (r: Result<(HTMLNode, usize), Failure>)
    requires
        pos < s@.len(),
    ensures
        node_step_matches(r, spec_element(s@, pos as int)),
    decreases s@.len() - pos, 0int,
{
    let n = s.len();
    let np = pos + 1;
    let ne = scan_alnum(s, np);
    if ne == np {
        return Err(Failure { msg: msg_expected_alnum(byte_at(s, np)), at: np });
    }
    let name = slice_subrange(s, np, ne);
    let w = scan_ws(s, ne);

    // The attribute list, rejecting duplicated names as it grows.
    let mut attributes: Vec<HTMLAttribute> = Vec::new();
    let mut ap = w;
    proof {
        assert(attr_models_of(attributes@) =~= Seq::<SpecAttr>::empty());
    }
    loop
        invariant
            w <= ap <= n,
            spec_attrs(s@, w as int, Seq::empty()) == spec_attrs(
                s@,
                ap as int,
                attr_models_of(attributes@),
            ),
        decreases n - ap,
    {
        if ap < n && (s[ap] == 62 || s[ap] == 47) {
            break;
        }
        let (a, ae) = match p_attribute(s, ap) {
            Ok(x) => x,
            Err(f) => return Err(f),
        };
        proof {
            lemma_attribute_bounds(s@, ap as int);
        }
        if vec_has_attr_name(&attributes, a.name.as_slice()) {
            return Err(
                Failure { msg: msg_plain("Element has two attributes with the same name"), at: ae },
            );
        }
        let ghost prev = attributes@;
        attributes.push(a);
        proof {
            assert(attr_models_of(attributes@) =~= attr_models_of(prev).push(attributes@.last()@));
            lemma_scan_while(s@, ae as int, |b: u8| is_ws(b));
        }
        ap = scan_ws(s, ae);
    }
    let tag_end = ap;

    if name_is_void(name) {
        // A void element: an optional `/`, then `>`; never any children.
        let sl = if tag_end < n && s[tag_end] == 47 {
            tag_end + 1
        } else {
            tag_end
        };
        if sl < n && s[sl] == 62 {
            let node = HTMLNode::Element {
                name: slice_to_vec(name),
                attributes,
                children: Vec::new(),
            };
            return Ok((node, sl + 1));
        } else {
            return Err(
                Failure { msg: msg_expected("end of opening tag", 62, byte_at(s, sl)), at: sl },
            );
        }
    }
    // Any other element closes its opening tag with a bare `>`.
    if s[tag_end] != 62 {
        return Err(
            Failure {
                msg: msg_expected("end of opening tag", 62, byte_at(s, tag_end)),
                at: tag_end,
            },
        );
    }
    let cpos = tag_end + 1;

    if name_is_foreign(name) {
        // A foreign element: one opaque child, up to the matching closer.
        let fe = scan_foreign(s, cpos, name);
        proof {
            lemma_foreign_scan(s@, cpos as int, name@);
        }
        if fe >= n {
            return Err(Failure { msg: msg_foreign_closer(name), at: n });
        }
        let mut children: Vec<HTMLNode> = Vec::new();
        children.push(HTMLNode::Foreign(slice_to_vec(slice_subrange(s, cpos, fe))));
        proof {
            let ghost c = children@;
            assert(c.drop_last() =~= Seq::<HTMLNode>::empty());
            assert(models_of(c) == models_of(c.drop_last()).push(c.last().model()));
            assert(models_of(c) =~= seq![
                SpecNode::Foreign(s@.subrange(cpos as int, fe as int)),
            ]);
        }
        return p_closing(s, fe, name, attributes, children);
    }
    // Any other element: children until the `</` of a closing tag.
    let mut children: Vec<HTMLNode> = Vec::new();
    let mut cur = cpos;
    proof {
        assert(models_of(children@) =~= Seq::<SpecNode>::empty());
        if let Ok(rr) = spec_child_nodes(s@, cpos as int, name@) {
            assert(Seq::<SpecNode>::empty() + rr.0 =~= rr.0);
        }
    }
    loop
        invariant
            cpos <= cur <= n,
            children_resume(s@, cpos as int, cur as int, models_of(children@), name@),
        decreases n - cur,
    {
        if n - cur >= 2 && s[cur] == 60 && s[cur + 1] == 47 {
            break;
        }
        if n - cur < 2 {
            return Err(Failure { msg: msg_missing_closing_tag(name), at: cur });
        }
        if byte_is_ctl(s[cur]) {
            return Err(Failure { msg: msg_ctl_byte(s[cur]), at: cur });
        }
        let (child, e) = match p_node(s, cur) {
            Ok(x) => x,
            Err(f) => return Err(f),
        };
        proof {
            lemma_node_bounds(s@, cur as int);
        }
        let ghost prev = children@;
        children.push(child);
        proof {
            lemma_models_of_push(prev, child);
            if let Ok(rr) = spec_child_nodes(s@, e as int, name@) {
                assert(models_of(prev) + (seq![child@] + rr.0) =~= models_of(prev).push(child@)
                    + rr.0);
            }
        }
        cur = e;
    }
    proof {
        assert(models_of(children@) + Seq::<SpecNode>::empty() =~= models_of(children@));
    }
    p_closing(s, cur, name, attributes, children)
}

/// The node production: a text run, or any non-text node.
fn p_node(s: &[u8], pos: usize) -> (r: Result<(HTMLNode, usize), Failure>)
    requires
        pos <= s@.len(),
    ensures
        node_step_matches(r, spec_node(s@, pos as int)),
    decreases s@.len() - pos, 2int,
{
    let n = s.len();
    if !(pos < n && s[pos] == 60) {
        let e = scan_text(s, pos);
        let node = HTMLNode::Text(slice_to_vec(slice_subrange(s, pos, e)));
        Ok((node, e))
    } else {
        p_strict_node(s, pos)
    }
}

/// The strict-node production: whitespace, then a comment, doctype
/// declaration or element.
fn p_strict_node(s: &[u8], pos: usize) -> (r: Result<(HTMLNode, usize), Failure>)
    requires
        pos <= s@.len(),
    ensures
        node_step_matches(r, spec_strict_node(s@, pos as int)),
    decreases s@.len() - pos, 1int,
{
    let n = s.len();
    let w = scan_ws(s, pos);
    if !(w < n && s[w] == 60) {
        return Err(Failure { msg: msg_expected("start of a node", 60, byte_at(s, w)), at: w });
    }
    if n - w < 2 {
        return Err(Failure { msg: msg_plain("Expected something after start of node"), at: w });
    }
    if s[w + 1] == 33 {
        if n - w > 2 && s[w + 2] == 45 {
            p_comment(s, w)
        } else {
            p_doctype(s, w)
        }
    } else {
        p_element(s, w)
    }
}

/// The document production: strict nodes until the end of the input.
#[verifier::loop_isolation(false)]
fn p_document(s: &[u8]) -> (r: Result<Vec<HTMLNode>, Failure>)
    ensures
        (match (r, spec_document(s@, 0)) {
            (Ok(nodes), Ok(ns)) => models_of(nodes@) == ns,
            (Err(f), Err(e)) => f.matches(e),
            _ => false,
        }),
{
    let n = s.len();
    let mut nodes: Vec<HTMLNode> = Vec::new();
    let mut cur: usize = 0;
    proof {
        assert(models_of(nodes@) =~= Seq::<SpecNode>::empty());
        if let Ok(ns) = spec_document(s@, 0) {
            assert(Seq::<SpecNode>::empty() + ns =~= ns);
        }
    }
    loop
        invariant
            cur <= n,
            document_resume(s@, cur as int, models_of(nodes@)),
        decreases n - cur,
    {
        if cur >= n {
            break;
        }
        let (node, e) = match p_strict_node(s, cur) {
            Ok(x) => x,
            Err(f) => return Err(f),
        };
        proof {
            lemma_strict_node_bounds(s@, cur as int);
        }
        let ghost prev = nodes@;
        nodes.push(node);
        proof {
            lemma_models_of_push(prev, node);
            if let Ok(ns2) = spec_document(s@, e as int) {
                assert(models_of(prev) + (seq![node@] + ns2) =~= models_of(prev).push(node@)
                    + ns2);
            }
        }
        cur = e;
    }
    proof {
        assert(models_of(nodes@) + Seq::<SpecNode>::empty() =~= models_of(nodes@));
    }
    Ok(nodes)
}

/// Parses a complete source text into a document, or reports the first
/// failure with its message and its 1-based line and column.
pub fn parse(source: &str) -> (r: Result<HTMLDocument, ParseError>)
    ensures
        (match (r, spec_parse(source.spec_bytes())) {
            (Ok(doc), Ok(ns)) => doc@ == ns,
            (Err(pe), Err(e)) => {
                &&& pe.spec_msg() == kind_msg(e.kind)
                &&& pe.spec_line() == clamped(line_of(source.spec_bytes(), e.at))
                &&& pe.spec_col() == clamped(col_of(source.spec_bytes(), e.at))
            },
            _ => false,
        }),
{
    let s = source.as_bytes();
    match p_document(s) {
        Ok(nodes) => Ok(HTMLDocument::new(nodes)),
        Err(f) => {
            proof {
                lemma_document_bounds(s@, 0);
            }
            Err(ParseError::new(f.msg, s, f.at))
        },
    }
}

} // verus!
