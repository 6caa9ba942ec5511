//! What every parsed tree looks like, proved once and for all.
//!
//! [`lemma_parse_wf`] shows that every document the grammar accepts
//! satisfies [`nodes_wf`]: elements carry pairwise-distinct attribute
//! names, void elements never have children, foreign elements hold exactly
//! one opaque span that contains no closer of their own name, comments obey
//! the `--` boundary rules, and text runs hold neither `<` nor control
//! bytes.

use vstd::prelude::*;

use crate::ast::SpecAttr;
use crate::ast::SpecNode;
use crate::chars::eq_ci;
use crate::chars::is_alnum;
use crate::chars::is_ctl;
use crate::chars::is_foreign_name;
use crate::chars::is_void_name;
use crate::chars::is_ws;
use crate::grammar::alnum_end;
use crate::grammar::attr_name_end;
use crate::grammar::close_marker_at;
use crate::grammar::closer_at;
use crate::grammar::dd_at;
use crate::grammar::dd_scan;
use crate::grammar::foreign_scan;
use crate::grammar::has_attr_name;
use crate::grammar::lemma_attribute_bounds;
use crate::grammar::lemma_attrs_bounds;
use crate::grammar::lemma_child_nodes_bounds;
use crate::grammar::lemma_dd_scan;
use crate::grammar::lemma_foreign_scan;
use crate::grammar::lemma_node_bounds;
use crate::grammar::lemma_scan_while;
use crate::grammar::lemma_strict_node_bounds;
use crate::grammar::spec_attribute;
use crate::grammar::spec_attrs;
use crate::grammar::spec_child_nodes;
use crate::grammar::spec_closing;
use crate::grammar::spec_comment;
use crate::grammar::spec_doctype;
use crate::grammar::spec_document;
use crate::grammar::spec_element;
use crate::grammar::spec_node;
use crate::grammar::spec_parse;
use crate::grammar::spec_strict_node;
use crate::grammar::text_end;
use crate::grammar::ws_end;

verus! {

/// No two attributes share a name (case-sensitively).
pub open spec fn attrs_distinct(attrs: Seq<SpecAttr>) -> bool {
    forall|i: int, j: int|
        0 <= i < j < attrs.len() ==> attrs[i].name != attrs[j].name
}

/// The shape of one attribute: a nonempty name free of the bytes that end
/// a name scan, and a value free of control bytes.
pub open spec fn attr_wf(a: SpecAttr) -> bool {
    &&& a.name.len() > 0
    &&& forall|i: int|
        0 <= i < a.name.len() ==> !(is_ws(a.name[i]) || is_ctl(a.name[i]) || a.name[i] == 34
            || a.name[i] == 39 || a.name[i] == 62 || a.name[i] == 47 || a.name[i] == 61)
    &&& forall|i: int| 0 <= i < a.value.len() ==> !is_ctl(a.value[i])
}

/// The boundary rules of comment content: no inner `--`, no leading `>` or
/// `-`, no trailing `-`.
pub open spec fn comment_wf(t: Seq<u8>) -> bool {
    &&& forall|i: int| 0 <= i < t.len() - 1 ==> !((#[trigger] t[i]) == 45 && t[i + 1] == 45)
    &&& t.len() > 0 ==> t[0] != 62 && t[0] != 45
    &&& t.len() > 0 ==> t[t.len() - 1] != 45
}

/// Text holds neither `<` nor control bytes.
pub open spec fn text_wf(t: Seq<u8>) -> bool {
    forall|i: int| 0 <= i < t.len() ==> t[i] != 60 && !is_ctl(t[i])
}

/// Doctype content holds no `>` and does not start with whitespace.
pub open spec fn doctype_wf(t: Seq<u8>) -> bool {
    &&& forall|i: int| 0 <= i < t.len() ==> t[i] != 62
    &&& t.len() > 0 ==> !is_ws(t[0])
}

/// Whether a case-insensitive closer of `name` stands at offset `q` of the
/// span `t` itself.
pub open spec fn closer_within(t: Seq<u8>, q: int, name: Seq<u8>) -> bool {
    &&& 0 <= q
    &&& q + 2 + name.len() <= t.len()
    &&& t[q] == 60
    &&& t[q + 1] == 47
    &&& eq_ci(t.subrange(q + 2, q + 2 + name.len() as int), name)
}

/// Foreign content is opaque: nowhere inside it stands a closer of the
/// element's own name.
pub open spec fn foreign_opaque(t: Seq<u8>, name: Seq<u8>) -> bool {
    forall|q: int| !closer_within(t, q, name)
}

/// Text children are nonempty and never adjacent: re-serializing them
/// cannot merge two runs into one.
pub open spec fn texts_separated(ns: Seq<SpecNode>) -> bool {
    &&& forall|i: int|
        0 <= i < ns.len() ==> (ns[i] is Text ==> ns[i]->Text_0.len() > 0)
    &&& forall|i: int|
        0 <= i < ns.len() - 1 ==> !((#[trigger] ns[i]) is Text && ns[i + 1] is Text)
}

/// The shape of one parsed node.
pub open spec fn node_wf(n: SpecNode) -> bool
    decreases n,
{
    match n {
        SpecNode::Text(t) => text_wf(t),
        SpecNode::Comment(t) => comment_wf(t),
        SpecNode::Doctype(t) => doctype_wf(t),
        SpecNode::Foreign(t) => true,
        SpecNode::Element { name, attributes, children } => {
            &&& name.len() > 0
            &&& forall|i: int| 0 <= i < name.len() ==> is_alnum(name[i])
            &&& attrs_distinct(attributes)
            &&& forall|i: int| 0 <= i < attributes.len() ==> attr_wf(attributes[i])
            &&& is_void_name(name) ==> children.len() == 0
            &&& is_foreign_name(name) && !is_void_name(name) ==> children.len() == 1
                && children[0] is Foreign && foreign_opaque(children[0]->Foreign_0, name)
            &&& !is_void_name(name) && !is_foreign_name(name) ==> texts_separated(children)
            &&& nodes_wf(children)
        },
    }
}

/// The shape of a sequence of parsed nodes.
pub open spec fn nodes_wf(ns: Seq<SpecNode>) -> bool
    decreases ns,
{
    if ns.len() == 0 {
        true
    } else {
        nodes_wf(ns.drop_last()) && node_wf(ns.last())
    }
}

/// `nodes_wf` holds exactly when every node of the sequence is well
/// formed.
pub proof fn lemma_nodes_wf_pointwise(ns: Seq<SpecNode>)
    ensures
        nodes_wf(ns) <==> (forall|i: int| 0 <= i < ns.len() ==> node_wf(ns[i])),
    decreases ns.len(),
{
    if ns.len() > 0 {
        lemma_nodes_wf_pointwise(ns.drop_last());
        if nodes_wf(ns) {
            assert forall|i: int| 0 <= i < ns.len() implies node_wf(ns[i]) by {
                if i < ns.len() - 1 {
                    assert(ns[i] == ns.drop_last()[i]);
                } else {
                    assert(ns[i] == ns.last());
                }
            }
        }
        if forall|i: int| 0 <= i < ns.len() ==> node_wf(ns[i]) {
            assert forall|i: int|
                0 <= i < ns.drop_last().len() implies node_wf(ns.drop_last()[i]) by {
                assert(ns.drop_last()[i] == ns[i]);
            }
            assert(node_wf(ns.last()));
            assert(nodes_wf(ns));
        }
    }
}

/// Prepending one well-formed node keeps a sequence well formed.
pub proof fn lemma_nodes_wf_prepend(n: SpecNode, ns: Seq<SpecNode>)
    requires
        node_wf(n),
        nodes_wf(ns),
    ensures
        nodes_wf(seq![n] + ns),
{
    lemma_nodes_wf_pointwise(ns);
    lemma_nodes_wf_pointwise(seq![n] + ns);
}

/// A parsed attribute is well formed.
proof fn lemma_attribute_wf(s: Seq<u8>, p: int)
    requires
        0 <= p <= s.len(),
    ensures
        spec_attribute(s, p) matches Ok((a, ae)) ==> attr_wf(a),
{
    lemma_scan_while(
        s,
        p,
        |b: u8| !is_ws(b) && !is_ctl(b) && b != 34 && b != 39 && b != 62 && b != 47 && b != 61,
    );
    let ne = attr_name_end(s, p);
    if ne != p && !(ne < s.len() && is_ctl(s[ne])) {
        lemma_scan_while(s, ne, |b: u8| is_ws(b));
        let w = ws_end(s, ne);
        if w < s.len() && s[w] == 61 {
            let v = w + 1;
            if v < s.len() {
                if s[v] == 34 || s[v] == 39 {
                    lemma_scan_while(s, v + 1, |b: u8| !is_ctl(b) && b != s[v]);
                } else {
                    lemma_scan_while(
                        s,
                        v,
                        |b: u8|
                            !is_ctl(b) && !is_ws(b) && b != 34 && b != 39 && b != 61 && b != 62
                                && b != 60 && b != 96,
                    );
                }
            }
        }
    }
}

/// A parsed attribute list extends a distinct, well-formed accumulator
/// into a distinct, well-formed list.
proof fn lemma_attrs_wf(s: Seq<u8>, p: int, acc: Seq<SpecAttr>)
    requires
        0 <= p <= s.len(),
        attrs_distinct(acc),
        forall|i: int| 0 <= i < acc.len() ==> attr_wf(acc[i]),
    ensures
        spec_attrs(s, p, acc) matches Ok((attrs, ap)) ==> attrs_distinct(attrs) && (forall|i: int|
            0 <= i < attrs.len() ==> attr_wf(attrs[i])),
    decreases s.len() - p,
{
    if !(0 <= p < s.len() && (s[p] == 62 || s[p] == 47)) {
        lemma_attribute_bounds(s, p);
        lemma_attribute_wf(s, p);
        if let Ok((a, ae)) = spec_attribute(s, p) {
            if !has_attr_name(acc, a.name) {
                lemma_scan_while(s, ae, |b: u8| is_ws(b));
                let w = ws_end(s, ae);
                assert(forall|i: int| 0 <= i < acc.len() ==> acc.push(a)[i] == acc[i]);
                lemma_attrs_wf(s, w, acc.push(a));
            }
        }
    }
}

/// A parsed comment obeys the boundary rules.
proof fn lemma_comment_wf(s: Seq<u8>, p: int)
    requires
        0 <= p,
        p + 2 < s.len(),
    ensures
        spec_comment(s, p) matches Ok((n, e)) ==> n is Comment && comment_wf(n->Comment_0),
{
    if p + 3 < s.len() && s[p + 3] == 45 {
        let c = p + 4;
        if !(c < s.len() && (s[c] == 62 || s[c] == 45)) {
            lemma_dd_scan(s, c);
            let q = dd_scan(s, c);
            if q < s.len() && q + 2 < s.len() && s[q + 2] == 62 {
                let t = s.subrange(c, q);
                assert forall|i: int| 0 <= i < t.len() - 1 implies !((#[trigger] t[i]) == 45 && t[i
                    + 1] == 45) by {
                    assert(!dd_at(s, c + i));
                }
                if t.len() > 0 {
                    assert(t[0] == s[c]);
                    if t[t.len() - 1] == 45 {
                        assert(dd_at(s, q - 1));
                    }
                }
            }
        }
    }
}

/// A parsed doctype declaration holds no `>` and no leading whitespace.
proof fn lemma_doctype_wf(s: Seq<u8>, p: int)
    requires
        0 <= p < s.len(),
    ensures
        spec_doctype(s, p) matches Ok((n, e)) ==> n is Doctype && doctype_wf(n->Doctype_0),
{
    if p + 9 <= s.len() && eq_ci(
        s.subrange(p + 2, p + 9),
        seq![68u8, 79u8, 67u8, 84u8, 89u8, 80u8, 69u8],  // DOCTYPE
    ) {
        lemma_scan_while(s, p + 9, |b: u8| is_ws(b));
        let w = ws_end(s, p + 9);
        lemma_scan_while(s, w, |b: u8| b != 62);
    }
}

/// Foreign content scanned up to the first closer contains no closer.
proof fn lemma_foreign_opaque(s: Seq<u8>, cpos: int, fe: int, name: Seq<u8>)
    requires
        0 <= cpos <= fe <= s.len(),
        fe == foreign_scan(s, cpos, name),
    ensures
        foreign_opaque(s.subrange(cpos, fe), name),
{
    lemma_foreign_scan(s, cpos, name);
    let t = s.subrange(cpos, fe);
    assert forall|q: int| !closer_within(t, q, name) by {
        if closer_within(t, q, name) {
            assert(t.subrange(q + 2, q + 2 + name.len() as int) =~= s.subrange(
                cpos + q + 2,
                cpos + q + 2 + name.len() as int,
            ));
            assert(closer_at(s, cpos + q, name));
        }
    }
}

/// A parsed element assembled by the closing-tag production is well
/// formed, provided its pieces are.
proof fn lemma_closing_wf(
    s: Seq<u8>,
    k: int,
    name: Seq<u8>,
    attributes: Seq<SpecAttr>,
    children: Seq<SpecNode>,
)
    requires
        0 <= k,
        k + 2 <= s.len(),
        name.len() > 0,
        forall|i: int| 0 <= i < name.len() ==> is_alnum(name[i]),
        attrs_distinct(attributes),
        forall|i: int| 0 <= i < attributes.len() ==> attr_wf(attributes[i]),
        nodes_wf(children),
        is_void_name(name) ==> children.len() == 0,
        is_foreign_name(name) && !is_void_name(name) ==> children.len() == 1
            && children[0] is Foreign && foreign_opaque(children[0]->Foreign_0, name),
        !is_void_name(name) && !is_foreign_name(name) ==> texts_separated(children),
    ensures
        spec_closing(s, k, name, attributes, children) matches Ok((n, e)) ==> node_wf(n),
{
}

/// Every node a successful element production returns is well formed.
#[verifier::rlimit(60)]
proof fn lemma_element_wf(s: Seq<u8>, p: int)
    requires
        0 <= p < s.len(),
    ensures
        spec_element(s, p) matches Ok((n, e)) ==> node_wf(n) && n is Element,
    decreases s.len() - p, 0int,
{
    let np = p + 1;
    lemma_scan_while(s, np, |b: u8| is_alnum(b));
    let ne = alnum_end(s, np);
    if ne != np {
        let name = s.subrange(np, ne);
        lemma_scan_while(s, ne, |b: u8| is_ws(b));
        let w = ws_end(s, ne);
        lemma_attrs_bounds(s, w, Seq::empty());
        lemma_attrs_wf(s, w, Seq::empty());
        if let Ok((attributes, ap)) = spec_attrs(s, w, Seq::empty()) {
            if is_void_name(name) {
                assert(nodes_wf(Seq::<SpecNode>::empty()));
            } else if ap < s.len() && s[ap] == 62 {
                let cpos = ap + 1;
                if is_foreign_name(name) {
                    lemma_foreign_scan(s, cpos, name);
                    let fe = foreign_scan(s, cpos, name);
                    if fe < s.len() {
                        let children = seq![SpecNode::Foreign(s.subrange(cpos, fe))];
                        lemma_foreign_opaque(s, cpos, fe, name);
                        assert(children.drop_last() =~= Seq::<SpecNode>::empty());
                        assert(nodes_wf(Seq::<SpecNode>::empty()));
                        assert(children.last() == SpecNode::Foreign(s.subrange(cpos, fe)));
                        assert(node_wf(children.last()));
                        assert(nodes_wf(children));
                        lemma_closing_wf(s, fe, name, attributes, children);
                    }
                } else {
                    lemma_child_nodes_bounds(s, cpos, name);
                    lemma_child_nodes_wf(s, cpos, name);
                    if let Ok((children, k)) = spec_child_nodes(s, cpos, name) {
                        lemma_closing_wf(s, k, name, attributes, children);
                    }
                }
            }
        }
    }
}

/// Every child list a successful children production returns is well
/// formed, with its text runs nonempty and separated.
proof fn lemma_child_nodes_wf(s: Seq<u8>, p: int, name: Seq<u8>)
    requires
        0 <= p <= s.len(),
    ensures
        spec_child_nodes(s, p, name) matches Ok((ns, k)) ==> nodes_wf(ns) && texts_separated(ns)
            && (ns.len() > 0 && ns[0] is Text ==> p < s.len() && s[p] != 60),
    decreases s.len() - p, 3int,
{
    if close_marker_at(s, p) {
    } else if p + 1 >= s.len() {
    } else if is_ctl(s[p]) {
    } else {
        lemma_node_bounds(s, p);
        lemma_node_wf(s, p);
        if let Ok((n, e)) = spec_node(s, p) {
            lemma_child_nodes_wf(s, e, name);
            if let Ok((rest, k)) = spec_child_nodes(s, e, name) {
                let ns = seq![n] + rest;
                lemma_nodes_wf_prepend(n, rest);
                assert forall|i: int|
                    0 <= i < ns.len() implies (ns[i] is Text ==> ns[i]->Text_0.len() > 0) by {
                    if i > 0 {
                        assert(ns[i] == rest[i - 1]);
                    }
                }
                if n is Text {
                    lemma_scan_while(s, p, |b: u8| b != 60 && !is_ctl(b));
                    if rest.len() > 0 && rest[0] is Text {
                        assert(e == text_end(s, p));
                        assert(e < s.len() && s[e] != 60);
                        assert(false);
                    }
                }
                assert forall|i: int|
                    0 <= i < ns.len() - 1 implies !((#[trigger] ns[i]) is Text && ns[i
                    + 1] is Text) by {
                    if i > 0 {
                        assert(ns[i] == rest[i - 1] && ns[i + 1] == rest[i]);
                    }
                }
            }
        }
    }
}

/// Every node a successful node production returns is well formed.
proof fn lemma_node_wf(s: Seq<u8>, p: int)
    requires
        0 <= p <= s.len(),
    ensures
        spec_node(s, p) matches Ok((n, e)) ==> node_wf(n) && (n is Text ==> e == text_end(s, p)
            && (!(0 <= p < s.len() && s[p] == 60)) && (p < s.len() && !is_ctl(s[p])
            ==> n->Text_0.len() > 0)),
    decreases s.len() - p, 2int,
{
    if !(0 <= p < s.len() && s[p] == 60) {
        lemma_scan_while(s, p, |b: u8| b != 60 && !is_ctl(b));
    } else {
        lemma_strict_node_wf(s, p);
    }
}

/// Every node a successful strict-node production returns is well formed,
/// and is never a text run.
proof fn lemma_strict_node_wf(s: Seq<u8>, p: int)
    requires
        0 <= p <= s.len(),
    ensures
        spec_strict_node(s, p) matches Ok((n, e)) ==> node_wf(n) && !(n is Text),
    decreases s.len() - p, 1int,
{
    lemma_scan_while(s, p, |b: u8| is_ws(b));
    let w = ws_end(s, p);
    if w < s.len() && s[w] == 60 && w + 1 < s.len() {
        if s[w + 1] == 33 {
            if w + 2 < s.len() && s[w + 2] == 45 {
                lemma_comment_wf(s, w);
            } else {
                lemma_doctype_wf(s, w);
            }
        } else {
            lemma_element_wf(s, w);
        }
    }
}

/// Every top-level node list the document production accepts is well
/// formed.
proof fn lemma_document_wf(s: Seq<u8>, p: int)
    requires
        0 <= p <= s.len(),
    ensures
        spec_document(s, p) matches Ok(ns) ==> nodes_wf(ns),
    decreases s.len() - p,
{
    if p < s.len() {
        lemma_strict_node_bounds(s, p);
        lemma_strict_node_wf(s, p);
        if let Ok((n, e)) = spec_strict_node(s, p) {
            lemma_document_wf(s, e);
            if let Ok(rest) = spec_document(s, e) {
                lemma_nodes_wf_prepend(n, rest);
            }
        }
    }
}

/// Every document the parser accepts is well formed: attribute names are
/// pairwise distinct on each element, void elements have no children,
/// foreign elements hold exactly one opaque span free of their own closer,
/// comments obey the `--` boundary rules, and text holds neither `<` nor
/// control bytes.
pub proof fn lemma_parse_wf(s: Seq<u8>)
    ensures
        spec_parse(s) matches Ok(ns) ==> nodes_wf(ns),
{
    lemma_document_wf(s, 0);
}

} // verus!
