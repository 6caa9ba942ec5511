//! Round-tripping: re-serializing a parsed node and parsing the result
//! yields the same tree.
//!
//! [`render_node`] writes a node back out the canonical way (every
//! attribute double-quoted, no self-closing slash); [`theorem_node_roundtrip`]
//! proves that the parser maps that text back to exactly the node it came
//! from, and [`theorem_void_roundtrip`] and [`theorem_foreign_roundtrip`]
//! state the same directly over the name, attributes and content of a void
//! or foreign element.

use vstd::prelude::*;

use crate::ast::SpecAttr;
use crate::ast::SpecNode;
use crate::chars::eq_ci;
use crate::chars::is_alnum;
use crate::chars::is_ctl;
use crate::chars::is_foreign_name;
use crate::chars::is_void_name;
use crate::chars::is_ws;
use crate::chars::lower;
use crate::chars::lower_all;
use crate::grammar::alnum_end;
use crate::grammar::attr_name_end;
use crate::grammar::closer_at;
use crate::grammar::dd_at;
use crate::grammar::dd_scan;
use crate::grammar::spec_child_nodes;
use crate::grammar::spec_node;
use crate::grammar::foreign_scan;
use crate::grammar::has_attr_name;
use crate::grammar::quoted_end;
use crate::grammar::scan_while;
use crate::grammar::spec_attribute;
use crate::grammar::spec_attrs;
use crate::grammar::spec_closing;
use crate::grammar::spec_document;
use crate::grammar::spec_element;
use crate::grammar::spec_parse;
use crate::grammar::spec_strict_node;
use crate::grammar::ws_end;
use crate::grammar::SpecErr;
use crate::wf::attr_wf;
use crate::wf::attrs_distinct;
use crate::wf::closer_within;
use crate::wf::foreign_opaque;

verus! {

/// An attribute safe to write back double-quoted: well formed, with no
/// double quote in its value.
pub open spec fn attr_quotable(a: SpecAttr) -> bool {
    attr_wf(a) && forall|i: int| 0 <= i < a.value.len() ==> a.value[i] != 34
}

/// A tag name as the grammar scans one: nonempty and alphanumeric.
pub open spec fn name_wf(name: Seq<u8>) -> bool {
    name.len() > 0 && forall|i: int| 0 <= i < name.len() ==> is_alnum(name[i])
}

/// One attribute written back: `name="value"`.
pub open spec fn render_attr(a: SpecAttr) -> Seq<u8> {
    a.name + seq![61u8, 34u8] + a.value + seq![34u8]
}

/// An attribute list written back, one space before each attribute.
pub open spec fn render_attrs(attrs: Seq<SpecAttr>) -> Seq<u8>
    decreases attrs.len(),
{
    if attrs.len() == 0 {
        Seq::empty()
    } else {
        seq![32u8] + render_attr(attrs[0]) + render_attrs(attrs.drop_first())
    }
}

/// A void element written back: `<name attrs>`.
pub open spec fn render_void(name: Seq<u8>, attrs: Seq<SpecAttr>) -> Seq<u8> {
    seq![60u8] + name + render_attrs(attrs) + seq![62u8]
}

/// A foreign element written back: `<name attrs>content</name>`.
pub open spec fn render_foreign(name: Seq<u8>, attrs: Seq<SpecAttr>, content: Seq<u8>) -> Seq<
    u8,
> {
    seq![60u8] + name + render_attrs(attrs) + seq![62u8] + content + seq![60u8, 47u8] + name
        + seq![62u8]
}

/// A scan over a region known byte by byte stops exactly at its end.
proof fn lemma_scan_stops(s: Seq<u8>, p: int, e: int, keep: spec_fn(u8) -> bool)
    requires
        0 <= p <= e <= s.len(),
        forall|i: int| p <= i < e ==> keep(s[i]),
        e < s.len() ==> !keep(s[e]),
    ensures
        scan_while(s, p, keep) == e,
    decreases e - p,
{
    if p < e {
        lemma_scan_stops(s, p + 1, e, keep);
    }
}

/// A foreign scan stops exactly at the first closer.
proof fn lemma_foreign_scan_stops(s: Seq<u8>, p: int, e: int, name: Seq<u8>)
    requires
        0 <= p <= e <= s.len(),
        forall|i: int| p <= i < e ==> !closer_at(s, i, name),
        closer_at(s, e, name),
    ensures
        foreign_scan(s, p, name) == e,
    decreases e - p,
{
    if p < e {
        lemma_foreign_scan_stops(s, p + 1, e, name);
    }
}

/// A quoted-value scan over a region known byte by byte stops exactly at
/// its end.
proof fn lemma_quoted_stops(s: Seq<u8>, p: int, e: int, q: u8)
    requires
        0 <= p <= e <= s.len(),
        forall|i: int| p <= i < e ==> !is_ctl(s[i]) && s[i] != q,
        e < s.len() ==> is_ctl(s[e]) || s[e] == q,
    ensures
        quoted_end(s, p, q) == e,
    decreases e - p,
{
    if p < e {
        lemma_quoted_stops(s, p + 1, e, q);
    }
}

/// Case-insensitive equality is reflexive.
proof fn lemma_eq_ci_refl(a: Seq<u8>)
    ensures
        eq_ci(a, a),
{
}

/// Parsing an attribute list that was just written out returns exactly the
/// attributes written, stopping at the byte after them.
proof fn lemma_attrs_roundtrip(s: Seq<u8>, q: int, done: Seq<SpecAttr>, todo: Seq<SpecAttr>)
    requires
        0 <= q,
        q + render_attrs(todo).len() < s.len(),
        s.subrange(q, q + render_attrs(todo).len() as int) == render_attrs(todo),
        s[q + render_attrs(todo).len() as int] == 62 || s[q + render_attrs(todo).len() as int]
            == 47,
        attrs_distinct(done + todo),
        forall|i: int| 0 <= i < todo.len() ==> attr_quotable(todo[i]),
    ensures
        spec_attrs(s, ws_end(s, q), done) == Ok::<(Seq<SpecAttr>, int), SpecErr>(
            (done + todo, q + render_attrs(todo).len() as int),
        ),
    decreases todo.len(),
{
    let rall = render_attrs(todo);
    let e = q + rall.len() as int;
    assert forall|i: int| #![trigger s[i]] q <= i < e implies s[i] == rall[i - q] by {
        assert(s.subrange(q, e)[i - q] == s[i]);
    }
    if todo.len() == 0 {
        lemma_scan_stops(s, q, q, |b: u8| is_ws(b));
        assert(done + todo =~= done);
    } else {
        let a = todo[0];
        let ra = render_attr(a);
        let rest = render_attrs(todo.drop_first());
        assert(rall == seq![32u8] + ra + rest);
        assert(ra == a.name + seq![61u8, 34u8] + a.value + seq![34u8]);
        assert(ra.len() == a.name.len() + 3 + a.value.len());
        let p = q + 1;
        let ne = p + a.name.len() as int;
        let v = ne + 1;
        let vs = v + 1;
        let ve = vs + a.value.len() as int;
        // Each region of the rendered attribute, byte by byte.
        assert(s[q] == 32 && a.name.len() > 0);
        assert forall|i: int| #![trigger s[i]] p <= i < ne implies s[i] == a.name[i - p] by {
            assert(rall[i - q] == a.name[i - p]);
        }
        assert(s[ne] == 61 && s[v] == 34);
        assert forall|i: int| #![trigger s[i]] vs <= i < ve implies s[i] == a.value[i - vs] by {
            assert(rall[i - q] == a.value[i - vs]);
        }
        assert(s[ve] == 34);
        // The scans of the attribute production stop where the regions end.
        lemma_scan_stops(s, q, p, |b: u8| is_ws(b));
        lemma_scan_stops(
            s,
            p,
            ne,
            |b: u8| !is_ws(b) && !is_ctl(b) && b != 34 && b != 39 && b != 62 && b != 47 && b != 61,
        );
        lemma_scan_stops(s, ne, ne, |b: u8| is_ws(b));
        lemma_quoted_stops(s, vs, ve, 34);
        assert(attr_name_end(s, p) == ne);
        assert(quoted_end(s, vs, 34) == ve);
        assert(s.subrange(p, ne) =~= a.name);
        assert(s.subrange(vs, ve) =~= a.value);
        let parsed = SpecAttr { name: s.subrange(p, ne), value: s.subrange(vs, ve) };
        assert(parsed =~= a);
        assert(spec_attribute(s, p) == Ok::<(SpecAttr, int), SpecErr>((a, ve + 1)));
        // The just-parsed name never duplicates one already collected.
        assert(!has_attr_name(done, a.name)) by {
            if has_attr_name(done, a.name) {
                let i = choose|i: int| 0 <= i < done.len() && done[i].name == a.name;
                assert((done + todo)[i].name == (done + todo)[done.len() as int].name);
            }
        }
        // What follows the closing quote is the rendering of the remaining
        // attributes, so the recursion of the grammar continues on it.
        assert(s.subrange(ve + 1, e) =~= rest);
        assert(attrs_distinct(done.push(a) + todo.drop_first())) by {
            assert(done.push(a) + todo.drop_first() =~= done + todo);
        }
        assert forall|i: int|
            0 <= i < todo.drop_first().len() implies attr_quotable(
            #[trigger] todo.drop_first()[i],
        ) by {
            assert(todo.drop_first()[i] == todo[i + 1]);
        }
        lemma_attrs_roundtrip(s, ve + 1, done.push(a), todo.drop_first());
        crate::grammar::lemma_scan_while(s, ve + 1, |b: u8| is_ws(b));
        assert(ws_end(s, q) == p);
        assert(p < s.len() && !(s[p] == 62 || s[p] == 47));
        assert(done.push(a) + todo.drop_first() =~= done + todo);
    }
}

/// Between the start of foreign content and its intended closer there is
/// no earlier closer, so the foreign scan stops exactly at the closer
/// written out.
proof fn lemma_no_early_closer(s: Seq<u8>, cpos: int, fe: int, name: Seq<u8>)
    requires
        0 <= cpos <= fe,
        fe + 2 + name.len() <= s.len(),
        name_wf(name),
        foreign_opaque(s.subrange(cpos, fe), name),
        s[fe] == 60,
        s[fe + 1] == 47,
    ensures
        forall|r: int| cpos <= r < fe ==> !closer_at(s, r, name),
{
    let t = s.subrange(cpos, fe);
    assert forall|r: int| cpos <= r < fe implies !closer_at(s, r, name) by {
        if closer_at(s, r, name) {
            if r + 1 == fe {
                assert(s[r + 1] == 60);
            } else if r + 2 + name.len() <= fe {
                assert(t.subrange(r - cpos + 2, r - cpos + 2 + name.len() as int) =~= s.subrange(
                    r + 2,
                    r + 2 + name.len() as int,
                ));
                assert(t[r - cpos] == s[r] && t[r - cpos + 1] == s[r + 1]);
                assert(closer_within(t, r - cpos, name));
            } else {
                let j = fe - (r + 2);
                let sub = s.subrange(r + 2, r + 2 + name.len() as int);
                assert(lower_all(sub)[j] == lower_all(name)[j]);
                assert(sub[j] == s[fe]);
                assert(lower(60) == 60 && is_alnum(name[j]));
            }
        }
    }
}

/// Any node written back out: text and foreign spans verbatim, comments and
/// doctype declarations between their delimiters, elements by kind.
pub open spec fn render_node(n: SpecNode) -> Seq<u8>
    decreases n,
{
    match n {
        SpecNode::Text(t) => t,
        SpecNode::Foreign(t) => t,
        SpecNode::Comment(t) => seq![60u8, 33u8, 45u8, 45u8] + t + seq![45u8, 45u8, 62u8],
        SpecNode::Doctype(t) => seq![60u8, 33u8, 68u8, 79u8, 67u8, 84u8, 89u8, 80u8, 69u8, 32u8]
            + t + seq![62u8],
        SpecNode::Element { name, attributes, children } => if is_void_name(name) {
            render_void(name, attributes)
        } else if is_foreign_name(name) {
            render_foreign(name, attributes, children[0]->Foreign_0)
        } else {
            seq![60u8] + name + render_attrs(attributes) + seq![62u8] + render_nodes(children)
                + seq![60u8, 47u8] + name + seq![62u8]
        },
    }
}

/// A sequence of nodes written back out, one after the other.
pub open spec fn render_nodes(ns: Seq<SpecNode>) -> Seq<u8>
    decreases ns,
{
    if ns.len() == 0 {
        Seq::empty()
    } else {
        render_node(ns[0]) + render_nodes(ns.drop_first())
    }
}

/// What the round trip asks of one node: the shapes [`crate::wf`] proves of
/// every parsed node, sharpened by what writing back double-quoted demands
/// (no double quote in attribute values) and by what parsed trees also
/// satisfy (comments and text runs are never empty, a foreign span stands
/// only as the single child of its foreign element).
pub open spec fn node_rt(n: SpecNode) -> bool
    decreases n,
{
    match n {
        SpecNode::Text(t) => crate::wf::text_wf(t) && t.len() > 0,
        SpecNode::Foreign(t) => false,
        SpecNode::Comment(t) => crate::wf::comment_wf(t) && t.len() > 0,
        SpecNode::Doctype(t) => crate::wf::doctype_wf(t),
        SpecNode::Element { name, attributes, children } => {
            &&& name_wf(name)
            &&& attrs_distinct(attributes)
            &&& forall|i: int| 0 <= i < attributes.len() ==> attr_quotable(attributes[i])
            &&& if is_void_name(name) {
                children.len() == 0
            } else if is_foreign_name(name) {
                children.len() == 1 && children[0] is Foreign && foreign_opaque(
                    children[0]->Foreign_0,
                    name,
                )
            } else {
                crate::wf::texts_separated(children) && nodes_rt(children)
            }
        },
    }
}

/// What the round trip asks of a child list.
pub open spec fn nodes_rt(ns: Seq<SpecNode>) -> bool
    decreases ns,
{
    if ns.len() == 0 {
        true
    } else {
        node_rt(ns[0]) && nodes_rt(ns.drop_first())
    }
}

/// Re-parsing a re-serialized void element yields exactly that element.
///
/// For any void-named element with well-formed, pairwise-distinct,
/// double-quotable attributes, writing it back out as `<name a="v" ...>`
/// and parsing the result gives a document holding that one element, with
/// no children.
pub proof fn theorem_void_roundtrip(name: Seq<u8>, attrs: Seq<SpecAttr>)
    requires
        name_wf(name),
        is_void_name(name),
        attrs_distinct(attrs),
        forall|i: int| 0 <= i < attrs.len() ==> attr_quotable(attrs[i]),
    ensures
        spec_parse(render_void(name, attrs)) == Ok::<Seq<SpecNode>, SpecErr>(
            seq![SpecNode::Element { name, attributes: attrs, children: Seq::empty() }],
        ),
{
    let s = render_void(name, attrs);
    let ral = render_attrs(attrs);
    let ne = 1 + name.len() as int;
    let e62 = ne + ral.len() as int;
    assert(s.len() == e62 + 1);
    assert(s[0] == 60);
    assert forall|i: int| #![trigger s[i]] 1 <= i < ne implies s[i] == name[i - 1] by {
        assert((seq![60u8] + name)[i] == name[i - 1]);
    }
    assert(s[e62] == 62);
    lemma_scan_stops(s, 0, 0, |b: u8| is_ws(b));
    lemma_scan_stops(s, 1, ne, |b: u8| is_alnum(b));
    assert(alnum_end(s, 1) == ne);
    assert(s.subrange(1, ne) =~= name);
    assert(s.subrange(ne, e62) =~= ral);
    assert(attrs_distinct(Seq::<SpecAttr>::empty() + attrs)) by {
        assert(Seq::<SpecAttr>::empty() + attrs =~= attrs);
    }
    lemma_attrs_roundtrip(s, ne, Seq::empty(), attrs);
    assert(Seq::<SpecAttr>::empty() + attrs =~= attrs);
    let el = SpecNode::Element { name, attributes: attrs, children: Seq::empty() };
    assert(spec_element(s, 0) == Ok::<(SpecNode, int), SpecErr>((el, e62 + 1))) by {
        let got = SpecNode::Element {
            name: s.subrange(1, ne),
            attributes: attrs,
            children: Seq::empty(),
        };
        assert(got =~= el);
    }
    assert(spec_strict_node(s, 0) == Ok::<(SpecNode, int), SpecErr>((el, e62 + 1))) by {
        assert(!is_alnum(33) && is_alnum(s[1]));
    }
    assert(spec_document(s, e62 + 1) == Ok::<Seq<SpecNode>, SpecErr>(Seq::empty()));
    assert(seq![el] + Seq::<SpecNode>::empty() =~= seq![el]);
}

/// Re-parsing a re-serialized foreign element yields exactly that element.
///
/// For any foreign-named element with well-formed, pairwise-distinct,
/// double-quotable attributes and opaque content, writing it back out as
/// `<name a="v" ...>content</name>` and parsing the result gives a
/// document holding that one element, whose single child is the content.
#[verifier::rlimit(100)]
#[verifier::spinoff_prover]
pub proof fn theorem_foreign_roundtrip(name: Seq<u8>, attrs: Seq<SpecAttr>, content: Seq<u8>)
    requires
        name_wf(name),
        is_foreign_name(name),
        !is_void_name(name),
        attrs_distinct(attrs),
        forall|i: int| 0 <= i < attrs.len() ==> attr_quotable(attrs[i]),
        foreign_opaque(content, name),
    ensures
        spec_parse(render_foreign(name, attrs, content)) == Ok::<Seq<SpecNode>, SpecErr>(
            seq![
                SpecNode::Element {
                    name,
                    attributes: attrs,
                    children: seq![SpecNode::Foreign(content)],
                },
            ],
        ),
{
    let s = render_foreign(name, attrs, content);
    let ral = render_attrs(attrs);
    let ne = 1 + name.len() as int;
    let e62 = ne + ral.len() as int;
    let cpos = e62 + 1;
    let fe = cpos + content.len() as int;
    let cl = fe + 2;
    let cne = cl + name.len() as int;
    assert(s.len() == cne + 1);
    assert(s[0] == 60);
    assert forall|i: int| #![trigger s[i]] 1 <= i < ne implies s[i] == name[i - 1] by {
        assert((seq![60u8] + name)[i] == name[i - 1]);
    }
    assert(s[e62] == 62);
    assert forall|i: int| #![trigger s[i]] cpos <= i < fe implies s[i] == content[i - cpos] by {
        assert((seq![60u8] + name + ral + seq![62u8] + content)[i] == content[i - cpos]);
    }
    assert(s[fe] == 60 && s[fe + 1] == 47);
    assert forall|i: int| #![trigger s[i]] cl <= i < cne implies s[i] == name[i - cl] by {
        assert((seq![60u8] + name + ral + seq![62u8] + content + seq![60u8, 47u8] + name)[i]
            == name[i - cl]);
    }
    assert(s[cne] == 62);
    // The opening tag parses as in the void case.
    lemma_scan_stops(s, 0, 0, |b: u8| is_ws(b));
    lemma_scan_stops(s, 1, ne, |b: u8| is_alnum(b));
    assert(alnum_end(s, 1) == ne);
    assert(s.subrange(1, ne) =~= name);
    assert(s.subrange(ne, e62) =~= ral);
    assert(attrs_distinct(Seq::<SpecAttr>::empty() + attrs)) by {
        assert(Seq::<SpecAttr>::empty() + attrs =~= attrs);
    }
    lemma_attrs_roundtrip(s, ne, Seq::empty(), attrs);
    assert(Seq::<SpecAttr>::empty() + attrs =~= attrs);
    // The foreign scan stops exactly at the closer written out.
    assert(s.subrange(cpos, fe) =~= content);
    assert(s.subrange(cl, cne) =~= name);
    lemma_eq_ci_refl(name);
    assert(closer_at(s, fe, name));
    lemma_no_early_closer(s, cpos, fe, name);
    lemma_foreign_scan_stops(s, cpos, fe, name);
    // The closing tag matches the opening one.
    lemma_scan_stops(s, cl, cne, |b: u8| is_alnum(b));
    assert(alnum_end(s, cl) == cne);
    lemma_scan_stops(s, cne, cne, |b: u8| is_ws(b));
    let children = seq![SpecNode::Foreign(content)];
    let el = SpecNode::Element { name, attributes: attrs, children };
    assert(spec_closing(s, fe, s.subrange(1, ne), attrs, seq![
        SpecNode::Foreign(s.subrange(cpos, fe)),
    ]) == Ok::<(SpecNode, int), SpecErr>((el, cne + 1))) by {
        let got = SpecNode::Element {
            name: s.subrange(1, ne),
            attributes: attrs,
            children: seq![SpecNode::Foreign(s.subrange(cpos, fe))],
        };
        assert(seq![SpecNode::Foreign(s.subrange(cpos, fe))] =~= children);
        assert(got =~= el);
    }
    assert(spec_element(s, 0) == Ok::<(SpecNode, int), SpecErr>((el, cne + 1)));
    assert(spec_strict_node(s, 0) == Ok::<(SpecNode, int), SpecErr>((el, cne + 1))) by {
        assert(!is_alnum(33) && is_alnum(s[1]));
    }
    assert(spec_document(s, cne + 1) == Ok::<Seq<SpecNode>, SpecErr>(Seq::empty()));
    assert(seq![el] + Seq::<SpecNode>::empty() =~= seq![el]);
}

/// `dd_scan` stops exactly at a `--` known to be the first one.
proof fn lemma_dd_stops(s: Seq<u8>, p: int, e: int)
    requires
        0 <= p <= e,
        forall|i: int| p <= i < e ==> !dd_at(s, i),
        dd_at(s, e),
    ensures
        dd_scan(s, p) == e,
    decreases e - p,
{
    if p < e {
        lemma_dd_stops(s, p + 1, e);
    }
}

/// What every rendered node starts with: text starts with an ordinary byte,
/// everything else with `<` and then a byte other than `/`.
proof fn lemma_render_head(n: SpecNode)
    requires
        node_rt(n),
    ensures
        render_node(n).len() > 0,
        n is Text ==> render_node(n)[0] != 60 && !is_ctl(render_node(n)[0]),
        !(n is Text) ==> render_node(n).len() >= 2 && render_node(n)[0] == 60 && render_node(
            n,
        )[1] != 47 && render_node(n)[1] != 60 && !is_ctl(render_node(n)[0]),
{
    match n {
        SpecNode::Text(t) => {
            assert(render_node(n)[0] == t[0]);
        },
        SpecNode::Foreign(t) => {},
        SpecNode::Comment(t) => {},
        SpecNode::Doctype(t) => {},
        SpecNode::Element { name, attributes, children } => {
            if is_void_name(name) {
                assert(render_node(n)[1] == name[0]);
            } else if is_foreign_name(name) {
                assert(render_node(n)[1] == name[0]);
            } else {
                assert(render_node(n)[1] == name[0]);
            }
            assert(is_alnum(name[0]));
        },
    }
}

/// Where each piece of a written-out foreign-shaped element stands in the
/// enclosing text.  The same layout serves ordinary elements, whose body is
/// the rendering of their children.
proof fn lemma_foreign_layout(s: Seq<u8>, p: int, name: Seq<u8>, attrs: Seq<SpecAttr>, body: Seq<
    u8,
>)
    requires
        0 <= p,
        p + render_foreign(name, attrs, body).len() <= s.len(),
        s.subrange(p, p + render_foreign(name, attrs, body).len() as int) == render_foreign(
            name,
            attrs,
            body,
        ),
    ensures
        ({
            let ne = p + 1 + name.len() as int;
            let e62 = ne + render_attrs(attrs).len() as int;
            let cpos = e62 + 1;
            let fe = cpos + body.len() as int;
            let cne = fe + 2 + name.len() as int;
            &&& p + render_foreign(name, attrs, body).len() as int == cne + 1
            &&& s[p] == 60
            &&& s.subrange(p + 1, ne) == name
            &&& s.subrange(ne, e62) == render_attrs(attrs)
            &&& s[e62] == 62
            &&& s.subrange(cpos, fe) == body
            &&& s[fe] == 60
            &&& s[fe + 1] == 47
            &&& s.subrange(fe + 2, cne) == name
            &&& s[cne] == 62
        }),
{
    let r = render_foreign(name, attrs, body);
    let e = p + r.len() as int;
    let ne = p + 1 + name.len() as int;
    let e62 = ne + render_attrs(attrs).len() as int;
    let cpos = e62 + 1;
    let fe = cpos + body.len() as int;
    let cne = fe + 2 + name.len() as int;
    assert forall|i: int| #![trigger s[i]] p <= i < e implies s[i] == r[i - p] by {
        assert(s.subrange(p, e)[i - p] == s[i]);
    }
    assert(s.subrange(p + 1, ne) =~= name);
    assert(s.subrange(ne, e62) =~= render_attrs(attrs));
    assert(s.subrange(cpos, fe) =~= body);
    assert(s.subrange(fe + 2, cne) =~= name);
}

/// Where each piece of a written-out void element stands.
proof fn lemma_void_layout(s: Seq<u8>, p: int, name: Seq<u8>, attrs: Seq<SpecAttr>)
    requires
        0 <= p,
        p + render_void(name, attrs).len() <= s.len(),
        s.subrange(p, p + render_void(name, attrs).len() as int) == render_void(name, attrs),
    ensures
        ({
            let ne = p + 1 + name.len() as int;
            let e62 = ne + render_attrs(attrs).len() as int;
            &&& p + render_void(name, attrs).len() as int == e62 + 1
            &&& s[p] == 60
            &&& s.subrange(p + 1, ne) == name
            &&& s.subrange(ne, e62) == render_attrs(attrs)
            &&& s[e62] == 62
        }),
{
    let r = render_void(name, attrs);
    let e = p + r.len() as int;
    let ne = p + 1 + name.len() as int;
    let e62 = ne + render_attrs(attrs).len() as int;
    assert forall|i: int| #![trigger s[i]] p <= i < e implies s[i] == r[i - p] by {
        assert(s.subrange(p, e)[i - p] == s[i]);
    }
    assert(s.subrange(p + 1, ne) =~= name);
    assert(s.subrange(ne, e62) =~= render_attrs(attrs));
}

/// The opening tag of a written-out element parses back to its name and
/// attributes, leaving the parse right after the closing `>` of the tag.
proof fn lemma_opening_roundtrip(s: Seq<u8>, p: int, name: Seq<u8>, attrs: Seq<SpecAttr>)
    requires
        0 <= p,
        name_wf(name),
        attrs_distinct(attrs),
        forall|i: int| 0 <= i < attrs.len() ==> attr_quotable(attrs[i]),
        ({
            let ne = p + 1 + name.len() as int;
            let e62 = ne + render_attrs(attrs).len() as int;
            &&& e62 < s.len()
            &&& s[p] == 60
            &&& s.subrange(p + 1, ne) == name
            &&& s.subrange(ne, e62) == render_attrs(attrs)
            &&& s[e62] == 62
        }),
    ensures
        ({
            let ne = p + 1 + name.len() as int;
            let e62 = ne + render_attrs(attrs).len() as int;
            &&& alnum_end(s, p + 1) == ne
            &&& spec_attrs(s, ws_end(s, ne), Seq::empty()) == Ok::<(Seq<SpecAttr>, int), SpecErr>(
                (attrs, e62),
            )
        }),
{
    let ne = p + 1 + name.len() as int;
    let e62 = ne + render_attrs(attrs).len() as int;
    assert forall|i: int| #![trigger s[i]] p + 1 <= i < ne implies s[i] == name[i - (p + 1)] by {
        assert(s.subrange(p + 1, ne)[i - (p + 1)] == s[i]);
    }
    assert forall|i: int| p + 1 <= i < ne implies is_alnum(s[i]) by {
        assert(is_alnum(name[i - (p + 1)]));
    }
    assert(s[ne] != 60 && !is_alnum(s[ne])) by {
        if render_attrs(attrs).len() == 0 {
            assert(s[ne] == s[e62]);
        } else {
            assert(s.subrange(ne, e62)[0] == s[ne]);
            assert(render_attrs(attrs)[0] == 32);
        }
    }
    lemma_scan_stops(s, p + 1, ne, |b: u8| is_alnum(b));
    assert(attrs_distinct(Seq::<SpecAttr>::empty() + attrs)) by {
        assert(Seq::<SpecAttr>::empty() + attrs =~= attrs);
    }
    lemma_attrs_roundtrip(s, ne, Seq::empty(), attrs);
    assert(Seq::<SpecAttr>::empty() + attrs =~= attrs);
}

/// Re-parsing one written-out element yields exactly that element.
#[verifier::rlimit(100)]
#[verifier::spinoff_prover]
proof fn lemma_element_rt(s: Seq<u8>, p: int, n: SpecNode)
    requires
        0 <= p,
        p + render_node(n).len() <= s.len(),
        s.subrange(p, p + render_node(n).len() as int) == render_node(n),
        node_rt(n),
        n is Element,
    ensures
        spec_element(s, p) == Ok::<(SpecNode, int), SpecErr>(
            (n, p + render_node(n).len() as int),
        ),
    decreases n, 0int,
{
    let name = n->Element_name;
    let attrs = n->Element_attributes;
    let children = n->Element_children;
    let e = p + render_node(n).len() as int;
    let ne = p + 1 + name.len() as int;
    let e62 = ne + render_attrs(attrs).len() as int;
    let cpos = e62 + 1;
    if is_void_name(name) {
        lemma_void_layout(s, p, name, attrs);
        lemma_opening_roundtrip(s, p, name, attrs);
        assert(children =~= Seq::<SpecNode>::empty());
        assert(s.subrange(p + 1, ne) == name);
        assert(s[e62] == 62 && e == e62 + 1);
        let got = SpecNode::Element {
            name: s.subrange(p + 1, ne),
            attributes: attrs,
            children: Seq::empty(),
        };
        assert(got =~= n);
        assert(spec_element(s, p) == Ok::<(SpecNode, int), SpecErr>((got, e62 + 1)));
    } else if is_foreign_name(name) {
        let body = children[0]->Foreign_0;
        lemma_foreign_layout(s, p, name, attrs, body);
        lemma_opening_roundtrip(s, p, name, attrs);
        let fe = cpos + body.len() as int;
        let cne = fe + 2 + name.len() as int;
        lemma_eq_ci_refl(name);
        assert(closer_at(s, fe, name));
        lemma_no_early_closer(s, cpos, fe, name);
        lemma_foreign_scan_stops(s, cpos, fe, name);
        assert forall|i: int| #![trigger s[i]] fe + 2 <= i < cne implies s[i] == name[i - (fe
            + 2)] by {
            assert(s.subrange(fe + 2, cne)[i - (fe + 2)] == s[i]);
        }
        assert forall|i: int| fe + 2 <= i < cne implies is_alnum(s[i]) by {
            assert(is_alnum(name[i - (fe + 2)]));
        }
        lemma_scan_stops(s, fe + 2, cne, |b: u8| is_alnum(b));
        lemma_scan_stops(s, cne, cne, |b: u8| is_ws(b));
        let got = SpecNode::Element {
            name: s.subrange(p + 1, ne),
            attributes: attrs,
            children: seq![SpecNode::Foreign(s.subrange(cpos, fe))],
        };
        assert(seq![SpecNode::Foreign(s.subrange(cpos, fe))] =~= children);
        assert(got =~= n);
    } else {
        let body = render_nodes(children);
        assert(render_node(n) == render_foreign(name, attrs, body));
        lemma_foreign_layout(s, p, name, attrs, body);
        lemma_opening_roundtrip(s, p, name, attrs);
        let k = cpos + body.len() as int;
        let cne = k + 2 + name.len() as int;
        lemma_children_rt(s, cpos, children, name);
        assert forall|i: int| #![trigger s[i]] k + 2 <= i < cne implies s[i] == name[i - (k
            + 2)] by {
            assert(s.subrange(k + 2, cne)[i - (k + 2)] == s[i]);
        }
        assert forall|i: int| k + 2 <= i < cne implies is_alnum(s[i]) by {
            assert(is_alnum(name[i - (k + 2)]));
        }
        lemma_scan_stops(s, k + 2, cne, |b: u8| is_alnum(b));
        lemma_scan_stops(s, cne, cne, |b: u8| is_ws(b));
        lemma_eq_ci_refl(name);
        let got = SpecNode::Element {
            name: s.subrange(p + 1, ne),
            attributes: attrs,
            children,
        };
        assert(got =~= n);
    }
}

/// Re-parsing a written-out child list yields exactly those children,
/// stopping at the `</` that follows them.
proof fn lemma_children_rt(s: Seq<u8>, p: int, ns: Seq<SpecNode>, name: Seq<u8>)
    requires
        0 <= p,
        p + render_nodes(ns).len() <= s.len(),
        s.subrange(p, p + render_nodes(ns).len() as int) == render_nodes(ns),
        nodes_rt(ns),
        crate::wf::texts_separated(ns),
        ({
            let k = p + render_nodes(ns).len() as int;
            k + 1 < s.len() && s[k] == 60 && s[k + 1] == 47
        }),
    ensures
        spec_child_nodes(s, p, name) == Ok::<(Seq<SpecNode>, int), SpecErr>(
            (ns, p + render_nodes(ns).len() as int),
        ),
    decreases ns, 0int,
{
    let k = p + render_nodes(ns).len() as int;
    if ns.len() == 0 {
        assert(Seq::<SpecNode>::empty() =~= ns);
    } else {
        let n0 = ns[0];
        let r0 = render_node(n0);
        let rest = ns.drop_first();
        let m = p + r0.len() as int;
        lemma_render_head(n0);
        assert(render_nodes(ns) == r0 + render_nodes(rest));
        assert forall|i: int| #![trigger s[i]] p <= i < k implies s[i] == render_nodes(ns)[i
            - p] by {
            assert(s.subrange(p, k)[i - p] == s[i]);
        }
        assert(s.subrange(p, m) =~= r0);
        assert(s.subrange(m, k) =~= render_nodes(rest));
        assert(s[p] == r0[0]);
        // This position is not the closing `</`, nor the end, nor a control
        // byte, so one node is parsed here.
        assert(!(s[p] == 60 && s[p + 1] == 47)) by {
            if n0 is Text {
            } else {
                assert(s[p + 1] == r0[1]);
            }
        }
        assert(nodes_rt(rest) && node_rt(n0));
        assert forall|i: int|
            0 <= i < rest.len() implies (#[trigger] rest[i]) == ns[i + 1] by {}
        assert(crate::wf::texts_separated(rest)) by {
            assert(forall|i: int|
                0 <= i < rest.len() ==> ((#[trigger] rest[i]) is Text ==> rest[i]->Text_0.len()
                    > 0));
            assert forall|i: int|
                0 <= i < rest.len() - 1 implies !((#[trigger] rest[i]) is Text && rest[i
                + 1] is Text) by {
                assert(rest[i] == ns[i + 1] && rest[i + 1] == ns[i + 2]);
            }
        }
        if n0 is Text {
            assert(m < s.len() && s[m] == 60) by {
                if rest.len() == 0 {
                } else {
                    lemma_render_head(rest[0]);
                    assert(render_nodes(rest)[0] == render_node(rest[0])[0]);
                    assert(s.subrange(m, k)[0] == s[m]);
                    assert(!(rest[0] is Text));
                }
            }
        }
        lemma_node_rt(s, p, n0);
        lemma_children_rt(s, m, rest, name);
        assert(seq![n0] + rest =~= ns);
    }
}

/// Re-parsing one written-out node yields exactly that node.
#[verifier::rlimit(100)]
#[verifier::spinoff_prover]
proof fn lemma_node_rt(s: Seq<u8>, p: int, n: SpecNode)
    requires
        0 <= p,
        p + render_node(n).len() <= s.len(),
        s.subrange(p, p + render_node(n).len() as int) == render_node(n),
        node_rt(n),
        n is Text ==> p + render_node(n).len() < s.len() && s[p + render_node(n).len() as int]
            == 60,
    ensures
        spec_node(s, p) == Ok::<(SpecNode, int), SpecErr>((n, p + render_node(n).len() as int)),
    decreases n, 1int,
{
    lemma_render_head(n);
    let r = render_node(n);
    let e = p + r.len() as int;
    assert forall|i: int| #![trigger s[i]] p <= i < e implies s[i] == r[i - p] by {
        assert(s.subrange(p, e)[i - p] == s[i]);
    }
    match n {
        SpecNode::Text(t) => {
            assert forall|i: int| p <= i < e implies s[i] != 60 && !is_ctl(s[i]) by {
                assert(t[i - p] != 60 && !is_ctl(t[i - p]));
            }
            lemma_scan_stops(s, p, e, |b: u8| b != 60 && !is_ctl(b));
            assert(s.subrange(p, e) =~= t);
        },
        SpecNode::Foreign(t) => {},
        SpecNode::Comment(t) => {
            lemma_scan_stops(s, p, p, |b: u8| is_ws(b));
            let c = p + 4;
            let e0 = c + t.len() as int;
            assert(s[p + 1] == 33 && s[p + 2] == 45 && s[p + 3] == 45);
            assert(s[c] == t[0] && t[0] != 62 && t[0] != 45);
            assert(s[e0] == 45 && s[e0 + 1] == 45 && s[e0 + 2] == 62);
            assert forall|i: int| c <= i < e0 implies !dd_at(s, i) by {
                if i < e0 - 1 {
                    assert(s[i] == t[i - c] && s[i + 1] == t[i - c + 1]);
                    assert(!((#[trigger] t[i - c]) == 45 && t[i - c + 1] == 45));
                } else {
                    assert(s[i] == t[t.len() - 1]);
                }
            }
            assert(dd_at(s, e0));
            lemma_dd_stops(s, c, e0);
            assert(s.subrange(c, e0) =~= t);
        },
        SpecNode::Doctype(t) => {
            lemma_scan_stops(s, p, p, |b: u8| is_ws(b));
            let w = p + 10;
            let e0 = w + t.len() as int;
            assert(s[p + 1] == 33 && s[p + 2] == 68 && s[p + 9] == 32 && s[e0] == 62);
            assert(s.subrange(p + 2, p + 9) =~= seq![68u8, 79u8, 67u8, 84u8, 89u8, 80u8, 69u8]);
            lemma_eq_ci_refl(seq![68u8, 79u8, 67u8, 84u8, 89u8, 80u8, 69u8]);
            assert(s[w] != 32 || t.len() == 0) by {
                if t.len() > 0 {
                    assert(s[w] == t[0]);
                }
            }
            assert(w < s.len() && !is_ws(s[w])) by {
                if t.len() > 0 {
                    assert(s[w] == t[0] && !is_ws(t[0]));
                }
            }
            lemma_scan_stops(s, p + 9, w, |b: u8| is_ws(b));
            assert forall|i: int| w <= i < e0 implies s[i] != 62 by {
                assert((#[trigger] t[i - w]) != 62);
            }
            lemma_scan_stops(s, w, e0, |b: u8| b != 62);
            assert(s.subrange(w, e0) =~= t);
        },
        SpecNode::Element { name, attributes, children } => {
            lemma_element_rt(s, p, n);
            lemma_scan_stops(s, p, p, |b: u8| is_ws(b));
            assert(s[p] == 60 && s[p + 1] == r[1]);
            assert(is_alnum(name[0]) && r[1] == name[0]) by {
                if is_void_name(name) {
                } else if is_foreign_name(name) {
                } else {
                }
            }
            assert(s[p + 1] != 33);
        },
    }
}

/// Re-parsing any re-serialized node yields exactly that node.
///
/// For any well-formed node that is valid outside text position — a
/// comment, a doctype declaration, or an element whose attributes are
/// double-quotable and whose descendants are themselves well formed —
/// writing it back out and parsing the result gives a document holding
/// exactly that node.
pub proof fn theorem_node_roundtrip(n: SpecNode)
    requires
        node_rt(n),
        !(n is Text),
    ensures
        spec_parse(render_node(n)) == Ok::<Seq<SpecNode>, SpecErr>(seq![n]),
{
    let s = render_node(n);
    lemma_render_head(n);
    assert(s.subrange(0, s.len() as int) =~= s);
    lemma_node_rt(s, 0, n);
    assert(spec_strict_node(s, 0) == Ok::<(SpecNode, int), SpecErr>((n, s.len() as int)));
    assert(spec_document(s, s.len() as int) == Ok::<Seq<SpecNode>, SpecErr>(Seq::empty()));
    assert(seq![n] + Seq::<SpecNode>::empty() =~= seq![n]);
}

} // verus!
