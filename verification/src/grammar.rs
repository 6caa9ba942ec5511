//! The grammar, stated mathematically.
//!
//! Every production of the parser is defined here as a spec function over a
//! sequence of source bytes and a starting offset.  A production either
//! succeeds with a value and the offset just past what it consumed, or fails
//! with an [`ErrKind`] and the offset at the failure site.  The executable
//! parser in [`crate::parser`] is proved to return exactly these results.

use vstd::prelude::*;

use crate::ast::SpecAttr;
use crate::ast::SpecNode;
use crate::chars::eq_ci;
use crate::chars::is_alnum;
use crate::chars::is_ctl;
use crate::chars::is_foreign_name;
use crate::chars::is_void_name;
use crate::chars::is_ws;

verus! {

/// The distinct failures the grammar can report.
pub enum ErrKind {
    /// A specific delimiter byte was required and something else (or the end
    /// of the document) was found.
    Expected { what: Seq<char>, byte: u8, found: Option<u8> },
    /// The document ended right after the `<` that opened a node.
    AfterNodeStart,
    /// `<!` was followed neither by a comment nor by a doctype declaration.
    DoctypeOrComment,
    /// A tag name had to start here, alphanumerically.
    ExpectedAlnum { found: Option<u8> },
    /// Two attributes of one element carry the same name.
    DuplicateAttribute,
    /// The document ended before the element's closing tag was found.
    MissingClosingTag { name: Seq<u8> },
    /// The closing tag name does not match the opening tag name.
    MismatchedClosingTag { opened: Seq<u8>, closed: Seq<u8> },
    /// An attribute name had to start here.
    ExpectedAttrName,
    /// A control byte appeared where the grammar forbids one.
    CtlByte { byte: u8 },
    /// The document ended right after an attribute name.
    AfterAttrName,
    /// The document ended right after the `=` of an attribute.
    AttrValueAfterEq,
    /// Comment content may not start with `>` or `-`.
    CommentStart,
    /// Comment content may not contain `--` except in its closer.
    CommentDoubleDash,
    /// The document ended before `-->`.
    CommentCloser,
    /// The document ended before the `>` of a doctype declaration.
    DoctypeCloser,
    /// The document ended inside foreign content, before its closing tag.
    ForeignCloser { name: Seq<u8> },
}

/// A failure: what went wrong, and the byte offset of the failure site.
pub struct SpecErr {
    pub kind: ErrKind,
    pub at: int,
}

/// The byte at offset `p`, if it exists.
pub open spec fn at_byte(s: Seq<u8>, p: int) -> Option<u8> {
    if 0 <= p < s.len() {
        Some(s[p])
    } else {
        None
    }
}

/// First offset at or after `p` whose byte fails `keep` (or the end).
pub open spec fn scan_while(s: Seq<u8>, p: int, keep: spec_fn(u8) -> bool) -> int
    decreases s.len() - p,
{
    if 0 <= p < s.len() && keep(s[p]) {
        scan_while(s, p + 1, keep)
    } else {
        p
    }
}

/// End of the whitespace run starting at `p`.
pub open spec fn ws_end(s: Seq<u8>, p: int) -> int {
    scan_while(s, p, |b: u8| is_ws(b))
}

/// End of the alphanumeric run starting at `p`.
pub open spec fn alnum_end(s: Seq<u8>, p: int) -> int {
    scan_while(s, p, |b: u8| is_alnum(b))
}

/// End of a text run: everything up to the next `<`, control byte or the end.
pub open spec fn text_end(s: Seq<u8>, p: int) -> int {
    scan_while(s, p, |b: u8| b != 60 && !is_ctl(b))
}

/// End of an attribute name: stops at whitespace, control bytes, quotes,
/// `>`, `/`, `=` or the end.
pub open spec fn attr_name_end(s: Seq<u8>, p: int) -> int {
    scan_while(
        s,
        p,
        |b: u8| !is_ws(b) && !is_ctl(b) && b != 34 && b != 39 && b != 62 && b != 47 && b != 61,
    )
}

/// End of a quoted attribute value: stops at the quote byte `q`, a control
/// byte or the end.
pub open spec fn quoted_end(s: Seq<u8>, p: int, q: u8) -> int {
    scan_while(s, p, |b: u8| !is_ctl(b) && b != q)
}

/// End of an unquoted attribute value: stops at whitespace, control bytes,
/// quotes, `=`, `>`, `<`, a backtick or the end.
pub open spec fn unquoted_end(s: Seq<u8>, p: int) -> int {
    scan_while(
        s,
        p,
        |b: u8|
            !is_ctl(b) && !is_ws(b) && b != 34 && b != 39 && b != 61 && b != 62 && b != 60 && b
                != 96,
    )
}

/// End of doctype content: everything up to the next `>` or the end.
pub open spec fn doctype_end(s: Seq<u8>, p: int) -> int {
    scan_while(s, p, |b: u8| b != 62)
}

/// Whether the two bytes at `p` are `--`.
pub open spec fn dd_at(s: Seq<u8>, p: int) -> bool {
    0 <= p && p + 1 < s.len() && s[p] == 45 && s[p + 1] == 45
}

/// First offset at or after `p` where `--` stands (or the end).
pub open spec fn dd_scan(s: Seq<u8>, p: int) -> int
    decreases s.len() - p,
{
    if !(0 <= p < s.len()) {
        p
    } else if dd_at(s, p) {
        p
    } else {
        dd_scan(s, p + 1)
    }
}

/// Whether a case-insensitive closer `</name` stands at offset `p`.
pub open spec fn closer_at(s: Seq<u8>, p: int, name: Seq<u8>) -> bool {
    &&& 0 <= p
    &&& p + 1 < s.len()
    &&& s[p] == 60
    &&& s[p + 1] == 47
    &&& p + 2 + name.len() <= s.len()
    &&& eq_ci(s.subrange(p + 2, p + 2 + name.len() as int), name)
}

/// First offset at or after `p` where the closer of `name` stands (or the
/// end).
pub open spec fn foreign_scan(s: Seq<u8>, p: int, name: Seq<u8>) -> int
    decreases s.len() - p,
{
    if !(0 <= p < s.len()) {
        p
    } else if closer_at(s, p, name) {
        p
    } else {
        foreign_scan(s, p + 1, name)
    }
}

/// Whether `</` stands at offset `p` (both bytes must exist).
pub open spec fn close_marker_at(s: Seq<u8>, p: int) -> bool {
    0 <= p && p + 1 < s.len() && s[p] == 60 && s[p + 1] == 47
}

/// Whether `attrs` already holds an attribute named `name` (case-sensitive).
pub open spec fn has_attr_name(attrs: Seq<SpecAttr>, name: Seq<u8>) -> bool {
    exists|i: int| 0 <= i < attrs.len() && attrs[i].name == name
}

/// The text production: a maximal, possibly empty run of ordinary bytes.
/// Always succeeds.
pub open spec fn spec_text(s: Seq<u8>, p: int) -> (SpecNode, int) {
    let e = text_end(s, p);
    (SpecNode::Text(s.subrange(p, e)), e)
}

/// The comment production, entered at the `<` of `<!--`.
pub open spec fn spec_comment(s: Seq<u8>, p: int) -> Result<(SpecNode, int), SpecErr> {
    if !(p + 3 < s.len() && s[p + 3] == 45) {
        Err(
            SpecErr {
                kind: ErrKind::Expected {
                    what: "second - in comment declaration"@,
                    byte: 45,
                    found: at_byte(s, p + 3),
                },
                at: p + 3,
            },
        )
    } else {
        let c = p + 4;
        if c < s.len() && (s[c] == 62 || s[c] == 45) {
            Err(SpecErr { kind: ErrKind::CommentStart, at: c })
        } else {
            let q = dd_scan(s, c);
            if q >= s.len() {
                Err(SpecErr { kind: ErrKind::CommentCloser, at: s.len() as int })
            } else if q + 2 < s.len() && s[q + 2] == 62 {
                Ok((SpecNode::Comment(s.subrange(c, q)), q + 3))
            } else {
                Err(SpecErr { kind: ErrKind::CommentDoubleDash, at: q })
            }
        }
    }
}

/// The doctype production, entered at the `<` of `<!DOCTYPE`.
pub open spec fn spec_doctype(s: Seq<u8>, p: int) -> Result<(SpecNode, int), SpecErr> {
    if !(p + 9 <= s.len() && eq_ci(
        s.subrange(p + 2, p + 9),
        seq![68u8, 79u8, 67u8, 84u8, 89u8, 80u8, 69u8],  // DOCTYPE
    )) {
        Err(SpecErr { kind: ErrKind::DoctypeOrComment, at: p })
    } else {
        let w = ws_end(s, p + 9);
        let e = doctype_end(s, w);
        if e >= s.len() {
            Err(SpecErr { kind: ErrKind::DoctypeCloser, at: s.len() as int })
        } else {
            Ok((SpecNode::Doctype(s.subrange(w, e)), e + 1))
        }
    }
}

/// The attribute production: a name, optionally `=` and a quoted or
/// unquoted value.
pub open spec fn spec_attribute(s: Seq<u8>, p: int) -> Result<(SpecAttr, int), SpecErr> {
    let ne = attr_name_end(s, p);
    if ne == p {
        Err(SpecErr { kind: ErrKind::ExpectedAttrName, at: p })
    } else if ne < s.len() && is_ctl(s[ne]) {
        Err(SpecErr { kind: ErrKind::CtlByte { byte: s[ne] }, at: ne })
    } else {
        let name = s.subrange(p, ne);
        let w = ws_end(s, ne);
        if w >= s.len() {
            Err(SpecErr { kind: ErrKind::AfterAttrName, at: w })
        } else if s[w] != 61 {
            Ok((SpecAttr { name, value: Seq::empty() }, w))
        } else {
            let v = w + 1;
            if v >= s.len() {
                Err(SpecErr { kind: ErrKind::AttrValueAfterEq, at: v })
            } else if s[v] == 34 || s[v] == 39 {
                let quote = s[v];
                let vs = v + 1;
                let ve = quoted_end(s, vs, quote);
                if ve < s.len() && s[ve] == quote {
                    Ok((SpecAttr { name, value: s.subrange(vs, ve) }, ve + 1))
                } else {
                    Err(
                        SpecErr {
                            kind: ErrKind::Expected {
                                what: "value-ending quote"@,
                                byte: quote,
                                found: at_byte(s, ve),
                            },
                            at: ve,
                        },
                    )
                }
            } else {
                let ve = unquoted_end(s, v);
                Ok((SpecAttr { name, value: s.subrange(v, ve) }, ve))
            }
        }
    }
}

/// The attribute-list production: attributes separated by whitespace, until
/// a `>` or `/`.  Rejects a name already collected (case-sensitively).
pub open spec fn spec_attrs(s: Seq<u8>, p: int, acc: Seq<SpecAttr>) -> Result<
    (Seq<SpecAttr>, int),
    SpecErr,
>
    decreases s.len() - p,
{
    if 0 <= p < s.len() && (s[p] == 62 || s[p] == 47) {
        Ok((acc, p))
    } else {
        match spec_attribute(s, p) {
            Err(e) => Err(e),
            Ok((a, ae)) => {
                if has_attr_name(acc, a.name) {
                    Err(SpecErr { kind: ErrKind::DuplicateAttribute, at: ae })
                } else {
                    let w = ws_end(s, ae);
                    if p < w <= s.len() {
                        spec_attrs(s, w, acc.push(a))
                    } else {
                        arbitrary()
                    }
                }
            },
        }
    }
}

/// The closing tag of an element: `</`, the closing name (which must match
/// `name` case-insensitively), optional whitespace, `>`.  Entered at the
/// offset `k` of the `</`.
pub open spec fn spec_closing(
    s: Seq<u8>,
    k: int,
    name: Seq<u8>,
    attributes: Seq<SpecAttr>,
    children: Seq<SpecNode>,
) -> Result<(SpecNode, int), SpecErr> {
    let cl = k + 2;
    let cne = alnum_end(s, cl);
    if cne == cl {
        Err(SpecErr { kind: ErrKind::ExpectedAlnum { found: at_byte(s, cl) }, at: cl })
    } else {
        let closed = s.subrange(cl, cne);
        if !eq_ci(closed, name) {
            Err(SpecErr { kind: ErrKind::MismatchedClosingTag { opened: name, closed }, at: cne })
        } else {
            let w = ws_end(s, cne);
            if w < s.len() && s[w] == 62 {
                Ok((SpecNode::Element { name, attributes, children }, w + 1))
            } else {
                Err(
                    SpecErr {
                        kind: ErrKind::Expected {
                            what: "end of opening tag"@,
                            byte: 62,
                            found: at_byte(s, w),
                        },
                        at: w,
                    },
                )
            }
        }
    }
}

/// The element production, entered at its `<`.
///
/// After the opening tag: a void element takes no children and may close
/// with an optional `/`; a foreign element takes exactly one opaque
/// [`SpecNode::Foreign`] child; any other element takes children until its
/// closing tag.
pub open spec fn spec_element(s: Seq<u8>, p: int) -> Result<(SpecNode, int), SpecErr>
    decreases s.len() - p, 0int,
{
    let np = p + 1;
    let ne = alnum_end(s, np);
    if ne == np {
        Err(SpecErr { kind: ErrKind::ExpectedAlnum { found: at_byte(s, np) }, at: np })
    } else {
        let name = s.subrange(np, ne);
        let w = ws_end(s, ne);
        match spec_attrs(s, w, Seq::empty()) {
            Err(e) => Err(e),
            Ok((attributes, ap)) => {
                if is_void_name(name) {
                    let sl = if ap < s.len() && s[ap] == 47 {
                        ap + 1
                    } else {
                        ap
                    };
                    if sl < s.len() && s[sl] == 62 {
                        Ok(
                            (
                                SpecNode::Element { name, attributes, children: Seq::empty() },
                                sl + 1,
                            ),
                        )
                    } else {
                        Err(
                            SpecErr {
                                kind: ErrKind::Expected {
                                    what: "end of opening tag"@,
                                    byte: 62,
                                    found: at_byte(s, sl),
                                },
                                at: sl,
                            },
                        )
                    }
                } else if !(ap < s.len() && s[ap] == 62) {
                    Err(
                        SpecErr {
                            kind: ErrKind::Expected {
                                what: "end of opening tag"@,
                                byte: 62,
                                found: at_byte(s, ap),
                            },
                            at: ap,
                        },
                    )
                } else {
                    let cpos = ap + 1;
                    if is_foreign_name(name) {
                        let fe = foreign_scan(s, cpos, name);
                        if fe >= s.len() {
                            Err(
                                SpecErr {
                                    kind: ErrKind::ForeignCloser { name },
                                    at: s.len() as int,
                                },
                            )
                        } else {
                            spec_closing(
                                s,
                                fe,
                                name,
                                attributes,
                                seq![SpecNode::Foreign(s.subrange(cpos, fe))],
                            )
                        }
                    } else if !(p < cpos <= s.len()) {
                        arbitrary()
                    } else {
                        match spec_child_nodes(s, cpos, name) {
                            Err(e) => Err(e),
                            Ok((children, k)) => spec_closing(s, k, name, attributes, children),
                        }
                    }
                }
            },
        }
    }
}

/// The children of a non-void, non-foreign element: nodes until the `</` of
/// a closing tag.  Fails if the document ends first, or if a control byte
/// stands where a text run would otherwise make no progress.
pub open spec fn spec_child_nodes(s: Seq<u8>, p: int, name: Seq<u8>) -> Result<
    (Seq<SpecNode>, int),
    SpecErr,
>
    decreases s.len() - p, 3int,
{
    if close_marker_at(s, p) {
        Ok((Seq::empty(), p))
    } else if p + 1 >= s.len() {
        Err(SpecErr { kind: ErrKind::MissingClosingTag { name }, at: p })
    } else if is_ctl(s[p]) {
        Err(SpecErr { kind: ErrKind::CtlByte { byte: s[p] }, at: p })
    } else {
        match spec_node(s, p) {
            Err(e) => Err(e),
            Ok((n, e)) => {
                if p < e <= s.len() {
                    match spec_child_nodes(s, e, name) {
                        Err(e2) => Err(e2),
                        Ok((ns, k)) => Ok((seq![n] + ns, k)),
                    }
                } else {
                    arbitrary()
                }
            },
        }
    }
}

/// The node production: text if the current byte is not `<`, any non-text
/// node otherwise.
pub open spec fn spec_node(s: Seq<u8>, p: int) -> Result<(SpecNode, int), SpecErr>
    decreases s.len() - p, 2int,
{
    if !(0 <= p < s.len() && s[p] == 60) {
        let (n, e) = spec_text(s, p);
        Ok((n, e))
    } else {
        spec_strict_node(s, p)
    }
}

/// The strict-node production: leading whitespace, then a comment, doctype
/// declaration or element.  Text is not allowed here.
pub open spec fn spec_strict_node(s: Seq<u8>, p: int) -> Result<(SpecNode, int), SpecErr>
    decreases s.len() - p, 1int,
{
    let w = ws_end(s, p);
    if !(p <= w <= s.len()) {
        arbitrary()
    } else if !(w < s.len() && s[w] == 60) {
        Err(
            SpecErr {
                kind: ErrKind::Expected {
                    what: "start of a node"@,
                    byte: 60,
                    found: at_byte(s, w),
                },
                at: w,
            },
        )
    } else if w + 1 >= s.len() {
        Err(SpecErr { kind: ErrKind::AfterNodeStart, at: w })
    } else if s[w + 1] == 33 {
        if w + 2 < s.len() && s[w + 2] == 45 {
            spec_comment(s, w)
        } else {
            spec_doctype(s, w)
        }
    } else {
        spec_element(s, w)
    }
}

/// The document production: strict nodes until the end of the input.
/// The empty document is valid.
pub open spec fn spec_document(s: Seq<u8>, p: int) -> Result<Seq<SpecNode>, SpecErr>
    decreases s.len() - p,
{
    if p >= s.len() {
        Ok(Seq::empty())
    } else {
        match spec_strict_node(s, p) {
            Err(e) => Err(e),
            Ok((n, e)) => {
                if p < e <= s.len() {
                    match spec_document(s, e) {
                        Err(e2) => Err(e2),
                        Ok(ns) => Ok(seq![n] + ns),
                    }
                } else {
                    arbitrary()
                }
            },
        }
    }
}

/// What parsing a whole source text means.
pub open spec fn spec_parse(s: Seq<u8>) -> Result<Seq<SpecNode>, SpecErr> {
    spec_document(s, 0)
}

/// A scan stops within bounds, keeps every byte it passed, and stops for a
/// reason.
pub proof fn lemma_scan_while(s: Seq<u8>, p: int, keep: spec_fn(u8) -> bool)
    requires
        0 <= p <= s.len(),
    ensures
        p <= scan_while(s, p, keep) <= s.len(),
        forall|i: int| p <= i < scan_while(s, p, keep) ==> keep(s[i]),
        scan_while(s, p, keep) < s.len() ==> !keep(s[scan_while(s, p, keep)]),
    decreases s.len() - p,
{
    if p < s.len() && keep(s[p]) {
        lemma_scan_while(s, p + 1, keep);
    }
}

/// `dd_scan` stops within bounds, at the first `--` if there is one.
pub proof fn lemma_dd_scan(s: Seq<u8>, p: int)
    requires
        0 <= p <= s.len(),
    ensures
        p <= dd_scan(s, p) <= s.len(),
        dd_scan(s, p) < s.len() ==> dd_at(s, dd_scan(s, p)),
        forall|q: int| p <= q < dd_scan(s, p) ==> !dd_at(s, q),
    decreases s.len() - p,
{
    if p < s.len() && !dd_at(s, p) {
        lemma_dd_scan(s, p + 1);
    }
}

/// `foreign_scan` stops within bounds, at the first closer if there is one.
pub proof fn lemma_foreign_scan(s: Seq<u8>, p: int, name: Seq<u8>)
    requires
        0 <= p <= s.len(),
    ensures
        p <= foreign_scan(s, p, name) <= s.len(),
        foreign_scan(s, p, name) < s.len() ==> closer_at(s, foreign_scan(s, p, name), name),
        forall|q: int| p <= q < foreign_scan(s, p, name) ==> !closer_at(s, q, name),
    decreases s.len() - p,
{
    if p < s.len() && !closer_at(s, p, name) {
        lemma_foreign_scan(s, p + 1, name);
    }
}

/// The attribute production stays within bounds and always makes progress.
pub proof fn lemma_attribute_bounds(s: Seq<u8>, p: int)
    requires
        0 <= p <= s.len(),
    ensures
        match spec_attribute(s, p) {
            Ok((a, ae)) => p < ae <= s.len(),
            Err(e) => 0 <= e.at <= s.len(),
        },
{
    lemma_scan_while(
        s,
        p,
        |b: u8| !is_ws(b) && !is_ctl(b) && b != 34 && b != 39 && b != 62 && b != 47 && b != 61,
    );
    let ne = attr_name_end(s, p);
    if ne != p && !(ne < s.len() && is_ctl(s[ne])) {
        lemma_scan_while(s, ne, |b: u8| is_ws(b));
        let w = ws_end(s, ne);
        if w < s.len() && s[w] == 61 {
            let v = w + 1;
            if v < s.len() {
                if s[v] == 34 || s[v] == 39 {
                    lemma_scan_while(s, v + 1, |b: u8| !is_ctl(b) && b != s[v]);
                } else {
                    lemma_scan_while(
                        s,
                        v,
                        |b: u8|
                            !is_ctl(b) && !is_ws(b) && b != 34 && b != 39 && b != 61 && b != 62
                                && b != 60 && b != 96,
                    );
                }
            }
        }
    }
}

/// The attribute-list production stays within bounds and stops at a `>` or
/// `/`.
pub proof fn lemma_attrs_bounds(s: Seq<u8>, p: int, acc: Seq<SpecAttr>)
    requires
        0 <= p <= s.len(),
    ensures
        match spec_attrs(s, p, acc) {
            Ok((attrs, ap)) => p <= ap < s.len() && (s[ap] == 62 || s[ap] == 47),
            Err(e) => 0 <= e.at <= s.len(),
        },
    decreases s.len() - p,
{
    if !(0 <= p < s.len() && (s[p] == 62 || s[p] == 47)) {
        lemma_attribute_bounds(s, p);
        if let Ok((a, ae)) = spec_attribute(s, p) {
            if !has_attr_name(acc, a.name) {
                lemma_scan_while(s, ae, |b: u8| is_ws(b));
                let w = ws_end(s, ae);
                lemma_attrs_bounds(s, w, acc.push(a));
            }
        }
    }
}

/// The comment production stays within bounds and makes progress.
pub proof fn lemma_comment_bounds(s: Seq<u8>, p: int)
    requires
        0 <= p,
        p + 2 < s.len(),
    ensures
        match spec_comment(s, p) {
            Ok((n, e)) => p < e <= s.len(),
            Err(e) => 0 <= e.at <= s.len(),
        },
{
    if p + 3 < s.len() && s[p + 3] == 45 {
        let c = p + 4;
        if !(c < s.len() && (s[c] == 62 || s[c] == 45)) {
            lemma_dd_scan(s, c);
        }
    }
}

/// The doctype production stays within bounds and makes progress.
pub proof fn lemma_doctype_bounds(s: Seq<u8>, p: int)
    requires
        0 <= p < s.len(),
    ensures
        match spec_doctype(s, p) {
            Ok((n, e)) => p < e <= s.len(),
            Err(e) => 0 <= e.at <= s.len(),
        },
{
    if p + 9 <= s.len() && eq_ci(
        s.subrange(p + 2, p + 9),
        seq![68u8, 79u8, 67u8, 84u8, 89u8, 80u8, 69u8],  // DOCTYPE
    ) {
        lemma_scan_while(s, p + 9, |b: u8| is_ws(b));
        let w = ws_end(s, p + 9);
        lemma_scan_while(s, w, |b: u8| b != 62);
    }
}

/// The closing-tag production stays within bounds and consumes past `k`.
pub proof fn lemma_closing_bounds(
    s: Seq<u8>,
    k: int,
    name: Seq<u8>,
    attributes: Seq<SpecAttr>,
    children: Seq<SpecNode>,
)
    requires
        0 <= k,
        k + 2 <= s.len(),
    ensures
        match spec_closing(s, k, name, attributes, children) {
            Ok((n, e)) => k < e <= s.len(),
            Err(e) => 0 <= e.at <= s.len(),
        },
{
    let cl = k + 2;
    lemma_scan_while(s, cl, |b: u8| is_alnum(b));
    let cne = alnum_end(s, cl);
    if cne != cl && eq_ci(s.subrange(cl, cne), name) {
        lemma_scan_while(s, cne, |b: u8| is_ws(b));
    }
}

/// The element production stays within bounds and makes progress.
pub proof fn lemma_element_bounds(s: Seq<u8>, p: int)
    requires
        0 <= p < s.len(),
    ensures
        match spec_element(s, p) {
            Ok((n, e)) => p < e <= s.len(),
            Err(e) => 0 <= e.at <= s.len(),
        },
    decreases s.len() - p, 0int,
{
    let np = p + 1;
    lemma_scan_while(s, np, |b: u8| is_alnum(b));
    let ne = alnum_end(s, np);
    if ne != np {
        let name = s.subrange(np, ne);
        lemma_scan_while(s, ne, |b: u8| is_ws(b));
        let w = ws_end(s, ne);
        lemma_attrs_bounds(s, w, Seq::empty());
        if let Ok((attributes, ap)) = spec_attrs(s, w, Seq::empty()) {
            if is_void_name(name) {
            } else if ap < s.len() && s[ap] == 62 {
                let cpos = ap + 1;
                if is_foreign_name(name) {
                    lemma_foreign_scan(s, cpos, name);
                    let fe = foreign_scan(s, cpos, name);
                    if fe < s.len() {
                        lemma_closing_bounds(
                            s,
                            fe,
                            name,
                            attributes,
                            seq![SpecNode::Foreign(s.subrange(cpos, fe))],
                        );
                    }
                } else {
                    lemma_child_nodes_bounds(s, cpos, name);
                    if let Ok((children, k)) = spec_child_nodes(s, cpos, name) {
                        lemma_closing_bounds(s, k, name, attributes, children);
                    }
                }
            }
        }
    }
}

/// The children production stays within bounds and stops at a `</`.
pub proof fn lemma_child_nodes_bounds(s: Seq<u8>, p: int, name: Seq<u8>)
    requires
        0 <= p <= s.len(),
    ensures
        match spec_child_nodes(s, p, name) {
            Ok((ns, k)) => p <= k <= s.len() && close_marker_at(s, k),
            Err(e) => 0 <= e.at <= s.len(),
        },
    decreases s.len() - p, 3int,
{
    if close_marker_at(s, p) {
    } else if p + 1 >= s.len() {
    } else if is_ctl(s[p]) {
    } else {
        lemma_node_bounds(s, p);
        if let Ok((n, e)) = spec_node(s, p) {
            lemma_child_nodes_bounds(s, e, name);
        }
    }
}

/// The node production stays within bounds; it makes progress unless it
/// produced an empty text run in front of a control byte or the end.
pub proof fn lemma_node_bounds(s: Seq<u8>, p: int)
    requires
        0 <= p <= s.len(),
    ensures
        match spec_node(s, p) {
            Ok((n, e)) => p <= e <= s.len() && (p < s.len() && !is_ctl(s[p]) ==> p < e),
            Err(e) => 0 <= e.at <= s.len(),
        },
    decreases s.len() - p, 2int,
{
    if !(0 <= p < s.len() && s[p] == 60) {
        lemma_scan_while(s, p, |b: u8| b != 60 && !is_ctl(b));
    } else {
        lemma_strict_node_bounds(s, p);
    }
}

/// The strict-node production stays within bounds and makes progress.
pub proof fn lemma_strict_node_bounds(s: Seq<u8>, p: int)
    requires
        0 <= p <= s.len(),
    ensures
        match spec_strict_node(s, p) {
            Ok((n, e)) => p < e <= s.len(),
            Err(e) => 0 <= e.at <= s.len(),
        },
    decreases s.len() - p, 1int,
{
    lemma_scan_while(s, p, |b: u8| is_ws(b));
    let w = ws_end(s, p);
    if w < s.len() && s[w] == 60 && w + 1 < s.len() {
        if s[w + 1] == 33 {
            if w + 2 < s.len() && s[w + 2] == 45 {
                lemma_comment_bounds(s, w);
            } else {
                lemma_doctype_bounds(s, w);
            }
        } else {
            lemma_element_bounds(s, w);
        }
    }
}

/// The document production reports failures within bounds.
pub proof fn lemma_document_bounds(s: Seq<u8>, p: int)
    requires
        0 <= p <= s.len(),
    ensures
        match spec_document(s, p) {
            Ok(ns) => true,
            Err(e) => 0 <= e.at <= s.len(),
        },
    decreases s.len() - p,
{
    if p < s.len() {
        lemma_strict_node_bounds(s, p);
        if let Ok((n, e)) = spec_strict_node(s, p) {
            lemma_document_bounds(s, e);
        }
    }
}

} // verus!
