//! The document tree the parser constructs, and its mathematical model.
//!
//! Every executable type has a ghost counterpart over `Seq<u8>`; contracts
//! throughout the crate speak of those models.

use vstd::prelude::*;

verus! {

broadcast use vstd::std_specs::vec::group_vec_axioms, vstd::seq::group_seq_axioms;

/// Model of one attribute: its name and its (possibly empty) value.
#[verifier::ext_equal]
pub struct SpecAttr {
    pub name: Seq<u8>,
    pub value: Seq<u8>,
}

/// Model of one document node.
#[verifier::ext_equal]
pub enum SpecNode {
    /// Opaque span captured inside a foreign element.
    Foreign(Seq<u8>),
    /// Raw content between `<!DOCTYPE` and `>`.
    Doctype(Seq<u8>),
    /// Raw content between `<!--` and `-->`.
    Comment(Seq<u8>),
    /// A maximal run of ordinary characters.
    Text(Seq<u8>),
    /// An element with its case-preserved name, ordered attributes and
    /// ordered children.
    Element { name: Seq<u8>, attributes: Seq<SpecAttr>, children: Seq<SpecNode> },
}

/// One attribute of an element; `value` is empty for boolean-style
/// attributes written without `=`.
#[derive(Debug, PartialEq, Eq)]
pub struct HTMLAttribute {
    pub name: Vec<u8>,
    pub value: Vec<u8>,
}

/// One node of the document tree.
#[derive(Debug, PartialEq, Eq)]
pub enum HTMLNode {
    /// Foreign text: the body of a script, style, title, textarea, svg or
    /// math element, captured verbatim and never parsed as markup.
    Foreign(Vec<u8>),
    /// Doctype declaration: the content of `<!DOCTYPE ...>`.
    Doctype(Vec<u8>),
    /// Comment: the content of `<!--...-->`.
    Comment(Vec<u8>),
    /// Regular text.
    Text(Vec<u8>),
    /// All other elements.
    Element { name: Vec<u8>, attributes: Vec<HTMLAttribute>, children: Vec<HTMLNode> },
}

/// Quirks/standards marker for downstream consumers of a document.
pub enum DocumentMode {
    Quirks,
    Standards,
}

/// A parsed document: the ordered sequence of its top-level nodes.
#[derive(Debug, PartialEq, Eq)]
pub struct HTMLDocument {
    html: Vec<HTMLNode>,
}

impl View for HTMLAttribute {
    type V = SpecAttr;

    open spec fn view(&self) -> SpecAttr {
        SpecAttr { name: self.name@, value: self.value@ }
    }
}

impl HTMLNode {
    /// The model of this node, with every text span abstracted to a byte
    /// sequence.
    pub open spec fn model(&self) -> SpecNode
        decreases self,
    {
        match self {
            HTMLNode::Foreign(t) => SpecNode::Foreign(t@),
            HTMLNode::Doctype(t) => SpecNode::Doctype(t@),
            HTMLNode::Comment(t) => SpecNode::Comment(t@),
            HTMLNode::Text(t) => SpecNode::Text(t@),
            HTMLNode::Element { name, attributes, children } => SpecNode::Element {
                name: name@,
                attributes: attr_models_of(attributes@),
                children: models_of(children@),
            },
        }
    }
}

/// The models of a sequence of nodes, in order.
pub open spec fn models_of(nodes: Seq<HTMLNode>) -> Seq<SpecNode>
    decreases nodes,
{
    if nodes.len() == 0 {
        Seq::empty()
    } else {
        models_of(nodes.drop_last()).push(nodes.last().model())
    }
}

impl View for HTMLNode {
    type V = SpecNode;

    open spec fn view(&self) -> SpecNode {
        self.model()
    }
}

/// The models of a vector of attributes, in order.
pub open spec fn attr_models_of(attrs: Seq<HTMLAttribute>) -> Seq<SpecAttr> {
    Seq::new(attrs.len(), |i: int| attrs[i]@)
}

/// Appending one node appends its model.
pub proof fn lemma_models_of_push(nodes: Seq<HTMLNode>, n: HTMLNode)
    ensures
        models_of(nodes.push(n)) == models_of(nodes).push(n.model()),
{
    assert(nodes.push(n).drop_last() =~= nodes);
    assert(nodes.push(n).last() == n);
}

impl View for HTMLDocument {
    type V = Seq<SpecNode>;

    closed spec fn view(&self) -> Seq<SpecNode> {
        models_of(self.html@)
    }
}

impl HTMLDocument {
    pub(crate) fn new(html: Vec<HTMLNode>) -> (r: HTMLDocument)
        ensures
            r@ == models_of(html@),
    {
        HTMLDocument { html }
    }

    /// The ordered top-level nodes of the document.
    pub fn html(&self) -> (r: &Vec<HTMLNode>)
        ensures
            models_of(r@) == self@,
    {
        &self.html
    }
}

} // verus!
