//! XML parsing, done by `roxmltree`: the document comes back as its nodes in
//! document order, each with what the template reader looks at.
use vstd::prelude::*;

verus! {

/// An attribute: whether it has a namespace, its local name and its value.
pub struct XmlAttribute {
    pub namespaced: bool,
    pub name: String,
    pub value: String,
}

pub struct XmlAttributeView {
    pub namespaced: bool,
    pub name: Seq<char>,
    pub value: Seq<char>,
}

impl DeepView for XmlAttribute {
    type V = XmlAttributeView;

    open spec fn deep_view(&self) -> XmlAttributeView {
        XmlAttributeView { namespaced: self.namespaced, name: self.name@, value: self.value@ }
    }
}

/// A node: whether it is an element, its local tag name (empty for other
/// nodes), its attributes in document order, its `text()` (an element's
/// first text child, a text node's or a comment's text) and its parent's
/// position in the node list.
pub struct XmlNode {
    pub element: bool,
    pub name: String,
    pub attributes: Vec<XmlAttribute>,
    pub text: Option<String>,
    pub parent: Option<usize>,
}

pub struct XmlNodeView {
    pub element: bool,
    pub name: Seq<char>,
    pub attributes: Seq<XmlAttributeView>,
    pub text: Option<Seq<char>>,
    pub parent: Option<usize>,
}

impl DeepView for XmlNode {
    type V = XmlNodeView;

    open spec fn deep_view(&self) -> XmlNodeView {
        XmlNodeView {
            element: self.element,
            name: self.name@,
            attributes: self.attributes.deep_view(),
            text: self.text.deep_view(),
            parent: self.parent,
        }
    }
}

/// What `roxmltree::Document::parse` gives for this text: every node from
/// `descendants()` of the document root, or the parse error's `Display`.
/// `roxmltree` numbers its nodes in document order and `descendants()` of
/// the root yields them in that order, so a node's `NodeId` is its position
/// in the list.
pub uninterp spec fn xml_nodes(text: Seq<char>) -> Result<Seq<XmlNodeView>, Seq<char>>;

/// Calls `roxmltree::Document::parse` (which refuses DTDs and fetches
/// nothing) and lists `descendants()` of the root, taking from each node the
/// fields of `XmlNode`. The contract only names the result: it is a function
/// of the text alone.
#[verifier::external_body]
pub(crate) fn parse_xml(text: &str) -> (nodes: Result<Vec<XmlNode>, String>)
    ensures
        match nodes {
            Ok(n) => xml_nodes(text@) == Ok::<Seq<XmlNodeView>, Seq<char>>(n.deep_view()),
            Err(e) => xml_nodes(text@) == Err::<Seq<XmlNodeView>, Seq<char>>(e@),
        },
{
    let document = roxmltree::Document::parse(text).map_err(|e| e.to_string())?;
    Ok(document.descendants().map(|n| XmlNode {
        element: n.is_element(),
        name: n.tag_name().name().into(),
        attributes: n.attributes().map(|a| XmlAttribute {
            namespaced: a.namespace().is_some(),
            name: a.name().into(),
            value: a.value().into(),
        }).collect(),
        text: n.text().map(String::from),
        parent: n.parent().map(|p| p.id().get_usize()),
    }).collect())
}

} // verus!
