//! Parsing markup text into the library's document tree, through the
//! html5ever parser and its reference DOM.

use vstd::prelude::*;
use html5ever::tendril::TendrilSink;
use markup5ever_rcdom::NodeData;
use crate::dom::document_local;
use crate::dom::NodeView;
use crate::dom::DomNode;
use crate::dom::QName;

verus! {

#[verifier::external_type_specification]
#[verifier::external_body]
pub struct ExRcDomNode(markup5ever_rcdom::Node);

/// What parsing markup text yields: a function of the text alone.
pub uninterp spec fn parsed_doc(s: Seq<char>) -> NodeView;

/// Relies on html5ever's parse_document driven into the reference DOM sink:
/// the parse is a pure function of the input text, and the sink's root is
/// always the document node, which the conversion names "#document".
#[verifier::external_body]
pub(crate) fn parse_html(s: &str) -> (r: DomNode)
    ensures
        r@ == parsed_doc(s@),
        r@ is Element,
        r@->local == document_local(),
{
    let parser = html5ever::parse_document(
        markup5ever_rcdom::RcDom::default(),
        html5ever::ParseOpts::default(),
    );
    let dom = parser.one(s);
    convert_dom(&dom.document)
}

/// Converts the reference DOM into the library's tree: elements and text
/// keep their names, attributes and order; the document node becomes an
/// element named "#document"; nodes of other kinds are dropped.
#[verifier::external_body]
fn convert_dom(h: &std::rc::Rc<markup5ever_rcdom::Node>) -> (r: DomNode) {
    let kids: Vec<_> = h.children.borrow().iter().filter(
        |c| matches!(c.data, NodeData::Element { .. } | NodeData::Text { .. }),
    ).map(convert_dom).collect();
    match &h.data {
        NodeData::Element { name, attrs, .. } => DomNode::Element {
            name: QName::new(&name.ns, &name.local),
            attrs: attrs.borrow().iter().map(
                |a| (a.name.local.to_string(), a.value.to_string()),
            ).collect(),
            children: kids,
        },
        NodeData::Text { contents } => DomNode::Text { content: contents.borrow().to_string() },
        _ => DomNode::Element { name: QName::new("", "#document"), attrs: vec![], children: kids },
    }
}


} // verus!
