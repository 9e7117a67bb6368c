//! Parsing: wraps the lenient HTML parser of the `select` crate and hands
//! its result over as a document tree of the library's own, so that the
//! whole lookup can run from the raw page text.

use vstd::prelude::*;

use crate::dom::{Attr, DomNode};
use crate::extract::{extract, extract_spec, res_view, ExtractError, Word};

verus! {

/// The tree that parsing `html` yields: a synthetic root element whose
/// children are the parsed top-level nodes. Parsing is lenient and total,
/// and the same text always parses to the same tree.
pub uninterp spec fn parse_of(html: Seq<char>) -> DomNode;

#[verifier::external_type_specification]
#[verifier::external_body]
pub struct ExSelectNode<'a>(select::node::Node<'a>);

/// Relies on select's `Node`: `data` tells a text node, an element and a
/// comment apart; `name` and `attrs` give an element's tag and attributes;
/// `children` yields its child nodes in document order. Comments carry no
/// extractable content and are dropped.
#[verifier::external_body]
fn node_to_dom(n: select::node::Node<'_>) -> (r: Option<DomNode>) {
    match n.data() {
        select::node::Data::Text(t) => Some(DomNode::Text(t.to_string())),
        select::node::Data::Element(_, _) => Some(DomNode::Elem {
            tag: n.name().unwrap_or("").to_string(),
            attrs: n.attrs().map(|(k, v)| Attr { key: k.to_string(), value: v.to_string() }).collect(),
            children: n.children().filter_map(node_to_dom).collect(),
        }),
        select::node::Data::Comment(_) => None,
    }
}

/// Relies on select's `Document::from`, which parses any text leniently
/// (html5ever's browser-style recovery, never failing), and on its node
/// table, where a node without a parent roots one top-level tree and the
/// table holds the trees in document order.
#[verifier::external_body]
fn parse_with_select(html: &str) -> (r: DomNode)
    ensures
        r == parse_of(html@),
{
    let doc = select::document::Document::from(html);
    let mut roots: Vec<DomNode> = Vec::new();
    for i in 0..doc.nodes.len() {
        if doc.nodes[i].parent.is_none() {
            if let Some(t) = node_to_dom(doc.nth(i).unwrap()) {
                roots.push(t);
            }
        }
    }
    DomNode::Elem { tag: String::new(), attrs: Vec::new(), children: roots }
}

/// Looks a page up from its raw HTML text: parses it leniently and extracts
/// the word record from the parsed tree.
pub fn extract_from_html(html: &str) -> (r: Result<Word, ExtractError>)
    ensures
        res_view(r) == extract_spec(parse_of(html@)),
        r matches Ok(w) ==> w@.keyword.len() > 0,
{
    let doc = parse_with_select(html);
    extract(&doc)
}

/// Law: extraction is idempotent under re-parsing: one text, parsed twice,
/// yields the same result both times, field for field.
pub proof fn lemma_extract_deterministic(a: Seq<char>, b: Seq<char>)
    requires
        a == b,
    ensures
        extract_spec(parse_of(a)) == extract_spec(parse_of(b)),
{
}

} // verus!
