//! The document model: a parsed HTML payload as an immutable tree of text
//! nodes and elements, with the flattened text value that extraction reads.

use vstd::prelude::*;
use vstd::string::StringExecFns;

verus! {

/// One attribute of an element: its key and value as the parser handed them
/// over.
pub struct Attr {
    pub key: String,
    pub value: String,
}

/// A node of a parsed HTML document: either a text node or an element with
/// its tag name, attributes and child nodes in document order.
pub enum DomNode {
    Text(String),
    Elem { tag: String, attrs: Vec<Attr>, children: Vec<DomNode> },
}

/// The flattened text of `n`: the concatenation of all text nodes below it,
/// in document order, with no normalization applied.
pub open spec fn flat_text(n: DomNode) -> Seq<char>
    decreases n,
{
    match n {
        DomNode::Text(t) => t@,
        DomNode::Elem { children, .. } => flat_text_list(children@),
    }
}

/// The concatenated flattened text of a list of sibling nodes.
pub open spec fn flat_text_list(s: Seq<DomNode>) -> Seq<char>
    decreases s,
{
    if s.len() == 0 {
        Seq::empty()
    } else {
        flat_text(s[0]) + flat_text_list(s.drop_first())
    }
}

/// The strict descendants of `n` in document order, depth first: each child,
/// immediately followed by that child's own descendants.
pub open spec fn desc(n: DomNode) -> Seq<DomNode>
    decreases n,
{
    match n {
        DomNode::Text(_) => Seq::empty(),
        DomNode::Elem { children, .. } => desc_list(children@),
    }
}

/// The descendants contributed by a list of sibling nodes, in document order.
pub open spec fn desc_list(s: Seq<DomNode>) -> Seq<DomNode>
    decreases s,
{
    if s.len() == 0 {
        Seq::empty()
    } else {
        seq![s[0]] + desc(s[0]) + desc_list(s.drop_first())
    }
}

/// Computes the flattened text of `n`.
pub fn node_text(n: &DomNode) -> (r: String)
    ensures
        r@ == flat_text(*n),
    decreases *n, 0int,
{
    match n {
        DomNode::Text(t) => t.clone(),
        DomNode::Elem { children, .. } => {
            let r = node_text_from(children, 0);
            proof {
                assert(children@.skip(0) =~= children@);
            }
            r
        },
    }
}

fn node_text_from(cs: &Vec<DomNode>, i: usize) -> (r: String)
    requires
        i <= cs.len(),
    ensures
        r@ == flat_text_list(cs@.skip(i as int)),
    decreases *cs, cs.len() - i,
{
    let ghost tail = cs@.skip(i as int);
    if i == cs.len() {
        proof {
            assert(tail =~= Seq::<DomNode>::empty());
        }
        String::new()
    } else {
        let head = node_text(&cs[i]);
        let rest = node_text_from(cs, i + 1);
        proof {
            assert(tail[0] == cs@[i as int]);
            assert(tail.drop_first() =~= cs@.skip(i as int + 1));
        }
        head.concat(rest.as_str())
    }
}

} // verus!
