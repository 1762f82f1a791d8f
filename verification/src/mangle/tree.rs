//! The tree of a mangled name, and the text that a tree stands for.

use crate::text::{decimal, join};
use vstd::prelude::*;

verus! {

/// What a node of a demangled name holds: a text, or further nodes.
#[derive(PartialEq, Eq, Debug)]
pub enum NodeChild {
    RawString(String),
    Children(Vec<Node>),
}

/// One segment of a demangled name.
#[derive(PartialEq, Eq, Debug)]
pub struct Node {
    pub descriptor: char,
    pub child: NodeChild,
}

/// The mathematical content of a [`NodeChild`].
pub ghost enum ChildView {
    RawString(Seq<char>),
    Children(Seq<NodeView>),
}

/// The mathematical content of a [`Node`].
pub ghost struct NodeView {
    pub descriptor: char,
    pub child: ChildView,
}

/// The view of a node, by recursion over its structure.
#[verifier::opaque]
pub open spec fn node_view(n: Node) -> NodeView
    decreases n,
{
    NodeView {
        descriptor: n.descriptor,
        child: match n.child {
            NodeChild::RawString(s) => ChildView::RawString(s@),
            NodeChild::Children(nodes) => ChildView::Children(
                Seq::new(
                    nodes@.len(),
                    |i: int|
                        if 0 <= i < nodes@.len() {
                            node_view(nodes@[i])
                        } else {
                            arbitrary()
                        },
                ),
            ),
        },
    }
}

impl View for Node {
    type V = NodeView;

    open spec fn view(&self) -> NodeView {
        node_view(*self)
    }
}

/// The views of a run of nodes, in order.
pub open spec fn node_views(nodes: Seq<Node>) -> Seq<NodeView> {
    nodes.map_values(|n: Node| n@)
}

impl View for NodeChild {
    type V = ChildView;

    open spec fn view(&self) -> ChildView {
        match self {
            NodeChild::RawString(s) => ChildView::RawString(s@),
            NodeChild::Children(nodes) => ChildView::Children(node_views(nodes@)),
        }
    }
}

/// The view of a node is its descriptor and the view of what it holds.
pub broadcast proof fn lemma_node_view(n: Node)
    ensures
        #[trigger] n@ == (NodeView { descriptor: n.descriptor, child: n.child@ }),
{
    reveal_with_fuel(node_view, 1);
    match n.child {
        NodeChild::RawString(s) => {},
        NodeChild::Children(nodes) => {
            assert(n@.child->Children_0 =~= node_views(nodes@));
        },
    }
}

/// The payload of a node: a text as it is, nodes as their segments joined
/// by `_`.
pub open spec fn payload(child: ChildView) -> Seq<char>
    decreases child,
{
    match child {
        ChildView::RawString(s) => s,
        ChildView::Children(nodes) => join(segments(nodes), "_"@),
    }
}

/// The segment of a node: its descriptor, the decimal length of its payload,
/// and the payload.
pub open spec fn segment(n: NodeView) -> Seq<char>
    decreases n,
{
    seq![n.descriptor] + decimal(payload(n.child).len()) + payload(n.child)
}

/// The segment of each node of a run.
pub open spec fn segments(nodes: Seq<NodeView>) -> Seq<Seq<char>>
    decreases nodes,
{
    Seq::new(
        nodes.len(),
        |i: int|
            if 0 <= i < nodes.len() {
                segment(nodes[i])
            } else {
                arbitrary()
            },
    )
}

/// The text of a row of sibling nodes: their segments joined by `_`.
pub open spec fn mangled_text(nodes: Seq<NodeView>) -> Seq<char> {
    payload(ChildView::Children(nodes))
}

/// The text of one node alone is its segment.
pub proof fn lemma_text_of_one(n: NodeView)
    ensures
        mangled_text(seq![n]) == segment(n),
{
    assert(segments(seq![n])[0] == segment(n));
}

/// The text of a row that grew by one node.
pub proof fn lemma_text_next(nodes: Seq<NodeView>, n: NodeView)
    ensures
        mangled_text(nodes.push(n)) == if nodes.len() == 0 {
            segment(n)
        } else {
            mangled_text(nodes) + "_"@ + segment(n)
        },
{
    let longer = segments(nodes.push(n));
    assert(longer.drop_last() =~= segments(nodes));
    assert(longer.last() == segment(n));
}

/// The text of a row that has at least one node after its first: the first
/// segment, `_`, and the text of the rest.
pub proof fn lemma_text_front(n: NodeView, rest: Seq<NodeView>)
    requires
        rest.len() > 0,
    ensures
        mangled_text(seq![n] + rest) == segment(n) + "_"@ + mangled_text(rest),
    decreases rest.len(),
{
    let last = rest.last();
    let front = rest.drop_last();
    assert(seq![n] + rest =~= (seq![n] + front).push(last));
    assert(rest =~= front.push(last));
    lemma_text_next(seq![n] + front, last);
    lemma_text_next(front, last);
    if front.len() == 0 {
        assert(seq![n] + front =~= seq![n]);
        lemma_text_of_one(n);
    } else {
        lemma_text_front(n, front);
        assert(mangled_text(seq![n] + rest) =~= segment(n) + "_"@ + mangled_text(rest));
    }
}

} // verus!
