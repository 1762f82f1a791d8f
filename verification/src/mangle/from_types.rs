//! Building the tree of a signature directly, without a detour over its
//! mangled name.

use super::signature::{
    lemma_first_unmanglable, manglable, manglable_within, name_node, name_nodes,
    not_manglable_type, not_manglable_type_error, param_node, signature_error, signature_nodes,
    type_node, type_nodes, MAX_TYPE_NESTING,
};
use super::tree::{lemma_node_view, node_views, ChildView, Node, NodeChild, NodeView};
use crate::ast::{NameID, Namespace};
use crate::logger::ErrorValue;
use crate::typecheck::annotation::annotation_type::{
    group_type_view, type_views, AnnotationType, TypeView,
};
use vstd::prelude::*;

verus! {

/// The node of a type, if the grammar has a form for it that nests no
/// deeper than `depth`.
fn node_of_type(ty: &AnnotationType, depth: usize) -> (r: Option<Node>)
    ensures
        match r {
            Some(node) => manglable_within(ty@, depth as nat) && node@ == type_node(ty@),
            None => !manglable_within(ty@, depth as nat),
        },
    decreases ty,
{
    broadcast use group_type_view;
    broadcast use lemma_node_view;
    if depth == 0 {
        return None;
    }
    match ty {
        AnnotationType::Type(name, _) => Some(
            Node { descriptor: 'V', child: NodeChild::RawString(name.clone()) },
        ),
        AnnotationType::Tuple(tys, _) => {
            match nodes_of_types(tys, depth - 1) {
                Some(tuple_items) => Some(
                    Node { descriptor: 't', child: NodeChild::Children(tuple_items) },
                ),
                None => None,
            }
        },
        _ => None,
    }
}

/// The node of each type of a run, if the grammar has a form for each that
/// nests no deeper than `depth`.
fn nodes_of_types(tys: &Vec<AnnotationType>, depth: usize) -> (r: Option<Vec<Node>>)
    ensures
        match r {
            Some(nodes) => {
                &&& forall|i: int|
                    0 <= i < tys@.len() ==> manglable_within(
                        #[trigger] type_views(tys@)[i],
                        depth as nat,
                    )
                &&& node_views(nodes@) == type_nodes(type_views(tys@))
            },
            None => exists|i: int|
                0 <= i < tys@.len() && !manglable_within(
                    #[trigger] type_views(tys@)[i],
                    depth as nat,
                ),
        },
    decreases tys,
{
    let ghost views = type_views(tys@);
    let mut nodes: Vec<Node> = Vec::new();
    let mut i: usize = 0;
    while i < tys.len()
        invariant
            i <= tys.len(),
            views == type_views(tys@),
            nodes@.len() == i,
            forall|j: int| 0 <= j < i ==> manglable_within(#[trigger] views[j], depth as nat),
            forall|j: int| 0 <= j < i ==> (#[trigger] nodes@[j])@ == type_node(views[j]),
        decreases tys.len() - i,
    {
        match node_of_type(&tys[i], depth) {
            Some(item) => {
                nodes.push(item);
            },
            None => {
                assert(!manglable_within(views[i as int], depth as nat));
                return None;
            },
        }
        i += 1;
    }
    assert(node_views(nodes@) =~= type_nodes(views));
    Some(nodes)
}

impl NodeChild {
    /// What the node of a name holds: the name.
    pub fn from_name(name: NameID) -> (child: NodeChild)
        ensures
            child@ == ChildView::RawString(name@.value),
    {
        NodeChild::RawString(name.value)
    }

    /// The nodes of a namespace path: one `N` node for each name.
    pub fn from_namespace(namespace: &Namespace) -> (nodes: Vec<Node>)
        ensures
            node_views(nodes@) == name_nodes(namespace@.names()),
    {
        broadcast use lemma_node_view;
        let mut nodes: Vec<Node> = Vec::new();
        let mut i: usize = 0;
        while i < namespace.scopes.len()
            invariant
                i <= namespace.scopes.len(),
                nodes@.len() == i,
                forall|j: int|
                    0 <= j < i ==> (#[trigger] nodes@[j])@ == name_node(namespace.scopes@[j]@.value),
            decreases namespace.scopes.len() - i,
        {
            let node = Node {
                descriptor: 'N',
                child: Self::from_name(namespace.scopes[i].clone()),
            };
            proof {
                lemma_node_view(node);
            }
            nodes.push(node);
            i += 1;
        }
        assert(node_views(nodes@) =~= name_nodes(namespace@.names()));
        nodes
    }

    /// The node of a type: `V` over the name of a named type, `t` over the
    /// nodes of a tuple's members. Any other type has no node and is an
    /// error, and so is a type that nests deeper than `MAX_TYPE_NESTING`.
    pub fn from_type(type_val: &AnnotationType) -> (r: Result<Node, ErrorValue>)
        ensures
            match r {
                Ok(node) => manglable(type_val@) && node@ == type_node(type_val@),
                Err(e) => !manglable(type_val@) && e@ == not_manglable_type_error(type_val@),
            },
    {
        match node_of_type(type_val, MAX_TYPE_NESTING) {
            Some(node) => Ok(node),
            None => Err(not_manglable_type(type_val)),
        }
    }
}

impl Node {
    /// The tree of a function symbol, as reading its mangled name gives it:
    /// under the root `$` the nodes of the path, the `A` node over one `P`
    /// node for each parameter type, and the `R` node over the return type.
    pub fn from_type(
        namespace: &Namespace,
        arguments: &[AnnotationType],
        ret_type: &AnnotationType,
    ) -> (r: Result<Node, ErrorValue>)
        ensures
            match r {
                Ok(node) => {
                    &&& signature_error(type_views(arguments@), ret_type@) is None
                    &&& node@ == (NodeView {
                        descriptor: '$',
                        child: ChildView::Children(
                            signature_nodes(namespace@.names(), type_views(arguments@), ret_type@),
                        ),
                    })
                },
                Err(e) => signature_error(type_views(arguments@), ret_type@) == Some(e@),
            },
    {
        broadcast use lemma_node_view;
        let ghost views = type_views(arguments@);
        let mut val = NodeChild::from_namespace(namespace);
        let mut params: Vec<Node> = Vec::new();
        let mut i: usize = 0;
        while i < arguments.len()
            invariant
                i <= arguments.len(),
                views == type_views(arguments@),
                params@.len() == i,
                forall|j: int| 0 <= j < i ==> manglable(#[trigger] views[j]),
                forall|j: int| 0 <= j < i ==> (#[trigger] params@[j])@ == param_node(views[j]),
            decreases arguments.len() - i,
        {
            let of_type = match NodeChild::from_type(&arguments[i]) {
                Ok(node) => node,
                Err(e) => {
                    proof {
                        lemma_first_unmanglable(views, i as int);
                    }
                    return Err(e);
                },
            };
            let ghost inner = of_type@;
            let mut wrapped: Vec<Node> = Vec::new();
            wrapped.push(of_type);
            assert(node_views(wrapped@) =~= seq![inner]);
            let param = Node { descriptor: 'P', child: NodeChild::Children(wrapped) };
            proof {
                lemma_node_view(param);
            }
            params.push(param);
            i += 1;
        }
        proof {
            lemma_first_unmanglable(views, arguments.len() as int);
            assert(node_views(params@) =~= views.map_values(|ty: TypeView| param_node(ty)));
        }
        let ghost path = node_views(val@);
        let args = Node { descriptor: 'A', child: NodeChild::Children(params) };
        let ghost args_view = args@;
        val.push(args);
        let of_ret = NodeChild::from_type(ret_type)?;
        let ghost inner = of_ret@;
        let mut wrapped: Vec<Node> = Vec::new();
        wrapped.push(of_ret);
        assert(node_views(wrapped@) =~= seq![inner]);
        let ret = Node { descriptor: 'R', child: NodeChild::Children(wrapped) };
        let ghost ret_view = ret@;
        val.push(ret);
        assert(node_views(val@) =~= path.push(args_view).push(ret_view));
        Ok(Node { descriptor: '$', child: NodeChild::Children(val) })
    }
}

} // verus!
