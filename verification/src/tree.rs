use indextree::{Arena, NodeId};
use vstd::prelude::*;

use crate::vfs::VfsNode;

verus! {

#[verifier::external_type_specification]
#[verifier::external_body]
#[verifier::reject_recursive_types(T)]
pub struct ExArena<T>(Arena<T>);

#[verifier::external_type_specification]
#[verifier::external_body]
pub struct ExNodeId(NodeId);

/// `NodeId`'s derived `clone`: `NodeId` is `Copy`, so the clone is the
/// same id.
pub assume_specification[ <NodeId as Clone>::clone ](id: &NodeId) -> (r: NodeId)
    ensures
        r == *id,
;

/// What the arena holds about one live node: its data, its parent and its
/// children in order.
pub struct NodeRec {
    pub data: VfsNode,
    pub parent: Option<NodeId>,
    pub children: Seq<NodeId>,
}

/// The live nodes of an arena, keyed by their ids.
pub uninterp spec fn arena_nodes(arena: Arena<VfsNode>) -> Map<NodeId, NodeRec>;

/// `Arena::new`: an arena with no live node.
#[verifier::external_body]
pub(crate) fn arena_new() -> (a: Arena<VfsNode>)
    ensures
        arena_nodes(a) =~= Map::empty(),
{
    Arena::new()
}

/// `Arena::new_node`: stores `data` as a new detached node (no parent, no
/// children) under an id that no live node has, and leaves every other node
/// as it was.
#[verifier::external_body]
pub(crate) fn arena_new_node(arena: &mut Arena<VfsNode>, data: VfsNode) -> (id: NodeId)
    ensures
        !arena_nodes(*old(arena)).contains_key(id),
        arena_nodes(*final(arena)) == arena_nodes(*old(arena)).insert(
            id,
            NodeRec { data: data, parent: None, children: Seq::empty() },
        ),
{
    arena.new_node(data)
}

/// `NodeId::append`: makes the detached leaf `child` the last child of
/// `parent`. The call panics when `child` is `parent` or either is removed,
/// so both must be live and distinct.
#[verifier::external_body]
pub(crate) fn node_append(arena: &mut Arena<VfsNode>, parent: NodeId, child: NodeId)
    requires
        arena_nodes(*old(arena)).contains_key(parent),
        arena_nodes(*old(arena)).contains_key(child),
        parent != child,
        arena_nodes(*old(arena))[child].parent is None,
        arena_nodes(*old(arena))[child].children.len() == 0,
    ensures
        arena_nodes(*final(arena)) == arena_nodes(*old(arena)).insert(
            child,
            NodeRec { parent: Some(parent), ..arena_nodes(*old(arena))[child] },
        ).insert(
            parent,
            NodeRec {
                children: arena_nodes(*old(arena))[parent].children.push(child),
                ..arena_nodes(*old(arena))[parent]
            },
        ),
{
    parent.append(child, arena)
}

/// `Arena::get` followed by `Node::get`: the data of a live node, or `None`
/// for an id that is not live.
#[verifier::external_body]
pub(crate) fn arena_get(arena: &Arena<VfsNode>, id: NodeId) -> (r: Option<&VfsNode>)
    ensures
        r is Some <==> arena_nodes(*arena).contains_key(id),
        r matches Some(d) ==> *d == arena_nodes(*arena)[id].data,
{
    arena.get(id).map(|n| n.get())
}

/// `NodeId::parent`: the parent of a live node. Indexing the arena panics
/// on an id beyond its slots, so the id must be live.
#[verifier::external_body]
pub(crate) fn node_parent(arena: &Arena<VfsNode>, id: NodeId) -> (r: Option<NodeId>)
    requires
        arena_nodes(*arena).contains_key(id),
    ensures
        r == arena_nodes(*arena)[id].parent,
{
    id.parent(arena)
}

/// `NodeId::children`, collected: the children of a live node in order.
#[verifier::external_body]
pub(crate) fn node_children(arena: &Arena<VfsNode>, id: NodeId) -> (r: Vec<NodeId>)
    requires
        arena_nodes(*arena).contains_key(id),
    ensures
        r@ == arena_nodes(*arena)[id].children,
{
    id.children(arena).collect()
}

/// `NodeId::remove` on a live leaf: the node leaves the arena and its
/// parent's child list; every other node is as it was.
#[verifier::external_body]
pub(crate) fn node_remove(arena: &mut Arena<VfsNode>, id: NodeId)
    requires
        arena_nodes(*old(arena)).contains_key(id),
        arena_nodes(*old(arena))[id].children.len() == 0,
        arena_nodes(*old(arena))[id].parent matches Some(p) ==> arena_nodes(*old(arena)).contains_key(p),
    ensures
        arena_nodes(*final(arena)) == (match arena_nodes(*old(arena))[id].parent {
            Some(p) => arena_nodes(*old(arena)).remove(id).insert(
                p,
                NodeRec {
                    children: arena_nodes(*old(arena))[p].children.filter(|c: NodeId| c != id),
                    ..arena_nodes(*old(arena))[p]
                },
            ),
            None => arena_nodes(*old(arena)).remove(id),
        }),
{
    id.remove(arena)
}

/// `NodeId`'s `==`: two ids are equal when they name the same node slot
/// and generation, which is spec equality.
#[verifier::external_body]
pub(crate) fn node_id_eq(a: NodeId, b: NodeId) -> (r: bool)
    ensures
        r == (a == b),
{
    a == b
}

} // verus!
