//! Scene-graph nodes as the file decoder hands them over, and layers.

use vstd::prelude::*;

verus! {

/// Where the first animation frame of a transform puts its node, along the
/// file's own axes.
#[derive(Clone, Copy, Debug, PartialEq, Eq, Structural)]
pub struct Position {
    pub x: i32,
    pub y: i32,
    pub z: i32,
}

#[verifier::external_type_specification]
#[verifier::external_body]
pub struct ExRotation(dot_vox::Rotation);

/// The first animation frame of a transform node: its translation and its
/// orientation, where the file gives them.
#[derive(Clone, Copy, Debug)]
pub struct Frame {
    pub position: Option<Position>,
    pub orientation: Option<dot_vox::Rotation>,
}

/// A node of the scene graph. Nodes refer to each other by position in the
/// file's node list.
#[derive(Debug)]
pub enum SceneNode {
    /// Places its one child. `name` and `hidden` are the node's `_name` and
    /// `_hidden` attributes, `frame` its first animation frame.
    Transform {
        name: Option<String>,
        hidden: Option<String>,
        frame: Option<Frame>,
        child: u32,
        layer_id: u32,
    },
    /// Holds any number of children.
    Group { children: Vec<u32> },
    /// Shows models, listed by position in the file's model list.
    Shape { models: Vec<u32> },
}

/// A layer of the file: nodes on a hidden layer are hidden.
#[derive(Debug)]
pub struct LayerInfo {
    pub name: Option<String>,
    pub is_hidden: bool,
}

/// The nodes that a node refers to, as positions in the node list.
pub open spec fn children_of(node: SceneNode) -> Seq<u32> {
    match node {
        SceneNode::Transform { child, .. } => seq![child],
        SceneNode::Group { children } => children@,
        SceneNode::Shape { .. } => Seq::empty(),
    }
}

/// The listed nodes, as far as they are in the graph, have a rank below
/// `bound`.
pub open spec fn ranked_below(
    graph: Seq<SceneNode>,
    rank: Seq<nat>,
    children: Seq<u32>,
    bound: nat,
) -> bool {
    forall|k: int|
        0 <= k < children.len() && (#[trigger] children[k]) < graph.len() ==> rank[children[k] as int]
            < bound
}

/// `rank` shows that the graph has no cycle: it gives every node a number
/// below the number of nodes, and every node a higher number than the nodes
/// it refers to. A graph has such a ranking exactly if it has no cycle.
pub open spec fn ranks_fall(graph: Seq<SceneNode>, rank: Seq<nat>) -> bool {
    &&& rank.len() == graph.len()
    &&& forall|p: int| 0 <= p < graph.len() ==> #[trigger] rank[p] < graph.len()
    &&& forall|p: int|
        0 <= p < graph.len() ==> ranked_below(graph, rank, children_of(#[trigger] graph[p]), rank[p])
}

} // verus!
