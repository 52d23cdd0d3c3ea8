//! The second walk over the scene graph: a positioned, named hierarchy of
//! nodes, written out parent first with each node's depth.

use crate::scene::names::{accumulated, get_accumulated_and_node_name, names_view, node_path, parse_bool};
use crate::scene::node::{children_of, ranked_below, ranks_fall, Frame, LayerInfo, SceneNode};
use crate::text::{opt_ref_view, opt_view, resolved_name, synthesized_model_name};
use vstd::prelude::*;

verus! {

/// Whether a node is shown.
#[derive(Clone, Copy, Debug, PartialEq, Eq, Structural)]
pub enum NodeVisibility {
    /// Shown unless an ancestor is hidden.
    Inherited,
    /// Not shown, and neither is anything below.
    Hidden,
}

/// Where a node sits relative to its parent, along the target axes and in
/// voxel units, with the orientation that the file gave, if any.
#[derive(Clone, Copy, Debug)]
pub struct Placement {
    pub x: i64,
    pub y: i64,
    pub z: i64,
    pub orientation: Option<dot_vox::Rotation>,
}

/// One node of the flattened hierarchy. A hierarchy is a list of these in
/// which every node is followed by its descendants; `depth` tells how far
/// below the root a node hangs. `placement` is absent for a node that sits
/// exactly where its parent does, `layer` for one on no known layer, and
/// `model` for one that shows no model.
#[derive(Debug)]
pub struct FlattenedNode {
    pub name: Option<String>,
    pub depth: usize,
    pub placement: Option<Placement>,
    pub layer: Option<u32>,
    pub visibility: NodeVisibility,
    pub model: Option<String>,
}

/// A flattened node with its strings as character sequences.
pub struct NodeView {
    pub name: Option<Seq<char>>,
    pub depth: nat,
    pub placement: Option<Placement>,
    pub layer: Option<u32>,
    pub visibility: NodeVisibility,
    pub model: Option<Seq<char>>,
}

impl View for FlattenedNode {
    type V = NodeView;

    open spec fn view(&self) -> NodeView {
        NodeView {
            name: opt_view(self.name),
            depth: self.depth as nat,
            placement: self.placement,
            layer: self.layer,
            visibility: self.visibility,
            model: opt_view(self.model),
        }
    }
}

/// The views of a list of flattened nodes.
pub open spec fn nodes_view(nodes: Seq<FlattenedNode>) -> Seq<NodeView> {
    nodes.map_values(|n: FlattenedNode| n@)
}

/// The placement that a frame describes. The file's axes become the target's
/// by mirroring x and trading y and z. A frame without a translation places
/// nothing, whatever its orientation.
pub open spec fn placement_of(frame: Option<Frame>) -> Option<Placement> {
    match frame {
        Some(frame) => match frame.position {
            Some(p) => Some(
                Placement { x: (-p.x) as i64, y: p.z as i64, z: p.y as i64, orientation: frame.orientation },
            ),
            None => None,
        },
        None => None,
    }
}

/// The placement that a transform's first frame describes.
pub fn placement_from_frame(frame: &Option<Frame>) -> (placement: Option<Placement>)
    ensures
        placement == placement_of(*frame),
{
    match frame {
        Some(frame) => match frame.position {
            Some(p) => Some(
                Placement {
                    x: -(p.x as i64),
                    y: p.z as i64,
                    z: p.y as i64,
                    orientation: frame.orientation,
                },
            ),
            None => None,
        },
        None => None,
    }
}

/// The model a node shows: the first model of a shape, by its resolved name.
pub open spec fn model_of(node: SceneNode, names: Seq<Option<Seq<char>>>) -> Option<Seq<char>> {
    match node {
        SceneNode::Shape { models } => if models@.len() > 0 {
            Some(resolved_name(names, models@[0] as nat))
        } else {
            None
        },
        _ => None,
    }
}

/// The model that the child at `child` gives its parent, if the index is
/// within the node list.
pub open spec fn child_model(graph: Seq<SceneNode>, child: u32, names: Seq<Option<Seq<char>>>) -> Option<
    Seq<char>,
> {
    if child < graph.len() {
        model_of(graph[child as int], names)
    } else {
        None
    }
}

/// Whether a transform with the given `_hidden` attribute on the given layer
/// is hidden: by its own attribute, or because its layer exists and is hidden.
pub open spec fn hidden_by(hidden: Option<Seq<char>>, layer_id: u32, layers: Seq<LayerInfo>) -> bool {
    hidden == Some(seq!['1']) || (layer_id < layers.len() && layers[layer_id as int].is_hidden)
}

/// The node that stands for a transform.
pub open spec fn transform_view(
    graph: Seq<SceneNode>,
    node: SceneNode,
    parent: Option<Seq<char>>,
    names: Seq<Option<Seq<char>>>,
    layers: Seq<LayerInfo>,
    depth: nat,
    placed: bool,
) -> NodeView
    recommends
        node is Transform,
{
    NodeView {
        name: node_path(parent, opt_view(node->name)),
        depth,
        placement: if placed {
            placement_of(node->frame)
        } else {
            None
        },
        layer: if node->layer_id < layers.len() {
            Some(node->layer_id)
        } else {
            None
        },
        visibility: if hidden_by(opt_view(node->hidden), node->layer_id, layers) {
            NodeVisibility::Hidden
        } else {
            NodeVisibility::Inherited
        },
        model: child_model(graph, node->child, names),
    }
}

/// The node put around a group or shape that no transform holds: unnamed,
/// unplaced, on no layer, shown.
pub open spec fn wrapper_view(node: SceneNode, names: Seq<Option<Seq<char>>>, depth: nat) -> NodeView {
    NodeView {
        name: None,
        depth,
        placement: None,
        layer: None,
        visibility: NodeVisibility::Inherited,
        model: model_of(node, names),
    }
}

/// The hierarchy below and including one node at `depth`. A transform
/// becomes a node, followed by what its child contributes one level down; a
/// group or shape gets a wrapper node and contributes to it. Nothing is
/// written at depth `limit` or deeper; with the number of nodes as limit
/// this cuts nothing off unless the graph has a cycle.
pub open spec fn flat_node(
    graph: Seq<SceneNode>,
    node: SceneNode,
    parent: Option<Seq<char>>,
    names: Seq<Option<Seq<char>>>,
    layers: Seq<LayerInfo>,
    depth: nat,
    placed: bool,
    limit: nat,
) -> Seq<NodeView>
    decreases limit - depth, 0nat, 0nat,
{
    if depth >= limit {
        Seq::empty()
    } else {
        match node {
            SceneNode::Transform { name, child, .. } => {
                seq![transform_view(graph, node, parent, names, layers, depth, placed)] + (if child
                    < graph.len() {
                    flat_child(
                        graph,
                        graph[child as int],
                        accumulated(parent, opt_view(name)),
                        names,
                        layers,
                        depth + 1,
                        limit,
                    )
                } else {
                    Seq::empty()
                })
            },
            _ => {
                seq![wrapper_view(node, names, depth)] + flat_child(
                    graph,
                    node,
                    parent,
                    names,
                    layers,
                    depth + 1,
                    limit,
                )
            },
        }
    }
}

/// What a node contributes below the node that holds it: a transform
/// becomes a node of its own, a group contributes each of its children in
/// order, a shape contributes no node.
pub open spec fn flat_child(
    graph: Seq<SceneNode>,
    node: SceneNode,
    parent: Option<Seq<char>>,
    names: Seq<Option<Seq<char>>>,
    layers: Seq<LayerInfo>,
    depth: nat,
    limit: nat,
) -> Seq<NodeView>
    decreases limit - depth, 2nat, 0nat,
{
    match node {
        SceneNode::Transform { .. } => flat_node(graph, node, parent, names, layers, depth, true, limit),
        SceneNode::Group { children } => flat_children(graph, children@, parent, names, layers, depth, limit),
        SceneNode::Shape { .. } => Seq::empty(),
    }
}

/// The hierarchies of the listed children, one after the other. A child
/// index past the node list contributes nothing.
pub open spec fn flat_children(
    graph: Seq<SceneNode>,
    children: Seq<u32>,
    parent: Option<Seq<char>>,
    names: Seq<Option<Seq<char>>>,
    layers: Seq<LayerInfo>,
    depth: nat,
    limit: nat,
) -> Seq<NodeView>
    decreases limit - depth, 1nat, children.len(),
{
    if children.len() == 0 {
        Seq::empty()
    } else {
        flat_children(graph, children.drop_last(), parent, names, layers, depth, limit) + (if children.last()
            < graph.len() {
            flat_node(graph, graph[children.last() as int], parent, names, layers, depth, true, limit)
        } else {
            Seq::empty()
        })
    }
}

/// The scene rooted at a node: the hierarchy of a transform, whose own
/// frame is ignored; nothing for a group or shape. No node is written
/// deeper than the graph has nodes.
pub open spec fn scene_of(
    graph: Seq<SceneNode>,
    node: SceneNode,
    parent: Option<Seq<char>>,
    names: Seq<Option<Seq<char>>>,
    layers: Seq<LayerInfo>,
) -> Seq<NodeView> {
    match node {
        SceneNode::Transform { .. } => flat_node(graph, node, parent, names, layers, 0, false, graph.len()),
        _ => Seq::empty(),
    }
}

/// The nodes are hierarchies written one after the other, each with its
/// root at depth `base`: the first node is at that depth, none is above it,
/// and a node is at most one level below the node before it.
pub open spec fn is_forest(nodes: Seq<NodeView>, base: nat) -> bool {
    &&& nodes.len() > 0 ==> nodes[0].depth == base
    &&& forall|i: int| 0 <= i < nodes.len() ==> (#[trigger] nodes[i]).depth >= base
    &&& forall|i: int| 0 < i < nodes.len() ==> #[trigger] steps_down_by_one(nodes, i)
}

/// The node at `i` is at most one level below the node before it.
pub open spec fn steps_down_by_one(nodes: Seq<NodeView>, i: int) -> bool {
    nodes[i].depth <= nodes[i - 1].depth + 1
}

/// Hierarchies at the same depth, written one after the other, are
/// hierarchies at that depth.
proof fn lemma_forests_join(a: Seq<NodeView>, b: Seq<NodeView>, base: nat)
    requires
        is_forest(a, base),
        is_forest(b, base),
    ensures
        is_forest(a + b, base),
{
    let joined = a + b;
    assert forall|i: int| 0 <= i < joined.len() implies (#[trigger] joined[i]).depth >= base by {
        if i >= a.len() {
            assert(joined[i] == b[i - a.len()]);
        }
    }
    assert forall|i: int| 0 < i < joined.len() implies #[trigger] steps_down_by_one(joined, i) by {
        if i > a.len() {
            assert(joined[i] == b[i - a.len()]);
            assert(joined[i - 1] == b[i - 1 - a.len()]);
            assert(steps_down_by_one(b, i - a.len()));
        } else if i == a.len() {
            assert(joined[i] == b[0]);
            assert(joined[i - 1] == a[i - 1]);
        } else {
            assert(steps_down_by_one(a, i));
        }
    }
}

/// A node followed by hierarchies one level below it is a hierarchy.
proof fn lemma_tree_is_forest(root: NodeView, below: Seq<NodeView>, base: nat)
    requires
        root.depth == base,
        is_forest(below, base + 1),
    ensures
        is_forest(seq![root] + below, base),
{
    let tree = seq![root] + below;
    assert forall|i: int| 0 <= i < tree.len() implies (#[trigger] tree[i]).depth >= base by {
        if i > 0 {
            assert(tree[i] == below[i - 1]);
        }
    }
    assert forall|i: int| 0 < i < tree.len() implies #[trigger] steps_down_by_one(tree, i) by {
        assert(tree[i] == below[i - 1]);
        if i > 1 {
            assert(tree[i - 1] == below[i - 2]);
            assert(steps_down_by_one(below, i - 1));
        }
    }
}

/// Some node from `k` back to the start is exactly one level above the node
/// at `i`, if the node at `k` is no higher than that.
proof fn lemma_parent_is_reached(nodes: Seq<NodeView>, base: nat, i: int, k: int)
    requires
        is_forest(nodes, base),
        0 <= k < i < nodes.len(),
        nodes[i].depth > base,
        nodes[k].depth + 1 >= nodes[i].depth,
    ensures
        exists|j: int| 0 <= j < i && (#[trigger] nodes[j]).depth + 1 == nodes[i].depth,
    decreases k,
{
    if nodes[k].depth + 1 != nodes[i].depth {
        if k > 0 {
            assert(steps_down_by_one(nodes, k));
            lemma_parent_is_reached(nodes, base, i, k - 1);
        }
    }
}

/// In a list of hierarchies every node below the roots has a parent: a
/// node before it that is exactly one level higher.
pub proof fn lemma_node_below_root_has_parent(nodes: Seq<NodeView>, base: nat, i: int)
    requires
        is_forest(nodes, base),
        0 <= i < nodes.len(),
        nodes[i].depth > base,
    ensures
        exists|j: int| 0 <= j < i && (#[trigger] nodes[j]).depth + 1 == nodes[i].depth,
{
    assert(i > 0);
    assert(steps_down_by_one(nodes, i));
    lemma_parent_is_reached(nodes, base, i, i - 1);
}

/// What a node writes is a hierarchy with its root at the node's depth, so
/// every node but the first has a parent: the nearest node before it that
/// is one level higher.
pub proof fn lemma_flat_node_is_forest(
    graph: Seq<SceneNode>,
    node: SceneNode,
    parent: Option<Seq<char>>,
    names: Seq<Option<Seq<char>>>,
    layers: Seq<LayerInfo>,
    depth: nat,
    placed: bool,
    limit: nat,
)
    ensures
        is_forest(flat_node(graph, node, parent, names, layers, depth, placed, limit), depth),
    decreases limit - depth, 0nat, 0nat,
{
    if depth < limit {
        match node {
            SceneNode::Transform { name, child, .. } => {
                let root = transform_view(graph, node, parent, names, layers, depth, placed);
                let below = if child < graph.len() {
                    flat_child(
                        graph,
                        graph[child as int],
                        accumulated(parent, opt_view(name)),
                        names,
                        layers,
                        depth + 1,
                        limit,
                    )
                } else {
                    Seq::empty()
                };
                if child < graph.len() {
                    lemma_flat_child_is_forest(
                        graph,
                        graph[child as int],
                        accumulated(parent, opt_view(name)),
                        names,
                        layers,
                        depth + 1,
                        limit,
                    );
                }
                lemma_tree_is_forest(root, below, depth);
            },
            _ => {
                let root = wrapper_view(node, names, depth);
                let below = flat_child(graph, node, parent, names, layers, depth + 1, limit);
                lemma_flat_child_is_forest(graph, node, parent, names, layers, depth + 1, limit);
                lemma_tree_is_forest(root, below, depth);
            },
        }
    }
}

/// What a node contributes below its holder is a list of hierarchies.
pub proof fn lemma_flat_child_is_forest(
    graph: Seq<SceneNode>,
    node: SceneNode,
    parent: Option<Seq<char>>,
    names: Seq<Option<Seq<char>>>,
    layers: Seq<LayerInfo>,
    depth: nat,
    limit: nat,
)
    ensures
        is_forest(flat_child(graph, node, parent, names, layers, depth, limit), depth),
    decreases limit - depth, 2nat, 0nat,
{
    match node {
        SceneNode::Transform { .. } => {
            lemma_flat_node_is_forest(graph, node, parent, names, layers, depth, true, limit);
        },
        SceneNode::Group { children } => {
            lemma_flat_children_is_forest(graph, children@, parent, names, layers, depth, limit);
        },
        SceneNode::Shape { .. } => {},
    }
}

/// What the listed children write is a list of hierarchies.
pub proof fn lemma_flat_children_is_forest(
    graph: Seq<SceneNode>,
    children: Seq<u32>,
    parent: Option<Seq<char>>,
    names: Seq<Option<Seq<char>>>,
    layers: Seq<LayerInfo>,
    depth: nat,
    limit: nat,
)
    ensures
        is_forest(flat_children(graph, children, parent, names, layers, depth, limit), depth),
    decreases limit - depth, 1nat, children.len(),
{
    if children.len() > 0 {
        lemma_flat_children_is_forest(graph, children.drop_last(), parent, names, layers, depth, limit);
        let earlier = flat_children(graph, children.drop_last(), parent, names, layers, depth, limit);
        let last = if children.last() < graph.len() {
            flat_node(graph, graph[children.last() as int], parent, names, layers, depth, true, limit)
        } else {
            Seq::empty()
        };
        if children.last() < graph.len() {
            lemma_flat_node_is_forest(
                graph,
                graph[children.last() as int],
                parent,
                names,
                layers,
                depth,
                true,
                limit,
            );
        }
        lemma_forests_join(earlier, last, depth);
    }
}

/// With the children of `node` ranked below `bound`, and room for that
/// many levels below `depth`, a larger limit changes nothing.
proof fn lemma_flat_node_limit(
    graph: Seq<SceneNode>,
    rank: Seq<nat>,
    node: SceneNode,
    parent: Option<Seq<char>>,
    names: Seq<Option<Seq<char>>>,
    layers: Seq<LayerInfo>,
    depth: nat,
    placed: bool,
    bound: nat,
    limit: nat,
)
    requires
        ranks_fall(graph, rank),
        ranked_below(graph, rank, children_of(node), bound),
        depth + bound < graph.len(),
        limit >= graph.len(),
    ensures
        flat_node(graph, node, parent, names, layers, depth, placed, limit) == flat_node(
            graph,
            node,
            parent,
            names,
            layers,
            depth,
            placed,
            graph.len(),
        ),
    decreases graph.len() - depth, 0nat, 0nat,
{
    match node {
        SceneNode::Transform { name, child, .. } => {
            if child < graph.len() {
                assert(children_of(node)[0] == child);
                lemma_flat_child_limit(
                    graph,
                    rank,
                    graph[child as int],
                    accumulated(parent, opt_view(name)),
                    names,
                    layers,
                    depth + 1,
                    rank[child as int],
                    limit,
                );
            }
        },
        _ => {
            lemma_flat_child_limit(graph, rank, node, parent, names, layers, depth + 1, bound, limit);
        },
    }
}

/// The same for what a node contributes below its holder.
proof fn lemma_flat_child_limit(
    graph: Seq<SceneNode>,
    rank: Seq<nat>,
    node: SceneNode,
    parent: Option<Seq<char>>,
    names: Seq<Option<Seq<char>>>,
    layers: Seq<LayerInfo>,
    depth: nat,
    bound: nat,
    limit: nat,
)
    requires
        ranks_fall(graph, rank),
        ranked_below(graph, rank, children_of(node), bound),
        depth + bound <= graph.len(),
        node is Transform ==> depth + bound < graph.len(),
        limit >= graph.len(),
    ensures
        flat_child(graph, node, parent, names, layers, depth, limit) == flat_child(
            graph,
            node,
            parent,
            names,
            layers,
            depth,
            graph.len(),
        ),
    decreases graph.len() - depth, 2nat, 0nat,
{
    match node {
        SceneNode::Transform { .. } => {
            lemma_flat_node_limit(graph, rank, node, parent, names, layers, depth, true, bound, limit);
        },
        SceneNode::Group { children } => {
            lemma_flat_children_limit(graph, rank, children@, parent, names, layers, depth, bound, limit);
        },
        SceneNode::Shape { .. } => {},
    }
}

/// The same for the hierarchies of listed children.
proof fn lemma_flat_children_limit(
    graph: Seq<SceneNode>,
    rank: Seq<nat>,
    children: Seq<u32>,
    parent: Option<Seq<char>>,
    names: Seq<Option<Seq<char>>>,
    layers: Seq<LayerInfo>,
    depth: nat,
    bound: nat,
    limit: nat,
)
    requires
        ranks_fall(graph, rank),
        ranked_below(graph, rank, children, bound),
        depth + bound <= graph.len(),
        limit >= graph.len(),
    ensures
        flat_children(graph, children, parent, names, layers, depth, limit) == flat_children(
            graph,
            children,
            parent,
            names,
            layers,
            depth,
            graph.len(),
        ),
    decreases graph.len() - depth, 1nat, children.len(),
{
    if children.len() > 0 {
        let earlier = children.drop_last();
        assert forall|k: int| 0 <= k < earlier.len() && (#[trigger] earlier[k]) < graph.len() implies rank[earlier[k] as int]
            < bound by {
            assert(earlier[k] == children[k]);
        }
        lemma_flat_children_limit(graph, rank, earlier, parent, names, layers, depth, bound, limit);
        let last = children.last();
        if last < graph.len() {
            assert(children[children.len() - 1] == last);
            assert(ranked_below(graph, rank, children_of(graph[last as int]), rank[last as int]));
            lemma_flat_node_limit(
                graph,
                rank,
                graph[last as int],
                parent,
                names,
                layers,
                depth,
                true,
                rank[last as int],
                limit,
            );
        }
    }
}

/// On a graph without cycles the depth limit cuts nothing off: with any
/// larger limit the scene rooted at a node of the graph is the same.
pub proof fn lemma_depth_limit_is_idle(
    graph: Seq<SceneNode>,
    rank: Seq<nat>,
    root: int,
    parent: Option<Seq<char>>,
    names: Seq<Option<Seq<char>>>,
    layers: Seq<LayerInfo>,
    limit: nat,
)
    requires
        ranks_fall(graph, rank),
        0 <= root < graph.len(),
        limit >= graph.len(),
    ensures
        flat_node(graph, graph[root], parent, names, layers, 0, false, limit) == flat_node(
            graph,
            graph[root],
            parent,
            names,
            layers,
            0,
            false,
            graph.len(),
        ),
{
    assert(ranked_below(graph, rank, children_of(graph[root]), rank[root]));
    lemma_flat_node_limit(graph, rank, graph[root], parent, names, layers, 0, false, rank[root], limit);
}

/// A copy of an optional string.
fn copy_name(name: &Option<String>) -> (copy: Option<String>)
    ensures
        opt_view(copy) == opt_view(*name),
{
    match name {
        Some(name) => Some(name.clone()),
        None => None,
    }
}

/// The name of the model a node shows, if it is a shape with a model.
fn shown_model(scene_node: &SceneNode, model_names: &Vec<Option<String>>) -> (model: Option<String>)
    ensures
        opt_view(model) == model_of(*scene_node, names_view(model_names@)),
{
    match scene_node {
        SceneNode::Shape { models } => {
            if models.len() > 0 {
                let model_id = models[0] as usize;
                if model_id < model_names.len() {
                    match &model_names[model_id] {
                        Some(name) => Some(name.clone()),
                        None => Some(synthesized_model_name(model_id)),
                    }
                } else {
                    Some(synthesized_model_name(model_id))
                }
            } else {
                None
            }
        },
        _ => None,
    }
}

/// Appends the hierarchy of one node at `depth`; `placed` tells whether a
/// transform's own frame counts.
fn load_xform_node(
    out: &mut Vec<FlattenedNode>,
    graph: &Vec<SceneNode>,
    scene_node: &SceneNode,
    parent_name: Option<&String>,
    model_names: &Vec<Option<String>>,
    layers: &Vec<LayerInfo>,
    depth: usize,
    placed: bool,
)
    ensures
        nodes_view(final(out)@) == nodes_view(old(out)@) + flat_node(
            graph@,
            *scene_node,
            opt_ref_view(parent_name),
            names_view(model_names@),
            layers@,
            depth as nat,
            placed,
            graph@.len(),
        ),
    decreases graph.len() - depth, 0nat, 0nat,
{
    if depth >= graph.len() {
        assert(nodes_view(out@) + Seq::<NodeView>::empty() == nodes_view(out@));
        return ;
    }
    let ghost before = nodes_view(out@);
    match scene_node {
        SceneNode::Transform { name, hidden, frame, child, layer_id } => {
            let (accumulated, node_name) = get_accumulated_and_node_name(parent_name, name.as_ref());
            let on_layer = (*layer_id as usize) < layers.len();
            let layer_is_hidden = on_layer && layers[*layer_id as usize].is_hidden;
            let node_is_hidden = parse_bool(copy_name(hidden));
            let in_graph = (*child as usize) < graph.len();
            let node = FlattenedNode {
                name: node_name,
                depth,
                placement: if placed {
                    placement_from_frame(frame)
                } else {
                    None
                },
                layer: if on_layer {
                    Some(*layer_id)
                } else {
                    None
                },
                visibility: if node_is_hidden || layer_is_hidden {
                    NodeVisibility::Hidden
                } else {
                    NodeVisibility::Inherited
                },
                model: if in_graph {
                    shown_model(&graph[*child as usize], model_names)
                } else {
                    None
                },
            };
            let ghost view = transform_view(
                graph@,
                *scene_node,
                opt_ref_view(parent_name),
                names_view(model_names@),
                layers@,
                depth as nat,
                placed,
            );
            assert(node@ == view);
            let ghost pushed = out@.push(node);
            out.push(node);
            assert(nodes_view(pushed) =~= before + seq![view]);
            if in_graph {
                load_xform_child(
                    out,
                    graph,
                    &graph[*child as usize],
                    accumulated.as_ref(),
                    model_names,
                    layers,
                    depth + 1,
                );
                let ghost below = flat_child(
                    graph@,
                    graph@[*child as int],
                    opt_view(accumulated),
                    names_view(model_names@),
                    layers@,
                    (depth + 1) as nat,
                    graph@.len(),
                );
                assert(before + seq![view] + below =~= before + (seq![view] + below));
            } else {
                assert(before + seq![view] =~= before + (seq![view] + Seq::<NodeView>::empty()));
            }
        },
        SceneNode::Group { .. } | SceneNode::Shape { .. } => {
            let node = FlattenedNode {
                name: None,
                depth,
                placement: None,
                layer: None,
                visibility: NodeVisibility::Inherited,
                model: shown_model(scene_node, model_names),
            };
            let ghost view = wrapper_view(*scene_node, names_view(model_names@), depth as nat);
            assert(node@ == view);
            let ghost pushed = out@.push(node);
            out.push(node);
            assert(nodes_view(pushed) =~= before + seq![view]);
            load_xform_child(out, graph, scene_node, parent_name, model_names, layers, depth + 1);
            let ghost below = flat_child(
                graph@,
                *scene_node,
                opt_ref_view(parent_name),
                names_view(model_names@),
                layers@,
                (depth + 1) as nat,
                graph@.len(),
            );
            assert(before + seq![view] + below =~= before + (seq![view] + below));
        },
    }
}

/// Appends what a node contributes below the node that holds it.
fn load_xform_child(
    out: &mut Vec<FlattenedNode>,
    graph: &Vec<SceneNode>,
    scene_node: &SceneNode,
    parent_name: Option<&String>,
    model_names: &Vec<Option<String>>,
    layers: &Vec<LayerInfo>,
    depth: usize,
)
    ensures
        nodes_view(final(out)@) == nodes_view(old(out)@) + flat_child(
            graph@,
            *scene_node,
            opt_ref_view(parent_name),
            names_view(model_names@),
            layers@,
            depth as nat,
            graph@.len(),
        ),
    decreases graph.len() - depth, 2nat, 0nat,
{
    let ghost before = nodes_view(out@);
    match scene_node {
        SceneNode::Transform { .. } => {
            load_xform_node(out, graph, scene_node, parent_name, model_names, layers, depth, true);
        },
        SceneNode::Group { children } => {
            let mut i: usize = 0;
            assert(before + Seq::<NodeView>::empty() == before);
            while i < children.len()
                invariant
                    i <= children.len(),
                    nodes_view(out@) == before + flat_children(
                        graph@,
                        children@.take(i as int),
                        opt_ref_view(parent_name),
                        names_view(model_names@),
                        layers@,
                        depth as nat,
                        graph@.len(),
                    ),
                decreases children.len() - i,
            {
                assert(children@.take(i + 1).drop_last() == children@.take(i as int));
                let ghost earlier = flat_children(
                    graph@,
                    children@.take(i as int),
                    opt_ref_view(parent_name),
                    names_view(model_names@),
                    layers@,
                    depth as nat,
                    graph@.len(),
                );
                let child = children[i] as usize;
                if child < graph.len() {
                    load_xform_node(
                        out,
                        graph,
                        &graph[child],
                        parent_name,
                        model_names,
                        layers,
                        depth,
                        true,
                    );
                    let ghost added = flat_node(
                        graph@,
                        graph@[child as int],
                        opt_ref_view(parent_name),
                        names_view(model_names@),
                        layers@,
                        depth as nat,
                        true,
                        graph@.len(),
                    );
                    assert(before + earlier + added =~= before + (earlier + added));
                } else {
                    assert(before + earlier =~= before + (earlier + Seq::<NodeView>::empty()));
                }
                i += 1;
            }
            assert(children@.take(i as int) == children@);
        },
        SceneNode::Shape { .. } => {
            assert(before + Seq::<NodeView>::empty() == before);
        },
    }
}

/// Builds the scene rooted at `scene_node`: the flattened hierarchy of a
/// transform and everything below it, with the root at depth 0, or nothing
/// if the node is a group or a shape. The root's own frame is ignored.
pub fn parse_scene_graph(
    graph: &Vec<SceneNode>,
    scene_node: &SceneNode,
    parent_name: Option<&String>,
    model_names: &Vec<Option<String>>,
    layers: &Vec<LayerInfo>,
) -> (scene: Vec<FlattenedNode>)
    ensures
        nodes_view(scene@) == scene_of(
            graph@,
            *scene_node,
            opt_ref_view(parent_name),
            names_view(model_names@),
            layers@,
        ),
{
    let mut scene: Vec<FlattenedNode> = Vec::new();
    assert(nodes_view(scene@) =~= Seq::<NodeView>::empty());
    match scene_node {
        SceneNode::Transform { .. } => {
            let ghost below = flat_node(
                graph@,
                *scene_node,
                opt_ref_view(parent_name),
                names_view(model_names@),
                layers@,
                0,
                false,
                graph@.len(),
            );
            load_xform_node(&mut scene, graph, scene_node, parent_name, model_names, layers, 0, false);
            assert(Seq::<NodeView>::empty() + below =~= below);
        },
        _ => {},
    }
    scene
}

/// Finds the parent of the node at `i`: the position of the nearest node
/// before it that is one level higher. The root of a hierarchy has none.
pub fn parent_of(nodes: &Vec<FlattenedNode>, i: usize) -> (parent: Option<usize>)
    requires
        i < nodes@.len(),
    ensures
        match parent {
            Some(j) => j < i && nodes@[j as int].depth + 1 == nodes@[i as int].depth && forall|k: int|
                j < k < i ==> (#[trigger] nodes@[k]).depth + 1 != nodes@[i as int].depth,
            None => forall|k: int|
                0 <= k < i ==> (#[trigger] nodes@[k]).depth + 1 != nodes@[i as int].depth,
        },
{
    let depth = nodes[i].depth;
    if depth == 0 {
        return None;
    }
    let mut j: usize = i;
    while j > 0
        invariant
            j <= i,
            i < nodes@.len(),
            depth == nodes@[i as int].depth,
            depth > 0,
            forall|k: int| j <= k < i ==> (#[trigger] nodes@[k]).depth + 1 != depth,
        decreases j,
    {
        j -= 1;
        if nodes[j].depth == depth - 1 {
            return Some(j);
        }
    }
    None
}

} // verus!
