//! What is wrong with a scene graph but does not stop it from being
//! flattened: every anomaly that the walk recovers from, for the caller to
//! report.

use crate::scene::node::{children_of, ranked_below, ranks_fall, LayerInfo, SceneNode};
use crate::text::opt_view;
use vstd::prelude::*;

verus! {

/// What the walk found and recovered from.
#[derive(Clone, Copy, Debug, PartialEq, Eq, Structural)]
pub enum AnomalyKind {
    /// A group or shape that no transform holds; it gets a wrapper node.
    OrphanNode,
    /// A transform that is the child of a transform; it becomes a node below
    /// its parent's.
    NestedTransform,
    /// A `_hidden` attribute that is neither `0` nor `1`; it counts as not
    /// hidden.
    InvalidBoolean,
    /// A layer id that the file has no layer for; the node is on no layer.
    UnknownLayer,
}

/// An anomaly and the position, in the node list, of the node that has it.
#[derive(Clone, Copy, Debug, PartialEq, Eq, Structural)]
pub struct Anomaly {
    pub kind: AnomalyKind,
    pub node: u32,
}

/// The attribute is there and is neither `0` nor `1`.
pub open spec fn is_invalid_boolean(value: Option<Seq<char>>) -> bool {
    value is Some && value != Some(seq!['1']) && value != Some(seq!['0'])
}

/// The anomalies of a transform itself: its layer, then its `_hidden`
/// attribute.
pub open spec fn own_anomalies(node: SceneNode, index: u32, layer_count: nat) -> Seq<Anomaly>
    recommends
        node is Transform,
{
    (if node->layer_id >= layer_count {
        seq![Anomaly { kind: AnomalyKind::UnknownLayer, node: index }]
    } else {
        Seq::empty()
    }) + (if is_invalid_boolean(opt_view(node->hidden)) {
        seq![Anomaly { kind: AnomalyKind::InvalidBoolean, node: index }]
    } else {
        Seq::empty()
    })
}

/// The anomalies met at and below the node at `index`, which hangs at
/// `depth`: for a transform those below it, then its own; for a group or
/// shape that no transform holds, that fact, then those below it. Nothing
/// is looked at at depth `limit` or deeper.
pub open spec fn anomalies_in_node(
    graph: Seq<SceneNode>,
    index: u32,
    layer_count: nat,
    depth: nat,
    limit: nat,
) -> Seq<Anomaly>
    decreases limit - depth, 0nat, 0nat,
{
    if depth >= limit || index >= graph.len() {
        Seq::empty()
    } else {
        match graph[index as int] {
            SceneNode::Transform { child, .. } => {
                (if child < graph.len() {
                    anomalies_in_child(graph, child, layer_count, depth + 1, limit)
                } else {
                    Seq::empty()
                }) + own_anomalies(graph[index as int], index, layer_count)
            },
            _ => seq![Anomaly { kind: AnomalyKind::OrphanNode, node: index }] + anomalies_in_child(
                graph,
                index,
                layer_count,
                depth + 1,
                limit,
            ),
        }
    }
}

/// The anomalies met in what the node at `index` contributes below the node
/// that holds it: a transform there is nested, a group is walked child by
/// child, a shape has nothing below it.
pub open spec fn anomalies_in_child(
    graph: Seq<SceneNode>,
    index: u32,
    layer_count: nat,
    depth: nat,
    limit: nat,
) -> Seq<Anomaly>
    decreases limit - depth, 2nat, 0nat,
{
    if index >= graph.len() {
        Seq::empty()
    } else {
        match graph[index as int] {
            SceneNode::Transform { .. } => seq![
                Anomaly { kind: AnomalyKind::NestedTransform, node: index },
            ] + anomalies_in_node(graph, index, layer_count, depth, limit),
            SceneNode::Group { children } => anomalies_in_children(
                graph,
                children@,
                layer_count,
                depth,
                limit,
            ),
            SceneNode::Shape { .. } => Seq::empty(),
        }
    }
}

/// The anomalies met at and below each of the listed children, in order.
pub open spec fn anomalies_in_children(
    graph: Seq<SceneNode>,
    children: Seq<u32>,
    layer_count: nat,
    depth: nat,
    limit: nat,
) -> Seq<Anomaly>
    decreases limit - depth, 1nat, children.len(),
{
    if children.len() == 0 {
        Seq::empty()
    } else {
        anomalies_in_children(graph, children.drop_last(), layer_count, depth, limit)
            + anomalies_in_node(graph, children.last(), layer_count, depth, limit)
    }
}

/// The anomalies met when the scene of a file is flattened from its first
/// node: none if that node is no transform, as nothing is flattened then.
pub open spec fn scene_anomalies(graph: Seq<SceneNode>, layer_count: nat) -> Seq<Anomaly> {
    if graph.len() > 0 && graph[0] is Transform {
        anomalies_in_node(graph, 0, layer_count, 0, graph.len())
    } else {
        Seq::empty()
    }
}

/// With room below `depth` for as many levels as the node's rank, a larger
/// limit changes nothing.
proof fn lemma_anomalies_in_node_limit(
    graph: Seq<SceneNode>,
    rank: Seq<nat>,
    index: u32,
    layer_count: nat,
    depth: nat,
    limit: nat,
)
    requires
        ranks_fall(graph, rank),
        index < graph.len() ==> depth + rank[index as int] < graph.len(),
        limit >= graph.len(),
    ensures
        anomalies_in_node(graph, index, layer_count, depth, limit) == anomalies_in_node(
            graph,
            index,
            layer_count,
            depth,
            graph.len(),
        ),
    decreases graph.len() - depth, 0nat, 0nat,
{
    if index < graph.len() {
        assert(ranked_below(graph, rank, children_of(graph[index as int]), rank[index as int]));
        match graph[index as int] {
            SceneNode::Transform { child, .. } => {
                if child < graph.len() {
                    assert(children_of(graph[index as int])[0] == child);
                    lemma_anomalies_in_child_limit(graph, rank, child, layer_count, depth + 1, limit);
                }
            },
            _ => {
                lemma_anomalies_in_child_limit(graph, rank, index, layer_count, depth + 1, limit);
            },
        }
    }
}

/// The same for what a node contributes below its holder.
proof fn lemma_anomalies_in_child_limit(
    graph: Seq<SceneNode>,
    rank: Seq<nat>,
    index: u32,
    layer_count: nat,
    depth: nat,
    limit: nat,
)
    requires
        ranks_fall(graph, rank),
        index < graph.len() ==> depth + rank[index as int] <= graph.len(),
        index < graph.len() && graph[index as int] is Transform ==> depth + rank[index as int]
            < graph.len(),
        limit >= graph.len(),
    ensures
        anomalies_in_child(graph, index, layer_count, depth, limit) == anomalies_in_child(
            graph,
            index,
            layer_count,
            depth,
            graph.len(),
        ),
    decreases graph.len() - depth, 2nat, 0nat,
{
    if index < graph.len() {
        assert(ranked_below(graph, rank, children_of(graph[index as int]), rank[index as int]));
        match graph[index as int] {
            SceneNode::Transform { .. } => {
                lemma_anomalies_in_node_limit(graph, rank, index, layer_count, depth, limit);
            },
            SceneNode::Group { children } => {
                lemma_anomalies_in_children_limit(
                    graph,
                    rank,
                    children@,
                    layer_count,
                    depth,
                    rank[index as int],
                    limit,
                );
            },
            SceneNode::Shape { .. } => {},
        }
    }
}

/// The same for listed children, all ranked below `bound`.
proof fn lemma_anomalies_in_children_limit(
    graph: Seq<SceneNode>,
    rank: Seq<nat>,
    children: Seq<u32>,
    layer_count: nat,
    depth: nat,
    bound: nat,
    limit: nat,
)
    requires
        ranks_fall(graph, rank),
        ranked_below(graph, rank, children, bound),
        depth + bound <= graph.len(),
        limit >= graph.len(),
    ensures
        anomalies_in_children(graph, children, layer_count, depth, limit) == anomalies_in_children(
            graph,
            children,
            layer_count,
            depth,
            graph.len(),
        ),
    decreases graph.len() - depth, 1nat, children.len(),
{
    if children.len() > 0 {
        let earlier = children.drop_last();
        assert forall|k: int| 0 <= k < earlier.len() && (#[trigger] earlier[k]) < graph.len() implies rank[earlier[k] as int]
            < bound by {
            assert(earlier[k] == children[k]);
        }
        lemma_anomalies_in_children_limit(graph, rank, earlier, layer_count, depth, bound, limit);
        assert(children[children.len() - 1] == children.last());
        lemma_anomalies_in_node_limit(graph, rank, children.last(), layer_count, depth, limit);
    }
}

/// On a graph without cycles the depth limit cuts nothing off: with any
/// larger limit the same anomalies are met from the first node.
pub proof fn lemma_anomaly_limit_is_idle(
    graph: Seq<SceneNode>,
    rank: Seq<nat>,
    layer_count: nat,
    limit: nat,
)
    requires
        ranks_fall(graph, rank),
        graph.len() > 0,
        limit >= graph.len(),
    ensures
        anomalies_in_node(graph, 0, layer_count, 0, limit) == anomalies_in_node(
            graph,
            0,
            layer_count,
            0,
            graph.len(),
        ),
{
    lemma_anomalies_in_node_limit(graph, rank, 0, layer_count, 0, limit);
}

/// Whether an attribute is there and is neither `0` nor `1`.
pub fn invalid_boolean(value: &Option<String>) -> (invalid: bool)
    ensures
        invalid == is_invalid_boolean(opt_view(*value)),
{
    match value {
        Some(text) => {
            proof {
                reveal_strlit("0");
                reveal_strlit("1");
            }
            let zero = String::from_str("0");
            let one = String::from_str("1");
            assert(zero@ =~= seq!['0']);
            assert(one@ =~= seq!['1']);
            !(*text == zero) && !(*text == one)
        },
        None => false,
    }
}

/// Appends the anomalies met at and below the node at `index`.
fn collect_in_node(
    out: &mut Vec<Anomaly>,
    graph: &Vec<SceneNode>,
    index: u32,
    layer_count: usize,
    depth: usize,
)
    ensures
        final(out)@ == old(out)@ + anomalies_in_node(
            graph@,
            index,
            layer_count as nat,
            depth as nat,
            graph@.len(),
        ),
    decreases graph.len() - depth, 0nat, 0nat,
{
    let ghost before = out@;
    if depth >= graph.len() || index as usize >= graph.len() {
        assert(before + Seq::<Anomaly>::empty() == before);
        return ;
    }
    match &graph[index as usize] {
        SceneNode::Transform { name: _, hidden, frame: _, child, layer_id } => {
            let ghost below = if *child < graph@.len() {
                anomalies_in_child(graph@, *child, layer_count as nat, (depth + 1) as nat, graph@.len())
            } else {
                Seq::empty()
            };
            if (*child as usize) < graph.len() {
                collect_in_child(out, graph, *child, layer_count, depth + 1);
            } else {
                assert(before + Seq::<Anomaly>::empty() == before);
            }
            assert(out@ == before + below);
            let ghost own = own_anomalies(graph@[index as int], index, layer_count as nat);
            if *layer_id as usize >= layer_count {
                out.push(Anomaly { kind: AnomalyKind::UnknownLayer, node: index });
            }
            if invalid_boolean(hidden) {
                out.push(Anomaly { kind: AnomalyKind::InvalidBoolean, node: index });
            }
            assert(out@ =~= before + below + own);
            assert(before + below + own =~= before + (below + own));
        },
        _ => {
            let orphan = Anomaly { kind: AnomalyKind::OrphanNode, node: index };
            out.push(orphan);
            assert(out@ =~= before + seq![orphan]);
            collect_in_child(out, graph, index, layer_count, depth + 1);
            let ghost below = anomalies_in_child(
                graph@,
                index,
                layer_count as nat,
                (depth + 1) as nat,
                graph@.len(),
            );
            assert(before + seq![orphan] + below =~= before + (seq![orphan] + below));
        },
    }
}

/// Appends the anomalies met in what the node at `index` contributes below
/// the node that holds it.
fn collect_in_child(
    out: &mut Vec<Anomaly>,
    graph: &Vec<SceneNode>,
    index: u32,
    layer_count: usize,
    depth: usize,
)
    ensures
        final(out)@ == old(out)@ + anomalies_in_child(
            graph@,
            index,
            layer_count as nat,
            depth as nat,
            graph@.len(),
        ),
    decreases graph.len() - depth, 2nat, 0nat,
{
    let ghost before = out@;
    if index as usize >= graph.len() {
        assert(before + Seq::<Anomaly>::empty() == before);
        return ;
    }
    match &graph[index as usize] {
        SceneNode::Transform { .. } => {
            let nested = Anomaly { kind: AnomalyKind::NestedTransform, node: index };
            out.push(nested);
            assert(out@ =~= before + seq![nested]);
            collect_in_node(out, graph, index, layer_count, depth);
            let ghost below = anomalies_in_node(
                graph@,
                index,
                layer_count as nat,
                depth as nat,
                graph@.len(),
            );
            assert(before + seq![nested] + below =~= before + (seq![nested] + below));
        },
        SceneNode::Group { children } => {
            let mut i: usize = 0;
            assert(before + Seq::<Anomaly>::empty() == before);
            while i < children.len()
                invariant
                    i <= children.len(),
                    out@ == before + anomalies_in_children(
                        graph@,
                        children@.take(i as int),
                        layer_count as nat,
                        depth as nat,
                        graph@.len(),
                    ),
                decreases children.len() - i,
            {
                assert(children@.take(i + 1).drop_last() == children@.take(i as int));
                let ghost earlier = anomalies_in_children(
                    graph@,
                    children@.take(i as int),
                    layer_count as nat,
                    depth as nat,
                    graph@.len(),
                );
                let ghost added = anomalies_in_node(
                    graph@,
                    children@[i as int],
                    layer_count as nat,
                    depth as nat,
                    graph@.len(),
                );
                collect_in_node(out, graph, children[i], layer_count, depth);
                assert(before + earlier + added =~= before + (earlier + added));
                i += 1;
            }
            assert(children@.take(i as int) == children@);
        },
        SceneNode::Shape { .. } => {
            assert(before + Seq::<Anomaly>::empty() == before);
        },
    }
}

/// Finds the anomalies that flattening the scene of a file recovers from,
/// in the order in which the walk meets them. Flattening goes on past each
/// of them; they are for the caller to report.
pub fn find_anomalies(graph: &Vec<SceneNode>, layers: &Vec<LayerInfo>) -> (found: Vec<Anomaly>)
    ensures
        found@ == scene_anomalies(graph@, layers@.len()),
{
    let mut found: Vec<Anomaly> = Vec::new();
    if graph.len() > 0 {
        match &graph[0] {
            SceneNode::Transform { .. } => {
                let ghost all = anomalies_in_node(graph@, 0, layers@.len(), 0, graph@.len());
                collect_in_node(&mut found, graph, 0, layers.len(), 0);
                assert(Seq::<Anomaly>::empty() + all =~= all);
            },
            _ => {},
        }
    }
    found
}

} // verus!
