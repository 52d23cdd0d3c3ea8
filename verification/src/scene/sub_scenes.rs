//! Sub-scenes: every named transform below the root can be loaded on its
//! own, under its path. A path that several nodes share stands for the
//! first of them.

use crate::registry::NameSet;
use crate::scene::flatten::{nodes_view, parse_scene_graph, scene_of, FlattenedNode, NodeView};
use crate::scene::names::{accumulated, get_accumulated_and_node_name, names_view, node_path};
use crate::scene::node::{children_of, ranked_below, ranks_fall, LayerInfo, SceneNode};
use crate::text::{opt_ref_view, opt_view};
use vstd::prelude::*;

verus! {

/// A named transform met on the walk: its path, its position in the node
/// list, and the path accumulated above it.
#[derive(Debug)]
pub struct NamedNode {
    pub name: String,
    pub node: u32,
    pub parent_name: Option<String>,
}

/// A named node with its strings as character sequences.
pub struct NamedView {
    pub name: Seq<char>,
    pub node: u32,
    pub parent_name: Option<Seq<char>>,
}

impl View for NamedNode {
    type V = NamedView;

    open spec fn view(&self) -> NamedView {
        NamedView { name: self.name@, node: self.node, parent_name: opt_view(self.parent_name) }
    }
}

/// The views of a list of named nodes.
pub open spec fn named_view(nodes: Seq<NamedNode>) -> Seq<NamedView> {
    nodes.map_values(|n: NamedNode| n@)
}

/// A scene that can be loaded by name.
#[derive(Debug)]
pub struct SubScene {
    pub name: String,
    pub nodes: Vec<FlattenedNode>,
}

/// A sub-scene with its strings as character sequences.
pub struct SubSceneView {
    pub name: Seq<char>,
    pub nodes: Seq<NodeView>,
}

impl View for SubScene {
    type V = SubSceneView;

    open spec fn view(&self) -> SubSceneView {
        SubSceneView { name: self.name@, nodes: nodes_view(self.nodes@) }
    }
}

/// The views of a list of sub-scenes.
pub open spec fn sub_scenes_view(scenes: Seq<SubScene>) -> Seq<SubSceneView> {
    scenes.map_values(|s: SubScene| s@)
}

/// The named transforms at and below the node at `index`, which hangs at
/// `depth`: those below it first, then the node itself if it has a name of
/// its own. A group or shape that no transform holds is looked through.
/// Nothing is named at depth `limit` or deeper.
pub open spec fn named_in_node(
    graph: Seq<SceneNode>,
    index: u32,
    parent: Option<Seq<char>>,
    depth: nat,
    limit: nat,
) -> Seq<NamedView>
    decreases limit - depth, 0nat, 0nat,
{
    if depth >= limit || index >= graph.len() {
        Seq::empty()
    } else {
        match graph[index as int] {
            SceneNode::Transform { name, child, .. } => {
                (if child < graph.len() {
                    named_in_child(graph, child, accumulated(parent, opt_view(name)), depth + 1, limit)
                } else {
                    Seq::empty()
                }) + (if name is Some {
                    seq![
                        NamedView {
                            name: node_path(parent, opt_view(name))->0,
                            node: index,
                            parent_name: parent,
                        },
                    ]
                } else {
                    Seq::empty()
                })
            },
            _ => named_in_child(graph, index, parent, depth + 1, limit),
        }
    }
}

/// The named transforms that the node at `index` contributes below the
/// node that holds it.
pub open spec fn named_in_child(
    graph: Seq<SceneNode>,
    index: u32,
    parent: Option<Seq<char>>,
    depth: nat,
    limit: nat,
) -> Seq<NamedView>
    decreases limit - depth, 2nat, 0nat,
{
    if index >= graph.len() {
        Seq::empty()
    } else {
        match graph[index as int] {
            SceneNode::Transform { .. } => named_in_node(graph, index, parent, depth, limit),
            SceneNode::Group { children } => named_in_children(graph, children@, parent, depth, limit),
            SceneNode::Shape { .. } => Seq::empty(),
        }
    }
}

/// The named transforms at and below each of the listed children, in order.
pub open spec fn named_in_children(
    graph: Seq<SceneNode>,
    children: Seq<u32>,
    parent: Option<Seq<char>>,
    depth: nat,
    limit: nat,
) -> Seq<NamedView>
    decreases limit - depth, 1nat, children.len(),
{
    if children.len() == 0 {
        Seq::empty()
    } else {
        named_in_children(graph, children.drop_last(), parent, depth, limit) + named_in_node(
            graph,
            children.last(),
            parent,
            depth,
            limit,
        )
    }
}

/// The named transforms below the root of a scene, in the order in which
/// they ask to be registered. The root itself does not ask, and neither
/// does a node deeper than the graph has nodes.
pub open spec fn named_below_root(
    graph: Seq<SceneNode>,
    root: SceneNode,
    parent: Option<Seq<char>>,
) -> Seq<NamedView> {
    match root {
        SceneNode::Transform { name, child, .. } => named_in_child(
            graph,
            child,
            accumulated(parent, opt_view(name)),
            1,
            graph.len(),
        ),
        _ => Seq::empty(),
    }
}

/// The names of the listed nodes.
pub open spec fn names_in(nodes: Seq<NamedView>) -> Set<Seq<char>>
    decreases nodes.len(),
{
    if nodes.len() == 0 {
        Set::empty()
    } else {
        names_in(nodes.drop_last()).insert(nodes.last().name)
    }
}

/// The listed nodes without those whose name an earlier one has.
pub open spec fn first_of_each_name(nodes: Seq<NamedView>) -> Seq<NamedView>
    decreases nodes.len(),
{
    if nodes.len() == 0 {
        Seq::empty()
    } else if names_in(nodes.drop_last()).contains(nodes.last().name) {
        first_of_each_name(nodes.drop_last())
    } else {
        first_of_each_name(nodes.drop_last()).push(nodes.last())
    }
}

/// A name is among the names of the listed nodes exactly if one of them
/// has it.
pub proof fn lemma_names_in_has(nodes: Seq<NamedView>, name: Seq<char>)
    ensures
        names_in(nodes).contains(name) <==> exists|i: int|
            0 <= i < nodes.len() && (#[trigger] nodes[i]).name == name,
    decreases nodes.len(),
{
    if nodes.len() > 0 {
        let earlier = nodes.drop_last();
        lemma_names_in_has(earlier, name);
        if names_in(nodes).contains(name) {
            if nodes.last().name == name {
                assert(nodes[nodes.len() - 1].name == name);
            } else {
                let i = choose|i: int| 0 <= i < earlier.len() && (#[trigger] earlier[i]).name == name;
                assert(nodes[i].name == name);
            }
        }
        if exists|i: int| 0 <= i < nodes.len() && (#[trigger] nodes[i]).name == name {
            let i = choose|i: int| 0 <= i < nodes.len() && (#[trigger] nodes[i]).name == name;
            if i < earlier.len() {
                assert(earlier[i].name == name);
            }
        }
    }
}

/// Every name is kept once: the nodes kept have the names of all the nodes
/// listed, and no two of them have the same name.
pub proof fn lemma_each_name_is_kept_once(nodes: Seq<NamedView>)
    ensures
        names_in(first_of_each_name(nodes)) == names_in(nodes),
        forall|i: int, j: int|
            0 <= i < j < first_of_each_name(nodes).len() ==> (#[trigger] first_of_each_name(
                nodes,
            )[i]).name != (#[trigger] first_of_each_name(nodes)[j]).name,
    decreases nodes.len(),
{
    if nodes.len() > 0 {
        let earlier = nodes.drop_last();
        lemma_each_name_is_kept_once(earlier);
        let kept = first_of_each_name(nodes);
        let kept_earlier = first_of_each_name(earlier);
        if names_in(earlier).contains(nodes.last().name) {
            assert(names_in(nodes) =~= names_in(earlier));
        } else {
            assert(kept.drop_last() == kept_earlier);
            assert forall|i: int, j: int| 0 <= i < j < kept.len() implies (#[trigger] kept[i]).name != (
            #[trigger] kept[j]).name by {
                if j == kept.len() - 1 {
                    lemma_names_in_has(kept_earlier, nodes.last().name);
                    assert(kept[i] == kept_earlier[i]);
                } else {
                    assert(kept[i] == kept_earlier[i]);
                    assert(kept[j] == kept_earlier[j]);
                }
            }
        }
    }
}

/// The sub-scene that a named node stands for: the scene rooted at it,
/// under the node's path. A node index past the node list gives an empty
/// scene.
pub open spec fn sub_scene_of(
    graph: Seq<SceneNode>,
    named: NamedView,
    names: Seq<Option<Seq<char>>>,
    layers: Seq<LayerInfo>,
) -> SubSceneView {
    SubSceneView {
        name: named.name,
        nodes: if named.node < graph.len() {
            scene_of(graph, graph[named.node as int], named.parent_name, names, layers)
        } else {
            Seq::empty()
        },
    }
}

/// The sub-scenes of the listed nodes, one for each name, in list order.
pub open spec fn sub_scenes_of(
    graph: Seq<SceneNode>,
    nodes: Seq<NamedView>,
    names: Seq<Option<Seq<char>>>,
    layers: Seq<LayerInfo>,
) -> Seq<SubSceneView> {
    first_of_each_name(nodes).map_values(|n: NamedView| sub_scene_of(graph, n, names, layers))
}

/// With room below `depth` for as many levels as the node's rank, a larger
/// limit changes nothing.
proof fn lemma_named_in_node_limit(
    graph: Seq<SceneNode>,
    rank: Seq<nat>,
    index: u32,
    parent: Option<Seq<char>>,
    depth: nat,
    limit: nat,
)
    requires
        ranks_fall(graph, rank),
        index < graph.len() ==> depth + rank[index as int] < graph.len(),
        limit >= graph.len(),
    ensures
        named_in_node(graph, index, parent, depth, limit) == named_in_node(
            graph,
            index,
            parent,
            depth,
            graph.len(),
        ),
    decreases graph.len() - depth, 0nat, 0nat,
{
    if index < graph.len() {
        assert(ranked_below(graph, rank, children_of(graph[index as int]), rank[index as int]));
        match graph[index as int] {
            SceneNode::Transform { name, child, .. } => {
                if child < graph.len() {
                    assert(children_of(graph[index as int])[0] == child);
                    lemma_named_in_child_limit(
                        graph,
                        rank,
                        child,
                        accumulated(parent, opt_view(name)),
                        depth + 1,
                        limit,
                    );
                }
            },
            _ => {
                lemma_named_in_child_limit(graph, rank, index, parent, depth + 1, limit);
            },
        }
    }
}

/// The same for what a node contributes below its holder.
proof fn lemma_named_in_child_limit(
    graph: Seq<SceneNode>,
    rank: Seq<nat>,
    index: u32,
    parent: Option<Seq<char>>,
    depth: nat,
    limit: nat,
)
    requires
        ranks_fall(graph, rank),
        index < graph.len() ==> depth + rank[index as int] <= graph.len(),
        index < graph.len() && graph[index as int] is Transform ==> depth + rank[index as int]
            < graph.len(),
        limit >= graph.len(),
    ensures
        named_in_child(graph, index, parent, depth, limit) == named_in_child(
            graph,
            index,
            parent,
            depth,
            graph.len(),
        ),
    decreases graph.len() - depth, 2nat, 0nat,
{
    if index < graph.len() {
        assert(ranked_below(graph, rank, children_of(graph[index as int]), rank[index as int]));
        match graph[index as int] {
            SceneNode::Transform { .. } => {
                lemma_named_in_node_limit(graph, rank, index, parent, depth, limit);
            },
            SceneNode::Group { children } => {
                lemma_named_in_children_limit(
                    graph,
                    rank,
                    children@,
                    parent,
                    depth,
                    rank[index as int],
                    limit,
                );
            },
            SceneNode::Shape { .. } => {},
        }
    }
}

/// The same for listed children, all ranked below `bound`.
proof fn lemma_named_in_children_limit(
    graph: Seq<SceneNode>,
    rank: Seq<nat>,
    children: Seq<u32>,
    parent: Option<Seq<char>>,
    depth: nat,
    bound: nat,
    limit: nat,
)
    requires
        ranks_fall(graph, rank),
        ranked_below(graph, rank, children, bound),
        depth + bound <= graph.len(),
        limit >= graph.len(),
    ensures
        named_in_children(graph, children, parent, depth, limit) == named_in_children(
            graph,
            children,
            parent,
            depth,
            graph.len(),
        ),
    decreases graph.len() - depth, 1nat, children.len(),
{
    if children.len() > 0 {
        let earlier = children.drop_last();
        assert forall|k: int| 0 <= k < earlier.len() && (#[trigger] earlier[k]) < graph.len() implies rank[earlier[k] as int]
            < bound by {
            assert(earlier[k] == children[k]);
        }
        lemma_named_in_children_limit(graph, rank, earlier, parent, depth, bound, limit);
        assert(children[children.len() - 1] == children.last());
        lemma_named_in_node_limit(graph, rank, children.last(), parent, depth, limit);
    }
}

/// On a graph without cycles the depth limit cuts nothing off: with any
/// larger limit the same transforms below a root of the graph are named.
pub proof fn lemma_named_limit_is_idle(
    graph: Seq<SceneNode>,
    rank: Seq<nat>,
    root: int,
    child: u32,
    parent: Option<Seq<char>>,
    limit: nat,
)
    requires
        ranks_fall(graph, rank),
        0 <= root < graph.len(),
        graph[root] is Transform,
        child == graph[root]->child,
        limit >= graph.len(),
    ensures
        named_in_child(graph, child, parent, 1, limit) == named_in_child(
            graph,
            child,
            parent,
            1,
            graph.len(),
        ),
{
    assert(ranked_below(graph, rank, children_of(graph[root]), rank[root]));
    if child < graph.len() {
        assert(children_of(graph[root])[0] == child);
    }
    lemma_named_in_child_limit(graph, rank, child, parent, 1, limit);
}

/// Appends the named transforms at and below the node at `index`.
fn collect_named_node(
    out: &mut Vec<NamedNode>,
    graph: &Vec<SceneNode>,
    index: u32,
    parent_name: Option<&String>,
    depth: usize,
)
    ensures
        named_view(final(out)@) == named_view(old(out)@) + named_in_node(
            graph@,
            index,
            opt_ref_view(parent_name),
            depth as nat,
            graph@.len(),
        ),
    decreases graph.len() - depth, 0nat, 0nat,
{
    let ghost before = named_view(out@);
    if depth >= graph.len() || index as usize >= graph.len() {
        assert(before + Seq::<NamedView>::empty() == before);
        return ;
    }
    match &graph[index as usize] {
        SceneNode::Transform { name, hidden: _, frame: _, child, layer_id: _ } => {
            let (accumulated, node_name) = get_accumulated_and_node_name(parent_name, name.as_ref());
            let ghost below = if *child < graph@.len() {
                named_in_child(graph@, *child, opt_view(accumulated), (depth + 1) as nat, graph@.len())
            } else {
                Seq::empty()
            };
            if (*child as usize) < graph.len() {
                collect_named_child(out, graph, *child, accumulated.as_ref(), depth + 1);
            } else {
                assert(before + Seq::<NamedView>::empty() == before);
            }
            assert(named_view(out@) == before + below);
            match node_name {
                Some(node_name) => {
                    let named = NamedNode {
                        name: node_name,
                        node: index,
                        parent_name: match parent_name {
                            Some(parent_name) => Some(parent_name.clone()),
                            None => None,
                        },
                    };
                    let ghost pushed = out@.push(named);
                    out.push(named);
                    assert(named_view(pushed) =~= before + below + seq![named@]);
                    assert(before + below + seq![named@] =~= before + (below + seq![named@]));
                },
                None => {
                    assert(before + below =~= before + (below + Seq::<NamedView>::empty()));
                },
            }
        },
        _ => {
            collect_named_child(out, graph, index, parent_name, depth + 1);
        },
    }
}

/// Appends the named transforms that the node at `index` contributes below
/// the node that holds it.
fn collect_named_child(
    out: &mut Vec<NamedNode>,
    graph: &Vec<SceneNode>,
    index: u32,
    parent_name: Option<&String>,
    depth: usize,
)
    ensures
        named_view(final(out)@) == named_view(old(out)@) + named_in_child(
            graph@,
            index,
            opt_ref_view(parent_name),
            depth as nat,
            graph@.len(),
        ),
    decreases graph.len() - depth, 2nat, 0nat,
{
    let ghost before = named_view(out@);
    if index as usize >= graph.len() {
        assert(before + Seq::<NamedView>::empty() == before);
        return ;
    }
    match &graph[index as usize] {
        SceneNode::Transform { .. } => {
            collect_named_node(out, graph, index, parent_name, depth);
        },
        SceneNode::Group { children } => {
            let mut i: usize = 0;
            assert(before + Seq::<NamedView>::empty() == before);
            while i < children.len()
                invariant
                    i <= children.len(),
                    named_view(out@) == before + named_in_children(
                        graph@,
                        children@.take(i as int),
                        opt_ref_view(parent_name),
                        depth as nat,
                        graph@.len(),
                    ),
                decreases children.len() - i,
            {
                assert(children@.take(i + 1).drop_last() == children@.take(i as int));
                let ghost earlier = named_in_children(
                    graph@,
                    children@.take(i as int),
                    opt_ref_view(parent_name),
                    depth as nat,
                    graph@.len(),
                );
                let ghost added = named_in_node(
                    graph@,
                    children@[i as int],
                    opt_ref_view(parent_name),
                    depth as nat,
                    graph@.len(),
                );
                collect_named_node(out, graph, children[i], parent_name, depth);
                assert(before + earlier + added =~= before + (earlier + added));
                i += 1;
            }
            assert(children@.take(i as int) == children@);
        },
        SceneNode::Shape { .. } => {
            assert(before + Seq::<NamedView>::empty() == before);
        },
    }
}

/// The named transforms below the root `scene_node`, in the order in which
/// they ask to be registered: every node after the nodes below it.
pub fn named_nodes(graph: &Vec<SceneNode>, scene_node: &SceneNode, parent_name: Option<&String>) -> (named:
    Vec<NamedNode>)
    ensures
        named_view(named@) == named_below_root(graph@, *scene_node, opt_ref_view(parent_name)),
{
    let mut named: Vec<NamedNode> = Vec::new();
    assert(named_view(named@) =~= Seq::<NamedView>::empty());
    match scene_node {
        SceneNode::Transform { name, hidden: _, frame: _, child, layer_id: _ } => {
            let (accumulated, _) = get_accumulated_and_node_name(parent_name, name.as_ref());
            let ghost below = named_in_child(graph@, *child, opt_view(accumulated), 1, graph@.len());
            collect_named_child(&mut named, graph, *child, accumulated.as_ref(), 1);
            assert(Seq::<NamedView>::empty() + below =~= below);
        },
        _ => {},
    }
    named
}

/// Builds the sub-scenes of the listed nodes: one for each name, made from
/// the first node that has it, in list order.
pub fn build_sub_scenes(
    graph: &Vec<SceneNode>,
    named: &Vec<NamedNode>,
    model_names: &Vec<Option<String>>,
    layers: &Vec<LayerInfo>,
) -> (scenes: Vec<SubScene>)
    ensures
        sub_scenes_view(scenes@) == sub_scenes_of(
            graph@,
            named_view(named@),
            names_view(model_names@),
            layers@,
        ),
{
    let mut subassets = NameSet::new();
    let mut scenes: Vec<SubScene> = Vec::new();
    let ghost all = named_view(named@);
    let ghost names = names_view(model_names@);
    assert(sub_scenes_view(scenes@) =~= sub_scenes_of(graph@, all.take(0), names, layers@));
    let mut i: usize = 0;
    while i < named.len()
        invariant
            i <= named.len(),
            all == named_view(named@),
            names == names_view(model_names@),
            subassets@ == names_in(all.take(i as int)),
            sub_scenes_view(scenes@) == sub_scenes_of(graph@, all.take(i as int), names, layers@),
        decreases named.len() - i,
    {
        let candidate = &named[i];
        let ghost old_scenes = scenes@;
        assert(all.take(i + 1).drop_last() == all.take(i as int));
        assert(all.take(i + 1).last() == candidate@);
        if subassets.insert(candidate.name.clone()) {
            let nodes = if (candidate.node as usize) < graph.len() {
                parse_scene_graph(
                    graph,
                    &graph[candidate.node as usize],
                    candidate.parent_name.as_ref(),
                    model_names,
                    layers,
                )
            } else {
                Vec::new()
            };
            assert(nodes_view(nodes@) =~= sub_scene_of(graph@, candidate@, names, layers@).nodes);
            let scene = SubScene { name: candidate.name.clone(), nodes };
            assert(scene@ == sub_scene_of(graph@, candidate@, names, layers@));
            let ghost pushed = scenes@.push(scene);
            let ghost kept = first_of_each_name(all.take(i as int));
            assert(first_of_each_name(all.take(i + 1)) == kept.push(candidate@));
            assert(sub_scenes_view(scenes@).len() == kept.len());
            scenes.push(scene);
            assert(sub_scenes_view(pushed) =~= sub_scenes_view(pushed.drop_last()).push(scene@));
            assert(pushed.drop_last() == old_scenes);
            assert(sub_scenes_view(pushed) =~= sub_scenes_of(
                graph@,
                all.take(i + 1),
                names,
                layers@,
            ));
        }
        i += 1;
    }
    assert(all.take(i as int) == all);
    scenes
}

} // verus!
