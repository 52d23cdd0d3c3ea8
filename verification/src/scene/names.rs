//! Names: how a node's path is accumulated from its ancestors, and which
//! names the scene graph gives to models.

use crate::scene::node::{children_of, ranked_below, ranks_fall, SceneNode};
use crate::text::{opt_ref_view, opt_view};
use vstd::prelude::*;

verus! {

/// The path handed down to a node's children: the parent's path and the
/// node's own name joined by a slash, or whichever of the two exists.
pub open spec fn accumulated(parent: Option<Seq<char>>, own: Option<Seq<char>>) -> Option<
    Seq<char>,
> {
    match (parent, own) {
        (None, None) => None,
        (None, Some(n)) => Some(n),
        (Some(p), None) => Some(p),
        (Some(p), Some(n)) => Some(p + seq!['/'] + n),
    }
}

/// The path a node itself is known by: its accumulated path if it has a
/// name of its own, none otherwise.
pub open spec fn node_path(parent: Option<Seq<char>>, own: Option<Seq<char>>) -> Option<Seq<char>> {
    match own {
        None => None,
        Some(_) => accumulated(parent, own),
    }
}

/// The accumulated path for a node's children and the node's own path.
pub fn get_accumulated_and_node_name(parent_name: Option<&String>, node_name: Option<&String>) -> (names: (
    Option<String>,
    Option<String>,
))
    ensures
        opt_view(names.0) == accumulated(opt_ref_view(parent_name), opt_ref_view(node_name)),
        opt_view(names.1) == node_path(opt_ref_view(parent_name), opt_ref_view(node_name)),
{
    match (parent_name, node_name) {
        (None, None) => (None, None),
        (None, Some(node_name)) => (Some(node_name.clone()), Some(node_name.clone())),
        (Some(parent_name), None) => (Some(parent_name.clone()), None),
        (Some(parent_name), Some(node_name)) => {
            proof {
                reveal_strlit("/");
            }
            let mut accumulated = parent_name.clone();
            accumulated.append("/");
            accumulated.append(node_name.as_str());
            assert("/"@ =~= seq!['/']);
            (Some(accumulated.clone()), Some(accumulated))
        },
    }
}

/// Reads a boolean attribute: only the text `1` means true.
pub fn parse_bool(value: Option<String>) -> (flag: bool)
    ensures
        flag == (opt_view(value) == Some(seq!['1'])),
{
    match value {
        Some(text) => {
            proof {
                reveal_strlit("1");
            }
            let one = String::from_str("1");
            assert(one@ =~= seq!['1']);
            text == one
        },
        None => false,
    }
}

/// The path handed down below a chain of nodes, the outermost first; each
/// entry is a node's own name, if it has one.
pub open spec fn path_below(chain: Seq<Option<Seq<char>>>) -> Option<Seq<char>>
    decreases chain.len(),
{
    if chain.len() == 0 {
        None
    } else {
        accumulated(path_below(chain.drop_last()), chain.last())
    }
}

/// The names that the nodes of a chain have, in order.
pub open spec fn names_present(chain: Seq<Option<Seq<char>>>) -> Seq<Seq<char>>
    decreases chain.len(),
{
    if chain.len() == 0 {
        Seq::empty()
    } else if chain.last() is Some {
        names_present(chain.drop_last()).push(chain.last()->0)
    } else {
        names_present(chain.drop_last())
    }
}

/// The parts with a slash between neighbours.
pub open spec fn slash_joined(parts: Seq<Seq<char>>) -> Seq<char>
    decreases parts.len(),
{
    if parts.len() == 0 {
        Seq::empty()
    } else if parts.len() == 1 {
        parts[0]
    } else {
        slash_joined(parts.drop_last()) + seq!['/'] + parts.last()
    }
}

/// Below any chain of nodes the accumulated path is the names of the named
/// nodes joined by slashes, and there is none if no node is named: an
/// unnamed node hands its parent's path on unchanged.
pub proof fn lemma_path_joins_names(chain: Seq<Option<Seq<char>>>)
    ensures
        path_below(chain) == (if names_present(chain).len() == 0 {
            None
        } else {
            Some(slash_joined(names_present(chain)))
        }),
    decreases chain.len(),
{
    if chain.len() > 0 {
        lemma_path_joins_names(chain.drop_last());
        let earlier = names_present(chain.drop_last());
        if chain.last() is Some {
            let all = names_present(chain);
            assert(all.drop_last() == earlier);
            assert(all.last() == chain.last()->0);
        }
    }
}

/// The names given to models so far, each as its characters.
pub open spec fn names_view(names: Seq<Option<String>>) -> Seq<Option<Seq<char>>> {
    names.map_values(|n: Option<String>| opt_view(n))
}

/// The names after a shape was met with the given accumulated path: the
/// shape's first model takes the path if there is one, replacing any name
/// it had. A shape without models, or one that refers past the model list,
/// names nothing.
pub open spec fn names_after_shape(
    models: Seq<u32>,
    path: Option<Seq<char>>,
    names: Seq<Option<Seq<char>>>,
) -> Seq<Option<Seq<char>>> {
    if models.len() > 0 && models[0] < names.len() && path is Some {
        names.update(models[0] as int, path)
    } else {
        names
    }
}

/// The names after the walk from `node`. Only a transform names anything:
/// through a shape that is its child, which takes the path accumulated down
/// to the transform (its parent's, if the transform has no name of its
/// own), or through the transforms among the children of a group that is
/// its child, which are walked in order with the accumulated path. A child index past the node list is ignored.
/// `budget` bounds how many transforms deep the walk goes.
pub open spec fn names_after_node(
    graph: Seq<SceneNode>,
    node: SceneNode,
    parent: Option<Seq<char>>,
    names: Seq<Option<Seq<char>>>,
    budget: nat,
) -> Seq<Option<Seq<char>>>
    decreases budget, 0nat,
{
    match node {
        SceneNode::Transform { name, child, .. } => {
            if child >= graph.len() {
                names
            } else {
                match graph[child as int] {
                    SceneNode::Group { children } => {
                        if budget == 0 {
                            names
                        } else {
                            names_after_children(
                                graph,
                                children@,
                                accumulated(parent, opt_view(name)),
                                names,
                                (budget - 1) as nat,
                            )
                        }
                    },
                    SceneNode::Shape { models } => names_after_shape(
                        models@,
                        accumulated(parent, opt_view(name)),
                        names,
                    ),
                    SceneNode::Transform { .. } => names,
                }
            }
        },
        _ => names,
    }
}

/// The names after the walks from each of `children`, in order.
pub open spec fn names_after_children(
    graph: Seq<SceneNode>,
    children: Seq<u32>,
    parent: Option<Seq<char>>,
    names: Seq<Option<Seq<char>>>,
    budget: nat,
) -> Seq<Option<Seq<char>>>
    decreases budget, 1 + children.len(),
{
    if children.len() == 0 {
        names
    } else {
        let before = names_after_children(graph, children.drop_last(), parent, names, budget);
        if children.last() < graph.len() {
            names_after_node(graph, graph[children.last() as int], parent, before, budget)
        } else {
            before
        }
    }
}

/// With the children of `node` ranked below `bound`, any two budgets of at
/// least `bound` give the same names.
proof fn lemma_names_budget(
    graph: Seq<SceneNode>,
    rank: Seq<nat>,
    node: SceneNode,
    parent: Option<Seq<char>>,
    names: Seq<Option<Seq<char>>>,
    bound: nat,
    budget: nat,
    other: nat,
)
    requires
        ranks_fall(graph, rank),
        ranked_below(graph, rank, children_of(node), bound),
        bound <= budget,
        bound <= other,
    ensures
        names_after_node(graph, node, parent, names, budget) == names_after_node(
            graph,
            node,
            parent,
            names,
            other,
        ),
    decreases budget, 0nat,
{
    match node {
        SceneNode::Transform { name, child, .. } => {
            if child < graph.len() {
                assert(children_of(node)[0] == child);
                assert(ranked_below(graph, rank, children_of(graph[child as int]), rank[child as int]));
                match graph[child as int] {
                    SceneNode::Group { children } => {
                        lemma_children_budget(
                            graph,
                            rank,
                            children@,
                            accumulated(parent, opt_view(name)),
                            names,
                            rank[child as int],
                            (budget - 1) as nat,
                            (other - 1) as nat,
                        );
                    },
                    _ => {},
                }
            }
        },
        _ => {},
    }
}

/// The same for the walks from listed children, all ranked below `bound`.
proof fn lemma_children_budget(
    graph: Seq<SceneNode>,
    rank: Seq<nat>,
    children: Seq<u32>,
    parent: Option<Seq<char>>,
    names: Seq<Option<Seq<char>>>,
    bound: nat,
    budget: nat,
    other: nat,
)
    requires
        ranks_fall(graph, rank),
        ranked_below(graph, rank, children, bound),
        bound <= budget,
        bound <= other,
    ensures
        names_after_children(graph, children, parent, names, budget) == names_after_children(
            graph,
            children,
            parent,
            names,
            other,
        ),
    decreases budget, 1 + children.len(),
{
    if children.len() > 0 {
        let earlier = children.drop_last();
        assert forall|k: int| 0 <= k < earlier.len() && (#[trigger] earlier[k]) < graph.len() implies rank[earlier[k] as int]
            < bound by {
            assert(earlier[k] == children[k]);
        }
        lemma_children_budget(graph, rank, earlier, parent, names, bound, budget, other);
        let last = children.last();
        if last < graph.len() {
            assert(children[children.len() - 1] == last);
            assert(ranked_below(graph, rank, children_of(graph[last as int]), rank[last as int]));
            lemma_names_budget(
                graph,
                rank,
                graph[last as int],
                parent,
                names_after_children(graph, earlier, parent, names, budget),
                rank[last as int],
                budget,
                other,
            );
        }
    }
}

/// On a graph without cycles the walk never runs out of budget: with any
/// larger budget the walk from a node of the graph finds the same names.
pub proof fn lemma_budget_is_enough(
    graph: Seq<SceneNode>,
    rank: Seq<nat>,
    root: int,
    parent: Option<Seq<char>>,
    names: Seq<Option<Seq<char>>>,
    budget: nat,
)
    requires
        ranks_fall(graph, rank),
        0 <= root < graph.len(),
        budget >= graph.len(),
    ensures
        names_after_node(graph, graph[root], parent, names, budget) == names_after_node(
            graph,
            graph[root],
            parent,
            names,
            graph.len(),
        ),
{
    assert(ranked_below(graph, rank, children_of(graph[root]), rank[root]));
    lemma_names_budget(graph, rank, graph[root], parent, names, rank[root], budget, graph.len());
}

/// Finds the names that the scene graph gives to models, walking from
/// `scene_node` with the path accumulated above it. No walk goes deeper
/// than the graph has nodes, which only a graph with a cycle can reach.
pub fn find_model_names(
    name_for_model: &mut Vec<Option<String>>,
    graph: &Vec<SceneNode>,
    scene_node: &SceneNode,
    parent_name: Option<&String>,
)
    ensures
        names_view(final(name_for_model)@) == names_after_node(
            graph@,
            *scene_node,
            opt_ref_view(parent_name),
            names_view(old(name_for_model)@),
            graph@.len(),
        ),
{
    find_names_within(name_for_model, graph, scene_node, parent_name, graph.len());
}

fn find_names_within(
    name_for_model: &mut Vec<Option<String>>,
    graph: &Vec<SceneNode>,
    scene_node: &SceneNode,
    parent_name: Option<&String>,
    budget: usize,
)
    ensures
        names_view(final(name_for_model)@) == names_after_node(
            graph@,
            *scene_node,
            opt_ref_view(parent_name),
            names_view(old(name_for_model)@),
            budget as nat,
        ),
    decreases budget,
{
    match scene_node {
        SceneNode::Transform { name, hidden: _, frame: _, child, layer_id: _ } => {
            let child = *child as usize;
            if child >= graph.len() {
                return ;
            }
            let (accumulated, _) = get_accumulated_and_node_name(parent_name, name.as_ref());
            match &graph[child] {
                SceneNode::Group { children } => {
                    if budget == 0 {
                        return ;
                    }
                    let ghost start = names_view(name_for_model@);
                    let mut i: usize = 0;
                    while i < children.len()
                        invariant
                            i <= children.len(),
                            budget > 0,
                            names_view(name_for_model@) == names_after_children(
                                graph@,
                                children@.take(i as int),
                                opt_view(accumulated),
                                start,
                                (budget - 1) as nat,
                            ),
                        decreases children.len() - i,
                    {
                        assert(children@.take(i + 1).drop_last() == children@.take(i as int));
                        let grandchild = children[i] as usize;
                        if grandchild < graph.len() {
                            find_names_within(
                                name_for_model,
                                graph,
                                &graph[grandchild],
                                accumulated.as_ref(),
                                budget - 1,
                            );
                        }
                        i += 1;
                    }
                    assert(children@.take(i as int) == children@);
                },
                SceneNode::Shape { models } => {
                    if models.len() > 0 {
                        let model_id = models[0] as usize;
                        if model_id < name_for_model.len() {
                            if let Some(name) = accumulated {
                                let ghost before = name_for_model@;
                                name_for_model.set(model_id, Some(name));
                                assert(names_view(name_for_model@) =~= names_view(before).update(
                                    model_id as int,
                                    Some(name@),
                                ));
                            }
                        }
                    }
                },
                SceneNode::Transform { .. } => {},
            }
        },
        _ => {},
    }
}

} // verus!
