//! The textual description of the graph of a dataset.
//!
//! The description declares one node for every entity and one edge for
//! every relation that a repository lists, each under the identifier by
//! which the rendered graphic is later bound to the dataset.

use vstd::prelude::*;
use crate::ident::{edge_id_text, node_id_text, push_edge_id, push_node_id, EntityKind};
use crate::repository_list::Works;

verus! {

/// The declaration of the node `i` of `kind`, labelled `name`.
pub open spec fn node_text(kind: EntityKind, i: nat, name: Seq<char>) -> Seq<char> {
    node_id_text(kind, i) + "[label=\""@ + name + "\",id=\""@ + node_id_text(kind, i) + "\"];"@
}

/// The declarations of the first `upto` nodes of `kind`.
pub open spec fn nodes_text(works: &Works, kind: EntityKind, upto: nat) -> Seq<char>
    decreases upto,
{
    if upto == 0 {
        Seq::empty()
    } else {
        nodes_text(works, kind, (upto - 1) as nat) + node_text(
            kind,
            (upto - 1) as nat,
            works.name(kind, upto - 1),
        )
    }
}

/// The first `upto` nodes of `kind`, named one after the other to share a
/// rank.
pub open spec fn rank_text(kind: EntityKind, upto: nat) -> Seq<char>
    decreases upto,
{
    if upto == 0 {
        Seq::empty()
    } else {
        rank_text(kind, (upto - 1) as nat) + node_id_text(kind, (upto - 1) as nat) + ";"@
    }
}

/// The words that open the subgraph of `kind`.
pub open spec fn subgraph_opening(kind: EntityKind) -> Seq<char> {
    match kind {
        EntityKind::Language => "subgraph language{node[shape=box];"@,
        EntityKind::Repository => "subgraph repository{node[];"@,
        EntityKind::Technology => "subgraph technology{node[shape=octagon];"@,
    }
}

/// The words that open the rank of the subgraph of `kind`.
pub open spec fn rank_opening(kind: EntityKind) -> Seq<char> {
    match kind {
        EntityKind::Language => "{rank=min;"@,
        EntityKind::Repository => "{rank=same;"@,
        EntityKind::Technology => "{rank=max;"@,
    }
}

/// The subgraph of `kind`: its nodes, and their common rank.
pub open spec fn subgraph_text(works: &Works, kind: EntityKind) -> Seq<char> {
    subgraph_opening(kind) + nodes_text(works, kind, works.count(kind)) + rank_opening(kind)
        + rank_text(kind, works.count(kind)) + "}"@ + "}"@
}

/// The edge from repository `i` to the entity `j` of `kind`.
pub open spec fn edge_text(i: nat, kind: EntityKind, j: nat) -> Seq<char> {
    node_id_text(EntityKind::Repository, i) + "--"@ + node_id_text(kind, j) + "[id=\""@
        + edge_id_text(EntityKind::Repository, i, kind, j) + "\"];"@
}

/// The edges from repository `i` to the first `upto` of `targets`.
pub open spec fn edges_text(i: nat, kind: EntityKind, targets: Seq<usize>, upto: nat) -> Seq<char>
    decreases upto,
{
    if upto == 0 {
        Seq::empty()
    } else {
        edges_text(i, kind, targets, (upto - 1) as nat) + edge_text(
            i,
            kind,
            targets[upto - 1] as nat,
        )
    }
}

/// The edges of repository `i`: to its languages, then to its technology
/// stacks, then to its related repositories.
pub open spec fn repository_edges_text(works: &Works, i: nat) -> Seq<char> {
    let repository = works.repositories[i as int];
    edges_text(
        i,
        EntityKind::Language,
        repository.targets(EntityKind::Language),
        repository.targets(EntityKind::Language).len(),
    ) + edges_text(
        i,
        EntityKind::Technology,
        repository.targets(EntityKind::Technology),
        repository.targets(EntityKind::Technology).len(),
    ) + edges_text(
        i,
        EntityKind::Repository,
        repository.targets(EntityKind::Repository),
        repository.targets(EntityKind::Repository).len(),
    )
}

/// The edges of the first `upto` repositories.
pub open spec fn all_edges_text(works: &Works, upto: nat) -> Seq<char>
    decreases upto,
{
    if upto == 0 {
        Seq::empty()
    } else {
        all_edges_text(works, (upto - 1) as nat) + repository_edges_text(works, (upto - 1) as nat)
    }
}

/// The words that open the description.
pub open spec fn graph_opening() -> Seq<char> {
    "graph{graph[rankdir=LR];node[style=\"filled\",color=\"lightgray\"];edge[color=\"lightgray\"];"@
}

/// The whole description: the opening, the subgraphs of languages,
/// repositories and technology stacks, the edges, and the closing brace.
pub open spec fn graph_text(works: &Works) -> Seq<char> {
    graph_opening() + subgraph_text(works, EntityKind::Language) + subgraph_text(
        works,
        EntityKind::Repository,
    ) + subgraph_text(works, EntityKind::Technology) + all_edges_text(
        works,
        works.repositories.len() as nat,
    ) + "}"@
}

/// Appends the subgraph of `kind`.
fn push_subgraph(out: &mut String, works: &Works, kind: EntityKind)
    ensures
        final(out)@ == old(out)@ + subgraph_text(works, kind),
{
    let count = match kind {
        EntityKind::Repository => works.repositories.len(),
        EntityKind::Language => works.languages.len(),
        EntityKind::Technology => works.technologies.len(),
    };
    out.append(
        match kind {
            EntityKind::Language => "subgraph language{node[shape=box];",
            EntityKind::Repository => "subgraph repository{node[];",
            EntityKind::Technology => "subgraph technology{node[shape=octagon];",
        },
    );
    let ghost opened = out@;
    let mut i: usize = 0;
    while i < count
        invariant
            i <= count,
            count == works.count(kind),
            out@ == opened + nodes_text(works, kind, i as nat),
        decreases count - i,
    {
        let ghost before = out@;
        push_node_id(out, kind, i);
        out.append("[label=\"");
        match kind {
            EntityKind::Repository => out.append(works.repositories[i].name.as_str()),
            EntityKind::Language => out.append(works.languages[i].name.as_str()),
            EntityKind::Technology => out.append(works.technologies[i].name.as_str()),
        }
        out.append("\",id=\"");
        push_node_id(out, kind, i);
        out.append("\"];");
        assert(out@ =~= before + node_text(kind, i as nat, works.name(kind, i as int)));
        i += 1;
        assert(out@ =~= opened + nodes_text(works, kind, i as nat));
    }
    out.append(
        match kind {
            EntityKind::Language => "{rank=min;",
            EntityKind::Repository => "{rank=same;",
            EntityKind::Technology => "{rank=max;",
        },
    );
    let ghost ranked = out@;
    let mut i: usize = 0;
    while i < count
        invariant
            i <= count,
            out@ == ranked + rank_text(kind, i as nat),
        decreases count - i,
    {
        push_node_id(out, kind, i);
        out.append(";");
        i += 1;
        assert(out@ =~= ranked + rank_text(kind, i as nat));
    }
    out.append("}");
    out.append("}");
    assert(out@ =~= old(out)@ + subgraph_text(works, kind));
}

/// Appends the edges from repository `i` to `targets`.
fn push_edges(out: &mut String, i: usize, kind: EntityKind, targets: &Vec<usize>)
    ensures
        final(out)@ == old(out)@ + edges_text(i as nat, kind, targets@, targets@.len()),
{
    let mut p: usize = 0;
    while p < targets.len()
        invariant
            p <= targets.len(),
            out@ == old(out)@ + edges_text(i as nat, kind, targets@, p as nat),
        decreases targets.len() - p,
    {
        let ghost before = out@;
        let target = targets[p];
        push_node_id(out, EntityKind::Repository, i);
        out.append("--");
        push_node_id(out, kind, target);
        out.append("[id=\"");
        push_edge_id(out, EntityKind::Repository, i, kind, target);
        out.append("\"];");
        assert(out@ =~= before + edge_text(i as nat, kind, target as nat));
        p += 1;
        assert(out@ =~= old(out)@ + edges_text(i as nat, kind, targets@, p as nat));
    }
}

/// Describes the graph of `works`. A relation of a repository that is not
/// a list of indices contributes no edge.
pub fn to_graph(works: &Works) -> (result: String)
    ensures
        result@ == graph_text(works),
{
    let mut result = String::new();
    result.append(
        "graph{graph[rankdir=LR];node[style=\"filled\",color=\"lightgray\"];edge[color=\"lightgray\"];",
    );
    push_subgraph(&mut result, works, EntityKind::Language);
    push_subgraph(&mut result, works, EntityKind::Repository);
    push_subgraph(&mut result, works, EntityKind::Technology);
    let ghost declared = result@;
    let mut i: usize = 0;
    while i < works.repositories.len()
        invariant
            i <= works.repositories.len(),
            result@ == declared + all_edges_text(works, i as nat),
        decreases works.repositories.len() - i,
    {
        let ghost before = result@;
        let repository = &works.repositories[i];
        let languages = repository.indices(EntityKind::Language);
        push_edges(&mut result, i, EntityKind::Language, &languages);
        let technologies = repository.indices(EntityKind::Technology);
        push_edges(&mut result, i, EntityKind::Technology, &technologies);
        let related = repository.indices(EntityKind::Repository);
        push_edges(&mut result, i, EntityKind::Repository, &related);
        assert(result@ =~= before + repository_edges_text(works, i as nat));
        i += 1;
        assert(result@ =~= declared + all_edges_text(works, i as nat));
    }
    result.append("}");
    assert(result@ =~= graph_text(works));
    result
}

} // verus!
