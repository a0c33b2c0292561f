//! The highlight: which colour every bound element of the graphic gets for
//! a selection.
//!
//! The selected node is primary; every entity adjacent to it is secondary,
//! also where that entity is the selected node itself; one edge between the
//! selection and each adjacent entity has the edge colour; everything else
//! is inactive.

use vstd::prelude::*;
use std::collections::{BTreeMap, BTreeSet};
use crate::adjacency::AdjacencyIndex;
use crate::dataset::WorksData;
use crate::graphic::BindingTable;
use crate::ident::EntityKind;
use crate::selection::SelectedNode;

verus! {

/// The four roles an element can play in a highlight.
#[derive(Debug, Clone, Copy, PartialEq, Eq, Structural)]
pub enum Color {
    /// Neither selected nor next to the selection.
    Inactive,
    /// The selected node.
    Primary,
    /// A node adjacent to the selected node.
    Secondary,
    /// An edge between the selected node and an adjacent node.
    Edge,
}

impl Color {
    /// The stroke colour for this role.
    pub open spec fn stroke(self) -> Seq<char> {
        match self {
            Color::Inactive => "lightgray"@,
            Color::Primary => "forestgreen"@,
            Color::Secondary => "black"@,
            Color::Edge => "black"@,
        }
    }

    /// The stroke colour for this role.
    pub fn name(self) -> (stroke: &'static str)
        ensures
            stroke@ == self.stroke(),
    {
        match self {
            Color::Inactive => "lightgray",
            Color::Primary => "forestgreen",
            Color::Secondary => "black",
            Color::Edge => "black",
        }
    }
}

/// One stroke to set: the element, by its handle, and its colour.
#[derive(Debug, Clone, Copy, PartialEq, Eq, Structural)]
pub struct Paint {
    pub element: usize,
    pub color: Color,
}

/// Whether `set` of `sets`, if there is one, holds `member`.
pub open spec fn holds(sets: Seq<BTreeSet<usize>>, set: usize, member: usize) -> bool {
    set < sets.len() && sets[set as int]@.contains(member)
}

/// Whether the node `k` of `kind` is adjacent to the selection.
pub open spec fn adjacent(
    index: &AdjacencyIndex,
    selected: SelectedNode,
    kind: EntityKind,
    k: usize,
) -> bool {
    match (selected, kind) {
        (SelectedNode::Repository(s), EntityKind::Language) => holds(
            index.repository_connected_languages@,
            s,
            k,
        ),
        (SelectedNode::Repository(s), EntityKind::Technology) => holds(
            index.repository_connected_technologies@,
            s,
            k,
        ),
        (SelectedNode::Repository(s), EntityKind::Repository) => holds(
            index.repository_connected_repositories@,
            s,
            k,
        ),
        (SelectedNode::Language(s), EntityKind::Repository) => holds(
            index.language_connected_repositories@,
            s,
            k,
        ),
        (SelectedNode::Technology(s), EntityKind::Repository) => holds(
            index.technology_connected_repositories@,
            s,
            k,
        ),
        _ => false,
    }
}

/// The colour of the node `k` of `kind` under the selection.
pub open spec fn node_color(
    index: &AdjacencyIndex,
    selected: SelectedNode,
    kind: EntityKind,
    k: usize,
) -> Color {
    if adjacent(index, selected, kind, k) {
        Color::Secondary
    } else if selected == SelectedNode::of(kind, k) {
        Color::Primary
    } else {
        Color::Inactive
    }
}

/// Whether the table holds an edge element from repository `i` to
/// repository `j`.
pub open spec fn lists_edge(table: &BindingTable, i: usize, j: usize) -> bool {
    i < table.repository_repository_edges.len()
        && table.repository_repository_edges[i as int]@.contains_key(j)
}

/// The colour of the edge that repository `i` lists to the entity `j` of
/// `kind`. Between two repositories that list each other only the edge
/// listed by the selected one has the edge colour.
pub open spec fn edge_color(
    table: &BindingTable,
    selected: SelectedNode,
    i: usize,
    kind: EntityKind,
    j: usize,
) -> Color {
    let joins = match kind {
        EntityKind::Language => selected == SelectedNode::Repository(i) || selected
            == SelectedNode::Language(j),
        EntityKind::Technology => selected == SelectedNode::Repository(i) || selected
            == SelectedNode::Technology(j),
        EntityKind::Repository => selected == SelectedNode::Repository(i) || (selected
            == SelectedNode::Repository(j) && !lists_edge(table, j, i)),
    };
    if joins {
        Color::Edge
    } else {
        Color::Inactive
    }
}

/// The strokes of the nodes of one kind, in index order.
pub open spec fn node_paints(
    nodes: Seq<usize>,
    index: &AdjacencyIndex,
    selected: SelectedNode,
    kind: EntityKind,
) -> Seq<Paint> {
    Seq::new(
        nodes.len(),
        |k: int| Paint { element: nodes[k], color: node_color(index, selected, kind, k as usize) },
    )
}

/// The strokes of the edges that repository `i` lists to `targets` of
/// `kind`, in the order listed.
pub open spec fn edge_paints(
    edges: Map<usize, usize>,
    table: &BindingTable,
    selected: SelectedNode,
    i: usize,
    kind: EntityKind,
    targets: Seq<usize>,
) -> Seq<Paint> {
    Seq::new(
        targets.len(),
        |p: int|
            Paint {
                element: edges[targets[p]],
                color: edge_color(table, selected, i, kind, targets[p]),
            },
    )
}

/// The strokes of all edges that repository `i` lists: languages, then
/// technology stacks, then related repositories.
pub open spec fn repository_edge_paints(
    works: &WorksData,
    table: &BindingTable,
    selected: SelectedNode,
    i: int,
) -> Seq<Paint> {
    edge_paints(
        table.repository_language_edges[i]@,
        table,
        selected,
        i as usize,
        EntityKind::Language,
        works.targets(i, EntityKind::Language),
    ) + edge_paints(
        table.repository_technology_edges[i]@,
        table,
        selected,
        i as usize,
        EntityKind::Technology,
        works.targets(i, EntityKind::Technology),
    ) + edge_paints(
        table.repository_repository_edges[i]@,
        table,
        selected,
        i as usize,
        EntityKind::Repository,
        works.targets(i, EntityKind::Repository),
    )
}

/// The strokes of the edges of the first `upto` repositories.
pub open spec fn all_edge_paints(
    works: &WorksData,
    table: &BindingTable,
    selected: SelectedNode,
    upto: int,
) -> Seq<Paint>
    decreases upto,
{
    if upto <= 0 {
        Seq::empty()
    } else {
        all_edge_paints(works, table, selected, upto - 1) + repository_edge_paints(
            works,
            table,
            selected,
            upto - 1,
        )
    }
}

/// The whole highlight: one stroke for every bound element, nodes first
/// (repositories, languages, technology stacks), then edges repository by
/// repository.
pub open spec fn highlight(
    works: &WorksData,
    index: &AdjacencyIndex,
    table: &BindingTable,
    selected: SelectedNode,
) -> Seq<Paint> {
    node_paints(table.repository_nodes@, index, selected, EntityKind::Repository) + node_paints(
        table.language_nodes@,
        index,
        selected,
        EntityKind::Language,
    ) + node_paints(table.technology_nodes@, index, selected, EntityKind::Technology)
        + all_edge_paints(works, table, selected, works.repositories.len() as int)
}

/// The highlight depends on the adjacency index only through what it says
/// of the dataset: two indexes of the same dataset give the same strokes
/// for the same selection, however often the highlight is computed.
pub proof fn lemma_highlight_is_a_function_of_the_dataset(
    works: &WorksData,
    first: &AdjacencyIndex,
    second: &AdjacencyIndex,
    table: &BindingTable,
    selected: SelectedNode,
)
    requires
        first.indexes(works),
        second.indexes(works),
    ensures
        highlight(works, first, table, selected) == highlight(works, second, table, selected),
{
    assert forall|kind: EntityKind, k: usize|
        node_color(first, selected, kind, k) == node_color(second, selected, kind, k) by {
        lemma_adjacent_by_dataset(works, first, second, selected, kind, k);
    }
    assert(node_paints(table.repository_nodes@, first, selected, EntityKind::Repository)
        =~= node_paints(table.repository_nodes@, second, selected, EntityKind::Repository));
    assert(node_paints(table.language_nodes@, first, selected, EntityKind::Language)
        =~= node_paints(table.language_nodes@, second, selected, EntityKind::Language));
    assert(node_paints(table.technology_nodes@, first, selected, EntityKind::Technology)
        =~= node_paints(table.technology_nodes@, second, selected, EntityKind::Technology));
}

/// Two indexes of the same dataset agree on what is adjacent to a selection.
proof fn lemma_adjacent_by_dataset(
    works: &WorksData,
    first: &AdjacencyIndex,
    second: &AdjacencyIndex,
    selected: SelectedNode,
    kind: EntityKind,
    k: usize,
)
    requires
        first.indexes(works),
        second.indexes(works),
    ensures
        adjacent(first, selected, kind, k) == adjacent(second, selected, kind, k),
{
}

/// With nothing selected every stroke is inactive.
pub proof fn lemma_unselected_is_inactive(
    works: &WorksData,
    index: &AdjacencyIndex,
    table: &BindingTable,
    p: int,
)
    requires
        0 <= p < highlight(works, index, table, SelectedNode::Unselected).len(),
    ensures
        highlight(works, index, table, SelectedNode::Unselected)[p].color == Color::Inactive,
{
    let selected = SelectedNode::Unselected;
    let n = works.repositories.len() as int;
    lemma_edges_unselected(works, table, n);
}

/// With nothing selected every edge stroke is inactive.
proof fn lemma_edges_unselected(works: &WorksData, table: &BindingTable, upto: int)
    ensures
        forall|p: int|
            0 <= p < all_edge_paints(works, table, SelectedNode::Unselected, upto).len()
                ==> (#[trigger] all_edge_paints(works, table, SelectedNode::Unselected, upto)[p]).color
                == Color::Inactive,
    decreases upto,
{
    if upto > 0 {
        lemma_edges_unselected(works, table, upto - 1);
    }
}

/// Whether `set` of `sets`, if there is one, holds `member`.
fn set_holds(sets: &Vec<BTreeSet<usize>>, set: usize, member: usize) -> (found: bool)
    ensures
        found == holds(sets@, set, member),
{
    if set < sets.len() {
        sets[set].contains(&member)
    } else {
        false
    }
}

/// Whether the node `k` of `kind` is adjacent to the selection.
fn is_adjacent(index: &AdjacencyIndex, selected: SelectedNode, kind: EntityKind, k: usize) -> (found:
    bool)
    ensures
        found == adjacent(index, selected, kind, k),
{
    match selected {
        SelectedNode::Repository(s) => match kind {
            EntityKind::Language => set_holds(&index.repository_connected_languages, s, k),
            EntityKind::Technology => set_holds(&index.repository_connected_technologies, s, k),
            EntityKind::Repository => set_holds(&index.repository_connected_repositories, s, k),
        },
        SelectedNode::Language(s) => match kind {
            EntityKind::Repository => set_holds(&index.language_connected_repositories, s, k),
            _ => false,
        },
        SelectedNode::Technology(s) => match kind {
            EntityKind::Repository => set_holds(&index.technology_connected_repositories, s, k),
            _ => false,
        },
        SelectedNode::Unselected => false,
    }
}

/// Appends the strokes of the nodes of one kind.
fn paint_nodes(
    plan: &mut Vec<Paint>,
    nodes: &Vec<usize>,
    index: &AdjacencyIndex,
    selected: SelectedNode,
    kind: EntityKind,
)
    ensures
        final(plan)@ == old(plan)@ + node_paints(nodes@, index, selected, kind),
{
    let mut k: usize = 0;
    while k < nodes.len()
        invariant
            k <= nodes.len(),
            plan@ == old(plan)@ + node_paints(nodes@, index, selected, kind).take(k as int),
        decreases nodes.len() - k,
    {
        let color = if is_adjacent(index, selected, kind, k) {
            Color::Secondary
        } else if selected == SelectedNode::new(kind, k) {
            Color::Primary
        } else {
            Color::Inactive
        };
        plan.push(Paint { element: nodes[k], color });
        k += 1;
        assert(plan@ =~= old(plan)@ + node_paints(nodes@, index, selected, kind).take(k as int));
    }
    assert(node_paints(nodes@, index, selected, kind).take(k as int) =~= node_paints(
        nodes@,
        index,
        selected,
        kind,
    ));
}

/// Whether the table holds an edge element from repository `i` to
/// repository `j`.
fn has_edge(table: &BindingTable, i: usize, j: usize) -> (found: bool)
    ensures
        found == lists_edge(table, i, j),
{
    if i < table.repository_repository_edges.len() {
        table.repository_repository_edges[i].contains_key(&j)
    } else {
        false
    }
}

/// The colour of the edge that repository `i` lists to the entity `j` of
/// `kind`.
fn color_of_edge(table: &BindingTable, selected: SelectedNode, i: usize, kind: EntityKind, j: usize) -> (color:
    Color)
    ensures
        color == edge_color(table, selected, i, kind, j),
{
    let joins = match kind {
        EntityKind::Language => selected == SelectedNode::Repository(i) || selected
            == SelectedNode::Language(j),
        EntityKind::Technology => selected == SelectedNode::Repository(i) || selected
            == SelectedNode::Technology(j),
        EntityKind::Repository => selected == SelectedNode::Repository(i) || (selected
            == SelectedNode::Repository(j) && !has_edge(table, j, i)),
    };
    if joins {
        Color::Edge
    } else {
        Color::Inactive
    }
}

/// Appends the strokes of the edges that repository `i` lists to `targets`
/// of `kind`.
fn paint_edges(
    plan: &mut Vec<Paint>,
    edges: &BTreeMap<usize, usize>,
    table: &BindingTable,
    selected: SelectedNode,
    i: usize,
    kind: EntityKind,
    targets: &Vec<usize>,
)
    requires
        forall|j: usize| targets@.contains(j) ==> #[trigger] edges@.contains_key(j),
    ensures
        final(plan)@ == old(plan)@ + edge_paints(edges@, table, selected, i, kind, targets@),
{
    let ghost all = edge_paints(edges@, table, selected, i, kind, targets@);
    let mut p: usize = 0;
    while p < targets.len()
        invariant
            p <= targets.len(),
            all == edge_paints(edges@, table, selected, i, kind, targets@),
            forall|j: usize| targets@.contains(j) ==> #[trigger] edges@.contains_key(j),
            plan@ == old(plan)@ + all.take(p as int),
        decreases targets.len() - p,
    {
        let target = targets[p];
        assert(targets@.contains(target));
        let color = color_of_edge(table, selected, i, kind, target);
        match edges.get(&target) {
            Some(element) => {
                plan.push(Paint { element: *element, color });
            },
            None => {
                assert(false);
            },
        }
        p += 1;
        assert(plan@ =~= old(plan)@ + all.take(p as int));
    }
    assert(all.take(p as int) =~= all);
}

/// Computes the highlight for `selected`: one stroke for every element that
/// `table` binds.
pub fn coloring(
    works: &WorksData,
    index: &AdjacencyIndex,
    table: &BindingTable,
    selected: SelectedNode,
) -> (plan: Vec<Paint>)
    requires
        table.shaped_for(works),
    ensures
        plan@ == highlight(works, index, table, selected),
{
    let mut plan: Vec<Paint> = Vec::new();
    paint_nodes(&mut plan, &table.repository_nodes, index, selected, EntityKind::Repository);
    paint_nodes(&mut plan, &table.language_nodes, index, selected, EntityKind::Language);
    paint_nodes(&mut plan, &table.technology_nodes, index, selected, EntityKind::Technology);
    let ghost nodes = plan@;
    let n = works.repositories.len();
    let mut i: usize = 0;
    while i < n
        invariant
            i <= n,
            n == works.repositories.len(),
            table.shaped_for(works),
            plan@ == nodes + all_edge_paints(works, table, selected, i as int),
        decreases n - i,
    {
        let repository = &works.repositories[i];
        let languages = repository.language_indices();
        let ghost before = plan@;
        paint_edges(
            &mut plan,
            &table.repository_language_edges[i],
            table,
            selected,
            i,
            EntityKind::Language,
            &languages,
        );
        paint_edges(
            &mut plan,
            &table.repository_technology_edges[i],
            table,
            selected,
            i,
            EntityKind::Technology,
            &repository.technology_stacks,
        );
        paint_edges(
            &mut plan,
            &table.repository_repository_edges[i],
            table,
            selected,
            i,
            EntityKind::Repository,
            &repository.related_repositories,
        );
        assert(plan@ =~= before + repository_edge_paints(works, table, selected, i as int));
        i += 1;
        assert(plan@ =~= nodes + all_edge_paints(works, table, selected, i as int));
    }
    plan
}

/// The strokes that make every bound element inactive.
pub fn reset_all_color(works: &WorksData, index: &AdjacencyIndex, table: &BindingTable) -> (plan: Vec<
    Paint,
>)
    requires
        table.shaped_for(works),
    ensures
        plan@ == highlight(works, index, table, SelectedNode::Unselected),
        forall|p: int| 0 <= p < plan@.len() ==> (#[trigger] plan@[p]).color == Color::Inactive,
{
    let plan = coloring(works, index, table, SelectedNode::Unselected);
    proof {
        assert forall|p: int| 0 <= p < plan@.len() implies (#[trigger] plan@[p]).color
            == Color::Inactive by {
            lemma_unselected_is_inactive(works, index, table, p);
        }
    }
    plan
}

} // verus!
