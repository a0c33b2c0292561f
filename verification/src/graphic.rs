//! The rendered graphic as the binder sees it, the table that binds a
//! dataset's entities and relations to the graphic's elements, and the
//! resolution of a click to the node it was made on.

use vstd::prelude::*;
use std::collections::BTreeMap;
use crate::dataset::WorksData;
use crate::ident::{edge_id, edge_id_text, node_id, node_id_text, node_named, parse_node_id, EntityKind};
use crate::selection::SelectedNode;
use crate::sequences::lemma_take_contains;

verus! {

/// One element of the graphic: its identifier (empty where it has none) and
/// the position of its parent element.
#[derive(Debug, Clone, PartialEq)]
pub struct GraphicElement {
    pub id: String,
    pub parent: Option<usize>,
}

/// The elements of a graphic document, in document order. An element is
/// referred to by its position in this list.
#[derive(Debug, Default, Clone, PartialEq)]
pub struct Graphic {
    pub elements: Vec<GraphicElement>,
}

/// Why a graphic cannot be bound to a dataset: the first element that the
/// dataset expects and the graphic lacks. Nodes are looked up before edges.
#[derive(Debug, Clone, Copy, PartialEq, Eq, Structural)]
pub enum BindingError {
    /// The graphic has no element for the node `index` of `kind`.
    MissingNode { kind: EntityKind, index: usize },
    /// The graphic has no element for the edge from `repository` to the
    /// entity `index` of `kind`.
    MissingEdge { repository: usize, kind: EntityKind, index: usize },
    /// There is no dataset yet to bind the graphic to.
    DatasetMissing,
}

/// The handles of the graphic's elements, by what they stand for.
#[derive(Debug, Default, Clone, PartialEq)]
pub struct BindingTable {
    pub repository_nodes: Vec<usize>,
    pub language_nodes: Vec<usize>,
    pub technology_nodes: Vec<usize>,
    /// For each repository, the edge element of each language it lists.
    pub repository_language_edges: Vec<BTreeMap<usize, usize>>,
    /// For each repository, the edge element of each technology stack it lists.
    pub repository_technology_edges: Vec<BTreeMap<usize, usize>>,
    /// For each repository, the edge element of each related repository it
    /// lists, under the pair and order in which the dataset lists it.
    pub repository_repository_edges: Vec<BTreeMap<usize, usize>>,
}

impl Graphic {
    /// Whether some element has the identifier `id`.
    pub open spec fn has_id(&self, id: Seq<char>) -> bool {
        exists|e: int| 0 <= e < self.elements.len() && (#[trigger] self.elements[e]).id@ == id
    }

    /// Whether `e` is the first element, in document order, with the
    /// identifier `id`.
    pub open spec fn is_first_with_id(&self, e: int, id: Seq<char>) -> bool {
        &&& 0 <= e < self.elements.len()
        &&& self.elements[e].id@ == id
        &&& forall|k: int| 0 <= k < e ==> (#[trigger] self.elements[k]).id@ != id
    }

    /// Whether the graphic has an element for each of the first `count`
    /// nodes of `kind`.
    pub open spec fn nodes_present(&self, kind: EntityKind, count: nat) -> bool {
        forall|i: nat| i < count ==> self.has_id(#[trigger] node_id_text(kind, i))
    }

    /// Whether the graphic has an element for the edge from `repository` to
    /// each of the first `upto` entries of `targets`.
    pub open spec fn edges_present(
        &self,
        repository: nat,
        kind: EntityKind,
        targets: Seq<usize>,
        upto: int,
    ) -> bool {
        forall|p: int|
            0 <= p < upto ==> self.has_id(
                edge_id_text(EntityKind::Repository, repository, kind, (#[trigger] targets[p]) as nat),
            )
    }

    /// Whether the graphic has an element for every edge that repository
    /// `repository` of `works` lists.
    pub open spec fn repository_edges_present(&self, works: &WorksData, repository: int) -> bool {
        &&& self.edges_present(
            repository as nat,
            EntityKind::Language,
            works.targets(repository, EntityKind::Language),
            works.targets(repository, EntityKind::Language).len() as int,
        )
        &&& self.edges_present(
            repository as nat,
            EntityKind::Technology,
            works.targets(repository, EntityKind::Technology),
            works.targets(repository, EntityKind::Technology).len() as int,
        )
        &&& self.edges_present(
            repository as nat,
            EntityKind::Repository,
            works.targets(repository, EntityKind::Repository),
            works.targets(repository, EntityKind::Repository).len() as int,
        )
    }

    /// Whether the graphic has an element for every node and every listed
    /// edge of `works`.
    pub open spec fn depicts(&self, works: &WorksData) -> bool {
        &&& self.nodes_present(EntityKind::Repository, works.count(EntityKind::Repository))
        &&& self.nodes_present(EntityKind::Language, works.count(EntityKind::Language))
        &&& self.nodes_present(EntityKind::Technology, works.count(EntityKind::Technology))
        &&& forall|r: int|
            0 <= r < works.repositories.len() ==> #[trigger] self.repository_edges_present(works, r)
    }

    /// The node that a click on element `target` selects: the node named by
    /// the nearest of the element and its ancestors whose identifier names
    /// one. A parent link that does not point to an earlier element ends the
    /// walk, as the root does.
    pub open spec fn node_from(&self, target: int) -> Option<(EntityKind, usize)>
        decreases target,
    {
        if 0 <= target < self.elements.len() {
            if node_named(self.elements[target].id@) is Some {
                node_named(self.elements[target].id@)
            } else {
                match self.elements[target].parent {
                    Some(parent) => if parent < target {
                        self.node_from(parent as int)
                    } else {
                        None
                    },
                    None => None,
                }
            }
        } else {
            None
        }
    }

    /// The first element with the identifier `id`, or `None` where the
    /// graphic has none.
    pub fn get_element_by_id(&self, id: &String) -> (found: Option<usize>)
        ensures
            match found {
                Some(e) => self.is_first_with_id(e as int, id@),
                None => !self.has_id(id@),
            },
    {
        let mut e: usize = 0;
        while e < self.elements.len()
            invariant
                e <= self.elements.len(),
                forall|k: int| 0 <= k < e ==> (#[trigger] self.elements[k]).id@ != id@,
            decreases self.elements.len() - e,
        {
            if self.elements[e].id == *id {
                return Some(e);
            }
            e += 1;
        }
        None
    }

    /// Resolves a click on element `target`: the selection to raise, or
    /// `None` where neither the element nor any of its ancestors is a node,
    /// so that the click is ignored.
    pub fn resolve_click(&self, target: usize) -> (selected: Option<SelectedNode>)
        ensures
            selected == match self.node_from(target as int) {
                Some((kind, index)) => Some(SelectedNode::of(kind, index)),
                None => None,
            },
    {
        let mut e: usize = target;
        loop
            invariant
                self.node_from(e as int) == self.node_from(target as int),
            decreases e,
        {
            if e >= self.elements.len() {
                return None;
            }
            match parse_node_id(self.elements[e].id.as_str()) {
                Some((kind, index)) => {
                    return Some(SelectedNode::new(kind, index));
                },
                None => {},
            }
            match self.elements[e].parent {
                Some(parent) => {
                    if parent < e {
                        e = parent;
                    } else {
                        return None;
                    }
                },
                None => {
                    return None;
                },
            }
        }
    }
}

impl BindingTable {
    /// Whether `nodes` holds, for each of the `count` nodes of `kind`, the
    /// first element of `graphic` with the node's identifier.
    pub open spec fn nodes_bound(
        nodes: Seq<usize>,
        kind: EntityKind,
        count: nat,
        graphic: &Graphic,
    ) -> bool {
        &&& nodes.len() == count
        &&& forall|i: int|
            0 <= i < count ==> graphic.is_first_with_id(
                (#[trigger] nodes[i]) as int,
                node_id_text(kind, i as nat),
            )
    }

    /// Whether `edges` holds, for exactly the entities in `targets`, the
    /// first element of `graphic` with the identifier of the edge from
    /// `repository` to the entity.
    pub open spec fn edges_bound(
        edges: Map<usize, usize>,
        repository: nat,
        kind: EntityKind,
        targets: Seq<usize>,
        graphic: &Graphic,
    ) -> bool {
        &&& forall|j: usize| #[trigger] edges.contains_key(j) <==> targets.contains(j)
        &&& forall|j: usize| #[trigger]
            edges.contains_key(j) ==> graphic.is_first_with_id(
                edges[j] as int,
                edge_id_text(EntityKind::Repository, repository, kind, j as nat),
            )
    }

    /// Whether the table has the shape that `works` asks for: a handle per
    /// node, and an edge handle for exactly the relations that each
    /// repository lists.
    pub open spec fn shaped_for(&self, works: &WorksData) -> bool {
        &&& self.repository_nodes.len() == works.repositories.len()
        &&& self.language_nodes.len() == works.languages.len()
        &&& self.technology_nodes.len() == works.technologies.len()
        &&& self.repository_language_edges.len() == works.repositories.len()
        &&& self.repository_technology_edges.len() == works.repositories.len()
        &&& self.repository_repository_edges.len() == works.repositories.len()
        &&& forall|i: int, j: usize|
            0 <= i < works.repositories.len() ==> (
            #[trigger] self.repository_language_edges[i]@.contains_key(j) <==> works.targets(
                i,
                EntityKind::Language,
            ).contains(j))
        &&& forall|i: int, j: usize|
            0 <= i < works.repositories.len() ==> (
            #[trigger] self.repository_technology_edges[i]@.contains_key(j) <==> works.targets(
                i,
                EntityKind::Technology,
            ).contains(j))
        &&& forall|i: int, j: usize|
            0 <= i < works.repositories.len() ==> (
            #[trigger] self.repository_repository_edges[i]@.contains_key(j) <==> works.targets(
                i,
                EntityKind::Repository,
            ).contains(j))
    }

    /// Whether the table binds `works` to `graphic`: every node and every
    /// listed edge of the dataset is bound to the first element of the
    /// graphic that carries its identifier, and nothing else is bound.
    pub open spec fn binds(&self, works: &WorksData, graphic: &Graphic) -> bool {
        &&& Self::nodes_bound(
            self.repository_nodes@,
            EntityKind::Repository,
            works.repositories.len() as nat,
            graphic,
        )
        &&& Self::nodes_bound(
            self.language_nodes@,
            EntityKind::Language,
            works.languages.len() as nat,
            graphic,
        )
        &&& Self::nodes_bound(
            self.technology_nodes@,
            EntityKind::Technology,
            works.technologies.len() as nat,
            graphic,
        )
        &&& self.repository_language_edges.len() == works.repositories.len()
        &&& self.repository_technology_edges.len() == works.repositories.len()
        &&& self.repository_repository_edges.len() == works.repositories.len()
        &&& forall|i: int|
            0 <= i < works.repositories.len() ==> Self::edges_bound(
                (#[trigger] self.repository_language_edges[i])@,
                i as nat,
                EntityKind::Language,
                works.targets(i, EntityKind::Language),
                graphic,
            )
        &&& forall|i: int|
            0 <= i < works.repositories.len() ==> Self::edges_bound(
                (#[trigger] self.repository_technology_edges[i])@,
                i as nat,
                EntityKind::Technology,
                works.targets(i, EntityKind::Technology),
                graphic,
            )
        &&& forall|i: int|
            0 <= i < works.repositories.len() ==> Self::edges_bound(
                (#[trigger] self.repository_repository_edges[i])@,
                i as nat,
                EntityKind::Repository,
                works.targets(i, EntityKind::Repository),
                graphic,
            )
    }
}

/// A table that binds a dataset to a graphic has the shape that the dataset
/// asks for.
pub proof fn lemma_binds_shaped(table: &BindingTable, works: &WorksData, graphic: &Graphic)
    requires
        table.binds(works, graphic),
    ensures
        table.shaped_for(works),
{
    assert forall|i: int, j: usize| 0 <= i < works.repositories.len() implies (
    #[trigger] table.repository_language_edges[i]@.contains_key(j) <==> works.targets(
        i,
        EntityKind::Language,
    ).contains(j)) by {
        assert(BindingTable::edges_bound(
            table.repository_language_edges[i]@,
            i as nat,
            EntityKind::Language,
            works.targets(i, EntityKind::Language),
            graphic,
        ));
    }
    assert forall|i: int, j: usize| 0 <= i < works.repositories.len() implies (
    #[trigger] table.repository_technology_edges[i]@.contains_key(j) <==> works.targets(
        i,
        EntityKind::Technology,
    ).contains(j)) by {
        assert(BindingTable::edges_bound(
            table.repository_technology_edges[i]@,
            i as nat,
            EntityKind::Technology,
            works.targets(i, EntityKind::Technology),
            graphic,
        ));
    }
    assert forall|i: int, j: usize| 0 <= i < works.repositories.len() implies (
    #[trigger] table.repository_repository_edges[i]@.contains_key(j) <==> works.targets(
        i,
        EntityKind::Repository,
    ).contains(j)) by {
        assert(BindingTable::edges_bound(
            table.repository_repository_edges[i]@,
            i as nat,
            EntityKind::Repository,
            works.targets(i, EntityKind::Repository),
            graphic,
        ));
    }
}

/// Looks up the element of each of the `count` nodes of `kind`.
fn bind_nodes(graphic: &Graphic, kind: EntityKind, count: usize) -> (bound: Result<
    Vec<usize>,
    BindingError,
>)
    ensures
        match bound {
            Ok(nodes) => BindingTable::nodes_bound(nodes@, kind, count as nat, graphic),
            Err(BindingError::MissingNode { kind: missing_kind, index }) => {
                &&& missing_kind == kind
                &&& index < count
                &&& !graphic.has_id(node_id_text(kind, index as nat))
                &&& graphic.nodes_present(kind, index as nat)
            },
            Err(_) => false,
        },
        bound is Ok ==> graphic.nodes_present(kind, count as nat),
{
    let mut nodes: Vec<usize> = Vec::new();
    let mut i: usize = 0;
    while i < count
        invariant
            i <= count,
            BindingTable::nodes_bound(nodes@, kind, i as nat, graphic),
            graphic.nodes_present(kind, i as nat),
        decreases count - i,
    {
        let id = node_id(kind, i);
        match graphic.get_element_by_id(&id) {
            Some(element) => {
                nodes.push(element);
            },
            None => {
                return Err(BindingError::MissingNode { kind, index: i });
            },
        }
        i += 1;
    }
    Ok(nodes)
}

/// Looks up the element of the edge from `repository` to each of `targets`.
fn bind_edges(graphic: &Graphic, repository: usize, kind: EntityKind, targets: &Vec<usize>) -> (bound:
    Result<BTreeMap<usize, usize>, BindingError>)
    ensures
        match bound {
            Ok(edges) => {
                &&& BindingTable::edges_bound(edges@, repository as nat, kind, targets@, graphic)
                &&& graphic.edges_present(repository as nat, kind, targets@, targets@.len() as int)
            },
            Err(BindingError::MissingEdge { repository: missing_from, kind: missing_kind, index }) => {
                &&& missing_from == repository
                &&& missing_kind == kind
                &&& !graphic.has_id(
                    edge_id_text(EntityKind::Repository, repository as nat, kind, index as nat),
                )
                &&& exists|p: int|
                    0 <= p < targets@.len() && #[trigger] targets@[p] == index
                        && graphic.edges_present(repository as nat, kind, targets@, p)
            },
            Err(_) => false,
        },
{
    let mut edges: BTreeMap<usize, usize> = BTreeMap::new();
    let mut p: usize = 0;
    while p < targets.len()
        invariant
            p <= targets.len(),
            BindingTable::edges_bound(
                edges@,
                repository as nat,
                kind,
                targets@.take(p as int),
                graphic,
            ),
            graphic.edges_present(repository as nat, kind, targets@, p as int),
        decreases targets.len() - p,
    {
        let target = targets[p];
        let id = edge_id(EntityKind::Repository, repository, kind, target);
        match graphic.get_element_by_id(&id) {
            Some(element) => {
                proof {
                    lemma_take_contains(targets@, p as int);
                }
                edges.insert(target, element);
            },
            None => {
                return Err(BindingError::MissingEdge { repository, kind, index: target });
            },
        }
        p += 1;
    }
    assert(targets@.take(p as int) =~= targets@);
    Ok(edges)
}

/// Whether `missing` is the first element that `works` expects and
/// `graphic` lacks, in the order in which the binder looks elements up: the
/// nodes of each kind by index (repositories, languages, technology stacks),
/// then, repository by repository, the edges to the languages, technology
/// stacks and related repositories that it lists, in the order listed.
pub open spec fn first_missing(works: &WorksData, graphic: &Graphic, missing: BindingError) -> bool {
    match missing {
        BindingError::MissingNode { kind, index } => {
            &&& index < works.count(kind)
            &&& !graphic.has_id(node_id_text(kind, index as nat))
            &&& graphic.nodes_present(kind, index as nat)
            &&& kind != EntityKind::Repository ==> graphic.nodes_present(
                EntityKind::Repository,
                works.count(EntityKind::Repository),
            )
            &&& kind == EntityKind::Technology ==> graphic.nodes_present(
                EntityKind::Language,
                works.count(EntityKind::Language),
            )
        },
        BindingError::MissingEdge { repository, kind, index } => {
            &&& graphic.nodes_present(EntityKind::Repository, works.count(EntityKind::Repository))
            &&& graphic.nodes_present(EntityKind::Language, works.count(EntityKind::Language))
            &&& graphic.nodes_present(
                EntityKind::Technology,
                works.count(EntityKind::Technology),
            )
            &&& repository < works.repositories.len()
            &&& !graphic.has_id(
                edge_id_text(EntityKind::Repository, repository as nat, kind, index as nat),
            )
            &&& forall|r: int|
                0 <= r < repository ==> #[trigger] graphic.repository_edges_present(works, r)
            &&& exists|p: int|
                0 <= p < works.targets(repository as int, kind).len() && #[trigger] works.targets(
                    repository as int,
                    kind,
                )[p] == index && graphic.edges_present(
                    repository as nat,
                    kind,
                    works.targets(repository as int, kind),
                    p,
                )
            &&& kind != EntityKind::Language ==> graphic.edges_present(
                repository as nat,
                EntityKind::Language,
                works.targets(repository as int, EntityKind::Language),
                works.targets(repository as int, EntityKind::Language).len() as int,
            )
            &&& kind == EntityKind::Repository ==> graphic.edges_present(
                repository as nat,
                EntityKind::Technology,
                works.targets(repository as int, EntityKind::Technology),
                works.targets(repository as int, EntityKind::Technology).len() as int,
            )
        },
        BindingError::DatasetMissing => false,
    }
}

/// Binds `works` to `graphic`: looks up the element of every node, then of
/// every edge, repository by repository and in the order in which each
/// repository lists its languages, technology stacks and related
/// repositories. The first element that the graphic lacks is the error.
pub fn construct_elements(works: &WorksData, graphic: &Graphic) -> (bound: Result<
    BindingTable,
    BindingError,
>)
    ensures
        match bound {
            Ok(table) => table.binds(works, graphic),
            Err(missing) => first_missing(works, graphic, missing),
        },
        bound is Ok <==> graphic.depicts(works),
{
    let n = works.repositories.len();
    let repository_nodes = match bind_nodes(graphic, EntityKind::Repository, n) {
        Ok(nodes) => nodes,
        Err(missing) => {
            return Err(missing);
        },
    };
    let language_nodes = match bind_nodes(graphic, EntityKind::Language, works.languages.len()) {
        Ok(nodes) => nodes,
        Err(missing) => {
            return Err(missing);
        },
    };
    let technology_nodes = match bind_nodes(
        graphic,
        EntityKind::Technology,
        works.technologies.len(),
    ) {
        Ok(nodes) => nodes,
        Err(missing) => {
            return Err(missing);
        },
    };
    let mut repository_language_edges: Vec<BTreeMap<usize, usize>> = Vec::new();
    let mut repository_technology_edges: Vec<BTreeMap<usize, usize>> = Vec::new();
    let mut repository_repository_edges: Vec<BTreeMap<usize, usize>> = Vec::new();
    let mut i: usize = 0;
    while i < n
        invariant
            i <= n,
            n == works.repositories.len(),
            repository_language_edges.len() == i,
            repository_technology_edges.len() == i,
            repository_repository_edges.len() == i,
            graphic.nodes_present(EntityKind::Repository, works.count(EntityKind::Repository)),
            graphic.nodes_present(EntityKind::Language, works.count(EntityKind::Language)),
            graphic.nodes_present(EntityKind::Technology, works.count(EntityKind::Technology)),
            forall|r: int| 0 <= r < i ==> #[trigger] graphic.repository_edges_present(works, r),
            forall|r: int|
                0 <= r < i ==> BindingTable::edges_bound(
                    (#[trigger] repository_language_edges[r])@,
                    r as nat,
                    EntityKind::Language,
                    works.targets(r, EntityKind::Language),
                    graphic,
                ),
            forall|r: int|
                0 <= r < i ==> BindingTable::edges_bound(
                    (#[trigger] repository_technology_edges[r])@,
                    r as nat,
                    EntityKind::Technology,
                    works.targets(r, EntityKind::Technology),
                    graphic,
                ),
            forall|r: int|
                0 <= r < i ==> BindingTable::edges_bound(
                    (#[trigger] repository_repository_edges[r])@,
                    r as nat,
                    EntityKind::Repository,
                    works.targets(r, EntityKind::Repository),
                    graphic,
                ),
        decreases n - i,
    {
        let repository = &works.repositories[i];
        let languages = repository.language_indices();
        let language_edges = match bind_edges(graphic, i, EntityKind::Language, &languages) {
            Ok(edges) => edges,
            Err(missing) => {
                proof {
                    let listed = works.targets(i as int, EntityKind::Language);
                    assert(listed == languages@);
                    let at = choose|at: int|
                        0 <= at < listed.len() && #[trigger] listed[at] == missing->MissingEdge_index
                            && graphic.edges_present(i as nat, EntityKind::Language, listed, at);
                    assert(!graphic.edges_present(
                        i as nat,
                        EntityKind::Language,
                        listed,
                        listed.len() as int,
                    ));
                    assert(!graphic.repository_edges_present(works, i as int));
                }
                return Err(missing);
            },
        };
        let technology_edges = match bind_edges(
            graphic,
            i,
            EntityKind::Technology,
            &repository.technology_stacks,
        ) {
            Ok(edges) => edges,
            Err(missing) => {
                proof {
                    let listed = works.targets(i as int, EntityKind::Technology);
                    assert(listed == repository.technology_stacks@);
                    let at = choose|at: int|
                        0 <= at < listed.len() && #[trigger] listed[at] == missing->MissingEdge_index
                            && graphic.edges_present(i as nat, EntityKind::Technology, listed, at);
                    assert(!graphic.edges_present(
                        i as nat,
                        EntityKind::Technology,
                        listed,
                        listed.len() as int,
                    ));
                    assert(!graphic.repository_edges_present(works, i as int));
                }
                return Err(missing);
            },
        };
        let repository_edges = match bind_edges(
            graphic,
            i,
            EntityKind::Repository,
            &repository.related_repositories,
        ) {
            Ok(edges) => edges,
            Err(missing) => {
                proof {
                    let listed = works.targets(i as int, EntityKind::Repository);
                    assert(listed == repository.related_repositories@);
                    let at = choose|at: int|
                        0 <= at < listed.len() && #[trigger] listed[at] == missing->MissingEdge_index
                            && graphic.edges_present(i as nat, EntityKind::Repository, listed, at);
                    assert(!graphic.edges_present(
                        i as nat,
                        EntityKind::Repository,
                        listed,
                        listed.len() as int,
                    ));
                    assert(!graphic.repository_edges_present(works, i as int));
                }
                return Err(missing);
            },
        };
        repository_language_edges.push(language_edges);
        repository_technology_edges.push(technology_edges);
        repository_repository_edges.push(repository_edges);
        assert(graphic.repository_edges_present(works, i as int));
        i += 1;
    }
    Ok(
        BindingTable {
            repository_nodes,
            language_nodes,
            technology_nodes,
            repository_language_edges,
            repository_technology_edges,
            repository_repository_edges,
        },
    )
}

} // verus!
