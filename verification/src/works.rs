//! The state of the interactive view of works and its transitions.
//!
//! The view receives its dataset and its graphic independently and in
//! either order, binds the two once both are there, follows the selection,
//! and answers every event with the effect that its host is to carry out.

use vstd::prelude::*;
use crate::adjacency::{construct_connection, AdjacencyIndex};
use crate::dataset::{DatasetError, WorksData};
use crate::detail::{detail_of, empty_panel, DetailPanel, PanelView};
use crate::graphic::{
    construct_elements, first_missing, lemma_binds_shaped, BindingError, BindingTable, Graphic,
};
use crate::highlight::{highlight, Color, Paint};
use crate::selection::{select, SelectedNode};

verus! {

/// An event that the view is told of.
#[derive(Debug, Clone, PartialEq)]
pub enum WorkMessage {
    /// The dataset has arrived.
    FetchWorksData(WorksData),
    /// The text of the graphic has arrived.
    FetchWorksSvg(String),
    /// A node was selected.
    UpdateSelectedNode(SelectedNode),
    /// A fetch failed, or a click hit no node.
    Nothing,
}

/// What the host has to do after an event.
#[derive(Debug, Clone, Copy, PartialEq, Eq, Structural)]
pub enum Effect {
    /// Nothing: the state did not change.
    Nothing,
    /// A resource arrived: attempt to render the graphic.
    Render,
    /// The selection changed: repaint the highlight and the detail panel.
    Repaint,
    /// The dataset was refused; the state did not change.
    Rejected(DatasetError),
}

/// The state of the view: the two resources as far as they have arrived,
/// the selection, the adjacency index of the dataset and, once the graphic
/// is bound, the binding table.
#[derive(Debug, Clone, PartialEq)]
pub struct Works {
    works_data: Option<WorksData>,
    works_svg: Option<String>,
    selected_node: SelectedNode,
    adjacency: AdjacencyIndex,
    binding: Option<BindingTable>,
}

impl Works {
    /// The dataset, once it has arrived.
    pub closed spec fn data(&self) -> Option<WorksData> {
        self.works_data
    }

    /// The text of the graphic, once it has arrived.
    pub closed spec fn svg(&self) -> Option<Seq<char>> {
        match self.works_svg {
            Some(text) => Some(text@),
            None => None,
        }
    }

    /// The selection.
    pub closed spec fn selected(&self) -> SelectedNode {
        self.selected_node
    }

    /// The adjacency index.
    pub closed spec fn index(&self) -> AdjacencyIndex {
        self.adjacency
    }

    /// The binding table, once the graphic is bound.
    pub closed spec fn table(&self) -> Option<BindingTable> {
        self.binding
    }

    /// The state is consistent: the adjacency index is that of the dataset,
    /// whose relations are within bounds, and a binding table has the shape
    /// that the dataset asks for. Without a dataset nothing is bound.
    pub open spec fn wf(&self) -> bool {
        match self.data() {
            Some(works) => {
                &&& works.in_bounds()
                &&& self.index().indexes(&works)
                &&& self.table() matches Some(table) ==> table.shaped_for(&works)
            },
            None => self.table() is None,
        }
    }

    /// The highlight of this view for a selection: a stroke for every bound
    /// element, and none before the graphic is bound.
    pub open spec fn plan(&self, selected: SelectedNode) -> Seq<Paint> {
        match (self.data(), self.table()) {
            (Some(works), Some(table)) => highlight(&works, &self.index(), &table, selected),
            _ => Seq::empty(),
        }
    }

    /// What the detail panel of this view shows: the detail of the
    /// selection, and nothing before the dataset has arrived.
    pub open spec fn panel(&self) -> PanelView {
        match self.data() {
            Some(works) => detail_of(&works, &self.index(), self.selected()),
            None => empty_panel(),
        }
    }

    /// Whether a render attempt goes ahead: both resources are there, the
    /// host is mounted and holds nothing yet, and no graphic was bound
    /// before.
    pub open spec fn renders(&self, host_mounted: bool, host_has_child: bool) -> bool {
        &&& self.svg() is Some
        &&& self.data() is Some
        &&& host_mounted
        &&& !host_has_child
        &&& self.table() is None
    }

    /// The state of a view that has received nothing and selected nothing.
    pub fn create() -> (view: Works)
        ensures
            view.wf(),
            view.data() is None,
            view.svg() is None,
            view.table() is None,
            view.selected() == SelectedNode::Unselected,
    {
        Works {
            works_data: None,
            works_svg: None,
            selected_node: SelectedNode::Unselected,
            adjacency: AdjacencyIndex::new(),
            binding: None,
        }
    }

    /// Takes an event into the state and says what the host is to do.
    ///
    /// A dataset is indexed and stored, and invalidates an earlier binding;
    /// one with an index out of bounds is refused. The text of the graphic
    /// is stored. A selection replaces the current one, unless it is the
    /// current one: then nothing happens.
    pub fn update(&mut self, msg: WorkMessage) -> (effect: Effect)
        requires
            old(self).wf(),
        ensures
            final(self).wf(),
            match msg {
                WorkMessage::FetchWorksData(works) => match works.fault() {
                    Ok(()) => {
                        &&& effect == Effect::Render
                        &&& final(self).data() == Some(works)
                        &&& final(self).index().indexes(&works)
                        &&& final(self).table() is None
                        &&& final(self).svg() == old(self).svg()
                        &&& final(self).selected() == old(self).selected()
                    },
                    Err(fault) => effect == Effect::Rejected(fault) && *final(self) == *old(self),
                },
                WorkMessage::FetchWorksSvg(text) => {
                    &&& effect == Effect::Render
                    &&& final(self).svg() == Some(text@)
                    &&& final(self).data() == old(self).data()
                    &&& final(self).index() == old(self).index()
                    &&& final(self).table() == old(self).table()
                    &&& final(self).selected() == old(self).selected()
                },
                WorkMessage::UpdateSelectedNode(requested) => if requested == old(self).selected() {
                    effect == Effect::Nothing && *final(self) == *old(self)
                } else {
                    &&& effect == Effect::Repaint
                    &&& final(self).selected() == requested
                    &&& final(self).data() == old(self).data()
                    &&& final(self).index() == old(self).index()
                    &&& final(self).table() == old(self).table()
                    &&& final(self).svg() == old(self).svg()
                },
                WorkMessage::Nothing => effect == Effect::Nothing && *final(self) == *old(self),
            },
    {
        match msg {
            WorkMessage::FetchWorksData(works) => {
                match construct_connection(&works) {
                    Ok(index) => {
                        self.adjacency = index;
                        self.binding = None;
                        self.works_data = Some(works);
                        Effect::Render
                    },
                    Err(fault) => Effect::Rejected(fault),
                }
            },
            WorkMessage::FetchWorksSvg(text) => {
                self.works_svg = Some(text);
                Effect::Render
            },
            WorkMessage::UpdateSelectedNode(requested) => {
                let (next, changed) = select(self.selected_node, requested);
                if !changed {
                    return Effect::Nothing;
                }
                self.selected_node = next;
                Effect::Repaint
            },
            WorkMessage::Nothing => Effect::Nothing,
        }
    }

    /// Decides a render attempt: the text of the graphic to parse and bind
    /// where the attempt goes ahead, `None` where it is to be skipped.
    /// `host_mounted` says whether the host element exists, `host_has_child`
    /// whether something was inserted into it already.
    pub fn render_svg(&self, host_mounted: bool, host_has_child: bool) -> (text: Option<&String>)
        ensures
            match text {
                Some(text) => self.renders(host_mounted, host_has_child) && Some(text@)
                    == self.svg(),
                None => !self.renders(host_mounted, host_has_child),
            },
    {
        let text = match &self.works_svg {
            Some(text) => text,
            None => {
                return None;
            },
        };
        if self.works_data.is_none() {
            return None;
        }
        if !host_mounted || host_has_child {
            return None;
        }
        if self.binding.is_some() {
            return None;
        }
        Some(text)
    }

    /// Binds the parsed graphic to the dataset and keeps the binding table.
    /// On success the result lists the elements that take a click listener:
    /// those of all nodes. On failure nothing changes.
    pub fn set_action(&mut self, graphic: &Graphic) -> (bound: Result<Vec<usize>, BindingError>)
        requires
            old(self).wf(),
        ensures
            final(self).wf(),
            final(self).data() == old(self).data(),
            final(self).index() == old(self).index(),
            final(self).svg() == old(self).svg(),
            final(self).selected() == old(self).selected(),
            match bound {
                Ok(listeners) => {
                    &&& old(self).data() matches Some(works)
                    &&& graphic.depicts(&works)
                    &&& final(self).table() matches Some(table)
                    &&& table.binds(&works, graphic)
                    &&& listeners@ == table.repository_nodes@ + table.language_nodes@
                        + table.technology_nodes@
                },
                Err(missing) => {
                    &&& *final(self) == *old(self)
                    &&& match old(self).data() {
                        Some(works) => !graphic.depicts(&works) && first_missing(
                            &works,
                            graphic,
                            missing,
                        ),
                        None => missing == BindingError::DatasetMissing,
                    }
                },
            },
    {
        let works = match &self.works_data {
            Some(works) => works,
            None => {
                return Err(BindingError::DatasetMissing);
            },
        };
        let table = match construct_elements(works, graphic) {
            Ok(table) => table,
            Err(missing) => {
                return Err(missing);
            },
        };
        proof {
            lemma_binds_shaped(&table, works, graphic);
        }
        let mut listeners: Vec<usize> = Vec::new();
        append(&mut listeners, &table.repository_nodes);
        append(&mut listeners, &table.language_nodes);
        append(&mut listeners, &table.technology_nodes);
        self.binding = Some(table);
        Ok(listeners)
    }

    /// The strokes of the highlight for the current selection: one for
    /// every bound element, and none before the graphic is bound.
    pub fn coloring(&self) -> (plan: Vec<Paint>)
        requires
            self.wf(),
        ensures
            plan@ == self.plan(self.selected()),
    {
        match (&self.works_data, &self.binding) {
            (Some(works), Some(table)) => crate::highlight::coloring(
                works,
                &self.adjacency,
                table,
                self.selected_node,
            ),
            _ => Vec::new(),
        }
    }

    /// The strokes that make every bound element inactive.
    pub fn reset_all_color(&self) -> (plan: Vec<Paint>)
        requires
            self.wf(),
        ensures
            plan@ == self.plan(SelectedNode::Unselected),
            forall|p: int| 0 <= p < plan@.len() ==> (#[trigger] plan@[p]).color == Color::Inactive,
    {
        match (&self.works_data, &self.binding) {
            (Some(works), Some(table)) => crate::highlight::reset_all_color(
                works,
                &self.adjacency,
                table,
            ),
            _ => Vec::new(),
        }
    }

    /// The detail panel for the current selection; empty before the
    /// dataset has arrived.
    pub fn view(&self) -> (panel: DetailPanel)
        ensures
            panel@ == self.panel(),
    {
        match &self.works_data {
            Some(works) => crate::detail::view(works, &self.adjacency, self.selected_node),
            None => crate::detail::empty(),
        }
    }

    /// The selection.
    pub fn selected_node(&self) -> (selected: SelectedNode)
        ensures
            selected == self.selected(),
    {
        self.selected_node
    }

    /// The dataset, once it has arrived.
    pub fn works_data(&self) -> (works: Option<&WorksData>)
        ensures
            match works {
                Some(works) => self.data() == Some(*works),
                None => self.data() is None,
            },
    {
        self.works_data.as_ref()
    }

    /// The adjacency index of the dataset.
    pub fn adjacency(&self) -> (index: &AdjacencyIndex)
        ensures
            *index == self.index(),
    {
        &self.adjacency
    }

    /// The binding table, once the graphic is bound.
    pub fn binding(&self) -> (table: Option<&BindingTable>)
        ensures
            match table {
                Some(table) => self.table() == Some(*table),
                None => self.table() is None,
            },
    {
        self.binding.as_ref()
    }
}

/// The event that a click on element `target` of `graphic` raises: the
/// selection of the node that the click resolves to, and nothing where it
/// resolves to none.
pub fn clicked(graphic: &Graphic, target: usize) -> (msg: WorkMessage)
    ensures
        msg == match graphic.node_from(target as int) {
            Some((kind, index)) => WorkMessage::UpdateSelectedNode(SelectedNode::of(kind, index)),
            None => WorkMessage::Nothing,
        },
{
    match graphic.resolve_click(target) {
        Some(selected) => WorkMessage::UpdateSelectedNode(selected),
        None => WorkMessage::Nothing,
    }
}

/// Once something was inserted into the host, or a graphic was bound, no
/// render attempt goes ahead: the graphic is inserted at most once and
/// click listeners are attached at most once.
pub proof fn lemma_render_once(view: Works, host_mounted: bool, host_has_child: bool)
    requires
        host_has_child || view.table() is Some,
    ensures
        !view.renders(host_mounted, host_has_child),
{
}

/// Appends the entries of `more` to `list`.
fn append(list: &mut Vec<usize>, more: &Vec<usize>)
    ensures
        final(list)@ == old(list)@ + more@,
{
    let mut k: usize = 0;
    while k < more.len()
        invariant
            k <= more.len(),
            list@ == old(list)@ + more@.take(k as int),
        decreases more.len() - k,
    {
        list.push(more[k]);
        k += 1;
        assert(list@ =~= old(list)@ + more@.take(k as int));
    }
    assert(more@.take(k as int) =~= more@);
}

} // verus!
