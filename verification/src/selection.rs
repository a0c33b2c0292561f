//! The selection: which single node of the graph is chosen, if any.

use vstd::prelude::*;
use crate::ident::EntityKind;

verus! {

/// The node that is selected, or `Unselected` while nothing is.
#[derive(Debug, Clone, Copy, PartialEq, Eq, Structural)]
pub enum SelectedNode {
    Repository(usize),
    Language(usize),
    Technology(usize),
    Unselected,
}

impl SelectedNode {
    /// The selection of the node `index` of `kind`.
    pub open spec fn of(kind: EntityKind, index: usize) -> SelectedNode {
        match kind {
            EntityKind::Repository => SelectedNode::Repository(index),
            EntityKind::Language => SelectedNode::Language(index),
            EntityKind::Technology => SelectedNode::Technology(index),
        }
    }

    /// The selection of the node `index` of `kind`.
    pub fn new(kind: EntityKind, index: usize) -> (selected: SelectedNode)
        ensures
            selected == SelectedNode::of(kind, index),
    {
        match kind {
            EntityKind::Repository => SelectedNode::Repository(index),
            EntityKind::Language => SelectedNode::Language(index),
            EntityKind::Technology => SelectedNode::Technology(index),
        }
    }
}

/// What a request to select `requested` does to the selection `current`:
/// the new selection, and whether anything changed. Selecting the selected
/// node again changes nothing.
pub fn select(current: SelectedNode, requested: SelectedNode) -> (next: (SelectedNode, bool))
    ensures
        next.0 == requested,
        next.1 == (current != requested),
{
    if current == requested {
        (current, false)
    } else {
        (requested, true)
    }
}

} // verus!
