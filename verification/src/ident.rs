//! The identifier scheme that ties a dataset to its rendered graphic.
//!
//! A node is identified by its kind's word followed by its index as a decimal
//! numeral (`repository3`); an edge by the identifiers of its two ends joined
//! with `_` (`repository3_language0`).

use vstd::prelude::*;
use crate::text::{decimal, has_word_at, index_of, lemma_index_of_decimal, parse_index, push_decimal, starts_with, to_chars};

verus! {

/// The three kinds of entity in a dataset.
#[derive(Clone, Copy, Debug, PartialEq, Eq, Structural)]
pub enum EntityKind {
    Repository,
    Language,
    Technology,
}

impl EntityKind {
    /// The word that begins every identifier of this kind.
    pub open spec fn word(self) -> Seq<char> {
        match self {
            EntityKind::Repository => "repository"@,
            EntityKind::Language => "language"@,
            EntityKind::Technology => "technology"@,
        }
    }

    /// The word that begins every identifier of this kind.
    pub fn as_str(self) -> (word: &'static str)
        ensures
            word@ == self.word(),
    {
        match self {
            EntityKind::Repository => "repository",
            EntityKind::Language => "language",
            EntityKind::Technology => "technology",
        }
    }
}

/// The identifier of the node `index` of `kind`.
pub open spec fn node_id_text(kind: EntityKind, index: nat) -> Seq<char> {
    kind.word() + decimal(index)
}

/// The identifier of the edge from node `from` of `from_kind` to node `to`
/// of `to_kind`, in that order.
pub open spec fn edge_id_text(from_kind: EntityKind, from: nat, to_kind: EntityKind, to: nat) -> Seq<
    char,
> {
    node_id_text(from_kind, from) + seq!['_'] + node_id_text(to_kind, to)
}

/// The index that `id` names as a node of `kind`: `id` is the kind's word
/// followed by a non-empty run of decimal digits whose value fits the machine
/// word. Any other `id` names no node of that kind.
pub open spec fn index_as(id: Seq<char>, kind: EntityKind) -> Option<usize> {
    if starts_with(id, kind.word()) {
        index_of(id.skip(kind.word().len() as int))
    } else {
        None
    }
}

/// The node that `id` names, if it names one.
pub open spec fn node_named(id: Seq<char>) -> Option<(EntityKind, usize)> {
    if let Some(index) = index_as(id, EntityKind::Repository) {
        Some((EntityKind::Repository, index))
    } else if let Some(index) = index_as(id, EntityKind::Language) {
        Some((EntityKind::Language, index))
    } else if let Some(index) = index_as(id, EntityKind::Technology) {
        Some((EntityKind::Technology, index))
    } else {
        None
    }
}

/// An identifier names a node of at most one kind.
pub proof fn lemma_one_kind(id: Seq<char>, k1: EntityKind, k2: EntityKind)
    requires
        index_as(id, k1) is Some,
        index_as(id, k2) is Some,
    ensures
        k1 == k2,
{
    reveal_strlit("repository");
    reveal_strlit("language");
    reveal_strlit("technology");
    assert(id.subrange(0, k1.word().len() as int)[0] == id[0]);
    assert(id.subrange(0, k2.word().len() as int)[0] == id[0]);
}

/// Reading a node's identifier gives the node back.
pub proof fn lemma_node_id_round_trip(kind: EntityKind, index: usize)
    ensures
        index_as(node_id_text(kind, index as nat), kind) == Some(index),
        node_named(node_id_text(kind, index as nat)) == Some((kind, index)),
{
    let id = node_id_text(kind, index as nat);
    let word = kind.word();
    assert(id.subrange(0, word.len() as int) =~= word);
    assert(id.skip(word.len() as int) =~= decimal(index as nat));
    lemma_index_of_decimal(index);
    if index_as(id, EntityKind::Repository) is Some {
        lemma_one_kind(id, kind, EntityKind::Repository);
    }
    if index_as(id, EntityKind::Language) is Some {
        lemma_one_kind(id, kind, EntityKind::Language);
    }
}

/// Two nodes have the same identifier only if they are the same node.
pub proof fn lemma_node_id_injective(k1: EntityKind, i1: usize, k2: EntityKind, i2: usize)
    requires
        node_id_text(k1, i1 as nat) == node_id_text(k2, i2 as nat),
    ensures
        k1 == k2,
        i1 == i2,
{
    lemma_node_id_round_trip(k1, i1);
    lemma_node_id_round_trip(k2, i2);
}

/// Appends the identifier of the node `index` of `kind` to `out`.
pub fn push_node_id(out: &mut String, kind: EntityKind, index: usize)
    ensures
        final(out)@ == old(out)@ + node_id_text(kind, index as nat),
{
    out.append(kind.as_str());
    push_decimal(out, index);
    assert(out@ =~= old(out)@ + node_id_text(kind, index as nat));
}

/// The identifier of the node `index` of `kind`.
pub fn node_id(kind: EntityKind, index: usize) -> (id: String)
    ensures
        id@ == node_id_text(kind, index as nat),
{
    let mut id = String::new();
    push_node_id(&mut id, kind, index);
    assert(id@ =~= node_id_text(kind, index as nat));
    id
}

/// Appends the identifier of an edge to `out`.
pub fn push_edge_id(out: &mut String, from_kind: EntityKind, from: usize, to_kind: EntityKind, to: usize)
    ensures
        final(out)@ == old(out)@ + edge_id_text(from_kind, from as nat, to_kind, to as nat),
{
    push_node_id(out, from_kind, from);
    out.push('_');
    push_node_id(out, to_kind, to);
    assert(out@ =~= old(out)@ + edge_id_text(from_kind, from as nat, to_kind, to as nat));
}

/// The identifier of the edge from node `from` of `from_kind` to node `to`
/// of `to_kind`.
pub fn edge_id(from_kind: EntityKind, from: usize, to_kind: EntityKind, to: usize) -> (id: String)
    ensures
        id@ == edge_id_text(from_kind, from as nat, to_kind, to as nat),
{
    let mut id = String::new();
    push_edge_id(&mut id, from_kind, from, to_kind, to);
    assert(id@ =~= edge_id_text(from_kind, from as nat, to_kind, to as nat));
    id
}

/// Reads `chars` as a node identifier of the one kind `kind`.
fn parse_as(chars: &Vec<char>, kind: EntityKind) -> (index: Option<usize>)
    ensures
        index == index_as(chars@, kind),
{
    let word = to_chars(kind.as_str());
    assert(chars@.skip(0) =~= chars@);
    if has_word_at(chars, 0, &word) {
        parse_index(chars, word.len())
    } else {
        None
    }
}

/// Reads `id` as a node identifier: the kind and index it names, or `None`
/// where it names no node.
pub fn parse_node_id(id: &str) -> (node: Option<(EntityKind, usize)>)
    ensures
        node == node_named(id@),
{
    let chars = to_chars(id);
    if let Some(index) = parse_as(&chars, EntityKind::Repository) {
        return Some((EntityKind::Repository, index));
    }
    if let Some(index) = parse_as(&chars, EntityKind::Language) {
        return Some((EntityKind::Language, index));
    }
    if let Some(index) = parse_as(&chars, EntityKind::Technology) {
        return Some((EntityKind::Technology, index));
    }
    None
}

} // verus!
