//! The adjacency index: for every entity, the set of entities that a
//! relation joins it to, readable from either end of the relation.

use vstd::prelude::*;
use std::collections::BTreeSet;
use crate::dataset::{all_below, DatasetError, WorksData};
use crate::sequences::lemma_take_contains;

verus! {

/// Five collections of ordered sets, one set per entity.
#[derive(Debug, Clone, PartialEq)]
pub struct AdjacencyIndex {
    /// For each repository, the languages it is written in.
    pub repository_connected_languages: Vec<BTreeSet<usize>>,
    /// For each repository, the technology stacks it uses.
    pub repository_connected_technologies: Vec<BTreeSet<usize>>,
    /// For each repository, the repositories related to it.
    pub repository_connected_repositories: Vec<BTreeSet<usize>>,
    /// For each language, the repositories written in it.
    pub language_connected_repositories: Vec<BTreeSet<usize>>,
    /// For each technology stack, the repositories that use it.
    pub technology_connected_repositories: Vec<BTreeSet<usize>>,
}

impl AdjacencyIndex {
    /// Whether this is the adjacency index of `works`: one set per entity,
    /// and a set holds an index exactly where the dataset records the
    /// relation, in whichever direction it was recorded.
    pub open spec fn indexes(&self, works: &WorksData) -> bool {
        &&& self.repository_connected_languages.len() == works.repositories.len()
        &&& self.repository_connected_technologies.len() == works.repositories.len()
        &&& self.repository_connected_repositories.len() == works.repositories.len()
        &&& self.language_connected_repositories.len() == works.languages.len()
        &&& self.technology_connected_repositories.len() == works.technologies.len()
        &&& forall|i: int, j: usize|
            0 <= i < works.repositories.len() ==> (
            #[trigger] self.repository_connected_languages[i]@.contains(j)
                <==> works.lists_language(i, j))
        &&& forall|j: int, i: usize|
            0 <= j < works.languages.len() ==> (
            #[trigger] self.language_connected_repositories[j]@.contains(i)
                <==> works.lists_language(i as int, j as usize))
        &&& forall|i: int, j: usize|
            0 <= i < works.repositories.len() ==> (
            #[trigger] self.repository_connected_technologies[i]@.contains(j)
                <==> works.lists_technology(i, j))
        &&& forall|j: int, i: usize|
            0 <= j < works.technologies.len() ==> (
            #[trigger] self.technology_connected_repositories[j]@.contains(i)
                <==> works.lists_technology(i as int, j as usize))
        &&& forall|i: int, j: usize|
            0 <= i < works.repositories.len() ==> (
            #[trigger] self.repository_connected_repositories[i]@.contains(j) <==> works.related(
                i,
                j as int,
            ))
    }

    /// The index of a dataset without entities.
    pub fn new() -> (index: AdjacencyIndex)
        ensures
            index.repository_connected_languages.len() == 0,
            index.repository_connected_technologies.len() == 0,
            index.repository_connected_repositories.len() == 0,
            index.language_connected_repositories.len() == 0,
            index.technology_connected_repositories.len() == 0,
    {
        AdjacencyIndex {
            repository_connected_languages: Vec::new(),
            repository_connected_technologies: Vec::new(),
            repository_connected_repositories: Vec::new(),
            language_connected_repositories: Vec::new(),
            technology_connected_repositories: Vec::new(),
        }
    }
}

/// The repository-to-repository relation of an adjacency index reads the
/// same from both ends: `j` is adjacent to `i` exactly where `i` is adjacent
/// to `j`.
pub proof fn lemma_related_repositories_symmetric(
    index: &AdjacencyIndex,
    works: &WorksData,
    i: usize,
    j: usize,
)
    requires
        index.indexes(works),
        i < works.repositories.len(),
        j < works.repositories.len(),
    ensures
        index.repository_connected_repositories[i as int]@.contains(j)
            <==> index.repository_connected_repositories[j as int]@.contains(i),
{
}

/// The reverse sets mirror the forward sets: a language's set holds a
/// repository exactly where the repository's set holds the language, and
/// likewise for technology stacks.
pub proof fn lemma_reverse_views_mirror(index: &AdjacencyIndex, works: &WorksData, i: usize, j: usize)
    requires
        index.indexes(works),
        i < works.repositories.len(),
    ensures
        j < works.languages.len() ==> (index.language_connected_repositories[j as int]@.contains(i)
            <==> index.repository_connected_languages[i as int]@.contains(j)),
        j < works.technologies.len() ==> (index.technology_connected_repositories[j as int]@.contains(
            i,
        ) <==> index.repository_connected_technologies[i as int]@.contains(j)),
{
}

/// In the index of a dataset whose relations are within bounds, every set
/// holds only indices of entities that the dataset has.
pub proof fn lemma_adjacent_in_bounds(index: &AdjacencyIndex, works: &WorksData, i: usize, j: usize)
    requires
        index.indexes(works),
        works.in_bounds(),
    ensures
        i < works.repositories.len() && index.repository_connected_languages[i as int]@.contains(j)
            ==> j < works.languages.len(),
        i < works.repositories.len() && index.repository_connected_technologies[i as int]@.contains(
            j,
        ) ==> j < works.technologies.len(),
        i < works.repositories.len() && index.repository_connected_repositories[i as int]@.contains(
            j,
        ) ==> j < works.repositories.len(),
        i < works.languages.len() && index.language_connected_repositories[i as int]@.contains(j)
            ==> j < works.repositories.len(),
        i < works.technologies.len() && index.technology_connected_repositories[i as int]@.contains(
            j,
        ) ==> j < works.repositories.len(),
{
    if i < works.repositories.len() {
        let repository = works.repositories[i as int];
        if index.repository_connected_languages[i as int]@.contains(j) {
            let k = choose|k: int|
                0 <= k < repository.language_targets().len() && repository.language_targets()[k]
                    == j;
            assert(repository.language_targets()[k] < works.languages.len());
        }
        if index.repository_connected_technologies[i as int]@.contains(j) {
            let k = choose|k: int|
                0 <= k < repository.technology_stacks@.len() && repository.technology_stacks@[k]
                    == j;
            assert(repository.technology_stacks@[k] < works.technologies.len());
        }
        if index.repository_connected_repositories[i as int]@.contains(j) {
            if works.lists_repository(i as int, j) {
                let k = choose|k: int|
                    0 <= k < repository.related_repositories@.len()
                        && repository.related_repositories@[k] == j;
                assert(repository.related_repositories@[k] < works.repositories.len());
            }
        }
    }
}

/// `count` empty sets.
fn empty_sets(count: usize) -> (sets: Vec<BTreeSet<usize>>)
    ensures
        sets.len() == count,
        forall|a: int, b: usize| 0 <= a < count ==> !(#[trigger] sets[a]@.contains(b)),
{
    let mut sets: Vec<BTreeSet<usize>> = Vec::new();
    let mut a: usize = 0;
    while a < count
        invariant
            a <= count,
            sets.len() == a,
            forall|x: int, b: usize| 0 <= x < a ==> !(#[trigger] sets[x]@.contains(b)),
        decreases count - a,
    {
        sets.push(BTreeSet::new());
        a += 1;
    }
    sets
}

/// Records the edges from `source` to each of `targets`: forward in the
/// source's set, reverse in each target's set.
fn link(
    source: usize,
    targets: &Vec<usize>,
    forward: &mut Vec<BTreeSet<usize>>,
    reverse: &mut Vec<BTreeSet<usize>>,
)
    requires
        source < old(forward).len(),
        all_below(targets@, old(reverse).len() as nat),
    ensures
        final(forward).len() == old(forward).len(),
        final(reverse).len() == old(reverse).len(),
        forall|a: int, b: usize|
            0 <= a < old(forward).len() ==> (#[trigger] final(forward)[a]@.contains(b) <==> (old(
                forward,
            )[a]@.contains(b) || (a == source && targets@.contains(b)))),
        forall|b: int, a: usize|
            0 <= b < old(reverse).len() ==> (#[trigger] final(reverse)[b]@.contains(a) <==> (old(
                reverse,
            )[b]@.contains(a) || (a == source && targets@.contains(b as usize)))),
{
    let mut k: usize = 0;
    while k < targets.len()
        invariant
            k <= targets.len(),
            source < forward.len(),
            forward.len() == old(forward).len(),
            reverse.len() == old(reverse).len(),
            all_below(targets@, reverse.len() as nat),
            forall|a: int, b: usize|
                0 <= a < forward.len() ==> (#[trigger] forward[a]@.contains(b) <==> (old(
                    forward,
                )[a]@.contains(b) || (a == source && targets@.take(k as int).contains(b)))),
            forall|b: int, a: usize|
                0 <= b < reverse.len() ==> (#[trigger] reverse[b]@.contains(a) <==> (old(
                    reverse,
                )[b]@.contains(a) || (a == source && targets@.take(k as int).contains(
                    b as usize,
                )))),
        decreases targets.len() - k,
    {
        let target = targets[k];
        proof {
            lemma_take_contains(targets@, k as int);
        }
        forward[source].insert(target);
        reverse[target].insert(source);
        k += 1;
    }
    assert(targets@.take(k as int) =~= targets@);
}

/// Records the edges between `source` and each of `targets` in the sets of
/// both ends.
fn link_symmetric(source: usize, targets: &Vec<usize>, sets: &mut Vec<BTreeSet<usize>>)
    requires
        source < old(sets).len(),
        all_below(targets@, old(sets).len() as nat),
    ensures
        final(sets).len() == old(sets).len(),
        forall|a: int, b: usize|
            0 <= a < old(sets).len() ==> (#[trigger] final(sets)[a]@.contains(b) <==> (old(
                sets,
            )[a]@.contains(b) || (a == source && targets@.contains(b)) || (b == source
                && targets@.contains(a as usize)))),
{
    let mut k: usize = 0;
    while k < targets.len()
        invariant
            k <= targets.len(),
            source < sets.len(),
            sets.len() == old(sets).len(),
            all_below(targets@, sets.len() as nat),
            forall|a: int, b: usize|
                0 <= a < sets.len() ==> (#[trigger] sets[a]@.contains(b) <==> (old(
                    sets,
                )[a]@.contains(b) || (a == source && targets@.take(k as int).contains(b)) || (b
                    == source && targets@.take(k as int).contains(a as usize)))),
        decreases targets.len() - k,
    {
        let target = targets[k];
        proof {
            lemma_take_contains(targets@, k as int);
        }
        sets[source].insert(target);
        sets[target].insert(source);
        k += 1;
    }
    assert(targets@.take(k as int) =~= targets@);
}

/// Builds the adjacency index of `works` in one pass over its repositories.
/// A dataset with an index out of bounds is refused, with the relation at
/// fault.
pub fn construct_connection(works: &WorksData) -> (built: Result<AdjacencyIndex, DatasetError>)
    ensures
        match built {
            Ok(index) => works.in_bounds() && index.indexes(works),
            Err(fault) => works.fault() == Err::<(), DatasetError>(fault),
        },
{
    match works.validate() {
        Err(fault) => {
            return Err(fault);
        },
        Ok(()) => {},
    }
    let n = works.repositories.len();
    let mut repository_connected_languages = empty_sets(n);
    let mut repository_connected_technologies = empty_sets(n);
    let mut repository_connected_repositories = empty_sets(n);
    let mut language_connected_repositories = empty_sets(works.languages.len());
    let mut technology_connected_repositories = empty_sets(works.technologies.len());
    let mut i: usize = 0;
    while i < n
        invariant
            i <= n,
            n == works.repositories.len(),
            works.in_bounds(),
            repository_connected_languages.len() == n,
            repository_connected_technologies.len() == n,
            repository_connected_repositories.len() == n,
            language_connected_repositories.len() == works.languages.len(),
            technology_connected_repositories.len() == works.technologies.len(),
            forall|a: int, b: usize|
                0 <= a < n ==> (#[trigger] repository_connected_languages[a]@.contains(b) <==> (a
                    < i && works.lists_language(a, b))),
            forall|b: int, a: usize|
                0 <= b < works.languages.len() ==> (
                #[trigger] language_connected_repositories[b]@.contains(a) <==> (a < i
                    && works.lists_language(a as int, b as usize))),
            forall|a: int, b: usize|
                0 <= a < n ==> (#[trigger] repository_connected_technologies[a]@.contains(b) <==> (a
                    < i && works.lists_technology(a, b))),
            forall|b: int, a: usize|
                0 <= b < works.technologies.len() ==> (
                #[trigger] technology_connected_repositories[b]@.contains(a) <==> (a < i
                    && works.lists_technology(a as int, b as usize))),
            forall|a: int, b: usize|
                0 <= a < n ==> (#[trigger] repository_connected_repositories[a]@.contains(b) <==> ((a
                    < i && works.lists_repository(a, b)) || (b < i && works.lists_repository(
                    b as int,
                    a as usize,
                )))),
        decreases n - i,
    {
        let repository = &works.repositories[i];
        let languages = repository.language_indices();
        link(
            i,
            &languages,
            &mut repository_connected_languages,
            &mut language_connected_repositories,
        );
        link(
            i,
            &repository.technology_stacks,
            &mut repository_connected_technologies,
            &mut technology_connected_repositories,
        );
        link_symmetric(i, &repository.related_repositories, &mut repository_connected_repositories);
        i += 1;
    }
    Ok(
        AdjacencyIndex {
            repository_connected_languages,
            repository_connected_technologies,
            repository_connected_repositories,
            language_connected_repositories,
            technology_connected_repositories,
        },
    )
}

} // verus!
