//! The dataset as its builder holds it: a relation of a repository is a
//! list of names while it is gathered and a list of indices once the names
//! are resolved.

use vstd::prelude::*;
pub use crate::dataset::{CommunityProfile, CommunityProfileFiles, Language, TechnologyStack};
use crate::ident::EntityKind;

verus! {

/// The languages of a repository.
#[derive(Debug, Clone, PartialEq)]
pub enum RepositoryLanguage {
    /// No language is recorded.
    Absent,
    /// The name of the main language alone.
    Single(String),
    /// Language names with their weights; no name occurs twice.
    StringList(Vec<(String, usize)>),
    /// Language indices with their weights.
    IndexList(Vec<(usize, usize)>),
}

/// The technology stacks of a repository.
#[derive(Debug, Clone, PartialEq)]
pub enum RepositoryTechnologyStacks {
    /// No technology stack is recorded.
    Absent,
    /// The names of the technology stacks.
    StringList(Vec<String>),
    /// The indices of the technology stacks.
    IndexList(Vec<usize>),
}

/// The repositories related to a repository.
#[derive(Debug, Clone, PartialEq)]
pub enum RepositoryRelatedRepositories {
    /// No related repository is recorded.
    Absent,
    /// The names of the related repositories.
    StringList(Vec<String>),
    /// The indices of the related repositories.
    IndexList(Vec<usize>),
}

impl Default for RepositoryTechnologyStacks {
    fn default() -> (stacks: Self)
        ensures
            stacks is Absent,
    {
        RepositoryTechnologyStacks::Absent
    }
}

impl Default for RepositoryRelatedRepositories {
    fn default() -> (related: Self)
        ensures
            related is Absent,
    {
        Self::Absent
    }
}

/// One repository as the builder holds it.
#[derive(Debug, Clone, PartialEq)]
pub struct Repository {
    pub html_url: String,
    pub name: String,
    pub homepage: Option<String>,
    pub language: RepositoryLanguage,
    pub community_profile: Option<CommunityProfile>,
    pub technology_stacks: RepositoryTechnologyStacks,
    pub related_repositories: RepositoryRelatedRepositories,
}

/// The dataset as the builder holds it.
#[derive(Debug, Clone, PartialEq)]
pub struct Works {
    pub repositories: Vec<Repository>,
    pub languages: Vec<Language>,
    pub technologies: Vec<TechnologyStack>,
}

impl Repository {
    /// Whether all three relations are lists of indices.
    pub open spec fn is_resolved(&self) -> bool {
        &&& self.language is IndexList
        &&& self.technology_stacks is IndexList
        &&& self.related_repositories is IndexList
    }

    /// The indices of the entities of `kind` that the repository lists, in
    /// the order listed. A relation that is not a list of indices lists none.
    pub open spec fn targets(&self, kind: EntityKind) -> Seq<usize> {
        match kind {
            EntityKind::Language => match self.language {
                RepositoryLanguage::IndexList(list) => Seq::new(list@.len(), |k: int| list@[k].0),
                _ => Seq::empty(),
            },
            EntityKind::Technology => match self.technology_stacks {
                RepositoryTechnologyStacks::IndexList(list) => list@,
                _ => Seq::empty(),
            },
            EntityKind::Repository => match self.related_repositories {
                RepositoryRelatedRepositories::IndexList(list) => list@,
                _ => Seq::empty(),
            },
        }
    }

    /// The names of the repository's languages, in the order listed. A
    /// relation that is not a list of names lists none.
    pub open spec fn language_names(&self) -> Seq<Seq<char>> {
        match self.language {
            RepositoryLanguage::StringList(list) => Seq::new(list@.len(), |k: int| list@[k].0@),
            _ => Seq::empty(),
        }
    }

    /// The names of the repository's technology stacks, in the order listed.
    pub open spec fn technology_names(&self) -> Seq<Seq<char>> {
        match self.technology_stacks {
            RepositoryTechnologyStacks::StringList(list) => Seq::new(
                list@.len(),
                |k: int| list@[k]@,
            ),
            _ => Seq::empty(),
        }
    }

    /// The names of the repositories related to the repository, in the
    /// order listed.
    pub open spec fn related_names(&self) -> Seq<Seq<char>> {
        match self.related_repositories {
            RepositoryRelatedRepositories::StringList(list) => Seq::new(
                list@.len(),
                |k: int| list@[k]@,
            ),
            _ => Seq::empty(),
        }
    }

    /// The weights of the repository's languages, in the order listed.
    pub open spec fn language_weights(&self) -> Seq<usize> {
        match self.language {
            RepositoryLanguage::StringList(list) => Seq::new(list@.len(), |k: int| list@[k].1),
            RepositoryLanguage::IndexList(list) => Seq::new(list@.len(), |k: int| list@[k].1),
            _ => Seq::empty(),
        }
    }

    /// The indices of the entities of `kind` that the repository lists.
    pub fn indices(&self, kind: EntityKind) -> (targets: Vec<usize>)
        ensures
            targets@ == self.targets(kind),
    {
        let mut targets: Vec<usize> = Vec::new();
        match kind {
            EntityKind::Language => match &self.language {
                RepositoryLanguage::IndexList(list) => {
                    let mut k: usize = 0;
                    while k < list.len()
                        invariant
                            k <= list.len(),
                            targets@.len() == k,
                            forall|m: int| 0 <= m < k ==> targets@[m] == list@[m].0,
                        decreases list.len() - k,
                    {
                        targets.push(list[k].0);
                        k += 1;
                    }
                },
                _ => {},
            },
            EntityKind::Technology => match &self.technology_stacks {
                RepositoryTechnologyStacks::IndexList(list) => {
                    targets = list.clone();
                },
                _ => {},
            },
            EntityKind::Repository => match &self.related_repositories {
                RepositoryRelatedRepositories::IndexList(list) => {
                    targets = list.clone();
                },
                _ => {},
            },
        }
        assert(targets@ =~= self.targets(kind));
        targets
    }
}

impl Repository {
    /// Whether `data` is this repository as the dataset holds it.
    pub open spec fn is_held_as(&self, data: crate::dataset::Repository) -> bool {
        &&& data.html_url == self.html_url
        &&& data.name == self.name
        &&& data.homepage == self.homepage
        &&& data.community_profile == self.community_profile
        &&& self.language == RepositoryLanguage::IndexList(data.language)
        &&& self.technology_stacks == RepositoryTechnologyStacks::IndexList(data.technology_stacks)
        &&& self.related_repositories == RepositoryRelatedRepositories::IndexList(
            data.related_repositories,
        )
    }

    /// The repository as the dataset holds it; `None` unless all three
    /// relations are lists of indices.
    pub fn into_data(self) -> (data: Option<crate::dataset::Repository>)
        ensures
            match data {
                Some(data) => self.is_held_as(data),
                None => !self.is_resolved(),
            },
    {
        let language = match self.language {
            RepositoryLanguage::IndexList(list) => list,
            _ => {
                return None;
            },
        };
        let technology_stacks = match self.technology_stacks {
            RepositoryTechnologyStacks::IndexList(list) => list,
            _ => {
                return None;
            },
        };
        let related_repositories = match self.related_repositories {
            RepositoryRelatedRepositories::IndexList(list) => list,
            _ => {
                return None;
            },
        };
        Some(
            crate::dataset::Repository {
                html_url: self.html_url,
                name: self.name,
                homepage: self.homepage,
                language,
                community_profile: self.community_profile,
                technology_stacks,
                related_repositories,
            },
        )
    }
}

impl Works {
    /// Whether `data` is this dataset as the view takes it.
    pub open spec fn is_held_as(&self, data: crate::dataset::WorksData) -> bool {
        &&& data.languages == self.languages
        &&& data.technologies == self.technologies
        &&& data.repositories@.len() == self.repositories@.len()
        &&& forall|p: int|
            0 <= p < self.repositories@.len() ==> (#[trigger] self.repositories@[p]).is_held_as(
                data.repositories@[p],
            )
    }

    /// The dataset as the view takes it; `None` unless every relation of
    /// every repository is a list of indices.
    pub fn into_works_data(self) -> (data: Option<crate::dataset::WorksData>)
        ensures
            match data {
                Some(data) => self.is_held_as(data),
                None => !self.is_resolved(),
            },
    {
        let ghost all = self.repositories@;
        let Works { repositories: mut rest, languages, technologies } = self;
        let mut repositories: Vec<crate::dataset::Repository> = Vec::new();
        loop
            invariant
                all == self.repositories@,
                languages == self.languages,
                technologies == self.technologies,
                rest@.len() <= all.len(),
                rest@ == all.take(rest@.len() as int),
                repositories@.len() == all.len() - rest@.len(),
                forall|p: int|
                    0 <= p < repositories@.len() ==> all[rest@.len() + p].is_held_as(
                        #[trigger] repositories@[p],
                    ),
            decreases rest@.len(),
        {
            let ghost before = repositories@;
            let ghost at = rest@.len() - 1;
            let next = match rest.pop() {
                Some(next) => next,
                None => {
                    return Some(crate::dataset::WorksData { repositories, languages, technologies });
                },
            };
            assert(next == all[at]);
            assert(rest@ =~= all.take(at));
            match next.into_data() {
                Some(data) => {
                    repositories.insert(0, data);
                    proof {
                        assert forall|p: int| 0 <= p < repositories@.len() implies all[at
                            + p].is_held_as(#[trigger] repositories@[p]) by {
                            if p > 0 {
                                assert(repositories@[p] == before[p - 1]);
                                assert(all[at + 1 + (p - 1)].is_held_as(before[p - 1]));
                            }
                        }
                    }
                },
                None => {
                    return None;
                },
            }
        }
    }

    /// Whether every relation of every repository is a list of indices.
    pub open spec fn is_resolved(&self) -> bool {
        forall|i: int|
            0 <= i < self.repositories.len() ==> (#[trigger] self.repositories[i]).is_resolved()
    }

    /// How many entities of `kind` the dataset has.
    pub open spec fn count(&self, kind: EntityKind) -> nat {
        match kind {
            EntityKind::Repository => self.repositories.len() as nat,
            EntityKind::Language => self.languages.len() as nat,
            EntityKind::Technology => self.technologies.len() as nat,
        }
    }

    /// The name of the entity `j` of `kind`.
    pub open spec fn name(&self, kind: EntityKind, j: int) -> Seq<char> {
        match kind {
            EntityKind::Repository => self.repositories[j].name@,
            EntityKind::Language => self.languages[j].name@,
            EntityKind::Technology => self.technologies[j].name@,
        }
    }
}

} // verus!
