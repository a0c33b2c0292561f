//! The dataset of works: repositories, languages and technology stacks, and
//! the relations between them, by index.

use vstd::prelude::*;
use std::collections::HashMap;
use crate::ident::EntityKind;

verus! {

/// Which community files a repository has, as the source reports them.
#[derive(Debug, Clone, PartialEq)]
pub struct CommunityProfileFiles {
    pub license: Option<HashMap<String, Option<String>>>,
    pub readme: Option<HashMap<String, String>>,
}

/// The summary of a repository's community profile.
#[derive(Debug, Clone, PartialEq)]
pub struct CommunityProfile {
    pub health_percentage: usize,
    pub description: Option<String>,
    pub documentation: Option<String>,
    pub files: CommunityProfileFiles,
}

/// One repository, with its relations as indices into the dataset's lists.
#[derive(Debug, Clone, PartialEq)]
pub struct Repository {
    pub html_url: String,
    pub name: String,
    pub homepage: Option<String>,
    /// Pairs of a language's index and its weight in the repository.
    pub language: Vec<(usize, usize)>,
    pub community_profile: Option<CommunityProfile>,
    pub technology_stacks: Vec<usize>,
    pub related_repositories: Vec<usize>,
}

/// One programming language.
#[derive(Debug, Default, Clone, PartialEq)]
pub struct Language {
    pub name: String,
    pub link: Option<String>,
}

/// One technology stack.
#[derive(Debug, Default, Clone, PartialEq)]
pub struct TechnologyStack {
    pub name: String,
    pub link: Option<String>,
    pub description: Option<String>,
}

/// The whole dataset. An entity's index is its position in its list.
#[derive(Debug, Default, Clone, PartialEq)]
pub struct WorksData {
    pub repositories: Vec<Repository>,
    pub languages: Vec<Language>,
    pub technologies: Vec<TechnologyStack>,
}

/// Why a dataset is refused: the first relation that refers past the end of
/// its target list.
#[derive(Debug, Clone, Copy, PartialEq, Eq, Structural)]
pub enum DatasetError {
    /// A repository names a language that the dataset does not hold.
    LanguageOutOfBounds,
    /// A repository names a technology stack that the dataset does not hold.
    TechnologyOutOfBounds,
    /// A repository names a related repository that the dataset does not hold.
    RepositoryOutOfBounds,
}

/// The text of an optional string.
pub open spec fn text_of(s: Option<String>) -> Option<Seq<char>> {
    match s {
        Some(s) => Some(s@),
        None => None,
    }
}

/// Whether every entry of `targets` is below `bound`.
pub open spec fn all_below(targets: Seq<usize>, bound: nat) -> bool {
    forall|k: int| 0 <= k < targets.len() ==> (#[trigger] targets[k]) < bound
}

impl Repository {
    /// The indices of the repository's languages, weights left out.
    pub open spec fn language_targets(&self) -> Seq<usize> {
        Seq::new(self.language@.len(), |k: int| self.language@[k].0)
    }

    /// The free-text description from the community profile, if there is one.
    pub open spec fn description_text(&self) -> Option<Seq<char>> {
        match self.community_profile {
            Some(profile) => text_of(profile.description),
            None => None,
        }
    }

    /// The indices of the repository's languages, weights left out.
    pub fn language_indices(&self) -> (targets: Vec<usize>)
        ensures
            targets@ == self.language_targets(),
    {
        let mut targets: Vec<usize> = Vec::new();
        let mut k: usize = 0;
        while k < self.language.len()
            invariant
                k <= self.language.len(),
                targets@.len() == k,
                forall|m: int| 0 <= m < k ==> targets@[m] == self.language@[m].0,
            decreases self.language.len() - k,
        {
            targets.push(self.language[k].0);
            k += 1;
        }
        assert(targets@ =~= self.language_targets());
        targets
    }
}

impl WorksData {
    /// How many entities of `kind` the dataset has.
    pub open spec fn count(&self, kind: EntityKind) -> nat {
        match kind {
            EntityKind::Repository => self.repositories.len() as nat,
            EntityKind::Language => self.languages.len() as nat,
            EntityKind::Technology => self.technologies.len() as nat,
        }
    }

    /// The entities of `kind` that repository `i` lists, in the order listed.
    pub open spec fn targets(&self, i: int, kind: EntityKind) -> Seq<usize> {
        match kind {
            EntityKind::Repository => self.repositories[i].related_repositories@,
            EntityKind::Language => self.repositories[i].language_targets(),
            EntityKind::Technology => self.repositories[i].technology_stacks@,
        }
    }

    /// The name of the entity `j` of `kind`.
    pub open spec fn name(&self, kind: EntityKind, j: int) -> Seq<char> {
        match kind {
            EntityKind::Repository => self.repositories[j].name@,
            EntityKind::Language => self.languages[j].name@,
            EntityKind::Technology => self.technologies[j].name@,
        }
    }

    /// Whether repository `i` lists language `j`.
    pub open spec fn lists_language(&self, i: int, j: usize) -> bool {
        0 <= i < self.repositories.len() && self.repositories[i].language_targets().contains(j)
    }

    /// Whether repository `i` lists technology stack `j`.
    pub open spec fn lists_technology(&self, i: int, j: usize) -> bool {
        0 <= i < self.repositories.len() && self.repositories[i].technology_stacks@.contains(j)
    }

    /// Whether repository `i` lists repository `j` as related.
    pub open spec fn lists_repository(&self, i: int, j: usize) -> bool {
        0 <= i < self.repositories.len() && self.repositories[i].related_repositories@.contains(j)
    }

    /// Whether repositories `i` and `j` are related: one lists the other.
    pub open spec fn related(&self, i: int, j: int) -> bool {
        ||| 0 <= j <= usize::MAX && self.lists_repository(i, j as usize)
        ||| 0 <= i <= usize::MAX && self.lists_repository(j, i as usize)
    }

    /// Every language that a repository lists is in the dataset.
    pub open spec fn languages_in_bounds(&self) -> bool {
        forall|i: int|
            0 <= i < self.repositories.len() ==> all_below(
                (#[trigger] self.repositories[i]).language_targets(),
                self.languages.len() as nat,
            )
    }

    /// Every technology stack that a repository lists is in the dataset.
    pub open spec fn technologies_in_bounds(&self) -> bool {
        forall|i: int|
            0 <= i < self.repositories.len() ==> all_below(
                (#[trigger] self.repositories[i]).technology_stacks@,
                self.technologies.len() as nat,
            )
    }

    /// Every related repository that a repository lists is in the dataset.
    pub open spec fn repositories_in_bounds(&self) -> bool {
        forall|i: int|
            0 <= i < self.repositories.len() ==> all_below(
                (#[trigger] self.repositories[i]).related_repositories@,
                self.repositories.len() as nat,
            )
    }

    /// Every index in every relation is within its target list.
    pub open spec fn in_bounds(&self) -> bool {
        self.languages_in_bounds() && self.technologies_in_bounds()
            && self.repositories_in_bounds()
    }

    /// What `validate` answers: languages are looked at first, then
    /// technology stacks, then related repositories.
    pub open spec fn fault(&self) -> Result<(), DatasetError> {
        if !self.languages_in_bounds() {
            Err(DatasetError::LanguageOutOfBounds)
        } else if !self.technologies_in_bounds() {
            Err(DatasetError::TechnologyOutOfBounds)
        } else if !self.repositories_in_bounds() {
            Err(DatasetError::RepositoryOutOfBounds)
        } else {
            Ok(())
        }
    }

    /// Accepts the dataset if every index in every relation is within its
    /// target list, and says which relation is at fault otherwise.
    pub fn validate(&self) -> (checked: Result<(), DatasetError>)
        ensures
            checked == self.fault(),
            checked is Ok <==> self.in_bounds(),
    {
        let n = self.repositories.len();
        let mut i: usize = 0;
        while i < n
            invariant
                n == self.repositories.len(),
                i <= n,
                forall|a: int|
                    0 <= a < i ==> all_below(
                        (#[trigger] self.repositories[a]).language_targets(),
                        self.languages.len() as nat,
                    ),
            decreases n - i,
        {
            let targets = self.repositories[i].language_indices();
            if !below(&targets, self.languages.len()) {
                return Err(DatasetError::LanguageOutOfBounds);
            }
            i += 1;
        }
        let mut i: usize = 0;
        while i < n
            invariant
                n == self.repositories.len(),
                i <= n,
                self.languages_in_bounds(),
                forall|a: int|
                    0 <= a < i ==> all_below(
                        (#[trigger] self.repositories[a]).technology_stacks@,
                        self.technologies.len() as nat,
                    ),
            decreases n - i,
        {
            if !below(&self.repositories[i].technology_stacks, self.technologies.len()) {
                return Err(DatasetError::TechnologyOutOfBounds);
            }
            i += 1;
        }
        let mut i: usize = 0;
        while i < n
            invariant
                n == self.repositories.len(),
                i <= n,
                self.languages_in_bounds(),
                self.technologies_in_bounds(),
                forall|a: int|
                    0 <= a < i ==> all_below(
                        (#[trigger] self.repositories[a]).related_repositories@,
                        n as nat,
                    ),
            decreases n - i,
        {
            if !below(&self.repositories[i].related_repositories, n) {
                return Err(DatasetError::RepositoryOutOfBounds);
            }
            i += 1;
        }
        Ok(())
    }
}

/// Whether every entry of `targets` is below `bound`.
pub fn below(targets: &Vec<usize>, bound: usize) -> (ok: bool)
    ensures
        ok == all_below(targets@, bound as nat),
{
    let mut k: usize = 0;
    while k < targets.len()
        invariant
            k <= targets.len(),
            forall|m: int| 0 <= m < k ==> (#[trigger] targets@[m]) < bound,
        decreases targets.len() - k,
    {
        if targets[k] >= bound {
            return false;
        }
        k += 1;
    }
    true
}

} // verus!
