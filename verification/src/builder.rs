//! The builder of the dataset: from what the source of repositories
//! reports, and from the additional information that is kept by hand, to
//! the dataset with all names resolved to indices.
//!
//! Repositories without a description are left out. The others are put in
//! the order of their names, and so are the languages and the technology
//! stacks that they name; an entity's index is its position in that order.

use vstd::prelude::*;
use crate::dataset::{all_below, CommunityProfile, Language, TechnologyStack, WorksData};
use crate::ident::EntityKind;
use crate::names::{
    ascending, find, insert_name, name_lt, same_name, texts,
};
use crate::relations::{canonical, recorded, relates, simplify};
use crate::sequences::lemma_take_contains;
use crate::repository_list::{
    Repository, RepositoryLanguage, RepositoryRelatedRepositories, RepositoryTechnologyStacks, Works,
};

verus! {

/// How many repositories the source is asked for at a time.
pub const FETCH_SIZE: usize = 100;

/// What is kept by hand beside the source: the technology stacks of each
/// repository and the relations between repositories, by name, and what is
/// known of technology stacks and languages.
#[derive(Debug, Clone, PartialEq)]
pub struct RepositoryAdditionalInformation {
    pub technology_stacks: Vec<(String, Vec<String>)>,
    pub repository_relations: Vec<(String, Vec<String>)>,
    pub technology_stack_info: Vec<TechnologyStack>,
    pub language_info: Vec<Language>,
}

/// What the source reports of one repository: the repository as listed, its
/// community profile, and its languages with their weights.
#[derive(Debug, Clone, PartialEq)]
pub struct FetchedRepository {
    pub repository: Repository,
    pub community_profile: CommunityProfile,
    pub languages: Vec<(String, usize)>,
}

/// Why no dataset can be built.
#[derive(Debug, Clone, Copy, PartialEq, Eq, Structural)]
pub enum BuildError {
    /// Two repositories with a description have the same name.
    DuplicateRepository,
    /// A repository is related to a name that no repository with a
    /// description has.
    UnknownRepository,
}

impl Default for RepositoryAdditionalInformation {
    /// No additional information at all.
    fn default() -> (info: Self)
        ensures
            info.technology_stacks@.len() == 0,
            info.repository_relations@.len() == 0,
            info.technology_stack_info@.len() == 0,
            info.language_info@.len() == 0,
    {
        RepositoryAdditionalInformation {
            technology_stacks: Vec::new(),
            repository_relations: Vec::new(),
            technology_stack_info: Vec::new(),
            language_info: Vec::new(),
        }
    }
}

/// The additional information to build with, from what was read of it:
/// the relations between repositories are brought into canonical form, and
/// where nothing could be read there is no additional information.
pub fn get_additional_information(read: Option<RepositoryAdditionalInformation>) -> (info:
    RepositoryAdditionalInformation)
    ensures
        match read {
            Some(read) => {
                &&& info.technology_stacks == read.technology_stacks
                &&& info.technology_stack_info == read.technology_stack_info
                &&& info.language_info == read.language_info
                &&& canonical(info.repository_relations@)
                &&& forall|x: Seq<char>, y: Seq<char>| #[trigger]
                    recorded(info.repository_relations@, x, y) <==> (name_lt(x, y) && relates(
                        read.repository_relations@,
                        x,
                        y,
                    ))
            },
            None => {
                &&& info.technology_stacks@.len() == 0
                &&& info.repository_relations@.len() == 0
                &&& info.technology_stack_info@.len() == 0
                &&& info.language_info@.len() == 0
            },
        },
{
    match read {
        Some(read) => RepositoryAdditionalInformation {
            technology_stacks: read.technology_stacks,
            repository_relations: simplify(read.repository_relations),
            technology_stack_info: read.technology_stack_info,
            language_info: read.language_info,
        },
        None => RepositoryAdditionalInformation::default(),
    }
}

impl FetchedRepository {
    /// Whether the repository goes into the dataset: it has a description.
    pub open spec fn listed(&self) -> bool {
        self.community_profile.description is Some
    }

    /// Whether the repository goes into the dataset: it has a description.
    pub fn is_listed(&self) -> (listed: bool)
        ensures
            listed == self.listed(),
    {
        self.community_profile.description.is_some()
    }
}

/// Whether a page of `count` repositories is the last one: it is not full.
pub fn is_last_page(count: usize) -> (last: bool)
    ensures
        last == (count < FETCH_SIZE),
{
    count < FETCH_SIZE
}

/// The names of fetched repositories, in the order of the list.
pub open spec fn fetched_names(list: Seq<FetchedRepository>) -> Seq<Seq<char>> {
    Seq::new(list.len(), |p: int| list[p].repository.name@)
}

/// Whether two repositories of `fetched` that go into the dataset have the
/// same name.
pub open spec fn has_duplicate(fetched: Seq<FetchedRepository>) -> bool {
    exists|i: int, j: int|
        0 <= i < j < fetched.len() && (#[trigger] fetched[i]).listed() && (#[trigger] fetched[j]).listed()
            && fetched[i].repository.name@ == fetched[j].repository.name@
}

/// The names listed under the first entry of `map` with the key `key`;
/// none where no entry has that key.
pub open spec fn listed_under(map: Seq<(String, Vec<String>)>, key: Seq<char>) -> Seq<Seq<char>>
    decreases map.len(),
{
    if map.len() == 0 {
        Seq::empty()
    } else if map[0].0@ == key {
        texts(map[0].1@)
    } else {
        listed_under(map.drop_first(), key)
    }
}

/// A copy of a list of names.
fn copy_names(names: &Vec<String>) -> (copy: Vec<String>)
    ensures
        texts(copy@) == texts(names@),
{
    let mut copy: Vec<String> = Vec::new();
    let mut k: usize = 0;
    while k < names.len()
        invariant
            k <= names.len(),
            copy.len() == k,
            forall|m: int| 0 <= m < k ==> copy@[m]@ == names@[m]@,
        decreases names.len() - k,
    {
        copy.push(names[k].clone());
        k += 1;
    }
    assert(texts(copy@) =~= texts(names@));
    copy
}

/// The names listed under the first entry of `map` with the key `key`.
pub fn lookup(map: &Vec<(String, Vec<String>)>, key: &str) -> (listed: Vec<String>)
    ensures
        texts(listed@) == listed_under(map@, key@),
{
    let mut e: usize = 0;
    assert(map@.skip(0) =~= map@);
    while e < map.len()
        invariant
            e <= map.len(),
            listed_under(map@, key@) == listed_under(map@.skip(e as int), key@),
        decreases map.len() - e,
    {
        let ghost rest = map@.skip(e as int);
        assert(rest[0] == map@[e as int]);
        if same_name(map[e].0.as_str(), key) {
            return copy_names(&map[e].1);
        }
        assert(rest.drop_first() =~= map@.skip(e + 1));
        e += 1;
    }
    Vec::new()
}

/// Whether `one` stands in `all` at position `from` or later.
pub open spec fn stands_from(all: Seq<FetchedRepository>, from: int, one: FetchedRepository) -> bool {
    exists|j: int| from <= j < all.len() && 0 <= j && all[j] == one
}

/// Picks the repositories that go into the dataset and puts them in the
/// order of their names. Two of them with the same name are an error.
pub fn select(fetched: Vec<FetchedRepository>) -> (picked: Result<Vec<FetchedRepository>, BuildError>)
    ensures
        picked is Ok <==> !has_duplicate(fetched@),
        match picked {
            Ok(kept) => {
                &&& ascending(fetched_names(kept@))
                &&& forall|i: int|
                    0 <= i < fetched@.len() && (#[trigger] fetched@[i]).listed() ==> kept@.contains(
                        fetched@[i],
                    )
                &&& forall|p: int|
                    0 <= p < kept@.len() ==> (#[trigger] kept@[p]).listed() && fetched@.contains(
                        kept@[p],
                    )
            },
            Err(fault) => fault == BuildError::DuplicateRepository,
        },
{
    let ghost all = fetched@;
    let mut rest = fetched;
    let mut names: Vec<String> = Vec::new();
    let mut kept: Vec<FetchedRepository> = Vec::new();
    assert(fetched_names(kept@) =~= texts(names@));
    loop
        invariant
            all == fetched@,
            rest@.len() <= all.len(),
            rest@ == all.take(rest@.len() as int),
            fetched_names(kept@) == texts(names@),
            ascending(texts(names@)),
            forall|i: int|
                rest@.len() <= i < all.len() && (#[trigger] all[i]).listed() ==> kept@.contains(all[i]),
            forall|p: int|
                0 <= p < kept@.len() ==> (#[trigger] kept@[p]).listed() && stands_from(
                    all,
                    rest@.len() as int,
                    kept@[p],
                ),
            forall|i: int, j: int|
                rest@.len() <= i < j < all.len() && (#[trigger] all[i]).listed() && (
                #[trigger] all[j]).listed() ==> all[i].repository.name@ != all[j].repository.name@,
        decreases rest@.len(),
    {
        let ghost before = kept@;
        let ghost at = rest@.len() - 1;
        let next = match rest.pop() {
            Some(next) => next,
            None => {
                assert(!has_duplicate(all));
                assert forall|p: int| 0 <= p < kept@.len() implies (#[trigger] kept@[p]).listed()
                    && all.contains(kept@[p]) by {
                    assert(stands_from(all, 0, kept@[p]));
                }
                return Ok(kept);
            },
        };
        assert(next == all[at]);
        assert(rest@ =~= all.take(at));
        if next.is_listed() {
            match find(&names, next.repository.name.as_str()) {
                Ok(p) => {
                    proof {
                        assert(fetched_names(before).len() == texts(names@).len());
                        let twin = before[p as int];
                        assert(fetched_names(before)[p as int] == twin.repository.name@);
                        assert(twin.listed() && stands_from(all, at + 1, twin));
                        assert(twin.repository.name@ == next.repository.name@);
                        let j = choose|j: int| at + 1 <= j < all.len() && 0 <= j && all[j] == twin;
                        assert(all[at].listed() && all[j].listed());
                    }
                    return Err(BuildError::DuplicateRepository);
                },
                Err(p) => {
                    proof {
                        assert(fetched_names(before).len() == texts(names@).len());
                        assert forall|j: int| at < j < all.len() && (
                        #[trigger] all[j]).listed() implies all[at].repository.name@
                            != all[j].repository.name@ by {
                            assert(before.contains(all[j]));
                            let q = choose|q: int| 0 <= q < before.len() && before[q] == all[j];
                            assert(fetched_names(before)[q] == all[j].repository.name@);
                            assert(texts(names@)[q] == all[j].repository.name@);
                        }
                    }
                    let ghost names_before = texts(names@);
                    names.insert(p, next.repository.name.clone());
                    kept.insert(p, next);
                    proof {
                        let names_after = texts(names@);
                        assert(names_after =~= names_before.insert(p as int, next.repository.name@));
                        assert(fetched_names(kept@) =~= names_after);
                        assert forall|i: int, j: int| 0 <= i < j < names_after.len() implies name_lt(
                            names_after[i],
                            names_after[j],
                        ) by {
                            if i < p {
                                assert(names_after[i] == names_before[i]);
                            } else if i > p {
                                assert(names_after[i] == names_before[i - 1]);
                            }
                            if j < p {
                                assert(names_after[j] == names_before[j]);
                            } else if j > p {
                                assert(names_after[j] == names_before[j - 1]);
                            }
                            if i < p && j > p {
                                assert(name_lt(names_before[i], names_before[j - 1]));
                            }
                        }
                        assert forall|i: int|
                            at <= i < all.len() && (#[trigger] all[i]).listed() implies kept@.contains(
                            all[i],
                        ) by {
                            if i == at {
                                assert(kept@[p as int] == all[i]);
                            } else {
                                let q = choose|q: int| 0 <= q < before.len() && before[q] == all[i];
                                if q < p {
                                    assert(kept@[q] == all[i]);
                                } else {
                                    assert(kept@[q + 1] == all[i]);
                                }
                            }
                        }
                        assert forall|q: int| 0 <= q < kept@.len() implies (
                        #[trigger] kept@[q]).listed() && stands_from(all, at, kept@[q]) by {
                            if q < p {
                                assert(kept@[q] == before[q]);
                                assert(stands_from(all, at + 1, before[q]));
                            } else if q > p {
                                assert(kept@[q] == before[q - 1]);
                                assert(stands_from(all, at + 1, before[q - 1]));
                            } else {
                                assert(kept@[q] == all[at]);
                            }
                        }
                    }
                },
            }
        }
    }
}

/// The names of repositories, in the order of the list.
pub open spec fn repository_names(list: Seq<Repository>) -> Seq<Seq<char>> {
    Seq::new(list.len(), |p: int| list[p].name@)
}

/// Whether some repository of `list` names the language `x`.
pub open spec fn names_language(list: Seq<Repository>, x: Seq<char>) -> bool {
    exists|p: int| 0 <= p < list.len() && (#[trigger] list[p]).language_names().contains(x)
}

/// Whether some repository of `list` names the technology stack `x`.
pub open spec fn names_technology(list: Seq<Repository>, x: Seq<char>) -> bool {
    exists|p: int| 0 <= p < list.len() && (#[trigger] list[p]).technology_names().contains(x)
}

/// Whether `one` is the repository `from` with its relations by name: the
/// languages that the source reports, and the technology stacks and related
/// repositories that `info` lists under the repository's name.
pub open spec fn gathered(
    one: Repository,
    from: FetchedRepository,
    info: &RepositoryAdditionalInformation,
) -> bool {
    &&& one.name == from.repository.name
    &&& one.html_url == from.repository.html_url
    &&& one.homepage == from.repository.homepage
    &&& one.community_profile == Some(from.community_profile)
    &&& one.language == RepositoryLanguage::StringList(from.languages)
    &&& one.technology_stacks is StringList
    &&& one.technology_names() == listed_under(info.technology_stacks@, from.repository.name@)
    &&& one.related_repositories is StringList
    &&& one.related_names() == listed_under(info.repository_relations@, from.repository.name@)
}

/// Gives every picked repository its relations by name.
pub fn gather(kept: Vec<FetchedRepository>, info: &RepositoryAdditionalInformation) -> (list: Vec<
    Repository,
>)
    ensures
        list@.len() == kept@.len(),
        forall|p: int| 0 <= p < kept@.len() ==> gathered(#[trigger] list@[p], kept@[p], info),
{
    let ghost all = kept@;
    let mut rest = kept;
    let mut list: Vec<Repository> = Vec::new();
    loop
        invariant
            all == kept@,
            rest@.len() <= all.len(),
            rest@ == all.take(rest@.len() as int),
            list@.len() == all.len() - rest@.len(),
            forall|p: int|
                0 <= p < list@.len() ==> gathered(#[trigger] list@[p], all[rest@.len() + p], info),
        decreases rest@.len(),
    {
        let ghost before = list@;
        let ghost at = rest@.len() - 1;
        let next = match rest.pop() {
            Some(next) => next,
            None => {
                return list;
            },
        };
        assert(next == all[at]);
        assert(rest@ =~= all.take(at));
        let stacks = lookup(&info.technology_stacks, next.repository.name.as_str());
        let related = lookup(&info.repository_relations, next.repository.name.as_str());
        let FetchedRepository { repository, community_profile, languages } = next;
        let one = Repository {
            html_url: repository.html_url,
            name: repository.name,
            homepage: repository.homepage,
            language: RepositoryLanguage::StringList(languages),
            community_profile: Some(community_profile),
            technology_stacks: RepositoryTechnologyStacks::StringList(stacks),
            related_repositories: RepositoryRelatedRepositories::StringList(related),
        };
        proof {
            assert(one.technology_names() =~= texts(stacks@));
            assert(one.related_names() =~= texts(related@));
            assert(gathered(one, all[at], info));
        }
        list.insert(0, one);
        proof {
            assert forall|p: int| 0 <= p < list@.len() implies gathered(
                #[trigger] list@[p],
                all[at + p],
                info,
            ) by {
                if p > 0 {
                    assert(list@[p] == before[p - 1]);
                    assert(gathered(before[p - 1], all[at + 1 + (p - 1)], info));
                }
            }
        }
    }
}

/// The names of one repository's languages.
fn language_names_of(one: &Repository) -> (names: Vec<String>)
    ensures
        texts(names@) == one.language_names(),
{
    let mut names: Vec<String> = Vec::new();
    match &one.language {
        RepositoryLanguage::StringList(list) => {
            let mut k: usize = 0;
            while k < list.len()
                invariant
                    k <= list.len(),
                    names.len() == k,
                    forall|m: int| 0 <= m < k ==> names@[m]@ == list@[m].0@,
                decreases list.len() - k,
            {
                names.push(list[k].0.clone());
                k += 1;
            }
        },
        _ => {},
    }
    assert(texts(names@) =~= one.language_names());
    names
}

/// The names of one repository's technology stacks.
fn technology_names_of(one: &Repository) -> (names: Vec<String>)
    ensures
        texts(names@) == one.technology_names(),
{
    let names = match &one.technology_stacks {
        RepositoryTechnologyStacks::StringList(list) => copy_names(list),
        _ => Vec::new(),
    };
    assert(texts(names@) =~= one.technology_names());
    names
}

/// The names of the repositories related to one repository.
fn related_names_of(one: &Repository) -> (names: Vec<String>)
    ensures
        texts(names@) == one.related_names(),
{
    let names = match &one.related_repositories {
        RepositoryRelatedRepositories::StringList(list) => copy_names(list),
        _ => Vec::new(),
    };
    assert(texts(names@) =~= one.related_names());
    names
}

/// Puts every name of `more` into the ascending list `names`.
fn insert_names(names: &mut Vec<String>, more: &Vec<String>)
    requires
        ascending(texts(old(names)@)),
    ensures
        ascending(texts(final(names)@)),
        forall|x: Seq<char>|
            texts(final(names)@).contains(x) <==> (texts(old(names)@).contains(x) || texts(
                more@,
            ).contains(x)),
{
    let ghost added = texts(more@);
    let mut k: usize = 0;
    while k < more.len()
        invariant
            k <= more.len(),
            added == texts(more@),
            ascending(texts(names@)),
            forall|x: Seq<char>|
                texts(names@).contains(x) <==> (texts(old(names)@).contains(x) || added.take(
                    k as int,
                ).contains(x)),
        decreases more.len() - k,
    {
        let ghost before = texts(names@);
        insert_name(names, more[k].as_str());
        proof {
            assert(added[k as int] == more@[k as int]@);
            lemma_take_contains(added, k as int);
        }
        k += 1;
    }
    assert(added.take(k as int) =~= added);
}

/// Assigns the indices: the names of the repositories in the order of the
/// list, and the names of all languages and of all technology stacks that
/// the repositories name, each in ascending order. A name's index is its
/// position in its list.
pub fn create_index_map(repos: &Vec<Repository>) -> (index: (Vec<String>, Vec<String>, Vec<String>))
    ensures
        texts(index.0@) == repository_names(repos@),
        ascending(texts(index.1@)),
        forall|x: Seq<char>| texts(index.1@).contains(x) <==> names_language(repos@, x),
        ascending(texts(index.2@)),
        forall|x: Seq<char>| texts(index.2@).contains(x) <==> names_technology(repos@, x),
{
    let mut repository_name: Vec<String> = Vec::new();
    let mut language: Vec<String> = Vec::new();
    let mut technology_stack: Vec<String> = Vec::new();
    let mut p: usize = 0;
    while p < repos.len()
        invariant
            p <= repos.len(),
            repository_name@.len() == p,
            forall|q: int| 0 <= q < p ==> repository_name@[q]@ == repos@[q].name@,
            ascending(texts(language@)),
            forall|x: Seq<char>|
                texts(language@).contains(x) <==> names_language(repos@.take(p as int), x),
            ascending(texts(technology_stack@)),
            forall|x: Seq<char>|
                texts(technology_stack@).contains(x) <==> names_technology(
                    repos@.take(p as int),
                    x,
                ),
        decreases repos.len() - p,
    {
        let one = &repos[p];
        repository_name.push(one.name.clone());
        let languages = language_names_of(one);
        insert_names(&mut language, &languages);
        let stacks = technology_names_of(one);
        insert_names(&mut technology_stack, &stacks);
        proof {
            let shorter = repos@.take(p as int);
            let longer = repos@.take(p + 1);
            assert(longer[p as int] == repos@[p as int]);
            assert forall|x: Seq<char>|
                names_language(longer, x) <==> (names_language(shorter, x)
                    || one.language_names().contains(x)) by {
                if names_language(longer, x) {
                    let q = choose|q: int|
                        0 <= q < longer.len() && (#[trigger] longer[q]).language_names().contains(x);
                    if q < p {
                        assert(shorter[q] == longer[q]);
                    }
                }
                if names_language(shorter, x) {
                    let q = choose|q: int|
                        0 <= q < shorter.len() && (#[trigger] shorter[q]).language_names().contains(
                            x,
                        );
                    assert(longer[q] == shorter[q]);
                }
            }
            assert forall|x: Seq<char>|
                names_technology(longer, x) <==> (names_technology(shorter, x)
                    || one.technology_names().contains(x)) by {
                if names_technology(longer, x) {
                    let q = choose|q: int|
                        0 <= q < longer.len() && (
                        #[trigger] longer[q]).technology_names().contains(x);
                    if q < p {
                        assert(shorter[q] == longer[q]);
                    }
                }
                if names_technology(shorter, x) {
                    let q = choose|q: int|
                        0 <= q < shorter.len() && (
                        #[trigger] shorter[q]).technology_names().contains(x);
                    assert(longer[q] == shorter[q]);
                }
            }
        }
        p += 1;
    }
    assert(repos@.take(p as int) =~= repos@);
    assert(texts(repository_name@) =~= repository_names(repos@));
    (repository_name, language, technology_stack)
}

/// Whether `indices` resolves `names` against `index`: name by name, the
/// position at which `index` holds the name.
pub open spec fn resolved_names(
    indices: Seq<usize>,
    index: Seq<Seq<char>>,
    names: Seq<Seq<char>>,
) -> bool {
    &&& indices.len() == names.len()
    &&& forall|k: int|
        0 <= k < names.len() ==> (#[trigger] indices[k]) < index.len() && index[indices[k] as int]
            == names[k]
}

/// Whether every name of `names` is in `index`.
pub open spec fn all_known(index: Seq<Seq<char>>, names: Seq<Seq<char>>) -> bool {
    forall|k: int| 0 <= k < names.len() ==> index.contains(#[trigger] names[k])
}

/// Resolves `names` against the ascending list `index`; `None` where a
/// name is not in the list.
pub fn resolve_names(names: &Vec<String>, index: &Vec<String>) -> (found: Option<Vec<usize>>)
    requires
        ascending(texts(index@)),
    ensures
        match found {
            Some(indices) => resolved_names(indices@, texts(index@), texts(names@)),
            None => !all_known(texts(index@), texts(names@)),
        },
        found is Some <==> all_known(texts(index@), texts(names@)),
{
    let mut indices: Vec<usize> = Vec::new();
    let mut k: usize = 0;
    while k < names.len()
        invariant
            k <= names.len(),
            ascending(texts(index@)),
            resolved_names(indices@, texts(index@), texts(names@).take(k as int)),
        decreases names.len() - k,
    {
        match find(index, names[k].as_str()) {
            Ok(p) => {
                indices.push(p);
            },
            Err(_) => {
                assert(!texts(index@).contains(texts(names@)[k as int]));
                return None;
            },
        }
        k += 1;
    }
    assert(texts(names@).take(k as int) =~= texts(names@));
    proof {
        assert forall|m: int| 0 <= m < texts(names@).len() implies texts(index@).contains(
            #[trigger] texts(names@)[m],
        ) by {
            assert(texts(index@)[indices@[m] as int] == texts(names@)[m]);
        }
    }
    Some(indices)
}

/// Whether `one` is the repository `from` with its relations resolved
/// against `repositories`, `languages` and `technologies`.
pub open spec fn resolved(
    one: Repository,
    from: Repository,
    repositories: Seq<Seq<char>>,
    languages: Seq<Seq<char>>,
    technologies: Seq<Seq<char>>,
) -> bool {
    &&& one.name == from.name
    &&& one.html_url == from.html_url
    &&& one.homepage == from.homepage
    &&& one.community_profile == from.community_profile
    &&& one.is_resolved()
    &&& one.language_weights() == from.language_weights()
    &&& resolved_names(one.targets(EntityKind::Language), languages, from.language_names())
    &&& resolved_names(one.targets(EntityKind::Technology), technologies, from.technology_names())
    &&& resolved_names(one.targets(EntityKind::Repository), repositories, from.related_names())
}

/// The weights of one repository's languages.
fn language_weights_of(one: &Repository) -> (weights: Vec<usize>)
    requires
        one.language is StringList,
    ensures
        weights@ == one.language_weights(),
{
    let mut weights: Vec<usize> = Vec::new();
    match &one.language {
        RepositoryLanguage::StringList(list) => {
            let mut k: usize = 0;
            while k < list.len()
                invariant
                    k <= list.len(),
                    weights.len() == k,
                    forall|m: int| 0 <= m < k ==> weights@[m] == list@[m].1,
                decreases list.len() - k,
            {
                weights.push(list[k].1);
                k += 1;
            }
        },
        _ => {},
    }
    assert(weights@ =~= one.language_weights());
    weights
}

/// Pairs indices with weights.
fn pair_up(indices: &Vec<usize>, weights: &Vec<usize>) -> (pairs: Vec<(usize, usize)>)
    requires
        indices.len() == weights.len(),
    ensures
        pairs.len() == indices.len(),
        forall|k: int| 0 <= k < pairs.len() ==> pairs@[k] == (indices@[k], weights@[k]),
{
    let mut pairs: Vec<(usize, usize)> = Vec::new();
    let mut k: usize = 0;
    while k < indices.len()
        invariant
            k <= indices.len(),
            indices.len() == weights.len(),
            pairs.len() == k,
            forall|m: int| 0 <= m < k ==> pairs@[m] == (indices@[m], weights@[m]),
        decreases indices.len() - k,
    {
        pairs.push((indices[k], weights[k]));
        k += 1;
    }
    pairs
}

/// Resolves the relations of one repository. A related repository whose
/// name is not in `repositories` is an error.
fn resolve_one(
    from: Repository,
    repositories: &Vec<String>,
    languages: &Vec<String>,
    technologies: &Vec<String>,
) -> (done: Result<Repository, BuildError>)
    requires
        ascending(texts(repositories@)),
        ascending(texts(languages@)),
        ascending(texts(technologies@)),
        from.language is StringList,
        all_known(texts(languages@), from.language_names()),
        all_known(texts(technologies@), from.technology_names()),
    ensures
        match done {
            Ok(one) => resolved(
                one,
                from,
                texts(repositories@),
                texts(languages@),
                texts(technologies@),
            ),
            Err(fault) => fault == BuildError::UnknownRepository,
        },
        done is Ok <==> all_known(texts(repositories@), from.related_names()),
{
    let language_names = language_names_of(&from);
    let weights = language_weights_of(&from);
    let technology_names = technology_names_of(&from);
    let related_names = related_names_of(&from);
    let related = match resolve_names(&related_names, repositories) {
        Some(indices) => indices,
        None => {
            return Err(BuildError::UnknownRepository);
        },
    };
    let language_indices = match resolve_names(&language_names, languages) {
        Some(indices) => indices,
        None => {
            assert(false);
            return Err(BuildError::UnknownRepository);
        },
    };
    let stacks = match resolve_names(&technology_names, technologies) {
        Some(indices) => indices,
        None => {
            assert(false);
            return Err(BuildError::UnknownRepository);
        },
    };
    let pairs = pair_up(&language_indices, &weights);
    let one = Repository {
        html_url: from.html_url,
        name: from.name,
        homepage: from.homepage,
        language: RepositoryLanguage::IndexList(pairs),
        community_profile: from.community_profile,
        technology_stacks: RepositoryTechnologyStacks::IndexList(stacks),
        related_repositories: RepositoryRelatedRepositories::IndexList(related),
    };
    proof {
        assert(one.targets(EntityKind::Language) =~= language_indices@);
        assert(one.language_weights() =~= weights@);
    }
    Ok(one)
}

/// Whether every repository of `list` is related to names in
/// `repositories` only.
pub open spec fn relations_known(list: Seq<Repository>, repositories: Seq<Seq<char>>) -> bool {
    forall|p: int|
        0 <= p < list.len() ==> all_known(repositories, (#[trigger] list[p]).related_names())
}

/// Resolves the relations of every repository of `list`.
fn resolve(
    list: Vec<Repository>,
    repositories: &Vec<String>,
    languages: &Vec<String>,
    technologies: &Vec<String>,
) -> (done: Result<Vec<Repository>, BuildError>)
    requires
        ascending(texts(repositories@)),
        ascending(texts(languages@)),
        ascending(texts(technologies@)),
        forall|p: int|
            0 <= p < list@.len() ==> {
                &&& (#[trigger] list@[p]).language is StringList
                &&& all_known(texts(languages@), list@[p].language_names())
                &&& all_known(texts(technologies@), list@[p].technology_names())
            },
    ensures
        match done {
            Ok(out) => {
                &&& out@.len() == list@.len()
                &&& forall|p: int|
                    0 <= p < list@.len() ==> resolved(
                        #[trigger] out@[p],
                        list@[p],
                        texts(repositories@),
                        texts(languages@),
                        texts(technologies@),
                    )
            },
            Err(fault) => fault == BuildError::UnknownRepository,
        },
        done is Ok <==> relations_known(list@, texts(repositories@)),
{
    let ghost all = list@;
    let mut rest = list;
    let mut out: Vec<Repository> = Vec::new();
    loop
        invariant
            all == list@,
            ascending(texts(repositories@)),
            ascending(texts(languages@)),
            ascending(texts(technologies@)),
            forall|p: int|
                0 <= p < all.len() ==> {
                    &&& (#[trigger] all[p]).language is StringList
                    &&& all_known(texts(languages@), all[p].language_names())
                    &&& all_known(texts(technologies@), all[p].technology_names())
                },
            rest@.len() <= all.len(),
            rest@ == all.take(rest@.len() as int),
            out@.len() == all.len() - rest@.len(),
            forall|p: int|
                0 <= p < out@.len() ==> resolved(
                    #[trigger] out@[p],
                    all[rest@.len() + p],
                    texts(repositories@),
                    texts(languages@),
                    texts(technologies@),
                ),
            forall|p: int|
                rest@.len() <= p < all.len() ==> all_known(
                    texts(repositories@),
                    (#[trigger] all[p]).related_names(),
                ),
        decreases rest@.len(),
    {
        let ghost before = out@;
        let ghost at = rest@.len() - 1;
        let next = match rest.pop() {
            Some(next) => next,
            None => {
                return Ok(out);
            },
        };
        assert(next == all[at]);
        assert(rest@ =~= all.take(at));
        let one = match resolve_one(next, repositories, languages, technologies) {
            Ok(one) => one,
            Err(fault) => {
                return Err(fault);
            },
        };
        out.insert(0, one);
        proof {
            assert forall|p: int| 0 <= p < out@.len() implies resolved(
                #[trigger] out@[p],
                all[at + p],
                texts(repositories@),
                texts(languages@),
                texts(technologies@),
            ) by {
                if p > 0 {
                    assert(out@[p] == before[p - 1]);
                    assert(resolved(
                        before[p - 1],
                        all[at + 1 + (p - 1)],
                        texts(repositories@),
                        texts(languages@),
                        texts(technologies@),
                    ));
                }
            }
        }
    }
}

/// A copy of an optional text.
fn clone_text(text: &Option<String>) -> (copy: Option<String>)
    ensures
        copy == *text,
{
    match text {
        Some(text) => Some(text.clone()),
        None => None,
    }
}

/// What is known of the language `name`: the last entry of `info` with
/// that name.
pub open spec fn known_language(info: Seq<Language>, name: Seq<char>) -> Option<Language>
    decreases info.len(),
{
    if info.len() == 0 {
        None
    } else if info.last().name@ == name {
        Some(info.last())
    } else {
        known_language(info.drop_last(), name)
    }
}

/// What is known of the technology stack `name`: the last entry of `info`
/// with that name.
pub open spec fn known_technology(info: Seq<TechnologyStack>, name: Seq<char>) -> Option<
    TechnologyStack,
>
    decreases info.len(),
{
    if info.len() == 0 {
        None
    } else if info.last().name@ == name {
        Some(info.last())
    } else {
        known_technology(info.drop_last(), name)
    }
}

/// Whether `one` is the language `name` with what `info` knows of it.
pub open spec fn described_language(one: Language, name: Seq<char>, info: Seq<Language>) -> bool {
    &&& one.name@ == name
    &&& one.link == match known_language(info, name) {
        Some(known) => known.link,
        None => None,
    }
}

/// Whether `one` is the technology stack `name` with what `info` knows of
/// it.
pub open spec fn described_technology(
    one: TechnologyStack,
    name: Seq<char>,
    info: Seq<TechnologyStack>,
) -> bool {
    &&& one.name@ == name
    &&& one.link == match known_technology(info, name) {
        Some(known) => known.link,
        None => None,
    }
    &&& one.description == match known_technology(info, name) {
        Some(known) => known.description,
        None => None,
    }
}

/// The language `name` with what `info` knows of it.
fn describe_language(name: &String, info: &Vec<Language>) -> (one: Language)
    ensures
        described_language(one, name@, info@),
{
    let mut e: usize = info.len();
    assert(info@.take(e as int) =~= info@);
    while e > 0
        invariant
            e <= info.len(),
            known_language(info@, name@) == known_language(info@.take(e as int), name@),
        decreases e,
    {
        let ghost rest = info@.take(e as int);
        assert(rest.last() == info@[e - 1]);
        if same_name(info[e - 1].name.as_str(), name.as_str()) {
            return Language { name: info[e - 1].name.clone(), link: clone_text(&info[e - 1].link) };
        }
        assert(rest.drop_last() =~= info@.take(e - 1));
        e -= 1;
    }
    Language { name: name.clone(), link: None }
}

/// The technology stack `name` with what `info` knows of it.
fn describe_technology(name: &String, info: &Vec<TechnologyStack>) -> (one: TechnologyStack)
    ensures
        described_technology(one, name@, info@),
{
    let mut e: usize = info.len();
    assert(info@.take(e as int) =~= info@);
    while e > 0
        invariant
            e <= info.len(),
            known_technology(info@, name@) == known_technology(info@.take(e as int), name@),
        decreases e,
    {
        let ghost rest = info@.take(e as int);
        assert(rest.last() == info@[e - 1]);
        if same_name(info[e - 1].name.as_str(), name.as_str()) {
            return TechnologyStack {
                name: info[e - 1].name.clone(),
                link: clone_text(&info[e - 1].link),
                description: clone_text(&info[e - 1].description),
            };
        }
        assert(rest.drop_last() =~= info@.take(e - 1));
        e -= 1;
    }
    TechnologyStack { name: name.clone(), link: None, description: None }
}

/// The languages `names`, each with what `info` knows of it.
pub fn describe_languages(names: &Vec<String>, info: &Vec<Language>) -> (list: Vec<Language>)
    ensures
        list@.len() == names@.len(),
        forall|j: int|
            0 <= j < names@.len() ==> described_language(#[trigger] list@[j], names@[j]@, info@),
{
    let mut list: Vec<Language> = Vec::new();
    let mut j: usize = 0;
    while j < names.len()
        invariant
            j <= names.len(),
            list@.len() == j,
            forall|m: int|
                0 <= m < j ==> described_language(#[trigger] list@[m], names@[m]@, info@),
        decreases names.len() - j,
    {
        list.push(describe_language(&names[j], info));
        j += 1;
    }
    list
}

/// The technology stacks `names`, each with what `info` knows of it.
pub fn describe_technologies(names: &Vec<String>, info: &Vec<TechnologyStack>) -> (list: Vec<
    TechnologyStack,
>)
    ensures
        list@.len() == names@.len(),
        forall|j: int|
            0 <= j < names@.len() ==> described_technology(#[trigger] list@[j], names@[j]@, info@),
{
    let mut list: Vec<TechnologyStack> = Vec::new();
    let mut j: usize = 0;
    while j < names.len()
        invariant
            j <= names.len(),
            list@.len() == j,
            forall|m: int|
                0 <= m < j ==> described_technology(#[trigger] list@[m], names@[m]@, info@),
        decreases names.len() - j,
    {
        list.push(describe_technology(&names[j], info));
        j += 1;
    }
    list
}

impl FetchedRepository {
    /// The names of the languages that the source reports.
    pub open spec fn language_names(&self) -> Seq<Seq<char>> {
        Seq::new(self.languages@.len(), |k: int| self.languages@[k].0@)
    }

    /// The weights of the languages that the source reports.
    pub open spec fn language_weights(&self) -> Seq<usize> {
        Seq::new(self.languages@.len(), |k: int| self.languages@[k].1)
    }
}

/// The names of the entities of `kind` of `works`, by index.
pub open spec fn entity_names(works: &Works, kind: EntityKind) -> Seq<Seq<char>> {
    Seq::new(works.count(kind), |j: int| works.name(kind, j))
}

/// Whether some repository of `fetched` that goes into the dataset has the
/// name `x`.
pub open spec fn is_listed_name(fetched: Seq<FetchedRepository>, x: Seq<char>) -> bool {
    exists|j: int|
        0 <= j < fetched.len() && (#[trigger] fetched[j]).listed() && fetched[j].repository.name@
            == x
}

/// Whether every name that `info` relates to the repository `one` is the
/// name of a repository that goes into the dataset.
pub open spec fn related_listed(
    fetched: Seq<FetchedRepository>,
    info: &RepositoryAdditionalInformation,
    one: FetchedRepository,
) -> bool {
    let names = listed_under(info.repository_relations@, one.repository.name@);
    forall|k: int| 0 <= k < names.len() ==> is_listed_name(fetched, #[trigger] names[k])
}

/// Whether a repository that goes into the dataset is related to a name
/// that no such repository has.
pub open spec fn relates_unknown(
    fetched: Seq<FetchedRepository>,
    info: &RepositoryAdditionalInformation,
) -> bool {
    exists|i: int|
        0 <= i < fetched.len() && (#[trigger] fetched[i]).listed() && !related_listed(
            fetched,
            info,
            fetched[i],
        )
}

/// Whether a repository that goes into the dataset is reported to be
/// written in the language `x`.
pub open spec fn reports_language(fetched: Seq<FetchedRepository>, x: Seq<char>) -> bool {
    exists|i: int|
        0 <= i < fetched.len() && (#[trigger] fetched[i]).listed()
            && fetched[i].language_names().contains(x)
}

/// Whether `info` lists the technology stack `x` under a repository that
/// goes into the dataset.
pub open spec fn uses_technology(
    fetched: Seq<FetchedRepository>,
    info: &RepositoryAdditionalInformation,
    x: Seq<char>,
) -> bool {
    exists|i: int|
        0 <= i < fetched.len() && (#[trigger] fetched[i]).listed() && listed_under(
            info.technology_stacks@,
            fetched[i].repository.name@,
        ).contains(x)
}

/// Whether `one` is the repository `from` as it stands in `works`: what the
/// source reports of it, with its languages, its technology stacks and its
/// related repositories given by their indices in `works`.
pub open spec fn derives(
    one: Repository,
    from: FetchedRepository,
    info: &RepositoryAdditionalInformation,
    works: &Works,
) -> bool {
    &&& one.name == from.repository.name
    &&& one.html_url == from.repository.html_url
    &&& one.homepage == from.repository.homepage
    &&& one.community_profile == Some(from.community_profile)
    &&& one.is_resolved()
    &&& one.language_weights() == from.language_weights()
    &&& resolved_names(
        one.targets(EntityKind::Language),
        entity_names(works, EntityKind::Language),
        from.language_names(),
    )
    &&& resolved_names(
        one.targets(EntityKind::Technology),
        entity_names(works, EntityKind::Technology),
        listed_under(info.technology_stacks@, from.repository.name@),
    )
    &&& resolved_names(
        one.targets(EntityKind::Repository),
        entity_names(works, EntityKind::Repository),
        listed_under(info.repository_relations@, from.repository.name@),
    )
}

/// Whether the fetched repository `from` stands in `works`.
pub open spec fn goes_into(
    from: FetchedRepository,
    info: &RepositoryAdditionalInformation,
    works: &Works,
) -> bool {
    exists|p: int|
        0 <= p < works.repositories.len() && derives(
            #[trigger] works.repositories[p],
            from,
            info,
            works,
        )
}

/// Whether the repository `one` of `works` is one of `fetched` that goes
/// into the dataset.
pub open spec fn comes_from(
    one: Repository,
    fetched: Seq<FetchedRepository>,
    info: &RepositoryAdditionalInformation,
    works: &Works,
) -> bool {
    exists|i: int|
        0 <= i < fetched.len() && (#[trigger] fetched[i]).listed() && derives(
            one,
            fetched[i],
            info,
            works,
        )
}

/// Whether `works` is the dataset of `fetched` and `info`: its repositories
/// are those of `fetched` that have a description, in the order of their
/// names; its languages and technology stacks are those that these
/// repositories name, in the order of their names and with what `info`
/// knows of them; and every relation is resolved to indices.
pub open spec fn builds(
    fetched: Seq<FetchedRepository>,
    info: &RepositoryAdditionalInformation,
    works: &Works,
) -> bool {
    &&& ascending(entity_names(works, EntityKind::Repository))
    &&& ascending(entity_names(works, EntityKind::Language))
    &&& ascending(entity_names(works, EntityKind::Technology))
    &&& forall|i: int|
        0 <= i < fetched.len() && (#[trigger] fetched[i]).listed() ==> goes_into(
            fetched[i],
            info,
            works,
        )
    &&& forall|p: int|
        0 <= p < works.repositories.len() ==> comes_from(
            #[trigger] works.repositories[p],
            fetched,
            info,
            works,
        )
    &&& forall|x: Seq<char>| #[trigger]
        entity_names(works, EntityKind::Language).contains(x) <==> reports_language(fetched, x)
    &&& forall|x: Seq<char>| #[trigger]
        entity_names(works, EntityKind::Technology).contains(x) <==> uses_technology(
            fetched,
            info,
            x,
        )
    &&& forall|j: int|
        0 <= j < works.languages.len() ==> described_language(
            #[trigger] works.languages[j],
            works.languages[j].name@,
            info.language_info@,
        )
    &&& forall|j: int|
        0 <= j < works.technologies.len() ==> described_technology(
            #[trigger] works.technologies[j],
            works.technologies[j].name@,
            info.technology_stack_info@,
        )
}

/// Builds the dataset from what the source reports and from the additional
/// information. Repositories without a description are left out; two of
/// the others with the same name, or a relation to a name that none of them
/// has, are an error.
pub fn get_works(fetched: Vec<FetchedRepository>, info: &RepositoryAdditionalInformation) -> (built:
    Result<Works, BuildError>)
    ensures
        match built {
            Ok(works) => builds(fetched@, info, &works) && works.is_resolved(),
            Err(BuildError::DuplicateRepository) => has_duplicate(fetched@),
            Err(BuildError::UnknownRepository) => !has_duplicate(fetched@) && relates_unknown(
                fetched@,
                info,
            ),
        },
        built is Ok <==> !has_duplicate(fetched@) && !relates_unknown(fetched@, info),
{
    let kept = match select(fetched) {
        Ok(kept) => kept,
        Err(fault) => {
            return Err(fault);
        },
    };
    let ghost picked = kept@;
    let list = gather(kept, info);
    let ghost named = list@;
    let (repositories, languages, technologies) = create_index_map(&list);
    proof {
        assert(texts(repositories@) =~= fetched_names(picked)) by {
            assert forall|p: int| 0 <= p < picked.len() implies texts(repositories@)[p]
                == fetched_names(picked)[p] by {
                assert(gathered(named[p], picked[p], info));
                assert(repository_names(named)[p] == named[p].name@);
            }
        }
        assert forall|p: int| 0 <= p < named.len() implies {
            &&& (#[trigger] named[p]).language is StringList
            &&& all_known(texts(languages@), named[p].language_names())
            &&& all_known(texts(technologies@), named[p].technology_names())
        } by {
            assert(gathered(named[p], picked[p], info));
            assert forall|k: int| 0 <= k < named[p].language_names().len() implies texts(
                languages@,
            ).contains(#[trigger] named[p].language_names()[k]) by {
                assert(named[p].language_names().contains(named[p].language_names()[k]));
                assert(names_language(named, named[p].language_names()[k]));
            }
            assert forall|k: int| 0 <= k < named[p].technology_names().len() implies texts(
                technologies@,
            ).contains(#[trigger] named[p].technology_names()[k]) by {
                assert(named[p].technology_names().contains(named[p].technology_names()[k]));
                assert(names_technology(named, named[p].technology_names()[k]));
            }
        }
        lemma_relations(fetched@, picked, named, info, texts(repositories@));
    }
    let out = match resolve(list, &repositories, &languages, &technologies) {
        Ok(out) => out,
        Err(fault) => {
            return Err(fault);
        },
    };
    let languages_list = describe_languages(&languages, &info.language_info);
    let technologies_list = describe_technologies(&technologies, &info.technology_stack_info);
    let works = Works { repositories: out, languages: languages_list, technologies: technologies_list };
    proof {
        let names_r = entity_names(&works, EntityKind::Repository);
        let names_l = entity_names(&works, EntityKind::Language);
        let names_t = entity_names(&works, EntityKind::Technology);
        assert(names_l =~= texts(languages@));
        assert(names_t =~= texts(technologies@));
        assert(names_r =~= texts(repositories@)) by {
            assert forall|p: int| 0 <= p < picked.len() implies names_r[p] == texts(
                repositories@,
            )[p] by {
                assert(resolved(
                    works.repositories@[p],
                    named[p],
                    texts(repositories@),
                    texts(languages@),
                    texts(technologies@),
                ));
                assert(gathered(named[p], picked[p], info));
            }
        }
        assert forall|p: int| 0 <= p < picked.len() implies derives(
            #[trigger] works.repositories@[p],
            picked[p],
            info,
            &works,
        ) by {
            assert(resolved(
                works.repositories@[p],
                named[p],
                texts(repositories@),
                texts(languages@),
                texts(technologies@),
            ));
            assert(gathered(named[p], picked[p], info));
            assert(named[p].language_names() =~= picked[p].language_names());
            assert(named[p].language_weights() =~= picked[p].language_weights());
        }
        assert forall|i: int| 0 <= i < fetched@.len() && (#[trigger] fetched@[i]).listed() implies goes_into(
            fetched@[i],
            info,
            &works,
        ) by {
            assert(picked.contains(fetched@[i]));
            let p = choose|p: int| 0 <= p < picked.len() && picked[p] == fetched@[i];
            assert(derives(works.repositories@[p], picked[p], info, &works));
        }
        assert forall|p: int| 0 <= p < works.repositories.len() implies comes_from(
            #[trigger] works.repositories[p],
            fetched@,
            info,
            &works,
        ) by {
            assert(picked[p].listed() && fetched@.contains(picked[p]));
            let i = choose|i: int| 0 <= i < fetched@.len() && fetched@[i] == picked[p];
            assert(derives(works.repositories@[p], fetched@[i], info, &works));
        }
        assert forall|x: Seq<char>| #[trigger]
            names_l.contains(x) <==> reports_language(fetched@, x) by {
            if names_language(named, x) {
                let p = choose|p: int|
                    0 <= p < named.len() && (#[trigger] named[p]).language_names().contains(x);
                assert(gathered(named[p], picked[p], info));
                assert(named[p].language_names() =~= picked[p].language_names());
                assert(picked[p].listed() && fetched@.contains(picked[p]));
                let i = choose|i: int| 0 <= i < fetched@.len() && fetched@[i] == picked[p];
                assert(fetched@[i].listed() && fetched@[i].language_names().contains(x));
            }
            if reports_language(fetched@, x) {
                let i = choose|i: int|
                    0 <= i < fetched@.len() && (#[trigger] fetched@[i]).listed()
                        && fetched@[i].language_names().contains(x);
                assert(picked.contains(fetched@[i]));
                let p = choose|p: int| 0 <= p < picked.len() && picked[p] == fetched@[i];
                assert(gathered(named[p], picked[p], info));
                assert(named[p].language_names() =~= picked[p].language_names());
                assert(named[p].language_names().contains(x));
            }
        }
        assert forall|x: Seq<char>| #[trigger]
            names_t.contains(x) <==> uses_technology(fetched@, info, x) by {
            if names_technology(named, x) {
                let p = choose|p: int|
                    0 <= p < named.len() && (#[trigger] named[p]).technology_names().contains(x);
                assert(gathered(named[p], picked[p], info));
                assert(picked[p].listed() && fetched@.contains(picked[p]));
                let i = choose|i: int| 0 <= i < fetched@.len() && fetched@[i] == picked[p];
                assert(fetched@[i].listed() && listed_under(
                    info.technology_stacks@,
                    fetched@[i].repository.name@,
                ).contains(x));
            }
            if uses_technology(fetched@, info, x) {
                let i = choose|i: int|
                    0 <= i < fetched@.len() && (#[trigger] fetched@[i]).listed() && listed_under(
                        info.technology_stacks@,
                        fetched@[i].repository.name@,
                    ).contains(x);
                assert(picked.contains(fetched@[i]));
                let p = choose|p: int| 0 <= p < picked.len() && picked[p] == fetched@[i];
                assert(gathered(named[p], picked[p], info));
                assert(named[p].technology_names().contains(x));
            }
        }
        assert forall|j: int| 0 <= j < works.languages.len() implies described_language(
            #[trigger] works.languages[j],
            works.languages[j].name@,
            info.language_info@,
        ) by {
            assert(described_language(works.languages@[j], languages@[j]@, info.language_info@));
        }
        assert forall|j: int| 0 <= j < works.technologies.len() implies described_technology(
            #[trigger] works.technologies[j],
            works.technologies[j].name@,
            info.technology_stack_info@,
        ) by {
            assert(described_technology(
                works.technologies@[j],
                technologies@[j]@,
                info.technology_stack_info@,
            ));
        }
        assert forall|p: int| 0 <= p < works.repositories.len() implies (
        #[trigger] works.repositories[p]).is_resolved() by {
            assert(derives(works.repositories@[p], picked[p], info, &works));
        }
    }
    Ok(works)
}

/// The repositories picked from `fetched` are related to known names only
/// exactly where no repository of `fetched` that goes into the dataset is
/// related to an unknown name.
proof fn lemma_relations(
    fetched: Seq<FetchedRepository>,
    picked: Seq<FetchedRepository>,
    named: Seq<Repository>,
    info: &RepositoryAdditionalInformation,
    repositories: Seq<Seq<char>>,
)
    requires
        repositories == fetched_names(picked),
        named.len() == picked.len(),
        forall|p: int| 0 <= p < picked.len() ==> gathered(#[trigger] named[p], picked[p], info),
        forall|i: int|
            0 <= i < fetched.len() && (#[trigger] fetched[i]).listed() ==> picked.contains(fetched[i]),
        forall|p: int|
            0 <= p < picked.len() ==> (#[trigger] picked[p]).listed() && fetched.contains(picked[p]),
    ensures
        relations_known(named, repositories) <==> !relates_unknown(fetched, info),
{
    assert forall|x: Seq<char>| repositories.contains(x) <==> is_listed_name(fetched, x) by {
        if repositories.contains(x) {
            let p = choose|p: int| 0 <= p < repositories.len() && repositories[p] == x;
            assert(picked[p].listed() && fetched.contains(picked[p]));
            let j = choose|j: int| 0 <= j < fetched.len() && fetched[j] == picked[p];
            assert(fetched[j].listed() && fetched[j].repository.name@ == x);
        }
        if is_listed_name(fetched, x) {
            let j = choose|j: int|
                0 <= j < fetched.len() && (#[trigger] fetched[j]).listed()
                    && fetched[j].repository.name@ == x;
            assert(picked.contains(fetched[j]));
            let p = choose|p: int| 0 <= p < picked.len() && picked[p] == fetched[j];
            assert(repositories[p] == x);
        }
    }
    if relations_known(named, repositories) {
        assert forall|i: int| 0 <= i < fetched.len() && (#[trigger] fetched[i]).listed() implies related_listed(
            fetched,
            info,
            fetched[i],
        ) by {
            assert(picked.contains(fetched[i]));
            let p = choose|p: int| 0 <= p < picked.len() && picked[p] == fetched[i];
            assert(gathered(named[p], picked[p], info));
            assert(all_known(repositories, named[p].related_names()));
            let names = listed_under(info.repository_relations@, fetched[i].repository.name@);
            assert forall|k: int| 0 <= k < names.len() implies is_listed_name(
                fetched,
                #[trigger] names[k],
            ) by {
                assert(repositories.contains(named[p].related_names()[k]));
            }
        }
    }
    if !relates_unknown(fetched, info) {
        assert forall|p: int| 0 <= p < named.len() implies all_known(
            repositories,
            (#[trigger] named[p]).related_names(),
        ) by {
            assert(gathered(named[p], picked[p], info));
            assert(picked[p].listed() && fetched.contains(picked[p]));
            let i = choose|i: int| 0 <= i < fetched.len() && fetched[i] == picked[p];
            assert(fetched[i].listed());
            assert(related_listed(fetched, info, fetched[i]));
            let names = named[p].related_names();
            assert forall|k: int| 0 <= k < names.len() implies repositories.contains(
                #[trigger] names[k],
            ) by {
                assert(is_listed_name(fetched, names[k]));
            }
        }
    }
}

/// A dataset that was built refers to its own entities only: taken as the
/// dataset of the view, every index in every relation is within bounds.
pub proof fn lemma_built_in_bounds(
    fetched: Seq<FetchedRepository>,
    info: &RepositoryAdditionalInformation,
    works: &Works,
    data: &WorksData,
)
    requires
        builds(fetched, info, works),
        works.is_held_as(*data),
    ensures
        data.in_bounds(),
{
    assert forall|p: int| 0 <= p < data.repositories.len() implies {
        &&& all_below((#[trigger] data.repositories[p]).language_targets(), data.languages.len() as nat)
        &&& all_below(data.repositories[p].technology_stacks@, data.technologies.len() as nat)
        &&& all_below(data.repositories[p].related_repositories@, data.repositories.len() as nat)
    } by {
        let one = works.repositories[p];
        assert(works.repositories@[p].is_held_as(data.repositories@[p]));
        assert(comes_from(one, fetched, info, works));
        let i = choose|i: int|
            0 <= i < fetched.len() && (#[trigger] fetched[i]).listed() && derives(
                one,
                fetched[i],
                info,
                works,
            );
        assert(one.targets(EntityKind::Language) =~= data.repositories[p].language_targets());
        assert(one.targets(EntityKind::Technology) =~= data.repositories[p].technology_stacks@);
        assert(one.targets(EntityKind::Repository) =~= data.repositories[p].related_repositories@);
    }
}

} // verus!
