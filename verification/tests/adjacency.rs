use portfolio::adjacency::construct_connection;
use portfolio::dataset::{DatasetError, Language, Repository, TechnologyStack, WorksData};
use std::collections::BTreeSet;

fn repository_of(
    name: &str,
    language: Vec<(usize, usize)>,
    technology_stacks: Vec<usize>,
    related_repositories: Vec<usize>,
) -> Repository {
    Repository {
        html_url: format!("https://example.com/{}", name),
        name: name.to_string(),
        homepage: None,
        language,
        community_profile: None,
        technology_stacks,
        related_repositories,
    }
}

fn language_of(name: &str) -> Language {
    Language { name: name.to_string(), link: None }
}

fn technology_of(name: &str) -> TechnologyStack {
    TechnologyStack { name: name.to_string(), link: None, description: None }
}

fn set_of(members: &[usize]) -> BTreeSet<usize> {
    members.iter().copied().collect()
}

fn two_repositories() -> WorksData {
    WorksData {
        repositories: vec![
            repository_of("first", vec![(0, 5)], vec![0], vec![1]),
            repository_of("second", vec![], vec![], vec![0]),
        ],
        languages: vec![language_of("Rust")],
        technologies: vec![technology_of("WASM")],
    }
}

#[test]
fn adjacency_of_two_repositories() {
    let index = construct_connection(&two_repositories()).unwrap();
    assert_eq!(index.repository_connected_languages, vec![set_of(&[0]), set_of(&[])]);
    assert_eq!(index.repository_connected_technologies, vec![set_of(&[0]), set_of(&[])]);
    assert_eq!(index.repository_connected_repositories, vec![set_of(&[1]), set_of(&[0])]);
    assert_eq!(index.language_connected_repositories, vec![set_of(&[0])]);
    assert_eq!(index.technology_connected_repositories, vec![set_of(&[0])]);
}

#[test]
fn a_relation_recorded_from_one_end_reads_from_both() {
    let works = WorksData {
        repositories: vec![
            repository_of("a", vec![], vec![], vec![2]),
            repository_of("b", vec![], vec![], vec![]),
            repository_of("c", vec![], vec![], vec![1]),
        ],
        languages: vec![],
        technologies: vec![],
    };
    let index = construct_connection(&works).unwrap();
    assert_eq!(
        index.repository_connected_repositories,
        vec![set_of(&[2]), set_of(&[2]), set_of(&[0, 1])]
    );
}

#[test]
fn related_repositories_are_symmetric() {
    let works = WorksData {
        repositories: vec![
            repository_of("a", vec![(1, 1)], vec![0, 2], vec![3, 1, 3]),
            repository_of("b", vec![(0, 2), (1, 3)], vec![], vec![]),
            repository_of("c", vec![], vec![1], vec![2, 0]),
            repository_of("d", vec![(0, 1)], vec![2], vec![1]),
        ],
        languages: vec![language_of("x"), language_of("y")],
        technologies: vec![technology_of("p"), technology_of("q"), technology_of("r")],
    };
    let index = construct_connection(&works).unwrap();
    let n = works.repositories.len();
    for i in 0..n {
        for j in 0..n {
            assert_eq!(
                index.repository_connected_repositories[i].contains(&j),
                index.repository_connected_repositories[j].contains(&i)
            );
        }
        for j in 0..works.languages.len() {
            assert_eq!(
                index.repository_connected_languages[i].contains(&j),
                index.language_connected_repositories[j].contains(&i)
            );
        }
        for j in 0..works.technologies.len() {
            assert_eq!(
                index.repository_connected_technologies[i].contains(&j),
                index.technology_connected_repositories[j].contains(&i)
            );
        }
    }
    assert_eq!(index.repository_connected_repositories[0], set_of(&[1, 2, 3]));
    assert_eq!(index.repository_connected_repositories[2], set_of(&[0, 2]));
    assert_eq!(index.language_connected_repositories[0], set_of(&[1, 3]));
    assert_eq!(index.technology_connected_repositories[2], set_of(&[0, 3]));
}

#[test]
fn building_twice_gives_the_same_index() {
    let works = two_repositories();
    let first = construct_connection(&works).unwrap();
    let second = construct_connection(&works).unwrap();
    assert_eq!(first, second);
}

#[test]
fn an_empty_dataset_has_an_empty_index() {
    let index = construct_connection(&WorksData::default()).unwrap();
    assert!(index.repository_connected_languages.is_empty());
    assert!(index.repository_connected_technologies.is_empty());
    assert!(index.repository_connected_repositories.is_empty());
    assert!(index.language_connected_repositories.is_empty());
    assert!(index.technology_connected_repositories.is_empty());
}

#[test]
fn a_language_out_of_bounds_is_refused() {
    let mut works = two_repositories();
    works.repositories[1].language.push((1, 3));
    assert_eq!(works.validate(), Err(DatasetError::LanguageOutOfBounds));
    assert_eq!(construct_connection(&works), Err(DatasetError::LanguageOutOfBounds));
}

#[test]
fn a_technology_out_of_bounds_is_refused() {
    let mut works = two_repositories();
    works.repositories[0].technology_stacks.push(7);
    assert_eq!(works.validate(), Err(DatasetError::TechnologyOutOfBounds));
    assert_eq!(construct_connection(&works), Err(DatasetError::TechnologyOutOfBounds));
}

#[test]
fn a_related_repository_out_of_bounds_is_refused() {
    let mut works = two_repositories();
    works.repositories[1].related_repositories.push(2);
    assert_eq!(works.validate(), Err(DatasetError::RepositoryOutOfBounds));
    assert_eq!(construct_connection(&works), Err(DatasetError::RepositoryOutOfBounds));
}

#[test]
fn languages_are_looked_at_before_the_other_relations() {
    let mut works = two_repositories();
    works.repositories[0].related_repositories.push(9);
    works.repositories[0].technology_stacks.push(9);
    works.repositories[1].language.push((9, 1));
    assert_eq!(works.validate(), Err(DatasetError::LanguageOutOfBounds));
    works.repositories[1].language.clear();
    assert_eq!(works.validate(), Err(DatasetError::TechnologyOutOfBounds));
    works.repositories[0].technology_stacks.clear();
    assert_eq!(works.validate(), Err(DatasetError::RepositoryOutOfBounds));
    works.repositories[0].related_repositories.clear();
    assert_eq!(works.validate(), Ok(()));
}

#[test]
fn a_dataset_within_bounds_is_accepted() {
    assert_eq!(two_repositories().validate(), Ok(()));
    assert_eq!(WorksData::default().validate(), Ok(()));
}
