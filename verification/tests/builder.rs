use portfolio::adjacency::construct_connection;
use portfolio::builder::{
    create_index_map, describe_languages, describe_technologies, gather, get_additional_information,
    get_works, is_last_page, lookup, resolve_names, select, BuildError, FetchedRepository,
    RepositoryAdditionalInformation, FETCH_SIZE,
};
use portfolio::dataset::{CommunityProfile, CommunityProfileFiles, Language, TechnologyStack};
use portfolio::graph::to_graph;
use portfolio::ident::EntityKind;
use portfolio::names::{compare, find, insert_name, same_name, Order};
use portfolio::relations::simplify;
use portfolio::repository_list::{
    Repository, RepositoryLanguage, RepositoryRelatedRepositories, RepositoryTechnologyStacks, Works,
};

fn words(list: &[&str]) -> Vec<String> {
    list.iter().map(|w| w.to_string()).collect()
}

fn entry(key: &str, listed: &[&str]) -> (String, Vec<String>) {
    (key.to_string(), words(listed))
}

fn described(description: Option<&str>) -> CommunityProfile {
    CommunityProfile {
        health_percentage: 42,
        description: description.map(|d| d.to_string()),
        documentation: None,
        files: CommunityProfileFiles { license: None, readme: None },
    }
}

fn fetched(name: &str, description: Option<&str>, languages: &[(&str, usize)]) -> FetchedRepository {
    FetchedRepository {
        repository: Repository {
            html_url: format!("https://example.com/{}", name),
            name: name.to_string(),
            homepage: None,
            language: match languages.first() {
                Some((main, _)) => RepositoryLanguage::Single(main.to_string()),
                None => RepositoryLanguage::Absent,
            },
            community_profile: None,
            technology_stacks: RepositoryTechnologyStacks::Absent,
            related_repositories: RepositoryRelatedRepositories::Absent,
        },
        community_profile: described(description),
        languages: languages.iter().map(|(n, w)| (n.to_string(), *w)).collect(),
    }
}

fn resolved_repository(
    name: &str,
    description: &str,
    language: Vec<(usize, usize)>,
    technology_stacks: Vec<usize>,
    related: Vec<usize>,
) -> Repository {
    Repository {
        html_url: format!("https://example.com/{}", name),
        name: name.to_string(),
        homepage: None,
        language: RepositoryLanguage::IndexList(language),
        community_profile: Some(described(Some(description))),
        technology_stacks: RepositoryTechnologyStacks::IndexList(technology_stacks),
        related_repositories: RepositoryRelatedRepositories::IndexList(related),
    }
}

fn hand_kept() -> RepositoryAdditionalInformation {
    get_additional_information(Some(RepositoryAdditionalInformation {
        technology_stacks: vec![
            entry("site", &["Yew", "WASM"]),
            entry("tool", &["CLI"]),
            entry("hidden", &["Secret"]),
        ],
        repository_relations: vec![entry("tool", &["site"]), entry("site", &["tool", "lib"])],
        technology_stack_info: vec![
            TechnologyStack {
                name: "WASM".to_string(),
                link: Some("https://old.example".to_string()),
                description: None,
            },
            TechnologyStack {
                name: "WASM".to_string(),
                link: Some("https://webassembly.org/".to_string()),
                description: Some("Runs in the browser.".to_string()),
            },
            TechnologyStack { name: "Unused".to_string(), link: None, description: None },
        ],
        language_info: vec![Language {
            name: "Rust".to_string(),
            link: Some("https://www.rust-lang.org/".to_string()),
        }],
    }))
}

fn reported() -> Vec<FetchedRepository> {
    vec![
        fetched("tool", Some("A tool."), &[("Rust", 100)]),
        fetched("hidden", None, &[("Perl", 1)]),
        fetched("site", Some("A site."), &[("Rust", 70), ("CSS", 30)]),
        fetched("lib", Some("A library."), &[]),
    ]
}

#[test]
fn names_are_ordered_by_their_bytes() {
    assert_eq!(compare("a", "b"), Order::Less);
    assert_eq!(compare("b", "a"), Order::Greater);
    assert_eq!(compare("a", "a"), Order::Equal);
    assert_eq!(compare("", ""), Order::Equal);
    assert_eq!(compare("", "a"), Order::Less);
    assert_eq!(compare("ab", "a"), Order::Greater);
    assert_eq!(compare("B", "a"), Order::Less);
    assert_eq!(compare("Z", "a"), Order::Less);
    assert_eq!(compare("z", "\u{e9}"), Order::Less);
    assert_eq!(compare("\u{3042}", "\u{3041}"), Order::Greater);
    assert!(same_name("lib", "lib"));
    assert!(!same_name("lib", "Lib"));
}

#[test]
fn names_are_ordered_as_strings_are() {
    let samples = ["", "a", "A", "ab", "b", "a b", "\u{e9}", "\u{3042}", "z", "Zed", "10", "9"];
    for a in samples {
        for b in samples {
            let expected = if a < b {
                Order::Less
            } else if a > b {
                Order::Greater
            } else {
                Order::Equal
            };
            assert_eq!(compare(a, b), expected, "{:?} {:?}", a, b);
        }
    }
}

#[test]
fn a_name_is_found_or_placed() {
    let names = words(&["CSS", "Rust", "TypeScript"]);
    assert_eq!(find(&names, "CSS"), Ok(0));
    assert_eq!(find(&names, "TypeScript"), Ok(2));
    assert_eq!(find(&names, "C"), Err(0));
    assert_eq!(find(&names, "Go"), Err(1));
    assert_eq!(find(&names, "Zig"), Err(3));
    assert_eq!(find(&Vec::new(), "Zig"), Err(0));
}

#[test]
fn names_are_kept_in_order_and_once() {
    let mut names = Vec::new();
    assert!(insert_name(&mut names, "Rust"));
    assert!(insert_name(&mut names, "CSS"));
    assert!(!insert_name(&mut names, "Rust"));
    assert!(insert_name(&mut names, "TypeScript"));
    assert!(insert_name(&mut names, "Go"));
    assert!(!insert_name(&mut names, "CSS"));
    assert_eq!(names, words(&["CSS", "Go", "Rust", "TypeScript"]));
}

#[test]
fn a_relation_given_from_both_ends_collapses_to_one_entry() {
    let merged = simplify(vec![entry("A", &["B"]), entry("B", &["A"])]);
    assert_eq!(merged, vec![entry("A", &["B"])]);
}

#[test]
fn a_relation_is_recorded_under_the_first_name() {
    assert_eq!(simplify(vec![entry("B", &["A"])]), vec![entry("A", &["B"])]);
    assert_eq!(simplify(vec![entry("A", &["B"])]), vec![entry("A", &["B"])]);
}

#[test]
fn relations_are_merged_ordered_and_deduplicated() {
    let merged = simplify(vec![
        entry("site", &["tool", "lib", "tool", "site"]),
        entry("lib", &["tool"]),
        entry("alone", &[]),
        entry("tool", &["site", "app"]),
        entry("site", &["app"]),
    ]);
    assert_eq!(
        merged,
        vec![
            entry("app", &["site", "tool"]),
            entry("lib", &["site", "tool"]),
            entry("site", &["tool"]),
        ]
    );
}

#[test]
fn a_name_related_to_itself_is_dropped() {
    assert_eq!(simplify(vec![entry("A", &["A"])]), Vec::new());
    assert_eq!(simplify(Vec::new()), Vec::new());
}

#[test]
fn simplifying_twice_changes_nothing_more() {
    let once = simplify(vec![
        entry("c", &["a", "b"]),
        entry("a", &["c", "b", "d"]),
        entry("d", &["d", "a"]),
    ]);
    assert_eq!(
        once,
        vec![entry("a", &["b", "c", "d"]), entry("b", &["c"])]
    );
    assert_eq!(simplify(once.clone()), once);
}

#[test]
fn additional_information_is_brought_into_canonical_form() {
    let info = hand_kept();
    assert_eq!(
        info.repository_relations,
        vec![entry("lib", &["site"]), entry("site", &["tool"])]
    );
    assert_eq!(info.technology_stacks.len(), 3);
    assert_eq!(get_additional_information(None), RepositoryAdditionalInformation::default());
    assert!(RepositoryAdditionalInformation::default().repository_relations.is_empty());
}

#[test]
fn the_first_entry_with_a_key_is_looked_up() {
    let map = vec![entry("a", &["x"]), entry("b", &["y", "z"]), entry("a", &["w"])];
    assert_eq!(lookup(&map, "a"), words(&["x"]));
    assert_eq!(lookup(&map, "b"), words(&["y", "z"]));
    assert_eq!(lookup(&map, "c"), Vec::<String>::new());
}

#[test]
fn pages_end_with_one_that_is_not_full() {
    assert_eq!(FETCH_SIZE, 100);
    assert!(is_last_page(0));
    assert!(is_last_page(99));
    assert!(!is_last_page(100));
    assert!(!is_last_page(250));
}

#[test]
fn repositories_without_description_are_left_out() {
    let kept = select(reported()).unwrap();
    let names: Vec<&str> = kept.iter().map(|f| f.repository.name.as_str()).collect();
    assert_eq!(names, vec!["lib", "site", "tool"]);
    assert!(reported()[0].is_listed());
    assert!(!reported()[1].is_listed());
}

#[test]
fn two_repositories_of_one_name_are_an_error() {
    let mut twice = reported();
    twice.push(fetched("site", Some("Another site."), &[]));
    assert_eq!(select(twice.clone()), Err(BuildError::DuplicateRepository));
    assert_eq!(get_works(twice, &hand_kept()), Err(BuildError::DuplicateRepository));
}

#[test]
fn a_left_out_repository_may_share_a_name() {
    let mut shadowed = reported();
    shadowed.push(fetched("site", None, &[]));
    assert!(select(shadowed).is_ok());
}

#[test]
fn relations_are_gathered_by_name() {
    let list = gather(select(reported()).unwrap(), &hand_kept());
    assert_eq!(list.len(), 3);
    assert_eq!(list[1].name, "site");
    assert_eq!(
        list[1].language,
        RepositoryLanguage::StringList(vec![("Rust".to_string(), 70), ("CSS".to_string(), 30)])
    );
    assert_eq!(
        list[1].technology_stacks,
        RepositoryTechnologyStacks::StringList(words(&["Yew", "WASM"]))
    );
    assert_eq!(
        list[1].related_repositories,
        RepositoryRelatedRepositories::StringList(words(&["tool"]))
    );
    assert_eq!(
        list[0].related_repositories,
        RepositoryRelatedRepositories::StringList(words(&["site"]))
    );
    assert_eq!(list[2].related_repositories, RepositoryRelatedRepositories::StringList(vec![]));
    assert_eq!(list[0].community_profile, Some(described(Some("A library."))));
}

#[test]
fn indices_follow_the_order_of_names() {
    let list = gather(select(reported()).unwrap(), &hand_kept());
    let (repositories, languages, technologies) = create_index_map(&list);
    assert_eq!(repositories, words(&["lib", "site", "tool"]));
    assert_eq!(languages, words(&["CSS", "Rust"]));
    assert_eq!(technologies, words(&["CLI", "WASM", "Yew"]));
}

#[test]
fn names_resolve_to_their_positions() {
    let index = words(&["CSS", "Rust", "TypeScript"]);
    assert_eq!(resolve_names(&words(&["Rust", "CSS", "Rust"]), &index), Some(vec![1, 0, 1]));
    assert_eq!(resolve_names(&Vec::new(), &index), Some(vec![]));
    assert_eq!(resolve_names(&words(&["Rust", "Go"]), &index), None);
}

#[test]
fn entities_are_described_by_the_last_entry_of_their_name() {
    let info = hand_kept();
    assert_eq!(
        describe_technologies(&words(&["CLI", "WASM"]), &info.technology_stack_info),
        vec![
            TechnologyStack { name: "CLI".to_string(), link: None, description: None },
            TechnologyStack {
                name: "WASM".to_string(),
                link: Some("https://webassembly.org/".to_string()),
                description: Some("Runs in the browser.".to_string()),
            },
        ]
    );
    assert_eq!(
        describe_languages(&words(&["CSS", "Rust"]), &info.language_info),
        vec![
            Language { name: "CSS".to_string(), link: None },
            Language { name: "Rust".to_string(), link: Some("https://www.rust-lang.org/".to_string()) },
        ]
    );
}

#[test]
fn the_dataset_is_built_with_all_names_resolved() {
    let works = get_works(reported(), &hand_kept()).unwrap();
    assert_eq!(
        works,
        Works {
            repositories: vec![
                resolved_repository("lib", "A library.", vec![], vec![], vec![1]),
                resolved_repository("site", "A site.", vec![(1, 70), (0, 30)], vec![2, 1], vec![2]),
                resolved_repository("tool", "A tool.", vec![(1, 100)], vec![0], vec![]),
            ],
            languages: vec![
                Language { name: "CSS".to_string(), link: None },
                Language {
                    name: "Rust".to_string(),
                    link: Some("https://www.rust-lang.org/".to_string()),
                },
            ],
            technologies: vec![
                TechnologyStack { name: "CLI".to_string(), link: None, description: None },
                TechnologyStack {
                    name: "WASM".to_string(),
                    link: Some("https://webassembly.org/".to_string()),
                    description: Some("Runs in the browser.".to_string()),
                },
                TechnologyStack { name: "Yew".to_string(), link: None, description: None },
            ],
        }
    );
}

#[test]
fn a_relation_to_an_unknown_repository_is_an_error() {
    let mut info = hand_kept();
    info.repository_relations.push(entry("tool", &["nowhere"]));
    assert_eq!(get_works(reported(), &info), Err(BuildError::UnknownRepository));
    let mut info = hand_kept();
    info.repository_relations = vec![entry("lib", &["hidden"])];
    assert_eq!(get_works(reported(), &info), Err(BuildError::UnknownRepository));
}

#[test]
fn nothing_reported_builds_an_empty_dataset() {
    let works = get_works(Vec::new(), &RepositoryAdditionalInformation::default()).unwrap();
    assert!(works.repositories.is_empty());
    assert!(works.languages.is_empty());
    assert!(works.technologies.is_empty());
    assert_eq!(
        to_graph(&works),
        "graph{graph[rankdir=LR];node[style=\"filled\",color=\"lightgray\"];edge[color=\"lightgray\"];\
         subgraph language{node[shape=box];{rank=min;}}\
         subgraph repository{node[];{rank=same;}}\
         subgraph technology{node[shape=octagon];{rank=max;}}\
         }"
    );
}

#[test]
fn the_graph_is_described_with_the_identifiers_of_the_scheme() {
    let works = Works {
        repositories: vec![
            resolved_repository("first", "One.", vec![(0, 5)], vec![0], vec![1]),
            resolved_repository("second", "Two.", vec![], vec![], vec![]),
        ],
        languages: vec![Language { name: "Rust".to_string(), link: None }],
        technologies: vec![TechnologyStack {
            name: "WASM".to_string(),
            link: None,
            description: None,
        }],
    };
    assert_eq!(
        to_graph(&works),
        "graph{graph[rankdir=LR];node[style=\"filled\",color=\"lightgray\"];edge[color=\"lightgray\"];\
         subgraph language{node[shape=box];\
         language0[label=\"Rust\",id=\"language0\"];\
         {rank=min;language0;}}\
         subgraph repository{node[];\
         repository0[label=\"first\",id=\"repository0\"];\
         repository1[label=\"second\",id=\"repository1\"];\
         {rank=same;repository0;repository1;}}\
         subgraph technology{node[shape=octagon];\
         technology0[label=\"WASM\",id=\"technology0\"];\
         {rank=max;technology0;}}\
         repository0--language0[id=\"repository0_language0\"];\
         repository0--technology0[id=\"repository0_technology0\"];\
         repository0--repository1[id=\"repository0_repository1\"];\
         }"
    );
}

#[test]
fn relations_by_name_draw_no_edge() {
    let works = Works {
        repositories: vec![Repository {
            html_url: "https://example.com/raw".to_string(),
            name: "raw".to_string(),
            homepage: None,
            language: RepositoryLanguage::Single("Rust".to_string()),
            community_profile: None,
            technology_stacks: RepositoryTechnologyStacks::StringList(words(&["WASM"])),
            related_repositories: RepositoryRelatedRepositories::default(),
        }],
        languages: vec![],
        technologies: vec![],
    };
    assert_eq!(works.repositories[0].indices(EntityKind::Language), Vec::<usize>::new());
    assert_eq!(
        to_graph(&works),
        "graph{graph[rankdir=LR];node[style=\"filled\",color=\"lightgray\"];edge[color=\"lightgray\"];\
         subgraph language{node[shape=box];{rank=min;}}\
         subgraph repository{node[];repository0[label=\"raw\",id=\"repository0\"];{rank=same;repository0;}}\
         subgraph technology{node[shape=octagon];{rank=max;}}\
         }"
    );
    assert_eq!(works.into_works_data(), None);
}

#[test]
fn relations_default_to_absent() {
    assert_eq!(RepositoryTechnologyStacks::default(), RepositoryTechnologyStacks::Absent);
    assert_eq!(RepositoryRelatedRepositories::default(), RepositoryRelatedRepositories::Absent);
}

#[test]
fn a_built_dataset_is_within_bounds_and_symmetric() {
    let works = get_works(reported(), &hand_kept()).unwrap();
    let data = works.into_works_data().unwrap();
    assert_eq!(data.validate(), Ok(()));
    assert_eq!(data.repositories[1].name, "site");
    assert_eq!(data.repositories[1].language, vec![(1, 70), (0, 30)]);
    assert_eq!(data.repositories[1].technology_stacks, vec![2, 1]);
    assert_eq!(data.repositories[0].related_repositories, vec![1]);
    let index = construct_connection(&data).unwrap();
    assert!(index.repository_connected_repositories[0].contains(&1));
    assert!(index.repository_connected_repositories[1].contains(&0));
    assert!(index.repository_connected_repositories[1].contains(&2));
    assert!(index.repository_connected_repositories[2].contains(&1));
}

#[test]
fn a_merged_relation_becomes_a_single_edge() {
    let info = get_additional_information(Some(RepositoryAdditionalInformation {
        technology_stacks: vec![],
        repository_relations: vec![entry("A", &["B"]), entry("B", &["A"])],
        technology_stack_info: vec![],
        language_info: vec![],
    }));
    let works = get_works(
        vec![fetched("B", Some("Second."), &[]), fetched("A", Some("First."), &[])],
        &info,
    )
    .unwrap();
    let graph = to_graph(&works);
    assert_eq!(graph.matches("--").count(), 1);
    assert!(graph.contains("repository0--repository1[id=\"repository0_repository1\"];"));
    assert!(!graph.contains("repository1--repository0"));
    assert_eq!(
        works.repositories[0].related_repositories,
        RepositoryRelatedRepositories::IndexList(vec![1])
    );
    assert_eq!(
        works.repositories[1].related_repositories,
        RepositoryRelatedRepositories::IndexList(vec![])
    );
}
