use portfolio::adjacency::construct_connection;
use portfolio::dataset::{
    CommunityProfile, CommunityProfileFiles, Language, Repository, TechnologyStack, WorksData,
};
use portfolio::detail::{empty, is_http_url, view, DetailPanel, Shortcut, ShortcutGroup};
use portfolio::selection::SelectedNode;

fn profile_saying(description: Option<&str>) -> CommunityProfile {
    CommunityProfile {
        health_percentage: 50,
        description: description.map(|d| d.to_string()),
        documentation: None,
        files: CommunityProfileFiles { license: None, readme: None },
    }
}

fn portfolio_dataset() -> WorksData {
    WorksData {
        repositories: vec![
            Repository {
                html_url: "https://example.com/site".to_string(),
                name: "site".to_string(),
                homepage: Some("https://example.com".to_string()),
                language: vec![(1, 70), (0, 30)],
                community_profile: Some(profile_saying(Some("A portfolio site."))),
                technology_stacks: vec![0],
                related_repositories: vec![2],
            },
            Repository {
                html_url: "https://example.com/tool".to_string(),
                name: "tool".to_string(),
                homepage: Some("example.com".to_string()),
                language: vec![(1, 100)],
                community_profile: Some(profile_saying(None)),
                technology_stacks: vec![],
                related_repositories: vec![],
            },
            Repository {
                html_url: "https://example.com/lib".to_string(),
                name: "lib".to_string(),
                homepage: None,
                language: vec![],
                community_profile: None,
                technology_stacks: vec![0, 1],
                related_repositories: vec![1],
            },
        ],
        languages: vec![
            Language { name: "CSS".to_string(), link: Some("http://css.example".to_string()) },
            Language { name: "Rust".to_string(), link: Some("rust-lang.org".to_string()) },
        ],
        technologies: vec![
            TechnologyStack {
                name: "WASM".to_string(),
                link: Some("https://webassembly.org/".to_string()),
                description: Some("Runs in the browser.".to_string()),
            },
            TechnologyStack {
                name: "Yew".to_string(),
                link: Some("ftp://yew.example".to_string()),
                description: None,
            },
        ],
    }
}

fn shortcut_to(target: SelectedNode, label: &str) -> Shortcut {
    Shortcut { target, label: label.to_string() }
}

fn group_of(heading: &str, shortcuts: Vec<Shortcut>) -> ShortcutGroup {
    ShortcutGroup { heading: heading.to_string(), shortcuts }
}

fn panel_for(selected: SelectedNode) -> DetailPanel {
    let works = portfolio_dataset();
    let index = construct_connection(&works).unwrap();
    view(&works, &index, selected)
}

#[test]
fn a_homepage_without_scheme_is_not_an_address() {
    assert!(!is_http_url("example.com"));
    assert!(is_http_url("https://example.com"));
}

#[test]
fn only_http_and_https_addresses_are_shown() {
    assert!(is_http_url("http://example.com"));
    assert!(is_http_url("https://"));
    assert!(is_http_url("http://"));
    assert!(is_http_url("https://example.com/a?b=c#d"));
    assert!(!is_http_url(""));
    assert!(!is_http_url("http:/example.com"));
    assert!(!is_http_url("http:"));
    assert!(!is_http_url("https:/"));
    assert!(!is_http_url("ftp://example.com"));
    assert!(!is_http_url("//example.com"));
    assert!(!is_http_url("/relative/path"));
    assert!(!is_http_url(" https://example.com"));
    assert!(!is_http_url("HTTP://example.com"));
    assert!(!is_http_url("htt"));
    assert!(!is_http_url("httpx://example.com"));
}

#[test]
fn addresses_agree_with_the_pattern() {
    let pattern = regex::Regex::new("^https?://").unwrap();
    let samples = [
        "example.com",
        "https://example.com",
        "http://example.com",
        "http//example.com",
        "https//",
        "https:/",
        "httpss://example.com",
        "see https://example.com",
        "",
        "h",
        "http://",
        "mailto:someone@example.com",
    ];
    for sample in samples {
        assert_eq!(is_http_url(sample), pattern.is_match(sample), "{}", sample);
    }
}

#[test]
fn no_selection_shows_nothing() {
    let panel = panel_for(SelectedNode::Unselected);
    assert_eq!(panel, DetailPanel::default());
    assert_eq!(panel, empty());
    assert_eq!(panel.title, "");
    assert!(panel.groups.is_empty());
}

#[test]
fn a_repository_shows_description_links_and_neighbours() {
    assert_eq!(
        panel_for(SelectedNode::Repository(0)),
        DetailPanel {
            title: "site".to_string(),
            description: Some("A portfolio site.".to_string()),
            repository: Some("https://example.com/site".to_string()),
            homepage: Some("https://example.com".to_string()),
            groups: vec![
                group_of(
                    "related languages:",
                    vec![
                        shortcut_to(SelectedNode::Language(0), "CSS"),
                        shortcut_to(SelectedNode::Language(1), "Rust"),
                    ]
                ),
                group_of(
                    "related technologies:",
                    vec![shortcut_to(SelectedNode::Technology(0), "WASM")]
                ),
                group_of(
                    "related repositories:",
                    vec![shortcut_to(SelectedNode::Repository(2), "lib")]
                ),
            ],
        }
    );
}

#[test]
fn a_homepage_that_is_no_address_is_left_out() {
    assert_eq!(
        panel_for(SelectedNode::Repository(1)),
        DetailPanel {
            title: "tool".to_string(),
            description: None,
            repository: Some("https://example.com/tool".to_string()),
            homepage: None,
            groups: vec![
                group_of(
                    "related languages:",
                    vec![shortcut_to(SelectedNode::Language(1), "Rust")]
                ),
                group_of(
                    "related repositories:",
                    vec![shortcut_to(SelectedNode::Repository(2), "lib")]
                ),
            ],
        }
    );
}

#[test]
fn a_repository_without_profile_has_no_description() {
    assert_eq!(
        panel_for(SelectedNode::Repository(2)),
        DetailPanel {
            title: "lib".to_string(),
            description: None,
            repository: Some("https://example.com/lib".to_string()),
            homepage: None,
            groups: vec![
                group_of(
                    "related technologies:",
                    vec![
                        shortcut_to(SelectedNode::Technology(0), "WASM"),
                        shortcut_to(SelectedNode::Technology(1), "Yew"),
                    ]
                ),
                group_of(
                    "related repositories:",
                    vec![
                        shortcut_to(SelectedNode::Repository(0), "site"),
                        shortcut_to(SelectedNode::Repository(1), "tool"),
                    ]
                ),
            ],
        }
    );
}

#[test]
fn a_language_shows_its_link_and_repositories() {
    assert_eq!(
        panel_for(SelectedNode::Language(0)),
        DetailPanel {
            title: "CSS".to_string(),
            description: None,
            repository: None,
            homepage: Some("http://css.example".to_string()),
            groups: vec![group_of(
                "related repositories:",
                vec![shortcut_to(SelectedNode::Repository(0), "site")]
            )],
        }
    );
    assert_eq!(
        panel_for(SelectedNode::Language(1)),
        DetailPanel {
            title: "Rust".to_string(),
            description: None,
            repository: None,
            homepage: None,
            groups: vec![group_of(
                "related repositories:",
                vec![
                    shortcut_to(SelectedNode::Repository(0), "site"),
                    shortcut_to(SelectedNode::Repository(1), "tool"),
                ]
            )],
        }
    );
}

#[test]
fn a_technology_shows_description_link_and_repositories() {
    assert_eq!(
        panel_for(SelectedNode::Technology(0)),
        DetailPanel {
            title: "WASM".to_string(),
            description: Some("Runs in the browser.".to_string()),
            repository: None,
            homepage: Some("https://webassembly.org/".to_string()),
            groups: vec![group_of(
                "related repositories:",
                vec![
                    shortcut_to(SelectedNode::Repository(0), "site"),
                    shortcut_to(SelectedNode::Repository(2), "lib"),
                ]
            )],
        }
    );
    assert_eq!(
        panel_for(SelectedNode::Technology(1)),
        DetailPanel {
            title: "Yew".to_string(),
            description: None,
            repository: None,
            homepage: None,
            groups: vec![group_of(
                "related repositories:",
                vec![shortcut_to(SelectedNode::Repository(2), "lib")]
            )],
        }
    );
}

#[test]
fn an_entity_without_neighbours_has_no_group() {
    let works = WorksData {
        repositories: vec![],
        languages: vec![Language { name: "Lonely".to_string(), link: None }],
        technologies: vec![],
    };
    let index = construct_connection(&works).unwrap();
    let panel = view(&works, &index, SelectedNode::Language(0));
    assert_eq!(panel.title, "Lonely");
    assert!(panel.groups.is_empty());
}

#[test]
fn a_selection_outside_the_dataset_shows_nothing() {
    assert_eq!(panel_for(SelectedNode::Repository(3)), DetailPanel::default());
    assert_eq!(panel_for(SelectedNode::Language(2)), DetailPanel::default());
    assert_eq!(panel_for(SelectedNode::Technology(usize::MAX)), DetailPanel::default());
}

#[test]
fn a_shortcut_leads_to_the_panel_of_its_target() {
    let panel = panel_for(SelectedNode::Repository(0));
    let shortcut = &panel.groups[2].shortcuts[0];
    let next = panel_for(shortcut.target);
    assert_eq!(next.title, shortcut.label);
}
