use portfolio::ident::{edge_id, node_id, parse_node_id, EntityKind};

#[test]
fn node_identifiers_follow_the_scheme() {
    assert_eq!(node_id(EntityKind::Repository, 0), "repository0");
    assert_eq!(node_id(EntityKind::Language, 12), "language12");
    assert_eq!(node_id(EntityKind::Technology, 305), "technology305");
    assert_eq!(
        node_id(EntityKind::Repository, usize::MAX),
        format!("repository{}", usize::MAX)
    );
}

#[test]
fn edge_identifiers_follow_the_scheme() {
    assert_eq!(
        edge_id(EntityKind::Repository, 3, EntityKind::Language, 0),
        "repository3_language0"
    );
    assert_eq!(
        edge_id(EntityKind::Repository, 10, EntityKind::Technology, 7),
        "repository10_technology7"
    );
    assert_eq!(
        edge_id(EntityKind::Repository, 1, EntityKind::Repository, 2),
        "repository1_repository2"
    );
}

#[test]
fn node_identifiers_are_read_back() {
    assert_eq!(parse_node_id("repository0"), Some((EntityKind::Repository, 0)));
    assert_eq!(parse_node_id("language42"), Some((EntityKind::Language, 42)));
    assert_eq!(parse_node_id("technology007"), Some((EntityKind::Technology, 7)));
    assert_eq!(parse_node_id("repository"), None);
    assert_eq!(parse_node_id("repository1_language2"), None);
    assert_eq!(parse_node_id("node3"), None);
    assert_eq!(parse_node_id(""), None);
    assert_eq!(parse_node_id("repository-1"), None);
    assert_eq!(parse_node_id("xrepository1"), None);
    assert_eq!(parse_node_id("repository1 "), None);
    assert_eq!(parse_node_id("Repository1"), None);
}

#[test]
fn every_node_identifier_reads_back_as_its_node() {
    let kinds = [EntityKind::Repository, EntityKind::Language, EntityKind::Technology];
    let indices = [0usize, 1, 9, 10, 99, 100, 12345, usize::MAX - 1, usize::MAX];
    for kind in kinds {
        for index in indices {
            let id = node_id(kind, index);
            assert_eq!(parse_node_id(&id), Some((kind, index)));
        }
    }
}

#[test]
fn an_index_beyond_the_machine_word_names_no_node() {
    let too_large = format!("repository{}0", usize::MAX);
    assert_eq!(parse_node_id(&too_large), None);
    let just_fits = format!("language{}", usize::MAX);
    assert_eq!(parse_node_id(&just_fits), Some((EntityKind::Language, usize::MAX)));
    let one_more = format!("language{}", (usize::MAX as u128) + 1);
    assert_eq!(parse_node_id(&one_more), None);
}

#[test]
fn node_identifiers_agree_with_the_pattern() {
    let pattern =
        regex::Regex::new("^(?P<type>repository|language|technology)(?P<index>\\d+)$").unwrap();
    let samples = [
        "repository0",
        "repository12",
        "language3",
        "technology44",
        "technology",
        "language",
        "repository_1",
        "repository1_repository2",
        "graph0",
        "node1",
        "edge7",
        "",
        "0",
        "language3x",
        " language3",
        "repository01",
    ];
    for sample in samples {
        let parsed = parse_node_id(sample);
        match pattern.captures(sample) {
            Some(found) => {
                let kind = match &found["type"] {
                    "repository" => EntityKind::Repository,
                    "language" => EntityKind::Language,
                    _ => EntityKind::Technology,
                };
                let index: usize = found["index"].parse().unwrap();
                assert_eq!(parsed, Some((kind, index)), "{}", sample);
            }
            None => assert_eq!(parsed, None, "{}", sample),
        }
    }
}
