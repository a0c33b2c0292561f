use portfolio::adjacency::construct_connection;
use portfolio::dataset::{Language, Repository, TechnologyStack, WorksData};
use portfolio::graphic::{construct_elements, Graphic, GraphicElement};
use portfolio::highlight::{coloring, reset_all_color, Color, Paint};
use portfolio::selection::SelectedNode;

fn drawn(id: &str) -> GraphicElement {
    GraphicElement { id: id.to_string(), parent: Some(0) }
}

fn repository_with(
    language: Vec<(usize, usize)>,
    technology_stacks: Vec<usize>,
    related_repositories: Vec<usize>,
) -> Repository {
    Repository {
        html_url: "https://example.com/repository".to_string(),
        name: "repository".to_string(),
        homepage: None,
        language,
        community_profile: None,
        technology_stacks,
        related_repositories,
    }
}

fn works_of(repositories: Vec<Repository>, languages: usize, technologies: usize) -> WorksData {
    WorksData {
        repositories,
        languages: (0..languages)
            .map(|i| Language { name: format!("language {}", i), link: None })
            .collect(),
        technologies: (0..technologies)
            .map(|i| TechnologyStack {
                name: format!("technology {}", i),
                link: None,
                description: None,
            })
            .collect(),
    }
}

fn graphic_of(ids: &[&str]) -> Graphic {
    let mut elements = vec![GraphicElement { id: String::new(), parent: None }];
    for id in ids {
        elements.push(drawn(id));
    }
    Graphic { elements }
}

fn paint(element: usize, color: Color) -> Paint {
    Paint { element, color }
}

fn mutual() -> (WorksData, Graphic) {
    let works = works_of(
        vec![
            repository_with(vec![(0, 5)], vec![0], vec![1]),
            repository_with(vec![], vec![], vec![0]),
        ],
        1,
        1,
    );
    let graphic = graphic_of(&[
        "repository0",             // 1
        "repository1",             // 2
        "language0",               // 3
        "technology0",             // 4
        "repository0_language0",   // 5
        "repository0_technology0", // 6
        "repository0_repository1", // 7
        "repository1_repository0", // 8
    ]);
    (works, graphic)
}

fn plan_for(works: &WorksData, graphic: &Graphic, selected: SelectedNode) -> Vec<Paint> {
    let index = construct_connection(works).unwrap();
    let table = construct_elements(works, graphic).unwrap();
    coloring(works, &index, &table, selected)
}

#[test]
fn stroke_names() {
    assert_eq!(Color::Inactive.name(), "lightgray");
    assert_eq!(Color::Primary.name(), "forestgreen");
    assert_eq!(Color::Secondary.name(), "black");
    assert_eq!(Color::Edge.name(), "black");
}

#[test]
fn nothing_selected_leaves_everything_inactive() {
    let (works, graphic) = mutual();
    let plan = plan_for(&works, &graphic, SelectedNode::Unselected);
    let elements: Vec<usize> = plan.iter().map(|p| p.element).collect();
    assert_eq!(elements, vec![1, 2, 3, 4, 5, 6, 7, 8]);
    assert!(plan.iter().all(|p| p.color == Color::Inactive));
    let index = construct_connection(&works).unwrap();
    let table = construct_elements(&works, &graphic).unwrap();
    assert_eq!(reset_all_color(&works, &index, &table), plan);
}

#[test]
fn a_selected_repository_lights_its_neighbours() {
    let (works, graphic) = mutual();
    assert_eq!(
        plan_for(&works, &graphic, SelectedNode::Repository(0)),
        vec![
            paint(1, Color::Primary),
            paint(2, Color::Secondary),
            paint(3, Color::Secondary),
            paint(4, Color::Secondary),
            paint(5, Color::Edge),
            paint(6, Color::Edge),
            paint(7, Color::Edge),
            paint(8, Color::Inactive),
        ]
    );
}

#[test]
fn of_two_mutual_edges_the_one_of_the_selection_is_lit() {
    let (works, graphic) = mutual();
    assert_eq!(
        plan_for(&works, &graphic, SelectedNode::Repository(1)),
        vec![
            paint(1, Color::Secondary),
            paint(2, Color::Primary),
            paint(3, Color::Inactive),
            paint(4, Color::Inactive),
            paint(5, Color::Inactive),
            paint(6, Color::Inactive),
            paint(7, Color::Inactive),
            paint(8, Color::Edge),
        ]
    );
}

#[test]
fn an_edge_recorded_from_the_other_end_is_lit() {
    let works = works_of(
        vec![repository_with(vec![], vec![], vec![1]), repository_with(vec![], vec![], vec![])],
        0,
        0,
    );
    let graphic = graphic_of(&["repository0", "repository1", "repository0_repository1"]);
    assert_eq!(
        plan_for(&works, &graphic, SelectedNode::Repository(1)),
        vec![paint(1, Color::Secondary), paint(2, Color::Primary), paint(3, Color::Edge)]
    );
    assert_eq!(
        plan_for(&works, &graphic, SelectedNode::Repository(0)),
        vec![paint(1, Color::Primary), paint(2, Color::Secondary), paint(3, Color::Edge)]
    );
}

#[test]
fn a_selected_language_lights_its_repositories() {
    let (works, graphic) = mutual();
    assert_eq!(
        plan_for(&works, &graphic, SelectedNode::Language(0)),
        vec![
            paint(1, Color::Secondary),
            paint(2, Color::Inactive),
            paint(3, Color::Primary),
            paint(4, Color::Inactive),
            paint(5, Color::Edge),
            paint(6, Color::Inactive),
            paint(7, Color::Inactive),
            paint(8, Color::Inactive),
        ]
    );
}

#[test]
fn a_selected_technology_lights_its_repositories() {
    let (works, graphic) = mutual();
    assert_eq!(
        plan_for(&works, &graphic, SelectedNode::Technology(0)),
        vec![
            paint(1, Color::Secondary),
            paint(2, Color::Inactive),
            paint(3, Color::Inactive),
            paint(4, Color::Primary),
            paint(5, Color::Inactive),
            paint(6, Color::Edge),
            paint(7, Color::Inactive),
            paint(8, Color::Inactive),
        ]
    );
}

#[test]
fn a_repository_related_to_itself_is_secondary() {
    let works = works_of(vec![repository_with(vec![], vec![], vec![0])], 0, 0);
    let graphic = graphic_of(&["repository0", "repository0_repository0"]);
    assert_eq!(
        plan_for(&works, &graphic, SelectedNode::Repository(0)),
        vec![paint(1, Color::Secondary), paint(2, Color::Edge)]
    );
}

#[test]
fn a_relation_listed_twice_is_painted_twice() {
    let works = works_of(
        vec![repository_with(vec![(0, 1), (0, 2)], vec![], vec![])],
        1,
        0,
    );
    let graphic = graphic_of(&["repository0", "language0", "repository0_language0"]);
    assert_eq!(
        plan_for(&works, &graphic, SelectedNode::Language(0)),
        vec![
            paint(1, Color::Secondary),
            paint(2, Color::Primary),
            paint(3, Color::Edge),
            paint(3, Color::Edge),
        ]
    );
}

#[test]
fn a_selection_outside_the_dataset_lights_nothing() {
    let (works, graphic) = mutual();
    for selected in [
        SelectedNode::Repository(2),
        SelectedNode::Language(1),
        SelectedNode::Technology(usize::MAX),
    ] {
        let plan = plan_for(&works, &graphic, selected);
        assert_eq!(plan.len(), 8);
        assert!(plan.iter().all(|p| p.color == Color::Inactive));
    }
}

#[test]
fn the_same_selection_gives_the_same_highlight() {
    let (works, graphic) = mutual();
    for selected in [
        SelectedNode::Unselected,
        SelectedNode::Repository(0),
        SelectedNode::Repository(1),
        SelectedNode::Language(0),
        SelectedNode::Technology(0),
    ] {
        assert_eq!(plan_for(&works, &graphic, selected), plan_for(&works, &graphic, selected));
    }
}
