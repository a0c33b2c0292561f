use portfolio::dataset::{DatasetError, Language, Repository, TechnologyStack, WorksData};
use portfolio::detail::DetailPanel;
use portfolio::graphic::{BindingError, Graphic, GraphicElement};
use portfolio::highlight::Color;
use portfolio::ident::EntityKind;
use portfolio::selection::{select, SelectedNode};
use portfolio::works::{Effect, WorkMessage, Works};

fn plain_repository(name: &str, related: Vec<usize>) -> Repository {
    Repository {
        html_url: format!("https://example.com/{}", name),
        name: name.to_string(),
        homepage: None,
        language: vec![(0, 5)],
        community_profile: None,
        technology_stacks: vec![0],
        related_repositories: related,
    }
}

fn view_dataset() -> WorksData {
    WorksData {
        repositories: vec![plain_repository("first", vec![1]), plain_repository("second", vec![])],
        languages: vec![Language { name: "Rust".to_string(), link: None }],
        technologies: vec![TechnologyStack {
            name: "WASM".to_string(),
            link: None,
            description: None,
        }],
    }
}

fn view_graphic() -> Graphic {
    let ids = [
        "",
        "repository0",
        "repository1",
        "language0",
        "technology0",
        "repository0_language0",
        "repository1_language0",
        "repository0_technology0",
        "repository1_technology0",
        "repository0_repository1",
    ];
    Graphic {
        elements: ids
            .iter()
            .enumerate()
            .map(|(i, id)| GraphicElement {
                id: id.to_string(),
                parent: if i == 0 { None } else { Some(0) },
            })
            .collect(),
    }
}

fn loaded_view() -> Works {
    let mut view = Works::create();
    assert_eq!(view.update(WorkMessage::FetchWorksData(view_dataset())), Effect::Render);
    assert_eq!(view.update(WorkMessage::FetchWorksSvg("<svg/>".to_string())), Effect::Render);
    view
}

fn bound_view() -> Works {
    let mut view = loaded_view();
    assert!(view.render_svg(true, false).is_some());
    view.set_action(&view_graphic()).unwrap();
    view
}

#[test]
fn a_new_view_is_empty() {
    let view = Works::create();
    assert_eq!(view.selected_node(), SelectedNode::Unselected);
    assert!(view.works_data().is_none());
    assert!(view.binding().is_none());
    assert!(view.coloring().is_empty());
    assert_eq!(view.view(), DetailPanel::default());
    assert!(view.render_svg(true, false).is_none());
}

#[test]
fn selecting_changes_the_selection() {
    assert_eq!(
        select(SelectedNode::Unselected, SelectedNode::Language(3)),
        (SelectedNode::Language(3), true)
    );
    assert_eq!(
        select(SelectedNode::Language(3), SelectedNode::Repository(3)),
        (SelectedNode::Repository(3), true)
    );
    assert_eq!(
        select(SelectedNode::Repository(3), SelectedNode::Repository(3)),
        (SelectedNode::Repository(3), false)
    );
    assert_eq!(
        select(SelectedNode::Technology(1), SelectedNode::Unselected),
        (SelectedNode::Unselected, true)
    );
}

#[test]
fn selecting_the_selected_repository_again_repaints_once() {
    let mut view = bound_view();
    let mut repaints = 0;
    for _ in 0..2 {
        if view.update(WorkMessage::UpdateSelectedNode(SelectedNode::Repository(0)))
            == Effect::Repaint
        {
            repaints += 1;
        }
    }
    assert_eq!(repaints, 1);
    assert_eq!(view.selected_node(), SelectedNode::Repository(0));
}

#[test]
fn selecting_the_selected_node_again_changes_nothing() {
    let mut view = bound_view();
    assert_eq!(
        view.update(WorkMessage::UpdateSelectedNode(SelectedNode::Language(0))),
        Effect::Repaint
    );
    let before = view.clone();
    assert_eq!(
        view.update(WorkMessage::UpdateSelectedNode(SelectedNode::Language(0))),
        Effect::Nothing
    );
    assert_eq!(view, before);
    assert_eq!(view.coloring(), before.coloring());
    assert_eq!(view.view(), before.view());
}

#[test]
fn selecting_nothing_at_the_start_changes_nothing() {
    let mut view = Works::create();
    assert_eq!(
        view.update(WorkMessage::UpdateSelectedNode(SelectedNode::Unselected)),
        Effect::Nothing
    );
    assert_eq!(view, Works::create());
}

#[test]
fn an_empty_message_changes_nothing() {
    let mut view = bound_view();
    let before = view.clone();
    assert_eq!(view.update(WorkMessage::Nothing), Effect::Nothing);
    assert_eq!(view, before);
}

#[test]
fn selecting_another_node_moves_the_selection() {
    let mut view = bound_view();
    assert_eq!(
        view.update(WorkMessage::UpdateSelectedNode(SelectedNode::Repository(0))),
        Effect::Repaint
    );
    assert_eq!(
        view.update(WorkMessage::UpdateSelectedNode(SelectedNode::Repository(1))),
        Effect::Repaint
    );
    assert_eq!(view.selected_node(), SelectedNode::Repository(1));
    assert_eq!(view.view().title, "second");
    let colors: Vec<Color> = view.coloring().iter().map(|p| p.color).collect();
    assert_eq!(
        colors,
        vec![
            Color::Secondary,
            Color::Primary,
            Color::Secondary,
            Color::Secondary,
            Color::Inactive,
            Color::Inactive,
            Color::Edge,
            Color::Edge,
            Color::Edge,
        ]
    );
    let elements: Vec<usize> = view.coloring().iter().map(|p| p.element).collect();
    assert_eq!(elements, vec![1, 2, 3, 4, 5, 7, 9, 6, 8]);
}

#[test]
fn the_resources_may_arrive_in_either_order() {
    let mut data_first = Works::create();
    assert_eq!(data_first.update(WorkMessage::FetchWorksData(view_dataset())), Effect::Render);
    assert!(data_first.render_svg(true, false).is_none());
    assert_eq!(data_first.update(WorkMessage::FetchWorksSvg("<svg/>".to_string())), Effect::Render);
    assert_eq!(data_first.render_svg(true, false), Some(&"<svg/>".to_string()));

    let mut graphic_first = Works::create();
    assert_eq!(
        graphic_first.update(WorkMessage::FetchWorksSvg("<svg/>".to_string())),
        Effect::Render
    );
    assert!(graphic_first.render_svg(true, false).is_none());
    assert_eq!(graphic_first.update(WorkMessage::FetchWorksData(view_dataset())), Effect::Render);
    assert_eq!(graphic_first.render_svg(true, false), Some(&"<svg/>".to_string()));
    assert_eq!(data_first, graphic_first);
}

#[test]
fn nothing_is_rendered_into_a_missing_host() {
    let view = loaded_view();
    assert!(view.render_svg(false, false).is_none());
    assert!(view.render_svg(false, true).is_none());
}

#[test]
fn the_graphic_is_rendered_once() {
    let mut view = loaded_view();
    let mut insertions = 0;
    let mut listeners = 0;
    let mut host_has_child = false;
    for _ in 0..3 {
        if view.render_svg(true, host_has_child).is_some() {
            listeners += view.set_action(&view_graphic()).unwrap().len();
            insertions += 1;
            host_has_child = true;
        }
    }
    assert_eq!(insertions, 1);
    assert_eq!(listeners, 4);
    assert!(view.render_svg(true, true).is_none());
    assert!(view.render_svg(true, false).is_none());
}

#[test]
fn a_host_that_holds_something_is_left_alone() {
    let view = loaded_view();
    assert!(view.render_svg(true, true).is_none());
}

#[test]
fn binding_lists_the_nodes_that_take_a_listener() {
    let mut view = loaded_view();
    assert_eq!(view.set_action(&view_graphic()), Ok(vec![1, 2, 3, 4]));
    let table = view.binding().unwrap();
    assert_eq!(table.repository_nodes, vec![1, 2]);
    assert_eq!(table.repository_repository_edges[0].get(&1), Some(&9));
}

#[test]
fn binding_without_a_dataset_fails() {
    let mut view = Works::create();
    assert_eq!(view.set_action(&view_graphic()), Err(BindingError::DatasetMissing));
    assert_eq!(view, Works::create());
}

#[test]
fn binding_a_graphic_that_lacks_an_element_fails() {
    let mut view = loaded_view();
    let before = view.clone();
    let mut graphic = view_graphic();
    graphic.elements[3].id = "".to_string();
    assert_eq!(
        view.set_action(&graphic),
        Err(BindingError::MissingNode { kind: EntityKind::Language, index: 0 })
    );
    assert_eq!(view, before);
    assert!(view.coloring().is_empty());
}

#[test]
fn a_dataset_out_of_bounds_is_rejected_when_it_arrives() {
    let mut works = view_dataset();
    works.repositories[1].related_repositories.push(2);
    let mut view = Works::create();
    assert_eq!(
        view.update(WorkMessage::FetchWorksData(works)),
        Effect::Rejected(DatasetError::RepositoryOutOfBounds)
    );
    assert_eq!(view, Works::create());

    let mut works = view_dataset();
    works.repositories[0].language.push((1, 1));
    assert_eq!(
        view.update(WorkMessage::FetchWorksData(works)),
        Effect::Rejected(DatasetError::LanguageOutOfBounds)
    );
    let mut works = view_dataset();
    works.repositories[0].technology_stacks.push(1);
    assert_eq!(
        view.update(WorkMessage::FetchWorksData(works)),
        Effect::Rejected(DatasetError::TechnologyOutOfBounds)
    );
    assert!(view.works_data().is_none());
}

#[test]
fn the_dataset_is_indexed_when_it_arrives() {
    let view = loaded_view();
    assert_eq!(view.works_data(), Some(&view_dataset()));
    let index = view.adjacency();
    assert!(index.repository_connected_repositories[1].contains(&0));
    assert!(index.repository_connected_repositories[0].contains(&1));
    assert!(index.language_connected_repositories[0].contains(&1));
}

#[test]
fn before_binding_there_is_nothing_to_paint() {
    let mut view = loaded_view();
    assert_eq!(
        view.update(WorkMessage::UpdateSelectedNode(SelectedNode::Repository(0))),
        Effect::Repaint
    );
    assert!(view.coloring().is_empty());
    assert!(view.reset_all_color().is_empty());
    assert_eq!(view.view().title, "first");
}

#[test]
fn resetting_makes_every_bound_element_inactive() {
    let mut view = bound_view();
    view.update(WorkMessage::UpdateSelectedNode(SelectedNode::Repository(0)));
    let plan = view.reset_all_color();
    let elements: Vec<usize> = plan.iter().map(|p| p.element).collect();
    assert_eq!(elements, vec![1, 2, 3, 4, 5, 7, 9, 6, 8]);
    assert!(plan.iter().all(|p| p.color == Color::Inactive));
}
