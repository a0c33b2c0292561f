//! The detail panel: what is shown of the selected node.
//!
//! The panel is a function of the selection, the dataset and its adjacency
//! index. It names the node, gives its description and links, and offers a
//! shortcut to every adjacent node, grouped by kind and in ascending index
//! order.

use vstd::prelude::*;
use std::collections::BTreeSet;
use crate::adjacency::AdjacencyIndex;
use crate::dataset::{text_of, WorksData};
use crate::ident::EntityKind;
use crate::selection::SelectedNode;
use crate::text::{has_word_at, starts_with, to_chars};

verus! {

/// A shortcut to an adjacent node: activating it selects `target`.
#[derive(Debug, Clone, PartialEq)]
pub struct Shortcut {
    pub target: SelectedNode,
    pub label: String,
}

/// A headed group of shortcuts to the adjacent nodes of one kind.
#[derive(Debug, Clone, PartialEq)]
pub struct ShortcutGroup {
    pub heading: String,
    pub shortcuts: Vec<Shortcut>,
}

/// The content of the detail panel.
#[derive(Debug, Default, Clone, PartialEq)]
pub struct DetailPanel {
    /// The name of the selected node; empty while nothing is selected.
    pub title: String,
    /// The free-text description, where the node has one.
    pub description: Option<String>,
    /// The canonical address of a selected repository.
    pub repository: Option<String>,
    /// The homepage, where the node has one that is an absolute http or
    /// https address.
    pub homepage: Option<String>,
    /// One group for each kind of which the node has adjacent nodes.
    pub groups: Vec<ShortcutGroup>,
}

/// What a shortcut shows.
pub struct ShortcutView {
    pub target: SelectedNode,
    pub label: Seq<char>,
}

/// What a group shows.
pub struct GroupView {
    pub heading: Seq<char>,
    pub shortcuts: Seq<ShortcutView>,
}

/// What a panel shows.
pub struct PanelView {
    pub title: Seq<char>,
    pub description: Option<Seq<char>>,
    pub repository: Option<Seq<char>>,
    pub homepage: Option<Seq<char>>,
    pub groups: Seq<GroupView>,
}

impl View for Shortcut {
    type V = ShortcutView;

    open spec fn view(&self) -> ShortcutView {
        ShortcutView { target: self.target, label: self.label@ }
    }
}

impl View for ShortcutGroup {
    type V = GroupView;

    open spec fn view(&self) -> GroupView {
        GroupView {
            heading: self.heading@,
            shortcuts: Seq::new(self.shortcuts@.len(), |p: int| self.shortcuts@[p]@),
        }
    }
}

impl View for DetailPanel {
    type V = PanelView;

    open spec fn view(&self) -> PanelView {
        PanelView {
            title: self.title@,
            description: text_of(self.description),
            repository: text_of(self.repository),
            homepage: text_of(self.homepage),
            groups: Seq::new(self.groups@.len(), |p: int| self.groups@[p]@),
        }
    }
}

/// Whether `url` is an absolute http or https address: it begins with
/// `http://` or with `https://`.
pub open spec fn has_http_scheme(url: Seq<char>) -> bool {
    starts_with(url, "http://"@) || starts_with(url, "https://"@)
}

/// The homepage link that is shown for the address `url`: the address
/// itself where it is an absolute http or https address, and none otherwise.
pub open spec fn shown_link(url: Option<String>) -> Option<Seq<char>> {
    match url {
        Some(url) => if has_http_scheme(url@) {
            Some(url@)
        } else {
            None
        },
        None => None,
    }
}

/// The members of `set` below `bound`, in ascending order.
pub open spec fn members_below(set: Set<usize>, bound: nat) -> Seq<usize>
    decreases bound,
{
    if bound == 0 {
        Seq::empty()
    } else if set.contains((bound - 1) as usize) {
        members_below(set, (bound - 1) as nat).push((bound - 1) as usize)
    } else {
        members_below(set, (bound - 1) as nat)
    }
}

/// The shortcuts to the members of `set` among the first `bound` entities
/// of `kind`, in ascending index order, each labelled with its entity's
/// name.
pub open spec fn shortcut_views(
    works: &WorksData,
    set: Set<usize>,
    kind: EntityKind,
    bound: nat,
) -> Seq<ShortcutView> {
    let members = members_below(set, bound);
    Seq::new(
        members.len(),
        |p: int|
            ShortcutView {
                target: SelectedNode::of(kind, members[p]),
                label: works.name(kind, members[p] as int),
            },
    )
}

/// The group with `heading` for the adjacent entities of `kind`, left out
/// where there are none.
pub open spec fn group_views(
    works: &WorksData,
    heading: Seq<char>,
    set: Set<usize>,
    kind: EntityKind,
) -> Seq<GroupView> {
    let shortcuts = shortcut_views(works, set, kind, works.count(kind));
    if shortcuts.len() > 0 {
        seq![GroupView { heading, shortcuts }]
    } else {
        Seq::empty()
    }
}

/// The adjacency set of the entity `i` in `sets`; empty where `sets` has
/// no set for it.
pub open spec fn set_at(sets: Seq<BTreeSet<usize>>, i: usize) -> Set<usize> {
    if i < sets.len() {
        sets[i as int]@
    } else {
        Set::empty()
    }
}

/// The panel without content.
pub open spec fn empty_panel() -> PanelView {
    PanelView {
        title: Seq::empty(),
        description: None,
        repository: None,
        homepage: None,
        groups: Seq::empty(),
    }
}

/// What the panel shows for `selected`. A selection that names no entity of
/// the dataset shows nothing, as no selection does.
pub open spec fn detail_of(works: &WorksData, index: &AdjacencyIndex, selected: SelectedNode) -> PanelView {
    match selected {
        SelectedNode::Repository(i) => if i < works.repositories.len() {
            let repository = works.repositories[i as int];
            PanelView {
                title: repository.name@,
                description: repository.description_text(),
                repository: Some(repository.html_url@),
                homepage: shown_link(repository.homepage),
                groups: group_views(
                    works,
                    "related languages:"@,
                    set_at(index.repository_connected_languages@, i),
                    EntityKind::Language,
                ) + group_views(
                    works,
                    "related technologies:"@,
                    set_at(index.repository_connected_technologies@, i),
                    EntityKind::Technology,
                ) + group_views(
                    works,
                    "related repositories:"@,
                    set_at(index.repository_connected_repositories@, i),
                    EntityKind::Repository,
                ),
            }
        } else {
            empty_panel()
        },
        SelectedNode::Language(i) => if i < works.languages.len() {
            let language = works.languages[i as int];
            PanelView {
                title: language.name@,
                description: None,
                repository: None,
                homepage: shown_link(language.link),
                groups: group_views(
                    works,
                    "related repositories:"@,
                    set_at(index.language_connected_repositories@, i),
                    EntityKind::Repository,
                ),
            }
        } else {
            empty_panel()
        },
        SelectedNode::Technology(i) => if i < works.technologies.len() {
            let technology = works.technologies[i as int];
            PanelView {
                title: technology.name@,
                description: text_of(technology.description),
                repository: None,
                homepage: shown_link(technology.link),
                groups: group_views(
                    works,
                    "related repositories:"@,
                    set_at(index.technology_connected_repositories@, i),
                    EntityKind::Repository,
                ),
            }
        } else {
            empty_panel()
        },
        SelectedNode::Unselected => empty_panel(),
    }
}

/// Every member of `members_below` is a member of the set, below the bound.
pub proof fn lemma_members_below(set: Set<usize>, bound: nat, p: int)
    requires
        bound <= usize::MAX + 1,
        0 <= p < members_below(set, bound).len(),
    ensures
        set.contains(members_below(set, bound)[p]),
        members_below(set, bound)[p] < bound,
        p > 0 ==> members_below(set, bound)[p - 1] < members_below(set, bound)[p],
    decreases bound,
{
    if bound > 0 {
        let listed = members_below(set, bound);
        let shorter = members_below(set, (bound - 1) as nat);
        if p < shorter.len() {
            lemma_members_below(set, (bound - 1) as nat, p);
            assert(listed[p] == shorter[p]);
            if p > 0 {
                assert(listed[p - 1] == shorter[p - 1]);
            }
        } else {
            assert(listed[p] == bound - 1);
            if p > 0 {
                lemma_members_below(set, (bound - 1) as nat, p - 1);
                assert(listed[p - 1] == shorter[p - 1]);
            }
        }
    }
}

/// Every member of the set below the bound is listed by `members_below`.
pub proof fn lemma_members_below_complete(set: Set<usize>, bound: nat, member: usize)
    requires
        set.contains(member),
        member < bound,
    ensures
        members_below(set, bound).contains(member),
    decreases bound,
{
    let listed = members_below(set, bound);
    if member == bound - 1 {
        assert(listed[listed.len() - 1] == member);
    } else {
        lemma_members_below_complete(set, (bound - 1) as nat, member);
        let shorter = members_below(set, (bound - 1) as nat);
        let p = choose|p: int| 0 <= p < shorter.len() && shorter[p] == member;
        assert(listed[p] == member);
    }
}

/// In the index of a dataset whose relations are within bounds, a group is
/// shown exactly for the adjacency sets that are not empty.
pub proof fn lemma_group_shown_if_populated(
    works: &WorksData,
    heading: Seq<char>,
    set: Set<usize>,
    kind: EntityKind,
)
    requires
        forall|member: usize| set.contains(member) ==> member < works.count(kind),
    ensures
        group_views(works, heading, set, kind).len() > 0 <==> exists|member: usize|
            set.contains(member),
{
    let bound = works.count(kind);
    let listed = members_below(set, bound);
    if listed.len() > 0 {
        lemma_members_below(set, bound, 0);
        assert(set.contains(listed[0]));
    }
    if exists|member: usize| set.contains(member) {
        let member = choose|member: usize| set.contains(member);
        lemma_members_below_complete(set, bound, member);
    }
}

/// Whether `url` is an absolute http or https address.
pub fn is_http_url(url: &str) -> (absolute: bool)
    ensures
        absolute == has_http_scheme(url@),
{
    let chars = to_chars(url);
    let http = to_chars("http://");
    let https = to_chars("https://");
    assert(chars@.skip(0) =~= chars@);
    has_word_at(&chars, 0, &http) || has_word_at(&chars, 0, &https)
}

/// The homepage link that is shown for the address `url`.
fn link_shown(url: &Option<String>) -> (shown: Option<String>)
    ensures
        text_of(shown) == shown_link(*url),
{
    match url {
        Some(url) => if is_http_url(url.as_str()) {
            Some(url.clone())
        } else {
            None
        },
        None => None,
    }
}

/// A copy of an optional text.
fn copy_of(text: &Option<String>) -> (copy: Option<String>)
    ensures
        text_of(copy) == text_of(*text),
{
    match text {
        Some(text) => Some(text.clone()),
        None => None,
    }
}

/// The name of the entity `j` of `kind`.
fn name_of(works: &WorksData, kind: EntityKind, j: usize) -> (name: String)
    requires
        j < works.count(kind),
    ensures
        name@ == works.name(kind, j as int),
{
    match kind {
        EntityKind::Repository => works.repositories[j].name.clone(),
        EntityKind::Language => works.languages[j].name.clone(),
        EntityKind::Technology => works.technologies[j].name.clone(),
    }
}

/// How many entities of `kind` the dataset has.
fn count_of(works: &WorksData, kind: EntityKind) -> (count: usize)
    ensures
        count == works.count(kind),
{
    match kind {
        EntityKind::Repository => works.repositories.len(),
        EntityKind::Language => works.languages.len(),
        EntityKind::Technology => works.technologies.len(),
    }
}

/// Whether the set of the entity `i` in `sets` holds `member`.
fn holds(sets: &Vec<BTreeSet<usize>>, i: usize, member: usize) -> (found: bool)
    ensures
        found == set_at(sets@, i).contains(member),
{
    if i < sets.len() {
        sets[i].contains(&member)
    } else {
        false
    }
}

/// Appends the group with `heading` for the entities of `kind` that are
/// adjacent to the entity `i` by `sets`, unless there are none.
fn push_group(
    groups: &mut Vec<ShortcutGroup>,
    works: &WorksData,
    heading: &str,
    sets: &Vec<BTreeSet<usize>>,
    i: usize,
    kind: EntityKind,
)
    ensures
        Seq::new(final(groups)@.len(), |p: int| final(groups)@[p]@) == Seq::new(
            old(groups)@.len(),
            |p: int| old(groups)@[p]@,
        ) + group_views(works, heading@, set_at(sets@, i), kind),
{
    let ghost set = set_at(sets@, i);
    let count = count_of(works, kind);
    let mut shortcuts: Vec<Shortcut> = Vec::new();
    let mut j: usize = 0;
    while j < count
        invariant
            j <= count,
            count == works.count(kind),
            set == set_at(sets@, i),
            Seq::new(shortcuts@.len(), |p: int| shortcuts@[p]@) == shortcut_views(
                works,
                set,
                kind,
                j as nat,
            ),
        decreases count - j,
    {
        let ghost listed = members_below(set, j as nat);
        let ghost shown = Seq::new(shortcuts@.len(), |p: int| shortcuts@[p]@);
        assert(shown.len() == listed.len());
        if holds(sets, i, j) {
            let label = name_of(works, kind, j);
            shortcuts.push(Shortcut { target: SelectedNode::new(kind, j), label });
            assert(members_below(set, (j + 1) as nat) == listed.push(j));
        } else {
            assert(members_below(set, (j + 1) as nat) == listed);
        }
        j += 1;
        assert forall|p: int| 0 <= p < shortcuts@.len() implies (#[trigger] shortcuts@[p])@
            == shortcut_views(works, set, kind, j as nat)[p] by {
            if p < shown.len() {
                assert(shown[p] == shortcuts@[p]@);
                assert(shown[p] == shortcut_views(works, set, kind, (j - 1) as nat)[p]);
            }
        }
        assert(Seq::new(shortcuts@.len(), |p: int| shortcuts@[p]@) =~= shortcut_views(
            works,
            set,
            kind,
            j as nat,
        ));
    }
    let ghost before = Seq::new(groups@.len(), |p: int| groups@[p]@);
    if shortcuts.len() > 0 {
        let group = ShortcutGroup { heading: heading.to_owned(), shortcuts };
        assert(group@.shortcuts =~= shortcut_views(works, set, kind, works.count(kind)));
        groups.push(group);
    }
    assert(Seq::new(groups@.len(), |p: int| groups@[p]@) =~= before + group_views(
        works,
        heading@,
        set,
        kind,
    ));
}

/// Projects the selection onto the detail panel.
pub fn view(works: &WorksData, index: &AdjacencyIndex, selected: SelectedNode) -> (panel: DetailPanel)
    ensures
        panel@ == detail_of(works, index, selected),
{
    let mut groups: Vec<ShortcutGroup> = Vec::new();
    assert(Seq::new(groups@.len(), |p: int| groups@[p]@) =~= Seq::<GroupView>::empty());
    let panel = match selected {
        SelectedNode::Repository(i) => {
            if i < works.repositories.len() {
                let repository = &works.repositories[i];
                push_group(
                    &mut groups,
                    works,
                    "related languages:",
                    &index.repository_connected_languages,
                    i,
                    EntityKind::Language,
                );
                push_group(
                    &mut groups,
                    works,
                    "related technologies:",
                    &index.repository_connected_technologies,
                    i,
                    EntityKind::Technology,
                );
                push_group(
                    &mut groups,
                    works,
                    "related repositories:",
                    &index.repository_connected_repositories,
                    i,
                    EntityKind::Repository,
                );
                let description = match &repository.community_profile {
                    Some(profile) => copy_of(&profile.description),
                    None => None,
                };
                DetailPanel {
                    title: repository.name.clone(),
                    description,
                    repository: Some(repository.html_url.clone()),
                    homepage: link_shown(&repository.homepage),
                    groups,
                }
            } else {
                empty()
            }
        },
        SelectedNode::Language(i) => {
            if i < works.languages.len() {
                let language = &works.languages[i];
                push_group(
                    &mut groups,
                    works,
                    "related repositories:",
                    &index.language_connected_repositories,
                    i,
                    EntityKind::Repository,
                );
                DetailPanel {
                    title: language.name.clone(),
                    description: None,
                    repository: None,
                    homepage: link_shown(&language.link),
                    groups,
                }
            } else {
                empty()
            }
        },
        SelectedNode::Technology(i) => {
            if i < works.technologies.len() {
                let technology = &works.technologies[i];
                push_group(
                    &mut groups,
                    works,
                    "related repositories:",
                    &index.technology_connected_repositories,
                    i,
                    EntityKind::Repository,
                );
                DetailPanel {
                    title: technology.name.clone(),
                    description: copy_of(&technology.description),
                    repository: None,
                    homepage: link_shown(&technology.link),
                    groups,
                }
            } else {
                empty()
            }
        },
        SelectedNode::Unselected => empty(),
    };
    assert(panel@.groups =~= detail_of(works, index, selected).groups);
    panel
}

/// The panel without content.
pub fn empty() -> (panel: DetailPanel)
    ensures
        panel@ == empty_panel(),
{
    let panel = DetailPanel {
        title: String::new(),
        description: None,
        repository: None,
        homepage: None,
        groups: Vec::new(),
    };
    assert(panel@.groups =~= Seq::<GroupView>::empty());
    panel
}

} // verus!
