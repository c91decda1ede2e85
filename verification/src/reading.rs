//! How much of a tree has to be read for a snapshot. Each attribute of each
//! element costs a call to another process, and a page can hold very many
//! elements, so only what a snapshot depends on is read.

use crate::element;
use crate::json;
use crate::node;
use crate::node::{AxNode, STATIC_TEXT, WEB_AREA};
use crate::popup;
use crate::popup::{MAX_LIST_DEPTH, MAX_WALK_DEPTH};
use crate::snapshot;
use crate::snapshot::Capture;
use crate::walk;
use vstd::prelude::*;
use vstd::string::*;

verus! {

/// What an element is read for.
#[derive(Debug, Clone, Copy)]
pub enum Scan {
    /// As the element that has the focus.
    Focus,
    /// For popups, this many levels below a window.
    Window { depth: usize },
    /// For list items, this many levels below a popup.
    List { depth: usize },
    /// As a child of a label.
    Label,
}

/// What to read of an element whose role and subrole are known.
#[derive(Debug, Clone, Copy)]
pub struct ReadPlan {
    /// Whether its other attributes are needed.
    pub detail: bool,
    /// What its children are to be read for; nothing where they are not needed.
    pub children: Option<Scan>,
}

/// Whether the attributes besides role and subrole matter.
pub open spec fn detail_matters(scan: Scan, role: Seq<char>, subrole: Seq<char>) -> bool {
    match scan {
        Scan::Focus => true,
        Scan::Window { depth } => {
            &&& depth <= MAX_WALK_DEPTH
            &&& role != WEB_AREA@
            &&& node::popup_shape(role, subrole)
        },
        Scan::List { depth } => depth <= MAX_LIST_DEPTH && role == STATIC_TEXT@,
        Scan::Label => role == STATIC_TEXT@,
    }
}

/// What the children matter for, if they do.
pub open spec fn children_matter(scan: Scan, role: Seq<char>, subrole: Seq<char>) -> Option<Scan> {
    match scan {
        Scan::Focus => None,
        Scan::Window { depth } => if depth > MAX_WALK_DEPTH || role == WEB_AREA@ {
            None
        } else if node::popup_shape(role, subrole) {
            children_matter_in_list(0, role)
        } else if depth == MAX_WALK_DEPTH {
            None
        } else {
            Some(Scan::Window { depth: (depth + 1) as usize })
        },
        Scan::List { depth } => children_matter_in_list(depth, role),
        Scan::Label => None,
    }
}

/// What the children of an element in a list matter for, if they do.
pub open spec fn children_matter_in_list(depth: usize, role: Seq<char>) -> Option<Scan> {
    if depth > MAX_LIST_DEPTH {
        None
    } else if role == STATIC_TEXT@ {
        Some(Scan::Label)
    } else if depth == MAX_LIST_DEPTH {
        None
    } else {
        Some(Scan::List { depth: (depth + 1) as usize })
    }
}

/// What to read of an element whose role and subrole are known.
pub fn read_plan(scan: Scan, role: &str, subrole: &str) -> (plan: ReadPlan)
    ensures
        plan.detail == detail_matters(scan, role@, subrole@),
        plan.children == children_matter(scan, role@, subrole@),
        scan is Focus ==> plan.detail && plan.children is None,
        scan matches Scan::Window { depth } ==> (plan.detail <==> depth <= 14 && role@
            != "AXWebArea"@ && walk::is_popup_kind(role@, subrole@)),
        scan matches Scan::List { depth } ==> (plan.detail <==> depth <= 10 && role@
            == "AXStaticText"@),
        scan is Label ==> (plan.detail <==> role@ == "AXStaticText"@) && plan.children is None,
{
    match scan {
        Scan::Focus => ReadPlan { detail: true, children: None },
        Scan::Window { depth } => if depth > MAX_WALK_DEPTH || role.eq(WEB_AREA) {
            ReadPlan { detail: false, children: None }
        } else if node::has_popup_shape(role, subrole) {
            ReadPlan { detail: true, children: list_children(0, role) }
        } else if depth == MAX_WALK_DEPTH {
            ReadPlan { detail: false, children: None }
        } else {
            ReadPlan { detail: false, children: Some(Scan::Window { depth: depth + 1 }) }
        },
        Scan::List { depth } => ReadPlan {
            detail: depth <= MAX_LIST_DEPTH && role.eq(STATIC_TEXT),
            children: list_children(depth, role),
        },
        Scan::Label => ReadPlan { detail: role.eq(STATIC_TEXT), children: None },
    }
}

/// What the children of an element in a list are to be read for.
fn list_children(depth: usize, role: &str) -> (children: Option<Scan>)
    ensures
        children == children_matter_in_list(depth, role@),
{
    if depth > MAX_LIST_DEPTH {
        None
    } else if role.eq(STATIC_TEXT) {
        Some(Scan::Label)
    } else if depth == MAX_LIST_DEPTH {
        None
    } else {
        Some(Scan::List { depth: depth + 1 })
    }
}

/// Whether two elements agree in all attributes besides role and subrole.
pub open spec fn same_detail(a: AxNode, b: AxNode) -> bool {
    &&& a.title@ == b.title@
    &&& a.value@ == b.value@
    &&& a.desc@ == b.desc@
    &&& a.help@ == b.help@
    &&& a.selected == b.selected
    &&& a.focused == b.focused
    &&& a.position == b.position
    &&& a.size == b.size
}

/// Whether `read` has all that the plan asks to be read of `full`; whatever the
/// plan leaves out may be anything.
pub open spec fn read_of(scan: Scan, full: AxNode, read: AxNode) -> bool
    decreases full,
{
    &&& full.role@ == read.role@
    &&& full.subrole@ == read.subrole@
    &&& detail_matters(scan, full.role@, full.subrole@) ==> same_detail(full, read)
    &&& match children_matter(scan, full.role@, full.subrole@) {
        Some(next) => {
            &&& full.children@.len() == read.children@.len()
            &&& forall|i: int|
                0 <= i < full.children@.len() ==> read_of(
                    next,
                    #[trigger] full.children@[i],
                    read.children@[i],
                )
        },
        None => true,
    }
}

/// Whether `read` has all that the plan asks to be read of each of `full`.
pub open spec fn read_of_all(scan: Scan, full: Seq<AxNode>, read: Seq<AxNode>) -> bool {
    &&& full.len() == read.len()
    &&& forall|i: int| 0 <= i < full.len() ==> read_of(scan, #[trigger] full[i], read[i])
}

/// Whether a capture has all that the plan asks to be read of what `full` has:
/// the focused element, and the windows.
pub open spec fn capture_of(full: Capture, read: Capture) -> bool {
    &&& match (snapshot::focus_of(full), snapshot::focus_of(read)) {
        (Some(a), Some(b)) => read_of(Scan::Focus, a, b),
        (None, None) => true,
        _ => false,
    }
    &&& read_of_all(Scan::Window { depth: 0 }, full.windows@, read.windows@)
}

/// A label that was read as planned gives the same list item.
proof fn lemma_item(depth: usize, full: AxNode, read: AxNode, index: int)
    requires
        read_of(Scan::List { depth }, full, read),
        depth <= MAX_LIST_DEPTH,
        full.is_static_text(),
    ensures
        element::item_json(full, index) == element::item_json(read, index),
{
    let a = full.children@;
    let b = read.children@;
    assert forall|i: int| 0 <= i < a.len() implies #[trigger] a[i].is_static_text()
        == b[i].is_static_text() by {
        assert(read_of(Scan::Label, a[i], b[i]));
    }
    assert forall|i: int| #[trigger]
        element::first_label_at(a, i) == element::first_label_at(b, i) by {
        if element::first_label_at(a, i) {
            assert forall|j: int| 0 <= j < i implies !(#[trigger] b[j]).is_static_text() by {
                assert(!a[j].is_static_text());
            }
        }
        if element::first_label_at(b, i) {
            assert forall|j: int| 0 <= j < i implies !(#[trigger] a[j]).is_static_text() by {
                assert(!b[j].is_static_text());
            }
        }
    }
    assert(element::label_selected(full) == element::label_selected(read)) by {
        if exists|i: int| #[trigger]
            element::first_label_at(a, i) && (a[i].selected || a[i].focused) {
            let i = choose|i: int| #[trigger]
                element::first_label_at(a, i) && (a[i].selected || a[i].focused);
            assert(read_of(Scan::Label, a[i], b[i]));
            assert(element::first_label_at(b, i));
        }
        if exists|i: int| #[trigger]
            element::first_label_at(b, i) && (b[i].selected || b[i].focused) {
            let i = choose|i: int| #[trigger]
                element::first_label_at(b, i) && (b[i].selected || b[i].focused);
            assert(element::first_label_at(a, i));
            assert(read_of(Scan::Label, a[i], b[i]));
        }
    }
    assert(json::object_with(|key: Seq<char>| element::item_field(full, index, key))
        =~= json::object_with(|key: Seq<char>| element::item_field(read, index, key)));
}

/// A list that was read as planned gives the same items.
proof fn lemma_labels(depth: usize, full: AxNode, read: AxNode, first: int)
    requires
        read_of(Scan::List { depth }, full, read),
    ensures
        popup::numbered(popup::labels_in(full, depth as nat), first) == popup::numbered(
            popup::labels_in(read, depth as nat),
            first,
        ),
    decreases full,
{
    if depth > MAX_LIST_DEPTH {
    } else if full.is_static_text() {
        lemma_item(depth, full, read, first);
        assert(popup::numbered(seq![full], first) =~= popup::numbered(seq![read], first));
    } else if depth == MAX_LIST_DEPTH {
        lemma_labels_too_deep(full.children@, depth as nat + 1);
        lemma_labels_too_deep(read.children@, depth as nat + 1);
    } else {
        lemma_labels_all((depth + 1) as usize, full.children@, read.children@, first);
    }
}

/// The same for each of a sequence of elements.
proof fn lemma_labels_all(depth: usize, full: Seq<AxNode>, read: Seq<AxNode>, first: int)
    requires
        read_of_all(Scan::List { depth }, full, read),
    ensures
        popup::numbered(popup::labels_in_all(full, depth as nat), first) == popup::numbered(
            popup::labels_in_all(read, depth as nat),
            first,
        ),
    decreases full,
{
    if full.len() > 0 {
        let a = popup::labels_in_all(full.drop_last(), depth as nat);
        let b = popup::labels_in_all(read.drop_last(), depth as nat);
        let c = popup::labels_in(full.last(), depth as nat);
        let d = popup::labels_in(read.last(), depth as nat);
        assert(read_of(Scan::List { depth }, full[full.len() - 1], read[full.len() - 1]));
        assert forall|i: int| 0 <= i < full.drop_last().len() implies read_of(
            Scan::List { depth },
            #[trigger] full.drop_last()[i],
            read.drop_last()[i],
        ) by {
            assert(read_of(Scan::List { depth }, full[i], read[i]));
        }
        lemma_labels_all(depth, full.drop_last(), read.drop_last(), first);
        assert(popup::numbered(a, first).len() == popup::numbered(b, first).len());
        lemma_labels(depth, full.last(), read.last(), first + a.len());
        assert(popup::numbered(a + c, first) =~= popup::numbered(a, first) + popup::numbered(
            c,
            first + a.len(),
        ));
        assert(popup::numbered(b + d, first) =~= popup::numbered(b, first) + popup::numbered(
            d,
            first + b.len(),
        ));
    }
}

/// Below the deepest level there are no list items.
proof fn lemma_labels_too_deep(s: Seq<AxNode>, depth: nat)
    requires
        depth > MAX_LIST_DEPTH,
    ensures
        popup::labels_in_all(s, depth) == Seq::<AxNode>::empty(),
    decreases s.len(),
{
    if s.len() > 0 {
        lemma_labels_too_deep(s.drop_last(), depth);
        assert(popup::labels_in(s.last(), depth) == Seq::<AxNode>::empty());
    }
}

/// Below the deepest level there are no popups.
proof fn lemma_popups_too_deep(s: Seq<AxNode>, depth: nat)
    requires
        depth > MAX_WALK_DEPTH,
    ensures
        popup::popups_in_all(s, depth) == Seq::<AxNode>::empty(),
    decreases s.len(),
{
    if s.len() > 0 {
        lemma_popups_too_deep(s.drop_last(), depth);
        assert(popup::popups_in(s.last(), depth) == Seq::<AxNode>::empty());
    }
}

/// A part of a window that was read as planned gives the same popups.
proof fn lemma_popups(depth: usize, full: AxNode, read: AxNode)
    requires
        read_of(Scan::Window { depth }, full, read),
    ensures
        popup::all_popup_entries(popup::popups_in(full, depth as nat)) == popup::all_popup_entries(
            popup::popups_in(read, depth as nat),
        ),
    decreases full,
{
    if depth > MAX_WALK_DEPTH || full.is_web_area() {
    } else if full.is_popup() {
        assert(read_of(Scan::List { depth: 0 }, full, read));
        lemma_labels(0, full, read, 0);
        let a = popup::numbered(popup::labels_in(full, 0), 0);
        let b = popup::numbered(popup::labels_in(read, 0), 0);
        assert(a.len() == b.len());
        assert(popup::popup_entries(full) =~= popup::popup_entries(read));
        assert(popup::all_popup_entries(seq![full]) =~= popup::all_popup_entries(seq![read]));
    } else if depth == MAX_WALK_DEPTH {
        lemma_popups_too_deep(full.children@, depth as nat + 1);
        lemma_popups_too_deep(read.children@, depth as nat + 1);
    } else {
        lemma_popups_all((depth + 1) as usize, full.children@, read.children@);
    }
}

/// The same for each of a sequence of elements.
proof fn lemma_popups_all(depth: usize, full: Seq<AxNode>, read: Seq<AxNode>)
    requires
        read_of_all(Scan::Window { depth }, full, read),
    ensures
        popup::all_popup_entries(popup::popups_in_all(full, depth as nat))
            == popup::all_popup_entries(popup::popups_in_all(read, depth as nat)),
    decreases full,
{
    if full.len() > 0 {
        let a = popup::popups_in_all(full.drop_last(), depth as nat);
        let b = popup::popups_in_all(read.drop_last(), depth as nat);
        let c = popup::popups_in(full.last(), depth as nat);
        let d = popup::popups_in(read.last(), depth as nat);
        assert(read_of(Scan::Window { depth }, full[full.len() - 1], read[full.len() - 1]));
        assert forall|i: int| 0 <= i < full.drop_last().len() implies read_of(
            Scan::Window { depth },
            #[trigger] full.drop_last()[i],
            read.drop_last()[i],
        ) by {
            assert(read_of(Scan::Window { depth }, full[i], read[i]));
        }
        lemma_popups_all(depth, full.drop_last(), read.drop_last());
        lemma_popups(depth, full.last(), read.last());
        assert(popup::all_popup_entries(a + c) =~= popup::all_popup_entries(a)
            + popup::all_popup_entries(c));
        assert(popup::all_popup_entries(b + d) =~= popup::all_popup_entries(b)
            + popup::all_popup_entries(d));
    }
}

/// How many levels below an element are read at most.
pub open spec fn levels_below(scan: Scan) -> int {
    match scan {
        Scan::Focus => 0,
        Scan::Window { depth } => if depth > MAX_WALK_DEPTH {
            0
        } else {
            MAX_WALK_DEPTH - depth + MAX_LIST_DEPTH + 1
        },
        Scan::List { depth } => if depth > MAX_LIST_DEPTH {
            0
        } else {
            MAX_LIST_DEPTH - depth + 1
        },
        Scan::Label => 0,
    }
}

/// Reading as planned comes to an end, even where elements turn up below
/// themselves: with each level there are fewer levels to go.
pub proof fn law_plan_is_bounded(scan: Scan, role: Seq<char>, subrole: Seq<char>)
    ensures
        levels_below(scan) >= 0,
        children_matter(scan, role, subrole) matches Some(next) ==> levels_below(next)
            < levels_below(scan),
{
}

/// What the plan leaves out has no part in a snapshot: a capture that has all
/// that the plan asks for gives the snapshot that the whole tree gives. So
/// nothing inside a page is ever needed, nothing too deep, and nothing inside a
/// label but its labels.
pub proof fn law_planned_reading_is_enough(pid: int, full: Capture, read: Capture)
    requires
        capture_of(full, read),
    ensures
        snapshot::snapshot_of(pid, full) == snapshot::snapshot_of(pid, read),
{
    lemma_popups_all(0, full.windows@, read.windows@);
    match (snapshot::focus_of(full), snapshot::focus_of(read)) {
        (Some(a), Some(b)) => {
            assert(element::element_entries(a) =~= element::element_entries(b));
        },
        _ => {},
    }
}

/// Of an element with the focus all attributes are read and no child. Of elements
/// below a window the attributes of popups are read, down to the fourteenth level,
/// and below elements that are neither popups nor pages the children, down to the
/// level before it.
pub proof fn law_plan_for_focus_and_windows(depth: usize, role: Seq<char>, subrole: Seq<char>)
    ensures
        detail_matters(Scan::Focus, role, subrole),
        children_matter(Scan::Focus, role, subrole) is None,
        detail_matters(Scan::Window { depth }, role, subrole) <==> depth <= 14 && role
            != "AXWebArea"@ && node::popup_shape(role, subrole),
        depth > 14 || role == "AXWebArea"@ ==> children_matter(
            Scan::Window { depth },
            role,
            subrole,
        ) is None,
        depth <= 14 && role != "AXWebArea"@ && node::popup_shape(role, subrole)
            ==> children_matter(Scan::Window { depth }, role, subrole) == children_matter(
            Scan::List { depth: 0 },
            role,
            subrole,
        ),
        depth <= 14 && role != "AXWebArea"@ && !node::popup_shape(role, subrole)
            ==> children_matter(Scan::Window { depth }, role, subrole) == if depth < 14 {
            Some(Scan::Window { depth: (depth + 1) as usize })
        } else {
            None
        },
{
}

/// Of elements below a popup the attributes of labels are read, down to the tenth
/// level, with those of the labels among their children; below other elements the
/// children, down to the level before it.
pub proof fn law_plan_for_lists_and_labels(depth: usize, role: Seq<char>, subrole: Seq<char>)
    ensures
        detail_matters(Scan::List { depth }, role, subrole) <==> depth <= 10 && role
            == "AXStaticText"@,
        depth > 10 ==> children_matter(Scan::List { depth }, role, subrole) is None,
        depth <= 10 && role == "AXStaticText"@ ==> children_matter(
            Scan::List { depth },
            role,
            subrole,
        ) == Some(Scan::Label),
        depth <= 10 && role != "AXStaticText"@ ==> children_matter(
            Scan::List { depth },
            role,
            subrole,
        ) == if depth < 10 {
            Some(Scan::List { depth: (depth + 1) as usize })
        } else {
            None
        },
        detail_matters(Scan::Label, role, subrole) <==> role == "AXStaticText"@,
        children_matter(Scan::Label, role, subrole) is None,
{
}

} // verus!
