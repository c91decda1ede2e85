//! What the JSON of an element, of a list item, of a popup and of a snapshot has
//! to state, key by key, in terms of the elements themselves.

use crate::dedup;
use crate::element;
use crate::json::Json;
use crate::laws;
use crate::node::AxNode;
use crate::popup;
use crate::snapshot;
use crate::snapshot::{Capture, SnapshotView};
use crate::walk;
use crate::walk::Sought;
use vstd::prelude::*;
use vstd::string::*;

verus! {

/// Whether an object states the place of an element: all four numbers where
/// position and size are both known, and none of them otherwise.
pub open spec fn states_place(d: Map<Seq<char>, Json>, n: AxNode) -> bool {
    &&& d.contains_key("x"@) <==> n.position is Some && n.size is Some
    &&& d.contains_key("y"@) <==> n.position is Some && n.size is Some
    &&& d.contains_key("w"@) <==> n.position is Some && n.size is Some
    &&& d.contains_key("h"@) <==> n.position is Some && n.size is Some
    &&& d.contains_key("x"@) ==> d["x"@] == Json::Int(n.position->0.x as int)
    &&& d.contains_key("y"@) ==> d["y"@] == Json::Int(n.position->0.y as int)
    &&& d.contains_key("w"@) ==> d["w"@] == Json::Int(n.size->0.w as int)
    &&& d.contains_key("h"@) ==> d["h"@] == Json::Int(n.size->0.h as int)
}

/// Whether an object states all that is to be stated of an element: its role
/// always; each other text exactly where it is not empty; each flag exactly where
/// it is set; its place exactly where it is known.
pub open spec fn states_element(d: Map<Seq<char>, Json>, n: AxNode) -> bool {
    &&& d.contains_key("role"@)
    &&& d["role"@] == Json::Str(n.role@)
    &&& d.contains_key("subrole"@) <==> n.subrole@.len() > 0
    &&& d.contains_key("subrole"@) ==> d["subrole"@] == Json::Str(n.subrole@)
    &&& d.contains_key("title"@) <==> n.title@.len() > 0
    &&& d.contains_key("title"@) ==> d["title"@] == Json::Str(n.title@)
    &&& d.contains_key("value"@) <==> n.value@.len() > 0
    &&& d.contains_key("value"@) ==> d["value"@] == Json::Str(n.value@)
    &&& d.contains_key("desc"@) <==> n.desc@.len() > 0
    &&& d.contains_key("desc"@) ==> d["desc"@] == Json::Str(n.desc@)
    &&& d.contains_key("help"@) <==> n.help@.len() > 0
    &&& d.contains_key("help"@) ==> d["help"@] == Json::Str(n.help@)
    &&& d.contains_key("selected"@) <==> n.selected
    &&& d.contains_key("selected"@) ==> d["selected"@] == Json::Bool(true)
    &&& d.contains_key("focused"@) <==> n.focused
    &&& d.contains_key("focused"@) ==> d["focused"@] == Json::Bool(true)
    &&& states_place(d, n)
}

/// The keys of a place.
pub open spec fn is_place_key(key: Seq<char>) -> bool {
    key == "x"@ || key == "y"@ || key == "w"@ || key == "h"@
}

/// The keys of an element.
pub open spec fn is_element_key(key: Seq<char>) -> bool {
    ||| key == "role"@
    ||| key == "subrole"@
    ||| key == "title"@
    ||| key == "value"@
    ||| key == "desc"@
    ||| key == "help"@
    ||| key == "selected"@
    ||| key == "focused"@
    ||| is_place_key(key)
}

/// Whether an object states all that is to be stated of an element, and nothing
/// else.
pub open spec fn states_only_element(d: Map<Seq<char>, Json>, n: AxNode) -> bool {
    &&& states_element(d, n)
    &&& forall|key: Seq<char>| #[trigger] d.contains_key(key) ==> is_element_key(key)
}

/// Whether a child is the first one that is a text label.
pub open spec fn is_first_label(n: AxNode, i: int) -> bool {
    &&& 0 <= i < n.children@.len()
    &&& n.children@[i].role@ == "AXStaticText"@
    &&& forall|j: int| 0 <= j < i ==> (#[trigger] n.children@[j]).role@ != "AXStaticText"@
}

/// Whether a label, or the first label among its children, is selected or has the
/// focus.
pub open spec fn is_marked(n: AxNode) -> bool {
    ||| n.selected
    ||| n.focused
    ||| exists|i: int| #[trigger]
        is_first_label(n, i) && (n.children@[i].selected || n.children@[i].focused)
}

/// Whether a value is the list item, with this number, of a label: it states the
/// number, the text (the value of the label, or its title where that is empty),
/// whether the label is marked, and its place, and nothing else.
pub open spec fn states_item(v: Json, n: AxNode, index: int) -> bool {
    &&& v is Obj
    &&& v->Obj_0.contains_key("index"@)
    &&& v->Obj_0["index"@] == Json::Int(index)
    &&& v->Obj_0.contains_key("text"@)
    &&& n.value@.len() > 0 ==> v->Obj_0["text"@] == Json::Str(n.value@)
    &&& n.value@.len() == 0 ==> v->Obj_0["text"@] == Json::Str(n.title@)
    &&& v->Obj_0.contains_key("selected"@)
    &&& v->Obj_0["selected"@] == Json::Bool(is_marked(n))
    &&& states_place(v->Obj_0, n)
    &&& forall|key: Seq<char>| #[trigger]
        v->Obj_0.contains_key(key) ==> key == "index"@ || key == "text"@ || key == "selected"@
            || is_place_key(key)
}

/// Whether the items of an object are the labels to which the paths lead, one item
/// to a path, in the order of the paths and numbered from zero. Where there are no
/// paths there are no items.
pub open spec fn lists_labels_at(d: Map<Seq<char>, Json>, n: AxNode, paths: Seq<Seq<int>>) -> bool {
    &&& d.contains_key("items"@) <==> paths.len() > 0
    &&& d.contains_key("items"@) ==> {
        &&& d["items"@] is Arr
        &&& d["items"@]->Arr_0.len() == paths.len()
        &&& forall|i: int|
            0 <= i < paths.len() ==> states_item(
                #[trigger] d["items"@]->Arr_0[i],
                walk::element_at(n, paths[i]),
                i,
            )
    }
}

/// Whether an object states all that is to be stated of a popup, and nothing else:
/// what is to be stated of its element, and as its items the labels that it lists.
pub open spec fn states_popup(d: Map<Seq<char>, Json>, n: AxNode) -> bool {
    &&& states_element(d, n)
    &&& forall|key: Seq<char>| #[trigger]
        d.contains_key(key) ==> is_element_key(key) || key == "items"@
    &&& exists|paths: Seq<Seq<int>>| #[trigger]
        walk::are_all_listed(n, paths) && lists_labels_at(d, n, paths)
}

/// Whether values are the popups of windows: one for each path to a popup before
/// which there is no path to one with its role and place, in the order of the
/// paths.
pub open spec fn shows_popups_at(
    popups: Seq<Json>,
    windows: Seq<AxNode>,
    paths: Seq<Seq<int>>,
) -> bool {
    &&& popups.len() == paths.len()
    &&& forall|i: int|
        0 <= i < paths.len() ==> (#[trigger] popups[i]) is Obj && states_popup(
            popups[i]->Obj_0,
            walk::popup_at(windows, paths[i]),
        )
}

/// Whether values are the popups of windows.
pub open spec fn shows_popups(popups: Seq<Json>, windows: Seq<AxNode>) -> bool {
    exists|paths: Seq<Seq<int>>| #[trigger]
        are_all_shown(windows, paths) && shows_popups_at(popups, windows, paths)
}

/// Whether a path through windows leads to a popup before which there is none with
/// its role and its place.
pub open spec fn is_shown(windows: Seq<AxNode>, path: Seq<int>) -> bool {
    &&& walk::leads_to_popup(windows, path)
    &&& forall|earlier: Seq<int>| #[trigger]
        walk::leads_to_popup(windows, earlier) && walk::stands_before(earlier, path) ==> !(
        walk::popup_at(windows, earlier).role@ == walk::popup_at(windows, path).role@
            && same_place(walk::popup_at(windows, earlier), walk::popup_at(windows, path)))
}

/// Whether two elements have the same place, or both no known one.
pub open spec fn same_place(a: AxNode, b: AxNode) -> bool {
    if a.position is Some && a.size is Some {
        &&& b.position is Some
        &&& b.size is Some
        &&& a.position->0.x == b.position->0.x
        &&& a.position->0.y == b.position->0.y
        &&& a.size->0.w == b.size->0.w
        &&& a.size->0.h == b.size->0.h
    } else {
        b.position is None || b.size is None
    }
}

/// Whether these are all the paths to popups that are shown, in their order.
pub open spec fn are_all_shown(windows: Seq<AxNode>, paths: Seq<Seq<int>>) -> bool {
    &&& walk::in_order(paths)
    &&& forall|path: Seq<int>| #[trigger] paths.contains(path) <==> is_shown(windows, path)
}

/// Whether a snapshot says of a captured process what is to be said: its id; as
/// the focused element the one that the process tells, or else the one that the
/// system tells, or else null; the popups of the windows; and how many windows
/// there are.
pub open spec fn states_capture(s: SnapshotView, pid: int, c: Capture) -> bool {
    &&& s.pid == pid
    &&& c.app_focused matches Some(n) ==> s.focused is Obj && states_only_element(
        s.focused->Obj_0,
        n,
    )
    &&& c.app_focused is None ==> (c.system_focused matches Some(n) ==> s.focused is Obj
        && states_only_element(s.focused->Obj_0, n))
    &&& s.focused is Null <==> c.app_focused is None && c.system_focused is None
    &&& shows_popups(s.popups, c.windows@)
    &&& s.windows == c.windows@.len()
}

/// Whether a value states a snapshot and the time that it took, and nothing else.
pub open spec fn states_snapshot(v: Json, s: SnapshotView, elapsed_ms: int) -> bool {
    &&& v is Obj
    &&& v->Obj_0.contains_key("pid"@)
    &&& v->Obj_0["pid"@] == Json::Int(s.pid)
    &&& v->Obj_0.contains_key("focused"@)
    &&& v->Obj_0["focused"@] == s.focused
    &&& v->Obj_0.contains_key("popups"@)
    &&& v->Obj_0["popups"@] == Json::Arr(s.popups)
    &&& v->Obj_0.contains_key("elapsed_ms"@)
    &&& v->Obj_0["elapsed_ms"@] == Json::Int(elapsed_ms)
    &&& v->Obj_0.contains_key("windows"@)
    &&& v->Obj_0["windows"@] == Json::Int(s.windows as int)
    &&& forall|key: Seq<char>| #[trigger]
        v->Obj_0.contains_key(key) ==> key == "pid"@ || key == "focused"@ || key == "popups"@ || key
            == "elapsed_ms"@ || key == "windows"@
}

/// Each flag of an element is a key of its object exactly where it is set, and its
/// value is then true.
pub proof fn law_flags_are_stated_where_set(n: AxNode, d: Map<Seq<char>, Json>)
    requires
        d == element::element_entries(n),
    ensures
        d.contains_key("selected"@) <==> n.selected,
        d.contains_key("focused"@) <==> n.focused,
        n.selected ==> d["selected"@] == Json::Bool(true),
        n.focused ==> d["focused"@] == Json::Bool(true),
{
    element::lemma_keys_differ();
}

/// The role of an element is always a key of its object, and each other text
/// exactly where it is not empty; its value is the text.
pub proof fn law_texts_are_stated_where_not_empty(n: AxNode, d: Map<Seq<char>, Json>)
    requires
        d == element::element_entries(n),
    ensures
        d.contains_key("role"@),
        d.contains_key("subrole"@) <==> n.subrole@.len() > 0,
        d.contains_key("title"@) <==> n.title@.len() > 0,
        d.contains_key("value"@) <==> n.value@.len() > 0,
        d.contains_key("desc"@) <==> n.desc@.len() > 0,
        d.contains_key("help"@) <==> n.help@.len() > 0,
        d["role"@] == Json::Str(n.role@),
        n.subrole@.len() > 0 ==> d["subrole"@] == Json::Str(n.subrole@),
        n.title@.len() > 0 ==> d["title"@] == Json::Str(n.title@),
        n.value@.len() > 0 ==> d["value"@] == Json::Str(n.value@),
        n.desc@.len() > 0 ==> d["desc"@] == Json::Str(n.desc@),
        n.help@.len() > 0 ==> d["help"@] == Json::Str(n.help@),
{
    element::lemma_keys_differ();
}

/// The four numbers of its place are keys of the object of an element exactly
/// where its position and its size are both known, whatever else it has.
pub proof fn law_place_is_stated_where_known(n: AxNode, d: Map<Seq<char>, Json>)
    requires
        d == element::element_entries(n),
    ensures
        d.contains_key("x"@) <==> n.position is Some && n.size is Some,
        d.contains_key("y"@) <==> n.position is Some && n.size is Some,
        d.contains_key("w"@) <==> n.position is Some && n.size is Some,
        d.contains_key("h"@) <==> n.position is Some && n.size is Some,
        d.contains_key("x"@) ==> d["x"@] == Json::Int(n.position->0.x as int),
        d.contains_key("y"@) ==> d["y"@] == Json::Int(n.position->0.y as int),
        d.contains_key("w"@) ==> d["w"@] == Json::Int(n.size->0.w as int),
        d.contains_key("h"@) ==> d["h"@] == Json::Int(n.size->0.h as int),
{
    element::lemma_keys_differ();
}

/// The object of an element has no keys but those of its texts, its flags and its
/// place.
pub proof fn law_nothing_else_is_stated_of_an_element(n: AxNode, key: Seq<char>)
    requires
        element::element_entries(n).contains_key(key),
    ensures
        key == "role"@ || key == "subrole"@ || key == "title"@ || key == "value"@ || key == "desc"@
            || key == "help"@ || key == "selected"@ || key == "focused"@ || key == "x"@ || key
            == "y"@ || key == "w"@ || key == "h"@,
{
}

/// The object of an element states the element whole, and nothing else.
pub proof fn law_element_is_stated_whole(n: AxNode)
    ensures
        states_only_element(element::element_entries(n), n),
{
    let d = element::element_entries(n);
    law_flags_are_stated_where_set(n, d);
    law_texts_are_stated_where_not_empty(n, d);
    law_place_is_stated_where_known(n, d);
    assert forall|key: Seq<char>| #[trigger] d.contains_key(key) implies is_element_key(key) by {
        law_nothing_else_is_stated_of_an_element(n, key);
    }
}

/// Elements whose objects are equal agree in all that is stated of elements:
/// nothing that is stated of one is lost.
pub proof fn law_object_tells_the_element(a: AxNode, b: AxNode)
    requires
        element::element_entries(a) == element::element_entries(b),
    ensures
        a.role@ == b.role@,
        a.subrole@ == b.subrole@,
        a.title@ == b.title@,
        a.value@ == b.value@,
        a.desc@ == b.desc@,
        a.help@ == b.help@,
        a.selected == b.selected,
        a.focused == b.focused,
        same_place(a, b),
{
    law_element_is_stated_whole(a);
    law_element_is_stated_whole(b);
    assert(states_element(element::element_entries(a), a));
    assert(states_element(element::element_entries(a), b));
    lemma_empty_texts(a.subrole@, b.subrole@);
    lemma_empty_texts(a.title@, b.title@);
    lemma_empty_texts(a.value@, b.value@);
    lemma_empty_texts(a.desc@, b.desc@);
    lemma_empty_texts(a.help@, b.help@);
}

/// There is one empty text.
proof fn lemma_empty_texts(a: Seq<char>, b: Seq<char>)
    ensures
        a.len() == 0 && b.len() == 0 ==> a == b,
{
    if a.len() == 0 && b.len() == 0 {
        assert(a =~= b);
    }
}

/// A label that is selected or has the focus is marked, whatever it contains.
/// Otherwise it is marked exactly where there are labels among its children and the
/// first of them is selected or has the focus; what comes behind the first one has
/// no part in it.
pub proof fn law_marks_come_from_the_label_or_its_first_label(n: AxNode, i: int)
    ensures
        n.selected || n.focused ==> element::label_selected(n),
        !n.selected && !n.focused && (forall|j: int|
            0 <= j < n.children@.len() ==> (#[trigger] n.children@[j]).role@ != "AXStaticText"@)
            ==> !element::label_selected(n),
        !n.selected && !n.focused && 0 <= i < n.children@.len() && n.children@[i].role@
            == "AXStaticText"@ && (forall|j: int|
            0 <= j < i ==> (#[trigger] n.children@[j]).role@ != "AXStaticText"@) ==> (
        element::label_selected(n) <==> n.children@[i].selected || n.children@[i].focused),
{
    if !n.selected && !n.focused && 0 <= i < n.children@.len() && n.children@[i].role@
        == "AXStaticText"@ && (forall|j: int|
        0 <= j < i ==> (#[trigger] n.children@[j]).role@ != "AXStaticText"@) {
        assert(element::first_label_at(n.children@, i)) by {
            assert forall|j: int| 0 <= j < i implies !(#[trigger] n.children@[j]).is_static_text() by {
                assert(n.children@[j].role@ != "AXStaticText"@);
            }
        }
        if element::label_selected(n) {
            let k = choose|k: int| #[trigger]
                element::first_label_at(n.children@, k) && (n.children@[k].selected
                    || n.children@[k].focused);
            if k < i {
                assert(n.children@[k].role@ != "AXStaticText"@);
            }
            if i < k {
                assert(!n.children@[i].is_static_text());
            }
        }
    }
}

/// A label is marked as selected exactly where it is selected or has the focus, or
/// the first label among its children is or has.
pub proof fn law_label_is_marked_by_itself_or_its_first_label(n: AxNode)
    ensures
        element::label_selected(n) <==> is_marked(n),
{
    assert forall|i: int| #[trigger]
        is_first_label(n, i) <==> element::first_label_at(n.children@, i) by {
        if is_first_label(n, i) {
            assert forall|j: int| 0 <= j < i implies !(#[trigger] n.children@[j]).is_static_text() by {
                assert(n.children@[j].role@ != "AXStaticText"@);
            }
        }
    }
    if element::label_selected(n) && !n.selected && !n.focused {
        let i = choose|i: int| #[trigger]
            element::first_label_at(n.children@, i) && (n.children@[i].selected
                || n.children@[i].focused);
        assert(is_first_label(n, i));
    }
}

/// A list item is an object that always states its number, the text of its label
/// (the value, or the title where the value is empty) and whether the label is
/// marked; it states the place of the label exactly where that is known, and
/// nothing else.
pub proof fn law_item_states_its_label(n: AxNode, index: int, d: Map<Seq<char>, Json>)
    requires
        Json::Obj(d) == element::item_json(n, index),
    ensures
        d.contains_key("index"@),
        d["index"@] == Json::Int(index),
        d.contains_key("text"@),
        n.value@.len() > 0 ==> d["text"@] == Json::Str(n.value@),
        n.value@.len() == 0 ==> d["text"@] == Json::Str(n.title@),
        d.contains_key("selected"@),
        d["selected"@] == Json::Bool(element::label_selected(n)),
        d.contains_key("x"@) <==> n.position is Some && n.size is Some,
        d.contains_key("y"@) <==> n.position is Some && n.size is Some,
        d.contains_key("w"@) <==> n.position is Some && n.size is Some,
        d.contains_key("h"@) <==> n.position is Some && n.size is Some,
        d.contains_key("x"@) ==> d["x"@] == Json::Int(n.position->0.x as int),
        d.contains_key("y"@) ==> d["y"@] == Json::Int(n.position->0.y as int),
        d.contains_key("w"@) ==> d["w"@] == Json::Int(n.size->0.w as int),
        d.contains_key("h"@) ==> d["h"@] == Json::Int(n.size->0.h as int),
        forall|key: Seq<char>| #[trigger]
            d.contains_key(key) ==> key == "index"@ || key == "text"@ || key == "selected"@ || key
                == "x"@ || key == "y"@ || key == "w"@ || key == "h"@,
{
    element::lemma_keys_differ();
}

/// A list item states its label whole, and nothing else.
pub proof fn law_item_is_stated_whole(n: AxNode, index: int)
    ensures
        states_item(element::item_json(n, index), n, index),
{
    law_item_states_its_label(n, index, element::item_json(n, index)->Obj_0);
    law_label_is_marked_by_itself_or_its_first_label(n);
}

/// Labels become items one by one, in their order, numbered without gaps.
pub proof fn law_each_label_is_one_item(labels: Seq<AxNode>, first: int)
    ensures
        popup::numbered(labels, first).len() == labels.len(),
        forall|i: int|
            0 <= i < labels.len() ==> states_item(
                #[trigger] popup::numbered(labels, first)[i],
                labels[i],
                first + i,
            ),
        forall|i: int|
            0 <= i < labels.len() ==> #[trigger] popup::numbered(labels, first)[i]
                == element::item_json(labels[i], first + i),
{
    assert forall|i: int| 0 <= i < labels.len() implies states_item(
        #[trigger] popup::numbered(labels, first)[i],
        labels[i],
        first + i,
    ) by {
        law_item_is_stated_whole(labels[i], first + i);
    }
}

/// The items of a popup are exactly the labels that a path of at most ten steps
/// reaches from it without going through a label: there is one item for each such
/// path, the items follow each other as the labels do, each carries the text and
/// the number of its label, and there are items exactly where there is such a
/// path.
pub proof fn law_popup_lists_its_labels(n: AxNode) -> (paths: Seq<Seq<int>>)
    ensures
        walk::in_order(paths),
        forall|path: Seq<int>| #[trigger]
            paths.contains(path) <==> {
                &&& walk::is_path(n, path)
                &&& path.len() <= 10
                &&& forall|k: int|
                    0 <= k < path.len() ==> walk::element_at(n, #[trigger] path.take(k)).role@
                        != "AXStaticText"@
                &&& walk::element_at(n, path).role@ == "AXStaticText"@
            },
        popup::popup_entries(n).contains_key("items"@) <==> paths.len() > 0,
        paths.len() > 0 ==> popup::popup_entries(n)["items"@] is Arr,
        paths.len() > 0 ==> popup::popup_entries(n)["items"@]->Arr_0.len() == paths.len(),
        forall|i: int|
            0 <= i < paths.len() ==> #[trigger] popup::popup_entries(n)["items"@]->Arr_0[i]
                == element::item_json(walk::element_at(n, paths[i]), i),
        lists_labels_at(popup::popup_entries(n), n, paths),
{
    let paths = Sought::Labels.paths(n, 0);
    walk::law_listed_labels_are_found(n);
    let labels = popup::labels_in(n, 0);
    law_each_label_is_one_item(labels, 0);
    assert(popup::popup_entries(n).contains_key("items"@) <==> labels.len() > 0);
    assert forall|path: Seq<int>| #[trigger] paths.contains(path) <==> {
        &&& walk::is_path(n, path)
        &&& path.len() <= 10
        &&& forall|k: int|
            0 <= k < path.len() ==> walk::element_at(n, #[trigger] path.take(k)).role@
                != "AXStaticText"@
        &&& walk::element_at(n, path).role@ == "AXStaticText"@
    } by {
        assert(paths.contains(path) <==> walk::is_listed(n, path));
    }
    paths
}

/// For every label that a path of at most ten steps reaches from a popup without
/// going through a label, the popup has an item with its text.
pub proof fn law_every_listed_label_has_its_item(n: AxNode, path: Seq<int>) -> (i: int)
    requires
        walk::is_path(n, path),
        path.len() <= 10,
        forall|k: int|
            0 <= k < path.len() ==> walk::element_at(n, #[trigger] path.take(k)).role@
                != "AXStaticText"@,
        walk::element_at(n, path).role@ == "AXStaticText"@,
    ensures
        popup::popup_entries(n).contains_key("items"@),
        popup::popup_entries(n)["items"@] is Arr,
        0 <= i < popup::popup_entries(n)["items"@]->Arr_0.len(),
        popup::popup_entries(n)["items"@]->Arr_0[i] is Obj,
        popup::popup_entries(n)["items"@]->Arr_0[i]->Obj_0.contains_key("text"@),
        popup::popup_entries(n)["items"@]->Arr_0[i]->Obj_0["text"@] == Json::Str(
            if walk::element_at(n, path).value@.len() > 0 {
                walk::element_at(n, path).value@
            } else {
                walk::element_at(n, path).title@
            },
        ),
{
    let paths = law_popup_lists_its_labels(n);
    assert(paths.contains(path));
    let i = choose|i: int| 0 <= i < paths.len() && paths[i] == path;
    let item = popup::popup_entries(n)["items"@]->Arr_0[i];
    assert(item == element::item_json(walk::element_at(n, paths[i]), i));
    law_item_states_its_label(walk::element_at(n, path), i, item->Obj_0);
    i
}

/// A popup states all that its element has and lists its labels, and states
/// nothing else.
pub proof fn law_popup_is_stated_whole(n: AxNode)
    ensures
        states_popup(popup::popup_entries(n), n),
{
    element::lemma_keys_differ();
    let paths = law_popup_lists_its_labels(n);
    assert forall|path: Seq<int>| #[trigger] paths.contains(path) <==> walk::is_listed(n, path) by {
    }
    assert(walk::are_all_listed(n, paths) && lists_labels_at(popup::popup_entries(n), n, paths));
}

/// Popups become objects one by one, in their order.
pub proof fn law_each_popup_is_one_object(popups: Seq<AxNode>)
    ensures
        popup::all_popup_entries(popups).len() == popups.len(),
        forall|i: int|
            0 <= i < popups.len() ==> states_popup(
                #[trigger] popup::all_popup_entries(popups)[i],
                popups[i],
            ),
        forall|i: int|
            0 <= i < popups.len() ==> #[trigger] popup::all_popup_entries(popups)[i]
                == popup::popup_entries(popups[i]),
{
    assert forall|i: int| 0 <= i < popups.len() implies states_popup(
        #[trigger] popup::all_popup_entries(popups)[i],
        popups[i],
    ) by {
        law_popup_is_stated_whole(popups[i]);
    }
}

/// The popups of a snapshot are exactly those to which a path leads from a window,
/// in at most fourteen steps and through no popup and no page, and before which no
/// such path leads to one with the same role and place: one value for each of
/// these paths, in their order, and each states its popup whole.
pub proof fn law_snapshot_shows_each_popup_once(pid: int, c: Capture) -> (paths: Seq<Seq<int>>)
    ensures
        are_all_shown(c.windows@, paths),
        shows_popups_at(snapshot::snapshot_of(pid, c).popups, c.windows@, paths),
{
    lemma_shown_paths(c.windows@)
}

/// The same of the popups of windows.
pub proof fn law_window_popups_are_shown(windows: Seq<AxNode>)
    ensures
        shows_popups(dedup::as_objects(snapshot::window_popups(windows)), windows),
{
    let paths = lemma_shown_paths(windows);
    assert(are_all_shown(windows, paths) && shows_popups_at(
        dedup::as_objects(snapshot::window_popups(windows)),
        windows,
        paths,
    ));
}

/// The paths to the popups of windows that are shown.
proof fn lemma_shown_paths(windows: Seq<AxNode>) -> (paths: Seq<Seq<int>>)
    ensures
        are_all_shown(windows, paths),
        shows_popups_at(dedup::as_objects(snapshot::window_popups(windows)), windows, paths),
{
    let all = Sought::Popups.paths_all(windows, 0);
    let found = popup::popups_in_all(windows, 0);
    let s = snapshot::sightings(windows);
    let places = dedup::first_places(s);
    walk::law_open_popups_are_found(windows);
    dedup::law_first_sightings_in_order(s);
    assert forall|i: int| 0 <= i < places.len() implies 0 <= #[trigger] places[i] < all.len() by {
        assert(dedup::is_first_sighting(s, places[i]));
    }
    let paths = Seq::new(places.len(), |i: int| all[places[i]]);
    assert forall|i: int, j: int| 0 <= i < j < paths.len() implies walk::stands_before(
        #[trigger] paths[i],
        #[trigger] paths[j],
    ) by {
        assert(places[i] < places[j]);
        assert(walk::stands_before(all[places[i]], all[places[j]]));
    }
    assert forall|path: Seq<int>| #[trigger] paths.contains(path) <==> is_shown(windows, path) by {
        if paths.contains(path) {
            let i = choose|i: int| 0 <= i < paths.len() && paths[i] == path;
            assert(dedup::is_first_sighting(s, places[i]));
            lemma_first_sighting_is_shown(windows, places[i]);
        }
        if is_shown(windows, path) {
            assert(all.contains(path));
            let k = choose|k: int| 0 <= k < all.len() && all[k] == path;
            lemma_first_sighting_is_shown(windows, k);
            let i = choose|i: int| 0 <= i < places.len() && places[i] == k;
            assert(paths[i] == path);
        }
    }
    let popups = dedup::as_objects(snapshot::window_popups(windows));
    assert forall|i: int| 0 <= i < paths.len() implies (#[trigger] popups[i]) is Obj && states_popup(
        popups[i]->Obj_0,
        walk::popup_at(windows, paths[i]),
    ) by {
        let k = places[i];
        assert(dedup::is_first_sighting(s, k));
        assert(s[k] == popup::popup_entries(found[k]));
        assert(found[k] == walk::popup_at(windows, all[k]));
        law_popup_is_stated_whole(found[k]);
    }
    paths
}

/// A sighting is the first of its popup exactly where its path is shown.
proof fn lemma_first_sighting_is_shown(windows: Seq<AxNode>, k: int)
    requires
        0 <= k < Sought::Popups.paths_all(windows, 0).len(),
    ensures
        dedup::is_first_sighting(snapshot::sightings(windows), k) <==> is_shown(
            windows,
            Sought::Popups.paths_all(windows, 0)[k],
        ),
{
    let all = Sought::Popups.paths_all(windows, 0);
    let found = popup::popups_in_all(windows, 0);
    let s = snapshot::sightings(windows);
    walk::law_open_popups_are_found(windows);
    assert(all.contains(all[k]));
    assert forall|j: int| 0 <= j < all.len() implies (dedup::popup_key(#[trigger] s[j])
        == dedup::popup_key(s[k]) <==> walk::popup_at(windows, all[j]).role@ == walk::popup_at(
        windows,
        all[k],
    ).role@ && same_place(walk::popup_at(windows, all[j]), walk::popup_at(windows, all[k]))) by {
        assert(found[j] == walk::popup_at(windows, all[j]));
        assert(found[k] == walk::popup_at(windows, all[k]));
        laws::law_sightings_of_one(found[j], found[k]);
    }
    if dedup::is_first_sighting(s, k) {
        assert forall|earlier: Seq<int>| #[trigger]
            walk::leads_to_popup(windows, earlier) && walk::stands_before(
                earlier,
                all[k],
            ) implies !(walk::popup_at(windows, earlier).role@ == walk::popup_at(
            windows,
            all[k],
        ).role@ && same_place(walk::popup_at(windows, earlier), walk::popup_at(windows, all[k]))) by {
            assert(all.contains(earlier));
            let j = choose|j: int| 0 <= j < all.len() && all[j] == earlier;
            walk::law_standing_before_is_an_order(all[j], all[k]);
            if j > k {
                assert(walk::stands_before(all[k], all[j]));
            }
            assert(dedup::popup_key(s[j]) != dedup::popup_key(s[k]));
        }
    }
    if is_shown(windows, all[k]) {
        assert forall|j: int| 0 <= j < k implies dedup::popup_key(#[trigger] s[j])
            != dedup::popup_key(s[k]) by {
            assert(walk::stands_before(all[j], all[k]));
            assert(all.contains(all[j]));
            assert(walk::leads_to_popup(windows, all[j]));
        }
    }
}

/// What a snapshot gives as focused is the object of the element that the process
/// tells; where it tells none, that of the element that the system tells, whatever
/// windows there are; and null only where neither tells one.
pub proof fn law_focus_is_as_the_process_or_the_system_tells(pid: int, c: Capture)
    ensures
        c.app_focused matches Some(n) ==> snapshot::snapshot_of(pid, c).focused == Json::Obj(
            element::element_entries(n),
        ),
        c.app_focused is None ==> (c.system_focused matches Some(n) ==> snapshot::snapshot_of(
            pid,
            c,
        ).focused == Json::Obj(element::element_entries(n))),
        snapshot::snapshot_of(pid, c).focused is Null <==> c.app_focused is None
            && c.system_focused is None,
        snapshot::snapshot_of(pid, c).pid == pid,
        snapshot::snapshot_of(pid, c).windows == c.windows@.len(),
{
}

/// Of the popups that are found in the windows, in the order in which they are
/// found, a snapshot has those before which none with the same role and the same
/// place was found, in this order; each is the object of its popup.
pub proof fn law_first_of_each_role_and_place_is_kept(pid: int, c: Capture) -> (kept: Seq<int>)
    ensures
        forall|i: int, j: int| 0 <= i < j < kept.len() ==> kept[i] < kept[j],
        forall|k: int| #[trigger]
            kept.contains(k) <==> 0 <= k < popup::popups_in_all(c.windows@, 0).len() && (forall|
                j: int,
            |
                0 <= j < k ==> {
                    let a = #[trigger] popup::popups_in_all(c.windows@, 0)[j];
                    let b = popup::popups_in_all(c.windows@, 0)[k];
                    ||| a.role@ != b.role@
                    ||| (a.position is Some && a.size is Some) != (b.position is Some
                        && b.size is Some)
                    ||| a.position is Some && a.size is Some && (a.position != b.position || a.size
                        != b.size)
                }),
        snapshot::snapshot_of(pid, c).popups.len() == kept.len(),
        forall|i: int|
            0 <= i < kept.len() ==> #[trigger] snapshot::snapshot_of(pid, c).popups[i] == Json::Obj(
                popup::popup_entries(popup::popups_in_all(c.windows@, 0)[kept[i]]),
            ),
{
    let found = popup::popups_in_all(c.windows@, 0);
    let s = snapshot::sightings(c.windows@);
    let kept = dedup::first_places(s);
    dedup::law_first_sightings_in_order(s);
    assert forall|k: int| #[trigger] kept.contains(k) <==> 0 <= k < found.len() && (forall|j: int|
        0 <= j < k ==> {
            let a = #[trigger] found[j];
            let b = found[k];
            ||| a.role@ != b.role@
            ||| (a.position is Some && a.size is Some) != (b.position is Some && b.size is Some)
            ||| a.position is Some && a.size is Some && (a.position != b.position || a.size
                != b.size)
        }) by {
        if kept.contains(k) {
            let i = choose|i: int| 0 <= i < kept.len() && kept[i] == k;
            assert(dedup::is_first_sighting(s, kept[i]));
        }
        if 0 <= k < found.len() {
            assert forall|j: int| 0 <= j < k implies (dedup::popup_key(#[trigger] s[j])
                == dedup::popup_key(s[k]) <==> laws::same_popup(found[j], found[k])) by {
                laws::law_sightings_of_one(found[j], found[k]);
            }
            if kept.contains(k) {
                assert forall|j: int| 0 <= j < k implies {
                    let a = #[trigger] found[j];
                    let b = found[k];
                    ||| a.role@ != b.role@
                    ||| (a.position is Some && a.size is Some) != (b.position is Some
                        && b.size is Some)
                    ||| a.position is Some && a.size is Some && (a.position != b.position || a.size
                        != b.size)
                } by {
                    assert(dedup::popup_key(s[j]) != dedup::popup_key(s[k]));
                }
            } else {
                assert(!dedup::is_first_sighting(s, k));
                let j = choose|j: int|
                    0 <= j < k && dedup::popup_key(#[trigger] s[j]) == dedup::popup_key(s[k]);
                assert(laws::same_popup(found[j], found[k]));
            }
        }
    }
    assert forall|i: int| 0 <= i < kept.len() implies #[trigger] snapshot::snapshot_of(
        pid,
        c,
    ).popups[i] == Json::Obj(popup::popup_entries(found[kept[i]])) by {
        assert(dedup::is_first_sighting(s, kept[i]));
        assert(s[kept[i]] == popup::popup_entries(found[kept[i]]));
    }
    kept
}

/// A snapshot says of a captured process all that is to be said.
pub proof fn law_snapshot_states_the_capture(pid: int, c: Capture)
    ensures
        states_capture(snapshot::snapshot_of(pid, c), pid, c),
{
    law_focus_is_as_the_process_or_the_system_tells(pid, c);
    match c.app_focused {
        Some(n) => law_element_is_stated_whole(n),
        None => match c.system_focused {
            Some(n) => law_element_is_stated_whole(n),
            None => {},
        },
    }
    let paths = law_snapshot_shows_each_popup_once(pid, c);
    assert(are_all_shown(c.windows@, paths) && shows_popups_at(
        snapshot::snapshot_of(pid, c).popups,
        c.windows@,
        paths,
    ));
}

/// The windows have no part in what is focused, the focus has none in the popups,
/// and the process id has none in either.
pub proof fn law_parts_of_a_snapshot_are_independent(pid: int, c: Capture, other: int, d: Capture)
    ensures
        c.app_focused == d.app_focused && c.system_focused == d.system_focused
            ==> snapshot::snapshot_of(pid, c).focused == snapshot::snapshot_of(other, d).focused,
        c.app_focused is Some && c.app_focused == d.app_focused ==> snapshot::snapshot_of(
            pid,
            c,
        ).focused == snapshot::snapshot_of(other, d).focused,
        c.windows@ == d.windows@ ==> snapshot::snapshot_of(pid, c).popups == snapshot::snapshot_of(
            other,
            d,
        ).popups && snapshot::snapshot_of(pid, c).windows == snapshot::snapshot_of(other, d).windows,
        snapshot::snapshot_of(pid, c).pid == snapshot::snapshot_of(other, d).pid <==> pid == other,
{
}

/// The JSON of a snapshot is an object that has the process id, what is focused,
/// the popups, the time and the number of windows, each under its key, and no other
/// key.
pub proof fn law_json_states_the_snapshot(
    s: SnapshotView,
    elapsed_ms: int,
    d: Map<Seq<char>, Json>,
)
    requires
        Json::Obj(d) == snapshot::snapshot_json(s, elapsed_ms),
    ensures
        d.contains_key("pid"@),
        d["pid"@] == Json::Int(s.pid),
        d.contains_key("focused"@),
        d["focused"@] == s.focused,
        d.contains_key("popups"@),
        d["popups"@] == Json::Arr(s.popups),
        d.contains_key("elapsed_ms"@),
        d["elapsed_ms"@] == Json::Int(elapsed_ms),
        d.contains_key("windows"@),
        d["windows"@] == Json::Int(s.windows as int),
        forall|key: Seq<char>| #[trigger]
            d.contains_key(key) ==> key == "pid"@ || key == "focused"@ || key == "popups"@ || key
                == "elapsed_ms"@ || key == "windows"@,
{
    snapshot::lemma_snapshot_keys_differ();
}

/// The JSON of a snapshot states the snapshot whole, and nothing else.
pub proof fn law_snapshot_is_stated_whole(s: SnapshotView, elapsed_ms: int)
    ensures
        states_snapshot(snapshot::snapshot_json(s, elapsed_ms), s, elapsed_ms),
{
    law_json_states_the_snapshot(s, elapsed_ms, snapshot::snapshot_json(s, elapsed_ms)->Obj_0);
}

/// Snapshots and times with one JSON are the same snapshot and the same time.
pub proof fn law_json_tells_the_snapshot(
    s: SnapshotView,
    elapsed_ms: int,
    t: SnapshotView,
    other_ms: int,
)
    requires
        snapshot::snapshot_json(s, elapsed_ms) == snapshot::snapshot_json(t, other_ms),
    ensures
        s == t,
        elapsed_ms == other_ms,
{
    law_snapshot_is_stated_whole(s, elapsed_ms);
    law_snapshot_is_stated_whole(t, other_ms);
}

} // verus!
