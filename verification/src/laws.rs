//! What holds of every snapshot.

use crate::dedup;
use crate::element;
use crate::json::Json;
use crate::node::{AxNode, Extent, Point};
use crate::popup;
use crate::snapshot;
use vstd::prelude::*;
use vstd::string::*;

verus! {

/// The place of an element on the screen, where it is known.
pub open spec fn place(n: AxNode) -> Option<(Point, Extent)> {
    match (n.position, n.size) {
        (Some(p), Some(s)) => Some((p, s)),
        _ => None,
    }
}

/// An element states its role, and of its place either all four numbers or
/// none: they are stated exactly where position and size are both known.
pub proof fn law_role_always_place_whole(n: AxNode)
    ensures
        element::element_entries(n).contains_key("role"@),
        element::element_entries(n)["role"@] == Json::Str(n.role@),
        element::element_entries(n).contains_key("x"@) == (place(n) is Some),
        element::element_entries(n).contains_key("y"@) == (place(n) is Some),
        element::element_entries(n).contains_key("w"@) == (place(n) is Some),
        element::element_entries(n).contains_key("h"@) == (place(n) is Some),
        place(n) matches Some((p, s)) ==> {
            &&& element::element_entries(n)["x"@] == Json::Int(p.x as int)
            &&& element::element_entries(n)["y"@] == Json::Int(p.y as int)
            &&& element::element_entries(n)["w"@] == Json::Int(s.w as int)
            &&& element::element_entries(n)["h"@] == Json::Int(s.h as int)
        },
{
    element::lemma_keys_differ();
}

/// Besides the role, an element states no empty text and no flag that is not
/// set.
pub proof fn law_nothing_empty_is_stated(n: AxNode, key: Seq<char>)
    requires
        element::element_entries(n).contains_key(key),
        key != "role"@,
    ensures
        element::element_entries(n)[key] != Json::Str(Seq::empty()),
        element::element_entries(n)[key] != Json::Bool(false),
{
}

/// A popup states all that its element states, and its items besides.
pub proof fn law_popup_states_its_element(n: AxNode, key: Seq<char>)
    requires
        key != "items"@,
    ensures
        popup::popup_entries(n).contains_key(key) == element::element_entries(n).contains_key(key),
        popup::popup_entries(n).contains_key(key) ==> popup::popup_entries(n)[key]
            == element::element_entries(n)[key],
{
}

/// A popup never states an empty list; the items of its list are numbered from
/// zero, without gaps, in their order.
pub proof fn law_items_are_numbered(n: AxNode)
    ensures
        popup::popup_entries(n).contains_key("items"@) ==> {
            &&& popup::popup_entries(n)["items"@] is Arr
            &&& popup::popup_entries(n)["items"@]->Arr_0.len() > 0
            &&& forall|i: int|
                0 <= i < popup::popup_entries(n)["items"@]->Arr_0.len() ==> {
                    &&& (#[trigger] popup::popup_entries(n)["items"@]->Arr_0[i]) is Obj
                    &&& popup::popup_entries(n)["items"@]->Arr_0[i]->Obj_0.contains_key("index"@)
                    &&& popup::popup_entries(n)["items"@]->Arr_0[i]->Obj_0["index"@] == Json::Int(i)
                }
        },
{
}

/// All that is found as a popup has the shape of one and is no page.
pub proof fn law_found_are_popups(n: AxNode, depth: nat, i: int)
    requires
        0 <= i < popup::popups_in(n, depth).len(),
    ensures
        popup::popups_in(n, depth)[i].is_popup(),
        !popup::popups_in(n, depth)[i].is_web_area(),
    decreases n,
{
    if !n.is_popup() {
        lemma_found_in_all_are_popups(n.children@, depth + 1, i);
    }
}

proof fn lemma_found_in_all_are_popups(s: Seq<AxNode>, depth: nat, i: int)
    requires
        0 <= i < popup::popups_in_all(s, depth).len(),
    ensures
        popup::popups_in_all(s, depth)[i].is_popup(),
        !popup::popups_in_all(s, depth)[i].is_web_area(),
    decreases s,
{
    let front = popup::popups_in_all(s.drop_last(), depth);
    if i < front.len() {
        lemma_found_in_all_are_popups(s.drop_last(), depth, i);
    } else {
        law_found_are_popups(s.last(), depth, i - front.len());
    }
}

/// Nothing is found inside a page, and inside a popup no further popup.
pub proof fn law_pages_and_popups_are_closed(n: AxNode, depth: nat)
    ensures
        n.is_web_area() ==> popup::popups_in(n, depth) == Seq::<AxNode>::empty(),
        n.is_popup() && !n.is_web_area() && depth <= popup::MAX_WALK_DEPTH ==> popup::popups_in(
            n,
            depth,
        ) == seq![n],
{
}

/// All that is listed as an item is a label.
pub proof fn law_items_are_labels(n: AxNode, depth: nat, i: int)
    requires
        0 <= i < popup::labels_in(n, depth).len(),
    ensures
        popup::labels_in(n, depth)[i].is_static_text(),
    decreases n,
{
    if !n.is_static_text() {
        lemma_items_of_all_are_labels(n.children@, depth + 1, i);
    }
}

proof fn lemma_items_of_all_are_labels(s: Seq<AxNode>, depth: nat, i: int)
    requires
        0 <= i < popup::labels_in_all(s, depth).len(),
    ensures
        popup::labels_in_all(s, depth)[i].is_static_text(),
    decreases s,
{
    let front = popup::labels_in_all(s.drop_last(), depth);
    if i < front.len() {
        lemma_items_of_all_are_labels(s.drop_last(), depth, i);
    } else {
        law_items_are_labels(s.last(), depth, i - front.len());
    }
}

/// Two popups are taken for sightings of one exactly where their roles and
/// their places agree.
pub proof fn law_sightings_of_one(a: AxNode, b: AxNode)
    ensures
        dedup::popup_key(popup::popup_entries(a)) == dedup::popup_key(popup::popup_entries(b)) <==> same_popup(a, b),
{
    snapshot::lemma_integer_place(a);
    snapshot::lemma_integer_place(b);
    let p = popup::popup_entries(a);
    let q = popup::popup_entries(b);
    dedup::law_key_tells_role_and_place(p, q);
    element::lemma_keys_differ();
    law_role_always_place_whole(a);
    law_role_always_place_whole(b);
    assert(dedup::stated_role(p) == a.role@);
    assert(dedup::stated_role(q) == b.role@);
    if dedup::same_role_and_place(p, q) {
        if place(a) is Some {
            assert(p.contains_key("x"@));
            assert(p["x"@] == q["x"@] && p["y"@] == q["y"@] && p["w"@] == q["w"@] && p["h"@]
                == q["h"@]);
        } else {
            assert(!p.contains_key("x"@));
        }
    }
}

/// Every popup of a snapshot is one that was found in a window.
proof fn lemma_shown_was_found(windows: Seq<AxNode>, i: int) -> (k: int)
    requires
        0 <= i < snapshot::window_popups(windows).len(),
    ensures
        0 <= k < popup::popups_in_all(windows, 0).len(),
        snapshot::window_popups(windows)[i] == popup::popup_entries(
            popup::popups_in_all(windows, 0)[k],
        ),
{
    let s = snapshot::sightings(windows);
    dedup::law_first_sightings_in_order(s);
    let k = dedup::first_places(s)[i];
    assert(dedup::is_first_sighting(s, k));
    k
}

/// No two popups of a snapshot state the same role and the same place.
pub proof fn law_popups_differ(windows: Seq<AxNode>, i: int, j: int)
    requires
        0 <= i < j < snapshot::window_popups(windows).len(),
    ensures
        !dedup::same_role_and_place(
            snapshot::window_popups(windows)[i],
            snapshot::window_popups(windows)[j],
        ),
{
    let found = popup::popups_in_all(windows, 0);
    let a = lemma_shown_was_found(windows, i);
    let b = lemma_shown_was_found(windows, j);
    snapshot::lemma_integer_place(found[a]);
    snapshot::lemma_integer_place(found[b]);
    dedup::law_no_two_alike(snapshot::sightings(windows), i, j);
    dedup::law_key_tells_role_and_place(
        snapshot::window_popups(windows)[i],
        snapshot::window_popups(windows)[j],
    );
}

/// Every popup that is found in a window is in the snapshot, by itself or by an
/// earlier sighting with its role and its place.
pub proof fn law_every_popup_is_shown(windows: Seq<AxNode>, k: int)
    requires
        0 <= k < popup::popups_in_all(windows, 0).len(),
    ensures
        exists|i: int|
            0 <= i < snapshot::window_popups(windows).len() && dedup::same_role_and_place(
                popup::popup_entries(popup::popups_in_all(windows, 0)[k]),
                #[trigger] snapshot::window_popups(windows)[i],
            ),
{
    let found = popup::popups_in_all(windows, 0);
    let s = snapshot::sightings(windows);
    let shown = snapshot::window_popups(windows);
    assert(s[k] == popup::popup_entries(found[k]));
    dedup::law_every_popup_is_kept(s, k);
    let i = choose|i: int|
        0 <= i < shown.len() && dedup::popup_key(#[trigger] shown[i]) == dedup::popup_key(s[k]);
    let a = lemma_shown_was_found(windows, i);
    snapshot::lemma_integer_place(found[k]);
    snapshot::lemma_integer_place(found[a]);
    dedup::law_key_tells_role_and_place(s[k], shown[i]);
}

/// Whether two elements have the same role and the same place.
pub open spec fn same_popup(a: AxNode, b: AxNode) -> bool {
    a.role@ == b.role@ && place(a) == place(b)
}

/// Whether a popup with this role and place is found in the windows.
pub open spec fn is_found_in(windows: Seq<AxNode>, n: AxNode) -> bool {
    exists|i: int|
        0 <= i < popup::popups_in_all(windows, 0).len() && same_popup(
            #[trigger] popup::popups_in_all(windows, 0)[i],
            n,
        )
}

/// The browser shows one popup from several windows. A window whose popups are
/// all found in other windows adds nothing to a snapshot that has those windows.
pub proof fn law_window_with_known_popups_adds_nothing(windows: Seq<AxNode>, window: AxNode)
    requires
        forall|k: int|
            0 <= k < popup::popups_in(window, 0).len() ==> is_found_in(
                windows,
                #[trigger] popup::popups_in(window, 0)[k],
            ),
    ensures
        snapshot::window_popups(windows.push(window)) == snapshot::window_popups(windows),
{
    let found = popup::popups_in_all(windows, 0);
    let again = popup::popups_in(window, 0);
    let s = snapshot::sightings(windows);
    let t = popup::all_popup_entries(again);
    assert(windows.push(window).drop_last() =~= windows);
    assert(snapshot::sightings(windows.push(window)) =~= s + t);
    assert forall|k: int| 0 <= k < t.len() implies dedup::seen(
        s,
        dedup::popup_key(#[trigger] t[k]),
    ) by {
        assert(is_found_in(windows, again[k]));
        let i = choose|i: int| 0 <= i < found.len() && same_popup(#[trigger] found[i], again[k]);
        law_sightings_of_one(found[i], again[k]);
        assert(s[i] == popup::popup_entries(found[i]));
    }
    dedup::law_repeats_add_nothing(s, t);
}

} // verus!
