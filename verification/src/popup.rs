//! Popups: where they are in the tree of a window, and what they list.

use crate::element;
use crate::json;
use crate::json::Json;
use crate::node::{AxNode, STATIC_TEXT, WEB_AREA};
use crate::stated;
use serde_json::Value;
use vstd::prelude::*;
use vstd::string::*;

verus! {

/// How deep below a window popups are looked for.
pub const MAX_WALK_DEPTH: usize = 14;

/// How deep below a popup the items of its list are looked for.
pub const MAX_LIST_DEPTH: usize = 10;

/// The labels at or below an element that is `depth` levels below its popup, in
/// the order in which they stand. A label hides what is inside it.
pub open spec fn labels_in(n: AxNode, depth: nat) -> Seq<AxNode>
    decreases n,
{
    if depth > MAX_LIST_DEPTH {
        Seq::empty()
    } else if n.is_static_text() {
        seq![n]
    } else {
        labels_in_all(n.children@, depth + 1)
    }
}

/// The labels at or below each of a sequence of elements.
pub open spec fn labels_in_all(s: Seq<AxNode>, depth: nat) -> Seq<AxNode>
    decreases s,
{
    if s.len() == 0 {
        Seq::empty()
    } else {
        labels_in_all(s.drop_last(), depth) + labels_in(s.last(), depth)
    }
}

/// Labels as list items that are numbered from `first` on.
pub open spec fn numbered(labels: Seq<AxNode>, first: int) -> Seq<Json> {
    Seq::new(labels.len(), |i: int| element::item_json(labels[i], first + i))
}

/// What the JSON object of a popup has under a key: what the element has, and
/// its items, numbered from zero, where it has any.
pub open spec fn popup_field(n: AxNode, key: Seq<char>) -> Option<Json> {
    if key == "items"@ {
        if labels_in(n, 0).len() == 0 {
            None
        } else {
            Some(Json::Arr(numbered(labels_in(n, 0), 0)))
        }
    } else {
        element::element_field(n, key)
    }
}

/// The JSON object of a popup.
pub open spec fn popup_entries(n: AxNode) -> Map<Seq<char>, Json> {
    json::object_with(|key: Seq<char>| popup_field(n, key))
}

/// The popups at or below an element that is `depth` levels below its window,
/// in the order in which they stand. What is inside a page or inside a popup is
/// not looked at.
pub open spec fn popups_in(n: AxNode, depth: nat) -> Seq<AxNode>
    decreases n,
{
    if depth > MAX_WALK_DEPTH || n.is_web_area() {
        Seq::empty()
    } else if n.is_popup() {
        seq![n]
    } else {
        popups_in_all(n.children@, depth + 1)
    }
}

/// The popups at or below each of a sequence of elements.
pub open spec fn popups_in_all(s: Seq<AxNode>, depth: nat) -> Seq<AxNode>
    decreases s,
{
    if s.len() == 0 {
        Seq::empty()
    } else {
        popups_in_all(s.drop_last(), depth) + popups_in(s.last(), depth)
    }
}

/// The JSON objects of popups.
pub open spec fn all_popup_entries(popups: Seq<AxNode>) -> Seq<Map<Seq<char>, Json>> {
    popups.map_values(|n: AxNode| popup_entries(n))
}

/// The labels below some of a sequence of elements are no more than those below
/// all of them.
proof fn lemma_fewer_labels(s: Seq<AxNode>, depth: nat, i: int)
    requires
        0 <= i <= s.len(),
    ensures
        labels_in_all(s.take(i), depth).len() <= labels_in_all(s, depth).len(),
    decreases s.len(),
{
    if i < s.len() {
        lemma_fewer_labels(s.drop_last(), depth, i);
        assert(s.drop_last().take(i) =~= s.take(i));
    } else {
        assert(s.take(i) =~= s);
    }
}

/// Adds the labels at or below an element to a list of items, each with its
/// number, and counts them; what the list held before stays. The count must not
/// outgrow its type; that it cannot is plain where no more was counted than is in
/// the list.
pub fn collect_list_items(el: &AxNode, depth: usize, idx: &mut usize, items: &mut Vec<Value>)
    requires
        *old(idx) <= old(items)@.len() || *old(idx) + labels_in(*el, depth as nat).len()
            <= usize::MAX,
    ensures
        *final(idx) == *old(idx) + labels_in(*el, depth as nat).len(),
        json::json_seq(final(items)@) == json::json_seq(old(items)@) + numbered(
            labels_in(*el, depth as nat),
            *old(idx) as int,
        ),
        old(items)@.is_prefix_of(final(items)@),
    decreases *el,
{
    if depth > MAX_LIST_DEPTH {
        assert(json::json_seq(items@) =~= json::json_seq(items@) + numbered(
            labels_in(*el, depth as nat),
            *idx as int,
        ));
        return;
    }
    if el.role.as_str().eq(STATIC_TEXT) {
        let item = element::list_item(el, *idx);
        items.push(item);
        assert(items.len() == old(items)@.len() + 1);
        *idx += 1;
        assert(json::json_seq(items@) =~= json::json_seq(old(items)@) + numbered(
            seq![*el],
            *old(idx) as int,
        ));
        return;
    }
    let ghost before = json::json_seq(items@);
    let ghost first = *idx as int;
    let mut i: usize = 0;
    assert(before =~= before + numbered(labels_in_all(el.children@.take(0), depth as nat + 1), first));
    while i < el.children.len()
        invariant
            0 <= i <= el.children@.len(),
            depth <= MAX_LIST_DEPTH,
            *idx <= items@.len() || first + labels_in_all(el.children@, depth as nat + 1).len()
                <= usize::MAX,
            *idx == first + labels_in_all(el.children@.take(i as int), depth as nat + 1).len(),
            json::json_seq(items@) == before + numbered(
                labels_in_all(el.children@.take(i as int), depth as nat + 1),
                first,
            ),
            old(items)@.is_prefix_of(items@),
        decreases el.children@.len() - i,
    {
        let ghost done = labels_in_all(el.children@.take(i as int), depth as nat + 1);
        let ghost next = labels_in(el.children@[i as int], depth as nat + 1);
        assert(el.children@.take(i + 1).drop_last() =~= el.children@.take(i as int));
        proof {
            lemma_fewer_labels(el.children@, depth as nat + 1, i + 1);
        }
        collect_list_items(&el.children[i], depth + 1, idx, items);
        assert(json::json_seq(items@).len() == items@.len());
        assert(numbered(done + next, first) =~= numbered(done, first) + numbered(
            next,
            first + done.len(),
        ));
        assert(json::json_seq(items@) =~= before + numbered(done + next, first));
        i += 1;
    }
    assert(el.children@.take(i as int) =~= el.children@);
}

/// The object of a popup is that of its element, with its items where it has any.
proof fn lemma_items_are_all_that_is_added(n: AxNode)
    ensures
        popup_entries(n) == if labels_in(n, 0).len() == 0 {
            element::element_entries(n)
        } else {
            element::element_entries(n).insert(
                "items"@,
                Json::Arr(numbered(labels_in(n, 0), 0)),
            )
        },
{
    element::lemma_keys_differ();
    if labels_in(n, 0).len() == 0 {
        assert(popup_entries(n) =~= element::element_entries(n));
    } else {
        assert(popup_entries(n) =~= element::element_entries(n).insert(
            "items"@,
            Json::Arr(numbered(labels_in(n, 0), 0)),
        ));
    }
}

/// The JSON object of a popup: that of the element, with the items of its list.
pub fn popup_json(el: &AxNode) -> (entry: serde_json::Map<String, Value>)
    ensures
        json::entries_of(entry) == popup_entries(*el),
        stated::states_popup(json::entries_of(entry), *el),
{
    let mut entry = element::element_json(el);
    let mut items: Vec<Value> = Vec::new();
    let mut idx: usize = 0;
    collect_list_items(el, 0, &mut idx, &mut items);
    let ghost listed = json::json_seq(items@);
    assert(listed =~= numbered(labels_in(*el, 0), 0));
    if items.len() > 0 {
        json::insert(&mut entry, "items".to_owned(), json::array(items));
    }
    proof {
        lemma_items_are_all_that_is_added(*el);
        stated::law_popup_is_stated_whole(*el);
    }
    entry
}

/// Adds the popups at or below an element to the popups found so far, which stay
/// as they are.
pub fn find_popups(el: &AxNode, depth: usize, results: &mut Vec<serde_json::Map<String, Value>>)
    ensures
        json::entries_seq(final(results)@) == json::entries_seq(old(results)@) + all_popup_entries(
            popups_in(*el, depth as nat),
        ),
        old(results)@.is_prefix_of(final(results)@),
    decreases *el,
{
    if depth > MAX_WALK_DEPTH || el.role.as_str().eq(WEB_AREA) {
        assert(json::entries_seq(results@) =~= json::entries_seq(results@) + all_popup_entries(
            Seq::empty(),
        ));
        return;
    }
    if crate::node::is_popup_shape(el) {
        results.push(popup_json(el));
        assert(json::entries_seq(results@) =~= json::entries_seq(old(results)@) + all_popup_entries(
            seq![*el],
        ));
        return;
    }
    let ghost before = json::entries_seq(results@);
    let mut i: usize = 0;
    assert(before =~= before + all_popup_entries(
        popups_in_all(el.children@.take(0), depth as nat + 1),
    ));
    while i < el.children.len()
        invariant
            0 <= i <= el.children@.len(),
            depth <= MAX_WALK_DEPTH,
            json::entries_seq(results@) == before + all_popup_entries(
                popups_in_all(el.children@.take(i as int), depth as nat + 1),
            ),
            old(results)@.is_prefix_of(results@),
        decreases el.children@.len() - i,
    {
        let ghost done = popups_in_all(el.children@.take(i as int), depth as nat + 1);
        let ghost next = popups_in(el.children@[i as int], depth as nat + 1);
        find_popups(&el.children[i], depth + 1, results);
        assert(el.children@.take(i + 1).drop_last() =~= el.children@.take(i as int));
        assert(all_popup_entries(done + next) =~= all_popup_entries(done) + all_popup_entries(next));
        assert(json::entries_seq(results@) =~= before + all_popup_entries(done + next));
        i += 1;
    }
    assert(el.children@.take(i as int) =~= el.children@);
}

} // verus!
