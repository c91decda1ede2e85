//! An element as a JSON object, and a text label as an item of a list.

use crate::json;
use crate::json::Json;
use crate::node::{AxNode, STATIC_TEXT};
use crate::stated;
use serde_json::Value;
use vstd::prelude::*;
use vstd::string::*;

verus! {

/// A text attribute is left out where it is empty.
pub open spec fn text_field(text: Seq<char>) -> Option<Json> {
    if text.len() == 0 {
        None
    } else {
        Some(Json::Str(text))
    }
}

/// A flag is left out where it is not set.
pub open spec fn flag_field(flag: bool) -> Option<Json> {
    if flag {
        Some(Json::Bool(true))
    } else {
        None
    }
}

/// The place of an element on the screen: four keys, or none of them where its
/// position or its size is not known.
pub open spec fn frame_field(n: AxNode, key: Seq<char>) -> Option<Json> {
    match (n.position, n.size) {
        (Some(p), Some(s)) => if key == "x"@ {
            Some(Json::Int(p.x as int))
        } else if key == "y"@ {
            Some(Json::Int(p.y as int))
        } else if key == "w"@ {
            Some(Json::Int(s.w as int))
        } else if key == "h"@ {
            Some(Json::Int(s.h as int))
        } else {
            None
        },
        _ => None,
    }
}

/// What the JSON object of an element has under a key.
pub open spec fn element_field(n: AxNode, key: Seq<char>) -> Option<Json> {
    if key == "role"@ {
        Some(Json::Str(n.role@))
    } else if key == "subrole"@ {
        text_field(n.subrole@)
    } else if key == "title"@ {
        text_field(n.title@)
    } else if key == "value"@ {
        text_field(n.value@)
    } else if key == "desc"@ {
        text_field(n.desc@)
    } else if key == "help"@ {
        text_field(n.help@)
    } else if key == "selected"@ {
        flag_field(n.selected)
    } else if key == "focused"@ {
        flag_field(n.focused)
    } else {
        frame_field(n, key)
    }
}

/// The JSON object of an element.
pub open spec fn element_entries(n: AxNode) -> Map<Seq<char>, Json> {
    json::object_with(|key: Seq<char>| element_field(n, key))
}

/// The text that a label shows: its value, or its title where the value is
/// empty.
pub open spec fn label_text(n: AxNode) -> Seq<char> {
    if n.value@.len() > 0 {
        n.value@
    } else {
        n.title@
    }
}

/// Whether the child at place `i` is the first text label among the children.
pub open spec fn first_label_at(children: Seq<AxNode>, i: int) -> bool {
    &&& 0 <= i < children.len()
    &&& children[i].is_static_text()
    &&& forall|j: int| 0 <= j < i ==> !(#[trigger] children[j]).is_static_text()
}

/// Whether a label is marked as selected. Labels are nested, and the mark may
/// be on the outer one or on the first label inside it; to have the focus
/// counts as the mark.
pub open spec fn label_selected(n: AxNode) -> bool {
    ||| n.selected
    ||| n.focused
    ||| exists|i: int| #[trigger]
        first_label_at(n.children@, i) && (n.children@[i].selected || n.children@[i].focused)
}

/// What the JSON object of a list item has under a key.
pub open spec fn item_field(n: AxNode, index: int, key: Seq<char>) -> Option<Json> {
    if key == "index"@ {
        Some(Json::Int(index))
    } else if key == "text"@ {
        Some(Json::Str(label_text(n)))
    } else if key == "selected"@ {
        Some(Json::Bool(label_selected(n)))
    } else {
        frame_field(n, key)
    }
}

/// A label as the item of a list that has this number.
pub open spec fn item_json(n: AxNode, index: int) -> Json {
    Json::Obj(json::object_with(|key: Seq<char>| item_field(n, index, key)))
}

/// No two keys of an element, a popup or a list item are the same text.
pub proof fn lemma_keys_differ()
    ensures
        "role"@ != "desc"@ && "role"@ != "help"@ && "role"@ != "text"@,
        "desc"@ != "help"@ && "desc"@ != "text"@ && "help"@ != "text"@,
        "title"@ != "value"@ && "title"@ != "items"@ && "title"@ != "index"@,
        "value"@ != "items"@ && "value"@ != "index"@ && "items"@ != "index"@,
        "subrole"@ != "focused"@,
        "x"@ != "y"@ && "x"@ != "w"@ && "x"@ != "h"@,
        "y"@ != "w"@ && "y"@ != "h"@ && "w"@ != "h"@,
        "role"@.len() == 4 && "desc"@.len() == 4 && "help"@.len() == 4 && "text"@.len() == 4,
        "title"@.len() == 5 && "value"@.len() == 5 && "items"@.len() == 5 && "index"@.len() == 5,
        "subrole"@.len() == 7 && "focused"@.len() == 7,
        "selected"@.len() == 8,
        "x"@.len() == 1 && "y"@.len() == 1 && "w"@.len() == 1 && "h"@.len() == 1,
{
    reveal_strlit("role");
    reveal_strlit("subrole");
    reveal_strlit("title");
    reveal_strlit("value");
    reveal_strlit("desc");
    reveal_strlit("help");
    reveal_strlit("selected");
    reveal_strlit("focused");
    reveal_strlit("x");
    reveal_strlit("y");
    reveal_strlit("w");
    reveal_strlit("h");
    reveal_strlit("items");
    reveal_strlit("index");
    reveal_strlit("text");
    assert("role"@[0] == 'r' && "desc"@[0] == 'd' && "help"@[0] == 'h' && "text"@[0] == 't');
    assert("title"@[1] == 'i' && "value"@[1] == 'a' && "items"@[1] == 't' && "index"@[1] == 'n');
    assert("subrole"@[0] == 's' && "focused"@[0] == 'f');
    assert("x"@[0] == 'x' && "y"@[0] == 'y' && "w"@[0] == 'w' && "h"@[0] == 'h');
}

/// Adds a text attribute to an object, unless it is empty.
fn insert_text(d: &mut serde_json::Map<String, Value>, key: &str, text: &String)
    ensures
        json::entries_of(*final(d)) == match text_field(text@) {
            Some(v) => json::entries_of(*old(d)).insert(key@, v),
            None => json::entries_of(*old(d)),
        },
{
    if !text.as_str().is_empty() {
        json::insert(d, key.to_owned(), json::string(text.clone()));
    }
}

/// Adds the place of an element on the screen to an object, if it is known.
fn insert_frame(d: &mut serde_json::Map<String, Value>, el: &AxNode)
    ensures
        forall|key: Seq<char>| #[trigger]
            json::entries_of(*final(d)).contains_key(key) <==> frame_field(*el, key) is Some
                || json::entries_of(*old(d)).contains_key(key),
        forall|key: Seq<char>|
            json::entries_of(*final(d)).contains_key(key) ==> #[trigger] json::entries_of(
                *final(d),
            )[key] == match frame_field(*el, key) {
                Some(v) => v,
                None => json::entries_of(*old(d))[key],
            },
{
    if let (Some(p), Some(s)) = (el.position, el.size) {
        proof {
            lemma_keys_differ();
        }
        json::insert(d, "x".to_owned(), json::integer(p.x));
        json::insert(d, "y".to_owned(), json::integer(p.y));
        json::insert(d, "w".to_owned(), json::integer(s.w));
        json::insert(d, "h".to_owned(), json::integer(s.h));
    }
}

/// The JSON object of an element: its role always; its other texts where they
/// are not empty; its flags where they are set; its place on the screen where
/// both position and size are known.
pub fn element_json(el: &AxNode) -> (d: serde_json::Map<String, Value>)
    ensures
        json::entries_of(d) == element_entries(*el),
        stated::states_only_element(json::entries_of(d), *el),
{
    let mut d = json::new_object();
    json::insert(&mut d, "role".to_owned(), json::string(el.role.clone()));
    insert_text(&mut d, "subrole", &el.subrole);
    insert_text(&mut d, "title", &el.title);
    insert_text(&mut d, "value", &el.value);
    insert_text(&mut d, "desc", &el.desc);
    insert_text(&mut d, "help", &el.help);
    if el.selected {
        json::insert(&mut d, "selected".to_owned(), json::boolean(true));
    }
    if el.focused {
        json::insert(&mut d, "focused".to_owned(), json::boolean(true));
    }
    insert_frame(&mut d, el);
    proof {
        lemma_keys_differ();
        assert(json::entries_of(d) =~= element_entries(*el));
        stated::law_element_is_stated_whole(*el);
    }
    d
}

/// Whether a label is marked as selected, itself or by the first label among
/// its children.
pub fn is_label_selected(el: &AxNode) -> (r: bool)
    ensures
        r == label_selected(*el),
        r == stated::is_marked(*el),
{
    let mut i: usize = 0;
    while i < el.children.len()
        invariant
            0 <= i <= el.children@.len(),
            forall|j: int| 0 <= j < i ==> !(#[trigger] el.children@[j]).is_static_text(),
        decreases el.children@.len() - i,
    {
        let child = &el.children[i];
        if child.role.as_str().eq(STATIC_TEXT) {
            assert(first_label_at(el.children@, i as int));
            proof {
                stated::law_label_is_marked_by_itself_or_its_first_label(*el);
            }
            return el.selected || el.focused || child.selected || child.focused;
        }
        i += 1;
    }
    proof {
        stated::law_label_is_marked_by_itself_or_its_first_label(*el);
    }
    el.selected || el.focused
}

/// A label as the item of a list that has this number.
pub fn list_item(el: &AxNode, index: usize) -> (v: Value)
    ensures
        json::json_of(v) == item_json(*el, index as int),
        stated::states_item(json::json_of(v), *el, index as int),
{
    let text = if !el.value.as_str().is_empty() {
        el.value.clone()
    } else {
        el.title.clone()
    };
    let selected = is_label_selected(el);
    let mut entry = json::new_object();
    json::insert(&mut entry, "index".to_owned(), json::count(index));
    json::insert(&mut entry, "text".to_owned(), json::string(text));
    json::insert(&mut entry, "selected".to_owned(), json::boolean(selected));
    insert_frame(&mut entry, el);
    proof {
        lemma_keys_differ();
        assert(json::entries_of(entry) =~= json::object_with(
            |key: Seq<char>| item_field(*el, index as int, key),
        ));
        stated::law_item_is_stated_whole(*el, index as int);
    }
    json::object(entry)
}

} // verus!
