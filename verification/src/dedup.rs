//! One popup can be reached from more than one window. Of the sightings that
//! agree in role and place, the first is kept.

use crate::json;
use crate::json::Json;
use crate::text;
use serde_json::Value;
use vstd::hash_set::StringHashSet;
use vstd::prelude::*;
use vstd::string::*;

verus! {

/// The role that an object states; empty where it states none.
pub open spec fn stated_role(p: Map<Seq<char>, Json>) -> Seq<char> {
    if p.contains_key("role"@) && p["role"@] is Str {
        p["role"@]->Str_0
    } else {
        Seq::empty()
    }
}

/// The number that an object has under a key, in decimal; empty where it has
/// none.
pub open spec fn stated_number(p: Map<Seq<char>, Json>, key: Seq<char>) -> Seq<char> {
    if p.contains_key(key) {
        text::decimal(p[key]->Int_0)
    } else {
        Seq::empty()
    }
}

/// The text by which sightings of a popup are recognized: its role and the four
/// numbers of its place, with bars between them.
pub open spec fn popup_key(p: Map<Seq<char>, Json>) -> Seq<char> {
    stated_role(p) + "|"@ + stated_number(p, "x"@) + "|"@ + stated_number(p, "y"@) + "|"@
        + stated_number(p, "w"@) + "|"@ + stated_number(p, "h"@)
}

/// Whether what an object has under a key, if anything, is an integer.
pub open spec fn integer_at(p: Map<Seq<char>, Json>, key: Seq<char>) -> bool {
    p.contains_key(key) ==> p[key] is Int
}

/// Whether the place that an object states is made of integers.
pub open spec fn integer_place(p: Map<Seq<char>, Json>) -> bool {
    integer_at(p, "x"@) && integer_at(p, "y"@) && integer_at(p, "w"@) && integer_at(p, "h"@)
}

/// Whether one of the popups has this key.
pub open spec fn seen(s: Seq<Map<Seq<char>, Json>>, key: Seq<char>) -> bool {
    exists|i: int| 0 <= i < s.len() && popup_key(#[trigger] s[i]) == key
}

/// The popups whose key no earlier one has, in their order.
pub open spec fn first_sightings(s: Seq<Map<Seq<char>, Json>>) -> Seq<Map<Seq<char>, Json>>
    decreases s.len(),
{
    if s.len() == 0 {
        Seq::empty()
    } else if seen(s.drop_last(), popup_key(s.last())) {
        first_sightings(s.drop_last())
    } else {
        first_sightings(s.drop_last()).push(s.last())
    }
}

/// Objects as JSON values.
pub open spec fn as_objects(s: Seq<Map<Seq<char>, Json>>) -> Seq<Json> {
    s.map_values(|m: Map<Seq<char>, Json>| Json::Obj(m))
}

/// The number that an object has under a key, in decimal.
fn number_text(p: &serde_json::Map<String, Value>, key: &str) -> (s: String)
    requires
        integer_at(json::entries_of(*p), key@),
    ensures
        s@ == stated_number(json::entries_of(*p), key@),
{
    match json::get(p, key) {
        Some(v) => json::integer_to_string(v),
        None => String::new(),
    }
}

/// The text by which sightings of a popup are recognized.
pub(crate) fn key_of(p: &serde_json::Map<String, Value>) -> (key: String)
    requires
        integer_place(json::entries_of(*p)),
    ensures
        key@ == popup_key(json::entries_of(*p)),
{
    let role = match json::get(p, "role") {
        Some(v) => match json::as_str(v) {
            Some(s) => s.to_owned(),
            None => String::new(),
        },
        None => String::new(),
    };
    let mut key = role;
    key.append("|");
    key.append(number_text(p, "x").as_str());
    key.append("|");
    key.append(number_text(p, "y").as_str());
    key.append("|");
    key.append(number_text(p, "w").as_str());
    key.append("|");
    key.append(number_text(p, "h").as_str());
    key
}

/// Keeps of each popup the first sighting.
pub(crate) fn drop_repeats(raw: Vec<serde_json::Map<String, Value>>) -> (popups: Vec<Value>)
    requires
        forall|i: int| 0 <= i < raw@.len() ==> integer_place(json::entries_of(#[trigger] raw@[i])),
    ensures
        json::json_seq(popups@) == as_objects(first_sightings(json::entries_seq(raw@))),
{
    let ghost all = json::entries_seq(raw@);
    let ghost given = raw@;
    let mut keys = StringHashSet::new();
    let mut popups: Vec<Value> = Vec::new();
    assert(json::json_seq(popups@) =~= as_objects(first_sightings(all.take(0))));
    for p in it: raw
        invariant
            it.seq() == given,
            all == json::entries_seq(given),
            forall|i: int|
                0 <= i < given.len() ==> integer_place(json::entries_of(#[trigger] given[i])),
            forall|key: Seq<char>| #[trigger]
                keys@.contains(key) <==> seen(all.take(it.index()), key),
            json::json_seq(popups@) == as_objects(first_sightings(all.take(it.index()))),
    {
        let ghost before = all.take(it.index());
        let ghost next = all.take(it.index() + 1);
        assert(next.drop_last() =~= before);
        assert(next =~= before.push(json::entries_of(p)));
        if keys.insert(key_of(&p)) {
            let ghost popups_before = popups@;
            popups.push(json::object(p));
            assert(json::json_seq(popups@) =~= json::json_seq(popups_before).push(
                Json::Obj(next.last()),
            ));
            assert(as_objects(first_sightings(before).push(next.last())) =~= as_objects(
                first_sightings(before),
            ).push(Json::Obj(next.last())));
        }
        assert forall|key: Seq<char>| #[trigger] keys@.contains(key) <==> seen(next, key) by {
            lemma_seen_push(before, next.last(), key);
        }
    }
    assert(all.take(all.len() as int) =~= all);
    popups
}

/// Whether two objects state the same role and the same place.
pub open spec fn same_role_and_place(p: Map<Seq<char>, Json>, q: Map<Seq<char>, Json>) -> bool {
    &&& stated_role(p) == stated_role(q)
    &&& same_at(p, q, "x"@)
    &&& same_at(p, q, "y"@)
    &&& same_at(p, q, "w"@)
    &&& same_at(p, q, "h"@)
}

/// Whether two objects have the same under a key, or both nothing.
pub open spec fn same_at(p: Map<Seq<char>, Json>, q: Map<Seq<char>, Json>, key: Seq<char>) -> bool {
    &&& p.contains_key(key) == q.contains_key(key)
    &&& p.contains_key(key) ==> p[key] == q[key]
}

/// Whether no earlier popup has the key of the one at place `i`.
pub open spec fn is_first_sighting(s: Seq<Map<Seq<char>, Json>>, i: int) -> bool {
    &&& 0 <= i < s.len()
    &&& forall|j: int| 0 <= j < i ==> popup_key(#[trigger] s[j]) != popup_key(s[i])
}

/// The places of the first sightings, in their order.
pub open spec fn first_places(s: Seq<Map<Seq<char>, Json>>) -> Seq<int>
    decreases s.len(),
{
    if s.len() == 0 {
        Seq::empty()
    } else if seen(s.drop_last(), popup_key(s.last())) {
        first_places(s.drop_last())
    } else {
        first_places(s.drop_last()).push(s.len() - 1)
    }
}

/// Texts that end in a bar and a part without bars agree only where both parts
/// agree.
proof fn lemma_split_at_last_bar(a: Seq<char>, p: Seq<char>, b: Seq<char>, q: Seq<char>)
    requires
        !p.contains('|'),
        !q.contains('|'),
        a + "|"@ + p == b + "|"@ + q,
    ensures
        a == b,
        p == q,
{
    reveal_strlit("|");
    assert("|"@.len() == 1);
    let s = a + "|"@ + p;
    let t = b + "|"@ + q;
    assert(s.len() == t.len());
    assert(s[a.len() as int] == '|');
    assert(t[b.len() as int] == '|');
    if a.len() < b.len() {
        assert(s[b.len() as int] == p[b.len() - a.len() - 1]);
        assert(p.contains('|'));
    }
    if b.len() < a.len() {
        assert(t[a.len() as int] == q[a.len() - b.len() - 1]);
        assert(q.contains('|'));
    }
    assert(a =~= s.take(a.len() as int));
    assert(b =~= t.take(a.len() as int));
    assert(p =~= s.skip(a.len() as int + 1));
    assert(q =~= t.skip(a.len() as int + 1));
}

/// The number under a key, as text, has no bar in it and tells the number.
proof fn lemma_stated_number(p: Map<Seq<char>, Json>, q: Map<Seq<char>, Json>, key: Seq<char>)
    requires
        integer_at(p, key),
        integer_at(q, key),
    ensures
        !stated_number(p, key).contains('|'),
        !stated_number(q, key).contains('|'),
        stated_number(p, key) == stated_number(q, key) <==> same_at(p, q, key),
{
    text::lemma_decimal(p[key]->Int_0, q[key]->Int_0);
    text::lemma_decimal(q[key]->Int_0, p[key]->Int_0);
}

/// Two popups have one key exactly where they state the same role and the same
/// place, whatever characters the roles are made of.
pub proof fn law_key_tells_role_and_place(p: Map<Seq<char>, Json>, q: Map<Seq<char>, Json>)
    requires
        integer_place(p),
        integer_place(q),
    ensures
        popup_key(p) == popup_key(q) <==> same_role_and_place(p, q),
{
    lemma_stated_number(p, q, "x"@);
    lemma_stated_number(p, q, "y"@);
    lemma_stated_number(p, q, "w"@);
    lemma_stated_number(p, q, "h"@);
    if popup_key(p) == popup_key(q) {
        let p_role = stated_role(p);
        let p_x = p_role + "|"@ + stated_number(p, "x"@);
        let p_y = p_x + "|"@ + stated_number(p, "y"@);
        let p_w = p_y + "|"@ + stated_number(p, "w"@);
        let q_role = stated_role(q);
        let q_x = q_role + "|"@ + stated_number(q, "x"@);
        let q_y = q_x + "|"@ + stated_number(q, "y"@);
        let q_w = q_y + "|"@ + stated_number(q, "w"@);
        lemma_split_at_last_bar(p_w, stated_number(p, "h"@), q_w, stated_number(q, "h"@));
        lemma_split_at_last_bar(p_y, stated_number(p, "w"@), q_y, stated_number(q, "w"@));
        lemma_split_at_last_bar(p_x, stated_number(p, "y"@), q_x, stated_number(q, "y"@));
        lemma_split_at_last_bar(p_role, stated_number(p, "x"@), q_role, stated_number(q, "x"@));
    }
}

/// What is kept is exactly the first sightings, in the order in which they were
/// found.
pub proof fn law_first_sightings_in_order(s: Seq<Map<Seq<char>, Json>>)
    ensures
        first_sightings(s).len() == first_places(s).len(),
        forall|i: int|
            0 <= i < first_places(s).len() ==> is_first_sighting(s, #[trigger] first_places(s)[i])
                && first_sightings(s)[i] == s[first_places(s)[i]],
        forall|i: int, j: int|
            0 <= i < j < first_places(s).len() ==> first_places(s)[i] < first_places(s)[j],
        forall|p: int| #[trigger] is_first_sighting(s, p) ==> first_places(s).contains(p),
    decreases s.len(),
{
    if s.len() > 0 {
        let front = s.drop_last();
        let last = s.len() - 1;
        law_first_sightings_in_order(front);
        assert forall|p: int| p < last implies #[trigger] is_first_sighting(s, p)
            == is_first_sighting(front, p) by {
            if is_first_sighting(front, p) {
                assert forall|j: int| 0 <= j < p implies popup_key(#[trigger] s[j]) != popup_key(s[p]) by {
                    assert(front[j] == s[j]);
                }
            }
            if is_first_sighting(s, p) {
                assert forall|j: int| 0 <= j < p implies popup_key(#[trigger] front[j]) != popup_key(front[p]) by {
                    assert(front[j] == s[j]);
                }
            }
        }
        assert(is_first_sighting(s, last) <==> !seen(front, popup_key(s.last()))) by {
            if seen(front, popup_key(s.last())) {
                let j = choose|j: int|
                    0 <= j < front.len() && popup_key(#[trigger] front[j]) == popup_key(s.last());
                assert(popup_key(s[j]) == popup_key(s[last]));
            } else {
                assert forall|j: int| 0 <= j < last implies popup_key(#[trigger] s[j]) != popup_key(s[last]) by {
                    assert(front[j] == s[j]);
                }
            }
        }
        let places = first_places(front);
        assert forall|i: int| 0 <= i < first_places(s).len() implies is_first_sighting(
            s,
            #[trigger] first_places(s)[i],
        ) && first_sightings(s)[i] == s[first_places(s)[i]] by {
            if i < places.len() {
                assert(first_places(s)[i] == places[i]);
                assert(is_first_sighting(front, places[i]));
                assert(is_first_sighting(s, places[i]));
            }
        }
        assert forall|i: int, j: int| 0 <= i < j < first_places(s).len() implies first_places(s)[i]
            < first_places(s)[j] by {
            if j < places.len() {
                assert(places[i] < places[j]);
            } else {
                assert(is_first_sighting(front, places[i]));
            }
        }
        assert forall|p: int| #[trigger] is_first_sighting(s, p) implies first_places(s).contains(p) by {
            if p < last {
                assert(is_first_sighting(front, p));
                let i = choose|i: int| 0 <= i < places.len() && places[i] == p;
                assert(first_places(s)[i] == p);
            } else {
                assert(first_places(s)[places.len() as int] == p);
            }
        }
    }
}

/// A popup is among what was found exactly where its key is among what is kept.
proof fn lemma_seen_is_kept(s: Seq<Map<Seq<char>, Json>>, key: Seq<char>)
    ensures
        seen(first_sightings(s), key) == seen(s, key),
    decreases s.len(),
{
    if s.len() > 0 {
        let front = s.drop_last();
        let kept = first_sightings(front);
        lemma_seen_is_kept(front, key);
        lemma_seen_push(front, s.last(), key);
        lemma_seen_push(kept, s.last(), key);
        assert(front.push(s.last()) =~= s);
    }
}

/// What one more popup adds to the keys that were seen.
proof fn lemma_seen_push(s: Seq<Map<Seq<char>, Json>>, p: Map<Seq<char>, Json>, key: Seq<char>)
    ensures
        seen(s.push(p), key) == (seen(s, key) || popup_key(p) == key),
{
    let t = s.push(p);
    if seen(s, key) {
        let i = choose|i: int| 0 <= i < s.len() && popup_key(#[trigger] s[i]) == key;
        assert(t[i] == s[i]);
    }
    assert(t[s.len() as int] == p);
    if seen(t, key) {
        let i = choose|i: int| 0 <= i < t.len() && popup_key(#[trigger] t[i]) == key;
        if i < s.len() {
            assert(t[i] == s[i]);
        }
    }
}

/// Every popup that was found is kept, or one with its key is.
pub proof fn law_every_popup_is_kept(s: Seq<Map<Seq<char>, Json>>, i: int)
    requires
        0 <= i < s.len(),
    ensures
        seen(first_sightings(s), popup_key(s[i])),
{
    lemma_seen_is_kept(s, popup_key(s[i]));
}

/// No two of the popups that are kept have one key.
pub proof fn law_no_two_alike(s: Seq<Map<Seq<char>, Json>>, i: int, j: int)
    requires
        0 <= i < j < first_sightings(s).len(),
    ensures
        popup_key(first_sightings(s)[i]) != popup_key(first_sightings(s)[j]),
{
    law_first_sightings_in_order(s);
    let a = first_places(s)[i];
    let b = first_places(s)[j];
    assert(is_first_sighting(s, b));
    assert(popup_key(s[a]) != popup_key(s[b]));
}

/// Popups that were all seen before add nothing.
pub proof fn law_repeats_add_nothing(s: Seq<Map<Seq<char>, Json>>, t: Seq<Map<Seq<char>, Json>>)
    requires
        forall|i: int| 0 <= i < t.len() ==> seen(s, popup_key(#[trigger] t[i])),
    ensures
        first_sightings(s + t) == first_sightings(s),
    decreases t.len(),
{
    if t.len() == 0 {
        assert(s + t =~= s);
    } else {
        let all = s + t;
        assert(all.drop_last() =~= s + t.drop_last());
        assert forall|i: int| 0 <= i < t.drop_last().len() implies seen(
            s,
            popup_key(#[trigger] t.drop_last()[i]),
        ) by {
            assert(t.drop_last()[i] == t[i]);
        }
        law_repeats_add_nothing(s, t.drop_last());
        assert(t[t.len() - 1] == all.last());
        let i = choose|i: int| 0 <= i < s.len() && popup_key(#[trigger] s[i]) == popup_key(all.last());
        assert(all.drop_last()[i] == s[i]);
    }
}

/// What is kept holds no repeats: to look for repeats once more changes nothing.
pub proof fn law_keeping_twice_is_keeping_once(s: Seq<Map<Seq<char>, Json>>)
    ensures
        first_sightings(first_sightings(s)) == first_sightings(s),
    decreases s.len(),
{
    if s.len() > 0 {
        let front = s.drop_last();
        let kept = first_sightings(front);
        law_keeping_twice_is_keeping_once(front);
        lemma_seen_is_kept(front, popup_key(s.last()));
        if !seen(front, popup_key(s.last())) {
            assert(kept.push(s.last()).drop_last() =~= kept);
        }
    }
}

} // verus!
