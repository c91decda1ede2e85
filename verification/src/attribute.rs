//! What the reply to a read of an attribute is taken for. A read that fails is
//! never an error: the attribute then counts as empty, not set or absent.

use crate::node::{Extent, Point};
use vstd::prelude::*;
use vstd::string::*;

verus! {

/// The reply to a read of an attribute: its error code, zero where it
/// succeeded, and the value that came with it, if one did. Where the type of
/// the value matters, a value of another type is one that is `None` itself.
#[derive(Debug)]
pub struct Reply<T> {
    pub err: i32,
    pub value: Option<T>,
}

/// The value of a reply that succeeded.
pub open spec fn answer<T>(reply: Reply<T>) -> Option<T> {
    if reply.err == 0 {
        reply.value
    } else {
        None
    }
}

/// The values that are there, in their order.
pub open spec fn present<T>(s: Seq<Option<T>>) -> Seq<T>
    decreases s.len(),
{
    if s.len() == 0 {
        Seq::empty()
    } else {
        match s.last() {
            Some(v) => present(s.drop_last()).push(v),
            None => present(s.drop_last()),
        }
    }
}

/// A text attribute; empty on any failure, and where the value is no text.
pub fn ax_str(reply: Reply<Option<String>>) -> (r: String)
    ensures
        match answer(reply) {
            Some(Some(s)) => r@ == s@,
            _ => r@ == Seq::<char>::empty(),
        },
        reply.err != 0 || reply.value is None || reply.value->0 is None ==> r@.len() == 0,
        reply.err == 0 && reply.value is Some && reply.value->0 is Some ==> r@ == reply.value->0->0@,
{
    match ax_element_attr(reply) {
        Some(Some(s)) => s,
        _ => String::new(),
    }
}

/// A flag; not set on any failure, and where the value is no flag.
pub fn ax_bool(reply: Reply<Option<bool>>) -> (r: bool)
    ensures
        r == (answer(reply) == Some(Some(true))),
        r <==> reply.err == 0 && reply.value == Some(Some(true)),
{
    match ax_element_attr(reply) {
        Some(Some(b)) => b,
        _ => false,
    }
}

/// A place; absent on any failure, and where the value is no place.
pub fn ax_point(reply: Reply<Option<Point>>) -> (r: Option<Point>)
    ensures
        r == match answer(reply) {
            Some(p) => p,
            None => None,
        },
        r is Some <==> reply.err == 0 && reply.value is Some && reply.value->0 is Some,
        r is Some ==> r == reply.value->0,
{
    match ax_element_attr(reply) {
        Some(p) => p,
        None => None,
    }
}

/// A size; absent on any failure, and where the value is no size.
pub fn ax_size(reply: Reply<Option<Extent>>) -> (r: Option<Extent>)
    ensures
        r == match answer(reply) {
            Some(s) => s,
            None => None,
        },
        r is Some <==> reply.err == 0 && reply.value is Some && reply.value->0 is Some,
        r is Some ==> r == reply.value->0,
{
    match ax_element_attr(reply) {
        Some(s) => s,
        None => None,
    }
}

/// An attribute that is an element; absent on any failure.
pub fn ax_element_attr<T>(reply: Reply<T>) -> (r: Option<T>)
    ensures
        r == answer(reply),
        reply.err != 0 ==> r is None,
        reply.err == 0 ==> r == reply.value,
{
    if reply.err != 0 {
        None
    } else {
        reply.value
    }
}

/// An attribute that is a list of elements; empty on any failure, and without
/// the places of the list that hold none.
pub fn ax_element_array<T>(reply: Reply<Vec<Option<T>>>) -> (r: Vec<T>)
    ensures
        r@ == match answer(reply) {
            Some(items) => present(items@),
            None => Seq::empty(),
        },
        reply.err != 0 || reply.value is None ==> r@.len() == 0,
        reply.err == 0 && reply.value is Some ==> r@ == present(reply.value->0@),
{
    match ax_element_attr(reply) {
        Some(items) => drain_element_array(items),
        None => Vec::new(),
    }
}

/// The elements that a list holds, in their order.
pub fn drain_element_array<T>(items: Vec<Option<T>>) -> (r: Vec<T>)
    ensures
        r@ == present(items@),
{
    let ghost all = items@;
    let mut r: Vec<T> = Vec::new();
    for item in it: items
        invariant
            it.seq() == all,
            r@ == present(all.take(it.index())),
    {
        let ghost i = it.index();
        assert(all.take(i + 1).drop_last() =~= all.take(i));
        assert(all.take(i + 1).last() == item);
        if let Some(v) = item {
            r.push(v);
        }
    }
    assert(all.take(all.len() as int) =~= all);
    r
}

/// A reply with an error has no answer, whatever value came with it; one without
/// an error is answered by its value.
pub proof fn law_error_leaves_no_answer<T>(err: i32, value: Option<T>)
    ensures
        answer(Reply { err: 0, value }) == value,
        err != 0 ==> answer(Reply { err, value }) is None,
{
}

/// The values that are there are collected part by part: those of two lists in a
/// row are those of the first and then those of the second.
pub proof fn law_present_of_two_lists<T>(s: Seq<Option<T>>, t: Seq<Option<T>>)
    ensures
        present(s + t) == present(s) + present(t),
    decreases t.len(),
{
    if t.len() == 0 {
        assert(s + t =~= s);
        assert(present(s) + present(t) =~= present(s));
    } else {
        assert((s + t).drop_last() =~= s + t.drop_last());
        law_present_of_two_lists(s, t.drop_last());
        match t.last() {
            Some(v) => {
                assert(present(s) + present(t.drop_last()).push(v) =~= (present(s) + present(
                    t.drop_last(),
                )).push(v));
            },
            None => {},
        }
    }
}

/// A place that holds a value gives this value, one that holds none gives nothing,
/// and where every place holds a value none is lost.
pub proof fn law_present_of_places<T>(v: T, all: Seq<T>)
    ensures
        present(Seq::<Option<T>>::empty()) == Seq::<T>::empty(),
        present(seq![Some(v)]) == seq![v],
        present(seq![None::<T>]) == Seq::<T>::empty(),
        present(all.map_values(|w: T| Some(w))) == all,
    decreases all.len(),
{
    reveal_with_fuel(present, 2);
    assert(seq![Some(v)].drop_last() =~= Seq::empty());
    assert(seq![None::<T>].drop_last() =~= Seq::empty());
    assert(present(seq![Some(v)]) =~= seq![v]);
    let places = all.map_values(|w: T| Some(w));
    if all.len() > 0 {
        law_present_of_places(v, all.drop_last());
        assert(places.drop_last() =~= all.drop_last().map_values(|w: T| Some(w)));
        assert(places.last() == Some(all.last()));
        assert(all.drop_last().push(all.last()) =~= all);
    } else {
        assert(present(places) =~= all);
    }
}

} // verus!
