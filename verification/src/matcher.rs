//! The pattern table, kept in the router of `actix_router`.
//!
//! The router is opaque to the verifier. Its contents are named by
//! [`builder_table`] and [`router_table`], and what it decides of a pattern
//! and a topic by [`accepts`]; the functions that touch it are small wrappers
//! whose contracts are taken on trust from the router's source.

use vstd::prelude::*;
use actix_router::{Path, Router, RouterBuilder};
use std::rc::Rc;
use crate::pattern::{admitted_pattern, literal_pattern};

verus! {

/// One registration: the pattern and the value stored with it.
pub type Entry = (Seq<char>, usize);

/// `actix_router::RouterBuilder`, declared so that an application can hold
/// one; nothing inside it is visible to the verifier.
#[verifier::external_type_specification]
#[verifier::external_body]
#[verifier::reject_recursive_types(T)]
#[verifier::reject_recursive_types(U)]
pub struct ExRouterBuilder<T, U>(RouterBuilder<T, U>);

/// `actix_router::Router`, declared so that a service can hold one; nothing
/// inside it is visible to the verifier.
#[verifier::external_type_specification]
#[verifier::external_body]
#[verifier::reject_recursive_types(T)]
#[verifier::reject_recursive_types(U)]
pub struct ExRouter<T, U>(Router<T, U>);

/// The registrations held by a router under construction, oldest first.
pub uninterp spec fn builder_table(builder: RouterBuilder<usize, ()>) -> Seq<Entry>;

/// The registrations held by a finished router, oldest first.
pub uninterp spec fn router_table(router: Router<usize, ()>) -> Seq<Entry>;

/// Whether the router, having compiled `pattern`, matches `topic` against it.
pub uninterp spec fn accepts(pattern: Seq<char>, topic: Seq<char>) -> bool;

/// Every pattern of the table is one that is registered.
pub open spec fn all_admitted(table: Seq<Entry>) -> bool {
    forall|i: int| 0 <= i < table.len() ==> admitted_pattern(#[trigger] table[i].0)
}

/// Entry `i` is the oldest registration whose pattern accepts the topic.
pub open spec fn first_hit(table: Seq<Entry>, topic: Seq<char>, i: int) -> bool {
    &&& 0 <= i < table.len()
    &&& accepts(table[i].0, topic)
    &&& forall|j: int| 0 <= j < i ==> !accepts((#[trigger] table[j]).0, topic)
}

/// No registration's pattern accepts the topic.
pub open spec fn no_hit(table: Seq<Entry>, topic: Seq<char>) -> bool {
    forall|j: int| 0 <= j < table.len() ==> !accepts((#[trigger] table[j]).0, topic)
}

/// Each literal pattern of the table accepts the topic exactly if it is the
/// topic.
pub open spec fn literal_by_equality(table: Seq<Entry>, topic: Seq<char>) -> bool {
    forall|i: int|
        0 <= i < table.len() && literal_pattern((#[trigger] table[i]).0) ==> (accepts(
            table[i].0,
            topic,
        ) <==> table[i].0 == topic)
}

/// Where a message on `topic` goes: to the value of the oldest registration
/// whose pattern accepts the topic, or nowhere.
pub open spec fn route(table: Seq<Entry>, topic: Seq<char>) -> Option<usize> {
    if exists|i: int| first_hit(table, topic, i) {
        Some(table[choose|i: int| first_hit(table, topic, i)].1)
    } else {
        None
    }
}

/// Registration `i` carries the value `i`, for every `i`.
pub open spec fn indexed(table: Seq<Entry>) -> bool {
    forall|i: int| 0 <= i < table.len() ==> (#[trigger] table[i]).1 == i
}

/// At most one registration is the oldest one for a topic.
pub proof fn lemma_first_hit_unique(table: Seq<Entry>, topic: Seq<char>, i: int, j: int)
    requires
        first_hit(table, topic, i),
        first_hit(table, topic, j),
    ensures
        i == j,
{
    if i < j {
        assert(!accepts(table[i].0, topic));
    } else if j < i {
        assert(!accepts(table[j].0, topic));
    }
}

/// A message goes to the oldest registration whose pattern accepts its
/// topic, and to no registration exactly if no pattern accepts it.
pub proof fn law_route_exact(table: Seq<Entry>, topic: Seq<char>)
    ensures
        match route(table, topic) {
            Some(value) => exists|i: int| #[trigger]
                first_hit(table, topic, i) && table[i].1 == value,
            None => no_hit(table, topic),
        },
        no_hit(table, topic) ==> route(table, topic) is None,
{
    if exists|i: int| first_hit(table, topic, i) {
        let i = choose|i: int| first_hit(table, topic, i);
        assert(first_hit(table, topic, i) && table[i].1 == route(table, topic)->0);
        assert(accepts(table[i].0, topic));
    } else {
        lemma_no_first_hit(table, topic, table.len() as int);
    }
}

/// Where no registration is the oldest for a topic, none before `upto`
/// accepts the topic.
proof fn lemma_no_first_hit(table: Seq<Entry>, topic: Seq<char>, upto: int)
    requires
        0 <= upto <= table.len(),
        forall|i: int| !first_hit(table, topic, i),
    ensures
        forall|j: int| 0 <= j < upto ==> !accepts((#[trigger] table[j]).0, topic),
    decreases upto,
{
    if upto > 0 {
        lemma_no_first_hit(table, topic, upto - 1);
        assert(!first_hit(table, topic, upto - 1));
    }
}

/// In a table built by registration, a message goes to index `i` where the
/// pattern registered at position `i` accepts its topic and no pattern
/// registered before it does.
pub proof fn law_routes_by_position(table: Seq<Entry>, topic: Seq<char>, i: int)
    requires
        indexed(table),
        first_hit(table, topic, i),
    ensures
        route(table, topic) == Some(i as usize),
{
    let k = choose|k: int| first_hit(table, topic, k);
    lemma_first_hit_unique(table, topic, i, k);
}

/// Among literal patterns, a message whose topic is the pattern registered at
/// position `i`, and no pattern registered before it, goes to index `i`.
pub proof fn law_literal_routes_by_position(table: Seq<Entry>, i: int)
    requires
        indexed(table),
        0 <= i < table.len(),
        forall|j: int| 0 <= j <= i ==> literal_pattern((#[trigger] table[j]).0),
        literal_by_equality(table, table[i].0),
        forall|j: int| 0 <= j < i ==> (#[trigger] table[j]).0 != table[i].0,
    ensures
        route(table, table[i].0) == Some(i as usize),
{
    let topic = table[i].0;
    assert(accepts(table[i].0, topic));
    assert forall|j: int| 0 <= j < i implies !accepts((#[trigger] table[j]).0, topic) by {
        assert(literal_pattern(table[j].0));
    }
    law_routes_by_position(table, topic, i);
}

/// Of two registrations whose patterns both accept the topic, the later one
/// never gets the message.
pub proof fn law_first_registration_wins(table: Seq<Entry>, topic: Seq<char>, i: int, k: int)
    requires
        indexed(table),
        0 <= i < k < table.len(),
        accepts(table[i].0, topic),
        accepts(table[k].0, topic),
    ensures
        route(table, topic) is Some,
        route(table, topic)->0 <= i,
{
    law_route_exact(table, topic);
    if route(table, topic) is None {
        assert(!accepts(table[i].0, topic));
    } else {
        let value = route(table, topic)->0;
        let h = choose|h: int| #[trigger] first_hit(table, topic, h) && table[h].1 == value;
        if i < h {
            assert(!accepts(table[i].0, topic));
        }
    }
}

/// `Router::build`: a builder that holds no registration.
#[verifier::external_body]
pub(crate) fn builder_new() -> (builder: RouterBuilder<usize, ()>)
    ensures
        builder_table(builder) == Seq::<Entry>::empty(),
{
    Router::build()
}

/// `RouterBuilder::path`: appends one registration after those already held.
///
/// The router compiles the pattern on the spot and aborts on one it cannot
/// compile. A literal pattern is stored as it stands, with nothing compiled.
/// One with segments `{name}` becomes an expression made of the escaped text
/// around the segments and one named group for each, which the expression
/// compiler takes where the names are made of ASCII letters, digits and
/// underscores, begin with no digit and differ from one another, for a
/// pattern of this length; the router takes sixteen segments.
#[verifier::external_body]
pub(crate) fn builder_path(builder: &mut RouterBuilder<usize, ()>, pattern: &str, value: usize)
    requires
        admitted_pattern(pattern@),
    ensures
        builder_table(*final(builder)) == builder_table(*old(builder)).push((pattern@, value)),
{
    builder.path(pattern, value);
}

/// `RouterBuilder::finish`: the router holds what the builder held, in the
/// same order.
#[verifier::external_body]
pub(crate) fn builder_finish(builder: RouterBuilder<usize, ()>) -> (router: Router<usize, ()>)
    ensures
        router_table(router) == builder_table(builder),
{
    builder.finish()
}

/// `Router::recognize` on a fresh path over `topic`: the router walks its
/// registrations oldest first and answers with the value of the first whose
/// pattern accepts the path, and with nothing where none does. A literal
/// pattern accepts exactly the topic equal to it. With no more named groups
/// in a pattern than the router takes segments, the walk cannot abort.
#[verifier::external_body]
pub(crate) fn router_recognize(router: &Router<usize, ()>, topic: &str) -> (found: Option<usize>)
    requires
        all_admitted(router_table(*router)),
    ensures
        match found {
            Some(value) => (exists|i: int| #[trigger]
                first_hit(router_table(*router), topic@, i) && router_table(*router)[i].1
                    == value) && (forall|i: int|
                0 <= i < router_table(*router).len() && literal_pattern(
                    (#[trigger] router_table(*router)[i]).0,
                ) ==> (accepts(router_table(*router)[i].0, topic@) <==> router_table(*router)[i].0
                    == topic@)),
            None => no_hit(router_table(*router), topic@) && (forall|i: int|
                0 <= i < router_table(*router).len() && literal_pattern(
                    (#[trigger] router_table(*router)[i]).0,
                ) ==> (accepts(router_table(*router)[i].0, topic@) <==> router_table(*router)[i].0
                    == topic@)),
        },
{
    let mut path = Path::new(topic);
    match router.recognize(&mut path) {
        Some((value, _)) => Some(*value),
        None => None,
    }
}

/// Looks `topic` up in a router filled by registration.
pub(crate) fn recognize(router: &Router<usize, ()>, topic: &str) -> (found: Option<usize>)
    requires
        all_admitted(router_table(*router)),
    ensures
        found == route(router_table(*router), topic@),
        literal_by_equality(router_table(*router), topic@),
{
    let found = router_recognize(router, topic);
    proof {
        let table = router_table(*router);
        match found {
            Some(value) => {
                let i = choose|i: int| #[trigger]
                    first_hit(table, topic@, i) && table[i].1 == value;
                let k = choose|k: int| first_hit(table, topic@, k);
                lemma_first_hit_unique(table, topic@, i, k);
            },
            None => {
                assert forall|i: int| !first_hit(table, topic@, i) by {
                    if first_hit(table, topic@, i) {
                        assert(!accepts(table[i].0, topic@));
                    }
                }
            },
        }
    }
    found
}

/// `Rc::clone`: another handle on the same value.
#[verifier::external_body]
pub(crate) fn share<T>(handle: &Rc<T>) -> (other: Rc<T>)
    ensures
        other == *handle,
{
    handle.clone()
}

} // verus!
