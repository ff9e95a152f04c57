//! Links grouped by their protocol.

use vstd::prelude::*;

use crate::collections::{TextMap, TextSet};

verus! {

/// The links under each protocol.
pub open spec fn contents(m: Map<Seq<char>, TextSet>) -> Map<Seq<char>, Set<Seq<char>>> {
    Map::new(|p: Seq<char>| m.contains_key(p), |p: Seq<char>| m[p]@)
}

/// The links under a protocol, none where it is not there.
pub open spec fn links_under(m: Map<Seq<char>, Set<Seq<char>>>, p: Seq<char>) -> Set<Seq<char>> {
    if m.contains_key(p) {
        m[p]
    } else {
        Set::empty()
    }
}

/// Some protocol has the link.
pub open spec fn holds_link(m: Map<Seq<char>, Set<Seq<char>>>, l: Seq<char>) -> bool {
    exists|p: Seq<char>| #[trigger] m.contains_key(p) && m[p].contains(l)
}

/// `m` with the links `more` under `p` beside those that were there.
pub open spec fn with_links(
    m: Map<Seq<char>, Set<Seq<char>>>,
    p: Seq<char>,
    more: Set<Seq<char>>,
) -> Map<Seq<char>, Set<Seq<char>>> {
    m.insert(p, links_under(m, p).union(more))
}

/// `m` with `link` under `p` beside those that were there.
pub open spec fn with_link(
    m: Map<Seq<char>, Set<Seq<char>>>,
    p: Seq<char>,
    link: Seq<char>,
) -> Map<Seq<char>, Set<Seq<char>>> {
    m.insert(p, links_under(m, p).insert(link))
}

fn take_links(store: &mut TextMap<TextSet>, p: &str) -> (r: TextSet)
    ensures
        r@ == links_under(contents(old(store)@), p@),
        contents(final(store)@) == contents(old(store)@).remove(p@),
{
    let ghost was = contents(store@);
    let taken = store.remove(p);
    assert(contents(store@) =~= was.remove(p@));
    match taken {
        Some(s) => s,
        None => TextSet::new(),
    }
}

/// Adds a link under `p`.
pub fn add_link(store: &mut TextMap<TextSet>, p: &str, link: String)
    ensures
        contents(final(store)@) == with_link(contents(old(store)@), p@, link@),
{
    let ghost was = contents(store@);
    let mut links = take_links(store, p);
    links.insert(link);
    let ghost rest = store@;
    store.insert(p.to_string(), links);
    assert(store@ == rest.insert(p@, links));
    assert(contents(store@) =~= contents(rest).insert(p@, links@));
    assert(contents(store@) =~= with_link(was, p@, link@));
}

/// Adds links under `p`.
pub fn add_links(store: &mut TextMap<TextSet>, p: &str, more: &TextSet)
    ensures
        contents(final(store)@) == with_links(contents(old(store)@), p@, more@),
{
    let ghost was = contents(store@);
    let mut links = take_links(store, p);
    links.extend(more);
    let ghost rest = store@;
    store.insert(p.to_string(), links);
    assert(contents(store@) =~= contents(rest).insert(p@, links@));
    assert(contents(store@) =~= with_links(was, p@, more@));
}

/// Gives `p` just these links.
pub fn set_links(store: &mut TextMap<TextSet>, p: &str, links: TextSet)
    ensures
        contents(final(store)@) == contents(old(store)@).insert(p@, links@),
{
    let ghost was = contents(store@);
    store.insert(p.to_string(), links);
    assert(contents(store@) =~= was.insert(p@, links@));
}

} // verus!
