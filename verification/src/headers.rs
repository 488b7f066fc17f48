//! HTTP header lists: name/value pairs looked up without regard to ASCII case.
use vstd::prelude::*;

use crate::text::{eq_ignore_ascii_case, lowered, same_ignoring_case, to_ascii_lowercase};

verus! {

/// A header list, in the order the headers were added.
pub type Headers = Vec<(String, String)>;

/// A header list by its characters.
pub open spec fn header_pairs(h: Seq<(String, String)>) -> Seq<(Seq<char>, Seq<char>)> {
    h.map_values(|p: (String, String)| (p.0@, p.1@))
}

/// The value of the first header named `name` (ignoring ASCII case).
pub open spec fn lookup(h: Seq<(Seq<char>, Seq<char>)>, name: Seq<char>) -> Option<Seq<char>>
    decreases h.len(),
{
    if h.len() == 0 {
        None
    } else if same_ignoring_case(h[0].0, name) {
        Some(h[0].1)
    } else {
        lookup(h.drop_first(), name)
    }
}

/// The headers that `keep` accepts, in order.
pub open spec fn kept(h: Seq<(Seq<char>, Seq<char>)>, drop: spec_fn(Seq<char>) -> bool) -> Seq<
    (Seq<char>, Seq<char>),
>
    decreases h.len(),
{
    if h.len() == 0 {
        h
    } else if drop(h.last().0) {
        kept(h.drop_last(), drop)
    } else {
        kept(h.drop_last(), drop).push(h.last())
    }
}

/// The headers not named `name`.
pub open spec fn without(h: Seq<(Seq<char>, Seq<char>)>, name: Seq<char>) -> Seq<
    (Seq<char>, Seq<char>),
> {
    kept(h, |k: Seq<char>| same_ignoring_case(k, name))
}

/// The headers a browser sets itself and refuses from a page.
pub open spec fn browser_owned(key: Seq<char>) -> bool {
    ||| same_ignoring_case(key, "accept-encoding"@)
    ||| same_ignoring_case(key, "connection"@)
    ||| same_ignoring_case(key, "content-length"@)
    ||| same_ignoring_case(key, "host"@)
    ||| same_ignoring_case(key, "keep-alive"@)
    ||| same_ignoring_case(key, "te"@)
    ||| same_ignoring_case(key, "transfer-encoding"@)
    ||| same_ignoring_case(key, "user-agent"@)
}

/// The value of the first header named `name`, ignoring ASCII case.
pub fn get<'a>(headers: &'a [(String, String)], name: &str) -> (r: Option<&'a str>)
    ensures
        match (r, lookup(header_pairs(headers@), name@)) {
            (Some(v), Some(w)) => v@ == w,
            (None, None) => true,
            _ => false,
        },
{
    let ghost h = header_pairs(headers@);
    let mut i: usize = 0;
    assert(h.skip(0) =~= h);
    while i < headers.len()
        invariant
            i <= headers.len(),
            h == header_pairs(headers@),
            lookup(h, name@) == lookup(h.skip(i as int), name@),
        decreases headers.len() - i,
    {
        proof {
            assert(h.skip(i as int)[0] == h[i as int]);
        }
        if eq_ignore_ascii_case(headers[i].0.as_str(), name) {
            return Some(headers[i].1.as_str());
        }
        assert(h.skip(i as int).drop_first() =~= h.skip(i + 1));
        i = i + 1;
    }
    None
}

/// Whether a header named `name` is present.
pub fn contains(headers: &[(String, String)], name: &str) -> (r: bool)
    ensures
        r == lookup(header_pairs(headers@), name@) is Some,
{
    get(headers, name).is_some()
}

/// Whether `key` is one of the headers a browser owns.
pub fn is_browser_controlled(key: &str) -> (r: bool)
    ensures
        r == browser_owned(key@),
{
    eq_ignore_ascii_case(key, "accept-encoding") || eq_ignore_ascii_case(key, "connection")
        || eq_ignore_ascii_case(key, "content-length") || eq_ignore_ascii_case(key, "host")
        || eq_ignore_ascii_case(key, "keep-alive") || eq_ignore_ascii_case(key, "te")
        || eq_ignore_ascii_case(key, "transfer-encoding") || eq_ignore_ascii_case(
        key,
        "user-agent",
    )
}

/// Drops every header named `name`, ignoring ASCII case; the rest keep their order.
pub fn remove(headers: &mut Headers, name: &str)
    ensures
        header_pairs(final(headers)@) == without(header_pairs(old(headers)@), name@),
{
    let ghost h = header_pairs(headers@);
    let ghost drop = |k: Seq<char>| same_ignoring_case(k, name@);
    let mut out: Headers = Vec::new();
    let mut i: usize = 0;
    while i < headers.len()
        invariant
            i <= headers.len(),
            h == header_pairs(headers@),
            drop == (|k: Seq<char>| same_ignoring_case(k, name@)),
            header_pairs(out@) == kept(h.take(i as int), drop),
        decreases headers.len() - i,
    {
        proof {
            assert(h.take(i + 1).drop_last() =~= h.take(i as int));
            assert(h.take(i + 1).last() == h[i as int]);
        }
        if !eq_ignore_ascii_case(headers[i].0.as_str(), name) {
            let key = headers[i].0.clone();
            let value = headers[i].1.clone();
            let ghost before = out@;
            out.push((key, value));
            assert(header_pairs(out@) =~= header_pairs(before).push(h[i as int]));
        }
        i = i + 1;
    }
    assert(h.take(i as int) =~= h);
    *headers = out;
}

/// Replaces every header named `name` with one header: the lowercased name and `value`,
/// added at the end.
pub fn set(headers: &mut Headers, name: &str, value: &str)
    ensures
        header_pairs(final(headers)@) == without(header_pairs(old(headers)@), name@).push(
            (lowered(name@), value@),
        ),
{
    remove(headers, name);
    let key = to_ascii_lowercase(name);
    let ghost before = headers@;
    headers.push((key, String::from_str(value)));
    assert(header_pairs(headers@) =~= header_pairs(before).push((lowered(name@), value@)));
}

/// Drops the headers a browser owns; the rest keep their order.
pub fn strip_browser_controlled(headers: &mut Headers)
    ensures
        header_pairs(final(headers)@) == kept(
            header_pairs(old(headers)@),
            |k: Seq<char>| browser_owned(k),
        ),
{
    let ghost h = header_pairs(headers@);
    let ghost drop = |k: Seq<char>| browser_owned(k);
    let mut out: Headers = Vec::new();
    let mut i: usize = 0;
    while i < headers.len()
        invariant
            i <= headers.len(),
            h == header_pairs(headers@),
            drop == (|k: Seq<char>| browser_owned(k)),
            header_pairs(out@) == kept(h.take(i as int), drop),
        decreases headers.len() - i,
    {
        proof {
            assert(h.take(i + 1).drop_last() =~= h.take(i as int));
            assert(h.take(i + 1).last() == h[i as int]);
        }
        if !is_browser_controlled(headers[i].0.as_str()) {
            let key = headers[i].0.clone();
            let value = headers[i].1.clone();
            let ghost before = out@;
            out.push((key, value));
            assert(header_pairs(out@) =~= header_pairs(before).push(h[i as int]));
        }
        i = i + 1;
    }
    assert(h.take(i as int) =~= h);
    *headers = out;
}

} // verus!

verus! {

/// A lookup in a list with one more header at the end finds the earlier headers first.
pub proof fn lemma_lookup_push(
    h: Seq<(Seq<char>, Seq<char>)>,
    p: (Seq<char>, Seq<char>),
    name: Seq<char>,
)
    ensures
        lookup(h.push(p), name) == (if lookup(h, name) is Some {
            lookup(h, name)
        } else if same_ignoring_case(p.0, name) {
            Some(p.1)
        } else {
            None
        }),
    decreases h.len(),
{
    reveal_with_fuel(lookup, 2);
    if h.len() > 0 {
        assert(h.push(p)[0] == h[0]);
        assert(h.push(p).drop_first() =~= h.drop_first().push(p));
        lemma_lookup_push(h.drop_first(), p, name);
    } else {
        assert(h.push(p)[0] == p);
        assert(h.push(p).drop_first() =~= Seq::<(Seq<char>, Seq<char>)>::empty());
    }
}

/// Keeping headers leaves a lookup alone when no header of that name is dropped, and finds
/// nothing when every header of that name is dropped.
pub proof fn lemma_lookup_kept(
    h: Seq<(Seq<char>, Seq<char>)>,
    drop: spec_fn(Seq<char>) -> bool,
    name: Seq<char>,
)
    ensures
        (forall|k: Seq<char>| same_ignoring_case(k, name) ==> !drop(k)) ==> lookup(kept(h, drop), name)
            == lookup(h, name),
        (forall|k: Seq<char>| same_ignoring_case(k, name) ==> drop(k)) ==> lookup(kept(h, drop), name)
            is None,
    decreases h.len(),
{
    if h.len() > 0 {
        let init = h.drop_last();
        let p = h.last();
        assert(h =~= init.push(p));
        lemma_lookup_kept(init, drop, name);
        lemma_lookup_push(init, p, name);
        lemma_lookup_push(kept(init, drop), p, name);
    }
}

/// After `set`, a lookup of the same name (in any case) finds the new value.
pub proof fn law_set_then_get(
    h: Seq<(Seq<char>, Seq<char>)>,
    name: Seq<char>,
    value: Seq<char>,
    probe: Seq<char>,
)
    requires
        same_ignoring_case(probe, name),
    ensures
        lookup(without(h, name).push((lowered(name), value)), probe) == Some(value),
{
    lemma_lookup_kept(h, |k: Seq<char>| same_ignoring_case(k, name), probe);
    lemma_lookup_push(without(h, name), (lowered(name), value), probe);
    crate::text::lemma_lowered_idempotent(name);
}

/// `set` leaves the lookup of every other name as it was.
pub proof fn law_set_keeps_others(
    h: Seq<(Seq<char>, Seq<char>)>,
    name: Seq<char>,
    value: Seq<char>,
    other: Seq<char>,
)
    requires
        !same_ignoring_case(other, name),
    ensures
        lookup(without(h, name).push((lowered(name), value)), other) == lookup(h, other),
{
    lemma_lookup_kept(h, |k: Seq<char>| same_ignoring_case(k, name), other);
    lemma_lookup_push(without(h, name), (lowered(name), value), other);
    crate::text::lemma_lowered_idempotent(name);
}

/// After `remove`, no header of that name (in any case) is found.
pub proof fn law_removed_is_absent(h: Seq<(Seq<char>, Seq<char>)>, name: Seq<char>, probe: Seq<char>)
    requires
        same_ignoring_case(probe, name),
    ensures
        lookup(without(h, name), probe) is None,
{
    lemma_lookup_kept(h, |k: Seq<char>| same_ignoring_case(k, name), probe);
}

/// Stripping drops every header a browser owns and leaves the lookup of any other name as it
/// was.
pub proof fn law_strip_keeps_the_rest(h: Seq<(Seq<char>, Seq<char>)>, name: Seq<char>)
    ensures
        browser_owned(name) ==> lookup(kept(h, |k: Seq<char>| browser_owned(k)), name) is None,
        !browser_owned(name) ==> lookup(kept(h, |k: Seq<char>| browser_owned(k)), name) == lookup(
            h,
            name,
        ),
{
    lemma_lookup_kept(h, |k: Seq<char>| browser_owned(k), name);
}

/// Every header that keeping leaves has a name that `drop` refuses.
pub proof fn lemma_kept_names(h: Seq<(Seq<char>, Seq<char>)>, drop: spec_fn(Seq<char>) -> bool, i: int)
    requires
        0 <= i < kept(h, drop).len(),
    ensures
        !drop(kept(h, drop)[i].0),
    decreases h.len(),
{
    if h.len() > 0 {
        let init = h.drop_last();
        if drop(h.last().0) {
            lemma_kept_names(init, drop, i);
        } else if i < kept(init, drop).len() {
            lemma_kept_names(init, drop, i);
        }
    }
}

/// After stripping, no header is left whose name is, ignoring ASCII case, one of the eight
/// a browser sets itself: Accept-Encoding, Connection, Content-Length, Host, Keep-Alive, TE,
/// Transfer-Encoding and User-Agent.
pub proof fn law_strip_leaves_no_owned_name(h: Seq<(Seq<char>, Seq<char>)>, i: int)
    requires
        0 <= i < kept(h, |k: Seq<char>| browser_owned(k)).len(),
    ensures
        ({
            let name = kept(h, |k: Seq<char>| browser_owned(k))[i].0;
            &&& !same_ignoring_case(name, "accept-encoding"@)
            &&& !same_ignoring_case(name, "connection"@)
            &&& !same_ignoring_case(name, "content-length"@)
            &&& !same_ignoring_case(name, "host"@)
            &&& !same_ignoring_case(name, "keep-alive"@)
            &&& !same_ignoring_case(name, "te"@)
            &&& !same_ignoring_case(name, "transfer-encoding"@)
            &&& !same_ignoring_case(name, "user-agent"@)
        }),
{
    lemma_kept_names(h, |k: Seq<char>| browser_owned(k), i);
}

/// Stripping finds nothing under any of the eight names a browser owns (in any case), and
/// leaves the lookup of every other name as it was.
pub proof fn law_strip_by_name(h: Seq<(Seq<char>, Seq<char>)>, name: Seq<char>)
    ensures
        ({
            let owned = same_ignoring_case(name, "accept-encoding"@) || same_ignoring_case(
                name,
                "connection"@,
            ) || same_ignoring_case(name, "content-length"@) || same_ignoring_case(name, "host"@)
                || same_ignoring_case(name, "keep-alive"@) || same_ignoring_case(name, "te"@)
                || same_ignoring_case(name, "transfer-encoding"@) || same_ignoring_case(
                name,
                "user-agent"@,
            );
            let after = lookup(kept(h, |k: Seq<char>| browser_owned(k)), name);
            &&& owned ==> after is None
            &&& !owned ==> after == lookup(h, name)
        }),
{
    law_strip_keeps_the_rest(h, name);
}

} // verus!
