//! `Content-Range` headers: the span of bytes a partial response carries.
use vstd::prelude::*;

use crate::text::{
    chars_of, find_char, find_in, parse_u64_in, parse_u64_spec, trim_bounds, trim_start, trimmed,
    skip_space,
};

verus! {

/// The span `first..=last` of a representation of `complete_length` bytes (when known).
#[derive(Debug, Clone, Copy, PartialEq, Eq)]
pub struct ContentRange {
    pub first: u64,
    pub last: u64,
    pub complete_length: Option<u64>,
}

/// The unit a byte range names.
pub open spec fn bytes_unit() -> Seq<char> {
    seq!['b', 'y', 't', 'e', 's']
}

/// The two ends of a span `first-last`, each a number with whitespace around it.
pub open spec fn span_spec(span: Seq<char>) -> Option<(u64, u64)> {
    match find_char(span, '-') {
        None => None,
        Some(d) => match (
            parse_u64_spec(trimmed(span.take(d))),
            parse_u64_spec(trimmed(span.skip(d + 1))),
        ) {
            (Some(a), Some(b)) => Some((a, b)),
            _ => None,
        },
    }
}

/// The complete length: `*` for unknown, else a number.
pub open spec fn total_spec(total: Seq<char>) -> Option<Option<u64>> {
    if total == seq!['*'] {
        Some(None)
    } else {
        match parse_u64_spec(total) {
            Some(n) => Some(Some(n)),
            None => None,
        }
    }
}

/// What `parse_content_range` finds in `value`: `bytes`, then `first-last`, a `/`, and the
/// complete length or `*`; whitespace around each part is ignored, and the span must not run
/// backwards.
pub open spec fn content_range_spec(value: Seq<char>) -> Option<(u64, u64, Option<u64>)> {
    let t = trimmed(value);
    if t.len() < 5 || t.take(5) != bytes_unit() {
        None
    } else {
        let rest = trim_start(t.skip(5));
        match find_char(rest, '/') {
            None => None,
            Some(s) => match span_spec(trimmed(rest.take(s))) {
                None => None,
                Some((a, b)) => if b < a {
                    None
                } else {
                    match total_spec(trimmed(rest.skip(s + 1))) {
                        None => None,
                        Some(n) => Some((a, b, n)),
                    }
                },
            },
        }
    }
}

fn parse_span(s: &Vec<char>, p: usize, q: usize) -> (r: Option<(u64, u64)>)
    requires
        p <= q <= s.len(),
    ensures
        r == span_spec(s@.subrange(p as int, q as int)),
{
    let ghost span = s@.subrange(p as int, q as int);
    let dash = match find_in(s, p, q, '-') {
        Some(i) => i,
        None => {
            return None;
        },
    };
    assert(find_char(span, '-') == Some((dash - p) as int));
    assert(span.take(dash - p) =~= s@.subrange(p as int, dash as int));
    assert(span.skip(dash - p + 1) =~= s@.subrange(dash + 1, q as int));
    let (f0, f1) = trim_bounds(s, p, dash);
    let (l0, l1) = trim_bounds(s, dash + 1, q);
    let first = match parse_u64_in(s, f0, f1) {
        Some(n) => n,
        None => {
            return None;
        },
    };
    let last = match parse_u64_in(s, l0, l1) {
        Some(n) => n,
        None => {
            return None;
        },
    };
    Some((first, last))
}

fn parse_total(s: &Vec<char>, x: usize, y: usize) -> (r: Option<Option<u64>>)
    requires
        x <= y <= s.len(),
    ensures
        r == total_spec(s@.subrange(x as int, y as int)),
{
    if y - x == 1 && s[x] == '*' {
        assert(s@.subrange(x as int, y as int) =~= seq!['*']);
        return Some(None);
    }
    proof {
        if s@.subrange(x as int, y as int) == seq!['*'] {
            assert(s@.subrange(x as int, y as int)[0] == '*');
        }
    }
    match parse_u64_in(s, x, y) {
        Some(n) => Some(Some(n)),
        None => None,
    }
}

/// Parses a `Content-Range` value such as `bytes 0-0/11050` or `bytes 0-99/*`.
pub fn parse_content_range(value: &str) -> (r: Option<ContentRange>)
    ensures
        match (r, content_range_spec(value@)) {
            (Some(c), Some((a, b, n))) => c.first == a && c.last == b && c.complete_length == n,
            (None, None) => true,
            _ => false,
        },
{
    let s = chars_of(value);
    let ghost v = s@;
    let (a, b) = trim_bounds(&s, 0, s.len());
    assert(s@.subrange(0, s.len() as int) =~= v);
    let ghost t = v.subrange(a as int, b as int);
    if b - a < 5 || !(s[a] == 'b' && s[a + 1] == 'y' && s[a + 2] == 't' && s[a + 3] == 'e' && s[a
        + 4] == 's') {
        proof {
            if t.len() >= 5 {
                if t.take(5) == bytes_unit() {
                    assert(t.take(5)[0] == 'b');
                    assert(t.take(5)[1] == 'y');
                    assert(t.take(5)[2] == 't');
                    assert(t.take(5)[3] == 'e');
                    assert(t.take(5)[4] == 's');
                }
            }
        }
        return None;
    }
    assert(t.take(5) =~= bytes_unit());
    let c = skip_space(&s, a + 5, b);
    assert(t.skip(5) =~= v.subrange(a + 5, b as int));
    let ghost rest = v.subrange(c as int, b as int);
    let slash = match find_in(&s, c, b, '/') {
        Some(i) => i,
        None => {
            return None;
        },
    };
    assert(find_char(rest, '/') == Some((slash - c) as int));
    assert(rest.take(slash - c) =~= v.subrange(c as int, slash as int));
    assert(rest.skip(slash - c + 1) =~= v.subrange(slash + 1, b as int));
    let (p, q) = trim_bounds(&s, c, slash);
    let (first, last) = match parse_span(&s, p, q) {
        Some(ends) => ends,
        None => {
            return None;
        },
    };
    if last < first {
        return None;
    }
    let (x, y) = trim_bounds(&s, slash + 1, b);
    let complete_length = match parse_total(&s, x, y) {
        Some(n) => n,
        None => {
            return None;
        },
    };
    Some(ContentRange { first, last, complete_length })
}

/// The header that asks for the first byte only.
pub fn probe_range_header() -> (r: (&'static str, &'static str))
    ensures
        r.0@ == "range"@,
        r.1@ == "bytes=0-0"@,
{
    ("range", "bytes=0-0")
}

} // verus!
