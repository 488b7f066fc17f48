//! Glob patterns over the virtual filesystem: a walk from the pattern's literal prefix,
//! filtered by the `glob` crate's matcher, in path order.
use vstd::prelude::*;

use crate::memory::{listed_dir, Contents, MemoryFs, VfsKind};
use crate::path::{
    is_normal, join_spec, lemma_normalize_idempotent, lemma_normalized_ok, lemma_render_normal,
    normalize_spec, normalized_segments, render, segments_ok,
};
use crate::text::{
    chars_less, chars_lt, lemma_chars_lt_irreflexive, lemma_chars_lt_total,
    lemma_chars_lt_transitive,
};
use crate::walk::{
    child_path, has_child, keys_normal, outcome, lemma_child_below, listing, visit_at, visit_path,
    walk_list, walk_visit, below, Visit, WalkDir, WalkEntryView, WalkShape,
};

verus! {

/// `glob::Pattern`, carried unopened.
#[verifier::external_type_specification]
#[verifier::external_body]
pub struct ExPattern(glob::Pattern);

/// `glob::PatternError`, carried unopened.
#[verifier::external_type_specification]
#[verifier::external_body]
pub struct ExPatternError(glob::PatternError);

/// `glob::GlobError`, carried unopened (a walk of the virtual filesystem never yields one).
#[verifier::external_type_specification]
#[verifier::external_body]
pub struct ExGlobError(glob::GlobError);

/// Whether `glob::Pattern::new` accepts the pattern text.
pub uninterp spec fn pattern_accepts(pattern: Seq<char>) -> bool;

/// Whether the `glob` matcher built from `pattern` matches `path` under these options.
pub uninterp spec fn glob_matches(
    pattern: Seq<char>,
    path: Seq<char>,
    case_sensitive: bool,
    require_literal_separator: bool,
    require_literal_leading_dot: bool,
) -> bool;

/// How a pattern is matched, as `glob::MatchOptions` has it.
#[derive(Debug, Clone, Copy, PartialEq, Eq, Structural)]
pub struct MatchFlags {
    pub case_sensitive: bool,
    pub require_literal_separator: bool,
    pub require_literal_leading_dot: bool,
}

/// A pattern compiled by the `glob` crate, with the text it was compiled from.
#[derive(Debug)]
pub struct Compiled {
    text: String,
    pattern: glob::Pattern,
}

impl View for Compiled {
    type V = Seq<char>;

    closed spec fn view(&self) -> Seq<char> {
        self.text@
    }
}

/// `glob::Pattern::new`: the pattern compiled, or the crate's reason for refusing it (the
/// outcome depends on the text alone).
#[verifier::external_body]
fn compile(text: &str) -> (r: Result<Compiled, glob::PatternError>)
    ensures
        r is Ok == pattern_accepts(text@),
        r matches Ok(c) ==> c@ == text@,
{
    match glob::Pattern::new(text) {
        Ok(pattern) => Ok(Compiled { text: text.to_owned(), pattern }),
        Err(error) => Err(error),
    }
}

/// `glob::Pattern::matches_path_with`: whether the compiled pattern matches `path` (the
/// answer depends on the pattern text, the path and the options alone).
#[verifier::external_body]
fn matches_path(compiled: &Compiled, path: &str, flags: MatchFlags) -> (r: bool)
    ensures
        r == glob_matches(
            compiled@,
            path@,
            flags.case_sensitive,
            flags.require_literal_separator,
            flags.require_literal_leading_dot,
        ),
{
    compiled.pattern.matches_path_with(
        std::path::Path::new(path),
        glob::MatchOptions {
            case_sensitive: flags.case_sensitive,
            require_literal_separator: flags.require_literal_separator,
            require_literal_leading_dot: flags.require_literal_leading_dot,
        },
    )
}

/// A path component that holds a wildcard character.
pub open spec fn has_wildcard(seg: Seq<char>) -> bool {
    seg.contains('*') || seg.contains('?') || seg.contains('[')
}

/// The leading components up to the first one that holds a wildcard.
pub open spec fn literal_prefix(segs: Seq<Seq<char>>) -> Seq<Seq<char>>
    decreases segs.len(),
{
    if segs.len() == 0 || has_wildcard(segs[0]) {
        Seq::empty()
    } else {
        seq![segs[0]] + literal_prefix(segs.drop_first())
    }
}

/// Where a walk for the pattern starts: its normalised leading components without wildcards.
pub open spec fn literal_root_spec(pattern: Seq<char>) -> Seq<char> {
    render(literal_prefix(normalized_segments(pattern)))
}

/// A pattern with a trailing `/` asks for directories only.
pub open spec fn dirs_only(pattern: Seq<char>) -> bool {
    pattern.len() > 0 && pattern.last() == '/'
}

/// The pattern without the trailing `/` that asks for directories.
pub open spec fn glob_body(pattern: Seq<char>) -> Seq<char> {
    if dirs_only(pattern) {
        pattern.drop_last()
    } else {
        pattern
    }
}

/// Paths ordered component by component, each component by code point (`Path`'s order).
pub open spec fn segs_lt(a: Seq<Seq<char>>, b: Seq<Seq<char>>) -> bool
    decreases a.len(),
{
    if a.len() == 0 {
        b.len() > 0
    } else if b.len() == 0 {
        false
    } else if a[0] != b[0] {
        chars_lt(a[0], b[0])
    } else {
        segs_lt(a.drop_first(), b.drop_first())
    }
}

/// `a` sorts before `b` as paths.
pub open spec fn path_lt(a: Seq<char>, b: Seq<char>) -> bool {
    segs_lt(normalized_segments(a), normalized_segments(b))
}

/// Paths in strictly ascending path order.
pub open spec fn ascending_paths(s: Seq<Seq<char>>) -> bool {
    forall|i: int, j: int| 0 <= i < j < s.len() ==> path_lt(#[trigger] s[i], #[trigger] s[j])
}

/// Every entry among the steps names a normalised path.
pub open spec fn found_normal(s: Seq<Visit>) -> bool {
    forall|i: int| 0 <= i < s.len() ==> (#[trigger] s[i] matches Visit::Found(e) ==> is_normal(e.path))
}

/// The step is an entry the pattern selects.
pub open spec fn glob_hit(body: Seq<char>, directories: bool, v: Visit) -> bool {
    match v {
        Visit::Found(e) => (!directories || e.kind == VfsKind::Directory) && glob_matches(
            body,
            e.path,
            true,
            true,
            false,
        ),
        Visit::Failed(_, _) => false,
    }
}

/// The walk a pattern body is matched against: everything from its literal root.
pub open spec fn glob_walk(m: Contents, body: Seq<char>) -> Seq<Visit> {
    walk_visit(
        m,
        visit_at(m, literal_root_spec(body), 0),
        WalkShape { min_depth: 0, contents_first: false },
    )
}

/// The paths among the first `n` steps of `w` that the pattern selects.
pub open spec fn hits_within(w: Seq<Visit>, body: Seq<char>, directories: bool, n: int) -> Set<Seq<char>> {
    Set::new(|p: Seq<char>| exists|i: int| 0 <= i < n && glob_hit(body, directories, #[trigger] w[i]) && visit_path(w[i]) == p)
}

/// The paths the pattern matches in `m`.
pub open spec fn glob_found(m: Contents, pattern: Seq<char>) -> Set<Seq<char>> {
    let body = glob_body(pattern);
    let w = glob_walk(m, body);
    hits_within(w, body, dirs_only(pattern), w.len() as int)
}

/// Nothing sorts before itself as a path.
pub proof fn lemma_segs_lt_irreflexive(a: Seq<Seq<char>>)
    ensures
        !segs_lt(a, a),
    decreases a.len(),
{
    if a.len() > 0 {
        lemma_segs_lt_irreflexive(a.drop_first());
    }
}

/// The path order is transitive.
pub proof fn lemma_segs_lt_transitive(a: Seq<Seq<char>>, b: Seq<Seq<char>>, c: Seq<Seq<char>>)
    requires
        segs_lt(a, b),
        segs_lt(b, c),
    ensures
        segs_lt(a, c),
    decreases a.len(),
{
    if a.len() == 0 {
    } else if a[0] != b[0] {
        if b[0] != c[0] {
            lemma_chars_lt_transitive(a[0], b[0], c[0]);
            if a[0] == c[0] {
                lemma_chars_lt_irreflexive(a[0]);
            }
        }
    } else if b[0] != c[0] {
    } else {
        lemma_segs_lt_transitive(a.drop_first(), b.drop_first(), c.drop_first());
    }
}

/// Two different component lists are ordered one way or the other.
pub proof fn lemma_segs_lt_total(a: Seq<Seq<char>>, b: Seq<Seq<char>>)
    requires
        a != b,
    ensures
        segs_lt(a, b) || segs_lt(b, a),
    decreases a.len(),
{
    if a.len() == 0 {
        assert(b.len() > 0) by {
            if b.len() == 0 {
                assert(a =~= b);
            }
        }
    } else if b.len() == 0 {
    } else if a[0] != b[0] {
        lemma_chars_lt_total(a[0], b[0]);
    } else {
        assert(a.drop_first() != b.drop_first()) by {
            if a.drop_first() == b.drop_first() {
                assert(a =~= seq![a[0]] + a.drop_first());
                assert(b =~= seq![b[0]] + b.drop_first());
            }
        }
        lemma_segs_lt_total(a.drop_first(), b.drop_first());
    }
}

proof fn lemma_found_normal_concat(a: Seq<Visit>, b: Seq<Visit>)
    requires
        found_normal(a),
        found_normal(b),
    ensures
        found_normal(a + b),
{
    assert forall|i: int| 0 <= i < (a + b).len() implies (#[trigger] (a + b)[i] matches Visit::Found(e)
        ==> is_normal(e.path)) by {
        if i < a.len() {
            assert((a + b)[i] == a[i]);
        } else {
            assert((a + b)[i] == b[i - a.len()]);
        }
    }
}

/// Every entry a walk from a normalised path yields names a normalised path.
proof fn lemma_walk_visit_normal(m: Contents, v: Visit, o: WalkShape)
    requires
        m.dom().finite(),
        keys_normal(m),
        v matches Visit::Found(e) ==> is_normal(e.path),
    ensures
        found_normal(walk_visit(m, v, o)),
    decreases below(m, visit_path(v)).len() + 1, 0nat,
{
    match v {
        Visit::Failed(_, _) => {},
        Visit::Found(e) => {
            if e.kind == VfsKind::Directory {
                let shown = e.depth >= o.min_depth;
                let pre: Seq<Visit> = if !o.contents_first && shown { seq![v] } else { Seq::empty() };
                match listed_dir(m, e.path) {
                    Err(f) => {
                        lemma_found_normal_concat(pre, seq![Visit::Failed(e.path, f)]);
                    },
                    Ok(dir) => {
                        let post: Seq<Visit> = if o.contents_first && shown { seq![v] } else { Seq::empty() };
                        let mid = walk_list(m, e.path, listing(m, dir), e.depth + 1, o);
                        lemma_walk_list_normal(m, e.path, listing(m, dir), e.depth + 1, o);
                        lemma_found_normal_concat(pre, mid);
                        lemma_found_normal_concat(pre + mid, post);
                    },
                }
            }
        },
    }
}

proof fn lemma_walk_list_normal(
    m: Contents,
    parent: Seq<char>,
    names: Seq<Seq<char>>,
    depth: int,
    o: WalkShape,
)
    requires
        m.dom().finite(),
        keys_normal(m),
    ensures
        found_normal(walk_list(m, parent, names, depth, o)),
    decreases below(m, parent).len(), names.len(),
{
    if names.len() > 0 {
        lemma_walk_list_normal(m, parent, names.drop_last(), depth, o);
        let name = names.last();
        if is_normal(parent) && has_child(m, parent, name) {
            lemma_child_below(m, parent, name);
            let c = child_path(parent, name);
            lemma_normalize_idempotent(join_spec(parent, name));
            lemma_walk_visit_normal(m, visit_at(m, c, depth), o);
            lemma_found_normal_concat(
                walk_list(m, parent, names.drop_last(), depth, o),
                walk_visit(m, visit_at(m, c, depth), o),
            );
        }
    }
}

/// Whether a component holds a wildcard character.
fn wildcard_in(seg: &Vec<char>) -> (r: bool)
    ensures
        r == has_wildcard(seg@),
{
    let mut i: usize = 0;
    while i < seg.len()
        invariant
            i <= seg.len(),
            forall|j: int| 0 <= j < i ==> seg@[j] != '*' && seg@[j] != '?' && seg@[j] != '[',
        decreases seg.len() - i,
    {
        let c = seg[i];
        if c == '*' || c == '?' || c == '[' {
            assert(seg@.contains(c)) by {
                assert(seg@[i as int] == c);
            }
            return true;
        }
        i = i + 1;
    }
    proof {
        assert(!seg@.contains('*'));
        assert(!seg@.contains('?'));
        assert(!seg@.contains('['));
    }
    false
}

proof fn lemma_literal_prefix(segs: Seq<Seq<char>>, k: int)
    requires
        0 <= k <= segs.len(),
        forall|j: int| 0 <= j < k ==> !has_wildcard(#[trigger] segs[j]),
        k == segs.len() || has_wildcard(segs[k]),
    ensures
        literal_prefix(segs) == segs.take(k),
    decreases k,
{
    if k == 0 {
        assert(segs.take(0) =~= Seq::<Seq<char>>::empty());
    } else {
        let rest = segs.drop_first();
        assert forall|j: int| 0 <= j < k - 1 implies !has_wildcard(#[trigger] rest[j]) by {
            assert(rest[j] == segs[j + 1]);
        }
        if k < segs.len() {
            assert(rest[k - 1] == segs[k]);
        }
        lemma_literal_prefix(rest, k - 1);
        assert(segs.take(k) =~= seq![segs[0]] + rest.take(k - 1));
    }
}

/// Where the walk for a pattern starts: the normalised path of its components up to the
/// first one with a wildcard.
pub fn literal_root(pattern: &str) -> (root: String)
    ensures
        root@ == literal_root_spec(pattern@),
        is_normal(root@),
{
    let segs = crate::path::normalize_segments(pattern);
    let ghost all = segs.deep_view();
    let mut kept: Vec<Vec<char>> = Vec::new();
    let mut k: usize = 0;
    while k < segs.len() && !wildcard_in(&segs[k])
        invariant
            k <= segs.len(),
            all == segs.deep_view(),
            all.len() == segs.len(),
            kept.len() == k,
            kept.deep_view() == all.take(k as int),
            forall|j: int| 0 <= j < k ==> !has_wildcard(#[trigger] all[j]),
        decreases segs.len() - k,
    {
        let seg = segs[k].clone();
        proof {
            assert(seg@ =~= segs[k as int]@);
        }
        let ghost prior = kept@;
        kept.push(seg);
        proof {
            assert(kept@ == prior.push(seg));
            assert forall|j: int| 0 <= j < k + 1 implies kept.deep_view()[j] == all.take(k + 1)[j] by {
                if j < k {
                    assert(kept@[j] == prior[j]);
                } else {
                    assert(kept@[j] == seg);
                }
            }
            assert(kept.deep_view() =~= all.take(k + 1));
        }
        k = k + 1;
    }
    proof {
        if k < segs.len() {
            assert(all[k as int] == segs[k as int]@);
        }
        lemma_literal_prefix(all, k as int);
        lemma_normalized_ok(pattern@);
        assert(segments_ok(all.take(k as int)));
        lemma_render_normal(all.take(k as int));
    }
    crate::path::render_segments(&kept)
}

/// Whether one list of components sorts before another.
fn segs_less(a: &Vec<Vec<char>>, b: &Vec<Vec<char>>) -> (r: bool)
    ensures
        r == segs_lt(a.deep_view(), b.deep_view()),
{
    let ghost da = a.deep_view();
    let ghost db = b.deep_view();
    let mut i: usize = 0;
    assert(da.skip(0) =~= da);
    assert(db.skip(0) =~= db);
    while i < a.len() && i < b.len()
        invariant
            i <= a.len(),
            i <= b.len(),
            da == a.deep_view(),
            db == b.deep_view(),
            segs_lt(da, db) == segs_lt(da.skip(i as int), db.skip(i as int)),
        decreases a.len() - i,
    {
        assert(da.skip(i as int)[0] == a[i as int]@);
        assert(db.skip(i as int)[0] == b[i as int]@);
        if chars_less(&a[i], &b[i]) {
            proof {
                lemma_chars_lt_irreflexive(a[i as int]@);
            }
            return true;
        }
        if chars_less(&b[i], &a[i]) {
            proof {
                lemma_chars_lt_irreflexive(a[i as int]@);
            }
            return false;
        }
        proof {
            if a[i as int]@ != b[i as int]@ {
                lemma_chars_lt_total(a[i as int]@, b[i as int]@);
            }
        }
        assert(da.skip(i as int).drop_first() =~= da.skip(i + 1));
        assert(db.skip(i as int).drop_first() =~= db.skip(i + 1));
        i = i + 1;
    }
    i == a.len() && i < b.len()
}

/// Whether `a` sorts before `b` as paths.
pub fn path_less(a: &str, b: &str) -> (r: bool)
    ensures
        r == path_lt(a@, b@),
{
    let sa = crate::path::normalize_segments(a);
    let sb = crate::path::normalize_segments(b);
    segs_less(&sa, &sb)
}

/// The views of a list of strings.
pub open spec fn texts(v: Seq<String>) -> Seq<Seq<char>> {
    v.map_values(|s: String| s@)
}

/// Adds a normalised path to an ascending list of normalised paths, unless it is there.
fn insert_path(out: &mut Vec<String>, x: String)
    requires
        ascending_paths(texts(old(out)@)),
        forall|i: int| 0 <= i < old(out)@.len() ==> is_normal(#[trigger] old(out)@[i]@),
        is_normal(x@),
    ensures
        ascending_paths(texts(final(out)@)),
        forall|i: int| 0 <= i < final(out)@.len() ==> is_normal(#[trigger] final(out)@[i]@),
        forall|p: Seq<char>| texts(final(out)@).contains(p) <==> (texts(old(out)@).contains(p) || p == x@),
{
    let ghost before = texts(out@);
    let mut i: usize = 0;
    while i < out.len() && path_less(out[i].as_str(), x.as_str())
        invariant
            i <= out.len(),
            out@ == old(out)@,
            forall|j: int| 0 <= j < i ==> path_lt(#[trigger] out@[j]@, x@),
        decreases out.len() - i,
    {
        i = i + 1;
    }
    if i < out.len() && !path_less(x.as_str(), out[i].as_str()) {
        proof {
            let a = normalized_segments(out@[i as int]@);
            let b = normalized_segments(x@);
            if a != b {
                lemma_segs_lt_total(a, b);
            }
            assert(out@[i as int]@ == x@);
            assert(before[i as int] == x@);
        }
        return;
    }
    let ghost xv = x@;
    out.insert(i, x);
    proof {
        let after = texts(out@);
        assert(after =~= before.take(i as int).push(xv) + before.skip(i as int));
        assert forall|a: int, b: int| 0 <= a < b < after.len() implies path_lt(
            #[trigger] after[a],
            #[trigger] after[b],
        ) by {
            if b < i {
                assert(after[a] == before[a] && after[b] == before[b]);
            } else if b == i {
                assert(after[a] == before[a]);
            } else if a < i {
                assert(after[a] == before[a] && after[b] == before[b - 1]);
                if i < before.len() {
                    if b - 1 > i {
                        lemma_segs_lt_transitive(
                            normalized_segments(xv),
                            normalized_segments(before[i as int]),
                            normalized_segments(before[b - 1]),
                        );
                    }
                    lemma_segs_lt_transitive(
                        normalized_segments(before[a]),
                        normalized_segments(xv),
                        normalized_segments(before[b - 1]),
                    );
                }
            } else if a == i {
                assert(after[b] == before[b - 1]);
                if b - 1 > i {
                    lemma_segs_lt_transitive(
                        normalized_segments(xv),
                        normalized_segments(before[i as int]),
                        normalized_segments(before[b - 1]),
                    );
                }
            } else {
                assert(after[a] == before[a - 1] && after[b] == before[b - 1]);
            }
        }
        assert forall|p: Seq<char>| after.contains(p) <==> (before.contains(p) || p == xv) by {
            if after.contains(p) {
                let k = choose|k: int| 0 <= k < after.len() && after[k] == p;
                if k < i {
                    assert(before[k] == p);
                } else if k > i {
                    assert(before[k - 1] == p);
                }
            }
            if before.contains(p) {
                let k = choose|k: int| 0 <= k < before.len() && before[k] == p;
                if k < i {
                    assert(after[k] == p);
                } else {
                    assert(after[k + 1] == p);
                }
            }
            if p == xv {
                assert(after[i as int] == p);
            }
        }
    }
}

/// The paths a pattern matched, in path order, each once.
#[derive(Debug)]
pub struct Paths {
    matches: Vec<String>,
}

impl View for Paths {
    type V = Seq<Seq<char>>;

    closed spec fn view(&self) -> Seq<Seq<char>> {
        texts(self.matches@)
    }
}

impl Paths {
    /// The next matched path, or `None` once all have been taken.
    pub fn next(&mut self) -> (r: Option<Result<String, glob::GlobError>>)
        ensures
            old(self)@.len() == 0 ==> r is None && final(self)@ == old(self)@,
            old(self)@.len() > 0 ==> (r matches Some(Ok(p)) && p@ == old(self)@[0]
                && final(self)@ == old(self)@.drop_first()),
    {
        if self.matches.len() == 0 {
            return None;
        }
        let p = self.matches.remove(0);
        proof {
            assert(texts(self.matches@) =~= texts(old(self).matches@).drop_first());
        }
        Some(Ok(p))
    }
}

/// The pattern without a trailing `/`, and whether there was one.
fn split_body(pattern: &str) -> (r: (String, bool))
    ensures
        r.0@ == glob_body(pattern@),
        r.1 == dirs_only(pattern@),
{
    let mut cs = crate::text::chars_of(pattern);
    if cs.len() > 0 && cs[cs.len() - 1] == '/' {
        cs.pop();
        proof {
            assert(cs@ =~= pattern@.drop_last());
        }
        (crate::text::string_of(&cs), true)
    } else {
        (String::from_str(pattern), false)
    }
}

/// The paths in the filesystem that match `pattern`, in path order, each once; a trailing
/// `/` asks for directories only. The walk starts at the pattern's leading components
/// without wildcards, and matching is case-sensitive, with `/` matched only literally.
/// A pattern the `glob` crate refuses is refused with its error.
pub fn glob(fs: &MemoryFs, pattern: &str) -> (r: Result<Paths, glob::PatternError>)
    requires
        fs.wf(),
        fs@.dom().len() < usize::MAX,
    ensures
        r is Ok <==> pattern_accepts(glob_body(pattern@)),
        r matches Ok(paths) ==> {
            &&& ascending_paths(paths@)
            &&& forall|p: Seq<char>| paths@.contains(p) <==> glob_found(fs@, pattern@).contains(p)
        },
{
    let (body, directories) = split_body(pattern);
    let compiled = match compile(body.as_str()) {
        Ok(c) => c,
        Err(e) => return Err(e),
    };
    let root = literal_root(body.as_str());
    let ghost shape = WalkShape { min_depth: 0, contents_first: false };
    let mut it = WalkDir::new(root.as_str()).into_iter(fs);
    let ghost w = it@;
    let ghost b = body@;
    proof {
        fs.lemma_wf_facts();
        assert(w == glob_walk(fs@, b));
        lemma_walk_visit_normal(fs@, visit_at(fs@, root@, 0), shape);
        assert(it@ =~= w.skip(0));
        assert(hits_within(w, b, directories, 0) =~= Set::empty());
    }
    let mut out: Vec<String> = Vec::new();
    let ghost mut k: int = 0;
    loop
        invariant
            0 <= k <= w.len(),
            it@ == w.skip(k),
            found_normal(w),
            compiled@ == b,
            ascending_paths(texts(out@)),
            forall|i: int| 0 <= i < out@.len() ==> is_normal(#[trigger] out@[i]@),
            forall|p: Seq<char>| texts(out@).contains(p) <==> hits_within(w, b, directories, k).contains(p),
        ensures
            k == w.len(),
            ascending_paths(texts(out@)),
            forall|p: Seq<char>| texts(out@).contains(p) <==> hits_within(w, b, directories, k).contains(p),
        decreases w.len() - k,
    {
        let ghost before = hits_within(w, b, directories, k);
        let next = it.next();
        match next {
            None => {
                break;
            },
            Some(x) => {
                let ghost v = w[k];
                assert(w.skip(k)[0] == v);
                assert(outcome(x) == v);
                let ghost added: Option<Seq<char>> = if glob_hit(b, directories, v) {
                    Some(visit_path(v))
                } else {
                    None
                };
                match x {
                    Ok(entry) => {
                        assert(v == Visit::Found(entry@));
                        let kind_ok = !directories || entry.file_type().is_dir();
                        let flags = MatchFlags {
                            case_sensitive: true,
                            require_literal_separator: true,
                            require_literal_leading_dot: false,
                        };
                        let keep = kind_ok && matches_path(&compiled, entry.path(), flags);
                        assert(keep == glob_hit(b, directories, v));
                        if keep {
                            proof {
                                assert(is_normal(visit_path(v)));
                            }
                            insert_path(&mut out, entry.into_path());
                        }
                    },
                    Err(_) => {},
                }
                proof {
                    let after = hits_within(w, b, directories, k + 1);
                    assert forall|p: Seq<char>| after.contains(p) <==> (before.contains(p) || added == Some(p)) by {
                        if after.contains(p) {
                            let i = choose|i: int| 0 <= i < k + 1 && glob_hit(b, directories, #[trigger] w[i]) && visit_path(w[i]) == p;
                            if i < k {
                                assert(before.contains(p));
                            }
                        }
                        if before.contains(p) {
                            let i = choose|i: int| 0 <= i < k && glob_hit(b, directories, #[trigger] w[i]) && visit_path(w[i]) == p;
                            assert(after.contains(p));
                        }
                        if added == Some(p) {
                            assert(glob_hit(b, directories, w[k]) && visit_path(w[k]) == p);
                            assert(after.contains(p));
                        }
                    }
                    assert(w.skip(k).drop_first() =~= w.skip(k + 1));
                    k = k + 1;
                }
            },
        }
    }
    proof {
        assert(w.skip(k).len() == 0);
    }
    Ok(Paths { matches: out })
}

} // verus!

verus! {

/// A path is found only where the `glob` matcher, run case-sensitively, with `/` matched only
/// literally and a leading `.` open to wildcards, matches it.
pub proof fn law_glob_found_matches_case_sensitively(m: Contents, pattern: Seq<char>, p: Seq<char>)
    requires
        glob_found(m, pattern).contains(p),
    ensures
        glob_matches(glob_body(pattern), p, true, true, false),
{
    let body = glob_body(pattern);
    let w = glob_walk(m, body);
    let i = choose|i: int| 0 <= i < w.len() && glob_hit(body, dirs_only(pattern), #[trigger] w[i]) && visit_path(w[i]) == p;
    assert(glob_hit(body, dirs_only(pattern), w[i]));
}

/// Every entry of the walk that the `glob` matcher, run case-sensitively, with `/` matched
/// only literally and a leading `.` open to wildcards, matches is found (where the pattern
/// ends in `/`, every such directory).
pub proof fn law_glob_finds_case_sensitive_matches(m: Contents, pattern: Seq<char>, i: int, e: WalkEntryView)
    requires
        0 <= i < glob_walk(m, glob_body(pattern)).len(),
        glob_walk(m, glob_body(pattern))[i] == Visit::Found(e),
        !dirs_only(pattern) || e.kind == VfsKind::Directory,
        glob_matches(glob_body(pattern), e.path, true, true, false),
    ensures
        glob_found(m, pattern).contains(e.path),
{
    let body = glob_body(pattern);
    let w = glob_walk(m, body);
    assert(glob_hit(body, dirs_only(pattern), w[i]) && visit_path(w[i]) == e.path);
    assert(hits_within(w, body, dirs_only(pattern), w.len() as int).contains(e.path));
}

} // verus!
