//! POSIX path arithmetic for the virtual filesystem: normalisation, parents,
//! containment and resolution against a working directory.
use vstd::prelude::*;

use crate::text::{chars_of, string_of};

verus! {

/// Splits a path on `/`, keeping empty pieces, exactly as `str::split('/')` does.
pub open spec fn split_segments(s: Seq<char>) -> Seq<Seq<char>>
    decreases s.len(),
{
    if s.len() == 0 {
        seq![Seq::<char>::empty()]
    } else {
        let prior = split_segments(s.drop_last());
        if s.last() == '/' {
            prior.push(Seq::<char>::empty())
        } else {
            prior.update(prior.len() - 1, prior.last().push(s.last()))
        }
    }
}

pub open spec fn is_dot(seg: Seq<char>) -> bool {
    seg == seq!['.']
}

pub open spec fn is_dot_dot(seg: Seq<char>) -> bool {
    seg == seq!['.', '.']
}

/// Applies one component to a stack of normalised segments: empty pieces and `.` vanish,
/// `..` pops (and stops at the root), anything else is pushed.
pub open spec fn apply_segment(stack: Seq<Seq<char>>, seg: Seq<char>) -> Seq<Seq<char>> {
    if seg.len() == 0 || is_dot(seg) {
        stack
    } else if is_dot_dot(seg) {
        if stack.len() > 0 {
            stack.drop_last()
        } else {
            stack
        }
    } else {
        stack.push(seg)
    }
}

/// Folds the components of a path, left to right, into normalised segments.
pub open spec fn fold_segments(parts: Seq<Seq<char>>) -> Seq<Seq<char>>
    decreases parts.len(),
{
    if parts.len() == 0 {
        Seq::<Seq<char>>::empty()
    } else {
        apply_segment(fold_segments(parts.drop_last()), parts.last())
    }
}

/// The segments of the normalised form of `s`.
pub open spec fn normalized_segments(s: Seq<char>) -> Seq<Seq<char>> {
    fold_segments(split_segments(s))
}

/// Segments joined with `/`.
pub open spec fn join_segments(segs: Seq<Seq<char>>) -> Seq<char>
    decreases segs.len(),
{
    if segs.len() == 0 {
        Seq::<char>::empty()
    } else if segs.len() == 1 {
        segs[0]
    } else {
        join_segments(segs.drop_last()) + seq!['/'] + segs.last()
    }
}

/// The absolute POSIX rendering of a list of segments.
pub open spec fn render(segs: Seq<Seq<char>>) -> Seq<char> {
    seq!['/'] + join_segments(segs)
}

/// The normalised form of a path: absolute, `/`-separated, with no `.`, `..` or empty
/// components (a `..` at the root stays at the root).
pub open spec fn normalize_spec(s: Seq<char>) -> Seq<char> {
    render(normalized_segments(s))
}

/// `candidate` starts with `prefix`, component by component, once both are normalised.
pub open spec fn path_starts_with(candidate: Seq<char>, prefix: Seq<char>) -> bool {
    let c = normalized_segments(candidate);
    let p = normalized_segments(prefix);
    p.len() <= c.len() && c.take(p.len() as int) == p
}

/// `descendant` lies strictly below `ancestor`.
pub open spec fn is_within_spec(ancestor: Seq<char>, descendant: Seq<char>) -> bool {
    let a = normalized_segments(ancestor);
    let d = normalized_segments(descendant);
    a.len() < d.len() && d.take(a.len() as int) == a
}

/// The parent of the normalised path, or none for the root.
pub open spec fn parent_spec(s: Seq<char>) -> Option<Seq<char>> {
    let segs = normalized_segments(s);
    if segs.len() == 0 {
        None
    } else {
        Some(render(segs.drop_last()))
    }
}

/// `Path::join`: an absolute right-hand side replaces the base.
pub open spec fn join_spec(base: Seq<char>, tail: Seq<char>) -> Seq<char> {
    if tail.len() > 0 && tail[0] == '/' {
        tail
    } else if base.len() > 0 && base.last() == '/' {
        base + tail
    } else {
        base + seq!['/'] + tail
    }
}

pub proof fn lemma_split_nonempty(s: Seq<char>)
    ensures
        split_segments(s).len() >= 1,
    decreases s.len(),
{
    if s.len() > 0 {
        lemma_split_nonempty(s.drop_last());
    }
}

fn is_dot_exec(seg: &Vec<char>) -> (r: bool)
    ensures
        r == is_dot(seg@),
{
    let r = seg.len() == 1 && seg[0] == '.';
    if r {
        assert(seg@ =~= seq!['.']);
    } else if seg.len() == 1 {
        assert(seg@ != seq!['.']) by {
            if seg@ == seq!['.'] {
                assert(seg@[0] == '.');
            }
        }
    }
    r
}

fn is_dot_dot_exec(seg: &Vec<char>) -> (r: bool)
    ensures
        r == is_dot_dot(seg@),
{
    let r = seg.len() == 2 && seg[0] == '.' && seg[1] == '.';
    if seg.len() == 2 && !r {
        assert(seg@ != seq!['.', '.']) by {
            if seg@ == seq!['.', '.'] {
                assert(seg@[0] == '.' && seg@[1] == '.');
            }
        }
    }
    if r {
        assert(seg@ =~= seq!['.', '.']);
    }
    r
}

fn apply_segment_exec(stack: &mut Vec<Vec<char>>, seg: Vec<char>)
    ensures
        final(stack).deep_view() == apply_segment(old(stack).deep_view(), seg@),
{
    let ghost before = stack.deep_view();
    if seg.len() == 0 || is_dot_exec(&seg) {
    } else if is_dot_dot_exec(&seg) {
        if stack.len() > 0 {
            stack.pop();
            assert(stack.deep_view() =~= before.drop_last());
        }
    } else {
        let ghost sv = seg@;
        assert(seg.deep_view() =~= sv);
        stack.push(seg);
        assert(stack.deep_view() =~= before.push(sv));
    }
}

/// The normalised segments of a path, as owned character vectors.
pub fn normalize_segments(path: &str) -> (segs: Vec<Vec<char>>)
    ensures
        segs.deep_view() == normalized_segments(path@),
{
    let cs = chars_of(path);
    let mut stack: Vec<Vec<char>> = Vec::new();
    let mut current: Vec<char> = Vec::new();
    let mut i: usize = 0;
    proof {
        assert(cs@.take(0) =~= Seq::<char>::empty());
        assert(stack.deep_view() =~= Seq::<Seq<char>>::empty());
    }
    while i < cs.len()
        invariant
            i <= cs.len(),
            split_segments(cs@.take(i as int)).len() >= 1,
            split_segments(cs@.take(i as int)).last() == current@,
            fold_segments(split_segments(cs@.take(i as int)).drop_last()) == stack.deep_view(),
        decreases cs.len() - i,
    {
        let c = cs[i];
        let ghost prior = split_segments(cs@.take(i as int));
        assert(cs@.take(i + 1).drop_last() =~= cs@.take(i as int));
        assert(cs@.take(i + 1).last() == c);
        if c == '/' {
            let seg = current;
            current = Vec::new();
            proof {
                let next = split_segments(cs@.take(i + 1));
                assert(next == prior.push(Seq::<char>::empty()));
                assert(next.drop_last() =~= prior);
                assert(prior =~= prior.drop_last().push(prior.last()));
            }
            apply_segment_exec(&mut stack, seg);
        } else {
            current.push(c);
            proof {
                let next = split_segments(cs@.take(i + 1));
                assert(next.drop_last() =~= prior.drop_last());
            }
        }
        i = i + 1;
    }
    proof {
        assert(cs@.take(cs.len() as int) =~= cs@);
        let all = split_segments(cs@);
        assert(all =~= all.drop_last().push(all.last()));
    }
    apply_segment_exec(&mut stack, current);
    stack
}

/// Renders segments as an absolute path.
pub fn render_segments(segs: &Vec<Vec<char>>) -> (out: String)
    ensures
        out@ == render(segs.deep_view()),
{
    let mut out: Vec<char> = Vec::new();
    out.push('/');
    let mut k: usize = 0;
    proof {
        assert(segs.deep_view().take(0) =~= Seq::<Seq<char>>::empty());
    }
    while k < segs.len()
        invariant
            k <= segs.len(),
            out@ == seq!['/'] + join_segments(segs.deep_view().take(k as int)),
        decreases segs.len() - k,
    {
        let ghost before = out@;
        let ghost dv = segs.deep_view();
        assert(dv.take(k + 1).drop_last() =~= dv.take(k as int));
        assert(dv.take(k + 1).last() == segs[k as int]@);
        if k > 0 {
            out.push('/');
        }
        let seg = &segs[k];
        let mut j: usize = 0;
        let ghost mid = out@;
        while j < seg.len()
            invariant
                j <= seg.len(),
                out@ == mid + seg@.take(j as int),
            decreases seg.len() - j,
        {
            out.push(seg[j]);
            assert(seg@.take(j + 1) =~= seg@.take(j as int).push(seg@[j as int]));
            j = j + 1;
        }
        proof {
            assert(seg@.take(seg.len() as int) =~= seg@);
            if k == 0 {
                assert(dv.take(1) =~= seq![dv[0]]);
                assert(out@ =~= seq!['/'] + join_segments(dv.take(1)));
            } else {
                assert(out@ =~= seq!['/'] + join_segments(dv.take(k + 1)));
            }
        }
        k = k + 1;
    }
    proof {
        assert(segs.deep_view().take(segs.len() as int) =~= segs.deep_view());
    }
    string_of(&out)
}

/// The normalised, absolute form of a path.
pub fn normalize(path: &str) -> (out: String)
    ensures
        out@ == normalize_spec(path@),
{
    let segs = normalize_segments(path);
    render_segments(&segs)
}

/// The directory containing `path`, or `None` for the root.
pub fn parent_of(path: &str) -> (out: Option<String>)
    ensures
        match (out, parent_spec(path@)) {
            (Some(p), Some(q)) => p@ == q,
            (None, None) => true,
            _ => false,
        },
{
    let mut segs = normalize_segments(path);
    if segs.len() == 0 {
        return None;
    }
    let ghost before = segs.deep_view();
    segs.pop();
    assert(segs.deep_view() =~= before.drop_last());
    Some(render_segments(&segs))
}

pub(crate) fn same_chars(a: &Vec<char>, b: &Vec<char>) -> (r: bool)
    ensures
        r == (a@ == b@),
{
    if a.len() != b.len() {
        return false;
    }
    let mut i: usize = 0;
    while i < a.len()
        invariant
            i <= a.len(),
            a.len() == b.len(),
            forall|j: int| 0 <= j < i ==> a@[j] == b@[j],
        decreases a.len() - i,
    {
        if a[i] != b[i] {
            return false;
        }
        i = i + 1;
    }
    assert(a@ =~= b@);
    true
}

/// Whether `prefix` is a component-wise prefix of `whole`.
pub(crate) fn segments_prefix(prefix: &Vec<Vec<char>>, whole: &Vec<Vec<char>>) -> (r: bool)
    ensures
        r == (prefix.deep_view().len() <= whole.deep_view().len() && whole.deep_view().take(
            prefix.deep_view().len() as int,
        ) == prefix.deep_view()),
{
    let ghost p = prefix.deep_view();
    let ghost w = whole.deep_view();
    if prefix.len() > whole.len() {
        return false;
    }
    let mut i: usize = 0;
    while i < prefix.len()
        invariant
            i <= prefix.len(),
            prefix.len() <= whole.len(),
            p == prefix.deep_view(),
            w == whole.deep_view(),
            forall|j: int| 0 <= j < i ==> p[j] == w[j],
        decreases prefix.len() - i,
    {
        assert(prefix[i as int].deep_view() =~= prefix[i as int]@);
        assert(whole[i as int].deep_view() =~= whole[i as int]@);
        if !same_chars(&prefix[i], &whole[i]) {
            assert(w.take(p.len() as int)[i as int] != p[i as int]);
            return false;
        }
        i = i + 1;
    }
    assert(w.take(p.len() as int) =~= p);
    true
}

/// Whether `candidate` starts with `prefix`, comparing normalised components.
pub fn path_starts_with_exec(candidate: &str, prefix: &str) -> (r: bool)
    ensures
        r == path_starts_with(candidate@, prefix@),
{
    let c = normalize_segments(candidate);
    let p = normalize_segments(prefix);
    segments_prefix(&p, &c)
}

/// Whether `descendant` lies strictly below `ancestor`.
pub fn is_within(ancestor: &str, descendant: &str) -> (r: bool)
    ensures
        r == is_within_spec(ancestor@, descendant@),
{
    let a = normalize_segments(ancestor);
    let d = normalize_segments(descendant);
    a.len() < d.len() && segments_prefix(&a, &d)
}

} // verus!

verus! {

/// The directory that relative paths are resolved against (the browser has no process
/// working directory, so the library keeps one). Always normalised.
pub struct WorkingDirectory {
    current: String,
}

impl View for WorkingDirectory {
    type V = Seq<char>;

    closed spec fn view(&self) -> Seq<char> {
        self.current@
    }
}

impl WorkingDirectory {
    /// A working directory at the root.
    pub fn new() -> (cwd: Self)
        ensures
            cwd@ == seq!['/'],
    {
        let mut current = String::new();
        crate::text::push_char(&mut current, '/');
        WorkingDirectory { current }
    }
}

/// `base` joined with `tail` as `Path::join` does.
pub fn join(base: &str, tail: &str) -> (out: String)
    ensures
        out@ == join_spec(base@, tail@),
{
    let b = chars_of(base);
    let t = chars_of(tail);
    if t.len() > 0 && t[0] == '/' {
        return string_of(&t);
    }
    let mut out = b.clone();
    assert(out@ == b@);
    if !(b.len() > 0 && b[b.len() - 1] == '/') {
        out.push('/');
    }
    let ghost mid = out@;
    let mut i: usize = 0;
    while i < t.len()
        invariant
            i <= t.len(),
            out@ == mid + t@.take(i as int),
        decreases t.len() - i,
    {
        out.push(t[i]);
        assert(t@.take(i + 1) =~= t@.take(i as int).push(t@[i as int]));
        i = i + 1;
    }
    assert(t@.take(t.len() as int) =~= t@);
    assert(out@ =~= join_spec(base@, tail@));
    string_of(&out)
}

/// The current working directory.
pub fn working_directory(cwd: &WorkingDirectory) -> (out: String)
    ensures
        out@ == cwd@,
{
    cwd.current.clone()
}

/// `path` resolved against the working directory and normalised.
pub fn resolve(cwd: &WorkingDirectory, path: &str) -> (out: String)
    ensures
        out@ == normalize_spec(join_spec(cwd@, path@)),
{
    let joined = join(cwd.current.as_str(), path);
    normalize(joined.as_str())
}

/// Changes the working directory; a relative `path` is taken relative to the current one.
pub fn set_working_directory(cwd: &mut WorkingDirectory, path: &str)
    ensures
        final(cwd)@ == normalize_spec(join_spec(old(cwd)@, path@)),
{
    let resolved = resolve(cwd, path);
    cwd.current = resolved;
}

/// The working directory, as `std::env::current_dir` reports it.
pub fn current_dir(cwd: &WorkingDirectory) -> (out: Result<String, crate::error::VfsError>)
    ensures
        out matches Ok(p) && p@ == cwd@,
{
    Ok(working_directory(cwd))
}

/// Changes the working directory; never fails.
pub fn set_current_dir(cwd: &mut WorkingDirectory, path: &str) -> (out: Result<
    (),
    crate::error::VfsError,
>)
    ensures
        out is Ok,
        final(cwd)@ == normalize_spec(join_spec(old(cwd)@, path@)),
{
    set_working_directory(cwd, path);
    Ok(())
}

/// The absolute, normalised form of `path` against the working directory.
pub fn absolute(cwd: &WorkingDirectory, path: &str) -> (out: Result<String, crate::error::VfsError>)
    ensures
        out matches Ok(p) && p@ == normalize_spec(join_spec(cwd@, path@)),
{
    Ok(resolve(cwd, path))
}

/// Where temporary files live: the normalised temp root.
pub fn temp_dir() -> (out: String)
    ensures
        out@ == normalize_spec(crate::temp::TEMP_ROOT@),
{
    normalize(crate::temp::TEMP_ROOT)
}

} // verus!

verus! {

/// A segment as normalisation leaves it: non-empty, free of `/`, and neither `.` nor `..`.
pub open spec fn segment_ok(seg: Seq<char>) -> bool {
    &&& seg.len() > 0
    &&& !is_dot(seg)
    &&& !is_dot_dot(seg)
    &&& forall|i: int| 0 <= i < seg.len() ==> seg[i] != '/'
}

pub open spec fn segments_ok(segs: Seq<Seq<char>>) -> bool {
    forall|i: int| 0 <= i < segs.len() ==> segment_ok(#[trigger] segs[i])
}

/// A path that normalisation leaves as it is.
pub open spec fn is_normal(p: Seq<char>) -> bool {
    normalize_spec(p) == p
}

/// `fold_segments` started from a given stack.
pub open spec fn fold_from(stack: Seq<Seq<char>>, parts: Seq<Seq<char>>) -> Seq<Seq<char>>
    decreases parts.len(),
{
    if parts.len() == 0 {
        stack
    } else {
        apply_segment(fold_from(stack, parts.drop_last()), parts.last())
    }
}

proof fn lemma_fold_is_fold_from(parts: Seq<Seq<char>>)
    ensures
        fold_segments(parts) == fold_from(Seq::empty(), parts),
    decreases parts.len(),
{
    if parts.len() > 0 {
        lemma_fold_is_fold_from(parts.drop_last());
    }
}

proof fn lemma_fold_from_concat(st: Seq<Seq<char>>, p: Seq<Seq<char>>, q: Seq<Seq<char>>)
    ensures
        fold_from(st, p + q) == fold_from(fold_from(st, p), q),
    decreases q.len(),
{
    if q.len() == 0 {
        assert(p + q =~= p);
    } else {
        assert((p + q).drop_last() =~= p + q.drop_last());
        lemma_fold_from_concat(st, p, q.drop_last());
    }
}

proof fn lemma_fold_from_ok(st: Seq<Seq<char>>, segs: Seq<Seq<char>>)
    requires
        segments_ok(segs),
    ensures
        fold_from(st, segs) == st + segs,
    decreases segs.len(),
{
    if segs.len() == 0 {
        assert(st + segs =~= st);
    } else {
        lemma_fold_from_ok(st, segs.drop_last());
        assert(segment_ok(segs[segs.len() - 1]));
        assert((st + segs.drop_last()).push(segs.last()) =~= st + segs);
    }
}

/// Splitting a concatenation glues the last piece of the left to the first of the right.
proof fn lemma_split_concat(x: Seq<char>, y: Seq<char>)
    ensures
        split_segments(x + y) == split_segments(x).drop_last().push(
            split_segments(x).last() + split_segments(y)[0],
        ) + split_segments(y).skip(1),
    decreases y.len(),
{
    lemma_split_nonempty(x);
    lemma_split_nonempty(y);
    let sx = split_segments(x);
    if y.len() == 0 {
        assert(x + y =~= x);
        assert(split_segments(y) =~= seq![Seq::<char>::empty()]);
        assert(sx.last() + Seq::<char>::empty() =~= sx.last());
        assert(sx.drop_last().push(sx.last()) + split_segments(y).skip(1) =~= sx);
    } else {
        let y0 = y.drop_last();
        let c = y.last();
        lemma_split_concat(x, y0);
        lemma_split_nonempty(y0);
        assert((x + y).drop_last() =~= x + y0);
        assert((x + y).last() == c);
        let sy0 = split_segments(y0);
        let sy = split_segments(y);
        let whole0 = split_segments(x + y0);
        if c == '/' {
            assert(sy == sy0.push(Seq::<char>::empty()));
            if sy0.len() == 1 {
                assert(sy.skip(1) =~= seq![Seq::<char>::empty()]);
                assert(sy0.skip(1) =~= Seq::<Seq<char>>::empty());
            }
            assert(sy.skip(1) =~= sy0.skip(1).push(Seq::<char>::empty()));
            assert(sy[0] == sy0[0]);
            assert(whole0.push(Seq::<char>::empty()) =~= sx.drop_last().push(sx.last() + sy[0])
                + sy.skip(1));
        } else {
            assert(sy == sy0.update(sy0.len() - 1, sy0.last().push(c)));
            if sy0.len() == 1 {
                assert(sy[0] == sy0[0].push(c));
                assert(sy.skip(1) =~= Seq::<Seq<char>>::empty());
                assert(sy0.skip(1) =~= Seq::<Seq<char>>::empty());
                assert((sx.last() + sy0[0]).push(c) =~= sx.last() + sy[0]);
                assert(whole0 =~= sx.drop_last().push(sx.last() + sy0[0]));
                assert(whole0.update(whole0.len() - 1, whole0.last().push(c)) =~= sx.drop_last().push(
                    sx.last() + sy[0],
                ) + sy.skip(1));
            } else {
                assert(sy[0] == sy0[0]);
                assert(sy.skip(1) =~= sy0.skip(1).update(sy0.len() - 2, sy0.last().push(c)));
                assert(whole0.update(whole0.len() - 1, whole0.last().push(c)) =~= sx.drop_last().push(
                    sx.last() + sy[0],
                ) + sy.skip(1));
            }
        }
    }
}

proof fn lemma_split_no_slash(s: Seq<char>)
    requires
        forall|i: int| 0 <= i < s.len() ==> s[i] != '/',
    ensures
        split_segments(s) == seq![s],
    decreases s.len(),
{
    if s.len() > 0 {
        lemma_split_no_slash(s.drop_last());
        assert(s[s.len() - 1] != '/');
        assert(s.drop_last().push(s.last()) =~= s);
        assert(seq![s.drop_last()].update(0, s.drop_last().push(s.last())) =~= seq![s]);
    } else {
        assert(s =~= Seq::<char>::empty());
    }
}

proof fn lemma_split_join(segs: Seq<Seq<char>>)
    requires
        segs.len() >= 1,
        segments_ok(segs),
    ensures
        split_segments(join_segments(segs)) == segs,
    decreases segs.len(),
{
    if segs.len() == 1 {
        assert(segment_ok(segs[0]));
        lemma_split_no_slash(segs[0]);
        assert(seq![segs[0]] =~= segs);
    } else {
        let front = segs.drop_last();
        assert(segments_ok(front)) by {
            assert forall|i: int| 0 <= i < front.len() implies segment_ok(#[trigger] front[i]) by {
                assert(front[i] == segs[i]);
            }
        }
        lemma_split_join(front);
        assert(segment_ok(segs[segs.len() - 1]));
        lemma_split_no_slash(segs.last());
        let left = join_segments(front) + seq!['/'];
        lemma_split_concat(join_segments(front), seq!['/']);
        lemma_split_no_slash(Seq::<char>::empty());
        assert(split_segments(seq!['/']) =~= seq![Seq::<char>::empty(), Seq::<char>::empty()]) by {
            assert(seq!['/'].drop_last() =~= Seq::<char>::empty());
        }
        assert(front.last() + Seq::<char>::empty() =~= front.last());
        assert(split_segments(left) =~= front.push(Seq::<char>::empty()));
        lemma_split_concat(left, segs.last());
        assert(Seq::<char>::empty() + segs.last() =~= segs.last());
        assert(seq![segs.last()].skip(1) =~= Seq::<Seq<char>>::empty());
        assert(front.push(segs.last()) =~= segs);
    }
}

/// Normalising the rendering of well-formed segments gives those segments back.
pub proof fn lemma_normalized_render(segs: Seq<Seq<char>>)
    requires
        segments_ok(segs),
    ensures
        normalized_segments(render(segs)) == segs,
{
    let empty = Seq::<char>::empty();
    lemma_split_no_slash(empty);
    assert(split_segments(seq!['/']) =~= seq![empty, empty]) by {
        assert(seq!['/'].drop_last() =~= empty);
    }
    lemma_fold_is_fold_from(split_segments(render(segs)));
    let none = Seq::<Seq<char>>::empty();
    assert(seq![empty].drop_last() =~= none);
    assert(fold_from(none, none) == none);
    assert(fold_from(none, seq![empty]) == apply_segment(fold_from(none, none), empty));
    assert(fold_from(none, seq![empty]) == none);
    if segs.len() == 0 {
        assert(render(segs) =~= seq!['/']);
        assert(seq![empty, empty].drop_last() =~= seq![empty]);
        assert(seq![empty].drop_last() =~= Seq::<Seq<char>>::empty());
        assert(fold_from(none, seq![empty, empty]) == apply_segment(
            fold_from(none, seq![empty]),
            empty,
        ));
        assert(fold_from(Seq::empty(), seq![empty, empty]) =~= segs);
    } else {
        lemma_split_concat(seq!['/'], join_segments(segs));
        lemma_split_join(segs);
        assert(empty + segs[0] =~= segs[0]);
        assert(split_segments(render(segs)) =~= seq![empty] + segs);
        lemma_fold_from_concat(Seq::empty(), seq![empty], segs);
        assert(seq![empty].drop_last() =~= Seq::<Seq<char>>::empty());
        assert(fold_from(Seq::empty(), seq![empty]) =~= Seq::<Seq<char>>::empty());
        lemma_fold_from_ok(Seq::empty(), segs);
        assert(Seq::<Seq<char>>::empty() + segs =~= segs);
    }
}

proof fn lemma_apply_ok(stack: Seq<Seq<char>>, seg: Seq<char>)
    requires
        segments_ok(stack),
        forall|i: int| 0 <= i < seg.len() ==> seg[i] != '/',
    ensures
        segments_ok(apply_segment(stack, seg)),
{
    let r = apply_segment(stack, seg);
    if seg.len() == 0 || is_dot(seg) {
    } else if is_dot_dot(seg) {
        assert forall|i: int| 0 <= i < r.len() implies segment_ok(#[trigger] r[i]) by {
            assert(r[i] == stack[i]);
        }
    } else {
        assert forall|i: int| 0 <= i < r.len() implies segment_ok(#[trigger] r[i]) by {
            if i < stack.len() {
                assert(r[i] == stack[i]);
            }
        }
    }
}

proof fn lemma_split_pieces(s: Seq<char>)
    ensures
        forall|k: int, i: int|
            0 <= k < split_segments(s).len() && 0 <= i < split_segments(s)[k].len()
                ==> #[trigger] split_segments(s)[k][i] != '/',
    decreases s.len(),
{
    lemma_split_nonempty(s);
    if s.len() > 0 {
        lemma_split_pieces(s.drop_last());
        lemma_split_nonempty(s.drop_last());
        let prior = split_segments(s.drop_last());
        let cur = split_segments(s);
        assert forall|k: int, i: int|
            0 <= k < cur.len() && 0 <= i < cur[k].len() implies #[trigger] cur[k][i] != '/' by {
            if s.last() == '/' {
                if k < prior.len() {
                    assert(cur[k] == prior[k]);
                }
            } else {
                if k < prior.len() - 1 {
                    assert(cur[k] == prior[k]);
                } else {
                    assert(cur[k] == prior.last().push(s.last()));
                    if i < prior.last().len() {
                        assert(cur[k][i] == prior[prior.len() - 1][i]);
                    }
                }
            }
        }
    }
}

proof fn lemma_fold_ok(parts: Seq<Seq<char>>)
    requires
        forall|k: int, i: int|
            0 <= k < parts.len() && 0 <= i < parts[k].len() ==> #[trigger] parts[k][i] != '/',
    ensures
        segments_ok(fold_segments(parts)),
    decreases parts.len(),
{
    if parts.len() > 0 {
        let front = parts.drop_last();
        assert forall|k: int, i: int|
            0 <= k < front.len() && 0 <= i < front[k].len() implies #[trigger] front[k][i] != '/' by {
            assert(front[k] == parts[k]);
        }
        lemma_fold_ok(front);
        let last = parts.last();
        assert forall|i: int| 0 <= i < last.len() implies last[i] != '/' by {
            assert(parts[parts.len() - 1][i] == last[i]);
        }
        lemma_apply_ok(fold_segments(front), last);
    }
}

/// Normalisation yields well-formed segments.
pub proof fn lemma_normalized_ok(s: Seq<char>)
    ensures
        segments_ok(normalized_segments(s)),
{
    lemma_split_pieces(s);
    lemma_fold_ok(split_segments(s));
}

/// Normalisation is idempotent: a normalised path is normal.
pub proof fn lemma_normalize_idempotent(s: Seq<char>)
    ensures
        is_normal(normalize_spec(s)),
        normalized_segments(normalize_spec(s)) == normalized_segments(s),
{
    lemma_normalized_ok(s);
    lemma_normalized_render(normalized_segments(s));
}

/// The rendering of well-formed segments is normal.
pub proof fn lemma_render_normal(segs: Seq<Seq<char>>)
    requires
        segments_ok(segs),
    ensures
        is_normal(render(segs)),
{
    lemma_normalized_render(segs);
}

} // verus!

verus! {

proof fn lemma_slash_name(x: Seq<char>, name: Seq<char>)
    requires
        segment_ok(name),
    ensures
        normalized_segments(x + seq!['/'] + name) == normalized_segments(x).push(name),
{
    let xs = x + seq!['/'];
    assert(xs.drop_last() =~= x);
    assert(xs.last() == '/');
    lemma_split_nonempty(x);
    assert(split_segments(xs) == split_segments(x).push(Seq::<char>::empty()));
    lemma_split_no_slash(name);
    lemma_split_concat(xs, name);
    assert(Seq::<char>::empty() + name =~= name);
    assert(seq![name].skip(1) =~= Seq::<Seq<char>>::empty());
    assert(split_segments(xs + name) =~= split_segments(x).push(name));
    assert(split_segments(x).push(name).drop_last() =~= split_segments(x));
    assert(split_segments(x).push(name).last() == name);
}

/// Joining a well-formed name onto any path adds exactly that segment.
pub proof fn lemma_child_segments(x: Seq<char>, name: Seq<char>)
    requires
        segment_ok(name),
    ensures
        normalized_segments(join_spec(x, name)) == normalized_segments(x).push(name),
{
    assert(name[0] != '/');
    if x.len() > 0 && x.last() == '/' {
        let d = x.drop_last();
        assert(x =~= d + seq!['/']);
        assert(join_spec(x, name) =~= d + seq!['/'] + name);
        lemma_slash_name(d, name);
        lemma_split_nonempty(d);
        assert(split_segments(x) == split_segments(d).push(Seq::<char>::empty()));
        assert(split_segments(d).push(Seq::<char>::empty()).drop_last() =~= split_segments(d));
    } else {
        assert(join_spec(x, name) =~= x + seq!['/'] + name);
        lemma_slash_name(x, name);
    }
}

/// Whether the path starts at the root (`Path::has_root` on a POSIX path).
pub fn vfs_is_absolute(path: &str) -> (r: bool)
    ensures
        r == (path@.len() > 0 && path@[0] == '/'),
{
    let cs = chars_of(path);
    cs.len() > 0 && cs[0] == '/'
}

/// Whether the path does not start at the root.
pub fn vfs_is_relative(path: &str) -> (r: bool)
    ensures
        r == !(path@.len() > 0 && path@[0] == '/'),
{
    !vfs_is_absolute(path)
}

/// The separator of a list of paths, as in `PATH`.
pub const PATH_SEPARATOR: char = ':';

/// Splits text on `sep`, keeping empty pieces, exactly as `str::split` does.
pub open spec fn split_on(s: Seq<char>, sep: char) -> Seq<Seq<char>>
    decreases s.len(),
{
    if s.len() == 0 {
        seq![Seq::<char>::empty()]
    } else {
        let prior = split_on(s.drop_last(), sep);
        if s.last() == sep {
            prior.push(Seq::<char>::empty())
        } else {
            prior.update(prior.len() - 1, prior.last().push(s.last()))
        }
    }
}

/// The entries of a `:`-separated list of paths, empty ones included.
pub fn split_posix_path_list(unparsed: &str) -> (r: Vec<String>)
    ensures
        r@.map_values(|p: String| p@) == split_on(unparsed@, PATH_SEPARATOR),
{
    let cs = chars_of(unparsed);
    let mut done: Vec<String> = Vec::new();
    let mut current: Vec<char> = Vec::new();
    let mut i: usize = 0;
    assert(cs@.take(0) =~= Seq::<char>::empty());
    while i < cs.len()
        invariant
            i <= cs.len(),
            cs@ == unparsed@,
            split_on(cs@.take(i as int), PATH_SEPARATOR) == done@.map_values(|p: String| p@).push(current@),
        decreases cs.len() - i,
    {
        let c = cs[i];
        let ghost prior = split_on(cs@.take(i as int), PATH_SEPARATOR);
        assert(cs@.take(i + 1).drop_last() =~= cs@.take(i as int));
        assert(cs@.take(i + 1).last() == c);
        if c == PATH_SEPARATOR {
            let piece = string_of(&current);
            let ghost before = done@;
            done.push(piece);
            current = Vec::new();
            assert(done@.map_values(|p: String| p@) =~= before.map_values(|p: String| p@).push(piece@));
            assert(split_on(cs@.take(i + 1), PATH_SEPARATOR) =~= done@.map_values(|p: String| p@).push(current@));
        } else {
            current.push(c);
            assert(split_on(cs@.take(i + 1), PATH_SEPARATOR) =~= done@.map_values(|p: String| p@).push(current@));
        }
        i = i + 1;
    }
    assert(cs@.take(cs.len() as int) =~= cs@);
    let last = string_of(&current);
    let ghost before = done@;
    done.push(last);
    assert(done@.map_values(|p: String| p@) =~= before.map_values(|p: String| p@).push(last@));
    done
}

/// The entries of a list of paths (on this host, `:`-separated).
pub fn split_paths(unparsed: &str) -> (r: Vec<String>)
    ensures
        r@.map_values(|p: String| p@) == split_on(unparsed@, PATH_SEPARATOR),
{
    split_posix_path_list(unparsed)
}

} // verus!
