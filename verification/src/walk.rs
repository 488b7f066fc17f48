//! Recursive directory walks over the virtual filesystem: each entry once, a directory
//! before its contents (or after them), children in name order, links not followed.
use vstd::prelude::*;

use crate::error::{Fault, VfsError};
use crate::fs::FileType;
use crate::memory::{child_name, kind_of, listed_dir, resolve_spec, Contents, MemoryFs, VfsKind};
use crate::path::{
    is_normal, is_within_spec, join_spec, lemma_child_segments, lemma_normalize_idempotent,
    lemma_normalized_ok, normalize_spec, normalized_segments, render,
};
use crate::text::{chars_lt, lemma_chars_lt_irreflexive, lemma_chars_lt_transitive};

verus! {

/// Every key of `m` is a normalised path.
pub open spec fn keys_normal(m: Contents) -> bool {
    forall|k: Seq<char>| #[trigger] m.contains_key(k) ==> is_normal(k)
}

/// Names in strictly ascending order.
pub open spec fn ascending(s: Seq<Seq<char>>) -> bool {
    forall|i: int, j: int| 0 <= i < j < s.len() ==> chars_lt(#[trigger] s[i], #[trigger] s[j])
}

/// The names of the children of `dir` in `m`.
pub open spec fn child_names(m: Contents, dir: Seq<char>) -> Set<Seq<char>> {
    Set::new(|n: Seq<char>| has_child(m, dir, n))
}

/// `names` are the names of the children of `dir` in `m`, each once, in ascending order.
pub open spec fn child_listing(names: Seq<Seq<char>>, m: Contents, dir: Seq<char>) -> bool {
    &&& ascending(names)
    &&& forall|n: Seq<char>| #[trigger] names.contains(n) <==> child_names(m, dir).contains(n)
}

/// The names of the children of `dir`, in ascending order.
pub open spec fn listing(m: Contents, dir: Seq<char>) -> Seq<Seq<char>> {
    choose|names: Seq<Seq<char>>| child_listing(names, m, dir)
}

/// The keys strictly below `p`.
pub open spec fn below(m: Contents, p: Seq<char>) -> Set<Seq<char>> {
    m.dom().filter(|k: Seq<char>| is_within_spec(p, k))
}

/// Whether `dir` has a child called `name`.
pub open spec fn has_child(m: Contents, dir: Seq<char>, name: Seq<char>) -> bool {
    exists|k: Seq<char>| #[trigger] m.contains_key(k) && child_name(dir, k) == Some(name)
}

/// The path of the child `name` of `parent`.
pub open spec fn child_path(parent: Seq<char>, name: Seq<char>) -> Seq<char> {
    normalize_spec(join_spec(parent, name))
}

/// The last component of a path, or the path itself when it has none (the root).
pub open spec fn base_name(p: Seq<char>) -> Seq<char> {
    let segs = normalized_segments(p);
    if segs.len() == 0 {
        p
    } else {
        segs.last()
    }
}

/// What a walk reports of one entry: its path, name, kind (links not followed) and depth.
pub struct WalkEntryView {
    pub path: Seq<char>,
    pub name: Seq<char>,
    pub kind: VfsKind,
    pub depth: int,
}

/// One step of a walk: an entry, or a failure at a path.
pub enum Visit {
    Found(WalkEntryView),
    Failed(Seq<char>, Fault),
}

/// The path a step concerns.
pub open spec fn visit_path(v: Visit) -> Seq<char> {
    match v {
        Visit::Found(e) => e.path,
        Visit::Failed(p, _) => p,
    }
}

/// The step for `p` at `depth`: its entry, from what `p` names without following a link, or
/// the failure to look it up.
pub open spec fn visit_at(m: Contents, p: Seq<char>, depth: int) -> Visit {
    match resolve_spec(m, p, false) {
        Ok((_, e)) => Visit::Found(
            WalkEntryView { path: p, name: base_name(p), kind: kind_of(e), depth },
        ),
        Err(f) => Visit::Failed(p, f),
    }
}

/// The settings of a walk that shape what it yields.
pub struct WalkShape {
    pub min_depth: int,
    pub contents_first: bool,
}

/// What the walk from step `v` yields: a failure as it is; a non-directory if deep enough; a
/// directory (if deep enough) before or after what its children yield, or, when it cannot be
/// listed, (before) the failure to list it.
pub open spec fn walk_visit(m: Contents, v: Visit, o: WalkShape) -> Seq<Visit>
    decreases below(m, visit_path(v)).len() + 1, 0nat,
    when m.dom().finite() && keys_normal(m)
{
    match v {
        Visit::Failed(_, _) => seq![v],
        Visit::Found(e) => if e.kind != VfsKind::Directory {
            if e.depth >= o.min_depth {
                seq![v]
            } else {
                Seq::empty()
            }
        } else {
            let shown = e.depth >= o.min_depth;
            let pre = if !o.contents_first && shown {
                seq![v]
            } else {
                Seq::empty()
            };
            match listed_dir(m, e.path) {
                Err(f) => pre + seq![Visit::Failed(e.path, f)],
                Ok(dir) => {
                    let post = if o.contents_first && shown {
                        seq![v]
                    } else {
                        Seq::empty()
                    };
                    pre + walk_list(m, e.path, listing(m, dir), e.depth + 1, o) + post
                },
            }
        },
    }
}

/// What the walks from the children `names` of `parent`, in order, yield.
pub open spec fn walk_list(
    m: Contents,
    parent: Seq<char>,
    names: Seq<Seq<char>>,
    depth: int,
    o: WalkShape,
) -> Seq<Visit>
    decreases below(m, parent).len(), names.len(),
    when m.dom().finite() && keys_normal(m)
{
    if names.len() == 0 {
        Seq::empty()
    } else {
        let rest = walk_list(m, parent, names.drop_last(), depth, o);
        let name = names.last();
        if is_normal(parent) && has_child(m, parent, name) {
            proof {
                lemma_child_below(m, parent, name);
            }
            rest + walk_visit(m, visit_at(m, child_path(parent, name), depth), o)
        } else {
            rest
        }
    }
}

/// What the walk from step `v` yields when `accept` decides which entries it enters: a
/// failure as it is; an entry `accept` rejects, nothing (its subtree is not walked); else as
/// `walk_visit`.
pub open spec fn walk_visit_f(
    m: Contents,
    v: Visit,
    o: WalkShape,
    accept: spec_fn(WalkEntryView) -> bool,
) -> Seq<Visit>
    decreases below(m, visit_path(v)).len() + 1, 0nat,
    when m.dom().finite() && keys_normal(m)
{
    match v {
        Visit::Failed(_, _) => seq![v],
        Visit::Found(e) => if !accept(e) {
            Seq::empty()
        } else if e.kind != VfsKind::Directory {
            if e.depth >= o.min_depth {
                seq![v]
            } else {
                Seq::empty()
            }
        } else {
            let shown = e.depth >= o.min_depth;
            let pre = if !o.contents_first && shown {
                seq![v]
            } else {
                Seq::empty()
            };
            match listed_dir(m, e.path) {
                Err(f) => pre + seq![Visit::Failed(e.path, f)],
                Ok(dir) => {
                    let post = if o.contents_first && shown {
                        seq![v]
                    } else {
                        Seq::empty()
                    };
                    pre + walk_list_f(m, e.path, listing(m, dir), e.depth + 1, o, accept) + post
                },
            }
        },
    }
}

/// What the filtered walks from the children `names` of `parent`, in order, yield.
pub open spec fn walk_list_f(
    m: Contents,
    parent: Seq<char>,
    names: Seq<Seq<char>>,
    depth: int,
    o: WalkShape,
    accept: spec_fn(WalkEntryView) -> bool,
) -> Seq<Visit>
    decreases below(m, parent).len(), names.len(),
    when m.dom().finite() && keys_normal(m)
{
    if names.len() == 0 {
        Seq::empty()
    } else {
        let rest = walk_list_f(m, parent, names.drop_last(), depth, o, accept);
        let name = names.last();
        if is_normal(parent) && has_child(m, parent, name) {
            proof {
                lemma_child_below(m, parent, name);
            }
            rest + walk_visit_f(m, visit_at(m, child_path(parent, name), depth), o, accept)
        } else {
            rest
        }
    }
}


/// The predicate answers by the entry alone, as `accept` does.
pub open spec fn answers_by_entry<P: Fn(&DirEntry) -> bool>(
    predicate: P,
    accept: spec_fn(WalkEntryView) -> bool,
) -> bool {
    &&& forall|d: &DirEntry| call_requires(predicate, (d,))
    &&& forall|d: &DirEntry, b: bool| call_ensures(predicate, (d,), b) ==> b == accept(d@)
}

/// What a predicate that answers by the entry alone answers for each entry.
pub open spec fn entry_answers<P: Fn(&DirEntry) -> bool>(predicate: P) -> spec_fn(WalkEntryView) -> bool {
    choose|accept: spec_fn(WalkEntryView) -> bool| answers_by_entry(predicate, accept)
}


/// The child `name` of a normalised `parent` is the key below it with that name, and fewer
/// keys lie below it than below the parent.
pub proof fn lemma_child_below(m: Contents, parent: Seq<char>, name: Seq<char>)
    requires
        m.dom().finite(),
        keys_normal(m),
        is_normal(parent),
        has_child(m, parent, name),
    ensures
        m.contains_key(child_path(parent, name)),
        child_name(parent, child_path(parent, name)) == Some(name),
        is_within_spec(parent, child_path(parent, name)),
        below(m, child_path(parent, name)).len() < below(m, parent).len(),
{
    let k = choose|k: Seq<char>| #[trigger] m.contains_key(k) && child_name(parent, k) == Some(name);
    let ds = normalized_segments(parent);
    let ks = normalized_segments(k);
    assert(is_normal(k));
    lemma_normalized_ok(k);
    assert(name == ks.last());
    assert(crate::path::segment_ok(ks[ks.len() - 1]));
    lemma_child_segments(parent, name);
    assert(ks =~= ds.push(name)) by {
        assert(ks.take(ds.len() as int) == ds);
        assert(ks =~= ks.take(ds.len() as int).push(ks.last()));
    }
    let c = child_path(parent, name);
    assert(c == render(ks));
    assert(c == k);
    let bp = below(m, parent);
    let bc = below(m, c);
    m.dom().lemma_len_filter(|x: Seq<char>| is_within_spec(parent, x));
    assert(bp.contains(c));
    assert(bc.subset_of(bp.remove(c))) by {
        assert forall|x: Seq<char>| bc.contains(x) implies bp.remove(c).contains(x) by {
            let xs = normalized_segments(x);
            assert(xs.take(ks.len() as int) == ks);
            assert(xs.take(ds.len() as int) =~= ks.take(ds.len() as int));
            assert(x != c);
        }
    }
    vstd::set_lib::lemma_len_subset(bc, bp.remove(c));
}

/// Two ascending listings of the same names are the same listing.
proof fn lemma_ascending_unique(a: Seq<Seq<char>>, b: Seq<Seq<char>>)
    requires
        ascending(a),
        ascending(b),
        forall|x: Seq<char>| a.contains(x) <==> b.contains(x),
    ensures
        a == b,
    decreases a.len(),
{
    if a.len() == 0 {
        if b.len() > 0 {
            assert(b.contains(b[0]));
        }
        assert(a =~= b);
    } else {
        assert(a.contains(a[0]));
        assert(b.len() > 0);
        assert(b.contains(b[0]));
        assert(a[0] == b[0]) by {
            if a[0] != b[0] {
                let j = choose|j: int| 0 <= j < b.len() && b[j] == a[0];
                let i = choose|i: int| 0 <= i < a.len() && a[i] == b[0];
                assert(j > 0 && i > 0);
                assert(chars_lt(b[0], b[j]));
                assert(chars_lt(a[0], a[i]));
                lemma_chars_lt_transitive(a[0], b[0], a[0]);
                lemma_chars_lt_irreflexive(a[0]);
            }
        }
        let a1 = a.drop_first();
        let b1 = b.drop_first();
        assert forall|x: Seq<char>| a1.contains(x) <==> b1.contains(x) by {
            if a1.contains(x) {
                let i = choose|i: int| 0 <= i < a1.len() && a1[i] == x;
                assert(a[i + 1] == x);
                assert(chars_lt(a[0], x));
                assert(x != a[0]) by {
                    lemma_chars_lt_irreflexive(x);
                }
                assert(b.contains(x));
                let j = choose|j: int| 0 <= j < b.len() && b[j] == x;
                assert(j != 0);
                assert(b1[j - 1] == x);
            }
            if b1.contains(x) {
                let j = choose|j: int| 0 <= j < b1.len() && b1[j] == x;
                assert(b[j + 1] == x);
                assert(chars_lt(b[0], x));
                assert(x != b[0]) by {
                    lemma_chars_lt_irreflexive(x);
                }
                assert(a.contains(x));
                let i = choose|i: int| 0 <= i < a.len() && a[i] == x;
                assert(i != 0);
                assert(a1[i - 1] == x);
            }
        }
        lemma_ascending_unique(a1, b1);
        assert(a =~= seq![a[0]] + a1);
        assert(b =~= seq![b[0]] + b1);
    }
}

/// A listing of the children is the listing.
pub proof fn lemma_listing_unique(names: Seq<Seq<char>>, m: Contents, dir: Seq<char>)
    requires
        child_listing(names, m, dir),
    ensures
        listing(m, dir) == names,
{
    let l = listing(m, dir);
    assert(child_listing(l, m, dir));
    lemma_ascending_unique(l, names);
}

/// A failure during a walk, with the path it concerns.
#[derive(Debug)]
pub struct Error {
    path: Option<String>,
    inner: VfsError,
}

impl View for Error {
    type V = (Option<Seq<char>>, Fault);

    closed spec fn view(&self) -> (Option<Seq<char>>, Fault) {
        (
            match self.path {
                Some(p) => Some(p@),
                None => None,
            },
            self.inner@,
        )
    }
}

/// The sentence a walk failure displays as.
pub open spec fn walk_error_message(e: (Option<Seq<char>>, Fault)) -> Seq<char> {
    match e.0 {
        Some(p) => "IO error for operation on "@ + p + ": "@ + crate::error::fault_message(e.1),
        None => crate::error::fault_message(e.1),
    }
}

impl Error {
    /// The failure `inner` at `path`.
    pub fn new(path: &str, inner: VfsError) -> (e: Error)
        ensures
            e@ == (Some(path@), inner@),
    {
        Error { path: Some(String::from_str(path)), inner }
    }

    /// The path the failure concerns.
    pub fn path(&self) -> (p: Option<&str>)
        ensures
            match (p, self@.0) {
                (Some(x), Some(y)) => x@ == y,
                (None, None) => true,
                _ => false,
            },
    {
        match &self.path {
            Some(p) => Some(p.as_str()),
            None => None,
        }
    }

    /// The underlying failure.
    pub fn io_error(&self) -> (e: Option<&VfsError>)
        ensures
            e matches Some(x) && x@ == self@.1,
    {
        Some(&self.inner)
    }

    /// The underlying failure, by value.
    pub fn into_io_error(self) -> (e: Option<VfsError>)
        ensures
            e matches Some(x) && x@ == self@.1,
    {
        Some(self.inner)
    }

    /// The underlying failure, as the conversion into an I/O error gives it.
    pub fn into_inner(self) -> (e: VfsError)
        ensures
            e@ == self@.1,
    {
        self.inner
    }

    /// The sentence the failure displays as.
    pub fn message(&self) -> (m: String)
        ensures
            m@ == walk_error_message(self@),
    {
        let detail = self.inner.message();
        match &self.path {
            Some(p) => {
                let s = String::from_str("IO error for operation on ").concat(p.as_str());
                let s = s.concat(": ");
                s.concat(detail.as_str())
            },
            None => detail,
        }
    }
}

/// An entry a walk yields.
#[derive(Debug)]
pub struct DirEntry {
    path: String,
    file_name: String,
    file_type: FileType,
    depth: usize,
}

impl View for DirEntry {
    type V = WalkEntryView;

    closed spec fn view(&self) -> WalkEntryView {
        WalkEntryView {
            path: self.path@,
            name: self.file_name@,
            kind: self.file_type@,
            depth: self.depth as int,
        }
    }
}

impl DirEntry {
    pub fn path(&self) -> (p: &str)
        ensures
            p@ == self@.path,
    {
        self.path.as_str()
    }

    pub fn into_path(self) -> (p: String)
        ensures
            p@ == self@.path,
    {
        self.path
    }

    pub fn file_name(&self) -> (n: &str)
        ensures
            n@ == self@.name,
    {
        self.file_name.as_str()
    }

    /// The kind, without following a link.
    pub fn file_type(&self) -> (t: FileType)
        ensures
            t@ == self@.kind,
    {
        self.file_type
    }

    /// How far below the root of the walk the entry lies.
    pub fn depth(&self) -> (d: usize)
        ensures
            d == self@.depth,
    {
        self.depth
    }

    /// Whether the entry is a link (links are reported, not followed).
    pub fn path_is_symlink(&self) -> (r: bool)
        ensures
            r == (self@.kind == VfsKind::Symlink),
    {
        self.file_type.is_symlink()
    }

    /// What the entry's path names now, without following a link.
    pub fn metadata(&self, fs: &MemoryFs) -> (r: Result<crate::fs::Metadata, Error>)
        requires
            fs.wf(),
        ensures
            match (r, resolve_spec(fs@, self@.path, false)) {
                (Ok(m), Ok((k, e))) => m@.kind == kind_of(e) && m@.len == crate::memory::len_of(e),
                (Err(err), Err(f)) => err@ == (Some(self@.path), f),
                _ => false,
            },
    {
        match crate::fs::symlink_metadata(fs, self.path.as_str()) {
            Ok(m) => Ok(m),
            Err(e) => Err(Error::new(self.path.as_str(), e)),
        }
    }

    fn duplicate(&self) -> (d: DirEntry)
        ensures
            d@ == self@,
    {
        DirEntry {
            path: self.path.clone(),
            file_name: self.file_name.clone(),
            file_type: self.file_type,
            depth: self.depth,
        }
    }
}

/// What a walk step yields, as a step of the walk.
pub open spec fn outcome(r: Result<DirEntry, Error>) -> Visit {
    match r {
        Ok(e) => Visit::Found(e@),
        Err(x) => Visit::Failed(
            match x@.0 {
                Some(p) => p,
                None => Seq::empty(),
            },
            x@.1,
        ),
    }
}

/// The steps a sequence of outcomes stands for.
pub open spec fn outcomes(rs: Seq<Result<DirEntry, Error>>) -> Seq<Visit> {
    rs.map_values(|r: Result<DirEntry, Error>| outcome(r))
}

fn base_name_of(path: &str) -> (n: String)
    ensures
        n@ == base_name(path@),
{
    let segs = crate::path::normalize_segments(path);
    if segs.len() == 0 {
        String::from_str(path)
    } else {
        let last = &segs[segs.len() - 1];
        assert(last@ == segs.deep_view().last());
        crate::text::string_of(last)
    }
}

/// The entry for `path` at `depth`, or the failure to look it up.
fn entry_for(fs: &MemoryFs, path: &str, depth: usize) -> (r: Result<DirEntry, Error>)
    requires
        fs.wf(),
    ensures
        outcome(r) == visit_at(fs@, path@, depth as int),
        r is Err ==> r->Err_0@.0 == Some(path@),
{
    match crate::fs::symlink_metadata(fs, path) {
        Ok(m) => Ok(DirEntry {
            path: String::from_str(path),
            file_name: base_name_of(path),
            file_type: m.file_type(),
            depth,
        }),
        Err(e) => Err(Error::new(path, e)),
    }
}

/// How a walk goes: from which root, how deep before entries are yielded, whether a
/// directory comes after its contents, and whether children are sorted by name.
#[derive(Debug)]
pub struct WalkDir {
    root: String,
    min_depth: usize,
    contents_first: bool,
    sort_by_file_name: bool,
}

/// The settings of a walk, by name.
pub struct WalkDirView {
    pub root: Seq<char>,
    pub min_depth: int,
    pub contents_first: bool,
    pub sort_by_file_name: bool,
}

impl View for WalkDir {
    type V = WalkDirView;

    closed spec fn view(&self) -> WalkDirView {
        WalkDirView {
            root: self.root@,
            min_depth: self.min_depth as int,
            contents_first: self.contents_first,
            sort_by_file_name: self.sort_by_file_name,
        }
    }
}

impl WalkDir {
    #[verifier::type_invariant]
    spec fn normal_root(self) -> bool {
        is_normal(self.root@)
    }

    /// A walk from the normalised `root`, yielding everything, each directory first.
    pub fn new(root: &str) -> (w: WalkDir)
        ensures
            w@ == (WalkDirView {
                root: normalize_spec(root@),
                min_depth: 0,
                contents_first: false,
                sort_by_file_name: false,
            }),
    {
        proof {
            lemma_normalize_idempotent(root@);
        }
        WalkDir {
            root: crate::path::normalize(root),
            min_depth: 0,
            contents_first: false,
            sort_by_file_name: false,
        }
    }

    /// Yields only entries at least `depth` below the root.
    pub fn min_depth(self, depth: usize) -> (w: WalkDir)
        ensures
            w@ == (WalkDirView { min_depth: depth as int, ..self@ }),
    {
        proof {
            use_type_invariant(&self);
        }
        WalkDir { min_depth: depth, ..self }
    }

    /// Yields each directory after its contents when `yes` is set.
    pub fn contents_first(self, yes: bool) -> (w: WalkDir)
        ensures
            w@ == (WalkDirView { contents_first: yes, ..self@ }),
    {
        proof {
            use_type_invariant(&self);
        }
        WalkDir { contents_first: yes, ..self }
    }

    /// Visits children in name order (the filesystem already lists them so).
    pub fn sort_by_file_name(self) -> (w: WalkDir)
        ensures
            w@ == (WalkDirView { sort_by_file_name: true, ..self@ }),
    {
        proof {
            use_type_invariant(&self);
        }
        WalkDir { sort_by_file_name: true, ..self }
    }

    /// Walks the filesystem and hands back what the walk yields, in order. The iterator
    /// borrows the filesystem, so nothing can change it while the walk goes on, and reading
    /// each directory as the walk reaches it reads what was there at the start.
    pub fn into_iter<'a>(self, fs: &'a MemoryFs) -> (it: IntoIter<'a>)
        requires
            fs.wf(),
            fs@.dom().len() < usize::MAX,
        ensures
            it.source() == fs@,
            it@ == walk_visit(
                fs@,
                visit_at(fs@, self@.root, 0),
                WalkShape { min_depth: self@.min_depth, contents_first: self@.contents_first },
            ),
    {
        let ghost shape = WalkShape { min_depth: self.min_depth as int, contents_first: self.contents_first };
        let mut out: Vec<Result<DirEntry, Error>> = Vec::new();
        proof {
            use_type_invariant(&self);
            fs.lemma_wf_facts();
            crate::path::lemma_normalize_idempotent(self.root@);
        }
        match entry_for(fs, self.root.as_str(), 0) {
            Ok(entry) => {
                proof {
                    fs@.dom().lemma_len_filter(|k: Seq<char>| is_within_spec(self.root@, k));
                }
                visit(fs, self.min_depth, self.contents_first, entry, &mut out);
                assert(outcomes(out@) =~= walk_visit(fs@, visit_at(fs@, self@.root, 0), shape));
            },
            Err(e) => {
                let ghost v = outcome(Err(e));
                out.push(Err(e));
                assert(outcomes(out@) =~= seq![v]);
            },
        }
        IntoIter { fs, items: out }
    }
}

impl WalkDir {
    /// Walks the filesystem as `into_iter` does, but enters only the entries `predicate`
    /// accepts: a rejected entry is not yielded and, if a directory, not walked into. The
    /// predicate is asked about each entry the walk reaches, before the depth is checked;
    /// failures are yielded whatever it would say. It must answer by the entry alone.
    pub fn filter_entry<'a, P: Fn(&DirEntry) -> bool>(self, fs: &'a MemoryFs, predicate: P) -> (it: IntoIter<'a>)
        requires
            fs.wf(),
            fs@.dom().len() < usize::MAX,
            exists|accept: spec_fn(WalkEntryView) -> bool| answers_by_entry(predicate, accept),
        ensures
            it.source() == fs@,
            it@ == walk_visit_f(
                fs@,
                visit_at(fs@, self@.root, 0),
                WalkShape { min_depth: self@.min_depth, contents_first: self@.contents_first },
                entry_answers(predicate),
            ),
    {
        let ghost shape = WalkShape { min_depth: self.min_depth as int, contents_first: self.contents_first };
        let ghost accept = entry_answers(predicate);
        let mut out: Vec<Result<DirEntry, Error>> = Vec::new();
        proof {
            use_type_invariant(&self);
            fs.lemma_wf_facts();
            crate::path::lemma_normalize_idempotent(self.root@);
        }
        match entry_for(fs, self.root.as_str(), 0) {
            Ok(entry) => {
                proof {
                    fs@.dom().lemma_len_filter(|k: Seq<char>| is_within_spec(self.root@, k));
                }
                visit_f(fs, self.min_depth, self.contents_first, entry, &mut out, &predicate, Ghost(accept));
                assert(outcomes(out@) =~= walk_visit_f(fs@, visit_at(fs@, self@.root, 0), shape, accept));
            },
            Err(e) => {
                let ghost v = outcome(Err(e));
                out.push(Err(e));
                assert(outcomes(out@) =~= seq![v]);
            },
        }
        IntoIter { fs, items: out }
    }
}

/// What a walk yields that has not been taken yet, over the filesystem it borrows.
#[derive(Debug)]
pub struct IntoIter<'a> {
    fs: &'a MemoryFs,
    items: Vec<Result<DirEntry, Error>>,
}

impl<'a> View for IntoIter<'a> {
    type V = Seq<Visit>;

    closed spec fn view(&self) -> Seq<Visit> {
        outcomes(self.items@)
    }
}

impl<'a> IntoIter<'a> {
    /// The filesystem being walked.
    pub closed spec fn source(&self) -> Contents {
        self.fs@
    }

    /// The filesystem being walked.
    pub fn filesystem(&self) -> (fs: &'a MemoryFs)
        ensures
            fs@ == self.source(),
    {
        self.fs
    }

    /// The next thing the walk yields, or `None` once everything has been taken.
    pub fn next(&mut self) -> (r: Option<Result<DirEntry, Error>>)
        ensures
            final(self).source() == old(self).source(),
            old(self)@.len() == 0 ==> r is None && final(self)@ == old(self)@,
            old(self)@.len() > 0 ==> (r matches Some(x) && outcome(x) == old(self)@[0]
                && final(self)@ == old(self)@.drop_first()),
    {
        if self.items.len() == 0 {
            return None;
        }
        let x = self.items.remove(0);
        proof {
            assert(outcomes(self.items@) =~= outcomes(old(self).items@).drop_first());
        }
        Some(x)
    }
}

/// Appends what the walk from the entry yields to `out`.
#[verifier::spinoff_prover]
#[verifier::rlimit(40)]
fn visit(
    fs: &MemoryFs,
    min_depth: usize,
    contents_first: bool,
    entry: DirEntry,
    out: &mut Vec<Result<DirEntry, Error>>,
)
    requires
        fs.wf(),
        fs@.dom().finite(),
        keys_normal(fs@),
        is_normal(entry@.path),
        Visit::Found(entry@) == visit_at(fs@, entry@.path, entry@.depth),
        entry@.depth + below(fs@, entry@.path).len() < usize::MAX,
    ensures
        outcomes(final(out)@) == outcomes(old(out)@) + walk_visit(
            fs@,
            Visit::Found(entry@),
            WalkShape { min_depth: min_depth as int, contents_first },
        ),
    decreases below(fs@, entry@.path).len(), 2nat,
{
    let ghost shape = WalkShape { min_depth: min_depth as int, contents_first };
    let ghost v = Visit::Found(entry@);
    let ghost m = fs@;
    let ghost start = outcomes(out@);
    let shown = entry.depth >= min_depth;
    if !entry.file_type.is_dir() {
        if shown {
            out.push(Ok(entry));
            assert(outcomes(out@) =~= start + seq![v]);
        } else {
            assert(outcomes(out@) =~= start + Seq::<Visit>::empty());
        }
        return;
    }
    if !contents_first && shown {
        out.push(Ok(entry.duplicate()));
        assert(outcomes(out@) =~= start + seq![v]);
    }
    let ghost pre = if !contents_first && shown { seq![v] } else { Seq::<Visit>::empty() };
    assert(outcomes(out@) =~= start + pre);
    proof {
        assert(m.contains_key(entry@.path));
    }
    let listed = match fs.read_dir(entry.path.as_str()) {
        Ok(l) => l,
        Err(e) => {
            let ghost f = e@;
            out.push(Err(Error::new(entry.path.as_str(), e)));
            assert(outcomes(out@) =~= start + pre + seq![Visit::Failed(entry@.path, f)]);
            return;
        },
    };
    let ghost dir = listed_dir(m, entry@.path)->Ok_0;
    proof {
        lemma_listed_names(listed@, m, dir);
        lemma_listing_unique(listed@.map_values(|x: crate::memory::VfsDirEntry| x.name@), m, dir);
        crate::path::lemma_normalize_idempotent(entry@.path);
        assert(dir == entry@.path);
    }
    let ghost middle = outcomes(out@);
    visit_children(fs, min_depth, contents_first, entry.path.as_str(), &listed, entry.depth + 1, out);
    assert(outcomes(out@) == start + pre + walk_list(m, entry@.path, listing(m, dir), entry@.depth + 1, shape));
    if contents_first && shown {
        let ghost before = outcomes(out@);
        out.push(Ok(entry));
        assert(outcomes(out@) =~= before + seq![v]);
    }
}

/// Appends what the walks from the listed children of `parent` yield to `out`, in order.
#[verifier::spinoff_prover]
#[verifier::rlimit(40)]
fn visit_children(
    fs: &MemoryFs,
    min_depth: usize,
    contents_first: bool,
    parent: &str,
    listed: &Vec<crate::memory::VfsDirEntry>,
    depth: usize,
    out: &mut Vec<Result<DirEntry, Error>>,
)
    requires
        fs.wf(),
        fs@.dom().finite(),
        keys_normal(fs@),
        is_normal(parent@),
        child_listing(listed@.map_values(|x: crate::memory::VfsDirEntry| x.name@), fs@, parent@),
        depth + below(fs@, parent@).len() <= usize::MAX,
    ensures
        outcomes(final(out)@) == outcomes(old(out)@) + walk_list(
            fs@,
            parent@,
            listed@.map_values(|x: crate::memory::VfsDirEntry| x.name@),
            depth as int,
            WalkShape { min_depth: min_depth as int, contents_first },
        ),
    decreases below(fs@, parent@).len(), 1nat,
{
    let ghost shape = WalkShape { min_depth: min_depth as int, contents_first };
    let ghost m = fs@;
    let ghost names = listed@.map_values(|x: crate::memory::VfsDirEntry| x.name@);
    let ghost start = outcomes(out@);
    let mut i: usize = 0;
    assert(names.take(0) =~= Seq::<Seq<char>>::empty());
    while i < listed.len()
        invariant
            fs.wf(),
            m == fs@,
            shape == (WalkShape { min_depth: min_depth as int, contents_first }),
            m.dom().finite(),
            keys_normal(m),
            i <= listed.len(),
            names == listed@.map_values(|x: crate::memory::VfsDirEntry| x.name@),
            child_listing(names, m, parent@),
            is_normal(parent@),
            depth + below(m, parent@).len() <= usize::MAX,
            outcomes(out@) == start + walk_list(m, parent@, names.take(i as int), depth as int, shape),
        decreases listed.len() - i,
    {
        let ghost name = names[i as int];
        proof {
            assert(names.contains(name));
            assert(child_names(m, parent@).contains(name));
            assert(names.take(i + 1).drop_last() =~= names.take(i as int));
            assert(names.take(i + 1).last() == name);
        }
        let ghost before = outcomes(out@);
        proof {
            assert(has_child(m, parent@, name));
            assert(walk_list(m, parent@, names.take(i + 1), depth as int, shape) == walk_list(
                m,
                parent@,
                names.take(i as int),
                depth as int,
                shape,
            ) + walk_visit(m, visit_at(m, child_path(parent@, name), depth as int), shape));
        }
        let child_name_text = listed[i].name.as_str();
        visit_child(fs, min_depth, contents_first, parent, child_name_text, depth, out);
        assert(outcomes(out@) =~= start + walk_list(m, parent@, names.take(i + 1), depth as int, shape));
        i = i + 1;
    }
    assert(names.take(i as int) =~= names);
}

/// Appends what the walk from the child `name` of `parent` yields to `out`.
fn visit_child(
    fs: &MemoryFs,
    min_depth: usize,
    contents_first: bool,
    parent: &str,
    name: &str,
    depth: usize,
    out: &mut Vec<Result<DirEntry, Error>>,
)
    requires
        fs.wf(),
        fs@.dom().finite(),
        keys_normal(fs@),
        is_normal(parent@),
        has_child(fs@, parent@, name@),
        depth + below(fs@, parent@).len() <= usize::MAX,
    ensures
        outcomes(final(out)@) == outcomes(old(out)@) + walk_visit(
            fs@,
            visit_at(fs@, child_path(parent@, name@), depth as int),
            WalkShape { min_depth: min_depth as int, contents_first },
        ),
    decreases below(fs@, parent@).len(), 0nat,
{
    let ghost shape = WalkShape { min_depth: min_depth as int, contents_first };
    let ghost m = fs@;
    proof {
        lemma_child_below(m, parent@, name@);
    }
    let joined = crate::path::join(parent, name);
    let location = crate::path::normalize(joined.as_str());
    let ghost cv = visit_at(m, location@, depth as int);
    let ghost before = outcomes(out@);
    match entry_for(fs, location.as_str(), depth) {
        Ok(child) => {
            proof {
                crate::path::lemma_normalize_idempotent(joined@);
            }
            visit(fs, min_depth, contents_first, child, out);
        },
        Err(e) => {
            let ghost vf = outcome(Err(e));
            out.push(Err(e));
            assert(outcomes(out@) =~= before + seq![vf]);
        },
    }
}


/// Appends what the walk from the entry yields to `out`, entering only what `predicate`
/// accepts.
#[verifier::spinoff_prover]
#[verifier::rlimit(40)]
fn visit_f<P: Fn(&DirEntry) -> bool>(
    fs: &MemoryFs,
    min_depth: usize,
    contents_first: bool,
    entry: DirEntry,
    out: &mut Vec<Result<DirEntry, Error>>,
    predicate: &P,
    Ghost(accept): Ghost<spec_fn(WalkEntryView) -> bool>,
)
    requires
        fs.wf(),
        answers_by_entry(*predicate, accept),
        fs@.dom().finite(),
        keys_normal(fs@),
        is_normal(entry@.path),
        Visit::Found(entry@) == visit_at(fs@, entry@.path, entry@.depth),
        entry@.depth + below(fs@, entry@.path).len() < usize::MAX,
    ensures
        outcomes(final(out)@) == outcomes(old(out)@) + walk_visit_f(
            fs@,
            Visit::Found(entry@),
            WalkShape { min_depth: min_depth as int, contents_first },
            accept,
        ),
    decreases below(fs@, entry@.path).len(), 2nat,
{
    let ghost shape = WalkShape { min_depth: min_depth as int, contents_first };
    let ghost v = Visit::Found(entry@);
    let ghost m = fs@;
    let ghost start = outcomes(out@);
    if !predicate(&entry) {
        assert(outcomes(out@) =~= start + Seq::<Visit>::empty());
        return;
    }
    let shown = entry.depth >= min_depth;
    if !entry.file_type.is_dir() {
        if shown {
            out.push(Ok(entry));
            assert(outcomes(out@) =~= start + seq![v]);
        } else {
            assert(outcomes(out@) =~= start + Seq::<Visit>::empty());
        }
        return;
    }
    if !contents_first && shown {
        out.push(Ok(entry.duplicate()));
        assert(outcomes(out@) =~= start + seq![v]);
    }
    let ghost pre = if !contents_first && shown { seq![v] } else { Seq::<Visit>::empty() };
    assert(outcomes(out@) =~= start + pre);
    proof {
        assert(m.contains_key(entry@.path));
    }
    let listed = match fs.read_dir(entry.path.as_str()) {
        Ok(l) => l,
        Err(e) => {
            let ghost f = e@;
            out.push(Err(Error::new(entry.path.as_str(), e)));
            assert(outcomes(out@) =~= start + pre + seq![Visit::Failed(entry@.path, f)]);
            return;
        },
    };
    let ghost dir = listed_dir(m, entry@.path)->Ok_0;
    proof {
        lemma_listed_names(listed@, m, dir);
        lemma_listing_unique(listed@.map_values(|x: crate::memory::VfsDirEntry| x.name@), m, dir);
        crate::path::lemma_normalize_idempotent(entry@.path);
        assert(dir == entry@.path);
    }
    let ghost middle = outcomes(out@);
    visit_children_f(fs, min_depth, contents_first, entry.path.as_str(), &listed, entry.depth + 1, out, predicate, Ghost(accept));
    assert(outcomes(out@) == start + pre + walk_list_f(m, entry@.path, listing(m, dir), entry@.depth + 1, shape, accept));
    if contents_first && shown {
        let ghost before = outcomes(out@);
        out.push(Ok(entry));
        assert(outcomes(out@) =~= before + seq![v]);
    }
}

/// Appends what the filtered walks from the listed children of `parent` yield to `out`.
#[verifier::spinoff_prover]
#[verifier::rlimit(40)]
fn visit_children_f<P: Fn(&DirEntry) -> bool>(
    fs: &MemoryFs,
    min_depth: usize,
    contents_first: bool,
    parent: &str,
    listed: &Vec<crate::memory::VfsDirEntry>,
    depth: usize,
    out: &mut Vec<Result<DirEntry, Error>>,
    predicate: &P,
    Ghost(accept): Ghost<spec_fn(WalkEntryView) -> bool>,
)
    requires
        fs.wf(),
        answers_by_entry(*predicate, accept),
        fs@.dom().finite(),
        keys_normal(fs@),
        is_normal(parent@),
        child_listing(listed@.map_values(|x: crate::memory::VfsDirEntry| x.name@), fs@, parent@),
        depth + below(fs@, parent@).len() <= usize::MAX,
    ensures
        outcomes(final(out)@) == outcomes(old(out)@) + walk_list_f(
            fs@,
            parent@,
            listed@.map_values(|x: crate::memory::VfsDirEntry| x.name@),
            depth as int,
            WalkShape { min_depth: min_depth as int, contents_first },
            accept,
        ),
    decreases below(fs@, parent@).len(), 1nat,
{
    let ghost shape = WalkShape { min_depth: min_depth as int, contents_first };
    let ghost m = fs@;
    let ghost names = listed@.map_values(|x: crate::memory::VfsDirEntry| x.name@);
    let ghost start = outcomes(out@);
    let mut i: usize = 0;
    assert(names.take(0) =~= Seq::<Seq<char>>::empty());
    while i < listed.len()
        invariant
            fs.wf(),
            m == fs@,
            shape == (WalkShape { min_depth: min_depth as int, contents_first }),
            answers_by_entry(*predicate, accept),
            m.dom().finite(),
            keys_normal(m),
            i <= listed.len(),
            names == listed@.map_values(|x: crate::memory::VfsDirEntry| x.name@),
            child_listing(names, m, parent@),
            is_normal(parent@),
            depth + below(m, parent@).len() <= usize::MAX,
            outcomes(out@) == start + walk_list_f(m, parent@, names.take(i as int), depth as int, shape, accept),
        decreases listed.len() - i,
    {
        let ghost name = names[i as int];
        proof {
            assert(names.contains(name));
            assert(child_names(m, parent@).contains(name));
            assert(names.take(i + 1).drop_last() =~= names.take(i as int));
            assert(names.take(i + 1).last() == name);
        }
        let ghost before = outcomes(out@);
        proof {
            assert(has_child(m, parent@, name));
            assert(walk_list_f(m, parent@, names.take(i + 1), depth as int, shape, accept) == walk_list_f(
                m,
                parent@,
                names.take(i as int),
                depth as int,
                shape,
                accept,
            ) + walk_visit_f(m, visit_at(m, child_path(parent@, name), depth as int), shape, accept));
        }
        let child_name_text = listed[i].name.as_str();
        visit_child_f(fs, min_depth, contents_first, parent, child_name_text, depth, out, predicate, Ghost(accept));
        assert(outcomes(out@) =~= start + walk_list_f(m, parent@, names.take(i + 1), depth as int, shape, accept));
        i = i + 1;
    }
    assert(names.take(i as int) =~= names);
}

/// Appends what the filtered walk from the child `name` of `parent` yields to `out`.
fn visit_child_f<P: Fn(&DirEntry) -> bool>(
    fs: &MemoryFs,
    min_depth: usize,
    contents_first: bool,
    parent: &str,
    name: &str,
    depth: usize,
    out: &mut Vec<Result<DirEntry, Error>>,
    predicate: &P,
    Ghost(accept): Ghost<spec_fn(WalkEntryView) -> bool>,
)
    requires
        fs.wf(),
        answers_by_entry(*predicate, accept),
        fs@.dom().finite(),
        keys_normal(fs@),
        is_normal(parent@),
        has_child(fs@, parent@, name@),
        depth + below(fs@, parent@).len() <= usize::MAX,
    ensures
        outcomes(final(out)@) == outcomes(old(out)@) + walk_visit_f(
            fs@,
            visit_at(fs@, child_path(parent@, name@), depth as int),
            WalkShape { min_depth: min_depth as int, contents_first },
            accept,
        ),
    decreases below(fs@, parent@).len(), 0nat,
{
    let ghost shape = WalkShape { min_depth: min_depth as int, contents_first };
    let ghost m = fs@;
    proof {
        lemma_child_below(m, parent@, name@);
    }
    let joined = crate::path::join(parent, name);
    let location = crate::path::normalize(joined.as_str());
    let ghost cv = visit_at(m, location@, depth as int);
    let ghost before = outcomes(out@);
    match entry_for(fs, location.as_str(), depth) {
        Ok(child) => {
            proof {
                crate::path::lemma_normalize_idempotent(joined@);
            }
            visit_f(fs, min_depth, contents_first, child, out, predicate, Ghost(accept));
        },
        Err(e) => {
            let ghost vf = outcome(Err(e));
            out.push(Err(e));
            assert(outcomes(out@) =~= before + seq![vf]);
        },
    }
}


/// A listing from `read_dir` gives the child listing of its names.
proof fn lemma_listed_names(entries: Seq<crate::memory::VfsDirEntry>, m: Contents, dir: Seq<char>)
    requires
        crate::memory::lists_children(entries, m, dir),
    ensures
        child_listing(entries.map_values(|x: crate::memory::VfsDirEntry| x.name@), m, dir),
{
    let names = entries.map_values(|x: crate::memory::VfsDirEntry| x.name@);
    assert forall|i: int, j: int| 0 <= i < j < names.len() implies chars_lt(
        #[trigger] names[i],
        #[trigger] names[j],
    ) by {
        assert(chars_lt(entries[i].name@, entries[j].name@));
    }
    assert forall|n: Seq<char>| #[trigger] names.contains(n) <==> child_names(m, dir).contains(n) by {
        if names.contains(n) {
            let i = choose|i: int| 0 <= i < names.len() && names[i] == n;
            assert(entries[i].name@ == n);
            let k = choose|k: Seq<char>|
                #[trigger] m.contains_key(k) && child_name(dir, k) == Some(entries[i].name@)
                    && kind_of(m[k]) == entries[i].kind;
            assert(has_child(m, dir, n));
        }
        if child_names(m, dir).contains(n) {
            let k = choose|k: Seq<char>| #[trigger] m.contains_key(k) && child_name(dir, k) == Some(n);
            let i = choose|i: int| 0 <= i < entries.len() && Some(#[trigger] entries[i].name@) == child_name(dir, k);
            assert(names[i] == n);
        }
    }
}

} // verus!
