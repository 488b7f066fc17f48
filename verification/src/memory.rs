//! The in-memory filesystem: a table of normalised paths to files, directories and
//! symbolic links.
use vstd::prelude::*;
use web_time::SystemTime;

use crate::clock::now;
use crate::error::{not_found, unsupported, Fault, VfsError};
use crate::path::{
    is_normal, lemma_normalize_idempotent, lemma_normalized_ok, lemma_render_normal, normalize,
    normalize_segments, normalize_spec, normalized_segments, parent_of, parent_spec,
    path_starts_with, path_starts_with_exec, render, render_segments, segments_ok,
};
use crate::table::{node_table_entries, NodeTable};

verus! {

/// How many symbolic links a lookup follows before it gives up.
pub const SYMLINK_HOP_LIMIT: usize = 16;

/// What kind of thing a path names.
#[derive(Debug, Clone, Copy, PartialEq, Eq, Structural)]
pub enum VfsKind {
    File,
    Directory,
    Symlink,
}

/// What a lookup reports of a node.
#[derive(Debug, Clone, Copy)]
pub struct VfsMetadata {
    pub kind: VfsKind,
    pub len: u64,
    pub modified: SystemTime,
}

impl VfsMetadata {
    pub fn is_file(&self) -> (r: bool)
        ensures
            r == (self.kind == VfsKind::File),
    {
        self.kind == VfsKind::File
    }

    pub fn is_dir(&self) -> (r: bool)
        ensures
            r == (self.kind == VfsKind::Directory),
    {
        self.kind == VfsKind::Directory
    }

    pub fn is_symlink(&self) -> (r: bool)
        ensures
            r == (self.kind == VfsKind::Symlink),
    {
        self.kind == VfsKind::Symlink
    }
}

/// One child of a directory: its name and kind.
#[derive(Debug)]
pub struct VfsDirEntry {
    pub name: String,
    pub kind: VfsKind,
}

/// A node of the filesystem.
#[derive(Debug)]
pub enum Node {
    File { data: Vec<u8>, modified: SystemTime },
    Directory { modified: SystemTime },
    Symlink { target: String, modified: SystemTime },
}

/// What a node holds, without its timestamp.
pub enum Entry {
    File(Seq<u8>),
    Directory,
    Symlink(Seq<char>),
}

pub open spec fn kind_of(e: Entry) -> VfsKind {
    match e {
        Entry::File(_) => VfsKind::File,
        Entry::Directory => VfsKind::Directory,
        Entry::Symlink(_) => VfsKind::Symlink,
    }
}

/// The length a node reports: a file's bytes, zero for a directory, the UTF-8 length of a
/// link's target.
pub open spec fn len_of(e: Entry) -> int {
    match e {
        Entry::File(d) => d.len() as int,
        Entry::Directory => 0,
        Entry::Symlink(t) => (vstd::utf8::encode_utf8(t).len() as usize) as int,
    }
}

impl Node {
    pub open spec fn entry(self) -> Entry {
        match self {
            Node::File { data, .. } => Entry::File(data@),
            Node::Directory { .. } => Entry::Directory,
            Node::Symlink { target, .. } => Entry::Symlink(target@),
        }
    }

    pub open spec fn stamp(self) -> SystemTime {
        match self {
            Node::File { modified, .. } => modified,
            Node::Directory { modified } => modified,
            Node::Symlink { modified, .. } => modified,
        }
    }

    pub fn kind(&self) -> (k: VfsKind)
        ensures
            k == kind_of(self.entry()),
    {
        match self {
            Node::File { .. } => VfsKind::File,
            Node::Directory { .. } => VfsKind::Directory,
            Node::Symlink { .. } => VfsKind::Symlink,
        }
    }

    pub fn modified(&self) -> (t: SystemTime)
        ensures
            t == self.stamp(),
    {
        match self {
            Node::File { modified, .. } => *modified,
            Node::Directory { modified } => *modified,
            Node::Symlink { modified, .. } => *modified,
        }
    }

    pub fn len(&self) -> (n: u64)
        ensures
            n == len_of(self.entry()),
    {
        match self {
            Node::File { data, .. } => {
                let n = data.len();
                assert(n <= u64::MAX);
                n as u64
            },
            Node::Directory { .. } => 0,
            Node::Symlink { target, .. } => {
                let n = target.as_str().len();
                assert(n <= u64::MAX);
                n as u64
            },
        }
    }

    pub fn metadata(&self) -> (m: VfsMetadata)
        ensures
            m.kind == kind_of(self.entry()),
            m.len == len_of(self.entry()),
            m.modified == self.stamp(),
    {
        VfsMetadata { kind: self.kind(), len: self.len(), modified: self.modified() }
    }

    /// A copy of the node.
    pub fn duplicate(&self) -> (n: Node)
        ensures
            n.entry() == self.entry(),
            n.stamp() == self.stamp(),
    {
        match self {
            Node::File { data, modified } => {
                let copy = data.clone();
                assert(copy@ =~= data@);
                Node::File { data: copy, modified: *modified }
            },
            Node::Directory { modified } => Node::Directory { modified: *modified },
            Node::Symlink { target, modified } => Node::Symlink {
                target: target.clone(),
                modified: *modified,
            },
        }
    }
}

/// The contents of a filesystem, by normalised path.
pub type Contents = Map<Seq<char>, Entry>;

/// The path a call names, or `NotFound` for the empty path (which is not the root).
pub open spec fn named_spec(path: Seq<char>) -> Result<Seq<char>, Fault> {
    if path.len() == 0 {
        Err(Fault::NotFound(path))
    } else {
        Ok(normalize_spec(path))
    }
}

/// Follows `current` through at most `hops` symbolic links (when `follow` is set).
pub open spec fn resolve_from(
    m: Contents,
    current: Seq<char>,
    follow: bool,
    hops: nat,
    origin: Seq<char>,
) -> Result<(Seq<char>, Entry), Fault>
    decreases hops,
{
    if hops == 0 {
        Err(Fault::TooManyLinks(origin))
    } else if !m.contains_key(current) {
        Err(Fault::NotFound(current))
    } else if follow && m[current] is Symlink {
        resolve_from(m, normalize_spec(m[current]->Symlink_0), follow, (hops - 1) as nat, origin)
    } else {
        Ok((current, m[current]))
    }
}

/// The node `path` leads to: its normalised path and what it holds.
pub open spec fn resolve_spec(m: Contents, path: Seq<char>, follow: bool) -> Result<
    (Seq<char>, Entry),
    Fault,
> {
    match named_spec(path) {
        Err(f) => Err(f),
        Ok(start) => resolve_from(m, start, follow, SYMLINK_HOP_LIMIT as nat, path),
    }
}

/// What `read` returns.
pub open spec fn read_spec(m: Contents, path: Seq<char>) -> Result<Seq<u8>, Fault> {
    match resolve_spec(m, path, true) {
        Err(f) => Err(f),
        Ok((at, Entry::File(d))) => Ok(d),
        Ok((at, _)) => Err(Fault::NotAFile(at)),
    }
}

/// What `read_link` returns.
pub open spec fn read_link_spec(m: Contents, path: Seq<char>) -> Result<Seq<char>, Fault> {
    match resolve_spec(m, path, false) {
        Err(f) => Err(f),
        Ok((at, Entry::Symlink(t))) => Ok(t),
        Ok((at, _)) => Err(Fault::NotASymlink(at)),
    }
}

/// Whether `path` leads to a directory, or why not.
pub open spec fn require_directory_spec(m: Contents, path: Seq<char>) -> Result<(), Fault> {
    match resolve_spec(m, path, true) {
        Err(f) => Err(f),
        Ok((at, Entry::Directory)) => Ok(()),
        Ok((at, _)) => Err(Fault::NotADirectory(at)),
    }
}

/// Whether the directory that would hold `target` exists.
pub open spec fn parent_check(m: Contents, target: Seq<char>) -> Result<(), Fault> {
    match parent_spec(target) {
        None => Ok(()),
        Some(p) => require_directory_spec(m, p),
    }
}


/// Where `write` stores the file, or why it refuses.
pub open spec fn write_target(m: Contents, path: Seq<char>) -> Result<Seq<char>, Fault> {
    match named_spec(path) {
        Err(f) => Err(f),
        Ok(t) => match parent_check(m, t) {
            Err(f) => Err(f),
            Ok(_) => if m.contains_key(t) && m[t] is Directory {
                Err(Fault::IsADirectory(t))
            } else {
                Ok(t)
            },
        },
    }
}

/// Where `symlink` places the link, or why it refuses.
pub open spec fn link_location(m: Contents, link: Seq<char>) -> Result<Seq<char>, Fault> {
    match named_spec(link) {
        Err(f) => Err(f),
        Ok(t) => match parent_check(m, t) {
            Err(f) => Err(f),
            Ok(_) => Ok(t),
        },
    }
}

/// Creates each missing ancestor in turn, down to the first `n` segments; a non-directory on
/// the way stops the walk (what was created before it stays).
pub open spec fn mkdirs(m: Contents, segs: Seq<Seq<char>>, n: nat) -> (Contents, Option<Fault>)
    decreases n,
{
    if n == 0 {
        (m, None)
    } else {
        let (m1, e) = mkdirs(m, segs, (n - 1) as nat);
        if e is Some {
            (m1, e)
        } else {
            let p = render(segs.take(n as int));
            if m1.contains_key(p) {
                if m1[p] is Directory {
                    (m1, None)
                } else {
                    (m1, Some(Fault::BlockedByFile(p)))
                }
            } else {
                (m1.insert(p, Entry::Directory), None)
            }
        }
    }
}

/// Once the walk has stopped, going further changes nothing.
pub proof fn lemma_mkdirs_stuck(m: Contents, segs: Seq<Seq<char>>, j: nat, n: nat)
    requires
        j <= n,
        mkdirs(m, segs, j).1 is Some,
    ensures
        mkdirs(m, segs, n) == mkdirs(m, segs, j),
    decreases n,
{
    if n > j {
        lemma_mkdirs_stuck(m, segs, j, (n - 1) as nat);
    }
}

/// What `create_dir_all` leaves, and the failure it reports, if any.
pub open spec fn create_dir_all_spec(m: Contents, path: Seq<char>) -> (Contents, Option<Fault>) {
    match named_spec(path) {
        Err(f) => (m, Some(f)),
        Ok(_) => {
            let segs = normalized_segments(path);
            mkdirs(m, segs, segs.len())
        },
    }
}

/// Which file `remove_file` removes, or why it refuses.
pub open spec fn remove_file_target(m: Contents, path: Seq<char>) -> Result<Seq<char>, Fault> {
    match named_spec(path) {
        Err(f) => Err(f),
        Ok(t) => if !m.contains_key(t) {
            Err(Fault::NotFound(t))
        } else if m[t] is Directory {
            Err(Fault::IsADirectory(t))
        } else {
            Ok(t)
        },
    }
}

/// Which tree `remove_dir_all` removes, or why it refuses.
pub open spec fn remove_tree_target(m: Contents, path: Seq<char>) -> Result<Seq<char>, Fault> {
    match named_spec(path) {
        Err(f) => Err(f),
        Ok(t) => if !m.contains_key(t) {
            Err(Fault::NotFound(t))
        } else {
            Ok(t)
        },
    }
}

/// `m` without `t` and everything below it.
pub open spec fn prune(m: Contents, t: Seq<char>) -> Contents {
    Map::new(|k: Seq<char>| m.contains_key(k) && !path_starts_with(k, t), |k: Seq<char>| m[k])
}


/// The two ends of a rename, or why it refuses: both paths must be named, the source must
/// exist, and the directory that will hold the destination must exist.
pub open spec fn rename_ends(m: Contents, from: Seq<char>, to: Seq<char>) -> Result<
    (Seq<char>, Seq<char>),
    Fault,
> {
    match named_spec(from) {
        Err(f) => Err(f),
        Ok(s) => match named_spec(to) {
            Err(f) => Err(f),
            Ok(d) => if !m.contains_key(s) {
                Err(Fault::NotFound(s))
            } else {
                match parent_check(m, d) {
                    Err(f) => Err(f),
                    Ok(_) => Ok((s, d)),
                }
            },
        },
    }
}

/// Where a key below `s` lands when `s` moves to `d`.
pub open spec fn relocate(k: Seq<char>, s: Seq<char>, d: Seq<char>) -> Seq<char> {
    render(normalized_segments(d) + normalized_segments(k).skip(normalized_segments(s).len() as int))
}

/// Where a key below `d` came from when `s` moved to `d`.
pub open spec fn origin(k: Seq<char>, s: Seq<char>, d: Seq<char>) -> Seq<char> {
    render(normalized_segments(s) + normalized_segments(k).skip(normalized_segments(d).len() as int))
}

/// `k` holds the same thing before and after.
pub open spec fn untouched(before: Contents, after: Contents, k: Seq<char>) -> bool {
    &&& after.contains_key(k) == before.contains_key(k)
    &&& before.contains_key(k) ==> after[k] == before[k]
}

/// The filesystem after the tree at `s` moves to `d`, when neither lies within the other:
/// whatever was below `d` is gone, everything below `s` now sits at the same place below `d`,
/// and the rest is untouched.
pub open spec fn moved_tree(m: Contents, s: Seq<char>, d: Seq<char>) -> Contents {
    Map::new(
        |k: Seq<char>|
            (m.contains_key(k) && !path_starts_with(k, d) && !path_starts_with(k, s)) || (
            is_normal(k) && path_starts_with(k, d) && m.contains_key(origin(k, s, d))
                && path_starts_with(origin(k, s, d), s)),
        |k: Seq<char>|
            if path_starts_with(k, d) {
                m[origin(k, s, d)]
            } else {
                m[k]
            },
    )
}


/// How the contents after a rename of `s` to `d` relate to those before: a source at or
/// below the destination is simply gone with the destination's tree; a destination strictly
/// below the source leaves the source gone, everything outside both trees untouched, nothing
/// new outside the destination, and nothing below the source outside the destination (which
/// entries land where below the destination depends on the order the node table is walked);
/// any other rename moves the tree.
pub open spec fn renamed(before: Contents, after: Contents, s: Seq<char>, d: Seq<char>) -> bool {
    if path_starts_with(s, d) {
        after == prune(before, d)
    } else if crate::path::is_within_spec(s, d) {
        &&& !after.contains_key(s)
        &&& forall|k: Seq<char>|
            !path_starts_with(k, s) && !path_starts_with(k, d) ==> untouched(before, after, k)
        &&& forall|k: Seq<char>| #[trigger] after.contains_key(k) ==> before.contains_key(k)
            || path_starts_with(k, d)
        &&& forall|k: Seq<char>| #[trigger] after.contains_key(k) && path_starts_with(k, s)
            ==> path_starts_with(k, d)
    } else {
        after == moved_tree(before, s, d)
    }
}

/// The name `k` has as a direct child of `dir`, if it is one.
pub open spec fn child_name(dir: Seq<char>, k: Seq<char>) -> Option<Seq<char>> {
    let ds = normalized_segments(dir);
    let ks = normalized_segments(k);
    if ks.len() == ds.len() + 1 && ks.take(ds.len() as int) == ds {
        Some(ks.last())
    } else {
        None
    }
}

/// The directory `read_dir` lists, or why it refuses.
pub open spec fn listed_dir(m: Contents, path: Seq<char>) -> Result<Seq<char>, Fault> {
    match resolve_spec(m, path, true) {
        Err(f) => Err(f),
        Ok((at, Entry::Directory)) => Ok(at),
        Ok((at, _)) => Err(Fault::NotADirectory(at)),
    }
}

/// `entries` lists exactly the direct children of `dir`, each once, with its kind, in
/// ascending name order.
pub open spec fn lists_children(entries: Seq<VfsDirEntry>, m: Contents, dir: Seq<char>) -> bool {
    &&& forall|i: int, j: int|
        0 <= i < j < entries.len() ==> crate::text::chars_lt(
            #[trigger] entries[i].name@,
            #[trigger] entries[j].name@,
        )
    &&& forall|i: int|
        #![trigger entries[i]]
        0 <= i < entries.len() ==> exists|k: Seq<char>|
            #[trigger] m.contains_key(k) && child_name(dir, k) == Some(entries[i].name@)
                && kind_of(m[k]) == entries[i].kind
    &&& forall|k: Seq<char>|
        #[trigger] m.contains_key(k) && child_name(dir, k) is Some ==> exists|i: int|
            0 <= i < entries.len() && Some(#[trigger] entries[i].name@) == child_name(dir, k)
}


/// What `read_to_string` returns: the text of the file, if it is valid UTF-8.
pub open spec fn read_text_spec(m: Contents, path: Seq<char>) -> Result<Seq<char>, Fault> {
    match read_spec(m, path) {
        Err(f) => Err(f),
        Ok(d) => if vstd::utf8::valid_utf8(d) {
            Ok(vstd::utf8::decode_utf8(d))
        } else {
            Err(Fault::InvalidUtf8(path))
        },
    }
}

/// Which node `set_modified` stamps, or why it refuses (links are not followed).
pub open spec fn stamp_target(m: Contents, path: Seq<char>) -> Result<Seq<char>, Fault> {
    match named_spec(path) {
        Err(f) => Err(f),
        Ok(t) => if !m.contains_key(t) {
            Err(Fault::NotFound(t))
        } else {
            Ok(t)
        },
    }
}


proof fn lemma_ok_concat(a: Seq<Seq<char>>, b: Seq<Seq<char>>)
    requires
        segments_ok(a),
        segments_ok(b),
    ensures
        segments_ok(a + b),
{
    assert forall|i: int| 0 <= i < (a + b).len() implies crate::path::segment_ok(#[trigger] (a + b)[i]) by {
        if i < a.len() {
            assert((a + b)[i] == a[i]);
        } else {
            assert((a + b)[i] == b[i - a.len()]);
        }
    }
}

proof fn lemma_ok_skip(a: Seq<Seq<char>>, n: int)
    requires
        segments_ok(a),
        0 <= n <= a.len(),
    ensures
        segments_ok(a.skip(n)),
{
    assert forall|i: int| 0 <= i < a.skip(n).len() implies crate::path::segment_ok(#[trigger] a.skip(n)[i]) by {
        assert(a.skip(n)[i] == a[i + n]);
    }
}

/// A key that came from below `d` lands below `s`, at a normal path whose segments are
/// those of `s` followed by what lay below `d`.
proof fn lemma_origin(k: Seq<char>, s: Seq<char>, d: Seq<char>)
    requires
        path_starts_with(k, d),
    ensures
        normalized_segments(origin(k, s, d)) == normalized_segments(s) + normalized_segments(k).skip(
            normalized_segments(d).len() as int,
        ),
        path_starts_with(origin(k, s, d), s),
        is_normal(origin(k, s, d)),
{
    let ss = normalized_segments(s);
    let ks = normalized_segments(k);
    let ds = normalized_segments(d);
    lemma_normalized_ok(s);
    lemma_normalized_ok(k);
    lemma_ok_skip(ks, ds.len() as int);
    lemma_ok_concat(ss, ks.skip(ds.len() as int));
    let segs = ss + ks.skip(ds.len() as int);
    crate::path::lemma_normalized_render(segs);
    lemma_render_normal(segs);
    assert(segs.take(ss.len() as int) =~= ss);
}

/// Moving a key from below `s` to below `d` and back gives the key again.
proof fn lemma_relocate(q: Seq<char>, s: Seq<char>, d: Seq<char>)
    requires
        is_normal(q),
        path_starts_with(q, s),
    ensures
        is_normal(relocate(q, s, d)),
        path_starts_with(relocate(q, s, d), d),
        origin(relocate(q, s, d), s, d) == q,
        normalized_segments(relocate(q, s, d)) == normalized_segments(d) + normalized_segments(
            q,
        ).skip(normalized_segments(s).len() as int),
{
    let ss = normalized_segments(s);
    let qs = normalized_segments(q);
    let ds = normalized_segments(d);
    lemma_normalized_ok(d);
    lemma_normalized_ok(q);
    lemma_ok_skip(qs, ss.len() as int);
    lemma_ok_concat(ds, qs.skip(ss.len() as int));
    let rs = ds + qs.skip(ss.len() as int);
    crate::path::lemma_normalized_render(rs);
    lemma_render_normal(rs);
    assert(rs.take(ds.len() as int) =~= ds);
    assert(rs.skip(ds.len() as int) =~= qs.skip(ss.len() as int));
    assert(ss + qs.skip(ss.len() as int) =~= qs);
}

/// Two normal keys below `d` that came from the same place are the same key.
proof fn lemma_origin_injective(k1: Seq<char>, k2: Seq<char>, s: Seq<char>, d: Seq<char>)
    requires
        is_normal(k1),
        is_normal(k2),
        path_starts_with(k1, d),
        path_starts_with(k2, d),
        origin(k1, s, d) == origin(k2, s, d),
    ensures
        k1 == k2,
{
    lemma_origin(k1, s, d);
    lemma_origin(k2, s, d);
    let ss = normalized_segments(s);
    let ds = normalized_segments(d);
    let a = normalized_segments(k1);
    let b = normalized_segments(k2);
    assert((ss + a.skip(ds.len() as int)).skip(ss.len() as int) =~= a.skip(ds.len() as int));
    assert((ss + b.skip(ds.len() as int)).skip(ss.len() as int) =~= b.skip(ds.len() as int));
    assert(a =~= ds + a.skip(ds.len() as int));
    assert(b =~= ds + b.skip(ds.len() as int));
}

/// A key below both `s` and `d` makes one of them lie at or below the other.
proof fn lemma_comparable(q: Seq<char>, s: Seq<char>, d: Seq<char>)
    requires
        path_starts_with(q, s),
        path_starts_with(q, d),
    ensures
        path_starts_with(s, d) || crate::path::is_within_spec(s, d),
{
    let ss = normalized_segments(s);
    let ds = normalized_segments(d);
    let qs = normalized_segments(q);
    if ss.len() >= ds.len() {
        assert(ss.take(ds.len() as int) =~= qs.take(ds.len() as int));
    } else {
        assert(ds.take(ss.len() as int) =~= qs.take(ss.len() as int));
    }
}


/// Two normal keys that are the same child of `dir` are the same key.
proof fn lemma_child_injective(dir: Seq<char>, k1: Seq<char>, k2: Seq<char>)
    requires
        is_normal(k1),
        is_normal(k2),
        child_name(dir, k1) is Some,
        child_name(dir, k1) == child_name(dir, k2),
    ensures
        k1 == k2,
{
    let ds = normalized_segments(dir);
    let a = normalized_segments(k1);
    let b = normalized_segments(k2);
    assert(a =~= a.take(ds.len() as int).push(a.last()));
    assert(b =~= b.take(ds.len() as int).push(b.last()));
}

/// A new filesystem: the root and the temp directory.
pub open spec fn fresh_contents() -> Contents {
    Map::<Seq<char>, Entry>::empty().insert(seq!['/'], Entry::Directory).insert(
        normalize_spec(crate::temp::TEMP_ROOT@),
        Entry::Directory,
    )
}

/// An in-memory filesystem.
#[derive(Debug)]
pub struct MemoryFs {
    nodes: NodeTable,
}

impl View for MemoryFs {
    type V = Contents;

    closed spec fn view(&self) -> Contents {
        node_table_entries(self.nodes).map_values(|n: Node| n.entry())
    }
}

impl MemoryFs {
    /// The modification time of each node.
    pub closed spec fn times(&self) -> Map<Seq<char>, SystemTime> {
        node_table_entries(self.nodes).map_values(|n: Node| n.stamp())
    }

    /// Every key is a normalised path, every node has a time, and there are finitely many.
    pub closed spec fn wf(&self) -> bool {
        &&& forall|k: Seq<char>| #[trigger] self@.contains_key(k) ==> is_normal(k)
        &&& self.times().dom() == self@.dom()
        &&& self@.dom().finite()
    }

    proof fn lemma_views(&self)
        ensures
            self@.dom() == node_table_entries(self.nodes).dom(),
            self.times().dom() == node_table_entries(self.nodes).dom(),
            forall|k: Seq<char>|
                #[trigger] node_table_entries(self.nodes).contains_key(k) ==> self@[k]
                    == node_table_entries(self.nodes)[k].entry() && self.times()[k]
                    == node_table_entries(self.nodes)[k].stamp(),
    {
        assert(self@.dom() =~= node_table_entries(self.nodes).dom());
        assert(self.times().dom() =~= node_table_entries(self.nodes).dom());
    }

    /// What well-formedness promises to other modules: finitely many keys, each normalised.
    pub proof fn lemma_wf_facts(&self)
        requires
            self.wf(),
        ensures
            self@.dom().finite(),
            forall|k: Seq<char>| #[trigger] self@.contains_key(k) ==> is_normal(k),
    {
    }

    /// How many paths the filesystem holds.
    pub fn len(&self) -> (n: usize)
        ensures
            n == self@.dom().len(),
    {
        proof {
            self.lemma_views();
        }
        self.nodes.len()
    }

    /// A filesystem holding only the root and the temp directory.
    pub fn new() -> (fs: MemoryFs)
        ensures
            fs.wf(),
            fs@ == fresh_contents(),
    {
        let mut nodes = NodeTable::new();
        let root = normalize("/");
        proof {
            lemma_render_normal(Seq::<Seq<char>>::empty());
            reveal_strlit("/");
            assert(seq!['/'] =~= render(Seq::<Seq<char>>::empty()));
        }
        let mut root_name = String::new();
        crate::text::push_char(&mut root_name, '/');
        nodes.insert(root_name, Node::Directory { modified: now() });
        let temp = normalize(crate::temp::TEMP_ROOT);
        nodes.insert(temp, Node::Directory { modified: now() });
        let fs = MemoryFs { nodes };
        proof {
            fs.lemma_views();
            lemma_normalize_idempotent(crate::temp::TEMP_ROOT@);
            assert(fs@ =~= fresh_contents());
        }
        fs
    }

    /// Follows `path` (through links when `follow` is set) to a node.
    fn resolve(&self, path: &str, follow: bool) -> (r: Result<(String, Node), VfsError>)
        requires
            self.wf(),
        ensures
            match (r, resolve_spec(self@, path@, follow)) {
                (Ok((at, n)), Ok((k, e))) => at@ == k && n.entry() == e && self@.contains_key(k)
                    && n.stamp() == self.times()[k],
                (Err(err), Err(f)) => err@ == f,
                _ => false,
            },
    {
        let mut current = match named(path) {
            Ok(c) => c,
            Err(e) => return Err(e),
        };
        let mut i: usize = 0;
        proof {
            self.lemma_views();
        }
        while i < SYMLINK_HOP_LIMIT
            invariant
                i <= SYMLINK_HOP_LIMIT,
                named_spec(path@) is Ok,
                resolve_spec(self@, path@, follow) == resolve_from(
                    self@,
                    current@,
                    follow,
                    (SYMLINK_HOP_LIMIT - i) as nat,
                    path@,
                ),
                self.wf(),
                self@.dom() == node_table_entries(self.nodes).dom(),
                self.times().dom() == node_table_entries(self.nodes).dom(),
                forall|k: Seq<char>|
                    #[trigger] node_table_entries(self.nodes).contains_key(k) ==> self@[k]
                        == node_table_entries(self.nodes)[k].entry() && self.times()[k]
                        == node_table_entries(self.nodes)[k].stamp(),
            decreases SYMLINK_HOP_LIMIT - i,
        {
            match self.nodes.get(current.as_str()) {
                None => {
                    return Err(VfsError::NotFound(current));
                },
                Some(node) => {
                    if follow {
                        if let Node::Symlink { target, .. } = node {
                            current = normalize(target.as_str());
                            i = i + 1;
                            continue;
                        }
                    }
                    return Ok((current, node.duplicate()));
                },
            }
        }
        Err(VfsError::TooManyLinks(String::from_str(path)))
    }

    /// What `path` names, following links.
    pub fn metadata(&self, path: &str) -> (r: Result<VfsMetadata, VfsError>)
        requires
            self.wf(),
        ensures
            match (r, resolve_spec(self@, path@, true)) {
                (Ok(m), Ok((k, e))) => m.kind == kind_of(e) && m.len == len_of(e) && m.modified
                    == self.times()[k],
                (Err(err), Err(f)) => err@ == f,
                _ => false,
            },
    {
        let (_, node) = self.resolve(path, true)?;
        Ok(node.metadata())
    }

    /// What `path` names, without following a final link.
    pub fn symlink_metadata(&self, path: &str) -> (r: Result<VfsMetadata, VfsError>)
        requires
            self.wf(),
        ensures
            match (r, resolve_spec(self@, path@, false)) {
                (Ok(m), Ok((k, e))) => m.kind == kind_of(e) && m.len == len_of(e) && m.modified
                    == self.times()[k],
                (Err(err), Err(f)) => err@ == f,
                _ => false,
            },
    {
        let (_, node) = self.resolve(path, false)?;
        Ok(node.metadata())
    }

    /// The bytes of the file `path` leads to.
    pub fn read(&self, path: &str) -> (r: Result<Vec<u8>, VfsError>)
        requires
            self.wf(),
        ensures
            match r {
                Ok(d) => read_spec(self@, path@) matches Ok(x) && x == d@,
                Err(e) => read_spec(self@, path@) matches Err(f) && f == e@,
            },
    {
        let (resolved, node) = self.resolve(path, true)?;
        match node {
            Node::File { data, .. } => Ok(data),
            _ => Err(VfsError::NotAFile(resolved)),
        }
    }

    /// The target a symbolic link records, as it was given.
    pub fn read_link(&self, path: &str) -> (r: Result<String, VfsError>)
        requires
            self.wf(),
        ensures
            match r {
                Ok(t) => read_link_spec(self@, path@) matches Ok(x) && x == t@,
                Err(e) => read_link_spec(self@, path@) matches Err(f) && f == e@,
            },
    {
        let (resolved, node) = self.resolve(path, false)?;
        match node {
            Node::Symlink { target, .. } => Ok(target),
            _ => Err(VfsError::NotASymlink(resolved)),
        }
    }

    /// Whether `path` leads to anything.
    pub fn exists_path(&self, path: &str) -> (r: bool)
        requires
            self.wf(),
        ensures
            r == resolve_spec(self@, path@, true) is Ok,
    {
        self.metadata(path).is_ok()
    }

    /// Hard links are not offered.
    pub fn hard_link(&self, source: &str, target: &str) -> (r: Result<(), VfsError>)
        ensures
            r matches Err(e) && e@ == Fault::Unsupported("hard link"@, source@),
    {
        Err(unsupported("hard link", source))
    }


    fn put(&mut self, key: String, node: Node)
        requires
            old(self).wf(),
            is_normal(key@),
        ensures
            final(self).wf(),
            final(self)@ == old(self)@.insert(key@, node.entry()),
            final(self).times() == old(self).times().insert(key@, node.stamp()),
    {
        let ghost k = key@;
        let ghost n = node;
        self.nodes.insert(key, node);
        proof {
            old(self).lemma_views();
            self.lemma_views();
            assert(self@ =~= old(self)@.insert(k, n.entry()));
            assert(self.times() =~= old(self).times().insert(k, n.stamp()));
        }
    }

    fn drop_key(&mut self, key: &str)
        requires
            old(self).wf(),
        ensures
            final(self).wf(),
            final(self)@ == old(self)@.remove(key@),
            final(self).times() == old(self).times().remove(key@),
    {
        self.nodes.remove(key);
        proof {
            old(self).lemma_views();
            self.lemma_views();
            assert(self@ =~= old(self)@.remove(key@));
            assert(self.times() =~= old(self).times().remove(key@));
        }
    }

    /// Stores `contents` as the file at `path`, replacing any file or link there; the
    /// directory that holds it must exist.
    pub fn write(&mut self, path: &str, contents: &[u8]) -> (r: Result<(), VfsError>)
        requires
            old(self).wf(),
        ensures
            final(self).wf(),
            match r {
                Ok(()) => write_target(old(self)@, path@) matches Ok(t) && final(self)@
                    == old(self)@.insert(t, Entry::File(contents@)) && forall|k: Seq<char>|
                    k != t && #[trigger] old(self).times().contains_key(k) ==> final(self).times()[k]
                        == old(self).times()[k],
                Err(e) => write_target(old(self)@, path@) matches Err(f) && f == e@ && *final(self)
                    == *old(self),
            },
    {
        let target = named(path)?;
        self.check_parent(target.as_str())?;
        proof {
            self.lemma_views();
        }
        if let Some(Node::Directory { .. }) = self.nodes.get(target.as_str()) {
            return Err(VfsError::IsADirectory(target));
        }
        proof {
            lemma_normalize_idempotent(path@);
        }
        let data = vstd::slice::slice_to_vec(contents);
        self.put(target, Node::File { data, modified: now() });
        Ok(())
    }

    /// Creates the directory at `path` and every missing ancestor.
    pub fn create_dir_all(&mut self, path: &str) -> (r: Result<(), VfsError>)
        requires
            old(self).wf(),
        ensures
            final(self).wf(),
            final(self)@ == create_dir_all_spec(old(self)@, path@).0,
            match r {
                Ok(()) => create_dir_all_spec(old(self)@, path@).1 is None,
                Err(e) => create_dir_all_spec(old(self)@, path@).1 == Some(e@),
            },
    {
        let _target = named(path)?;
        let segs = normalize_segments(path);
        let ghost sv = segs.deep_view();
        proof {
            lemma_normalized_ok(path@);
        }
        let mut prefix: Vec<Vec<char>> = Vec::new();
        let mut k: usize = 0;
        proof {
            assert(prefix.deep_view() =~= sv.take(0));
        }
        while k < segs.len()
            invariant
                k <= segs.len(),
                sv == segs.deep_view(),
                sv == normalized_segments(path@),
                named_spec(path@) is Ok,
                segments_ok(sv),
                prefix.deep_view() == sv.take(k as int),
                self.wf(),
                mkdirs(old(self)@, sv, k as nat) == (self@, None::<Fault>),
            decreases segs.len() - k,
        {
            let piece = segs[k].clone();
            assert(piece@ =~= sv[k as int]);
            let ghost pv = piece@;
            prefix.push(piece);
            proof {
                assert(prefix.deep_view() =~= sv.take(k + 1));
                assert(segments_ok(sv.take(k + 1))) by {
                    assert forall|i: int| 0 <= i < sv.take(k + 1).len() implies crate::path::segment_ok(
                        #[trigger] sv.take(k + 1)[i],
                    ) by {
                        assert(sv.take(k + 1)[i] == sv[i]);
                    }
                }
                lemma_render_normal(sv.take(k + 1));
            }
            let cursor = render_segments(&prefix);
            proof {
                self.lemma_views();
            }
            match self.nodes.get(cursor.as_str()) {
                Some(Node::Directory { .. }) => {},
                Some(_) => {
                    proof {
                        let p = render(sv.take(k + 1));
                        assert(cursor@ == p);
                        assert(self@.contains_key(p));
                        assert(!(self@[p] is Directory));
                        assert(mkdirs(old(self)@, sv, (k + 1) as nat) == (
                            self@,
                            Some(Fault::BlockedByFile(p)),
                        ));
                        lemma_mkdirs_stuck(old(self)@, sv, (k + 1) as nat, sv.len());
                    }
                    return Err(VfsError::BlockedByFile(cursor));
                },
                None => {
                    self.put(cursor, Node::Directory { modified: now() });
                },
            }
            k = k + 1;
        }
        Ok(())
    }

    /// Removes the file or link at `path` (not a directory).
    pub fn remove_file(&mut self, path: &str) -> (r: Result<(), VfsError>)
        requires
            old(self).wf(),
        ensures
            final(self).wf(),
            match r {
                Ok(()) => remove_file_target(old(self)@, path@) matches Ok(t) && final(self)@
                    == old(self)@.remove(t),
                Err(e) => remove_file_target(old(self)@, path@) matches Err(f) && f == e@
                    && *final(self) == *old(self),
            },
    {
        let target = named(path)?;
        proof {
            self.lemma_views();
        }
        match self.nodes.get(target.as_str()) {
            Some(Node::Directory { .. }) => Err(VfsError::IsADirectory(target)),
            Some(_) => {
                self.drop_key(target.as_str());
                Ok(())
            },
            None => Err(VfsError::NotFound(target)),
        }
    }

    /// Removes every key at or below `target`.
    fn prune_tree(&mut self, target: &str)
        requires
            old(self).wf(),
        ensures
            final(self).wf(),
            final(self)@ == prune(old(self)@, target@),
    {
        let keys = self.nodes.keys();
        let ghost kv = keys@.map_values(|s: String| s@);
        let ghost start = self@;
        let mut i: usize = 0;
        proof {
            old(self).lemma_views();
            assert forall|k: Seq<char>| #[trigger] start.contains_key(k) implies kv.contains(k) by {
                let j = choose|j: int| 0 <= j < keys.len() && #[trigger] keys[j]@ == k;
                assert(kv[j] == k);
            }
        }
        while i < keys.len()
            invariant
                i <= keys.len(),
                kv == keys@.map_values(|s: String| s@),
                self.wf(),
                start == old(self)@,
                forall|k: Seq<char>| #[trigger] start.contains_key(k) ==> kv.contains(k),
                forall|a: int, b: int| 0 <= a < b < keys.len() ==> kv[a] != kv[b],
                self@ == Map::new(
                    |k: Seq<char>|
                        start.contains_key(k) && !(path_starts_with(k, target@) && kv.take(
                            i as int,
                        ).contains(k)),
                    |k: Seq<char>| start[k],
                ),
            decreases keys.len() - i,
        {
            let doomed = path_starts_with_exec(keys[i].as_str(), target);
            let ghost before = self@;
            if doomed {
                self.drop_key(keys[i].as_str());
            }
            proof {
                let key = kv[i as int];
                assert(key == keys[i as int]@);
                let t0 = kv.take(i as int);
                let t1 = kv.take(i + 1);
                assert forall|k: Seq<char>| t1.contains(k) == (t0.contains(k) || k == key) by {
                    if t1.contains(k) {
                        let j = choose|j: int| 0 <= j < t1.len() && #[trigger] t1[j] == k;
                        if j < i {
                            assert(t0[j] == k);
                        }
                    }
                    if t0.contains(k) {
                        let j = choose|j: int| 0 <= j < t0.len() && #[trigger] t0[j] == k;
                        assert(t1[j] == k);
                    }
                    if k == key {
                        assert(t1[i as int] == k);
                    }
                }
                assert(self@ =~= Map::new(
                    |k: Seq<char>|
                        start.contains_key(k) && !(path_starts_with(k, target@) && kv.take(
                            i + 1,
                        ).contains(k)),
                    |k: Seq<char>| start[k],
                ));
            }
            i = i + 1;
        }
        proof {
            assert(kv.take(keys.len() as int) =~= kv);
            assert(self@ =~= prune(old(self)@, target@));
        }
    }

    /// Removes the node at `path` and everything below it.
    pub fn remove_dir_all(&mut self, path: &str) -> (r: Result<(), VfsError>)
        requires
            old(self).wf(),
        ensures
            final(self).wf(),
            match r {
                Ok(()) => remove_tree_target(old(self)@, path@) matches Ok(t) && final(self)@
                    == prune(old(self)@, t),
                Err(e) => remove_tree_target(old(self)@, path@) matches Err(f) && f == e@
                    && *final(self) == *old(self),
            },
    {
        let target = named(path)?;
        proof {
            self.lemma_views();
        }
        if self.nodes.get(target.as_str()).is_none() {
            return Err(VfsError::NotFound(target));
        }
        self.prune_tree(target.as_str());
        Ok(())
    }


    /// Moves the tree at `from` to `to`: whatever was at or below `to` goes first, then every
    /// key at or below `from` is carried over to the same place below `to`.
    pub fn rename(&mut self, from: &str, to: &str) -> (r: Result<(), VfsError>)
        requires
            old(self).wf(),
        ensures
            final(self).wf(),
            match r {
                Ok(()) => rename_ends(old(self)@, from@, to@) matches Ok((s, d)) && renamed(
                    old(self)@,
                    final(self)@,
                    s,
                    d,
                ),
                Err(e) => rename_ends(old(self)@, from@, to@) matches Err(f) && f == e@
                    && *final(self) == *old(self),
            },
    {
        let source = named(from)?;
        let destination = named(to)?;
        proof {
            self.lemma_views();
            lemma_normalize_idempotent(from@);
            lemma_normalize_idempotent(to@);
        }
        if self.nodes.get(source.as_str()).is_none() {
            return Err(VfsError::NotFound(source));
        }
        self.check_parent(destination.as_str())?;
        let ghost m = self@;
        let ghost sv = source@;
        let ghost dv = destination@;
        let keys = self.nodes.keys();
        let ghost kv = keys@.map_values(|x: String| x@);
        proof {
            assert forall|k: Seq<char>| #[trigger] m.contains_key(k) implies kv.contains(k) by {
                let j = choose|j: int| 0 <= j < keys.len() && #[trigger] keys[j]@ == k;
                assert(kv[j] == k);
            }
            assert forall|a: int| 0 <= a < kv.len() implies m.contains_key(#[trigger] kv[a]) by {
                assert(kv[a] == keys[a]@);
            }
        }
        self.prune_tree(destination.as_str());
        if path_starts_with_exec(source.as_str(), destination.as_str()) {
            return Ok(());
        }
        let within = crate::path::is_within(source.as_str(), destination.as_str());
        let ghost exact = !within;
        let ghost pr = prune(m, dv);
        let source_len = normalize_segments(source.as_str()).len();
        let target_segs = normalize_segments(destination.as_str());
        let mut i: usize = 0;
        proof {
            assert(kv.take(0) =~= Seq::<Seq<char>>::empty());
            assert(self@ =~= Map::new(
                |k: Seq<char>|
                    (pr.contains_key(k) && !(path_starts_with(k, sv) && kv.take(0).contains(k))) || (
                    is_normal(k) && path_starts_with(k, dv) && kv.take(0).contains(origin(k, sv, dv))
                        && m.contains_key(origin(k, sv, dv)) && path_starts_with(
                        origin(k, sv, dv),
                        sv,
                    )),
                |k: Seq<char>|
                    if path_starts_with(k, dv) {
                        m[origin(k, sv, dv)]
                    } else {
                        m[k]
                    },
            ));
        }
        proof {
            assert forall|k: Seq<char>|
                !path_starts_with(k, sv) && !path_starts_with(k, dv) implies #[trigger] untouched(
                m,
                self@,
                k,
            ) by {}
            assert(self@.contains_key(sv));
        }
        while i < keys.len()
            invariant
                i <= keys.len(),
                self.wf(),
                kv == keys@.map_values(|x: String| x@),
                forall|k: Seq<char>| #[trigger] m.contains_key(k) ==> kv.contains(k),
                forall|a: int| 0 <= a < kv.len() ==> m.contains_key(#[trigger] kv[a]),
                forall|a: int, b: int| 0 <= a < b < keys.len() ==> kv[a] != kv[b],
                forall|k: Seq<char>| #[trigger] m.contains_key(k) ==> is_normal(k),
                pr == prune(m, dv),
                sv == source@,
                dv == destination@,
                is_normal(sv),
                is_normal(dv),
                !path_starts_with(sv, dv),
                exact == !crate::path::is_within_spec(sv, dv),
                source_len == normalized_segments(sv).len(),
                target_segs.deep_view() == normalized_segments(dv),
                exact ==> self@ == Map::new(
                    |k: Seq<char>|
                        (pr.contains_key(k) && !(path_starts_with(k, sv) && kv.take(
                            i as int,
                        ).contains(k))) || (is_normal(k) && path_starts_with(k, dv) && kv.take(
                            i as int,
                        ).contains(origin(k, sv, dv)) && m.contains_key(origin(k, sv, dv))
                            && path_starts_with(origin(k, sv, dv), sv)),
                    |k: Seq<char>|
                        if path_starts_with(k, dv) {
                            m[origin(k, sv, dv)]
                        } else {
                            m[k]
                        },
                ),
                forall|k: Seq<char>|
                    !path_starts_with(k, sv) && !path_starts_with(k, dv) ==> #[trigger] untouched(
                        m,
                        self@,
                        k,
                    ),
                kv.take(i as int).contains(sv) ==> !self@.contains_key(sv),
                !kv.take(i as int).contains(sv) ==> self@.contains_key(sv),
                forall|k: Seq<char>| #[trigger] self@.contains_key(k) ==> m.contains_key(k)
                    || path_starts_with(k, dv),
                forall|k: Seq<char>|
                    #[trigger] self@.contains_key(k) && path_starts_with(k, sv) && !path_starts_with(
                        k,
                        dv,
                    ) ==> !kv.take(i as int).contains(k),
            decreases keys.len() - i,
        {
            let ghost q = kv[i as int];
            let ghost before = self@;
            let ghost t0 = kv.take(i as int);
            let ghost t1 = kv.take(i + 1);
            proof {
                assert(q == keys[i as int]@);
                assert forall|k: Seq<char>| t1.contains(k) == (t0.contains(k) || k == q) by {
                    if t1.contains(k) {
                        let j = choose|j: int| 0 <= j < t1.len() && #[trigger] t1[j] == k;
                        if j < i {
                            assert(t0[j] == k);
                        }
                    }
                    if t0.contains(k) {
                        let j = choose|j: int| 0 <= j < t0.len() && #[trigger] t0[j] == k;
                        assert(t1[j] == k);
                    }
                    if k == q {
                        assert(t1[i as int] == k);
                    }
                }
                assert(!t0.contains(q)) by {
                    if t0.contains(q) {
                        let j = choose|j: int| 0 <= j < t0.len() && #[trigger] t0[j] == q;
                        assert(kv[j] == kv[i as int]);
                    }
                }
                assert(m.contains_key(q));
            }
            if path_starts_with_exec(keys[i].as_str(), source.as_str()) {
                proof {
                    self.lemma_views();
                }
                let found = self.nodes.get(keys[i].as_str());
                if let Some(node) = found {
                    let moving = node.duplicate();
                    let relocated = relocate_key(keys[i].as_str(), source_len, &target_segs);
                    proof {
                        lemma_relocate(q, sv, dv);
                        assert(relocated@ == relocate(q, sv, dv));
                        if exact {
                            assert(!path_starts_with(q, dv)) by {
                                if path_starts_with(q, dv) {
                                    lemma_comparable(q, sv, dv);
                                }
                            }
                            assert(pr.contains_key(q));
                            assert(before[q] == m[q]);
                        }
                    }
                    self.drop_key(keys[i].as_str());
                    self.put(relocated, moving);
                    proof {
                        let r = relocate(q, sv, dv);
                        if exact {
                            assert(before[q] == moving.entry());
                            assert forall|k: Seq<char>|
                                is_normal(k) && path_starts_with(k, dv) && k != r implies (t1.contains(
                                    origin(k, sv, dv),
                                ) == t0.contains(origin(k, sv, dv))) by {
                                if origin(k, sv, dv) == q {
                                    lemma_origin_injective(k, r, sv, dv);
                                }
                            }
                            assert(self@ =~= Map::new(
                                |k: Seq<char>|
                                    (pr.contains_key(k) && !(path_starts_with(k, sv) && t1.contains(
                                        k,
                                    ))) || (is_normal(k) && path_starts_with(k, dv) && t1.contains(
                                        origin(k, sv, dv),
                                    ) && m.contains_key(origin(k, sv, dv)) && path_starts_with(
                                        origin(k, sv, dv),
                                        sv,
                                    )),
                                |k: Seq<char>|
                                    if path_starts_with(k, dv) {
                                        m[origin(k, sv, dv)]
                                    } else {
                                        m[k]
                                    },
                            ));
                        }
                        assert(r != sv) by {
                            if r == sv {
                                assert(path_starts_with(sv, dv));
                            }
                        }
                        assert forall|k: Seq<char>|
                            !path_starts_with(k, sv) && !path_starts_with(k, dv) implies #[trigger] untouched(
                            m,
                            self@,
                            k,
                        ) by {
                            assert(untouched(m, before, k));
                            assert(k != q);
                            assert(k != r);
                        }
                        assert forall|k: Seq<char>| #[trigger] self@.contains_key(k) implies m.contains_key(k)
                            || path_starts_with(k, dv) by {
                            if k != r {
                                assert(before.contains_key(k));
                            }
                        }
                        assert forall|k: Seq<char>|
                            #[trigger] self@.contains_key(k) && path_starts_with(k, sv) && !path_starts_with(
                                k,
                                dv,
                            ) implies !t1.contains(k) by {
                            assert(k != r);
                            assert(k != q);
                            assert(before.contains_key(k));
                        }
                    }
                } else {
                    proof {
                        if exact {
                            assert(!path_starts_with(q, dv)) by {
                                if path_starts_with(q, dv) {
                                    lemma_comparable(q, sv, dv);
                                }
                            }
                            assert(pr.contains_key(q));
                            assert(before.contains_key(q));
                            assert(false);
                        }
                        assert(q != sv) by {
                            if q == sv {
                                assert(before.contains_key(q));
                            }
                        }
                    }
                }
            } else {
                proof {
                    assert(normalized_segments(sv).take(normalized_segments(sv).len() as int)
                        =~= normalized_segments(sv));
                    assert(q != sv);
                    if exact {
                        assert forall|k: Seq<char>| path_starts_with(k, dv) implies (t1.contains(
                            origin(k, sv, dv),
                        ) == t0.contains(origin(k, sv, dv))) by {
                            lemma_origin(k, sv, dv);
                        }
                        assert(self@ =~= Map::new(
                            |k: Seq<char>|
                                (pr.contains_key(k) && !(path_starts_with(k, sv) && t1.contains(k)))
                                    || (is_normal(k) && path_starts_with(k, dv) && t1.contains(
                                    origin(k, sv, dv),
                                ) && m.contains_key(origin(k, sv, dv)) && path_starts_with(
                                    origin(k, sv, dv),
                                    sv,
                                )),
                            |k: Seq<char>|
                                if path_starts_with(k, dv) {
                                    m[origin(k, sv, dv)]
                                } else {
                                    m[k]
                                },
                        ));
                    }
                }
            }
            i = i + 1;
        }
        proof {
            assert(kv.take(keys.len() as int) =~= kv);
            if exact {
                assert forall|k: Seq<char>| path_starts_with(k, dv) && m.contains_key(
                    origin(k, sv, dv),
                ) implies kv.contains(origin(k, sv, dv)) by {}
                assert(self@ =~= moved_tree(m, sv, dv));
            } else {
                assert(kv.contains(sv));
                assert forall|k: Seq<char>| #[trigger] self@.contains_key(k) && path_starts_with(k, sv)
                    implies path_starts_with(k, dv) by {
                    if !path_starts_with(k, dv) {
                        assert(m.contains_key(k));
                        assert(kv.contains(k));
                    }
                }
            }
        }
        Ok(())
    }


    /// The direct children of the directory `path` leads to, by name.
    pub fn read_dir(&self, path: &str) -> (r: Result<Vec<VfsDirEntry>, VfsError>)
        requires
            self.wf(),
        ensures
            match r {
                Ok(entries) => listed_dir(self@, path@) matches Ok(dir) && lists_children(
                    entries@,
                    self@,
                    dir,
                ),
                Err(e) => listed_dir(self@, path@) matches Err(f) && f == e@,
            },
    {
        let (resolved, node) = self.resolve(path, true)?;
        match node {
            Node::Directory { .. } => {},
            _ => {
                return Err(VfsError::NotADirectory(resolved));
            },
        }
        let (found, ghost_keys) = self.children_of(&resolved);
        let ghost gk = ghost_keys@;
        let ghost m = self@;
        let ghost dir = resolved@;
        let (out, from, to) = sort_by_name(found);
        proof {
            assert forall|i: int| #![trigger out[i]] 0 <= i < out.len() implies exists|k: Seq<char>|
                #[trigger] m.contains_key(k) && child_name(dir, k) == Some(out[i].name@) && kind_of(
                    m[k],
                ) == out[i].kind by {
                let a = from@[i];
                assert(m.contains_key(gk[a]));
            }
            assert forall|k: Seq<char>| #[trigger] m.contains_key(k) && child_name(dir, k) is Some implies exists|
                i: int,
            | 0 <= i < out.len() && Some(#[trigger] out[i].name@) == child_name(dir, k) by {
                let a = choose|a: int| 0 <= a < gk.len() && gk[a] == k;
                let i = to@[a];
                assert(from@[i] == a);
                assert(Some(out[i].name@) == child_name(dir, k));
            }
        }
        Ok(out)
    }


    /// The direct children of the directory `resolved` (a key of the table), each with the key
    /// it came from.
    fn children_of(&self, resolved: &String) -> (r: (Vec<(Vec<char>, VfsKind)>, Ghost<Seq<Seq<char>>>))
        requires
            self.wf(),
            self@.contains_key(resolved@),
        ensures
            r.1@.len() == r.0.len(),
            forall|a: int|
                0 <= a < r.0.len() ==> self@.contains_key(#[trigger] r.1@[a]) && child_name(
                    resolved@,
                    r.1@[a],
                ) == Some(r.0[a].0@) && kind_of(self@[r.1@[a]]) == r.0[a].1,
            forall|k: Seq<char>|
                #[trigger] self@.contains_key(k) && child_name(resolved@, k) is Some ==> exists|a: int|
                    0 <= a < r.1@.len() && r.1@[a] == k,
            forall|a: int, b: int| 0 <= a < b < r.0.len() ==> r.0[a].0@ != r.0[b].0@,
    {
        let ghost m = self@;
        let ghost dir = resolved@;
        let psegs = normalize_segments(resolved.as_str());
        let keys = self.nodes.keys();
        let ghost kv = keys@.map_values(|x: String| x@);
        proof {
            self.lemma_views();
            assert forall|k: Seq<char>| #[trigger] m.contains_key(k) implies kv.contains(k) by {
                let j = choose|j: int| 0 <= j < keys.len() && #[trigger] keys[j]@ == k;
                assert(kv[j] == k);
            }
            assert forall|a: int| 0 <= a < kv.len() implies m.contains_key(#[trigger] kv[a]) by {
                assert(kv[a] == keys[a]@);
            }
        }
        let mut found: Vec<(Vec<char>, VfsKind)> = Vec::new();
        let ghost mut src: Seq<int> = Seq::empty();
        let mut i: usize = 0;
        while i < keys.len()
            invariant
                i <= keys.len(),
                self.wf(),
                m == self@,
                self@.dom() == node_table_entries(self.nodes).dom(),
                forall|k: Seq<char>|
                    #[trigger] node_table_entries(self.nodes).contains_key(k) ==> self@[k]
                        == node_table_entries(self.nodes)[k].entry(),
                kv == keys@.map_values(|x: String| x@),
                forall|a: int| 0 <= a < kv.len() ==> m.contains_key(#[trigger] kv[a]),
                forall|a: int, b: int| 0 <= a < b < keys.len() ==> kv[a] != kv[b],
                psegs.deep_view() == normalized_segments(dir),
                src.len() == found.len(),
                forall|a: int|
                    0 <= a < found.len() ==> 0 <= #[trigger] src[a] < i && child_name(dir, kv[src[a]])
                        == Some(found[a].0@) && kind_of(m[kv[src[a]]]) == found[a].1,
                forall|a: int, b: int| 0 <= a < b < found.len() ==> src[a] < src[b],
                forall|a: int, b: int| 0 <= a < b < found.len() ==> found[a].0@ != found[b].0@,
                forall|j: int|
                    0 <= j < i && child_name(dir, #[trigger] kv[j]) is Some ==> exists|a: int|
                        0 <= a < found.len() && src[a] == j,
            decreases keys.len() - i,
        {
            let ksegs = normalize_segments(keys[i].as_str());
            proof {
                assert(kv[i as int] == keys[i as int]@);
            }
            if ksegs.len() > 0 && ksegs.len() - 1 == psegs.len() && crate::path::segments_prefix(
                &psegs,
                &ksegs,
            ) {
                let name = ksegs[ksegs.len() - 1].clone();
                proof {
                    assert(name@ =~= ksegs[ksegs.len() - 1]@);
                    assert(child_name(dir, kv[i as int]) == Some(name@));
                }
                if let Some(n) = self.nodes.get(keys[i].as_str()) {
                    let kind = n.kind();
                    let ghost before_src = src;
                    let ghost before_found = found@;
                    proof {
                        assert forall|a: int| 0 <= a < before_found.len() implies before_found[a].0@
                            != name@ by {
                            if before_found[a].0@ == name@ {
                                lemma_child_injective(dir, kv[src[a]], kv[i as int]);
                            }
                        }
                    }
                    found.push((name, kind));
                    proof {
                        src = src.push(i as int);
                        assert forall|a: int, b: int| 0 <= a < b < found.len() implies found[a].0@
                            != found[b].0@ by {
                            if b == found.len() - 1 {
                                assert(found[a] == before_found[a]);
                            } else {
                                assert(found[a] == before_found[a]);
                                assert(found[b] == before_found[b]);
                            }
                        }
                        assert forall|j: int|
                            0 <= j < i + 1 && child_name(dir, #[trigger] kv[j]) is Some implies exists|
                            a: int,
                        | 0 <= a < found.len() && src[a] == j by {
                            if j < i {
                                let a = choose|a: int| 0 <= a < before_src.len() && before_src[a] == j;
                                assert(src[a] == j);
                            } else {
                                assert(src[src.len() - 1] == j);
                            }
                        }
                    }
                }
            }
            i = i + 1;
        }
        let ghost gk = src.map_values(|j: int| kv[j]);
        proof {
            assert forall|k: Seq<char>| #[trigger] m.contains_key(k) && child_name(dir, k) is Some implies exists|
                a: int,
            | 0 <= a < gk.len() && gk[a] == k by {
                let j = choose|j: int| 0 <= j < kv.len() && kv[j] == k;
                let a = choose|a: int| 0 <= a < found.len() && src[a] == j;
                assert(gk[a] == k);
            }
        }
        (found, Ghost(gk))
    }


    /// The text of the file `path` leads to.
    pub fn read_to_string(&self, path: &str) -> (r: Result<String, VfsError>)
        requires
            self.wf(),
        ensures
            match r {
                Ok(t) => read_text_spec(self@, path@) matches Ok(x) && x == t@,
                Err(e) => read_text_spec(self@, path@) matches Err(f) && f == e@,
            },
    {
        let bytes = self.read(path)?;
        match crate::text::utf8_text(bytes) {
            Some(text) => Ok(text),
            None => Err(VfsError::InvalidUtf8(String::from_str(path))),
        }
    }

    /// Places a symbolic link at `link` that records `target` as given.
    pub fn symlink(&mut self, target: &str, link: &str) -> (r: Result<(), VfsError>)
        requires
            old(self).wf(),
        ensures
            final(self).wf(),
            match r {
                Ok(()) => link_location(old(self)@, link@) matches Ok(t) && final(self)@
                    == old(self)@.insert(t, Entry::Symlink(target@)),
                Err(e) => link_location(old(self)@, link@) matches Err(f) && f == e@
                    && *final(self) == *old(self),
            },
    {
        let location = named(link)?;
        self.check_parent(location.as_str())?;
        proof {
            lemma_normalize_idempotent(link@);
        }
        self.put(location, Node::Symlink { target: String::from_str(target), modified: now() });
        Ok(())
    }

    /// Records `time` as the modification time of the node at `path` (without following a link).
    pub fn set_modified(&mut self, path: &str, time: SystemTime) -> (r: Result<(), VfsError>)
        requires
            old(self).wf(),
        ensures
            final(self).wf(),
            match r {
                Ok(()) => stamp_target(old(self)@, path@) matches Ok(t) && final(self)@
                    == old(self)@ && final(self).times() == old(self).times().insert(t, time),
                Err(e) => stamp_target(old(self)@, path@) matches Err(f) && f == e@
                    && *final(self) == *old(self),
            },
    {
        let target = named(path)?;
        proof {
            self.lemma_views();
            lemma_normalize_idempotent(path@);
        }
        let restamped = match self.nodes.get(target.as_str()) {
            None => {
                return Err(VfsError::NotFound(target));
            },
            Some(Node::File { data, .. }) => {
                let copy = data.clone();
                assert(copy@ =~= data@);
                Node::File { data: copy, modified: time }
            },
            Some(Node::Directory { .. }) => Node::Directory { modified: time },
            Some(Node::Symlink { target: to, .. }) => Node::Symlink {
                target: to.clone(),
                modified: time,
            },
        };
        let ghost before = self@;
        self.put(target, restamped);
        proof {
            assert(self@ =~= before);
        }
        Ok(())
    }

    fn require_directory(&self, path: &str) -> (r: Result<(), VfsError>)
        requires
            self.wf(),
        ensures
            match r {
                Ok(()) => require_directory_spec(self@, path@) is Ok,
                Err(e) => require_directory_spec(self@, path@) matches Err(f) && f == e@,
            },
    {
        match self.resolve(path, true) {
            Ok((_, Node::Directory { .. })) => Ok(()),
            Ok((resolved, _)) => Err(VfsError::NotADirectory(resolved)),
            Err(e) => Err(e),
        }
    }

    fn check_parent(&self, target: &str) -> (r: Result<(), VfsError>)
        requires
            self.wf(),
        ensures
            match r {
                Ok(()) => parent_check(self@, target@) is Ok,
                Err(e) => parent_check(self@, target@) matches Err(f) && f == e@,
            },
    {
        match parent_of(target) {
            Some(parent) => self.require_directory(parent.as_str()),
            None => Ok(()),
        }
    }
}


/// The key below `d` that `key` (which lies below the source, whose depth is `source_len`)
/// moves to.
fn relocate_key(key: &str, source_len: usize, target_segs: &Vec<Vec<char>>) -> (r: String)
    requires
        source_len <= normalized_segments(key@).len(),
    ensures
        r@ == render(target_segs.deep_view() + normalized_segments(key@).skip(source_len as int)),
{
    let segs = normalize_segments(key);
    let mut out: Vec<Vec<char>> = Vec::new();
    let mut i: usize = 0;
    while i < target_segs.len()
        invariant
            i <= target_segs.len(),
            out.deep_view() == target_segs.deep_view().take(i as int),
        decreases target_segs.len() - i,
    {
        let piece = target_segs[i].clone();
        assert(piece@ =~= target_segs[i as int]@);
        let ghost pv = piece@;
        assert(piece.deep_view() =~= pv);
        let ghost before = out.deep_view();
        out.push(piece);
        assert(out.deep_view() =~= before.push(pv));
        assert(out.deep_view() =~= target_segs.deep_view().take(i + 1));
        i = i + 1;
    }
    let mut j: usize = source_len;
    let ghost base = out.deep_view();
    assert(target_segs.deep_view().take(target_segs.len() as int) =~= target_segs.deep_view());
    while j < segs.len()
        invariant
            source_len <= j <= segs.len(),
            segs.deep_view() == normalized_segments(key@),
            base == target_segs.deep_view(),
            out.deep_view() == base + segs.deep_view().subrange(source_len as int, j as int),
        decreases segs.len() - j,
    {
        let piece = segs[j].clone();
        assert(piece@ =~= segs[j as int]@);
        let ghost pv = piece@;
        assert(piece.deep_view() =~= pv);
        let ghost before = out.deep_view();
        out.push(piece);
        assert(out.deep_view() =~= before.push(pv));
        assert(out.deep_view() =~= base + segs.deep_view().subrange(source_len as int, j + 1));
        j = j + 1;
    }
    assert(segs.deep_view().subrange(source_len as int, segs.len() as int) =~= segs.deep_view().skip(
        source_len as int,
    ));
    render_segments(&out)
}


/// The entries, ordered by name (names are distinct), with where each came from and
/// where each went.
fn sort_by_name(found: Vec<(Vec<char>, VfsKind)>) -> (r: (Vec<VfsDirEntry>, Ghost<Seq<int>>, Ghost<Seq<int>>))
    requires
        forall|a: int, b: int| 0 <= a < b < found.len() ==> found[a].0@ != found[b].0@,
    ensures
        forall|i: int, j: int|
            0 <= i < j < r.0.len() ==> crate::text::chars_lt(
                #[trigger] r.0[i].name@,
                #[trigger] r.0[j].name@,
            ),
        r.1@.len() == r.0.len(),
        forall|i: int|
            0 <= i < r.0.len() ==> 0 <= #[trigger] r.1@[i] < found.len() && r.0[i].name@
                == found@[r.1@[i]].0@ && r.0[i].kind == found@[r.1@[i]].1,
        r.2@.len() == found.len(),
        forall|b: int|
            0 <= b < found.len() ==> 0 <= #[trigger] r.2@[b] < r.0.len() && r.1@[r.2@[b]] == b,
{
    let ghost orig = found@;
    let ghost n = found@.len();
    let mut rest = found;
    let mut out: Vec<VfsDirEntry> = Vec::new();
    let ghost mut rest_src: Seq<int> = Seq::new(n as nat, |a: int| a);
    let ghost mut out_src: Seq<int> = Seq::empty();
    let ghost mut placed: Seq<bool> = Seq::new(n as nat, |b: int| false);
    let ghost mut at: Seq<int> = Seq::new(n as nat, |b: int| b);
    while rest.len() > 0
        invariant
            forall|a: int, b: int| 0 <= a < b < rest.len() ==> rest[a].0@ != rest[b].0@,
            forall|i: int, j: int|
                0 <= i < j < out.len() ==> crate::text::chars_lt(
                    #[trigger] out[i].name@,
                    #[trigger] out[j].name@,
                ),
            forall|i: int, a: int|
                0 <= i < out.len() && 0 <= a < rest.len() ==> crate::text::chars_lt(
                    #[trigger] out[i].name@,
                    #[trigger] rest@[a].0@,
                ),
            n == orig.len(),
            rest_src.len() == rest.len(),
            forall|a: int|
                0 <= a < rest.len() ==> 0 <= #[trigger] rest_src[a] < n && rest@[a]
                    == orig[rest_src[a]],
            out_src.len() == out.len(),
            forall|i: int|
                0 <= i < out.len() ==> 0 <= #[trigger] out_src[i] < n && out[i].name@
                    == orig[out_src[i]].0@ && out[i].kind == orig[out_src[i]].1,
            placed.len() == n,
            at.len() == n,
            forall|b: int|
                0 <= b < n ==> if #[trigger] placed[b] {
                    0 <= at[b] < out.len() && out_src[at[b]] == b
                } else {
                    0 <= at[b] < rest.len() && rest_src[at[b]] == b
                },
        decreases rest.len(),
    {
        let mut best: usize = 0;
        let mut t: usize = 1;
        proof {
            crate::text::lemma_chars_lt_irreflexive(rest[0].0@);
        }
        while t < rest.len()
            invariant
                0 <= best < rest.len(),
                1 <= t <= rest.len(),
                forall|u: int|
                    0 <= u < t ==> !crate::text::chars_lt(#[trigger] rest[u].0@, rest[best as int].0@),
            decreases rest.len() - t,
        {
            if crate::text::chars_less(&rest[t].0, &rest[best].0) {
                proof {
                    assert forall|u: int| 0 <= u < t + 1 implies !crate::text::chars_lt(
                        #[trigger] rest[u].0@,
                        rest[t as int].0@,
                    ) by {
                        if u == t {
                            crate::text::lemma_chars_lt_irreflexive(rest[t as int].0@);
                        } else if crate::text::chars_lt(rest[u].0@, rest[t as int].0@) {
                            crate::text::lemma_chars_lt_transitive(
                                rest[u].0@,
                                rest[t as int].0@,
                                rest[best as int].0@,
                            );
                        }
                    }
                }
                best = t;
            }
            t = t + 1;
        }
        proof {
            assert forall|u: int| 0 <= u < rest.len() && u != best implies crate::text::chars_lt(
                rest[best as int].0@,
                #[trigger] rest[u].0@,
            ) by {
                crate::text::lemma_chars_lt_total(rest[best as int].0@, rest[u].0@);
            }
        }
        let ghost before = rest@;
        let ghost before_out = out@;
        let ghost chosen = rest_src[best as int];
        let (name_chars, kind) = rest.remove(best);
        let name = crate::text::string_of(&name_chars);
        out.push(VfsDirEntry { name, kind });
        proof {
            let k = before_out.len() as int;
            let old_rest_src = rest_src;
            let old_at = at;
            let old_placed = placed;
            rest_src = old_rest_src.remove(best as int);
            out_src = out_src.push(chosen);
            placed = old_placed.update(chosen, true);
            at = Seq::new(
                n as nat,
                |b: int|
                    if b == chosen {
                        k
                    } else if !old_placed[b] && old_at[b] > best {
                        old_at[b] - 1
                    } else {
                        old_at[b]
                    },
            );
            assert forall|a: int| 0 <= a < rest.len() implies #[trigger] rest@[a] == (if a < best {
                before[a]
            } else {
                before[a + 1]
            }) by {}
            assert forall|i: int, a: int|
                0 <= i < out.len() && 0 <= a < rest.len() implies crate::text::chars_lt(
                #[trigger] out[i].name@,
                #[trigger] rest@[a].0@,
            ) by {
                if i < k {
                    assert(out[i] == before_out[i]);
                }
            }
            assert forall|b: int| 0 <= b < n implies if #[trigger] placed[b] {
                0 <= at[b] < out.len() && out_src[at[b]] == b
            } else {
                0 <= at[b] < rest.len() && rest_src[at[b]] == b
            } by {
                if b != chosen && !old_placed[b] {
                    assert(old_at[b] != best);
                }
            }
        }
    }
    proof {
        assert forall|b: int| 0 <= b < found.len() implies 0 <= #[trigger] at[b] < out.len()
            && out_src[at[b]] == b by {
            assert(b < n);
            if !placed[b] {
                assert(0 <= at[b] < rest.len());
                assert(false);
            }
            assert(0 <= at[b] < out.len() && out_src[at[b]] == b);
        }
    }
    (out, Ghost(out_src), Ghost(at))
}

/// The normalised path a call names; the empty path is not found.
fn named(path: &str) -> (r: Result<String, VfsError>)
    ensures
        match r {
            Ok(p) => named_spec(path@) matches Ok(x) && x == p@,
            Err(e) => named_spec(path@) matches Err(f) && f == e@,
        },
{
    if path.is_empty() {
        return Err(not_found(path));
    }
    Ok(normalize(path))
}

} // verus!

verus! {

/// What a write stores is what a read of the same path gives back.
pub proof fn law_read_after_write(m: Contents, path: Seq<char>, data: Seq<u8>)
    requires
        write_target(m, path) is Ok,
    ensures
        read_spec(m.insert(write_target(m, path)->Ok_0, Entry::File(data)), path) matches Ok(x) && x == data,
{
    let t = write_target(m, path)->Ok_0;
    let m2 = m.insert(t, Entry::File(data));
    assert(named_spec(path) == Ok::<Seq<char>, Fault>(t));
    assert(resolve_from(m2, t, true, SYMLINK_HOP_LIMIT as nat, path) == Ok::<(Seq<char>, Entry), Fault>((t, Entry::File(data))));
}

/// After `remove_file`, the path names nothing.
pub proof fn law_removed_file_is_gone(m: Contents, path: Seq<char>)
    requires
        remove_file_target(m, path) is Ok,
    ensures
        resolve_spec(m.remove(remove_file_target(m, path)->Ok_0), path, false) matches Err(f) && f
            == Fault::NotFound(remove_file_target(m, path)->Ok_0),
{
    let t = remove_file_target(m, path)->Ok_0;
    assert(named_spec(path) == Ok::<Seq<char>, Fault>(t));
    assert(resolve_from(m.remove(t), t, false, SYMLINK_HOP_LIMIT as nat, path) == Err::<(Seq<char>, Entry), Fault>(Fault::NotFound(t)));
}

/// After `remove_dir_all`, nothing at or below the removed path remains, and everything
/// else does.
pub proof fn law_pruned_tree_is_gone(m: Contents, t: Seq<char>, k: Seq<char>)
    ensures
        path_starts_with(k, t) ==> !prune(m, t).contains_key(k),
        !path_starts_with(k, t) ==> untouched(m, prune(m, t), k),
{
}

/// After a rename that moves a tree (neither end within the other), everything that lay at
/// or below the source lies at the same place below the destination, and nothing remains
/// at the source.
pub proof fn law_rename_moves_the_tree(m: Contents, s: Seq<char>, d: Seq<char>, k: Seq<char>)
    requires
        !path_starts_with(s, d),
        !crate::path::is_within_spec(s, d),
        is_normal(k),
        m.contains_key(k),
        path_starts_with(k, s),
    ensures
        moved_tree(m, s, d).contains_key(relocate(k, s, d)),
        moved_tree(m, s, d)[relocate(k, s, d)] == m[k],
        !moved_tree(m, s, d).contains_key(k),
{
    lemma_relocate(k, s, d);
    if path_starts_with(k, d) {
        lemma_comparable(k, s, d);
    }
}

/// Creating a directory tree leaves every directory on the path in place.
pub proof fn law_created_dirs_exist(m: Contents, segs: Seq<Seq<char>>, n: nat, j: nat)
    requires
        mkdirs(m, segs, n).1 is None,
        1 <= j <= n,
    ensures
        mkdirs(m, segs, n).0.contains_key(render(segs.take(j as int))),
        mkdirs(m, segs, n).0[render(segs.take(j as int))] is Directory,
    decreases n,
{
    if n > j {
        let (m1, e) = mkdirs(m, segs, (n - 1) as nat);
        if e is Some {
            lemma_mkdirs_stuck(m, segs, (n - 1) as nat, n);
        } else {
            law_created_dirs_exist(m, segs, (n - 1) as nat, j);
        }
    }
}

} // verus!
