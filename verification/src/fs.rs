//! The `std::fs` surface of the virtual filesystem: free functions over a `MemoryFs`,
//! directory listings, and file handles that buffer their contents.
use vstd::prelude::*;
use web_time::SystemTime;

use crate::error::{not_found, unsupported, Fault, VfsError};
use crate::memory::{
    child_name, kind_of, len_of, link_location, listed_dir, read_link_spec, read_spec,
    read_text_spec, remove_file_target, remove_tree_target, rename_ends, resolve_spec,
    write_target, create_dir_all_spec, Contents, MemoryFs, VfsKind, VfsMetadata,
};
use crate::path::{join, join_spec, normalize, normalize_spec};

verus! {

/// The mode a file reports.
pub const FILE_MODE: u32 = 0o644;

/// The mode a directory reports.
pub const DIRECTORY_MODE: u32 = 0o755;

/// What `metadata` reports of a path.
#[derive(Debug, Clone, Copy)]
pub struct Metadata {
    inner: VfsMetadata,
}

impl View for Metadata {
    type V = VfsMetadata;

    closed spec fn view(&self) -> VfsMetadata {
        self.inner
    }
}

impl Metadata {
    /// The metadata that wraps `inner`.
    pub fn from_vfs(inner: VfsMetadata) -> (m: Metadata)
        ensures
            m@ == inner,
    {
        Metadata { inner }
    }

    pub fn is_file(&self) -> (r: bool)
        ensures
            r == (self@.kind == VfsKind::File),
    {
        self.inner.is_file()
    }

    pub fn is_dir(&self) -> (r: bool)
        ensures
            r == (self@.kind == VfsKind::Directory),
    {
        self.inner.is_dir()
    }

    pub fn is_symlink(&self) -> (r: bool)
        ensures
            r == (self@.kind == VfsKind::Symlink),
    {
        self.inner.is_symlink()
    }

    pub fn len(&self) -> (n: u64)
        ensures
            n == self@.len,
    {
        self.inner.len
    }

    pub fn is_empty(&self) -> (r: bool)
        ensures
            r == (self@.len == 0),
    {
        self.inner.len == 0
    }

    /// The recorded modification time; always available.
    pub fn modified(&self) -> (r: Result<SystemTime, VfsError>)
        ensures
            r matches Ok(t) && t == self@.modified,
    {
        Ok(self.inner.modified)
    }

    /// Creation times are not recorded.
    pub fn created(&self) -> (r: Result<SystemTime, VfsError>)
        ensures
            r matches Err(e) && e@ == Fault::CreationTimeUnrecorded,
    {
        Err(VfsError::CreationTimeUnrecorded)
    }

    /// Writable permissions: `0o755` for a directory, `0o644` for anything else.
    pub fn permissions(&self) -> (p: Permissions)
        ensures
            p@ == (false, if self@.kind == VfsKind::Directory {
                DIRECTORY_MODE
            } else {
                FILE_MODE
            }),
    {
        let mode = if self.inner.is_dir() {
            DIRECTORY_MODE
        } else {
            FILE_MODE
        };
        Permissions { readonly: false, mode }
    }

    pub fn file_type(&self) -> (t: FileType)
        ensures
            t@ == self@.kind,
    {
        FileType { kind: self.inner.kind }
    }
}

/// The kind of a path, as `std::fs::FileType` reports it.
#[derive(Debug, Clone, Copy, PartialEq, Eq, Structural)]
pub struct FileType {
    kind: VfsKind,
}

impl View for FileType {
    type V = VfsKind;

    closed spec fn view(&self) -> VfsKind {
        self.kind
    }
}

impl FileType {
    pub fn is_file(&self) -> (r: bool)
        ensures
            r == (self@ == VfsKind::File),
    {
        self.kind == VfsKind::File
    }

    pub fn is_dir(&self) -> (r: bool)
        ensures
            r == (self@ == VfsKind::Directory),
    {
        self.kind == VfsKind::Directory
    }

    pub fn is_symlink(&self) -> (r: bool)
        ensures
            r == (self@ == VfsKind::Symlink),
    {
        self.kind == VfsKind::Symlink
    }
}

/// Permissions as a handle remembers them: the read-only flag and a POSIX mode.
#[derive(Debug, Clone, Copy, PartialEq, Eq, Structural)]
pub struct Permissions {
    readonly: bool,
    mode: u32,
}

impl View for Permissions {
    type V = (bool, u32);

    closed spec fn view(&self) -> (bool, u32) {
        (self.readonly, self.mode)
    }
}

impl Permissions {
    pub fn readonly(&self) -> (r: bool)
        ensures
            r == self@.0,
    {
        self.readonly
    }

    pub fn set_readonly(&mut self, readonly: bool)
        ensures
            final(self)@ == (readonly, old(self)@.1),
    {
        self.readonly = readonly;
    }

    pub fn mode(&self) -> (m: u32)
        ensures
            m == self@.1,
    {
        self.mode
    }

    pub fn set_mode(&mut self, mode: u32)
        ensures
            final(self)@ == (old(self)@.0, mode),
    {
        self.mode = mode;
    }
}

/// What a directory entry records: its full path, its name and its kind.
pub struct DirEntryView {
    pub path: Seq<char>,
    pub name: Seq<char>,
    pub kind: VfsKind,
}

/// One entry of a directory listing.
#[derive(Debug)]
pub struct DirEntry {
    path: String,
    name: String,
    kind: VfsKind,
}

impl View for DirEntry {
    type V = DirEntryView;

    closed spec fn view(&self) -> DirEntryView {
        DirEntryView { path: self.path@, name: self.name@, kind: self.kind }
    }
}

impl DirEntry {
    /// The normalised path of the entry.
    pub fn path(&self) -> (p: String)
        ensures
            p@ == self@.path,
    {
        self.path.clone()
    }

    /// The name of the entry within its directory.
    pub fn file_name(&self) -> (n: String)
        ensures
            n@ == self@.name,
    {
        self.name.clone()
    }

    /// The kind of the entry, as the listing recorded it.
    pub fn file_type(&self) -> (r: Result<FileType, VfsError>)
        ensures
            r matches Ok(t) && t@ == self@.kind,
    {
        Ok(FileType { kind: self.kind })
    }

    /// What the entry's path leads to now.
    pub fn metadata(&self, fs: &MemoryFs) -> (r: Result<Metadata, VfsError>)
        requires
            fs.wf(),
        ensures
            reports(r, *fs, self@.path, true),
    {
        metadata(fs, self.path.as_str())
    }
}

/// The entries of a directory listing not yet taken.
#[derive(Debug)]
pub struct ReadDir {
    entries: Vec<DirEntry>,
}

impl View for ReadDir {
    type V = Seq<DirEntryView>;

    closed spec fn view(&self) -> Seq<DirEntryView> {
        self.entries@.map_values(|e: DirEntry| e@)
    }
}

impl ReadDir {
    /// The next entry, in name order; `None` once the listing is exhausted.
    pub fn next(&mut self) -> (r: Option<Result<DirEntry, VfsError>>)
        ensures
            old(self)@.len() == 0 ==> r is None && final(self)@ == old(self)@,
            old(self)@.len() > 0 ==> (r matches Some(Ok(e)) && e@ == old(self)@[0] && final(self)@
                == old(self)@.drop_first()),
    {
        if self.entries.len() == 0 {
            return None;
        }
        let ghost before = self.entries@;
        let e = self.entries.remove(0);
        proof {
            assert(self@ =~= old(self)@.drop_first());
        }
        Some(Ok(e))
    }
}

/// `r` is what a lookup of `path` (following links when `follow` is set) reports.
pub open spec fn reports(
    r: Result<Metadata, VfsError>,
    fs: MemoryFs,
    path: Seq<char>,
    follow: bool,
) -> bool {
    match (r, resolve_spec(fs@, path, follow)) {
        (Ok(m), Ok((k, e))) => m@.kind == kind_of(e) && m@.len == len_of(e) && m@.modified
            == fs.times()[k],
        (Err(err), Err(f)) => err@ == f,
        _ => false,
    }
}

/// The bytes of the file `path` leads to.
pub fn read(fs: &MemoryFs, path: &str) -> (r: Result<Vec<u8>, VfsError>)
    requires
        fs.wf(),
    ensures
        match r {
            Ok(d) => read_spec(fs@, path@) matches Ok(x) && x == d@,
            Err(e) => read_spec(fs@, path@) matches Err(f) && f == e@,
        },
{
    fs.read(path)
}

/// The text of the file `path` leads to.
pub fn read_to_string(fs: &MemoryFs, path: &str) -> (r: Result<String, VfsError>)
    requires
        fs.wf(),
    ensures
        match r {
            Ok(t) => read_text_spec(fs@, path@) matches Ok(x) && x == t@,
            Err(e) => read_text_spec(fs@, path@) matches Err(f) && f == e@,
        },
{
    fs.read_to_string(path)
}

/// Stores `contents` as the file at `path`.
pub fn write(fs: &mut MemoryFs, path: &str, contents: &[u8]) -> (r: Result<(), VfsError>)
    requires
        old(fs).wf(),
    ensures
        final(fs).wf(),
        match r {
            Ok(()) => write_target(old(fs)@, path@) matches Ok(t) && final(fs)@ == old(fs)@.insert(
                t,
                crate::memory::Entry::File(contents@),
            ),
            Err(e) => write_target(old(fs)@, path@) matches Err(f) && f == e@ && *final(fs)
                == *old(fs),
        },
{
    fs.write(path, contents)
}

/// Creates the directory at `path` and its missing ancestors.
pub fn create_dir(fs: &mut MemoryFs, path: &str) -> (r: Result<(), VfsError>)
    requires
        old(fs).wf(),
    ensures
        final(fs).wf(),
        final(fs)@ == create_dir_all_spec(old(fs)@, path@).0,
        match r {
            Ok(()) => create_dir_all_spec(old(fs)@, path@).1 is None,
            Err(e) => create_dir_all_spec(old(fs)@, path@).1 == Some(e@),
        },
{
    fs.create_dir_all(path)
}

/// Creates the directory at `path` and its missing ancestors.
pub fn create_dir_all(fs: &mut MemoryFs, path: &str) -> (r: Result<(), VfsError>)
    requires
        old(fs).wf(),
    ensures
        final(fs).wf(),
        final(fs)@ == create_dir_all_spec(old(fs)@, path@).0,
        match r {
            Ok(()) => create_dir_all_spec(old(fs)@, path@).1 is None,
            Err(e) => create_dir_all_spec(old(fs)@, path@).1 == Some(e@),
        },
{
    fs.create_dir_all(path)
}

/// Removes the tree at `path`.
pub fn remove_dir(fs: &mut MemoryFs, path: &str) -> (r: Result<(), VfsError>)
    requires
        old(fs).wf(),
    ensures
        final(fs).wf(),
        match r {
            Ok(()) => remove_tree_target(old(fs)@, path@) matches Ok(t) && final(fs)@
                == crate::memory::prune(old(fs)@, t),
            Err(e) => remove_tree_target(old(fs)@, path@) matches Err(f) && f == e@ && *final(fs)
                == *old(fs),
        },
{
    fs.remove_dir_all(path)
}

/// Removes the tree at `path`.
pub fn remove_dir_all(fs: &mut MemoryFs, path: &str) -> (r: Result<(), VfsError>)
    requires
        old(fs).wf(),
    ensures
        final(fs).wf(),
        match r {
            Ok(()) => remove_tree_target(old(fs)@, path@) matches Ok(t) && final(fs)@
                == crate::memory::prune(old(fs)@, t),
            Err(e) => remove_tree_target(old(fs)@, path@) matches Err(f) && f == e@ && *final(fs)
                == *old(fs),
        },
{
    fs.remove_dir_all(path)
}

/// Removes the file or link at `path`.
pub fn remove_file(fs: &mut MemoryFs, path: &str) -> (r: Result<(), VfsError>)
    requires
        old(fs).wf(),
    ensures
        final(fs).wf(),
        match r {
            Ok(()) => remove_file_target(old(fs)@, path@) matches Ok(t) && final(fs)@
                == old(fs)@.remove(t),
            Err(e) => remove_file_target(old(fs)@, path@) matches Err(f) && f == e@ && *final(fs)
                == *old(fs),
        },
{
    fs.remove_file(path)
}

/// Moves the tree at `from` to `to`.
pub fn rename(fs: &mut MemoryFs, from: &str, to: &str) -> (r: Result<(), VfsError>)
    requires
        old(fs).wf(),
    ensures
        final(fs).wf(),
        match r {
            Ok(()) => rename_ends(old(fs)@, from@, to@) matches Ok((s, d)) && crate::memory::renamed(
                old(fs)@,
                final(fs)@,
                s,
                d,
            ),
            Err(e) => rename_ends(old(fs)@, from@, to@) matches Err(f) && f == e@ && *final(fs)
                == *old(fs),
        },
{
    fs.rename(from, to)
}

/// Copies the file `from` leads to onto `to`, and reports how many bytes it copied.
pub fn copy(fs: &mut MemoryFs, from: &str, to: &str) -> (r: Result<u64, VfsError>)
    requires
        old(fs).wf(),
    ensures
        final(fs).wf(),
        match r {
            Ok(n) => read_spec(old(fs)@, from@) matches Ok(d) && write_target(old(fs)@, to@) matches Ok(
                t,
            ) && n == d.len() && final(fs)@ == old(fs)@.insert(t, crate::memory::Entry::File(d)),
            Err(e) => *final(fs) == *old(fs) && match read_spec(old(fs)@, from@) {
                Err(f) => f == e@,
                Ok(_) => write_target(old(fs)@, to@) matches Err(f) && f == e@,
            },
        },
{
    let contents = fs.read(from)?;
    let n = contents.len();
    assert(n <= u64::MAX);
    let written = n as u64;
    fs.write(to, contents.as_slice())?;
    Ok(written)
}

/// Hard links are not offered.
pub fn hard_link(fs: &MemoryFs, source: &str, target: &str) -> (r: Result<(), VfsError>)
    ensures
        r matches Err(e) && e@ == Fault::Unsupported("hard link"@, source@),
{
    fs.hard_link(source, target)
}

/// Whether `path` leads to anything.
pub fn exists_path(fs: &MemoryFs, path: &str) -> (r: bool)
    requires
        fs.wf(),
    ensures
        r == resolve_spec(fs@, path@, true) is Ok,
{
    fs.exists_path(path)
}

/// Whether `path` leads to anything; the answer is never an error.
pub fn try_exists(fs: &MemoryFs, path: &str) -> (r: Result<bool, VfsError>)
    requires
        fs.wf(),
    ensures
        r matches Ok(b) && b == resolve_spec(fs@, path@, true) is Ok,
{
    Ok(fs.exists_path(path))
}

/// Whether `path` leads to a file.
pub fn is_file(fs: &MemoryFs, path: &str) -> (r: bool)
    requires
        fs.wf(),
    ensures
        r == (resolve_spec(fs@, path@, true) matches Ok((k, e)) && kind_of(e) == VfsKind::File),
{
    match fs.metadata(path) {
        Ok(m) => m.is_file(),
        Err(_) => false,
    }
}

/// Whether `path` leads to a directory.
pub fn is_dir(fs: &MemoryFs, path: &str) -> (r: bool)
    requires
        fs.wf(),
    ensures
        r == (resolve_spec(fs@, path@, true) matches Ok((k, e)) && kind_of(e)
            == VfsKind::Directory),
{
    match fs.metadata(path) {
        Ok(m) => m.is_dir(),
        Err(_) => false,
    }
}

/// What `path` leads to, following links.
pub fn metadata(fs: &MemoryFs, path: &str) -> (r: Result<Metadata, VfsError>)
    requires
        fs.wf(),
    ensures
        reports(r, *fs, path@, true),
{
    let inner = fs.metadata(path)?;
    Ok(Metadata { inner })
}

/// What `path` names, without following a final link.
pub fn symlink_metadata(fs: &MemoryFs, path: &str) -> (r: Result<Metadata, VfsError>)
    requires
        fs.wf(),
    ensures
        reports(r, *fs, path@, false),
{
    let inner = fs.symlink_metadata(path)?;
    Ok(Metadata { inner })
}

/// The target the link at `path` records.
pub fn read_link(fs: &MemoryFs, path: &str) -> (r: Result<String, VfsError>)
    requires
        fs.wf(),
    ensures
        match r {
            Ok(t) => read_link_spec(fs@, path@) matches Ok(x) && x == t@,
            Err(e) => read_link_spec(fs@, path@) matches Err(f) && f == e@,
        },
{
    fs.read_link(path)
}

/// The normalised form of `path`, provided it leads to something.
pub fn canonicalize(fs: &MemoryFs, path: &str) -> (r: Result<String, VfsError>)
    requires
        fs.wf(),
    ensures
        match r {
            Ok(p) => p@ == normalize_spec(path@) && resolve_spec(fs@, normalize_spec(path@), true) is Ok,
            Err(e) => resolve_spec(fs@, normalize_spec(path@), true) matches Err(f) && f == e@,
        },
{
    let normalized = normalize(path);
    fs.metadata(normalized.as_str())?;
    Ok(normalized)
}

/// Accepts any permissions for a path that leads to something; nothing is recorded.
pub fn set_permissions(fs: &MemoryFs, path: &str, permissions: Permissions) -> (r: Result<
    (),
    VfsError,
>)
    requires
        fs.wf(),
    ensures
        match r {
            Ok(()) => resolve_spec(fs@, path@, true) is Ok,
            Err(e) => resolve_spec(fs@, path@, true) matches Err(f) && f == e@,
        },
{
    fs.metadata(path)?;
    Ok(())
}

/// `entries` are the children of `dir`, in name order, each carrying its normalised path
/// below `root`.
pub open spec fn lists_entries(entries: Seq<DirEntryView>, m: Contents, dir: Seq<char>, root: Seq<char>) -> bool {
    &&& forall|i: int, j: int|
        0 <= i < j < entries.len() ==> crate::text::chars_lt(
            #[trigger] entries[i].name,
            #[trigger] entries[j].name,
        )
    &&& forall|i: int|
        #![trigger entries[i]]
        0 <= i < entries.len() ==> entries[i].path == normalize_spec(join_spec(root, entries[i].name))
            && exists|k: Seq<char>|
            #[trigger] m.contains_key(k) && child_name(dir, k) == Some(entries[i].name)
                && kind_of(m[k]) == entries[i].kind
    &&& forall|k: Seq<char>|
        #[trigger] m.contains_key(k) && child_name(dir, k) is Some ==> exists|i: int|
            0 <= i < entries.len() && Some(#[trigger] entries[i].name) == child_name(dir, k)
}

/// The entries of the directory `path` leads to, in name order.
pub fn read_dir(fs: &MemoryFs, path: &str) -> (r: Result<ReadDir, VfsError>)
    requires
        fs.wf(),
    ensures
        match r {
            Ok(rd) => listed_dir(fs@, normalize_spec(path@)) matches Ok(dir) && lists_entries(
                rd@,
                fs@,
                dir,
                normalize_spec(path@),
            ),
            Err(e) => listed_dir(fs@, normalize_spec(path@)) matches Err(f) && f == e@,
        },
{
    let root = normalize(path);
    let listed = fs.read_dir(root.as_str())?;
    let mut entries: Vec<DirEntry> = Vec::new();
    let mut i: usize = 0;
    while i < listed.len()
        invariant
            i <= listed.len(),
            entries.len() == i,
            forall|j: int|
                0 <= j < i ==> (#[trigger] entries@[j])@ == (DirEntryView {
                    path: normalize_spec(join_spec(root@, listed@[j].name@)),
                    name: listed@[j].name@,
                    kind: listed@[j].kind,
                }),
        decreases listed.len() - i,
    {
        let name = listed[i].name.clone();
        let joined = join(root.as_str(), name.as_str());
        let full = normalize(joined.as_str());
        entries.push(DirEntry { path: full, name, kind: listed[i].kind });
        i = i + 1;
    }
    let rd = ReadDir { entries };
    proof {
        assert forall|j: int| 0 <= j < rd@.len() implies rd@[j].name == listed@[j].name@
            && rd@[j].kind == listed@[j].kind by {
            assert(rd@[j] == entries@[j]@);
        }
    }
    Ok(rd)
}

/// Places a link at `link` that records `original`.
pub fn symlink(fs: &mut MemoryFs, original: &str, link: &str) -> (r: Result<(), VfsError>)
    requires
        old(fs).wf(),
    ensures
        final(fs).wf(),
        match r {
            Ok(()) => link_location(old(fs)@, link@) matches Ok(t) && final(fs)@ == old(fs)@.insert(
                t,
                crate::memory::Entry::Symlink(original@),
            ),
            Err(e) => link_location(old(fs)@, link@) matches Err(f) && f == e@ && *final(fs)
                == *old(fs),
        },
{
    fs.symlink(original, link)
}

/// Places a link to a file; the same as `symlink`.
pub fn symlink_file(fs: &mut MemoryFs, original: &str, link: &str) -> (r: Result<(), VfsError>)
    requires
        old(fs).wf(),
    ensures
        final(fs).wf(),
        match r {
            Ok(()) => link_location(old(fs)@, link@) matches Ok(t) && final(fs)@ == old(fs)@.insert(
                t,
                crate::memory::Entry::Symlink(original@),
            ),
            Err(e) => link_location(old(fs)@, link@) matches Err(f) && f == e@ && *final(fs)
                == *old(fs),
        },
{
    fs.symlink(original, link)
}

/// Places a link to a directory; the same as `symlink`.
pub fn symlink_dir(fs: &mut MemoryFs, original: &str, link: &str) -> (r: Result<(), VfsError>)
    requires
        old(fs).wf(),
    ensures
        final(fs).wf(),
        match r {
            Ok(()) => link_location(old(fs)@, link@) matches Ok(t) && final(fs)@ == old(fs)@.insert(
                t,
                crate::memory::Entry::Symlink(original@),
            ),
            Err(e) => link_location(old(fs)@, link@) matches Err(f) && f == e@ && *final(fs)
                == *old(fs),
        },
{
    fs.symlink(original, link)
}

} // verus!
