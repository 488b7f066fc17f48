//! Temporary files and directories on the virtual filesystem, named by a counter.
use vstd::prelude::*;

use crate::error::VfsError;
use crate::file::{create_flags, flushed, no_flags, open_outcome, opened_view, File, FileView, OpenFlags};
use crate::fs::create_dir_all;
use crate::locks::{coherent, released, AdvisoryLocks};
use crate::memory::{
    create_dir_all_spec, prune, remove_file_target, remove_tree_target, rename_ends, renamed,
    Contents, MemoryFs,
};
use crate::path::{join, join_spec};

verus! {

/// Where temporary files and directories are created by default.
pub const TEMP_ROOT: &'static str = "/tmp";

/// The lowercase hexadecimal digit for `d`.
pub open spec fn hex_digit(d: nat) -> char {
    if d < 10 {
        ((d + 48) as u32) as char
    } else {
        ((d + 87) as u32) as char
    }
}

/// The last `k` hexadecimal digits of `n`, zero-padded.
pub open spec fn hex_fixed(n: nat, k: nat) -> Seq<char>
    decreases k,
{
    if k == 0 {
        Seq::<char>::empty()
    } else {
        hex_fixed(n / 16, (k - 1) as nat).push(hex_digit(n % 16))
    }
}

proof fn lemma_hex_len(n: nat, k: nat)
    ensures
        hex_fixed(n, k).len() == k,
    decreases k,
{
    if k > 0 {
        lemma_hex_len(n / 16, (k - 1) as nat);
    }
}

/// The name of the temporary entry with this ordinal: the prefix, sixteen hexadecimal digits
/// and the suffix.
pub open spec fn temp_name(prefix: Seq<char>, suffix: Seq<char>, ordinal: u64) -> Seq<char> {
    prefix + hex_fixed(ordinal as nat, 16) + suffix
}

/// The counter that numbers temporary entries.
#[derive(Debug)]
pub struct TempNames {
    next: u64,
}

impl View for TempNames {
    type V = u64;

    closed spec fn view(&self) -> u64 {
        self.next
    }
}

impl TempNames {
    /// A counter starting at zero.
    pub fn new() -> (names: TempNames)
        ensures
            names@ == 0,
    {
        TempNames { next: 0 }
    }
}

/// Sixteen lowercase hexadecimal digits of `n`.
fn hex16(n: u64) -> (r: Vec<char>)
    ensures
        r@ == hex_fixed(n as nat, 16),
{
    let mut rev: Vec<char> = Vec::new();
    let mut m = n;
    let mut i: usize = 0;
    while i < 16
        invariant
            i <= 16,
            rev.len() == i,
            hex_fixed(n as nat, 16) == hex_fixed(m as nat, (16 - i) as nat) + rev@.reverse(),
        decreases 16 - i,
    {
        let d = (m % 16) as u8;
        let c = if d < 10 {
            (48u8 + d) as char
        } else {
            (87u8 + d) as char
        };
        assert(c == hex_digit((m % 16) as nat));
        proof {
            assert(hex_fixed(m as nat, (16 - i) as nat) == hex_fixed((m / 16) as nat, (16 - i - 1) as nat).push(c));
            assert(rev@.push(c).reverse() =~= seq![c] + rev@.reverse());
            assert(hex_fixed((m / 16) as nat, (16 - i - 1) as nat) + rev@.push(c).reverse()
                =~= hex_fixed((m / 16) as nat, (16 - i - 1) as nat).push(c) + rev@.reverse());
        }
        rev.push(c);
        m = m / 16;
        i = i + 1;
    }
    assert(hex_fixed(m as nat, 0) =~= Seq::<char>::empty());
    assert(hex_fixed(n as nat, 16) =~= rev@.reverse());
    let mut out: Vec<char> = Vec::new();
    let mut j: usize = 16;
    while j > 0
        invariant
            j <= 16,
            rev.len() == 16,
            out@ == rev@.skip(j as int).reverse(),
        decreases j,
    {
        j = j - 1;
        out.push(rev[j]);
        assert(rev@.skip(j as int).reverse() =~= rev@.skip(j + 1).reverse().push(rev@[j as int]));
    }
    assert(rev@.skip(0) =~= rev@);
    out
}

/// Takes the next ordinal (the counter wraps, as an atomic `fetch_add` does) and names the
/// entry with it.
fn unique_name(names: &mut TempNames, prefix: &str, suffix: &str) -> (r: String)
    ensures
        r@ == temp_name(prefix@, suffix@, old(names)@),
        final(names)@ == (if old(names)@ == u64::MAX {
            0
        } else {
            (old(names)@ + 1) as u64
        }),
{
    let ordinal = names.next;
    names.next = if ordinal == u64::MAX {
        0
    } else {
        ordinal + 1
    };
    let digits = hex16(ordinal);
    proof {
        lemma_hex_len(ordinal as nat, 16);
    }
    let mut out = String::from_str(prefix);
    let mut i: usize = 0;
    while i < 16
        invariant
            i <= 16,
            digits@ == hex_fixed(ordinal as nat, 16),
            digits.len() == 16,
            out@ == prefix@ + digits@.take(i as int),
        decreases 16 - i,
    {
        crate::text::push_char(&mut out, digits[i]);
        assert(digits@.take(i + 1) =~= digits@.take(i as int).push(digits@[i as int]));
        i = i + 1;
    }
    assert(digits@.take(16) =~= digits@);
    out.concat(suffix)
}

/// The counter after one name is taken.
pub open spec fn advanced(n: u64) -> u64 {
    if n == u64::MAX {
        0
    } else {
        (n + 1) as u64
    }
}

/// What making a temporary directory named `name` below `parent` does: the parent and its
/// ancestors are created first, then the directory itself.
pub open spec fn tempdir_outcome(m: crate::memory::Contents, parent: Seq<char>, name: Seq<char>) -> (
    crate::memory::Contents,
    Option<crate::error::Fault>,
) {
    let (m1, e1) = create_dir_all_spec(m, parent);
    if e1 is Some {
        (m1, e1)
    } else {
        create_dir_all_spec(m1, join_spec(parent, name))
    }
}

/// A temporary directory; `release` removes it, `keep` keeps it.
#[derive(Debug)]
pub struct TempDir {
    path: String,
}

impl View for TempDir {
    type V = Seq<char>;

    closed spec fn view(&self) -> Seq<char> {
        self.path@
    }
}

impl TempDir {
    /// A new temporary directory below the temp root.
    pub fn new(fs: &mut MemoryFs, names: &mut TempNames) -> (r: Result<TempDir, VfsError>)
        requires
            old(fs).wf(),
        ensures
            final(fs).wf(),
            made_dir(*old(fs), *final(fs), *old(names), *final(names), TEMP_ROOT@, ".tmp"@, ""@, r),
    {
        Builder::new().tempdir(fs, names)
    }

    /// A new temporary directory below `parent`.
    pub fn new_in(fs: &mut MemoryFs, names: &mut TempNames, parent: &str) -> (r: Result<TempDir, VfsError>)
        requires
            old(fs).wf(),
        ensures
            final(fs).wf(),
            made_dir(*old(fs), *final(fs), *old(names), *final(names), parent@, ".tmp"@, ""@, r),
    {
        Builder::new().tempdir_in(fs, names, parent)
    }

    /// The directory's path.
    pub fn path(&self) -> (p: &str)
        ensures
            p@ == self@,
    {
        self.path.as_str()
    }

    /// The directory's path, for path-taking calls.
    pub fn as_ref(&self) -> (p: &str)
        ensures
            p@ == self@,
    {
        self.path.as_str()
    }

    /// Keeps the directory and hands back its path.
    pub fn keep(self) -> (p: String)
        ensures
            p@ == self@,
    {
        self.path
    }

    /// Removes the directory and what it holds, reporting a failure.
    pub fn close(self, fs: &mut MemoryFs) -> (r: Result<(), VfsError>)
        requires
            old(fs).wf(),
        ensures
            final(fs).wf(),
            match r {
                Ok(()) => remove_tree_target(old(fs)@, self@) matches Ok(t) && final(fs)@ == prune(
                    old(fs)@,
                    t,
                ),
                Err(e) => remove_tree_target(old(fs)@, self@) matches Err(f) && f == e@ && *final(fs)
                    == *old(fs),
            },
    {
        fs.remove_dir_all(self.path.as_str())
    }

    /// Lets go of the directory, as dropping it does: it is removed, and a failure is ignored.
    pub fn release(self, fs: &mut MemoryFs)
        requires
            old(fs).wf(),
        ensures
            final(fs).wf(),
            match remove_tree_target(old(fs)@, self@) {
                Ok(t) => final(fs)@ == prune(old(fs)@, t),
                Err(_) => *final(fs) == *old(fs),
            },
    {
        let _ = fs.remove_dir_all(self.path.as_str());
    }
}

/// `r` is what making a temporary directory below `parent` with this prefix and suffix
/// returns, with the filesystem and the counter before and after.
pub open spec fn made_dir(
    before: MemoryFs,
    after: MemoryFs,
    names_before: TempNames,
    names_after: TempNames,
    parent: Seq<char>,
    prefix: Seq<char>,
    suffix: Seq<char>,
    r: Result<TempDir, VfsError>,
) -> bool {
    let name = temp_name(prefix, suffix, names_before@);
    let (m, e) = tempdir_outcome(before@, parent, name);
    &&& after@ == m
    &&& names_after@ == (if create_dir_all_spec(before@, parent).1 is Some {
        names_before@
    } else {
        advanced(names_before@)
    })
    &&& match r {
        Ok(d) => e is None && d@ == join_spec(parent, name),
        Err(err) => e == Some(err@),
    }
}

/// A temporary path whose file `release` removes unless `keep` keeps it.
#[derive(Debug)]
pub struct TempPath {
    path: String,
}

impl View for TempPath {
    type V = Seq<char>;

    closed spec fn view(&self) -> Seq<char> {
        self.path@
    }
}

impl TempPath {
    /// Keeps the file and hands back its path.
    pub fn keep(self) -> (r: Result<String, VfsError>)
        ensures
            r matches Ok(p) && p@ == self@,
    {
        Ok(self.path)
    }

    /// The path.
    pub fn path(&self) -> (p: &str)
        ensures
            p@ == self@,
    {
        self.path.as_str()
    }

    /// The path, for path-taking calls.
    pub fn as_ref(&self) -> (p: &str)
        ensures
            p@ == self@,
    {
        self.path.as_str()
    }

    /// Lets go of the path, as dropping it does: the file is removed, and a failure is ignored.
    pub fn release(self, fs: &mut MemoryFs)
        requires
            old(fs).wf(),
        ensures
            final(fs).wf(),
            match remove_file_target(old(fs)@, self@) {
                Ok(t) => final(fs)@ == old(fs)@.remove(t),
                Err(_) => *final(fs) == *old(fs),
            },
    {
        let _ = fs.remove_file(self.path.as_str());
    }
}

/// What a named temporary file holds: its path and its handle.
pub struct NamedTempFileView {
    pub path: Seq<char>,
    pub file: FileView,
}

/// A temporary file with a name, and an open handle on it.
#[derive(Debug)]
pub struct NamedTempFile {
    path: String,
    file: File,
}

impl View for NamedTempFile {
    type V = NamedTempFileView;

    closed spec fn view(&self) -> NamedTempFileView {
        NamedTempFileView { path: self.path@, file: self.file@ }
    }
}

/// The flags `File::open` uses: read only.
pub open spec fn read_flags() -> OpenFlags {
    OpenFlags { read: true, ..no_flags() }
}

/// What persisting `t` to `destination` does: the handle is flushed (a failure is reported
/// and nothing moves); then the file is renamed (a refusal is reported); then the destination
/// is opened for reading.
pub open spec fn persisted(
    before: Contents,
    after: Contents,
    t: NamedTempFileView,
    destination: Seq<char>,
    r: Result<File, VfsError>,
) -> bool {
    let m1 = flushed(before, t.file).0;
    match flushed(before, t.file).1 {
        Err(f) => r matches Err(e) && e@ == f && after == before,
        Ok(()) => match rename_ends(m1, t.path, destination) {
            Err(f) => r matches Err(e) && e@ == f && after == m1,
            Ok((s, d)) => renamed(m1, after, s, d) && match r {
                Ok(file) => open_outcome(after, destination, read_flags()).1 matches Ok(buf)
                    && file@ == opened_view(destination, read_flags(), buf),
                Err(e) => open_outcome(after, destination, read_flags()).1 matches Err(f) && f == e@,
            },
        },
    }
}

/// What creating a temporary file named `name` below `parent` does: the parent and its
/// ancestors are created, then the file is created empty.
pub open spec fn tempfile_outcome(m: crate::memory::Contents, parent: Seq<char>, name: Seq<char>) -> (
    crate::memory::Contents,
    Result<Seq<u8>, crate::error::Fault>,
) {
    let (m1, e1) = create_dir_all_spec(m, parent);
    match e1 {
        Some(f) => (m1, Err(f)),
        None => open_outcome(m1, join_spec(parent, name), create_flags()),
    }
}

/// `r` is what making a temporary file below `parent` with this prefix and suffix returns,
/// with the filesystem and the counter before and after.
pub open spec fn made_file(
    before: MemoryFs,
    after: MemoryFs,
    names_before: TempNames,
    names_after: TempNames,
    parent: Seq<char>,
    prefix: Seq<char>,
    suffix: Seq<char>,
    r: Result<NamedTempFile, VfsError>,
) -> bool {
    let name = temp_name(prefix, suffix, names_before@);
    let (m, o) = tempfile_outcome(before@, parent, name);
    &&& after@ == m
    &&& names_after@ == (if create_dir_all_spec(before@, parent).1 is Some {
        names_before@
    } else {
        advanced(names_before@)
    })
    &&& match r {
        Ok(t) => o matches Ok(buf) && t@.path == join_spec(parent, name) && t@.file == opened_view(
            join_spec(parent, name),
            create_flags(),
            buf,
        ),
        Err(err) => o matches Err(f) && f == err@,
    }
}

impl NamedTempFile {
    /// A new temporary file below the temp root.
    pub fn new(fs: &mut MemoryFs, names: &mut TempNames) -> (r: Result<NamedTempFile, VfsError>)
        requires
            old(fs).wf(),
        ensures
            final(fs).wf(),
            made_file(*old(fs), *final(fs), *old(names), *final(names), TEMP_ROOT@, ".tmp"@, ""@, r),
    {
        Builder::new().tempfile(fs, names)
    }

    /// A new temporary file below `parent`.
    pub fn new_in(fs: &mut MemoryFs, names: &mut TempNames, parent: &str) -> (r: Result<NamedTempFile, VfsError>)
        requires
            old(fs).wf(),
        ensures
            final(fs).wf(),
            made_file(*old(fs), *final(fs), *old(names), *final(names), parent@, ".tmp"@, ""@, r),
    {
        Builder::new().tempfile_in(fs, names, parent)
    }

    /// The file's path.
    pub fn path(&self) -> (p: &str)
        ensures
            p@ == self@.path,
    {
        self.path.as_str()
    }

    /// The file's path, for path-taking calls.
    pub fn as_ref(&self) -> (p: &str)
        ensures
            p@ == self@.path,
    {
        self.path.as_str()
    }

    /// The open handle.
    pub fn as_file(&self) -> (f: &File)
        ensures
            f@ == self@.file,
    {
        &self.file
    }

    /// The open handle, to write or read through.
    pub fn as_file_mut(&mut self) -> (f: &mut File)
        ensures
            (*f)@ == old(self)@.file,
            final(self)@ == (NamedTempFileView { file: (*final(f))@, ..old(self)@ }),
    {
        &mut self.file
    }

    /// Moves the file to `destination` and opens it there for reading: the handle is flushed
    /// first (a failure stops the move) and closed.
    pub fn persist(self, fs: &mut MemoryFs, locks: &mut AdvisoryLocks, destination: &str) -> (r: Result<File, VfsError>)
        requires
            old(fs).wf(),
            coherent(old(locks)@),
        ensures
            final(fs).wf(),
            coherent(final(locks)@),
            final(locks)@ == released(old(locks)@, self@.file.path, self@.file.holding),
            persisted(old(fs)@, final(fs)@, self@, destination@, r),
    {
        let NamedTempFile { path, file } = self;
        let mut handle = file;
        match handle.flush(fs) {
            Ok(()) => {},
            Err(e) => {
                handle.close(fs, locks);
                return Err(e);
            },
        }
        handle.close(fs, locks);
        fs.rename(path.as_str(), destination)?;
        File::open(fs, destination)
    }

    /// Closes the handle and keeps the path, as a `TempPath`.
    pub fn into_temp_path(self, fs: &mut MemoryFs, locks: &mut AdvisoryLocks) -> (p: TempPath)
        requires
            old(fs).wf(),
            coherent(old(locks)@),
        ensures
            final(fs).wf(),
            final(fs)@ == flushed(old(fs)@, self@.file).0,
            coherent(final(locks)@),
            final(locks)@ == released(old(locks)@, self@.file.path, self@.file.holding),
            p@ == self@.path,
    {
        let NamedTempFile { path, file } = self;
        file.close(fs, locks);
        TempPath { path }
    }

    /// Keeps the file and hands back its handle and path.
    pub fn keep(self) -> (r: Result<(File, String), VfsError>)
        ensures
            r matches Ok((f, p)) && f@ == self@.file && p@ == self@.path,
    {
        Ok((self.file, self.path))
    }

    /// Hands back the handle; the file stays.
    fn into_file(self) -> (f: File)
        ensures
            f@ == self@.file,
    {
        self.file
    }

    /// Lets go of the file, as dropping it does: the handle is closed and the file removed
    /// (a failure is ignored).
    pub fn release(self, fs: &mut MemoryFs, locks: &mut AdvisoryLocks)
        requires
            old(fs).wf(),
            coherent(old(locks)@),
        ensures
            final(fs).wf(),
            coherent(final(locks)@),
            final(locks)@ == released(old(locks)@, self@.file.path, self@.file.holding),
            match remove_file_target(flushed(old(fs)@, self@.file).0, self@.path) {
                Ok(t) => final(fs)@ == flushed(old(fs)@, self@.file).0.remove(t),
                Err(_) => final(fs)@ == flushed(old(fs)@, self@.file).0,
            },
    {
        let NamedTempFile { path, file } = self;
        file.close(fs, locks);
        let _ = fs.remove_file(path.as_str());
    }
}

/// How temporary entries are named.
#[derive(Debug)]
pub struct Builder {
    prefix: String,
    suffix: String,
}

impl View for Builder {
    type V = (Seq<char>, Seq<char>);

    closed spec fn view(&self) -> (Seq<char>, Seq<char>) {
        (self.prefix@, self.suffix@)
    }
}

impl Builder {
    /// Names that start with `.tmp` and have no suffix.
    pub fn new() -> (b: Builder)
        ensures
            b@ == (".tmp"@, ""@),
    {
        Builder { prefix: String::from_str(".tmp"), suffix: String::from_str("") }
    }

    pub fn prefix(self, prefix: &str) -> (b: Builder)
        ensures
            b@ == (prefix@, self@.1),
    {
        Builder { prefix: String::from_str(prefix), suffix: self.suffix }
    }

    pub fn suffix(self, suffix: &str) -> (b: Builder)
        ensures
            b@ == (self@.0, suffix@),
    {
        Builder { prefix: self.prefix, suffix: String::from_str(suffix) }
    }

    /// A new temporary directory below the temp root.
    pub fn tempdir(self, fs: &mut MemoryFs, names: &mut TempNames) -> (r: Result<TempDir, VfsError>)
        requires
            old(fs).wf(),
        ensures
            final(fs).wf(),
            made_dir(*old(fs), *final(fs), *old(names), *final(names), TEMP_ROOT@, self@.0, self@.1, r),
    {
        self.tempdir_in(fs, names, TEMP_ROOT)
    }

    /// A new temporary directory below `parent`, which is created if missing.
    pub fn tempdir_in(self, fs: &mut MemoryFs, names: &mut TempNames, parent: &str) -> (r: Result<TempDir, VfsError>)
        requires
            old(fs).wf(),
        ensures
            final(fs).wf(),
            made_dir(*old(fs), *final(fs), *old(names), *final(names), parent@, self@.0, self@.1, r),
    {
        create_dir_all(fs, parent)?;
        let name = unique_name(names, self.prefix.as_str(), self.suffix.as_str());
        let path = join(parent, name.as_str());
        create_dir_all(fs, path.as_str())?;
        Ok(TempDir { path })
    }

    /// A new temporary file below the temp root.
    pub fn tempfile(self, fs: &mut MemoryFs, names: &mut TempNames) -> (r: Result<NamedTempFile, VfsError>)
        requires
            old(fs).wf(),
        ensures
            final(fs).wf(),
            made_file(*old(fs), *final(fs), *old(names), *final(names), TEMP_ROOT@, self@.0, self@.1, r),
    {
        self.tempfile_in(fs, names, TEMP_ROOT)
    }

    /// A new, empty temporary file below `parent`, which is created if missing.
    pub fn tempfile_in(self, fs: &mut MemoryFs, names: &mut TempNames, parent: &str) -> (r: Result<NamedTempFile, VfsError>)
        requires
            old(fs).wf(),
        ensures
            final(fs).wf(),
            made_file(*old(fs), *final(fs), *old(names), *final(names), parent@, self@.0, self@.1, r),
    {
        create_dir_all(fs, parent)?;
        let name = unique_name(names, self.prefix.as_str(), self.suffix.as_str());
        let path = join(parent, name.as_str());
        let file = File::create(fs, path.as_str())?;
        Ok(NamedTempFile { path, file })
    }
}

/// A new temporary directory below the temp root.
pub fn tempdir(fs: &mut MemoryFs, names: &mut TempNames) -> (r: Result<TempDir, VfsError>)
    requires
        old(fs).wf(),
    ensures
        final(fs).wf(),
        made_dir(*old(fs), *final(fs), *old(names), *final(names), TEMP_ROOT@, ".tmp"@, ""@, r),
{
    TempDir::new(fs, names)
}

/// A new temporary directory below `parent`.
pub fn tempdir_in(fs: &mut MemoryFs, names: &mut TempNames, parent: &str) -> (r: Result<TempDir, VfsError>)
    requires
        old(fs).wf(),
    ensures
        final(fs).wf(),
        made_dir(*old(fs), *final(fs), *old(names), *final(names), parent@, ".tmp"@, ""@, r),
{
    TempDir::new_in(fs, names, parent)
}

/// A handle on a new temporary file below the temp root; the file stays.
pub fn tempfile(fs: &mut MemoryFs, names: &mut TempNames) -> (r: Result<File, VfsError>)
    requires
        old(fs).wf(),
    ensures
        final(fs).wf(),
        exists|t: Result<NamedTempFile, VfsError>|
            made_file(*old(fs), *final(fs), *old(names), *final(names), TEMP_ROOT@, ".tmp"@, ""@, t)
                && match (t, r) {
                (Ok(n), Ok(f)) => f@ == n@.file,
                (Err(a), Err(b)) => a@ == b@,
                _ => false,
            },
{
    let made = Builder::new().tempfile(fs, names);
    match made {
        Ok(named) => Ok(named.into_file()),
        Err(e) => Err(e),
    }
}

/// A handle on a new temporary file below `parent`; the file stays.
pub fn tempfile_in(fs: &mut MemoryFs, names: &mut TempNames, parent: &str) -> (r: Result<File, VfsError>)
    requires
        old(fs).wf(),
    ensures
        final(fs).wf(),
        exists|t: Result<NamedTempFile, VfsError>|
            made_file(*old(fs), *final(fs), *old(names), *final(names), parent@, ".tmp"@, ""@, t)
                && match (t, r) {
                (Ok(n), Ok(f)) => f@ == n@.file,
                (Err(a), Err(b)) => a@ == b@,
                _ => false,
            },
{
    let made = Builder::new().tempfile_in(fs, names, parent);
    match made {
        Ok(named) => Ok(named.into_file()),
        Err(e) => Err(e),
    }
}

} // verus!

verus! {

/// `16^k`.
pub open spec fn pow16(k: nat) -> nat
    decreases k,
{
    if k == 0 {
        1
    } else {
        16 * pow16((k - 1) as nat)
    }
}

proof fn lemma_hex_injective(a: nat, b: nat, k: nat)
    requires
        a < pow16(k),
        b < pow16(k),
        hex_fixed(a, k) == hex_fixed(b, k),
    ensures
        a == b,
    decreases k,
{
    if k > 0 {
        let ha = hex_fixed(a, k);
        let hb = hex_fixed(b, k);
        assert(ha.last() == hex_digit(a % 16));
        assert(hb.last() == hex_digit(b % 16));
        assert(a % 16 == b % 16) by {
            let x = a % 16;
            let y = b % 16;
            if x != y {
                assert(hex_digit(x) != hex_digit(y));
            }
        }
        assert(ha.drop_last() =~= hex_fixed(a / 16, (k - 1) as nat));
        assert(hb.drop_last() =~= hex_fixed(b / 16, (k - 1) as nat));
        assert(a / 16 < pow16((k - 1) as nat)) by (nonlinear_arith)
            requires
                a < 16 * pow16((k - 1) as nat),
        ;
        assert(b / 16 < pow16((k - 1) as nat)) by (nonlinear_arith)
            requires
                b < 16 * pow16((k - 1) as nat),
        ;
        lemma_hex_injective(a / 16, b / 16, (k - 1) as nat);
        assert(a == (a / 16) * 16 + a % 16);
        assert(b == (b / 16) * 16 + b % 16);
    }
}

/// Two ordinals never name the same temporary entry.
pub proof fn law_temp_names_differ(prefix: Seq<char>, suffix: Seq<char>, a: u64, b: u64)
    requires
        a != b,
    ensures
        temp_name(prefix, suffix, a) != temp_name(prefix, suffix, b),
{
    assert(pow16(16) == 0x1_0000_0000_0000_0000) by {
        reveal_with_fuel(pow16, 17);
    }
    lemma_hex_len(a as nat, 16);
    lemma_hex_len(b as nat, 16);
    if temp_name(prefix, suffix, a) == temp_name(prefix, suffix, b) {
        let na = temp_name(prefix, suffix, a);
        let nb = temp_name(prefix, suffix, b);
        assert(na.subrange(prefix.len() as int, prefix.len() + 16int) =~= hex_fixed(a as nat, 16));
        assert(nb.subrange(prefix.len() as int, prefix.len() + 16int) =~= hex_fixed(b as nat, 16));
        lemma_hex_injective(a as nat, b as nat, 16);
    }
}

/// Taking a name advances the counter, so two names taken in a row differ.
pub proof fn law_successive_names_differ(prefix: Seq<char>, suffix: Seq<char>, n: u64)
    ensures
        temp_name(prefix, suffix, n) != temp_name(prefix, suffix, advanced(n)),
{
    law_temp_names_differ(prefix, suffix, n, advanced(n));
}

} // verus!
