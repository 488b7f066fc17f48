//! File handles: a buffered copy of a file's bytes with a cursor, written back to the
//! filesystem on flush, plus the advisory locks a handle can take.
use vstd::prelude::*;
use web_time::SystemTime;

use crate::error::{not_found, Fault, VfsError};
use crate::fs::{metadata, reports, Metadata};
use crate::locks::{acquire, coherent, release, released, state_of, taken, AdvisoryLocks, LockKind};
use crate::memory::{read_spec, resolve_spec, stamp_target, write_target, Contents, Entry, MemoryFs};
use crate::path::{lemma_normalize_idempotent, normalize, normalize_spec};

verus! {

/// The flags of `OpenOptions`, by name.
pub struct OpenFlags {
    pub read: bool,
    pub write: bool,
    pub append: bool,
    pub truncate: bool,
    pub create: bool,
    pub create_new: bool,
}

impl OpenFlags {
    /// A handle opened with these flags may write.
    pub open spec fn writable(self) -> bool {
        self.write || self.append || self.create || self.create_new
    }
}

/// How a file is to be opened, as `std::fs::OpenOptions` describes it.
#[derive(Debug, Clone, Copy, PartialEq, Eq, Structural)]
pub struct OpenOptions {
    read: bool,
    write: bool,
    append: bool,
    truncate: bool,
    create: bool,
    create_new: bool,
}

impl View for OpenOptions {
    type V = OpenFlags;

    closed spec fn view(&self) -> OpenFlags {
        OpenFlags {
            read: self.read,
            write: self.write,
            append: self.append,
            truncate: self.truncate,
            create: self.create,
            create_new: self.create_new,
        }
    }
}

/// No flag set.
pub open spec fn no_flags() -> OpenFlags {
    OpenFlags {
        read: false,
        write: false,
        append: false,
        truncate: false,
        create: false,
        create_new: false,
    }
}

impl OpenOptions {
    /// Options with every flag cleared.
    pub fn new() -> (o: OpenOptions)
        ensures
            o@ == no_flags(),
    {
        OpenOptions {
            read: false,
            write: false,
            append: false,
            truncate: false,
            create: false,
            create_new: false,
        }
    }

    pub fn read(&mut self, value: bool) -> (r: &mut Self)
        ensures
            (*r)@ == (OpenFlags { read: value, ..old(self)@ }),
            *final(self) == *final(r),
    {
        self.read = value;
        self
    }

    pub fn write(&mut self, value: bool) -> (r: &mut Self)
        ensures
            (*r)@ == (OpenFlags { write: value, ..old(self)@ }),
            *final(self) == *final(r),
    {
        self.write = value;
        self
    }

    pub fn append(&mut self, value: bool) -> (r: &mut Self)
        ensures
            (*r)@ == (OpenFlags { append: value, ..old(self)@ }),
            *final(self) == *final(r),
    {
        self.append = value;
        self
    }

    pub fn truncate(&mut self, value: bool) -> (r: &mut Self)
        ensures
            (*r)@ == (OpenFlags { truncate: value, ..old(self)@ }),
            *final(self) == *final(r),
    {
        self.truncate = value;
        self
    }

    pub fn create(&mut self, value: bool) -> (r: &mut Self)
        ensures
            (*r)@ == (OpenFlags { create: value, ..old(self)@ }),
            *final(self) == *final(r),
    {
        self.create = value;
        self
    }

    pub fn create_new(&mut self, value: bool) -> (r: &mut Self)
        ensures
            (*r)@ == (OpenFlags { create_new: value, ..old(self)@ }),
            *final(self) == *final(r),
    {
        self.create_new = value;
        self
    }
}


/// Where a seek moves from.
#[derive(Debug, Clone, Copy, PartialEq, Eq, Structural)]
pub enum SeekFrom {
    Start(u64),
    End(i64),
    Current(i64),
}

/// The failure of a non-blocking lock attempt.
#[derive(Debug, Clone, Copy, PartialEq, Eq, Structural)]
pub enum TryLockError {
    /// Another handle holds the lock.
    WouldBlock,
}

/// What a handle holds: the normalised path, the buffered bytes, the cursor, whether it may
/// write, whether the buffer has changes not yet written back, and the lock it holds.
pub struct FileView {
    pub path: Seq<char>,
    pub buffer: Seq<u8>,
    pub cursor: u64,
    pub writable: bool,
    pub dirty: bool,
    pub holding: Option<LockKind>,
}

/// An open file.
#[derive(Debug)]
pub struct File {
    path: String,
    buffer: Vec<u8>,
    cursor: u64,
    writable: bool,
    dirty: bool,
    holding: Option<LockKind>,
}

impl View for File {
    type V = FileView;

    closed spec fn view(&self) -> FileView {
        FileView {
            path: self.path@,
            buffer: self.buffer@,
            cursor: self.cursor,
            writable: self.writable,
            dirty: self.dirty,
            holding: self.holding,
        }
    }
}

/// The bytes a handle starts with when `path` is opened with `o`, or why the open fails,
/// before anything is written.
pub open spec fn initial_buffer(m: Contents, path: Seq<char>, o: OpenFlags) -> Result<Seq<u8>, Fault> {
    let t = normalize_spec(path);
    let present = resolve_spec(m, t, true) is Ok;
    if o.create_new && present {
        Err(Fault::AlreadyExists(t))
    } else if present && !o.truncate {
        read_spec(m, t)
    } else if !present && !(o.create || o.create_new) {
        Err(Fault::NotFound(t))
    } else {
        Ok(Seq::<u8>::empty())
    }
}

/// What opening `path` with `o` does: the filesystem afterwards (a writable handle on a new
/// or truncated file writes it at once) and the handle's initial bytes, or the failure.
pub open spec fn open_outcome(m: Contents, path: Seq<char>, o: OpenFlags) -> (
    Contents,
    Result<Seq<u8>, Fault>,
) {
    let t = normalize_spec(path);
    let present = resolve_spec(m, t, true) is Ok;
    match initial_buffer(m, path, o) {
        Err(f) => (m, Err(f)),
        Ok(buf) => if o.writable() && (!present || o.truncate) {
            match write_target(m, t) {
                Err(f) => (m, Err(f)),
                Ok(w) => (m.insert(w, Entry::File(buf)), Ok(buf)),
            }
        } else {
            (m, Ok(buf))
        },
    }
}

/// The handle a successful open of `path` with `o` yields over `buf`.
pub open spec fn opened_view(path: Seq<char>, o: OpenFlags, buf: Seq<u8>) -> FileView {
    FileView {
        path: normalize_spec(path),
        buffer: buf,
        cursor: if o.append {
            buf.len() as u64
        } else {
            0
        },
        writable: o.writable(),
        dirty: false,
        holding: None,
    }
}

/// What a flush of `f` does: the filesystem afterwards and the outcome (a clean handle
/// writes nothing).
pub open spec fn flushed(m: Contents, f: FileView) -> (Contents, Result<(), Fault>) {
    if !f.dirty {
        (m, Ok(()))
    } else {
        match write_target(m, f.path) {
            Err(e) => (m, Err(e)),
            Ok(t) => (m.insert(t, Entry::File(f.buffer)), Ok(())),
        }
    }
}

/// `buf` with `data` written at `at`: zeros fill any gap past the end.
pub open spec fn spliced(buf: Seq<u8>, at: int, data: Seq<u8>) -> Seq<u8> {
    let n = if buf.len() > at + data.len() {
        buf.len() as int
    } else {
        at + data.len()
    };
    Seq::new(
        n as nat,
        |i: int|
            if at <= i < at + data.len() {
                data[i - at]
            } else if i < buf.len() {
                buf[i]
            } else {
                0u8
            },
    )
}

/// `buf` cut or zero-extended to `n` bytes.
pub open spec fn resized(buf: Seq<u8>, n: int) -> Seq<u8> {
    Seq::new(n as nat, |i: int| if i < buf.len() { buf[i] } else { 0u8 })
}

/// The position a read starts from: the cursor, or the end if the cursor is past it.
pub open spec fn read_start(f: FileView) -> int {
    if f.cursor < f.buffer.len() {
        f.cursor as int
    } else {
        f.buffer.len() as int
    }
}

/// `x` held to the range of `i64`.
pub open spec fn clamp_i64(x: int) -> int {
    if x > i64::MAX {
        i64::MAX as int
    } else if x < i64::MIN {
        i64::MIN as int
    } else {
        x
    }
}

/// Where a seek lands, before the check that it is not before the start: offsets saturate
/// at the bounds of `i64`.
pub open spec fn seek_target(len: int, cursor: int, pos: SeekFrom) -> int {
    match pos {
        SeekFrom::Start(o) => clamp_i64(o as int),
        SeekFrom::End(o) => clamp_i64(len + o),
        SeekFrom::Current(o) => clamp_i64(clamp_i64(cursor) + o),
    }
}

/// The lock table and the handle's lock after it asks for `kind` on `path` while holding
/// `holding`: it lets go of what it held, then is granted `kind` if the path admits it.
pub open spec fn lock_attempt(
    m: Map<Seq<char>, crate::locks::LockState>,
    path: Seq<char>,
    holding: Option<LockKind>,
    kind: LockKind,
) -> (Map<Seq<char>, crate::locks::LockState>, Option<LockKind>) {
    let m1 = released(m, path, holding);
    let s = state_of(m1, path);
    if s.grants(kind) {
        (m1.insert(path, taken(s, kind)), Some(kind))
    } else {
        (m1, None)
    }
}

impl File {
    /// Opens `path` for reading.
    pub fn open(fs: &mut MemoryFs, path: &str) -> (r: Result<File, VfsError>)
        requires
            old(fs).wf(),
        ensures
            final(fs).wf(),
            final(fs)@ == open_outcome(old(fs)@, path@, OpenFlags { read: true, ..no_flags() }).0,
            match r {
                Ok(f) => open_outcome(old(fs)@, path@, OpenFlags { read: true, ..no_flags() }).1 matches Ok(buf)
                    && f@ == opened_view(path@, OpenFlags { read: true, ..no_flags() }, buf),
                Err(e) => open_outcome(old(fs)@, path@, OpenFlags { read: true, ..no_flags() }).1 matches Err(flt)
                    && flt == e@,
            },
    {
        let mut options = OpenOptions::new();
        options.read(true);
        Self::open_with(fs, path, options)
    }

    /// Opens `path` for writing, creating it or truncating what is there.
    pub fn create(fs: &mut MemoryFs, path: &str) -> (r: Result<File, VfsError>)
        requires
            old(fs).wf(),
        ensures
            final(fs).wf(),
            final(fs)@ == open_outcome(old(fs)@, path@, create_flags()).0,
            match r {
                Ok(f) => open_outcome(old(fs)@, path@, create_flags()).1 matches Ok(buf) && f@
                    == opened_view(path@, create_flags(), buf),
                Err(e) => open_outcome(old(fs)@, path@, create_flags()).1 matches Err(flt) && flt
                    == e@,
            },
    {
        let mut options = OpenOptions::new();
        options.write(true).create(true).truncate(true);
        Self::open_with(fs, path, options)
    }

    /// Opens `path` for writing as a new file, refusing one that exists.
    pub fn create_new(fs: &mut MemoryFs, path: &str) -> (r: Result<File, VfsError>)
        requires
            old(fs).wf(),
        ensures
            final(fs).wf(),
            final(fs)@ == open_outcome(old(fs)@, path@, create_new_flags()).0,
            match r {
                Ok(f) => open_outcome(old(fs)@, path@, create_new_flags()).1 matches Ok(buf) && f@
                    == opened_view(path@, create_new_flags(), buf),
                Err(e) => open_outcome(old(fs)@, path@, create_new_flags()).1 matches Err(flt) && flt
                    == e@,
            },
    {
        let mut options = OpenOptions::new();
        options.write(true).create_new(true);
        Self::open_with(fs, path, options)
    }

    /// Options with every flag cleared.
    pub fn options() -> (o: OpenOptions)
        ensures
            o@ == no_flags(),
    {
        OpenOptions::new()
    }

    fn open_with(fs: &mut MemoryFs, path: &str, options: OpenOptions) -> (r: Result<File, VfsError>)
        requires
            old(fs).wf(),
        ensures
            final(fs).wf(),
            final(fs)@ == open_outcome(old(fs)@, path@, options@).0,
            match r {
                Ok(f) => open_outcome(old(fs)@, path@, options@).1 matches Ok(buf) && f@
                    == opened_view(path@, options@, buf),
                Err(e) => open_outcome(old(fs)@, path@, options@).1 matches Err(flt) && flt == e@,
            },
    {
        let normalized = normalize(path);
        proof {
            lemma_normalize_idempotent(path@);
        }
        let present = fs.exists_path(normalized.as_str());
        if options.create_new && present {
            return Err(VfsError::AlreadyExists(normalized));
        }
        let buffer = if present && !options.truncate {
            fs.read(normalized.as_str())?
        } else {
            if !present && !(options.create || options.create_new) {
                return Err(not_found(normalized.as_str()));
            }
            Vec::new()
        };
        let writable = options.write || options.append || options.create || options.create_new;
        let cursor = if options.append {
            let n = buffer.len();
            assert(n <= u64::MAX);
            n as u64
        } else {
            0
        };
        if writable && (!present || options.truncate) {
            fs.write(normalized.as_str(), buffer.as_slice())?;
        }
        Ok(File { path: normalized, buffer, cursor, writable, dirty: false, holding: None })
    }

    /// The normalised path the handle was opened on.
    pub fn path(&self) -> (p: &str)
        ensures
            p@ == self@.path,
    {
        self.path.as_str()
    }

    /// What the handle's path leads to now.
    pub fn metadata(&self, fs: &MemoryFs) -> (r: Result<Metadata, VfsError>)
        requires
            fs.wf(),
        ensures
            reports(r, *fs, self@.path, true),
    {
        metadata(fs, self.path.as_str())
    }

    /// Accepts `permissions` for the handle's path when it still leads somewhere (modes are
    /// not recorded), or reports why it does not.
    pub fn set_permissions(&self, fs: &MemoryFs, permissions: crate::fs::Permissions) -> (r: Result<(), VfsError>)
        requires
            fs.wf(),
        ensures
            match r {
                Ok(()) => resolve_spec(fs@, self@.path, true) is Ok,
                Err(e) => resolve_spec(fs@, self@.path, true) matches Err(f) && f == e@,
            },
    {
        crate::fs::set_permissions(fs, self.path.as_str(), permissions)
    }

    /// Records `time` as the modification time of the handle's path.
    pub fn set_modified(&self, fs: &mut MemoryFs, time: SystemTime) -> (r: Result<(), VfsError>)
        requires
            old(fs).wf(),
        ensures
            final(fs).wf(),
            match r {
                Ok(()) => stamp_target(old(fs)@, self@.path) matches Ok(t) && final(fs)@ == old(fs)@
                    && final(fs).times() == old(fs).times().insert(t, time),
                Err(e) => stamp_target(old(fs)@, self@.path) matches Err(f) && f == e@ && *final(fs)
                    == *old(fs),
            },
    {
        fs.set_modified(self.path.as_str(), time)
    }

    fn require_writable(&self) -> (r: Result<(), VfsError>)
        ensures
            match r {
                Ok(()) => self@.writable,
                Err(e) => !self@.writable && e@ == Fault::NotWritable(self@.path),
            },
    {
        if self.writable {
            return Ok(());
        }
        Err(VfsError::NotWritable(self.path.clone()))
    }

    /// Writes the buffer back to the filesystem if it has unwritten changes.
    pub fn flush(&mut self, fs: &mut MemoryFs) -> (r: Result<(), VfsError>)
        requires
            old(fs).wf(),
        ensures
            final(fs).wf(),
            final(fs)@ == flushed(old(fs)@, old(self)@).0,
            match r {
                Ok(()) => flushed(old(fs)@, old(self)@).1 is Ok && final(self)@ == (FileView {
                    dirty: false,
                    ..old(self)@
                }),
                Err(e) => flushed(old(fs)@, old(self)@).1 matches Err(f) && f == e@ && final(self)@
                    == old(self)@,
            },
    {
        if !self.dirty {
            return Ok(());
        }
        fs.write(self.path.as_str(), self.buffer.as_slice())?;
        self.dirty = false;
        Ok(())
    }

    /// Flushes the handle.
    pub fn sync_all(&mut self, fs: &mut MemoryFs) -> (r: Result<(), VfsError>)
        requires
            old(fs).wf(),
        ensures
            final(fs).wf(),
            final(fs)@ == flushed(old(fs)@, old(self)@).0,
            match r {
                Ok(()) => flushed(old(fs)@, old(self)@).1 is Ok && final(self)@ == (FileView {
                    dirty: false,
                    ..old(self)@
                }),
                Err(e) => flushed(old(fs)@, old(self)@).1 matches Err(f) && f == e@ && final(self)@
                    == old(self)@,
            },
    {
        self.flush(fs)
    }

    /// Flushes the handle.
    pub fn sync_data(&mut self, fs: &mut MemoryFs) -> (r: Result<(), VfsError>)
        requires
            old(fs).wf(),
        ensures
            final(fs).wf(),
            final(fs)@ == flushed(old(fs)@, old(self)@).0,
            match r {
                Ok(()) => flushed(old(fs)@, old(self)@).1 is Ok && final(self)@ == (FileView {
                    dirty: false,
                    ..old(self)@
                }),
                Err(e) => flushed(old(fs)@, old(self)@).1 matches Err(f) && f == e@ && final(self)@
                    == old(self)@,
            },
    {
        self.flush(fs)
    }
}

/// The flags `File::create` opens with.
/// The flags `File::create_new` opens with: write, and create only a new file.
pub open spec fn create_new_flags() -> OpenFlags {
    OpenFlags { write: true, create_new: true, ..no_flags() }
}

pub open spec fn create_flags() -> OpenFlags {
    OpenFlags { write: true, create: true, truncate: true, ..no_flags() }
}

impl OpenOptions {
    /// Opens `path` with these options.
    pub fn open(&self, fs: &mut MemoryFs, path: &str) -> (r: Result<File, VfsError>)
        requires
            old(fs).wf(),
        ensures
            final(fs).wf(),
            final(fs)@ == open_outcome(old(fs)@, path@, self@).0,
            match r {
                Ok(f) => open_outcome(old(fs)@, path@, self@).1 matches Ok(buf) && f@ == opened_view(
                    path@,
                    self@,
                    buf,
                ),
                Err(e) => open_outcome(old(fs)@, path@, self@).1 matches Err(flt) && flt == e@,
            },
    {
        File::open_with(fs, path, *self)
    }
}

impl File {
    /// Reads up to `max` bytes from the cursor and advances it past them.
    pub fn read(&mut self, max: usize) -> (r: Result<Vec<u8>, VfsError>)
        ensures
            r matches Ok(out) && out@ == old(self)@.buffer.subrange(
                read_start(old(self)@),
                read_start(old(self)@) + out.len(),
            ) && out.len() == (if old(self)@.buffer.len() - read_start(old(self)@) < max {
                old(self)@.buffer.len() - read_start(old(self)@)
            } else {
                max as int
            }) && final(self)@ == (FileView {
                cursor: (old(self)@.cursor + out.len()) as u64,
                ..old(self)@
            }),
    {
        let len = self.buffer.len();
        let start: usize = if self.cursor < len as u64 {
            self.cursor as usize
        } else {
            len
        };
        let available = len - start;
        let count = if available < max {
            available
        } else {
            max
        };
        let mut out: Vec<u8> = Vec::new();
        let mut i: usize = 0;
        while i < count
            invariant
                i <= count,
                start + count <= self.buffer.len(),
                out@ == self.buffer@.subrange(start as int, start + i),
            decreases count - i,
        {
            out.push(self.buffer[start + i]);
            assert(out@ =~= self.buffer@.subrange(start as int, start + i + 1));
            i = i + 1;
        }
        assert(self.cursor + count <= u64::MAX) by {
            assert(count == 0 || self.cursor < len);
        }
        self.cursor = self.cursor + count as u64;
        Ok(out)
    }

    /// Reads everything from the cursor to the end.
    pub fn read_to_end(&mut self) -> (r: Result<Vec<u8>, VfsError>)
        ensures
            r matches Ok(out) && out@ == old(self)@.buffer.subrange(
                read_start(old(self)@),
                old(self)@.buffer.len() as int,
            ) && final(self)@ == (FileView {
                cursor: (old(self)@.cursor + out.len()) as u64,
                ..old(self)@
            }),
    {
        let len = self.buffer.len();
        self.read(len)
    }

    /// Reads everything from the cursor to the end as text; bytes that are not UTF-8 fail
    /// (the cursor still moves past them).
    pub fn read_to_string(&mut self) -> (r: Result<String, VfsError>)
        ensures
            final(self)@ == (FileView {
                cursor: (old(self)@.cursor + old(self)@.buffer.len() - read_start(old(self)@)) as u64,
                ..old(self)@
            }),
            match r {
                Ok(t) => vstd::utf8::valid_utf8(old(self)@.buffer.subrange(read_start(old(self)@), old(self)@.buffer.len() as int))
                    && t@ == vstd::utf8::decode_utf8(old(self)@.buffer.subrange(read_start(old(self)@), old(self)@.buffer.len() as int)),
                Err(e) => !vstd::utf8::valid_utf8(old(self)@.buffer.subrange(read_start(old(self)@), old(self)@.buffer.len() as int))
                    && e@ == Fault::InvalidUtf8(old(self)@.path),
            },
    {
        let bytes = self.read_to_end()?;
        match crate::text::utf8_text(bytes) {
            Some(text) => Ok(text),
            None => Err(VfsError::InvalidUtf8(self.path.clone())),
        }
    }

    /// Writes `data` at the cursor (past the end, the gap fills with zeros) and moves the
    /// cursor past it; the change reaches the filesystem on flush.
    pub fn write(&mut self, data: &[u8]) -> (r: Result<usize, VfsError>)
        requires
            old(self)@.cursor + data@.len() <= usize::MAX,
        ensures
            match r {
                Ok(n) => old(self)@.writable && n == data@.len() && final(self)@ == (FileView {
                    buffer: spliced(old(self)@.buffer, old(self)@.cursor as int, data@),
                    cursor: (old(self)@.cursor + data@.len()) as u64,
                    dirty: true,
                    ..old(self)@
                }),
                Err(e) => !old(self)@.writable && e@ == Fault::NotWritable(old(self)@.path)
                    && final(self)@ == old(self)@,
            },
    {
        self.require_writable()?;
        let start = self.cursor as usize;
        let ghost before = self.buffer@;
        let ghost pre = self@;
        while self.buffer.len() < start
            invariant
                self@ == (FileView { buffer: self.buffer@, ..pre }),
                before.len() <= self.buffer.len() <= (if before.len() > start {
                    before.len() as int
                } else {
                    start as int
                }),
                forall|j: int|
                    0 <= j < self.buffer.len() ==> #[trigger] self.buffer@[j] == (if j
                        < before.len() {
                        before[j]
                    } else {
                        0u8
                    }),
            decreases start - self.buffer.len(),
        {
            self.buffer.push(0);
        }
        let mut i: usize = 0;
        while i < data.len()
            invariant
                self@ == (FileView { buffer: self.buffer@, ..pre }),
                i <= data.len(),
                start + data.len() <= usize::MAX,
                start <= self.buffer.len(),
                self.buffer.len() == (if before.len() > start + i {
                    before.len() as int
                } else {
                    start + i
                }),
                forall|j: int|
                    0 <= j < self.buffer.len() ==> #[trigger] self.buffer@[j] == (if start <= j
                        < start + i {
                        data@[j - start]
                    } else if j < before.len() {
                        before[j]
                    } else {
                        0u8
                    }),
            decreases data.len() - i,
        {
            let at = start + i;
            if at < self.buffer.len() {
                self.buffer.set(at, data[i]);
            } else {
                self.buffer.push(data[i]);
            }
            i = i + 1;
        }
        proof {
            assert(self.buffer@ =~= spliced(before, start as int, data@));
        }
        let end = start + data.len();
        self.cursor = end as u64;
        self.dirty = true;
        Ok(data.len())
    }

    /// Writes all of `data`, as `write` does.
    pub fn write_all(&mut self, data: &[u8]) -> (r: Result<(), VfsError>)
        requires
            old(self)@.cursor + data@.len() <= usize::MAX,
        ensures
            match r {
                Ok(()) => old(self)@.writable && final(self)@ == (FileView {
                    buffer: spliced(old(self)@.buffer, old(self)@.cursor as int, data@),
                    cursor: (old(self)@.cursor + data@.len()) as u64,
                    dirty: true,
                    ..old(self)@
                }),
                Err(e) => !old(self)@.writable && e@ == Fault::NotWritable(old(self)@.path)
                    && final(self)@ == old(self)@,
            },
    {
        self.write(data)?;
        Ok(())
    }

    /// Moves the cursor; a target before the start fails and leaves it where it was.
    pub fn seek(&mut self, position: SeekFrom) -> (r: Result<u64, VfsError>)
        requires
            old(self)@.buffer.len() <= i64::MAX,
        ensures
            match r {
                Ok(c) => seek_target(old(self)@.buffer.len() as int, old(self)@.cursor as int, position) >= 0
                    && c == seek_target(old(self)@.buffer.len() as int, old(self)@.cursor as int, position)
                    && final(self)@ == (FileView { cursor: c, ..old(self)@ }),
                Err(e) => seek_target(old(self)@.buffer.len() as int, old(self)@.cursor as int, position) < 0
                    && e@ == Fault::SeekBeforeStart && final(self)@ == old(self)@,
            },
    {
        let length = self.buffer.len() as i128;
        let current: i128 = if self.cursor > i64::MAX as u64 {
            i64::MAX as i128
        } else {
            self.cursor as i128
        };
        let raw: i128 = match position {
            SeekFrom::Start(offset) => offset as i128,
            SeekFrom::End(offset) => length + offset as i128,
            SeekFrom::Current(offset) => current + offset as i128,
        };
        let target: i128 = if raw > i64::MAX as i128 {
            i64::MAX as i128
        } else if raw < i64::MIN as i128 {
            i64::MIN as i128
        } else {
            raw
        };
        if target < 0 {
            return Err(VfsError::SeekBeforeStart);
        }
        self.cursor = target as u64;
        Ok(self.cursor)
    }

    /// Cuts or zero-extends the file to `size` bytes (the cursor stays within it) and writes
    /// it back at once.
    pub fn set_len(&mut self, fs: &mut MemoryFs, size: u64) -> (r: Result<(), VfsError>)
        requires
            old(fs).wf(),
        ensures
            final(fs).wf(),
            !old(self)@.writable ==> (r matches Err(e) && e@ == Fault::NotWritable(old(self)@.path)
                && final(self)@ == old(self)@ && *final(fs) == *old(fs)),
            old(self)@.writable ==> {
                let n = if size > usize::MAX { usize::MAX as int } else { size as int };
                let cut = FileView {
                    buffer: resized(old(self)@.buffer, n),
                    cursor: if old(self)@.cursor < n { old(self)@.cursor } else { n as u64 },
                    dirty: true,
                    ..old(self)@
                };
                &&& final(fs)@ == flushed(old(fs)@, cut).0
                &&& match r {
                    Ok(()) => flushed(old(fs)@, cut).1 is Ok && final(self)@ == (FileView { dirty: false, ..cut }),
                    Err(e) => flushed(old(fs)@, cut).1 matches Err(f) && f == e@ && final(self)@ == cut,
                }
            },
    {
        self.require_writable()?;
        let n: usize = if size > usize::MAX as u64 {
            usize::MAX
        } else {
            size as usize
        };
        let ghost before = self.buffer@;
        self.buffer.resize(n, 0u8);
        proof {
            assert forall|i: int| before.len() <= i < n implies self.buffer@[i] == 0u8 by {
                assert(vstd::pervasive::cloned::<u8>(0u8, self.buffer@[i]));
            }
            assert(self.buffer@ =~= resized(before, n as int));
        }
        if (n as u64) < self.cursor {
            self.cursor = n as u64;
        }
        self.dirty = true;
        self.flush(fs)
    }

    /// Takes an exclusive lock, or reports that another handle holds the path.
    pub fn lock(&mut self, locks: &mut AdvisoryLocks) -> (r: Result<(), VfsError>)
        requires
            coherent(old(locks)@),
        ensures
            coherent(final(locks)@),
            final(locks)@ == lock_attempt(old(locks)@, old(self)@.path, old(self)@.holding, LockKind::Exclusive).0,
            final(self)@ == (FileView {
                holding: lock_attempt(old(locks)@, old(self)@.path, old(self)@.holding, LockKind::Exclusive).1,
                ..old(self)@
            }),
            match r {
                Ok(()) => lock_attempt(old(locks)@, old(self)@.path, old(self)@.holding, LockKind::Exclusive).1 is Some,
                Err(e) => lock_attempt(old(locks)@, old(self)@.path, old(self)@.holding, LockKind::Exclusive).1 is None
                    && e@ == Fault::Locked(old(self)@.path),
            },
    {
        self.take_or_report_contention(locks, LockKind::Exclusive)
    }

    /// Takes a shared lock, or reports that another handle holds the path exclusively.
    pub fn lock_shared(&mut self, locks: &mut AdvisoryLocks) -> (r: Result<(), VfsError>)
        requires
            coherent(old(locks)@),
            state_of(old(locks)@, old(self)@.path).shared < usize::MAX,
        ensures
            coherent(final(locks)@),
            final(locks)@ == lock_attempt(old(locks)@, old(self)@.path, old(self)@.holding, LockKind::Shared).0,
            final(self)@ == (FileView {
                holding: lock_attempt(old(locks)@, old(self)@.path, old(self)@.holding, LockKind::Shared).1,
                ..old(self)@
            }),
            match r {
                Ok(()) => lock_attempt(old(locks)@, old(self)@.path, old(self)@.holding, LockKind::Shared).1 is Some,
                Err(e) => lock_attempt(old(locks)@, old(self)@.path, old(self)@.holding, LockKind::Shared).1 is None
                    && e@ == Fault::Locked(old(self)@.path),
            },
    {
        self.take_or_report_contention(locks, LockKind::Shared)
    }

    /// Takes an exclusive lock if no other handle holds the path.
    pub fn try_lock(&mut self, locks: &mut AdvisoryLocks) -> (r: Result<(), TryLockError>)
        requires
            coherent(old(locks)@),
        ensures
            coherent(final(locks)@),
            final(locks)@ == lock_attempt(old(locks)@, old(self)@.path, old(self)@.holding, LockKind::Exclusive).0,
            final(self)@ == (FileView {
                holding: lock_attempt(old(locks)@, old(self)@.path, old(self)@.holding, LockKind::Exclusive).1,
                ..old(self)@
            }),
            r is Ok == lock_attempt(old(locks)@, old(self)@.path, old(self)@.holding, LockKind::Exclusive).1 is Some,
    {
        self.try_take(locks, LockKind::Exclusive)
    }

    /// Takes a shared lock if no other handle holds the path exclusively.
    pub fn try_lock_shared(&mut self, locks: &mut AdvisoryLocks) -> (r: Result<(), TryLockError>)
        requires
            coherent(old(locks)@),
            state_of(old(locks)@, old(self)@.path).shared < usize::MAX,
        ensures
            coherent(final(locks)@),
            final(locks)@ == lock_attempt(old(locks)@, old(self)@.path, old(self)@.holding, LockKind::Shared).0,
            final(self)@ == (FileView {
                holding: lock_attempt(old(locks)@, old(self)@.path, old(self)@.holding, LockKind::Shared).1,
                ..old(self)@
            }),
            r is Ok == lock_attempt(old(locks)@, old(self)@.path, old(self)@.holding, LockKind::Shared).1 is Some,
    {
        self.try_take(locks, LockKind::Shared)
    }

    /// Lets go of whatever lock the handle holds; never fails.
    pub fn unlock(&mut self, locks: &mut AdvisoryLocks) -> (r: Result<(), VfsError>)
        requires
            coherent(old(locks)@),
        ensures
            r is Ok,
            coherent(final(locks)@),
            final(locks)@ == released(old(locks)@, old(self)@.path, old(self)@.holding),
            final(self)@ == (FileView { holding: None, ..old(self)@ }),
    {
        release(locks, self.path.as_str(), &mut self.holding);
        Ok(())
    }

    fn try_take(&mut self, locks: &mut AdvisoryLocks, kind: LockKind) -> (r: Result<(), TryLockError>)
        requires
            coherent(old(locks)@),
            kind == LockKind::Shared ==> state_of(old(locks)@, old(self)@.path).shared < usize::MAX,
        ensures
            coherent(final(locks)@),
            final(locks)@ == lock_attempt(old(locks)@, old(self)@.path, old(self)@.holding, kind).0,
            final(self)@ == (FileView {
                holding: lock_attempt(old(locks)@, old(self)@.path, old(self)@.holding, kind).1,
                ..old(self)@
            }),
            r is Ok == lock_attempt(old(locks)@, old(self)@.path, old(self)@.holding, kind).1 is Some,
    {
        if acquire(locks, self.path.as_str(), &mut self.holding, kind) {
            return Ok(());
        }
        Err(TryLockError::WouldBlock)
    }

    fn take_or_report_contention(&mut self, locks: &mut AdvisoryLocks, kind: LockKind) -> (r: Result<(), VfsError>)
        requires
            coherent(old(locks)@),
            kind == LockKind::Shared ==> state_of(old(locks)@, old(self)@.path).shared < usize::MAX,
        ensures
            coherent(final(locks)@),
            final(locks)@ == lock_attempt(old(locks)@, old(self)@.path, old(self)@.holding, kind).0,
            final(self)@ == (FileView {
                holding: lock_attempt(old(locks)@, old(self)@.path, old(self)@.holding, kind).1,
                ..old(self)@
            }),
            match r {
                Ok(()) => lock_attempt(old(locks)@, old(self)@.path, old(self)@.holding, kind).1 is Some,
                Err(e) => lock_attempt(old(locks)@, old(self)@.path, old(self)@.holding, kind).1 is None
                    && e@ == Fault::Locked(old(self)@.path),
            },
    {
        if acquire(locks, self.path.as_str(), &mut self.holding, kind) {
            return Ok(());
        }
        Err(VfsError::Locked(self.path.clone()))
    }

    /// Closes the handle: flushes what it buffered (a failure to write back is dropped, as
    /// a handle going out of scope drops it) and lets go of its lock.
    pub fn close(self, fs: &mut MemoryFs, locks: &mut AdvisoryLocks)
        requires
            old(fs).wf(),
            coherent(old(locks)@),
        ensures
            final(fs).wf(),
            final(fs)@ == flushed(old(fs)@, self@).0,
            coherent(final(locks)@),
            final(locks)@ == released(old(locks)@, self@.path, self@.holding),
    {
        let mut handle = self;
        let _ = handle.flush(fs);
        release(locks, handle.path.as_str(), &mut handle.holding);
    }
}

} // verus!

verus! {

/// While a path is held exclusively, a handle that holds nothing there is refused either kind
/// of lock, and the table is left as it was.
pub proof fn law_exclusive_excludes(
    m: Map<Seq<char>, crate::locks::LockState>,
    path: Seq<char>,
    kind: LockKind,
)
    requires
        state_of(m, path).exclusive,
    ensures
        lock_attempt(m, path, None, kind) == (m, None::<LockKind>),
{
}

/// While nobody holds a path exclusively, a handle that holds nothing there is granted a
/// shared lock.
pub proof fn law_shared_coexist(m: Map<Seq<char>, crate::locks::LockState>, path: Seq<char>)
    requires
        !state_of(m, path).exclusive,
    ensures
        lock_attempt(m, path, None, LockKind::Shared).1 == Some(LockKind::Shared),
{
}

/// Releasing a lock just granted to a handle that held nothing gives back the table as it
/// was.
pub proof fn law_release_undoes_lock(
    m: Map<Seq<char>, crate::locks::LockState>,
    path: Seq<char>,
    kind: LockKind,
)
    requires
        coherent(m),
        kind == LockKind::Shared ==> state_of(m, path).shared < usize::MAX,
        lock_attempt(m, path, None, kind).1 is Some,
    ensures
        released(lock_attempt(m, path, None, kind).0, path, Some(kind)) == m,
{
    let s = state_of(m, path);
    let after = lock_attempt(m, path, None, kind).0;
    assert(after == m.insert(path, taken(s, kind)));
    assert(crate::locks::let_go(taken(s, kind), kind) == s);
    if m.contains_key(path) {
        assert(!s.free());
        assert(released(after, path, Some(kind)) =~= m);
    } else {
        assert(s == crate::locks::unheld());
        assert(released(after, path, Some(kind)) =~= m);
    }
}

/// Whatever a lock attempt does, the table stays coherent: no path is both held exclusively
/// and shared.
pub proof fn law_locks_stay_coherent(
    m: Map<Seq<char>, crate::locks::LockState>,
    path: Seq<char>,
    holding: Option<LockKind>,
    kind: LockKind,
)
    requires
        coherent(m),
        kind == LockKind::Shared ==> state_of(m, path).shared < usize::MAX,
    ensures
        coherent(lock_attempt(m, path, holding, kind).0),
        coherent(released(m, path, holding)),
{
    let m1 = released(m, path, holding);
    assert(coherent(m1));
    let s = state_of(m1, path);
    if s.grants(kind) {
        assert(state_of(m1, path).shared <= state_of(m, path).shared);
        assert(coherent(m1.insert(path, taken(s, kind))));
    }
}

/// The flags of `OpenOptions::new().append(true)`.
pub open spec fn append_flags() -> OpenFlags {
    OpenFlags { append: true, ..no_flags() }
}

/// Appending round-trips: opening a regular file `c` (whose directory exists) with only
/// `append` set leaves the filesystem as it was and yields a writable handle on `c` with the
/// cursor at its end; writing `d` there and flushing makes the file read back as `c` then `d`.
pub proof fn law_append_round_trip(m: Contents, path: Seq<char>, c: Seq<u8>, d: Seq<u8>)
    requires
        path.len() > 0,
        read_spec(m, normalize_spec(path)) == Ok::<Seq<u8>, Fault>(c),
        write_target(m, path) is Ok,
        c.len() <= u64::MAX,
    ensures
        open_outcome(m, path, append_flags()).0 == m,
        open_outcome(m, path, append_flags()).1 == Ok::<Seq<u8>, Fault>(c),
        opened_view(path, append_flags(), c).writable,
        opened_view(path, append_flags(), c).cursor == c.len(),
        ({
            let f = opened_view(path, append_flags(), c);
            let g = FileView {
                buffer: spliced(f.buffer, f.cursor as int, d),
                cursor: (f.cursor + d.len()) as u64,
                dirty: true,
                ..f
            };
            &&& flushed(m, g).1 is Ok
            &&& read_spec(flushed(m, g).0, path) == Ok::<Seq<u8>, Fault>(c + d)
        }),
{
    let t = normalize_spec(path);
    lemma_normalize_idempotent(path);
    assert(resolve_spec(m, t, true) is Ok);
    let f = opened_view(path, append_flags(), c);
    let g = FileView {
        buffer: spliced(f.buffer, f.cursor as int, d),
        cursor: (f.cursor + d.len()) as u64,
        dirty: true,
        ..f
    };
    assert(spliced(c, c.len() as int, d) =~= c + d);
    assert(write_target(m, path) == Ok::<Seq<char>, Fault>(t));
    assert(write_target(m, t) == Ok::<Seq<char>, Fault>(t));
    crate::memory::law_read_after_write(m, path, c + d);
    assert(flushed(m, g).0 == m.insert(t, Entry::File(c + d)));
}

} // verus!
