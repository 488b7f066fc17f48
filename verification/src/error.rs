//! The failures of the virtual filesystem, with the `io::ErrorKind` each maps to.
use vstd::prelude::*;
use vstd::string::*;

verus! {

/// The `std::io::ErrorKind` a failure is reported with.
#[derive(Debug, Clone, Copy, PartialEq, Eq, Structural)]
pub enum ErrorKind {
    NotFound,
    IsADirectory,
    NotADirectory,
    AlreadyExists,
    InvalidInput,
    InvalidData,
    Unsupported,
    PermissionDenied,
    WouldBlock,
    Other,
}

/// A failure of a filesystem operation, naming the path it concerns.
#[derive(Debug)]
pub enum VfsError {
    /// `{path} was not found`
    NotFound(String),
    /// `{path} is not a file` (a read of something other than a file)
    NotAFile(String),
    /// `{path} is a directory`
    IsADirectory(String),
    /// `{path} is not a directory`
    NotADirectory(String),
    /// `{path} exists and is not a directory`
    BlockedByFile(String),
    /// `{path} is not a symbolic link`
    NotASymlink(String),
    /// `too many symbolic links while resolving {path}`
    TooManyLinks(String),
    /// `{path} already exists`
    AlreadyExists(String),
    /// `{path} was not opened for writing`
    NotWritable(String),
    /// `{path} is locked by another handle ...`
    Locked(String),
    /// `{path} is not valid UTF-8`
    InvalidUtf8(String),
    /// `cannot seek before the start of the file`
    SeekBeforeStart,
    /// `creation time is not recorded by the virtual filesystem`
    CreationTimeUnrecorded,
    /// `{operation} is not supported on {path}`
    Unsupported { operation: String, path: String },
    /// `this command reads from standard input, which the browser does not have; ...`
    NoInput,
    /// `stream did not contain valid UTF-8`
    InvalidInput,
    /// `` `{program}` cannot be started: the browser has no process to run it in ``
    NoProcess(String),
    /// A failure reported with its own words.
    Other(String),
}

/// What a failure says, with its strings taken by their characters.
pub enum Fault {
    NotFound(Seq<char>),
    NotAFile(Seq<char>),
    IsADirectory(Seq<char>),
    NotADirectory(Seq<char>),
    BlockedByFile(Seq<char>),
    NotASymlink(Seq<char>),
    TooManyLinks(Seq<char>),
    AlreadyExists(Seq<char>),
    NotWritable(Seq<char>),
    Locked(Seq<char>),
    InvalidUtf8(Seq<char>),
    SeekBeforeStart,
    CreationTimeUnrecorded,
    Unsupported(Seq<char>, Seq<char>),
    NoInput,
    InvalidInput,
    NoProcess(Seq<char>),
    Other(Seq<char>),
}

impl View for VfsError {
    type V = Fault;

    open spec fn view(&self) -> Fault {
        match self {
            VfsError::NotFound(p) => Fault::NotFound(p@),
            VfsError::NotAFile(p) => Fault::NotAFile(p@),
            VfsError::IsADirectory(p) => Fault::IsADirectory(p@),
            VfsError::NotADirectory(p) => Fault::NotADirectory(p@),
            VfsError::BlockedByFile(p) => Fault::BlockedByFile(p@),
            VfsError::NotASymlink(p) => Fault::NotASymlink(p@),
            VfsError::TooManyLinks(p) => Fault::TooManyLinks(p@),
            VfsError::AlreadyExists(p) => Fault::AlreadyExists(p@),
            VfsError::NotWritable(p) => Fault::NotWritable(p@),
            VfsError::Locked(p) => Fault::Locked(p@),
            VfsError::InvalidUtf8(p) => Fault::InvalidUtf8(p@),
            VfsError::SeekBeforeStart => Fault::SeekBeforeStart,
            VfsError::CreationTimeUnrecorded => Fault::CreationTimeUnrecorded,
            VfsError::Unsupported { operation, path } => Fault::Unsupported(operation@, path@),
            VfsError::NoInput => Fault::NoInput,
            VfsError::InvalidInput => Fault::InvalidInput,
            VfsError::NoProcess(p) => Fault::NoProcess(p@),
            VfsError::Other(m) => Fault::Other(m@),
        }
    }
}

/// The kind each fault is reported with.
pub open spec fn fault_kind(f: Fault) -> ErrorKind {
    match f {
        Fault::NotFound(_) => ErrorKind::NotFound,
        Fault::NotAFile(_) => ErrorKind::IsADirectory,
        Fault::IsADirectory(_) => ErrorKind::IsADirectory,
        Fault::NotADirectory(_) => ErrorKind::NotADirectory,
        Fault::BlockedByFile(_) => ErrorKind::AlreadyExists,
        Fault::NotASymlink(_) => ErrorKind::InvalidInput,
        Fault::TooManyLinks(_) => ErrorKind::InvalidData,
        Fault::AlreadyExists(_) => ErrorKind::AlreadyExists,
        Fault::NotWritable(_) => ErrorKind::PermissionDenied,
        Fault::Locked(_) => ErrorKind::WouldBlock,
        Fault::InvalidUtf8(_) => ErrorKind::InvalidData,
        Fault::SeekBeforeStart => ErrorKind::InvalidInput,
        Fault::CreationTimeUnrecorded => ErrorKind::Unsupported,
        Fault::Unsupported(_, _) => ErrorKind::Unsupported,
        Fault::NoInput => ErrorKind::Other,
        Fault::InvalidInput => ErrorKind::InvalidData,
        Fault::NoProcess(_) => ErrorKind::Unsupported,
        Fault::Other(_) => ErrorKind::Other,
    }
}

impl VfsError {
    /// The `io::ErrorKind` this failure is reported with.
    pub fn kind(&self) -> (k: ErrorKind)
        ensures
            k == fault_kind(self@),
    {
        match self {
            VfsError::NotFound(_) => ErrorKind::NotFound,
            VfsError::NotAFile(_) => ErrorKind::IsADirectory,
            VfsError::IsADirectory(_) => ErrorKind::IsADirectory,
            VfsError::NotADirectory(_) => ErrorKind::NotADirectory,
            VfsError::BlockedByFile(_) => ErrorKind::AlreadyExists,
            VfsError::NotASymlink(_) => ErrorKind::InvalidInput,
            VfsError::TooManyLinks(_) => ErrorKind::InvalidData,
            VfsError::AlreadyExists(_) => ErrorKind::AlreadyExists,
            VfsError::NotWritable(_) => ErrorKind::PermissionDenied,
            VfsError::Locked(_) => ErrorKind::WouldBlock,
            VfsError::InvalidUtf8(_) => ErrorKind::InvalidData,
            VfsError::SeekBeforeStart => ErrorKind::InvalidInput,
            VfsError::CreationTimeUnrecorded => ErrorKind::Unsupported,
            VfsError::Unsupported { .. } => ErrorKind::Unsupported,
            VfsError::NoInput => ErrorKind::Other,
            VfsError::InvalidInput => ErrorKind::InvalidData,
            VfsError::NoProcess(_) => ErrorKind::Unsupported,
            VfsError::Other(_) => ErrorKind::Other,
        }
    }

    /// The sentence the failure displays as.
    pub fn message(&self) -> (m: String)
        ensures
            m@ == fault_message(self@),
    {
        match self {
            VfsError::NotFound(p) => suffixed(p, " was not found"),
            VfsError::NotAFile(p) => suffixed(p, " is not a file"),
            VfsError::IsADirectory(p) => suffixed(p, " is a directory"),
            VfsError::NotADirectory(p) => suffixed(p, " is not a directory"),
            VfsError::BlockedByFile(p) => suffixed(p, " exists and is not a directory"),
            VfsError::NotASymlink(p) => suffixed(p, " is not a symbolic link"),
            VfsError::TooManyLinks(p) => {
                let s = String::from_str("too many symbolic links while resolving ");
                s.concat(p.as_str())
            },
            VfsError::AlreadyExists(p) => suffixed(p, " already exists"),
            VfsError::NotWritable(p) => suffixed(p, " was not opened for writing"),
            VfsError::Locked(p) => suffixed(
                p,
                " is locked by another handle on this thread, which cannot release it while we wait",
            ),
            VfsError::InvalidUtf8(p) => suffixed(p, " is not valid UTF-8"),
            VfsError::SeekBeforeStart => String::from_str("cannot seek before the start of the file"),
            VfsError::CreationTimeUnrecorded => String::from_str(
                "creation time is not recorded by the virtual filesystem",
            ),
            VfsError::Unsupported { operation, path } => {
                let s = operation.clone().concat(" is not supported on ");
                s.concat(path.as_str())
            },
            VfsError::NoInput => String::from_str(
                "this command reads from standard input, which the browser does not have; supply it with the invocation",
            ),
            VfsError::InvalidInput => String::from_str("stream did not contain valid UTF-8"),
            VfsError::NoProcess(p) => {
                let s = String::from_str("`").concat(p.as_str());
                s.concat("` cannot be started: the browser has no process to run it in")
            },
            VfsError::Other(m) => m.clone(),
        }
    }
}

fn suffixed(p: &String, suffix: &str) -> (m: String)
    ensures
        m@ == p@ + suffix@,
{
    p.clone().concat(suffix)
}

/// The sentence of each fault.
pub open spec fn fault_message(f: Fault) -> Seq<char> {
    match f {
        Fault::NotFound(p) => p + " was not found"@,
        Fault::NotAFile(p) => p + " is not a file"@,
        Fault::IsADirectory(p) => p + " is a directory"@,
        Fault::NotADirectory(p) => p + " is not a directory"@,
        Fault::BlockedByFile(p) => p + " exists and is not a directory"@,
        Fault::NotASymlink(p) => p + " is not a symbolic link"@,
        Fault::TooManyLinks(p) => "too many symbolic links while resolving "@ + p,
        Fault::AlreadyExists(p) => p + " already exists"@,
        Fault::NotWritable(p) => p + " was not opened for writing"@,
        Fault::Locked(p) => p
            + " is locked by another handle on this thread, which cannot release it while we wait"@,
        Fault::InvalidUtf8(p) => p + " is not valid UTF-8"@,
        Fault::SeekBeforeStart => "cannot seek before the start of the file"@,
        Fault::CreationTimeUnrecorded => "creation time is not recorded by the virtual filesystem"@,
        Fault::Unsupported(op, p) => op + " is not supported on "@ + p,
        Fault::NoInput => "this command reads from standard input, which the browser does not have; supply it with the invocation"@,
        Fault::InvalidInput => "stream did not contain valid UTF-8"@,
        Fault::NoProcess(p) => "`"@ + p + "` cannot be started: the browser has no process to run it in"@,
        Fault::Other(m) => m,
    }
}

/// The failure for a path that does not exist.
pub fn not_found(path: &str) -> (e: VfsError)
    ensures
        e@ == Fault::NotFound(path@),
{
    VfsError::NotFound(String::from_str(path))
}

/// The failure for an operation the virtual filesystem does not offer.
pub fn unsupported(operation: &str, path: &str) -> (e: VfsError)
    ensures
        e@ == Fault::Unsupported(operation@, path@),
{
    VfsError::Unsupported { operation: String::from_str(operation), path: String::from_str(path) }
}

} // verus!
