//! Locating executables on the virtual host, where no program can be run: no search ever
//! finds one, and no file of the filesystem carries an execute bit.
use vstd::prelude::*;

use crate::fs::FILE_MODE;
use crate::memory::{kind_of, resolve_spec, MemoryFs, VfsKind};

verus! {

/// Why a search for a program failed.
#[derive(Debug, Clone, Copy, PartialEq, Eq, Structural)]
pub enum WhichError {
    CannotFindBinaryPath,
}

/// The path of the program `binary_name` on the search path: never found here.
pub fn which(binary_name: &str) -> (r: Result<String, WhichError>)
    ensures
        r == Err::<String, WhichError>(WhichError::CannotFindBinaryPath),
{
    Err(WhichError::CannotFindBinaryPath)
}

/// Every path of the program `binary_name` on the search path: none here.
pub fn which_all(binary_name: &str) -> (r: Result<Vec<String>, WhichError>)
    ensures
        r matches Ok(found) && found@.len() == 0,
{
    Ok(Vec::new())
}

/// Every path of the program `binary_name` on the given search path: none here.
pub fn which_in_global(binary_name: &str, paths: Option<&str>) -> (r: Result<Vec<String>, WhichError>)
    ensures
        r matches Ok(found) && found@.len() == 0,
{
    Ok(Vec::new())
}

/// Whether the mode has an execute bit.
pub open spec fn executable_mode(mode: u32) -> bool {
    mode & 0o111 != 0
}

/// Whether `path` leads to a file whose mode has an execute bit. Files of the virtual
/// filesystem report mode `0o644`, so none is executable.
pub fn is_executable(fs: &MemoryFs, path: &str) -> (r: bool)
    requires
        fs.wf(),
    ensures
        r == (resolve_spec(fs@, path@, true) matches Ok((_, e)) && kind_of(e) == VfsKind::File
            && executable_mode(FILE_MODE)),
        !r,
{
    assert(0o644u32 & 0o111u32 == 0) by (bit_vector);
    match crate::fs::metadata(fs, path) {
        Ok(m) => m.is_file() && m.permissions().mode() & 0o111 != 0,
        Err(_) => false,
    }
}

} // verus!
