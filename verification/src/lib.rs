use vstd::prelude::*;

pub mod cache;
pub mod clock;
pub mod env;
pub mod error;
pub mod file;
pub mod git;
pub mod file_url;
pub mod glob;
pub mod head;
pub mod headers;
pub mod http;
pub mod io;
pub mod fs;
pub mod locks;
pub mod memory;
pub mod table;
pub mod path;
pub mod pep517;
pub mod process;
pub mod printer;
pub mod prompt;
pub mod range;
pub mod stdin;
pub mod temp;
pub mod term;
pub mod text;
pub mod time;
pub mod walk;
pub mod which;

verus! {

} // verus!
