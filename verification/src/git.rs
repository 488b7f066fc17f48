//! The failures of Git operations in the browser.
use owo_colors::OwoColorize;
use vstd::prelude::*;

verus! {

/// Why a Git operation cannot go ahead.
#[derive(Debug, Clone, Copy, PartialEq, Eq, Structural)]
pub enum GitError {
    GitNotFound,
    GitLfsNotFound,
    GitLfsNotConfigured,
    TransportNotAllowed,
}

/// `text` in green, as `owo_colors` renders `text.green()`.
pub open spec fn in_green(text: Seq<char>) -> Seq<char> {
    "\u{1b}[32m"@ + text + "\u{1b}[39m"@
}

/// `owo_colors::OwoColorize::green`, displayed: the text between the escape that starts
/// green and the one that restores the default foreground.
#[verifier::external_body]
fn green(text: &str) -> (r: String)
    ensures
        r@ == in_green(text@),
{
    format!("{}", text.green())
}

/// The sentence each failure displays as.
pub open spec fn git_message(e: GitError) -> Seq<char> {
    match e {
        GitError::GitNotFound => "Git executable not found. Ensure that Git is installed and available."@,
        GitError::GitLfsNotFound => "Git LFS extension not found. Ensure that Git LFS is installed and available."@,
        GitError::GitLfsNotConfigured => "Is Git LFS configured? Run `"@ + in_green("git lfs install"@)
            + "` to initialize Git LFS."@,
        GitError::TransportNotAllowed => "Remote Git fetches are not allowed because network connectivity is disabled (i.e., with `--offline`)"@,
    }
}

impl GitError {
    /// The sentence the failure displays as.
    pub fn message(&self) -> (m: String)
        ensures
            m@ == git_message(*self),
    {
        match self {
            GitError::GitNotFound => String::from_str(
                "Git executable not found. Ensure that Git is installed and available.",
            ),
            GitError::GitLfsNotFound => String::from_str(
                "Git LFS extension not found. Ensure that Git LFS is installed and available.",
            ),
            GitError::GitLfsNotConfigured => {
                let command = green("git lfs install");
                let s = String::from_str("Is Git LFS configured? Run `").concat(command.as_str());
                s.concat("` to initialize Git LFS.")
            },
            GitError::TransportNotAllowed => String::from_str(
                "Remote Git fetches are not allowed because network connectivity is disabled (i.e., with `--offline`)",
            ),
        }
    }
}

/// Git LFS in the browser: never available.
pub fn git_lfs() -> (r: Result<(), GitError>)
    ensures
        r matches Err(e) && e == GitError::GitLfsNotFound,
{
    Err(GitError::GitLfsNotFound)
}

/// A fetched Git repository: the URL it was fetched from (as text), where it is checked
/// out, and whether its Git LFS artifacts were initialised.
#[derive(Debug, Clone)]
pub struct Fetch {
    git: String,
    path: String,
    lfs_ready: bool,
}

impl Fetch {
    pub fn new(git: String, path: String, lfs_ready: bool) -> (f: Fetch)
        ensures
            f.git_text() == git@,
            f.path_text() == path@,
            f.lfs() == lfs_ready,
    {
        Fetch { git, path, lfs_ready }
    }

    pub closed spec fn git_text(&self) -> Seq<char> {
        self.git@
    }

    pub closed spec fn path_text(&self) -> Seq<char> {
        self.path@
    }

    pub closed spec fn lfs(&self) -> bool {
        self.lfs_ready
    }

    /// The URL the repository was fetched from.
    pub fn git(&self) -> (r: &str)
        ensures
            r@ == self.git_text(),
    {
        self.git.as_str()
    }

    /// Where the repository is checked out.
    pub fn path(&self) -> (r: &str)
        ensures
            r@ == self.path_text(),
    {
        self.path.as_str()
    }

    /// Whether the Git LFS artifacts were initialised.
    pub fn lfs_ready(&self) -> (r: &bool)
        ensures
            *r == self.lfs(),
    {
        &self.lfs_ready
    }
}

} // verus!
