use uv_wasm::git::{git_lfs, GitError};
use uv_wasm::printer::{Printer, ProgressTarget, Stderr, Stdout};

#[test]
fn one_quiet_flag_keeps_important_output() {
    let printer = Printer::new(1, 0, false);
    assert_eq!(printer, Printer::Quiet);
    assert_eq!(printer.stdout_important(), Stdout::Enabled);
    assert_eq!(printer.stdout(), Stdout::Disabled);
    assert_eq!(printer.stderr_important(), Stderr::Enabled);
    assert_eq!(printer.stderr(), Stderr::Disabled);
}

#[test]
fn two_quiet_flags_silence_everything() {
    let printer = Printer::new(2, 3, true);
    assert_eq!(printer, Printer::Silent);
    assert_eq!(printer.stdout_important(), Stdout::Disabled);
    assert!(!printer.stderr_important().writes());
}

#[test]
fn only_the_default_printer_draws_progress() {
    assert_eq!(Printer::new(0, 0, false).target(), ProgressTarget::Stderr);
    assert_eq!(Printer::new(0, 1, false).target(), ProgressTarget::Hidden);
    assert_eq!(Printer::new(0, 0, true).target(), ProgressTarget::Hidden);
    assert_eq!(Printer::new(0, 0, true), Printer::NoProgress);
}

#[test]
fn git_errors_describe_themselves() {
    assert_eq!(
        GitError::GitLfsNotConfigured.message(),
        "Is Git LFS configured? Run `\u{1b}[32mgit lfs install\u{1b}[39m` to initialize Git LFS."
    );
    assert!(GitError::TransportNotAllowed.message().contains("--offline"));
    assert_eq!(git_lfs(), Err(GitError::GitLfsNotFound));
}

#[test]
fn a_fetch_reports_what_it_was_made_with() {
    let fetch = uv_wasm::git::Fetch::new(
        "https://github.com/astral-sh/uv".to_string(),
        "/cache/git-v0/checkouts/uv".to_string(),
        true,
    );
    assert_eq!(fetch.git(), "https://github.com/astral-sh/uv");
    assert_eq!(fetch.path(), "/cache/git-v0/checkouts/uv");
    assert!(*fetch.lfs_ready());
}
