//! How much a command prints, from the global output settings.
use vstd::prelude::*;

verus! {

/// How much output a command produces.
#[derive(Debug, Clone, Copy, PartialEq, Eq, Structural)]
pub enum Printer {
    /// Suppresses all output.
    Silent,
    /// Suppresses most output, but keeps "important" standard output.
    Quiet,
    /// Prints to the standard streams.
    Default,
    /// Prints everything, debug messages included.
    Verbose,
    /// Prints to the standard streams, without progress output.
    NoProgress,
}

/// Where progress bars are drawn.
#[derive(Debug, Clone, Copy, PartialEq, Eq, Structural)]
pub enum ProgressTarget {
    Hidden,
    Stderr,
}

/// Whether standard output is written.
#[derive(Debug, Clone, Copy, PartialEq, Eq, Structural)]
pub enum Stdout {
    Enabled,
    Disabled,
}

/// Whether standard error is written.
#[derive(Debug, Clone, Copy, PartialEq, Eq, Structural)]
pub enum Stderr {
    Enabled,
    Disabled,
}

/// The printer the flags select: one `-q` is quiet, more are silent; otherwise `-v` is
/// verbose, and `--no-progress` drops progress output.
pub open spec fn printer_for(quiet: u8, verbose: u8, no_progress: bool) -> Printer {
    if quiet == 1 {
        Printer::Quiet
    } else if quiet > 1 {
        Printer::Silent
    } else if verbose > 0 {
        Printer::Verbose
    } else if no_progress {
        Printer::NoProgress
    } else {
        Printer::Default
    }
}

impl Printer {
    /// The printer for the global output settings.
    pub fn new(quiet: u8, verbose: u8, no_progress: bool) -> (p: Printer)
        ensures
            p == printer_for(quiet, verbose, no_progress),
    {
        if quiet == 1 {
            Printer::Quiet
        } else if quiet > 1 {
            Printer::Silent
        } else if verbose > 0 {
            Printer::Verbose
        } else if no_progress {
            Printer::NoProgress
        } else {
            Printer::Default
        }
    }

    /// Progress is drawn on standard error by the default printer only (verbose output
    /// would interleave with it).
    pub fn target(self) -> (t: ProgressTarget)
        ensures
            t == (if self == Printer::Default {
                ProgressTarget::Stderr
            } else {
                ProgressTarget::Hidden
            }),
    {
        match self {
            Printer::Silent => ProgressTarget::Hidden,
            Printer::Quiet => ProgressTarget::Hidden,
            Printer::Default => ProgressTarget::Stderr,
            Printer::Verbose => ProgressTarget::Hidden,
            Printer::NoProgress => ProgressTarget::Hidden,
        }
    }

    /// Important standard output: written unless silent.
    pub fn stdout_important(self) -> (s: Stdout)
        ensures
            s == (if self == Printer::Silent {
                Stdout::Disabled
            } else {
                Stdout::Enabled
            }),
    {
        match self {
            Printer::Silent => Stdout::Disabled,
            Printer::Quiet => Stdout::Enabled,
            Printer::Default => Stdout::Enabled,
            Printer::Verbose => Stdout::Enabled,
            Printer::NoProgress => Stdout::Enabled,
        }
    }

    /// Standard output: written unless silent or quiet.
    pub fn stdout(self) -> (s: Stdout)
        ensures
            s == (if self == Printer::Silent || self == Printer::Quiet {
                Stdout::Disabled
            } else {
                Stdout::Enabled
            }),
    {
        match self {
            Printer::Silent => Stdout::Disabled,
            Printer::Quiet => Stdout::Disabled,
            Printer::Default => Stdout::Enabled,
            Printer::Verbose => Stdout::Enabled,
            Printer::NoProgress => Stdout::Enabled,
        }
    }

    /// Important standard error: written unless silent.
    pub fn stderr_important(self) -> (s: Stderr)
        ensures
            s == (if self == Printer::Silent {
                Stderr::Disabled
            } else {
                Stderr::Enabled
            }),
    {
        match self {
            Printer::Silent => Stderr::Disabled,
            Printer::Quiet => Stderr::Enabled,
            Printer::Default => Stderr::Enabled,
            Printer::Verbose => Stderr::Enabled,
            Printer::NoProgress => Stderr::Enabled,
        }
    }

    /// Standard error: written unless silent or quiet.
    pub fn stderr(self) -> (s: Stderr)
        ensures
            s == (if self == Printer::Silent || self == Printer::Quiet {
                Stderr::Disabled
            } else {
                Stderr::Enabled
            }),
    {
        match self {
            Printer::Silent => Stderr::Disabled,
            Printer::Quiet => Stderr::Disabled,
            Printer::Default => Stderr::Enabled,
            Printer::Verbose => Stderr::Enabled,
            Printer::NoProgress => Stderr::Enabled,
        }
    }
}

impl Stdout {
    /// Whether `text` is to be written to standard output.
    pub fn writes(self) -> (r: bool)
        ensures
            r == (self == Stdout::Enabled),
    {
        match self {
            Stdout::Enabled => true,
            Stdout::Disabled => false,
        }
    }
}

impl Stderr {
    /// Whether `text` is to be written to standard error.
    pub fn writes(self) -> (r: bool)
        ensures
            r == (self == Stderr::Enabled),
    {
        match self {
            Stderr::Enabled => true,
            Stderr::Disabled => false,
        }
    }
}

} // verus!
