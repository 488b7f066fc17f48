//! The terminal the host reports: whether output goes to one, and its size.
use vstd::prelude::*;

verus! {

/// The width assumed when no terminal is attached.
pub const FALLBACK_WIDTH: u16 = 80;

/// The height assumed when no terminal is attached.
pub const FALLBACK_HEIGHT: u16 = 24;

/// Whether output goes to a terminal, and its size in character cells.
#[derive(Debug, Clone, Copy, PartialEq, Eq, Structural)]
pub struct TermConfig {
    pub is_tty: bool,
    pub columns: u16,
    pub rows: u16,
}

/// No terminal, of the conventional size.
pub open spec fn fallback() -> TermConfig {
    TermConfig { is_tty: false, columns: FALLBACK_WIDTH, rows: FALLBACK_HEIGHT }
}

/// `n`, but at least one.
pub open spec fn at_least_one(n: u16) -> u16 {
    if n < 1 {
        1
    } else {
        n
    }
}

impl Default for TermConfig {
    fn default() -> (c: Self)
        ensures
            c == fallback(),
    {
        TermConfig { is_tty: false, columns: FALLBACK_WIDTH, rows: FALLBACK_HEIGHT }
    }
}

impl TermConfig {
    /// A terminal of the given size; a zero dimension becomes one.
    pub fn tty(columns: u16, rows: u16) -> (c: Self)
        ensures
            c == (TermConfig { is_tty: true, columns: at_least_one(columns), rows: at_least_one(rows) }),
    {
        TermConfig {
            is_tty: true,
            columns: if columns < 1 {
                1
            } else {
                columns
            },
            rows: if rows < 1 {
                1
            } else {
                rows
            },
        }
    }
}

/// Makes `config` the term terminal.
pub fn set(term: &mut TermConfig, config: TermConfig)
    ensures
        *final(term) == config,
{
    *term = config;
}

/// Goes back to no terminal of the conventional size.
pub fn reset(term: &mut TermConfig)
    ensures
        *final(term) == fallback(),
{
    *term = TermConfig { is_tty: false, columns: FALLBACK_WIDTH, rows: FALLBACK_HEIGHT };
}

/// The term terminal.
pub fn current(term: &TermConfig) -> (c: TermConfig)
    ensures
        c == *term,
{
    *term
}

pub fn is_tty(term: &TermConfig) -> (r: bool)
    ensures
        r == term.is_tty,
{
    term.is_tty
}

pub fn columns(term: &TermConfig) -> (r: u16)
    ensures
        r == term.columns,
{
    term.columns
}

pub fn rows(term: &TermConfig) -> (r: u16)
    ensures
        r == term.rows,
{
    term.rows
}

/// Changes the size and keeps the terminal flag; a zero dimension becomes one.
pub fn resize(term: &mut TermConfig, columns: u16, rows: u16)
    ensures
        *final(term) == (TermConfig {
            is_tty: old(term).is_tty,
            columns: at_least_one(columns),
            rows: at_least_one(rows),
        }),
{
    term.columns = if columns < 1 {
        1
    } else {
        columns
    };
    term.rows = if rows < 1 {
        1
    } else {
        rows
    };
}

} // verus!
