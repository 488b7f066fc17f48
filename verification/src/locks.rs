//! Advisory file locks, as the handles of one thread hold them: any number of shared
//! holders, or one exclusive holder, per path.
use vstd::prelude::*;

use crate::table::{lock_table_entries, LockTable};

verus! {

/// The two kinds of advisory lock.
#[derive(Debug, Clone, Copy, PartialEq, Eq, Structural)]
pub enum LockKind {
    Shared,
    Exclusive,
}

/// How a path is held: by how many shared holders, and whether exclusively.
#[derive(Debug, Clone, Copy, PartialEq, Eq, Structural)]
pub struct LockState {
    pub shared: usize,
    pub exclusive: bool,
}

/// A table in which nothing is held.
pub open spec fn no_locks() -> Map<Seq<char>, LockState> {
    Map::empty()
}

/// The state of a path nobody holds.
pub open spec fn unheld() -> LockState {
    LockState { shared: 0, exclusive: false }
}

impl LockState {
    pub open spec fn free(self) -> bool {
        self.shared == 0 && !self.exclusive
    }

    /// A shared lock needs no exclusive holder; an exclusive one needs no holder at all.
    pub open spec fn grants(self, kind: LockKind) -> bool {
        match kind {
            LockKind::Shared => !self.exclusive,
            LockKind::Exclusive => self.free(),
        }
    }

    /// Whether nobody holds the path.
    pub fn is_free(self) -> (r: bool)
        ensures
            r == self.free(),
    {
        self.shared == 0 && !self.exclusive
    }

    /// Whether a lock of `kind` can be granted now.
    pub fn admits(self, kind: LockKind) -> (r: bool)
        ensures
            r == self.grants(kind),
    {
        match kind {
            LockKind::Shared => !self.exclusive,
            LockKind::Exclusive => self.is_free(),
        }
    }
}

/// The state recorded for `path`, or the unheld state.
pub open spec fn state_of(m: Map<Seq<char>, LockState>, path: Seq<char>) -> LockState {
    if m.contains_key(path) {
        m[path]
    } else {
        unheld()
    }
}

/// The state after one holder of `kind` lets go.
pub open spec fn let_go(s: LockState, kind: LockKind) -> LockState {
    match kind {
        LockKind::Shared => LockState {
            shared: if s.shared == 0 {
                0
            } else {
                (s.shared - 1) as usize
            },
            exclusive: s.exclusive,
        },
        LockKind::Exclusive => LockState { shared: s.shared, exclusive: false },
    }
}

/// The state after one more holder of `kind` is admitted.
pub open spec fn taken(s: LockState, kind: LockKind) -> LockState {
    match kind {
        LockKind::Shared => LockState { shared: (s.shared + 1) as usize, exclusive: s.exclusive },
        LockKind::Exclusive => LockState { shared: s.shared, exclusive: true },
    }
}

/// The table after a handle holding `holding` on `path` lets go: a path nobody holds any
/// more leaves the table.
pub open spec fn released(
    m: Map<Seq<char>, LockState>,
    path: Seq<char>,
    holding: Option<LockKind>,
) -> Map<Seq<char>, LockState> {
    match holding {
        None => m,
        Some(kind) => if !m.contains_key(path) {
            m
        } else if let_go(m[path], kind).free() {
            m.remove(path)
        } else {
            m.insert(path, let_go(m[path], kind))
        },
    }
}

/// The locks every handle on this thread holds.
#[derive(Debug)]
pub struct AdvisoryLocks {
    held: LockTable,
}

impl View for AdvisoryLocks {
    type V = Map<Seq<char>, LockState>;

    closed spec fn view(&self) -> Map<Seq<char>, LockState> {
        lock_table_entries(self.held)
    }
}

/// No path is both held exclusively and shared, and no path nobody holds is recorded.
pub open spec fn coherent(m: Map<Seq<char>, LockState>) -> bool {
    forall|p: Seq<char>|
        #[trigger] m.contains_key(p) ==> !m[p].free() && !(m[p].exclusive && m[p].shared > 0)
}

impl AdvisoryLocks {
    /// A table in which nothing is held.
    pub fn new() -> (locks: AdvisoryLocks)
        ensures
            locks@ == no_locks(),
            coherent(locks@),
    {
        AdvisoryLocks { held: LockTable::new() }
    }

    /// Whether `path` is held by anyone, and how.
    pub fn state(&self, path: &str) -> (s: LockState)
        ensures
            s == state_of(self@, path@),
    {
        match self.held.get(path) {
            Some(s) => s,
            None => LockState { shared: 0, exclusive: false },
        }
    }
}

/// Lets go of whatever `holding` records on `path`, and records that nothing is held.
pub fn release(locks: &mut AdvisoryLocks, path: &str, holding: &mut Option<LockKind>)
    requires
        coherent(old(locks)@),
    ensures
        final(locks)@ == released(old(locks)@, path@, *old(holding)),
        *final(holding) == None::<LockKind>,
        coherent(final(locks)@),
{
    let kind = match *holding {
        Some(kind) => kind,
        None => {
            return;
        },
    };
    *holding = None;
    let state = match locks.held.get(path) {
        Some(s) => s,
        None => {
            return;
        },
    };
    let next = match kind {
        LockKind::Shared => LockState {
            shared: state.shared.saturating_sub(1),
            exclusive: state.exclusive,
        },
        LockKind::Exclusive => LockState { shared: state.shared, exclusive: false },
    };
    if next.is_free() {
        locks.held.remove(path);
    } else {
        locks.held.insert(String::from_str(path), next);
    }
}

/// Lets go of what `holding` records on `path`, then takes a lock of `kind` if it can be
/// granted; on success `holding` records it.
pub fn acquire(
    locks: &mut AdvisoryLocks,
    path: &str,
    holding: &mut Option<LockKind>,
    kind: LockKind,
) -> (granted: bool)
    requires
        coherent(old(locks)@),
        kind == LockKind::Shared ==> state_of(old(locks)@, path@).shared < usize::MAX,
    ensures
        coherent(final(locks)@),
        granted == state_of(released(old(locks)@, path@, *old(holding)), path@).grants(kind),
        granted ==> final(locks)@ == released(old(locks)@, path@, *old(holding)).insert(
            path@,
            taken(state_of(released(old(locks)@, path@, *old(holding)), path@), kind),
        ) && *final(holding) == Some(kind),
        !granted ==> final(locks)@ == released(old(locks)@, path@, *old(holding))
            && *final(holding) == None::<LockKind>,
{
    release(locks, path, holding);
    let state = locks.state(path);
    if !state.admits(kind) {
        return false;
    }
    let next = match kind {
        LockKind::Shared => LockState { shared: state.shared + 1, exclusive: state.exclusive },
        LockKind::Exclusive => LockState { shared: state.shared, exclusive: true },
    };
    locks.held.insert(String::from_str(path), next);
    *holding = Some(kind);
    true
}

} // verus!
