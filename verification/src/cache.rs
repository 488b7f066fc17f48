//! `uv cache size`: how many bytes the files below the cache root hold, and the line that
//! reports it.
use vstd::prelude::*;
use vstd::string::*;

use crate::memory::{len_of, resolve_spec, Contents, MemoryFs, VfsKind};
use crate::path::normalize_spec;
use crate::text::{decimal, u64_to_decimal};
use crate::walk::{outcome, visit_at, walk_visit, Visit, WalkDir, WalkEntryView, WalkShape};

verus! {

/// How the size is to be shown.
#[derive(Debug, Clone, Copy, PartialEq, Eq, Structural)]
pub enum CacheSizeOutputFormat {
    /// Human-readable when standard output is a terminal.
    Auto,
    Human,
    Machine,
}

/// Whether the size is shown in human-readable units.
pub open spec fn human_readable_spec(format: CacheSizeOutputFormat, stdout_is_terminal: bool) -> bool {
    match format {
        CacheSizeOutputFormat::Auto => stdout_is_terminal,
        CacheSizeOutputFormat::Human => true,
        CacheSizeOutputFormat::Machine => false,
    }
}

pub fn human_readable(format: CacheSizeOutputFormat, stdout_is_terminal: bool) -> (r: bool)
    ensures
        r == human_readable_spec(format, stdout_is_terminal),
{
    match format {
        CacheSizeOutputFormat::Auto => stdout_is_terminal,
        CacheSizeOutputFormat::Human => true,
        CacheSizeOutputFormat::Machine => false,
    }
}

/// The bytes a walk step counts: the length of a file entry, as its metadata reports it.
pub open spec fn entry_bytes(m: Contents, v: Visit) -> nat {
    match v {
        Visit::Found(e) => if e.kind == VfsKind::File {
            match resolve_spec(m, e.path, false) {
                Ok((_, n)) => len_of(n) as nat,
                Err(_) => 0,
            }
        } else {
            0
        },
        Visit::Failed(_, _) => 0,
    }
}

/// The bytes the steps count, together.
pub open spec fn bytes_of(m: Contents, w: Seq<Visit>) -> nat
    decreases w.len(),
{
    if w.len() == 0 {
        0
    } else {
        bytes_of(m, w.drop_last()) + entry_bytes(m, w.last())
    }
}

/// The walk of everything below (and at) `root`.
pub open spec fn tree_walk(m: Contents, root: Seq<char>) -> Seq<Visit> {
    walk_visit(m, visit_at(m, normalize_spec(root), 0), WalkShape { min_depth: 0, contents_first: false })
}

/// The bytes the files below `root` hold.
pub open spec fn tree_bytes(m: Contents, root: Seq<char>) -> nat {
    bytes_of(m, tree_walk(m, root))
}

proof fn lemma_bytes_prefix(m: Contents, w: Seq<Visit>, k: int)
    requires
        0 <= k <= w.len(),
    ensures
        bytes_of(m, w.take(k)) <= bytes_of(m, w),
    decreases w.len() - k,
{
    if k < w.len() {
        assert(w.take(k + 1).drop_last() =~= w.take(k));
        lemma_bytes_prefix(m, w, k + 1);
    } else {
        assert(w.take(k) =~= w);
    }
}

/// The bytes the files below `root` hold, each file counted by its metadata's length
/// (what cannot be read is left out), or `None` when the total does not fit in a `u64`.
pub fn checked_cache_total_bytes(fs: &MemoryFs, root: &str) -> (total: Option<u64>)
    requires
        fs.wf(),
        fs@.dom().len() < usize::MAX,
    ensures
        match total {
            Some(t) => t == tree_bytes(fs@, root@),
            None => tree_bytes(fs@, root@) > u64::MAX,
        },
{
    let mut it = WalkDir::new(root).into_iter(fs);
    let ghost w = it@;
    let mut total: u64 = 0;
    let ghost mut k: int = 0;
    assert(it@ =~= w.skip(0));
    assert(w.take(0) =~= Seq::<Visit>::empty());
    loop
        invariant
            0 <= k <= w.len(),
            w == tree_walk(fs@, root@),
            it@ == w.skip(k),
            fs.wf(),
            total == bytes_of(fs@, w.take(k)),
        ensures
            k == w.len(),
            total == bytes_of(fs@, w.take(k)),
        decreases w.len() - k,
    {
        match it.next() {
            None => {
                break;
            },
            Some(x) => {
                let ghost v = w[k];
                assert(w.skip(k)[0] == v);
                assert(outcome(x) == v);
                proof {
                    assert(w.take(k + 1).drop_last() =~= w.take(k));
                }
                match x {
                    Ok(entry) => {
                        if entry.file_type().is_file() {
                            match entry.metadata(fs) {
                                Ok(meta) => {
                                    match total.checked_add(meta.len()) {
                                        Some(t) => {
                                            total = t;
                                        },
                                        None => {
                                            proof {
                                                lemma_bytes_prefix(fs@, w, k + 1);
                                            }
                                            return None;
                                        },
                                    }
                                },
                                Err(_) => {},
                            }
                        }
                    },
                    Err(_) => {},
                }
                proof {
                    assert(w.skip(k).drop_first() =~= w.skip(k + 1));
                    k = k + 1;
                }
            },
        }
    }
    proof {
        assert(w.skip(k).len() == 0);
        assert(w.take(k) =~= w);
    }
    Some(total)
}

/// The bytes the files below `root` hold, each file counted by its metadata's length;
/// what cannot be read is left out.
pub fn cache_total_bytes(fs: &MemoryFs, root: &str) -> (total: u64)
    requires
        fs.wf(),
        fs@.dom().len() < usize::MAX,
        tree_bytes(fs@, root@) <= u64::MAX,
    ensures
        total == tree_bytes(fs@, root@),
{
    match checked_cache_total_bytes(fs, root) {
        Some(t) => t,
        None => 0,
    }
}

/// What the report says: a line of text, or a byte count to show in human-readable units.
#[derive(Debug, Clone, PartialEq, Eq)]
pub enum SizeLine {
    Text(String),
    HumanBytes(u64),
}

/// The report of the cache's size: `0B` (human) or `0` (machine) when the root does not
/// exist, else the total, in units for a human or as a plain decimal count; `None` when the
/// total does not fit in a `u64`.
pub fn cache_size_line(fs: &MemoryFs, root: &str, human: bool) -> (r: Option<SizeLine>)
    requires
        fs.wf(),
        fs@.dom().len() < usize::MAX,
    ensures
        resolve_spec(fs@, root@, true) is Err ==> (r matches Some(SizeLine::Text(t)) && t@ == if human {
            seq!['0', 'B']
        } else {
            seq!['0']
        }),
        resolve_spec(fs@, root@, true) is Ok && tree_bytes(fs@, root@) > u64::MAX ==> r is None,
        resolve_spec(fs@, root@, true) is Ok && tree_bytes(fs@, root@) <= u64::MAX && human ==> r
            == Some(SizeLine::HumanBytes(tree_bytes(fs@, root@) as u64)),
        resolve_spec(fs@, root@, true) is Ok && tree_bytes(fs@, root@) <= u64::MAX && !human ==> (r
            matches Some(SizeLine::Text(t)) && t@ == decimal(tree_bytes(fs@, root@))),
{
    if !crate::fs::exists_path(fs, root) {
        proof {
            reveal_strlit("0B");
            reveal_strlit("0");
            assert("0B"@ =~= seq!['0', 'B']);
            assert("0"@ =~= seq!['0']);
        }
        if human {
            return Some(SizeLine::Text(String::from_str("0B")));
        } else {
            return Some(SizeLine::Text(String::from_str("0")));
        }
    }
    let total = match checked_cache_total_bytes(fs, root) {
        Some(t) => t,
        None => return None,
    };
    if human {
        Some(SizeLine::HumanBytes(total))
    } else {
        Some(SizeLine::Text(u64_to_decimal(total)))
    }
}

} // verus!

verus! {

/// A regular file met by the walk adds its length, as its metadata reports it, to the total,
/// whatever its name, depth or place; one whose metadata cannot be read adds nothing.
pub proof fn law_each_file_adds_its_length(m: Contents, w: Seq<Visit>, e: WalkEntryView)
    requires
        e.kind == VfsKind::File,
    ensures
        resolve_spec(m, e.path, false) matches Ok((_, n)) ==> bytes_of(m, w.push(Visit::Found(e)))
            == bytes_of(m, w) + len_of(n),
        resolve_spec(m, e.path, false) is Err ==> bytes_of(m, w.push(Visit::Found(e))) == bytes_of(
            m,
            w,
        ),
{
    assert(w.push(Visit::Found(e)).drop_last() =~= w);
}

/// A walk that meets nothing counts nothing.
pub proof fn law_empty_walk_counts_nothing(m: Contents)
    ensures
        bytes_of(m, Seq::<Visit>::empty()) == 0,
{
}

/// A directory, a link or a failed step of the walk adds nothing to the total.
pub proof fn law_only_files_count(m: Contents, w: Seq<Visit>, v: Visit)
    requires
        !(v matches Visit::Found(e) && e.kind == VfsKind::File),
    ensures
        bytes_of(m, w.push(v)) == bytes_of(m, w),
{
    assert(w.push(v).drop_last() =~= w);
}

} // verus!
