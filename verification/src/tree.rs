//! The filesystem snapshot that a scan works on, with the two leaf
//! computations of the engine: the byte size of a subtree and the most recent
//! file activity of a project directory.

use vstd::prelude::*;

verus! {

/// One entry of a filesystem snapshot: a regular file with its byte size and
/// its modification time (seconds since the epoch), or a directory with its
/// entries in discovery order. Symbolic links and other special entries have
/// no representation here: the walk that builds a snapshot does not follow
/// them, and unreadable entries are left out.
pub enum FsEntry {
    File { name: String, size: u64, mtime: u64 },
    Dir { name: String, entries: Vec<FsEntry> },
}

/// The directory name that marks a candidate for deletion.
pub open spec fn node_modules_name() -> Seq<char> {
    "node_modules"@
}

/// The directory name of pnpm's internal store: a candidate two levels under
/// it is an implementation detail of the package manager, not a project's own
/// dependency folder.
pub open spec fn pnpm_name() -> Seq<char> {
    ".pnpm"@
}

impl FsEntry {
    /// The entry's own name, the last component of its path.
    pub open spec fn name_view(self) -> Seq<char> {
        match self {
            FsEntry::File { name, .. } => name@,
            FsEntry::Dir { name, .. } => name@,
        }
    }

    pub open spec fn is_dir(self) -> bool {
        self is Dir
    }

    /// A candidate folder: a directory literally named `node_modules`.
    pub open spec fn is_candidate(self) -> bool {
        self.is_dir() && self.name_view() == node_modules_name()
    }
}

/// Total bytes held by the regular files of a subtree, nested `node_modules`
/// included; directories themselves contribute nothing.
pub open spec fn size_of(e: FsEntry) -> nat
    decreases e,
{
    match e {
        FsEntry::File { size, .. } => size as nat,
        FsEntry::Dir { entries, .. } => size_of_entries(entries@),
    }
}

/// Total bytes of a sequence of sibling subtrees.
pub open spec fn size_of_entries(s: Seq<FsEntry>) -> nat
    decreases s,
{
    if s.len() == 0 {
        0
    } else {
        size_of_entries(s.drop_last()) + size_of(s.last())
    }
}

/// The most recent modification time among the regular files of a subtree,
/// `0` when there is none. Any entry named `node_modules` is pruned: a
/// project's recency is its own activity, not the churn of installing its
/// dependencies.
pub open spec fn recency_of(e: FsEntry) -> u64
    decreases e,
{
    if e.name_view() == node_modules_name() {
        0
    } else {
        match e {
            FsEntry::File { mtime, .. } => mtime,
            FsEntry::Dir { entries, .. } => recency_of_entries(entries@),
        }
    }
}

/// The most recent modification time over a sequence of sibling subtrees.
pub open spec fn recency_of_entries(s: Seq<FsEntry>) -> u64
    decreases s,
{
    if s.len() == 0 {
        0
    } else {
        let rest = recency_of_entries(s.drop_last());
        let last = recency_of(s.last());
        if last > rest {
            last
        } else {
            rest
        }
    }
}

/// Whether the subtree at `e` holds any candidate folder, `e` itself
/// included.
pub open spec fn has_candidate(e: FsEntry) -> bool
    decreases e,
{
    match e {
        FsEntry::File { .. } => e.is_candidate(),
        FsEntry::Dir { entries, .. } => e.is_candidate() || has_candidate_in(entries@),
    }
}

/// Whether any of a sequence of sibling subtrees holds a candidate folder.
pub open spec fn has_candidate_in(s: Seq<FsEntry>) -> bool
    decreases s,
{
    if s.len() == 0 {
        false
    } else {
        has_candidate_in(s.drop_last()) || has_candidate(s.last())
    }
}

/// Whether a sequence of sibling entries carries no name twice, as the
/// entries of a real directory never do.
pub open spec fn distinct_names(s: Seq<FsEntry>) -> bool {
    forall|i: int, j: int|
        0 <= i < j < s.len() ==> (#[trigger] s[i]).name_view() != (#[trigger] s[j]).name_view()
}

/// Whether sibling names are distinct throughout a snapshot: true of every
/// snapshot read from a filesystem.
pub open spec fn well_named(e: FsEntry) -> bool
    decreases e,
{
    match e {
        FsEntry::File { .. } => true,
        FsEntry::Dir { entries, .. } => {
            &&& distinct_names(entries@)
            &&& forall|i: int| 0 <= i < entries@.len() ==> well_named(#[trigger] entries@[i])
        },
    }
}

/// The first sibling with the given name, if any.
pub open spec fn child_named(s: Seq<FsEntry>, name: Seq<char>) -> Option<FsEntry>
    decreases s,
{
    if s.len() == 0 {
        None
    } else if s.first().name_view() == name {
        Some(s.first())
    } else {
        child_named(s.drop_first(), name)
    }
}

/// The entry a path of name components denotes, starting at `e`: the path's
/// first component must be `e`'s own name, and each further component names a
/// child of the directory reached so far.
pub open spec fn entry_at_path(e: FsEntry, p: Seq<Seq<char>>) -> Option<FsEntry>
    decreases p.len(),
{
    if p.len() == 0 || p.first() != e.name_view() {
        None
    } else if p.len() == 1 {
        Some(e)
    } else {
        match e {
            FsEntry::File { .. } => None,
            FsEntry::Dir { entries, .. } => match child_named(entries@, p[1]) {
                None => None,
                Some(c) => entry_at_path(c, p.drop_first()),
            },
        }
    }
}

/// `n` clamped to what a `u64` can hold: byte totals saturate instead of
/// wrapping or failing.
pub open spec fn clamp64(n: nat) -> u64 {
    if n > u64::MAX {
        u64::MAX
    } else {
        n as u64
    }
}

/// Whether the entry's name is exactly `target`.
pub(crate) fn has_name(e: &FsEntry, target: &str) -> (r: bool)
    ensures
        r == (e.name_view() == target@),
{
    let t: String = target.to_owned();
    match e {
        FsEntry::File { name, .. } => *name == t,
        FsEntry::Dir { name, .. } => *name == t,
    }
}

/// `a + b` with the sum clamped to `u64::MAX`.
pub(crate) fn saturating_add64(a: u64, b: u64) -> (r: u64)
    ensures
        r == clamp64(a as nat + b as nat),
{
    if a > u64::MAX - b {
        u64::MAX
    } else {
        a + b
    }
}

pub(crate) proof fn lemma_clamp_add(a: nat, b: nat)
    ensures
        clamp64(clamp64(a) as nat + clamp64(b) as nat) == clamp64(a + b),
{
}

/// The byte size of the subtree at `e`, clamped to `u64::MAX`: every regular
/// file under `e` counts, nested `node_modules` included, while directories
/// themselves contribute nothing.
#[verifier::loop_isolation(false)]
pub fn compute_size(e: &FsEntry) -> (r: u64)
    ensures
        r == clamp64(size_of(*e)),
    decreases *e,
{
    match e {
        FsEntry::File { size, .. } => *size,
        FsEntry::Dir { entries, .. } => {
            let mut total: u64 = 0;
            let mut i: usize = 0;
            while i < entries.len()
                invariant
                    i <= entries.len(),
                    total == clamp64(size_of_entries(entries@.take(i as int))),
                decreases entries.len() - i,
            {
                let child_size = compute_size(&entries[i]);
                proof {
                    assert(entries@.take(i + 1 as int).drop_last() =~= entries@.take(i as int));
                    assert(entries@.take(i + 1 as int).last() == entries@[i as int]);
                    lemma_clamp_add(size_of_entries(entries@.take(i as int)), size_of(entries@[i as int]));
                }
                total = saturating_add64(total, child_size);
                i = i + 1;
            }
            proof {
                assert(entries@.take(entries@.len() as int) =~= entries@);
            }
            total
        },
    }
}

/// The most recent modification time among the regular files under `e`, `0`
/// when no file contributes. Entries named `node_modules` are pruned, so the
/// result reflects the project's own activity only.
#[verifier::loop_isolation(false)]
pub fn most_recent_activity(e: &FsEntry) -> (r: u64)
    ensures
        r == recency_of(*e),
    decreases *e,
{
    if has_name(e, "node_modules") {
        return 0;
    }
    match e {
        FsEntry::File { mtime, .. } => *mtime,
        FsEntry::Dir { entries, .. } => {
            let mut best: u64 = 0;
            let mut i: usize = 0;
            while i < entries.len()
                invariant
                    i <= entries.len(),
                    best == recency_of_entries(entries@.take(i as int)),
                decreases entries.len() - i,
            {
                let child = most_recent_activity(&entries[i]);
                proof {
                    assert(entries@.take(i + 1 as int).drop_last() =~= entries@.take(i as int));
                    assert(entries@.take(i + 1 as int).last() == entries@[i as int]);
                }
                if child > best {
                    best = child;
                }
                i = i + 1;
            }
            proof {
                assert(entries@.take(entries@.len() as int) =~= entries@);
            }
            best
        },
    }
}

} // verus!
