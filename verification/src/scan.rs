//! The classifier: walks a snapshot, finds every candidate `node_modules`
//! directory, applies the nested-install exclusion, and partitions the
//! candidates into stale and recent with running totals.

use vstd::prelude::*;

use crate::tree::FsEntry;
use crate::tree::clamp64;
use crate::tree::has_name;
use crate::tree::lemma_clamp_add;
use crate::tree::saturating_add64;
use crate::tree::compute_size;
use crate::tree::most_recent_activity;
use crate::tree::pnpm_name;
use crate::tree::recency_of;
use crate::tree::size_of;

verus! {

/// The mathematical outcome of a scan: exact counts and byte totals, and the
/// stale candidates' paths (as sequences of name components from the scan
/// root) in discovery order, each paired in `stale_trees` with the subtree it
/// names.
#[verifier::ext_equal]
pub struct ScanModel {
    pub stale_paths: Seq<Seq<Seq<char>>>,
    pub stale_trees: Seq<FsEntry>,
    pub stale_bytes: nat,
    pub recent_count: nat,
    pub recent_bytes: nat,
}

impl ScanModel {
    /// The outcome of a scan that found nothing.
    pub open spec fn empty() -> ScanModel {
        ScanModel {
            stale_paths: Seq::empty(),
            stale_trees: Seq::empty(),
            stale_bytes: 0,
            recent_count: 0,
            recent_bytes: 0,
        }
    }

    /// Two partial outcomes combined: counts and bytes add, stale paths
    /// concatenate in order.
    pub open spec fn add(self, other: ScanModel) -> ScanModel {
        ScanModel {
            stale_paths: self.stale_paths + other.stale_paths,
            stale_trees: self.stale_trees + other.stale_trees,
            stale_bytes: self.stale_bytes + other.stale_bytes,
            recent_count: self.recent_count + other.recent_count,
            recent_bytes: self.recent_bytes + other.recent_bytes,
        }
    }

    /// One stale candidate: its path joins the stale sequence, its size joins
    /// the stale total.
    pub open spec fn one_stale(path: Seq<Seq<char>>, tree: FsEntry) -> ScanModel {
        ScanModel {
            stale_paths: seq![path],
            stale_trees: seq![tree],
            stale_bytes: size_of(tree),
            recent_count: 0,
            recent_bytes: 0,
        }
    }

    /// One recent candidate: counted and sized, but never listed for deletion.
    pub open spec fn one_recent(tree: FsEntry) -> ScanModel {
        ScanModel {
            stale_paths: Seq::empty(),
            stale_trees: Seq::empty(),
            stale_bytes: 0,
            recent_count: 1,
            recent_bytes: size_of(tree),
        }
    }
}

/// Whether a candidate whose owning project was last touched at
/// `project_recency` is preserved under `cutoff`: strictly newer than the
/// cutoff is recent, anything at or before it is stale.
pub open spec fn is_recent(project_recency: u64, cutoff: u64) -> bool {
    project_recency > cutoff
}

/// What one child entry of a directory contributes to the scan.
///
/// `dir_name` is the name of the directory that holds `e`, `parent_name` the
/// name of that directory's own parent (`None` at the scan root), and
/// `project_recency` the most recent activity of the holding directory.
/// A candidate two levels under a `.pnpm` directory is excluded outright;
/// any other candidate is classified and its interior is not walked further;
/// an ordinary directory is walked recursively.
pub open spec fn scan_entry_model(
    e: FsEntry,
    dir_name: Seq<char>,
    parent_name: Option<Seq<char>>,
    project_recency: u64,
    path: Seq<Seq<char>>,
    cutoff: u64,
) -> ScanModel
    decreases e, 1int,
{
    if e.is_candidate() {
        // excluded, classified stale, or classified recent; never walked further
        if parent_name == Some(pnpm_name()) {
            ScanModel::empty()
        } else if is_recent(project_recency, cutoff) {
            ScanModel::one_recent(e)
        } else {
            ScanModel::one_stale(path.push(e.name_view()), e)
        }
    } else if e is Dir {
        scan_dir_model(e, Some(dir_name), path.push(e.name_view()), cutoff)
    } else {
        ScanModel::empty()
    }
}

/// What the children of a directory contribute, in order.
pub open spec fn scan_entries_model(
    s: Seq<FsEntry>,
    dir_name: Seq<char>,
    parent_name: Option<Seq<char>>,
    project_recency: u64,
    path: Seq<Seq<char>>,
    cutoff: u64,
) -> ScanModel
    decreases s, 2int,
{
    if s.len() == 0 {
        ScanModel::empty()
    } else {
        scan_entries_model(s.drop_last(), dir_name, parent_name, project_recency, path, cutoff)
            .add(scan_entry_model(s.last(), dir_name, parent_name, project_recency, path, cutoff))
    }
}

/// The scan of a directory that is itself no candidate: its children are
/// classified against the directory's own recency.
pub open spec fn scan_dir_model(
    d: FsEntry,
    parent_name: Option<Seq<char>>,
    path: Seq<Seq<char>>,
    cutoff: u64,
) -> ScanModel
    decreases d, 0int,
{
    match d {
        FsEntry::Dir { name, entries } => scan_entries_model(
            entries@,
            name@,
            parent_name,
            recency_of(d),
            path,
            cutoff,
        ),
        FsEntry::File { .. } => ScanModel::empty(),
    }
}

/// The outcome of a whole scan. `None` stands for a root that does not exist
/// or cannot be read: the walk finds nothing. A root that is itself a
/// candidate has no parent to probe and is conservatively preserved, with no
/// size attributed; a root that is a file holds no candidate at all.
pub open spec fn scan_model(root: Option<FsEntry>, cutoff: u64) -> ScanModel {
    match root {
        None => ScanModel::empty(),
        Some(r) => {
            if r.is_candidate() {
                ScanModel {
                    stale_paths: Seq::empty(),
                    stale_trees: Seq::empty(),
                    stale_bytes: 0,
                    recent_count: 1,
                    recent_bytes: 0,
                }
            } else if r is Dir {
                scan_dir_model(r, None, seq![r.name_view()], cutoff)
            } else {
                ScanModel::empty()
            }
        },
    }
}

/// The statistics a scan hands back: how many candidates are stale, how many
/// bytes they hold, their paths in discovery order (each path a sequence of
/// name components from the scan root), and the count and byte total of the
/// recent candidates that were preserved.
pub struct ScanStats {
    pub stale_count: usize,
    pub stale_total_bytes: u64,
    pub stale_paths: Vec<Vec<String>>,
    pub recent_count: u64,
    pub recent_total_bytes: u64,
}

/// How executable statistics realise a model: paths and their count exactly,
/// byte totals and the recent count clamped to `u64::MAX`.
pub open spec fn matches_model(stats: ScanStats, m: ScanModel) -> bool {
    &&& stats.stale_paths.deep_view() == m.stale_paths
    &&& stats.stale_count == m.stale_paths.len()
    &&& stats.stale_total_bytes == clamp64(m.stale_bytes)
    &&& stats.recent_count == clamp64(m.recent_count)
    &&& stats.recent_total_bytes == clamp64(m.recent_bytes)
}

/// An option over a borrowed name, as the model sees it.
pub open spec fn opt_name_view(p: Option<&String>) -> Option<Seq<char>> {
    match p {
        None => None,
        Some(s) => Some(s@),
    }
}

/// An option over a borrowed snapshot, as the model takes it.
pub open spec fn opt_entry_view(p: Option<&FsEntry>) -> Option<FsEntry> {
    match p {
        None => None,
        Some(e) => Some(*e),
    }
}

proof fn lemma_add_empty(m: ScanModel)
    ensures
        m.add(ScanModel::empty()) == m,
        ScanModel::empty().add(m) == m,
{
    assert(m.add(ScanModel::empty()) =~= m);
    assert(ScanModel::empty().add(m) =~= m);
}

proof fn lemma_add_assoc(a: ScanModel, b: ScanModel, c: ScanModel)
    ensures
        a.add(b).add(c) == a.add(b.add(c)),
{
    assert(a.add(b).add(c) =~= a.add(b.add(c)));
}

/// One more sibling extends the partial outcome by that sibling's own
/// contribution.
proof fn lemma_entries_model_step(
    s: Seq<FsEntry>,
    i: int,
    dir_name: Seq<char>,
    parent_name: Option<Seq<char>>,
    project_recency: u64,
    path: Seq<Seq<char>>,
    cutoff: u64,
)
    requires
        0 <= i < s.len(),
    ensures
        scan_entries_model(s.take(i + 1), dir_name, parent_name, project_recency, path, cutoff)
            == scan_entries_model(s.take(i), dir_name, parent_name, project_recency, path, cutoff)
                .add(scan_entry_model(s[i], dir_name, parent_name, project_recency, path, cutoff)),
{
    assert(s.take(i + 1).drop_last() =~= s.take(i));
    assert(s.take(i + 1).last() == s[i]);
}

/// Whether the entry is a candidate folder: a directory named `node_modules`.
fn is_candidate_entry(e: &FsEntry) -> (r: bool)
    ensures
        r == e.is_candidate(),
{
    match e {
        FsEntry::Dir { .. } => has_name(e, "node_modules"),
        FsEntry::File { .. } => false,
    }
}

/// The entry's own name, cloned.
fn entry_name(e: &FsEntry) -> (r: String)
    ensures
        r@ == e.name_view(),
{
    match e {
        FsEntry::File { name, .. } => name.clone(),
        FsEntry::Dir { name, .. } => name.clone(),
    }
}

/// A copy of a path with one more component on the end.
fn extend_path(path: &Vec<String>, component: String) -> (r: Vec<String>)
    ensures
        r.deep_view() == path.deep_view().push(component@),
{
    let mut r: Vec<String> = Vec::new();
    let mut i: usize = 0;
    while i < path.len()
        invariant
            i <= path.len(),
            r@ == path@.take(i as int),
        decreases path.len() - i,
    {
        let c: String = path[i].clone();
        r.push(c);
        proof {
            assert(r@ =~= path@.take(i + 1 as int));
        }
        i = i + 1;
    }
    proof {
        assert(path@.take(path@.len() as int) =~= path@);
    }
    r.push(component);
    proof {
        assert(r.deep_view() =~= path.deep_view().push(component@));
    }
    r
}

impl ScanStats {
    /// Statistics with nothing found yet.
    pub fn new() -> (r: ScanStats)
        ensures
            matches_model(r, ScanModel::empty()),
    {
        let r = ScanStats {
            stale_count: 0,
            stale_total_bytes: 0,
            stale_paths: Vec::new(),
            recent_count: 0,
            recent_total_bytes: 0,
        };
        proof {
            assert(r.stale_paths.deep_view() =~= Seq::<Seq<Seq<char>>>::empty());
        }
        r
    }
}

/// Walks the children of `d`, classifying candidates against `d`'s own
/// recency and descending into ordinary directories, and adds what it finds
/// to `stats`. `path` is the path down to `d` itself, `parent_name` the name
/// of `d`'s parent directory, and `m0` the model of what `stats` held on
/// entry.
#[verifier::loop_isolation(false)]
fn scan_dir_into(
    d: &FsEntry,
    parent_name: Option<&String>,
    path: &Vec<String>,
    cutoff: u64,
    stats: &mut ScanStats,
    m0: Ghost<ScanModel>,
)
    requires
        matches_model(*old(stats), m0@),
    ensures
        matches_model(
            *final(stats),
            m0@.add(scan_dir_model(*d, opt_name_view(parent_name), path.deep_view(), cutoff)),
        ),
    decreases *d,
{
    match d {
        FsEntry::File { .. } => {
            proof {
                lemma_add_empty(m0@);
            }
        },
        FsEntry::Dir { name, entries } => {
            let mut i: usize = 0;
            while i < entries.len()
                invariant
                    i <= entries.len(),
                    matches_model(
                        *stats,
                        m0@.add(scan_entries_model(
                            entries@.take(i as int),
                            name@,
                            opt_name_view(parent_name),
                            recency_of(*d),
                            path.deep_view(),
                            cutoff,
                        )),
                    ),
                decreases entries.len() - i,
            {
                let ghost m_pre = m0@.add(scan_entries_model(
                    entries@.take(i as int),
                    name@,
                    opt_name_view(parent_name),
                    recency_of(*d),
                    path.deep_view(),
                    cutoff,
                ));
                let ghost contribution = scan_entry_model(
                    entries@[i as int],
                    name@,
                    opt_name_view(parent_name),
                    recency_of(*d),
                    path.deep_view(),
                    cutoff,
                );
                let child = &entries[i];
                if is_candidate_entry(child) {
                    let excluded = match parent_name {
                        Some(p) => {
                            let t: String = ".pnpm".to_owned();
                            *p == t
                        },
                        None => false,
                    };
                    if excluded {
                        proof {
                            lemma_add_empty(m_pre);
                        }
                    } else {
                        let project_recency = most_recent_activity(d);
                        let folder_size = compute_size(child);
                        if project_recency > cutoff {
                            let ghost pre = *stats;
                            stats.recent_count = saturating_add64(stats.recent_count, 1);
                            stats.recent_total_bytes =
                                saturating_add64(stats.recent_total_bytes, folder_size);
                            proof {
                                lemma_clamp_add(m_pre.recent_count, 1);
                                lemma_clamp_add(m_pre.recent_bytes, size_of(entries@[i as int]));
                                assert(m_pre.add(contribution).stale_paths =~= m_pre.stale_paths);
                            }
                        } else {
                            let child_path = extend_path(path, entry_name(child));
                            let ghost pre = *stats;
                            stats.stale_paths.push(child_path);
                            stats.stale_count = stats.stale_paths.len();
                            stats.stale_total_bytes =
                                saturating_add64(stats.stale_total_bytes, folder_size);
                            proof {
                                lemma_clamp_add(m_pre.stale_bytes, size_of(entries@[i as int]));
                                assert(stats.stale_paths.deep_view() =~= m_pre.add(
                                    contribution,
                                ).stale_paths);
                            }
                        }
                    }
                } else {
                    match child {
                        FsEntry::Dir { .. } => {
                            let child_path = extend_path(path, entry_name(child));
                            scan_dir_into(
                                child,
                                Some(name),
                                &child_path,
                                cutoff,
                                stats,
                                Ghost(m_pre),
                            );
                        },
                        FsEntry::File { .. } => {
                            proof {
                                lemma_add_empty(m_pre);
                            }
                        },
                    }
                }
                proof {
                    lemma_entries_model_step(
                        entries@,
                        i as int,
                        name@,
                        opt_name_view(parent_name),
                        recency_of(*d),
                        path.deep_view(),
                        cutoff,
                    );
                    lemma_add_assoc(
                        m0@,
                        scan_entries_model(
                            entries@.take(i as int),
                            name@,
                            opt_name_view(parent_name),
                            recency_of(*d),
                            path.deep_view(),
                            cutoff,
                        ),
                        contribution,
                    );
                }
                i = i + 1;
            }
            proof {
                assert(entries@.take(entries@.len() as int) =~= entries@);
            }
        },
    }
}

/// Scans a snapshot for candidate `node_modules` folders and partitions them
/// into stale and recent against `cutoff`, the timestamp at or before which a
/// project counts as inactive. `None` stands for a root path that does not
/// exist or cannot be read: the scan finds nothing and every total is zero.
pub fn scan(root: Option<&FsEntry>, cutoff: u64) -> (r: ScanStats)
    ensures
        matches_model(r, scan_model(opt_entry_view(root), cutoff)),
{
    match root {
        None => ScanStats::new(),
        Some(root_entry) => {
            if is_candidate_entry(root_entry) {
                // The root itself is a candidate: no parent is visible, so it
                // is preserved without probing and without a size.
                let mut r = ScanStats::new();
                r.recent_count = 1;
                r
            } else {
                match root_entry {
                    FsEntry::File { .. } => ScanStats::new(),
                    FsEntry::Dir { .. } => {
                        let mut stats = ScanStats::new();
                        let root_name = entry_name(root_entry);
                        let mut path: Vec<String> = Vec::new();
                        path.push(root_name);
                        proof {
                            assert(path.deep_view() =~= seq![root_entry.name_view()]);
                        }
                        scan_dir_into(
                            root_entry,
                            None,
                            &path,
                            cutoff,
                            &mut stats,
                            Ghost(ScanModel::empty()),
                        );
                        proof {
                            lemma_add_empty(scan_dir_model(
                                *root_entry,
                                None,
                                seq![root_entry.name_view()],
                                cutoff,
                            ));
                        }
                        stats
                    },
                }
            }
        },
    }
}

/// The cutoff timestamp for an age threshold: `now_secs` less the threshold
/// in whole days of seconds. `None` when the threshold reaches back past the
/// epoch, where no cutoff exists.
pub fn checked_cutoff(now_secs: u64, age_days: u64) -> (r: Option<u64>)
    ensures
        r is Some <==> (age_days as int) * 86400 <= now_secs as int,
        r is Some ==> r->0 == now_secs as int - (age_days as int) * 86400,
{
    if age_days <= u64::MAX / 86400 {
        let span: u64 = age_days * 86400;
        if span <= now_secs {
            Some(now_secs - span)
        } else {
            None
        }
    } else {
        proof {
            assert((age_days as int) * 86400 > u64::MAX as int) by (nonlinear_arith)
                requires
                    age_days as int > (u64::MAX as int) / 86400,
            ;
        }
        None
    }
}

} // verus!

