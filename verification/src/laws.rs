//! The laws the scan obeys, proved once over every snapshot: a tree without
//! candidates yields empty statistics, the cutoff boundary falls to the stale
//! side, pnpm-internal candidates are excluded, scanning is deterministic,
//! the stale byte total is exactly the sizes of the stale subtrees, and a
//! project's recency never comes from its own `node_modules`.

use vstd::prelude::*;

use crate::scan::ScanModel;
use crate::scan::ScanStats;
use crate::scan::is_recent;
use crate::scan::matches_model;
use crate::scan::scan_dir_model;
use crate::scan::scan_entries_model;
use crate::scan::scan_entry_model;
use crate::scan::scan_model;
use crate::tree::FsEntry;
use crate::tree::child_named;
use crate::tree::distinct_names;
use crate::tree::entry_at_path;
use crate::tree::has_candidate;
use crate::tree::has_candidate_in;
use crate::tree::node_modules_name;
use crate::tree::pnpm_name;
use crate::tree::recency_of;
use crate::tree::recency_of_entries;
use crate::tree::size_of;
use crate::tree::size_of_entries;
use crate::tree::well_named;

verus! {

proof fn lemma_add_empty_model(m: ScanModel)
    ensures
        m.add(ScanModel::empty()) == m,
        ScanModel::empty().add(m) == m,
{
    assert(m.add(ScanModel::empty()) =~= m);
    assert(ScanModel::empty().add(m) =~= m);
}

proof fn lemma_no_candidate_entry(
    e: FsEntry,
    dir_name: Seq<char>,
    parent_name: Option<Seq<char>>,
    project_recency: u64,
    path: Seq<Seq<char>>,
    cutoff: u64,
)
    requires
        !has_candidate(e),
    ensures
        scan_entry_model(e, dir_name, parent_name, project_recency, path, cutoff)
            == ScanModel::empty(),
    decreases e, 1int,
{
    if e is Dir && !e.is_candidate() {
        lemma_no_candidate_dir(e, Some(dir_name), path.push(e.name_view()), cutoff);
    }
}

proof fn lemma_no_candidate_entries(
    s: Seq<FsEntry>,
    dir_name: Seq<char>,
    parent_name: Option<Seq<char>>,
    project_recency: u64,
    path: Seq<Seq<char>>,
    cutoff: u64,
)
    requires
        !has_candidate_in(s),
    ensures
        scan_entries_model(s, dir_name, parent_name, project_recency, path, cutoff)
            == ScanModel::empty(),
    decreases s, 2int,
{
    if s.len() > 0 {
        lemma_no_candidate_entries(
            s.drop_last(),
            dir_name,
            parent_name,
            project_recency,
            path,
            cutoff,
        );
        lemma_no_candidate_entry(s.last(), dir_name, parent_name, project_recency, path, cutoff);
        lemma_add_empty_model(ScanModel::empty());
    }
}

proof fn lemma_no_candidate_dir(
    d: FsEntry,
    parent_name: Option<Seq<char>>,
    path: Seq<Seq<char>>,
    cutoff: u64,
)
    requires
        !has_candidate(d),
    ensures
        scan_dir_model(d, parent_name, path, cutoff) == ScanModel::empty(),
    decreases d, 0int,
{
    match d {
        FsEntry::Dir { name, entries } => {
            lemma_no_candidate_entries(
                entries@,
                name@,
                parent_name,
                recency_of(d),
                path,
                cutoff,
            );
        },
        FsEntry::File { .. } => {},
    }
}

/// A snapshot without a single candidate folder scans to empty statistics:
/// no stale candidates, no recent candidates, not a byte attributed.
pub proof fn lemma_no_candidates_scan_empty(root: Option<FsEntry>, cutoff: u64)
    requires
        root matches Some(r) ==> !has_candidate(r),
    ensures
        scan_model(root, cutoff) == ScanModel::empty(),
{
    match root {
        None => {},
        Some(r) => {
            if r is Dir {
                lemma_no_candidate_dir(r, None, seq![r.name_view()], cutoff);
            }
        },
    }
}

/// The cutoff boundary falls to the stale side: a candidate whose owning
/// project was last active exactly at the cutoff joins the stale partition,
/// its path appended and its size added, since only activity strictly after
/// the cutoff preserves a candidate.
pub proof fn lemma_boundary_is_stale(
    s: Seq<FsEntry>,
    c: FsEntry,
    dir_name: Seq<char>,
    parent_name: Option<Seq<char>>,
    path: Seq<Seq<char>>,
    cutoff: u64,
)
    requires
        c.is_candidate(),
        parent_name != Some(pnpm_name()),
    ensures
        scan_entries_model(s.push(c), dir_name, parent_name, cutoff, path, cutoff)
            == scan_entries_model(s, dir_name, parent_name, cutoff, path, cutoff).add(
            ScanModel::one_stale(path.push(c.name_view()), c),
        ),
{
    let t = s.push(c);
    assert(t.drop_last() =~= s);
    assert(t.last() == c);
    assert(t.len() == s.len() + 1);
    assert(!is_recent(cutoff, cutoff));
    assert(scan_entry_model(c, dir_name, parent_name, cutoff, path, cutoff)
        == ScanModel::one_stale(path.push(c.name_view()), c));
    assert(scan_entries_model(t, dir_name, parent_name, cutoff, path, cutoff)
        == scan_entries_model(t.drop_last(), dir_name, parent_name, cutoff, path, cutoff).add(
        scan_entry_model(t.last(), dir_name, parent_name, cutoff, path, cutoff),
    ));
}

/// A candidate two levels under a `.pnpm` directory leaves no trace: the
/// scan of its siblings with it is the scan of its siblings without it,
/// in both partitions and in every total.
pub proof fn lemma_pnpm_nested_excluded(
    s: Seq<FsEntry>,
    c: FsEntry,
    dir_name: Seq<char>,
    project_recency: u64,
    path: Seq<Seq<char>>,
    cutoff: u64,
)
    requires
        c.is_candidate(),
    ensures
        scan_entries_model(s.push(c), dir_name, Some(pnpm_name()), project_recency, path, cutoff)
            == scan_entries_model(s, dir_name, Some(pnpm_name()), project_recency, path, cutoff),
{
    let t = s.push(c);
    assert(t.drop_last() =~= s);
    assert(t.last() == c);
    assert(scan_entry_model(c, dir_name, Some(pnpm_name()), project_recency, path, cutoff)
        == ScanModel::empty());
    assert(scan_entries_model(t, dir_name, Some(pnpm_name()), project_recency, path, cutoff)
        == scan_entries_model(s, dir_name, Some(pnpm_name()), project_recency, path, cutoff).add(
        ScanModel::empty(),
    ));
    lemma_add_empty_model(
        scan_entries_model(s, dir_name, Some(pnpm_name()), project_recency, path, cutoff),
    );
}

/// Scanning is deterministic: statistics drawn twice from one unchanged
/// snapshot and cutoff agree in every field, so a repeated scan with no
/// deletions in between reports exactly what the first one did.
pub proof fn lemma_scan_idempotent(
    first: ScanStats,
    second: ScanStats,
    root: Option<FsEntry>,
    cutoff: u64,
)
    requires
        matches_model(first, scan_model(root, cutoff)),
        matches_model(second, scan_model(root, cutoff)),
    ensures
        first.stale_count == second.stale_count,
        first.stale_total_bytes == second.stale_total_bytes,
        first.stale_paths.deep_view() == second.stale_paths.deep_view(),
        first.recent_count == second.recent_count,
        first.recent_total_bytes == second.recent_total_bytes,
{
}

/// A partial outcome accounts for its stale bytes: the byte total is the sum
/// of the sizes of the recorded stale subtrees, one path per subtree.
pub open spec fn accounts_stale_bytes(m: ScanModel) -> bool {
    &&& m.stale_bytes == size_of_entries(m.stale_trees)
    &&& m.stale_paths.len() == m.stale_trees.len()
}

proof fn lemma_size_of_entries_concat(a: Seq<FsEntry>, b: Seq<FsEntry>)
    ensures
        size_of_entries(a + b) == size_of_entries(a) + size_of_entries(b),
    decreases b,
{
    if b.len() == 0 {
        assert(a + b =~= a);
    } else {
        assert((a + b).drop_last() =~= a + b.drop_last());
        lemma_size_of_entries_concat(a, b.drop_last());
    }
}

proof fn lemma_add_accounts(m1: ScanModel, m2: ScanModel)
    requires
        accounts_stale_bytes(m1),
        accounts_stale_bytes(m2),
    ensures
        accounts_stale_bytes(m1.add(m2)),
{
    lemma_size_of_entries_concat(m1.stale_trees, m2.stale_trees);
}

proof fn lemma_entry_accounts(
    e: FsEntry,
    dir_name: Seq<char>,
    parent_name: Option<Seq<char>>,
    project_recency: u64,
    path: Seq<Seq<char>>,
    cutoff: u64,
)
    ensures
        accounts_stale_bytes(
            scan_entry_model(e, dir_name, parent_name, project_recency, path, cutoff),
        ),
    decreases e, 1int,
{
    if e.is_candidate() {
        if parent_name != Some(pnpm_name()) && !is_recent(project_recency, cutoff) {
            let m = ScanModel::one_stale(path.push(e.name_view()), e);
            assert(m.stale_trees.drop_last() =~= Seq::<FsEntry>::empty());
            assert(size_of_entries(Seq::<FsEntry>::empty()) == 0);
            assert(size_of_entries(m.stale_trees)
                == size_of_entries(m.stale_trees.drop_last()) + size_of(m.stale_trees.last()));
            assert(size_of_entries(m.stale_trees) == size_of(e));
        }
    } else if e is Dir {
        lemma_dir_accounts(e, Some(dir_name), path.push(e.name_view()), cutoff);
    }
}

proof fn lemma_entries_accounts(
    s: Seq<FsEntry>,
    dir_name: Seq<char>,
    parent_name: Option<Seq<char>>,
    project_recency: u64,
    path: Seq<Seq<char>>,
    cutoff: u64,
)
    ensures
        accounts_stale_bytes(
            scan_entries_model(s, dir_name, parent_name, project_recency, path, cutoff),
        ),
    decreases s, 2int,
{
    if s.len() > 0 {
        lemma_entries_accounts(
            s.drop_last(),
            dir_name,
            parent_name,
            project_recency,
            path,
            cutoff,
        );
        lemma_entry_accounts(s.last(), dir_name, parent_name, project_recency, path, cutoff);
        lemma_add_accounts(
            scan_entries_model(s.drop_last(), dir_name, parent_name, project_recency, path, cutoff),
            scan_entry_model(s.last(), dir_name, parent_name, project_recency, path, cutoff),
        );
    }
}

proof fn lemma_dir_accounts(
    d: FsEntry,
    parent_name: Option<Seq<char>>,
    path: Seq<Seq<char>>,
    cutoff: u64,
)
    ensures
        accounts_stale_bytes(scan_dir_model(d, parent_name, path, cutoff)),
    decreases d, 0int,
{
    match d {
        FsEntry::Dir { name, entries } => {
            lemma_entries_accounts(entries@, name@, parent_name, recency_of(d), path, cutoff);
        },
        FsEntry::File { .. } => {},
    }
}

/// The stale byte total is accounted for by the stale candidates themselves:
/// it equals the summed sizes of the subtrees behind the stale paths, with
/// one recorded subtree per recorded path.
pub proof fn lemma_stale_bytes_accounted(root: Option<FsEntry>, cutoff: u64)
    ensures
        accounts_stale_bytes(scan_model(root, cutoff)),
{
    match root {
        None => {},
        Some(r) => {
            if !r.is_candidate() && r is Dir {
                lemma_dir_accounts(r, None, seq![r.name_view()], cutoff);
            }
        },
    }
}

/// Where a partial outcome's stale records point: each recorded stale path
/// leads on from `d`, whose own path from the scan root is `path`, to
/// exactly the subtree recorded beside it.
pub open spec fn resolves_below(m: ScanModel, d: FsEntry, path: Seq<Seq<char>>) -> bool {
    &&& m.stale_paths.len() == m.stale_trees.len()
    &&& forall|j: int|
        #![trigger m.stale_paths[j]]
        0 <= j < m.stale_paths.len() ==> {
            let p = m.stale_paths[j];
            &&& p.len() > path.len()
            &&& p.take(path.len() as int) == path
            &&& entry_at_path(d, p.subrange(path.len() as int - 1, p.len() as int))
                == Some(m.stale_trees[j])
        }
}

proof fn lemma_resolves_add(m1: ScanModel, m2: ScanModel, d: FsEntry, path: Seq<Seq<char>>)
    requires
        resolves_below(m1, d, path),
        resolves_below(m2, d, path),
    ensures
        resolves_below(m1.add(m2), d, path),
{
    let m = m1.add(m2);
    let n1 = m1.stale_paths.len() as int;
    assert forall|j: int| #![trigger m.stale_paths[j]] 0 <= j < m.stale_paths.len() implies {
        let p = m.stale_paths[j];
        &&& p.len() > path.len()
        &&& p.take(path.len() as int) == path
        &&& entry_at_path(d, p.subrange(path.len() as int - 1, p.len() as int))
            == Some(m.stale_trees[j])
    } by {
        if j < n1 {
            assert(m.stale_paths[j] == m1.stale_paths[j]);
            assert(m.stale_trees[j] == m1.stale_trees[j]);
            assert(0 <= j < m1.stale_paths.len());
        } else {
            assert(m.stale_paths[j] == m2.stale_paths[j - n1]);
            assert(m.stale_trees[j] == m2.stale_trees[j - n1]);
            assert(0 <= j - n1 < m2.stale_paths.len());
        }
    }
}

proof fn lemma_child_named_finds(s: Seq<FsEntry>, i: int)
    requires
        distinct_names(s),
        0 <= i < s.len(),
    ensures
        child_named(s, s[i].name_view()) == Some(s[i]),
    decreases s.len(),
{
    if s.first().name_view() == s[i].name_view() {
        assert(i == 0);
    } else {
        let rest = s.drop_first();
        assert forall|a: int, b: int| 0 <= a < b < rest.len() implies (#[trigger] rest[a]).name_view()
            != (#[trigger] rest[b]).name_view() by {
            assert(rest[a] == s[a + 1]);
            assert(rest[b] == s[b + 1]);
        }
        lemma_child_named_finds(rest, i - 1);
        assert(rest[i - 1] == s[i]);
    }
}

proof fn lemma_one_stale_resolves(d: FsEntry, i: int, path: Seq<Seq<char>>)
    requires
        d is Dir,
        distinct_names(d->Dir_entries@),
        0 <= i < d->Dir_entries@.len(),
        path.len() >= 1,
        path.last() == d.name_view(),
    ensures
        resolves_below(
            ScanModel::one_stale(
                path.push(d->Dir_entries@[i].name_view()),
                d->Dir_entries@[i],
            ),
            d,
            path,
        ),
{
    let c = d->Dir_entries@[i];
    let p = path.push(c.name_view());
    let suf = p.subrange(path.len() as int - 1, p.len() as int);
    assert(suf =~= seq![d.name_view(), c.name_view()]);
    lemma_child_named_finds(d->Dir_entries@, i);
    assert(suf.drop_first() =~= seq![c.name_view()]);
    assert(entry_at_path(c, seq![c.name_view()]) == Some(c));
    assert(entry_at_path(d, suf) == Some(c));
    assert(p.take(path.len() as int) =~= path);
}

proof fn lemma_lift_resolves(m: ScanModel, d: FsEntry, i: int, path: Seq<Seq<char>>)
    requires
        d is Dir,
        distinct_names(d->Dir_entries@),
        0 <= i < d->Dir_entries@.len(),
        path.len() >= 1,
        path.last() == d.name_view(),
        resolves_below(m, d->Dir_entries@[i], path.push(d->Dir_entries@[i].name_view())),
    ensures
        resolves_below(m, d, path),
{
    let c = d->Dir_entries@[i];
    let path2 = path.push(c.name_view());
    lemma_child_named_finds(d->Dir_entries@, i);
    assert forall|j: int| #![trigger m.stale_paths[j]] 0 <= j < m.stale_paths.len() implies {
        let p = m.stale_paths[j];
        &&& p.len() > path.len()
        &&& p.take(path.len() as int) == path
        &&& entry_at_path(d, p.subrange(path.len() as int - 1, p.len() as int))
            == Some(m.stale_trees[j])
    } by {
        let p = m.stale_paths[j];
        assert(p.take(path2.len() as int) == path2);
        assert(p.take(path.len() as int) =~= path);
        let suf = p.subrange(path.len() as int - 1, p.len() as int);
        let suf2 = p.subrange(path2.len() as int - 1, p.len() as int);
        assert(p[path.len() as int - 1] == path2[path.len() as int - 1]);
        assert(suf[0] == d.name_view());
        assert(p[path.len() as int] == path2[path.len() as int]);
        assert(suf[1] == c.name_view());
        assert(suf.len() >= 2);
        assert(suf.drop_first() =~= suf2);
        assert(child_named(d->Dir_entries@, suf[1]) == Some(c));
        assert(entry_at_path(d, suf) == entry_at_path(c, suf2));
    }
}

proof fn lemma_entries_resolve(
    d: FsEntry,
    s: Seq<FsEntry>,
    parent_name: Option<Seq<char>>,
    project_recency: u64,
    path: Seq<Seq<char>>,
    cutoff: u64,
)
    requires
        d is Dir,
        well_named(d),
        s.len() <= d->Dir_entries@.len(),
        forall|i: int| 0 <= i < s.len() ==> s[i] == d->Dir_entries@[i],
        path.len() >= 1,
        path.last() == d.name_view(),
    ensures
        resolves_below(
            scan_entries_model(s, d.name_view(), parent_name, project_recency, path, cutoff),
            d,
            path,
        ),
    decreases s, 1int,
{
    if s.len() == 0 {
        assert(resolves_below(ScanModel::empty(), d, path));
    } else {
        lemma_entries_resolve(d, s.drop_last(), parent_name, project_recency, path, cutoff);
        let i = s.len() as int - 1;
        let c = s.last();
        assert(c == d->Dir_entries@[i]);
        let mc = scan_entry_model(c, d.name_view(), parent_name, project_recency, path, cutoff);
        if c.is_candidate() {
            if parent_name == Some(pnpm_name()) {
                assert(resolves_below(mc, d, path));
            } else if is_recent(project_recency, cutoff) {
                assert(resolves_below(mc, d, path));
            } else {
                lemma_one_stale_resolves(d, i, path);
            }
        } else if c is Dir {
            assert(well_named(c));
            lemma_dir_resolves(c, Some(d.name_view()), path.push(c.name_view()), cutoff);
            lemma_lift_resolves(
                scan_dir_model(c, Some(d.name_view()), path.push(c.name_view()), cutoff),
                d,
                i,
                path,
            );
        } else {
            assert(resolves_below(mc, d, path));
        }
        lemma_resolves_add(
            scan_entries_model(
                s.drop_last(),
                d.name_view(),
                parent_name,
                project_recency,
                path,
                cutoff,
            ),
            mc,
            d,
            path,
        );
    }
}

proof fn lemma_dir_resolves(
    d: FsEntry,
    parent_name: Option<Seq<char>>,
    path: Seq<Seq<char>>,
    cutoff: u64,
)
    requires
        d is Dir,
        well_named(d),
        path.len() >= 1,
        path.last() == d.name_view(),
    ensures
        resolves_below(scan_dir_model(d, parent_name, path, cutoff), d, path),
    decreases d, 0int,
{
    lemma_entries_resolve(d, d->Dir_entries@, parent_name, recency_of(d), path, cutoff);
}

/// Each stale path denotes, in the scanned snapshot, exactly the subtree
/// recorded beside it, provided sibling names are distinct as they are on a
/// real filesystem. Together with `lemma_stale_bytes_accounted` this says the
/// stale byte total is the summed size of the very subtrees the stale paths
/// name.
pub proof fn lemma_stale_paths_locate_their_trees(root: FsEntry, cutoff: u64)
    requires
        well_named(root),
    ensures
        ({
            let m = scan_model(Some(root), cutoff);
            &&& m.stale_paths.len() == m.stale_trees.len()
            &&& forall|j: int|
                #![trigger m.stale_paths[j]]
                0 <= j < m.stale_paths.len() ==> entry_at_path(root, m.stale_paths[j])
                    == Some(m.stale_trees[j])
        }),
{
    let m = scan_model(Some(root), cutoff);
    if !root.is_candidate() && root is Dir {
        lemma_dir_resolves(root, None, seq![root.name_view()], cutoff);
        assert forall|j: int| #![trigger m.stale_paths[j]] 0 <= j < m.stale_paths.len() implies
            entry_at_path(root, m.stale_paths[j]) == Some(m.stale_trees[j]) by {
            let p = m.stale_paths[j];
            assert(p.subrange(0, p.len() as int) =~= p);
        }
    }
}

/// A project's recency never comes from its dependencies: an entry named
/// `node_modules` contributes nothing to the most recent activity of the
/// directory that holds it.
pub proof fn lemma_recency_ignores_node_modules(s: Seq<FsEntry>, nm: FsEntry)
    requires
        nm.name_view() == node_modules_name(),
    ensures
        recency_of_entries(s.push(nm)) == recency_of_entries(s),
{
    assert(s.push(nm).drop_last() =~= s);
    assert(recency_of(nm) == 0);
}

} // verus!
