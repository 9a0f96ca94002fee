use node_sweep::scan::checked_cutoff;
use node_sweep::scan::scan;
use node_sweep::tree::compute_size;
use node_sweep::tree::most_recent_activity;
use node_sweep::tree::FsEntry;

const DAY: u64 = 86400;

fn file(name: &str, size: u64, mtime: u64) -> FsEntry {
    FsEntry::File { name: name.to_string(), size, mtime }
}

fn dir(name: &str, entries: Vec<FsEntry>) -> FsEntry {
    FsEntry::Dir { name: name.to_string(), entries }
}

fn path(components: &[&str]) -> Vec<String> {
    components.iter().map(|c| c.to_string()).collect()
}

/// Walks `root` along `p` by entry names and sums every file byte under the
/// entry it reaches, independently of the scanner's own accounting.
fn entry_at<'a>(root: &'a FsEntry, p: &[String]) -> &'a FsEntry {
    assert!(!p.is_empty());
    let name = match root {
        FsEntry::File { name, .. } => name,
        FsEntry::Dir { name, .. } => name,
    };
    assert_eq!(*name, p[0]);
    if p.len() == 1 {
        return root;
    }
    match root {
        FsEntry::Dir { entries, .. } => {
            for e in entries {
                let child_name = match e {
                    FsEntry::File { name, .. } => name,
                    FsEntry::Dir { name, .. } => name,
                };
                if *child_name == p[1] {
                    return entry_at(e, &p[1..]);
                }
            }
            panic!("path component not found");
        }
        FsEntry::File { .. } => panic!("file in the middle of a path"),
    }
}

fn sum_file_bytes(e: &FsEntry) -> u64 {
    match e {
        FsEntry::File { size, .. } => *size,
        FsEntry::Dir { entries, .. } => entries.iter().map(sum_file_bytes).sum(),
    }
}

#[test]
fn no_node_modules_zero_counts() {
    let root = dir(
        "root",
        vec![
            dir("a", vec![file("x.txt", 10, 100), dir("b", vec![file("y.txt", 5, 200)])]),
            file("z.txt", 7, 50),
        ],
    );
    let stats = scan(Some(&root), 1000);
    assert_eq!(stats.stale_count, 0);
    assert_eq!(stats.recent_count, 0);
    assert_eq!(stats.stale_total_bytes, 0);
    assert_eq!(stats.recent_total_bytes, 0);
    assert!(stats.stale_paths.is_empty());
}

#[test]
fn boundary_timestamp_is_stale() {
    let cutoff: u64 = 1000;
    let root = dir(
        "root",
        vec![dir(
            "proj",
            vec![file("src.js", 3, cutoff), dir("node_modules", vec![file("dep.js", 8, 1)])],
        )],
    );
    let stats = scan(Some(&root), cutoff);
    assert_eq!(stats.stale_count, 1);
    assert_eq!(stats.recent_count, 0);
    assert_eq!(stats.stale_total_bytes, 8);
    assert_eq!(stats.stale_paths, vec![path(&["root", "proj", "node_modules"])]);

    // One second past the cutoff the same project is preserved.
    let root_newer = dir(
        "root",
        vec![dir(
            "proj",
            vec![file("src.js", 3, cutoff + 1), dir("node_modules", vec![file("dep.js", 8, 1)])],
        )],
    );
    let stats_newer = scan(Some(&root_newer), cutoff);
    assert_eq!(stats_newer.stale_count, 0);
    assert_eq!(stats_newer.recent_count, 1);
    assert_eq!(stats_newer.recent_total_bytes, 8);
}

#[test]
fn pnpm_nested_excluded() {
    // The constructed tree: root/proj/node_modules/.pnpm/pkg/node_modules.
    // The outer candidate is classified once; the pnpm-internal one is
    // neither stale nor recent, and never double-counted.
    let inner = dir("node_modules", vec![file("dup.js", 4, 1)]);
    let root = dir(
        "root",
        vec![dir(
            "proj",
            vec![
                file("old.js", 1, 10),
                dir("node_modules", vec![dir(".pnpm", vec![dir("pkg", vec![inner])])]),
            ],
        )],
    );
    let stats = scan(Some(&root), 1000);
    assert_eq!(stats.stale_count + stats.recent_count as usize, 1);
    assert_eq!(stats.stale_count, 1);
    assert_eq!(stats.stale_total_bytes, 4);
    assert_eq!(stats.stale_paths, vec![path(&["root", "proj", "node_modules"])]);
}

#[test]
fn pnpm_grandparent_excluded_without_outer_candidate() {
    // A candidate whose grandparent is literally named `.pnpm`, with no
    // enclosing node_modules: still excluded from both partitions.
    let root = dir(
        "root",
        vec![dir(".pnpm", vec![dir("pkg", vec![dir("node_modules", vec![file("a", 2, 1)])])])],
    );
    let stats = scan(Some(&root), 1000);
    assert_eq!(stats.stale_count, 0);
    assert_eq!(stats.recent_count, 0);
    assert_eq!(stats.stale_total_bytes, 0);
    assert_eq!(stats.recent_total_bytes, 0);
}

#[test]
fn scan_twice_identical() {
    let root = dir(
        "root",
        vec![
            dir("a", vec![file("f", 9, 2000), dir("node_modules", vec![file("d", 11, 1)])]),
            dir("b", vec![file("g", 1, 10), dir("node_modules", vec![file("e", 13, 1)])]),
        ],
    );
    let first = scan(Some(&root), 1000);
    let second = scan(Some(&root), 1000);
    assert_eq!(first.stale_count, second.stale_count);
    assert_eq!(first.stale_total_bytes, second.stale_total_bytes);
    assert_eq!(first.stale_paths, second.stale_paths);
    assert_eq!(first.recent_count, second.recent_count);
    assert_eq!(first.recent_total_bytes, second.recent_total_bytes);
}

#[test]
fn stale_bytes_match_independent_sums() {
    let root = dir(
        "root",
        vec![
            dir(
                "one",
                vec![
                    file("f", 1, 10),
                    dir("node_modules", vec![file("a", 100, 1), dir("x", vec![file("b", 23, 2)])]),
                ],
            ),
            dir("two", vec![dir("node_modules", vec![file("c", 7, 3)])]),
        ],
    );
    let stats = scan(Some(&root), 1000);
    assert_eq!(stats.stale_count, 2);
    let independent: u64 =
        stats.stale_paths.iter().map(|p| sum_file_bytes(entry_at(&root, p))).sum();
    assert_eq!(stats.stale_total_bytes, independent);
    assert_eq!(independent, 130);
}

#[test]
fn recency_ignores_node_modules_files() {
    // The only recent file lives inside the project's own node_modules: the
    // project still counts as inactive and the candidate is stale.
    let root = dir(
        "root",
        vec![dir(
            "proj",
            vec![
                file("ancient.js", 2, 100),
                dir("node_modules", vec![file("installed_today.js", 6, 5_000_000)]),
            ],
        )],
    );
    let stats = scan(Some(&root), 1000);
    assert_eq!(stats.stale_count, 1);
    assert_eq!(stats.recent_count, 0);
    assert_eq!(stats.stale_total_bytes, 6);
}

#[test]
fn most_recent_activity_prunes_and_maxes() {
    let proj = dir(
        "proj",
        vec![
            file("a", 1, 300),
            dir("sub", vec![file("b", 1, 900), file("c", 1, 250)]),
            dir("node_modules", vec![file("noise", 1, 999_999)]),
            file("node_modules", 1, 888_888),
        ],
    );
    assert_eq!(most_recent_activity(&proj), 900);
    assert_eq!(most_recent_activity(&dir("empty", vec![])), 0);
}

#[test]
fn compute_size_sums_all_files() {
    let tree = dir(
        "node_modules",
        vec![
            file("a", 10, 1),
            dir("pkg", vec![file("b", 20, 1), dir("deep", vec![file("c", 30, 1)])]),
            dir("empty", vec![]),
        ],
    );
    assert_eq!(compute_size(&tree), 60);
    assert_eq!(compute_size(&file("solo", 42, 9)), 42);
}

#[test]
fn two_projects_scenario() {
    let now: u64 = 100 * DAY;
    let cutoff = checked_cutoff(now, 30).unwrap();
    assert_eq!(cutoff, 70 * DAY);
    let root = dir(
        "root",
        vec![
            dir(
                "projA",
                vec![
                    file("main.js", 1, now - 60 * DAY),
                    dir("node_modules", vec![file("file1", 10, 1)]),
                ],
            ),
            dir(
                "projB",
                vec![
                    file("main.js", 1, now - 1 * DAY),
                    dir("node_modules", vec![file("file2", 20, 1)]),
                ],
            ),
        ],
    );
    let stats = scan(Some(&root), cutoff);
    assert_eq!(stats.stale_count, 1);
    assert_eq!(stats.stale_total_bytes, 10);
    assert_eq!(stats.stale_paths, vec![path(&["root", "projA", "node_modules"])]);
    assert_eq!(stats.recent_count, 1);
    assert_eq!(stats.recent_total_bytes, 20);
}

#[test]
fn empty_node_modules_is_stale_with_size_zero() {
    let now: u64 = 200 * DAY;
    let cutoff = checked_cutoff(now, 30).unwrap();
    let root = dir(
        "root",
        vec![dir(
            "proj",
            vec![file("notes.txt", 5, now - 100 * DAY), dir("node_modules", vec![])],
        )],
    );
    let stats = scan(Some(&root), cutoff);
    assert_eq!(stats.stale_count, 1);
    assert_eq!(stats.stale_total_bytes, 0);
    assert_eq!(stats.stale_paths, vec![path(&["root", "proj", "node_modules"])]);
    assert_eq!(stats.recent_count, 0);
}

#[test]
fn missing_root_yields_zero_stats() {
    let stats = scan(None, 1000);
    assert_eq!(stats.stale_count, 0);
    assert_eq!(stats.stale_total_bytes, 0);
    assert!(stats.stale_paths.is_empty());
    assert_eq!(stats.recent_count, 0);
    assert_eq!(stats.recent_total_bytes, 0);
}

#[test]
fn cutoff_arithmetic() {
    assert_eq!(checked_cutoff(1000, 0), Some(1000));
    assert_eq!(checked_cutoff(2 * DAY, 1), Some(DAY));
    // A threshold reaching back past the epoch has no cutoff: the distinct
    // failure a caller must handle, unlike a merely missing root.
    assert_eq!(checked_cutoff(100, 30), None);
    assert_eq!(checked_cutoff(u64::MAX, u64::MAX), None);
}

#[test]
fn root_named_node_modules_is_preserved() {
    // No parent is visible for the root itself: conservatively recent, with
    // no size attributed and nothing listed for deletion.
    let root = dir("node_modules", vec![file("a", 50, 1)]);
    let stats = scan(Some(&root), 1000);
    assert_eq!(stats.stale_count, 0);
    assert_eq!(stats.recent_count, 1);
    assert_eq!(stats.recent_total_bytes, 0);
    assert!(stats.stale_paths.is_empty());
}

#[test]
fn file_named_node_modules_is_no_candidate() {
    let root = dir("root", vec![dir("proj", vec![file("node_modules", 9, 1)])]);
    let stats = scan(Some(&root), 1000);
    assert_eq!(stats.stale_count, 0);
    assert_eq!(stats.recent_count, 0);
}

#[test]
fn candidate_interior_is_not_rescanned() {
    // A node_modules inside a classified candidate is consumed by the size
    // computation, never counted as a candidate of its own.
    let root = dir(
        "root",
        vec![dir(
            "proj",
            vec![
                file("f", 1, 10),
                dir(
                    "node_modules",
                    vec![dir("dep", vec![dir("node_modules", vec![file("inner", 5, 1)])])],
                ),
            ],
        )],
    );
    let stats = scan(Some(&root), 1000);
    assert_eq!(stats.stale_count, 1);
    assert_eq!(stats.stale_total_bytes, 5);
    assert_eq!(stats.stale_paths, vec![path(&["root", "proj", "node_modules"])]);
}

#[test]
fn root_file_holds_no_candidates() {
    let stats = scan(Some(&file("node_modules", 10, 1)), 1000);
    assert_eq!(stats.stale_count, 0);
    assert_eq!(stats.recent_count, 0);
    assert_eq!(stats.stale_total_bytes, 0);
}

#[test]
fn discovery_order_is_kept() {
    let root = dir(
        "root",
        vec![
            dir("b", vec![dir("node_modules", vec![])]),
            dir("a", vec![dir("node_modules", vec![])]),
            dir("c", vec![dir("inner", vec![dir("node_modules", vec![])])]),
        ],
    );
    let stats = scan(Some(&root), 1000);
    assert_eq!(
        stats.stale_paths,
        vec![
            path(&["root", "b", "node_modules"]),
            path(&["root", "a", "node_modules"]),
            path(&["root", "c", "inner", "node_modules"]),
        ]
    );
    assert_eq!(stats.stale_count, 3);
}
