use vcs_status_daemon::aggregate::{aggregate_file_stats, aggregate_overlay_stats, DiffCounts};
use vcs_status_daemon::by_dir::{aggregate_overlay_stats_by_dir, IncrementalDiffStats};
use vcs_status_daemon::stats::{FileChangeKind, FileDiffStats};
use vcs_status_daemon::table::FileTable;

fn base_table<const N: usize>(entries: [(String, FileDiffStats); N]) -> FileTable<FileDiffStats> {
    let mut table = FileTable::new();
    for (path, stats) in entries {
        table.insert(path, stats);
    }
    table
}

fn overlay_table<const N: usize>(
    entries: [(String, Option<FileDiffStats>); N],
) -> FileTable<Option<FileDiffStats>> {
    let mut table = FileTable::new();
    for (path, entry) in entries {
        table.insert(path, entry);
    }
    table
}

fn of_kind(kind: FileChangeKind, added: u32, removed: u32) -> FileDiffStats {
    FileDiffStats { lines_added: added, lines_removed: removed, kind, ..Default::default() }
}

fn dcounts(file_mad_count: u32, lines_added: u32, lines_removed: u32) -> DiffCounts {
    DiffCounts {
        file_mad_count,
        lines_added,
        lines_removed,
        files_modified: file_mad_count,
        ..Default::default()
    }
}

fn fstats(added: u32, removed: u32) -> FileDiffStats {
    FileDiffStats {
        lines_added: added,
        lines_removed: removed,
        kind: FileChangeKind::Modified,
        ..Default::default()
    }
}

#[test]
fn test_aggregate_empty() {
    let base = base_table([]);
    let overlay = FileTable::new();
    assert_eq!(aggregate_overlay_stats(&base, &overlay), dcounts(0, 0, 0));
}

#[test]
fn test_aggregate_base_only() {
    let base = base_table([
        ("a.rs".into(), fstats(10, 3)),
        ("b.rs".into(), fstats(5, 0)),
    ]);
    let overlay = FileTable::new();
    assert_eq!(aggregate_overlay_stats(&base, &overlay), dcounts(2, 15, 3));
}

#[test]
fn test_aggregate_overlay_replaces_base() {
    let base = base_table([("a.rs".into(), fstats(10, 3))]);
    let overlay = overlay_table([("a.rs".into(), Some(fstats(20, 1)))]);
    assert_eq!(aggregate_overlay_stats(&base, &overlay), dcounts(1, 20, 1));
}

#[test]
fn test_aggregate_overlay_reverts_file() {
    let base = base_table([("a.rs".into(), fstats(10, 3))]);
    let overlay = overlay_table([("a.rs".into(), None)]);
    assert_eq!(aggregate_overlay_stats(&base, &overlay), dcounts(0, 0, 0));
}

#[test]
fn test_aggregate_overlay_new_file() {
    let base = base_table([]);
    let overlay = overlay_table([("new.txt".into(), Some(fstats(5, 0)))]);
    assert_eq!(aggregate_overlay_stats(&base, &overlay), dcounts(1, 5, 0));
}

#[test]
fn test_aggregate_mixed_base_and_overlay() {
    let base = base_table([
        ("unchanged.rs".into(), fstats(10, 2)),
        ("modified.rs".into(), fstats(5, 1)),
        ("reverted.rs".into(), fstats(8, 3)),
    ]);
    let overlay = overlay_table([
        ("modified.rs".into(), Some(fstats(7, 0))),
        ("reverted.rs".into(), None),
        ("brand_new.rs".into(), Some(fstats(20, 0))),
    ]);
    assert_eq!(aggregate_overlay_stats(&base, &overlay), dcounts(3, 37, 2));
}

#[test]
fn test_aggregate_overlay_zeros_out_file() {
    let base = base_table([("a.rs".into(), fstats(10, 3))]);
    let overlay = overlay_table([("a.rs".into(), Some(fstats(0, 0)))]);
    assert_eq!(aggregate_overlay_stats(&base, &overlay), dcounts(1, 0, 0));
}

#[test]
fn test_aggregate_overlay_new_file_with_no_stats() {
    let base = base_table([]);
    let overlay = overlay_table([("phantom.txt".into(), None)]);
    assert_eq!(aggregate_overlay_stats(&base, &overlay), dcounts(0, 0, 0));
}

#[test]
fn test_aggregate_multiple_overlays_accumulate() {
    let base = base_table([("a.rs".into(), fstats(5, 1))]);
    let overlay = overlay_table([
        ("a.rs".into(), Some(fstats(8, 2))),
        ("b.rs".into(), Some(fstats(3, 0))),
        ("c.rs".into(), Some(fstats(0, 4))),
        ("d.rs".into(), None),
    ]);
    assert_eq!(aggregate_overlay_stats(&base, &overlay), dcounts(3, 11, 6));
}

#[test]
fn test_aggregate_base_zero_line_stats_counted_as_file() {
    let base = base_table([("empty_diff.rs".into(), fstats(0, 0))]);
    let overlay = FileTable::new();
    assert_eq!(aggregate_overlay_stats(&base, &overlay), dcounts(1, 0, 0));
}

#[test]
fn test_aggregate_all_reverted() {
    let base = base_table([
        ("a.rs".into(), fstats(10, 2)),
        ("b.rs".into(), fstats(5, 1)),
        ("c.rs".into(), fstats(3, 0)),
    ]);
    let overlay = overlay_table([
        ("a.rs".into(), None),
        ("b.rs".into(), None),
        ("c.rs".into(), None),
    ]);
    assert_eq!(aggregate_overlay_stats(&base, &overlay), dcounts(0, 0, 0));
}

#[test]
fn test_aggregate_overlay_only_new_files() {
    let base = base_table([]);
    let overlay = overlay_table([
        ("x.rs".into(), Some(fstats(1, 0))),
        ("y.rs".into(), Some(fstats(0, 1))),
        ("z.rs".into(), Some(fstats(10, 5))),
    ]);
    assert_eq!(aggregate_overlay_stats(&base, &overlay), dcounts(3, 11, 6));
}
fn apply_event(
    overlay: &mut FileTable<Option<FileDiffStats>>,
    path: &str,
    diff: Option<FileDiffStats>,
) {
    overlay.insert(path.to_string(), diff);
}

#[test]
fn test_sequential_events_accumulate() {
    let base = base_table([("existing.rs".into(), fstats(5, 1))]);
    let mut overlay = FileTable::new();
    apply_event(&mut overlay, "new1.txt", Some(fstats(3, 0)));
    assert_eq!(aggregate_overlay_stats(&base, &overlay), dcounts(2, 8, 1));
    apply_event(&mut overlay, "new2.txt", Some(fstats(7, 0)));
    assert_eq!(aggregate_overlay_stats(&base, &overlay), dcounts(3, 15, 1));
    apply_event(&mut overlay, "new3.txt", Some(fstats(1, 0)));
    assert_eq!(aggregate_overlay_stats(&base, &overlay), dcounts(4, 16, 1));
}

#[test]
fn test_sequential_same_file_modified_multiple_times() {
    let base = base_table([]);
    let mut overlay = FileTable::new();
    apply_event(&mut overlay, "main.rs", Some(fstats(5, 0)));
    assert_eq!(aggregate_overlay_stats(&base, &overlay), dcounts(1, 5, 0));
    apply_event(&mut overlay, "main.rs", Some(fstats(8, 0)));
    assert_eq!(aggregate_overlay_stats(&base, &overlay), dcounts(1, 8, 0));
    apply_event(&mut overlay, "main.rs", Some(fstats(6, 2)));
    assert_eq!(aggregate_overlay_stats(&base, &overlay), dcounts(1, 6, 2));
    apply_event(&mut overlay, "main.rs", None);
    assert_eq!(aggregate_overlay_stats(&base, &overlay), dcounts(0, 0, 0));
}

#[test]
fn test_sequential_create_modify_delete() {
    let base = base_table([]);
    let mut overlay = FileTable::new();
    apply_event(&mut overlay, "temp.txt", Some(fstats(10, 0)));
    assert_eq!(aggregate_overlay_stats(&base, &overlay), dcounts(1, 10, 0));
    apply_event(&mut overlay, "temp.txt", Some(fstats(12, 0)));
    assert_eq!(aggregate_overlay_stats(&base, &overlay), dcounts(1, 12, 0));
    apply_event(&mut overlay, "temp.txt", None);
    assert_eq!(aggregate_overlay_stats(&base, &overlay), dcounts(0, 0, 0));
}

#[test]
fn test_sequential_interleaved_files() {
    let base = base_table([("a.rs".into(), fstats(3, 1))]);
    let mut overlay = FileTable::new();
    apply_event(&mut overlay, "a.rs", Some(fstats(5, 2)));
    assert_eq!(aggregate_overlay_stats(&base, &overlay), dcounts(1, 5, 2));
    apply_event(&mut overlay, "b.rs", Some(fstats(4, 0)));
    assert_eq!(aggregate_overlay_stats(&base, &overlay), dcounts(2, 9, 2));
    apply_event(&mut overlay, "a.rs", Some(fstats(6, 3)));
    assert_eq!(aggregate_overlay_stats(&base, &overlay), dcounts(2, 10, 3));
    apply_event(&mut overlay, "c.rs", Some(fstats(1, 0)));
    assert_eq!(aggregate_overlay_stats(&base, &overlay), dcounts(3, 11, 3));
    apply_event(&mut overlay, "b.rs", None);
    assert_eq!(aggregate_overlay_stats(&base, &overlay), dcounts(2, 7, 3));
}

#[test]
fn test_sequential_revert_snapshotted_then_re_modify() {
    let base = base_table([("config.toml".into(), fstats(2, 1))]);
    let mut overlay = FileTable::new();
    apply_event(&mut overlay, "config.toml", None);
    assert_eq!(aggregate_overlay_stats(&base, &overlay), dcounts(0, 0, 0));
    apply_event(&mut overlay, "config.toml", Some(fstats(10, 5)));
    assert_eq!(aggregate_overlay_stats(&base, &overlay), dcounts(1, 10, 5));
}

#[test]
fn test_sequential_full_refresh_clears_overlay() {
    let mut base = base_table([("old.rs".into(), fstats(3, 0))]);
    let mut overlay = FileTable::new();
    apply_event(&mut overlay, "new.txt", Some(fstats(5, 0)));
    apply_event(&mut overlay, "old.rs", Some(fstats(10, 2)));
    assert_eq!(aggregate_overlay_stats(&base, &overlay), dcounts(2, 15, 2));
    base = base_table([
        ("old.rs".into(), fstats(10, 2)),
        ("new.txt".into(), fstats(5, 0)),
    ]);
    overlay = FileTable::new();
    assert_eq!(aggregate_overlay_stats(&base, &overlay), dcounts(2, 15, 2));
    apply_event(&mut overlay, "old.rs", Some(fstats(11, 2)));
    assert_eq!(aggregate_overlay_stats(&base, &overlay), dcounts(2, 16, 2));
}

#[test]
fn test_sequential_many_rapid_events() {
    let base = base_table([]);
    let mut overlay = FileTable::new();

    for i in 0..50 {
        let path = format!("src/gen_{i}.rs");
        apply_event(&mut overlay, &path, Some(fstats(10, 0)));
    }
    assert_eq!(
        aggregate_overlay_stats(&base, &overlay),
        dcounts(50, 500, 0)
    );
    for i in 0..50 {
        let path = format!("src/gen_{i}.rs");
        apply_event(&mut overlay, &path, None);
    }
    assert_eq!(aggregate_overlay_stats(&base, &overlay), dcounts(0, 0, 0));
}

#[test]
fn test_sequential_base_file_deleted_on_disk() {
    let base = base_table([
        ("keep.rs".into(), fstats(20, 5)),
        ("delete_me.rs".into(), fstats(10, 3)),
    ]);
    let mut overlay = FileTable::new();
    apply_event(&mut overlay, "delete_me.rs", Some(fstats(0, 15)));
    assert_eq!(aggregate_overlay_stats(&base, &overlay), dcounts(2, 20, 20));
}

#[test]
fn untracked_files_count_apart() {
    let base = base_table([
        ("a".into(), of_kind(FileChangeKind::Added, 4, 0)),
        ("d".into(), of_kind(FileChangeKind::Deleted, 0, 7)),
        ("u".into(), of_kind(FileChangeKind::Untracked, 100, 100)),
    ]);
    let counts = aggregate_file_stats(&base);
    assert_eq!(
        counts,
        DiffCounts {
            file_mad_count: 2,
            lines_added: 4,
            lines_removed: 7,
            files_modified: 0,
            files_added: 1,
            files_deleted: 1,
            files_untracked: 1,
        }
    );
}

#[test]
fn counters_wrap() {
    let base = base_table([("a".into(), fstats(u32::MAX, 0)), ("b".into(), fstats(3, 0))]);
    assert_eq!(aggregate_file_stats(&base), dcounts(2, 2, 0));
}

#[test]
fn restating_the_base_changes_nothing() {
    let base = base_table([("a".into(), fstats(1, 2)), ("b".into(), fstats(3, 4))]);
    let overlay = overlay_table([("a".into(), Some(fstats(1, 2)))]);
    assert_eq!(aggregate_overlay_stats(&base, &overlay), aggregate_file_stats(&base));
}

#[test]
fn last_write_of_a_path_counts() {
    let base = base_table([]);
    let mut overlay = overlay_table([]);
    overlay.insert("a".into(), Some(fstats(1, 1)));
    overlay.insert("b".into(), Some(fstats(2, 0)));
    overlay.insert("a".into(), None);
    assert_eq!(aggregate_overlay_stats(&base, &overlay), dcounts(1, 2, 0));
    assert_eq!(overlay.len(), 2);
    assert_eq!(overlay.path_at(0), "a");
    assert!(overlay.value_at(0).is_none());
    assert!(overlay.contains("b"));
    assert!(!overlay.contains("c"));
    assert!(overlay.get("c").is_none());
}

#[test]
fn stats_by_directory() {
    let base = base_table([
        ("z.txt".into(), fstats(1, 1)),
        ("src/a.rs".into(), fstats(10, 2)),
        ("src/b.rs".into(), fstats(5, 5)),
        ("src/deep/c.rs".into(), of_kind(FileChangeKind::Untracked, 9, 9)),
    ]);
    let overlay = overlay_table([
        ("src/a.rs".into(), Some(fstats(7, 0))),
        ("src/b.rs".into(), None),
        ("docs/x.md".into(), Some(of_kind(FileChangeKind::Added, 3, 0))),
        ("docs/gone.md".into(), None),
    ]);
    let dirs = aggregate_overlay_stats_by_dir(&base, &overlay);
    let stats = |b: u32, o: u32, f: u32, a: u32, r: u32| IncrementalDiffStats {
        base_files: b,
        overlay_entries: o,
        files_changed: f,
        lines_added: a,
        lines_removed: r,
    };
    assert_eq!(
        dirs,
        vec![
            (".".to_string(), stats(1, 0, 1, 1, 1)),
            ("docs".to_string(), stats(0, 2, 1, 3, 0)),
            ("src".to_string(), stats(2, 2, 1, 7, 0)),
            ("src/deep".to_string(), stats(1, 0, 0, 0, 0)),
        ]
    );
}

#[test]
fn no_files_no_directories() {
    assert!(aggregate_overlay_stats_by_dir(&base_table([]), &overlay_table([])).is_empty());
}

#[test]
fn directories_sum_up_to_the_whole() {
    let base = base_table([
        ("a.rs".into(), fstats(10, 2)),
        ("src/b.rs".into(), fstats(5, 1)),
        ("src/deep/c.rs".into(), fstats(1, 0)),
    ]);
    let overlay = overlay_table([
        ("src/b.rs".into(), None),
        ("src/new.rs".into(), Some(of_kind(FileChangeKind::Added, 7, 0))),
        ("docs/loose.md".into(), Some(of_kind(FileChangeKind::Untracked, 3, 0))),
    ]);
    let whole = aggregate_overlay_stats(&base, &overlay);
    let dirs = aggregate_overlay_stats_by_dir(&base, &overlay);
    let sum = |pick: fn(&IncrementalDiffStats) -> u32| dirs.iter().map(|(_, stats)| pick(stats)).sum::<u32>();
    assert_eq!(sum(|stats| stats.files_changed), whole.file_mad_count);
    assert_eq!(sum(|stats| stats.lines_added), whole.lines_added);
    assert_eq!(sum(|stats| stats.lines_removed), whole.lines_removed);
}
