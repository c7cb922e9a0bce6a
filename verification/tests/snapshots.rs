use vcs_status_daemon::conflicts::{
    marker_len, ConflictMarkerStyle, FileMergeHunkLevel, MergeOptions, SameChange, TreeTerm,
};
use vcs_status_daemon::facts::{DiskFacts, PathFacts, TreeFacts, TreeLookup};
use vcs_status_daemon::simplify::simplified_mapping_by;
use vcs_status_daemon::stats::FileChangeKind;
use vcs_status_daemon::wc::{
    diff_single_file, diff_wc_values, materialized_bytes, normalize_conflict_sides, raw_wc_value, reassemble,
    synthetic_wc_value, wc_value_text, MaterializedValue, WcEntry, WcValue,
};

const OPTIONS: MergeOptions =
    MergeOptions { hunk_level: FileMergeHunkLevel::Line, same_change: SameChange::Accept };

fn terms(list: &[&str]) -> Vec<Vec<u8>> {
    list.iter().map(|t| t.as_bytes().to_vec()).collect()
}

fn file(id: u8) -> Option<TreeTerm> {
    Some(TreeTerm::File { id: vec![id], executable: false, copy_id: vec![] })
}

fn resolved(content: &str, executable: bool) -> WcEntry {
    WcEntry::derived(WcValue::Resolved { content: content.as_bytes().to_vec(), executable })
}

fn conflict() -> WcEntry {
    WcEntry {
        raw: Some(vec![file(1), file(2), file(3)]),
        value: WcValue::Conflict(terms(&["side a\n", "base\n", "side b\n"])),
    }
}

#[test]
fn equal_terms_cancel() {
    assert!(matches!(
        normalize_conflict_sides(&terms(&["a", "b", "b"]), true),
        WcValue::Resolved { content, executable: true } if content == b"a"
    ));
    assert!(matches!(
        normalize_conflict_sides(&terms(&["a", "a", "b"]), false),
        WcValue::Resolved { content, executable: false } if content == b"b"
    ));
    assert!(matches!(
        normalize_conflict_sides(&terms(&["a", "b", "c"]), false),
        WcValue::Conflict(sides) if sides == terms(&["a", "b", "c"])
    ));
    assert!(matches!(
        normalize_conflict_sides(&terms(&["a", "b", "c", "c", "d"]), false),
        WcValue::Conflict(sides) if sides == terms(&["a", "b", "d"])
    ));
}

fn mapping(list: &[&str]) -> Vec<usize> {
    let n = list.len();
    let table: Vec<Vec<bool>> = (0..n).map(|i| (0..n).map(|j| list[i] == list[j]).collect()).collect();
    simplified_mapping_by(n, &table)
}

#[test]
fn mappings_of_simplification() {
    assert_eq!(mapping(&["a"]), vec![0]);
    assert_eq!(mapping(&["a", "b", "c"]), vec![0, 1, 2]);
    assert_eq!(mapping(&["a", "a", "b"]), vec![2]);
    assert_eq!(mapping(&["a", "b", "b"]), vec![0]);
    assert_eq!(mapping(&["a", "b", "c", "a", "d"]), vec![4, 1, 2]);
    assert_eq!(mapping(&["a", "b", "b", "c", "c"]), vec![0]);
}

#[test]
fn mapping_agrees_with_the_merge_of_jj() {
    let texts = ["x", "y", "z"];
    for code in 0..243usize {
        let pick: Vec<&str> = (0..5).map(|k| texts[code / 3usize.pow(k as u32) % 3]).collect();
        let ours: Vec<&str> = mapping(&pick).into_iter().map(|i| pick[i]).collect();
        let theirs: Vec<&str> = jj_lib::merge::Merge::from_vec(pick.clone()).simplify().iter().copied().collect();
        assert_eq!(ours, theirs, "{pick:?}");
    }
}

#[test]
fn marker_lengths() {
    assert_eq!(marker_len(&terms(&["a\n", "b\n", "c\n"])), 7);
    assert!(marker_len(&terms(&["<<<<<<<<<< x\n", "b\n", "c\n"])) > 10);
}

#[test]
fn contents_of_tree_values() {
    let bytes = |value: MaterializedValue| materialized_bytes(&value, ConflictMarkerStyle::Git, OPTIONS);
    assert_eq!(bytes(MaterializedValue::Absent), None);
    assert_eq!(bytes(MaterializedValue::AccessDenied), None);
    assert_eq!(bytes(MaterializedValue::GitSubmodule), None);
    assert_eq!(bytes(MaterializedValue::Tree), None);
    assert_eq!(bytes(MaterializedValue::File { content: None, executable: false }), None);
    assert_eq!(
        bytes(MaterializedValue::File { content: Some(b"x".to_vec()), executable: true }),
        Some(b"x".to_vec())
    );
    assert_eq!(bytes(MaterializedValue::Symlink { target: "a/b".into() }), Some(b"a/b".to_vec()));
    let text = bytes(MaterializedValue::FileConflict {
        contents: terms(&["side a\n", "base\n", "side b\n"]),
        labels: vec!["left".into(), "middle".into(), "right".into()],
        resolved_exec: None,
    })
    .unwrap();
    assert_eq!(
        String::from_utf8(text).unwrap(),
        "<<<<<<< left\nside a\n||||||| middle\nbase\n=======\nside b\n>>>>>>> right\n"
    );
    let text = bytes(MaterializedValue::OtherConflict {
        terms: vec![file(0x1f), None, Some(TreeTerm::Symlink(vec![0x2e]))],
        labels: vec![],
    })
    .unwrap();
    assert_eq!(
        String::from_utf8(text).unwrap(),
        "Conflict:\n  Adding file with id 1f\n  Adding symlink with id 2e\n"
    );
}

#[test]
fn entries_of_tree_values() {
    let raw = vec![file(1)];
    let entry = raw_wc_value(&raw, &None);
    assert!(entry.raw.is_none());
    assert!(matches!(entry.value, WcValue::Absent));
    let entry = raw_wc_value(
        &raw,
        &Some(MaterializedValue::File { content: Some(b"x".to_vec()), executable: true }),
    );
    assert!(entry.raw.is_some());
    assert!(matches!(entry.value, WcValue::Resolved { executable: true, .. }));
    let entry = raw_wc_value(
        &vec![file(1), file(2), file(2)],
        &Some(MaterializedValue::FileConflict {
            contents: terms(&["a", "b", "b"]),
            labels: vec![],
            resolved_exec: Some(true),
        }),
    );
    assert!(matches!(entry.value, WcValue::Resolved { content, executable: true } if content == b"a"));
    let entry = raw_wc_value(&vec![None], &Some(MaterializedValue::Absent));
    assert!(matches!(entry.value, WcValue::Absent));
    assert!(entry.raw.is_some());
}

#[test]
fn stored_values_decide_where_both_are_stored() {
    let a = WcEntry { raw: Some(vec![file(1)]), value: WcValue::Absent };
    let b = WcEntry { raw: Some(vec![file(2)]), value: WcValue::Absent };
    let c = WcEntry::derived(WcValue::Absent);
    assert!(!a.same_value_as(&b));
    assert!(a.same_value_as(&a));
    assert!(a.same_value_as(&c));
    assert!(!c.same_value_as(&resolved("", false)));
    assert!(!resolved("x", false).same_value_as(&resolved("x", true)));
}

#[test]
fn snapshots_of_plain_files() {
    let gone = synthetic_wc_value(resolved("x", false), None, false, true, OPTIONS);
    assert!(matches!(gone.value, WcValue::Absent));
    let edited = synthetic_wc_value(resolved("x", false), Some(b"y"), true, false, OPTIONS);
    assert!(matches!(edited.value, WcValue::Resolved { content, executable: true } if content == b"y"));
    let untracked = WcEntry { raw: Some(vec![None]), value: WcValue::Absent };
    let seen = synthetic_wc_value(untracked, Some(b"y"), false, true, OPTIONS);
    assert!(matches!(seen.value, WcValue::Resolved { .. }));
    let untracked = WcEntry { raw: Some(vec![None]), value: WcValue::Absent };
    let ignored = synthetic_wc_value(untracked, Some(b"y"), false, false, OPTIONS);
    assert!(matches!(ignored.value, WcValue::Absent));
    assert!(ignored.raw.is_some());
}

#[test]
fn snapshots_of_conflicts() {
    for style in [
        ConflictMarkerStyle::Diff,
        ConflictMarkerStyle::DiffExperimental,
        ConflictMarkerStyle::Snapshot,
        ConflictMarkerStyle::Git,
    ] {
        let text = wc_value_text(&conflict().value, style, OPTIONS).unwrap();
        let kept = synthetic_wc_value(conflict(), Some(&text), false, true, OPTIONS);
        assert!(kept.raw.is_some(), "{style:?}: untouched markers keep the stored value");
        let flipped = synthetic_wc_value(conflict(), Some(&text), true, true, OPTIONS);
        assert!(flipped.same_value_as(&conflict()), "{style:?}: an exec flip is invisible");
        let edited = String::from_utf8(text).unwrap().replace("side b", "side c");
        let new = synthetic_wc_value(conflict(), Some(edited.as_bytes()), false, true, OPTIONS);
        assert!(new.raw.is_none());
        assert!(
            matches!(&new.value, WcValue::Conflict(sides) if *sides == terms(&["side a\n", "base\n", "side c\n"])),
            "{style:?}"
        );
    }
    let done = synthetic_wc_value(conflict(), Some(b"resolved\n"), true, true, OPTIONS);
    assert!(matches!(done.value, WcValue::Resolved { content, executable: true } if content == b"resolved\n"));
}

#[test]
fn a_conflict_edited_to_equal_sides_resolves() {
    let text = "<<<<<<< a\nbase\n||||||| b\nbase\n=======\nside b\n>>>>>>> c\n";
    let new = synthetic_wc_value(conflict(), Some(text.as_bytes()), true, true, OPTIONS);
    assert!(matches!(new.value, WcValue::Resolved { content, executable: true } if content == b"side b\n"));
}

#[test]
fn a_conflict_that_merges_cleanly_is_kept_when_written_merged() {
    let entry = || WcEntry {
        raw: Some(vec![file(1), file(2), file(3)]),
        value: WcValue::Conflict(terms(&["A\nb\nc\nd\ne\n", "a\nb\nc\nd\ne\n", "a\nb\nc\nd\nE\n"])),
    };
    let kept = synthetic_wc_value(entry(), Some(b"A\nb\nc\nd\nE\n"), false, true, OPTIONS);
    assert!(kept.raw.is_some());
    let other = synthetic_wc_value(entry(), Some(b"A\n"), false, true, OPTIONS);
    assert!(matches!(other.value, WcValue::Resolved { .. }));
}

#[test]
fn diffs_of_values() {
    let diff = |a: &WcEntry, b: &WcEntry| diff_wc_values(a, b, ConflictMarkerStyle::Diff, OPTIONS);
    assert!(diff(&resolved("x\n", false), &resolved("x\n", false)).is_none());
    let flip = diff(&resolved("x\n", false), &resolved("x\n", true)).unwrap();
    assert_eq!(flip.kind, FileChangeKind::Modified);
    assert_eq!((flip.lines_added, flip.lines_removed), (0, 0));
    let added = diff(&WcEntry::derived(WcValue::Absent), &resolved("x\ny\n", false)).unwrap();
    assert_eq!((added.kind, added.lines_added), (FileChangeKind::Added, 2));
    let reshaped = WcEntry { raw: Some(vec![file(9), file(8), file(7)]), value: conflict().value };
    let blank = diff(&conflict(), &reshaped).unwrap();
    assert_eq!((blank.kind, blank.lines_added, blank.lines_removed), (FileChangeKind::Modified, 0, 0));
}

#[test]
fn disk_against_the_parent() {
    let parent = Some(MaterializedValue::File { content: Some(b"a\nb\n".to_vec()), executable: false });
    let style = ConflictMarkerStyle::Snapshot;
    assert!(diff_single_file(&parent, Some(b"a\nb\n"), style, OPTIONS).is_none());
    let deleted = diff_single_file(&parent, None, style, OPTIONS).unwrap();
    assert_eq!((deleted.kind, deleted.lines_removed), (FileChangeKind::Deleted, 2));
    assert!(diff_single_file(&None, Some(b"x"), style, OPTIONS).is_none());
    let added = diff_single_file(&Some(MaterializedValue::Absent), Some(b"x"), style, OPTIONS).unwrap();
    assert_eq!(added.kind, FileChangeKind::Added);
}

#[test]
fn labels_never_count_as_changed_lines() {
    let parent = Some(MaterializedValue::FileConflict {
        contents: terms(&["side a\n", "base\n", "side b\n"]),
        labels: vec!["one".into(), "two".into(), "three".into()],
        resolved_exec: None,
    });
    let style = ConflictMarkerStyle::Git;
    let disk = "<<<<<<< x\nside a\n||||||| y\nbase\n=======\nside b\n>>>>>>> z\n";
    assert!(diff_single_file(&parent, Some(disk.as_bytes()), style, OPTIONS).is_none());
    let edited = disk.replace("side b", "side c");
    let stats = diff_single_file(&parent, Some(edited.as_bytes()), style, OPTIONS).unwrap();
    assert_eq!((stats.lines_added, stats.lines_removed), (1, 1));
    let resolved = diff_single_file(&parent, Some(b"side a\n"), style, OPTIONS).unwrap();
    assert_eq!(resolved.lines_removed, 6);
    assert_eq!(resolved.kind, FileChangeKind::Modified);
}

#[test]
fn sides_are_put_together() {
    let hunks = vec![terms(&["x\n"]), terms(&["a\n", "b\n", "c\n"]), terms(&["y\n"])];
    assert_eq!(reassemble(&hunks, 3), terms(&["x\na\ny\n", "x\nb\ny\n", "x\nc\ny\n"]));
}

#[test]
fn paths_that_name_no_file_are_told_apart() {
    let nothing = || TreeLookup { raw: Some(vec![None]), value: Some(MaterializedValue::Absent) };
    let valid = |path: &str| {
        let on_disk = DiskFacts { disk: None, executable: false, exists: false, not_ignored: true };
        let in_trees = TreeFacts { parent: nothing(), parent_labeled: None, commit: nothing(), parents: vec![] };
        let facts = PathFacts::new(path, on_disk, in_trees);
        assert!(facts.not_ignored && !facts.exists && facts.disk.is_none());
        facts.valid
    };
    for path in ["a.txt", "dir/a.txt", "dir//a.txt", "."] {
        assert!(valid(path), "{path}");
    }
    for path in ["/a.txt", "../a.txt", "dir/../a.txt", "./a.txt"] {
        assert!(!valid(path), "{path}");
    }
}
