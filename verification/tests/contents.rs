use vcs_status_daemon::linediff::changed_lines;
use vcs_status_daemon::similarity::{content_similarity, FULL_SIMILARITY, RENAME_SIMILARITY};
use vcs_status_daemon::stats::{diff_stats_for_contents, FileChangeKind};
use vcs_status_daemon::text::{content_fingerprint, count_lines, is_binary};

#[test]
fn binary_content_has_a_null_byte_near_its_start() {
    assert!(!is_binary(b""));
    assert!(!is_binary(b"text\n"));
    assert!(is_binary(b"a\0b"));
    let mut late = vec![b'x'; 8192];
    late.push(0);
    assert!(!is_binary(&late));
    late[8191] = 0;
    assert!(is_binary(&late));
}

#[test]
fn lines_are_counted_with_a_trailing_fragment() {
    assert_eq!(count_lines(b""), 0);
    assert_eq!(count_lines(b"\n"), 1);
    assert_eq!(count_lines(b"a"), 1);
    assert_eq!(count_lines(b"a\nb"), 2);
    assert_eq!(count_lines(b"a\nb\n"), 2);
    assert_eq!(count_lines(b"\n\n\n"), 3);
}

#[test]
fn fingerprint_is_fnv1a() {
    assert_eq!(content_fingerprint(b""), None);
    assert_eq!(content_fingerprint(b"a"), Some(0xaf63dc4c8601ec8c));
    assert_eq!(content_fingerprint(b"foobar"), Some(0x85944171f73967e8));
}

#[test]
fn added_and_deleted_files() {
    assert!(diff_stats_for_contents(None, None).is_none());
    let added = diff_stats_for_contents(None, Some(b"a\nb\n")).unwrap();
    assert_eq!(added.kind, FileChangeKind::Added);
    assert_eq!((added.lines_added, added.lines_removed), (2, 0));
    assert_eq!(added.content_hash, content_fingerprint(b"a\nb\n"));
    let deleted = diff_stats_for_contents(Some(b"a"), None).unwrap();
    assert_eq!(deleted.kind, FileChangeKind::Deleted);
    assert_eq!((deleted.lines_added, deleted.lines_removed), (0, 1));
    assert_eq!(deleted.content_hash, content_fingerprint(b"a"));
    let empty = diff_stats_for_contents(None, Some(b"")).unwrap();
    assert_eq!(empty.kind, FileChangeKind::Added);
    assert_eq!((empty.lines_added, empty.content_hash), (0, None));
}

#[test]
fn modified_files() {
    assert!(diff_stats_for_contents(Some(b"same\n"), Some(b"same\n")).is_none());
    let stats = diff_stats_for_contents(Some(b"a\nb\nc\n"), Some(b"a\nX\nY\nc\n")).unwrap();
    assert_eq!(stats.kind, FileChangeKind::Modified);
    assert_eq!((stats.lines_added, stats.lines_removed), (2, 1));
    assert_eq!((stats.content_hash, stats.renamed_from), (None, None));
    let tail = diff_stats_for_contents(Some(b"a\nb\n"), Some(b"a\nb")).unwrap();
    assert_eq!((tail.lines_added, tail.lines_removed), (1, 1));
    let filled = diff_stats_for_contents(Some(b""), Some(b"x\ny\n")).unwrap();
    assert_eq!((filled.lines_added, filled.lines_removed), (2, 0));
}

#[test]
fn binary_files_count_without_lines() {
    let added = diff_stats_for_contents(None, Some(b"\0\n\n")).unwrap();
    assert_eq!((added.lines_added, added.kind), (0, FileChangeKind::Added));
    let modified = diff_stats_for_contents(Some(b"a\n"), Some(b"\0\n")).unwrap();
    assert_eq!((modified.lines_added, modified.lines_removed), (0, 0));
    assert_eq!(modified.kind, FileChangeKind::Modified);
}

#[test]
fn line_counts_are_in_balance() {
    let texts: [&[u8]; 6] = [b"", b"a\n", b"a\nb\nc\n", b"c\nb\na", b"a\na\na\n", b"x\ny\nz\n\n"];
    for before in texts {
        for after in texts {
            if let Some(stats) = diff_stats_for_contents(Some(before), Some(after)) {
                assert_eq!(
                    count_lines(before) + stats.lines_added,
                    count_lines(after) + stats.lines_removed,
                    "{before:?} {after:?}"
                );
                assert!(stats.lines_removed <= count_lines(before));
                assert!(stats.lines_added <= count_lines(after));
            }
        }
    }
}

#[test]
fn only_differing_hunks_count() {
    let hunks = vec![
        (false, b"a\nb\n".to_vec(), b"a\nb\n".to_vec()),
        (true, b"c\n".to_vec(), b"".to_vec()),
        (false, b"d\n".to_vec(), b"d\n".to_vec()),
        (true, b"".to_vec(), b"e\nf".to_vec()),
    ];
    assert_eq!(changed_lines(&hunks), (1, 2));
}

fn lines(from: usize, to: usize) -> Vec<u8> {
    (from..to).map(|i| format!("line number {i}\n")).collect::<String>().into_bytes()
}

#[test]
fn similarity_of_special_contents() {
    assert_eq!(content_similarity(b"", b"a"), 0);
    assert_eq!(content_similarity(b"a", b""), 0);
    assert_eq!(content_similarity(b"same", b"same"), FULL_SIMILARITY);
    assert_eq!(content_similarity(b"\0same", b"\0same"), FULL_SIMILARITY);
    assert_eq!(content_similarity(b"\0a", b"\0b"), 0);
    assert_eq!(content_similarity(b"a\n", b"b\n"), 0);
}

#[test]
fn half_is_enough_for_a_rename() {
    assert_eq!(content_similarity(b"a\nb\n", b"a\nc\n"), RENAME_SIMILARITY);
    assert!(content_similarity(b"a\nb\nc\n", b"a\nx\ny\n") < RENAME_SIMILARITY);
    assert_eq!(content_similarity(b"a\nb\n", b"a\nb\nc\nd\n"), RENAME_SIMILARITY);
}

#[test]
fn similarity_is_the_single_precision_ratio() {
    for kept in 1..40usize {
        for larger in kept..80usize {
            let before = lines(0, kept);
            let after = lines(0, larger);
            let retained = before.len();
            let expected = retained as f32 / after.len() as f32;
            let score = content_similarity(&before, &after);
            if expected >= 0.25 {
                assert_eq!(score as f64 / 33_554_432.0, expected as f64, "{kept} {larger}");
            }
            assert_eq!(score >= RENAME_SIMILARITY, expected >= 0.5, "{kept} {larger}");
        }
    }
}
