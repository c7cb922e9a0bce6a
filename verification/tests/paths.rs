use vcs_status_daemon::paths::{
    abs_to_repo_relative, batch_paths, join, normalize, path_names, starts_with, strip_prefix, ChangedPath,
};

fn some(s: &str) -> Option<String> {
    Some(s.to_string())
}

#[test]
fn test_abs_to_repo_relative_basic() {
    assert_eq!(
        abs_to_repo_relative("/home/user/repo", "/home/user/repo/src/main.rs", &vec![]),
        Some("src/main.rs".to_string())
    );
}

#[test]
fn test_abs_to_repo_relative_root_file() {
    assert_eq!(abs_to_repo_relative("/repo", "/repo/file.txt", &vec![]), Some("file.txt".to_string()));
}

#[test]
fn test_abs_to_repo_relative_outside() {
    assert_eq!(abs_to_repo_relative("/home/user/repo", "/home/other/file.txt", &vec![]), None);
}

#[test]
fn test_abs_to_repo_relative_deleted_nested_dir() {
    let dir = tempfile::TempDir::new().unwrap();
    let canonical_root = dir.path().canonicalize().unwrap();
    let abs = dir.path().join("gone/sub/f.txt");
    let resolved: Vec<Option<String>> = abs
        .ancestors()
        .map(|p| p.canonicalize().ok().map(|c| c.to_str().unwrap().to_string()))
        .collect();
    assert_eq!(
        abs_to_repo_relative(canonical_root.to_str().unwrap(), abs.to_str().unwrap(), &resolved).as_deref(),
        Some("gone/sub/f.txt")
    );
}

#[test]
fn real_path_of_the_nearest_ancestor() {
    let resolved = vec![None, None, some("/private/var/repo"), some("/private/var")];
    assert_eq!(
        abs_to_repo_relative("/private/var/repo", "/var/repo/gone/f.txt", &resolved),
        some("gone/f.txt")
    );
    let itself = vec![some("/private/var/repo/x/y")];
    assert_eq!(abs_to_repo_relative("/private/var/repo", "/link", &itself), some("x/y"));
    let elsewhere = vec![some("/elsewhere/y")];
    assert_eq!(abs_to_repo_relative("/private/var/repo", "/link", &elsewhere), None);
    let below_root = vec![None, some("/")];
    assert_eq!(abs_to_repo_relative("/gone", "/x/gone", &vec![None, None, some("/")]), None);
    assert_eq!(abs_to_repo_relative("/x", "/gone", &below_root), None);
}

#[test]
fn backslashes_become_slashes() {
    assert_eq!(abs_to_repo_relative("/repo", "/repo/a\\b.txt", &vec![]), some("a/b.txt"));
}

#[test]
fn prefixes_go_by_components() {
    assert_eq!(strip_prefix("/a/bc", "/a/b"), None);
    assert_eq!(strip_prefix("/a//b/./c/", "/a"), some("b/./c"));
    assert_eq!(strip_prefix("/a/b", "/a/b/"), some(""));
    assert_eq!(strip_prefix("a/b", "/a"), None);
    assert_eq!(strip_prefix("./a", "a"), None);
    assert_eq!(strip_prefix("/a/b/", ""), some("/a/b"));
    assert!(starts_with("/repo/.jj/repo/op_heads", "/repo/.jj"));
    assert!(!starts_with("/repo/.jjx", "/repo/.jj"));
}

#[test]
fn prefixes_agree_with_the_standard_library() {
    let paths = ["/a/b/c", "/a//b", "a/b", "./a/b", "/", "", "/a/./b/", "a/../b", "/a/b/..", "."];
    for p in paths {
        for b in paths {
            let expected = std::path::Path::new(p)
                .strip_prefix(b)
                .ok()
                .map(|r| r.to_str().unwrap().to_string());
            assert_eq!(strip_prefix(p, b), expected, "{p:?} minus {b:?}");
        }
    }
}

#[test]
fn joining_and_normalizing() {
    assert_eq!(join("/a", "b"), "/a/b");
    assert_eq!(join("/a/", "b"), "/a/b");
    assert_eq!(join("/a", "/b"), "/b");
    assert_eq!(join("", "b"), "b");
    assert_eq!(normalize("/a//b/./c/"), "/a/b/c");
    assert_eq!(normalize("a/b"), "a/b");
    assert_eq!(normalize("/"), "/");
    assert_eq!(path_names("/a/./b"), vec!["a".to_string(), "b".to_string()]);
}

#[test]
fn joined_paths_come_apart_again() {
    for rel in ["a", "a/b.txt", "dir/sub/d.txt", ".gitignore"] {
        assert_eq!(strip_prefix(&join("/repo/x", rel), "/repo/x").as_deref(), Some(rel));
    }
}

#[test]
fn batch_holds_each_path_once() {
    let changed = |path: &str| ChangedPath { path: path.to_string(), resolved: vec![] };
    let batch = vec![
        changed("/repo/b"),
        changed("/repo/a"),
        changed("/elsewhere/c"),
        changed("/repo//b"),
        changed("/repo/./a/"),
        changed("/repo/dir/d"),
    ];
    assert_eq!(batch_paths("/repo", &batch), vec!["b", "a", "dir/d"]);
}
