use vcs_status_daemon::ignore_filter::{global_gitignore_path, EventPath, ExcludesFile, IgnoreFilter, VcsKind};
use vcs_status_daemon::table::FileTable;
use vcs_status_daemon::watch::{dirs_to_watch, watch_event, EventKind, WatchEvent, WatchedDir};

const ROOT: &str = "/repo";

fn events(paths: &[&str]) -> Vec<EventPath> {
    paths.iter().map(|p| EventPath { path: p.to_string(), is_dir: false }).collect()
}

fn present(paths: &[&str]) -> FileTable<bool> {
    let mut table = FileTable::new();
    for path in paths {
        table.insert(path.to_string(), true);
    }
    table
}

fn contents(list: &[(&str, &str)]) -> FileTable<String> {
    let mut table = FileTable::new();
    for (path, text) in list {
        table.insert(path.to_string(), text.to_string());
    }
    table
}

fn filter_with(kind: VcsKind, gitignore: &str) -> IgnoreFilter {
    let mut filter = IgnoreFilter::new(ROOT, kind, true, false, None);
    filter.rebuild(&contents(&[("/repo/.gitignore", gitignore)]));
    filter
}

fn through(filter: &IgnoreFilter, paths: &[&str]) -> (bool, Vec<String>) {
    let verdict = filter.process_event("/repo/.jj", Some("/repo/.git"), &events(paths));
    (verdict.all_ignored, verdict.changed_paths)
}

#[test]
fn ignored_paths_are_held_back() {
    let filter = filter_with(VcsKind::Jj, "*.log\ntarget/\n");
    assert_eq!(through(&filter, &["/repo/x.log", "/repo/target/a/b.o"]), (true, vec![]));
    assert_eq!(
        through(&filter, &["/repo/x.log", "/repo/src/a.rs"]),
        (false, vec!["/repo/src/a.rs".to_string()])
    );
    assert_eq!(through(&filter, &["/repo/.jj/x", "/repo/.git/HEAD"]), (false, vec![]));
    assert_eq!(through(&filter, &[]), (false, vec![]));
    assert_eq!(through(&filter, &["/repo/.jj/x", "/repo/y.log"]), (true, vec![]));
}

#[test]
fn directory_rules_need_a_directory() {
    let filter = filter_with(VcsKind::Git, "build/\n");
    let dir = vec![EventPath { path: "/repo/build".into(), is_dir: true }];
    assert!(filter.process_event("/repo/.git", None, &dir).all_ignored);
    assert_eq!(through(&filter, &["/repo/build"]).1.len(), 1);
}

#[test]
fn without_rules_everything_passes() {
    let filter = IgnoreFilter::new(ROOT, VcsKind::Git, false, false, None);
    assert_eq!(through(&filter, &["/elsewhere/a"]), (false, vec!["/elsewhere/a".to_string()]));
}

#[test]
fn later_lines_and_deeper_files_win() {
    let mut filter = IgnoreFilter::new(ROOT, VcsKind::Jj, true, true, Some("/home/me/ignore".into()));
    let found = filter.discover_ignore_files(
        &events(&["/repo/a/b/c.txt"]),
        "/repo/.jj",
        None,
        &present(&["/repo/a/b/.gitignore", "/repo/a/.gitignore"]),
    );
    assert!(found);
    assert_eq!(
        filter.load_order(),
        vec![
            "/home/me/ignore",
            "/repo/.gitignore",
            "/repo/.jjignore",
            "/repo/a/.gitignore",
            "/repo/a/b/.gitignore",
        ]
    );
    filter.rebuild(&contents(&[
        ("/home/me/ignore", "*.tmp\n"),
        ("/repo/.gitignore", "\u{feff}*.txt\r\n# comment\n"),
        ("/repo/a/b/.gitignore", "!keep.txt\n"),
    ]));
    assert!(through(&filter, &["/repo/x.txt"]).0);
    assert!(through(&filter, &["/repo/x.tmp"]).0);
    assert!(!through(&filter, &["/repo/a/b/keep.txt"]).0);
}

#[test]
fn directories_are_looked_at_once() {
    let mut filter = IgnoreFilter::new(ROOT, VcsKind::Jj, false, false, None);
    let paths = events(&["/repo/a/b/c.txt", "/repo/.jj/op", "/elsewhere/x"]);
    let mut wanted = filter.files_to_look_for(&paths, "/repo/.jj", None);
    wanted.sort();
    assert_eq!(
        wanted,
        vec!["/repo/a/.gitignore", "/repo/a/.jjignore", "/repo/a/b/.gitignore", "/repo/a/b/.jjignore"]
    );
    assert!(!filter.discover_ignore_files(&paths, "/repo/.jj", None, &present(&[])));
    assert!(filter.files_to_look_for(&paths, "/repo/.jj", None).is_empty());
    let again = filter.discover_ignore_files(&paths, "/repo/.jj", None, &present(&["/repo/a/.gitignore"]));
    assert!(!again, "a directory that was looked at is not looked at again");
}

#[test]
fn git_repos_have_no_jjignore() {
    let filter = IgnoreFilter::new(ROOT, VcsKind::Git, false, true, None);
    assert!(filter.load_order().is_empty());
    assert!(!filter.is_ignore_filename("/repo/.jjignore"));
    assert!(filter.is_ignore_filename("/repo/a/.gitignore"));
    assert!(!filter.is_ignore_filename("/"));
    let wanted = filter.files_to_look_for(&events(&["/repo/a/x"]), "/repo/.git", None);
    assert_eq!(wanted, vec!["/repo/a/.gitignore"]);
}

#[test]
fn ignore_files_come_and_go() {
    let mut filter = IgnoreFilter::new(ROOT, VcsKind::Jj, false, false, None);
    let event = events(&["/repo/.gitignore"]);
    assert!(filter.discover_ignore_files(&event, "/repo/.jj", None, &present(&["/repo/.gitignore"])));
    assert_eq!(filter.load_order(), vec!["/repo/.gitignore"]);
    filter.rebuild(&contents(&[("/repo/.gitignore", "*.log\n")]));
    assert!(through(&filter, &["/repo/x.log"]).0);
    assert!(filter.discover_ignore_files(&event, "/repo/.jj", None, &present(&["/repo/.gitignore"])));
    assert_eq!(filter.load_order().len(), 1);
    assert!(filter.discover_ignore_files(&event, "/repo/.jj", None, &present(&[])));
    assert!(filter.load_order().is_empty());
    filter.rebuild(&contents(&[]));
    assert!(!through(&filter, &["/repo/x.log"]).0);
    assert!(!filter.discover_ignore_files(&event, "/repo/.jj", None, &present(&[])));
}

const MODIFY: EventKind = EventKind { is_modify: true, is_create: false, is_remove: false };

#[test]
fn what_becomes_of_events() {
    let filter = filter_with(VcsKind::Jj, "*.log\n");
    let other = EventKind { is_modify: false, is_create: false, is_remove: false };
    assert!(matches!(
        watch_event(other, &filter, "/repo/.jj", &events(&["/repo/a"])),
        WatchEvent::Skipped
    ));
    assert!(matches!(
        watch_event(MODIFY, &filter, "/repo/.jj", &events(&["/repo/a.log", "/repo/.jj/x"])),
        WatchEvent::Ignored
    ));
    match watch_event(MODIFY, &filter, "/repo/.jj", &events(&["/repo/a.log", "/repo/b"])) {
        WatchEvent::Change { working_copy_changed, changed_paths } => {
            assert!(working_copy_changed);
            assert_eq!(changed_paths, vec!["/repo/b"]);
        }
        _ => panic!("expected a change"),
    }
    match watch_event(MODIFY, &filter, "/repo/.jj", &events(&["/repo/.jj/repo/op_heads/heads/x"])) {
        WatchEvent::Change { working_copy_changed, changed_paths } => {
            assert!(!working_copy_changed);
            assert!(changed_paths.is_empty());
        }
        _ => panic!("expected a change"),
    }
}

#[test]
fn watched_directories() {
    assert_eq!(dirs_to_watch(VcsKind::Jj, true, true, true), vec![WatchedDir::OpHeads]);
    assert!(dirs_to_watch(VcsKind::Jj, false, true, true).is_empty());
    assert_eq!(
        dirs_to_watch(VcsKind::Git, true, true, true),
        vec![WatchedDir::GitDir, WatchedDir::GitRefs]
    );
    assert_eq!(dirs_to_watch(VcsKind::Git, false, true, false), vec![WatchedDir::GitDir]);
    assert!(dirs_to_watch(VcsKind::Git, true, false, true).is_empty());
}

#[test]
fn global_ignore_file() {
    let at = |answer: ExcludesFile, home: Option<&str>| global_gitignore_path(&answer, home);
    assert_eq!(at(ExcludesFile::NoGit, Some("/home/me")), None);
    assert_eq!(at(ExcludesFile::Unset, Some("/home/me")).as_deref(), Some("/home/me/.config/git/ignore"));
    assert_eq!(at(ExcludesFile::Unset, None), None);
    assert_eq!(
        at(ExcludesFile::Named("~/ignore\n".into()), Some("/home/me")).as_deref(),
        Some("/home/me/ignore")
    );
    assert_eq!(at(ExcludesFile::Named("~/ignore\n".into()), None).as_deref(), Some("~/ignore"));
    assert_eq!(at(ExcludesFile::Named("/etc/ignore\n".into()), None).as_deref(), Some("/etc/ignore"));
    assert_eq!(
        at(ExcludesFile::Named("\n".into()), Some("/home/me")).as_deref(),
        Some("/home/me/.config/git/ignore")
    );
}

/// A working copy whose changes go through the filter as the watcher lets them.
struct Watched {
    files: Vec<(String, String)>,
    filter: IgnoreFilter,
}

impl Watched {
    fn new() -> Watched {
        Watched { files: vec![], filter: IgnoreFilter::new(ROOT, VcsKind::Jj, false, false, None) }
    }

    fn write(&mut self, path: &str, content: &str) -> WatchEvent {
        let at = format!("{ROOT}/{path}");
        self.files.retain(|(name, _)| *name != at);
        self.files.push((at.clone(), content.to_string()));
        self.event(&at)
    }

    fn event(&mut self, path: &str) -> WatchEvent {
        let paths = events(&[path]);
        let wanted = self.filter.files_to_look_for(&paths, "/repo/.jj", None);
        let there: Vec<&str> =
            self.files.iter().map(|(name, _)| name.as_str()).filter(|name| wanted.iter().any(|w| w == name)).collect();
        if self.filter.discover_ignore_files(&paths, "/repo/.jj", None, &present(&there)) {
            let loaded = self.filter.load_order();
            let list: Vec<(&str, &str)> = self
                .files
                .iter()
                .filter(|(name, _)| loaded.contains(name))
                .map(|(name, text)| (name.as_str(), text.as_str()))
                .collect();
            self.filter.rebuild(&contents(&list));
        }
        watch_event(MODIFY, &self.filter, "/repo/.jj", &paths)
    }
}

fn is_change(event: WatchEvent) -> bool {
    matches!(event, WatchEvent::Change { working_copy_changed: true, .. })
}

#[test]
fn test_watcher_detects_jj_op() {
    let mut repo = Watched::new();
    assert!(matches!(
        repo.event("/repo/.jj/repo/op_heads/heads/x"),
        WatchEvent::Change { working_copy_changed: false, .. }
    ));
}

#[test]
fn test_watcher_detects_file_change() {
    assert!(is_change(Watched::new().write("hello.txt", "hello")));
}

#[test]
fn test_watcher_ignores_gitignored_files() {
    let mut repo = Watched::new();
    assert!(is_change(repo.write(".gitignore", "build/\n")));
    assert!(!is_change(repo.write("build/output.o", "binary")));
}

#[test]
fn test_watcher_passes_tracked_files_with_ignore_active() {
    let mut repo = Watched::new();
    repo.write(".gitignore", "build/\n");
    assert!(!is_change(repo.write("build/output.o", "binary")));
    assert!(is_change(repo.write("src.txt", "code")));
}

#[test]
fn test_watcher_discovers_nested_gitignore() {
    let mut repo = Watched::new();
    repo.files.push(("/repo/sub/.gitignore".to_string(), "*.log\n".to_string()));
    assert!(!is_change(repo.write("sub/debug.log", "log data")));
    assert!(is_change(repo.write("sub/code.rs", "fn main() {}")));
}

#[test]
fn test_watcher_lazy_discovers_new_gitignore() {
    let mut repo = Watched::new();
    assert!(is_change(repo.write("sub/.gitignore", "*.o\n")));
    assert!(!is_change(repo.write("sub/output.o", "binary")));
}

#[test]
fn test_nested_gitignore_no_sibling_effect() {
    let mut repo = Watched::new();
    repo.files.push(("/repo/sub_a/.gitignore".to_string(), "*.tmp\n".to_string()));
    assert!(
        is_change(repo.write("sub_b/file.tmp", "temp data")),
        "sub_a/.gitignore should not affect files in sub_b/"
    );
}

#[test]
fn loaded_nested_rules_leave_siblings_alone() {
    let mut repo = Watched::new();
    repo.write("sub_a/.gitignore", "*.tmp\n/only.txt\n");
    assert!(is_change(repo.write("sub_b/file.tmp", "temp data")));
    assert!(is_change(repo.write("file.tmp", "temp data")));
    assert!(is_change(repo.write("only.txt", "text")));
    assert!(!is_change(repo.write("sub_a/file.tmp", "temp data")));
    assert!(!is_change(repo.write("sub_a/deep/file.tmp", "temp data")));
    assert!(!is_change(repo.write("sub_a/only.txt", "text")));
}

#[test]
fn deeper_rules_override_shallower_ones() {
    let mut repo = Watched::new();
    repo.write(".gitignore", "*.log\n");
    repo.write("keep/.gitignore", "!*.log\n");
    assert!(!is_change(repo.write("x.log", "")));
    assert!(!is_change(repo.write("other/x.log", "")));
    assert!(is_change(repo.write("keep/x.log", "")));
}

#[test]
fn global_rules_hold_everywhere() {
    let mut filter = IgnoreFilter::new(ROOT, VcsKind::Git, false, false, Some("/repo/.config/git/ignore".into()));
    filter.rebuild(&contents(&[("/repo/.config/git/ignore", "*.tmp\n")]));
    assert!(through(&filter, &["/repo/a/x.tmp"]).0);
}
