use vcs_status_daemon::aggregate::DiffCounts;
use vcs_status_daemon::bookmarks::{Bookmark, TrackingStatus};
use vcs_status_daemon::conflicts::{ConflictMarkerStyle, FileMergeHunkLevel, MergeOptions, SameChange};
use vcs_status_daemon::git_status::{
    query_git_status, GitCommit, GitDiff, GitDiffOutcome, GitFacts, GitHead, GitState,
};
use vcs_status_daemon::repo_state::{
    compute_jj_full_status, compute_per_file_diff_stats, metadata_status, CommitMetadata, DiffEntry, JjRepoState,
    LoadedRepo,
};
use vcs_status_daemon::stats::{FileChangeKind, FileDiffStats};
use vcs_status_daemon::status::{update_base_status_metadata, RepoStatus};
use vcs_status_daemon::table::FileTable;
use vcs_status_daemon::wc::MaterializedValue;
use vcs_status_daemon::worker::{Action, Event, JjWorkerRequest, LoadedInfo, Worker};

const OPTIONS: MergeOptions =
    MergeOptions { hunk_level: FileMergeHunkLevel::Line, same_change: SameChange::Accept };

fn metadata() -> CommitMetadata {
    CommitMetadata {
        change_id: vec![0x01, 0x23, 0x45, 0x67, 0x89, 0xab],
        change_id_prefix_len: Some(2),
        commit_id: vec![0xde, 0xad, 0xbe, 0xef, 0x00],
        commit_id_prefix_len: None,
        description: "hello world\n\nbody\n".to_string(),
        conflict: false,
        visible_targets: 1,
        hidden: false,
        immutable: true,
        workspace_name: "default".to_string(),
    }
}

#[test]
fn metadata_of_a_commit() {
    let bookmark =
        Bookmark { name: "main".into(), distance: 1, display: "main+1".into(), tracking: TrackingStatus::Ahead };
    let status = metadata_status(&metadata(), vec![bookmark]);
    assert!(status.is_jj && !status.is_git);
    assert_eq!(status.change_id, "zyxwvuts");
    assert_eq!(status.change_id_prefix_len, 2);
    assert_eq!(status.commit_id, "deadbeef");
    assert_eq!(status.commit_id_prefix_len, 8);
    assert_eq!(status.description, "hello world");
    assert!(status.immutable && status.is_default_workspace);
    assert!(!status.divergent && !status.hidden && !status.conflict && !status.is_stale);
    assert_eq!(status.workspace_name, "default");
    assert_eq!(status.bookmarks[0].display, "main+1");
}

#[test]
fn metadata_of_an_odd_commit() {
    let mut odd = metadata();
    odd.visible_targets = 2;
    odd.hidden = true;
    odd.conflict = true;
    odd.description = String::new();
    odd.workspace_name = "secondary".to_string();
    odd.commit_id = vec![0x0f];
    let status = metadata_status(&odd, vec![]);
    assert!(status.divergent && status.hidden && status.conflict);
    assert!(!status.is_default_workspace);
    assert_eq!((status.commit_id.as_str(), status.commit_id_prefix_len), ("0f", 2));
    assert_eq!(status.description, "");
}

fn text(content: &str) -> Option<MaterializedValue> {
    Some(MaterializedValue::File { content: Some(content.as_bytes().to_vec()), executable: false })
}

fn entry(path: &str, copied_from: Option<&str>, before: Option<MaterializedValue>, after: Option<MaterializedValue>) -> DiffEntry {
    DiffEntry { path: path.to_string(), copied_from: copied_from.map(String::from), before, after }
}

fn per_file(entries: Vec<DiffEntry>) -> FileTable<FileDiffStats> {
    let mut table = FileTable::new();
    compute_per_file_diff_stats(&mut table, &entries, ConflictMarkerStyle::Diff, OPTIONS);
    table
}

#[test]
fn stats_of_the_files_of_a_diff() {
    let absent = || Some(MaterializedValue::Absent);
    let table = per_file(vec![
        entry("added", None, absent(), text("a\nb\n")),
        entry("deleted", None, text("x\n"), absent()),
        entry("changed", None, text("x\ny\n"), text("x\nz\n")),
        entry("mode", None, text("x\n"), text("x\n")),
        entry("moved", Some("source"), text("1\n2\n"), text("1\n2\n3\n")),
        entry("unreadable", None, None, text("a\n")),
    ]);
    let stats = |path: &str| table.get(path).map(|s| (s.kind, s.lines_added, s.lines_removed));
    assert_eq!(stats("added"), Some((FileChangeKind::Added, 2, 0)));
    assert_eq!(stats("deleted"), Some((FileChangeKind::Deleted, 0, 1)));
    assert_eq!(stats("changed"), Some((FileChangeKind::Modified, 1, 1)));
    assert_eq!(stats("mode"), Some((FileChangeKind::Modified, 0, 0)));
    assert_eq!(stats("moved"), Some((FileChangeKind::Modified, 1, 0)));
    assert_eq!(table.get("moved").unwrap().renamed_from.as_deref(), Some("source"));
    assert!(table.get("changed").unwrap().renamed_from.is_none());
}

fn loaded(parent: &[u8], commit: &[u8], op: &[u8]) -> LoadedRepo {
    LoadedRepo {
        parent_tree_ids: Some(vec![parent.to_vec()]),
        commit_tree_ids: vec![commit.to_vec()],
        copy_tree_ids: vec![parent.to_vec()],
        op_id: op.to_vec(),
        repo_root: "/repo".to_string(),
        conflicted_paths: vec![],
        deleted_paths: vec![],
        conflict_marker_style: ConflictMarkerStyle::Diff,
        merge_options: OPTIONS,
    }
}

fn one_added() -> FileTable<FileDiffStats> {
    per_file(vec![entry("dir/new.txt", None, Some(MaterializedValue::Absent), text("1\n2\n3\n"))])
}

#[test]
fn full_status_counts_the_diff() {
    let (status, state) =
        compute_jj_full_status(metadata_status(&metadata(), vec![]), loaded(b"p", b"c", b"1"), one_added());
    assert!(!status.empty);
    assert_eq!((status.file_mad_count, status.lines_added_total, status.lines_removed_total), (1, 3, 0));
    assert_eq!((status.files_added_total, status.files_modified_total, status.files_deleted_total), (1, 0, 0));
    let again = state.current_status();
    assert_eq!((again.empty, again.lines_added_total), (false, 3));
    let stats = state.overlay_stats();
    assert_eq!((stats.base_files, stats.overlay_entries, stats.files_changed), (1, 0, 1));
    let mut orphan = loaded(b"p", b"c", b"1");
    orphan.parent_tree_ids = None;
    let (status, state) = compute_jj_full_status(metadata_status(&metadata(), vec![]), orphan, one_added());
    assert!(status.empty);
    assert_eq!(state.aggregate_stats().file_mad_count, 0);
    assert_eq!(state.parent_tree_ids, vec![b"c".to_vec()]);
}

#[test]
fn metadata_is_replaced_alone() {
    let mut base = metadata_status(&metadata(), vec![]);
    base.set_counts(DiffCounts {
        file_mad_count: 2,
        lines_added: 5,
        lines_removed: 1,
        files_modified: 1,
        files_added: 1,
        files_deleted: 0,
        files_untracked: 0,
    });
    let mut fresh = metadata();
    fresh.description = "new description".into();
    update_base_status_metadata(&mut base, &metadata_status(&fresh, vec![]));
    assert_eq!(base.description, "new description");
    assert_eq!((base.file_mad_count, base.lines_added_total, base.empty), (2, 5, false));
}

fn fresh_state() -> (RepoStatus, JjRepoState) {
    compute_jj_full_status(metadata_status(&metadata(), vec![]), loaded(b"p", b"c", b"1"), one_added())
}

fn info(parent: &[u8], commit: &[u8], op: &[u8], description: &str) -> LoadedInfo {
    let mut fresh = metadata();
    fresh.description = description.to_string();
    LoadedInfo {
        parent_tree_ids: vec![parent.to_vec()],
        commit_tree_ids: vec![commit.to_vec()],
        copy_tree_ids: vec![parent.to_vec()],
        op_id: op.to_vec(),
        metadata: metadata_status(&fresh, vec![]),
    }
}

fn ready() -> Worker {
    let (worker, action) = Worker::new().on_request(JjWorkerRequest::FullRefresh { repo_path: "/repo".into() });
    assert!(matches!(action, Action::Load { retained: false }));
    let (worker, action) = worker.on_event(Event::Loaded(info(b"p", b"c", b"1", "first")));
    assert!(matches!(action, Action::ComputeFull));
    let (status, state) = fresh_state();
    let (worker, action) = worker.on_event(Event::Computed(status, state));
    assert!(matches!(action, Action::ReplyStatus(s) if s.lines_added_total == 3));
    worker
}

fn validate(worker: Worker) -> (Worker, Action) {
    worker.on_request(JjWorkerRequest::ValidateAndRefresh {
        repo_path: "/repo".into(),
        changed_paths: vec!["/repo/x".into()],
    })
}

#[test]
fn describe_keeps_the_diff() {
    let (worker, action) = validate(ready());
    assert!(matches!(action, Action::Load { retained: true }));
    let (worker, action) = worker.on_event(Event::Loaded(info(b"p", b"c", b"1", "described")));
    assert!(matches!(action, Action::Apply(paths) if paths == vec!["/repo/x"]));
    let (_, action) = worker.on_event(Event::Applied);
    assert!(
        matches!(action, Action::ReplyStatus(s) if s.description == "described" && s.lines_added_total == 3)
    );
}

#[test]
fn new_operation_with_the_same_trees_rediffs_the_overlay() {
    let mut worker = ready();
    let overlay = &mut worker.state.as_mut().unwrap().diff.overlay;
    overlay.insert("dirty.txt".to_string(), None);
    let (worker, _) = validate(worker);
    let (worker, action) = worker.on_event(Event::Loaded(info(b"p", b"c", b"2", "later")));
    assert!(matches!(action, Action::Apply(paths) if paths == vec!["/repo/dirty.txt"]));
    let (worker, action) = worker.on_event(Event::Applied);
    assert!(matches!(action, Action::Apply(paths) if paths == vec!["/repo/x"]));
    let (worker, action) = worker.on_event(Event::Applied);
    assert!(matches!(action, Action::ReplyStatus(s) if s.description == "later"));
    assert_eq!(worker.state.unwrap().op_id, b"2".to_vec());
}

#[test]
fn changed_trees_are_diffed_anew() {
    for (parent, commit) in [(b"q", b"c"), (b"p", b"d")] {
        let (worker, _) = validate(ready());
        let (worker, action) = worker.on_event(Event::Loaded(info(parent, commit, b"2", "new")));
        assert!(matches!(action, Action::ComputeFull));
        let (status, state) = fresh_state();
        let (_, action) = worker.on_event(Event::Computed(status, state));
        assert!(matches!(action, Action::Apply(paths) if paths == vec!["/repo/x"]));
    }
}

#[test]
fn retained_loader_is_dropped_after_a_failure() {
    let (worker, _) = validate(ready());
    let (worker, action) = worker.on_event(Event::LoadFailed("corrupt".into()));
    assert!(matches!(action, Action::Load { retained: false }));
    let (worker, action) = worker.on_event(Event::LoadFailed("corrupt again".into()));
    assert!(matches!(action, Action::ReplyError(message) if message == "corrupt again"));
    assert!(worker.state.is_some());
}

#[test]
fn resync_reloads_and_rediffs_what_was_dirty() {
    let mut worker = ready();
    let overlay = &mut worker.state.as_mut().unwrap().diff.overlay;
    overlay.insert("keep.txt".to_string(), None);
    overlay.insert("sub/stale.txt".to_string(), None);
    let (worker, action) = worker.on_request(JjWorkerRequest::Resync { repo_path: "/repo".into() });
    assert!(matches!(action, Action::Load { retained: false }));
    let (worker, action) = worker.on_event(Event::Loaded(info(b"p", b"c", b"1", "first")));
    assert!(matches!(action, Action::ComputeFull));
    let (status, state) = fresh_state();
    let (_, action) = worker.on_event(Event::Computed(status, state));
    assert!(matches!(action, Action::Apply(paths) if paths == vec!["/repo/keep.txt", "/repo/sub/stale.txt"]));
}

#[test]
fn update_without_a_state_is_an_error() {
    let request =
        || JjWorkerRequest::IncrementalUpdate { repo_path: "/repo".into(), changed_paths: vec!["/repo/x".into()] };
    let (_, action) = Worker::new().on_request(request());
    assert!(matches!(action, Action::ReplyError(message) if message == "no incremental state for repo"));
    let (worker, action) = ready().on_request(request());
    assert!(matches!(action, Action::Apply(_)));
    assert!(matches!(worker.on_event(Event::Applied).1, Action::ReplyStatus(_)));
}

#[test]
fn stats_of_a_worker() {
    let (_, action) = Worker::new().on_request(JjWorkerRequest::QueryOverlayStats);
    assert!(matches!(action, Action::ReplyStats(list) if list.is_empty()));
    let (worker, action) = ready().on_request(JjWorkerRequest::QueryOverlayStats);
    match action {
        Action::ReplyStats(list) => {
            assert_eq!(list.len(), 1);
            assert_eq!(list[0].0, "/repo");
            assert_eq!((list[0].1.base_files, list[0].1.lines_added), (1, 3));
        }
        _ => panic!("expected stats"),
    }
    let (worker, action) = worker.on_request(JjWorkerRequest::QueryOverlayStatsVerbose);
    match action {
        Action::ReplyVerbose(list) => {
            assert_eq!(list[0].1.len(), 1);
            assert_eq!(list[0].1[0].0, "dir");
        }
        _ => panic!("expected stats by directory"),
    }
    assert!(matches!(worker.on_request(JjWorkerRequest::Forget { repo_path: "/repo".into() }).1, Action::Stop));
}

fn git_facts() -> GitFacts {
    GitFacts {
        head: Some(GitHead {
            shorthand: Some("main".into()),
            commit: Some(GitCommit {
                short_id: Some(Some("0123456".into())),
                oid_hex: "0123456789abcdef".into(),
                summary: Some("initial".into()),
                has_tree: true,
                files_changed: Some(1),
            }),
        }),
        has_conflicts: false,
        unstaged: GitDiffOutcome::Stats(GitDiff { files_changed: 1, insertions: 2, deletions: 0 }),
        staged: GitDiffOutcome::Stats(GitDiff { files_changed: 2, insertions: 3, deletions: 1 }),
        total: GitDiffOutcome::Stats(GitDiff { files_changed: 3, insertions: 5, deletions: 1 }),
        is_worktree: false,
        dir_name: Some("my-feature".into()),
        state: GitState::Clean,
    }
}

#[test]
fn status_of_a_git_repo() {
    let status = query_git_status(git_facts()).unwrap();
    assert!(status.is_git && !status.is_jj && !status.empty && !status.rebasing && !status.conflict);
    assert_eq!((status.branch.as_str(), status.commit_id.as_str()), ("main", "0123456"));
    assert_eq!(status.description, "initial");
    assert_eq!((status.files_changed, status.lines_added, status.lines_removed), (1, 2, 0));
    assert_eq!((status.staged_files_changed, status.staged_lines_added, status.staged_lines_removed), (2, 3, 1));
    assert_eq!((status.total_files_changed, status.total_lines_added, status.total_lines_removed), (3, 5, 1));
    assert_eq!(status.workspace_name, "main");
    assert!(status.is_default_workspace);
}

#[test]
fn git_worktrees_and_rebases() {
    let mut facts = git_facts();
    facts.is_worktree = true;
    facts.state = GitState::RebaseMerge;
    facts.has_conflicts = true;
    let status = query_git_status(facts).unwrap();
    assert_eq!(status.workspace_name, "my-feature");
    assert!(!status.is_default_workspace && status.rebasing && status.conflict);
    let rebasing = |state: GitState| {
        let mut facts = git_facts();
        facts.state = state;
        query_git_status(facts).unwrap().rebasing
    };
    assert!(rebasing(GitState::Rebase) && rebasing(GitState::RebaseInteractive));
    assert!(rebasing(GitState::ApplyMailboxOrRebase));
    assert!(!rebasing(GitState::Merge) && !rebasing(GitState::Bisect));
}

#[test]
fn git_commits_without_changes_or_names() {
    let mut facts = git_facts();
    let commit = facts.head.as_mut().unwrap().commit.as_mut().unwrap();
    commit.files_changed = Some(0);
    commit.short_id = None;
    commit.summary = None;
    let status = query_git_status(facts).unwrap();
    assert!(status.empty);
    assert_eq!((status.commit_id.as_str(), status.description.as_str()), ("0123456", ""));
}

#[test]
fn git_repo_without_head() {
    let mut facts = git_facts();
    facts.head = None;
    let status = query_git_status(facts).unwrap();
    assert!(status.is_git);
    assert_eq!((status.branch.as_str(), status.files_changed), ("", 0));
}

#[test]
fn git_diff_without_numbers_is_an_error() {
    let mut facts = git_facts();
    facts.staged = GitDiffOutcome::NoStats("no stats".into());
    assert_eq!(query_git_status(facts).err().as_deref(), Some("no stats"));
    let mut facts = git_facts();
    facts.total = GitDiffOutcome::NoDiff;
    assert_eq!(query_git_status(facts).unwrap().total_files_changed, 0);
}
