//! Replays sequences of file changes and jj operations on a repo of `jj_lib`, drives the
//! worker as the daemon would, and compares its numbers with those of a diff of the
//! snapshotted trees. The working copies are kept in memory.

use futures::StreamExt as _;
use jj_lib::backend::{CommitId, CopyId, TreeValue};
use jj_lib::commit::Commit;
use jj_lib::config::{ConfigLayer, ConfigSource, StackedConfig};
use jj_lib::conflict_labels::ConflictLabels;
use jj_lib::conflicts::{
    choose_materialized_conflict_marker_len, materialize_merge_result_to_bytes, materialize_tree_value,
    update_from_content, ConflictMarkerStyle as JjStyle, ConflictMaterializeOptions, MaterializedTreeValue,
    MIN_CONFLICT_MARKER_LEN,
};
use jj_lib::copies::CopyRecords;
use jj_lib::diff::DiffHunkKind;
use jj_lib::diff_presentation::{diff_by_line, LineCompareMode};
use jj_lib::files::FileMergeHunkLevel as JjLevel;
use jj_lib::gitignore::GitIgnoreFile;
use jj_lib::matchers::{EverythingMatcher, FilesMatcher};
use jj_lib::merge::{Merge, MergedTreeValue, SameChange as JjChange};
use jj_lib::merged_tree::MergedTree;
use jj_lib::merged_tree_builder::MergedTreeBuilder;
use jj_lib::object_id::ObjectId as _;
use jj_lib::op_store::{RefTarget, RemoteRef, RemoteRefState};
use jj_lib::operation::Operation;
use jj_lib::ref_name::{RefName, RemoteName, WorkspaceName, WorkspaceNameBuf};
use jj_lib::repo::{ReadonlyRepo, Repo as _, RepoLoader};
use jj_lib::repo_path::{RepoPath, RepoPathBuf};
use jj_lib::revset::{ResolvedRevsetExpression, RevsetExpression};
use jj_lib::rewrite::{
    merge_commit_trees, move_commits, restore_tree, squash_commits, CommitWithSelection, MoveCommitsLocation,
    MoveCommitsTarget, RebaseOptions,
};
use jj_lib::settings::UserSettings;
use jj_lib::store::Store;
use jj_lib::transaction::Transaction;
use jj_lib::workspace::Workspace;
use std::collections::{BTreeMap, BTreeSet};
use std::future::Future;
use std::sync::Arc;
use vcs_status_daemon::conflicts::{
    ConflictMarkerStyle, FileMergeHunkLevel, MergeOptions, RawValue, SameChange, TreeTerm,
};
use vcs_status_daemon::facts::{DiskFacts, PathFacts, TreeFacts, TreeLookup};
use vcs_status_daemon::ignore_filter::{EventPath, IgnoreFilter, VcsKind};
use vcs_status_daemon::incremental::{apply_incremental_paths, begin_batch, Answers, Need, Progress};
use vcs_status_daemon::paths::{batch_paths, ChangedPath};
use vcs_status_daemon::replay::{
    begin_action, changed_paths, continue_action, matches_oracle, must_match_now, seeded_content, seq_len, Action,
    ActionFacts, Delivery, EventQueue, MirrorEntry, Move,
};
use vcs_status_daemon::repo_state::{
    compute_jj_full_status, compute_per_file_diff_stats, metadata_status, CommitMetadata, DiffEntry, LoadedRepo,
};
use vcs_status_daemon::status::RepoStatus;
use vcs_status_daemon::table::FileTable;
use vcs_status_daemon::wc::MaterializedValue;
use vcs_status_daemon::worker::{Action as Order, Event, JjWorkerRequest, LoadedInfo, Worker};

const ROOT: &str = "/repo";
const POOL: [&str; 6] = ["a.txt", "b.txt", "dir/c.txt", "dir/sub/d.txt", "e.rs", "x.log"];

type Disk = BTreeMap<String, (bool, Vec<u8>)>;

fn wait<T>(future: impl Future<Output = T>) -> T {
    futures::executor::block_on(future)
}

fn repo_path(path: &str) -> RepoPathBuf {
    RepoPathBuf::from_internal_string(path).unwrap()
}

fn settings(seconds: i64) -> UserSettings {
    let mut config = StackedConfig::with_defaults();
    let mut layer = ConfigLayer::empty(ConfigSource::User);
    layer.set_value("user.name", "Someone").unwrap();
    layer.set_value("user.email", "someone@example.com").unwrap();
    let time = chrono::DateTime::from_timestamp(seconds, 0).unwrap().to_rfc3339();
    layer.set_value("debug.commit-timestamp", time).unwrap();
    config.add_layer(layer);
    UserSettings::from_config(config).unwrap()
}

/// A working copy: its files, the files as of the last snapshot or checkout, the tree that
/// was recorded then, and the operation.
struct Checkout {
    name: WorkspaceNameBuf,
    disk: Disk,
    known: Disk,
    marker_lens: BTreeMap<String, usize>,
    tree: MergedTree,
    op: Operation,
}

fn wc_commit(repo: &Arc<ReadonlyRepo>, name: &WorkspaceName) -> Commit {
    let id = repo.view().get_wc_commit_id(name).expect("no working-copy commit");
    repo.store().get_commit(id).unwrap()
}

fn finish(repo: &mut Arc<ReadonlyRepo>, mut tx: Transaction, description: &str) {
    wait(tx.repo_mut().rebase_descendants()).unwrap();
    if tx.repo().has_changes() {
        *repo = with_own_time(wait(tx.commit(description)).unwrap());
    }
}

/// The repo with a time of its own for each operation, so that no commit is like an
/// earlier one.
fn with_own_time(repo: Arc<ReadonlyRepo>) -> Arc<ReadonlyRepo> {
    let id = repo.op_id().as_bytes();
    let seconds = i64::from(u32::from_be_bytes([id[0], id[1], id[2], id[3]]));
    let loader = repo.loader();
    let timed = RepoLoader::new(
        settings(seconds),
        loader.store().clone(),
        loader.op_store().clone(),
        loader.op_heads_store().clone(),
        loader.index_store().clone(),
        loader.submodule_store().clone(),
    );
    wait(timed.load_at(repo.operation())).unwrap()
}

fn is_ignored(disk: &Disk, path: &str) -> bool {
    let Some((_, content)) = disk.get(".gitignore") else {
        return false;
    };
    let rules = GitIgnoreFile::empty().chain("", std::path::Path::new(".gitignore"), content).unwrap();
    let dirs = path.char_indices().filter(|(_, c)| *c == '/').map(|(i, _)| &path[..i + 1]);
    dirs.chain([path]).any(|p| rules.matches(p))
}

fn file_value(store: &Arc<Store>, path: &RepoPath, content: &[u8], executable: bool) -> MergedTreeValue {
    let id = wait(store.write_file(path, &mut &content[..])).unwrap();
    Merge::normal(TreeValue::File { id, executable, copy_id: CopyId::placeholder() })
}

impl Checkout {
    fn is_stale(&self, repo: &Arc<ReadonlyRepo>) -> bool {
        wc_commit(repo, &self.name).tree_ids() != self.tree.tree_ids()
    }

    fn stored_value(&self, store: &Arc<Store>, path: &str, content: &[u8], executable: bool) -> MergedTreeValue {
        let at = repo_path(path);
        let current = self.tree.path_value(&at).unwrap();
        if current.is_resolved() {
            return file_value(store, &at, content, executable);
        }
        let Some(old_ids) = current.to_file_merge() else {
            return current;
        };
        let len = self.marker_lens.get(path).copied().unwrap_or(MIN_CONFLICT_MARKER_LEN);
        let new_ids = wait(update_from_content(&old_ids, store, &at, content, len)).unwrap();
        match new_ids.into_resolved() {
            Ok(id) => Merge::normal(TreeValue::File {
                id: id.unwrap(),
                executable,
                copy_id: CopyId::placeholder(),
            }),
            Err(new_ids) if new_ids != old_ids => current.with_new_file_ids(&new_ids),
            Err(_) => current,
        }
    }

    /// Records the files in the working-copy commit, unless the working copy is stale.
    fn snapshot(&mut self, repo: &mut Arc<ReadonlyRepo>) -> bool {
        if self.is_stale(repo) {
            return false;
        }
        let store = repo.store().clone();
        let paths: BTreeSet<String> = self.disk.keys().chain(self.known.keys()).cloned().collect();
        let mut changes = vec![];
        for path in paths {
            let current = self.tree.path_value(&repo_path(&path)).unwrap();
            let value = match self.disk.get(&path) {
                None => Merge::absent(),
                now if now == self.known.get(&path) && current.is_present() => continue,
                Some(_) if current.is_absent() && is_ignored(&self.disk, &path) => continue,
                Some((executable, content)) => self.stored_value(&store, &path, content, *executable),
            };
            if value != current {
                changes.push((path, value));
            }
        }
        if !changes.is_empty() {
            let mut builder = MergedTreeBuilder::new(self.tree.clone());
            for (path, value) in changes {
                builder.set_or_remove(repo_path(&path), value);
            }
            let tree = wait(builder.write_tree()).unwrap();
            let commit = wc_commit(repo, &self.name);
            if tree.tree_ids() != commit.tree_ids() {
                let mut tx = repo.start_transaction();
                let builder = tx.repo_mut().rewrite_commit(&commit).set_tree(tree.clone());
                wait(builder.write()).unwrap();
                finish(repo, tx, "snapshot working copy");
            }
            self.tree = tree;
        }
        self.known = self.disk.clone();
        self.op = repo.operation().clone();
        true
    }

    /// Writes the files of the working-copy commit.
    fn check_out(&mut self, repo: &Arc<ReadonlyRepo>, style: JjStyle) {
        let target = wc_commit(repo, &self.name).tree();
        let store = repo.store();
        let entries: Vec<_> = wait(self.tree.diff_stream(&target, &EverythingMatcher).collect());
        for entry in entries {
            let values = entry.values.unwrap();
            let path = entry.path.as_internal_file_string().to_string();
            if values.before.is_absent() && self.disk.contains_key(&path) {
                self.known.remove(&path);
                continue;
            }
            self.marker_lens.remove(&path);
            let file = match wait(materialize_tree_value(store, &entry.path, values.after, target.labels())).unwrap() {
                MaterializedTreeValue::Absent => None,
                MaterializedTreeValue::File(mut file) => {
                    Some((file.executable, wait(file.read_all(&entry.path)).unwrap()))
                }
                MaterializedTreeValue::FileConflict(file) => {
                    let len = choose_materialized_conflict_marker_len(&file.contents);
                    self.marker_lens.insert(path.clone(), len);
                    let options = ConflictMaterializeOptions {
                        marker_style: style,
                        marker_len: Some(len),
                        merge: store.merge_options().clone(),
                    };
                    let text = materialize_merge_result_to_bytes(&file.contents, &file.labels, &options);
                    Some((file.executable.unwrap_or(false), text.into()))
                }
                _ => panic!("unexpected value at {path}"),
            };
            match file {
                Some(file) => {
                    self.disk.insert(path.clone(), file.clone());
                    self.known.insert(path, file);
                }
                None => {
                    self.disk.remove(&path);
                    self.known.remove(&path);
                }
            }
        }
        self.tree = target;
        self.op = repo.operation().clone();
    }
}

/// A repo with its working copies and its remote.
struct World {
    _dir: tempfile::TempDir,
    repo: Arc<ReadonlyRepo>,
    watched: Checkout,
    second: Option<Checkout>,
    style: JjStyle,
    remote: Vec<Disk>,
    imported: Vec<CommitId>,
    last_undo: Option<(Operation, Operation)>,
}

fn empty_checkout(repo: &Arc<ReadonlyRepo>, name: &str) -> Checkout {
    Checkout {
        name: WorkspaceNameBuf::from(name),
        disk: Disk::new(),
        known: Disk::new(),
        marker_lens: BTreeMap::new(),
        tree: MergedTree::resolved(repo.store().clone(), repo.store().empty_tree_id().clone()),
        op: repo.operation().clone(),
    }
}

impl World {
    fn new() -> World {
        let dir = tempfile::TempDir::new().unwrap();
        let (_, repo) = wait(Workspace::init_internal_git(&settings(0), dir.path())).unwrap();
        let repo = with_own_time(repo);
        let watched = empty_checkout(&repo, "default");
        let first = Disk::from([("README".to_string(), (false, b"init\n".to_vec()))]);
        World {
            _dir: dir,
            repo,
            watched,
            second: None,
            style: JjStyle::Diff,
            remote: vec![first],
            imported: vec![],
            last_undo: None,
        }
    }

    fn wc(&self) -> Commit {
        wc_commit(&self.repo, &self.watched.name)
    }

    fn main_at_origin(&self) -> Option<CommitId> {
        let symbol = RefName::new("main").to_remote_symbol(RemoteName::new("origin"));
        self.repo.view().get_remote_bookmark(symbol).target.as_normal().cloned()
    }

    fn is_immutable(&self, id: &CommitId) -> bool {
        id == self.repo.store().root_commit_id()
            || self.main_at_origin().is_some_and(|main| self.repo.index().is_ancestor(id, &main).unwrap())
    }

    fn ids(&self, expression: Arc<ResolvedRevsetExpression>) -> Vec<CommitId> {
        let revset = expression.evaluate(self.repo.as_ref()).unwrap();
        revset.iter().map(|id| id.unwrap()).collect()
    }

    /// The working-copy commit of the second workspace, which an undo can take away.
    fn second_wc(&self) -> Option<Commit> {
        let id = self.repo.view().get_wc_commit_id(WorkspaceName::new("second"))?;
        Some(self.repo.store().get_commit(id).unwrap())
    }

    /// What jj prints for a query, one commit id to a line.
    fn log(&mut self, args: &[String]) -> Option<String> {
        let ignore_working_copy = args[0] == "--ignore-working-copy";
        if !ignore_working_copy && !self.watched.snapshot(&mut self.repo) {
            return None;
        }
        let at = args.iter().position(|arg| arg == "-r").unwrap();
        let wc = RevsetExpression::commit(self.wc().id().clone());
        let others = RevsetExpression::all().minus(&wc);
        let found = match args[at + 1].as_str() {
            "@-" => {
                let root = self.repo.store().root_commit_id();
                let kinds: Vec<&str> =
                    self.wc().parent_ids().iter().map(|id| if id == root { "root" } else { "ok" }).collect();
                return Some(kinds.concat());
            }
            "@ & conflicts()" => {
                return Some(if self.wc().has_conflict() { "c" } else { "" }.to_string());
            }
            "main@origin" => return self.main_at_origin().map(|_| String::new()),
            "all() ~ @" => self.ids(others),
            "mutable() ~ @" => {
                let ids = self.ids(others);
                ids.into_iter().filter(|id| !self.is_immutable(id)).collect()
            }
            "heads(all()) ~ ::@" => self.ids(RevsetExpression::all().heads().minus(&wc.ancestors())),
            "(mutable() & ::default@) ~ ::@" => {
                let second = RevsetExpression::commit(self.second_wc()?.id().clone());
                let ids = self.ids(wc.ancestors().minus(&second.ancestors()));
                ids.into_iter().filter(|id| !self.is_immutable(id)).collect()
            }
            other => panic!("unknown revset {other}"),
        };
        Some(found.iter().map(|id| format!("{}\n", id.hex())).collect())
    }

    fn find(&self, name: &str) -> Commit {
        let id = match name {
            "@" => self.wc().id().clone(),
            "main@origin" => self.main_at_origin().unwrap(),
            hex => CommitId::try_from_hex(hex).unwrap(),
        };
        self.repo.store().get_commit(&id).unwrap()
    }

    fn restore(&mut self, from: &MergedTree, into: &Commit, file: Option<&str>) {
        let tree = match file {
            None => from.clone(),
            Some(file) => wait(restore_tree(
                from,
                &into.tree(),
                "from".to_string(),
                "into".to_string(),
                &FilesMatcher::new([repo_path(file)]),
            ))
            .unwrap(),
        };
        if tree.tree_ids() != into.tree_ids() {
            let mut tx = self.repo.start_transaction();
            let builder = tx.repo_mut().rewrite_commit(into).set_tree(tree);
            wait(builder.write()).unwrap();
            finish(&mut self.repo, tx, "restore");
        }
    }

    /// Performs a jj command on the repo. Tells whether jj accepts it.
    fn operate(&mut self, args: &[&str]) -> bool {
        let wc = self.wc();
        let name = self.watched.name.clone();
        let parent_tree = wait(wc.parent_tree(self.repo.as_ref())).unwrap();
        let mut tx = self.repo.start_transaction();
        match args {
            ["new", names @ ..] => {
                let parents: Vec<Commit> = match names {
                    [] => vec![wc],
                    names => names.iter().map(|name| self.find(name)).collect(),
                };
                let ids: Vec<CommitId> = parents.iter().map(|parent| parent.id().clone()).collect();
                let tree = wait(merge_commit_trees(tx.repo(), &parents)).unwrap();
                let builder = tx.repo_mut().new_commit(ids, tree);
                let commit = wait(builder.write()).unwrap();
                wait(tx.repo_mut().edit(name, &commit)).unwrap();
            }
            ["commit", "-m", message] => {
                let builder = tx.repo_mut().rewrite_commit(&wc).set_description(*message);
                let described = wait(builder.write()).unwrap();
                let builder = tx.repo_mut().new_commit(vec![described.id().clone()], described.tree());
                let commit = wait(builder.write()).unwrap();
                wait(tx.repo_mut().edit(name, &commit)).unwrap();
            }
            ["describe", "-m", message] => {
                let builder = tx.repo_mut().rewrite_commit(&wc).set_description(*message);
                wait(builder.write()).unwrap();
            }
            ["abandon"] => tx.repo_mut().record_abandoned_commit(&wc),
            ["squash", "-m", message] => {
                if wc.parent_ids().len() != 1 || self.is_immutable(&wc.parent_ids()[0]) {
                    return false;
                }
                let parent = self.repo.store().get_commit(&wc.parent_ids()[0]).unwrap();
                let source = CommitWithSelection { selected_tree: wc.tree(), commit: wc, parent_tree };
                if let Some(squashed) = wait(squash_commits(tx.repo_mut(), &[source], &parent, false)).unwrap() {
                    let builder = squashed.commit_builder.set_description(*message);
                    wait(builder.write()).unwrap();
                }
            }
            ["edit", id] => {
                let commit = self.find(id);
                if self.is_immutable(commit.id()) {
                    return false;
                }
                wait(tx.repo_mut().edit(name, &commit)).unwrap();
            }
            ["restore"] => {
                self.restore(&parent_tree, &wc, None);
                return true;
            }
            ["restore", "--from", "@", "--into", "second@", "--", file] => {
                let Some(second) = self.second_wc() else {
                    return false;
                };
                self.restore(&wc.tree(), &second, Some(*file));
                return true;
            }
            ["restore", file] => {
                self.restore(&parent_tree, &wc, Some(*file));
                return true;
            }
            ["split", "-m", message, "--", file] => {
                let matcher = FilesMatcher::new([repo_path(file)]);
                let selected =
                    wait(restore_tree(&wc.tree(), &parent_tree, "from".into(), "into".into(), &matcher)).unwrap();
                let builder = tx.repo_mut().new_commit(wc.parent_ids().to_vec(), selected);
                let builder = builder.set_description(*message);
                let first = wait(builder.write()).unwrap();
                let builder = tx.repo_mut().rewrite_commit(&wc).set_parents(vec![first.id().clone()]);
                wait(builder.write()).unwrap();
            }
            ["rebase", "-r", "@", "-d", id] => {
                let location = MoveCommitsLocation {
                    new_parent_ids: vec![self.find(id).id().clone()],
                    new_child_ids: vec![],
                    target: MoveCommitsTarget::Commits(vec![wc.id().clone()]),
                };
                wait(move_commits(tx.repo_mut(), &location, &RebaseOptions::default())).unwrap();
            }
            ["git", "fetch"] => {
                for (i, files) in self.remote.iter().enumerate().skip(self.imported.len()) {
                    let store = self.repo.store().clone();
                    let empty = MergedTree::resolved(store.clone(), store.empty_tree_id().clone());
                    let mut builder = MergedTreeBuilder::new(empty);
                    for (path, (executable, content)) in files {
                        let path = repo_path(path);
                        let value = file_value(&store, &path, content, *executable);
                        builder.set_or_remove(path, value);
                    }
                    let tree = wait(builder.write_tree()).unwrap();
                    let parent = if i == 0 {
                        store.root_commit_id().clone()
                    } else {
                        self.imported[i - 1].clone()
                    };
                    let builder = tx.repo_mut().new_commit(vec![parent], tree);
                    let commit = wait(builder.set_description(format!("remote {i}")).write()).unwrap();
                    self.imported.push(commit.id().clone());
                }
                let main = RefTarget::normal(self.imported.last().unwrap().clone());
                let symbol = RefName::new("main").to_remote_symbol(RemoteName::new("origin"));
                let remote_ref = RemoteRef { target: main, state: RemoteRefState::New };
                tx.repo_mut().set_remote_bookmark(symbol, remote_ref);
            }
            ["workspace", "forget", "second"] => {
                wait(tx.repo_mut().remove_wc_commit(WorkspaceName::new("second"))).unwrap();
            }
            other => panic!("unknown command {other:?}"),
        }
        finish(&mut self.repo, tx, args[0]);
        true
    }

    /// Runs a jj command in the watched workspace.
    fn jj(&mut self, args: &[String]) -> bool {
        if !self.watched.snapshot(&mut self.repo) {
            return false;
        }
        let args: Vec<&str> = args.iter().map(String::as_str).collect();
        let accepted = self.operate(&args);
        self.watched.check_out(&self.repo, self.style);
        accepted
    }

    fn undo(&mut self) -> bool {
        if !self.watched.snapshot(&mut self.repo) {
            return false;
        }
        let current = self.repo.operation().clone();
        let undone = match &self.last_undo {
            Some((undo, restored)) if undo.id() == current.id() => restored.clone(),
            _ => current,
        };
        let mut parents = undone.parents();
        let (Some(parent), None) = (parents.next(), parents.next()) else {
            return false;
        };
        let parent = parent.unwrap();
        let view = wait(parent.view()).unwrap();
        if view.get_wc_commit_id(&self.watched.name).is_none() {
            return true;
        }
        let mut tx = self.repo.start_transaction();
        tx.repo_mut().set_view(view.store_view().clone());
        finish(&mut self.repo, tx, "undo");
        self.last_undo = Some((self.repo.operation().clone(), parent));
        self.watched.check_out(&self.repo, self.style);
        true
    }

    fn add_workspace(&mut self) -> bool {
        if !self.watched.snapshot(&mut self.repo) {
            return false;
        }
        let wc = self.wc();
        let tree = wait(wc.parent_tree(self.repo.as_ref())).unwrap();
        let mut tx = self.repo.start_transaction();
        let builder = tx.repo_mut().new_commit(wc.parent_ids().to_vec(), tree);
        let commit = wait(builder.write()).unwrap();
        wait(tx.repo_mut().edit(WorkspaceNameBuf::from("second"), &commit)).unwrap();
        finish(&mut self.repo, tx, "add workspace");
        let mut second = empty_checkout(&self.repo, "second");
        second.check_out(&self.repo, self.style);
        self.second = Some(second);
        self.watched.check_out(&self.repo, self.style);
        true
    }

    fn write_in_second(&mut self, path: &str, content: Vec<u8>) -> bool {
        if self.second_wc().is_none() {
            return false;
        }
        let mut second = self.second.take().unwrap();
        second.disk.insert(path.to_string(), (false, content));
        if !second.snapshot(&mut self.repo) {
            update_stale(&mut self.repo, &mut second, self.style);
        }
        self.second = Some(second);
        true
    }

    /// Runs a restore in the second workspace, without looking at its working copy.
    fn restore_from_second(&mut self, args: &[String]) -> bool {
        let args: Vec<&str> = args.iter().map(String::as_str).collect();
        let ["--ignore-working-copy", "restore", "--from", "@", "--into", id, "--", file] = args[..] else {
            panic!("unknown command {args:?}");
        };
        let Some(second) = self.second_wc() else {
            return false;
        };
        let into = self.find(id);
        self.restore(&second.tree(), &into, Some(file));
        true
    }

    fn update_watched(&mut self) -> bool {
        update_stale(&mut self.repo, &mut self.watched, self.style);
        true
    }

    /// What `jj diff --stat` sums up, unless the watched workspace is stale.
    fn diff_stat(&mut self) -> Option<(u32, u32, u32)> {
        if !self.watched.snapshot(&mut self.repo) {
            return None;
        }
        let wc = self.wc();
        let parent_tree = wait(wc.parent_tree(self.repo.as_ref())).unwrap();
        let mut total = (0, 0, 0);
        for (_, source, target, before, after) in diff_entries(&self.repo, &wc, &parent_tree) {
            let left = self.text(&source, before);
            let right = self.text(&target, after);
            total.0 += 1;
            let diff = diff_by_line([&left, &right], &LineCompareMode::Exact);
            for hunk in diff.hunks().filter(|hunk| hunk.kind == DiffHunkKind::Different) {
                let lines = |part: &[u8]| part.split_inclusive(|b| *b == b'\n').count() as u32;
                total.1 += lines(hunk.contents[1]);
                total.2 += lines(hunk.contents[0]);
            }
        }
        Some(total)
    }

    fn text(&self, path: &RepoPath, value: MergedTreeValue) -> Vec<u8> {
        let store = self.repo.store();
        match wait(materialize_tree_value(store, path, value, &ConflictLabels::unlabeled())).unwrap() {
            MaterializedTreeValue::Absent => vec![],
            MaterializedTreeValue::File(mut file) => wait(file.read_all(path)).unwrap(),
            MaterializedTreeValue::FileConflict(file) => {
                let options = ConflictMaterializeOptions {
                    marker_style: self.style,
                    marker_len: None,
                    merge: store.merge_options().clone(),
                };
                materialize_merge_result_to_bytes(&file.contents, &ConflictLabels::unlabeled(), &options).into()
            }
            _ => panic!("unexpected value"),
        }
    }
}

/// Snapshots on top of the operation that the working copy is at, and checks out the
/// working-copy commit of the merged operations.
fn update_stale(repo: &mut Arc<ReadonlyRepo>, checkout: &mut Checkout, style: JjStyle) {
    if checkout.is_stale(repo) {
        let mut earlier = wait(repo.reload_at(&checkout.op)).unwrap();
        assert!(checkout.snapshot(&mut earlier));
        *repo = with_own_time(wait(earlier.reload_at_head()).unwrap());
    } else {
        assert!(checkout.snapshot(repo));
    }
    checkout.check_out(repo, style);
}

type EntryParts = (Option<String>, RepoPathBuf, RepoPathBuf, MergedTreeValue, MergedTreeValue);

/// The entries of the diff of a commit to its parents: where it was copied from, both
/// paths, and both values.
fn diff_entries(repo: &Arc<ReadonlyRepo>, commit: &Commit, parent_tree: &MergedTree) -> Vec<EntryParts> {
    let mut records = CopyRecords::default();
    for parent in commit.parent_ids() {
        let found: Vec<_> = wait(repo.store().get_copy_records(None, parent, commit.id()).unwrap().collect());
        records.add_records(found).unwrap();
    }
    let tree = commit.tree();
    let entries: Vec<_> = wait(parent_tree.diff_stream_with_copies(&tree, &EverythingMatcher, &records).collect());
    entries
        .into_iter()
        .map(|entry| {
            let values = entry.values.unwrap();
            let source = entry.path.source().to_owned();
            let copied_from = entry.path.copy_operation().map(|_| source.as_internal_file_string().to_string());
            (copied_from, source, entry.path.target().to_owned(), values.before, values.after)
        })
        .collect()
}

fn raw_value(value: &MergedTreeValue) -> RawValue {
    value
        .iter()
        .map(|term| {
            term.as_ref().map(|value| match value {
                TreeValue::File { id, executable, copy_id } => TreeTerm::File {
                    id: id.to_bytes(),
                    executable: *executable,
                    copy_id: copy_id.to_bytes(),
                },
                TreeValue::Symlink(id) => TreeTerm::Symlink(id.to_bytes()),
                TreeValue::Tree(id) => TreeTerm::Tree(id.to_bytes()),
                TreeValue::GitSubmodule(id) => TreeTerm::GitSubmodule(id.to_bytes()),
            })
        })
        .collect()
}

fn tree_value(raw: &RawValue) -> MergedTreeValue {
    let terms: Vec<Option<TreeValue>> = raw
        .iter()
        .map(|term| {
            term.as_ref().map(|term| match term {
                TreeTerm::File { id, executable, copy_id } => TreeValue::File {
                    id: jj_lib::backend::FileId::from_bytes(id),
                    executable: *executable,
                    copy_id: CopyId::from_bytes(copy_id),
                },
                _ => panic!("unexpected term"),
            })
        })
        .collect();
    Merge::from_vec(terms)
}

fn materialized(
    store: &Arc<Store>,
    path: &RepoPath,
    value: MergedTreeValue,
    labels: &ConflictLabels,
) -> Option<MaterializedValue> {
    Some(match wait(materialize_tree_value(store, path, value, labels)).ok()? {
        MaterializedTreeValue::Absent => MaterializedValue::Absent,
        MaterializedTreeValue::AccessDenied(_) => MaterializedValue::AccessDenied,
        MaterializedTreeValue::File(mut file) => MaterializedValue::File {
            content: wait(file.read_all(path)).ok(),
            executable: file.executable,
        },
        MaterializedTreeValue::Symlink { target, .. } => MaterializedValue::Symlink { target },
        MaterializedTreeValue::FileConflict(file) => MaterializedValue::FileConflict {
            contents: file.contents.iter().map(|side| side.to_vec()).collect(),
            labels: file.labels.as_slice().to_vec(),
            resolved_exec: file.executable,
        },
        MaterializedTreeValue::OtherConflict { id, labels } => MaterializedValue::OtherConflict {
            terms: raw_value(&id),
            labels: labels.as_slice().to_vec(),
        },
        MaterializedTreeValue::GitSubmodule(_) => MaterializedValue::GitSubmodule,
        MaterializedTreeValue::Tree(_) => MaterializedValue::Tree,
    })
}

fn lookup(store: &Arc<Store>, tree: &MergedTree, path: &RepoPath) -> TreeLookup {
    match tree.path_value(path) {
        Ok(value) => TreeLookup {
            raw: Some(raw_value(&value)),
            value: materialized(store, path, value, &ConflictLabels::unlabeled()),
        },
        Err(_) => TreeLookup { raw: None, value: None },
    }
}

fn tree_ids(tree: &MergedTree) -> Vec<Vec<u8>> {
    tree.tree_ids().iter().map(|id| id.to_bytes()).collect()
}

fn library_style(style: JjStyle) -> ConflictMarkerStyle {
    match style {
        JjStyle::Diff => ConflictMarkerStyle::Diff,
        JjStyle::DiffExperimental => ConflictMarkerStyle::DiffExperimental,
        JjStyle::Snapshot => ConflictMarkerStyle::Snapshot,
        JjStyle::Git => ConflictMarkerStyle::Git,
    }
}

fn library_options(store: &Arc<Store>) -> MergeOptions {
    let options = store.merge_options();
    MergeOptions {
        hunk_level: match options.hunk_level {
            JjLevel::Line => FileMergeHunkLevel::Line,
            JjLevel::Word => FileMergeHunkLevel::Word,
        },
        same_change: match options.same_change {
            JjChange::Keep => SameChange::Keep,
            JjChange::Accept => SameChange::Accept,
        },
    }
}

/// The trees that a worker's state was made from.
struct Trees {
    store: Arc<Store>,
    parent_tree: MergedTree,
    commit_tree: MergedTree,
    parent_trees: Vec<MergedTree>,
}

/// A worker with what it asks for.
struct Engine {
    worker: Worker,
    filter: IgnoreFilter,
    trees: Option<Trees>,
}

fn abs(path: &str) -> String {
    format!("{ROOT}/{path}")
}

fn new_filter(disk: &Disk) -> IgnoreFilter {
    let mut filter = IgnoreFilter::new(ROOT, VcsKind::Jj, disk.contains_key(".gitignore"), false, None);
    load_rules(&mut filter, disk);
    filter
}

fn load_rules(filter: &mut IgnoreFilter, disk: &Disk) {
    let mut contents: FileTable<String> = FileTable::new();
    for file in filter.load_order() {
        if let Some((_, content)) = disk.get(&file[ROOT.len() + 1..]) {
            contents.insert(file, String::from_utf8_lossy(content).to_string());
        }
    }
    filter.rebuild(&contents);
}

impl Engine {
    fn new(world: &World) -> Engine {
        Engine { worker: Worker::new(), filter: new_filter(&world.watched.disk), trees: None }
    }

    fn step(&mut self, next: impl FnOnce(Worker) -> (Worker, Order)) -> Order {
        let worker = std::mem::replace(&mut self.worker, Worker::new());
        let (worker, order) = next(worker);
        self.worker = worker;
        order
    }

    fn request(&mut self, world: &World, request: JjWorkerRequest) -> RepoStatus {
        let mut order = self.step(|worker| worker.on_request(request));
        loop {
            let event = match order {
                Order::Load { .. } => Event::Loaded(load(world)),
                Order::ComputeFull => self.compute(world),
                Order::Apply(paths) => {
                    self.apply(world, &paths);
                    Event::Applied
                }
                Order::ReplyStatus(status) => return status,
                Order::ReplyError(message) => panic!("worker failed: {message}"),
                _ => panic!("unexpected order"),
            };
            order = self.step(|worker| worker.on_event(event));
        }
    }

    fn compute(&mut self, world: &World) -> Event {
        let repo = &world.repo;
        let store = repo.store().clone();
        let wc = world.wc();
        let parent_tree = wait(wc.parent_tree(repo.as_ref())).unwrap();
        let unlabeled = ConflictLabels::unlabeled();
        let entries: Vec<DiffEntry> = diff_entries(repo, &wc, &parent_tree)
            .into_iter()
            .map(|(copied_from, source, target, before, after)| DiffEntry {
                path: target.as_internal_file_string().to_string(),
                copied_from,
                before: materialized(&store, &source, before, &unlabeled),
                after: materialized(&store, &target, after, &unlabeled),
            })
            .collect();
        let mut per_file = FileTable::new();
        let style = library_style(world.style);
        let options = library_options(&store);
        compute_per_file_diff_stats(&mut per_file, &entries, style, options);
        let commit_tree = wc.tree();
        let deleted: Vec<_> = wait(parent_tree.diff_stream(&commit_tree, &EverythingMatcher).collect());
        let parent_trees: Vec<MergedTree> = copy_trees(&wc);
        let loaded = LoadedRepo {
            parent_tree_ids: Some(tree_ids(&parent_tree)),
            commit_tree_ids: tree_ids(&commit_tree),
            copy_tree_ids: parent_trees.iter().flat_map(tree_ids).collect(),
            op_id: repo.op_id().to_bytes(),
            repo_root: ROOT.to_string(),
            conflicted_paths: commit_tree
                .conflicts()
                .map(|(path, _)| path.as_internal_file_string().to_string())
                .collect(),
            deleted_paths: deleted
                .into_iter()
                .filter(|entry| entry.values.as_ref().is_ok_and(|values| values.after.is_absent()))
                .map(|entry| entry.path.as_internal_file_string().to_string())
                .collect(),
            conflict_marker_style: style,
            merge_options: options,
        };
        self.trees = Some(Trees { store, parent_tree, commit_tree, parent_trees });
        self.filter = new_filter(&world.watched.disk);
        let (status, state) = compute_jj_full_status(metadata(world), loaded, per_file);
        Event::Computed(status, state)
    }

    fn not_ignored(&mut self, disk: &Disk, path: &str) -> bool {
        let event = vec![EventPath { path: abs(path), is_dir: false }];
        let vcs_dir = abs(".jj");
        let mut there: FileTable<bool> = FileTable::new();
        for file in self.filter.files_to_look_for(&event, &vcs_dir, None) {
            if disk.contains_key(&file[ROOT.len() + 1..]) {
                there.insert(file, true);
            }
        }
        if self.filter.discover_ignore_files(&event, &vcs_dir, None, &there) {
            load_rules(&mut self.filter, disk);
        }
        !self.filter.process_event(&vcs_dir, None, &event).changed_paths.is_empty()
    }

    fn path_facts(&mut self, disk: &Disk, path: &str) -> PathFacts {
        let not_ignored = self.not_ignored(disk, path);
        let trees = self.trees.as_ref().unwrap();
        let at = repo_path(path);
        let file = disk.get(path);
        let below = format!("{path}/");
        let labeled = trees.parent_tree.path_value(&at).ok();
        let on_disk = DiskFacts {
            disk: file.map(|(_, content)| content.clone()),
            executable: file.is_some_and(|(executable, _)| *executable),
            exists: file.is_some() || disk.keys().any(|name| name.starts_with(&below)),
            not_ignored,
        };
        let in_trees = TreeFacts {
            parent: lookup(&trees.store, &trees.parent_tree, &at),
            parent_labeled: labeled
                .and_then(|value| materialized(&trees.store, &at, value, trees.parent_tree.labels())),
            commit: lookup(&trees.store, &trees.commit_tree, &at),
            parents: trees.parent_trees.iter().map(|tree| lookup(&trees.store, tree, &at)).collect(),
        };
        PathFacts::new(path, on_disk, in_trees)
    }

    fn differing(&self) -> Vec<Vec<Vec<String>>> {
        let trees = self.trees.as_ref().unwrap();
        let terms: Vec<MergedTree> = trees
            .commit_tree
            .tree_ids()
            .iter()
            .map(|id| MergedTree::resolved(trees.store.clone(), id.clone()))
            .collect();
        let paths = |a: &MergedTree, b: &MergedTree| -> Vec<String> {
            let entries: Vec<_> = wait(a.diff_stream(b, &EverythingMatcher).collect());
            entries.iter().map(|entry| entry.path.as_internal_file_string().to_string()).collect()
        };
        terms.iter().map(|a| terms.iter().map(|b| paths(a, b)).collect()).collect()
    }

    fn apply(&mut self, world: &World, paths: &[String]) {
        let disk = &world.watched.disk;
        let batch: Vec<ChangedPath> =
            paths.iter().map(|path| ChangedPath { path: path.clone(), resolved: vec![] }).collect();
        let changed = batch_paths(ROOT, &batch);
        for path in &changed {
            self.not_ignored(disk, path);
        }
        let mut state = self.worker.state.take().unwrap();
        let changed = begin_batch(&mut state.diff, library_style(world.style), changed);
        let mut facts: FileTable<PathFacts> = FileTable::new();
        let mut answers = Answers { differing: None, values: None };
        let mut progress = Progress::Start;
        loop {
            let (next, need) = apply_incremental_paths(&mut state.diff, &changed, &facts, &answers, progress);
            progress = next;
            match need {
                Need::Nothing => {
                    if matches!(progress, Progress::Done) {
                        break;
                    }
                }
                Need::Facts(missing) => {
                    for path in missing {
                        let found = self.path_facts(disk, &path);
                        facts.insert(path, found);
                    }
                }
                Need::Differing(_) => answers.differing = Some(self.differing()),
                Need::Values => {
                    let Progress::Reshaping(_, plan) = &progress else {
                        panic!("values of nothing");
                    };
                    let trees = self.trees.as_ref().unwrap();
                    let unlabeled = ConflictLabels::unlabeled();
                    let values = plan.iter().map(|projection| {
                        let value = tree_value(&projection.raw);
                        materialized(&trees.store, &repo_path(&projection.path), value, &unlabeled)
                    });
                    answers.values = Some(values.collect());
                }
            }
        }
        self.worker.state = Some(state);
    }
}

/// The trees that copies are looked for in: the first term of each parent's.
fn copy_trees(commit: &Commit) -> Vec<MergedTree> {
    let parents = wait(commit.parents()).unwrap();
    parents
        .iter()
        .map(|parent| MergedTree::resolved(commit.store().clone(), parent.tree_ids().first().clone()))
        .collect()
}

fn metadata(world: &World) -> RepoStatus {
    let wc = world.wc();
    let metadata = CommitMetadata {
        change_id: wc.change_id().to_bytes(),
        change_id_prefix_len: None,
        commit_id: wc.id().to_bytes(),
        commit_id_prefix_len: None,
        description: wc.description().to_string(),
        conflict: wc.has_conflict(),
        visible_targets: 1,
        hidden: false,
        immutable: false,
        workspace_name: "default".to_string(),
    };
    metadata_status(&metadata, vec![])
}

fn load(world: &World) -> LoadedInfo {
    let wc = world.wc();
    let parent_tree = wait(wc.parent_tree(world.repo.as_ref())).unwrap();
    LoadedInfo {
        parent_tree_ids: tree_ids(&parent_tree),
        commit_tree_ids: tree_ids(&wc.tree()),
        copy_tree_ids: copy_trees(&wc).iter().flat_map(tree_ids).collect(),
        op_id: world.repo.op_id().to_bytes(),
        metadata: metadata(world),
    }
}

struct Harness {
    world: World,
    engine: Engine,
    events: EventQueue,
    delivery: Delivery,
    watched_stale: bool,
}

fn mirror(disk: &Disk) -> FileTable<MirrorEntry> {
    let mut table = FileTable::new();
    for (path, (executable, content)) in disk {
        table.insert(abs(path), MirrorEntry { executable: *executable, content: content.clone() });
    }
    table
}

fn pool_file(action: Action) -> Option<usize> {
    match action {
        Action::Append { file, .. }
        | Action::Touch { file, .. }
        | Action::Delete { file }
        | Action::SetExecBit { file, .. } => Some(file),
        Action::RenameFile { from, .. } => Some(from),
        _ => None,
    }
}

impl Harness {
    fn new(delivery: Delivery) -> Harness {
        let world = World::new();
        let mut engine = Engine::new(&world);
        engine.request(&world, JjWorkerRequest::FullRefresh { repo_path: ROOT.to_string() });
        let events =
            EventQueue { mirror: mirror(&world.watched.disk), pending: vec![], drop_next_sync: false };
        Harness { world, engine, events, delivery, watched_stale: false }
    }

    fn sync(&mut self) {
        self.events.sync_mirror(mirror(&self.world.watched.disk));
    }

    fn deliver_file_events(&mut self) -> Option<RepoStatus> {
        self.sync();
        if self.events.pending.is_empty() {
            return None;
        }
        let changed_paths = std::mem::take(&mut self.events.pending);
        let request = JjWorkerRequest::IncrementalUpdate { repo_path: ROOT.to_string(), changed_paths };
        Some(self.engine.request(&self.world, request))
    }

    fn deliver_op_event(&mut self) -> RepoStatus {
        self.sync();
        let changed_paths = std::mem::take(&mut self.events.pending);
        let request = JjWorkerRequest::ValidateAndRefresh { repo_path: ROOT.to_string(), changed_paths };
        self.engine.request(&self.world, request)
    }

    fn facts(&self, action: Action) -> ActionFacts {
        let disk = &self.world.watched.disk;
        let path = match action {
            Action::DeleteGitignore => ".gitignore",
            _ => pool_file(action).map_or("", |file| POOL[file]),
        };
        let file = disk.get(path);
        let is_dir = |dir: &str| disk.keys().any(|name| name.starts_with(dir));
        ActionFacts {
            exists: file.is_some() || is_dir(&format!("{path}/")),
            is_file: file.is_some(),
            bytes: file.map_or(vec![], |(_, content)| content.clone()),
            text: file.map_or(String::new(), |(_, content)| String::from_utf8(content.clone()).unwrap()),
            mode: if file.is_some_and(|(executable, _)| *executable) { 0o755 } else { 0o644 },
            dir_is_dir: is_dir("dir/"),
            dir_exists: is_dir("dir/"),
            dir2_is_dir: is_dir("dir2/"),
            dir2_exists: is_dir("dir2/"),
        }
    }

    fn probe_stale(&mut self) {
        self.watched_stale = !self.world.watched.snapshot(&mut self.world.repo);
    }

    fn apply(&mut self, action: Action) -> Option<RepoStatus> {
        let has_second = self.world.second.is_some();
        let mut step = begin_action(action, self.delivery, self.watched_stale, has_second, &self.facts(action));
        if let Move::Query(args) = &step {
            let output = self.world.log(args);
            if output.is_none() && self.world.watched.is_stale(&self.world.repo) {
                self.watched_stale = true;
            }
            step = continue_action(action, output.as_deref());
        } else if let Move::QuerySecond(args) = &step {
            let output = self.world.log(args);
            step = continue_action(action, output.as_deref());
        }
        let disk = &mut self.world.watched.disk;
        match step {
            Move::Skip => return None,
            Move::WriteFile { path, content } => {
                let executable = disk.get(&path).is_some_and(|(executable, _)| *executable);
                disk.insert(path, (executable, content));
            }
            Move::RemoveFile { path } => {
                disk.remove(&path);
            }
            Move::RenamePath { from, to } => {
                let below = format!("{from}/");
                let moved: Vec<String> =
                    disk.keys().filter(|name| **name == from || name.starts_with(&below)).cloned().collect();
                for name in moved {
                    let file = disk.remove(&name).unwrap();
                    disk.insert(format!("{to}{}", &name[from.len()..]), file);
                }
            }
            Move::SetMode { path, mode } => disk.get_mut(&path).unwrap().0 = mode & 0o111 != 0,
            Move::CommitToRemote { path, content } => {
                let mut files = self.world.remote.last().unwrap().clone();
                files.insert(path, (false, content));
                self.world.remote.push(files);
                return None;
            }
            Move::ArmDrop => {
                self.events.drop_next_sync = true;
                return None;
            }
            Move::JjQuiet(args) => {
                self.world.style = match args[4].as_str() {
                    "diff" => JjStyle::Diff,
                    "snapshot" => JjStyle::Snapshot,
                    _ => JjStyle::Git,
                };
                return None;
            }
            Move::Jj(args) => return self.world.jj(&args).then(|| self.deliver_op_event()),
            Move::Undo => return self.world.undo().then(|| self.deliver_op_event()),
            Move::AddWorkspace => return self.world.add_workspace().then(|| self.deliver_op_event()),
            Move::WriteInSecond { path, content } => {
                if !self.world.write_in_second(&path, content) {
                    return None;
                }
                self.probe_stale();
                return Some(self.deliver_op_event());
            }
            Move::JjInSecond(args) => {
                if !self.world.restore_from_second(&args) {
                    return None;
                }
                self.probe_stale();
                return Some(self.deliver_op_event());
            }
            Move::UpdateStale => {
                if !self.world.update_watched() {
                    return None;
                }
                self.watched_stale = false;
                return Some(self.deliver_op_event());
            }
            Move::ForgetWorkspace => {
                let args: Vec<String> = ["workspace", "forget", "second"].iter().map(|s| s.to_string()).collect();
                if !self.world.jj(&args) {
                    return None;
                }
                self.world.second = None;
                return Some(self.deliver_op_event());
            }
            Move::Query(_) | Move::QuerySecond(_) => panic!("a query goes on with no other"),
        }
        self.deliver_file_events()
    }

    fn check_oracle(&mut self, status: &RepoStatus, after: &str) -> Result<(), String> {
        let Some((files, added, removed)) = self.world.diff_stat() else {
            self.watched_stale = true;
            return Ok(());
        };
        let counts = self.engine.worker.state.as_ref().unwrap().aggregate_stats();
        assert_eq!(counts.file_mad_count, status.file_mad_count_working_tree);
        if !matches_oracle(&counts, files, added, removed) {
            return Err(format!(
                "after {after}: worker ({}f, +{}, -{}) != diff ({files}f, +{added}, -{removed})",
                counts.file_mad_count, counts.lines_added, counts.lines_removed,
            ));
        }
        self.deliver_op_event();
        Ok(())
    }
}

fn run_sequence(actions: &[Action], delivery: Delivery) -> Result<(), String> {
    let mut h = Harness::new(delivery);
    for (i, action) in actions.iter().enumerate() {
        let status = h.apply(*action);
        if must_match_now(delivery, h.watched_stale, status.is_some()) {
            h.check_oracle(&status.unwrap(), &format!("action {i} ({action:?})"))?;
        }
    }
    h.events.drop_next_sync = false;
    h.probe_stale();
    if h.watched_stale {
        assert!(h.apply(Action::WorkspaceUpdateStale).is_some() && !h.watched_stale);
    }
    let args: Vec<String> = ["describe", "-m", "convergence-check"].iter().map(|s| s.to_string()).collect();
    assert!(h.world.jj(&args));
    let status = h.deliver_op_event();
    h.check_oracle(&status, "the last operation")
}

fn replay(actions: &[Action], delivery: Delivery) {
    if let Err(message) = run_sequence(actions, delivery) {
        panic!("{message}");
    }
}

#[test]
fn seeded_contents() {
    assert_eq!(seeded_content(2, 2, 7), "f2-s7-line0\nf2-s7-line1\n");
    assert_eq!(seeded_content(0, 0, 7), "");
    assert_eq!(seq_len(None), (3, 10));
    assert_eq!(seq_len(Some(2)), (3, 4));
}

#[test]
fn mirrors_are_compared() {
    let file = |text: &str| (false, text.as_bytes().to_vec());
    let before = Disk::from([("a".to_string(), file("1")), ("b".to_string(), file("2")), ("c".to_string(), file("3"))]);
    let after = Disk::from([
        ("a".to_string(), file("1")),
        ("b".to_string(), (true, b"2".to_vec())),
        ("d".to_string(), file("4")),
    ]);
    assert_eq!(changed_paths(&mirror(&before), &mirror(&after)), vec!["/repo/b", "/repo/c", "/repo/d"]);
    assert!(changed_paths(&mirror(&before), &mirror(&before)).is_empty());
}

#[test]
fn lossy_abandon_converges_after_op() {
    replay(
        &[
            Action::Write {
                file: 0,
                lines: 3,
                seed: 1,
            },
            Action::JjNew,
            Action::Write {
                file: 1,
                lines: 2,
                seed: 2,
            },
            Action::DropPendingEvents,
            Action::JjAbandon,
        ],
        Delivery::Lossy,
    );
}

#[test]
fn movedir_of_tracked_file_after_new() {
    replay(
        &[
            Action::Write {
                file: 2,
                lines: 1,
                seed: 0,
            },
            Action::Write {
                file: 0,
                lines: 1,
                seed: 0,
            },
            Action::JjNew,
            Action::MoveDir,
        ],
        Delivery::Perfect,
    );
}

#[test]
fn soak_fetch_undo_then_rename_after_append() {
    replay(
        &[
            Action::Write {
                file: 5,
                lines: 2,
                seed: 10,
            },
            Action::JjGitFetch,
            Action::JjNew,
            Action::JjNewOnRemote,
            Action::JjUndo,
            Action::Append {
                file: 5,
                lines: 1,
                seed: 0,
            },
            Action::RenameFile { from: 5, to: 0 },
        ],
        Delivery::Perfect,
    );
}

#[test]
fn soak_squash_gitignore_fetch_touch_undo() {
    replay(
        &[
            Action::Write {
                file: 3,
                lines: 1,
                seed: 0,
            },
            Action::JjSquash,
            Action::WriteGitignore { variant: 1 },
            Action::JjGitFetch,
            Action::Touch {
                file: 3,
                line: 0,
                seed: 0,
            },
            Action::JjUndo,
        ],
        Delivery::Perfect,
    );
}

#[test]
fn soak2_rename_then_recreate_source() {
    replay(
        &[
            Action::Write {
                file: 5,
                lines: 1,
                seed: 0,
            },
            Action::JjNew,
            Action::RenameFile { from: 5, to: 0 },
            Action::Write {
                file: 5,
                lines: 1,
                seed: 0,
            },
        ],
        Delivery::Perfect,
    );
}

#[test]
fn soak2_movedir_after_merge_abandon_undo() {
    replay(
        &[
            Action::Write {
                file: 2,
                lines: 1,
                seed: 45,
            },
            Action::JjGitFetch,
            Action::JjNewOnRemote,
            Action::JjNewMerge { nth: 1 },
            Action::Write {
                file: 5,
                lines: 5,
                seed: 40,
            },
            Action::MoveDir,
            Action::JjAbandon,
            Action::JjUndo,
        ],
        Delivery::Perfect,
    );
}

#[test]
fn soak2_merge_conflicted_parent_touch() {
    replay(
        &[
            Action::Write {
                file: 0,
                lines: 1,
                seed: 0,
            },
            Action::JjGitFetch,
            Action::JjNewOnRemote,
            Action::Write {
                file: 0,
                lines: 1,
                seed: 1,
            },
            Action::JjNewMerge { nth: 0 },
            Action::JjNewMerge { nth: 0 },
            Action::Touch {
                file: 0,
                line: 6,
                seed: 0,
            },
        ],
        Delivery::Lossy,
    );
}

#[test]
fn soak3_zero_line_change_still_counts_file() {
    replay(
        &[
            Action::Write {
                file: 0,
                lines: 1,
                seed: 0,
            },
            Action::JjGitFetch,
            Action::JjNewOnRemote,
            Action::Write {
                file: 3,
                lines: 1,
                seed: 0,
            },
            Action::Write {
                file: 0,
                lines: 1,
                seed: 1,
            },
            Action::JjRebase { nth: 7 },
            Action::JjNewMerge { nth: 0 },
            Action::JjNewOnRemote,
            Action::Write {
                file: 3,
                lines: 1,
                seed: 1,
            },
            Action::JjNewMerge { nth: 0 },
            Action::Touch {
                file: 0,
                line: 6,
                seed: 0,
            },
        ],
        Delivery::Lossy,
    );
}

#[test]
fn soak3_rename_onto_existing_path() {
    replay(
        &[
            Action::RemoteCommit {
                file: 3,
                lines: 1,
                seed: 0,
            },
            Action::Write {
                file: 4,
                lines: 9,
                seed: 128,
            },
            Action::JjNew,
            Action::JjGitFetch,
            Action::JjNewMerge { nth: 1 },
            Action::RenameFile { from: 4, to: 3 },
        ],
        Delivery::Perfect,
    );
}

#[test]
fn soak3_movedir_dissimilar_content_not_paired() {
    replay(
        &[
            Action::Write {
                file: 2,
                lines: 1,
                seed: 0,
            },
            Action::JjNew,
            Action::Write {
                file: 2,
                lines: 1,
                seed: 1,
            },
            Action::MoveDir,
        ],
        Delivery::Perfect,
    );
}

#[test]
fn soak14_restored_source_keeps_pairing_as_copy() {
    replay(
        &[
            Action::RemoteCommit {
                file: 2,
                lines: 4,
                seed: 252,
            },
            Action::JjGitFetch,
            Action::JjNewOnRemote,
            Action::Write {
                file: 2,
                lines: 4,
                seed: 176,
            },
            Action::WorkspaceAdd,
            Action::JjNewOnRemote,
            Action::WorkspaceOp {
                file: 5,
                lines: 3,
                seed: 224,
            },
            Action::WorkspaceForget,
            Action::JjNew,
            Action::JjNew,
            Action::JjNew,
            Action::JjNewOnRemote,
            Action::JjNewMerge { nth: 2 },
            Action::WorkspaceAdd,
            Action::JjNewOnRemote,
            Action::JjNewMerge { nth: 0 },
            Action::MoveDir,
            Action::JjRestoreFile { file: 2 },
            Action::JjEditPrior { nth: 4 },
        ],
        Delivery::Perfect,
    );
}

#[test]
fn soak13_poisoned_delete_resurfaces_when_target_deleted() {
    replay(
        &[
            Action::RemoteCommit {
                file: 3,
                lines: 1,
                seed: 0,
            },
            Action::Append {
                file: 0,
                lines: 1,
                seed: 244,
            },
            Action::Write {
                file: 5,
                lines: 5,
                seed: 61,
            },
            Action::JjGitFetch,
            Action::JjNewOnRemote,
            Action::WorkspaceAdd,
            Action::JjNewMerge { nth: 0 },
            Action::RenameFile { from: 3, to: 4 },
            Action::Delete { file: 4 },
        ],
        Delivery::Perfect,
    );
}

#[test]
fn soak13_marker_style_change_rederives_base_entries() {
    replay(
        &[
            Action::Write {
                file: 4,
                lines: 1,
                seed: 0,
            },
            Action::Write {
                file: 0,
                lines: 1,
                seed: 0,
            },
            Action::RemoteCommit {
                file: 4,
                lines: 1,
                seed: 1,
            },
            Action::JjGitFetch,
            Action::JjNewMerge { nth: 0 },
            Action::RenameFile { from: 4, to: 0 },
            Action::SetMarkerStyle { style: 2 },
        ],
        Delivery::Perfect,
    );
}

#[test]
fn soak12_rename_after_workspace_merge_poisons() {
    replay(
        &[
            Action::RemoteCommit {
                file: 3,
                lines: 1,
                seed: 0,
            },
            Action::Append {
                file: 0,
                lines: 1,
                seed: 122,
            },
            Action::Write {
                file: 5,
                lines: 5,
                seed: 61,
            },
            Action::JjGitFetch,
            Action::JjNewOnRemote,
            Action::WorkspaceAdd,
            Action::JjNewMerge { nth: 0 },
            Action::RenameFile { from: 3, to: 4 },
        ],
        Delivery::Perfect,
    );
}

#[test]
fn soak11_rename_onto_conflicted_path_pairs() {
    replay(
        &[
            Action::Write {
                file: 0,
                lines: 1,
                seed: 0,
            },
            Action::Write {
                file: 1,
                lines: 1,
                seed: 0,
            },
            Action::RemoteCommit {
                file: 2,
                lines: 1,
                seed: 1,
            },
            Action::JjNewMerge { nth: 0 },
            Action::JjNewOnRemote,
            Action::JjSplit { file: 2 },
            Action::JjRebase { nth: 3 },
            Action::RemoteCommit {
                file: 5,
                lines: 5,
                seed: 164,
            },
            Action::JjNewMerge { nth: 3 },
            Action::JjSplit { file: 1 },
            Action::JjSplit { file: 2 },
            Action::JjSplit { file: 5 },
            Action::Write {
                file: 2,
                lines: 5,
                seed: 92,
            },
            Action::JjNewOnRemote,
            Action::JjEditPrior { nth: 0 },
            Action::JjNew,
            Action::JjNewMerge { nth: 1 },
            Action::JjEditPrior { nth: 4 },
            Action::JjUndo,
            Action::Write {
                file: 5,
                lines: 9,
                seed: 250,
            },
            Action::Write {
                file: 0,
                lines: 3,
                seed: 43,
            },
            Action::JjGitFetch,
            Action::RenameFile { from: 1, to: 3 },
            Action::JjNew,
            Action::Append {
                file: 5,
                lines: 1,
                seed: 230,
            },
            Action::Write {
                file: 0,
                lines: 8,
                seed: 105,
            },
            Action::JjRebase { nth: 1 },
            Action::RemoteCommit {
                file: 5,
                lines: 2,
                seed: 82,
            },
            Action::JjEditPrior { nth: 5 },
            Action::JjNewMerge { nth: 2 },
            Action::JjGitFetch,
            Action::Append {
                file: 1,
                lines: 4,
                seed: 50,
            },
            Action::JjNewMerge { nth: 3 },
            Action::RenameFile { from: 1, to: 5 },
        ],
        Delivery::Perfect,
    );
}

#[test]
fn soak10_touch_in_conflict_after_triple_merge_no_phantom() {
    replay(
        &[
            Action::JjNew,
            Action::Write {
                file: 3,
                lines: 3,
                seed: 0,
            },
            Action::JjEditPrior { nth: 0 },
            Action::JjUndo,
            Action::Write {
                file: 5,
                lines: 1,
                seed: 0,
            },
            Action::RemoteCommit {
                file: 0,
                lines: 1,
                seed: 0,
            },
            Action::JjDescribe { seed: 167 },
            Action::JjNew,
            Action::Append {
                file: 5,
                lines: 1,
                seed: 230,
            },
            Action::JjRebase { nth: 1 },
            Action::RemoteCommit {
                file: 5,
                lines: 2,
                seed: 82,
            },
            Action::JjEditPrior { nth: 5 },
            Action::JjNewMerge { nth: 2 },
            Action::JjGitFetch,
            Action::JjNewMerge { nth: 2 },
            Action::Write {
                file: 3,
                lines: 1,
                seed: 38,
            },
            Action::JjNewMerge { nth: 3 },
            Action::Touch {
                file: 3,
                line: 51,
                seed: 78,
            },
        ],
        Delivery::Perfect,
    );
}

#[test]
fn soak9_zero_line_file_alongside_edit_after_double_merge() {
    replay(
        &[
            Action::RemoteCommit {
                file: 3,
                lines: 1,
                seed: 0,
            },
            Action::Write {
                file: 3,
                lines: 1,
                seed: 1,
            },
            Action::JjGitFetch,
            Action::JjNewMerge { nth: 0 },
            Action::JjNewMerge { nth: 0 },
            Action::JjSplit { file: 1 },
            Action::JjSplit { file: 5 },
            Action::Write {
                file: 0,
                lines: 3,
                seed: 43,
            },
            Action::JjGitFetch,
            Action::Write {
                file: 0,
                lines: 8,
                seed: 105,
            },
            Action::JjNewMerge { nth: 2 },
            Action::JjNewOnRemote,
            Action::Write {
                file: 0,
                lines: 6,
                seed: 252,
            },
            Action::JjNewMerge { nth: 0 },
            Action::Write {
                file: 3,
                lines: 3,
                seed: 244,
            },
        ],
        Delivery::Perfect,
    );
}

#[test]
fn soak8_marker_style_change_between_snapshots() {
    replay(
        &[
            Action::Write {
                file: 4,
                lines: 6,
                seed: 195,
            },
            Action::JjCommit,
            Action::JjNew,
            Action::SetMarkerStyle { style: 2 },
            Action::Write {
                file: 4,
                lines: 3,
                seed: 105,
            },
            Action::JjNew,
            Action::JjNew,
            Action::JjEditPrior { nth: 2 },
            Action::JjSquash,
            Action::RenameFile { from: 4, to: 0 },
            Action::JjSquash,
            Action::JjEditPrior { nth: 0 },
            Action::JjNew,
            Action::JjCommit,
            Action::JjNew,
            Action::Write {
                file: 0,
                lines: 10,
                seed: 231,
            },
            Action::JjCommit,
            Action::Write {
                file: 0,
                lines: 4,
                seed: 43,
            },
            Action::JjEditPrior { nth: 3 },
            Action::Write {
                file: 4,
                lines: 9,
                seed: 133,
            },
            Action::SetMarkerStyle { style: 0 },
            Action::Write {
                file: 4,
                lines: 1,
                seed: 73,
            },
            Action::Append {
                file: 4,
                lines: 1,
                seed: 212,
            },
        ],
        Delivery::Perfect,
    );
}

#[test]
fn soak8_rewritten_target_unpairs_and_resurrects_delete() {
    replay(
        &[
            Action::Write {
                file: 1,
                lines: 1,
                seed: 0,
            },
            Action::Delete { file: 1 },
            Action::JjUndo,
            Action::JjNew,
            Action::RenameFile { from: 1, to: 0 },
            Action::Write {
                file: 0,
                lines: 1,
                seed: 0,
            },
        ],
        Delivery::Perfect,
    );
}

#[test]
fn soak7_recreated_source_different_content_plain_add() {
    replay(
        &[
            Action::Write {
                file: 5,
                lines: 1,
                seed: 0,
            },
            Action::JjNew,
            Action::RenameFile { from: 5, to: 0 },
            Action::Write {
                file: 5,
                lines: 1,
                seed: 1,
            },
        ],
        Delivery::Perfect,
    );
}

#[test]
fn soak6_copy_detection_after_restore_and_append() {
    replay(
        &[
            Action::Write {
                file: 0,
                lines: 1,
                seed: 0,
            },
            Action::Delete { file: 4 },
            Action::JjSplit { file: 1 },
            Action::RemoteCommit {
                file: 2,
                lines: 1,
                seed: 175,
            },
            Action::Write {
                file: 2,
                lines: 3,
                seed: 38,
            },
            Action::JjCommit,
            Action::JjRebase { nth: 6 },
            Action::JjNewMerge { nth: 2 },
            Action::JjNew,
            Action::JjGitFetch,
            Action::JjSquash,
            Action::MoveDir,
            Action::JjRestoreFile { file: 2 },
            Action::Append {
                file: 2,
                lines: 2,
                seed: 202,
            },
        ],
        Delivery::Perfect,
    );
}

#[test]
fn soak6_movedir_after_rebase_merge_not_paired() {
    replay(
        &[
            Action::Write {
                file: 0,
                lines: 1,
                seed: 0,
            },
            Action::JjNew,
            Action::JjSplit { file: 0 },
            Action::JjRestoreAll,
            Action::Write {
                file: 2,
                lines: 1,
                seed: 0,
            },
            Action::JjNew,
            Action::Write {
                file: 2,
                lines: 1,
                seed: 1,
            },
            Action::JjRebase { nth: 1 },
            Action::JjNewMerge { nth: 0 },
            Action::MoveDir,
        ],
        Delivery::Perfect,
    );
}

#[test]
fn soak6_ignored_source_recreation_keeps_rename() {
    replay(
        &[
            Action::Write {
                file: 3,
                lines: 1,
                seed: 0,
            },
            Action::JjNew,
            Action::WriteGitignore { variant: 1 },
            Action::MoveDir,
            Action::JjGitFetch,
            Action::Write {
                file: 3,
                lines: 1,
                seed: 0,
            },
        ],
        Delivery::Lossy,
    );
}

#[test]
fn soak5_movedir_conflicted_file_not_paired() {
    replay(
        &[
            Action::RemoteCommit {
                file: 2,
                lines: 1,
                seed: 0,
            },
            Action::JjGitFetch,
            Action::Write {
                file: 0,
                lines: 1,
                seed: 0,
            },
            Action::Append {
                file: 0,
                lines: 1,
                seed: 173,
            },
            Action::Write {
                file: 2,
                lines: 6,
                seed: 168,
            },
            Action::JjNewMerge { nth: 2 },
            Action::MoveDir,
        ],
        Delivery::Perfect,
    );
}

#[test]
fn soak5_movedir_conflicted_file_not_paired_small() {
    replay(
        &[
            Action::RemoteCommit {
                file: 2,
                lines: 1,
                seed: 0,
            },
            Action::JjGitFetch,
            Action::Write {
                file: 0,
                lines: 1,
                seed: 0,
            },
            Action::Write {
                file: 0,
                lines: 1,
                seed: 0,
            },
            Action::Write {
                file: 2,
                lines: 1,
                seed: 1,
            },
            Action::JjNewMerge { nth: 0 },
            Action::MoveDir,
        ],
        Delivery::Perfect,
    );
}

#[test]
fn soak4_zero_line_entry_survives_incremental_rediff() {
    replay(
        &[
            Action::RemoteCommit {
                file: 2,
                lines: 1,
                seed: 0,
            },
            Action::JjGitFetch,
            Action::Write {
                file: 2,
                lines: 1,
                seed: 0,
            },
            Action::JjNew,
            Action::Append {
                file: 2,
                lines: 1,
                seed: 3,
            },
            Action::JjEditPrior { nth: 4 },
            Action::JjAbandon,
            Action::JjNew,
            Action::JjCommit,
            Action::Write {
                file: 2,
                lines: 4,
                seed: 22,
            },
            Action::JjNewOnRemote,
            Action::JjNewMerge { nth: 3 },
            Action::Write {
                file: 5,
                lines: 9,
                seed: 66,
            },
            Action::JjCommit,
            Action::JjNew,
            Action::Touch {
                file: 5,
                line: 251,
                seed: 212,
            },
            Action::JjRebase { nth: 6 },
        ],
        Delivery::Perfect,
    );
}

#[test]
fn soak4_movedir_source_in_both_merge_parents() {
    replay(
        &[
            Action::RemoteCommit {
                file: 2,
                lines: 1,
                seed: 0,
            },
            Action::JjGitFetch,
            Action::Write {
                file: 0,
                lines: 1,
                seed: 0,
            },
            Action::Write {
                file: 0,
                lines: 1,
                seed: 0,
            },
            Action::Write {
                file: 2,
                lines: 1,
                seed: 0,
            },
            Action::JjNewMerge { nth: 0 },
            Action::MoveDir,
        ],
        Delivery::Perfect,
    );
}

#[test]
fn rename_then_edit_target() {
    replay(
        &[
            Action::Write {
                file: 0,
                lines: 11,
                seed: 7,
            },
            Action::JjNew,
            Action::RenameFile { from: 0, to: 1 },
            Action::Touch {
                file: 1,
                line: 5,
                seed: 9,
            },
        ],
        Delivery::Perfect,
    );
}

#[test]
fn exec_bit_only_change_parity() {
    replay(
        &[
            Action::Write {
                file: 4,
                lines: 3,
                seed: 1,
            },
            Action::JjCommit,
            Action::SetExecBit { file: 4, on: true },
            Action::SetExecBit { file: 4, on: false },
            Action::SetExecBit { file: 4, on: true },
            Action::Append {
                file: 4,
                lines: 2,
                seed: 7,
            },
            Action::JjNew,
            Action::SetExecBit { file: 4, on: false },
        ],
        Delivery::Perfect,
    );
}

#[test]
fn stale_then_update_stale_restores_parity() {
    replay(
        &[
            Action::Write {
                file: 0,
                lines: 3,
                seed: 1,
            },
            Action::JjCommit,
            Action::WorkspaceAdd,
            Action::Write {
                file: 0,
                lines: 2,
                seed: 9,
            },
            Action::WorkspaceOp {
                file: 1,
                lines: 2,
                seed: 3,
            },
            Action::RewriteWatchedWsAncestor { file: 0, nth: 0 },
            Action::Append {
                file: 0,
                lines: 1,
                seed: 5,
            },
            Action::WorkspaceUpdateStale,
            Action::Write {
                file: 2,
                lines: 1,
                seed: 4,
            },
        ],
        Delivery::Perfect,
    );
}

#[test]
fn workspace_op_stales_entangled_watched_ws() {
    replay(
        &[
            Action::Write {
                file: 0,
                lines: 1,
                seed: 0,
            },
            Action::JjCommit,
            Action::WorkspaceAdd,
            Action::JjNewMerge { nth: 0 },
            Action::WorkspaceOp {
                file: 1,
                lines: 2,
                seed: 7,
            },
            Action::SetMarkerStyle { style: 0 },
            Action::WorkspaceUpdateStale,
            Action::Write {
                file: 2,
                lines: 1,
                seed: 3,
            },
        ],
        Delivery::Perfect,
    );
}

#[test]
fn lossy_rename_and_edit_converges_via_copy_records() {
    replay(
        &[
            Action::Write {
                file: 0,
                lines: 11,
                seed: 7,
            },
            Action::JjNew,
            Action::RenameFile { from: 0, to: 1 },
            Action::Touch {
                file: 1,
                line: 5,
                seed: 9,
            },
        ],
        Delivery::Lossy,
    );
}

/// A generator of sequences of actions.
struct Dice {
    state: u64,
}

impl Dice {
    fn roll(&mut self, sides: u64) -> u64 {
        self.state = self.state.wrapping_mul(6364136223846793005).wrapping_add(1442695040888963407);
        (self.state >> 33) % sides
    }

    fn file(&mut self) -> usize {
        self.roll(POOL.len() as u64) as usize
    }

    fn byte(&mut self, from: u64, to: u64) -> u8 {
        (from + self.roll(to - from)) as u8
    }

    /// An action that shows at once in perfect mode.
    fn safe_action(&mut self) -> Action {
        match self.roll(51) {
            0..6 => Action::Write { file: self.file(), lines: self.byte(1, 12), seed: self.byte(0, 256) },
            6..10 => Action::Append { file: self.file(), lines: self.byte(1, 6), seed: self.byte(0, 256) },
            10..14 => Action::Touch { file: self.file(), line: self.byte(0, 256), seed: self.byte(0, 256) },
            14..16 => Action::Delete { file: self.file() },
            16..18 => Action::JjNew,
            18..20 => Action::JjCommit,
            20 => Action::JjDescribe { seed: self.byte(0, 256) },
            21 => Action::JjAbandon,
            22 => Action::JjSquash,
            23 => Action::JjUndo,
            24 => Action::JjEditPrior { nth: self.byte(0, 6) },
            25 => Action::JjRestoreAll,
            26 => Action::JjRestoreFile { file: self.file() },
            27..29 => Action::RenameFile { from: self.file(), to: self.file() },
            29 => Action::MoveDir,
            30 => Action::JjSplit { file: self.file() },
            31 => Action::JjRebase { nth: self.byte(0, 8) },
            32 => Action::JjNewMerge { nth: self.byte(0, 4) },
            33 => Action::SetMarkerStyle { style: self.byte(0, 3) },
            34..36 => Action::RemoteCommit { file: self.file(), lines: self.byte(1, 8), seed: self.byte(0, 256) },
            36..38 => Action::JjGitFetch,
            38 => Action::JjNewOnRemote,
            39..41 => Action::SetExecBit { file: self.file(), on: self.roll(2) == 0 },
            41..43 => Action::WorkspaceAdd,
            43..45 => Action::WorkspaceOp { file: self.file(), lines: self.byte(1, 6), seed: self.byte(0, 256) },
            45 => Action::RewriteOtherWsAncestor { file: self.file() },
            46..48 => Action::RewriteWatchedWsAncestor { file: self.file(), nth: self.byte(0, 6) },
            48..50 => Action::WorkspaceUpdateStale,
            _ => Action::WorkspaceForget,
        }
    }

    /// Any action: also changes of the ignore rules, and lost events.
    fn lossy_action(&mut self) -> Action {
        match self.roll(16) {
            0..12 => self.safe_action(),
            12 => Action::WriteGitignore { variant: self.byte(0, 4) },
            13 => Action::DeleteGitignore,
            _ => Action::DropPendingEvents,
        }
    }
}

fn run_random(first_seed: u64, sequences: u64, delivery: Delivery) {
    let (shortest, longest) = seq_len(None);
    for seed in first_seed..first_seed + sequences {
        let mut dice = Dice { state: seed.wrapping_mul(7919) };
        let len = shortest + dice.roll((longest - shortest) as u64) as usize;
        let actions: Vec<Action> = (0..len)
            .map(|_| match delivery {
                Delivery::Perfect => dice.safe_action(),
                Delivery::Lossy => dice.lossy_action(),
            })
            .collect();
        if let Err(message) = run_sequence(&actions, delivery) {
            panic!("{message}\nin {actions:?}");
        }
    }
}

#[test]
fn random_sequences_match_after_every_action() {
    run_random(0, 30, Delivery::Perfect);
}

#[test]
fn random_lossy_sequences_converge() {
    run_random(0, 30, Delivery::Lossy);
}


/// A repo with files that a test writes.
impl Harness {
    fn write(&mut self, path: &str, content: &str) {
        self.world.watched.disk.insert(path.to_string(), (false, content.as_bytes().to_vec()));
    }

    fn run(&mut self, args: &[&str]) {
        let args: Vec<String> = args.iter().map(|s| s.to_string()).collect();
        assert!(self.world.jj(&args));
    }

    fn snapshot(&mut self) {
        assert!(self.world.watched.snapshot(&mut self.world.repo));
    }

    /// The id of the parent of the working-copy commit.
    fn parent(&self) -> String {
        self.world.wc().parent_ids()[0].hex()
    }

    fn full_refresh(&mut self) -> RepoStatus {
        self.engine.request(&self.world, JjWorkerRequest::FullRefresh { repo_path: ROOT.to_string() })
    }

    fn update(&mut self, paths: &[&str]) -> RepoStatus {
        let changed_paths = paths.iter().map(|path| abs(path)).collect();
        let request = JjWorkerRequest::IncrementalUpdate { repo_path: ROOT.to_string(), changed_paths };
        self.engine.request(&self.world, request)
    }

    fn validate(&mut self, paths: &[&str]) -> RepoStatus {
        let changed_paths = paths.iter().map(|path| abs(path)).collect();
        let request = JjWorkerRequest::ValidateAndRefresh { repo_path: ROOT.to_string(), changed_paths };
        self.engine.request(&self.world, request)
    }
}

fn numbers(status: &RepoStatus) -> (u32, u32, u32) {
    (
        status.file_mad_count_working_tree,
        status.lines_added_working_tree,
        status.lines_removed_working_tree,
    )
}

#[test]
fn test_empty_repo() {
    let status = Harness::new(Delivery::Perfect).full_refresh();
    assert!(!status.change_id.is_empty());
    assert!(!status.commit_id.is_empty());
    assert!(status.empty);
}

#[test]
fn test_with_description() {
    let mut h = Harness::new(Delivery::Perfect);
    h.run(&["describe", "-m", "hello world"]);
    assert_eq!(h.full_refresh().description, "hello world");
}

#[test]
fn test_diff_stats() {
    let mut h = Harness::new(Delivery::Perfect);
    h.write("test.txt", "hello\nworld\n");
    h.snapshot();
    let status = h.full_refresh();
    assert!(status.file_mad_count_working_tree >= 1);
    assert!(status.lines_added_working_tree > 0);
    assert_eq!(status.file_mad_count, status.file_mad_count_working_tree);
    assert_eq!(status.lines_added_total, status.lines_added_working_tree);
    assert_eq!(status.lines_removed_total, status.lines_removed_working_tree);
    assert_eq!(status.staged_files_changed, 0);
}

fn lines(list: &[String]) -> String {
    list.join("\n") + "\n"
}

#[test]
fn test_diff_stats_match_jj_cli() {
    let mut h = Harness::new(Delivery::Perfect);
    let main: Vec<String> = (1..=20).map(|i| format!("fn line_{i}() {{}}")).collect();
    h.write("src/main.rs", &lines(&main));
    h.write("src/lib.rs", &lines(&(1..=15).map(|i| format!("pub fn lib_{i}() {{}}")).collect::<Vec<_>>()));
    h.write("README.md", &lines(&(1..=10).map(|i| format!("# Section {i}")).collect::<Vec<_>>()));
    let config = |one: &str, three: &str| {
        format!("key1 = \"{one}\"\nkey2 = \"val2\"\nkey3 = \"{three}\"\nkey4 = \"val4\"\nkey5 = \"val5\"\n")
    };
    h.write("config.toml", &config("val1", "val3"));
    let tests: Vec<String> = (1..=12).map(|i| format!("#[test] fn test_{i}() {{}}")).collect();
    h.write("tests/test_basic.rs", &lines(&tests));
    h.run(&["new"]);

    h.write("src/utils.rs", &lines(&(1..=8).map(|i| format!("pub fn util_{i}() {{}}")).collect::<Vec<_>>()));
    h.world.watched.disk.remove("tests/test_basic.rs");
    let mut main = main;
    for i in 5..=7 {
        main[i - 1] = format!("fn modified_{i}() {{ /* changed */ }}");
    }
    for i in 21..=24 {
        main.push(format!("fn added_{i}() {{}}"));
    }
    h.write("src/main.rs", &lines(&main));
    let mut readme: Vec<String> = (1..=7).map(|i| format!("# Section {i}")).collect();
    for name in ["A", "B", "C", "D", "E"] {
        readme.push(format!("# New Section {name}"));
    }
    h.write("README.md", &lines(&readme));
    h.write("config.toml", &config("changed1", "changed3"));
    let expected = h.world.diff_stat().unwrap();
    assert_eq!(numbers(&h.full_refresh()), expected);
    assert_eq!(expected, (5, 22, 20));
}

#[test]
fn test_diff_stats_match_jj_cli_single_file_complex() {
    let mut h = Harness::new(Delivery::Perfect);
    h.write("big.txt", &lines(&(1..=50).map(|i| format!("original line {i}")).collect::<Vec<_>>()));
    h.run(&["new"]);
    let mut changed: Vec<String> = Vec::new();
    for i in 1..=50 {
        match i {
            5..=8 | 45..=50 => {}
            15..=17 => changed.push(format!("changed line {i}")),
            30 => {
                changed.push(format!("original line {i}"));
                for j in 1..=6 {
                    changed.push(format!("inserted line {j}"));
                }
            }
            _ => changed.push(format!("original line {i}")),
        }
    }
    h.write("big.txt", &lines(&changed));
    let expected = h.world.diff_stat().unwrap();
    assert_eq!(numbers(&h.full_refresh()), expected);
    assert_eq!(expected, (1, 9, 13));
}

#[test]
fn test_diff_stats_match_jj_cli_tricky_content() {
    let mut h = Harness::new(Delivery::Perfect);
    h.write("shrink.txt", "aaa\nbbb\nccc\nddd\neee\n");
    let repetitive = |i: usize| {
        if i % 3 == 0 {
            "repeated pattern\n".to_string()
        } else {
            format!("unique line {i}\n")
        }
    };
    h.write("repetitive.txt", &(1..=20).map(repetitive).collect::<String>());
    h.write("rewrite.txt", &(1..=10).map(|i| format!("before {i}\n")).collect::<String>());
    h.run(&["new"]);
    h.write("shrink.txt", "");
    let modified = |i: usize| match i {
        3 => "different pattern\n".to_string(),
        6 => "another pattern\n".to_string(),
        7 => "changed unique 7\n".to_string(),
        13 => "changed unique 13\n".to_string(),
        _ => repetitive(i),
    };
    h.write("repetitive.txt", &(1..=20).map(modified).collect::<String>());
    h.write("rewrite.txt", &(1..=12).map(|i| format!("after {i}\n")).collect::<String>());
    h.write("brand_new.txt", "new1\nnew2\nnew3\n");
    let expected = h.world.diff_stat().unwrap();
    assert_eq!(numbers(&h.full_refresh()), expected);
}

#[test]
fn test_incremental_diff_new_file() {
    let mut h = Harness::new(Delivery::Perfect);
    let status = h.full_refresh();
    assert!(status.empty, "should be empty initially");
    assert_eq!(status.file_mad_count_working_tree, 0);
    h.write("hello.txt", "line1\nline2\nline3\n");
    let status = h.update(&["hello.txt"]);
    assert_eq!(numbers(&status), (1, 3, 0));
    assert!(!status.empty, "should not be empty after file write");
}

#[test]
fn test_incremental_diff_modify_file() {
    let mut h = Harness::new(Delivery::Perfect);
    h.write("data.txt", "aaa\nbbb\nccc\n");
    h.snapshot();
    assert_eq!(numbers(&h.full_refresh()), (1, 3, 0));
    h.write("data.txt", "aaa\nbbb\nccc\nddd\n");
    assert_eq!(numbers(&h.update(&["data.txt"])), (1, 4, 0));
}

#[test]
fn test_incremental_diff_delete_file() {
    let mut h = Harness::new(Delivery::Perfect);
    h.write("to_delete.txt", "x\ny\nz\n");
    h.run(&["new"]);
    assert!(h.full_refresh().empty, "new commit should be empty");
    h.world.watched.disk.remove("to_delete.txt");
    assert_eq!(numbers(&h.update(&["to_delete.txt"])), (1, 0, 3));
}

#[test]
fn test_validate_refresh_jj_describe_preserves_overlay() {
    let mut h = Harness::new(Delivery::Perfect);
    h.write("file.txt", "line1\nline2\n");
    h.snapshot();
    assert_eq!(numbers(&h.full_refresh()), (1, 2, 0));
    h.run(&["describe", "-m", "new description"]);
    let status = h.validate(&[]);
    assert_eq!(status.description, "new description");
    assert_eq!(numbers(&status), (1, 2, 0));
}

#[test]
fn test_validate_refresh_jj_new_triggers_full_refresh() {
    let mut h = Harness::new(Delivery::Perfect);
    h.write("file.txt", "line1\nline2\n");
    h.snapshot();
    let first = h.full_refresh();
    assert_eq!(numbers(&first), (1, 2, 0));
    h.run(&["new"]);
    let status = h.validate(&[]);
    assert_eq!(numbers(&status), (0, 0, 0));
    assert_ne!(status.change_id, first.change_id);
    assert!(status.empty, "new empty change should be empty");
}

#[test]
fn test_validate_refresh_jj_describe_with_wc_diffs() {
    let mut h = Harness::new(Delivery::Perfect);
    h.write("a.txt", "original\n");
    h.snapshot();
    assert_eq!(numbers(&h.full_refresh()), (1, 1, 0));
    h.write("a.txt", "original\nnew line\n");
    h.run(&["describe", "-m", "updated"]);
    let status = h.validate(&["a.txt"]);
    assert_eq!(status.description, "updated");
    assert_eq!(numbers(&status), (1, 2, 0));
}

#[test]
fn repro_stale_base_after_abandon_without_events() {
    let mut h = Harness::new(Delivery::Perfect);
    h.write("file.txt", "line1\nline2\n");
    h.snapshot();
    assert_eq!(numbers(&h.full_refresh()), (1, 2, 0));
    h.run(&["abandon"]);
    assert!(!h.world.watched.disk.contains_key("file.txt"), "abandon should remove the file");
    assert_eq!(numbers(&h.validate(&[])), (0, 0, 0));
}

#[test]
fn repro_empty_added_file_not_counted() {
    let mut h = Harness::new(Delivery::Perfect);
    h.write("empty.txt", "");
    let expected = h.world.diff_stat().unwrap();
    assert_eq!(expected, (1, 0, 0));
    assert_eq!(numbers(&h.full_refresh()), expected);
}

/// A working copy on two commits that change the same line.
fn conflicted(style: JjStyle) -> Harness {
    let mut h = Harness::new(Delivery::Perfect);
    h.world.style = style;
    h.write("f.txt", "base\n");
    h.run(&["commit", "-m", "base"]);
    let base = h.parent();
    h.write("f.txt", "side-a\n");
    h.run(&["commit", "-m", "a"]);
    let a = h.parent();
    h.run(&["new", &base]);
    h.write("f.txt", "side-b\n");
    h.run(&["commit", "-m", "b"]);
    let b = h.parent();
    h.run(&["new", &a, &b]);
    h
}

#[test]
fn repro_conflicted_parent_counts_whole_file_as_added() {
    let mut h = conflicted(JjStyle::Diff);
    let full = h.full_refresh();
    assert!(full.conflict);
    assert_eq!(numbers(&h.update(&["f.txt"])), numbers(&full));
}

#[test]
fn test_conflict_marker_style_config_respected() {
    let mut h = conflicted(JjStyle::Git);
    let disk = String::from_utf8(h.world.watched.disk["f.txt"].1.clone()).unwrap();
    assert!(disk.contains("<<<<<<<") && disk.contains("=======") && !disk.contains("%%%%%%%"));
    let full = h.full_refresh();
    assert_eq!(numbers(&h.update(&["f.txt"])), numbers(&full));
}

#[test]
fn repro_megamerge_single_leg_file_touch() {
    let mut h = Harness::new(Delivery::Perfect);
    h.write("a.txt", "a1\na2\na3\n");
    h.write("b.txt", "b1\nb2\nb3\n");
    h.run(&["commit", "-m", "base"]);
    let base = h.parent();
    h.write("a.txt", "a1\nA2-CHANGED\na3\n");
    h.run(&["commit", "-m", "leg-a"]);
    let a = h.parent();
    h.run(&["new", &base]);
    h.write("b.txt", "b1\nB2-CHANGED\nb3\n");
    h.run(&["commit", "-m", "leg-b"]);
    let b = h.parent();
    h.run(&["new", &a, &b]);
    h.full_refresh();
    assert_eq!(numbers(&h.update(&["a.txt"])), (0, 0, 0));
}

#[test]
fn test_resync_heals_stale_overlay_and_keeps_dirty_files() {
    let mut h = Harness::new(Delivery::Perfect);
    h.full_refresh();
    h.write("keep.txt", "a\nb\n");
    h.write("stale.txt", "x\ny\nz\n");
    assert_eq!(numbers(&h.update(&["keep.txt", "stale.txt"])), (2, 5, 0));
    h.world.watched.disk.remove("stale.txt");
    let status = h.engine.request(&h.world, JjWorkerRequest::Resync { repo_path: ROOT.to_string() });
    assert_eq!(numbers(&status), (1, 2, 0));
}

#[test]
fn test_retained_loader_sees_new_operations() {
    let mut h = Harness::new(Delivery::Perfect);
    let first = h.full_refresh();
    h.run(&["describe", "-m", "second op"]);
    assert_eq!(h.full_refresh().description, "second op");
    h.run(&["new"]);
    let third = h.full_refresh();
    assert_ne!(third.change_id, first.change_id);
    assert!(third.description.is_empty());
}

/// `old.txt` renamed to `new.txt`, and the target then rewritten.
fn rewritten_rename() -> Harness {
    let mut h = Harness::new(Delivery::Perfect);
    h.write("old.txt", "1\n2\n3\n4\n5\n6\n7\n8\n");
    h.run(&["new"]);
    let moved = h.world.watched.disk.remove("old.txt").unwrap();
    h.world.watched.disk.insert("new.txt".to_string(), moved);
    h.snapshot();
    assert_eq!(numbers(&h.full_refresh()), (1, 0, 0));
    h.write("new.txt", "x\ny\nz\n");
    h
}

#[test]
fn void_rename_gives_back_the_delete_in_any_order() {
    let batches: [&[&str]; 3] = [&["new.txt"], &["new.txt", "old.txt"], &["old.txt", "new.txt"]];
    for paths in batches {
        let mut h = rewritten_rename();
        assert_eq!(numbers(&h.update(paths)), (2, 3, 8));
        // The base still has the rename, which stays void.
        assert_eq!(numbers(&h.update(&["old.txt"])), (2, 3, 8));
        assert_eq!(numbers(&h.update(&["new.txt"])), (2, 3, 8));
        assert_eq!(h.world.diff_stat(), Some((2, 3, 8)));
    }
}

#[test]
fn standing_rename_hides_its_source() {
    let mut h = rewritten_rename();
    h.write("new.txt", "1\n2\n3\n4\n5\n6\n7\n8\n9\n");
    assert_eq!(numbers(&h.update(&["old.txt", "new.txt"])), (1, 1, 0));
    assert_eq!(numbers(&h.update(&["old.txt"])), (1, 1, 0));
    assert_eq!(h.world.diff_stat(), Some((1, 1, 0)));
}

#[test]
fn left_target_with_another_mode_is_a_changed_file() {
    let mut h = Harness::new(Delivery::Perfect);
    h.write("base.txt", "base\n");
    h.run(&["commit", "-m", "base"]);
    let base = h.parent();
    h.write("source.txt", "1\n2\n3\n4\n5\n6\n7\n8\n");
    h.run(&["commit", "-m", "a"]);
    let a = h.parent();
    h.run(&["new", &base]);
    h.write("target.txt", "x\ny\nz\n");
    h.run(&["commit", "-m", "b"]);
    let b = h.parent();
    h.run(&["new", &a, &b]);
    let source = h.world.watched.disk.remove("source.txt").unwrap();
    let target = h.world.watched.disk.insert("target.txt".to_string(), source.clone()).unwrap();
    h.snapshot();
    assert_eq!(numbers(&h.full_refresh()), (1, 0, 0));
    h.world.watched.disk.insert("source.txt".to_string(), source);
    h.world.watched.disk.insert("target.txt".to_string(), (true, target.1));
    assert_eq!(numbers(&h.update(&["source.txt"])), (1, 0, 0));
    assert_eq!(h.world.diff_stat(), Some((1, 0, 0)));
}

#[test]
fn batches_keep_up_with_full_diffs() {
    let mut h = Harness::new(Delivery::Perfect);
    h.write("a.txt", "1\n2\n3\n4\n");
    h.write("b.txt", "x\ny\n");
    h.run(&["new"]);
    assert!(h.full_refresh().empty);
    h.write("a.txt", "1\n2\n4\n");
    assert_eq!(numbers(&h.update(&["a.txt"])), (1, 0, 1));
    h.world.watched.disk.remove("b.txt");
    assert_eq!(numbers(&h.update(&["b.txt"])), (2, 0, 3));
    h.write("c.txt", "new\n");
    assert_eq!(numbers(&h.update(&["c.txt"])), (3, 1, 3));
    h.write("a.txt", "1\n2\n3\n4\n");
    assert_eq!(numbers(&h.update(&["a.txt"])), (2, 1, 2));
    assert_eq!(h.world.diff_stat(), Some((2, 1, 2)));
}
