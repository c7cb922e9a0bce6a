//! The worker of a repo: what it does for a request, step by step.
//!
//! The worker decides; loading the repo, computing a full diff and working off changed
//! paths are done for it, and it is told how that went.

use crate::aggregate::counts_of;
use crate::by_dir::{aggregate_overlay_stats_by_dir, dir_names, dir_stats, is_dir, IncrementalDiffStats};
use crate::conflicts::contents_view;
use crate::paths::{join, joined};
use crate::repo_state::JjRepoState;
use crate::staging::lemma_views_push;
use crate::status::{update_base_status_metadata, with_counts, with_metadata, RepoStatus, StatusView};
use crate::strings::{bytes_eq, is_sorted, views};
use crate::text::u32_of;
use crate::wc::contents_eq;
use vstd::prelude::*;

verus! {

/// Requests that can be sent to the worker of a repo.
pub enum JjWorkerRequest {
    /// Full refresh: reload workspace/repo, compute all status fields.
    FullRefresh { repo_path: String },
    /// Validate baseline and refresh: reload workspace/repo, check if parent tree changed.
    /// If unchanged, do metadata-only update (and optional incremental diffs). If changed,
    /// fall through to full refresh.
    ValidateAndRefresh { repo_path: String, changed_paths: Vec<String> },
    /// Incremental update: diff specific working copy files against parent tree.
    IncrementalUpdate { repo_path: String, changed_paths: Vec<String> },
    /// Full resync after watcher event loss: rebuild all state from the store, then
    /// re-diff previously-known dirty files so unsnapshotted edits aren't forgotten.
    Resync { repo_path: String },
    /// Query current overlay stats.
    QueryOverlayStats,
    /// Query per-directory overlay stats.
    QueryOverlayStatsVerbose,
    /// Drop the retained state and the worker.
    Forget { repo_path: String },
}

/// What a request is after.
pub enum Goal {
    /// A full refresh.
    Full,
    /// A refresh that keeps the state where the trees have not changed; then, or after a
    /// full refresh, the given paths are worked off.
    Validate(Vec<String>),
    /// A full refresh after which the given paths are worked off.
    Resync(Vec<String>),
}

/// Where a worker is with a request.
pub enum Step {
    Idle,
    /// The repo is being loaded, through the retained loader or from scratch.
    Loading { goal: Goal, retained: bool },
    /// The full diff is being computed, on a repo loaded through the retained loader or
    /// from scratch.
    Computing { goal: Goal, retained: bool },
    /// Known dirty files are being worked off, before the metadata and the given paths.
    Rediffing { metadata: RepoStatus, changed: Vec<String> },
    /// Changed paths are being worked off.
    Applying,
}

/// What a worker wants done.
pub enum Action {
    /// Load the repo: through the retained loader, or from scratch, keeping the loader.
    Load { retained: bool },
    /// Compute the full status of the loaded repo.
    ComputeFull,
    /// Work off changed paths on the retained state.
    Apply(Vec<String>),
    ReplyStatus(RepoStatus),
    ReplyError(String),
    ReplyStats(Vec<(String, IncrementalDiffStats)>),
    ReplyVerbose(Vec<(String, Vec<(String, IncrementalDiffStats)>)>),
    Stop,
}

/// What a loaded repo says.
pub struct LoadedInfo {
    /// Tree ids of the parent tree, of the commit where it failed to load.
    pub parent_tree_ids: Vec<Vec<u8>>,
    pub commit_tree_ids: Vec<Vec<u8>>,
    /// The tree of each parent that copies are looked for in.
    pub copy_tree_ids: Vec<Vec<u8>>,
    pub op_id: Vec<u8>,
    /// The status without diff stats.
    pub metadata: RepoStatus,
}

/// How it went.
pub enum Event {
    Loaded(LoadedInfo),
    LoadFailed(String),
    Computed(RepoStatus, JjRepoState),
    ComputeFailed(String),
    Applied,
}

/// A worker and what it retains.
pub struct Worker {
    /// The path of the repo as requests name it.
    pub repo_path: Option<String>,
    pub state: Option<JjRepoState>,
    /// Whether a workspace loader is retained.
    pub has_loader: bool,
    pub step: Step,
}

/// The overlay's paths below the root: what is believed to be dirty.
pub open spec fn dirty_paths(state: JjRepoState) -> Seq<Seq<char>> {
    state.diff.overlay.paths().map_values(|path: Seq<char>| joined(state.repo_root@, path))
}

/// Neither the parent tree, nor the tree of the working-copy commit, nor any tree that
/// copies are looked for in has changed.
pub open spec fn trees_unchanged(state: JjRepoState, loaded: LoadedInfo) -> bool {
    &&& contents_view(loaded.parent_tree_ids@) == contents_view(state.parent_tree_ids@)
    &&& contents_view(loaded.copy_tree_ids@) == contents_view(state.copy_tree_ids@)
    &&& contents_view(loaded.commit_tree_ids@) == state.diff@.terms
}

/// The state with its metadata brought up to date, and nothing else.
pub open spec fn only_metadata(before: JjRepoState, after: JjRepoState, metadata: StatusView) -> bool {
    &&& after.base_status@ == with_metadata(before.base_status@, metadata)
    &&& after.diff == before.diff
    &&& after.parent_tree_ids == before.parent_tree_ids
    &&& after.copy_tree_ids == before.copy_tree_ids
    &&& after.repo_root == before.repo_root
}

/// The stats of a state.
pub open spec fn stats_of(state: JjRepoState, stats: IncrementalDiffStats) -> bool {
    &&& stats.base_files == u32_of(state.diff@.base.dom().len())
    &&& stats.overlay_entries == u32_of(state.diff@.overlay.dom().len())
    &&& stats.files_changed == counts_of(state.files()).file_mad_count
    &&& stats.lines_added == counts_of(state.files()).lines_added
    &&& stats.lines_removed == counts_of(state.files()).lines_removed
}

/// The stats of the directories of a state.
pub open spec fn dirs_of(state: JjRepoState, list: Seq<(String, IncrementalDiffStats)>) -> bool {
    &&& is_sorted(dir_names(list))
    &&& dir_names(list).no_duplicates()
    &&& forall|dir: Seq<char>| #[trigger]
        dir_names(list).contains(dir) <==> is_dir(state.diff@.base.dom() + state.diff@.overlay.dom(), dir)
    &&& forall|i: int|
        0 <= i < list.len() ==> (#[trigger] list[i]).1 == dir_stats(state.diff@.base, state.diff@.overlay, list[i].0@)
}

/// What a worker does for a request when it is idle.
pub open spec fn answers_request(before: Worker, request: JjWorkerRequest, after: Worker, action: Action) -> bool {
    match request {
        JjWorkerRequest::FullRefresh { repo_path } => {
            &&& after == (Worker {
                repo_path: Some(repo_path),
                step: Step::Loading { goal: Goal::Full, retained: before.has_loader },
                ..before
            })
            &&& action == (Action::Load { retained: before.has_loader })
        },
        JjWorkerRequest::ValidateAndRefresh { repo_path, changed_paths } => {
            &&& after == (Worker {
                repo_path: Some(repo_path),
                step: Step::Loading {
                    goal: if before.state is Some {
                        Goal::Validate(changed_paths)
                    } else {
                        Goal::Full
                    },
                    retained: before.has_loader,
                },
                ..before
            })
            &&& action == (Action::Load { retained: before.has_loader })
        },
        JjWorkerRequest::IncrementalUpdate { repo_path, changed_paths } => {
            if before.state is Some {
                &&& after == (Worker { repo_path: Some(repo_path), step: Step::Applying, ..before })
                &&& action == Action::Apply(changed_paths)
            } else {
                &&& after == (Worker { repo_path: Some(repo_path), step: Step::Idle, ..before })
                &&& action is ReplyError
                &&& action->ReplyError_0@ == "no incremental state for repo"@
            }
        },
        JjWorkerRequest::Resync { repo_path } => {
            &&& after.repo_path == Some(repo_path)
            &&& after.state == before.state
            &&& !after.has_loader
            &&& after.step is Loading
            &&& !after.step->Loading_retained
            &&& after.step->Loading_goal is Resync
            &&& views(after.step->Loading_goal->Resync_0@) == match before.state {
                Some(state) => dirty_paths(state),
                None => Seq::empty(),
            }
            &&& action == (Action::Load { retained: false })
        },
        JjWorkerRequest::QueryOverlayStats => {
            &&& after == (Worker { step: Step::Idle, ..before })
            &&& action is ReplyStats
            &&& match (before.repo_path, before.state) {
                (Some(path), Some(state)) => {
                    &&& action->ReplyStats_0@.len() == 1
                    &&& action->ReplyStats_0@[0].0@ == path@
                    &&& stats_of(state, action->ReplyStats_0@[0].1)
                },
                _ => action->ReplyStats_0@.len() == 0,
            }
        },
        JjWorkerRequest::QueryOverlayStatsVerbose => {
            &&& after == (Worker { step: Step::Idle, ..before })
            &&& action is ReplyVerbose
            &&& match (before.repo_path, before.state) {
                (Some(path), Some(state)) => {
                    &&& action->ReplyVerbose_0@.len() == 1
                    &&& action->ReplyVerbose_0@[0].0@ == path@
                    &&& dirs_of(state, action->ReplyVerbose_0@[0].1@)
                },
                _ => action->ReplyVerbose_0@.len() == 0,
            }
        },
        JjWorkerRequest::Forget { repo_path } => {
            &&& after == (Worker { step: Step::Idle, ..before })
            &&& action == Action::Stop
        },
    }
}

/// What a worker does once a repo has been loaded.
pub open spec fn takes_loaded(before: Worker, loaded: LoadedInfo, after: Worker, action: Action) -> bool {
    let retained = before.step->Loading_retained;
    let goal = before.step->Loading_goal;
    &&& after.repo_path == before.repo_path
    &&& after.has_loader
    &&& if goal is Validate && before.state is Some && trees_unchanged(before.state->0, loaded) {
        let changed = goal->Validate_0;
        if loaded.op_id@ == before.state->0.op_id@ {
            &&& after.state is Some
            &&& only_metadata(before.state->0, after.state->0, loaded.metadata@)
            &&& after.state->0.op_id@ == loaded.op_id@
            &&& after.step == Step::Applying
            &&& action == Action::Apply(changed)
        } else {
            &&& after.state == Some(JjRepoState { op_id: loaded.op_id, ..before.state->0 })
            &&& after.step == (Step::Rediffing { metadata: loaded.metadata, changed })
            &&& action is Apply
            &&& views(action->Apply_0@) == dirty_paths(before.state->0)
        }
    } else {
        &&& after.state == before.state
        &&& after.step == (Step::Computing { goal, retained })
        &&& action == Action::ComputeFull
    }
}

/// What a worker does when it is told how it went. What it did not wait for is an error of
/// its caller and ends the request.
pub open spec fn answers_event(before: Worker, event: Event, after: Worker, action: Action) -> bool {
    match (before.step, event) {
        (Step::Loading { goal, retained }, Event::Loaded(loaded)) => takes_loaded(before, loaded, after, action),
        (Step::Loading { goal, retained }, Event::LoadFailed(message)) => if retained {
            &&& after == (Worker { has_loader: false, step: Step::Loading { goal, retained: false }, ..before })
            &&& action == (Action::Load { retained: false })
        } else {
            &&& after == (Worker { step: Step::Idle, ..before })
            &&& action == Action::ReplyError(message)
        },
        (Step::Computing { goal, retained }, Event::Computed(status, state)) => {
            &&& after.repo_path == before.repo_path
            &&& after.has_loader == before.has_loader
            &&& after.state == Some(state)
            &&& match goal {
                Goal::Full => after.step == Step::Idle && action == Action::ReplyStatus(status),
                Goal::Validate(paths) => after.step == Step::Applying && action == Action::Apply(paths),
                Goal::Resync(paths) => after.step == Step::Applying && action == Action::Apply(paths),
            }
        },
        (Step::Computing { goal, retained }, Event::ComputeFailed(message)) => if retained {
            &&& after == (Worker { has_loader: false, step: Step::Loading { goal: retry_goal(goal), retained: false }, ..before })
            &&& action == (Action::Load { retained: false })
        } else {
            &&& after == (Worker { step: Step::Idle, ..before })
            &&& action == Action::ReplyError(message)
        },
        (Step::Rediffing { metadata, changed }, Event::Applied) => if before.state is Some {
            &&& after.repo_path == before.repo_path
            &&& after.has_loader == before.has_loader
            &&& after.state is Some
            &&& only_metadata(before.state->0, after.state->0, metadata@)
            &&& after.state->0.op_id == before.state->0.op_id
            &&& after.step == Step::Applying
            &&& action == Action::Apply(changed)
        } else {
            after == (Worker { step: Step::Idle, ..before }) && action is ReplyError
        },
        (Step::Applying, Event::Applied) => {
            &&& after == (Worker { step: Step::Idle, ..before })
            &&& match before.state {
                Some(state) => action is ReplyStatus && action->ReplyStatus_0@ == with_counts(
                    state.base_status@,
                    counts_of(state.files()),
                ),
                None => action is ReplyError,
            }
        },
        _ => after == (Worker { step: Step::Idle, ..before }) && action is ReplyError,
    }
}

/// What is loaded for when a full diff failed on a repo loaded through the retained
/// loader: a full refresh again, with the same paths to work off after it.
pub open spec fn retry_goal(goal: Goal) -> Goal {
    match goal {
        Goal::Full => Goal::Full,
        Goal::Validate(paths) => Goal::Resync(paths),
        Goal::Resync(paths) => Goal::Resync(paths),
    }
}

/// The overlay's paths below the root.
fn list_dirty(state: &JjRepoState) -> (r: Vec<String>)
    requires
        state.wf(),
    ensures
        views(r@) == dirty_paths(*state),
{
    let mut out: Vec<String> = Vec::new();
    let n: usize = state.diff.overlay.len();
    let ghost wanted = dirty_paths(*state);
    let mut i: usize = 0;
    assert(views(out@) =~= wanted.take(0));
    while i < n
        invariant
            state.wf(),
            i <= n == state.diff.overlay.paths().len(),
            wanted == dirty_paths(*state),
            wanted.len() == n,
            views(out@) == wanted.take(i as int),
        decreases n - i,
    {
        let path = join(state.repo_root.as_str(), state.diff.overlay.path_at(i).as_str());
        let ghost before = out@;
        out.push(path);
        proof {
            lemma_views_push(before, path);
            assert(wanted[i as int] == path@);
            assert(wanted.take(i + 1) =~= wanted.take(i as int).push(path@));
        }
        i += 1;
    }
    assert(wanted.take(i as int) =~= wanted);
    out
}

impl Worker {
    /// The retained state is in shape, and one that is being validated is there.
    pub open spec fn wf(&self) -> bool {
        self.state is Some ==> self.state->0.wf()
    }

    /// A worker that has done nothing yet.
    pub fn new() -> (r: Worker)
        ensures
            r.wf(),
            r == (Worker { repo_path: None, state: None, has_loader: false, step: Step::Idle }),
    {
        Worker { repo_path: None, state: None, has_loader: false, step: Step::Idle }
    }

    /// What to do for a request.
    pub fn on_request(self, request: JjWorkerRequest) -> (r: (Worker, Action))
        requires
            self.wf(),
        ensures
            r.0.wf(),
            answers_request(self, request, r.0, r.1),
    {
        let retained: bool = self.has_loader;
        match request {
            JjWorkerRequest::FullRefresh { repo_path } => (
                Worker {
                    repo_path: Some(repo_path),
                    state: self.state,
                    has_loader: retained,
                    step: Step::Loading { goal: Goal::Full, retained },
                },
                Action::Load { retained },
            ),
            JjWorkerRequest::ValidateAndRefresh { repo_path, changed_paths } => {
                let goal = if self.state.is_some() {
                    Goal::Validate(changed_paths)
                } else {
                    Goal::Full
                };
                (
                    Worker {
                        repo_path: Some(repo_path),
                        state: self.state,
                        has_loader: retained,
                        step: Step::Loading { goal, retained },
                    },
                    Action::Load { retained },
                )
            },
            JjWorkerRequest::IncrementalUpdate { repo_path, changed_paths } => {
                if self.state.is_some() {
                    (
                        Worker {
                            repo_path: Some(repo_path),
                            state: self.state,
                            has_loader: retained,
                            step: Step::Applying,
                        },
                        Action::Apply(changed_paths),
                    )
                } else {
                    (
                        Worker {
                            repo_path: Some(repo_path),
                            state: self.state,
                            has_loader: retained,
                            step: Step::Idle,
                        },
                        Action::ReplyError("no incremental state for repo".to_owned()),
                    )
                }
            },
            JjWorkerRequest::Resync { repo_path } => {
                let dirty = match &self.state {
                    Some(state) => list_dirty(state),
                    None => {
                        let none: Vec<String> = Vec::new();
                        assert(views(none@) =~= Seq::empty());
                        none
                    },
                };
                (
                    Worker {
                        repo_path: Some(repo_path),
                        state: self.state,
                        has_loader: false,
                        step: Step::Loading { goal: Goal::Resync(dirty), retained: false },
                    },
                    Action::Load { retained: false },
                )
            },
            JjWorkerRequest::QueryOverlayStats => {
                let mut stats: Vec<(String, IncrementalDiffStats)> = Vec::new();
                if let (Some(path), Some(state)) = (&self.repo_path, &self.state) {
                    stats.push((path.clone(), state.overlay_stats()));
                }
                (
                    Worker { repo_path: self.repo_path, state: self.state, has_loader: retained, step: Step::Idle },
                    Action::ReplyStats(stats),
                )
            },
            JjWorkerRequest::QueryOverlayStatsVerbose => {
                let mut stats: Vec<(String, Vec<(String, IncrementalDiffStats)>)> = Vec::new();
                if let (Some(path), Some(state)) = (&self.repo_path, &self.state) {
                    let dirs = aggregate_overlay_stats_by_dir(&state.diff.base_file_stats, &state.diff.overlay);
                    stats.push((path.clone(), dirs));
                }
                (
                    Worker { repo_path: self.repo_path, state: self.state, has_loader: retained, step: Step::Idle },
                    Action::ReplyVerbose(stats),
                )
            },
            JjWorkerRequest::Forget { repo_path } => (
                Worker { repo_path: self.repo_path, state: self.state, has_loader: retained, step: Step::Idle },
                Action::Stop,
            ),
        }
    }

    /// What to do once a repo has been loaded.
    fn on_loaded(
        repo_path: Option<String>,
        state: Option<JjRepoState>,
        goal: Goal,
        retained: bool,
        loaded: LoadedInfo,
        Ghost(before): Ghost<Worker>,
    ) -> (r: (Worker, Action))
        requires
            before.wf(),
            before.repo_path == repo_path,
            before.state == state,
            before.step == (Step::Loading { goal, retained }),
        ensures
            r.0.wf(),
            takes_loaded(before, loaded, r.0, r.1),
    {
        match (goal, state) {
            (Goal::Validate(changed), Some(state)) => {
                let unchanged: bool = contents_eq(&loaded.parent_tree_ids, &state.parent_tree_ids) && contents_eq(
                    &loaded.commit_tree_ids,
                    &state.diff.commit_tree_ids,
                ) && contents_eq(&loaded.copy_tree_ids, &state.copy_tree_ids);
                if !unchanged {
                    return (
                        Worker {
                            repo_path,
                            state: Some(state),
                            has_loader: true,
                            step: Step::Computing { goal: Goal::Validate(changed), retained },
                        },
                        Action::ComputeFull,
                    );
                }
                if bytes_eq(loaded.op_id.as_slice(), state.op_id.as_slice()) {
                    let mut state = state;
                    update_base_status_metadata(&mut state.base_status, &loaded.metadata);
                    (
                        Worker { repo_path, state: Some(state), has_loader: true, step: Step::Applying },
                        Action::Apply(changed),
                    )
                } else {
                    let dirty = list_dirty(&state);
                    let mut state = state;
                    state.op_id = loaded.op_id;
                    (
                        Worker {
                            repo_path,
                            state: Some(state),
                            has_loader: true,
                            step: Step::Rediffing { metadata: loaded.metadata, changed },
                        },
                        Action::Apply(dirty),
                    )
                }
            },
            (goal, state) => (
                Worker { repo_path, state, has_loader: true, step: Step::Computing { goal, retained } },
                Action::ComputeFull,
            ),
        }
    }

    /// What to do when it is known how the last action went.
    pub fn on_event(self, event: Event) -> (r: (Worker, Action))
        requires
            self.wf(),
            event is Computed ==> event->Computed_1.wf(),
        ensures
            r.0.wf(),
            answers_event(self, event, r.0, r.1),
    {
        let ghost before = self;
        let has_loader: bool = self.has_loader;
        match (self.step, event) {
            (Step::Loading { goal, retained }, Event::Loaded(loaded)) => Worker::on_loaded(
                self.repo_path,
                self.state,
                goal,
                retained,
                loaded,
                Ghost(before),
            ),
            (Step::Loading { goal, retained }, Event::LoadFailed(message)) => {
                if retained {
                    (
                        Worker {
                            repo_path: self.repo_path,
                            state: self.state,
                            has_loader: false,
                            step: Step::Loading { goal, retained: false },
                        },
                        Action::Load { retained: false },
                    )
                } else {
                    (
                        Worker { repo_path: self.repo_path, state: self.state, has_loader, step: Step::Idle },
                        Action::ReplyError(message),
                    )
                }
            },
            (Step::Computing { goal, retained }, Event::Computed(status, state)) => {
                match goal {
                    Goal::Full => (
                        Worker { repo_path: self.repo_path, state: Some(state), has_loader, step: Step::Idle },
                        Action::ReplyStatus(status),
                    ),
                    Goal::Validate(paths) => (
                        Worker { repo_path: self.repo_path, state: Some(state), has_loader, step: Step::Applying },
                        Action::Apply(paths),
                    ),
                    Goal::Resync(paths) => (
                        Worker { repo_path: self.repo_path, state: Some(state), has_loader, step: Step::Applying },
                        Action::Apply(paths),
                    ),
                }
            },
            (Step::Computing { goal, retained }, Event::ComputeFailed(message)) => {
                if retained {
                    let goal = match goal {
                        Goal::Validate(paths) => Goal::Resync(paths),
                        other => other,
                    };
                    (
                        Worker {
                            repo_path: self.repo_path,
                            state: self.state,
                            has_loader: false,
                            step: Step::Loading { goal, retained: false },
                        },
                        Action::Load { retained: false },
                    )
                } else {
                    (
                        Worker { repo_path: self.repo_path, state: self.state, has_loader, step: Step::Idle },
                        Action::ReplyError(message),
                    )
                }
            },
            (Step::Rediffing { metadata, changed }, Event::Applied) => match self.state {
                Some(state) => {
                    let mut state = state;
                    update_base_status_metadata(&mut state.base_status, &metadata);
                    (
                        Worker { repo_path: self.repo_path, state: Some(state), has_loader, step: Step::Applying },
                        Action::Apply(changed),
                    )
                },
                None => (
                    Worker { repo_path: self.repo_path, state: None, has_loader, step: Step::Idle },
                    Action::ReplyError("no incremental state for repo".to_owned()),
                ),
            },
            (Step::Applying, Event::Applied) => match self.state {
                Some(state) => {
                    let status = state.current_status();
                    (
                        Worker { repo_path: self.repo_path, state: Some(state), has_loader, step: Step::Idle },
                        Action::ReplyStatus(status),
                    )
                },
                None => (
                    Worker { repo_path: self.repo_path, state: None, has_loader, step: Step::Idle },
                    Action::ReplyError("no incremental state for repo".to_owned()),
                ),
            },
            _ => (
                Worker { repo_path: self.repo_path, state: self.state, has_loader, step: Step::Idle },
                Action::ReplyError("unexpected event".to_owned()),
            ),
        }
    }
}

/// A request fails at most once on account of a retained loader: after that the repo is
/// loaded from scratch, and the next failure is the answer.
pub proof fn retained_loader_is_tried_once(before: Worker, event: Event, after: Worker, action: Action)
    requires
        answers_event(before, event, after, action),
        before.step is Loading || before.step is Computing,
        event is LoadFailed || event is ComputeFailed,
    ensures
        action is Load ==> {
            &&& action == (Action::Load { retained: false })
            &&& !after.has_loader
            &&& after.step is Loading && !after.step->Loading_retained
            &&& (before.step is Loading ==> before.step->Loading_retained)
            &&& (before.step is Computing ==> before.step->Computing_retained)
        },
        !(action is Load) ==> action is ReplyError && after.step is Idle && after.state == before.state,
{
}

/// A request that fails leaves the retained state as it was.
pub proof fn failure_keeps_the_state(before: Worker, event: Event, after: Worker, action: Action)
    requires
        answers_event(before, event, after, action),
        event is LoadFailed || event is ComputeFailed,
    ensures
        after.state == before.state,
{
}

/// Where the trees have not changed, a validation keeps the diff and asks for no full diff.
pub proof fn unchanged_trees_keep_the_diff(before: Worker, loaded: LoadedInfo, after: Worker, action: Action)
    requires
        takes_loaded(before, loaded, after, action),
        before.step is Loading,
        before.step->Loading_goal is Validate,
        before.state is Some,
        trees_unchanged(before.state->0, loaded),
    ensures
        after.state is Some,
        after.state->0.diff == before.state->0.diff,
        action is Apply,
{
}

} // verus!
