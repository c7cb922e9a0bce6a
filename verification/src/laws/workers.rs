//! What a worker does for a request.

use crate::aggregate::counts_of;
use crate::by_dir::{dir_names, dir_of, dir_stats};
use crate::paths::joined;
use crate::repo_state::{full_status, unlisted, JjRepoState, LoadedRepo};
use crate::stats::FileStats;
use crate::status::{with_counts, with_metadata, RepoStatus, StatusView};
use crate::strings::views;
use crate::worker::{
    answers_event, answers_request, trees_unchanged, Action, Event, Goal, JjWorkerRequest, LoadedInfo, Step, Worker,
};
use vstd::prelude::*;

verus! {

/// A full refresh loads the repo, computes its full status, keeps the state and answers with
/// the status, whatever was retained.
pub proof fn full_refresh_runs_through(
    idle: Worker,
    repo_path: String,
    loading: Worker,
    first: Action,
    loaded: LoadedInfo,
    computing: Worker,
    second: Action,
    status: RepoStatus,
    state: JjRepoState,
    done: Worker,
    last: Action,
)
    requires
        answers_request(idle, JjWorkerRequest::FullRefresh { repo_path }, loading, first),
        answers_event(loading, Event::Loaded(loaded), computing, second),
        answers_event(computing, Event::Computed(status, state), done, last),
    ensures
        first is Load,
        first->retained == idle.has_loader,
        second is ComputeFull,
        last == Action::ReplyStatus(status),
        done.state == Some(state),
        done.step is Idle,
        done.repo_path == Some(repo_path),
        done.has_loader,
{
}

/// A validation of a repo whose trees have changed computes the full status anew, keeps the
/// new state, works off the changed paths on it, and answers with what it says then.
pub proof fn changed_trees_are_computed_anew(
    idle: Worker,
    repo_path: String,
    changed_paths: Vec<String>,
    loading: Worker,
    first: Action,
    loaded: LoadedInfo,
    computing: Worker,
    second: Action,
    status: RepoStatus,
    state: JjRepoState,
    applying: Worker,
    third: Action,
)
    requires
        idle.state is Some,
        answers_request(idle, JjWorkerRequest::ValidateAndRefresh { repo_path, changed_paths }, loading, first),
        answers_event(loading, Event::Loaded(loaded), computing, second),
        answers_event(computing, Event::Computed(status, state), applying, third),
        ({
            let old = idle.state->0;
            ||| loaded.parent_tree_ids@.len() != old.parent_tree_ids@.len()
            ||| exists|i: int|
                0 <= i < loaded.parent_tree_ids@.len() && (#[trigger] loaded.parent_tree_ids@[i])@
                    != old.parent_tree_ids@[i]@
            ||| loaded.copy_tree_ids@.len() != old.copy_tree_ids@.len()
            ||| exists|i: int|
                0 <= i < loaded.copy_tree_ids@.len() && (#[trigger] loaded.copy_tree_ids@[i])@ != old.copy_tree_ids@[i]@
            ||| loaded.commit_tree_ids@.len() != old.diff@.terms.len()
            ||| exists|i: int|
                0 <= i < loaded.commit_tree_ids@.len() && (#[trigger] loaded.commit_tree_ids@[i])@ != old.diff@.terms[i]
        }),
    ensures
        first is Load,
        second is ComputeFull,
        third == Action::Apply(changed_paths),
        applying.state == Some(state),
        applying.step is Applying,
{
    let old = idle.state->0;
    assert(!trees_unchanged(old, loaded)) by {
        if trees_unchanged(old, loaded) {
            let a = crate::conflicts::contents_view(loaded.parent_tree_ids@);
            let b = crate::conflicts::contents_view(old.parent_tree_ids@);
            assert(a.len() == b.len());
            assert forall|i: int| 0 <= i < loaded.parent_tree_ids@.len() implies (#[trigger] loaded.parent_tree_ids@[i])@
                == old.parent_tree_ids@[i]@ by {
                assert(a[i] == b[i]);
            }
            let c = crate::conflicts::contents_view(loaded.copy_tree_ids@);
            let d = crate::conflicts::contents_view(old.copy_tree_ids@);
            assert(c.len() == d.len());
            assert forall|i: int| 0 <= i < loaded.copy_tree_ids@.len() implies (#[trigger] loaded.copy_tree_ids@[i])@
                == old.copy_tree_ids@[i]@ by {
                assert(c[i] == d[i]);
            }
            let e = crate::conflicts::contents_view(loaded.commit_tree_ids@);
            assert(e.len() == old.diff@.terms.len());
            assert forall|i: int| 0 <= i < loaded.commit_tree_ids@.len() implies (#[trigger] loaded.commit_tree_ids@[i])@
                == old.diff@.terms[i] by {
                assert(e[i] == old.diff@.terms[i]);
            }
        }
    }
}

/// A validation of a repo whose trees are those of the state asks for no full diff: on the
/// same operation the metadata is brought up to date and the changed paths are worked off; on
/// another one all dirty paths are worked off first.
pub proof fn same_trees_are_kept(
    idle: Worker,
    repo_path: String,
    changed_paths: Vec<String>,
    loading: Worker,
    first: Action,
    loaded: LoadedInfo,
    after: Worker,
    second: Action,
)
    requires
        idle.state is Some,
        answers_request(idle, JjWorkerRequest::ValidateAndRefresh { repo_path, changed_paths }, loading, first),
        answers_event(loading, Event::Loaded(loaded), after, second),
        loaded.parent_tree_ids@.len() == idle.state->0.parent_tree_ids@.len(),
        forall|i: int|
            0 <= i < loaded.parent_tree_ids@.len() ==> (#[trigger] loaded.parent_tree_ids@[i])@
                == idle.state->0.parent_tree_ids@[i]@,
        loaded.copy_tree_ids@.len() == idle.state->0.copy_tree_ids@.len(),
        forall|i: int|
            0 <= i < loaded.copy_tree_ids@.len() ==> (#[trigger] loaded.copy_tree_ids@[i])@
                == idle.state->0.copy_tree_ids@[i]@,
        loaded.commit_tree_ids@.len() == idle.state->0.diff@.terms.len(),
        forall|i: int|
            0 <= i < loaded.commit_tree_ids@.len() ==> (#[trigger] loaded.commit_tree_ids@[i])@
                == idle.state->0.diff@.terms[i],
    ensures
        after.state is Some,
        after.state->0.diff == idle.state->0.diff,
        after.state->0.op_id@ == loaded.op_id@,
        second is Apply,
        loaded.op_id@ == idle.state->0.op_id@ ==> {
            &&& second == Action::Apply(changed_paths)
            &&& after.step is Applying
            &&& after.state->0.base_status@ == with_metadata(idle.state->0.base_status@, loaded.metadata@)
        },
        loaded.op_id@ != idle.state->0.op_id@ ==> {
            &&& after.step == (Step::Rediffing { metadata: loaded.metadata, changed: changed_paths })
            &&& views(second->Apply_0@).len() == idle.state->0.diff.overlay.paths().len()
            &&& forall|i: int|
                0 <= i < views(second->Apply_0@).len() ==> #[trigger] views(second->Apply_0@)[i] == joined(
                    idle.state->0.repo_root@,
                    idle.state->0.diff.overlay.paths()[i],
                )
        },
{
    let old = idle.state->0;
    assert(crate::conflicts::contents_view(loaded.parent_tree_ids@) =~= crate::conflicts::contents_view(
        old.parent_tree_ids@,
    ));
    assert(crate::conflicts::contents_view(loaded.copy_tree_ids@) =~= crate::conflicts::contents_view(
        old.copy_tree_ids@,
    ));
    assert(crate::conflicts::contents_view(loaded.commit_tree_ids@) =~= old.diff@.terms);
}

/// Changed paths are worked off on the retained state, and the answer has its status with the
/// counts of the diff; without a state that is an error.
pub proof fn changed_paths_are_worked_off(
    idle: Worker,
    repo_path: String,
    changed_paths: Vec<String>,
    applying: Worker,
    first: Action,
    done: Worker,
    last: Action,
)
    requires
        answers_request(idle, JjWorkerRequest::IncrementalUpdate { repo_path, changed_paths }, applying, first),
        answers_event(applying, Event::Applied, done, last),
    ensures
        idle.state matches Some(state) ==> {
            &&& first == Action::Apply(changed_paths)
            &&& last is ReplyStatus
            &&& last->ReplyStatus_0@ == with_counts(
                state.base_status@,
                counts_of(crate::aggregate::effective(state.diff@.base, state.diff@.overlay)),
            )
            &&& done.state == Some(state)
            &&& done.step is Idle
        },
        idle.state is None ==> first is ReplyError && first->ReplyError_0@ == "no incremental state for repo"@
            && applying.step is Idle,
{
}

/// After lost events everything is computed anew from a loader of its own, and then the paths
/// that were dirty before are worked off again.
pub proof fn resync_starts_over(
    idle: Worker,
    repo_path: String,
    loading: Worker,
    first: Action,
    loaded: LoadedInfo,
    computing: Worker,
    second: Action,
    status: RepoStatus,
    state: JjRepoState,
    applying: Worker,
    third: Action,
)
    requires
        answers_request(idle, JjWorkerRequest::Resync { repo_path }, loading, first),
        answers_event(loading, Event::Loaded(loaded), computing, second),
        answers_event(computing, Event::Computed(status, state), applying, third),
    ensures
        first == (Action::Load { retained: false }),
        second is ComputeFull,
        third is Apply,
        applying.state == Some(state),
        idle.state matches Some(old) ==> {
            &&& views(third->Apply_0@).len() == old.diff.overlay.paths().len()
            &&& forall|i: int|
                0 <= i < views(third->Apply_0@).len() ==> #[trigger] views(third->Apply_0@)[i] == joined(
                    old.repo_root@,
                    old.diff.overlay.paths()[i],
                )
        },
        idle.state is None ==> views(third->Apply_0@).len() == 0,
{
}

/// After dirty paths have been worked off, the metadata of the load is taken over and the
/// changed paths are worked off.
pub proof fn rediffing_goes_on_to_changed_paths(
    before: Worker,
    metadata: RepoStatus,
    changed: Vec<String>,
    after: Worker,
    action: Action,
)
    requires
        before.state is Some,
        before.step == (Step::Rediffing { metadata, changed }),
        answers_event(before, Event::Applied, after, action),
    ensures
        action == Action::Apply(changed),
        after.step is Applying,
        after.state is Some,
        after.state->0.diff == before.state->0.diff,
        after.state->0.base_status@ == with_metadata(before.state->0.base_status@, metadata@),
{
}

/// The stats of a repo have its name and count what the diff counts; a worker without a state
/// has none.
pub proof fn stats_show_the_diff(idle: Worker, after: Worker, action: Action, path: String, state: JjRepoState)
    requires
        answers_request(idle, JjWorkerRequest::QueryOverlayStats, after, action),
    ensures
        action is ReplyStats,
        after.state == idle.state,
        idle.repo_path == Some(path) && idle.state == Some(state) ==> {
            let list = action->ReplyStats_0@;
            let counts = counts_of(crate::aggregate::effective(state.diff@.base, state.diff@.overlay));
            &&& list.len() == 1
            &&& list[0].0@ == path@
            &&& list[0].1.files_changed == counts.file_mad_count
            &&& list[0].1.lines_added == counts.lines_added
            &&& list[0].1.lines_removed == counts.lines_removed
            &&& list[0].1.base_files == state.diff@.base.dom().len() % 0x1_0000_0000
            &&& list[0].1.overlay_entries == state.diff@.overlay.dom().len() % 0x1_0000_0000
        },
        idle.state is None || idle.repo_path is None ==> action->ReplyStats_0@.len() == 0,
{
}

/// A failed load or full diff is tried once more from scratch where the retained loader was
/// used, and is the answer where it was not.
pub proof fn failures_are_answered(before: Worker, message: String, after: Worker, action: Action)
    requires
        before.step is Loading,
        answers_event(before, Event::LoadFailed(message), after, action),
    ensures
        before.step->Loading_retained ==> action == (Action::Load { retained: false }) && after.step is Loading
            && after.step->Loading_goal == before.step->Loading_goal,
        !before.step->Loading_retained ==> action == Action::ReplyError(message) && after.step is Idle,
        after.state == before.state,
{
}

/// A full diff that failed on a repo loaded through the retained loader is tried once more
/// from scratch, with the same paths to work off after it; else it is the answer.
pub proof fn failed_diffs_are_answered(before: Worker, message: String, after: Worker, action: Action, paths: Vec<String>)
    requires
        before.step is Computing,
        answers_event(before, Event::ComputeFailed(message), after, action),
    ensures
        before.step->Computing_retained ==> {
            &&& action == (Action::Load { retained: false })
            &&& after.step is Loading && !after.step->Loading_retained
            &&& before.step->Computing_goal is Full ==> after.step->Loading_goal is Full
            &&& before.step->Computing_goal == Goal::Validate(paths) ==> after.step->Loading_goal == Goal::Resync(paths)
            &&& before.step->Computing_goal == Goal::Resync(paths) ==> after.step->Loading_goal == Goal::Resync(paths)
        },
        !before.step->Computing_retained ==> action == Action::ReplyError(message) && after.step is Idle,
        after.state == before.state,
{
}

/// The full status of a repo has its metadata and the counts of its diff; where the parent
/// tree could not be loaded it is empty and has no counts of its own.
pub proof fn full_status_has_the_counts(
    metadata: StatusView,
    loaded: LoadedRepo,
    files: Map<Seq<char>, FileStats>,
)
    ensures
        loaded.parent_tree_ids is Some ==> full_status(metadata, loaded, files) == with_counts(
            metadata,
            counts_of(files),
        ),
        loaded.parent_tree_ids is None ==> full_status(metadata, loaded, files).empty,
        full_status(metadata, loaded, files).description == metadata.description,
        full_status(metadata, loaded, files).change_id == metadata.change_id,
        full_status(metadata, loaded, files).bookmarks == metadata.bookmarks,
{
}

/// A deleted file counts as dropped exactly where the diff has no entry for it and no file
/// renamed from it.
pub proof fn deletes_without_an_entry_are_dropped(
    deleted: Seq<Seq<char>>,
    files: Map<Seq<char>, FileStats>,
    path: Seq<char>,
)
    ensures
        unlisted(deleted, files).contains(path) <==> deleted.contains(path) && !files.contains_key(path) && !exists|
            p: Seq<char>,
        | #[trigger] files.contains_key(p) && files[p].renamed_from == Some(path),
    decreases deleted.len(),
{
    if deleted.len() > 0 {
        let rest = deleted.drop_last();
        deletes_without_an_entry_are_dropped(rest, files, path);
        assert(deleted =~= rest.push(deleted.last()));
        crate::staging::lemma_contains_push(rest, deleted.last(), path);
        crate::staging::lemma_contains_push(unlisted(rest, files), deleted.last(), path);
    }
}

/// The stats by directory name every directory with an entry, in the base or the overlay, and
/// have the stats of each.
pub proof fn every_directory_is_shown(
    idle: Worker,
    after: Worker,
    action: Action,
    path: String,
    state: JjRepoState,
    file: Seq<char>,
)
    requires
        answers_request(idle, JjWorkerRequest::QueryOverlayStatsVerbose, after, action),
        idle.repo_path == Some(path),
        idle.state == Some(state),
        state.diff@.base.contains_key(file) || state.diff@.overlay.contains_key(file),
    ensures
        action is ReplyVerbose,
        action->ReplyVerbose_0@.len() == 1,
        (action->ReplyVerbose_0@[0]).0@ == path@,
        ({
            let list = (action->ReplyVerbose_0@[0]).1@;
            exists|i: int|
                0 <= i < list.len() && (#[trigger] list[i]).0@ == dir_of(file) && list[i].1 == dir_stats(
                    state.diff@.base,
                    state.diff@.overlay,
                    dir_of(file),
                )
        }),
{
    let list = (action->ReplyVerbose_0@[0]).1@;
    let all = state.diff@.base.dom() + state.diff@.overlay.dom();
    assert(all.contains(file));
    assert(dir_names(list).contains(dir_of(file)));
    let i = choose|i: int| 0 <= i < dir_names(list).len() && dir_names(list)[i] == dir_of(file);
    assert(list[i].0@ == dir_of(file));
}

} // verus!
