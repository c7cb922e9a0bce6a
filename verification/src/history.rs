//! What a worker answers over a history of requests.
//!
//! Its answers have the counts of a full diff at every moment, as long as each changed path
//! is handed to it and each operation makes it look at the repo again.

use crate::aggregate::{counts_of, no_counts};
use crate::parity::{
    batch_equals_full_diff, batch_over_an_unchanged_disk_changes_nothing, compares_alike, current, dropped_after,
    empty_batch_changes_nothing, follows_full_diff, is_full_diff, is_fully_paired, made, table_of, Batch,
};
use crate::repo_state::{fresh_state_repeats_status, full_status, DiffEntry, JjRepoState, LoadedRepo};
use crate::staging::DiffStateView;
use crate::stats::FileStats;
use crate::status::{with_counts, with_metadata, RepoStatus, StatusView};
use crate::strings::views;
use crate::worker::{
    answers_event, answers_request, takes_loaded, trees_unchanged, Action, Event, JjWorkerRequest, LoadedInfo, Step,
    Worker,
};
use vstd::prelude::*;

verus! {

/// A batch has been worked off between two steps of a worker: its entries are in the
/// overlay, the marker style is that of the batch, and nothing else of the state has
/// changed.
pub open spec fn worked_off(before: Worker, batch: Batch, after: Worker) -> bool {
    &&& before.state is Some
    &&& after.state is Some
    &&& after.step == before.step
    &&& batch.state == (DiffStateView { style: batch.state.style, ..before.state->0.diff@ })
    &&& after.state->0.diff@ == (DiffStateView {
        overlay: batch.state.overlay.union_prefer_right(made(batch)),
        dropped: dropped_after(batch),
        ..batch.state
    })
    &&& after.state->0.base_status == before.state->0.base_status
    &&& after.state->0.op_id == before.state->0.op_id
    &&& after.state->0.repo_root == before.state->0.repo_root
}

/// The same, over a disk of which a full diff says what the diff says already.
pub open spec fn worked_off_in_vain(before: Worker, batch: Batch, entries: Seq<DiffEntry>, after: Worker) -> bool {
    &&& worked_off(before, batch, after)
    &&& compares_alike(batch)
    &&& is_full_diff(batch, entries)
    &&& table_of(batch, entries) == current(batch)
}

/// The same, without a path to look at, under the old marker style, and with no two files
/// left to pair.
pub open spec fn worked_off_nothing(before: Worker, paths: Seq<Seq<char>>, batch: Batch, after: Worker) -> bool {
    &&& worked_off(before, batch, after)
    &&& batch.state == before.state->0.diff@
    &&& batch.changed == paths + batch.state.dropped
    &&& is_fully_paired(batch.state, batch.facts)
}

/// The answer to changed paths has the counts of a full diff after the next snapshot.
pub proof fn reply_counts_as_a_full_diff(
    applying: Worker,
    batch: Batch,
    entries: Seq<DiffEntry>,
    applied: Worker,
    after: Worker,
    action: Action,
)
    requires
        applying.step is Applying,
        worked_off(applying, batch, applied),
        compares_alike(batch),
        is_full_diff(batch, entries),
        answers_event(applied, Event::Applied, after, action),
    ensures
        action is ReplyStatus,
        action->ReplyStatus_0@ == with_counts(
            applying.state->0.base_status@,
            counts_of(table_of(batch, entries)),
        ),
{
    batch_equals_full_diff(batch, entries);
}

/// Where neither the operation, nor a tree, nor the disk has changed, a validation answers
/// with the metadata of the load and the counts from before it.
pub proof fn validation_keeps_the_counts(
    before: Worker,
    loaded: LoadedInfo,
    applying: Worker,
    first: Action,
    batch: Batch,
    entries: Seq<DiffEntry>,
    applied: Worker,
    after: Worker,
    action: Action,
)
    requires
        before.step is Loading,
        before.step->Loading_goal is Validate,
        before.state is Some,
        trees_unchanged(before.state->0, loaded),
        loaded.op_id@ == before.state->0.op_id@,
        takes_loaded(before, loaded, applying, first),
        worked_off_in_vain(applying, batch, entries, applied),
        answers_event(applied, Event::Applied, after, action),
    ensures
        action is ReplyStatus,
        action->ReplyStatus_0@ == with_counts(
            with_metadata(before.state->0.base_status@, loaded.metadata@),
            counts_of(before.state->0.files()),
        ),
        action->ReplyStatus_0@.description == loaded.metadata@.description,
{
    batch_over_an_unchanged_disk_changes_nothing(batch, entries);
}

/// Where an operation changed no tree and the disk has not changed, as after a new
/// description, the diff is gone through again, and the answer has the metadata of the load
/// and the counts from before it.
pub proof fn new_operation_keeps_the_counts(
    before: Worker,
    loaded: LoadedInfo,
    rediffing: Worker,
    first: Action,
    dirty: Batch,
    dirty_entries: Seq<DiffEntry>,
    rediffed: Worker,
    applying: Worker,
    second: Action,
    batch: Batch,
    entries: Seq<DiffEntry>,
    applied: Worker,
    after: Worker,
    action: Action,
)
    requires
        before.step is Loading,
        before.step->Loading_goal is Validate,
        before.state is Some,
        trees_unchanged(before.state->0, loaded),
        loaded.op_id@ != before.state->0.op_id@,
        takes_loaded(before, loaded, rediffing, first),
        worked_off_in_vain(rediffing, dirty, dirty_entries, rediffed),
        answers_event(rediffed, Event::Applied, applying, second),
        worked_off_in_vain(applying, batch, entries, applied),
        answers_event(applied, Event::Applied, after, action),
    ensures
        action is ReplyStatus,
        action->ReplyStatus_0@ == with_counts(
            with_metadata(before.state->0.base_status@, loaded.metadata@),
            counts_of(before.state->0.files()),
        ),
        action->ReplyStatus_0@.description == loaded.metadata@.description,
{
    batch_over_an_unchanged_disk_changes_nothing(dirty, dirty_entries);
    batch_over_an_unchanged_disk_changes_nothing(batch, entries);
}

/// After a full refresh, a new description changes the metadata and no count: the trees are
/// as before and no path is named, so the worker has no path to look at, neither a dirty nor
/// a changed one. Of a delete that the full diff dropped, see `new_operation_keeps_the_counts`.
pub proof fn new_description_keeps_the_counts(
    before: Worker,
    loaded: LoadedInfo,
    rediffing: Worker,
    first: Action,
    dirty: Batch,
    rediffed: Worker,
    applying: Worker,
    second: Action,
    batch: Batch,
    applied: Worker,
    after: Worker,
    action: Action,
)
    requires
        before.step is Loading,
        before.step->Loading_goal is Validate,
        before.step->Loading_goal->Validate_0@.len() == 0,
        before.state is Some,
        before.state->0.wf(),
        before.state->0.diff@.overlay == Map::<Seq<char>, Option<FileStats>>::empty(),
        before.state->0.diff@.dropped.len() == 0,
        trees_unchanged(before.state->0, loaded),
        loaded.op_id@ != before.state->0.op_id@,
        takes_loaded(before, loaded, rediffing, first),
        worked_off_nothing(rediffing, views(first->Apply_0@), dirty, rediffed),
        answers_event(rediffed, Event::Applied, applying, second),
        worked_off_nothing(applying, views(second->Apply_0@), batch, applied),
        answers_event(applied, Event::Applied, after, action),
    ensures
        action is ReplyStatus,
        action->ReplyStatus_0@ == with_counts(
            with_metadata(before.state->0.base_status@, loaded.metadata@),
            counts_of(before.state->0.files()),
        ),
        action->ReplyStatus_0@.description == loaded.metadata@.description,
{
    let state = before.state->0;
    state.diff.overlay.paths_are_domain();
    if state.diff.overlay.paths().len() > 0 {
        assert(state.diff.overlay.paths().contains(state.diff.overlay.paths()[0]));
        assert(state.diff@.overlay.dom().contains(state.diff.overlay.paths()[0]));
    }
    assert(views(first->Apply_0@).len() == 0);
    empty_batch_changes_nothing(dirty);
    assert(dirty.state.overlay.union_prefer_right(made(dirty)) =~= dirty.state.overlay);
    assert(second == Action::Apply(before.step->Loading_goal->Validate_0));
    assert(views(second->Apply_0@).len() == 0);
    empty_batch_changes_nothing(batch);
}

/// What happens to a worker at a moment, and what it wants done then.
pub enum Turn {
    /// It is asked for something.
    Request(JjWorkerRequest, Action),
    /// It is told how it went.
    Event(Event, Action),
    /// A batch is worked off for it; a full diff then has the given entries.
    Batch(Batch, Seq<DiffEntry>),
}

/// A moment in the life of a worker: what happens, the worker after it, and what a full diff
/// says then of all that the worker has been told of.
pub struct Moment {
    pub turn: Turn,
    pub worker: Worker,
    pub files: Map<Seq<char>, FileStats>,
}

/// A status has the counts of a diff.
pub open spec fn has_counts(status: StatusView, files: Map<Seq<char>, FileStats>) -> bool {
    status == with_counts(status, counts_of(files))
}

/// A full refresh gave the files of a full diff, and their counts.
pub open spec fn is_refreshed(status: RepoStatus, state: JjRepoState, files: Map<Seq<char>, FileStats>) -> bool {
    state.files() == files && has_counts(status@, files)
}

/// The status and the state that a full refresh comes to are those of its full diff; of an
/// empty one where the parent tree failed to load. The metadata comes without counts.
pub proof fn refresh_reads_the_full_diff(
    metadata: StatusView,
    loaded: LoadedRepo,
    files: Map<Seq<char>, FileStats>,
    status: RepoStatus,
    state: JjRepoState,
)
    requires
        with_counts(metadata, no_counts()) == (StatusView { empty: true, ..metadata }),
        status@ == full_status(metadata, loaded, files),
        state.diff@.base == if loaded.parent_tree_ids is Some {
            files
        } else {
            Map::empty()
        },
        state.diff@.overlay == Map::<Seq<char>, Option<FileStats>>::empty(),
    ensures
        is_refreshed(status, state, state.diff@.base),
{
    fresh_state_repeats_status(metadata, loaded, files);
    assert(state.files() =~= state.diff@.base);
}

/// One moment follows another.
///
/// A full refresh reads the full diff from the store. A batch changes the full diff in its
/// own paths alone: all that changed on disk is in it. Nothing else changes what a full diff
/// says, until an operation has changed a tree; then a full refresh is due.
pub open spec fn follows(before: Moment, after: Moment) -> bool {
    match after.turn {
        Turn::Request(request, action) => {
            &&& before.worker.step is Idle
            &&& answers_request(before.worker, request, after.worker, action)
            &&& after.files == before.files
        },
        Turn::Event(event, action) => {
            &&& answers_event(before.worker, event, after.worker, action)
            &&& match (before.worker.step, event) {
                (Step::Computing { goal, retained }, Event::Computed(status, state)) => is_refreshed(
                    status,
                    state,
                    after.files,
                ),
                _ => after.files == before.files,
            }
        },
        Turn::Batch(batch, entries) => {
            &&& worked_off(before.worker, batch, after.worker)
            &&& compares_alike(batch)
            &&& follows_full_diff(before.files, batch, entries)
            &&& after.files == table_of(batch, entries)
        },
    }
}

/// A history of a worker, from its beginning on.
pub open spec fn is_history(moments: Seq<Moment>) -> bool {
    &&& moments.len() > 0
    &&& moments[0].worker.state is None
    &&& forall|i: int| 0 < i < moments.len() ==> follows(moments[i - 1], #[trigger] moments[i])
}

/// The retained state is the full diff.
pub open spec fn is_true(moment: Moment) -> bool {
    moment.worker.state is Some ==> moment.worker.state->0.files() == moment.files
}

/// At every moment of a history the retained state, where there is one, is the full diff.
pub proof fn state_is_the_full_diff(moments: Seq<Moment>, n: int)
    requires
        is_history(moments),
        0 <= n < moments.len(),
    ensures
        is_true(moments[n]),
    decreases n,
{
    if n > 0 {
        state_is_the_full_diff(moments, n - 1);
        lemma_stays_true(moments[n - 1], moments[n]);
    }
}

proof fn lemma_stays_true(before: Moment, after: Moment)
    requires
        is_true(before),
        follows(before, after),
    ensures
        is_true(after),
{
    if let Turn::Batch(batch, entries) = after.turn {
        assert(before.files == current(batch));
        batch_equals_full_diff(batch, entries);
    }
}

/// Every status that a worker answers with, whatever it was asked before, has the counts of
/// a full diff at that moment.
pub proof fn every_reply_counts_as_a_full_diff(moments: Seq<Moment>, n: int)
    requires
        is_history(moments),
        0 < n < moments.len(),
    ensures
        moments[n].turn matches Turn::Event(_, Action::ReplyStatus(status)) ==> {
            let counts = counts_of(moments[n].files);
            &&& has_counts(status@, moments[n].files)
            &&& status@.file_mad_count_working_tree == counts.file_mad_count
            &&& status@.lines_added_working_tree == counts.lines_added
            &&& status@.lines_removed_working_tree == counts.lines_removed
        },
        moments[n].turn matches Turn::Request(_, action) ==> !(action is ReplyStatus),
{
    state_is_the_full_diff(moments, n - 1);
    state_is_the_full_diff(moments, n);
    assert(follows(moments[n - 1], moments[n]));
}

} // verus!
