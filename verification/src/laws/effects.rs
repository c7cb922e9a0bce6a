//! What calls leave behind.

use crate::aggregate::DiffCounts;
use crate::conflicts::{ConflictMarkerStyle, MergeOptions};
use crate::daemon::{refresh_views, CachedStatus, DaemonState, PendingRefreshes, QueryPlan};
use crate::facts::PathFacts;
use crate::ignore_filter::{by_depth, insert_by_depth, is_nested, load_sequence, IgnoreFilter, VcsKind};
use crate::incremental::{
    apply_incremental_paths, asks, begin_batch, next_dropped, next_overlay, next_progress, Answers, Need, Progress,
};
use crate::jj_config::{settings_in, ConfigCache, FileStamp};
use crate::laws::ignoring::{every_line_is_a_rule, root_files_add_their_lines};
use crate::lines::lines_of;
use crate::paths::joined;
use crate::protocol::Response;
use crate::replay::{differing_paths, EventQueue, MirrorEntry};
use crate::repo_state::{compute_per_file_diff_stats, per_file_stats, DiffEntry};
use crate::router::{Route, Routed, Router};
use crate::staging::DiffState;
use crate::stats::FileDiffStats;
use crate::status::{update_base_status_metadata, RepoStatus};
use crate::strings::views;
use crate::table::FileTable;
use vstd::prelude::*;

verus! {

/// A new filter knows the ignore files that the root holds, those of jj for a repo of jj
/// alone; a rebuilt one has the rules of what they say.
pub proof fn new_filters_know_the_files_of_the_root(
    root: &str,
    kind: VcsKind,
    git: bool,
    jj: bool,
    global: Option<String>,
    r: IgnoreFilter,
)
    requires
        call_ensures(IgnoreFilter::new, (root, kind, git, jj, global), r),
    ensures
        r@.root == root@ && r@.kind == kind && r@.rules.len() == 0,
        r@.loaded.contains(joined(root@, ".gitignore"@)) || !git,
        r@.loaded.contains(joined(root@, ".jjignore"@)) || !jj || kind == VcsKind::Git,
        !git && !jj ==> r@.loaded.len() == 0,
        !git && kind == VcsKind::Git ==> r@.loaded.len() == 0,
        global is Some ==> r@.global == Some(global->0@),
        global is None ==> r@.global is None,
{
    let a = joined(root@, ".gitignore"@);
    let b = joined(root@, ".jjignore"@);
    if git {
        assert(r@.loaded[0] == a);
    }
    if jj && kind == VcsKind::Jj {
        assert(r@.loaded.last() == b);
        assert(r@.loaded[r@.loaded.len() - 1] == b);
    }
}

/// Every line of the only ignore file, in the root, is a rule for everything below the root
/// once the filter is rebuilt, however many lines there are.
pub proof fn every_line_of_the_file_becomes_a_rule(
    filter: &mut IgnoreFilter,
    contents: &FileTable<String>,
    file: Seq<char>,
    i: int,
)
    requires
        call_ensures(IgnoreFilter::rebuild, (filter, contents), ()),
        old(filter)@.global is None,
        old(filter)@.loaded == seq![file],
        !is_nested(old(filter)@.root, file),
        contents@.contains_key(file),
        contents@[file].len() > 0,
    ensures
        final(filter)@.rules.len() == 1,
        (final(filter)@.rules[0]).0 == old(filter)@.root,
        (final(filter)@.rules[0]).1.len() == lines_of(contents@[file]).len(),
        0 < i < lines_of(contents@[file]).len() ==> (final(filter)@.rules[0]).1[i] == (
            file,
            lines_of(contents@[file])[i],
        ),
        final(filter)@.root == old(filter)@.root,
        final(filter)@.loaded == old(filter)@.loaded,
{
    let files = seq![file];
    let none = Seq::<Seq<char>>::empty();
    assert(files.drop_last() =~= none);
    assert(files.last() == file);
    reveal_with_fuel(by_depth, 2);
    reveal_with_fuel(insert_by_depth, 2);
    assert(by_depth(files) =~= files);
    assert(none.push(file) =~= files);
    crate::laws::lines::some_line_in_a_text(contents@[file]);
    root_files_add_their_lines(old(filter)@.root, None, none, file, contents@);
    every_line_is_a_rule(file, contents@[file], i);
}

/// The files to load are all that are in force, the global one first.
pub proof fn all_files_are_loaded(filter: &IgnoreFilter, r: Vec<String>)
    requires
        call_ensures(IgnoreFilter::load_order, (filter,), r),
    ensures
        views(r@) == load_sequence(filter@),
{
}

/// A batch begins with all changed paths and all dropped sources; under another marker style
/// with every known entry too. Nothing of the diff is lost.
pub proof fn batches_begin_with_everything(
    state: &mut DiffState,
    style: ConflictMarkerStyle,
    changed: Vec<String>,
    r: Vec<String>,
    i: int,
    k: int,
)
    requires
        call_ensures(begin_batch, (state, style, changed), r),
    ensures
        final(state)@.style == style,
        final(state)@.base == old(state)@.base,
        final(state)@.overlay == old(state)@.overlay,
        final(state)@.dropped == old(state)@.dropped,
        final(state)@.conflicted == old(state)@.conflicted,
        final(state)@.parents == old(state)@.parents,
        0 <= i < changed@.len() ==> views(r@).contains(changed@[i]@),
        0 <= k < old(state)@.dropped.len() ==> views(r@).contains(old(state)@.dropped[k]),
        style == old(state)@.style ==> views(r@).len() == changed@.len() + old(state)@.dropped.len(),
        style != old(state)@.style ==> views(r@).len() == changed@.len() + old(state).base_file_stats.paths().len()
            + old(state).overlay.paths().len() + old(state)@.dropped.len(),
{
    let all = views(r@);
    let n = all.len() - old(state)@.dropped.len();
    if 0 <= i < changed@.len() {
        assert(all[i] == changed@[i]@);
    }
    if 0 <= k < old(state)@.dropped.len() {
        assert(all[n + k] == old(state)@.dropped[k]);
    }
}

/// A step of a batch touches the overlay and the dropped sources alone, and only the last one
/// touches them.
pub proof fn steps_touch_the_overlay_at_the_end(
    state: &mut DiffState,
    changed: &Vec<String>,
    facts: &FileTable<PathFacts>,
    answers: &Answers,
    progress: Progress,
    r: (Progress, Need),
)
    requires
        call_ensures(apply_incremental_paths, (state, changed, facts, answers, progress), r),
    ensures
        final(state)@.base == old(state)@.base,
        final(state)@.style == old(state)@.style,
        final(state)@.conflicted == old(state)@.conflicted,
        !(progress@ is Paired) ==> final(state)@.overlay == old(state)@.overlay && final(state)@.dropped
            == old(state)@.dropped,
        (r.0)@ == next_progress(old(state)@, views(changed@), facts@, answers@, progress@),
        final(state)@.overlay == next_overlay(old(state)@, facts@, progress@),
        final(state)@.dropped == next_dropped(old(state)@, facts@, progress@),
        asks(old(state)@, views(changed@), facts@, answers@, progress@, r.1),
{
}

/// The stats of a full diff go into the table.
pub proof fn full_diffs_fill_the_table(
    table: &mut FileTable<FileDiffStats>,
    entries: &Vec<DiffEntry>,
    style: ConflictMarkerStyle,
    options: MergeOptions,
)
    requires
        call_ensures(compute_per_file_diff_stats, (table, entries, style, options), ()),
    ensures
        final(table)@ == per_file_stats(old(table)@, entries@, style, options),
{
}

/// Counts and metadata go into the status, field by field.
pub proof fn statuses_take_counts(status: &mut RepoStatus, counts: DiffCounts)
    requires
        call_ensures(RepoStatus::set_counts, (status, counts), ()),
    ensures
        final(status).file_mad_count_working_tree == counts.file_mad_count,
        final(status).lines_added_working_tree == counts.lines_added,
        final(status).lines_removed_working_tree == counts.lines_removed,
        final(status).files_modified_working_tree == counts.files_modified,
        final(status).files_added_working_tree == counts.files_added,
        final(status).files_deleted_working_tree == counts.files_deleted,
        final(status).file_mad_count == counts.file_mad_count,
        final(status).lines_added_total == counts.lines_added,
        final(status).lines_removed_total == counts.lines_removed,
        final(status).files_modified_total == counts.files_modified,
        final(status).files_added_total == counts.files_added,
        final(status).files_deleted_total == counts.files_deleted,
        final(status).empty <==> counts.file_mad_count == 0,
        final(status).description@ == old(status).description@,
        final(status).change_id@ == old(status).change_id@,
{
    crate::laws::status::status_says_what_it_holds(*final(status));
    crate::laws::status::status_says_what_it_holds(*old(status));
    crate::laws::status::counts_stand_in_the_status(old(status)@, counts);
}

/// Metadata goes into the status, and the counts of the diff stay.
pub proof fn statuses_take_metadata(base: &mut RepoStatus, fresh: &RepoStatus)
    requires
        call_ensures(update_base_status_metadata, (base, fresh), ()),
    ensures
        final(base).description@ == fresh.description@,
        final(base).change_id@ == fresh.change_id@,
        final(base).commit_id@ == fresh.commit_id@,
        final(base).conflict == fresh.conflict,
        final(base).divergent == fresh.divergent,
        final(base).hidden == fresh.hidden,
        final(base).immutable == fresh.immutable,
        final(base).workspace_name@ == fresh.workspace_name@,
        final(base)@.bookmarks == fresh@.bookmarks,
        final(base).file_mad_count == old(base).file_mad_count,
        final(base).lines_added_total == old(base).lines_added_total,
        final(base).lines_removed_total == old(base).lines_removed_total,
        final(base).empty == old(base).empty,
{
    crate::laws::status::status_says_what_it_holds(*final(base));
    crate::laws::status::status_says_what_it_holds(*old(base));
    crate::laws::status::status_says_what_it_holds(*fresh);
    crate::laws::status::metadata_stands_in_the_status(old(base)@, fresh@);
}

/// A request for a repo goes to its worker, or to a new one where it has none; a query over
/// all repos to each of them; and a repo that is forgotten has no worker any more.
pub proof fn requests_reach_their_worker(router: &mut Router, request: Routed, r: Route)
    requires
        call_ensures(Router::route, (router, request), r),
    ensures
        request matches Routed::ForRepo(repo) ==> {
            &&& final(router).repos().contains(repo@)
            &&& old(router).repos().contains(repo@) ==> r == Route::Send(repo) && final(router).repos()
                == old(router).repos()
            &&& !old(router).repos().contains(repo@) ==> r == Route::Spawn(repo) && final(router).repos()
                == old(router).repos().push(repo@)
        },
        request is ForAll ==> r is FanOut && views(r->FanOut_0@) == old(router).repos() && final(router).repos()
            == old(router).repos(),
        request matches Routed::Forget(repo) ==> r == Route::Drop(repo) && !final(router).repos().contains(repo@),
{
    match request {
        Routed::ForRepo(repo) => {
            crate::router::routing_keeps_track(old(router).repos(), repo@);
        },
        Routed::Forget(repo) => {
            crate::router::routing_keeps_track(old(router).repos(), repo@);
        },
        _ => {},
    }
}

/// A worker that does not take a request is replaced.
pub proof fn lost_workers_are_replaced(router: &mut Router, repo: String, r: Route)
    requires
        call_ensures(Router::on_send_failed, (router, repo), r),
    ensures
        r == Route::Spawn(repo),
        final(router).repos().contains(repo@),
{
    crate::router::routing_keeps_track(old(router).repos(), repo@);
}

/// A query is noted with its time; it is answered from what is known, and the repo is watched
/// from then on where it is not yet.
pub proof fn queries_are_answered_from_what_is_known(state: &mut DaemonState, repo: &str, now: u128, r: QueryPlan)
    requires
        call_ensures(DaemonState::on_query, (state, repo, now), r),
    ensures
        final(state)@.last_query_ns == now,
        final(state)@.cache == old(state)@.cache,
        final(state)@.watched == old(state)@.watched,
        r.watch <==> !old(state)@.watched.contains(repo@),
        r.cached is Some <==> old(state)@.cache.contains_key(repo@),
        r.cached is Some ==> r.cached->0@ == old(state)@.cache[repo@].1,
{
}

/// A status that was asked for is kept and shown; an error is shown and not kept.
pub proof fn statuses_are_kept_and_errors_are_not(
    state: &mut DaemonState,
    repo: &str,
    outcome: Result<CachedStatus, String>,
    r: Response,
)
    requires
        call_ensures(DaemonState::on_asked, (state, repo, outcome), r),
    ensures
        outcome matches Ok(known) ==> {
            &&& final(state)@.cache.contains_key(repo@)
            &&& final(state)@.cache[repo@] == (known.status@, known.formatted@)
            &&& r is Status && r->formatted@ == known.formatted@
        },
        outcome matches Err(message) ==> r == (Response::Error { message }) && final(state)@.cache
            == old(state)@.cache,
        final(state)@.watched == old(state)@.watched,
{
}

/// A repo that is watched is among the watched ones; a status that is kept is known.
pub proof fn watched_repos_are_known(state: &mut DaemonState, repo: &str)
    requires
        call_ensures(DaemonState::on_watched, (state, repo), ()),
    ensures
        final(state)@.watched.contains(repo@),
        final(state)@.cache == old(state)@.cache,
        final(state)@.last_query_ns == old(state)@.last_query_ns,
{
}

/// A change is noted until the repo is refreshed.
pub proof fn changes_are_noted(pending: &mut PendingRefreshes, repo: &str, working_copy: bool)
    requires
        call_ensures(PendingRefreshes::note, (pending, repo, working_copy), ()),
    ensures
        final(pending)@.contains_key(repo@),
        final(pending)@[repo@] <==> working_copy || (old(pending)@.contains_key(repo@) && old(pending)@[repo@]),
{
}

/// The settings of a file are kept with its stamp.
pub proof fn settings_are_kept(cache: &mut ConfigCache, path: &str, stamp: FileStamp, text: &str)
    requires
        call_ensures(ConfigCache::store, (cache, path, stamp, Some(text)), ()),
    ensures
        final(cache)@.contains_key(path@),
        final(cache)@[path@] == (stamp, settings_in(text@)),
{
}

/// The events of changes are queued unless they are to be lost, and only the next ones are.
pub proof fn changes_are_queued(queue: &mut EventQueue, after: FileTable<MirrorEntry>)
    requires
        call_ensures(EventQueue::sync_mirror, (queue, after), ()),
    ensures
        final(queue).mirror == after,
        !final(queue).drop_next_sync,
        old(queue).drop_next_sync ==> views(final(queue).pending@) == views(old(queue).pending@),
        !old(queue).drop_next_sync ==> views(final(queue).pending@) == views(old(queue).pending@) + differing_paths(
            old(queue).mirror@,
            after@,
        ),
{
}

/// The repos that wait are handed out, each once and with whether the working copy can be
/// left out, and after that none waits.
pub proof fn waiting_repos_are_handed_out(
    pending: &mut PendingRefreshes,
    r: Vec<(String, bool)>,
    repo: Seq<char>,
)
    requires
        call_ensures(PendingRefreshes::drain, (pending,), r),
        old(pending)@.contains_key(repo),
    ensures
        final(pending)@.dom() == Set::<Seq<char>>::empty(),
        r@.len() == old(pending)@.dom().len(),
        exists|i: int| 0 <= i < r@.len() && (#[trigger] r@[i]).0@ == repo && r@[i].1 == !old(pending)@[repo],
{
    assert(final(pending)@.dom() =~= Set::<Seq<char>>::empty());
    let list = refresh_views(r@);
    assert(list.contains((repo, !old(pending)@[repo])));
    let i = choose|i: int| 0 <= i < list.len() && list[i] == (repo, !old(pending)@[repo]);
    assert(r@[i].0@ == repo);
}

/// A status that is kept is what the daemon knows of the repo from then on.
pub proof fn kept_statuses_are_known(state: &mut DaemonState, repo: &str, known: CachedStatus, other: Seq<char>)
    requires
        call_ensures(DaemonState::keep, (state, repo, known), ()),
    ensures
        final(state)@.cache.contains_key(repo@),
        final(state)@.cache[repo@] == (known.status@, known.formatted@),
        other != repo@ ==> final(state)@.cache.contains_key(other) == old(state)@.cache.contains_key(other),
        final(state)@.watched == old(state)@.watched,
{
}

} // verus!
