//! Calls give what is said of them.

use crate::aggregate::{counts_of, DiffCounts};
use crate::bookmarks::{bookmark_views, tracking_over, tracking_status, Bookmark, RemoteBookmark, TrackingStatus};
use crate::by_dir::{aggregate_overlay_stats_by_dir, dir_names, dir_of, dir_stats, IncrementalDiffStats};
use crate::cli::{arg_views, fast_from, try_fast_args, FastArgs};
use crate::conflicts::{contents_view, ConflictMarkerStyle, MergeOptions, RawValue};
use crate::daemon::{cleans_file, is_cleaned};
use crate::facts::{
    blob, copy_count, copy_record_parents, is_repo_path, record_count, rename_record_parents, snapshot_blob,
    source_visible_on_disk, visible_on_disk, DiskFacts, PathFacts, TreeFacts,
};
use crate::ignore_filter::{global_gitignore_path, global_ignore_at, opt_str, ExcludesFile};
use crate::jj_config::{
    alias_config_paths, alias_files, alias_list, alias_views, config_id, config_id_in, config_roots,
    conflict_marker_style_for_repo, file_aliases, jj_config_roots, keyed_config, keyed_config_paths, load_revset_aliases,
    no_settings, parse_settings, repo_dir, repo_dir_of, settings_in, style_config_paths, style_files, style_over, trim,
    trimmed, Alias, ConfigSettings,
};
use crate::lines::{first_line, lines_of, split_lines, take_first_line};
use crate::paths::{
    abs_to_repo_relative, batch_of, batch_paths, join, joined, normal, normalize, opt_views, path_starts_with,
    repo_relative, starts_with, strip_prefix, stripped, ChangedPath,
};
use crate::protocol::{
    continue_query, query_goes_on, running_lines, status_lines, stopped_lines, QueryAction, QueryEvent, QueryStep,
    Response, StatusOutcome,
};
use crate::repo_state::{
    compute_jj_full_status, metadata_status, metadata_view, CommitMetadata, JjRepoState, LoadedRepo,
};
use crate::replay::{
    begin_action, changed_paths, continue_action, differs, first_move, matches_oracle, move_after_query, must_match_now,
    seq_len, Action as Step, ActionFacts, Delivery, MirrorEntry, Move,
};
use crate::staging::{stage_changed, staged_batch, DiffState, Staging};
use crate::stats::FileDiffStats;
use crate::status::{with_counts, RepoStatus};
use crate::strings::views;
use crate::table::FileTable;
use crate::text::{content_fingerprint, count_lines, fingerprint, is_binary, line_count};
use crate::wc::{
    content_of, diff_single_file, diff_wc_values, disk_diff, materialized_bytes, normalize_conflict_sides, normalized,
    opt_view, raw_entry, raw_wc_value, snapshot_of, synthetic_wc_value, values_diff, vec_view, wc_value_text, value_text,
    MaterializedValue, WcEntry, WcValue,
};
use crate::worker::{answers_event, answers_request, Action, Event, JjWorkerRequest, Worker};
use vstd::prelude::*;

verus! {

/// What is read of a content: its lines, whether it is binary, and its fingerprint.
pub proof fn contents_are_read(content: &[u8], lines: u32, binary: bool, hash: Option<u64>)
    requires
        call_ensures(count_lines, (content,), lines),
        call_ensures(is_binary, (content,), binary),
        call_ensures(content_fingerprint, (content,), hash),
    ensures
        lines == line_count(content@) % 0x1_0000_0000,
        binary <==> exists|i: int| 0 <= i < content@.len() && i < 8192 && content@[i] == 0,
        hash == fingerprint(content@),
{
    if binary {
        let i = choose|i: int| 0 <= i < content@.len() && i < 8192 && content@[i] == 0;
        assert(content@[i] == 0);
    }
}

/// The lines of a text, its first line, and the text without white space around it.
pub proof fn texts_are_read(text: &str, all: Vec<String>, first: String, inner: String)
    requires
        call_ensures(split_lines, (text,), all),
        call_ensures(take_first_line, (text,), first),
        call_ensures(trim, (text,), inner),
    ensures
        views(all@) == lines_of(text@),
        first@ == first_line(text@),
        inner@ == trimmed(text@),
{
}

/// The next value of a path, and how it differs.
pub proof fn values_are_derived_and_compared(
    commit: WcEntry,
    disk: Option<&[u8]>,
    executable: bool,
    visible: bool,
    options: MergeOptions,
    next: WcEntry,
    before: &WcEntry,
    after: &WcEntry,
    style: ConflictMarkerStyle,
    diff: Option<FileDiffStats>,
    parent: &Option<MaterializedValue>,
    single: Option<FileDiffStats>,
)
    requires
        call_ensures(synthetic_wc_value, (commit, disk, executable, visible, options), next),
        call_ensures(diff_wc_values, (before, after, style, options), diff),
        call_ensures(diff_single_file, (parent, disk, style, options), single),
    ensures
        next@ == snapshot_of(commit@, crate::stats::content_view(disk), executable, visible, options),
        diff.deep_view() == values_diff(before@, after@, style, options),
        single.deep_view() == disk_diff(opt_view(*parent), crate::stats::content_view(disk), style, options),
{
}

/// What a stored value stands for.
pub proof fn stored_values_are_read(
    value: &MaterializedValue,
    style: ConflictMarkerStyle,
    options: MergeOptions,
    bytes: Option<Vec<u8>>,
    sides: &Vec<Vec<u8>>,
    executable: bool,
    left: WcValue,
    raw: &RawValue,
    stored: &Option<MaterializedValue>,
    entry: WcEntry,
    own: &WcValue,
    text: Option<Vec<u8>>,
)
    requires
        call_ensures(materialized_bytes, (value, style, options), bytes),
        call_ensures(normalize_conflict_sides, (sides, executable), left),
        call_ensures(raw_wc_value, (raw, stored), entry),
        call_ensures(wc_value_text, (own, style, options), text),
    ensures
        vec_view(bytes) == content_of(value@, style, options),
        left@ == normalized(contents_view(sides@), executable),
        entry@ == raw_entry(crate::conflicts::raw_view(raw@), opt_view(*stored)),
        vec_view(text) == value_text(own@, style, options),
{
}

/// What is found of two paths: the records of renames and copies, what copy detection sees,
/// and whether a path is visible.
pub proof fn paths_are_held_against_each_other(
    source: &PathFacts,
    target: &PathFacts,
    style: ConflictMarkerStyle,
    options: MergeOptions,
    renames: usize,
    copies: usize,
    seen: Option<Vec<u8>>,
    visible: bool,
)
    requires
        call_ensures(rename_record_parents, (source, target, style, options), renames),
        call_ensures(copy_record_parents, (source, target, style, options), copies),
        call_ensures(snapshot_blob, (target, options), seen),
        call_ensures(source_visible_on_disk, (source,), visible),
    ensures
        renames == record_count(source@, target@, style, options),
        copies == copy_count(source@, target@, style, options),
        vec_view(seen) == blob(target@, options),
        visible == visible_on_disk(source@),
{
}

/// A batch of changed paths is staged.
pub proof fn changed_paths_are_staged(
    state: &DiffState,
    facts: &FileTable<PathFacts>,
    changed: &Vec<String>,
    staging: Staging,
)
    requires
        call_ensures(stage_changed, (state, facts, changed), staging),
    ensures
        staging@ == staged_batch(state@, facts@, views(changed@)),
{
}

/// The status of a commit, of a full refresh, and of a retained state.
pub proof fn statuses_are_put_together(
    metadata: &CommitMetadata,
    bookmarks: Vec<Bookmark>,
    first: RepoStatus,
    loaded: LoadedRepo,
    files: FileTable<FileDiffStats>,
    full: (RepoStatus, JjRepoState),
    state: &JjRepoState,
    now: RepoStatus,
)
    requires
        call_ensures(metadata_status, (metadata, bookmarks), first),
        call_ensures(compute_jj_full_status, (first, loaded, files), full),
        call_ensures(JjRepoState::current_status, (state,), now),
        loaded.parent_tree_ids is Some,
    ensures
        first@ == metadata_view(*metadata, bookmark_views(bookmarks@)),
        (full.0)@ == with_counts(first@, counts_of(files@)),
        full.1.diff@.base == files@,
        full.1.diff@.overlay.dom() == Set::<Seq<char>>::empty(),
        full.1.diff@.style == loaded.conflict_marker_style,
        full.1.diff@.parents == loaded.copy_tree_ids@.len(),
        full.1.op_id == loaded.op_id,
        now@ == with_counts(
            state.base_status@,
            counts_of(crate::aggregate::effective(state.diff@.base, state.diff@.overlay)),
        ),
{
    assert(full.1.diff@.overlay.dom() =~= Set::<Seq<char>>::empty());
}

/// The repo-relative paths of changed ones, and what paths are made of.
pub proof fn paths_are_made_relative(
    root: &str,
    path: &str,
    resolved: &Vec<Option<String>>,
    one: Option<String>,
    changed: &Vec<ChangedPath>,
    all: Vec<String>,
    both: String,
    below: bool,
    rest: Option<String>,
    plain: String,
)
    requires
        call_ensures(abs_to_repo_relative, (root, path, resolved), one),
        call_ensures(batch_paths, (root, changed), all),
        call_ensures(join, (root, path), both),
        call_ensures(starts_with, (path, root), below),
        call_ensures(strip_prefix, (path, root), rest),
        call_ensures(normalize, (path,), plain),
    ensures
        one.deep_view() == repo_relative(root@, path@, opt_views(resolved@)),
        views(all@) == batch_of(root@, changed.deep_view()),
        both@ == joined(root@, path@),
        below == path_starts_with(path@, root@),
        rest.deep_view() == stripped(path@, root@),
        plain@ == normal(path@),
{
}

/// jj's configuration: where it lies and what it says.
pub proof fn configuration_is_read(
    text: &str,
    settings: ConfigSettings,
    none: ConfigSettings,
    styles: &Vec<Option<ConflictMarkerStyle>>,
    style: ConflictMarkerStyle,
    files: &Vec<&ConfigSettings>,
    aliases: Vec<Alias>,
    id: Option<String>,
    repo: &str,
    dir: String,
)
    requires
        call_ensures(parse_settings, (Some(text),), settings),
        call_ensures(parse_settings, (None,), none),
        call_ensures(conflict_marker_style_for_repo, (styles,), style),
        call_ensures(load_revset_aliases, (files,), aliases),
        call_ensures(config_id, (text,), id),
        call_ensures(repo_dir, (repo, Some(text)), dir),
    ensures
        settings@ == settings_in(text@),
        none@ == no_settings(),
        style == style_over(styles@),
        alias_views(aliases@) == alias_list(file_aliases(files@)),
        id.deep_view() == config_id_in(text@),
        dir@ == repo_dir_of(repo@, Some(text@)),
{
}

/// The files that configuration is looked for in.
pub proof fn configuration_is_looked_for(
    env: Option<&str>,
    config: Option<&str>,
    home: Option<&str>,
    roots: &Vec<String>,
    repo_config: String,
    dirs: Vec<String>,
    styles: Vec<String>,
    aliases: Vec<String>,
    id: &str,
    keyed: Vec<String>,
    answer: &ExcludesFile,
    global: Option<String>,
)
    requires
        call_ensures(jj_config_roots, (config, home), dirs),
        call_ensures(style_config_paths, (env, home, roots, repo_config), styles),
        call_ensures(alias_config_paths, (env, config, home), aliases),
        call_ensures(keyed_config_paths, (roots, id), keyed),
        call_ensures(global_gitignore_path, (answer, home), global),
    ensures
        views(dirs@) == config_roots(opt_str(config), opt_str(home)),
        views(styles@) == style_files(opt_str(env), opt_str(home), views(roots@), repo_config@),
        views(aliases@) == alias_files(opt_str(env), opt_str(config), opt_str(home)),
        views(keyed@) == views(roots@).map_values(|root: Seq<char>| keyed_config(root, id@)),
        global.deep_view() == global_ignore_at(*answer, opt_str(home)),
{
}

/// A worker's steps, a query's steps, the arguments of the client, and what is cleaned.
pub proof fn steps_are_taken(
    worker: Worker,
    request: JjWorkerRequest,
    event: Event,
    asked: (Worker, Action),
    told: (Worker, Action),
    step: QueryStep,
    what: QueryEvent,
    next: (QueryStep, QueryAction),
    args: &Vec<Option<String>>,
    fast: FastArgs,
    own: u32,
    new: u32,
    name: &str,
    cleaned: bool,
    remotes: &Vec<RemoteBookmark>,
    tracking: TrackingStatus,
)
    requires
        call_ensures(Worker::on_request, (worker, request), asked),
        call_ensures(Worker::on_event, (worker, event), told),
        call_ensures(continue_query, (step, what), next),
        call_ensures(try_fast_args, (args,), fast),
        call_ensures(cleans_file, (own, new, name), cleaned),
        call_ensures(tracking_status, (remotes, name), tracking),
    ensures
        answers_request(worker, request, asked.0, asked.1),
        answers_event(worker, event, told.0, told.1),
        query_goes_on(step, what, next.0, next.1),
        fast == fast_from(arg_views(args@), 0, FastArgs::Here),
        cleaned == is_cleaned(own, new, name@),
        tracking == tracking_over(remotes@, name@),
{
}

/// What an action does, at first and after its query.
pub proof fn actions_are_taken(
    action: Step,
    delivery: Delivery,
    stale: bool,
    second: bool,
    facts: &ActionFacts,
    first: Move,
    output: Option<&str>,
    next: Move,
)
    requires
        call_ensures(begin_action, (action, delivery, stale, second, facts), first),
        call_ensures(continue_action, (action, output), next),
    ensures
        first@ == first_move(action, delivery, stale, second, *facts),
        next@ == move_after_query(action, opt_str(output)),
{
}

/// The status of the daemon is told in lines, or its error is given.
pub proof fn daemon_status_is_told(
    outcome: StatusOutcome,
    pid_path: &str,
    socket: &str,
    r: Result<Vec<String>, String>,
)
    requires
        call_ensures(status_lines, (outcome, pid_path, socket), r),
    ensures
        outcome matches StatusOutcome::Answer(Response::DaemonStatus { pid, uptime_secs, watched_repos }) ==> r is Ok
            && views(r->Ok_0@) == running_lines(pid as nat, uptime_secs as nat, views(watched_repos@), socket@),
        outcome matches StatusOutcome::Answer(Response::Error { message }) ==> r == Err::<Vec<String>, String>(message),
        outcome matches StatusOutcome::NotRunning { stale_pid } ==> r is Ok && views(r->Ok_0@) == stopped_lines(
            stale_pid.deep_view(),
            pid_path@,
            socket@,
        ),
{
}

/// The sums of a retained state are those of its diff.
pub proof fn retained_states_are_summed_up(
    state: &JjRepoState,
    counts: DiffCounts,
    stats: IncrementalDiffStats,
)
    requires
        call_ensures(JjRepoState::aggregate_stats, (state,), counts),
        call_ensures(JjRepoState::overlay_stats, (state,), stats),
    ensures
        counts == counts_of(crate::aggregate::effective(state.diff@.base, state.diff@.overlay)),
        stats.files_changed == counts.file_mad_count,
        stats.lines_added == counts.lines_added,
        stats.lines_removed == counts.lines_removed,
        stats.base_files == state.diff@.base.dom().len() % 0x1_0000_0000,
        stats.overlay_entries == state.diff@.overlay.dom().len() % 0x1_0000_0000,
{
}

/// Every directory with an entry is in the list by directory, once, with its stats.
pub proof fn directories_are_summed_up(
    base: &FileTable<FileDiffStats>,
    overlay: &FileTable<Option<FileDiffStats>>,
    r: Vec<(String, IncrementalDiffStats)>,
    file: Seq<char>,
)
    requires
        call_ensures(aggregate_overlay_stats_by_dir, (base, overlay), r),
        base@.contains_key(file) || overlay@.contains_key(file),
    ensures
        exists|i: int|
            0 <= i < r@.len() && (#[trigger] r@[i]).0@ == dir_of(file) && r@[i].1 == dir_stats(
                base@,
                overlay@,
                dir_of(file),
            ),
        forall|i: int, j: int| 0 <= i < j < r@.len() ==> (#[trigger] r@[i]).0@ != (#[trigger] r@[j]).0@,
{
    let all = base@.dom() + overlay@.dom();
    assert(all.contains(file));
    assert(dir_names(r@).contains(dir_of(file)));
    let i = choose|i: int| 0 <= i < dir_names(r@).len() && dir_names(r@)[i] == dir_of(file);
    assert(r@[i].0@ == dir_of(file));
    assert forall|i: int, j: int| 0 <= i < j < r@.len() implies (#[trigger] r@[i]).0@ != (#[trigger] r@[j]).0@ by {
        assert(dir_names(r@)[i] != dir_names(r@)[j]);
    }
}

/// What is known of a path is what was found, and whether it can name a file.
pub proof fn facts_are_put_together(path: &str, on_disk: DiskFacts, in_trees: TreeFacts, r: PathFacts)
    requires
        call_ensures(PathFacts::new, (path, on_disk, in_trees), r),
    ensures
        r@.valid == is_repo_path(path@),
        r@.disk == vec_view(on_disk.disk),
        r@.executable == on_disk.executable,
        r@.exists == on_disk.exists,
        r@.not_ignored == on_disk.not_ignored,
        r@.parent == in_trees.parent@,
        r@.parent_labeled == opt_view(in_trees.parent_labeled),
        r@.commit == in_trees.commit@,
        r@.parents.len() == in_trees.parents@.len(),
{
}

/// The counts of the engine are held against those of jj, in perfect mode after every action
/// with a status unless the workspace is stale; sequences have at least three actions.
pub proof fn sequences_are_held_against_jj(
    delivery: Delivery,
    stale: bool,
    has_status: bool,
    must: bool,
    counts: &DiffCounts,
    files: u32,
    added: u32,
    removed: u32,
    matches_it: bool,
    bound: Option<usize>,
    lengths: (usize, usize),
)
    requires
        call_ensures(must_match_now, (delivery, stale, has_status), must),
        call_ensures(matches_oracle, (counts, files, added, removed), matches_it),
        call_ensures(seq_len, (bound,), lengths),
    ensures
        must <==> delivery == Delivery::Perfect && !stale && has_status,
        matches_it <==> counts.file_mad_count == files && counts.lines_added == added && counts.lines_removed == removed,
        lengths.0 == 3,
        bound is None ==> lengths.1 == 10,
        bound is Some && bound->0 >= 4 ==> lengths.1 == bound->0,
        bound is Some && bound->0 < 4 ==> lengths.1 == 4,
{
}

/// The paths that changed between two states of the disk are all that differ.
pub proof fn changed_paths_are_all_that_differ(
    before: &FileTable<MirrorEntry>,
    after: &FileTable<MirrorEntry>,
    r: Vec<String>,
    path: Seq<char>,
)
    requires
        call_ensures(changed_paths, (before, after), r),
    ensures
        views(r@).contains(path) <==> differs(before@, after@, path),
        views(r@).no_duplicates(),
{
    assert(views(r@).contains(path) <==> views(r@).to_set().contains(path));
}

} // verus!
