//! What calls give back for what they are given.

use crate::aggregate::{aggregate_file_stats, aggregate_overlay_stats, counts_of, effective, DiffCounts};
use crate::bookmarks::{
    bookmark_views, classify_tracking, find_ancestor_bookmarks, Bookmark, CommitFacts, LocalBookmark, RemoteBookmark,
    Search, TrackingStatus,
};
use crate::cli::{find_repo, query_repo, DirFacts};
use crate::config::{config_path, file_to_edit, load_config, reload_config, Config, ConfigFile};
use crate::daemon::{
    binary_verdict, goes_on, socket_verdict, start_verdict, BinaryVerdict, DaemonState, SocketVerdict,
    StartVerdict,
};
use crate::facts::{rename_record_parents, PathFacts};
use crate::git_status::{query_git_status, GitFacts};
use crate::ignore_filter::{in_vcs, rules_ignore, EventPath, IgnoreFilter, VcsKind};
use crate::laws::bookmarks::{a_bookmark_in_reach_is_shown, bookmarks_of_the_line_are_shown, is_shown_within};
use crate::laws::counts::{changed_text_counts_what_differs, whole_files_count_their_lines};
use crate::laws::renames::{is_new_and_old, is_text, one_parent_yields_one_record, similarity_is_the_share_kept};
use crate::linediff::{cuts_lines, left_text, line_diff, right_text};
use crate::paths::joined;
use crate::protocol::{
    add_version, begin_query, extract_status, is_other_version, restart_step, shutdown, QueryAction, QueryStep, Response,
    RestartAction,
};
use crate::similarity::{content_similarity, to_single};
use crate::stats::{diff_stats_for_contents, FileChangeKind, FileDiffStats};
use crate::status::RepoStatus;
use crate::strings::views;
use crate::table::FileTable;
use crate::watch::{dirs_to_watch, watch_event, EventKind, WatchEvent, WatchedDir};
use vstd::prelude::*;

verus! {

/// The stats of a text file that came or went count all its lines, of whatever length it is;
/// there are none where nothing changed.
pub proof fn counted_lines_are_those_of_the_file(content: &[u8], added: Option<FileDiffStats>, gone: Option<FileDiffStats>, same: Option<FileDiffStats>)
    requires
        forall|i: int| 0 <= i < content@.len() && i < 8192 ==> #[trigger] content@[i] != 0,
        call_ensures(diff_stats_for_contents, (None, Some(content)), added),
        call_ensures(diff_stats_for_contents, (Some(content), None), gone),
        call_ensures(diff_stats_for_contents, (Some(content), Some(content)), same),
    ensures
        ({
            let lines = content@.filter(|b: u8| b == 10).len() + if content@.len() > 0 && content@.last() != 10 {
                1int
            } else {
                0
            };
            &&& added is Some && added->0.kind == FileChangeKind::Added
            &&& added->0.lines_added == lines % 0x1_0000_0000 && added->0.lines_removed == 0
            &&& gone is Some && gone->0.kind == FileChangeKind::Deleted
            &&& gone->0.lines_added == 0 && gone->0.lines_removed == lines % 0x1_0000_0000
            &&& same is None
        }),
{
    whole_files_count_their_lines(content@);
}

/// The stats of a changed text count the lines of both sides that differ.
pub proof fn counted_lines_are_those_that_differ(before: &[u8], after: &[u8], changed: Option<FileDiffStats>)
    requires
        before@ != after@,
        cuts_lines(line_diff(before@, after@), before@, after@),
        forall|i: int| 0 <= i < before@.len() && i < 8192 ==> #[trigger] before@[i] != 0,
        forall|i: int| 0 <= i < after@.len() && i < 8192 ==> #[trigger] after@[i] != 0,
        call_ensures(diff_stats_for_contents, (Some(before), Some(after)), changed),
    ensures
        ({
            let hunks = line_diff(before@, after@).filter(|h: (bool, Seq<u8>, Seq<u8>)| h.0);
            let gained = right_text(hunks);
            let lost = left_text(hunks);
            &&& changed is Some && changed->0.kind == FileChangeKind::Modified
            &&& changed->0.lines_added == (gained.filter(|b: u8| b == 10).len() + if gained.len() > 0 && gained.last()
                != 10 {
                1int
            } else {
                0
            }) % 0x1_0000_0000
            &&& changed->0.lines_removed == (lost.filter(|b: u8| b == 10).len() + if lost.len() > 0 && lost.last()
                != 10 {
                1int
            } else {
                0
            }) % 0x1_0000_0000
        }),
{
    changed_text_counts_what_differs(before@, after@);
}

/// Two texts are alike by half exactly where twice the bytes that the line diff keeps reach
/// the larger of both lengths, whichever is longer.
pub proof fn alike_by_half_is_by_kept_bytes(before: &[u8], after: &[u8], r: u32)
    requires
        call_ensures(content_similarity, (before, after), r),
        is_text(before@),
        is_text(after@),
        before@ != after@,
        left_text(line_diff(before@, after@)) == before@,
    ensures
        ({
            let kept = before@.len() - left_text(
                line_diff(before@, after@).filter(|h: (bool, Seq<u8>, Seq<u8>)| h.0),
            ).len();
            let larger = if before@.len() >= after@.len() {
                before@.len()
            } else {
                after@.len()
            };
            &&& r >= 0x100_0000 <==> 2 * to_single(kept as nat) >= to_single(larger)
            &&& larger <= 0x100_0000 ==> (r >= 0x100_0000 <==> 2 * kept >= larger)
        }),
{
    similarity_is_the_share_kept(before@, after@);
}

/// One parent that has the source and lacks the target yields a record where the two are
/// alike by half, and none where they are not.
pub proof fn records_are_found_by_kept_bytes(
    source: &PathFacts,
    target: &PathFacts,
    style: crate::conflicts::ConflictMarkerStyle,
    options: crate::conflicts::MergeOptions,
    content: Seq<u8>,
    disk: Seq<u8>,
    r: usize,
)
    requires
        call_ensures(rename_record_parents, (source, target, style, options), r),
        is_new_and_old(source@, target@, content, disk),
    ensures
        ({
            let kept = content.len() - left_text(
                line_diff(content, disk).filter(|h: (bool, Seq<u8>, Seq<u8>)| h.0),
            ).len();
            let larger = if content.len() >= disk.len() {
                content.len()
            } else {
                disk.len()
            };
            r == if content == disk || 2 * to_single(kept as nat) >= to_single(larger) {
                1int
            } else {
                0
            }
        }),
{
    one_parent_yields_one_record(source@, target@, style, options, content, disk);
}

/// The bookmarks that are found have every local one that can be reached over the line of
/// work in as many steps as are allowed, no further away than that, where the line is known;
/// and there is one wherever any can be reached at all.
pub proof fn bookmarks_in_reach_are_found(
    commits: &FileTable<CommitFacts>,
    local: &Vec<LocalBookmark>,
    remotes: &Vec<RemoteBookmark>,
    wc: &str,
    max_depth: u32,
    line_known: bool,
    list: Vec<Bookmark>,
    path: Seq<Seq<char>>,
    place: int,
)
    requires
        call_ensures(
            find_ancestor_bookmarks,
            (commits, local, remotes, wc, max_depth, line_known),
            Search::Found(list),
        ),
        path.len() > 0,
        path.len() - 1 <= max_depth,
        path[0] == wc@,
        forall|i: int|
            0 <= i < path.len() - 1 ==> commits@[#[trigger] path[i]].parents is Some
                && commits@[path[i]].parents->0.contains(path[i + 1]),
        0 <= place < local@.len(),
        local@[place].commit is Some,
        local@[place].commit->0@ == path.last(),
    ensures
        list@.len() > 0,
        line_known && (forall|i: int|
            0 <= i < path.len() && (0 < i || path.len() == 1) ==> commits@[#[trigger] path[i]].in_branch) ==> exists|
            k: int,
        | 0 <= k < list@.len() && (#[trigger] list@[k]).name@ == local@[place].name@ && list@[k].distance <= path.len()
            - 1,
{
    let shown = bookmark_views(list@);
    a_bookmark_in_reach_is_shown(commits@, local@, remotes@, max_depth, line_known, path, place);
    assert(shown.len() == list@.len());
    if line_known && (forall|i: int|
        0 <= i < path.len() && (0 < i || path.len() == 1) ==> commits@[#[trigger] path[i]].in_branch) {
        bookmarks_of_the_line_are_shown(commits@, local@, remotes@, max_depth, path, place);
        assert(is_shown_within(shown, local@[place].name@, path.len() - 1));
        let k = choose|k: int|
            0 <= k < shown.len() && (#[trigger] shown[k]).name == local@[place].name@ && shown[k].distance
                <= path.len() - 1;
        assert(list@[k].name@ == local@[place].name@ && list@[k].distance == shown[k].distance);
    }
}

/// A local bookmark stands to its remote as the commits do.
pub proof fn tracking_follows_ancestry(same: bool, local: bool, remote: bool, r: TrackingStatus)
    requires
        call_ensures(classify_tracking, (same, local, remote), r),
    ensures
        same ==> r is InSync,
        !same && local && !remote ==> r is Behind,
        !same && !local && remote ==> r is Ahead,
        !same && local == remote ==> r is Sideways,
{
}

/// A git status has the numbers of its three diffs, each in its own fields, and fails where
/// one has none.
pub proof fn git_numbers_are_those_of_the_diffs(facts: GitFacts, r: Result<RepoStatus, String>)
    requires
        call_ensures(query_git_status, (facts,), r),
        facts.head is Some,
    ensures
        r is Err <==> facts.unstaged is NoStats || facts.staged is NoStats || facts.total is NoStats,
        r is Ok && facts.unstaged is Stats ==> {
            let d = facts.unstaged->Stats_0;
            &&& d.files_changed <= u32::MAX ==> r->Ok_0.files_changed == d.files_changed
            &&& d.insertions <= u32::MAX ==> r->Ok_0.lines_added == d.insertions
            &&& d.deletions <= u32::MAX ==> r->Ok_0.lines_removed == d.deletions
        },
        r is Ok && facts.staged is Stats ==> {
            let d = facts.staged->Stats_0;
            &&& d.files_changed <= u32::MAX ==> r->Ok_0.staged_files_changed == d.files_changed
            &&& d.insertions <= u32::MAX ==> r->Ok_0.staged_lines_added == d.insertions
            &&& d.deletions <= u32::MAX ==> r->Ok_0.staged_lines_removed == d.deletions
        },
        r is Ok && facts.total is Stats ==> {
            let d = facts.total->Stats_0;
            &&& d.files_changed <= u32::MAX ==> r->Ok_0.total_files_changed == d.files_changed
            &&& d.insertions <= u32::MAX ==> r->Ok_0.total_lines_added == d.insertions
            &&& d.deletions <= u32::MAX ==> r->Ok_0.total_lines_removed == d.deletions
        },
        r is Ok ==> r->Ok_0.is_git && !r->Ok_0.is_jj && r->Ok_0.conflict == facts.has_conflicts,
        r is Ok && facts.head->0.shorthand is Some ==> r->Ok_0.branch@ == facts.head->0.shorthand->0@,
{
    crate::laws::status::git_status_fails_with_the_first_error(facts);
    crate::laws::status::git_status_shows_head(facts, facts.head->0);
    if r is Ok {
        crate::laws::status::status_says_what_it_holds(r->Ok_0);
    }
}

/// The sums of a diff are those of the base with the overlay over it.
pub proof fn sums_are_those_of_the_diff(
    base: &FileTable<FileDiffStats>,
    overlay: &FileTable<Option<FileDiffStats>>,
    r: DiffCounts,
    s: DiffCounts,
)
    requires
        call_ensures(aggregate_overlay_stats, (base, overlay), r),
        call_ensures(aggregate_file_stats, (base,), s),
    ensures
        r == counts_of(effective(base@, overlay@)),
        s == counts_of(base@),
{
}

/// An event that is no modification is skipped. Of any other one the paths outside version
/// control that the rules do not ignore are passed on, all of them; where there are such
/// paths but the rules ignore them all, the event is ignored.
pub proof fn events_pass_what_is_not_ignored(
    kind: EventKind,
    filter: &IgnoreFilter,
    vcs_dir: &str,
    paths: &Vec<EventPath>,
    r: WatchEvent,
    i: int,
)
    requires
        call_ensures(watch_event, (kind, filter, vcs_dir, paths), r),
        0 <= i < paths@.len(),
        !in_vcs(paths@[i].path@, vcs_dir@, None),
    ensures
        !kind.is_modify && !kind.is_create && !kind.is_remove ==> r is Skipped,
        (kind.is_modify || kind.is_create || kind.is_remove) && !rules_ignore(
            filter@.rules,
            paths@[i].path@,
            paths@[i].is_dir,
        ) ==> r is Change && r->working_copy_changed && views(r->changed_paths@).contains(paths@[i].path@),
        (kind.is_modify || kind.is_create || kind.is_remove) && (forall|k: int|
            0 <= k < paths@.len() ==> in_vcs((#[trigger] paths@[k]).path@, vcs_dir@, None) || rules_ignore(
                filter@.rules,
                paths@[k].path@,
                paths@[k].is_dir,
            )) ==> r is Ignored,
{
    let keep = |p: EventPath|
        !in_vcs(p.path@, vcs_dir@, None) && !crate::ignore_filter::path_ignored(filter@, p.path@, p.is_dir);
    let outside = |p: EventPath| !in_vcs(p.path@, vcs_dir@, None);
    let through = crate::ignore_filter::let_through(filter@, paths@, vcs_dir@, None);
    assert(crate::watch::touches_working_copy(paths@, vcs_dir@));
    paths@.lemma_filter_contains(outside, i);
    if !rules_ignore(filter@.rules, paths@[i].path@, paths@[i].is_dir) {
        paths@.lemma_filter_contains(keep, i);
        let k = choose|k: int| 0 <= k < through.len() && through[k] == paths@[i];
        assert(crate::ignore_filter::event_paths(through)[k] == paths@[i].path@);
    }
    if forall|k: int|
        0 <= k < paths@.len() ==> in_vcs((#[trigger] paths@[k]).path@, vcs_dir@, None) || rules_ignore(
            filter@.rules,
            paths@[k].path@,
            paths@[k].is_dir,
        ) {
        if through.len() > 0 {
            paths@.lemma_filter_pred(keep, 0);
            paths@.lemma_filter_contains_rev(keep, through[0]);
            let k = choose|k: int| 0 <= k < paths@.len() && paths@[k] == through[0];
            assert(in_vcs(paths@[k].path@, vcs_dir@, None) || rules_ignore(
                filter@.rules,
                paths@[k].path@,
                paths@[k].is_dir,
            ));
        }
    }
}

/// Apart from the working copy, a repo of jj is watched where its operations are, and one of
/// git in its own directory and its refs, as far as these are there.
pub proof fn directories_of_version_control_are_watched(
    kind: VcsKind,
    heads: bool,
    git: bool,
    refs: bool,
    r: Vec<WatchedDir>,
)
    requires
        call_ensures(dirs_to_watch, (kind, heads, git, refs), r),
    ensures
        r@.contains(WatchedDir::OpHeads) <==> kind == VcsKind::Jj && heads,
        r@.contains(WatchedDir::GitDir) <==> kind == VcsKind::Git && git,
        r@.contains(WatchedDir::GitRefs) <==> kind == VcsKind::Git && git && refs,
{
    let both = seq![WatchedDir::GitDir, WatchedDir::GitRefs];
    let one = seq![WatchedDir::GitDir];
    let op = seq![WatchedDir::OpHeads];
    assert(both[0] is GitDir && both[1] is GitRefs && one[0] is GitDir && op[0] is OpHeads);
    if r@ == both {
        assert(r@.contains(both[0]) && r@.contains(both[1]));
    }
    if r@ == one {
        assert(r@.contains(one[0]));
    }
    if r@ == op {
        assert(r@.contains(op[0]));
    }
}

/// A daemon refuses to run as root unless that is allowed or its directory is set; it runs as
/// long as its socket is there and it is not idle; it takes over a socket that nobody answers
/// on, and leaves one alone that somebody does.
pub proof fn daemons_start_and_end(
    is_root: bool,
    allowed: bool,
    set: bool,
    start: StartVerdict,
    socket: bool,
    idle: bool,
    on: bool,
    connects: bool,
    verdict: SocketVerdict,
)
    requires
        call_ensures(start_verdict, (is_root, allowed, set), start),
        call_ensures(goes_on, (socket, idle), on),
        call_ensures(socket_verdict, (socket, connects), verdict),
    ensures
        start is RefuseRoot <==> is_root && !allowed && !set,
        on <==> socket && !idle,
        verdict is Bind <==> !socket,
        verdict is AlreadyRunning <==> socket && connects,
        verdict is RemoveStale <==> socket && !connects,
{
}

/// A daemon is idle once more time than its timeout has passed since the last query.
pub proof fn daemons_are_idle_after_the_timeout(state: &DaemonState, now: u128, timeout: u64, r: bool)
    requires
        call_ensures(DaemonState::is_idle, (state, now, timeout), r),
    ensures
        r <==> now > state@.last_query_ns + timeout * 1_000_000_000,
{
}

/// A daemon whose binary was replaced runs the new one, and ends where it is gone.
pub proof fn binaries_are_followed(start: u64, now: Option<u64>, r: BinaryVerdict)
    requires
        call_ensures(binary_verdict, (start, now), r),
    ensures
        r is Shutdown <==> now is None,
        r is Unchanged <==> now == Some(start),
        r is Restart <==> now is Some && now->0 != start,
{
}

/// While a repo is refreshed its known status is shown as stale; after a failure with the
/// error, and after a success the new one, as it is.
pub proof fn refreshes_show_what_is_known(
    state: &DaemonState,
    repo: &str,
    during: Option<RepoStatus>,
    fresh: RepoStatus,
    good: Option<RepoStatus>,
    error: String,
    bad: Option<RepoStatus>,
)
    requires
        call_ensures(DaemonState::begin_refresh, (state, repo), during),
        call_ensures(DaemonState::end_refresh, (state, repo, Ok(fresh)), good),
        call_ensures(DaemonState::end_refresh, (state, repo, Err(error)), bad),
    ensures
        good == Some(fresh),
        during is Some <==> state@.cache.contains_key(repo@),
        bad is Some <==> state@.cache.contains_key(repo@),
        during is Some ==> during->0@.is_stale && during->0@.refresh_error.len() == 0 && during->0@.description
            == state@.cache[repo@].0.description && during->0@.file_mad_count == state@.cache[repo@].0.file_mad_count,
        bad is Some ==> bad->0@.is_stale && bad->0@.refresh_error == error@ && bad->0@.description
            == state@.cache[repo@].0.description && bad->0@.file_mad_count == state@.cache[repo@].0.file_mad_count,
{
}

/// Without a configuration file the defaults hold; a broken one is an error at the start and
/// changes nothing later; any other one is what holds.
pub proof fn configuration_files_hold(file: ConfigFile, current: Config, r: Result<Config, String>, later: Config)
    requires
        call_ensures(load_config, (file,), r),
        call_ensures(reload_config, (current, file), later),
    ensures
        file is Missing ==> {
            &&& r is Ok && r->Ok_0.idle_timeout_secs == 3600 && r->Ok_0.debounce_ms == 200
            &&& r->Ok_0.bookmark_search_depth == 10 && r->Ok_0.socket_path is None
            &&& r->Ok_0.format@ == "{change_id} {bookmarks}{metrics} {state}"@
            &&& later.idle_timeout_secs == 3600 && later.bookmark_search_depth == 10 && later.debounce_ms == 200
        },
        file matches ConfigFile::Broken(message) ==> r == Err::<Config, String>(message) && later == current,
        file matches ConfigFile::Parsed(config) ==> r == Ok::<Config, String>(config) && later == config,
{
}

/// The socket is the configured one, else one that has the user's name in it; the
/// configuration lies below the config directory.
pub proof fn sockets_and_files_have_their_place(
    config: &Config,
    user: &str,
    r: String,
    nobody: String,
    dir: &str,
    file: Option<String>,
    none: Option<String>,
)
    requires
        call_ensures(Config::socket_path, (config, Some(user)), r),
        call_ensures(Config::socket_path, (config, None), nobody),
        call_ensures(config_path, (Some(dir),), file),
        call_ensures(config_path, (None,), none),
    ensures
        config.socket_path is Some ==> r@ == config.socket_path->0@ && nobody@ == config.socket_path->0@,
        config.socket_path is None ==> r@ == "/tmp/jj-status-daemon-"@ + user@ + ".sock"@,
        config.socket_path is None ==> nobody@ == "/tmp/jj-status-daemon-"@ + "unknown"@ + ".sock"@,
        file is Some && file->0@ == joined(joined(dir@, "jj-status-daemon"@), "config.toml"@),
        none is None,
{
}

/// The file to edit is the one that exists, else the one that may be made; a query is for the
/// repo of its subcommand, else for the one named before it.
pub proof fn first_choices_come_first(
    a: Option<String>,
    b: Option<String>,
    file: Option<String>,
    repo: Option<String>,
)
    requires
        call_ensures(file_to_edit, (a, b), file),
        call_ensures(query_repo, (a, b), repo),
    ensures
        a is Some ==> file == a && repo == a,
        a is None ==> file == b && repo == b,
{
}

/// The nearest directory that holds a repo is its root; jj comes before git in one directory,
/// and a nearer repo of git before a farther one of jj.
pub proof fn nearest_repo_is_found(dirs: &Vec<DirFacts>, r: Option<(usize, VcsKind)>, i: int)
    requires
        call_ensures(find_repo, (dirs,), r),
        0 <= i < dirs@.len(),
        dirs@[i].has_jj || dirs@[i].has_git,
        forall|k: int| 0 <= k < i ==> !(#[trigger] dirs@[k]).has_jj && !dirs@[k].has_git,
    ensures
        r is Some,
        (r->0).0 == i,
        (r->0).1 == if dirs@[i].has_jj {
            VcsKind::Jj
        } else {
            VcsKind::Git
        },
{
    if r is Some {
        let up = (r->0).0 as int;
        if up < i {
            assert(!dirs@[up].has_jj);
        }
        if i < up {
            assert(crate::cli::repo_kind(dirs@[i]) is None);
        }
    } else {
        assert(crate::cli::repo_kind(dirs@[i]) is None);
    }
}

/// A response gives its text or its error; a shutdown succeeds unless it could not be sent or
/// was answered with an error.
pub proof fn responses_give_text_or_error(
    response: Response,
    r: Result<String, String>,
    done: Result<(), String>,
    unsent: Result<(), String>,
)
    requires
        call_ensures(extract_status, (response,), r),
        call_ensures(shutdown, (Some(response),), done),
        call_ensures(shutdown, (None,), unsent),
    ensures
        response matches Response::Status { formatted } ==> r == Ok::<String, String>(formatted) && done is Ok,
        response matches Response::Error { message } ==> r == Err::<String, String>(message) && done == Err::<
            (),
            String,
        >(message),
        response is Acknowledged ==> r is Ok && r->Ok_0@.len() == 0 && done is Ok,
        unsent is Err,
{
}

/// A query takes the cached status where it may, and is sent otherwise.
pub proof fn queries_begin_with_the_cache(use_cache: bool, cached: Option<String>, r: (QueryStep, QueryAction))
    requires
        call_ensures(begin_query, (use_cache, cached), r),
    ensures
        use_cache && cached is Some ==> r.1 == QueryAction::Done(Ok::<String, String>(cached->0)),
        !use_cache || cached is None ==> r.1 is Send,
        r.0 is First,
{
}

/// A restart waits for the socket to go for five seconds, looking every tenth of a second;
/// then it kills the process of the pid file, or removes the socket where there is none.
pub proof fn restarts_wait_and_then_kill(socket: bool, elapsed: u64, pid: Option<String>, r: RestartAction)
    requires
        call_ensures(restart_step, (socket, elapsed, pid), r),
    ensures
        !socket ==> r is Start,
        socket && elapsed < 5000 ==> r == RestartAction::Wait(100),
        socket && elapsed >= 5000 && pid is Some ==> r is Kill && r->pid@ == crate::jj_config::trimmed(pid->0@)
            && r->wait_ms == 200,
        socket && elapsed >= 5000 && pid is None ==> r is RemoveSocket,
{
}

/// The version is one more line where a version file says it, and another version than the
/// client's own is told apart from it.
pub proof fn versions_are_shown_and_compared(
    lines: Vec<String>,
    text: &str,
    own: &str,
    more: Vec<String>,
    same: Vec<String>,
    other: bool,
    unknown: bool,
)
    requires
        call_ensures(add_version, (lines, Some(text)), more),
        call_ensures(add_version, (lines, None), same),
        call_ensures(is_other_version, (Some(text), own), other),
        call_ensures(is_other_version, (None, own), unknown),
    ensures
        views(more@) == views(lines@).push("  version:       "@ + crate::jj_config::trimmed(text@)),
        views(same@) == views(lines@),
        other <==> crate::jj_config::trimmed(text@) != own@,
        !unknown,
{
}

} // verus!
