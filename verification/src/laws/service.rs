//! The daemon, its workers and its clients.

use crate::aggregate::{counts_of, effective, lemma_sum_over_same, listed, sum_over, total_added, total_removed};
use crate::by_dir::{dir_of, dir_stats};
use crate::daemon::{failed, is_cleaned, noted_change, refreshing};
use crate::ignore_filter::{with_path, without_path};
use crate::protocol::{
    query_goes_on, running_lines, stopped_lines, uptime_text, QueryAction, QueryEvent, QueryStep, Response,
};
use crate::status::StatusView;
use crate::stats::FileStats;
use crate::strings::{decimal, digit_char};
use vstd::prelude::*;

verus! {

/// The directory of a file is its path before the last slash; files without one are in `.`.
pub proof fn files_lie_in_their_directory(dir: Seq<char>, name: Seq<char>)
    requires
        !name.contains('/'),
    ensures
        dir_of(dir + seq!['/'] + name) == dir,
        dir_of(name) == seq!['.'],
{
    lemma_last_slash(dir, name);
    assert((dir + seq!['/'] + name).take(dir.len() as int) =~= dir);
    lemma_no_slash(name);
}

proof fn lemma_last_slash(dir: Seq<char>, name: Seq<char>)
    requires
        !name.contains('/'),
    ensures
        crate::strings::last_place(dir + seq!['/'] + name, '/') == Some(dir.len() as int),
    decreases name.len(),
{
    let file = dir + seq!['/'] + name;
    if name.len() == 0 {
        assert(file.last() == '/');
    } else {
        let rest = name.drop_last();
        assert(name[name.len() - 1] == name.last());
        assert(name.contains(name.last()));
        assert(file.drop_last() =~= dir + seq!['/'] + rest);
        assert forall|i: int| 0 <= i < rest.len() implies rest[i] != '/' by {
            assert(name[i] == rest[i]);
            assert(name.contains(name[i]));
        }
        lemma_last_slash(dir, rest);
    }
}

proof fn lemma_no_slash(name: Seq<char>)
    requires
        !name.contains('/'),
    ensures
        crate::strings::last_place(name, '/') is None,
    decreases name.len(),
{
    if name.len() > 0 {
        let rest = name.drop_last();
        assert(name[name.len() - 1] == name.last());
        assert(name.contains(name.last()));
        assert forall|i: int| 0 <= i < rest.len() implies rest[i] != '/' by {
            assert(name[i] == rest[i]);
            assert(name.contains(name[i]));
        }
        lemma_no_slash(rest);
    }
}

/// A directory has the counts of the part of the diff whose files lie in it, and as many
/// entries as it has in the base and in the overlay.
pub proof fn directories_count_their_files(
    base: Map<Seq<char>, FileStats>,
    overlay: Map<Seq<char>, Option<FileStats>>,
    dir: Seq<char>,
)
    requires
        base.dom().finite(),
        overlay.dom().finite(),
    ensures
        ({
            let files = effective(base, overlay);
            let here = files.restrict(Set::new(|path: Seq<char>| dir_of(path) == dir));
            let stats = dir_stats(base, overlay, dir);
            &&& stats.files_changed == counts_of(here).file_mad_count
            &&& stats.lines_added == counts_of(here).lines_added
            &&& stats.lines_removed == counts_of(here).lines_removed
            &&& stats.base_files == base.dom().filter(|path: Seq<char>| dir_of(path) == dir).len() % 0x1_0000_0000
            &&& stats.overlay_entries == overlay.dom().filter(|path: Seq<char>| dir_of(path) == dir).len()
                % 0x1_0000_0000
        }),
{
    let files = effective(base, overlay);
    let here = files.restrict(Set::new(|path: Seq<char>| dir_of(path) == dir));
    let changed = crate::by_dir::within(listed(files), dir);
    assert(listed(here) =~= changed);
    let all = base.dom() + overlay.dom();
    vstd::set_lib::lemma_set_union_finite_iff(base.dom(), overlay.dom());
    assert(changed.subset_of(all));
    vstd::set_lib::lemma_len_subset(changed, all);
    let added = |path: Seq<char>| files[path].lines_added as nat;
    let added_here = |path: Seq<char>| here[path].lines_added as nat;
    let removed = |path: Seq<char>| files[path].lines_removed as nat;
    let removed_here = |path: Seq<char>| here[path].lines_removed as nat;
    lemma_sum_over_same(changed, added, added_here);
    lemma_sum_over_same(changed, removed, removed_here);
    assert(sum_over(changed, added) == total_added(here));
    assert(sum_over(changed, removed) == total_removed(here));
    assert(crate::by_dir::within(base.dom(), dir) =~= base.dom().filter(|path: Seq<char>| dir_of(path) == dir));
    assert(crate::by_dir::within(overlay.dom(), dir) =~= overlay.dom().filter(
        |path: Seq<char>| dir_of(path) == dir,
    ));
}

/// A repo gets one place among those with a worker, at the end where it is new, and no other
/// one moves; a repo that is forgotten has none, and all others stay in order.
pub proof fn workers_come_and_go_one_by_one(repos: Seq<Seq<char>>, repo: Seq<char>, other: Seq<char>)
    ensures
        repos.contains(repo) ==> with_path(repos, repo) == repos,
        !repos.contains(repo) ==> with_path(repos, repo) == repos.push(repo),
        !without_path(repos, repo).contains(repo),
        other != repo ==> (without_path(repos, repo).contains(other) <==> repos.contains(other)),
        !repos.contains(repo) ==> without_path(repos.push(repo), repo) == repos,
        without_path(repos, repo).len() <= repos.len(),
    decreases repos.len(),
{
    let keep = |p: Seq<char>| p != repo;
    reveal(Seq::filter);
    if repos.len() > 0 {
        let rest = repos.drop_last();
        workers_come_and_go_one_by_one(rest, repo, other);
        assert(repos =~= rest.push(repos.last()));
        crate::staging::lemma_contains_push(rest, repos.last(), other);
        crate::staging::lemma_contains_push(rest, repos.last(), repo);
        let left = without_path(rest, repo);
        crate::staging::lemma_contains_push(left, repos.last(), other);
        crate::staging::lemma_contains_push(left, repos.last(), repo);
    }
    if !repos.contains(repo) {
        lemma_all_kept(repos, repo);
        assert(repos.push(repo).drop_last() =~= repos);
    }
}

proof fn lemma_all_kept(repos: Seq<Seq<char>>, repo: Seq<char>)
    requires
        !repos.contains(repo),
    ensures
        without_path(repos, repo) == repos,
    decreases repos.len(),
{
    reveal(Seq::filter);
    if repos.len() > 0 {
        let rest = repos.drop_last();
        assert forall|i: int| 0 <= i < rest.len() implies rest[i] != repo by {
            assert(repos[i] == rest[i]);
            assert(repos.contains(repos[i]));
        }
        lemma_all_kept(rest, repo);
        assert(repos.contains(repos[repos.len() - 1]));
        assert(rest.push(repos.last()) =~= repos);
    }
}

/// An answer ends a query with its text, whenever it comes; a daemon that gives none at first
/// is started; after that the query is sent ten times, the n-th time after n tenths of a
/// second, and then given up.
pub proof fn queries_are_answered_or_given_up(
    step: QueryStep,
    event: QueryEvent,
    next: QueryStep,
    action: QueryAction,
    n: u64,
)
    requires
        query_goes_on(step, event, next, action),
    ensures
        event matches QueryEvent::Answer(response) ==> {
            &&& action is Done
            &&& response matches Response::Status { formatted } ==> action->Done_0 == Ok::<String, String>(formatted)
            &&& response matches Response::Error { message } ==> action->Done_0 == Err::<String, String>(message)
        },
        step is First && event is NoAnswer ==> action is StartDaemon && next is Starting,
        step is Starting && event is Started ==> action == QueryAction::WaitAndSend(100) && next
            == QueryStep::Retrying(1),
        step is Starting && event is StartFailed ==> action is Done && action->Done_0 is Err,
        step == QueryStep::Retrying(n) && event is NoAnswer && n < 10 ==> {
            &&& next is Retrying && next->Retrying_0 == n + 1
            &&& action is WaitAndSend && action->WaitAndSend_0 == 100 * (n + 1)
        },
        step == QueryStep::Retrying(n) && event is NoAnswer && n >= 10 ==> action is Done && action->Done_0 is Err,
{
}

/// A time is shown in whole hours, minutes below sixty and seconds below sixty that add up
/// to it.
pub proof fn uptime_adds_up(hours: nat, minutes: nat, seconds: nat)
    requires
        minutes < 60,
        seconds < 60,
    ensures
        uptime_text(3600 * hours + 60 * minutes + seconds) == decimal(hours) + "h "@ + decimal(minutes) + "m "@
            + decimal(seconds) + "s"@,
{
    let all = 3600 * hours + 60 * minutes + seconds;
    assert(all / 3600 == hours && (all % 3600) / 60 == minutes && all % 60 == seconds);
}

/// A number in decimal digits: one digit below ten, and the digits of the tenth part before
/// the last one.
pub proof fn numbers_have_their_digits(n: nat)
    ensures
        decimal(0) == seq!['0'],
        decimal(7) == seq!['7'],
        decimal(9) == seq!['9'],
        n >= 10 ==> decimal(n) == decimal(n / 10).push(digit_char(n % 10)),
        n < 10 ==> decimal(n) == seq![digit_char(n)],
        digit_char(0) == '0' && digit_char(1) == '1' && digit_char(2) == '2' && digit_char(3) == '3',
        digit_char(4) == '4' && digit_char(5) == '5' && digit_char(6) == '6' && digit_char(7) == '7',
        digit_char(8) == '8' && digit_char(9) == '9',
{
    assert(decimal(n / 10) + seq![digit_char(n % 10)] =~= decimal(n / 10).push(digit_char(n % 10)));
}

/// The status of a running daemon names its process, how long it has run, the number of repos
/// that it watches and each of them, and its socket.
pub proof fn running_daemon_tells_all(pid: nat, uptime: nat, repos: Seq<Seq<char>>, socket: Seq<char>, k: int)
    ensures
        ({
            let lines = running_lines(pid, uptime, repos, socket);
            &&& lines.len() == repos.len() + 5
            &&& lines[0] == "daemon running"@
            &&& lines[1] == "  pid:           "@ + decimal(pid)
            &&& lines[2] == "  uptime:        "@ + uptime_text(uptime)
            &&& lines[3] == "  watched repos: "@ + decimal(repos.len())
            &&& 0 <= k < repos.len() ==> lines[k + 4] == "    "@ + repos[k]
            &&& lines.last() == "  socket:        "@ + socket
        }),
{
}

/// The status of a daemon that does not run names the socket, and the pid file with the
/// process in it where one was left behind.
pub proof fn stopped_daemon_tells_what_is_left(pid: Seq<char>, pid_path: Seq<char>, socket: Seq<char>)
    ensures
        stopped_lines(None, pid_path, socket) =~= seq!["daemon not running"@, "  socket: "@ + socket],
        stopped_lines(Some(pid), pid_path, socket) =~= seq![
            "daemon not running"@,
            "  stale pidfile: "@ + pid_path + " (pid "@ + crate::jj_config::trimmed(pid) + ")"@,
            "  socket: "@ + socket,
        ],
{
}

/// A status is stale and without an error while it is refreshed, and stale with the error
/// after a failure; nothing else of it is touched.
pub proof fn refreshes_touch_two_marks(status: StatusView, error: Seq<char>)
    ensures
        refreshing(status).is_stale && refreshing(status).refresh_error.len() == 0,
        failed(status, error).is_stale && failed(status, error).refresh_error == error,
        (StatusView { is_stale: status.is_stale, refresh_error: status.refresh_error, ..refreshing(status) })
            == status,
        (StatusView { is_stale: status.is_stale, refresh_error: status.refresh_error, ..failed(status, error) })
            == status,
{
    assert((StatusView { is_stale: status.is_stale, refresh_error: status.refresh_error, ..refreshing(status) })
        =~= status);
    assert((StatusView { is_stale: status.is_stale, refresh_error: status.refresh_error, ..failed(status, error) })
        =~= status);
}

/// A repo that has changed waits for a refresh; once its working copy has changed, that is
/// not forgotten, and without it nothing is made up. No other repo is touched.
pub proof fn changes_wait_for_a_refresh(
    pending: Map<Seq<char>, bool>,
    repo: Seq<char>,
    working_copy: bool,
    other: Seq<char>,
)
    ensures
        ({
            let after = noted_change(pending, repo, working_copy);
            &&& after.contains_key(repo)
            &&& working_copy ==> after[repo]
            &&& pending.contains_key(repo) && pending[repo] ==> after[repo]
            &&& !working_copy && !(pending.contains_key(repo) && pending[repo]) ==> !after[repo]
            &&& other != repo ==> after.contains_key(other) == pending.contains_key(other) && (pending.contains_key(other)
                ==> after[other] == pending[other])
        }),
{
}

/// Before a binary with a later layout takes over, every file of the runtime directory goes
/// but the logs; before any other, none does.
pub proof fn logs_outlive_a_new_layout(own: u32, new: u32, name: Seq<char>, rest: Seq<char>)
    ensures
        new <= own ==> !is_cleaned(own, new, name),
        new > own && name.len() >= 10 && name.take(10) == "daemon.log"@ ==> !is_cleaned(own, new, name),
        new > own && !(name.len() >= 10 && name.take(10) == "daemon.log"@) ==> is_cleaned(own, new, name),
{
    reveal_strlit("daemon.log");
    if name.len() >= 10 {
        assert(name.subrange(0, 10) =~= name.take(10));
    }
}

} // verus!
