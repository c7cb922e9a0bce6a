//! The daemon: what it keeps of each repo, when it refreshes, and when it ends.

use crate::aggregate::DiffCounts;
use crate::bookmarks::BookmarkView;
use crate::git_status::{git_view, GitFacts, GitHead};
use crate::protocol::Response;
use crate::repo_state::{full_status, metadata_view, CommitMetadata, LoadedRepo};
use crate::staging::lemma_views_push;
use crate::stats::FileStats;
use crate::status::{blank_status, with_counts, with_metadata, RepoStatus, StatusView};
use crate::strings::{to_chars, views};
use crate::table::FileTable;
use vstd::prelude::*;

verus! {

/// The status of a repo and how it is shown.
pub struct CachedStatus {
    pub status: RepoStatus,
    pub formatted: String,
}

impl DeepView for CachedStatus {
    type V = (StatusView, Seq<char>);

    open spec fn deep_view(&self) -> (StatusView, Seq<char>) {
        (self.status@, self.formatted@)
    }
}

/// What the daemon keeps.
pub struct DaemonState {
    cache: FileTable<CachedStatus>,
    watchers: FileTable<bool>,
    last_query_ns: u128,
}

/// What the daemon's state says.
#[verifier::ext_equal]
pub struct DaemonView {
    pub cache: Map<Seq<char>, (StatusView, Seq<char>)>,
    pub watched: Set<Seq<char>>,
    pub last_query_ns: u128,
}

impl View for DaemonState {
    type V = DaemonView;

    closed spec fn view(&self) -> DaemonView {
        DaemonView {
            cache: self.cache@,
            watched: self.watchers@.dom(),
            last_query_ns: self.last_query_ns,
        }
    }
}

/// What to do for a query.
pub struct QueryPlan {
    /// Whether the repo must be watched from now on.
    pub watch: bool,
    /// What is shown for the repo, where it is known; else the repo must be asked.
    pub cached: Option<String>,
}

/// A status while a refresh is under way.
pub open spec fn refreshing(status: StatusView) -> StatusView {
    StatusView { is_stale: true, refresh_error: Seq::empty(), ..status }
}

/// A status after a refresh that failed.
pub open spec fn failed(status: StatusView, error: Seq<char>) -> StatusView {
    StatusView { is_stale: true, refresh_error: error, ..status }
}

impl DaemonState {
    pub closed spec fn wf(&self) -> bool {
        self.cache.wf() && self.watchers.wf()
    }

    /// A daemon that starts at a time.
    pub fn new(now_ns: u128) -> (r: DaemonState)
        ensures
            r.wf(),
            r@ == (DaemonView { cache: Map::empty(), watched: Set::empty(), last_query_ns: now_ns }),
    {
        let r = DaemonState { cache: FileTable::new(), watchers: FileTable::new(), last_query_ns: now_ns };
        assert(r@ =~= (DaemonView { cache: Map::empty(), watched: Set::empty(), last_query_ns: now_ns }));
        r
    }

    /// What to do for a query that comes in at a time.
    pub fn on_query(&mut self, repo: &str, now_ns: u128) -> (r: QueryPlan)
        requires
            old(self).wf(),
        ensures
            final(self).wf(),
            final(self)@ == (DaemonView { last_query_ns: now_ns, ..old(self)@ }),
            r.watch == !old(self)@.watched.contains(repo@),
            r.cached.deep_view() == if old(self)@.cache.contains_key(repo@) {
                Some(old(self)@.cache[repo@].1)
            } else {
                None
            },
    {
        self.last_query_ns = now_ns;
        let cached = match self.cache.get(repo) {
            Some(known) => Some(known.formatted.clone()),
            None => None,
        };
        QueryPlan { watch: !self.watchers.contains(repo), cached }
    }

    /// A repo is watched.
    pub fn on_watched(&mut self, repo: &str)
        requires
            old(self).wf(),
        ensures
            final(self).wf(),
            final(self)@ == (DaemonView { watched: old(self)@.watched.insert(repo@), ..old(self)@ }),
    {
        let ghost before = self@;
        self.watchers.insert(repo.to_owned(), true);
        assert(self@ =~= (DaemonView { watched: before.watched.insert(repo@), ..before }));
    }

    /// The number of watched repos, and their paths.
    pub fn watched_repos(&self) -> (r: Vec<String>)
        requires
            self.wf(),
        ensures
            views(r@).no_duplicates(),
            views(r@).to_set() == self@.watched,
    {
        proof {
            self.watchers.paths_are_domain();
        }
        let n: usize = self.watchers.len();
        let mut out: Vec<String> = Vec::new();
        let mut i: usize = 0;
        assert(views(out@) =~= self.watchers.paths().take(0));
        while i < n
            invariant
                self.wf(),
                i <= n == self.watchers.paths().len(),
                views(out@) == self.watchers.paths().take(i as int),
            decreases n - i,
        {
            let path = self.watchers.path_at(i).clone();
            let ghost before = out@;
            out.push(path);
            proof {
                lemma_views_push(before, path);
                assert(self.watchers.paths().take(i + 1) =~= self.watchers.paths().take(i as int).push(path@));
            }
            i += 1;
        }
        assert(self.watchers.paths().take(i as int) =~= self.watchers.paths());
        out
    }

    /// The status of a repo that was asked, as it is shown, or the error. A status is kept,
    /// an error is not.
    pub fn on_asked(&mut self, repo: &str, outcome: Result<CachedStatus, String>) -> (r: Response)
        requires
            old(self).wf(),
        ensures
            final(self).wf(),
            match outcome {
                Ok(known) => {
                    &&& final(self)@ == (DaemonView {
                        cache: old(self)@.cache.insert(repo@, known.deep_view()),
                        ..old(self)@
                    })
                    &&& r is Status
                    &&& r->formatted@ == known.formatted@
                },
                Err(message) => final(self)@ == old(self)@ && r == (Response::Error { message }),
            },
    {
        match outcome {
            Ok(known) => {
                let formatted = known.formatted.clone();
                self.cache.insert(repo.to_owned(), known);
                Response::Status { formatted }
            },
            Err(message) => Response::Error { message },
        }
    }

    /// A refresh of a repo begins: what is known of it is stale now. Gives the status to
    /// show, if any.
    pub fn begin_refresh(&self, repo: &str) -> (r: Option<RepoStatus>)
        requires
            self.wf(),
        ensures
            r is Some == self@.cache.contains_key(repo@),
            r is Some ==> r->0@ == refreshing(self@.cache[repo@].0),
    {
        match self.cache.get(repo) {
            Some(known) => {
                let mut status = known.status.clone();
                status.is_stale = true;
                status.refresh_error = String::new();
                Some(status)
            },
            None => None,
        }
    }

    /// A refresh of a repo ended. Gives the status to show: the fresh one; after a failure
    /// the known one, stale and with the error, where one is known.
    pub fn end_refresh(&self, repo: &str, outcome: Result<RepoStatus, String>) -> (r: Option<RepoStatus>)
        requires
            self.wf(),
        ensures
            match outcome {
                Ok(status) => r == Some(status),
                Err(error) => {
                    &&& r is Some == self@.cache.contains_key(repo@)
                    &&& r is Some ==> r->0@ == failed(self@.cache[repo@].0, error@)
                },
            },
    {
        match outcome {
            Ok(status) => Some(status),
            Err(error) => match self.cache.get(repo) {
                Some(known) => {
                    let mut status = known.status.clone();
                    status.is_stale = true;
                    status.refresh_error = error;
                    Some(status)
                },
                None => None,
            },
        }
    }

    /// Keeps a status of a repo and how it is shown.
    pub fn keep(&mut self, repo: &str, known: CachedStatus)
        requires
            old(self).wf(),
        ensures
            final(self).wf(),
            final(self)@ == (DaemonView {
                cache: old(self)@.cache.insert(repo@, known.deep_view()),
                ..old(self)@
            }),
    {
        self.cache.insert(repo.to_owned(), known);
    }

    /// Whether the daemon has been idle for longer than its timeout.
    pub fn is_idle(&self, now_ns: u128, timeout_secs: u64) -> (r: bool)
        ensures
            r == (now_ns - self@.last_query_ns > timeout_secs * 1_000_000_000),
    {
        if now_ns <= self.last_query_ns {
            return false;
        }
        now_ns - self.last_query_ns > timeout_secs as u128 * 1_000_000_000
    }
}

/// Whether a status has neither mark of a refresh that is under way or failed.
pub open spec fn is_fresh(status: StatusView) -> bool {
    !status.is_stale && status.refresh_error.len() == 0
}

/// Staleness heals itself: whatever failed before, a status that is not stale replaces what
/// was kept, and a status that a refresh fails on is the kept one but for the two marks.
pub proof fn staleness_heals(status: StatusView, fresh: StatusView, error: Seq<char>)
    requires
        is_fresh(fresh),
    ensures
        failed(refreshing(status), error) == failed(status, error),
        refreshing(failed(status, error)) == refreshing(status),
        (StatusView { is_stale: fresh.is_stale, refresh_error: fresh.refresh_error, ..failed(fresh, error) }) == fresh,
        failed(status, error).is_stale && failed(status, error).refresh_error == error,
{
    assert(failed(refreshing(status), error) =~= failed(status, error));
    assert(refreshing(failed(status, error)) =~= refreshing(status));
    assert((StatusView { is_stale: fresh.is_stale, refresh_error: fresh.refresh_error, ..failed(fresh, error) })
        =~= fresh);
}

/// No query marks a status as stale: neither a query of a jj repo, nor new counts or new
/// metadata for a status that was not stale, nor a query of a git repo.
pub proof fn queried_status_is_fresh(
    metadata: CommitMetadata,
    bookmarks: Seq<BookmarkView>,
    loaded: LoadedRepo,
    files: Map<Seq<char>, FileStats>,
    counts: DiffCounts,
    fresh: StatusView,
    facts: GitFacts,
    head: GitHead,
)
    ensures
        is_fresh(full_status(metadata_view(metadata, bookmarks), loaded, files)),
        is_fresh(fresh) ==> is_fresh(with_counts(fresh, counts)),
        forall|base: StatusView| is_fresh(base) ==> is_fresh(#[trigger] with_metadata(base, fresh)),
        is_fresh(git_view(facts, head)),
        is_fresh(blank_status()),
{
    reveal_strlit("");
}

/// Repos that wait for a refresh, each with whether its working copy has changed.
pub struct PendingRefreshes {
    repos: FileTable<bool>,
}

impl View for PendingRefreshes {
    type V = Map<Seq<char>, bool>;

    closed spec fn view(&self) -> Map<Seq<char>, bool> {
        self.repos@
    }
}

/// The waiting repos after one more change.
pub open spec fn noted_change(pending: Map<Seq<char>, bool>, repo: Seq<char>, working_copy: bool) -> Map<Seq<char>, bool> {
    pending.insert(repo, working_copy || (pending.contains_key(repo) && pending[repo]))
}

/// What a list of repos to refresh says.
pub open spec fn refresh_views(list: Seq<(String, bool)>) -> Seq<(Seq<char>, bool)> {
    list.map_values(|e: (String, bool)| (e.0@, e.1))
}

impl PendingRefreshes {
    pub closed spec fn wf(&self) -> bool {
        self.repos.wf()
    }

    /// No repo waits.
    pub fn new() -> (r: PendingRefreshes)
        ensures
            r.wf(),
            r@ == Map::<Seq<char>, bool>::empty(),
    {
        PendingRefreshes { repos: FileTable::new() }
    }

    /// A repo has changed: once its working copy has, that stays until it is refreshed.
    pub fn note(&mut self, repo: &str, working_copy_changed: bool)
        requires
            old(self).wf(),
        ensures
            final(self).wf(),
            final(self)@ == noted_change(old(self)@, repo@, working_copy_changed),
    {
        let known: bool = match self.repos.get(repo) {
            Some(changed) => *changed,
            None => false,
        };
        self.repos.insert(repo.to_owned(), working_copy_changed || known);
    }

    /// The waiting repos, each once, with whether the working copy can be left out of the
    /// refresh; after that none waits.
    pub fn drain(&mut self) -> (r: Vec<(String, bool)>)
        requires
            old(self).wf(),
        ensures
            final(self).wf(),
            final(self)@ == Map::<Seq<char>, bool>::empty(),
            r@.len() == old(self)@.dom().len(),
            forall|repo: Seq<char>, ignore_wc: bool| #[trigger]
                refresh_views(r@).contains((repo, ignore_wc)) <==> old(self)@.contains_key(repo) && ignore_wc
                    == !old(self)@[repo],
    {
        proof {
            self.repos.paths_are_domain();
        }
        let ghost all = self.repos.paths();
        let ghost map = self.repos@;
        let n: usize = self.repos.len();
        let mut out: Vec<(String, bool)> = Vec::new();
        let mut i: usize = 0;
        while i < n
            invariant
                self.wf(),
                all == self.repos.paths(),
                map == self.repos@,
                i <= n == all.len(),
                out.len() == i,
                forall|k: int|
                    0 <= k < i ==> (#[trigger] refresh_views(out@)[k]) == (all[k], !map[all[k]]),
            decreases n - i,
        {
            let path = self.repos.path_at(i).clone();
            let changed: bool = *self.repos.value_at(i);
            let ghost before = out@;
            out.push((path, !changed));
            assert forall|k: int| 0 <= k < i + 1 implies (#[trigger] refresh_views(out@)[k]) == (all[k], !map[all[k]]) by {
                if k < i {
                    assert(refresh_views(out@)[k] == refresh_views(before)[k]);
                }
            }
            i += 1;
        }
        proof {
            assert forall|repo: Seq<char>, ignore_wc: bool| #[trigger]
                refresh_views(out@).contains((repo, ignore_wc)) <==> map.contains_key(repo) && ignore_wc
                    == !map[repo] by {
                if refresh_views(out@).contains((repo, ignore_wc)) {
                    let k = choose|k: int| 0 <= k < refresh_views(out@).len() && refresh_views(out@)[k] == (
                        repo,
                        ignore_wc,
                    );
                    assert(map.contains_key(all[k]));
                }
                if map.contains_key(repo) && ignore_wc == !map[repo] {
                    assert(all.contains(repo));
                    let k = choose|k: int| 0 <= k < all.len() && all[k] == repo;
                    assert(refresh_views(out@)[k] == (repo, ignore_wc));
                }
            }
        }
        self.repos = FileTable::new();
        out
    }
}

/// Changes can be noted in any order, and as often as they come.
pub proof fn changes_are_order_free(
    pending: Map<Seq<char>, bool>,
    a: Seq<char>,
    a_changed: bool,
    b: Seq<char>,
    b_changed: bool,
)
    ensures
        noted_change(noted_change(pending, a, a_changed), b, b_changed) == noted_change(
            noted_change(pending, b, b_changed),
            a,
            a_changed,
        ),
        noted_change(noted_change(pending, a, a_changed), a, a_changed) == noted_change(pending, a, a_changed),
{
    assert(noted_change(noted_change(pending, a, a_changed), b, b_changed) =~= noted_change(
        noted_change(pending, b, b_changed),
        a,
        a_changed,
    ));
    assert(noted_change(noted_change(pending, a, a_changed), a, a_changed) =~= noted_change(pending, a, a_changed));
}

/// Whether a daemon starts.
#[derive(Clone, Copy, Debug, PartialEq, Eq, Structural)]
pub enum StartVerdict {
    Start,
    /// It does not run as root.
    RefuseRoot,
}

/// Whether a daemon starts: as root only where that is allowed, or where the runtime
/// directory is set.
pub fn start_verdict(is_root: bool, root_allowed: bool, directory_set: bool) -> (r: StartVerdict)
    ensures
        r == if is_root && !root_allowed && !directory_set {
            StartVerdict::RefuseRoot
        } else {
            StartVerdict::Start
        },
{
    if is_root && !root_allowed && !directory_set {
        StartVerdict::RefuseRoot
    } else {
        StartVerdict::Start
    }
}

/// Whether a daemon goes on: as long as its socket is there and it is not idle.
pub fn goes_on(socket_exists: bool, idle: bool) -> (r: bool)
    ensures
        r == (socket_exists && !idle),
{
    socket_exists && !idle
}

/// What a daemon that starts does about the socket.
#[derive(Clone, Copy, Debug, PartialEq, Eq, Structural)]
pub enum SocketVerdict {
    /// Nothing is there.
    Bind,
    /// A socket that nobody listens on: remove it first.
    RemoveStale,
    /// Another daemon runs.
    AlreadyRunning,
}

/// What to do about the socket, given whether it is there and whether somebody answers.
pub fn socket_verdict(socket_exists: bool, connects: bool) -> (r: SocketVerdict)
    ensures
        r == if !socket_exists {
            SocketVerdict::Bind
        } else if connects {
            SocketVerdict::AlreadyRunning
        } else {
            SocketVerdict::RemoveStale
        },
{
    if !socket_exists {
        SocketVerdict::Bind
    } else if connects {
        SocketVerdict::AlreadyRunning
    } else {
        SocketVerdict::RemoveStale
    }
}

/// What has become of the daemon's binary.
#[derive(Clone, Copy, Debug, PartialEq, Eq, Structural)]
pub enum BinaryVerdict {
    Unchanged,
    /// Another file is in its place: run it instead.
    Restart,
    /// It is gone: shut down.
    Shutdown,
}

/// What to do about the daemon's binary, given its inode at the start and now, `None` where
/// it is gone.
pub fn binary_verdict(inode_at_start: u64, inode_now: Option<u64>) -> (r: BinaryVerdict)
    ensures
        r == match inode_now {
            None => BinaryVerdict::Shutdown,
            Some(inode) => if inode == inode_at_start {
                BinaryVerdict::Unchanged
            } else {
                BinaryVerdict::Restart
            },
        },
{
    match inode_now {
        None => BinaryVerdict::Shutdown,
        Some(inode) => if inode == inode_at_start {
            BinaryVerdict::Unchanged
        } else {
            BinaryVerdict::Restart
        },
    }
}

/// Whether a file of the runtime directory is removed before a new binary takes over: only
/// where the new binary has a later layout of the directory, and never the logs.
pub open spec fn is_cleaned(own_version: u32, new_version: u32, name: Seq<char>) -> bool {
    new_version > own_version && !("daemon.log"@.is_prefix_of(name))
}

/// Whether a file of the runtime directory is removed before a new binary takes over.
pub fn cleans_file(own_version: u32, new_version: u32, name: &str) -> (r: bool)
    ensures
        r == is_cleaned(own_version, new_version, name@),
{
    if new_version <= own_version {
        return false;
    }
    let log = to_chars("daemon.log");
    let chars = to_chars(name);
    if chars.len() < log.len() {
        return true;
    }
    let mut i: usize = 0;
    while i < log.len()
        invariant
            i <= log.len() <= chars.len(),
            log@ == "daemon.log"@,
            chars@ == name@,
            new_version > own_version,
            forall|k: int| 0 <= k < i ==> log@[k] == chars@[k],
        decreases log.len() - i,
    {
        if log[i] != chars[i] {
            assert(name@.subrange(0, log@.len() as int)[i as int] != log@[i as int]);
            return true;
        }
        i += 1;
    }
    assert(name@.subrange(0, log@.len() as int) =~= log@);
    false
}

} // verus!
