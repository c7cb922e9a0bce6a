//! The router: which worker gets a request.

use crate::ignore_filter::{drop_path, place_of, with_path, without_path};
use crate::staging::lemma_views_push;
use crate::strings::views;
use vstd::prelude::*;

verus! {

/// The repos that have a worker.
pub struct Router {
    pub workers: Vec<String>,
}

/// Where a request goes.
pub enum Route {
    /// To the worker of the repo.
    Send(String),
    /// To a new worker for the repo.
    Spawn(String),
    /// To every worker; their answers are put together.
    FanOut(Vec<String>),
    /// To nobody: the worker of the repo is dropped.
    Drop(String),
}

/// What kind of request it is, and for which repo.
pub enum Routed {
    /// A refresh or an update of a repo.
    ForRepo(String),
    /// A query over all repos.
    ForAll,
    /// A repo is to be forgotten.
    Forget(String),
}

impl Router {
    /// The repos with a worker.
    pub open spec fn repos(&self) -> Seq<Seq<char>> {
        views(self.workers@)
    }

    /// No workers.
    pub fn new() -> (r: Router)
        ensures
            r.repos() == Seq::<Seq<char>>::empty(),
    {
        let r = Router { workers: Vec::new() };
        assert(r.repos() =~= Seq::empty());
        r
    }

    fn add(&mut self, repo: &String)
        ensures
            final(self).repos() == with_path(old(self).repos(), repo@),
    {
        if place_of(&self.workers, repo.as_str()).is_none() {
            let copy = repo.clone();
            let ghost before = self.workers@;
            self.workers.push(copy);
            proof {
                lemma_views_push(before, copy);
            }
        }
    }

    /// Where a request goes. A repo without a worker gets one.
    pub fn route(&mut self, request: Routed) -> (r: Route)
        ensures
            match request {
                Routed::ForRepo(repo) => {
                    &&& final(self).repos() == with_path(old(self).repos(), repo@)
                    &&& r == if old(self).repos().contains(repo@) {
                        Route::Send(repo)
                    } else {
                        Route::Spawn(repo)
                    }
                },
                Routed::ForAll => {
                    &&& *final(self) == *old(self)
                    &&& r is FanOut
                    &&& views(r->FanOut_0@) == old(self).repos()
                },
                Routed::Forget(repo) => {
                    &&& final(self).repos() == without_path(old(self).repos(), repo@)
                    &&& r == Route::Drop(repo)
                },
            },
    {
        match request {
            Routed::ForRepo(repo) => {
                let known: bool = place_of(&self.workers, repo.as_str()).is_some();
                self.add(&repo);
                if known {
                    Route::Send(repo)
                } else {
                    Route::Spawn(repo)
                }
            },
            Routed::ForAll => {
                let mut all: Vec<String> = Vec::new();
                let ghost wanted = self.repos();
                let mut i: usize = 0;
                assert(views(all@) =~= wanted.take(0));
                while i < self.workers.len()
                    invariant
                        i <= self.workers.len(),
                        *self == *old(self),
                        wanted == self.repos(),
                        views(all@) == wanted.take(i as int),
                    decreases self.workers.len() - i,
                {
                    let copy = self.workers[i].clone();
                    let ghost before = all@;
                    all.push(copy);
                    proof {
                        lemma_views_push(before, copy);
                        assert(wanted[i as int] == copy@);
                        assert(wanted.take(i + 1) =~= wanted.take(i as int).push(copy@));
                    }
                    i += 1;
                }
                assert(wanted.take(i as int) =~= wanted);
                Route::FanOut(all)
            },
            Routed::Forget(repo) => {
                self.workers = drop_path(&self.workers, repo.as_str());
                Route::Drop(repo)
            },
        }
    }

    /// Where a request goes that a worker did not take: that worker is gone, and the repo
    /// gets a new one.
    pub fn on_send_failed(&mut self, repo: String) -> (r: Route)
        ensures
            final(self).repos() == with_path(old(self).repos(), repo@),
            r == Route::Spawn(repo),
    {
        self.add(&repo);
        Route::Spawn(repo)
    }
}

/// A request for a repo leaves it with a worker, and a repo that is forgotten has none.
pub proof fn routing_keeps_track(repos: Seq<Seq<char>>, repo: Seq<char>)
    ensures
        with_path(repos, repo).contains(repo),
        !without_path(repos, repo).contains(repo),
        repos.no_duplicates() ==> with_path(repos, repo).no_duplicates(),
{
    if !repos.contains(repo) {
        let more = repos.push(repo);
        assert(more[repos.len() as int] == repo);
        if repos.no_duplicates() {
            assert forall|a: int, b: int| 0 <= a < more.len() && 0 <= b < more.len() && a != b implies more[a]
                != more[b] by {
                if a == repos.len() {
                    assert(repos[b] != repo);
                }
                if b == repos.len() {
                    assert(repos[a] != repo);
                }
            }
        }
    }
    let keep = |p: Seq<char>| p != repo;
    let left = repos.filter(keep);
    if left.contains(repo) {
        let i = choose|i: int| 0 <= i < left.len() && left[i] == repo;
        repos.lemma_filter_pred(keep, i);
    }
}

} // verus!
