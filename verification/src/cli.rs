//! Command line arguments, and the repo that they speak of.

use crate::ignore_filter::VcsKind;
use crate::strings::str_eq;
use vstd::prelude::*;

verus! {

/// What the arguments of the common client case say.
#[derive(Clone, Copy, Debug, PartialEq, Eq, Structural)]
pub enum FastArgs {
    /// They are not of that case.
    Other,
    /// A query for the current directory.
    Here,
    /// A query for the repo that the argument at this place names.
    At(usize),
}

/// What the arguments from a place on say, given what those before it say: nothing but
/// `--repo` with a value may stand there, and the last one counts.
pub open spec fn fast_from(args: Seq<Option<Seq<char>>>, from: int, so_far: FastArgs) -> FastArgs
    decreases args.len() - from,
{
    if from >= args.len() {
        so_far
    } else if args[from] == Some("--repo"@) && from + 1 < args.len() {
        fast_from(args, from + 2, FastArgs::At((from + 1) as usize))
    } else {
        FastArgs::Other
    }
}

/// The texts of the arguments, where they are text.
pub open spec fn arg_views(args: Seq<Option<String>>) -> Seq<Option<Seq<char>>> {
    args.map_values(|a: Option<String>| a.deep_view())
}

/// Fast-path arg parsing for the common client case: no subcommand and no flag but
/// `--repo`. An argument that is not text is `None`; it may stand for the repo only.
pub fn try_fast_args(args: &Vec<Option<String>>) -> (r: FastArgs)
    ensures
        r == fast_from(arg_views(args@), 0, FastArgs::Here),
{
    let ghost all = arg_views(args@);
    let mut repo = FastArgs::Here;
    let mut at: usize = 0;
    while at < args.len()
        invariant
            at <= args.len(),
            all == arg_views(args@),
            fast_from(all, at as int, repo) == fast_from(all, 0, FastArgs::Here),
        decreases args.len() - at,
    {
        assert(all[at as int] == args@[at as int].deep_view());
        let is_repo: bool = match &args[at] {
            Some(text) => str_eq(text.as_str(), "--repo"),
            None => false,
        };
        if !is_repo || at >= args.len() - 1 {
            return FastArgs::Other;
        }
        repo = FastArgs::At(at + 1);
        at += 2;
    }
    repo
}

/// The repo that a query is for: the one named with the subcommand, else the one named
/// before it.
pub fn query_repo(with_subcommand: Option<String>, before_it: Option<String>) -> (r: Option<String>)
    ensures
        r == if with_subcommand is Some {
            with_subcommand
        } else {
            before_it
        },
{
    match with_subcommand {
        Some(path) => Some(path),
        None => before_it,
    }
}

/// Which version control a directory holds.
#[derive(Clone, Copy, Debug)]
pub struct DirFacts {
    /// It holds a directory `.jj`.
    pub has_jj: bool,
    /// It holds something named `.git`.
    pub has_git: bool,
}

/// The kind of repo that a directory is the root of. jj comes first: its repos may hold a
/// git one.
pub open spec fn repo_kind(dir: DirFacts) -> Option<VcsKind> {
    if dir.has_jj {
        Some(VcsKind::Jj)
    } else if dir.has_git {
        Some(VcsKind::Git)
    } else {
        None
    }
}

/// The nearest repo root among a directory and its ancestors, and its kind.
pub fn find_repo(dirs: &Vec<DirFacts>) -> (r: Option<(usize, VcsKind)>)
    ensures
        match r {
            Some((up, kind)) => {
                &&& up < dirs@.len()
                &&& repo_kind(dirs@[up as int]) == Some(kind)
                &&& forall|k: int| 0 <= k < up ==> repo_kind(#[trigger] dirs@[k]) is None
            },
            None => forall|k: int| 0 <= k < dirs@.len() ==> repo_kind(#[trigger] dirs@[k]) is None,
        },
{
    let mut i: usize = 0;
    while i < dirs.len()
        invariant
            i <= dirs.len(),
            forall|k: int| 0 <= k < i ==> repo_kind(#[trigger] dirs@[k]) is None,
        decreases dirs.len() - i,
    {
        if dirs[i].has_jj {
            return Some((i, VcsKind::Jj));
        }
        if dirs[i].has_git {
            return Some((i, VcsKind::Git));
        }
        i += 1;
    }
    None
}

} // verus!
