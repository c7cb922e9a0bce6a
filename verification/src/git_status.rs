//! The status of a git repo.

use crate::status::{blank_status, RepoStatus, StatusView};
use crate::strings::{from_chars, to_chars};
use crate::text::u32_of;
use vstd::prelude::*;

verus! {

/// The state of a git repo.
#[derive(Clone, Copy, Debug, PartialEq, Eq, Structural)]
pub enum GitState {
    Clean,
    Merge,
    Revert,
    RevertSequence,
    CherryPick,
    CherryPickSequence,
    Bisect,
    Rebase,
    RebaseInteractive,
    RebaseMerge,
    ApplyMailbox,
    ApplyMailboxOrRebase,
}

/// The commit that HEAD is on.
pub struct GitCommit {
    /// The abbreviated id: `None` where git gave none, else the text, `None` where it is
    /// not text.
    pub short_id: Option<Option<String>>,
    /// The whole id in hexadecimal digits.
    pub oid_hex: String,
    pub summary: Option<String>,
    /// Whether the commit's tree could be read.
    pub has_tree: bool,
    /// The number of files that the commit changes, where that could be found out.
    pub files_changed: Option<usize>,
}

/// Where HEAD is.
pub struct GitHead {
    /// The branch name, or a short id.
    pub shorthand: Option<String>,
    pub commit: Option<GitCommit>,
}

/// The numbers of files, added lines and removed lines of a diff.
#[derive(Clone, Copy, Debug)]
pub struct GitDiff {
    pub files_changed: usize,
    pub insertions: usize,
    pub deletions: usize,
}

/// A diff: not to be had, without numbers (with an error), or with numbers.
pub enum GitDiffOutcome {
    NoDiff,
    NoStats(String),
    Stats(GitDiff),
}

/// What a git repo says.
pub struct GitFacts {
    /// `None` where HEAD is unborn.
    pub head: Option<GitHead>,
    pub has_conflicts: bool,
    /// From the index to the working directory.
    pub unstaged: GitDiffOutcome,
    /// From HEAD to the index.
    pub staged: GitDiffOutcome,
    /// From HEAD to the working directory, with the index.
    pub total: GitDiffOutcome,
    pub is_worktree: bool,
    /// The name of the repo's directory.
    pub dir_name: Option<String>,
    pub state: GitState,
}

/// How many digits of an id are shown where git gives no abbreviation.
pub const GIT_SHORT_LEN: usize = 7;

/// The first digits of an id.
pub open spec fn git_short(oid: Seq<char>) -> Seq<char> {
    if oid.len() < GIT_SHORT_LEN {
        oid
    } else {
        oid.take(GIT_SHORT_LEN as int)
    }
}

/// A text that may not be there.
pub open spec fn or_empty(text: Option<String>) -> Seq<char> {
    match text {
        Some(t) => t@,
        None => Seq::empty(),
    }
}

/// The id that is shown of a commit.
pub open spec fn shown_id(commit: GitCommit) -> Seq<char> {
    match commit.short_id {
        Some(text) => or_empty(text),
        None => git_short(commit.oid_hex@),
    }
}

/// Whether the repo is being rebased.
pub open spec fn is_rebasing(state: GitState) -> bool {
    ||| state == GitState::Rebase
    ||| state == GitState::RebaseInteractive
    ||| state == GitState::RebaseMerge
    ||| state == GitState::ApplyMailbox
    ||| state == GitState::ApplyMailboxOrRebase
}

/// The numbers of a diff as a status holds them; none where there is no diff.
pub open spec fn diff_numbers(outcome: GitDiffOutcome) -> (u32, u32, u32) {
    match outcome {
        GitDiffOutcome::Stats(d) => (
            u32_of(d.files_changed as nat),
            u32_of(d.insertions as nat),
            u32_of(d.deletions as nat),
        ),
        _ => (0, 0, 0),
    }
}

/// The first of the three diffs that comes without numbers, with its error.
pub open spec fn first_diff_error(facts: GitFacts) -> Option<String> {
    if facts.unstaged is NoStats {
        Some(facts.unstaged->NoStats_0)
    } else if facts.staged is NoStats {
        Some(facts.staged->NoStats_0)
    } else if facts.total is NoStats {
        Some(facts.total->NoStats_0)
    } else {
        None
    }
}

/// The status of a git repo with a HEAD.
pub open spec fn git_view(facts: GitFacts, head: GitHead) -> StatusView {
    StatusView {
        is_git: true,
        branch: or_empty(head.shorthand),
        commit_id: match head.commit {
            Some(commit) => shown_id(commit),
            None => Seq::empty(),
        },
        description: match head.commit {
            Some(commit) => or_empty(commit.summary),
            None => Seq::empty(),
        },
        empty: head.commit is Some && head.commit->0.has_tree && head.commit->0.files_changed == Some(0usize),
        conflict: facts.has_conflicts,
        files_changed: diff_numbers(facts.unstaged).0,
        lines_added: diff_numbers(facts.unstaged).1,
        lines_removed: diff_numbers(facts.unstaged).2,
        staged_files_changed: diff_numbers(facts.staged).0,
        staged_lines_added: diff_numbers(facts.staged).1,
        staged_lines_removed: diff_numbers(facts.staged).2,
        total_files_changed: diff_numbers(facts.total).0,
        total_lines_added: diff_numbers(facts.total).1,
        total_lines_removed: diff_numbers(facts.total).2,
        workspace_name: if facts.is_worktree {
            match facts.dir_name {
                Some(name) => name@,
                None => "worktree"@,
            }
        } else {
            "main"@
        },
        is_default_workspace: !facts.is_worktree,
        rebasing: is_rebasing(facts.state),
        ..blank_status()
    }
}

fn text_or_empty(text: Option<String>) -> (r: String)
    ensures
        r@ == or_empty(text),
{
    match text {
        Some(t) => t,
        None => String::new(),
    }
}

fn low_u32(n: usize) -> (r: u32)
    ensures
        r == u32_of(n as nat),
{
    (n as u64 % 0x1_0000_0000) as u32
}

/// The numbers of a diff, where it has any.
fn diff_stats(outcome: GitDiffOutcome) -> (r: Result<(u32, u32, u32), String>)
    ensures
        match outcome {
            GitDiffOutcome::NoStats(message) => r == Err::<(u32, u32, u32), String>(message),
            _ => r == Ok::<(u32, u32, u32), String>(diff_numbers(outcome)),
        },
{
    match outcome {
        GitDiffOutcome::NoDiff => Ok((0, 0, 0)),
        GitDiffOutcome::NoStats(message) => Err(message),
        GitDiffOutcome::Stats(d) => Ok((low_u32(d.files_changed), low_u32(d.insertions), low_u32(d.deletions))),
    }
}

/// The status of a git repo. Without a HEAD nothing else is said of it; a diff without
/// numbers is an error.
pub fn query_git_status(facts: GitFacts) -> (r: Result<RepoStatus, String>)
    ensures
        match facts.head {
            None => r is Ok && r->Ok_0@ == (StatusView { is_git: true, ..blank_status() }),
            Some(head) => match first_diff_error(facts) {
                Some(message) => r == Err::<RepoStatus, String>(message),
                None => r is Ok && r->Ok_0@ == git_view(facts, head),
            },
        },
        r is Ok && facts.head is Some ==> {
            let shown = r->Ok_0;
            &&& facts.unstaged matches GitDiffOutcome::Stats(d) ==> {
                &&& shown.files_changed == d.files_changed as int % 0x1_0000_0000
                &&& shown.lines_added == d.insertions as int % 0x1_0000_0000
                &&& shown.lines_removed == d.deletions as int % 0x1_0000_0000
            }
            &&& facts.staged matches GitDiffOutcome::Stats(d) ==> {
                &&& shown.staged_files_changed == d.files_changed as int % 0x1_0000_0000
                &&& shown.staged_lines_added == d.insertions as int % 0x1_0000_0000
                &&& shown.staged_lines_removed == d.deletions as int % 0x1_0000_0000
            }
            &&& facts.total matches GitDiffOutcome::Stats(d) ==> {
                &&& shown.total_files_changed == d.files_changed as int % 0x1_0000_0000
                &&& shown.total_lines_added == d.insertions as int % 0x1_0000_0000
                &&& shown.total_lines_removed == d.deletions as int % 0x1_0000_0000
            }
        },
{
    let ghost all = facts;
    let mut status = RepoStatus::default();
    status.is_git = true;
    let head = match facts.head {
        Some(head) => head,
        None => {
            return Ok(status);
        },
    };
    status.branch = text_or_empty(head.shorthand);
    if let Some(commit) = head.commit {
        status.commit_id = match commit.short_id {
            Some(text) => text_or_empty(text),
            None => {
                let chars = to_chars(commit.oid_hex.as_str());
                let len: usize = if chars.len() < GIT_SHORT_LEN {
                    chars.len()
                } else {
                    GIT_SHORT_LEN
                };
                let id = from_chars(&chars, 0, len);
                assert(id@ =~= git_short(commit.oid_hex@));
                id
            },
        };
        status.description = text_or_empty(commit.summary);
        if commit.has_tree {
            status.empty = match commit.files_changed {
                Some(n) => n == 0,
                None => false,
            };
        }
    }
    status.conflict = facts.has_conflicts;
    match diff_stats(facts.unstaged) {
        Ok((f, a, d)) => {
            status.files_changed = f;
            status.lines_added = a;
            status.lines_removed = d;
        },
        Err(message) => {
            return Err(message);
        },
    }
    match diff_stats(facts.staged) {
        Ok((f, a, d)) => {
            status.staged_files_changed = f;
            status.staged_lines_added = a;
            status.staged_lines_removed = d;
        },
        Err(message) => {
            return Err(message);
        },
    }
    match diff_stats(facts.total) {
        Ok((f, a, d)) => {
            status.total_files_changed = f;
            status.total_lines_added = a;
            status.total_lines_removed = d;
        },
        Err(message) => {
            return Err(message);
        },
    }
    if facts.is_worktree {
        status.workspace_name = match facts.dir_name {
            Some(name) => name,
            None => "worktree".to_owned(),
        };
        status.is_default_workspace = false;
    } else {
        status.workspace_name = "main".to_owned();
        status.is_default_workspace = true;
    }
    status.rebasing = match facts.state {
        GitState::Rebase
        | GitState::RebaseInteractive
        | GitState::RebaseMerge
        | GitState::ApplyMailbox
        | GitState::ApplyMailboxOrRebase => true,
        _ => false,
    };
    Ok(status)
}

} // verus!
