//! Events of the file system: which of them matter.

use crate::ignore_filter::{event_paths, in_vcs, let_through, working_copy_paths, EventPath, IgnoreFilter};
use crate::paths::path_starts_with;
use crate::strings::views;
use vstd::prelude::*;

verus! {

/// What kind of event it is.
#[derive(Clone, Copy, Debug)]
pub struct EventKind {
    pub is_modify: bool,
    pub is_create: bool,
    pub is_remove: bool,
}

/// What becomes of an event.
pub enum WatchEvent {
    /// It is no modification.
    Skipped,
    /// Rules ignore all its paths.
    Ignored,
    /// Something changed.
    Change {
        working_copy_changed: bool,
        /// Absolute paths of changed files (non-ignored working copy files only).
        changed_paths: Vec<String>,
    },
}

/// Whether a path of an event lies outside version control's own directory.
pub open spec fn touches_working_copy(paths: Seq<EventPath>, vcs_dir: Seq<char>) -> bool {
    exists|i: int| 0 <= i < paths.len() && !path_starts_with((#[trigger] paths[i]).path@, vcs_dir)
}

fn any_outside(paths: &Vec<EventPath>, vcs_dir: &str) -> (r: bool)
    ensures
        r == touches_working_copy(paths@, vcs_dir@),
{
    let mut i: usize = 0;
    while i < paths.len()
        invariant
            i <= paths.len(),
            forall|k: int| 0 <= k < i ==> path_starts_with((#[trigger] paths@[k]).path@, vcs_dir@),
        decreases paths.len() - i,
    {
        if !crate::paths::starts_with(paths[i].path.as_str(), vcs_dir) {
            return true;
        }
        i += 1;
    }
    false
}

/// What becomes of an event of the file system, by the ignore rules in force: events that
/// are no modification are skipped, and so are changes of the working copy whose paths are
/// all ignored.
pub fn watch_event(kind: EventKind, filter: &IgnoreFilter, vcs_dir: &str, paths: &Vec<EventPath>) -> (r: WatchEvent)
    requires
        filter.wf(),
        filter@.rules.len() > 0 ==> forall|i: int|
            0 <= i < paths@.len() ==> in_vcs((#[trigger] paths@[i]).path@, vcs_dir@, None) || path_starts_with(
                paths@[i].path@,
                filter@.root,
            ),
    ensures
        ({
            let through = let_through(filter@, paths@, vcs_dir@, None);
            if !kind.is_modify && !kind.is_create && !kind.is_remove {
                r == WatchEvent::Skipped
            } else if touches_working_copy(paths@, vcs_dir@) && working_copy_paths(paths@, vcs_dir@, None).len() > 0
                && through.len() == 0 {
                r == WatchEvent::Ignored
            } else {
                &&& r is Change
                &&& r->working_copy_changed == touches_working_copy(paths@, vcs_dir@)
                &&& views(r->changed_paths@) == event_paths(through)
            }
        }),
{
    if !kind.is_modify && !kind.is_create && !kind.is_remove {
        return WatchEvent::Skipped;
    }
    let working_copy_changed: bool = any_outside(paths, vcs_dir);
    let verdict = filter.process_event(vcs_dir, None, paths);
    if working_copy_changed && verdict.all_ignored {
        return WatchEvent::Ignored;
    }
    WatchEvent::Change { working_copy_changed, changed_paths: verdict.changed_paths }
}

/// The directories of a repo that are watched apart from its working copy: whether each is
/// there, and whether what is below it is watched too.
#[derive(Clone, Copy, Debug, PartialEq, Eq, Structural)]
pub enum WatchedDir {
    /// The heads of jj's operations, without what is below them.
    OpHeads,
    /// git's own directory, without what is below it.
    GitDir,
    /// git's refs, with what is below them.
    GitRefs,
}

/// Which directories to watch apart from the working copy.
pub fn dirs_to_watch(
    kind: crate::ignore_filter::VcsKind,
    has_op_heads: bool,
    has_git_dir: bool,
    has_git_refs: bool,
) -> (r: Vec<WatchedDir>)
    ensures
        r@ == match kind {
            crate::ignore_filter::VcsKind::Jj => if has_op_heads {
                seq![WatchedDir::OpHeads]
            } else {
                Seq::empty()
            },
            crate::ignore_filter::VcsKind::Git => if has_git_dir && has_git_refs {
                seq![WatchedDir::GitDir, WatchedDir::GitRefs]
            } else if has_git_dir {
                seq![WatchedDir::GitDir]
            } else {
                Seq::empty()
            },
        },
{
    let mut out: Vec<WatchedDir> = Vec::new();
    match kind {
        crate::ignore_filter::VcsKind::Jj => {
            if has_op_heads {
                out.push(WatchedDir::OpHeads);
            }
        },
        crate::ignore_filter::VcsKind::Git => {
            if has_git_dir {
                out.push(WatchedDir::GitDir);
                if has_git_refs {
                    out.push(WatchedDir::GitRefs);
                }
            }
        },
    }
    out
}

} // verus!
