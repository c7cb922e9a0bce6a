//! What a status shows.

use crate::aggregate::DiffCounts;
use crate::bookmarks::BookmarkView;
use crate::git_status::{first_diff_error, git_view, GitDiffOutcome, GitFacts, GitHead};
use crate::repo_state::{metadata_view, CommitMetadata};
use crate::laws::lines::first_line_ends_at_the_newline;
use crate::status::{blank_status, with_counts, with_metadata, RepoStatus, StatusView};
use vstd::prelude::*;

verus! {

/// What a status says is what it holds, field by field.
pub proof fn status_says_what_it_holds(status: RepoStatus)
    ensures
        status@.is_jj == status.is_jj,
        status@.is_git == status.is_git,
        status@.change_id == status.change_id@,
        status@.change_id_prefix_len == status.change_id_prefix_len,
        status@.commit_id == status.commit_id@,
        status@.commit_id_prefix_len == status.commit_id_prefix_len,
        status@.description == status.description@,
        status@.conflict == status.conflict,
        status@.divergent == status.divergent,
        status@.hidden == status.hidden,
        status@.immutable == status.immutable,
        status@.bookmarks.len() == status.bookmarks@.len(),
        forall|i: int|
            0 <= i < status.bookmarks@.len() ==> {
                let seen = #[trigger] status@.bookmarks[i];
                let held = status.bookmarks@[i];
                &&& seen.name == held.name@ && seen.distance == held.distance
                &&& seen.display == held.display@ && seen.tracking == held.tracking
            },
        status@.workspace_name == status.workspace_name@,
        status@.is_default_workspace == status.is_default_workspace,
        status@.empty == status.empty,
        status@.file_mad_count_working_tree == status.file_mad_count_working_tree,
        status@.lines_added_working_tree == status.lines_added_working_tree,
        status@.lines_removed_working_tree == status.lines_removed_working_tree,
        status@.files_modified_working_tree == status.files_modified_working_tree,
        status@.files_added_working_tree == status.files_added_working_tree,
        status@.files_deleted_working_tree == status.files_deleted_working_tree,
        status@.file_mad_count == status.file_mad_count,
        status@.lines_added_total == status.lines_added_total,
        status@.lines_removed_total == status.lines_removed_total,
        status@.files_modified_total == status.files_modified_total,
        status@.files_added_total == status.files_added_total,
        status@.files_deleted_total == status.files_deleted_total,
        status@.branch == status.branch@,
        status@.files_changed == status.files_changed,
        status@.lines_added == status.lines_added,
        status@.lines_removed == status.lines_removed,
        status@.staged_files_changed == status.staged_files_changed,
        status@.staged_lines_added == status.staged_lines_added,
        status@.staged_lines_removed == status.staged_lines_removed,
        status@.total_files_changed == status.total_files_changed,
        status@.total_lines_added == status.total_lines_added,
        status@.total_lines_removed == status.total_lines_removed,
        status@.rebasing == status.rebasing,
        status@.is_stale == status.is_stale,
        status@.refresh_error == status.refresh_error@,
{
}

/// A status that says nothing has nothing in any field.
pub proof fn blank_status_is_blank()
    ensures
        !blank_status().is_jj,
        !blank_status().is_git,
        blank_status().change_id.len() == 0,
        blank_status().change_id_prefix_len == 0,
        blank_status().commit_id.len() == 0,
        blank_status().commit_id_prefix_len == 0,
        blank_status().description.len() == 0,
        !blank_status().conflict,
        !blank_status().divergent,
        !blank_status().hidden,
        !blank_status().immutable,
        blank_status().bookmarks.len() == 0,
        blank_status().workspace_name.len() == 0,
        !blank_status().is_default_workspace,
        !blank_status().empty,
        blank_status().file_mad_count_working_tree == 0,
        blank_status().lines_added_working_tree == 0,
        blank_status().lines_removed_working_tree == 0,
        blank_status().files_modified_working_tree == 0,
        blank_status().files_added_working_tree == 0,
        blank_status().files_deleted_working_tree == 0,
        blank_status().file_mad_count == 0,
        blank_status().lines_added_total == 0,
        blank_status().lines_removed_total == 0,
        blank_status().files_modified_total == 0,
        blank_status().files_added_total == 0,
        blank_status().files_deleted_total == 0,
        blank_status().branch.len() == 0,
        blank_status().files_changed == 0,
        blank_status().lines_added == 0,
        blank_status().lines_removed == 0,
        blank_status().staged_files_changed == 0,
        blank_status().staged_lines_added == 0,
        blank_status().staged_lines_removed == 0,
        blank_status().total_files_changed == 0,
        blank_status().total_lines_added == 0,
        blank_status().total_lines_removed == 0,
        !blank_status().rebasing,
        !blank_status().is_stale,
        blank_status().refresh_error.len() == 0,
{
}

/// The counts of a diff stand in the status twice, for the working tree and in total; it is
/// empty where no file has changed, and nothing else is touched.
pub proof fn counts_stand_in_the_status(status: StatusView, counts: DiffCounts)
    ensures
        ({
            let after = with_counts(status, counts);
            &&& after.is_jj == status.is_jj
            &&& after.is_git == status.is_git
            &&& after.change_id == status.change_id
            &&& after.change_id_prefix_len == status.change_id_prefix_len
            &&& after.commit_id == status.commit_id
            &&& after.commit_id_prefix_len == status.commit_id_prefix_len
            &&& after.description == status.description
            &&& after.conflict == status.conflict
            &&& after.divergent == status.divergent
            &&& after.hidden == status.hidden
            &&& after.immutable == status.immutable
            &&& after.bookmarks == status.bookmarks
            &&& after.workspace_name == status.workspace_name
            &&& after.is_default_workspace == status.is_default_workspace
            &&& after.empty <==> counts.file_mad_count == 0
            &&& after.file_mad_count_working_tree == counts.file_mad_count
            &&& after.lines_added_working_tree == counts.lines_added
            &&& after.lines_removed_working_tree == counts.lines_removed
            &&& after.files_modified_working_tree == counts.files_modified
            &&& after.files_added_working_tree == counts.files_added
            &&& after.files_deleted_working_tree == counts.files_deleted
            &&& after.file_mad_count == counts.file_mad_count
            &&& after.lines_added_total == counts.lines_added
            &&& after.lines_removed_total == counts.lines_removed
            &&& after.files_modified_total == counts.files_modified
            &&& after.files_added_total == counts.files_added
            &&& after.files_deleted_total == counts.files_deleted
            &&& after.branch == status.branch
            &&& after.files_changed == status.files_changed
            &&& after.lines_added == status.lines_added
            &&& after.lines_removed == status.lines_removed
            &&& after.staged_files_changed == status.staged_files_changed
            &&& after.staged_lines_added == status.staged_lines_added
            &&& after.staged_lines_removed == status.staged_lines_removed
            &&& after.total_files_changed == status.total_files_changed
            &&& after.total_lines_added == status.total_lines_added
            &&& after.total_lines_removed == status.total_lines_removed
            &&& after.rebasing == status.rebasing
            &&& after.is_stale == status.is_stale
            &&& after.refresh_error == status.refresh_error
        }),
{
}

/// New metadata takes the place of the old, and nothing else is touched.
pub proof fn metadata_stands_in_the_status(base: StatusView, fresh: StatusView)
    ensures
        ({
            let after = with_metadata(base, fresh);
            &&& after.is_jj == base.is_jj
            &&& after.is_git == base.is_git
            &&& after.change_id == fresh.change_id
            &&& after.change_id_prefix_len == fresh.change_id_prefix_len
            &&& after.commit_id == fresh.commit_id
            &&& after.commit_id_prefix_len == fresh.commit_id_prefix_len
            &&& after.description == fresh.description
            &&& after.conflict == fresh.conflict
            &&& after.divergent == fresh.divergent
            &&& after.hidden == fresh.hidden
            &&& after.immutable == fresh.immutable
            &&& after.bookmarks == fresh.bookmarks
            &&& after.workspace_name == fresh.workspace_name
            &&& after.is_default_workspace == fresh.is_default_workspace
            &&& after.empty == base.empty
            &&& after.file_mad_count_working_tree == base.file_mad_count_working_tree
            &&& after.lines_added_working_tree == base.lines_added_working_tree
            &&& after.lines_removed_working_tree == base.lines_removed_working_tree
            &&& after.files_modified_working_tree == base.files_modified_working_tree
            &&& after.files_added_working_tree == base.files_added_working_tree
            &&& after.files_deleted_working_tree == base.files_deleted_working_tree
            &&& after.file_mad_count == base.file_mad_count
            &&& after.lines_added_total == base.lines_added_total
            &&& after.lines_removed_total == base.lines_removed_total
            &&& after.files_modified_total == base.files_modified_total
            &&& after.files_added_total == base.files_added_total
            &&& after.files_deleted_total == base.files_deleted_total
            &&& after.branch == base.branch
            &&& after.files_changed == base.files_changed
            &&& after.lines_added == base.lines_added
            &&& after.lines_removed == base.lines_removed
            &&& after.staged_files_changed == base.staged_files_changed
            &&& after.staged_lines_added == base.staged_lines_added
            &&& after.staged_lines_removed == base.staged_lines_removed
            &&& after.total_files_changed == base.total_files_changed
            &&& after.total_lines_added == base.total_lines_added
            &&& after.total_lines_removed == base.total_lines_removed
            &&& after.rebasing == base.rebasing
            &&& after.is_stale == base.is_stale
            &&& after.refresh_error == base.refresh_error
        }),
{
}

/// Whether some numbers are those of a diff: as they are where they fit, none where there is
/// no diff.
pub open spec fn are_numbers_of(files: u32, added: u32, removed: u32, outcome: GitDiffOutcome) -> bool {
    &&& outcome matches GitDiffOutcome::Stats(d) ==> {
        &&& d.files_changed <= u32::MAX ==> files == d.files_changed
        &&& d.insertions <= u32::MAX ==> added == d.insertions
        &&& d.deletions <= u32::MAX ==> removed == d.deletions
    }
    &&& outcome is NoDiff ==> files == 0 && added == 0 && removed == 0
}

/// A git status has the numbers of each of the three diffs in fields of their own.
pub proof fn git_status_shows_each_diff(facts: GitFacts, head: GitHead)
    ensures
        ({
            let shown = git_view(facts, head);
            &&& are_numbers_of(shown.files_changed, shown.lines_added, shown.lines_removed, facts.unstaged)
            &&& are_numbers_of(
                shown.staged_files_changed,
                shown.staged_lines_added,
                shown.staged_lines_removed,
                facts.staged,
            )
            &&& are_numbers_of(
                shown.total_files_changed,
                shown.total_lines_added,
                shown.total_lines_removed,
                facts.total,
            )
        }),
{
}

/// Where what was staged and what was not change places, so do their numbers, and nothing
/// else of the status changes.
pub proof fn staged_and_unstaged_change_places(facts: GitFacts, other: GitFacts, head: GitHead)
    requires
        other == (GitFacts { unstaged: facts.staged, staged: facts.unstaged, ..facts }),
    ensures
        ({
            let a = git_view(facts, head);
            let b = git_view(other, head);
            &&& a.files_changed == b.staged_files_changed && b.files_changed == a.staged_files_changed
            &&& a.lines_added == b.staged_lines_added && b.lines_added == a.staged_lines_added
            &&& a.lines_removed == b.staged_lines_removed && b.lines_removed == a.staged_lines_removed
            &&& a.total_files_changed == b.total_files_changed
            &&& a.total_lines_added == b.total_lines_added && a.total_lines_removed == b.total_lines_removed
        }),
{
}

/// A git status names the branch, the commit by its abbreviated id or the first seven digits
/// of the whole one, and its summary; it is empty exactly where the commit is known to change
/// no file. It has the conflicts, the workspace and whether a rebase is under way, and
/// nothing of jj.
pub proof fn git_status_shows_head(facts: GitFacts, head: GitHead)
    ensures
        ({
            let shown = git_view(facts, head);
            &&& shown.is_git && !shown.is_jj
            &&& head.shorthand is Some ==> shown.branch == head.shorthand->0@
            &&& head.shorthand is None ==> shown.branch.len() == 0
            &&& head.commit matches Some(commit) ==> {
                &&& commit.short_id matches Some(Some(text)) ==> shown.commit_id == text@
                &&& commit.short_id matches Some(None) ==> shown.commit_id.len() == 0
                &&& commit.short_id is None && commit.oid_hex@.len() >= 7 ==> shown.commit_id.len() == 7
                &&& commit.short_id is None && commit.oid_hex@.len() < 7 ==> shown.commit_id == commit.oid_hex@
                &&& commit.short_id is None ==> forall|i: int|
                    0 <= i < shown.commit_id.len() ==> #[trigger] shown.commit_id[i] == commit.oid_hex@[i]
                &&& commit.summary is Some ==> shown.description == commit.summary->0@
                &&& commit.summary is None ==> shown.description.len() == 0
                &&& shown.empty <==> commit.has_tree && commit.files_changed is Some && commit.files_changed->0 == 0
            }
            &&& head.commit is None ==> shown.commit_id.len() == 0 && shown.description.len() == 0 && !shown.empty
            &&& shown.conflict == facts.has_conflicts
            &&& shown.is_default_workspace == !facts.is_worktree
            &&& !facts.is_worktree ==> shown.workspace_name == "main"@
            &&& facts.is_worktree && facts.dir_name is Some ==> shown.workspace_name == facts.dir_name->0@
            &&& facts.is_worktree && facts.dir_name is None ==> shown.workspace_name == "worktree"@
            &&& shown.rebasing <==> {
                ||| facts.state is Rebase
                ||| facts.state is RebaseInteractive
                ||| facts.state is RebaseMerge
                ||| facts.state is ApplyMailbox
                ||| facts.state is ApplyMailboxOrRebase
            }
            &&& shown.change_id.len() == 0 && shown.bookmarks.len() == 0 && !shown.is_stale
            &&& shown.file_mad_count == 0 && shown.refresh_error.len() == 0
        }),
{
}

/// A git status fails exactly where one of the three diffs comes without numbers, and with
/// the error of the first such one.
pub proof fn git_status_fails_with_the_first_error(facts: GitFacts)
    ensures
        first_diff_error(facts) is Some <==> facts.unstaged is NoStats || facts.staged is NoStats || facts.total
            is NoStats,
        facts.unstaged matches GitDiffOutcome::NoStats(message) ==> first_diff_error(facts) == Some(message),
        !(facts.unstaged is NoStats) && facts.staged is NoStats ==> first_diff_error(facts) == Some(
            facts.staged->NoStats_0,
        ),
        !(facts.unstaged is NoStats) && !(facts.staged is NoStats) && facts.total is NoStats ==> first_diff_error(facts)
            == Some(facts.total->NoStats_0),
{
}

/// Which digit of a byte stands at a place of an id: the upper half of each byte comes first.
pub open spec fn half_byte(bytes: Seq<u8>, place: int) -> int {
    if place % 2 == 0 {
        bytes[place / 2] as int / 16
    } else {
        bytes[place / 2] as int % 16
    }
}

/// The status of a commit of jj has the first eight digits of both ids, the change id in
/// letters from z down to k; the first line of the description; and whether the change has
/// several visible commits. Where no shortest prefix of an id was found, it is as long as
/// what is shown. It has nothing of git, and no counts.
pub proof fn commit_status_shows_the_commit(metadata: CommitMetadata, bookmarks: Seq<BookmarkView>)
    ensures
        ({
            let shown = metadata_view(metadata, bookmarks);
            let change = 2 * metadata.change_id@.len();
            let commit = 2 * metadata.commit_id@.len();
            &&& shown.is_jj && !shown.is_git
            &&& shown.change_id.len() == if change < 8 {
                change as int
            } else {
                8
            }
            &&& shown.commit_id.len() == if commit < 8 {
                commit as int
            } else {
                8
            }
            &&& forall|i: int|
                0 <= i < shown.change_id.len() ==> #[trigger] shown.change_id[i] == "zyxwvutsrqponmlk"@[half_byte(
                    metadata.change_id@,
                    i,
                )]
            &&& forall|i: int|
                0 <= i < shown.commit_id.len() ==> #[trigger] shown.commit_id[i] == "0123456789abcdef"@[half_byte(
                    metadata.commit_id@,
                    i,
                )]
            &&& metadata.change_id_prefix_len is Some ==> shown.change_id_prefix_len
                == metadata.change_id_prefix_len->0
            &&& metadata.change_id_prefix_len is None ==> shown.change_id_prefix_len == shown.change_id.len()
            &&& metadata.commit_id_prefix_len is Some ==> shown.commit_id_prefix_len
                == metadata.commit_id_prefix_len->0
            &&& metadata.commit_id_prefix_len is None ==> shown.commit_id_prefix_len == shown.commit_id.len()
            &&& shown.conflict == metadata.conflict
            &&& shown.divergent <==> metadata.visible_targets >= 2
            &&& shown.hidden == metadata.hidden
            &&& shown.immutable == metadata.immutable
            &&& shown.bookmarks == bookmarks
            &&& shown.workspace_name == metadata.workspace_name@
            &&& shown.is_default_workspace <==> metadata.workspace_name@ == "default"@
            &&& shown.file_mad_count == 0 && shown.lines_added_total == 0 && shown.lines_removed_total == 0
            &&& shown.branch.len() == 0 && !shown.is_stale && !shown.empty
        }),
{
}

/// The description of a status is the first line of that of the commit: the longest part of
/// it without a newline, and without the carriage return before the newline.
pub proof fn commit_status_shows_the_first_line(
    metadata: CommitMetadata,
    bookmarks: Seq<BookmarkView>,
    line: Seq<char>,
    rest: Seq<char>,
)
    requires
        !line.contains('\n'),
    ensures
        metadata.description@ == line ==> metadata_view(metadata, bookmarks).description == line,
        metadata.description@ == line + seq!['\n'] + rest && (line.len() == 0 || line.last() != '\r')
            ==> metadata_view(metadata, bookmarks).description == line,
        metadata.description@ == line + seq!['\r', '\n'] + rest ==> metadata_view(metadata, bookmarks).description
            == line,
{
    first_line_ends_at_the_newline(line, rest);
}

} // verus!
