//! The status of a repo.

use crate::aggregate::DiffCounts;
use crate::bookmarks::{bookmark_views, clone_bookmarks, Bookmark, BookmarkView};
use vstd::prelude::*;

verus! {

/// The status of a repo, of jj or of git.
#[derive(Debug)]
pub struct RepoStatus {
    pub is_jj: bool,
    pub is_git: bool,
    pub change_id: String,
    pub change_id_prefix_len: usize,
    pub commit_id: String,
    pub commit_id_prefix_len: usize,
    pub description: String,
    pub conflict: bool,
    pub divergent: bool,
    pub hidden: bool,
    pub immutable: bool,
    pub bookmarks: Vec<Bookmark>,
    pub workspace_name: String,
    pub is_default_workspace: bool,
    pub empty: bool,
    pub file_mad_count_working_tree: u32,
    pub lines_added_working_tree: u32,
    pub lines_removed_working_tree: u32,
    pub files_modified_working_tree: u32,
    pub files_added_working_tree: u32,
    pub files_deleted_working_tree: u32,
    pub file_mad_count: u32,
    pub lines_added_total: u32,
    pub lines_removed_total: u32,
    pub files_modified_total: u32,
    pub files_added_total: u32,
    pub files_deleted_total: u32,
    pub branch: String,
    pub files_changed: u32,
    pub lines_added: u32,
    pub lines_removed: u32,
    pub staged_files_changed: u32,
    pub staged_lines_added: u32,
    pub staged_lines_removed: u32,
    pub total_files_changed: u32,
    pub total_lines_added: u32,
    pub total_lines_removed: u32,
    pub rebasing: bool,
    /// The last refresh has not come through yet, or failed.
    pub is_stale: bool,
    /// The error of the last refresh, where it failed.
    pub refresh_error: String,
}

/// What a status says.
#[verifier::ext_equal]
pub struct StatusView {
    pub is_jj: bool,
    pub is_git: bool,
    pub change_id: Seq<char>,
    pub change_id_prefix_len: usize,
    pub commit_id: Seq<char>,
    pub commit_id_prefix_len: usize,
    pub description: Seq<char>,
    pub conflict: bool,
    pub divergent: bool,
    pub hidden: bool,
    pub immutable: bool,
    pub bookmarks: Seq<BookmarkView>,
    pub workspace_name: Seq<char>,
    pub is_default_workspace: bool,
    pub empty: bool,
    pub file_mad_count_working_tree: u32,
    pub lines_added_working_tree: u32,
    pub lines_removed_working_tree: u32,
    pub files_modified_working_tree: u32,
    pub files_added_working_tree: u32,
    pub files_deleted_working_tree: u32,
    pub file_mad_count: u32,
    pub lines_added_total: u32,
    pub lines_removed_total: u32,
    pub files_modified_total: u32,
    pub files_added_total: u32,
    pub files_deleted_total: u32,
    pub branch: Seq<char>,
    pub files_changed: u32,
    pub lines_added: u32,
    pub lines_removed: u32,
    pub staged_files_changed: u32,
    pub staged_lines_added: u32,
    pub staged_lines_removed: u32,
    pub total_files_changed: u32,
    pub total_lines_added: u32,
    pub total_lines_removed: u32,
    pub rebasing: bool,
    pub is_stale: bool,
    pub refresh_error: Seq<char>,
}

impl View for RepoStatus {
    type V = StatusView;

    open spec fn view(&self) -> StatusView {
        StatusView {
            is_jj: self.is_jj,
            is_git: self.is_git,
            change_id: self.change_id@,
            change_id_prefix_len: self.change_id_prefix_len,
            commit_id: self.commit_id@,
            commit_id_prefix_len: self.commit_id_prefix_len,
            description: self.description@,
            conflict: self.conflict,
            divergent: self.divergent,
            hidden: self.hidden,
            immutable: self.immutable,
            bookmarks: bookmark_views(self.bookmarks@),
            workspace_name: self.workspace_name@,
            is_default_workspace: self.is_default_workspace,
            empty: self.empty,
            file_mad_count_working_tree: self.file_mad_count_working_tree,
            lines_added_working_tree: self.lines_added_working_tree,
            lines_removed_working_tree: self.lines_removed_working_tree,
            files_modified_working_tree: self.files_modified_working_tree,
            files_added_working_tree: self.files_added_working_tree,
            files_deleted_working_tree: self.files_deleted_working_tree,
            file_mad_count: self.file_mad_count,
            lines_added_total: self.lines_added_total,
            lines_removed_total: self.lines_removed_total,
            files_modified_total: self.files_modified_total,
            files_added_total: self.files_added_total,
            files_deleted_total: self.files_deleted_total,
            branch: self.branch@,
            files_changed: self.files_changed,
            lines_added: self.lines_added,
            lines_removed: self.lines_removed,
            staged_files_changed: self.staged_files_changed,
            staged_lines_added: self.staged_lines_added,
            staged_lines_removed: self.staged_lines_removed,
            total_files_changed: self.total_files_changed,
            total_lines_added: self.total_lines_added,
            total_lines_removed: self.total_lines_removed,
            rebasing: self.rebasing,
            is_stale: self.is_stale,
            refresh_error: self.refresh_error@,
        }
    }
}

/// A status that says nothing.
pub open spec fn blank_status() -> StatusView {
    StatusView {
        is_jj: false,
        is_git: false,
        change_id: Seq::empty(),
        change_id_prefix_len: 0,
        commit_id: Seq::empty(),
        commit_id_prefix_len: 0,
        description: Seq::empty(),
        conflict: false,
        divergent: false,
        hidden: false,
        immutable: false,
        bookmarks: Seq::empty(),
        workspace_name: Seq::empty(),
        is_default_workspace: false,
        empty: false,
        file_mad_count_working_tree: 0,
        lines_added_working_tree: 0,
        lines_removed_working_tree: 0,
        files_modified_working_tree: 0,
        files_added_working_tree: 0,
        files_deleted_working_tree: 0,
        file_mad_count: 0,
        lines_added_total: 0,
        lines_removed_total: 0,
        files_modified_total: 0,
        files_added_total: 0,
        files_deleted_total: 0,
        branch: Seq::empty(),
        files_changed: 0,
        lines_added: 0,
        lines_removed: 0,
        staged_files_changed: 0,
        staged_lines_added: 0,
        staged_lines_removed: 0,
        total_files_changed: 0,
        total_lines_added: 0,
        total_lines_removed: 0,
        rebasing: false,
        is_stale: false,
        refresh_error: Seq::empty(),
    }
}

impl Default for RepoStatus {
    fn default() -> (r: Self)
        ensures
            r@ == blank_status(),
    {
        let r = RepoStatus {
            is_jj: false,
            is_git: false,
            change_id: String::new(),
            change_id_prefix_len: 0,
            commit_id: String::new(),
            commit_id_prefix_len: 0,
            description: String::new(),
            conflict: false,
            divergent: false,
            hidden: false,
            immutable: false,
            bookmarks: Vec::new(),
            workspace_name: String::new(),
            is_default_workspace: false,
            empty: false,
            file_mad_count_working_tree: 0,
            lines_added_working_tree: 0,
            lines_removed_working_tree: 0,
            files_modified_working_tree: 0,
            files_added_working_tree: 0,
            files_deleted_working_tree: 0,
            file_mad_count: 0,
            lines_added_total: 0,
            lines_removed_total: 0,
            files_modified_total: 0,
            files_added_total: 0,
            files_deleted_total: 0,
            branch: String::new(),
            files_changed: 0,
            lines_added: 0,
            lines_removed: 0,
            staged_files_changed: 0,
            staged_lines_added: 0,
            staged_lines_removed: 0,
            total_files_changed: 0,
            total_lines_added: 0,
            total_lines_removed: 0,
            rebasing: false,
            is_stale: false,
            refresh_error: String::new(),
        };
        assert(r@ =~= blank_status());
        r
    }
}

impl Clone for RepoStatus {
    fn clone(&self) -> (r: Self)
        ensures
            r@ == self@,
    {
        RepoStatus {
            is_jj: self.is_jj,
            is_git: self.is_git,
            change_id: self.change_id.clone(),
            change_id_prefix_len: self.change_id_prefix_len,
            commit_id: self.commit_id.clone(),
            commit_id_prefix_len: self.commit_id_prefix_len,
            description: self.description.clone(),
            conflict: self.conflict,
            divergent: self.divergent,
            hidden: self.hidden,
            immutable: self.immutable,
            bookmarks: clone_bookmarks(&self.bookmarks),
            workspace_name: self.workspace_name.clone(),
            is_default_workspace: self.is_default_workspace,
            empty: self.empty,
            file_mad_count_working_tree: self.file_mad_count_working_tree,
            lines_added_working_tree: self.lines_added_working_tree,
            lines_removed_working_tree: self.lines_removed_working_tree,
            files_modified_working_tree: self.files_modified_working_tree,
            files_added_working_tree: self.files_added_working_tree,
            files_deleted_working_tree: self.files_deleted_working_tree,
            file_mad_count: self.file_mad_count,
            lines_added_total: self.lines_added_total,
            lines_removed_total: self.lines_removed_total,
            files_modified_total: self.files_modified_total,
            files_added_total: self.files_added_total,
            files_deleted_total: self.files_deleted_total,
            branch: self.branch.clone(),
            files_changed: self.files_changed,
            lines_added: self.lines_added,
            lines_removed: self.lines_removed,
            staged_files_changed: self.staged_files_changed,
            staged_lines_added: self.staged_lines_added,
            staged_lines_removed: self.staged_lines_removed,
            total_files_changed: self.total_files_changed,
            total_lines_added: self.total_lines_added,
            total_lines_removed: self.total_lines_removed,
            rebasing: self.rebasing,
            is_stale: self.is_stale,
            refresh_error: self.refresh_error.clone(),
        }
    }
}

/// A status with the counts of a diff in it.
pub open spec fn with_counts(status: StatusView, c: DiffCounts) -> StatusView {
    StatusView {
        file_mad_count_working_tree: c.file_mad_count,
        lines_added_working_tree: c.lines_added,
        lines_removed_working_tree: c.lines_removed,
        files_modified_working_tree: c.files_modified,
        files_added_working_tree: c.files_added,
        files_deleted_working_tree: c.files_deleted,
        file_mad_count: c.file_mad_count,
        lines_added_total: c.lines_added,
        lines_removed_total: c.lines_removed,
        files_modified_total: c.files_modified,
        files_added_total: c.files_added,
        files_deleted_total: c.files_deleted,
        empty: c.file_mad_count == 0,
        ..status
    }
}

impl RepoStatus {
    /// Puts the counts of a diff into the status.
    pub fn set_counts(&mut self, c: DiffCounts)
        ensures
            final(self)@ == with_counts(old(self)@, c),
    {
        self.file_mad_count_working_tree = c.file_mad_count;
        self.lines_added_working_tree = c.lines_added;
        self.lines_removed_working_tree = c.lines_removed;
        self.files_modified_working_tree = c.files_modified;
        self.files_added_working_tree = c.files_added;
        self.files_deleted_working_tree = c.files_deleted;
        self.file_mad_count = c.file_mad_count;
        self.lines_added_total = c.lines_added;
        self.lines_removed_total = c.lines_removed;
        self.files_modified_total = c.files_modified;
        self.files_added_total = c.files_added;
        self.files_deleted_total = c.files_deleted;
        self.empty = c.file_mad_count == 0;
    }
}

/// A status with the metadata of another one.
pub open spec fn with_metadata(base: StatusView, fresh: StatusView) -> StatusView {
    StatusView {
        change_id: fresh.change_id,
        change_id_prefix_len: fresh.change_id_prefix_len,
        commit_id: fresh.commit_id,
        commit_id_prefix_len: fresh.commit_id_prefix_len,
        description: fresh.description,
        conflict: fresh.conflict,
        divergent: fresh.divergent,
        hidden: fresh.hidden,
        immutable: fresh.immutable,
        bookmarks: fresh.bookmarks,
        workspace_name: fresh.workspace_name,
        is_default_workspace: fresh.is_default_workspace,
        ..base
    }
}

/// Copy metadata fields from a freshly computed status into the retained base status.
/// Does NOT touch diff stats fields and `empty`: those are managed by the overlay.
pub fn update_base_status_metadata(base: &mut RepoStatus, fresh: &RepoStatus)
    ensures
        final(base)@ == with_metadata(old(base)@, fresh@),
{
    base.change_id = fresh.change_id.clone();
    base.change_id_prefix_len = fresh.change_id_prefix_len;
    base.commit_id = fresh.commit_id.clone();
    base.commit_id_prefix_len = fresh.commit_id_prefix_len;
    base.description = fresh.description.clone();
    base.conflict = fresh.conflict;
    base.divergent = fresh.divergent;
    base.hidden = fresh.hidden;
    base.immutable = fresh.immutable;
    base.bookmarks = clone_bookmarks(&fresh.bookmarks);
    base.workspace_name = fresh.workspace_name.clone();
    base.is_default_workspace = fresh.is_default_workspace;
}

/// A metadata update does not touch what the diff says.
pub proof fn metadata_keeps_the_diff(base: StatusView, fresh: StatusView, c: DiffCounts)
    ensures
        with_metadata(with_counts(base, c), fresh) == with_counts(with_metadata(base, fresh), c),
{
    assert(with_metadata(with_counts(base, c), fresh) =~= with_counts(with_metadata(base, fresh), c));
}

} // verus!
