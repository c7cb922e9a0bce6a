//! The retained state of a jj repo, and the statuses made from it.

use crate::aggregate::{aggregate_file_stats, aggregate_overlay_stats, counts_of, effective, no_counts, DiffCounts};
use crate::bookmarks::{bookmark_views, Bookmark, BookmarkView};
use crate::by_dir::IncrementalDiffStats;
use crate::conflicts::{contents_view, ConflictMarkerStyle, MergeOptions};
use crate::lines::{first_line, take_first_line};
use crate::staging::{lemma_views_push, DiffState, DiffStateView};
use crate::stats::{
    blank_stats, diff_stats_for_contents, stats_for_contents, FileChangeKind, FileDiffStats, FileStats,
};
use crate::status::{blank_status, with_counts, RepoStatus, StatusView};
use crate::strings::{from_chars, str_eq, to_chars, views};
use crate::table::FileTable;
use crate::text::u32_of;
use crate::wc::{
    as_content, content_of, materialized_bytes, materialized_ok, opt_view, vec_view, MaterializedValue,
    MaterializedView,
};
use vstd::prelude::*;

verus! {

/// The digits of jj's change ids.
pub open spec fn reverse_digits() -> Seq<char> {
    "zyxwvutsrqponmlk"@
}

/// The digits of commit ids.
pub open spec fn hex_digits() -> Seq<char> {
    "0123456789abcdef"@
}

/// Two digits for each byte.
pub open spec fn in_digits(bytes: Seq<u8>, digits: Seq<char>) -> Seq<char> {
    Seq::new(
        2 * bytes.len(),
        |i: int|
            if i % 2 == 0 {
                digits[bytes[i / 2] as int / 16]
            } else {
                digits[bytes[i / 2] as int % 16]
            },
    )
}

/// Calls `jj_lib::hex_util::encode_reverse_hex`: two digits for each byte, of which `z`
/// stands for zero and `k` for fifteen.
#[verifier::external_body]
fn encode_reverse_hex(bytes: &[u8]) -> (r: String)
    ensures
        r@ == in_digits(bytes@, reverse_digits()),
{
    jj_lib::hex_util::encode_reverse_hex(bytes)
}

/// Calls `jj_lib::hex_util::encode_hex`: two hexadecimal digits for each byte.
#[verifier::external_body]
fn encode_hex(bytes: &[u8]) -> (r: String)
    ensures
        r@ == in_digits(bytes@, hex_digits()),
{
    jj_lib::hex_util::encode_hex(bytes)
}

/// How many digits of an id are shown.
pub const SHORT_ID_LEN: usize = 8;

/// The first digits of an id.
pub open spec fn short_id(id: Seq<char>) -> Seq<char> {
    if id.len() < SHORT_ID_LEN {
        id
    } else {
        id.take(SHORT_ID_LEN as int)
    }
}

/// The number of digits shown.
pub open spec fn short_id_len(id: Seq<char>) -> usize {
    short_id(id).len() as usize
}

fn shorten(id: &str) -> (r: String)
    ensures
        r@ == short_id(id@),
        r@.len() <= SHORT_ID_LEN,
{
    let chars = to_chars(id);
    let len: usize = if chars.len() < SHORT_ID_LEN {
        chars.len()
    } else {
        SHORT_ID_LEN
    };
    let r = from_chars(&chars, 0, len);
    assert(r@ =~= short_id(id@));
    r
}

/// What the store says of the working-copy commit.
pub struct CommitMetadata {
    pub change_id: Vec<u8>,
    /// The length of the shortest unique prefix of the change id, where it was found.
    pub change_id_prefix_len: Option<usize>,
    pub commit_id: Vec<u8>,
    /// The length of the shortest unique prefix of the commit id, where it was found.
    pub commit_id_prefix_len: Option<usize>,
    pub description: String,
    pub conflict: bool,
    /// The number of visible commits with the change id.
    pub visible_targets: usize,
    pub hidden: bool,
    pub immutable: bool,
    pub workspace_name: String,
}

/// The status of the working-copy commit, without diff stats.
pub open spec fn metadata_view(metadata: CommitMetadata, bookmarks: Seq<BookmarkView>) -> StatusView {
    let change_id = in_digits(metadata.change_id@, reverse_digits());
    let commit_id = in_digits(metadata.commit_id@, hex_digits());
    StatusView {
        is_jj: true,
        change_id: short_id(change_id),
        change_id_prefix_len: match metadata.change_id_prefix_len {
            Some(len) => len,
            None => short_id_len(change_id),
        },
        commit_id: short_id(commit_id),
        commit_id_prefix_len: match metadata.commit_id_prefix_len {
            Some(len) => len,
            None => short_id_len(commit_id),
        },
        description: first_line(metadata.description@),
        conflict: metadata.conflict,
        divergent: metadata.visible_targets > 1,
        hidden: metadata.hidden,
        immutable: metadata.immutable,
        bookmarks,
        workspace_name: metadata.workspace_name@,
        is_default_workspace: metadata.workspace_name@ == "default"@,
        ..blank_status()
    }
}

/// The status of the working-copy commit, without diff stats.
pub fn metadata_status(metadata: &CommitMetadata, bookmarks: Vec<Bookmark>) -> (r: RepoStatus)
    ensures
        r@ == metadata_view(*metadata, bookmark_views(bookmarks@)),
{
    let mut status = RepoStatus::default();
    status.is_jj = true;
    let change_id_full = encode_reverse_hex(metadata.change_id.as_slice());
    status.change_id = shorten(change_id_full.as_str());
    status.change_id_prefix_len = match metadata.change_id_prefix_len {
        Some(len) => len,
        None => to_chars(status.change_id.as_str()).len(),
    };
    let commit_id_full = encode_hex(metadata.commit_id.as_slice());
    status.commit_id = shorten(commit_id_full.as_str());
    status.commit_id_prefix_len = match metadata.commit_id_prefix_len {
        Some(len) => len,
        None => to_chars(status.commit_id.as_str()).len(),
    };
    status.description = take_first_line(metadata.description.as_str());
    status.conflict = metadata.conflict;
    status.divergent = metadata.visible_targets > 1;
    status.hidden = metadata.hidden;
    status.immutable = metadata.immutable;
    status.bookmarks = bookmarks;
    status.workspace_name = metadata.workspace_name.clone();
    status.is_default_workspace = str_eq(metadata.workspace_name.as_str(), "default");
    status
}

/// One entry of a diff between two trees: the path, the path that it was copied or renamed
/// from, and both values, `None` where they could not be materialized.
pub struct DiffEntry {
    pub path: String,
    pub copied_from: Option<String>,
    pub before: Option<MaterializedValue>,
    pub after: Option<MaterializedValue>,
}

/// What an entry of a diff says.
pub struct DiffEntryView {
    pub path: Seq<char>,
    pub copied_from: Option<Seq<char>>,
    pub before: Option<MaterializedView>,
    pub after: Option<MaterializedView>,
}

impl View for DiffEntry {
    type V = DiffEntryView;

    open spec fn view(&self) -> DiffEntryView {
        DiffEntryView {
            path: self.path@,
            copied_from: self.copied_from.deep_view(),
            before: opt_view(self.before),
            after: opt_view(self.after),
        }
    }
}

/// The conflicts of an entry are in shape.
pub open spec fn entry_ok(entry: DiffEntryView) -> bool {
    &&& entry.before is Some ==> materialized_ok(entry.before->0)
    &&& entry.after is Some ==> materialized_ok(entry.after->0)
}

/// The content of a value that may not have been materialized.
pub open spec fn side_content(
    value: Option<MaterializedView>,
    style: ConflictMarkerStyle,
    options: MergeOptions,
) -> Option<Seq<u8>> {
    match value {
        Some(v) => content_of(v, style, options),
        None => None,
    }
}

/// The stats of an entry of a diff between two trees. A renamed or copied file is one
/// modified file, even with equal contents. Where the values differ and the contents do
/// not, it is a modified file without changed lines.
pub open spec fn entry_stats(
    entry: DiffEntryView,
    style: ConflictMarkerStyle,
    options: MergeOptions,
) -> Option<FileStats> {
    let before = side_content(entry.before, style, options);
    let after = side_content(entry.after, style, options);
    match (stats_for_contents(before, after), entry.copied_from) {
        (Some(stats), Some(source)) => Some(
            FileStats {
                kind: FileChangeKind::Modified,
                content_hash: None,
                renamed_from: Some(source),
                ..stats
            },
        ),
        (Some(stats), None) => Some(stats),
        (None, Some(source)) => Some(FileStats { renamed_from: Some(source), ..blank_stats() }),
        (None, None) => if before is Some {
            Some(blank_stats())
        } else {
            None
        },
    }
}

/// The stats of the entries of a diff, on top of those of a table. Of several entries of
/// one path the last one counts.
pub open spec fn per_file_stats(
    table: Map<Seq<char>, FileStats>,
    entries: Seq<DiffEntry>,
    style: ConflictMarkerStyle,
    options: MergeOptions,
) -> Map<Seq<char>, FileStats>
    decreases entries.len(),
{
    if entries.len() == 0 {
        table
    } else {
        let before = per_file_stats(table, entries.drop_last(), style, options);
        match entry_stats(entries.last()@, style, options) {
            Some(stats) => before.insert(entries.last().path@, stats),
            None => before,
        }
    }
}

fn side_bytes(value: &Option<MaterializedValue>, style: ConflictMarkerStyle, options: MergeOptions) -> (r: Option<
    Vec<u8>,
>)
    requires
        value is Some ==> value->0.wf(),
    ensures
        vec_view(r) == side_content(opt_view(*value), style, options),
{
    match value {
        Some(v) => materialized_bytes(v, style, options),
        None => None,
    }
}

fn stats_of_entry(entry: &DiffEntry, style: ConflictMarkerStyle, options: MergeOptions) -> (r: Option<FileDiffStats>)
    requires
        entry_ok(entry@),
    ensures
        r.deep_view() == entry_stats(entry@, style, options),
{
    let before = side_bytes(&entry.before, style, options);
    let after = side_bytes(&entry.after, style, options);
    match diff_stats_for_contents(as_content(&before), as_content(&after)) {
        Some(stats) => {
            let mut stats = stats;
            if let Some(source) = &entry.copied_from {
                stats.kind = FileChangeKind::Modified;
                stats.content_hash = None;
                stats.renamed_from = Some(source.clone());
            }
            Some(stats)
        },
        None => match &entry.copied_from {
            Some(source) => {
                let mut stats = FileDiffStats::default();
                stats.renamed_from = Some(source.clone());
                Some(stats)
            },
            None => if before.is_some() {
                Some(FileDiffStats::default())
            } else {
                None
            },
        },
    }
}

/// Compute per-file diff stats between two trees from the entries of their diff, honoring
/// rename/copy records the way `jj diff --stat` does: a renamed file is one changed file,
/// with line stats from diffing source content against target content. The stats are put
/// into a table, which may hold those of earlier entries.
pub fn compute_per_file_diff_stats(
    table: &mut FileTable<FileDiffStats>,
    entries: &Vec<DiffEntry>,
    style: ConflictMarkerStyle,
    options: MergeOptions,
)
    requires
        old(table).wf(),
        forall|i: int| 0 <= i < entries@.len() ==> entry_ok((#[trigger] entries@[i])@),
    ensures
        final(table).wf(),
        final(table)@ == per_file_stats(old(table)@, entries@, style, options),
{
    let ghost start = table@;
    let mut i: usize = 0;
    while i < entries.len()
        invariant
            i <= entries.len(),
            table.wf(),
            forall|k: int| 0 <= k < entries@.len() ==> entry_ok((#[trigger] entries@[k])@),
            table@ == per_file_stats(start, entries@.take(i as int), style, options),
        decreases entries.len() - i,
    {
        let entry = &entries[i];
        proof {
            assert(entries@.take(i + 1).drop_last() =~= entries@.take(i as int));
            assert(entries@.take(i + 1).last() == *entry);
        }
        if let Some(stats) = stats_of_entry(entry, style, options) {
            table.insert(entry.path.clone(), stats);
        }
        i += 1;
    }
    assert(entries@.take(i as int) =~= entries@);
}

/// Entries can be put into a table in several goes.
pub proof fn per_file_stats_in_goes(
    table: Map<Seq<char>, FileStats>,
    first: Seq<DiffEntry>,
    second: Seq<DiffEntry>,
    style: ConflictMarkerStyle,
    options: MergeOptions,
)
    ensures
        per_file_stats(per_file_stats(table, first, style, options), second, style, options) == per_file_stats(
            table,
            first + second,
            style,
            options,
        ),
    decreases second.len(),
{
    if second.len() == 0 {
        assert(first + second =~= first);
    } else {
        assert((first + second).drop_last() =~= first + second.drop_last());
        assert((first + second).last() == second.last());
        per_file_stats_in_goes(table, first, second.drop_last(), style, options);
    }
}

/// Retained state for incremental working copy diffs.
pub struct JjRepoState {
    pub diff: DiffState,
    /// Tree ids of the parent tree, used to detect baseline changes without full diff.
    pub parent_tree_ids: Vec<Vec<u8>>,
    /// The tree of each parent that copies are looked for in. These may change while the
    /// merged parent tree stays the same, and with them what counts as renamed.
    pub copy_tree_ids: Vec<Vec<u8>>,
    /// Operation id at the time this state was built.
    pub op_id: Vec<u8>,
    /// Repo root (canonical) for converting absolute paths to repo-relative.
    pub repo_root: String,
    /// The full status minus diff stats, so it can be rendered without full reload.
    pub base_status: RepoStatus,
}

/// What a loaded repo says, apart from its metadata and its diff.
pub struct LoadedRepo {
    /// Tree ids of the parent tree, `None` if it failed to load.
    pub parent_tree_ids: Option<Vec<Vec<u8>>>,
    pub commit_tree_ids: Vec<Vec<u8>>,
    /// The tree of each parent that copies are looked for in, none where the parents could
    /// not be loaded.
    pub copy_tree_ids: Vec<Vec<u8>>,
    pub op_id: Vec<u8>,
    pub repo_root: String,
    pub conflicted_paths: Vec<String>,
    /// Paths with a value in the parent tree and none in the commit's.
    pub deleted_paths: Vec<String>,
    pub conflict_marker_style: ConflictMarkerStyle,
    pub merge_options: MergeOptions,
}

/// A status with the counts of a full diff in it; where the parent tree failed to load
/// there is no diff, and the commit counts as empty.
pub open spec fn full_status(metadata: StatusView, loaded: LoadedRepo, files: Map<Seq<char>, FileStats>) -> StatusView {
    if loaded.parent_tree_ids is Some {
        with_counts(metadata, counts_of(files))
    } else {
        StatusView { empty: true, ..metadata }
    }
}

impl JjRepoState {
    pub open spec fn wf(&self) -> bool {
        self.diff.wf()
    }

    /// The whole diff.
    pub open spec fn files(&self) -> Map<Seq<char>, FileStats> {
        effective(self.diff@.base, self.diff@.overlay)
    }

    pub fn aggregate_stats(&self) -> (r: DiffCounts)
        requires
            self.wf(),
        ensures
            r == counts_of(self.files()),
    {
        aggregate_overlay_stats(&self.diff.base_file_stats, &self.diff.overlay)
    }

    /// Build a status with current aggregate diff stats.
    pub fn current_status(&self) -> (r: RepoStatus)
        requires
            self.wf(),
        ensures
            r@ == with_counts(self.base_status@, counts_of(self.files())),
    {
        let mut status = self.base_status.clone();
        status.set_counts(self.aggregate_stats());
        status
    }

    /// How many entries the diff comes from, and its sums.
    pub fn overlay_stats(&self) -> (r: IncrementalDiffStats)
        requires
            self.wf(),
        ensures
            r.base_files == u32_of(self.diff@.base.dom().len()),
            r.overlay_entries == u32_of(self.diff@.overlay.dom().len()),
            r.files_changed == counts_of(self.files()).file_mad_count,
            r.lines_added == counts_of(self.files()).lines_added,
            r.lines_removed == counts_of(self.files()).lines_removed,
    {
        let counts = self.aggregate_stats();
        IncrementalDiffStats {
            base_files: (self.diff.base_file_stats.len() as u64 % 0x1_0000_0000) as u32,
            overlay_entries: (self.diff.overlay.len() as u64 % 0x1_0000_0000) as u32,
            files_changed: counts.file_mad_count,
            lines_added: counts.lines_added,
            lines_removed: counts.lines_removed,
        }
    }
}

/// Whether a diff has a file renamed from a path.
pub open spec fn is_source(files: Map<Seq<char>, FileStats>, path: Seq<char>) -> bool {
    exists|target: Seq<char>| #[trigger] files.contains_key(target) && files[target].renamed_from == Some(path)
}

/// The deleted paths that a diff says nothing of: it neither has an entry for them nor a
/// file renamed from them.
pub open spec fn unlisted(deleted: Seq<Seq<char>>, files: Map<Seq<char>, FileStats>) -> Seq<Seq<char>>
    decreases deleted.len(),
{
    if deleted.len() == 0 {
        deleted
    } else {
        let path = deleted.last();
        if files.contains_key(path) || is_source(files, path) {
            unlisted(deleted.drop_last(), files)
        } else {
            unlisted(deleted.drop_last(), files).push(path)
        }
    }
}

/// The paths that files of a diff are renamed from.
fn rename_sources(files: &FileTable<FileDiffStats>) -> (r: FileTable<bool>)
    requires
        files.wf(),
    ensures
        r.wf(),
        forall|path: Seq<char>| #[trigger] r@.contains_key(path) <==> is_source(files@, path),
{
    let mut out: FileTable<bool> = FileTable::new();
    let ghost all = files.paths();
    let n: usize = files.len();
    let mut i: usize = 0;
    proof {
        files.paths_are_domain();
    }
    while i < n
        invariant
            files.wf(),
            out.wf(),
            all == files.paths(),
            all.to_set() == files@.dom(),
            i <= n == all.len(),
            forall|path: Seq<char>| #[trigger]
                out@.contains_key(path) <==> exists|k: int|
                    0 <= k < i && files@[#[trigger] all[k]].renamed_from == Some(path),
        decreases n - i,
    {
        let ghost before = out@;
        let target = files.path_at(i);
        let stats = files.value_at(i);
        if let Some(source) = &stats.renamed_from {
            out.insert(source.clone(), true);
        }
        proof {
            assert(files@[all[i as int]] == stats@);
            assert forall|path: Seq<char>| #[trigger]
                out@.contains_key(path) <==> exists|k: int|
                    0 <= k < i + 1 && files@[#[trigger] all[k]].renamed_from == Some(path) by {
                if before.contains_key(path) {
                    let k = choose|k: int| 0 <= k < i && files@[#[trigger] all[k]].renamed_from == Some(path);
                    assert(0 <= k < i + 1 && files@[all[k]].renamed_from == Some(path));
                }
                if stats@.renamed_from == Some(path) {
                    assert(files@[all[i as int]].renamed_from == Some(path));
                }
                if exists|k: int| 0 <= k < i + 1 && files@[#[trigger] all[k]].renamed_from == Some(path) {
                    let k = choose|k: int| 0 <= k < i + 1 && files@[#[trigger] all[k]].renamed_from == Some(path);
                    if k < i {
                        assert(before.contains_key(path));
                    }
                }
            }
        }
        i += 1;
    }
    proof {
        assert forall|path: Seq<char>| #[trigger] out@.contains_key(path) <==> is_source(files@, path) by {
            if out@.contains_key(path) {
                let k = choose|k: int| 0 <= k < n && files@[#[trigger] all[k]].renamed_from == Some(path);
                assert(all.contains(all[k]));
                assert(all.to_set().contains(all[k]));
                assert(files@.contains_key(all[k]));
            }
            if is_source(files@, path) {
                let target = choose|target: Seq<char>| #[trigger]
                    files@.contains_key(target) && files@[target].renamed_from == Some(path);
                assert(all.to_set().contains(target));
                assert(all.contains(target));
                let k = choose|k: int| 0 <= k < all.len() && all[k] == target;
                assert(files@[all[k]].renamed_from == Some(path));
            }
        }
    }
    out
}

/// The deleted paths that a diff says nothing of.
fn list_unlisted(deleted: &Vec<String>, files: &FileTable<FileDiffStats>) -> (r: Vec<String>)
    requires
        files.wf(),
    ensures
        views(r@) == unlisted(views(deleted@), files@),
{
    let sources = rename_sources(files);
    let ghost all = views(deleted@);
    let mut out: Vec<String> = Vec::new();
    let mut i: usize = 0;
    assert(views(out@) =~= unlisted(all.take(0), files@));
    while i < deleted.len()
        invariant
            files.wf(),
            sources.wf(),
            i <= deleted.len(),
            all == views(deleted@),
            forall|path: Seq<char>| #[trigger] sources@.contains_key(path) <==> is_source(files@, path),
            views(out@) == unlisted(all.take(i as int), files@),
        decreases deleted.len() - i,
    {
        let path = &deleted[i];
        proof {
            assert(all[i as int] == path@);
            assert(all.take(i + 1).drop_last() =~= all.take(i as int));
            assert(all.take(i + 1).last() == path@);
        }
        if !files.contains(path.as_str()) && !sources.contains(path.as_str()) {
            let name = path.clone();
            let ghost before = out@;
            out.push(name);
            proof {
                lemma_views_push(before, name);
            }
        }
        i += 1;
    }
    assert(all.take(i as int) =~= all);
    out
}

/// Given an already-loaded repo and the stats of its full diff, compute the full status
/// and build the retained state.
pub fn compute_jj_full_status(metadata: RepoStatus, loaded: LoadedRepo, per_file: FileTable<FileDiffStats>) -> (r: (
    RepoStatus,
    JjRepoState,
))
    requires
        per_file.wf(),
        loaded.commit_tree_ids@.len() % 2 == 1,
        loaded.commit_tree_ids@.len() <= i32::MAX,
    ensures
        r.1.wf(),
        r.0@ == full_status(metadata@, loaded, per_file@),
        r.1.base_status@ == r.0@,
        r.1.diff@ == (DiffStateView {
            base: if loaded.parent_tree_ids is Some {
                per_file@
            } else {
                Map::empty()
            },
            overlay: Map::empty(),
            style: loaded.conflict_marker_style,
            options: loaded.merge_options,
            parents: loaded.copy_tree_ids@.len(),
            terms: contents_view(loaded.commit_tree_ids@),
            conflicted: views(loaded.conflicted_paths@),
            dropped: unlisted(
                views(loaded.deleted_paths@),
                if loaded.parent_tree_ids is Some {
                    per_file@
                } else {
                    Map::empty()
                },
            ),
        }),
        contents_view(r.1.copy_tree_ids@) == contents_view(loaded.copy_tree_ids@),
        contents_view(r.1.parent_tree_ids@) == match loaded.parent_tree_ids {
            Some(ids) => contents_view(ids@),
            None => contents_view(loaded.commit_tree_ids@),
        },
        r.1.op_id == loaded.op_id,
        r.1.repo_root == loaded.repo_root,
{
    let mut status = metadata;
    let loaded_parent: bool = loaded.parent_tree_ids.is_some();
    let base_file_stats = if loaded_parent {
        status.set_counts(aggregate_file_stats(&per_file));
        per_file
    } else {
        status.empty = true;
        FileTable::new()
    };
    let parent_tree_ids = match loaded.parent_tree_ids {
        Some(ids) => ids,
        None => clone_ids(&loaded.commit_tree_ids),
    };
    let dropped = list_unlisted(&loaded.deleted_paths, &base_file_stats);
    let diff = DiffState {
        base_file_stats,
        overlay: FileTable::new(),
        conflict_marker_style: loaded.conflict_marker_style,
        merge_options: loaded.merge_options,
        parent_count: loaded.copy_tree_ids.len(),
        commit_tree_ids: loaded.commit_tree_ids,
        conflicted_paths: loaded.conflicted_paths,
        dropped,
    };
    let state = JjRepoState {
        diff,
        parent_tree_ids,
        copy_tree_ids: loaded.copy_tree_ids,
        op_id: loaded.op_id,
        repo_root: loaded.repo_root,
        base_status: status.clone(),
    };
    (status, state)
}

/// A copy of a list of ids.
pub fn clone_ids(ids: &Vec<Vec<u8>>) -> (r: Vec<Vec<u8>>)
    ensures
        contents_view(r@) == contents_view(ids@),
{
    let mut out: Vec<Vec<u8>> = Vec::new();
    let mut i: usize = 0;
    while i < ids.len()
        invariant
            i <= ids.len(),
            out.len() == i,
            forall|k: int| 0 <= k < i ==> (#[trigger] out@[k])@ == ids@[k]@,
        decreases ids.len() - i,
    {
        out.push(vstd::slice::slice_to_vec(ids[i].as_slice()));
        i += 1;
    }
    assert(contents_view(out@) =~= contents_view(ids@));
    out
}

/// Right after a full refresh the retained state gives the status of the refresh, as long
/// as the metadata came without counts.
pub proof fn fresh_state_repeats_status(metadata: StatusView, loaded: LoadedRepo, files: Map<Seq<char>, FileStats>)
    requires
        with_counts(metadata, no_counts()) == (StatusView { empty: true, ..metadata }),
    ensures
        ({
            let base = if loaded.parent_tree_ids is Some {
                files
            } else {
                Map::empty()
            };
            with_counts(
                full_status(metadata, loaded, files),
                counts_of(effective(base, Map::<Seq<char>, Option<FileStats>>::empty())),
            ) == full_status(metadata, loaded, files)
        }),
{
    let base = if loaded.parent_tree_ids is Some {
        files
    } else {
        Map::empty()
    };
    assert(effective(base, Map::<Seq<char>, Option<FileStats>>::empty()) =~= base);
    if loaded.parent_tree_ids is None {
        crate::aggregate::lemma_counts_empty();
    }
    assert(with_counts(full_status(metadata, loaded, files), counts_of(base)) =~= full_status(
        metadata,
        loaded,
        files,
    ));
}

} // verus!
