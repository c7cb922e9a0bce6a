//! Per-file diff statistics and their sums.

use crate::linediff::{
    changed_lines, changed_lines_balance, line_diff, line_hunks, lines_dropped, lines_gained,
};
use crate::strings::bytes_eq;
use crate::text::{
    content_fingerprint, count_lines, fingerprint, is_binary, lemma_u32_of_sum, line_count, looks_binary, u32_of,
};
use vstd::prelude::*;
use vstd::wrapping::u32_specs::wrapping_add;

verus! {

/// Classification of a file change.
#[derive(Clone, Copy, Debug, Default, PartialEq, Eq, Structural)]
pub enum FileChangeKind {
    #[default]
    Modified,
    Added,
    Deleted,
    /// Git-only: file exists on disk but is not in the index or HEAD.
    Untracked,
}

/// Per-file diff stats for incremental overlay tracking.
#[derive(Debug)]
pub struct FileDiffStats {
    pub lines_added: u32,
    pub lines_removed: u32,
    pub kind: FileChangeKind,
    /// Fingerprint of the file content (added: new content; deleted: old content).
    /// `None` for empty content and for kinds where pairing does not apply.
    pub content_hash: Option<u64>,
    /// For renamed and copied files: the repo-relative path this file came from.
    pub renamed_from: Option<String>,
}

/// What the stats of one file say.
#[verifier::ext_equal]
pub struct FileStats {
    pub lines_added: u32,
    pub lines_removed: u32,
    pub kind: FileChangeKind,
    pub content_hash: Option<u64>,
    pub renamed_from: Option<Seq<char>>,
}

impl DeepView for FileDiffStats {
    type V = FileStats;

    open spec fn deep_view(&self) -> FileStats {
        FileStats {
            lines_added: self.lines_added,
            lines_removed: self.lines_removed,
            kind: self.kind,
            content_hash: self.content_hash,
            renamed_from: self.renamed_from.deep_view(),
        }
    }
}

impl View for FileDiffStats {
    type V = FileStats;

    open spec fn view(&self) -> FileStats {
        self.deep_view()
    }
}

/// The stats of a file that counts as modified without a changed line.
pub open spec fn blank_stats() -> FileStats {
    FileStats {
        lines_added: 0,
        lines_removed: 0,
        kind: FileChangeKind::Modified,
        content_hash: None,
        renamed_from: None,
    }
}

impl Default for FileDiffStats {
    fn default() -> (r: Self)
        ensures
            r@ == blank_stats(),
    {
        FileDiffStats {
            lines_added: 0,
            lines_removed: 0,
            kind: FileChangeKind::Modified,
            content_hash: None,
            renamed_from: None,
        }
    }
}

impl Clone for FileDiffStats {
    fn clone(&self) -> (r: Self)
        ensures
            r@ == self@,
    {
        let renamed_from = match &self.renamed_from {
            Some(path) => Some(path.clone()),
            None => None,
        };
        FileDiffStats {
            lines_added: self.lines_added,
            lines_removed: self.lines_removed,
            kind: self.kind,
            content_hash: self.content_hash,
            renamed_from,
        }
    }
}

/// A copy of the stats of a file, where it has any.
pub fn clone_entry(entry: &Option<FileDiffStats>) -> (r: Option<FileDiffStats>)
    ensures
        r.deep_view() == entry.deep_view(),
{
    match entry {
        Some(stats) => Some(stats.clone()),
        None => None,
    }
}

/// The bytes of a content that may be absent.
pub open spec fn content_view(content: Option<&[u8]>) -> Option<Seq<u8>> {
    match content {
        Some(bytes) => Some(bytes@),
        None => None,
    }
}

/// The number of lines that a file counts with: none where it looks binary.
pub open spec fn counted_lines(content: Seq<u8>) -> u32 {
    if looks_binary(content) {
        0
    } else {
        u32_of(line_count(content))
    }
}

/// The stats of a change from one content to another, either of which may be absent:
/// none where nothing changed.
pub open spec fn stats_for_contents(before: Option<Seq<u8>>, after: Option<Seq<u8>>) -> Option<FileStats> {
    match (before, after) {
        (None, None) => None,
        (None, Some(content)) => Some(
            FileStats {
                kind: FileChangeKind::Added,
                lines_added: counted_lines(content),
                content_hash: fingerprint(content),
                ..blank_stats()
            },
        ),
        (Some(content), None) => Some(
            FileStats {
                kind: FileChangeKind::Deleted,
                lines_removed: counted_lines(content),
                content_hash: fingerprint(content),
                ..blank_stats()
            },
        ),
        (Some(b), Some(a)) => if b == a {
            None
        } else if looks_binary(b) || looks_binary(a) {
            Some(blank_stats())
        } else {
            Some(
                FileStats {
                    lines_added: u32_of(lines_gained(line_diff(b, a))),
                    lines_removed: u32_of(lines_dropped(line_diff(b, a))),
                    ..blank_stats()
                },
            )
        },
    }
}

/// The line counts of a change between two texts are in balance: the lines before and
/// those gained are as many as the lines after and those dropped, no more are dropped than
/// were there, and no more are gained than are there now.
pub open spec fn lines_balance(before: Seq<u8>, after: Seq<u8>) -> bool {
    let hunks = line_diff(before, after);
    &&& line_count(before) + lines_gained(hunks) == line_count(after) + lines_dropped(hunks)
    &&& lines_dropped(hunks) <= line_count(before)
    &&& lines_gained(hunks) <= line_count(after)
}

/// Compute `diff --stat`-style stats for a pair of materialized contents.
///
/// Returns `None` when both sides are absent or byte-identical (no change).
/// Binary content counts the file with 0 lines, matching `diff --stat`.
pub fn diff_stats_for_contents(before: Option<&[u8]>, after: Option<&[u8]>) -> (r: Option<FileDiffStats>)
    ensures
        r.deep_view() == stats_for_contents(content_view(before), content_view(after)),
        (before matches Some(b) && after matches Some(a) && r is Some && !looks_binary(b@) && !looks_binary(a@)) ==> {
            &&& lines_balance(before->0@, after->0@)
            &&& wrapping_add(u32_of(line_count(before->0@)), r->0.lines_added) == wrapping_add(
                u32_of(line_count(after->0@)),
                r->0.lines_removed,
            )
        },
{
    let mut stats = FileDiffStats::default();
    match (before, after) {
        (None, None) => {
            return None;
        },
        (None, Some(content)) => {
            stats.kind = FileChangeKind::Added;
            stats.content_hash = content_fingerprint(content);
            if !is_binary(content) {
                stats.lines_added = count_lines(content);
            }
        },
        (Some(content), None) => {
            stats.kind = FileChangeKind::Deleted;
            stats.content_hash = content_fingerprint(content);
            if !is_binary(content) {
                stats.lines_removed = count_lines(content);
            }
        },
        (Some(before), Some(after)) => {
            if bytes_eq(before, after) {
                return None;
            }
            if !is_binary(before) && !is_binary(after) {
                let hunks = line_hunks(before, after);
                let (removed, added) = changed_lines(&hunks);
                stats.lines_removed = removed;
                stats.lines_added = added;
                proof {
                    let diff = line_diff(before@, after@);
                    changed_lines_balance(diff, before@, after@);
                    lemma_u32_of_sum(line_count(before@), lines_gained(diff));
                    lemma_u32_of_sum(line_count(after@), lines_dropped(diff));
                }
            }
        },
    }
    Some(stats)
}

/// Stats exist exactly where the contents differ.
pub proof fn stats_exist_iff_changed(before: Option<Seq<u8>>, after: Option<Seq<u8>>)
    ensures
        stats_for_contents(before, after) is Some <==> before != after,
{
}

/// The kind of a change follows from which sides are there.
pub proof fn kind_follows_presence(before: Option<Seq<u8>>, after: Option<Seq<u8>>)
    ensures
        stats_for_contents(before, after) matches Some(stats) ==> {
            &&& stats.kind == FileChangeKind::Added <==> before is None
            &&& stats.kind == FileChangeKind::Deleted <==> after is None
            &&& stats.kind == FileChangeKind::Modified <==> before is Some && after is Some
            &&& stats.renamed_from is None
        },
{
}

} // verus!
