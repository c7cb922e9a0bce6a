//! Lines, files and their sums.

use crate::aggregate::{counts_of, effective, lemma_counts_empty, lemma_counts_insert};
use crate::conflicts::{ConflictMarkerStyle, MergeOptions};
use crate::linediff::{cuts_lines, ends_line, left_text, line_diff, lines_dropped, lines_gained, right_text};
use crate::repo_state::{per_file_stats, DiffEntry};
use crate::stats::{stats_for_contents, FileChangeKind, FileStats};
use crate::text::{fingerprint, fnv1a, line_count, line_count_concat, looks_binary, occurrences};
use crate::wc::content_of;
use vstd::prelude::*;

verus! {

proof fn lemma_newlines(content: Seq<u8>)
    ensures
        occurrences(content, 10) == content.filter(|b: u8| b == 10).len(),
        content.len() == 0 ==> content.filter(|b: u8| b == 10).len() == 0,
    decreases content.len(),
{
    reveal(Seq::filter);
    if content.len() > 0 {
        lemma_newlines(content.drop_last());
    }
}

/// A new file without a null byte among its first 8192 bytes, of whatever length, adds one
/// line for each newline and one for a trailing fragment, and removes none. A file that is
/// gone removes as many and adds none.
pub proof fn whole_files_count_their_lines(content: Seq<u8>)
    requires
        forall|i: int| 0 <= i < content.len() && i < 8192 ==> #[trigger] content[i] != 0,
    ensures
        ({
            let lines = content.filter(|b: u8| b == 10).len() + if content.len() > 0 && content.last() != 10 {
                1int
            } else {
                0
            };
            let came = stats_for_contents(None, Some(content));
            let went = stats_for_contents(Some(content), None);
            &&& came is Some && came->0.kind == FileChangeKind::Added
            &&& came->0.lines_added == lines % 0x1_0000_0000
            &&& came->0.lines_removed == 0
            &&& went is Some && went->0.kind == FileChangeKind::Deleted
            &&& went->0.lines_added == 0
            &&& went->0.lines_removed == lines % 0x1_0000_0000
            &&& came->0.renamed_from is None && went->0.renamed_from is None
        }),
{
    assert(!looks_binary(content));
    lemma_newlines(content);
}

/// One more line at the end of a file that ends a line counts one more, as long as the file
/// is text.
pub proof fn one_more_line_counts_one(content: Seq<u8>, line: Seq<u8>)
    requires
        content.len() == 0 || content.last() == 10,
        line.len() > 0,
        forall|i: int| 0 <= i < line.len() - 1 ==> #[trigger] line[i] != 10,
        forall|i: int| 0 <= i < content.len() + line.len() && i < 8192 ==> #[trigger] (content + line)[i] != 0,
    ensures
        ({
            let before = stats_for_contents(None, Some(content))->0.lines_added;
            let after = stats_for_contents(None, Some(content + line))->0.lines_added;
            after == (before + 1) % 0x1_0000_0000
        }),
{
    assert forall|i: int| 0 <= i < content.len() && i < 8192 implies #[trigger] content[i] != 0 by {
        assert((content + line)[i] == content[i]);
    }
    assert(!looks_binary(content));
    assert(!looks_binary(content + line));
    line_count_concat(content, line);
    lemma_one_line(line);
    crate::text::lemma_u32_of_sum(line_count(content), 1);
}

proof fn lemma_one_line(line: Seq<u8>)
    requires
        line.len() > 0,
        forall|i: int| 0 <= i < line.len() - 1 ==> #[trigger] line[i] != 10,
    ensures
        line_count(line) == 1,
{
    let head = line.drop_last();
    assert(line =~= head + seq![line.last()]);
    lemma_no_newline(head);
    let newline = |b: u8| b == 10;
    Seq::filter_distributes_over_add(head, seq![line.last()], newline);
    reveal(Seq::filter);
    assert(seq![line.last()].drop_last() =~= Seq::<u8>::empty());
    lemma_newlines(line);
}

proof fn lemma_no_newline(text: Seq<u8>)
    requires
        forall|i: int| 0 <= i < text.len() ==> #[trigger] text[i] != 10,
    ensures
        text.filter(|b: u8| b == 10).len() == 0,
    decreases text.len(),
{
    reveal(Seq::filter);
    if text.len() > 0 {
        assert(text.last() == text[text.len() - 1]);
        assert forall|i: int| 0 <= i < text.drop_last().len() implies #[trigger] text.drop_last()[i] != 10 by {
            assert(text.drop_last()[i] == text[i]);
        }
        lemma_no_newline(text.drop_last());
    }
}

/// A null byte among the first 8192 makes a file count without lines, one behind them does
/// not matter; either way the file counts.
pub proof fn binary_files_count_without_lines(content: Seq<u8>, place: int)
    requires
        0 <= place < content.len(),
        place < 8192,
        content[place] == 0,
    ensures
        stats_for_contents(None, Some(content)) is Some,
        stats_for_contents(None, Some(content))->0.lines_added == 0,
        stats_for_contents(Some(content), None) is Some,
        stats_for_contents(Some(content), None)->0.lines_removed == 0,
        forall|other: Seq<u8>|
            other != content ==> {
                &&& (#[trigger] stats_for_contents(Some(other), Some(content))) is Some
                &&& stats_for_contents(Some(other), Some(content))->0.lines_added == 0
                &&& stats_for_contents(Some(other), Some(content))->0.lines_removed == 0
                &&& (#[trigger] stats_for_contents(Some(content), Some(other))) is Some
                &&& stats_for_contents(Some(content), Some(other))->0.lines_added == 0
                &&& stats_for_contents(Some(content), Some(other))->0.lines_removed == 0
            },
{
    assert(looks_binary(content));
}

proof fn lemma_gained(hunks: Seq<(bool, Seq<u8>, Seq<u8>)>)
    requires
        forall|i: int, j: int|
            #![trigger hunks[i], hunks[j]]
            0 <= i < j < hunks.len() ==> (ends_line(hunks[i].1) || hunks[j].1.len() == 0) && (ends_line(hunks[i].2)
                || hunks[j].2.len() == 0),
    ensures
        ({
            let changed = hunks.filter(|h: (bool, Seq<u8>, Seq<u8>)| h.0);
            &&& lines_gained(hunks) == line_count(right_text(changed))
            &&& lines_dropped(hunks) == line_count(left_text(changed))
            &&& (forall|i: int| 0 <= i < hunks.len() ==> ends_line((#[trigger] hunks[i]).1)) ==> ends_line(
                left_text(changed),
            )
            &&& (forall|i: int| 0 <= i < hunks.len() ==> ends_line((#[trigger] hunks[i]).2)) ==> ends_line(
                right_text(changed),
            )
        }),
    decreases hunks.len(),
{
    reveal(Seq::filter);
    if hunks.len() > 0 {
        let differs = |h: (bool, Seq<u8>, Seq<u8>)| h.0;
        let rest = hunks.drop_last();
        let last = hunks.last();
        let n = hunks.len() - 1;
        assert(hunks[n] == last);
        assert forall|i: int, j: int|
            #![trigger rest[i], rest[j]]
            0 <= i < j < rest.len() implies (ends_line(rest[i].1) || rest[j].1.len() == 0) && (ends_line(rest[i].2)
            || rest[j].2.len() == 0) by {
            assert(rest[i] == hunks[i] && rest[j] == hunks[j]);
        }
        lemma_gained(rest);
        let before = rest.filter(differs);
        assert forall|i: int| 0 <= i < rest.len() && last.1.len() > 0 implies ends_line((#[trigger] rest[i]).1) by {
            assert(rest[i] == hunks[i] && hunks[n] == last);
        }
        assert forall|i: int| 0 <= i < rest.len() && last.2.len() > 0 implies ends_line((#[trigger] rest[i]).2) by {
            assert(rest[i] == hunks[i] && hunks[n] == last);
        }
        if forall|i: int| 0 <= i < hunks.len() ==> ends_line((#[trigger] hunks[i]).1) {
            assert forall|i: int| 0 <= i < rest.len() implies ends_line((#[trigger] rest[i]).1) by {
                assert(rest[i] == hunks[i]);
            }
            assert(ends_line(left_text(before)));
        }
        if forall|i: int| 0 <= i < hunks.len() ==> ends_line((#[trigger] hunks[i]).2) {
            assert forall|i: int| 0 <= i < rest.len() implies ends_line((#[trigger] rest[i]).2) by {
                assert(rest[i] == hunks[i]);
            }
            assert(ends_line(right_text(before)));
        }
        if last.0 {
            assert(before.push(last).drop_last() =~= before);
            line_count_concat(left_text(before), last.1);
            line_count_concat(right_text(before), last.2);
            if last.1.len() > 0 {
                assert((left_text(before) + last.1).last() == last.1.last());
            } else {
                assert(left_text(before) + last.1 =~= left_text(before));
            }
            if last.2.len() > 0 {
                assert((right_text(before) + last.2).last() == last.2.last());
            } else {
                assert(right_text(before) + last.2 =~= right_text(before));
            }
        }
    }
}

/// A changed text adds the lines of the right sides that differ and removes those of the
/// left sides: as many as newlines, and one for a trailing fragment.
pub proof fn changed_text_counts_what_differs(before: Seq<u8>, after: Seq<u8>)
    requires
        before != after,
        cuts_lines(line_diff(before, after), before, after),
        forall|i: int| 0 <= i < before.len() && i < 8192 ==> #[trigger] before[i] != 0,
        forall|i: int| 0 <= i < after.len() && i < 8192 ==> #[trigger] after[i] != 0,
    ensures
        ({
            let stats = stats_for_contents(Some(before), Some(after));
            let changed = line_diff(before, after).filter(|h: (bool, Seq<u8>, Seq<u8>)| h.0);
            let gained = right_text(changed);
            let lost = left_text(changed);
            &&& stats is Some && stats->0.kind == FileChangeKind::Modified
            &&& stats->0.lines_added == (gained.filter(|b: u8| b == 10).len() + if gained.len() > 0 && gained.last()
                != 10 {
                1int
            } else {
                0
            }) % 0x1_0000_0000
            &&& stats->0.lines_removed == (lost.filter(|b: u8| b == 10).len() + if lost.len() > 0 && lost.last()
                != 10 {
                1int
            } else {
                0
            }) % 0x1_0000_0000
        }),
{
    assert(!looks_binary(before) && !looks_binary(after));
    lemma_gained(line_diff(before, after));
    let changed = line_diff(before, after).filter(|h: (bool, Seq<u8>, Seq<u8>)| h.0);
    lemma_newlines(right_text(changed));
    lemma_newlines(left_text(changed));
}

/// Fingerprints take in a content byte by byte, and an empty content has none.
pub proof fn fingerprints_take_in_every_byte(content: Seq<u8>, byte: u8)
    ensures
        fingerprint(Seq::<u8>::empty()) is None,
        fnv1a(Seq::<u8>::empty()) == 0xcbf2_9ce4_8422_2325,
        fingerprint(content.push(byte)) == Some(
            vstd::wrapping::u64_specs::wrapping_mul(fnv1a(content) ^ (byte as u64), 0x100_0000_01b3),
        ),
        stats_for_contents(None, Some(content))->0.content_hash == fingerprint(content),
        stats_for_contents(Some(content), None)->0.content_hash == fingerprint(content),
{
    assert(content.push(byte).drop_last() =~= content);
}

/// One more file counts one more changed file, with its lines, and one more of its kind; an
/// untracked one counts as untracked alone. Without files all counts are zero.
pub proof fn one_more_file_counts_one(files: Map<Seq<char>, FileStats>, path: Seq<char>, stats: FileStats)
    requires
        files.dom().finite(),
        !files.contains_key(path),
    ensures
        ({
            let before = counts_of(files);
            let after = counts_of(files.insert(path, stats));
            let one = |is: bool|
                if is {
                    1int
                } else {
                    0
                };
            let tracks = stats.kind != FileChangeKind::Untracked;
            &&& after.file_mad_count == (before.file_mad_count + one(tracks)) % 0x1_0000_0000
            &&& after.lines_added == (before.lines_added + one(tracks) * stats.lines_added) % 0x1_0000_0000
            &&& after.lines_removed == (before.lines_removed + one(tracks) * stats.lines_removed) % 0x1_0000_0000
            &&& after.files_modified == (before.files_modified + one(stats.kind == FileChangeKind::Modified))
                % 0x1_0000_0000
            &&& after.files_added == (before.files_added + one(stats.kind == FileChangeKind::Added)) % 0x1_0000_0000
            &&& after.files_deleted == (before.files_deleted + one(stats.kind == FileChangeKind::Deleted))
                % 0x1_0000_0000
            &&& after.files_untracked == (before.files_untracked + one(!tracks)) % 0x1_0000_0000
        }),
        ({
            let none = counts_of(Map::<Seq<char>, FileStats>::empty());
            &&& none.file_mad_count == 0 && none.lines_added == 0 && none.lines_removed == 0
            &&& none.files_modified == 0 && none.files_added == 0 && none.files_deleted == 0
            &&& none.files_untracked == 0
        }),
{
    lemma_counts_insert(files, path, stats);
    lemma_counts_empty();
}

/// What the overlay has of a path is what the diff says of it: its stats, or that it is not
/// there; of any other path the base is what counts.
pub proof fn overlay_goes_over_the_base(
    base: Map<Seq<char>, FileStats>,
    overlay: Map<Seq<char>, Option<FileStats>>,
    path: Seq<char>,
)
    ensures
        overlay.contains_key(path) && overlay[path] is None ==> !effective(base, overlay).contains_key(path),
        overlay.contains_key(path) && overlay[path] is Some ==> effective(base, overlay).contains_key(path)
            && effective(base, overlay)[path] == overlay[path]->0,
        !overlay.contains_key(path) ==> (effective(base, overlay).contains_key(path) <==> base.contains_key(path)),
        !overlay.contains_key(path) && base.contains_key(path) ==> effective(base, overlay)[path] == base[path],
{
}

/// A full diff counts each of its entries: by the contents before and after, as a rename
/// where it has a source, and as one changed file even where the contents are the same.
pub proof fn full_diff_counts_every_entry(
    table: Map<Seq<char>, FileStats>,
    entries: Seq<DiffEntry>,
    entry: DiffEntry,
    style: ConflictMarkerStyle,
    options: MergeOptions,
    old: Option<Seq<u8>>,
    new: Option<Seq<u8>>,
)
    requires
        old == match entry@.before {
            Some(value) => content_of(value, style, options),
            None => None,
        },
        new == match entry@.after {
            Some(value) => content_of(value, style, options),
            None => None,
        },
        old is Some || new is Some,
    ensures
        ({
            let before = per_file_stats(table, entries, style, options);
            let after = per_file_stats(table, entries.push(entry), style, options);
            let path = entry.path@;
            &&& after.contains_key(path)
            &&& after.dom() == before.dom().insert(path)
            &&& forall|p: Seq<char>| p != path && #[trigger] before.contains_key(p) ==> after[p] == before[p]
            &&& entry@.copied_from is None && old != new ==> after[path] == stats_for_contents(old, new)->0
            &&& entry@.copied_from is None && old == new ==> after[path].kind == FileChangeKind::Modified
                && after[path].lines_added == 0 && after[path].lines_removed == 0 && after[path].renamed_from is None
            &&& entry@.copied_from is Some ==> after[path].kind == FileChangeKind::Modified
                && after[path].renamed_from == entry@.copied_from
            &&& entry@.copied_from is Some && old != new ==> {
                &&& after[path].lines_added == stats_for_contents(old, new)->0.lines_added
                &&& after[path].lines_removed == stats_for_contents(old, new)->0.lines_removed
            }
            &&& entry@.copied_from is Some && old == new ==> after[path].lines_added == 0 && after[path].lines_removed
                == 0
        }),
        per_file_stats(table, Seq::<DiffEntry>::empty(), style, options) == table,
{
    assert(entries.push(entry).drop_last() =~= entries);
    assert(entries.push(entry).last() == entry);
    let before = per_file_stats(table, entries, style, options);
    let after = per_file_stats(table, entries.push(entry), style, options);
    assert(after.dom() =~= before.dom().insert(entry.path@));
}

} // verus!
