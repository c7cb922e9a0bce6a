//! What the next snapshot records, and how it differs from the parent.

use crate::conflicts::{
    chosen_marker_len, conflict_description, merged_hunks, parsed_conflict, rendered_conflict, ConflictMarkerStyle,
    MergeOptions, TreeTermView,
};
use crate::simplify::{net, pick, simplified, simplified_is_settled, simplified_keeps_net};
use crate::stats::{stats_for_contents, FileChangeKind};
use crate::wc::{
    content_of, disk_diff, normalized, raw_entry, reassembled, same_value, snapshot_of, snapshot_value, value_text,
    values_diff, MaterializedView, WcEntryView, WcView,
};
use vstd::prelude::*;
use vstd::utf8::encode_utf8;

verus! {

/// The content of a value: that of a file, the target of a symlink, the text of a conflict;
/// submodules, trees and what cannot be read have none.
pub proof fn values_have_their_content(
    content: Option<Seq<u8>>,
    executable: bool,
    target: Seq<char>,
    terms: Seq<Seq<u8>>,
    raw: Seq<Option<TreeTermView>>,
    labels: Seq<Seq<char>>,
    resolved_exec: Option<bool>,
    style: ConflictMarkerStyle,
    options: MergeOptions,
)
    ensures
        content_of(MaterializedView::File { content, executable }, style, options) == content,
        content_of(MaterializedView::Symlink { target }, style, options) == Some(encode_utf8(target)),
        content_of(MaterializedView::FileConflict { contents: terms, labels, resolved_exec }, style, options) == Some(
            rendered_conflict(terms, labels, style, chosen_marker_len(terms), options),
        ),
        content_of(MaterializedView::OtherConflict { terms: raw, labels }, style, options) == Some(
            encode_utf8(conflict_description(raw, labels)),
        ),
        content_of(MaterializedView::Absent, style, options) is None,
        content_of(MaterializedView::AccessDenied, style, options) is None,
        content_of(MaterializedView::GitSubmodule, style, options) is None,
        content_of(MaterializedView::Tree, style, options) is None,
{
}

/// A stored file stands for its content and its executable bit, a symlink for its target; of
/// what has no content nothing is known to be there. A value that could not be read mirrors
/// no stored one.
pub proof fn stored_values_stand_for_themselves(
    raw: Seq<Option<TreeTermView>>,
    content: Seq<u8>,
    executable: bool,
    target: Seq<char>,
)
    ensures
        raw_entry(raw, Some(MaterializedView::File { content: Some(content), executable })) == (WcEntryView {
            raw: Some(raw),
            value: WcView::Resolved { content, executable },
        }),
        raw_entry(raw, Some(MaterializedView::Symlink { target })) == (WcEntryView {
            raw: Some(raw),
            value: WcView::Resolved { content: encode_utf8(target), executable: false },
        }),
        raw_entry(raw, Some(MaterializedView::Absent)) == (WcEntryView { raw: Some(raw), value: WcView::Absent }),
        raw_entry(raw, Some(MaterializedView::GitSubmodule)) == (WcEntryView { raw: Some(raw), value: WcView::Absent }),
        raw_entry(raw, Some(MaterializedView::Tree)) == (WcEntryView { raw: Some(raw), value: WcView::Absent }),
        raw_entry(raw, None) == (WcEntryView { raw: None, value: WcView::Absent }),
{
}

/// The next snapshot has what is on disk, with its executable bit, of a tracked file that is
/// in no conflict, and of an untracked one that is visible. An untracked file that is not
/// visible stays out of it, and what is not on disk is gone.
pub proof fn snapshots_have_what_is_on_disk(
    commit: WcEntryView,
    bytes: Seq<u8>,
    executable: bool,
    visible: bool,
    options: MergeOptions,
)
    ensures
        snapshot_of(commit, None, executable, visible, options) == (WcEntryView { raw: None, value: WcView::Absent }),
        commit.value is Resolved || (commit.value is Absent && visible) ==> snapshot_of(
            commit,
            Some(bytes),
            executable,
            visible,
            options,
        ) == (WcEntryView { raw: None, value: WcView::Resolved { content: bytes, executable } }),
        commit.value is Absent && !visible ==> snapshot_of(commit, Some(bytes), executable, visible, options) == commit,
{
}

/// A file in conflict is stored as it was where disk reads back as it was written, as plain
/// text where it has no conflict markers any more, and else as the conflict that its markers
/// say.
pub proof fn snapshots_read_conflicts_back(
    raw: Option<Seq<Option<TreeTermView>>>,
    terms: Seq<Seq<u8>>,
    bytes: Seq<u8>,
    executable: bool,
    visible: bool,
    options: MergeOptions,
)
    requires
        terms.len() / 2 + 1 <= usize::MAX,
    ensures
        ({
            let commit = WcEntryView { raw, value: WcView::Conflict(terms) };
            let next = snapshot_of(commit, Some(bytes), executable, visible, options);
            let read = parsed_conflict(bytes, (terms.len() / 2 + 1) as usize, chosen_marker_len(terms));
            let written = merged_hunks(terms, options);
            &&& read is None && !(written is Ok && written->Ok_0 == bytes) ==> next == (WcEntryView {
                raw: None,
                value: WcView::Resolved { content: bytes, executable },
            })
            &&& read is None && written is Ok && written->Ok_0 == bytes ==> next == commit
            &&& read is Some && written is Err && written->Err_0 == read->0 ==> next == commit
            &&& read is Some && !(written is Err && written->Err_0 == read->0) ==> next == (WcEntryView {
                raw: None,
                value: normalized(reassembled(read->0, terms.len()), executable),
            })
        }),
{
}

/// Each side of a conflict is put together from all hunks in order: its own piece of a hunk
/// in conflict, the one piece of a resolved hunk.
pub proof fn sides_have_a_piece_of_every_hunk(hunks: Seq<Seq<Seq<u8>>>, hunk: Seq<Seq<u8>>, len: nat, side: int)
    requires
        0 <= side < len,
    ensures
        reassembled(hunks, len).len() == len,
        reassembled(Seq::empty(), len)[side].len() == 0,
        hunk.len() == 1 ==> reassembled(hunks.push(hunk), len)[side] == reassembled(hunks, len)[side] + hunk[0],
        hunk.len() != 1 ==> reassembled(hunks.push(hunk), len)[side] == reassembled(hunks, len)[side] + hunk[side],
{
    assert(hunks.push(hunk).drop_last() =~= hunks);
    assert(hunks.push(hunk).last() == hunk);
}

/// Two values are the same where both are stored ones and stored alike; where one is not
/// stored yet, where they have the same content and the same executable bit.
pub proof fn values_are_the_same_by_what_is_stored(
    a: Seq<Option<TreeTermView>>,
    b: Seq<Option<TreeTermView>>,
    x: WcView,
    y: WcView,
)
    ensures
        same_value(
            WcEntryView { raw: Some(a), value: x },
            WcEntryView { raw: Some(b), value: y },
        ) <==> a == b,
        same_value(WcEntryView { raw: Some(a), value: x }, WcEntryView { raw: None, value: y }) <==> x == y,
        same_value(WcEntryView { raw: None, value: x }, WcEntryView { raw: Some(b), value: y }) <==> x == y,
        same_value(WcEntryView { raw: None, value: x }, WcEntryView { raw: None, value: y }) <==> x == y,
{
}

/// A file that came is added, one that went is deleted, and one with another content is
/// modified, each with the lines of that change. One of which only the executable bit is
/// another is modified without lines, and one that is as it was has no entry.
pub proof fn changes_count_by_content_and_mode(
    raw: Option<Seq<Option<TreeTermView>>>,
    old: Seq<u8>,
    new: Seq<u8>,
    was: bool,
    is: bool,
    style: ConflictMarkerStyle,
    options: MergeOptions,
)
    ensures
        ({
            let before = WcEntryView { raw, value: WcView::Resolved { content: old, executable: was } };
            let after = WcEntryView { raw: None, value: WcView::Resolved { content: new, executable: is } };
            let nothing = WcEntryView { raw, value: WcView::Absent };
            let gone = WcEntryView { raw: None, value: WcView::Absent };
            &&& values_diff(nothing, after, style, options) == stats_for_contents(None, Some(new))
            &&& values_diff(before, gone, style, options) == stats_for_contents(Some(old), None)
            &&& values_diff(nothing, gone, style, options) is None
            &&& old != new ==> values_diff(before, after, style, options) == stats_for_contents(Some(old), Some(new))
            &&& old == new && was == is ==> values_diff(before, after, style, options) is None
            &&& old == new && was != is ==> {
                let stats = values_diff(before, after, style, options);
                &&& stats is Some && stats->0.kind == FileChangeKind::Modified
                &&& stats->0.lines_added == 0 && stats->0.lines_removed == 0
                &&& stats->0.renamed_from is None && stats->0.content_hash is None
            }
        }),
{
}

/// A stored value that was stored anew with the same text is a modified file without lines.
pub proof fn stored_anew_is_a_change(
    a: Seq<Option<TreeTermView>>,
    b: Seq<Option<TreeTermView>>,
    value: WcView,
    style: ConflictMarkerStyle,
    options: MergeOptions,
)
    requires
        a != b,
    ensures
        ({
            let stats = values_diff(
                WcEntryView { raw: Some(a), value },
                WcEntryView { raw: Some(b), value },
                style,
                options,
            );
            &&& stats is Some && stats->0.kind == FileChangeKind::Modified
            &&& stats->0.lines_added == 0 && stats->0.lines_removed == 0
        }),
{
}

/// The text of a conflict that is compared has no labels.
pub proof fn conflicts_compare_without_labels(
    terms: Seq<Seq<u8>>,
    content: Seq<u8>,
    executable: bool,
    style: ConflictMarkerStyle,
    options: MergeOptions,
)
    ensures
        value_text(WcView::Conflict(terms), style, options) == Some(
            rendered_conflict(terms, Seq::empty(), style, chosen_marker_len(terms), options),
        ),
        value_text(WcView::Resolved { content, executable }, style, options) == Some(content),
        value_text(WcView::Absent, style, options) is None,
{
}

/// What is on disk differs from a parent's file by their contents; where the parent could not
/// be read nothing is said. Disk text is read back with the markers of a parent in conflict
/// before it is compared, and compared as it is where it has none.
pub proof fn disk_differs_by_content(
    old: Seq<u8>,
    was: bool,
    disk: Option<Seq<u8>>,
    terms: Seq<Seq<u8>>,
    labels: Seq<Seq<char>>,
    resolved_exec: Option<bool>,
    style: ConflictMarkerStyle,
    options: MergeOptions,
)
    ensures
        disk_diff(None, disk, style, options) is None,
        disk_diff(Some(MaterializedView::File { content: Some(old), executable: was }), disk, style, options)
            == stats_for_contents(Some(old), disk),
        disk_diff(Some(MaterializedView::Absent), disk, style, options) == stats_for_contents(None, disk),
        ({
            let parent = MaterializedView::FileConflict { contents: terms, labels, resolved_exec };
            let text = rendered_conflict(terms, Seq::empty(), style, chosen_marker_len(terms), options);
            &&& disk is None ==> disk_diff(Some(parent), disk, style, options) == stats_for_contents(Some(text), None)
            &&& disk matches Some(bytes) ==> {
                let read = parsed_conflict(bytes, (terms.len() / 2 + 1) as usize, chosen_marker_len(terms));
                &&& read is None ==> disk_diff(Some(parent), disk, style, options) == stats_for_contents(
                    Some(text),
                    Some(bytes),
                )
                &&& read is Some ==> disk_diff(Some(parent), disk, style, options) == stats_for_contents(
                    Some(text),
                    Some(
                        rendered_conflict(
                            reassembled(read->0, terms.len()),
                            Seq::empty(),
                            style,
                            chosen_marker_len(terms),
                            options,
                        ),
                    ),
                )
            }
        }),
{
}

/// A conflict whose terms cancel down to one is that term, with the given executable bit;
/// else it stays a conflict, of which no added term equals a removed one. Either way each
/// content is added as often in excess of being removed as it was.
pub proof fn conflicts_come_down_to_what_is_left(terms: Seq<Seq<u8>>, executable: bool, value: Seq<u8>)
    requires
        terms.len() % 2 == 1,
    ensures
        match normalized(terms, executable) {
            WcView::Resolved { content, executable: bit } => bit == executable && net(terms, value) == if value
                == content {
                1int
            } else {
                0
            },
            WcView::Conflict(left) => {
                &&& left.len() > 1 && left.len() % 2 == 1
                &&& net(left, value) == net(terms, value)
                &&& forall|a: int, r: int|
                    #![trigger left[a], left[r]]
                    0 <= a < left.len() && a % 2 == 0 && 0 <= r < left.len() && r % 2 == 1 ==> left[a] != left[r]
            },
            WcView::Absent => false,
        },
{
    let eq = |i: int, j: int| terms[i] == terms[j];
    simplified_is_settled(terms.len(), eq);
    simplified_keeps_net(terms, eq, value);
    let places = simplified(terms.len(), eq);
    let left = pick(terms, places);
    assert(left.len() == places.len());
    if left.len() == 1 {
        reveal_with_fuel(net, 3);
        assert(left.drop_last() =~= Seq::empty());
    } else {
        assert forall|a: int, r: int|
            #![trigger left[a], left[r]]
            0 <= a < left.len() && a % 2 == 0 && 0 <= r < left.len() && r % 2 == 1 implies left[a] != left[r] by {
            assert(left[a] == terms[places[a]] && left[r] == terms[places[r]]);
            assert(!eq(places[r], places[a]));
        }
    }
}

/// A stored conflict of files stands for what is left of it, executable only where it says
/// so.
pub proof fn stored_conflicts_come_down(contents: Seq<Seq<u8>>, labels: Seq<Seq<char>>, resolved_exec: Option<bool>)
    ensures
        snapshot_value(MaterializedView::FileConflict { contents, labels, resolved_exec }) == normalized(
            contents,
            resolved_exec is Some && resolved_exec->0,
        ),
{
}

} // verus!
