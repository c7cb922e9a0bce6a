//! Renames and copies.

use crate::aggregate::effective;
use crate::conflicts::{ConflictMarkerStyle, MergeOptions, TreeTermView};
use crate::copies::{
    all_copy_records, best_copy_source, copy_records, likeness, may_be_copy, with_copies,
};
use crate::facts::{
    copies_before, copy_count, has_content, record_count, records_before, yields_record, FactsView,
};
use crate::laws::paths::every_member_is_listed;
use crate::linediff::{bytes_dropped, bytes_dropped_bounded, left_text, line_diff};
use crate::pairing::{
    best_target, dropped_sources, paired, paired_source, paired_sources, rename_candidates, rename_entry, rename_records, rename_score,
    score_before, with_renames, with_role, Pairing, Role,
};
use crate::similarity::{div_round, half_means_half, similarity, single_precision_is_near, single_ratio, to_single};
use crate::staging::DiffStateView;
use crate::stats::{stats_for_contents, FileChangeKind, FileStats};
use crate::strings::{in_order, lists_in_order, order_is_unique};
use crate::wc::MaterializedView;
use vstd::arithmetic::div_mod::lemma_fundamental_div_mod;
use vstd::prelude::*;

verus! {

/// The bytes that a line diff drops are the left sides of the hunks that differ.
pub proof fn dropped_bytes_are_those_that_differ(hunks: Seq<(bool, Seq<u8>, Seq<u8>)>)
    ensures
        bytes_dropped(hunks) == left_text(hunks.filter(|h: (bool, Seq<u8>, Seq<u8>)| h.0)).len(),
    decreases hunks.len(),
{
    reveal(Seq::filter);
    if hunks.len() > 0 {
        let differs = |h: (bool, Seq<u8>, Seq<u8>)| h.0;
        let rest = hunks.drop_last();
        dropped_bytes_are_those_that_differ(rest);
        if hunks.last().0 {
            assert(rest.filter(differs).push(hunks.last()).drop_last() =~= rest.filter(differs));
        }
    }
}

/// Two contents that are alike in so many bytes have that share of the larger one in common:
/// all of it where they are equal, else what the line diff keeps of the first one, up to one
/// unit of the scale. They are alike by half exactly where twice the kept bytes reach the
/// larger length, whichever of the two is longer. Without content on both sides, or with a
/// null byte near the start of one of two different contents, nothing is in common.
pub proof fn similarity_is_the_share_kept(before: Seq<u8>, after: Seq<u8>)
    requires
        left_text(line_diff(before, after)) == before,
    ensures
        before.len() == 0 || after.len() == 0 ==> similarity(before, after) == 0,
        before.len() > 0 && before == after ==> similarity(before, after) == 0x200_0000,
        before != after && (exists|i: int|
            0 <= i < 8192 && ((i < before.len() && #[trigger] before[i] == 0) || (i < after.len() && #[trigger] after[i]
                == 0))) ==> similarity(before, after) == 0,
        ({
            let kept = before.len() - left_text(
                line_diff(before, after).filter(|h: (bool, Seq<u8>, Seq<u8>)| h.0),
            ).len();
            let larger = if before.len() >= after.len() {
                before.len()
            } else {
                after.len()
            };
            before.len() > 0 && after.len() > 0 && before != after && (forall|i: int|
                0 <= i < before.len() && i < 8192 ==> #[trigger] before[i] != 0) && (forall|i: int|
                0 <= i < after.len() && i < 8192 ==> #[trigger] after[i] != 0) ==> {
                &&& 0 <= kept <= before.len()
                &&& similarity(before, after) >= 0x100_0000 <==> 2 * to_single(kept as nat) >= to_single(larger)
                &&& larger <= 0x100_0000 ==> {
                    &&& similarity(before, after) >= 0x100_0000 <==> 2 * kept >= larger
                    &&& similarity(before, after) * larger <= 0x200_0000 * kept + larger
                    &&& 0x200_0000 * kept <= similarity(before, after) * larger + larger
                }
            }
        }),
{
    let hunks = line_diff(before, after);
    dropped_bytes_are_those_that_differ(hunks);
    bytes_dropped_bounded(hunks);
    let kept = (before.len() - bytes_dropped(hunks)) as nat;
    let larger: nat = if before.len() < after.len() {
        after.len()
    } else {
        before.len()
    };
    if larger > 0 {
        half_means_half(kept, larger);
        if larger <= 0x100_0000 {
            single_precision_is_near(kept, larger);
            single_precision_is_near(larger, larger);
            lemma_ratio_is_near(kept, larger);
        }
    }
}

proof fn lemma_ratio_is_near(a: nat, b: nat)
    requires
        0 < b,
    ensures
        single_ratio(a, b) * b <= 0x200_0000 * a + b,
        0x200_0000 * a <= single_ratio(a, b) * b + b,
{
    lemma_div_round_is_near(a * 0x200_0000, b);
    lemma_div_round_is_near(a * 0x100_0000, b);
    let half = div_round(a * 0x100_0000, b);
    assert((2 * half) * b == 2 * (half * b)) by (nonlinear_arith);
}

proof fn lemma_div_round_is_near(a: nat, b: nat)
    requires
        0 < b,
    ensures
        2 * (div_round(a, b) * b) <= 2 * a + b,
        2 * a <= 2 * (div_round(a, b) * b) + b,
{
    lemma_fundamental_div_mod(a as int, b as int);
    let q = a / b;
    let m = a % b;
    let r = div_round(a, b);
    assert(2 * (r * b) <= 2 * a + b && 2 * a <= 2 * (r * b) + b) by (nonlinear_arith)
        requires
            a == b * q + m,
            0 <= m < b,
            r == q || (r == q + 1 && 2 * m >= b),
            r == q ==> 2 * m <= b,
    ;
}

/// A file is plain text: it has content, and no null byte near its start.
pub open spec fn is_text(content: Seq<u8>) -> bool {
    content.len() > 0 && forall|i: int| 0 <= i < content.len() && i < 8192 ==> #[trigger] content[i] != 0
}

/// A parent yields the record of a rename exactly where it has the source and lacks the
/// target, and the two are equal, or twice the bytes that the line diff keeps of the source
/// reach the larger of the two lengths.
pub proof fn alike_files_yield_a_record(
    source: FactsView,
    target: FactsView,
    disk: Seq<u8>,
    parent: int,
    style: ConflictMarkerStyle,
    options: MergeOptions,
    content: Seq<u8>,
    executable: bool,
)
    requires
        source.parents[parent].value == Some(
            MaterializedView::File { content: Some(content), executable },
        ),
        is_text(content),
        is_text(disk),
        left_text(line_diff(content, disk)) == content,
    ensures
        ({
            let source_there = source.parents[parent].raw is Some && !(source.parents[parent].raw->0.len() == 1
                && source.parents[parent].raw->0[0] is None);
            let target_there = !(target.parents[parent].raw is Some && target.parents[parent].raw->0.len() == 1
                && target.parents[parent].raw->0[0] is None);
            let kept = content.len() - left_text(
                line_diff(content, disk).filter(|h: (bool, Seq<u8>, Seq<u8>)| h.0),
            ).len();
            let larger = if content.len() >= disk.len() {
                content.len()
            } else {
                disk.len()
            };
            let record = yields_record(source, target, disk, parent, style, options);
            &&& record <==> source_there && !target_there && (content == disk || 2 * to_single(kept as nat)
                >= to_single(larger))
            &&& larger <= 0x100_0000 ==> (record <==> source_there && !target_there && (content == disk || 2 * kept
                >= larger))
        }),
{
    similarity_is_the_share_kept(content, disk);
}

/// Of one parent that has a source as text and lacks a target, a new text file, there is one
/// record of a rename where the two are alike by half, and none where they are not.
pub proof fn one_parent_yields_one_record(
    source: FactsView,
    target: FactsView,
    style: ConflictMarkerStyle,
    options: MergeOptions,
    content: Seq<u8>,
    disk: Seq<u8>,
)
    requires
        is_new_and_old(source, target, content, disk),
    ensures
        ({
            let kept = content.len() - left_text(
                line_diff(content, disk).filter(|h: (bool, Seq<u8>, Seq<u8>)| h.0),
            ).len();
            let larger = if content.len() >= disk.len() {
                content.len()
            } else {
                disk.len()
            };
            record_count(source, target, style, options) == if content == disk || 2 * to_single(kept as nat)
                >= to_single(larger) {
                1nat
            } else {
                0
            }
        }),
{
    alike_files_yield_a_record(
        source,
        target,
        disk,
        0,
        style,
        options,
        content,
        source.parents[0].value->0->executable,
    );
    reveal_with_fuel(records_before, 2);
}

/// The source is text in the one parent, the target is a new text file that is not there.
pub open spec fn is_new_and_old(source: FactsView, target: FactsView, content: Seq<u8>, disk: Seq<u8>) -> bool {
    &&& source.valid && target.valid
    &&& source.parents.len() == 1
    &&& source.parents[0].raw is Some && source.parents[0].raw->0.len() == 1 && source.parents[0].raw->0[0] is Some
    &&& source.parents[0].value is Some
    &&& source.parents[0].value->0 is File
    &&& source.parents[0].value->0->content == Some(content)
    &&& target.parents.len() == 1
    &&& target.parents[0].raw == Some(seq![None::<TreeTermView>])
    &&& target.commit.raw == Some(seq![None::<TreeTermView>])
    &&& target.commit.value == Some(MaterializedView::Absent)
    &&& target.disk == Some(disk)
    &&& is_text(content)
    &&& is_text(disk)
    &&& left_text(line_diff(content, disk)) == content
}

/// The records of a rename are as many as the parents that yield one.
pub proof fn every_parent_counts(
    source: FactsView,
    target: FactsView,
    disk: Seq<u8>,
    n: nat,
    style: ConflictMarkerStyle,
    options: MergeOptions,
)
    ensures
        records_before(source, target, disk, n as int, style, options) == Seq::new(n, |i: int| i).filter(
            |i: int| yields_record(source, target, disk, i, style, options),
        ).len(),
    decreases n,
{
    reveal(Seq::filter);
    if n > 0 {
        every_parent_counts(source, target, disk, (n - 1) as nat, style, options);
        assert(Seq::new(n, |i: int| i).drop_last() =~= Seq::new((n - 1) as nat, |i: int| i));
    }
}

/// The only member of a set, in order.
pub proof fn one_is_in_order(path: Seq<char>)
    ensures
        in_order(set![path]) == seq![path],
{
    let list = seq![path];
    let only = set![path];
    assert(list.to_set() =~= only) by {
        assert(list[0] == path);
        assert forall|x: Seq<char>| list.to_set().contains(x) <==> only.contains(x) by {
            if only.contains(x) {
                assert(list.contains(list[0]));
            }
        }
    }
    assert(lists_in_order(list, only));
    order_is_unique(in_order(only), list, only);
}

/// A lone deleted text file and a lone new one become one file, modified and renamed, where
/// they are alike by half, whichever of them is longer, and stay two files where they are
/// not. The renamed file has the lines that changed between the two.
pub proof fn lone_pair_becomes_one_rename(
    state: DiffStateView,
    facts: Map<Seq<char>, FactsView>,
    entries: Map<Seq<char>, Option<FileStats>>,
    source: Seq<char>,
    target: Seq<char>,
    content: Seq<u8>,
    disk: Seq<u8>,
)
    requires
        is_new_and_old(facts[source], facts[target], content, disk),
        facts[source].parent_labeled == facts[source].parents[0].value,
        state.parents == 1,
        source != target,
        ({
            let files = effective(state.base, state.overlay.union_prefer_right(entries));
            &&& files.contains_key(source) && files[source].kind == FileChangeKind::Deleted
            &&& files.contains_key(target) && files[target].kind == FileChangeKind::Added
            &&& files[source].renamed_from is None && files[target].renamed_from is None
            &&& forall|p: Seq<char>|
                #[trigger] files.contains_key(p) && p != source && p != target ==> files[p].kind
                    == FileChangeKind::Modified
        }),
    ensures
        ({
            let after = with_renames(state, facts, entries);
            let kept = content.len() - left_text(
                line_diff(content, disk).filter(|h: (bool, Seq<u8>, Seq<u8>)| h.0),
            ).len();
            let larger = if content.len() >= disk.len() {
                content.len()
            } else {
                disk.len()
            };
            if content == disk || 2 * to_single(kept as nat) >= to_single(larger) {
                &&& after.contains_key(source) && after[source] is None
                &&& after.contains_key(target) && after[target] is Some
                &&& after[target]->0.kind == FileChangeKind::Modified
                &&& after[target]->0.renamed_from == Some(source)
                &&& content == disk ==> after[target]->0.lines_added == 0 && after[target]->0.lines_removed == 0
                &&& content != disk ==> {
                    let changed = stats_for_contents(Some(content), Some(disk))->0;
                    &&& after[target]->0.lines_added == changed.lines_added
                    &&& after[target]->0.lines_removed == changed.lines_removed
                }
                &&& forall|p: Seq<char>|
                    p != source && p != target ==> after.contains_key(p) == #[trigger] entries.contains_key(p) && (
                    entries.contains_key(p) ==> after[p] == entries[p])
            } else {
                after == entries
            }
        }),
{
    one_parent_yields_one_record(facts[source], facts[target], state.style, state.options, content, disk);
    let deleted = with_role(state, entries, Role::Deleted);
    let arrived = with_role(state, entries, Role::Arrived);
    let candidates = arrived.filter(|path: Seq<char>| has_content(facts[path], state.options));
    assert(deleted =~= set![source]);
    assert(candidates =~= set![target]);
    one_is_in_order(source);
    one_is_in_order(target);
    let start = Pairing { free: seq![target], entries, dropped: Seq::empty() };
    let sources = seq![source];
    reveal_with_fuel(paired_sources, 2);
    reveal_with_fuel(best_target, 2);
    assert(sources.drop_last() =~= Seq::empty());
    assert(sources.last() == source);
    assert(paired_sources(state, facts, start, sources) == paired_source(state, facts, start, source));
}

/// Several parents that yield the record of a rename cancel it: the deleted file leaves the
/// diff and the other one stays as it is.
pub proof fn several_records_cancel_a_rename(
    state: DiffStateView,
    facts: Map<Seq<char>, FactsView>,
    pairing: Pairing,
    source: Seq<char>,
    target: Seq<char>,
)
    requires
        pairing.free == seq![target],
        record_count(facts[source], facts[target], state.style, state.options) >= 2,
    ensures
        paired_source(state, facts, pairing, source).entries == pairing.entries.insert(source, None),
        paired_source(state, facts, pairing, source).dropped == pairing.dropped.push(source),
{
    reveal_with_fuel(best_target, 2);
}

/// A lone new text file that is alike by half to a lone modified file, as that is now,
/// becomes a copy of it: modified, and renamed from a file that keeps its own entry. Where
/// the two are less alike, nothing happens.
pub proof fn lone_copy_is_found(
    state: DiffStateView,
    facts: Map<Seq<char>, FactsView>,
    entries: Map<Seq<char>, Option<FileStats>>,
    source: Seq<char>,
    target: Seq<char>,
    now: Seq<u8>,
    disk: Seq<u8>,
)
    requires
        facts[source].valid && facts[target].valid,
        facts[source].parents.len() == 1,
        facts[target].parents.len() == 1,
        facts[source].parents[0].raw is Some,
        facts[source].parents[0].raw->0.len() == 1,
        facts[source].parents[0].raw->0[0] is Some,
        facts[target].parents[0].raw == Some(seq![None::<TreeTermView>]),
        facts[source].commit.raw is Some,
        facts[source].commit.value matches Some(value) && (value is Absent || (value is File && value->content is Some)),
        facts[target].commit.raw == Some(seq![None::<TreeTermView>]),
        facts[target].commit.value == Some(MaterializedView::Absent),
        facts[source].disk == Some(now),
        facts[target].disk == Some(disk),
        is_text(now),
        is_text(disk),
        left_text(line_diff(now, disk)) == now,
        source != target,
        ({
            let files = effective(state.base, state.overlay.union_prefer_right(entries));
            &&& files.contains_key(source) && files[source].kind == FileChangeKind::Modified
            &&& files.contains_key(target) && files[target].kind == FileChangeKind::Added
            &&& files[source].renamed_from is None && files[target].renamed_from is None
            &&& forall|p: Seq<char>|
                #[trigger] files.contains_key(p) && p != source && p != target ==> files[p].kind
                    == FileChangeKind::Deleted
        }),
    ensures
        ({
            let after = with_copies(state, facts, entries);
            let kept = now.len() - left_text(line_diff(now, disk).filter(|h: (bool, Seq<u8>, Seq<u8>)| h.0)).len();
            let larger = if now.len() >= disk.len() {
                now.len()
            } else {
                disk.len()
            };
            if now == disk || 2 * to_single(kept as nat) >= to_single(larger) {
                &&& after.contains_key(target) && after[target] is Some
                &&& after[target]->0.kind == FileChangeKind::Modified
                &&& after[target]->0.renamed_from == Some(source)
                &&& forall|p: Seq<char>|
                    p != target ==> after.contains_key(p) == #[trigger] entries.contains_key(p) && (
                    entries.contains_key(p) ==> after[p] == entries[p])
            } else {
                after == entries
            }
        }),
{
    similarity_is_the_share_kept(now, disk);
    assert(with_role(state, entries, Role::Modified) =~= set![source]);
    assert(with_role(state, entries, Role::Added) =~= set![target]);
    one_is_in_order(source);
    reveal_with_fuel(best_copy_source, 2);
    reveal_with_fuel(copy_records, 2);
    assert(with_copies(state, facts, entries) =~= entries || with_copies(state, facts, entries).contains_key(target));
}

/// How well a target goes with a source of one parent is how alike the two are.
pub proof fn score_of_one_parent_is_the_similarity(
    state: DiffStateView,
    source: FactsView,
    target: FactsView,
    content: Seq<u8>,
    disk: Seq<u8>,
)
    requires
        is_new_and_old(source, target, content, disk),
    ensures
        similarity(content, disk) >= 0x100_0000 ==> rename_score(state, source, target) == similarity(content, disk),
        similarity(content, disk) < 0x100_0000 ==> rename_score(state, source, target) == 0,
{
    reveal_with_fuel(score_before, 2);
}

/// A file that was recorded as renamed from one that is visible again counts as its copy
/// exactly where that one is alike by half to it, and differs from what the one parent has.
pub proof fn visible_source_makes_a_copy(
    source: FactsView,
    target: FactsView,
    style: ConflictMarkerStyle,
    options: MergeOptions,
    content: Seq<u8>,
    now: Seq<u8>,
    disk: Seq<u8>,
)
    requires
        is_new_and_old(source, target, content, disk),
        source.commit.raw == Some(seq![None::<TreeTermView>]),
        source.commit.value == Some(MaterializedView::Absent),
        source.disk == Some(now),
        is_text(now),
        left_text(line_diff(now, disk)) == now,
    ensures
        ({
            let kept = now.len() - left_text(line_diff(now, disk).filter(|h: (bool, Seq<u8>, Seq<u8>)| h.0)).len();
            let larger = if now.len() >= disk.len() {
                now.len()
            } else {
                disk.len()
            };
            copy_count(source, target, style, options) == if content != now && (now == disk || 2 * to_single(
                kept as nat,
            ) >= to_single(larger)) {
                1nat
            } else {
                0
            }
        }),
{
    similarity_is_the_share_kept(now, disk);
    reveal_with_fuel(copies_before, 2);
}

/// The record of a rename needs a source and a target that can name a file, and content on
/// both sides.
pub proof fn records_need_content(
    source: FactsView,
    target: FactsView,
    style: ConflictMarkerStyle,
    options: MergeOptions,
)
    ensures
        !source.valid || !target.valid ==> record_count(source, target, style, options) == 0 && copy_count(
            source,
            target,
            style,
            options,
        ) == 0,
        target.disk is None ==> record_count(source, target, style, options) == 0 && copy_count(
            source,
            target,
            style,
            options,
        ) == 0,
        source.disk is None ==> copy_count(source, target, style, options) == 0,
{
}

/// A renamed or copied file counts as modified, with the lines of its change and the file
/// that it came from, and without a fingerprint.
pub proof fn renamed_files_count_as_modified(diff: Option<FileStats>, source: Seq<char>)
    ensures
        ({
            let entry = rename_entry(diff, source);
            &&& entry.kind == FileChangeKind::Modified
            &&& entry.renamed_from == Some(source)
            &&& entry.content_hash is None
            &&& diff matches Some(stats) ==> entry.lines_added == stats.lines_added && entry.lines_removed
                == stats.lines_removed
            &&& diff is None ==> entry.lines_added == 0 && entry.lines_removed == 0
        }),
{
}

/// For pairing the diff counts as deleted, added and modified what is so in it and came from
/// no other file; under several parents a modified file may have been renamed to.
pub proof fn roles_follow_the_kind(
    state: DiffStateView,
    entries: Map<Seq<char>, Option<FileStats>>,
    path: Seq<char>,
)
    ensures
        ({
            let files = effective(state.base, state.overlay.union_prefer_right(entries));
            let own = files.contains_key(path) && files[path].renamed_from is None;
            let kind = files[path].kind;
            &&& with_role(state, entries, Role::Deleted).contains(path) <==> own && kind == FileChangeKind::Deleted
            &&& with_role(state, entries, Role::Added).contains(path) <==> own && kind == FileChangeKind::Added
            &&& with_role(state, entries, Role::Modified).contains(path) <==> own && kind == FileChangeKind::Modified
            &&& with_role(state, entries, Role::Arrived).contains(path) <==> own && (kind == FileChangeKind::Added || (kind
                == FileChangeKind::Modified && state.parents >= 2))
        }),
{
}

/// Every added file with content may be the target of a rename, and under several parents
/// every modified one; no other file may.
pub proof fn every_arrived_file_is_a_candidate(
    state: DiffStateView,
    facts: Map<Seq<char>, FactsView>,
    entries: Map<Seq<char>, Option<FileStats>>,
    path: Seq<char>,
)
    requires
        effective(state.base, state.overlay.union_prefer_right(entries)).dom().finite(),
    ensures
        rename_candidates(state, facts, entries).contains(path) <==> with_role(state, entries, Role::Arrived).contains(
            path,
        ) && has_content(facts[path], state.options),
        rename_candidates(state, facts, entries).no_duplicates(),
{
    let files = effective(state.base, state.overlay.union_prefer_right(entries));
    let arrived = with_role(state, entries, Role::Arrived);
    let set = arrived.filter(|p: Seq<char>| has_content(facts[p], state.options));
    assert(set.subset_of(files.dom()));
    vstd::set_lib::lemma_len_subset(set, files.dom());
    every_member_is_listed(set, path);
}

proof fn lemma_paired_free(
    state: DiffStateView,
    facts: Map<Seq<char>, FactsView>,
    start: Pairing,
    sources: Seq<Seq<char>>,
    target: Seq<char>,
)
    requires
        paired_sources(state, facts, start, sources).free.contains(target),
    ensures
        start.free.contains(target),
        forall|n: int|
            0 <= n <= sources.len() ==> (#[trigger] paired_sources(state, facts, start, sources.take(n))).free.contains(
                target,
            ),
    decreases sources.len(),
{
    assert(sources.take(sources.len() as int) =~= sources);
    if sources.len() > 0 {
        let rest = sources.drop_last();
        let before = paired_sources(state, facts, start, rest);
        let after = paired_sources(state, facts, start, sources);
        assert(before.free.contains(target)) by {
            match best_target(state, facts, sources.last(), before.free, before.free.len() as int) {
                None => {},
                Some(place) => {
                    crate::incremental::best_target_is_best(
                        state,
                        facts,
                        sources.last(),
                        before.free,
                        before.free.len() as int,
                    );
                    let k = choose|k: int| 0 <= k < after.free.len() && after.free[k] == target;
                    let swapped = before.free.update(place, before.free.last());
                    assert(after.free[k] == swapped[k]);
                    if k == place {
                        assert(before.free[before.free.len() - 1] == target);
                    } else {
                        assert(before.free[k] == target);
                    }
                },
            }
        }
        lemma_paired_free(state, facts, start, rest, target);
        assert forall|n: int| 0 <= n <= sources.len() implies (#[trigger] paired_sources(
            state,
            facts,
            start,
            sources.take(n),
        )).free.contains(target) by {
            if n < sources.len() {
                assert(sources.take(n) =~= rest.take(n));
            } else {
                assert(sources.take(n) =~= sources);
            }
        }
    }
}

/// No pair is left behind: of a deleted file that stays one and a candidate that no source
/// took, no parent yields the record of a rename.
pub proof fn no_pair_is_left(
    state: DiffStateView,
    facts: Map<Seq<char>, FactsView>,
    entries: Map<Seq<char>, Option<FileStats>>,
    source: Seq<char>,
    target: Seq<char>,
)
    requires
        effective(state.base, state.overlay.union_prefer_right(entries)).dom().finite(),
        with_role(state, entries, Role::Deleted).contains(source),
        !(with_renames(state, facts, entries).contains_key(source) && with_renames(state, facts, entries)[source]
            is None),
        paired(state, facts, entries).free.contains(target),
    ensures
        record_count(facts[source], facts[target], state.style, state.options) == 0,
{
    let files = effective(state.base, state.overlay.union_prefer_right(entries));
    let deleted = with_role(state, entries, Role::Deleted);
    assert(deleted.subset_of(files.dom()));
    vstd::set_lib::lemma_len_subset(deleted, files.dom());
    every_member_is_listed(deleted, source);
    let sources = in_order(deleted);
    let start = Pairing { free: rename_candidates(state, facts, entries), entries, dropped: Seq::empty() };
    assert forall|t: Seq<char>| #[trigger] start.free.contains(t) implies t != source by {
        every_arrived_file_is_a_candidate(state, facts, entries, t);
    }
    let n = choose|n: int| 0 <= n < sources.len() && sources[n] == source;
    if start.free.len() > 0 {
        lemma_pair_left(state, facts, start, sources, n, target);
    }
}

proof fn lemma_pair_left(
    state: DiffStateView,
    facts: Map<Seq<char>, FactsView>,
    start: Pairing,
    sources: Seq<Seq<char>>,
    n: int,
    target: Seq<char>,
)
    requires
        0 <= n < sources.len(),
        forall|t: Seq<char>| #[trigger] start.free.contains(t) ==> t != sources[n],
        ({
            let after = paired_sources(state, facts, start, sources);
            &&& !(after.entries.contains_key(sources[n]) && after.entries[sources[n]] is None)
            &&& after.free.contains(target)
        }),
    ensures
        rename_records(state, facts[sources[n]], facts[target]) == 0,
{
    let source = sources[n];
    lemma_paired_free(state, facts, start, sources, target);
    let before = paired_sources(state, facts, start, sources.take(n));
    let after = paired_sources(state, facts, start, sources.take(n + 1));
    assert(sources.take(n + 1).drop_last() =~= sources.take(n));
    assert(sources.take(n + 1).last() == source);
    assert(before.free.contains(target));
    let k = choose|k: int| 0 <= k < before.free.len() && before.free[k] == target;
    crate::incremental::best_target_is_best(state, facts, source, before.free, before.free.len() as int);
    match best_target(state, facts, source, before.free, before.free.len() as int) {
        None => {
            assert(rename_records(state, facts[source], facts[before.free[k]]) == 0);
        },
        Some(place) => {
            assert(after == paired_source(state, facts, before, source));
            assert(after.entries.contains_key(source) && after.entries[source] is None);
            lemma_stays_taken(state, facts, start, sources, n + 1, source);
        },
    }
}

proof fn lemma_stays_taken(
    state: DiffStateView,
    facts: Map<Seq<char>, FactsView>,
    start: Pairing,
    sources: Seq<Seq<char>>,
    n: int,
    source: Seq<char>,
)
    requires
        0 <= n <= sources.len(),
        forall|t: Seq<char>| #[trigger] start.free.contains(t) ==> t != source,
        paired_sources(state, facts, start, sources.take(n)).entries.contains_key(source),
        paired_sources(state, facts, start, sources.take(n)).entries[source] is None,
    ensures
        paired_sources(state, facts, start, sources).entries.contains_key(source),
        paired_sources(state, facts, start, sources).entries[source] is None,
    decreases sources.len() - n,
{
    if n == sources.len() {
        assert(sources.take(n) =~= sources);
    } else {
        let before = paired_sources(state, facts, start, sources.take(n));
        assert(sources.take(n + 1).drop_last() =~= sources.take(n));
        assert(sources.take(n + 1).last() == sources[n]);
        match best_target(state, facts, sources[n], before.free, before.free.len() as int) {
            None => {},
            Some(place) => {
                crate::incremental::best_target_is_best(
                    state,
                    facts,
                    sources[n],
                    before.free,
                    before.free.len() as int,
                );
                let target = before.free[place];
                assert(before.free.contains(target));
                lemma_paired_free(state, facts, start, sources.take(n), target);
                assert(target != source);
            },
        }
        lemma_stays_taken(state, facts, start, sources, n + 1, source);
    }
}

/// Every added file is held against every modified one: where it may be a copy of any of
/// them, and one parent yields the record of the best, it becomes a copy of one that is at
/// least as like it.
pub proof fn every_added_file_may_be_a_copy(
    state: DiffStateView,
    facts: Map<Seq<char>, FactsView>,
    entries: Map<Seq<char>, Option<FileStats>>,
    source: Seq<char>,
    target: Seq<char>,
)
    requires
        effective(state.base, state.overlay.union_prefer_right(entries)).dom().finite(),
        with_role(state, entries, Role::Modified).contains(source),
        with_role(state, entries, Role::Added).contains(target),
        facts[target].valid,
        has_content(facts[target], state.options),
        may_be_copy(facts[source], facts[target], state.options),
        forall|s: Seq<char>| #[trigger]
            with_role(state, entries, Role::Modified).contains(s) ==> all_copy_records(facts[s], facts[target]) < 2,
    ensures
        ({
            let after = with_copies(state, facts, entries);
            &&& after.contains_key(target) && after[target] is Some
            &&& after[target]->0.kind == FileChangeKind::Modified
            &&& after[target]->0.renamed_from is Some
            &&& likeness(facts[source], facts[target], state.options) <= likeness(
                facts[after[target]->0.renamed_from->0],
                facts[target],
                state.options,
            )
            &&& with_role(state, entries, Role::Modified).contains(after[target]->0.renamed_from->0)
        }),
{
    let files = effective(state.base, state.overlay.union_prefer_right(entries));
    let modified = with_role(state, entries, Role::Modified);
    assert(modified.subset_of(files.dom()));
    vstd::set_lib::lemma_len_subset(modified, files.dom());
    every_member_is_listed(modified, source);
    let sources = in_order(modified);
    let n = sources.len() as int;
    crate::incremental::best_copy_source_is_best(facts, sources, facts[target], state.options, n);
    let k = choose|k: int| 0 <= k < sources.len() && sources[k] == source;
    assert(may_be_copy(facts[sources[k]], facts[target], state.options));
    let place = best_copy_source(facts, sources, facts[target], state.options, n)->0;
    every_member_is_listed(modified, sources[place]);
    assert(sources.contains(sources[place]));
}

/// A lone pair of which several parents yield the record is no rename: the deleted file is
/// dropped and the other one stays as it is.
pub proof fn lone_cancelled_pair_is_dropped(
    state: DiffStateView,
    facts: Map<Seq<char>, FactsView>,
    entries: Map<Seq<char>, Option<FileStats>>,
    source: Seq<char>,
    target: Seq<char>,
)
    requires
        source != target,
        has_content(facts[target], state.options),
        record_count(facts[source], facts[target], state.style, state.options) >= 2,
        ({
            let files = effective(state.base, state.overlay.union_prefer_right(entries));
            &&& files.contains_key(source) && files[source].kind == FileChangeKind::Deleted
            &&& files.contains_key(target) && files[target].kind == FileChangeKind::Added
            &&& files[source].renamed_from is None && files[target].renamed_from is None
            &&& forall|p: Seq<char>| #[trigger] files.contains_key(p) ==> p == source || p == target
        }),
    ensures
        with_renames(state, facts, entries) == entries.insert(source, None),
        dropped_sources(state, facts, entries) == seq![source],
{
    let deleted = with_role(state, entries, Role::Deleted);
    let arrived = with_role(state, entries, Role::Arrived);
    let candidates = arrived.filter(|path: Seq<char>| has_content(facts[path], state.options));
    assert(deleted =~= set![source]);
    assert(candidates =~= set![target]);
    one_is_in_order(source);
    one_is_in_order(target);
    let start = Pairing { free: seq![target], entries, dropped: Seq::empty() };
    let sources = seq![source];
    reveal_with_fuel(paired_sources, 2);
    assert(sources.drop_last() =~= Seq::empty());
    assert(sources.last() == source);
    several_records_cancel_a_rename(state, facts, start, source, target);
    assert(paired_sources(state, facts, start, sources) == paired_source(state, facts, start, source));
    assert(Seq::<Seq<char>>::empty().push(source) =~= seq![source]);
}

/// The records of a copy are as many as the parents that have the source and lack the target.
pub proof fn every_parent_counts_for_copies(source: FactsView, target: FactsView, n: nat)
    ensures
        copy_records(source, target, n as int) == Seq::new(n, |i: int| i).filter(
            |i: int|
                source.parents[i].raw is Some && !(source.parents[i].raw->0.len() == 1
                    && source.parents[i].raw->0[0] is None) && target.parents[i].raw is Some
                    && target.parents[i].raw->0.len() == 1 && target.parents[i].raw->0[0] is None,
        ).len(),
    decreases n,
{
    reveal(Seq::filter);
    if n > 0 {
        every_parent_counts_for_copies(source, target, (n - 1) as nat);
        assert(Seq::new(n, |i: int| i).drop_last() =~= Seq::new((n - 1) as nat, |i: int| i));
    }
}

} // verus!
