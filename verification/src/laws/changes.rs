//! What changed paths do to the diff.

use crate::conflicts::{MergeOptions, TreeTermView};
use crate::facts::{blob, copy_count, has_content, record_count, visible_on_disk, FactsView, LookupView};
use crate::incremental::{
    batch_dropped, next_progress, not_staged, settled_entries, AnswersView, ProgressView,
};
use crate::laws::renames::{is_new_and_old, one_parent_yields_one_record};
use crate::linediff::{left_text, line_diff};
use crate::pairing::{dropped_sources, with_renames};
use crate::similarity::to_single;
use crate::staging::{
    base_source, kept_entry, needed_for, needed_for_all, own_entry, premise, source_entry, staged_batch, targets_of,
    DiffStateView, Premise,
};
use crate::stats::{stats_for_contents, FileChangeKind, FileStats};
use crate::wc::MaterializedView;
use vstd::prelude::*;

verus! {

/// A lookup that found a file with a content and an executable bit, or nothing.
pub open spec fn found(lookup: LookupView, file: Option<(Seq<u8>, bool)>) -> bool {
    match file {
        Some((content, executable)) => {
            &&& lookup.raw is Some && lookup.raw->0.len() == 1 && lookup.raw->0[0] is Some
            &&& lookup.value == Some(MaterializedView::File { content: Some(content), executable })
        },
        None => {
            &&& lookup.raw == Some(seq![None::<TreeTermView>])
            &&& lookup.value == Some(MaterializedView::Absent)
        },
    }
}

/// A changed path that no rename was recorded of counts by the parent's file and the one on
/// disk: added, deleted or modified with its lines; modified without lines where only the
/// executable bit is another; nothing where nothing is. A file on disk that is neither in the
/// commit nor let through by the ignore rules is as good as not there.
pub proof fn changed_path_counts_against_the_parent(
    state: DiffStateView,
    facts: Map<Seq<char>, FactsView>,
    path: Seq<char>,
    parent: Option<(Seq<u8>, bool)>,
    commit: Option<(Seq<u8>, bool)>,
)
    requires
        !(state.base.contains_key(path) && state.base[path].renamed_from is Some),
        forall|p: Seq<char>| #[trigger]
            state.base.contains_key(p) ==> state.base[p].renamed_from != Some(path),
        forall|p: Seq<char>|
            #[trigger] state.overlay.contains_key(p) && state.overlay[p] is Some ==> state.overlay[p]->0.renamed_from
                != Some(path),
        found(facts[path].parent, parent),
        found(facts[path].commit, commit),
    ensures
        ({
            let f = facts[path];
            let entry = own_entry(state, facts, path);
            let there = f.disk is Some && (commit is Some || f.not_ignored);
            &&& !there && parent is None ==> entry is None
            &&& !there && parent is Some ==> entry == stats_for_contents(Some((parent->0).0), None)
            &&& there && parent is None ==> entry == stats_for_contents(None, f.disk)
            &&& there && parent is Some ==> {
                let (old, was) = parent->0;
                &&& old != f.disk->0 ==> entry == stats_for_contents(Some(old), f.disk)
                &&& old == f.disk->0 && was == f.executable ==> entry is None
                &&& old == f.disk->0 && was != f.executable ==> entry is Some && entry->0.kind
                    == FileChangeKind::Modified && entry->0.lines_added == 0 && entry->0.lines_removed == 0
            }
        }),
{
    assert(targets_of(state, path) =~= Set::<Seq<char>>::empty());
}

/// Without recorded renames a batch stages its paths that can name a file, each with its own
/// entry, and no others; their order and repeats do not matter.
pub proof fn each_changed_path_is_staged(
    state: DiffStateView,
    facts: Map<Seq<char>, FactsView>,
    changed: Seq<Seq<char>>,
    path: Seq<char>,
)
    requires
        forall|p: Seq<char>| #[trigger] state.base.contains_key(p) ==> state.base[p].renamed_from is None,
        forall|p: Seq<char>|
            #[trigger] state.overlay.contains_key(p) && state.overlay[p] is Some ==> state.overlay[p]->0.renamed_from
                is None,
    ensures
        ({
            let entries = staged_batch(state, facts, changed).entries;
            &&& entries.contains_key(path) <==> changed.contains(path) && facts[path].valid
            &&& entries.contains_key(path) ==> entries[path] == own_entry(state, facts, path)
        }),
    decreases changed.len(),
{
    if changed.len() > 0 {
        let rest = changed.drop_last();
        let last = changed.last();
        each_changed_path_is_staged(state, facts, rest, path);
        assert(targets_of(state, last) =~= Set::<Seq<char>>::empty());
        let before = staged_batch(state, facts, rest).entries;
        let lefts = crate::staging::left_targets(state, facts, last);
        assert(before.union_prefer_right(lefts) =~= before);
        assert(changed[changed.len() - 1] == last);
        if changed.contains(path) && path != last {
            let k = choose|k: int| 0 <= k < changed.len() && changed[k] == path;
            assert(rest[k] == path);
        }
        if rest.contains(path) {
            let k = choose|k: int| 0 <= k < rest.len() && rest[k] == path;
            assert(changed[k] == path);
        }
    }
}

/// A file that was recorded as renamed from one that is gone stays so as long as the two are
/// alike by half, and has the lines that changed between them; the source has no entry. Once
/// they are not, it is an added file with all its lines, and the delete of the source is
/// back: in whichever order the two come, and where only one of them does.
pub proof fn recorded_rename_stands_while_alike(
    state: DiffStateView,
    facts: Map<Seq<char>, FactsView>,
    source: Seq<char>,
    target: Seq<char>,
    content: Seq<u8>,
    executable: bool,
    disk: Seq<u8>,
)
    requires
        source != target,
        state.base.contains_key(target),
        state.base[target].renamed_from == Some(source),
        forall|p: Seq<char>|
            #[trigger] state.base.contains_key(p) && p != target ==> state.base[p].renamed_from is None,
        forall|p: Seq<char>|
            #[trigger] state.overlay.contains_key(p) && state.overlay[p] is Some ==> state.overlay[p]->0.renamed_from
                is None,
        is_new_and_old(facts[source], facts[target], content, disk),
        facts[source].parent_labeled == Some(MaterializedView::File { content: Some(content), executable }),
        found(facts[source].parent, Some((content, executable))),
        found(facts[source].commit, None),
        !facts[source].exists,
        facts[source].disk is None,
        found(facts[target].parent, None),
        facts[target].not_ignored,
    ensures
        ({
            let kept = content.len() - left_text(
                line_diff(content, disk).filter(|h: (bool, Seq<u8>, Seq<u8>)| h.0),
            ).len();
            let larger = if content.len() >= disk.len() {
                content.len()
            } else {
                disk.len()
            };
            let both = staged_batch(state, facts, seq![source, target]).entries;
            let other = staged_batch(state, facts, seq![target, source]).entries;
            let one = staged_batch(state, facts, seq![target]).entries;
            let lone = staged_batch(state, facts, seq![source]).entries;
            &&& both == other
            &&& one.contains_key(target) && both[target] == one[target]
            &&& lone.contains_key(source) && both[source] == lone[source]
            &&& if content == disk || 2 * to_single(kept as nat) >= to_single(larger) {
                &&& one[target] is Some && one[target]->0.renamed_from == Some(source)
                &&& one[target]->0.kind == FileChangeKind::Modified
                &&& content != disk ==> {
                    let changed = stats_for_contents(Some(content), Some(disk))->0;
                    one[target]->0.lines_added == changed.lines_added && one[target]->0.lines_removed
                        == changed.lines_removed
                }
                &&& lone[source] is None
            } else {
                &&& one[target] == stats_for_contents(None, Some(disk))
                &&& one.contains_key(source) && one[source] == stats_for_contents(Some(content), None)
                &&& lone[source] == stats_for_contents(Some(content), None)
            }
        }),
{
    one_parent_yields_one_record(facts[source], facts[target], state.style, state.options, content, disk);
    assert(targets_of(state, source) =~= set![target]);
    assert(targets_of(state, source).contains(target));
    assert(targets_of(state, target) =~= Set::<Seq<char>>::empty());
    let none = Seq::<Seq<char>>::empty();
    assert(seq![target].drop_last() =~= none);
    assert(seq![source].drop_last() =~= none);
    assert(seq![source, target].drop_last() =~= seq![source]);
    assert(seq![target, source].drop_last() =~= seq![target]);
    reveal_with_fuel(staged_batch, 3);
    let empty = Map::<Seq<char>, Option<FileStats>>::empty();
    lemma_no_left_targets(state, facts, target);
    let lone = staged_batch(state, facts, seq![source]).entries;
    let one = staged_batch(state, facts, seq![target]).entries;
    lemma_union_empty(empty);
    lemma_union_empty(empty.insert(source, source_entry(state, facts, source)));
    lemma_union_empty(lone);
    lemma_union_empty(lone.insert(source, source_entry(state, facts, source)));
    assert(premise(state, facts, source) is Plain);
    let both = staged_batch(state, facts, seq![source, target]).entries;
    let other = staged_batch(state, facts, seq![target, source]).entries;
    assert(lone =~= empty.insert(source, source_entry(state, facts, source)));
    assert(both =~= other);
}

proof fn lemma_no_left_targets(state: DiffStateView, facts: Map<Seq<char>, FactsView>, path: Seq<char>)
    requires
        targets_of(state, path) == Set::<Seq<char>>::empty(),
    ensures
        crate::staging::left_targets(state, facts, path) == Map::<Seq<char>, Option<FileStats>>::empty(),
{
    assert(crate::staging::left_targets(state, facts, path) =~= Map::<Seq<char>, Option<FileStats>>::empty());
}

proof fn lemma_union_empty(entries: Map<Seq<char>, Option<FileStats>>)
    ensures
        entries.union_prefer_right(Map::<Seq<char>, Option<FileStats>>::empty()) == entries,
{
    assert(entries.union_prefer_right(Map::<Seq<char>, Option<FileStats>>::empty()) =~= entries);
}

/// What copy detection sees of a path is what is on disk, whether it is tracked or not; of a
/// file that stays in conflict it is the first side.
pub proof fn copy_detection_sees_what_is_on_disk(
    f: FactsView,
    file: Option<(Seq<u8>, bool)>,
    options: MergeOptions,
)
    requires
        found(f.commit, file),
    ensures
        blob(f, options) == f.disk,
        has_content(f, options) <==> f.disk is Some && f.disk->0.len() > 0,
{
}

/// A path on disk is visible where it is in the commit or let through by the ignore rules;
/// what is not on disk is not.
pub proof fn tracked_files_are_visible(f: FactsView, file: Option<(Seq<u8>, bool)>)
    requires
        f.valid,
        found(f.commit, file),
    ensures
        !f.exists ==> !visible_on_disk(f),
        f.exists && file is Some ==> visible_on_disk(f),
        f.exists && file is None ==> visible_on_disk(f) == f.not_ignored,
{
}

/// Where the source of a recorded rename is on disk again as the parent has it, the file that
/// was renamed from it is an added one like any other, and the source has no entry.
pub proof fn restored_source_ends_the_rename(
    state: DiffStateView,
    facts: Map<Seq<char>, FactsView>,
    source: Seq<char>,
    target: Seq<char>,
    content: Seq<u8>,
    executable: bool,
    disk: Seq<u8>,
)
    requires
        source != target,
        state.base.contains_key(target),
        state.base[target].renamed_from == Some(source),
        forall|p: Seq<char>|
            #[trigger] state.base.contains_key(p) && p != target ==> state.base[p].renamed_from is None,
        forall|p: Seq<char>|
            #[trigger] state.overlay.contains_key(p) && state.overlay[p] is Some ==> state.overlay[p]->0.renamed_from
                is None,
        is_new_and_old(facts[source], facts[target], content, disk),
        found(facts[source].parent, Some((content, executable))),
        found(facts[source].commit, None),
        facts[source].exists,
        facts[source].not_ignored,
        facts[source].disk == Some(content),
        facts[source].executable == executable,
        found(facts[target].parent, None),
        facts[target].not_ignored,
    ensures
        ({
            let entries = staged_batch(state, facts, seq![source]).entries;
            &&& entries.contains_key(source) && entries[source] is None
            &&& entries.contains_key(target) && entries[target] == stats_for_contents(None, Some(disk))
            &&& own_entry(state, facts, target) == stats_for_contents(None, Some(disk))
        }),
{
    assert(targets_of(state, source) =~= set![target]);
    assert(targets_of(state, source).contains(target));
    assert(targets_of(state, target) =~= Set::<Seq<char>>::empty());
    assert(seq![source].drop_last() =~= Seq::<Seq<char>>::empty());
    assert(seq![source].last() == source);
    reveal_with_fuel(staged_batch, 2);
    reveal_with_fuel(crate::facts::copies_before, 2);
    assert(crate::facts::copy_count(facts[source], facts[target], state.style, state.options) == 0);
    let lefts = crate::staging::left_targets(state, facts, source);
    assert(lefts.contains_key(target));
}

/// The dropped sources that a batch has not staged stay dropped, in order.
pub proof fn unstaged_deletes_stay_dropped(
    list: Seq<Seq<char>>,
    entries: Map<Seq<char>, Option<FileStats>>,
    path: Seq<char>,
)
    ensures
        not_staged(list, entries).contains(path) <==> list.contains(path) && !entries.contains_key(path),
    decreases list.len(),
{
    if list.len() > 0 {
        let rest = list.drop_last();
        unstaged_deletes_stay_dropped(rest, entries, path);
        assert(list =~= rest.push(list.last()));
        crate::staging::lemma_contains_push(rest, list.last(), path);
        crate::staging::lemma_contains_push(not_staged(rest, entries), list.last(), path);
    }
}

/// A batch goes through its steps in order, and stands still exactly as long as something
/// that the step needs is not known.
pub proof fn batches_wait_for_what_they_need(
    state: DiffStateView,
    changed: Seq<Seq<char>>,
    facts: Map<Seq<char>, FactsView>,
    answers: AnswersView,
    path: Seq<char>,
    k: int,
)
    requires
        0 <= k < changed.len(),
    ensures
        !facts.contains_key(changed[k]) ==> next_progress(state, changed, facts, answers, ProgressView::Start) is Start,
        targets_of(state, changed[k]).contains(path) && !facts.contains_key(path) ==> next_progress(
            state,
            changed,
            facts,
            answers,
            ProgressView::Start,
        ) is Start,
        base_source(state, changed[k]) == Some(path) && !facts.contains_key(path) ==> next_progress(
            state,
            changed,
            facts,
            answers,
            ProgressView::Start,
        ) is Start,
        !(next_progress(state, changed, facts, answers, ProgressView::Start) is Start) ==> next_progress(
            state,
            changed,
            facts,
            answers,
            ProgressView::Start,
        ) == ProgressView::Staged(staged_batch(state, facts, changed)),
{
    let needed = needed_for_all(state, changed);
    assert(needed_for(state, changed[k]).contains(changed[k]));
    assert(needed.contains(changed[k]));
    if targets_of(state, changed[k]).contains(path) || base_source(state, changed[k]) == Some(path) {
        assert(needed_for(state, changed[k]).contains(path));
        assert(needed.contains(path));
    }
}

/// What has become of a recorded rename is decided by the parents that yield a record: one
/// keeps it, as a rename while the source is out of sight and as a copy while it is visible;
/// none makes it void while the source is out of sight; several cancel it.
pub proof fn records_decide_on_a_recorded_rename(
    state: DiffStateView,
    facts: Map<Seq<char>, FactsView>,
    source: Seq<char>,
    target: Seq<char>,
)
    requires
        state.base.contains_key(target),
        state.base[target].renamed_from == Some(source),
    ensures
        ({
            let renames = record_count(facts[source], facts[target], state.style, state.options);
            let copies = copy_count(facts[source], facts[target], state.style, state.options);
            let verdict = premise(state, facts, target);
            &&& !visible_on_disk(facts[source]) && renames == 0 ==> verdict == Premise::Void(source)
            &&& !visible_on_disk(facts[source]) && renames == 1 ==> verdict == Premise::Kept(source)
            &&& !visible_on_disk(facts[source]) && renames >= 2 ==> verdict is Plain
            &&& visible_on_disk(facts[source]) && copies == 1 ==> verdict == Premise::Kept(source)
            &&& visible_on_disk(facts[source]) && copies != 1 ==> verdict is Plain
        }),
{
}

/// A file that nothing was recorded of in the base is like any other.
pub proof fn files_without_a_record_are_plain(
    state: DiffStateView,
    facts: Map<Seq<char>, FactsView>,
    path: Seq<char>,
)
    requires
        !(state.base.contains_key(path) && state.base[path].renamed_from is Some),
    ensures
        premise(state, facts, path) is Plain,
{
}

/// A file that still counts as renamed is one changed file: with the lines of its change, or
/// without any where it is as its source was.
pub proof fn kept_renames_count(diff: Option<FileStats>, source: Seq<char>)
    ensures
        ({
            let entry = kept_entry(diff, source);
            &&& entry is Some
            &&& diff is None ==> entry->0.kind == FileChangeKind::Modified && entry->0.lines_added == 0
                && entry->0.lines_removed == 0 && entry->0.renamed_from == Some(source)
            &&& diff matches Some(stats) ==> entry->0.lines_added == stats.lines_added && entry->0.lines_removed
                == stats.lines_removed && entry->0.kind == stats.kind
            &&& diff is Some && diff->0.kind == FileChangeKind::Modified ==> entry->0.renamed_from == Some(source)
        }),
{
}

/// A delete that was dropped stays dropped until a batch stages it, and those that pairing
/// drops in a batch are added.
pub proof fn dropped_deletes_are_remembered(
    state: DiffStateView,
    changed: Seq<Seq<char>>,
    facts: Map<Seq<char>, FactsView>,
    answers: AnswersView,
    path: Seq<char>,
)
    ensures
        ({
            let settled = settled_entries(state, changed, facts, answers);
            let after = batch_dropped(state, changed, facts, answers);
            after.contains(path) <==> (state.dropped.contains(path) && !with_renames(state, facts, settled).contains_key(
                path,
            )) || dropped_sources(state, facts, settled).contains(path)
        }),
{
    let settled = settled_entries(state, changed, facts, answers);
    let old_ones = not_staged(state.dropped, with_renames(state, facts, settled));
    let new_ones = dropped_sources(state, facts, settled);
    unstaged_deletes_stay_dropped(state.dropped, with_renames(state, facts, settled), path);
    let all = old_ones + new_ones;
    if old_ones.contains(path) {
        let k = choose|k: int| 0 <= k < old_ones.len() && old_ones[k] == path;
        assert(all[k] == path);
    }
    if new_ones.contains(path) {
        let k = choose|k: int| 0 <= k < new_ones.len() && new_ones[k] == path;
        assert(all[old_ones.len() + k] == path);
    }
    if all.contains(path) {
        let k = choose|k: int| 0 <= k < all.len() && all[k] == path;
        if k < old_ones.len() {
            assert(old_ones[k] == path);
        } else {
            assert(new_ones[k - old_ones.len()] == path);
        }
    }
}

} // verus!
