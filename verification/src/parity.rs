//! What a batch of changed paths comes to is what a full diff says after the next snapshot.

use crate::aggregate::{counts_of, effective};
use crate::conflicts::TreeTermView;
use crate::copies::{copied_from, copies};
use crate::facts::{tree_entry, visible_on_disk, FactsView};
use crate::incremental::{
    batch_dropped, batch_entries, is_settled, lemma_settled_text, not_staged, settled_entries, AnswersView,
};
use crate::pairing::{
    best_target, paired_source, paired_sources, rename_candidates, rename_entry, rename_records, with_renames,
    with_role, Pairing, Role,
};
use crate::repo_state::{entry_stats, per_file_stats, side_content, DiffEntry, DiffEntryView};
use crate::reshape::{may_reshape, reshape_plan, with_reshaped};
use crate::staging::{
    diff_against, is_copy, is_deserted, kept_entry, left_targets, lookup_path, next_value, own_entry, premise,
    source_entry, staged_batch, staged_path, target_entry, targets_of, DiffStateView, Premise, StagingView,
};
use crate::stats::{stats_for_contents, FileStats};
use crate::strings::in_order;
use crate::wc::{
    derived_view, raw_entry, reread_conflict, same_value, snapshot_value, value_text, values_diff, MaterializedView,
    WcEntryView, WcView,
};
use vstd::prelude::*;

verus! {

/// A batch of changed paths, all that was found out for it, and what the values of the next
/// snapshot are materialized to.
pub struct Batch {
    pub state: DiffStateView,
    pub changed: Seq<Seq<char>>,
    pub facts: Map<Seq<char>, FactsView>,
    pub answers: AnswersView,
    pub after: Map<Seq<char>, MaterializedView>,
}

/// The entries that the batch comes to.
pub open spec fn made(b: Batch) -> Map<Seq<char>, Option<FileStats>> {
    batch_entries(b.state, b.changed, b.facts, b.answers)
}

/// The entries of the batch before renames and copies are worked in.
pub open spec fn settled(b: Batch) -> Map<Seq<char>, Option<FileStats>> {
    settled_entries(b.state, b.changed, b.facts, b.answers)
}

/// The diff before the batch.
pub open spec fn current(b: Batch) -> Map<Seq<char>, FileStats> {
    effective(b.state.base, b.state.overlay)
}

/// The diff after the batch.
pub open spec fn resulting(b: Batch) -> Map<Seq<char>, FileStats> {
    effective(b.state.base, b.state.overlay.union_prefer_right(made(b)))
}

/// The conflicted paths that the next snapshot stores anew.
pub open spec fn plan_of(b: Batch) -> Seq<(Seq<char>, Seq<Option<TreeTermView>>)> {
    let staged = staged_batch(b.state, b.facts, b.changed);
    if may_reshape(b.state, staged) {
        reshape_plan(b.state, b.facts, staged, b.answers.differing->0)
    } else {
        Seq::empty()
    }
}

/// The value that a plan gives to a path, if it does.
pub open spec fn planned(
    plan: Seq<(Seq<char>, Seq<Option<TreeTermView>>)>,
    values: Seq<Option<MaterializedView>>,
    path: Seq<char>,
) -> Option<WcEntryView>
    decreases plan.len(),
{
    if plan.len() == 0 {
        None
    } else if plan.last().0 == path {
        Some(raw_entry(plan.last().1, values[plan.len() - 1]))
    } else {
        planned(plan.drop_last(), values, path)
    }
}

/// The value that the batch's reshaping gives to a path, if it does.
pub open spec fn reshaped_value(b: Batch, path: Seq<char>) -> Option<WcEntryView> {
    planned(plan_of(b), b.answers.values->0, path)
}

/// Whether a path is out of sight and some file was recorded as renamed from it.
pub open spec fn is_hidden(b: Batch, path: Seq<char>) -> bool {
    targets_of(b.state, path) != Set::<Seq<char>>::empty() && !visible_on_disk(b.facts[path])
}

/// Whether a path is gone, and no file counts as renamed from it any more: a full diff has
/// its delete.
pub open spec fn is_left_behind(b: Batch, path: Seq<char>) -> bool {
    is_hidden(b, path) && is_deserted(b.state, b.facts, path)
}

/// Whether a path is gone as the source of a rename that was recorded and still stands: a
/// full diff has no entry for it.
pub open spec fn is_renamed_away(b: Batch, path: Seq<char>) -> bool {
    is_hidden(b, path) && !is_deserted(b.state, b.facts, path)
}

/// The value that the next snapshot has for a path of the batch.
pub open spec fn snapshot_entry(b: Batch, path: Seq<char>) -> WcEntryView {
    match reshaped_value(b, path) {
        Some(value) => value,
        None => if is_left_behind(b, path) {
            derived_view(WcView::Absent)
        } else {
            next_value(
                b.state,
                b.facts[path],
                premise(b.state, b.facts, path) is Kept || b.facts[path].not_ignored,
            )
        },
    }
}

/// The entry of a full diff between the parent's value and the next one of a path.
pub open spec fn plain_entry(b: Batch, path: Seq<char>) -> DiffEntryView {
    DiffEntryView { path, copied_from: None, before: b.facts[path].parent.value, after: Some(b.after[path]) }
}

/// The entry of a full diff for a path that was renamed or copied from another one.
pub open spec fn copied_entry(b: Batch, source: Seq<char>, path: Seq<char>) -> DiffEntryView {
    DiffEntryView {
        path,
        copied_from: Some(source),
        before: b.facts[source].parent.value,
        after: Some(b.after[path]),
    }
}

/// The stats of an entry.
pub open spec fn stats_of_entry(b: Batch, entry: DiffEntryView) -> Option<FileStats> {
    entry_stats(entry, b.state.style, b.state.options)
}

/// The stats of a full diff for a path by its two values alone.
pub open spec fn plain_stats(b: Batch, path: Seq<char>) -> Option<FileStats> {
    if same_value(tree_entry(b.facts[path].parent), snapshot_entry(b, path)) {
        None
    } else {
        stats_of_entry(b, plain_entry(b, path))
    }
}

/// The content of a materialized value.
pub open spec fn content(b: Batch, value: Option<MaterializedView>) -> Option<Seq<u8>> {
    side_content(value, b.state.style, b.state.options)
}

/// The full diff materializes the next value of a path to what stands in `after`.
pub open spec fn is_materialized(b: Batch, path: Seq<char>) -> bool {
    is_settled(b.after[path]) && snapshot_entry(b, path).value == snapshot_value(b.after[path])
}

/// Both values of a path can be read, and where they differ one of them has content: two
/// submodules have none.
pub open spec fn is_shown(b: Batch, path: Seq<char>) -> bool {
    &&& b.facts[path].parent.raw is Some
    &&& b.facts[path].parent.value is Some
    &&& is_settled(b.facts[path].parent.value->0)
    &&& is_materialized(b, path)
    &&& !same_value(tree_entry(b.facts[path].parent), snapshot_entry(b, path)) ==> !(snapshot_value(
        b.facts[path].parent.value->0,
    ) is Absent && snapshot_entry(b, path).value is Absent)
}

/// The next snapshot has at a path just what is on disk, no conflict.
pub open spec fn is_as_on_disk(b: Batch, path: Seq<char>) -> bool {
    &&& is_materialized(b, path)
    &&& match snapshot_entry(b, path).value {
        WcView::Absent => b.facts[path].disk is None,
        WcView::Resolved { content, executable } => b.facts[path].disk == Some(content),
        WcView::Conflict(_) => false,
    }
}

/// What is on disk at a path compares with the parent's value of a source as the next
/// snapshot does: it is not the text of a conflict, which would be read back as one.
pub open spec fn reads_alike(b: Batch, source: Seq<char>, path: Seq<char>) -> bool {
    &&& is_as_on_disk(b, path)
    &&& match (b.facts[source].parent.value, b.facts[source].parent_labeled) {
        (
            Some(MaterializedView::FileConflict { contents, labels, resolved_exec }),
            Some(MaterializedView::FileConflict { contents: labeled, labels: _, resolved_exec: _ }),
        ) => {
            &&& labels.len() == 0
            &&& labeled == contents
            &&& b.facts[path].disk is Some ==> reread_conflict(
                contents,
                b.facts[path].disk->0,
                b.state.style,
                b.state.options,
            ) == b.facts[path].disk->0
        },
        (Some(value), Some(labeled)) => value == labeled,
        _ => false,
    }
}

/// The same of a rename or copy that was recorded and still stands: both files have content.
pub open spec fn still_reads_alike(b: Batch, source: Seq<char>, path: Seq<char>) -> bool {
    &&& reads_alike(b, source, path)
    &&& content(b, b.facts[source].parent.value) is Some
    &&& b.facts[path].disk is Some
}

/// The stats of a full diff for a path, before renames and copies that are new.
pub open spec fn recorded_stats(b: Batch, path: Seq<char>) -> Option<FileStats> {
    if reshaped_value(b, path) is Some {
        plain_stats(b, path)
    } else if is_renamed_away(b, path) {
        None
    } else if is_left_behind(b, path) {
        plain_stats(b, path)
    } else {
        match premise(b.state, b.facts, path) {
            Premise::Kept(source) => stats_of_entry(b, copied_entry(b, source, path)),
            _ => plain_stats(b, path),
        }
    }
}

/// A source that is out of sight says what a full diff says: its delete can be read where it
/// is left behind.
pub open spec fn source_is_clear(b: Batch, source: Seq<char>) -> bool {
    is_left_behind(b, source) ==> is_shown(b, source)
}

/// A changed path says of its own entry what a full diff says.
pub open spec fn own_is_clear(b: Batch, path: Seq<char>) -> bool {
    if is_hidden(b, path) {
        source_is_clear(b, path)
    } else {
        match premise(b.state, b.facts, path) {
            Premise::Kept(source) => still_reads_alike(b, source, path),
            _ => is_shown(b, path),
        }
    }
}

/// A file that was renamed from a changed path which is visible again is a copy by the same
/// record, or a file like any other; and where it is the source of another rename, it has
/// come and gone since the parent.
pub open spec fn left_target_is_clear(b: Batch, source: Seq<char>, target: Seq<char>) -> bool {
    if is_copy(b.state, b.facts[source], b.facts[target]) {
        &&& !is_hidden(b, target)
        &&& premise(b.state, b.facts, target) == Premise::Kept(source)
        &&& still_reads_alike(b, source, target)
    } else {
        &&& !(premise(b.state, b.facts, target) is Kept)
        &&& is_shown(b, target)
        &&& is_hidden(b, target) ==> tree_entry(b.facts[target].parent).value is Absent && b.facts[target].disk is None
    }
}

/// What a changed path stages is what a full diff says, apart from paths that are reshaped.
pub open spec fn is_clear(b: Batch, path: Seq<char>) -> bool {
    b.facts[lookup_path(b.state, b.facts, path)].valid ==> {
        &&& reshaped_value(b, path) is None ==> own_is_clear(b, path)
        &&& premise(b.state, b.facts, path) matches Premise::Void(source) ==> b.facts[source].valid && reshaped_value(
            b,
            source,
        ) is None ==> source_is_clear(b, source)
        &&& visible_on_disk(b.facts[path]) ==> forall|target: Seq<char>| #[trigger]
            targets_of(b.state, path).contains(target) && b.facts[target].valid && reshaped_value(b, target) is None
                ==> left_target_is_clear(b, path, target)
    }
}

/// Whether the batch makes a path a renamed or copied one.
pub open spec fn newly_copied(b: Batch, path: Seq<char>) -> bool {
    &&& made(b).contains_key(path)
    &&& made(b)[path] is Some
    &&& made(b)[path]->0.renamed_from is Some
    &&& !(settled(b).contains_key(path) && settled(b)[path] == made(b)[path])
}

/// The batch and the full diff compare the same contents.
pub open spec fn compares_alike(b: Batch) -> bool {
    &&& forall|i: int| 0 <= i < b.changed.len() ==> is_clear(b, #[trigger] b.changed[i])
    &&& forall|path: Seq<char>| (#[trigger] reshaped_value(b, path)) is Some ==> is_shown(b, path)
    &&& forall|path: Seq<char>| #[trigger]
        newly_copied(b, path) ==> reads_alike(b, made(b)[path]->0.renamed_from->0, path)
}

/// Whether pairing takes a path out of the diff, as the deleted source of a rename.
pub open spec fn is_taken_out(b: Batch, path: Seq<char>) -> bool {
    let renamed = with_renames(b.state, b.facts, settled(b));
    &&& renamed.contains_key(path)
    &&& renamed[path] is None
    &&& !(settled(b).contains_key(path) && settled(b)[path] is None)
}

/// The entry that a full diff has for a path of the batch: one from the source that copy
/// detection pairs it with; none for a source that is renamed away, and none where the
/// parent and the snapshot have the same value; else one of these two values.
pub open spec fn full_entry(b: Batch, path: Seq<char>) -> Option<DiffEntryView> {
    if made(b)[path] is Some && made(b)[path]->0.renamed_from is Some {
        Some(copied_entry(b, made(b)[path]->0.renamed_from->0, path))
    } else if is_taken_out(b, path) || (reshaped_value(b, path) is None && is_renamed_away(b, path)) {
        None
    } else if same_value(tree_entry(b.facts[path].parent), snapshot_entry(b, path)) {
        None
    } else {
        Some(plain_entry(b, path))
    }
}

/// The stats of a file of a diff, where it has one.
pub open spec fn stats_in(files: Map<Seq<char>, FileStats>, path: Seq<char>) -> Option<FileStats> {
    if files.contains_key(path) {
        Some(files[path])
    } else {
        None
    }
}

/// Whether a list has an entry for a path.
pub open spec fn has_entry(entries: Seq<DiffEntry>, path: Seq<char>) -> bool {
    exists|i: int| 0 <= i < entries.len() && (#[trigger] entries[i]).path@ == path
}

/// Whether a list holds the entries of a full diff after the next snapshot: for each path
/// of the batch the one of its values and its source, for any other path one that says what
/// the full diff said before, as nothing has changed there.
pub open spec fn follows_full_diff(
    before: Map<Seq<char>, FileStats>,
    b: Batch,
    entries: Seq<DiffEntry>,
) -> bool {
    &&& forall|i: int, j: int|
        0 <= i < j < entries.len() ==> (#[trigger] entries[i]).path@ != (#[trigger] entries[j]).path@
    &&& forall|i: int|
        0 <= i < entries.len() ==> {
            let entry = (#[trigger] entries[i])@;
            if made(b).contains_key(entry.path) {
                full_entry(b, entry.path) == Some(entry)
            } else {
                stats_of_entry(b, entry) == stats_in(before, entry.path)
            }
        }
    &&& forall|path: Seq<char>| #[trigger]
        made(b).contains_key(path) && full_entry(b, path) is Some ==> has_entry(entries, path)
    &&& forall|path: Seq<char>| #[trigger]
        before.contains_key(path) && !made(b).contains_key(path) ==> has_entry(entries, path)
}

/// The same, where the diff before the batch is what the full diff said.
pub open spec fn is_full_diff(b: Batch, entries: Seq<DiffEntry>) -> bool {
    follows_full_diff(current(b), b, entries)
}

/// What the entries of a full diff come to.
pub open spec fn table_of(b: Batch, entries: Seq<DiffEntry>) -> Map<Seq<char>, FileStats> {
    per_file_stats(Map::empty(), entries, b.state.style, b.state.options)
}

// Stats of entries.

/// The content of the next value of a path is that of its materialized form.
proof fn lemma_materialized(b: Batch, path: Seq<char>)
    requires
        is_materialized(b, path),
    ensures
        value_text(snapshot_entry(b, path).value, b.state.style, b.state.options) == content(b, Some(b.after[path])),
{
    lemma_settled_text(b.after[path], b.state.style, b.state.options);
}

proof fn lemma_shown(b: Batch, path: Seq<char>)
    requires
        is_shown(b, path),
    ensures
        values_diff(
            tree_entry(b.facts[path].parent),
            snapshot_entry(b, path),
            b.state.style,
            b.state.options,
        ) == plain_stats(b, path),
{
    lemma_materialized(b, path);
    lemma_settled_text(b.facts[path].parent.value->0, b.state.style, b.state.options);
}

proof fn lemma_reads_alike(b: Batch, source: Seq<char>, path: Seq<char>)
    requires
        reads_alike(b, source, path),
    ensures
        content(b, Some(b.after[path])) == b.facts[path].disk,
        diff_against(b.state, b.facts[source], b.facts[path].disk) == stats_for_contents(
            content(b, b.facts[source].parent.value),
            content(b, Some(b.after[path])),
        ),
{
    lemma_materialized(b, path);
    if let Some(MaterializedView::FileConflict { contents, labels, resolved_exec }) = b.facts[source].parent.value {
        assert(labels =~= Seq::empty());
    }
}

proof fn lemma_kept(b: Batch, source: Seq<char>, path: Seq<char>)
    requires
        still_reads_alike(b, source, path),
    ensures
        kept_entry(diff_against(b.state, b.facts[source], b.facts[path].disk), source) == stats_of_entry(
            b,
            copied_entry(b, source, path),
        ),
{
    lemma_reads_alike(b, source, path);
}

proof fn lemma_renamed(b: Batch, source: Seq<char>, path: Seq<char>)
    requires
        reads_alike(b, source, path),
    ensures
        Some(rename_entry(diff_against(b.state, b.facts[source], b.facts[path].disk), source)) == stats_of_entry(
            b,
            copied_entry(b, source, path),
        ),
{
    lemma_reads_alike(b, source, path);
}

proof fn lemma_left_target(b: Batch, source: Seq<char>, target: Seq<char>)
    requires
        left_target_is_clear(b, source, target),
        reshaped_value(b, target) is None,
    ensures
        target_entry(b.state, b.facts[source], b.facts[target], source) == recorded_stats(b, target),
{
    if is_copy(b.state, b.facts[source], b.facts[target]) {
        lemma_kept(b, source, target);
    } else {
        lemma_shown(b, target);
    }
}

proof fn lemma_plain_has_no_source(b: Batch, path: Seq<char>)
    ensures
        plain_stats(b, path) is Some ==> plain_stats(b, path)->0.renamed_from is None,
{
}

// Staging.

proof fn lemma_source(b: Batch, source: Seq<char>)
    requires
        is_hidden(b, source),
        reshaped_value(b, source) is None,
        source_is_clear(b, source),
    ensures
        source_entry(b.state, b.facts, source) == recorded_stats(b, source),
{
    if is_left_behind(b, source) {
        lemma_shown(b, source);
    }
}

proof fn lemma_own(b: Batch, path: Seq<char>)
    requires
        reshaped_value(b, path) is None,
        own_is_clear(b, path),
    ensures
        own_entry(b.state, b.facts, path) == recorded_stats(b, path),
{
    if is_hidden(b, path) {
        lemma_source(b, path);
    } else {
        match premise(b.state, b.facts, path) {
            Premise::Kept(source) => lemma_kept(b, source, path),
            _ => lemma_shown(b, path),
        }
    }
}

/// The staged entries are those of a full diff, but for paths that are reshaped.
spec fn stages_full_entries(b: Batch, entries: Map<Seq<char>, Option<FileStats>>) -> bool {
    forall|p: Seq<char>| #[trigger]
        entries.contains_key(p) && reshaped_value(b, p) is None ==> entries[p] == recorded_stats(b, p)
}

/// One changed path keeps the staged entries to what a full diff says.
proof fn lemma_stage_step(b: Batch, staging: StagingView, c: Seq<char>)
    requires
        is_clear(b, c),
        stages_full_entries(b, staging.entries),
    ensures
        stages_full_entries(b, staged_path(b.state, b.facts, staging, c).entries),
{
    let after = staged_path(b.state, b.facts, staging, c).entries;
    assert forall|p: Seq<char>| #[trigger] after.contains_key(p) && reshaped_value(b, p) is None implies after[p]
        == recorded_stats(b, p) by {
        let lefts = left_targets(b.state, b.facts, c);
        let seen = b.facts[lookup_path(b.state, b.facts, c)].valid;
        if seen && p == c {
            lemma_own(b, c);
        } else if seen && visible_on_disk(b.facts[c]) && lefts.contains_key(p) {
            assert(targets_of(b.state, c).contains(p));
            lemma_left_target(b, c, p);
        } else if seen && premise(b.state, b.facts, c) == Premise::Void(p) && b.facts[p].valid {
            assert(targets_of(b.state, p).contains(c));
            lemma_source(b, p);
        } else {
            assert(staging.entries.contains_key(p));
        }
    }
}

proof fn lemma_staged(b: Batch, n: int)
    requires
        0 <= n <= b.changed.len(),
        forall|i: int| 0 <= i < b.changed.len() ==> is_clear(b, #[trigger] b.changed[i]),
    ensures
        stages_full_entries(b, staged_batch(b.state, b.facts, b.changed.take(n)).entries),
    decreases n,
{
    if n > 0 {
        lemma_staged(b, n - 1);
        assert(b.changed.take(n).drop_last() =~= b.changed.take(n - 1));
        assert(b.changed.take(n).last() == b.changed[n - 1]);
        lemma_stage_step(b, staged_batch(b.state, b.facts, b.changed.take(n - 1)), b.changed[n - 1]);
    }
}

proof fn lemma_planned(
    state: DiffStateView,
    facts: Map<Seq<char>, FactsView>,
    entries: Map<Seq<char>, Option<FileStats>>,
    plan: Seq<(Seq<char>, Seq<Option<TreeTermView>>)>,
    values: Seq<Option<MaterializedView>>,
    path: Seq<char>,
)
    ensures
        ({
            let after = with_reshaped(state, facts, entries, plan, values);
            match planned(plan, values, path) {
                Some(value) => after.contains_key(path) && after[path] == values_diff(
                    tree_entry(facts[path].parent),
                    value,
                    state.style,
                    state.options,
                ),
                None => after.contains_key(path) == entries.contains_key(path) && (entries.contains_key(path)
                    ==> after[path] == entries[path]),
            }
        }),
    decreases plan.len(),
{
    if plan.len() > 0 {
        lemma_planned(state, facts, entries, plan.drop_last(), values, path);
    }
}

/// Before new renames and copies, the entries of a batch are those of a full diff.
proof fn lemma_settled(b: Batch)
    requires
        compares_alike(b),
    ensures
        forall|p: Seq<char>| #[trigger] settled(b).contains_key(p) ==> settled(b)[p] == recorded_stats(b, p),
{
    lemma_staged(b, b.changed.len() as int);
    assert(b.changed.take(b.changed.len() as int) =~= b.changed);
    let staged = staged_batch(b.state, b.facts, b.changed);
    assert forall|p: Seq<char>| #[trigger] settled(b).contains_key(p) implies settled(b)[p] == recorded_stats(b, p) by {
        lemma_planned(b.state, b.facts, staged.entries, plan_of(b), b.answers.values->0, p);
        if reshaped_value(b, p) is Some {
            lemma_shown(b, p);
        }
    }
}

// Renames and copies.

/// What pairing has done with a path: nothing, or it is taken out as a deleted file, or it
/// is renamed from a deleted one.
spec fn pairing_case(
    state: DiffStateView,
    facts: Map<Seq<char>, FactsView>,
    start: Map<Seq<char>, Option<FileStats>>,
    after: Map<Seq<char>, Option<FileStats>>,
    sources: Seq<Seq<char>>,
    path: Seq<char>,
) -> bool {
    ||| after.contains_key(path) == start.contains_key(path) && (start.contains_key(path) ==> after[path] == start[path])
    ||| after.contains_key(path) && after[path] is None && sources.contains(path)
    ||| after.contains_key(path) && exists|source: Seq<char>|
        after[path] == Some(#[trigger] rename_entry(diff_against(state, facts[source], facts[path].disk), source))
}

proof fn lemma_pairing_cases(
    state: DiffStateView,
    facts: Map<Seq<char>, FactsView>,
    start: Pairing,
    sources: Seq<Seq<char>>,
    path: Seq<char>,
)
    ensures
        pairing_case(
            state,
            facts,
            start.entries,
            paired_sources(state, facts, start, sources).entries,
            sources,
            path,
        ),
    decreases sources.len(),
{
    if sources.len() > 0 {
        let rest = sources.drop_last();
        let source = sources.last();
        lemma_pairing_cases(state, facts, start, rest, path);
        let before = paired_sources(state, facts, start, rest);
        let after = paired_source(state, facts, before, source);
        assert(sources[sources.len() - 1] == source);
        if rest.contains(path) {
            let i = choose|i: int| 0 <= i < rest.len() && rest[i] == path;
            assert(sources[i] == path);
        }
        match best_target(state, facts, source, before.free, before.free.len() as int) {
            None => {},
            Some(place) => {
                let target = before.free[place];
                if path == source {
                    assert(after.entries[path] is None);
                } else if path == target && after.entries != before.entries.insert(source, None) {
                    assert(after.entries[path] == Some(
                        rename_entry(diff_against(state, facts[source], facts[path].disk), source),
                    ));
                } else if after.entries.contains_key(path) && before.entries.contains_key(path) {
                    assert(after.entries[path] == before.entries[path]);
                }
            },
        }
    }
}

/// What the batch does with a path beyond its settled entry.
proof fn lemma_made_cases(b: Batch, path: Seq<char>)
    requires
        made(b).contains_key(path),
    ensures
        ({
            let kept = settled(b).contains_key(path) && made(b)[path] == settled(b)[path];
            let copied = exists|source: Seq<char>|
                made(b)[path] == Some(
                    #[trigger] rename_entry(diff_against(b.state, b.facts[source], b.facts[path].disk), source),
                );
            ||| kept && !is_taken_out(b, path)
            ||| is_taken_out(b, path) && made(b)[path] is None
            ||| copied
        }),
{
    let start = settled(b);
    let renamed = with_renames(b.state, b.facts, start);
    let free = rename_candidates(b.state, b.facts, start);
    let deleted = with_role(b.state, start, Role::Deleted);
    let sources = in_order(deleted);
    let first = Pairing { free, entries: start, dropped: Seq::empty() };
    if free.len() > 0 {
        lemma_pairing_cases(b.state, b.facts, first, sources, path);
    }
    let made_copies = copies(b.state, b.facts, renamed);
    if made_copies.contains_key(path) {
        let modified = in_order(with_role(b.state, renamed, Role::Modified));
        let source = copied_from(b.facts, modified, path, b.state.options)->0;
        assert(made(b)[path] == Some(
            rename_entry(diff_against(b.state, b.facts[source], b.facts[path].disk), source),
        ));
    } else {
        assert(renamed.contains_key(path) && made(b)[path] == renamed[path]);
        if start.contains_key(path) && renamed[path] == start[path] {
        } else if renamed[path] is None {
            assert(is_taken_out(b, path));
        }
    }
}

/// Of a path that a list of entries has once, the table has the stats of that entry; of
/// any other path it has nothing.
proof fn lemma_table(b: Batch, entries: Seq<DiffEntry>, path: Seq<char>)
    requires
        forall|i: int, j: int|
            0 <= i < j < entries.len() ==> (#[trigger] entries[i]).path@ != (#[trigger] entries[j]).path@,
    ensures
        ({
            let table = table_of(b, entries);
            &&& !has_entry(entries, path) ==> !table.contains_key(path)
            &&& forall|i: int|
                0 <= i < entries.len() && (#[trigger] entries[i]).path@ == path ==> match stats_of_entry(b, entries[i]@) {
                    Some(stats) => table.contains_key(path) && table[path] == stats,
                    None => !table.contains_key(path),
                }
        }),
    decreases entries.len(),
{
    if entries.len() > 0 {
        let rest = entries.drop_last();
        let last = entries.len() - 1;
        lemma_table(b, rest, path);
        assert(entries.last() == entries[last]);
        assert forall|i: int, j: int| 0 <= i < j < rest.len() implies (#[trigger] rest[i]).path@ != (
        #[trigger] rest[j]).path@ by {
            assert(rest[i] == entries[i] && rest[j] == entries[j]);
        }
        if has_entry(rest, path) {
            let i = choose|i: int| 0 <= i < rest.len() && (#[trigger] rest[i]).path@ == path;
            assert(entries[i].path@ == path);
            assert(entries[last].path@ != path);
        }
        assert forall|i: int| 0 <= i < entries.len() && (#[trigger] entries[i]).path@ == path implies match stats_of_entry(
            b,
            entries[i]@,
        ) {
            Some(stats) => table_of(b, entries).contains_key(path)
                && table_of(b, entries)[path] == stats,
            None => !table_of(b, entries).contains_key(path),
        } by {
            if i < last {
                assert(rest[i] == entries[i]);
                assert(entries[last].path@ != path);
            } else {
                assert(!has_entry(rest, path));
            }
        }
    }
}

/// The stats that the batch gives to a path are those of the path's entry in a full diff.
proof fn lemma_made(b: Batch, path: Seq<char>)
    requires
        compares_alike(b),
        made(b).contains_key(path),
    ensures
        made(b)[path] == (match full_entry(b, path) {
            Some(entry) => stats_of_entry(b, entry),
            None => None,
        }),
{
    lemma_settled(b);
    lemma_made_cases(b, path);
    lemma_plain_has_no_source(b, path);
    if newly_copied(b, path) {
        lemma_renamed(b, made(b)[path]->0.renamed_from->0, path);
    }
}

/// The diff after the batch and the table of a full diff agree on a path.
proof fn lemma_agree(b: Batch, entries: Seq<DiffEntry>, path: Seq<char>)
    requires
        compares_alike(b),
        is_full_diff(b, entries),
    ensures
        ({
            let table = table_of(b, entries);
            &&& resulting(b).contains_key(path) == table.contains_key(path)
            &&& table.contains_key(path) ==> resulting(b)[path] == table[path]
        }),
{
    lemma_table(b, entries, path);
    if made(b).contains_key(path) {
        lemma_made(b, path);
    }
    lemma_resulting(b, path);
    if has_entry(entries, path) {
        let i = choose|i: int| 0 <= i < entries.len() && (#[trigger] entries[i]).path@ == path;
        assert(entries[i]@.path == path);
    }
}

/// The diff after the batch has the batch's stats for its paths and the old ones for others.
proof fn lemma_resulting(b: Batch, path: Seq<char>)
    ensures
        made(b).contains_key(path) ==> (resulting(b).contains_key(path) == (made(b)[path] is Some)) && (made(b)[path]
            is Some ==> resulting(b)[path] == made(b)[path]->0),
        !made(b).contains_key(path) ==> (resulting(b).contains_key(path) == current(b).contains_key(path)) && (current(
            b,
        ).contains_key(path) ==> resulting(b)[path] == current(b)[path]),
{
    let batch = made(b);
    lemma_effective(b.state.base, b.state.overlay, batch, path);
}

proof fn lemma_effective(
    base: Map<Seq<char>, FileStats>,
    overlay: Map<Seq<char>, Option<FileStats>>,
    batch: Map<Seq<char>, Option<FileStats>>,
    path: Seq<char>,
)
    ensures
        ({
            let old_files = effective(base, overlay);
            let new_files = effective(base, overlay.union_prefer_right(batch));
            &&& batch.contains_key(path) ==> (new_files.contains_key(path) == (batch[path] is Some)) && (batch[path]
                is Some ==> new_files[path] == batch[path]->0)
            &&& !batch.contains_key(path) ==> (new_files.contains_key(path) == old_files.contains_key(path)) && (
            old_files.contains_key(path) ==> new_files[path] == old_files[path])
        }),
{
}

/// After a batch the diff is the one that a full diff gives after the next snapshot, and so
/// are its counts: whatever the batch was, as long as the disk and the snapshot read alike.
pub proof fn batch_equals_full_diff(b: Batch, entries: Seq<DiffEntry>)
    requires
        compares_alike(b),
        is_full_diff(b, entries),
    ensures
        resulting(b) == table_of(b, entries),
        counts_of(resulting(b)) == counts_of(table_of(b, entries)),
{
    let table = table_of(b, entries);
    let files = resulting(b);
    assert forall|p: Seq<char>| #![trigger files.contains_key(p)] #![trigger table.contains_key(p)] files.contains_key(p)
        == table.contains_key(p) && (table.contains_key(p) ==> files[p] == table[p]) by {
        lemma_agree(b, entries, p);
    }
    assert(files =~= table);
}

/// Where the full diff says what the diff said before, as on a disk that has not changed, a
/// batch changes no file of the diff and no count, whatever paths it names.
pub proof fn batch_over_an_unchanged_disk_changes_nothing(b: Batch, entries: Seq<DiffEntry>)
    requires
        compares_alike(b),
        is_full_diff(b, entries),
        table_of(b, entries) == current(b),
    ensures
        resulting(b) == current(b),
        counts_of(resulting(b)) == counts_of(current(b)),
{
    batch_equals_full_diff(b, entries);
}

/// What a full diff said before a batch of a list: after the one before it.
pub open spec fn table_before(
    start: Map<Seq<char>, FileStats>,
    batches: Seq<Batch>,
    full: Seq<Seq<DiffEntry>>,
    place: int,
) -> Map<Seq<char>, FileStats> {
    if place == 0 {
        start
    } else {
        table_of(batches[place - 1], full[place - 1])
    }
}

/// Whether a batch takes up the overlay where the one before it has left it.
pub open spec fn takes_up(before: Batch, b: Batch) -> bool {
    b.state.base == before.state.base && b.state.overlay == before.state.overlay.union_prefer_right(made(before))
}

/// Whether a batch of a list reads what a full diff reads, and the full diff after it
/// differs from the one before it in the paths of the batch alone.
pub open spec fn keeps_up(
    start: Map<Seq<char>, FileStats>,
    batches: Seq<Batch>,
    full: Seq<Seq<DiffEntry>>,
    place: int,
) -> bool {
    &&& compares_alike(batches[place])
    &&& follows_full_diff(table_before(start, batches, full, place), batches[place], full[place])
    &&& place > 0 ==> takes_up(batches[place - 1], batches[place])
}

/// Over any number of batches, each of which takes up the overlay where the one before left
/// it, the diff keeps up with the full diff: where it was the full diff at the start, and
/// every path that changed on disk is among those of a batch, it is the full diff after each
/// batch.
pub proof fn batches_keep_up_with_the_full_diff(
    start: Map<Seq<char>, FileStats>,
    batches: Seq<Batch>,
    full: Seq<Seq<DiffEntry>>,
    n: int,
)
    requires
        full.len() == batches.len(),
        0 <= n < batches.len(),
        start == current(batches[0]),
        forall|i: int| 0 <= i < batches.len() ==> #[trigger] keeps_up(start, batches, full, i),
    ensures
        resulting(batches[n]) == table_of(batches[n], full[n]),
        counts_of(resulting(batches[n])) == counts_of(table_of(batches[n], full[n])),
    decreases n,
{
    assert(keeps_up(start, batches, full, n));
    if n > 0 {
        batches_keep_up_with_the_full_diff(start, batches, full, n - 1);
        lemma_taken_up(batches[n - 1], batches[n]);
    }
    lemma_followed(table_before(start, batches, full, n), batches[n], full[n]);
}

proof fn lemma_taken_up(before: Batch, b: Batch)
    requires
        takes_up(before, b),
    ensures
        current(b) == resulting(before),
{
}

proof fn lemma_followed(before: Map<Seq<char>, FileStats>, b: Batch, entries: Seq<DiffEntry>)
    requires
        before == current(b),
        compares_alike(b),
        follows_full_diff(before, b, entries),
    ensures
        resulting(b) == table_of(b, entries),
{
    batch_equals_full_diff(b, entries);
}

/// The sources whose delete is dropped after the batch.
pub open spec fn dropped_after(b: Batch) -> Seq<Seq<char>> {
    batch_dropped(b.state, b.changed, b.facts, b.answers)
}

/// Whether no two files of a diff are left to pair: no deleted file with one that may have
/// been renamed from it, no added file with one that it may have been copied from. So it is
/// after a full diff, which has them as renamed and copied already.
pub open spec fn is_fully_paired(state: DiffStateView, facts: Map<Seq<char>, FactsView>) -> bool {
    let none = Map::<Seq<char>, Option<FileStats>>::empty();
    let sources = in_order(with_role(state, none, Role::Deleted));
    let targets = rename_candidates(state, facts, none);
    let modified = in_order(with_role(state, none, Role::Modified));
    &&& forall|i: int, j: int|
        0 <= i < sources.len() && 0 <= j < targets.len() ==> rename_records(
            state,
            facts[#[trigger] sources[i]],
            facts[#[trigger] targets[j]],
        ) == 0
    &&& forall|path: Seq<char>| #[trigger]
        with_role(state, none, Role::Added).contains(path) ==> copied_from(facts, modified, path, state.options) is None
}

proof fn lemma_no_target(
    state: DiffStateView,
    facts: Map<Seq<char>, FactsView>,
    source: Seq<char>,
    targets: Seq<Seq<char>>,
    n: int,
)
    requires
        0 <= n <= targets.len(),
        forall|j: int|
            0 <= j < targets.len() ==> rename_records(state, facts[source], facts[#[trigger] targets[j]]) == 0,
    ensures
        best_target(state, facts, source, targets, n) is None,
    decreases n,
{
    if n > 0 {
        lemma_no_target(state, facts, source, targets, n - 1);
        assert(rename_records(state, facts[source], facts[targets[n - 1]]) == 0);
    }
}

proof fn lemma_nothing_paired(
    state: DiffStateView,
    facts: Map<Seq<char>, FactsView>,
    start: Pairing,
    sources: Seq<Seq<char>>,
)
    requires
        forall|i: int, j: int|
            0 <= i < sources.len() && 0 <= j < start.free.len() ==> rename_records(
                state,
                facts[#[trigger] sources[i]],
                facts[#[trigger] start.free[j]],
            ) == 0,
    ensures
        paired_sources(state, facts, start, sources) == start,
    decreases sources.len(),
{
    if sources.len() > 0 {
        let rest = sources.drop_last();
        assert forall|i: int, j: int| 0 <= i < rest.len() && 0 <= j < start.free.len() implies rename_records(
            state,
            facts[#[trigger] rest[i]],
            facts[#[trigger] start.free[j]],
        ) == 0 by {
            assert(rest[i] == sources[i]);
        }
        lemma_nothing_paired(state, facts, start, rest);
        assert(sources.last() == sources[sources.len() - 1]);
        lemma_no_target(state, facts, sources.last(), start.free, start.free.len() as int);
    }
}

/// A batch without paths, over a diff in which nothing is left to pair, changes nothing.
pub proof fn empty_batch_changes_nothing(b: Batch)
    requires
        b.changed.len() == 0,
        is_fully_paired(b.state, b.facts),
    ensures
        made(b) == Map::<Seq<char>, Option<FileStats>>::empty(),
        resulting(b) == current(b),
        dropped_after(b) == b.state.dropped,
{
    let none = Map::<Seq<char>, Option<FileStats>>::empty();
    assert(settled(b) == none);
    let start = Pairing { free: rename_candidates(b.state, b.facts, none), entries: none, dropped: Seq::empty() };
    lemma_nothing_paired(b.state, b.facts, start, in_order(with_role(b.state, none, Role::Deleted)));
    assert(with_renames(b.state, b.facts, none) == none);
    assert(copies(b.state, b.facts, none) =~= none);
    assert(made(b) =~= none);
    assert(b.state.overlay.union_prefer_right(none) =~= b.state.overlay);
    lemma_not_staged(b.state.dropped);
    assert(dropped_after(b) =~= b.state.dropped);
}

proof fn lemma_not_staged(list: Seq<Seq<char>>)
    ensures
        not_staged(list, Map::<Seq<char>, Option<FileStats>>::empty()) == list,
    decreases list.len(),
{
    if list.len() > 0 {
        lemma_not_staged(list.drop_last());
        assert(list.drop_last().push(list.last()) =~= list);
    } else {
        assert(list =~= Seq::empty());
    }
}

/// A file, a symlink or nothing: no conflict, no submodule, and content that can be read.
pub open spec fn is_ordinary(value: MaterializedView) -> bool {
    match value {
        MaterializedView::Absent => true,
        MaterializedView::File { content, executable } => content is Some,
        MaterializedView::Symlink { target } => true,
        _ => false,
    }
}

/// A path that is in no conflict and, where it is untracked, is not ignored.
pub open spec fn is_ordinary_path(b: Batch, path: Seq<char>) -> bool {
    let f = b.facts[path];
    &&& f.parent.raw is Some
    &&& f.parent.value is Some
    &&& is_ordinary(f.parent.value->0)
    &&& f.parent_labeled == f.parent.value
    &&& !(tree_entry(f.commit).value is Conflict)
    &&& tree_entry(f.commit).value is Absent && f.disk is Some ==> f.not_ignored
    &&& is_ordinary(b.after[path])
    &&& snapshot_value(b.after[path]) == next_value(b.state, f, f.not_ignored).value
}

/// Without conflicts and recorded renames, a batch of files, symlinks and paths that are
/// gone compares what a full diff compares: nothing more is asked of it.
pub proof fn ordinary_batches_compare_alike(b: Batch)
    requires
        b.state.conflicted.len() == 0,
        forall|p: Seq<char>| #[trigger] b.state.base.contains_key(p) ==> b.state.base[p].renamed_from is None,
        forall|p: Seq<char>|
            #[trigger] b.state.overlay.contains_key(p) && b.state.overlay[p] is Some
                ==> b.state.overlay[p]->0.renamed_from is None,
        forall|i: int| 0 <= i < b.changed.len() ==> is_ordinary_path(b, #[trigger] b.changed[i]),
        forall|p: Seq<char>| #[trigger]
            newly_copied(b, p) ==> is_ordinary_path(b, p) && is_ordinary_path(b, made(b)[p]->0.renamed_from->0),
    ensures
        compares_alike(b),
{
    assert forall|p: Seq<char>| targets_of(b.state, p) =~= Set::<Seq<char>>::empty() by {}
    assert forall|i: int| 0 <= i < b.changed.len() implies is_clear(b, #[trigger] b.changed[i]) by {
        assert(is_ordinary_path(b, b.changed[i]));
        assert(targets_of(b.state, b.changed[i]) == Set::<Seq<char>>::empty());
    }
}

} // verus!
