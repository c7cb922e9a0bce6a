//! What a batch of changed paths comes to, from what is on disk to the counts.

use crate::aggregate::{counts_of, effective};
use crate::copies::{copies, with_copies};
use crate::facts::FactsView;
use crate::incremental::{batch_entries, settled_entries, AnswersView};
use crate::laws::changes::{changed_path_counts_against_the_parent, each_changed_path_is_staged, found};
use crate::laws::counts::one_more_file_counts_one;
use crate::laws::renames::{is_new_and_old, is_text, lone_copy_is_found, lone_pair_becomes_one_rename};
use crate::linediff::{left_text, line_diff};
use crate::pairing::{with_renames, with_role, Role};
use crate::similarity::to_single;
use crate::staging::{own_entry, staged_batch, DiffStateView};
use crate::stats::{stats_for_contents, FileChangeKind, FileStats};
use crate::wc::MaterializedView;
use vstd::prelude::*;

verus! {

/// Nothing has changed yet, there is one parent, and nothing is in conflict.
pub open spec fn is_unchanged(state: DiffStateView) -> bool {
    &&& state.base == Map::<Seq<char>, FileStats>::empty()
    &&& state.overlay == Map::<Seq<char>, Option<FileStats>>::empty()
    &&& state.parents == 1
    &&& state.conflicted.len() == 0
}

proof fn lemma_two_staged(
    state: DiffStateView,
    facts: Map<Seq<char>, FactsView>,
    answers: AnswersView,
    a: Seq<char>,
    b: Seq<char>,
)
    requires
        is_unchanged(state),
        a != b,
        facts[a].valid && facts[b].valid,
    ensures
        settled_entries(state, seq![a, b], facts, answers) == map![
            a => own_entry(state, facts, a),
            b => own_entry(state, facts, b),
        ],
{
    let changed = seq![a, b];
    let entries = staged_batch(state, facts, changed).entries;
    assert(changed[0] == a && changed[1] == b);
    assert forall|p: Seq<char>| #[trigger] entries.contains_key(p) <==> p == a || p == b by {
        each_changed_path_is_staged(state, facts, changed, p);
        if changed.contains(p) {
            let k = choose|k: int| 0 <= k < changed.len() && changed[k] == p;
        }
    }
    each_changed_path_is_staged(state, facts, changed, a);
    each_changed_path_is_staged(state, facts, changed, b);
    assert(entries =~= map![a => own_entry(state, facts, a), b => own_entry(state, facts, b)]);
}

/// A text file that was moved, and changed on the way, is one renamed file with the lines
/// that changed where the two contents are alike by half, whichever is longer, and a deleted
/// and an added one with all their lines where they are not.
pub proof fn moved_file_is_one_rename(
    state: DiffStateView,
    facts: Map<Seq<char>, FactsView>,
    answers: AnswersView,
    source: Seq<char>,
    target: Seq<char>,
    content: Seq<u8>,
    executable: bool,
    commit: Option<(Seq<u8>, bool)>,
    disk: Seq<u8>,
)
    requires
        is_unchanged(state),
        source != target,
        is_new_and_old(facts[source], facts[target], content, disk),
        found(facts[source].parent, Some((content, executable))),
        facts[source].parents[0].value == Some(MaterializedView::File { content: Some(content), executable }),
        facts[source].parent_labeled == Some(MaterializedView::File { content: Some(content), executable }),
        found(facts[source].commit, commit),
        facts[source].disk is None,
        found(facts[target].parent, None),
        facts[target].not_ignored,
    ensures
        ({
            let made = batch_entries(state, seq![source, target], facts, answers);
            let files = effective(state.base, state.overlay.union_prefer_right(made));
            let kept = content.len() - left_text(
                line_diff(content, disk).filter(|h: (bool, Seq<u8>, Seq<u8>)| h.0),
            ).len();
            let larger = if content.len() >= disk.len() {
                content.len()
            } else {
                disk.len()
            };
            if content == disk || 2 * to_single(kept as nat) >= to_single(larger) {
                &&& files.dom() == set![target]
                &&& files[target].kind == FileChangeKind::Modified
                &&& files[target].renamed_from == Some(source)
                &&& content == disk ==> files[target].lines_added == 0 && files[target].lines_removed == 0
                &&& content != disk ==> {
                    let changed = stats_for_contents(Some(content), Some(disk))->0;
                    files[target].lines_added == changed.lines_added && files[target].lines_removed
                        == changed.lines_removed
                }
                &&& counts_of(files).file_mad_count == 1
                &&& counts_of(files).files_modified == 1
            } else {
                &&& files.dom() == set![source, target]
                &&& files[source] == stats_for_contents(Some(content), None)->0
                &&& files[target] == stats_for_contents(None, Some(disk))->0
                &&& counts_of(files).file_mad_count == 2
            }
        }),
{
    let changed = seq![source, target];
    lemma_two_staged(state, facts, answers, source, target);
    changed_path_counts_against_the_parent(state, facts, source, Some((content, executable)), commit);
    changed_path_counts_against_the_parent(state, facts, target, None, None);
    let gone = stats_for_contents(Some(content), None);
    let came = stats_for_contents(None, Some(disk));
    let entries = map![source => gone, target => came];
    assert(settled_entries(state, changed, facts, answers) == entries);
    lemma_moved(state, facts, entries, source, target, content, disk);
    let made = with_renames(state, facts, entries);
    assert(batch_entries(state, changed, facts, answers) == made);
    lemma_files_of_two(state, made, source, target);
}

proof fn lemma_moved(
    state: DiffStateView,
    facts: Map<Seq<char>, FactsView>,
    entries: Map<Seq<char>, Option<FileStats>>,
    source: Seq<char>,
    target: Seq<char>,
    content: Seq<u8>,
    disk: Seq<u8>,
)
    requires
        is_unchanged(state),
        source != target,
        is_new_and_old(facts[source], facts[target], content, disk),
        facts[source].parent_labeled == facts[source].parents[0].value,
        entries == map![
            source => stats_for_contents(Some(content), None),
            target => stats_for_contents(None, Some(disk)),
        ],
    ensures
        ({
            let after = with_renames(state, facts, entries);
            let kept = content.len() - left_text(
                line_diff(content, disk).filter(|h: (bool, Seq<u8>, Seq<u8>)| h.0),
            ).len();
            let larger = if content.len() >= disk.len() {
                content.len()
            } else {
                disk.len()
            };
            &&& with_copies(state, facts, after) == after
            &&& after.dom() == set![source, target]
            &&& if content == disk || 2 * to_single(kept as nat) >= to_single(larger) {
                &&& after[source] is None
                &&& after[target] is Some
                &&& after[target]->0.kind == FileChangeKind::Modified
                &&& after[target]->0.renamed_from == Some(source)
                &&& content == disk ==> after[target]->0.lines_added == 0 && after[target]->0.lines_removed == 0
                &&& content != disk ==> {
                    let changed = stats_for_contents(Some(content), Some(disk))->0;
                    after[target]->0.lines_added == changed.lines_added && after[target]->0.lines_removed
                        == changed.lines_removed
                }
            } else {
                after == entries
            }
        }),
{
    let staged = effective(state.base, state.overlay.union_prefer_right(entries));
    assert(staged.contains_key(source) && staged.contains_key(target));
    assert forall|p: Seq<char>| #[trigger] staged.contains_key(p) && p != source && p != target implies staged[p].kind
        == FileChangeKind::Modified by {
        assert(!entries.contains_key(p));
    }
    lone_pair_becomes_one_rename(state, facts, entries, source, target, content, disk);
    let after = with_renames(state, facts, entries);
    assert forall|p: Seq<char>| #[trigger] after.contains_key(p) <==> p == source || p == target by {
        assert(entries.contains_key(p) <==> p == source || p == target);
    }
    assert(after.dom() =~= set![source, target]);
    lemma_no_copies(state, facts, after, source, target);
}

proof fn lemma_files_of_two(
    state: DiffStateView,
    made: Map<Seq<char>, Option<FileStats>>,
    a: Seq<char>,
    b: Seq<char>,
)
    requires
        is_unchanged(state),
        a != b,
        made.dom() == set![a, b],
        made[a] is Some ==> made[a]->0.kind != FileChangeKind::Untracked,
        made[b] is Some && made[b]->0.kind != FileChangeKind::Untracked,
    ensures
        ({
            let files = effective(state.base, state.overlay.union_prefer_right(made));
            &&& files[b] == made[b]->0
            &&& made[a] is None ==> files.dom() == set![b] && counts_of(files).file_mad_count == 1 && (made[b]->0.kind
                == FileChangeKind::Modified ==> counts_of(files).files_modified == 1)
            &&& made[a] is Some ==> files.dom() == set![a, b] && files[a] == made[a]->0
                && counts_of(files).file_mad_count == 2
        }),
{
    let files = effective(state.base, state.overlay.union_prefer_right(made));
    let nothing = Map::<Seq<char>, FileStats>::empty();
    assert(made.contains_key(a) && made.contains_key(b));
    assert forall|p: Seq<char>| #[trigger] files.contains_key(p) <==> (p == a && made[a] is Some) || p == b by {
        assert(made.contains_key(p) <==> p == a || p == b);
    }
    if made[a] is None {
        assert(files.dom() =~= set![b]);
        one_more_file_counts_one(nothing, b, files[b]);
        assert(files =~= nothing.insert(b, files[b]));
    } else {
        assert(files.dom() =~= set![a, b]);
        let one = nothing.insert(a, files[a]);
        one_more_file_counts_one(nothing, a, files[a]);
        one_more_file_counts_one(one, b, files[b]);
        assert(files =~= one.insert(b, files[b]));
    }
}

proof fn lemma_no_copies(
    state: DiffStateView,
    facts: Map<Seq<char>, FactsView>,
    entries: Map<Seq<char>, Option<FileStats>>,
    source: Seq<char>,
    target: Seq<char>,
)
    requires
        is_unchanged(state),
        entries.contains_key(source) && entries.contains_key(target),
        forall|p: Seq<char>| #[trigger] entries.contains_key(p) ==> p == source || p == target,
        entries[source] is None || entries[source]->0.kind == FileChangeKind::Deleted,
        entries[target] is Some && (entries[target]->0.kind == FileChangeKind::Added
            || entries[target]->0.renamed_from is Some),
    ensures
        with_copies(state, facts, entries) == entries,
{
    let modified = with_role(state, entries, Role::Modified);
    assert(modified =~= Set::<Seq<char>>::empty());
    crate::laws::paths::every_member_is_listed(modified, source);
    let sources = crate::strings::in_order(modified);
    assert(sources.len() == 0);
    assert(copies(state, facts, entries) =~= Map::<Seq<char>, Option<FileStats>>::empty()) by {
        assert forall|p: Seq<char>| !copies(state, facts, entries).contains_key(p) by {
            assert(crate::copies::best_copy_source(facts, sources, facts[p], state.options, 0) is None);
        }
    }
    assert(with_copies(state, facts, entries) =~= entries);
}

/// A new text file beside a modified one is a copy of it where the two are alike by half as
/// they are now; the modified file keeps its own entry. Where they are not, it is added with
/// all its lines.
pub proof fn copied_file_is_a_copy(
    state: DiffStateView,
    facts: Map<Seq<char>, FactsView>,
    answers: AnswersView,
    source: Seq<char>,
    target: Seq<char>,
    content: Seq<u8>,
    executable: bool,
    now: Seq<u8>,
    disk: Seq<u8>,
)
    requires
        is_unchanged(state),
        source != target,
        facts[source].valid && facts[target].valid,
        facts[source].parents.len() == 1 && facts[target].parents.len() == 1,
        found(facts[source].parents[0], Some((content, executable))),
        found(facts[source].parent, Some((content, executable))),
        found(facts[source].commit, Some((content, executable))),
        facts[source].disk == Some(now),
        found(facts[target].parents[0], None),
        found(facts[target].parent, None),
        found(facts[target].commit, None),
        facts[target].not_ignored,
        facts[target].disk == Some(disk),
        is_text(content) && is_text(now) && is_text(disk),
        content != now,
        left_text(line_diff(now, disk)) == now,
    ensures
        ({
            let made = batch_entries(state, seq![source, target], facts, answers);
            let files = effective(state.base, state.overlay.union_prefer_right(made));
            let kept = now.len() - left_text(line_diff(now, disk).filter(|h: (bool, Seq<u8>, Seq<u8>)| h.0)).len();
            let larger = if now.len() >= disk.len() {
                now.len()
            } else {
                disk.len()
            };
            &&& files.dom() == set![source, target]
            &&& files[source] == stats_for_contents(Some(content), Some(now))->0
            &&& if now == disk || 2 * to_single(kept as nat) >= to_single(larger) {
                files[target].kind == FileChangeKind::Modified && files[target].renamed_from == Some(source)
            } else {
                files[target] == stats_for_contents(None, Some(disk))->0
            }
        }),
{
    let changed = seq![source, target];
    lemma_two_staged(state, facts, answers, source, target);
    changed_path_counts_against_the_parent(
        state,
        facts,
        source,
        Some((content, executable)),
        Some((content, executable)),
    );
    changed_path_counts_against_the_parent(state, facts, target, None, None);
    let entries = settled_entries(state, changed, facts, answers);
    let staged = effective(state.base, state.overlay.union_prefer_right(entries));
    assert(staged.dom() =~= set![source, target]);
    let deleted = with_role(state, entries, Role::Deleted);
    assert(deleted =~= Set::<Seq<char>>::empty());
    crate::laws::paths::every_member_is_listed(deleted, source);
    assert(with_renames(state, facts, entries) == entries);
    lone_copy_is_found(state, facts, entries, source, target, now, disk);
    let made = batch_entries(state, changed, facts, answers);
    let files = effective(state.base, state.overlay.union_prefer_right(made));
    assert(entries.contains_key(source) && entries.contains_key(target));
    assert forall|p: Seq<char>| #[trigger] made.contains_key(p) implies p == source || p == target by {
        if p != target {
            assert(entries.contains_key(p));
        }
    }
    assert(made.contains_key(source));
    assert(files.dom() =~= set![source, target]);
}

/// One changed path alone changes the diff in that path alone, by the parent's file and the
/// one on disk, where there are no other files to pair it with.
pub proof fn lone_change_is_one_entry(
    state: DiffStateView,
    facts: Map<Seq<char>, FactsView>,
    answers: AnswersView,
    path: Seq<char>,
    parent: Option<(Seq<u8>, bool)>,
    commit: Option<(Seq<u8>, bool)>,
)
    requires
        is_unchanged(state),
        facts[path].valid,
        found(facts[path].parent, parent),
        found(facts[path].commit, commit),
    ensures
        ({
            let f = facts[path];
            let made = batch_entries(state, seq![path], facts, answers);
            let files = effective(state.base, state.overlay.union_prefer_right(made));
            let there = f.disk is Some && (commit is Some || f.not_ignored);
            let as_it_was = if there {
                parent == Some((f.disk->0, f.executable))
            } else {
                parent is None
            };
            &&& made.dom() == set![path]
            &&& as_it_was ==> files.dom() == Set::<Seq<char>>::empty() && counts_of(files).file_mad_count == 0
            &&& !as_it_was ==> files.dom() == set![path] && counts_of(files).file_mad_count == 1
            &&& !as_it_was && !there ==> files[path] == stats_for_contents(Some((parent->0).0), None)->0
            &&& !as_it_was && there && parent is None ==> files[path] == stats_for_contents(None, f.disk)->0
            &&& !as_it_was && there && parent is Some && (parent->0).0 != f.disk->0 ==> files[path]
                == stats_for_contents(Some((parent->0).0), f.disk)->0
            &&& !as_it_was ==> counts_of(files).lines_added == files[path].lines_added && counts_of(files).lines_removed
                == files[path].lines_removed
        }),
{
    changed_path_counts_against_the_parent(state, facts, path, parent, commit);
    let changed = seq![path];
    let entries = settled_entries(state, changed, facts, answers);
    let own = own_entry(state, facts, path);
    assert(changed[0] == path);
    assert forall|p: Seq<char>| #[trigger] entries.contains_key(p) <==> p == path by {
        each_changed_path_is_staged(state, facts, changed, p);
        if changed.contains(p) {
            let k = choose|k: int| 0 <= k < changed.len() && changed[k] == p;
        }
    }
    each_changed_path_is_staged(state, facts, changed, path);
    assert(entries =~= map![path => own]);
    assert(entries.dom() =~= set![path]);
    lemma_one_pairs_with_none(state, facts, entries, path);
    let made = batch_entries(state, changed, facts, answers);
    assert(made == entries);
    lemma_files_of_one(state, made, path);
}

proof fn lemma_files_of_one(state: DiffStateView, made: Map<Seq<char>, Option<FileStats>>, path: Seq<char>)
    requires
        is_unchanged(state),
        made.dom() == set![path],
        made[path] is Some ==> made[path]->0.kind != FileChangeKind::Untracked,
    ensures
        ({
            let files = effective(state.base, state.overlay.union_prefer_right(made));
            &&& made[path] is None ==> files.dom() == Set::<Seq<char>>::empty() && counts_of(files).file_mad_count == 0
            &&& made[path] is Some ==> files.dom() == set![path] && files[path] == made[path]->0
                && counts_of(files).file_mad_count == 1 && counts_of(files).lines_added == files[path].lines_added
                && counts_of(files).lines_removed == files[path].lines_removed
        }),
{
    let files = effective(state.base, state.overlay.union_prefer_right(made));
    let nothing = Map::<Seq<char>, FileStats>::empty();
    assert(made.contains_key(path));
    assert forall|p: Seq<char>| #[trigger] files.contains_key(p) <==> p == path && made[path] is Some by {
        assert(made.contains_key(p) <==> p == path);
    }
    one_more_file_counts_one(nothing, path, files[path]);
    if made[path] is Some {
        assert(files.dom() =~= set![path]);
        assert(files =~= nothing.insert(path, files[path]));
    } else {
        assert(files.dom() =~= Set::<Seq<char>>::empty());
        assert(files =~= nothing);
    }
}

proof fn lemma_one_pairs_with_none(
    state: DiffStateView,
    facts: Map<Seq<char>, FactsView>,
    entries: Map<Seq<char>, Option<FileStats>>,
    path: Seq<char>,
)
    requires
        is_unchanged(state),
        entries.dom() == set![path],
    ensures
        with_copies(state, facts, with_renames(state, facts, entries)) == entries,
{
    let files = effective(state.base, state.overlay.union_prefer_right(entries));
    assert(files.dom().subset_of(set![path]));
    vstd::set_lib::lemma_len_subset(files.dom(), set![path]);
    let deleted = with_role(state, entries, Role::Deleted);
    let arrived = with_role(state, entries, Role::Arrived);
    let added = with_role(state, entries, Role::Added);
    let modified = with_role(state, entries, Role::Modified);
    let set = arrived.filter(|p: Seq<char>| crate::facts::has_content(facts[p], state.options));
    assert(with_renames(state, facts, entries) == entries) by {
        if deleted.contains(path) {
            assert(set =~= Set::<Seq<char>>::empty());
            crate::laws::paths::every_member_is_listed(set, path);
        } else {
            assert(deleted =~= Set::<Seq<char>>::empty());
            crate::laws::paths::every_member_is_listed(deleted, path);
        }
    }
    if added.contains(path) {
        assert(modified =~= Set::<Seq<char>>::empty());
        crate::laws::paths::every_member_is_listed(modified, path);
    }
    let sources = crate::strings::in_order(modified);
    assert(copies(state, facts, entries) =~= Map::<Seq<char>, Option<FileStats>>::empty()) by {
        assert forall|p: Seq<char>| !copies(state, facts, entries).contains_key(p) by {
            if added.contains(p) {
                assert(p == path);
                assert(crate::copies::best_copy_source(facts, sources, facts[p], state.options, 0) is None);
            }
        }
    }
    assert(with_copies(state, facts, entries) =~= entries);
}

} // verus!
