//! A batch of changed paths, from the first look at it to the new overlay.
//!
//! What the store and the disk say of a path is asked for when it is needed: each step
//! either gets on or says what is missing.

use crate::conflicts::{simplified_terms, ConflictMarkerStyle, MergeOptions, TreeTermView};
use crate::copies::{
    best_copy_source, likeness, may_be_copy, missing_for_copies, missing_for_renames, missing_for_reshape,
    needed_for_copies, pair_copies, with_copies,
};
use crate::facts::{tree_entry, FactsView, PathFacts};
use crate::pairing::{
    best_target, dropped_sources, needed_for_renames, pair_renames, paired_source, rename_records, rename_score,
    with_renames, Pairing,
};
use crate::repo_state::{entry_stats, DiffEntryView};
use crate::reshape::{
    differing_ok, differing_view, may_reshape, plan_reshape, plan_view, reshape_plan, reshaped,
    stage_reshaped, values_view, with_reshaped, Projection,
};
use crate::staging::{
    all_facts_ok, lemma_views_push, lookup_path, missing_for_changed, needed_for, needed_for_all, next_value, own_entry,
    premise, stage_changed, staged_batch, targets_of, DiffState, DiffStateView, Staging, StagingView,
};
use crate::stats::{FileDiffStats, FileStats};
use crate::strings::views;
use crate::table::FileTable;
use crate::wc::{
    content_of, materialized_ok, same_value, snapshot_value, value_text, MaterializedValue, MaterializedView,
};
use vstd::prelude::*;

verus! {

/// How far a batch has come.
pub enum Progress {
    /// Nothing is done yet.
    Start,
    /// The changed paths are staged.
    Staged(Staging),
    /// Conflicted paths get new stored values, which must be materialized without labels.
    Reshaping(Staging, Vec<Projection>),
    /// Conflicted paths are staged too.
    Settled(Staging),
    /// Renames are worked in.
    Paired(Staging),
    /// The overlay is up to date.
    Done,
}

/// What must be known before a batch can go on.
pub enum Need {
    /// Nothing.
    Nothing,
    /// The facts of paths.
    Facts(Vec<String>),
    /// For each two terms of the merge of root trees, paths where they differ: all of
    /// them, or more than the given number.
    Differing(usize),
    /// The materialized values of the reshaped paths.
    Values,
}

/// How far a batch has come, and with what.
pub enum ProgressView {
    Start,
    Staged(StagingView),
    Reshaping(StagingView, Seq<(Seq<char>, Seq<Option<TreeTermView>>)>),
    Settled(StagingView),
    Paired(StagingView),
    Done,
}

impl View for Progress {
    type V = ProgressView;

    open spec fn view(&self) -> ProgressView {
        match *self {
            Progress::Start => ProgressView::Start,
            Progress::Staged(staging) => ProgressView::Staged(staging@),
            Progress::Reshaping(staging, plan) => ProgressView::Reshaping(staging@, plan_view(plan@)),
            Progress::Settled(staging) => ProgressView::Settled(staging@),
            Progress::Paired(staging) => ProgressView::Paired(staging@),
            Progress::Done => ProgressView::Done,
        }
    }
}

impl Progress {
    /// The staged tables are in shape, and the facts of the reshaped paths are there.
    pub open spec fn wf(&self, facts: Map<Seq<char>, FactsView>) -> bool {
        match *self {
            Progress::Start => true,
            Progress::Staged(staging) => staging.wf(),
            Progress::Reshaping(staging, plan) => staging.wf() && forall|i: int|
                0 <= i < plan@.len() ==> facts.contains_key((#[trigger] plan@[i]).path@),
            Progress::Settled(staging) => staging.wf(),
            Progress::Paired(staging) => staging.wf(),
            Progress::Done => true,
        }
    }
}

/// What has been found out of the merge of root trees and of the reshaped paths.
pub struct Answers {
    /// For each two terms, paths where they differ.
    pub differing: Option<Vec<Vec<Vec<String>>>>,
    /// The materialized values of the reshaped paths, in the order of the plan.
    pub values: Option<Vec<Option<MaterializedValue>>>,
}

/// What the answers say.
pub struct AnswersView {
    pub differing: Option<Seq<Seq<Seq<Seq<char>>>>>,
    pub values: Option<Seq<Option<MaterializedView>>>,
}

impl View for Answers {
    type V = AnswersView;

    open spec fn view(&self) -> AnswersView {
        AnswersView {
            differing: match self.differing {
                Some(differing) => Some(differing_view(differing@)),
                None => None,
            },
            values: match self.values {
                Some(values) => Some(values_view(values@)),
                None => None,
            },
        }
    }
}

/// The answers are in shape: one for each two terms, one for each reshaped path.
pub open spec fn answers_ok(state: DiffStateView, progress: ProgressView, answers: AnswersView) -> bool {
    &&& answers.differing is Some ==> differing_ok(answers.differing->0, state.terms.len() as int)
    &&& answers.values is Some ==> forall|i: int|
        0 <= i < answers.values->0.len() ==> ((#[trigger] answers.values->0[i]) is Some ==> materialized_ok(
            answers.values->0[i]->0,
        ))
    &&& progress is Reshaping && answers.values is Some ==> answers.values->0.len() == progress->Reshaping_1.len()
}

/// The facts of every path of the set are there.
pub open spec fn all_there(facts: Map<Seq<char>, FactsView>, paths: Set<Seq<char>>) -> bool {
    paths.subset_of(facts.dom())
}

/// Where a batch gets to in one step. It stays where it is as long as something is
/// missing.
pub open spec fn next_progress(
    state: DiffStateView,
    changed: Seq<Seq<char>>,
    facts: Map<Seq<char>, FactsView>,
    answers: AnswersView,
    progress: ProgressView,
) -> ProgressView {
    match progress {
        ProgressView::Start => if all_there(facts, needed_for_all(state, changed)) {
            ProgressView::Staged(staged_batch(state, facts, changed))
        } else {
            progress
        },
        ProgressView::Staged(staging) => if !may_reshape(state, staging) {
            ProgressView::Settled(staging)
        } else if !all_there(facts, state.conflicted.to_set()) || answers.differing is None {
            progress
        } else {
            ProgressView::Reshaping(staging, reshape_plan(state, facts, staging, answers.differing->0))
        },
        ProgressView::Reshaping(staging, plan) => if plan.len() == 0 {
            ProgressView::Settled(staging)
        } else if answers.values is None {
            progress
        } else {
            ProgressView::Settled(
                StagingView {
                    entries: with_reshaped(state, facts, staging.entries, plan, answers.values->0),
                    ..staging
                },
            )
        },
        ProgressView::Settled(staging) => if all_there(facts, needed_for_renames(state, staging.entries)) {
            ProgressView::Paired(
                StagingView {
                    entries: with_renames(state, facts, staging.entries),
                    dropped: dropped_sources(state, facts, staging.entries),
                    ..staging
                },
            )
        } else {
            progress
        },
        ProgressView::Paired(staging) => if all_there(facts, needed_for_copies(state, staging.entries)) {
            ProgressView::Done
        } else {
            progress
        },
        ProgressView::Done => ProgressView::Done,
    }
}

/// The overlay after a step: the last step puts the staged entries in, with copies
/// worked in.
pub open spec fn next_overlay(
    state: DiffStateView,
    facts: Map<Seq<char>, FactsView>,
    progress: ProgressView,
) -> Map<Seq<char>, Option<FileStats>> {
    match progress {
        ProgressView::Paired(staging) => if all_there(facts, needed_for_copies(state, staging.entries)) {
            state.overlay.union_prefer_right(with_copies(state, facts, staging.entries))
        } else {
            state.overlay
        },
        _ => state.overlay,
    }
}

/// The paths of a list without a staged entry.
pub open spec fn not_staged(list: Seq<Seq<char>>, entries: Map<Seq<char>, Option<FileStats>>) -> Seq<Seq<char>>
    decreases list.len(),
{
    if list.len() == 0 {
        list
    } else if entries.contains_key(list.last()) {
        not_staged(list.drop_last(), entries)
    } else {
        not_staged(list.drop_last(), entries).push(list.last())
    }
}

/// The sources whose delete is dropped after a step: the last step adds those of the
/// batch, and takes out those that the batch staged anew.
pub open spec fn next_dropped(
    state: DiffStateView,
    facts: Map<Seq<char>, FactsView>,
    progress: ProgressView,
) -> Seq<Seq<char>> {
    match progress {
        ProgressView::Paired(staging) => if all_there(facts, needed_for_copies(state, staging.entries)) {
            not_staged(state.dropped, staging.entries) + staging.dropped
        } else {
            state.dropped
        },
        _ => state.dropped,
    }
}

/// The paths that are missing for a step.
pub open spec fn missing_paths(
    state: DiffStateView,
    changed: Seq<Seq<char>>,
    facts: Map<Seq<char>, FactsView>,
    progress: ProgressView,
) -> Set<Seq<char>> {
    match progress {
        ProgressView::Start => needed_for_all(state, changed) - facts.dom(),
        ProgressView::Staged(staging) => if may_reshape(state, staging) {
            state.conflicted.to_set() - facts.dom()
        } else {
            Set::empty()
        },
        ProgressView::Settled(staging) => needed_for_renames(state, staging.entries) - facts.dom(),
        ProgressView::Paired(staging) => needed_for_copies(state, staging.entries) - facts.dom(),
        _ => Set::empty(),
    }
}

/// What a step asks for: the facts of the missing paths; then, of the merge of root trees,
/// more differing paths than the batch overrides; then values for the reshaped paths.
pub open spec fn asks(
    state: DiffStateView,
    changed: Seq<Seq<char>>,
    facts: Map<Seq<char>, FactsView>,
    answers: AnswersView,
    progress: ProgressView,
    need: Need,
) -> bool {
    let missing = missing_paths(state, changed, facts, progress);
    match need {
        Need::Facts(list) => missing != Set::<Seq<char>>::empty() && forall|p: Seq<char>| #[trigger]
            views(list@).contains(p) <==> missing.contains(p),
        Need::Differing(number) => {
            &&& missing == Set::<Seq<char>>::empty()
            &&& progress is Staged
            &&& may_reshape(state, progress->Staged_0)
            &&& answers.differing is None
            &&& number == progress->Staged_0.overrides.len()
        },
        Need::Values => progress is Reshaping && progress->Reshaping_1.len() > 0 && answers.values is None,
        Need::Nothing => {
            &&& missing == Set::<Seq<char>>::empty()
            &&& progress is Staged && may_reshape(state, progress->Staged_0) ==> answers.differing is Some
            &&& progress is Reshaping && progress->Reshaping_1.len() > 0 ==> answers.values is Some
        },
    }
}

/// Whether nothing is missing, or what.
fn facts_or(list: Vec<String>) -> (r: Option<Need>)
    ensures
        r is None == (list@.len() == 0),
        r is Some ==> r->0 == Need::Facts(list),
{
    if list.len() == 0 {
        None
    } else {
        Some(Need::Facts(list))
    }
}

proof fn lemma_missing(list: Seq<Seq<char>>, needed: Set<Seq<char>>, facts: Map<Seq<char>, FactsView>)
    requires
        forall|p: Seq<char>| #[trigger] list.contains(p) <==> needed.contains(p) && !facts.contains_key(p),
    ensures
        list.len() == 0 <==> all_there(facts, needed),
        list.len() == 0 <==> needed - facts.dom() == Set::<Seq<char>>::empty(),
        forall|p: Seq<char>| #[trigger] list.contains(p) <==> (needed - facts.dom()).contains(p),
{
    if list.len() == 0 {
        assert(needed - facts.dom() =~= Set::empty()) by {
            assert forall|p: Seq<char>| !(needed - facts.dom()).contains(p) by {
                assert(!list.contains(p));
            }
        }
        assert forall|p: Seq<char>| needed.contains(p) implies facts.dom().contains(p) by {
            assert(!list.contains(p));
        }
    } else {
        assert(list.contains(list[0]));
        assert((needed - facts.dom()).contains(list[0]));
    }
}

/// Takes a batch of changed paths one step on: diffs each path against the parent tree as
/// the next snapshot would have it, works in conflicted paths that the snapshot reshapes,
/// renames and copies, and puts the results into the overlay.
///
/// Says what must be known before the step can be taken; then nothing has changed.
pub fn apply_incremental_paths(
    state: &mut DiffState,
    changed: &Vec<String>,
    facts: &FileTable<PathFacts>,
    answers: &Answers,
    progress: Progress,
) -> (r: (Progress, Need))
    requires
        old(state).wf(),
        facts.wf(),
        all_facts_ok(old(state)@, facts@),
        progress.wf(facts@),
        answers_ok(old(state)@, progress@, answers@),
    ensures
        final(state).wf(),
        r.0.wf(facts@),
        r.0@ == next_progress(old(state)@, views(changed@), facts@, answers@, progress@),
        final(state)@ == (DiffStateView {
            overlay: next_overlay(old(state)@, facts@, progress@),
            dropped: next_dropped(old(state)@, facts@, progress@),
            ..old(state)@
        }),
        asks(old(state)@, views(changed@), facts@, answers@, progress@, r.1),
{
    let ghost sv = state@;
    match progress {
        Progress::Start => {
            let list = missing_for_changed(state, facts, changed);
            proof {
                lemma_missing(views(list@), needed_for_all(sv, views(changed@)), facts@);
                assert(views(list@).len() == list@.len());
            }
            if let Some(need) = facts_or(list) {
                return (Progress::Start, need);
            }
            (Progress::Staged(stage_changed(state, facts, changed)), Need::Nothing)
        },
        Progress::Staged(staging) => {
            if !staging.writes || state.conflicted_paths.len() == 0 {
                return (Progress::Settled(staging), Need::Nothing);
            }
            let list = missing_for_reshape(state, facts);
            proof {
                assert forall|p: Seq<char>| #[trigger]
                    views(list@).contains(p) <==> sv.conflicted.to_set().contains(p) && !facts@.contains_key(p) by {
                    assert(sv.conflicted.contains(p) <==> sv.conflicted.to_set().contains(p));
                }
                lemma_missing(views(list@), sv.conflicted.to_set(), facts@);
                assert(views(list@).len() == list@.len());
            }
            if let Some(need) = facts_or(list) {
                return (Progress::Staged(staging), need);
            }
            match &answers.differing {
                None => {
                    let known: usize = staging.overrides.len();
                    (Progress::Staged(staging), Need::Differing(known))
                },
                Some(differing) => {
                    proof {
                        assert forall|i: int| 0 <= i < sv.conflicted.len() implies facts@.contains_key(
                            #[trigger] sv.conflicted[i],
                        ) by {
                            assert(sv.conflicted.contains(sv.conflicted[i]));
                            assert(sv.conflicted.to_set().contains(sv.conflicted[i]));
                        }
                    }
                    let plan = plan_reshape(state, facts, &staging, differing);
                    proof {
                        lemma_plan_known(sv, facts@, staging@, answers@.differing->0);
                        assert forall|i: int| 0 <= i < plan@.len() implies facts@.contains_key(
                            (#[trigger] plan@[i]).path@,
                        ) by {
                            assert(plan_view(plan@)[i].0 == plan@[i].path@);
                        }
                    }
                    (Progress::Reshaping(staging, plan), Need::Nothing)
                },
            }
        },
        Progress::Reshaping(staging, plan) => {
            assert(plan_view(plan@).len() == plan@.len());
            if plan.len() == 0 {
                return (Progress::Settled(staging), Need::Nothing);
            }
            match &answers.values {
                None => (Progress::Reshaping(staging, plan), Need::Values),
                Some(values) => {
                    proof {
                        assert(values_view(values@).len() == values@.len());
                        assert forall|i: int| 0 <= i < values@.len() && (#[trigger] values@[i]) is Some implies values@[i]->0.wf() by {
                            assert(values_view(values@)[i] == crate::wc::opt_view(values@[i]));
                        }
                    }
                    let mut staging = staging;
                    stage_reshaped(&mut staging, state, facts, &plan, values);
                    (Progress::Settled(staging), Need::Nothing)
                },
            }
        },
        Progress::Settled(staging) => {
            let list = missing_for_renames(state, facts, &staging);
            proof {
                lemma_missing(views(list@), needed_for_renames(sv, staging@.entries), facts@);
                assert(views(list@).len() == list@.len());
            }
            if let Some(need) = facts_or(list) {
                return (Progress::Settled(staging), need);
            }
            let mut staging = staging;
            pair_renames(&mut staging, state, facts);
            (Progress::Paired(staging), Need::Nothing)
        },
        Progress::Paired(staging) => {
            let list = missing_for_copies(state, facts, &staging);
            proof {
                lemma_missing(views(list@), needed_for_copies(sv, staging@.entries), facts@);
                assert(views(list@).len() == list@.len());
            }
            if let Some(need) = facts_or(list) {
                return (Progress::Paired(staging), need);
            }
            let mut staging = staging;
            let dropped = still_dropped(&state.dropped, &staging);
            pair_copies(&mut staging, state, facts);
            commit_entries(&mut state.overlay, &staging.entries);
            state.dropped = dropped;
            (Progress::Done, Need::Nothing)
        },
        Progress::Done => (Progress::Done, Need::Nothing),
    }
}

/// The sources whose delete stays dropped, and those that a batch drops.
fn still_dropped(dropped: &Vec<String>, staging: &Staging) -> (r: Vec<String>)
    requires
        staging.wf(),
    ensures
        views(r@) == not_staged(views(dropped@), staging@.entries) + staging@.dropped,
{
    let mut out: Vec<String> = Vec::new();
    let ghost all = views(dropped@);
    let ghost entries = staging@.entries;
    let mut i: usize = 0;
    assert(views(out@) =~= not_staged(all.take(0), entries));
    while i < dropped.len()
        invariant
            staging.wf(),
            i <= dropped.len(),
            all == views(dropped@),
            entries == staging@.entries,
            views(out@) == not_staged(all.take(i as int), entries),
        decreases dropped.len() - i,
    {
        proof {
            assert(all[i as int] == dropped@[i as int]@);
            assert(all.take(i + 1).drop_last() =~= all.take(i as int));
            assert(all.take(i + 1).last() == all[i as int]);
        }
        if !staging.entries.contains(dropped[i].as_str()) {
            push_name(&mut out, &dropped[i]);
        }
        i += 1;
    }
    assert(all.take(i as int) =~= all);
    push_names(&mut out, &staging.dropped);
    out
}

/// Adds a copy of a path to a list.
fn push_name(out: &mut Vec<String>, path: &String)
    ensures
        views(final(out)@) == views(old(out)@).push(path@),
{
    let name = path.clone();
    let ghost before = out@;
    out.push(name);
    proof {
        lemma_views_push(before, name);
    }
}

/// Adds copies of the paths of a list to another list.
fn push_names(out: &mut Vec<String>, more: &Vec<String>)
    ensures
        views(final(out)@) == views(old(out)@) + views(more@),
{
    let ghost start = views(out@);
    let ghost all = views(more@);
    let mut i: usize = 0;
    assert(start + all.take(0) =~= start);
    while i < more.len()
        invariant
            i <= more.len(),
            all == views(more@),
            views(out@) == start + all.take(i as int),
        decreases more.len() - i,
    {
        push_name(out, &more[i]);
        proof {
            assert(all[i as int] == more@[i as int]@);
            assert(start + all.take(i + 1) =~= (start + all.take(i as int)).push(all[i as int]));
        }
        i += 1;
    }
    assert(all.take(i as int) =~= all);
}

/// Adds the paths of the base and of the overlay to a list.
fn push_entries(out: &mut Vec<String>, state: &DiffState)
    requires
        state.wf(),
    ensures
        views(final(out)@) == views(old(out)@) + state.base_file_stats.paths() + state.overlay.paths(),
{
    let ghost start = views(out@);
    let ghost base = state.base_file_stats.paths();
    let ghost over = state.overlay.paths();
    let n: usize = state.base_file_stats.len();
    let mut i: usize = 0;
    assert(start + base.take(0) =~= start);
    while i < n
        invariant
            state.wf(),
            base == state.base_file_stats.paths(),
            i <= n == base.len(),
            views(out@) == start + base.take(i as int),
        decreases n - i,
    {
        push_name(out, state.base_file_stats.path_at(i));
        assert(start + base.take(i + 1) =~= (start + base.take(i as int)).push(base[i as int]));
        i += 1;
    }
    assert(base.take(i as int) =~= base);
    let m: usize = state.overlay.len();
    let mut j: usize = 0;
    assert(start + base + over.take(0) =~= start + base);
    while j < m
        invariant
            state.wf(),
            over == state.overlay.paths(),
            j <= m == over.len(),
            views(out@) == start + base + over.take(j as int),
        decreases m - j,
    {
        push_name(out, state.overlay.path_at(j));
        assert(start + base + over.take(j + 1) =~= (start + base + over.take(j as int)).push(over[j as int]));
        j += 1;
    }
    assert(over.take(j as int) =~= over);
}

/// Begins a batch: the paths to stage are the changed ones and the sources whose delete
/// was dropped, as that may come back. Where the style of conflict markers is another one
/// than before, every known entry is staged anew too: its lines may count differently.
///
/// The style can change between snapshots without any operation or event, and jj's next
/// `diff --stat` uses the current one.
pub fn begin_batch(state: &mut DiffState, style: ConflictMarkerStyle, changed: Vec<String>) -> (r: Vec<String>)
    requires
        old(state).wf(),
    ensures
        final(state).wf(),
        final(state)@ == (DiffStateView { style, ..old(state)@ }),
        final(state).base_file_stats == old(state).base_file_stats,
        final(state).overlay == old(state).overlay,
        views(r@) == if style == old(state)@.style {
            views(changed@) + old(state)@.dropped
        } else {
            views(changed@) + old(state).base_file_stats.paths() + old(state).overlay.paths() + old(state)@.dropped
        },
{
    let mut batch = changed;
    if style != state.conflict_marker_style {
        push_entries(&mut batch, state);
        state.conflict_marker_style = style;
    }
    push_names(&mut batch, &state.dropped);
    batch
}

proof fn lemma_reshaped_paths(
    state: DiffStateView,
    facts: Map<Seq<char>, FactsView>,
    derived: Set<Seq<char>>,
    conflicted: Seq<Seq<char>>,
    left: Seq<int>,
)
    ensures
        forall|i: int|
            0 <= i < reshaped(state, facts, derived, conflicted, left).len() ==> conflicted.contains(
                (#[trigger] reshaped(state, facts, derived, conflicted, left)[i]).0,
            ),
    decreases conflicted.len(),
{
    if conflicted.len() > 0 {
        let rest = conflicted.drop_last();
        lemma_reshaped_paths(state, facts, derived, rest, left);
        let before = reshaped(state, facts, derived, rest, left);
        let now = reshaped(state, facts, derived, conflicted, left);
        assert forall|i: int| 0 <= i < now.len() implies conflicted.contains((#[trigger] now[i]).0) by {
            if i < before.len() {
                assert(rest.contains(before[i].0));
                let k = choose|k: int| 0 <= k < rest.len() && rest[k] == before[i].0;
                assert(conflicted[k] == now[i].0);
            } else {
                assert(conflicted[conflicted.len() - 1] == now[i].0);
            }
        }
    }
}

proof fn lemma_plan_known(
    state: DiffStateView,
    facts: Map<Seq<char>, FactsView>,
    staging: StagingView,
    differing: Seq<Seq<Seq<Seq<char>>>>,
)
    requires
        all_there(facts, state.conflicted.to_set()),
    ensures
        forall|i: int|
            0 <= i < reshape_plan(state, facts, staging, differing).len() ==> facts.contains_key(
                (#[trigger] reshape_plan(state, facts, staging, differing)[i]).0,
            ),
{
    let left = crate::reshape::surviving(state.terms, differing, staging.overrides);
    lemma_reshaped_paths(state, facts, staging.derived, state.conflicted, left);
    let plan = reshape_plan(state, facts, staging, differing);
    assert forall|i: int| 0 <= i < plan.len() implies facts.contains_key((#[trigger] plan[i]).0) by {
        assert(state.conflicted.contains(plan[i].0));
        assert(state.conflicted.to_set().contains(plan[i].0));
    }
}

/// Puts staged entries into the overlay.
fn commit_entries(overlay: &mut FileTable<Option<FileDiffStats>>, entries: &FileTable<Option<FileDiffStats>>)
    requires
        old(overlay).wf(),
        entries.wf(),
    ensures
        final(overlay).wf(),
        final(overlay)@ == old(overlay)@.union_prefer_right(entries@),
{
    let ghost start = overlay@;
    let n: usize = entries.len();
    let mut i: usize = 0;
    proof {
        entries.paths_are_domain();
        assert(start.union_prefer_right(entries@.restrict(entries.paths().take(0).to_set())) =~= start);
    }
    while i < n
        invariant
            overlay.wf(),
            entries.wf(),
            i <= n == entries.paths().len(),
            overlay@ == start.union_prefer_right(entries@.restrict(entries.paths().take(i as int).to_set())),
        decreases n - i,
    {
        let path = entries.path_at(i).clone();
        let entry = crate::stats::clone_entry(entries.value_at(i));
        let ghost so_far = entries.paths().take(i as int);
        proof {
            assert(entries.paths().take(i + 1) =~= so_far.push(path@));
            so_far.lemma_push_to_set_commute(path@);
        }
        overlay.insert(path, entry);
        assert(overlay@ =~= start.union_prefer_right(
            entries@.restrict(entries.paths().take(i + 1).to_set()),
        ));
        i += 1;
    }
    proof {
        assert(entries.paths().take(n as int) =~= entries.paths());
        assert(entries@.restrict(entries@.dom()) =~= entries@);
    }
}

/// The entries of a batch once the changed paths and the reshaped ones are staged.
pub open spec fn settled_entries(
    state: DiffStateView,
    changed: Seq<Seq<char>>,
    facts: Map<Seq<char>, FactsView>,
    answers: AnswersView,
) -> Map<Seq<char>, Option<FileStats>> {
    let staged = staged_batch(state, facts, changed);
    if may_reshape(state, staged) {
        with_reshaped(
            state,
            facts,
            staged.entries,
            reshape_plan(state, facts, staged, answers.differing->0),
            answers.values->0,
        )
    } else {
        staged.entries
    }
}

/// The entries that a batch comes to when everything it asks for is known.
pub open spec fn batch_entries(
    state: DiffStateView,
    changed: Seq<Seq<char>>,
    facts: Map<Seq<char>, FactsView>,
    answers: AnswersView,
) -> Map<Seq<char>, Option<FileStats>> {
    with_copies(state, facts, with_renames(state, facts, settled_entries(state, changed, facts, answers)))
}

/// The sources whose delete is dropped after a batch: those of before that it did not
/// stage, and its own.
pub open spec fn batch_dropped(
    state: DiffStateView,
    changed: Seq<Seq<char>>,
    facts: Map<Seq<char>, FactsView>,
    answers: AnswersView,
) -> Seq<Seq<char>> {
    let settled = settled_entries(state, changed, facts, answers);
    not_staged(state.dropped, with_renames(state, facts, settled)) + dropped_sources(state, facts, settled)
}

/// Everything that a batch asks for on its way is known.
pub open spec fn all_known(
    state: DiffStateView,
    changed: Seq<Seq<char>>,
    facts: Map<Seq<char>, FactsView>,
    answers: AnswersView,
) -> bool {
    let settled = settled_entries(state, changed, facts, answers);
    &&& all_there(facts, needed_for_all(state, changed))
    &&& may_reshape(state, staged_batch(state, facts, changed)) ==> {
        &&& all_there(facts, state.conflicted.to_set())
        &&& answers.differing is Some
        &&& answers.values is Some
    }
    &&& all_there(facts, needed_for_renames(state, settled))
    &&& all_there(facts, needed_for_copies(state, with_renames(state, facts, settled)))
}

/// A batch steps at most five times: where everything is known, it is done after five
/// steps, the overlay holds the old entries under those of the batch, and the dropped
/// sources are those of the batch.
pub proof fn known_batch_finishes(
    state: DiffStateView,
    changed: Seq<Seq<char>>,
    facts: Map<Seq<char>, FactsView>,
    answers: AnswersView,
)
    requires
        all_known(state, changed, facts, answers),
    ensures
        ({
            let one = next_progress(state, changed, facts, answers, ProgressView::Start);
            let two = next_progress(state, changed, facts, answers, one);
            let three = next_progress(state, changed, facts, answers, two);
            let four = next_progress(state, changed, facts, answers, three);
            let five = next_progress(state, changed, facts, answers, four);
            &&& five is Done
            &&& if may_reshape(state, staged_batch(state, facts, changed)) {
                next_overlay(state, facts, four)
            } else {
                next_overlay(state, facts, three)
            } == state.overlay.union_prefer_right(batch_entries(state, changed, facts, answers))
            &&& if may_reshape(state, staged_batch(state, facts, changed)) {
                next_dropped(state, facts, four)
            } else {
                next_dropped(state, facts, three)
            } == batch_dropped(state, changed, facts, answers)
        }),
{
    let staged = staged_batch(state, facts, changed);
    if may_reshape(state, staged) {
        let plan = reshape_plan(state, facts, staged, answers.differing->0);
        if plan.len() == 0 {
            assert(with_reshaped(state, facts, staged.entries, plan, answers.values->0) == staged.entries);
        }
    }
}

/// A batch that does not reach a path leaves its overlay entry as it was.
pub proof fn other_paths_keep_their_entry(
    state: DiffStateView,
    changed: Seq<Seq<char>>,
    facts: Map<Seq<char>, FactsView>,
    answers: AnswersView,
    path: Seq<char>,
)
    requires
        !batch_entries(state, changed, facts, answers).contains_key(path),
    ensures
        ({
            let after = state.overlay.union_prefer_right(batch_entries(state, changed, facts, answers));
            &&& after.contains_key(path) == state.overlay.contains_key(path)
            &&& state.overlay.contains_key(path) ==> after[path] == state.overlay[path]
        }),
{
}

/// Staging reaches no path that it did not ask for.
pub proof fn staging_reaches_needed_paths(
    state: DiffStateView,
    changed: Seq<Seq<char>>,
    facts: Map<Seq<char>, FactsView>,
    path: Seq<char>,
)
    requires
        staged_batch(state, facts, changed).entries.contains_key(path),
    ensures
        needed_for_all(state, changed).contains(path),
    decreases changed.len(),
{
    if changed.len() > 0 {
        let rest = changed.drop_last();
        let last = changed.last();
        assert(changed[changed.len() - 1] == last);
        if staged_batch(state, facts, rest).entries.contains_key(path) {
            staging_reaches_needed_paths(state, rest, facts, path);
            let i = choose|i: int| 0 <= i < rest.len() && needed_for(state, #[trigger] rest[i]).contains(path);
            assert(changed[i] == rest[i]);
        } else {
            assert(needed_for(state, last).contains(path));
        }
    }
}

/// Every changed path that can name a file and has no rename record of the base gets an
/// entry: the diff of what the next snapshot would record for it.
pub proof fn changed_path_gets_its_entry(
    state: DiffStateView,
    changed: Seq<Seq<char>>,
    facts: Map<Seq<char>, FactsView>,
    path: Seq<char>,
)
    requires
        facts[path].valid,
        premise(state, facts, path) is Plain,
    ensures
        ({
            let after = staged_batch(state, facts, changed.push(path));
            after.entries.contains_key(path) && after.entries[path] == own_entry(state, facts, path)
        }),
{
    assert(changed.push(path).drop_last() =~= changed);
    assert(changed.push(path).last() == path);
}

/// The best target of a source is the best: a parent yields its record, no other target
/// with a record scores higher, and of those that score as high it is the first.
pub proof fn best_target_is_best(
    state: DiffStateView,
    facts: Map<Seq<char>, FactsView>,
    source: Seq<char>,
    targets: Seq<Seq<char>>,
    n: int,
)
    requires
        0 <= n <= targets.len(),
    ensures
        match best_target(state, facts, source, targets, n) {
            Some(place) => {
                &&& 0 <= place < n
                &&& rename_records(state, facts[source], facts[targets[place]]) > 0
                &&& forall|k: int|
                    0 <= k < n && rename_records(state, facts[source], facts[#[trigger] targets[k]]) > 0 ==> {
                        let here = rename_score(state, facts[source], facts[targets[k]]);
                        let best = rename_score(state, facts[source], facts[targets[place]]);
                        here <= best && (k < place ==> here < best)
                    }
            },
            None => forall|k: int|
                0 <= k < n ==> rename_records(state, facts[source], facts[#[trigger] targets[k]]) == 0,
        },
    decreases n,
{
    if n > 0 {
        best_target_is_best(state, facts, source, targets, n - 1);
    }
}

/// The best source of a copy is the best: of the modified files that the target may be a
/// copy of none is more like it, and of those that are as like it is the first.
pub proof fn best_copy_source_is_best(
    facts: Map<Seq<char>, FactsView>,
    sources: Seq<Seq<char>>,
    target: FactsView,
    options: MergeOptions,
    n: int,
)
    requires
        0 <= n <= sources.len(),
    ensures
        match best_copy_source(facts, sources, target, options, n) {
            Some(place) => {
                &&& 0 <= place < n
                &&& may_be_copy(facts[sources[place]], target, options)
                &&& forall|k: int|
                    0 <= k < n && may_be_copy(facts[#[trigger] sources[k]], target, options) ==> {
                        let here = likeness(facts[sources[k]], target, options);
                        let best = likeness(facts[sources[place]], target, options);
                        here <= best && (k < place ==> here < best)
                    }
            },
            None => forall|k: int| 0 <= k < n ==> !may_be_copy(facts[#[trigger] sources[k]], target, options),
        },
    decreases n,
{
    if n > 0 {
        best_copy_source_is_best(facts, sources, target, options, n - 1);
    }
}

/// A source that finds a target leaves the diff, and the target is taken for good. Where
/// just one parent yields the record, the target becomes a modified file renamed from the
/// source; where several do, the target stays as it is, and the source is listed as
/// dropped.
pub proof fn paired_source_is_renamed(
    state: DiffStateView,
    facts: Map<Seq<char>, FactsView>,
    pairing: Pairing,
    source: Seq<char>,
)
    requires
        pairing.free.no_duplicates(),
        !pairing.free.contains(source),
    ensures
        match best_target(state, facts, source, pairing.free, pairing.free.len() as int) {
            Some(place) => {
                let after = paired_source(state, facts, pairing, source);
                let target = pairing.free[place];
                &&& after.entries.contains_key(source) && after.entries[source] is None
                &&& after.free.len() == pairing.free.len() - 1
                &&& after.free.no_duplicates()
                &&& !after.free.contains(target)
                &&& rename_records(state, facts[source], facts[target]) == 1 ==> {
                    &&& after.entries.contains_key(target)
                    &&& after.entries[target] is Some
                    &&& after.entries[target]->0.renamed_from == Some(source)
                    &&& after.entries[target]->0.kind == crate::stats::FileChangeKind::Modified
                    &&& after.dropped == pairing.dropped
                }
                &&& rename_records(state, facts[source], facts[target]) != 1 ==> {
                    &&& after.entries == pairing.entries.insert(source, None)
                    &&& after.dropped == pairing.dropped.push(source)
                }
            },
            None => paired_source(state, facts, pairing, source) == pairing,
        },
{
    best_target_is_best(state, facts, source, pairing.free, pairing.free.len() as int);
    match best_target(state, facts, source, pairing.free, pairing.free.len() as int) {
        Some(place) => {
            let free = pairing.free;
            let target = free[place];
            let after = free.update(place, free.last()).drop_last();
            assert(free.contains(target));
            assert forall|i: int| 0 <= i < after.len() implies after[i] == if i == place {
                free[free.len() - 1]
            } else {
                free[i]
            } by {}
            assert forall|i: int, j: int| 0 <= i < after.len() && 0 <= j < after.len() && i != j implies after[i]
                != after[j] by {}
            assert(after.no_duplicates());
            assert(!after.contains(target));
        },
        None => {},
    }
}

/// Whether a tree value is materialized as full diffs have it: a conflict of files has no
/// labels and no terms that cancel each other.
pub open spec fn is_settled(value: MaterializedView) -> bool {
    match value {
        MaterializedView::FileConflict { contents, labels, resolved_exec } => labels.len() == 0 && contents.len() > 1
            && simplified_terms(contents) == contents,
        _ => true,
    }
}

/// A full diff of the snapshotted trees says of a changed path what the batch says of it:
/// nothing where the parent tree and the snapshot have the same value, and the same stats
/// where they differ. It holds of each path without a recorded rename, whatever the
/// snapshot's value materializes to, as long as one of the two sides has content.
pub proof fn changed_path_counts_as_in_a_full_diff(
    state: DiffStateView,
    facts: Map<Seq<char>, FactsView>,
    path: Seq<char>,
    after: MaterializedView,
)
    requires
        premise(state, facts, path) is Plain,
        targets_of(state, path) == Set::<Seq<char>>::empty(),
        facts[path].parent.raw is Some,
        facts[path].parent.value is Some,
        is_settled(facts[path].parent.value->0),
        is_settled(after),
        next_value(state, facts[path], facts[path].not_ignored).value == snapshot_value(after),
        !(snapshot_value(facts[path].parent.value->0) is Absent && snapshot_value(after) is Absent),
    ensures
        own_entry(state, facts, path) == if same_value(
            tree_entry(facts[path].parent),
            next_value(state, facts[path], facts[path].not_ignored),
        ) {
            None
        } else {
            entry_stats(
                DiffEntryView { path, copied_from: None, before: facts[path].parent.value, after: Some(after) },
                state.style,
                state.options,
            )
        },
{
    lemma_settled_text(facts[path].parent.value->0, state.style, state.options);
    lemma_settled_text(after, state.style, state.options);
}

pub(crate) proof fn lemma_settled_text(value: MaterializedView, style: ConflictMarkerStyle, options: MergeOptions)
    requires
        is_settled(value),
    ensures
        value_text(snapshot_value(value), style, options) == content_of(value, style, options),
{
    if let MaterializedView::FileConflict { contents, labels, resolved_exec } = value {
        assert(labels =~= Seq::empty());
    }
}

/// A batch stages every changed path that can name a file, so that a delete which was
/// dropped does not stay so unnoticed.
pub proof fn changed_paths_are_staged(
    state: DiffStateView,
    facts: Map<Seq<char>, FactsView>,
    changed: Seq<Seq<char>>,
    place: int,
)
    requires
        0 <= place < changed.len(),
        facts[lookup_path(state, facts, changed[place])].valid,
    ensures
        staged_batch(state, facts, changed).entries.contains_key(changed[place]),
    decreases changed.len(),
{
    if place < changed.len() - 1 {
        assert(changed.drop_last()[place] == changed[place]);
        changed_paths_are_staged(state, facts, changed.drop_last(), place);
    }
}

} // verus!
