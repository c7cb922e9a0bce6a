//! Copies: added files that are like a modified one.

use crate::conflicts::MergeOptions;
use crate::facts::{absent, blob, facts_ok, has_content, present, snapshot_blob, FactsView, PathFacts};
use crate::pairing::{needed_for_renames, rename_entry, with_role, Role};
use crate::similarity::{content_similarity, similarity, RENAME_SIMILARITY};
use crate::staging::{
    all_facts_ok, copy_trees, diff_against, facts_of, push_missing, DiffState, DiffStateView, Staging, StagingView,
};
use crate::stats::FileStats;
use crate::strings::{in_order, sort_set, views};
use crate::table::FileTable;
use vstd::prelude::*;

verus! {

/// How many of the first `n` parents have the source and not the target.
pub open spec fn copy_records(source: FactsView, target: FactsView, n: int) -> nat
    decreases n,
{
    if n <= 0 {
        0
    } else {
        copy_records(source, target, n - 1) + if present(source.parents[n - 1]) && absent(target.parents[n - 1]) {
            1nat
        } else {
            0
        }
    }
}

/// How many parents yield a record of a copy.
pub open spec fn all_copy_records(source: FactsView, target: FactsView) -> nat {
    copy_records(source, target, source.parents.len() as int)
}

/// How like a target is to a source's new content.
pub open spec fn likeness(source: FactsView, target: FactsView, options: MergeOptions) -> nat {
    similarity(blob(source, options)->0, blob(target, options)->0)
}

/// Whether a target may be a copy of a source: it is like the source's new content.
pub open spec fn may_be_copy(source: FactsView, target: FactsView, options: MergeOptions) -> bool {
    &&& source.valid
    &&& blob(source, options) is Some
    &&& likeness(source, target, options) >= RENAME_SIMILARITY
    &&& all_copy_records(source, target) > 0
}

/// The place of the best source of a copy among the first `n` of a list: the first one
/// with the largest similarity.
pub open spec fn best_copy_source(
    facts: Map<Seq<char>, FactsView>,
    sources: Seq<Seq<char>>,
    target: FactsView,
    options: MergeOptions,
    n: int,
) -> Option<int>
    decreases n,
{
    if n <= 0 {
        None
    } else {
        let before = best_copy_source(facts, sources, target, options, n - 1);
        let s = facts[sources[n - 1]];
        if may_be_copy(s, target, options) && (before is None || likeness(s, target, options) > likeness(
            facts[sources[before->0]],
            target,
            options,
        )) {
            Some(n - 1)
        } else {
            before
        }
    }
}

/// The file that a target is a copy of: the best source, unless several parents yield the
/// record, which cancels them.
pub open spec fn copied_from(
    facts: Map<Seq<char>, FactsView>,
    sources: Seq<Seq<char>>,
    target: Seq<char>,
    options: MergeOptions,
) -> Option<Seq<char>> {
    let t = facts[target];
    if !t.valid || !has_content(t, options) {
        None
    } else {
        match best_copy_source(facts, sources, t, options, sources.len() as int) {
            Some(place) => if all_copy_records(facts[sources[place]], t) < 2 {
                Some(sources[place])
            } else {
                None
            },
            None => None,
        }
    }
}

/// The entries of the added files that are copies.
pub open spec fn copies(
    state: DiffStateView,
    facts: Map<Seq<char>, FactsView>,
    entries: Map<Seq<char>, Option<FileStats>>,
) -> Map<Seq<char>, Option<FileStats>> {
    let sources = in_order(with_role(state, entries, Role::Modified));
    Map::new(
        |target: Seq<char>|
            with_role(state, entries, Role::Added).contains(target) && copied_from(
                facts,
                sources,
                target,
                state.options,
            ) is Some,
        |target: Seq<char>|
            {
                let source = copied_from(facts, sources, target, state.options)->0;
                Some(rename_entry(diff_against(state, facts[source], facts[target].disk), source))
            },
    )
}

/// The staged entries with copies worked in.
pub open spec fn with_copies(
    state: DiffStateView,
    facts: Map<Seq<char>, FactsView>,
    entries: Map<Seq<char>, Option<FileStats>>,
) -> Map<Seq<char>, Option<FileStats>> {
    entries.union_prefer_right(copies(state, facts, entries))
}

/// The paths that must be known before copies can be found: modified and added files,
/// where there are both.
pub open spec fn needed_for_copies(
    state: DiffStateView,
    entries: Map<Seq<char>, Option<FileStats>>,
) -> Set<Seq<char>> {
    let modified = with_role(state, entries, Role::Modified);
    let added = with_role(state, entries, Role::Added);
    if modified == Set::<Seq<char>>::empty() || added == Set::<Seq<char>>::empty() {
        Set::empty()
    } else {
        modified + added
    }
}

fn count_copy_records(source: &PathFacts, target: &PathFacts) -> (r: usize)
    requires
        source@.parents.len() == target@.parents.len(),
    ensures
        r == all_copy_records(source@, target@),
{
    let mut records: usize = 0;
    let mut i: usize = 0;
    while i < source.parents.len()
        invariant
            i <= source.parents.len(),
            records <= i,
            source@.parents.len() == target@.parents.len(),
            records == copy_records(source@, target@, i as int),
        decreases source.parents.len() - i,
    {
        assert(source@.parents[i as int] == source.parents@[i as int]@);
        assert(target@.parents[i as int] == target.parents@[i as int]@);
        if source.parents[i].is_present() && target.parents[i].is_absent() {
            records += 1;
        }
        i += 1;
    }
    records
}

/// All paths of a list are known.
spec fn known(list: Seq<Seq<char>>, facts: Map<Seq<char>, FactsView>) -> bool {
    forall|i: int| 0 <= i < list.len() ==> facts.contains_key(#[trigger] list[i])
}

/// The place of the file that a target is a copy of.
fn find_copy_source(
    state: &DiffState,
    facts: &FileTable<PathFacts>,
    sources: &Vec<String>,
    target: &PathFacts,
) -> (r: Option<usize>)
    requires
        facts.wf(),
        all_facts_ok(state@, facts@),
        facts_ok(target@, copy_trees(state@)),
        known(views(sources@), facts@),
    ensures
        match best_copy_source(facts@, views(sources@), target@, state@.options, sources@.len() as int) {
            Some(place) => {
                let found = target@.valid && has_content(target@, state@.options) && all_copy_records(
                    facts@[views(sources@)[place]],
                    target@,
                ) < 2;
                &&& r is Some == found
                &&& r is Some ==> r->0 == place && place < sources@.len()
            },
            None => r is None,
        },
{
    let ghost all = views(sources@);
    let ghost tv = target@;
    if !target.valid {
        return None;
    }
    let options = state.merge_options;
    let disk = match snapshot_blob(target, options) {
        Some(disk) => disk,
        None => {
            return None;
        },
    };
    if disk.len() == 0 {
        return None;
    }
    let mut best: Option<usize> = None;
    let mut best_score: u32 = 0;
    let mut best_records: usize = 0;
    let mut i: usize = 0;
    while i < sources.len()
        invariant
            i <= sources.len(),
            facts.wf(),
            all_facts_ok(state@, facts@),
            facts_ok(tv, copy_trees(state@)),
            all == views(sources@),
            known(all, facts@),
            tv == target@,
            options == state@.options,
            blob(tv, options) == Some(disk@),
            match best_copy_source(facts@, all, tv, options, i as int) {
                Some(place) => {
                    &&& best is Some
                    &&& best->0 == place
                    &&& 0 <= place < i
                    &&& best_records == all_copy_records(facts@[all[place]], tv)
                    &&& best_score == likeness(facts@[all[place]], tv, options)
                },
                None => best is None,
            },
        decreases sources.len() - i,
    {
        assert(all[i as int] == sources@[i as int]@);
        let source = facts_of(facts, sources[i].as_str());
        if source.valid {
            if let Some(content) = snapshot_blob(source, options) {
                let score: u32 = content_similarity(content.as_slice(), disk.as_slice());
                if score >= RENAME_SIMILARITY {
                    let records: usize = count_copy_records(source, target);
                    let better: bool = match best {
                        None => true,
                        Some(_) => score > best_score,
                    };
                    if records > 0 && better {
                        best = Some(i);
                        best_score = score;
                        best_records = records;
                    }
                }
            }
        }
        i += 1;
    }
    if best_records >= 2 {
        None
    } else {
        best
    }
}

/// Finds copies, mirroring gix's copy detection among modified files: an added file >= 50%
/// similar to a *modified* file's new content becomes a copy of it, with stats against the
/// source's parent content, while the source keeps its own modified entry.
pub fn pair_copies(staging: &mut Staging, state: &DiffState, facts: &FileTable<PathFacts>)
    requires
        old(staging).wf(),
        state.wf(),
        facts.wf(),
        all_facts_ok(state@, facts@),
        needed_for_copies(state@, old(staging)@.entries).subset_of(facts@.dom()),
    ensures
        final(staging).wf(),
        final(staging)@ == (StagingView {
            entries: with_copies(state@, facts@, old(staging)@.entries),
            ..old(staging)@
        }),
{
    let ghost start = *staging;
    let ghost modified = with_role(state@, start@.entries, Role::Modified);
    let ghost added = with_role(state@, start@.entries, Role::Added);
    let ghost made = copies(state@, facts@, start@.entries);
    let sources = sort_set(state.paths_with(staging, Role::Modified));
    let targets = state.paths_with(staging, Role::Added);
    let ghost all = views(sources@);
    let ghost goals = views(targets@);
    if sources.len() == 0 || targets.len() == 0 {
        proof {
            assert(made =~= Map::empty()) by {
                assert forall|t: Seq<char>| !made.contains_key(t) by {
                    if targets@.len() == 0 {
                        assert(!goals.contains(t));
                        assert(!goals.to_set().contains(t));
                    } else {
                        assert(all.len() == 0);
                    }
                }
            }
            assert(start@.entries.union_prefer_right(made) =~= start@.entries);
        }
        return ;
    }
    proof {
        assert(all.contains(all[0]) && goals.contains(goals[0]));
        assert(all.to_set().contains(all[0]) && goals.to_set().contains(goals[0]));
        assert(modified.contains(all[0]) && added.contains(goals[0]));
        assert(needed_for_copies(state@, start@.entries) == modified + added);
        assert forall|i: int| 0 <= i < all.len() implies facts@.contains_key(#[trigger] all[i]) by {
            assert(all.contains(all[i]));
            assert(all.to_set().contains(all[i]));
            assert((modified + added).contains(all[i]));
        }
        assert forall|i: int| 0 <= i < goals.len() implies facts@.contains_key(#[trigger] goals[i]) by {
            assert(goals.contains(goals[i]));
            assert(goals.to_set().contains(goals[i]));
            assert((modified + added).contains(goals[i]));
        }
        assert(start@.entries.union_prefer_right(made.restrict(goals.take(0).to_set())) =~= start@.entries);
    }
    let mut i: usize = 0;
    while i < targets.len()
        invariant
            i <= targets.len(),
            staging.wf(),
            state.wf(),
            facts.wf(),
            all_facts_ok(state@, facts@),
            all == views(sources@),
            goals == views(targets@),
            all == in_order(modified),
            modified == with_role(state@, start@.entries, Role::Modified),
            added == with_role(state@, start@.entries, Role::Added),
            goals.to_set() == added,
            made == copies(state@, facts@, start@.entries),
            known(all, facts@),
            known(goals, facts@),
            staging.writes == start.writes,
            staging.derived == start.derived,
            staging.overrides == start.overrides,
            staging.dropped == start.dropped,
            staging@.entries == start@.entries.union_prefer_right(made.restrict(goals.take(i as int).to_set())),
        decreases targets.len() - i,
    {
        let target = &targets[i];
        let ghost so_far = goals.take(i as int);
        proof {
            assert(goals[i as int] == target@);
            assert(goals.contains(target@));
            assert(goals.to_set().contains(target@));
            assert(goals.take(i + 1) =~= so_far.push(target@));
            so_far.lemma_push_to_set_commute(target@);
        }
        let target_facts = facts_of(facts, target.as_str());
        if let Some(place) = find_copy_source(state, facts, &sources, target_facts) {
            let source = &sources[place];
            assert(all[place as int] == source@);
            let source_facts = facts_of(facts, source.as_str());
            let stats = state.renamed_stats(source_facts, &target_facts.disk, source);
            staging.entries.insert(target.clone(), Some(stats));
        }
        assert(staging@.entries =~= start@.entries.union_prefer_right(made.restrict(goals.take(i + 1).to_set())));
        i += 1;
    }
    proof {
        assert(goals.take(i as int) =~= goals);
        assert(made.restrict(added) =~= made);
    }
}

/// Adds the paths of a list of which nothing is known to another list.
fn push_all_missing(out: &mut Vec<String>, facts: &FileTable<PathFacts>, list: &Vec<String>)
    requires
        facts.wf(),
    ensures
        forall|p: Seq<char>| #[trigger]
            views(final(out)@).contains(p) <==> views(old(out)@).contains(p) || (views(list@).contains(p)
                && !facts@.contains_key(p)),
{
    let ghost start = views(out@);
    let ghost all = views(list@);
    let mut i: usize = 0;
    while i < list.len()
        invariant
            i <= list.len(),
            facts.wf(),
            all == views(list@),
            forall|p: Seq<char>| #[trigger]
                views(out@).contains(p) <==> start.contains(p) || (all.take(i as int).contains(p)
                    && !facts@.contains_key(p)),
        decreases list.len() - i,
    {
        let ghost before = views(out@);
        push_missing(out, facts, list[i].as_str());
        proof {
            assert(all[i as int] == list@[i as int]@);
            assert(all.take(i + 1) =~= all.take(i as int).push(all[i as int]));
            assert forall|p: Seq<char>| #[trigger]
                views(out@).contains(p) <==> start.contains(p) || (all.take(i + 1).contains(p)
                    && !facts@.contains_key(p)) by {
                crate::staging::lemma_contains_push(all.take(i as int), all[i as int], p);
                assert(views(out@).contains(p) <==> before.contains(p) || (p == all[i as int]
                    && !facts@.contains_key(p)));
            }
        }
        i += 1;
    }
    assert(all.take(i as int) =~= all);
}

/// The paths of which nothing is known yet, of those that pairing renames needs.
pub fn missing_for_renames(state: &DiffState, facts: &FileTable<PathFacts>, staging: &Staging) -> (r: Vec<String>)
    requires
        state.wf(),
        facts.wf(),
        staging.wf(),
    ensures
        forall|p: Seq<char>| #[trigger]
            views(r@).contains(p) <==> needed_for_renames(state@, staging@.entries).contains(p)
                && !facts@.contains_key(p),
{
    let mut out: Vec<String> = Vec::new();
    let arrived = state.paths_with(staging, Role::Arrived);
    let deleted = state.paths_with(staging, Role::Deleted);
    let ghost a = views(arrived@);
    let ghost d = views(deleted@);
    push_all_missing(&mut out, facts, &arrived);
    if arrived.len() > 0 {
        push_all_missing(&mut out, facts, &deleted);
    }
    proof {
        if arrived@.len() == 0 {
            assert(a.to_set() =~= Set::empty());
        } else {
            assert(a.contains(a[0]));
            assert(a.to_set().contains(a[0]));
        }
        assert forall|p: Seq<char>| #[trigger]
            views(out@).contains(p) <==> needed_for_renames(state@, staging@.entries).contains(p)
                && !facts@.contains_key(p) by {
            assert(a.contains(p) <==> a.to_set().contains(p));
            assert(d.contains(p) <==> d.to_set().contains(p));
        }
    }
    out
}

/// The paths of which nothing is known yet, of those that finding copies needs.
pub fn missing_for_copies(state: &DiffState, facts: &FileTable<PathFacts>, staging: &Staging) -> (r: Vec<String>)
    requires
        state.wf(),
        facts.wf(),
        staging.wf(),
    ensures
        forall|p: Seq<char>| #[trigger]
            views(r@).contains(p) <==> needed_for_copies(state@, staging@.entries).contains(p)
                && !facts@.contains_key(p),
{
    let mut out: Vec<String> = Vec::new();
    let modified = state.paths_with(staging, Role::Modified);
    let added = state.paths_with(staging, Role::Added);
    let ghost m = views(modified@);
    let ghost a = views(added@);
    if modified.len() > 0 && added.len() > 0 {
        push_all_missing(&mut out, facts, &modified);
        push_all_missing(&mut out, facts, &added);
    }
    proof {
        if modified@.len() == 0 {
            assert(m.to_set() =~= Set::empty());
        } else {
            assert(m.contains(m[0]));
            assert(m.to_set().contains(m[0]));
        }
        if added@.len() == 0 {
            assert(a.to_set() =~= Set::empty());
        } else {
            assert(a.contains(a[0]));
            assert(a.to_set().contains(a[0]));
        }
        assert forall|p: Seq<char>| #[trigger]
            views(out@).contains(p) <==> needed_for_copies(state@, staging@.entries).contains(p)
                && !facts@.contains_key(p) by {
            assert(m.contains(p) <==> m.to_set().contains(p));
            assert(a.contains(p) <==> a.to_set().contains(p));
        }
    }
    out
}

/// The conflicted paths of which nothing is known yet.
pub fn missing_for_reshape(state: &DiffState, facts: &FileTable<PathFacts>) -> (r: Vec<String>)
    requires
        state.wf(),
        facts.wf(),
    ensures
        forall|p: Seq<char>| #[trigger]
            views(r@).contains(p) <==> state@.conflicted.contains(p) && !facts@.contains_key(p),
{
    let mut out: Vec<String> = Vec::new();
    push_all_missing(&mut out, facts, &state.conflicted_paths);
    out
}

} // verus!
