//! Conflicts that a snapshot stores anew.

use crate::conflicts::{resolves_to, SameChange, TreeTermView};
use crate::facts::{tree_entry, FactsView};
use crate::reshape::{
    equal_after, may_reshape, projected, reshape_plan, reshaped, surviving, terms_same, with_reshaped,
};
use crate::simplify::{first_equal, pick, simplified_from, simplified_is_settled};
use crate::staging::{noted, DiffStateView, StagingView};
use crate::stats::FileStats;
use crate::wc::{raw_entry, same_value, values_diff, MaterializedView, WcEntryView};
use vstd::prelude::*;

verus! {

/// Two root trees are equal after a batch where they were equal before, or where the batch
/// overrides every path in which they differ; one path that it does not override keeps them
/// apart, and so does a batch that overrides nothing.
pub proof fn overrides_make_trees_equal(
    a: Seq<u8>,
    b: Seq<u8>,
    differing: Seq<Seq<char>>,
    overrides: Set<Seq<char>>,
    place: int,
)
    ensures
        a == b ==> equal_after(a, b, differing, overrides),
        a != b && overrides == Set::<Seq<char>>::empty() ==> !equal_after(a, b, differing, overrides),
        a != b && 0 <= place < differing.len() && !overrides.contains(differing[place]) ==> !equal_after(
            a,
            b,
            differing,
            overrides,
        ),
        overrides != Set::<Seq<char>>::empty() && differing.to_set().subset_of(overrides) ==> equal_after(
            a,
            b,
            differing,
            overrides,
        ),
{
    if overrides != Set::<Seq<char>>::empty() && differing.to_set().subset_of(overrides) {
        assert forall|i: int| 0 <= i < differing.len() implies overrides.contains(#[trigger] differing[i]) by {
            assert(differing.contains(differing[i]));
            assert(differing.to_set().contains(differing[i]));
        }
    }
}

/// Of the terms of a merge none stays added that equals one that stays removed; and where an
/// added term equals a removed one, some terms go.
pub proof fn equal_terms_go(
    terms: Seq<Seq<u8>>,
    differing: Seq<Seq<Seq<Seq<char>>>>,
    overrides: Set<Seq<char>>,
    add: int,
    remove: int,
)
    requires
        terms.len() % 2 == 1,
        0 <= add < terms.len() && add % 2 == 0,
        0 <= remove < terms.len() && remove % 2 == 1,
    ensures
        ({
            let left = surviving(terms, differing, overrides);
            &&& left.len() <= terms.len() && left.len() % 2 == 1
            &&& terms[add] == terms[remove] ==> left.len() < terms.len()
            &&& forall|a: int, r: int|
                #![trigger left[a], left[r]]
                0 <= a < left.len() && a % 2 == 0 && 0 <= r < left.len() && r % 2 == 1 ==> terms[left[a]]
                    != terms[left[r]]
        }),
{
    let eq = terms_same(terms, differing, overrides);
    let left = surviving(terms, differing, overrides);
    simplified_is_settled(terms.len(), eq);
    assert forall|a: int, r: int|
        #![trigger left[a], left[r]]
        0 <= a < left.len() && a % 2 == 0 && 0 <= r < left.len() && r % 2 == 1 implies terms[left[a]]
        != terms[left[r]] by {
        assert(!eq(left[r], left[a]));
    }
    if terms[add] == terms[remove] && left.len() == terms.len() {
        lemma_all_there(left, terms.len(), add);
        lemma_all_there(left, terms.len(), remove);
        let a = choose|k: int| 0 <= k < left.len() && left[k] == add;
        let r = choose|k: int| 0 <= k < left.len() && left[k] == remove;
        assert(left[a] % 2 == a % 2 && left[r] % 2 == r % 2);
        assert(terms[left[a]] != terms[left[r]]);
    }
}

proof fn lemma_all_there(list: Seq<int>, len: nat, item: int)
    requires
        list.len() == len,
        list.no_duplicates(),
        forall|k: int| 0 <= k < list.len() ==> 0 <= #[trigger] list[k] < len,
        0 <= item < len,
    ensures
        list.contains(item),
{
    let range = vstd::set_lib::set_int_range(0, len as int);
    vstd::set_lib::lemma_int_range(0, len as int);
    list.unique_seq_to_set();
    assert forall|x: int| list.to_set().contains(x) implies range.contains(x) by {
        let k = choose|k: int| 0 <= k < list.len() && list[k] == x;
        assert(0 <= list[k] < len);
    }
    vstd::set_lib::lemma_subset_equality(list.to_set(), range);
    assert(list.to_set().contains(item));
}

/// Only a snapshot that writes while there are conflicts stores any of them anew, and only
/// where terms go. Then it is each conflicted path that was not read from disk and has a term
/// for each root tree.
pub proof fn conflicts_are_stored_anew_where_terms_go(
    state: DiffStateView,
    facts: Map<Seq<char>, FactsView>,
    staging: StagingView,
    differing: Seq<Seq<Seq<Seq<char>>>>,
    path: Seq<char>,
)
    ensures
        may_reshape(state, staging) <==> staging.writes && state.conflicted.len() > 0,
        ({
            let plan = reshape_plan(state, facts, staging, differing);
            let left = surviving(state.terms, differing, staging.overrides);
            &&& left.len() == state.terms.len() ==> plan.len() == 0
            &&& left.len() != state.terms.len() ==> ((exists|i: int| 0 <= i < plan.len() && (#[trigger] plan[i]).0 == path)
                <==> state.conflicted.contains(path) && !staging.derived.contains(path) && facts[path].commit.raw is Some
                && facts[path].commit.raw->0.len() == state.terms.len())
            &&& forall|i: int|
                0 <= i < plan.len() ==> (#[trigger] plan[i]).1 == projected(
                    facts[plan[i].0].commit.raw->0,
                    left,
                    state.options.same_change,
                )
        }),
{
    let left = surviving(state.terms, differing, staging.overrides);
    lemma_reshaped(state, facts, staging.derived, state.conflicted, left, path);
}

proof fn lemma_reshaped(
    state: DiffStateView,
    facts: Map<Seq<char>, FactsView>,
    derived: Set<Seq<char>>,
    conflicted: Seq<Seq<char>>,
    left: Seq<int>,
    path: Seq<char>,
)
    ensures
        ({
            let plan = reshaped(state, facts, derived, conflicted, left);
            &&& (exists|i: int| 0 <= i < plan.len() && (#[trigger] plan[i]).0 == path) <==> conflicted.contains(path)
                && !derived.contains(path) && facts[path].commit.raw is Some && facts[path].commit.raw->0.len()
                == state.terms.len()
            &&& forall|i: int|
                0 <= i < plan.len() ==> (#[trigger] plan[i]).1 == projected(
                    facts[plan[i].0].commit.raw->0,
                    left,
                    state.options.same_change,
                )
        }),
    decreases conflicted.len(),
{
    if conflicted.len() > 0 {
        let rest = conflicted.drop_last();
        let last = conflicted.last();
        lemma_reshaped(state, facts, derived, rest, left, path);
        let before = reshaped(state, facts, derived, rest, left);
        let plan = reshaped(state, facts, derived, conflicted, left);
        assert(conflicted =~= rest.push(last));
        crate::staging::lemma_contains_push(rest, last, path);
        if exists|i: int| 0 <= i < before.len() && (#[trigger] before[i]).0 == path {
            let i = choose|i: int| 0 <= i < before.len() && (#[trigger] before[i]).0 == path;
            assert(plan[i].0 == path);
        }
        if exists|i: int| 0 <= i < plan.len() && (#[trigger] plan[i]).0 == path {
            let i = choose|i: int| 0 <= i < plan.len() && (#[trigger] plan[i]).0 == path;
            if i < before.len() {
                assert(before[i].0 == path);
            }
        }
        if last == path && plan.len() > before.len() {
            assert(plan[before.len() as int].0 == path);
        }
    }
}

/// A stored value is that of the terms that stay; where it trivially comes down to one value,
/// it is that one.
pub proof fn stored_terms_are_those_that_stay(
    raw: Seq<Option<TreeTermView>>,
    left: Seq<int>,
    same_change: SameChange,
    value: Option<TreeTermView>,
)
    ensures
        ({
            let stay = Seq::new(left.len(), |i: int| raw[left[i]]);
            &&& resolves_to(stay, same_change, value) ==> projected(raw, left, same_change) == seq![value]
            &&& (forall|v: Option<TreeTermView>| !#[trigger] resolves_to(stay, same_change, v)) ==> projected(
                raw,
                left,
                same_change,
            ) == stay
        }),
{
    let stay = Seq::new(left.len(), |i: int| raw[left[i]]);
    assert(pick(raw, left) =~= stay);
    if resolves_to(stay, same_change, value) {
        let chosen = choose|v: Option<TreeTermView>| #[trigger] resolves_to(stay, same_change, v);
        crate::reshape::resolution_is_unique(stay, same_change, chosen, value);
    }
}

/// A path that is stored anew counts by its new stored value against the parent's; no other
/// entry is touched.
pub proof fn paths_stored_anew_count(
    state: DiffStateView,
    facts: Map<Seq<char>, FactsView>,
    entries: Map<Seq<char>, Option<FileStats>>,
    plan: Seq<(Seq<char>, Seq<Option<TreeTermView>>)>,
    path: Seq<char>,
    raw: Seq<Option<TreeTermView>>,
    values: Seq<Option<MaterializedView>>,
    other: Seq<char>,
)
    ensures
        ({
            let before = with_reshaped(state, facts, entries, plan, values);
            let after = with_reshaped(state, facts, entries, plan.push((path, raw)), values);
            &&& after.contains_key(path) && after[path] == values_diff(
                tree_entry(facts[path].parent),
                raw_entry(raw, values[plan.len() as int]),
                state.style,
                state.options,
            )
            &&& other != path ==> after.contains_key(other) == before.contains_key(other) && (before.contains_key(other)
                ==> after[other] == before[other])
        }),
        with_reshaped(state, facts, entries, Seq::empty(), values) == entries,
{
    assert(plan.push((path, raw)).drop_last() =~= plan);
    assert(plan.push((path, raw)).last() == (path, raw));
}

/// The next snapshot writes where the value of a changed path becomes another one, and that
/// path is overridden unless it stays in conflict; a value that is no stored one was read
/// from disk.
pub proof fn other_values_are_written(
    staging: StagingView,
    f: FactsView,
    path: Seq<char>,
    next: WcEntryView,
    kept: bool,
    other: Seq<char>,
)
    requires
        f.valid,
    ensures
        ({
            let after = noted(staging, f, path, next, kept);
            let changes = !same_value(next, tree_entry(f.commit));
            &&& after.writes <==> staging.writes || changes
            &&& changes && !(next.value is Conflict) ==> after.overrides.contains(path)
            &&& !changes || next.value is Conflict ==> after.overrides == staging.overrides
            &&& kept || next.raw is None ==> after.derived.contains(path)
            &&& !kept && next.raw is Some ==> after.derived == staging.derived
            &&& other != path ==> after.overrides.contains(other) == staging.overrides.contains(other)
                && after.derived.contains(other) == staging.derived.contains(other)
            &&& after.entries == staging.entries
        }),
{
}

/// Root trees that become equal by the overrides of a batch go like equal ones.
pub proof fn overridden_terms_go(
    terms: Seq<Seq<u8>>,
    differing: Seq<Seq<Seq<Seq<char>>>>,
    overrides: Set<Seq<char>>,
    add: int,
    remove: int,
    list: Seq<Seq<char>>,
)
    requires
        terms.len() % 2 == 1,
        0 <= add < terms.len() && add % 2 == 0,
        0 <= remove < terms.len() && remove % 2 == 1,
        overrides != Set::<Seq<char>>::empty(),
        add < remove ==> list == differing[add][remove],
        remove < add ==> list == differing[remove][add],
        forall|i: int| 0 <= i < list.len() ==> overrides.contains(#[trigger] list[i]),
    ensures
        surviving(terms, differing, overrides).len() < terms.len(),
{
    let eq = terms_same(terms, differing, overrides);
    let left = surviving(terms, differing, overrides);
    assert(equal_after(terms[add], terms[remove], list, overrides));
    assert(equal_after(terms[remove], terms[add], list, overrides));
    simplified_is_settled(terms.len(), eq);
    if left.len() == terms.len() {
        lemma_all_there(left, terms.len(), add);
        lemma_all_there(left, terms.len(), remove);
        let a = choose|k: int| 0 <= k < left.len() && left[k] == add;
        let r = choose|k: int| 0 <= k < left.len() && left[k] == remove;
        assert(left[a] % 2 == a % 2 && left[r] % 2 == r % 2);
        assert(!eq(left[r], left[a]));
        assert(eq(remove, add));
    }
}

/// Without overrides, and with trees that are all different, every term stays.
pub proof fn different_terms_stay(terms: Seq<Seq<u8>>, differing: Seq<Seq<Seq<Seq<char>>>>)
    requires
        terms.len() % 2 == 1,
        terms.no_duplicates(),
    ensures
        surviving(terms, differing, Set::empty()).len() == terms.len(),
{
    let eq = terms_same(terms, differing, Set::empty());
    let all = Seq::new(terms.len(), |i: int| i);
    lemma_all_stay(all, 0, terms, differing);
}

proof fn lemma_all_stay(indices: Seq<int>, add: int, terms: Seq<Seq<u8>>, differing: Seq<Seq<Seq<Seq<char>>>>)
    requires
        0 <= add && add % 2 == 0,
        indices.len() == terms.len(),
        indices.len() % 2 == 1,
        forall|k: int| 0 <= k < indices.len() ==> #[trigger] indices[k] == k,
        terms.no_duplicates(),
    ensures
        simplified_from(indices, add, terms_same(terms, differing, Set::empty())) == indices,
    decreases indices.len() + 1 - add,
{
    if add < indices.len() {
        lemma_none_equal(indices, 1, add, terms, differing);
        lemma_all_stay(indices, add + 2, terms, differing);
    }
}

proof fn lemma_none_equal(
    indices: Seq<int>,
    from: int,
    add: int,
    terms: Seq<Seq<u8>>,
    differing: Seq<Seq<Seq<Seq<char>>>>,
)
    requires
        0 <= add < indices.len() && add % 2 == 0,
        0 <= from && from % 2 == 1,
        indices.len() == terms.len(),
        forall|k: int| 0 <= k < indices.len() ==> #[trigger] indices[k] == k,
        terms.no_duplicates(),
    ensures
        first_equal(indices, from, indices[add], terms_same(terms, differing, Set::empty())) is None,
    decreases indices.len() + 1 - from,
{
    if from < indices.len() {
        assert(indices[from] == from && indices[add] == add);
        assert(terms[from] != terms[add]);
        lemma_none_equal(indices, from + 2, add, terms, differing);
    }
}

} // verus!
