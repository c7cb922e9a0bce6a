//! Conflicted paths that a writing snapshot reshapes.
//!
//! A snapshot that writes a tree simplifies the merge of root trees: two terms cancel when
//! they are equal after the batch's overrides, and then they drop out of the stored value
//! of every conflicted path.

use crate::conflicts::{raw_view, resolve_trivial, resolves_to, term_view, RawValue, SameChange, TreeTermView};
use crate::facts::{tree_entry, FactsView, PathFacts};
use crate::simplify::{
    is_table, lemma_net_absent, lemma_net_renamed, net, pick, places, simplified, simplified_mapping_by,
    simplified_same, table_eq,
};
use crate::staging::{all_facts_ok, DiffState, DiffStateView, Staging, StagingView};
use crate::stats::FileStats;
use crate::strings::{bytes_eq, views};
use crate::table::FileTable;
use crate::wc::{
    clone_term, diff_wc_values, opt_term_eq, opt_view, raw_entry, raw_wc_value, values_diff, MaterializedValue,
    MaterializedView,
};
use vstd::prelude::*;

verus! {

/// Whether two terms of a merge of root trees are equal after the overrides of a batch:
/// their ids match, or every path where they differ is one that the batch overrides.
pub open spec fn equal_after(a: Seq<u8>, b: Seq<u8>, differing: Seq<Seq<char>>, overrides: Set<Seq<char>>) -> bool {
    a == b || (overrides != Set::<Seq<char>>::empty() && forall|i: int|
        0 <= i < differing.len() ==> overrides.contains(#[trigger] differing[i]))
}

/// Whether two root-tree terms become equal after a batch's overrides: either the tree ids
/// already match, or every differing path is one the batch overwrote with a resolved value
/// (a resolved override is applied identically to every term, erasing the difference).
pub fn terms_equal_after_overrides(
    a: &Vec<u8>,
    b: &Vec<u8>,
    differing: &Vec<String>,
    overrides: &FileTable<bool>,
) -> (r: bool)
    requires
        overrides.wf(),
    ensures
        r == equal_after(a@, b@, views(differing@), overrides@.dom()),
{
    if bytes_eq(a.as_slice(), b.as_slice()) {
        return true;
    }
    proof {
        overrides.paths_are_domain();
    }
    if overrides.len() == 0 {
        assert(overrides@.dom() =~= Set::empty());
        return false;
    }
    assert(overrides@.dom() != Set::<Seq<char>>::empty());
    let mut i: usize = 0;
    while i < differing.len()
        invariant
            i <= differing.len(),
            overrides.wf(),
            a@ != b@,
            forall|j: int| 0 <= j < i ==> overrides@.dom().contains(#[trigger] views(differing@)[j]),
        decreases differing.len() - i,
    {
        assert(views(differing@)[i as int] == differing@[i as int]@);
        if !overrides.contains(differing[i].as_str()) {
            return false;
        }
        i += 1;
    }
    true
}

/// To tell whether two different terms become equal, it is enough to know one more of the
/// paths where they differ than the batch overrides.
pub proof fn few_differing_paths_decide(
    a: Seq<u8>,
    b: Seq<u8>,
    differing: Seq<Seq<char>>,
    overrides: Set<Seq<char>>,
    known: int,
)
    requires
        differing.no_duplicates(),
        overrides.finite(),
        overrides.len() < known <= differing.len(),
    ensures
        equal_after(a, b, differing.take(known), overrides) == equal_after(a, b, differing, overrides),
{
    let prefix = differing.take(known);
    if forall|i: int| 0 <= i < prefix.len() ==> overrides.contains(#[trigger] prefix[i]) {
        assert(prefix.no_duplicates());
        prefix.unique_seq_to_set();
        assert forall|p: Seq<char>| prefix.to_set().contains(p) implies overrides.contains(p) by {
            assert(prefix.contains(p));
        }
        vstd::set_lib::lemma_len_subset(prefix.to_set(), overrides);
    } else {
        let i = choose|i: int| 0 <= i < prefix.len() && !overrides.contains(#[trigger] prefix[i]);
        assert(differing[i] == prefix[i]);
    }
}

/// The paths where each two terms of the merge of root trees differ.
pub open spec fn differing_view(differing: Seq<Vec<Vec<String>>>) -> Seq<Seq<Seq<Seq<char>>>> {
    differing.map_values(|row: Vec<Vec<String>>| row@.map_values(|list: Vec<String>| views(list@)))
}

/// There is a list for each two of `len` terms.
pub open spec fn differing_ok(differing: Seq<Seq<Seq<Seq<char>>>>, len: int) -> bool {
    &&& differing.len() == len
    &&& forall|i: int| 0 <= i < len ==> (#[trigger] differing[i]).len() == len
}

/// Whether the terms on two places are equal after a batch.
pub open spec fn terms_same(
    terms: Seq<Seq<u8>>,
    differing: Seq<Seq<Seq<Seq<char>>>>,
    overrides: Set<Seq<char>>,
) -> spec_fn(int, int) -> bool {
    |i: int, j: int|
        if i == j {
            true
        } else if i < j {
            equal_after(terms[i], terms[j], differing[i][j], overrides)
        } else {
            equal_after(terms[j], terms[i], differing[j][i], overrides)
        }
}

/// The terms that stay of the merge of root trees after a batch.
pub open spec fn surviving(
    terms: Seq<Seq<u8>>,
    differing: Seq<Seq<Seq<Seq<char>>>>,
    overrides: Set<Seq<char>>,
) -> Seq<int> {
    simplified(terms.len(), terms_same(terms, differing, overrides))
}

/// Which terms of the merge of root trees are equal after a batch.
fn equality_table(
    ids: &Vec<Vec<u8>>,
    differing: &Vec<Vec<Vec<String>>>,
    overrides: &FileTable<bool>,
) -> (r: Vec<Vec<bool>>)
    requires
        overrides.wf(),
        differing_ok(differing_view(differing@), ids@.len() as int),
    ensures
        is_table(r@, ids@.len() as int),
        forall|i: int, j: int|
            0 <= i < ids@.len() && 0 <= j < ids@.len() ==> #[trigger] r@[i]@[j] == terms_same(
                crate::conflicts::contents_view(ids@),
                differing_view(differing@),
                overrides@.dom(),
            )(i, j),
{
    let len: usize = ids.len();
    let ghost terms = crate::conflicts::contents_view(ids@);
    let ghost same = terms_same(terms, differing_view(differing@), overrides@.dom());
    let mut table: Vec<Vec<bool>> = Vec::new();
    let mut i: usize = 0;
    while i < len
        invariant
            i <= len == ids.len(),
            overrides.wf(),
            differing_ok(differing_view(differing@), len as int),
            terms == crate::conflicts::contents_view(ids@),
            same == terms_same(terms, differing_view(differing@), overrides@.dom()),
            table.len() == i,
            forall|k: int| 0 <= k < i ==> (#[trigger] table@[k])@.len() == len,
            forall|k: int, j: int| 0 <= k < i && 0 <= j < len ==> #[trigger] table@[k]@[j] == same(k, j),
        decreases len - i,
    {
        let mut row: Vec<bool> = Vec::new();
        let mut j: usize = 0;
        while j < len
            invariant
                i < len == ids.len(),
                j <= len,
                overrides.wf(),
                differing_ok(differing_view(differing@), len as int),
                terms == crate::conflicts::contents_view(ids@),
                same == terms_same(terms, differing_view(differing@), overrides@.dom()),
                row.len() == j,
                forall|k: int| 0 <= k < j ==> #[trigger] row@[k] == same(i as int, k),
            decreases len - j,
        {
            let (low, high): (usize, usize) = if i < j {
                (i, j)
            } else {
                (j, i)
            };
            proof {
                assert(differing_view(differing@)[low as int].len() == len);
                assert(differing_view(differing@)[low as int][high as int] == views(
                    differing@[low as int]@[high as int]@,
                ));
                assert(terms[low as int] == ids@[low as int]@ && terms[high as int] == ids@[high as int]@);
            }
            let equal: bool = i == j || terms_equal_after_overrides(
                &ids[low],
                &ids[high],
                &differing[low][high],
                overrides,
            );
            row.push(equal);
            j += 1;
        }
        table.push(row);
        i += 1;
    }
    table
}

/// The stored value of a path once only some terms of the merge of root trees are left.
pub open spec fn projected(
    raw: Seq<Option<TreeTermView>>,
    left: Seq<int>,
    same_change: SameChange,
) -> Seq<Option<TreeTermView>> {
    let values = pick(raw, left);
    if exists|value: Option<TreeTermView>| #[trigger] resolves_to(values, same_change, value) {
        seq![choose|value: Option<TreeTermView>| #[trigger] resolves_to(values, same_change, value)]
    } else {
        values
    }
}

/// A merge comes down to one value at most.
pub proof fn resolution_is_unique<A>(values: Seq<A>, same_change: SameChange, a: A, b: A)
    requires
        resolves_to(values, same_change, a),
        resolves_to(values, same_change, b),
    ensures
        a == b,
{
    assert(net(values, a) > 0 && net(values, b) > 0);
}

/// For each value the first place of its equals.
fn first_places(values: &RawValue) -> (r: Vec<usize>)
    ensures
        r@.len() == values@.len(),
        forall|i: int| 0 <= i < r@.len() ==> #[trigger] r@[i] <= i,
        forall|i: int, j: int|
            #![trigger r@[i], r@[j]]
            0 <= i < r@.len() && 0 <= j < r@.len() ==> (r@[i] == r@[j]) == (raw_view(values@)[i] == raw_view(
                values@,
            )[j]),
        forall|i: int| 0 <= i < r@.len() ==> raw_view(values@)[(#[trigger] r@[i]) as int] == raw_view(values@)[i],
{
    let mut out: Vec<usize> = Vec::new();
    let ghost all = raw_view(values@);
    let mut i: usize = 0;
    while i < values.len()
        invariant
            i <= values.len(),
            all == raw_view(values@),
            out.len() == i,
            forall|k: int| 0 <= k < i ==> #[trigger] out@[k] <= k,
            forall|k: int| 0 <= k < i ==> all[(#[trigger] out@[k]) as int] == all[k],
            forall|k: int, j: int| #![trigger all[j], out@[k]] 0 <= k < i && 0 <= j < out@[k] ==> all[j] != all[k],
        decreases values.len() - i,
    {
        let mut j: usize = 0;
        while j < i && !opt_term_eq(&values[j], &values[i])
            invariant
                j <= i < values.len(),
                all == raw_view(values@),
                forall|k: int| 0 <= k < j ==> #[trigger] all[k] != all[i as int],
            decreases i - j,
        {
            assert(all[j as int] == term_view(values@[j as int]));
            assert(all[i as int] == term_view(values@[i as int]));
            j += 1;
        }
        assert(all[j as int] == term_view(values@[j as int]));
        assert(all[i as int] == term_view(values@[i as int]));
        out.push(j);
        i += 1;
    }
    proof {
        assert forall|a: int, b: int|
            #![trigger out@[a], out@[b]]
            0 <= a < out@.len() && 0 <= b < out@.len() implies (out@[a] == out@[b]) == (all[a] == all[b]) by {
            assert(all[out@[a] as int] == all[a]);
            assert(all[out@[b] as int] == all[b]);
            if all[a] == all[b] {
                if out@[a] < out@[b] {
                    assert(all[out@[a] as int] != all[b]);
                }
                if out@[b] < out@[a] {
                    assert(all[out@[b] as int] != all[a]);
                }
            }
        }
    }
    out
}

proof fn lemma_classes_resolve(
    values: Seq<Option<TreeTermView>>,
    classes: Seq<usize>,
    same_change: SameChange,
    k: int,
)
    requires
        values.len() == classes.len(),
        0 <= k < values.len(),
        forall|i: int, j: int|
            #![trigger classes[i], classes[j]]
            0 <= i < classes.len() && 0 <= j < classes.len() ==> (classes[i] == classes[j]) == (values[i]
                == values[j]),
    ensures
        resolves_to(classes, same_change, classes[k]) == resolves_to(values, same_change, values[k]),
{
    assert forall|i: int| 0 <= i < values.len() implies #[trigger] net(values, values[i]) == net(
        classes,
        classes[i],
    ) by {
        assert forall|q: int| 0 <= q < values.len() implies ((#[trigger] values[q] == values[i]) == (classes[q]
            == classes[i])) by {}
        lemma_net_renamed(values, classes, values[i], classes[i]);
    }
    assert(net(values, values[k]) == net(classes, classes[k]));
    if resolves_to(values, same_change, values[k]) {
        assert forall|a: usize| #[trigger] net(classes, a) != 0 && a != classes[k] implies net(classes, a) < 0
            && same_change == SameChange::Accept by {
            if !classes.contains(a) {
                lemma_net_absent(classes, a);
            }
            let i = choose|i: int| 0 <= i < classes.len() && classes[i] == a;
            assert(net(values, values[i]) == net(classes, classes[i]));
        }
        assert forall|a: usize, b: usize|
            #![trigger net(classes, a), net(classes, b)]
            a != classes[k] && b != classes[k] && net(classes, a) != 0 && net(classes, b) != 0 implies a == b by {
            if !classes.contains(a) {
                lemma_net_absent(classes, a);
            }
            if !classes.contains(b) {
                lemma_net_absent(classes, b);
            }
            let i = choose|i: int| 0 <= i < classes.len() && classes[i] == a;
            let j = choose|j: int| 0 <= j < classes.len() && classes[j] == b;
            assert(net(values, values[i]) == net(classes, classes[i]));
            assert(net(values, values[j]) == net(classes, classes[j]));
        }
    }
    if resolves_to(classes, same_change, classes[k]) {
        assert forall|a: Option<TreeTermView>| #[trigger] net(values, a) != 0 && a != values[k] implies net(values, a)
            < 0 && same_change == SameChange::Accept by {
            if !values.contains(a) {
                lemma_net_absent(values, a);
            }
            let i = choose|i: int| 0 <= i < values.len() && values[i] == a;
            assert(net(values, values[i]) == net(classes, classes[i]));
        }
        assert forall|a: Option<TreeTermView>, b: Option<TreeTermView>|
            #![trigger net(values, a), net(values, b)]
            a != values[k] && b != values[k] && net(values, a) != 0 && net(values, b) != 0 implies a == b by {
            if !values.contains(a) {
                lemma_net_absent(values, a);
            }
            if !values.contains(b) {
                lemma_net_absent(values, b);
            }
            let i = choose|i: int| 0 <= i < values.len() && values[i] == a;
            let j = choose|j: int| 0 <= j < values.len() && values[j] == b;
            assert(net(values, values[i]) == net(classes, classes[i]));
            assert(net(values, values[j]) == net(classes, classes[j]));
        }
    }
}

/// The stored value of a path once only some terms of the merge of root trees are left:
/// these terms, or the one value that they trivially come down to.
pub fn project(raw: &RawValue, left: &Vec<usize>, same_change: SameChange) -> (r: RawValue)
    requires
        left@.len() % 2 == 1,
        left@.len() <= i32::MAX,
        forall|k: int| 0 <= k < left@.len() ==> #[trigger] left@[k] < raw@.len(),
    ensures
        raw_view(r@) == projected(raw_view(raw@), places(left@), same_change),
{
    let mut values: RawValue = Vec::new();
    let ghost all = raw_view(raw@);
    let ghost wanted = pick(all, places(left@));
    let mut i: usize = 0;
    while i < left.len()
        invariant
            i <= left.len(),
            all == raw_view(raw@),
            wanted == pick(all, places(left@)),
            forall|k: int| 0 <= k < left@.len() ==> #[trigger] left@[k] < raw@.len(),
            values.len() == i,
            forall|k: int| 0 <= k < i ==> term_view(#[trigger] values@[k]) == wanted[k],
        decreases left.len() - i,
    {
        let place: usize = left[i];
        assert(wanted[i as int] == all[place as int]);
        assert(all[place as int] == term_view(raw@[place as int]));
        values.push(clone_term(&raw[place]));
        i += 1;
    }
    assert(raw_view(values@) =~= wanted);
    let classes = first_places(&values);
    match resolve_trivial(&classes, same_change) {
        Some(class) => {
            proof {
                if !classes@.contains(class) {
                    lemma_net_absent(classes@, class);
                }
                let k = choose|k: int| 0 <= k < classes@.len() && classes@[k] == class;
                lemma_classes_resolve(wanted, classes@, same_change, k);
                assert(wanted[class as int] == wanted[k]);
                let value = choose|v: Option<TreeTermView>| #[trigger] resolves_to(wanted, same_change, v);
                resolution_is_unique(wanted, same_change, value, wanted[k]);
            }
            let mut out: RawValue = Vec::new();
            out.push(clone_term(&values[class]));
            assert(raw_view(out@) =~= seq![wanted[class as int]]);
            out
        },
        None => {
            proof {
                assert forall|v: Option<TreeTermView>| !#[trigger] resolves_to(wanted, same_change, v) by {
                    if resolves_to(wanted, same_change, v) {
                        if !wanted.contains(v) {
                            lemma_net_absent(wanted, v);
                        }
                        let k = choose|k: int| 0 <= k < wanted.len() && wanted[k] == v;
                        lemma_classes_resolve(wanted, classes@, same_change, k);
                    }
                }
            }
            values
        },
    }
}

/// A conflicted path and the stored value that the next snapshot would give it.
pub struct Projection {
    pub path: String,
    pub raw: RawValue,
}

/// What a projection says.
pub open spec fn projection_view(projection: Projection) -> (Seq<char>, Seq<Option<TreeTermView>>) {
    (projection.path@, raw_view(projection.raw@))
}

/// What a list of projections says.
pub open spec fn plan_view(plan: Seq<Projection>) -> Seq<(Seq<char>, Seq<Option<TreeTermView>>)> {
    plan.map_values(|projection: Projection| projection_view(projection))
}

/// Whether the next snapshot would reshape a conflicted path: its value was not derived
/// from disk, and it is stored with a term for each root tree.
pub open spec fn is_reshaped(
    state: DiffStateView,
    facts: Map<Seq<char>, FactsView>,
    derived: Set<Seq<char>>,
    path: Seq<char>,
) -> bool {
    &&& !derived.contains(path)
    &&& facts[path].commit.raw is Some
    &&& facts[path].commit.raw->0.len() == state.terms.len()
}

/// The reshaped paths among a list of conflicted ones, with their new stored values.
pub open spec fn reshaped(
    state: DiffStateView,
    facts: Map<Seq<char>, FactsView>,
    derived: Set<Seq<char>>,
    conflicted: Seq<Seq<char>>,
    left: Seq<int>,
) -> Seq<(Seq<char>, Seq<Option<TreeTermView>>)>
    decreases conflicted.len(),
{
    if conflicted.len() == 0 {
        Seq::empty()
    } else {
        let before = reshaped(state, facts, derived, conflicted.drop_last(), left);
        let path = conflicted.last();
        if is_reshaped(state, facts, derived, path) {
            before.push((path, projected(facts[path].commit.raw->0, left, state.options.same_change)))
        } else {
            before
        }
    }
}

/// The paths that a batch reshapes: none where no terms of the merge of root trees cancel.
pub open spec fn reshape_plan(
    state: DiffStateView,
    facts: Map<Seq<char>, FactsView>,
    staging: StagingView,
    differing: Seq<Seq<Seq<Seq<char>>>>,
) -> Seq<(Seq<char>, Seq<Option<TreeTermView>>)> {
    let left = surviving(state.terms, differing, staging.overrides);
    if left.len() == state.terms.len() {
        Seq::empty()
    } else {
        reshaped(state, facts, staging.derived, state.conflicted, left)
    }
}

/// Whether conflicted paths must be looked at: the next snapshot would write, and there
/// are conflicts.
pub open spec fn may_reshape(state: DiffStateView, staging: StagingView) -> bool {
    staging.writes && state.conflicted.len() > 0
}

/// The conflicted paths that a batch reshapes, with their new stored values.
pub fn plan_reshape(
    state: &DiffState,
    facts: &FileTable<PathFacts>,
    staging: &Staging,
    differing: &Vec<Vec<Vec<String>>>,
) -> (r: Vec<Projection>)
    requires
        state.wf(),
        facts.wf(),
        staging.wf(),
        differing_ok(differing_view(differing@), state@.terms.len() as int),
        forall|i: int| 0 <= i < state@.conflicted.len() ==> facts@.contains_key(#[trigger] state@.conflicted[i]),
    ensures
        plan_view(r@) == reshape_plan(state@, facts@, staging@, differing_view(differing@)),
{
    let len: usize = state.commit_tree_ids.len();
    let table = equality_table(&state.commit_tree_ids, differing, &staging.overrides);
    let left = simplified_mapping_by(len, &table);
    let ghost left_places = places(left@);
    proof {
        simplified_same(
            len as nat,
            table_eq(table@),
            terms_same(state@.terms, differing_view(differing@), staging@.overrides),
        );
        assert(left_places == surviving(state@.terms, differing_view(differing@), staging@.overrides));
        assert(left_places.len() == left@.len());
    }
    let mut plan: Vec<Projection> = Vec::new();
    if left.len() == len {
        assert(plan_view(plan@) =~= Seq::empty());
        return plan;
    }
    let ghost all = state@.conflicted;
    let mut i: usize = 0;
    assert(plan_view(plan@) =~= Seq::empty());
    while i < state.conflicted_paths.len()
        invariant
            i <= state.conflicted_paths.len(),
            state.wf(),
            facts.wf(),
            staging.wf(),
            len == state@.terms.len(),
            all == state@.conflicted,
            left_places == places(left@),
            left@.len() % 2 == 1,
            left@.len() <= i32::MAX,
            forall|k: int| 0 <= k < left@.len() ==> #[trigger] left@[k] < len,
            forall|k: int| 0 <= k < all.len() ==> facts@.contains_key(#[trigger] all[k]),
            plan_view(plan@) == reshaped(state@, facts@, staging@.derived, all.take(i as int), left_places),
        decreases state.conflicted_paths.len() - i,
    {
        let path = &state.conflicted_paths[i];
        let ghost before = plan@;
        proof {
            assert(all[i as int] == path@);
            assert(all.take(i + 1).drop_last() =~= all.take(i as int));
            assert(all.take(i + 1).last() == path@);
        }
        if !staging.derived.contains(path.as_str()) {
            if let Some(f) = facts.get(path.as_str()) {
                if let Some(raw) = &f.commit.raw {
                    if raw.len() == len {
                        assert(raw_view(raw@).len() == len);
                        let value = project(raw, &left, state.merge_options.same_change);
                        plan.push(Projection { path: path.clone(), raw: value });
                        assert(plan_view(plan@) =~= plan_view(before).push(projection_view(plan@.last())));
                    }
                }
            }
        }
        i += 1;
    }
    assert(all.take(i as int) =~= all);
    plan
}

/// What a list of materialized values says.
pub open spec fn values_view(values: Seq<Option<MaterializedValue>>) -> Seq<Option<MaterializedView>> {
    values.map_values(|value: Option<MaterializedValue>| opt_view(value))
}

/// The entries with those of the reshaped paths put in.
pub open spec fn with_reshaped(
    state: DiffStateView,
    facts: Map<Seq<char>, FactsView>,
    entries: Map<Seq<char>, Option<FileStats>>,
    plan: Seq<(Seq<char>, Seq<Option<TreeTermView>>)>,
    values: Seq<Option<MaterializedView>>,
) -> Map<Seq<char>, Option<FileStats>>
    decreases plan.len(),
{
    if plan.len() == 0 {
        entries
    } else {
        let path = plan.last().0;
        with_reshaped(state, facts, entries, plan.drop_last(), values).insert(
            path,
            values_diff(
                tree_entry(facts[path].parent),
                raw_entry(plan.last().1, values[plan.len() - 1]),
                state.style,
                state.options,
            ),
        )
    }
}

/// Stages the reshaped paths: each new stored value, as it was materialized, against the
/// parent's value.
pub fn stage_reshaped(
    staging: &mut Staging,
    state: &DiffState,
    facts: &FileTable<PathFacts>,
    plan: &Vec<Projection>,
    values: &Vec<Option<MaterializedValue>>,
)
    requires
        old(staging).wf(),
        state.wf(),
        facts.wf(),
        all_facts_ok(state@, facts@),
        plan@.len() == values@.len(),
        forall|i: int| 0 <= i < plan@.len() ==> facts@.contains_key((#[trigger] plan@[i]).path@),
        forall|i: int| 0 <= i < values@.len() ==> ((#[trigger] values@[i]) is Some ==> values@[i]->0.wf()),
    ensures
        final(staging).wf(),
        final(staging)@ == (StagingView {
            entries: with_reshaped(
                state@,
                facts@,
                old(staging)@.entries,
                plan_view(plan@),
                values_view(values@),
            ),
            ..old(staging)@
        }),
{
    let ghost start = *staging;
    let ghost all = plan_view(plan@);
    let ghost vals = values_view(values@);
    let mut i: usize = 0;
    while i < plan.len()
        invariant
            i <= plan.len() == values.len(),
            staging.wf(),
            state.wf(),
            facts.wf(),
            all_facts_ok(state@, facts@),
            all == plan_view(plan@),
            vals == values_view(values@),
            forall|k: int| 0 <= k < plan@.len() ==> facts@.contains_key((#[trigger] plan@[k]).path@),
            forall|k: int| 0 <= k < values@.len() ==> ((#[trigger] values@[k]) is Some ==> values@[k]->0.wf()),
            staging.writes == start.writes,
            staging.derived == start.derived,
            staging.overrides == start.overrides,
            staging.dropped == start.dropped,
            staging@.entries == with_reshaped(state@, facts@, start@.entries, all.take(i as int), vals),
        decreases plan.len() - i,
    {
        let item = &plan[i];
        proof {
            assert(all[i as int] == projection_view(*item));
            assert(vals[i as int] == opt_view(values@[i as int]));
            assert(all.take(i + 1).drop_last() =~= all.take(i as int));
            assert(all.take(i + 1).last() == all[i as int]);
        }
        if let Some(f) = facts.get(item.path.as_str()) {
            let new_entry = raw_wc_value(&item.raw, &values[i]);
            let parent_entry = f.parent.tree_wc_value();
            let entry = diff_wc_values(
                &parent_entry,
                &new_entry,
                state.conflict_marker_style,
                state.merge_options,
            );
            staging.entries.insert(item.path.clone(), entry);
        }
        i += 1;
    }
    assert(all.take(i as int) =~= all);
}

} // verus!
