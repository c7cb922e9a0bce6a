//! Simplification of merges: cancelling removed terms against equal added ones.
//!
//! The terms of a merge alternate: added, removed, added, and so on, with one more added
//! term than removed ones.

use vstd::prelude::*;

verus! {

/// The first place from `from` on, in steps of two, whose term equals the given one.
pub open spec fn first_equal(
    indices: Seq<int>,
    from: int,
    term: int,
    eq: spec_fn(int, int) -> bool,
) -> Option<int>
    decreases indices.len() + 1 - from,
{
    if from < 0 || from >= indices.len() {
        None
    } else if eq(indices[from], term) {
        Some(from)
    } else {
        first_equal(indices, from + 2, term, eq)
    }
}

/// The list after the added term at place `add` and the removed one at place `remove` have
/// cancelled: the added term that belongs to the removed one takes the free place.
pub open spec fn cancel(indices: Seq<int>, remove: int, add: int) -> Seq<int> {
    let swapped = indices.update(add, indices[remove + 1]).update(remove + 1, indices[add]);
    swapped.take(remove) + swapped.skip(remove + 2)
}

/// What is left of a list of terms once every added term from place `add` on has been
/// held against the removed ones.
pub open spec fn simplified_from(indices: Seq<int>, add: int, eq: spec_fn(int, int) -> bool) -> Seq<int>
    decreases indices.len() + 1 - add,
    when 0 <= add && indices.len() % 2 == 1
    via simplified_from_decreases
{
    if add >= indices.len() {
        indices
    } else {
        match first_equal(indices, 1, indices[add], eq) {
            Some(remove) => simplified_from(cancel(indices, remove, add), add, eq),
            None => simplified_from(indices, add + 2, eq),
        }
    }
}

#[via_fn]
proof fn simplified_from_decreases(indices: Seq<int>, add: int, eq: spec_fn(int, int) -> bool) {
    if add < indices.len() {
        lemma_first_equal(indices, 1, indices[add], eq);
        match first_equal(indices, 1, indices[add], eq) {
            Some(remove) => {
                let swapped = indices.update(add, indices[remove + 1]).update(remove + 1, indices[add]);
                assert(swapped.take(remove).len() == remove);
            },
            None => {},
        }
    }
}

proof fn lemma_first_equal(indices: Seq<int>, from: int, term: int, eq: spec_fn(int, int) -> bool)
    requires
        0 <= from,
    ensures
        match first_equal(indices, from, term, eq) {
            Some(place) => {
                &&& from <= place < indices.len()
                &&& place % 2 == from % 2
                &&& eq(indices[place], term)
            },
            None => forall|k: int| from <= k < indices.len() && k % 2 == from % 2 ==> !eq(#[trigger] indices[k], term),
        },
    decreases indices.len() + 1 - from,
{
    if from < indices.len() && !eq(indices[from], term) {
        lemma_first_equal(indices, from + 2, term, eq);
        if first_equal(indices, from, term, eq) is None {
            assert forall|k: int| from <= k < indices.len() && k % 2 == from % 2 implies !eq(
                #[trigger] indices[k],
                term,
            ) by {
                if k != from {
                    assert(k >= from + 2);
                }
            }
        }
    }
}

/// The terms that simplification leaves of a merge of `len` terms, by their places.
pub open spec fn simplified(len: nat, eq: spec_fn(int, int) -> bool) -> Seq<int> {
    simplified_from(Seq::new(len, |i: int| i), 0, eq)
}

/// Added terms stand on even places and removed ones on odd places, as they did at first.
pub open spec fn alternates(indices: Seq<int>, len: int) -> bool {
    &&& indices.len() % 2 == 1
    &&& forall|k: int| 0 <= k < indices.len() ==> 0 <= #[trigger] indices[k] < len && indices[k] % 2 == k % 2
}

/// The added terms on the places before `add` equal no removed term.
spec fn settled(indices: Seq<int>, add: int, eq: spec_fn(int, int) -> bool) -> bool {
    forall|a: int, r: int|
        #![trigger indices[a], indices[r]]
        0 <= a < add && a < indices.len() && a % 2 == 0 && 0 <= r < indices.len() && r % 2 == 1 ==> !eq(
            indices[r],
            indices[a],
        )
}

proof fn lemma_cancel(indices: Seq<int>, remove: int, add: int, len: int, eq: spec_fn(int, int) -> bool)
    requires
        alternates(indices, len),
        settled(indices, add, eq),
        0 <= add < indices.len(),
        add % 2 == 0,
        1 <= remove < indices.len(),
        remove % 2 == 1,
    ensures
        alternates(cancel(indices, remove, add), len),
        settled(cancel(indices, remove, add), add, eq),
        cancel(indices, remove, add).len() == indices.len() - 2,
        indices.no_duplicates() ==> cancel(indices, remove, add).no_duplicates(),
{
    let next = cancel(indices, remove, add);
    let swapped = indices.update(add, indices[remove + 1]).update(remove + 1, indices[add]);
    assert(next.len() == indices.len() - 2);
    assert forall|k: int| 0 <= k < next.len() implies #[trigger] next[k] == if k < remove {
        swapped[k]
    } else {
        swapped[k + 2]
    } by {}
    assert forall|k: int| 0 <= k < next.len() implies 0 <= #[trigger] next[k] < len && next[k] % 2 == k % 2 by {
        let old = if k < remove {
            k
        } else {
            k + 2
        };
        assert(next[k] == swapped[old]);
        assert(0 <= indices[old] < len && indices[old] % 2 == old % 2);
        assert(indices[add] % 2 == 0 && indices[remove + 1] % 2 == 0);
    }
    assert forall|a: int, r: int|
        #![trigger next[a], next[r]]
        0 <= a < add && a < next.len() && a % 2 == 0 && 0 <= r < next.len() && r % 2 == 1 implies !eq(
        next[r],
        next[a],
    ) by {
        let old_r = if r < remove {
            r
        } else {
            r + 2
        };
        let old_a = if a < remove {
            a
        } else {
            a + 2
        };
        assert(next[r] == indices[old_r]);
        if old_a == add {
            assert(next[a] == indices[remove + 1]);
        } else {
            assert(next[a] == indices[old_a]);
        }
    }
    if indices.no_duplicates() {
        assert forall|i: int, j: int| 0 <= i < next.len() && 0 <= j < next.len() && i != j implies next[i]
            != next[j] by {
            let oi = if i < remove {
                i
            } else {
                i + 2
            };
            let oj = if j < remove {
                j
            } else {
                j + 2
            };
            assert(next[i] == swapped[oi] && next[j] == swapped[oj]);
        }
    }
}

proof fn lemma_simplified_from(indices: Seq<int>, add: int, len: int, eq: spec_fn(int, int) -> bool)
    requires
        alternates(indices, len),
        settled(indices, add, eq),
        indices.no_duplicates(),
        0 <= add,
        add % 2 == 0,
    ensures
        alternates(simplified_from(indices, add, eq), len),
        settled(simplified_from(indices, add, eq), len, eq),
        simplified_from(indices, add, eq).no_duplicates(),
        simplified_from(indices, add, eq).len() <= indices.len(),
    decreases indices.len() + 1 - add,
{
    if add < indices.len() {
        lemma_first_equal(indices, 1, indices[add], eq);
        match first_equal(indices, 1, indices[add], eq) {
            Some(remove) => {
                lemma_cancel(indices, remove, add, len, eq);
                lemma_simplified_from(cancel(indices, remove, add), add, len, eq);
            },
            None => {
                lemma_simplified_from(indices, add + 2, len, eq);
            },
        }
    }
}

/// Simplification keeps the shape of a merge and leaves nothing to cancel: the terms that
/// stay are different ones, added terms on even places and removed ones on odd places,
/// and no added term that stays equals a removed one that stays.
pub proof fn simplified_is_settled(len: nat, eq: spec_fn(int, int) -> bool)
    requires
        len % 2 == 1,
    ensures
        alternates(simplified(len, eq), len as int),
        simplified(len, eq).no_duplicates(),
        simplified(len, eq).len() <= len,
        forall|a: int, r: int|
            #![trigger simplified(len, eq)[a], simplified(len, eq)[r]]
            0 <= a < simplified(len, eq).len() && a % 2 == 0 && 0 <= r < simplified(len, eq).len() && r % 2 == 1
                ==> !eq(simplified(len, eq)[r], simplified(len, eq)[a]),
{
    let all = Seq::new(len, |i: int| i);
    lemma_simplified_from(all, 0, len as int, eq);
    let left = simplified(len, eq);
    assert forall|a: int, r: int|
        #![trigger left[a], left[r]]
        0 <= a < left.len() && a % 2 == 0 && 0 <= r < left.len() && r % 2 == 1 implies !eq(left[r], left[a]) by {}
}

/// How often a value is added in excess of how often it is removed.
pub open spec fn net<A>(terms: Seq<A>, value: A) -> int
    decreases terms.len(),
{
    if terms.len() == 0 {
        0
    } else {
        net(terms.drop_last(), value) + if terms.last() != value {
            0int
        } else if terms.len() % 2 == 1 {
            1
        } else {
            -1
        }
    }
}

/// The terms on the given places.
pub open spec fn pick<A>(terms: Seq<A>, places: Seq<int>) -> Seq<A> {
    places.map_values(|place: int| terms[place])
}

/// What one place contributes to the net count of a value.
spec fn weight<A>(terms: Seq<A>, place: int, value: A) -> int {
    if terms[place] != value {
        0
    } else if place % 2 == 0 {
        1
    } else {
        -1
    }
}

proof fn lemma_net_update<A>(terms: Seq<A>, place: int, term: A, value: A)
    requires
        0 <= place < terms.len(),
    ensures
        net(terms.update(place, term), value) == net(terms, value) - weight(terms, place, value) + weight(
            terms.update(place, term),
            place,
            value,
        ),
    decreases terms.len(),
{
    if place == terms.len() - 1 {
        assert(terms.update(place, term).drop_last() =~= terms.drop_last());
    } else {
        assert(terms.update(place, term).drop_last() =~= terms.drop_last().update(place, term));
        lemma_net_update(terms.drop_last(), place, term, value);
    }
}

proof fn lemma_net_drop_pair<A>(terms: Seq<A>, place: int, value: A)
    requires
        0 <= place,
        place + 2 <= terms.len(),
    ensures
        net(terms.take(place) + terms.skip(place + 2), value) == net(terms, value) - weight(terms, place, value)
            - weight(terms, place + 1, value),
    decreases terms.len(),
{
    reveal_with_fuel(net, 3);
    let rest = terms.take(place) + terms.skip(place + 2);
    assert(rest.len() == terms.len() - 2);
    if place + 2 == terms.len() {
        assert(rest =~= terms.drop_last().drop_last());
        assert(terms.drop_last().last() == terms[place]);
    } else {
        let shorter = terms.drop_last();
        lemma_net_drop_pair(shorter, place, value);
        assert(rest.drop_last() =~= shorter.take(place) + shorter.skip(place + 2));
        assert(rest.last() == terms.last());
        assert(weight(shorter, place, value) == weight(terms, place, value));
        assert(weight(shorter, place + 1, value) == weight(terms, place + 1, value));
    }
}

proof fn lemma_net_cancel<A>(terms: Seq<A>, indices: Seq<int>, remove: int, add: int, value: A)
    requires
        0 <= add < indices.len(),
        add % 2 == 0,
        1 <= remove,
        remove + 1 < indices.len(),
        remove % 2 == 1,
        terms[indices[remove]] == terms[indices[add]],
    ensures
        net(pick(terms, cancel(indices, remove, add)), value) == net(pick(terms, indices), value),
{
    let all = pick(terms, indices);
    let x = all[remove + 1];
    let y = all[add];
    let one = all.update(add, x);
    let two = one.update(remove + 1, y);
    lemma_net_update(all, add, x, value);
    lemma_net_update(one, remove + 1, y, value);
    lemma_net_drop_pair(two, remove, value);
    let swapped = indices.update(add, indices[remove + 1]).update(remove + 1, indices[add]);
    assert(pick(terms, swapped) =~= two);
    assert(pick(terms, cancel(indices, remove, add)) =~= two.take(remove) + two.skip(remove + 2));
}

proof fn lemma_net_simplified_from<A>(
    terms: Seq<A>,
    indices: Seq<int>,
    add: int,
    len: int,
    eq: spec_fn(int, int) -> bool,
    value: A,
)
    requires
        alternates(indices, len),
        0 <= add,
        add % 2 == 0,
        forall|i: int, j: int| #[trigger] eq(i, j) ==> terms[i] == terms[j],
    ensures
        net(pick(terms, simplified_from(indices, add, eq)), value) == net(pick(terms, indices), value),
    decreases indices.len() + 1 - add,
{
    if add < indices.len() {
        lemma_first_equal(indices, 1, indices[add], eq);
        match first_equal(indices, 1, indices[add], eq) {
            Some(remove) => {
                lemma_net_cancel(terms, indices, remove, add, value);
                assert(settled(indices, 0, eq));
                lemma_cancel_shape(indices, remove, add, len);
                lemma_net_simplified_from(terms, cancel(indices, remove, add), add, len, eq, value);
            },
            None => {
                lemma_net_simplified_from(terms, indices, add + 2, len, eq, value);
            },
        }
    }
}

proof fn lemma_cancel_shape(indices: Seq<int>, remove: int, add: int, len: int)
    requires
        alternates(indices, len),
        0 <= add < indices.len(),
        add % 2 == 0,
        1 <= remove < indices.len(),
        remove % 2 == 1,
    ensures
        alternates(cancel(indices, remove, add), len),
        cancel(indices, remove, add).len() == indices.len() - 2,
{
    lemma_cancel(indices, remove, add, len, |i: int, j: int| false);
}

/// Simplification keeps the sum of a merge: every value is added in excess of its
/// removals as often after it as before.
pub proof fn simplified_keeps_net<A>(terms: Seq<A>, eq: spec_fn(int, int) -> bool, value: A)
    requires
        terms.len() % 2 == 1,
        forall|i: int, j: int| #[trigger] eq(i, j) ==> terms[i] == terms[j],
    ensures
        net(pick(terms, simplified(terms.len(), eq)), value) == net(terms, value),
{
    let all = Seq::new(terms.len(), |i: int| i);
    lemma_net_simplified_from(terms, all, 0, terms.len() as int, eq, value);
    assert(pick(terms, all) =~= terms);
}

proof fn lemma_first_equal_same(
    indices: Seq<int>,
    from: int,
    term: int,
    len: int,
    eq: spec_fn(int, int) -> bool,
    other: spec_fn(int, int) -> bool,
)
    requires
        0 <= from,
        alternates(indices, len),
        0 <= term < len,
        forall|i: int, j: int| 0 <= i < len && 0 <= j < len ==> #[trigger] eq(i, j) == other(i, j),
    ensures
        first_equal(indices, from, term, eq) == first_equal(indices, from, term, other),
    decreases indices.len() + 1 - from,
{
    if from < indices.len() {
        assert(eq(indices[from], term) == other(indices[from], term));
        lemma_first_equal_same(indices, from + 2, term, len, eq, other);
    }
}

proof fn lemma_simplified_from_same(
    indices: Seq<int>,
    add: int,
    len: int,
    eq: spec_fn(int, int) -> bool,
    other: spec_fn(int, int) -> bool,
)
    requires
        alternates(indices, len),
        0 <= add,
        add % 2 == 0,
        forall|i: int, j: int| 0 <= i < len && 0 <= j < len ==> #[trigger] eq(i, j) == other(i, j),
    ensures
        simplified_from(indices, add, eq) == simplified_from(indices, add, other),
    decreases indices.len() + 1 - add,
{
    if add < indices.len() {
        lemma_first_equal_same(indices, 1, indices[add], len, eq, other);
        lemma_first_equal(indices, 1, indices[add], eq);
        match first_equal(indices, 1, indices[add], eq) {
            Some(remove) => {
                lemma_cancel_shape(indices, remove, add, len);
                lemma_simplified_from_same(cancel(indices, remove, add), add, len, eq, other);
            },
            None => {
                lemma_simplified_from_same(indices, add + 2, len, eq, other);
            },
        }
    }
}

/// Simplification depends only on which of the terms are equal.
pub proof fn simplified_same(len: nat, eq: spec_fn(int, int) -> bool, other: spec_fn(int, int) -> bool)
    requires
        len % 2 == 1,
        forall|i: int, j: int| 0 <= i < len && 0 <= j < len ==> #[trigger] eq(i, j) == other(i, j),
    ensures
        simplified(len, eq) == simplified(len, other),
{
    lemma_simplified_from_same(Seq::new(len, |i: int| i), 0, len as int, eq, other);
}

/// A value that is not among the terms has no net count.
pub proof fn lemma_net_absent<A>(terms: Seq<A>, value: A)
    requires
        !terms.contains(value),
    ensures
        net(terms, value) == 0,
    decreases terms.len(),
{
    if terms.len() > 0 {
        assert(terms.last() == terms[terms.len() - 1]);
        assert forall|i: int| 0 <= i < terms.len() - 1 implies terms.drop_last()[i] != value by {
            assert(terms[i] != value);
        }
        lemma_net_absent(terms.drop_last(), value);
    }
}

/// Net counts stay the same when the terms get other names.
pub proof fn lemma_net_renamed<A, B>(a: Seq<A>, b: Seq<B>, x: A, y: B)
    requires
        a.len() == b.len(),
        forall|i: int| 0 <= i < a.len() ==> ((#[trigger] a[i] == x) == (b[i] == y)),
    ensures
        net(a, x) == net(b, y),
    decreases a.len(),
{
    if a.len() > 0 {
        assert(a.last() == a[a.len() - 1]);
        assert forall|i: int| 0 <= i < a.len() - 1 implies ((#[trigger] a.drop_last()[i] == x) == (b.drop_last()[i]
            == y)) by {
            assert(a[i] == a.drop_last()[i]);
        }
        lemma_net_renamed(a.drop_last(), b.drop_last(), x, y);
    }
}

/// Places as mathematical integers.
pub open spec fn places(indices: Seq<usize>) -> Seq<int> {
    indices.map_values(|i: usize| i as int)
}

/// Which terms a table takes for equal.
pub open spec fn table_eq(eq: Seq<Vec<bool>>) -> spec_fn(int, int) -> bool {
    |i: int, j: int| eq[i]@[j]
}

/// The table answers for every pair of `len` terms.
pub open spec fn is_table(eq: Seq<Vec<bool>>, len: int) -> bool {
    &&& eq.len() == len
    &&& forall|i: int| 0 <= i < len ==> (#[trigger] eq[i])@.len() == len
}

fn find_equal(indices: &Vec<usize>, term: usize, eq: &Vec<Vec<bool>>, len: usize) -> (r: Option<usize>)
    requires
        is_table(eq@, len as int),
        alternates(places(indices@), len as int),
        term < len,
        indices.len() < usize::MAX,
    ensures
        r is Some == first_equal(places(indices@), 1, term as int, table_eq(eq@)) is Some,
        r is Some ==> r->0 as int == first_equal(places(indices@), 1, term as int, table_eq(eq@))->0,
{
    let mut k: usize = 1;
    while k < indices.len()
        invariant
            is_table(eq@, len as int),
            alternates(places(indices@), len as int),
            term < len,
            indices.len() < usize::MAX,
            k % 2 == 1,
            first_equal(places(indices@), k as int, term as int, table_eq(eq@)) == first_equal(
                places(indices@),
                1,
                term as int,
                table_eq(eq@),
            ),
        decreases indices.len() + 1 - k,
    {
        assert(places(indices@)[k as int] == indices@[k as int]);
        if eq[indices[k]][term] {
            return Some(k);
        }
        k += 2;
    }
    None
}

fn cancel_pair(indices: &mut Vec<usize>, remove: usize, add: usize)
    requires
        add < old(indices).len(),
        remove + 1 < old(indices).len(),
    ensures
        places(final(indices)@) == cancel(places(old(indices)@), remove as int, add as int),
        final(indices).len() == old(indices).len() - 2,
{
    let ghost before = indices@;
    let moved: usize = indices[remove + 1];
    let matched: usize = indices[add];
    indices.set(add, moved);
    indices.set(remove + 1, matched);
    let ghost swapped = indices@;
    indices.remove(remove + 1);
    indices.remove(remove);
    assert(places(indices@) =~= cancel(places(before), remove as int, add as int)) by {
        assert(indices@ =~= swapped.take(remove as int) + swapped.skip(remove + 2));
    }
}

/// Simplification of a merge of `len` terms under the equality that a table holds: cancel
/// (remove, add) pairs whose terms compare equal, returning the surviving original
/// indices (interleaved add/remove order preserved).
pub fn simplified_mapping_by(len: usize, eq: &Vec<Vec<bool>>) -> (r: Vec<usize>)
    requires
        len % 2 == 1,
        len < usize::MAX,
        is_table(eq@, len as int),
    ensures
        places(r@) == simplified(len as nat, table_eq(eq@)),
        r@.len() % 2 == 1,
        r@.len() <= len,
        forall|k: int| 0 <= k < r@.len() ==> #[trigger] r@[k] < len,
{
    let mut indices: Vec<usize> = Vec::new();
    let mut i: usize = 0;
    while i < len
        invariant
            i <= len,
            indices.len() == i,
            forall|k: int| 0 <= k < i ==> indices@[k] == k,
        decreases len - i,
    {
        indices.push(i);
        i += 1;
    }
    assert(places(indices@) =~= Seq::new(len as nat, |k: int| k));
    let ghost same = table_eq(eq@);
    let mut add: usize = 0;
    while add < indices.len()
        invariant
            len < usize::MAX,
            is_table(eq@, len as int),
            same == table_eq(eq@),
            add % 2 == 0,
            indices.len() <= len,
            alternates(places(indices@), len as int),
            simplified_from(places(indices@), add as int, same) == simplified(len as nat, same),
        decreases indices.len() + 1 - add,
    {
        let ghost now = places(indices@);
        let term: usize = indices[add];
        assert(now[add as int] == term);
        proof {
            lemma_first_equal(now, 1, term as int, same);
        }
        match find_equal(&indices, term, eq, len) {
            Some(remove) => {
                proof {
                    lemma_cancel_shape(now, remove as int, add as int, len as int);
                }
                cancel_pair(&mut indices, remove, add);
                assert(places(indices@) =~= cancel(now, remove as int, add as int));
            },
            None => {
                add += 2;
            },
        }
    }
    assert forall|k: int| 0 <= k < indices@.len() implies #[trigger] indices@[k] < len by {
        assert(places(indices@)[k] == indices@[k]);
    }
    indices
}

} // verus!
