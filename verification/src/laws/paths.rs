//! Paths, and the order of strings.

use crate::paths::{
    batch_of, first_resolved, has_root, is_dot, joined, lemma_parts_behind, lemma_parts_in_front, lemma_parts_ok, names, normal, part_end, part_text, parts, parts_from, path_starts_with,
    real_path, repo_relative, same_path, slash_joined, stripped, text_from, with_slashes,
};
use crate::strings::{
    bytes_before, in_order, lists_in_order, str_before, str_before_is_total, str_before_is_transitive, str_le,
};
use vstd::prelude::*;
use vstd::utf8::encode_utf8;

verus! {

proof fn lemma_one_part(name: Seq<char>, from: int)
    requires
        0 <= from <= name.len(),
        forall|i: int| 0 <= i < name.len() ==> #[trigger] name[i] != '/',
    ensures
        part_end(name, from) == name.len(),
    decreases name.len() - from,
{
    if from < name.len() {
        lemma_one_part(name, from + 1);
    }
}

/// A name without a slash is the only component of itself, and behind a directory it is one
/// more component; a dot adds none.
pub proof fn one_more_name_is_one_more_component(dir: Seq<char>, name: Seq<char>)
    requires
        dir.len() > 0,
        name.len() > 0,
        !name.contains('/'),
    ensures
        names(name) == seq![name],
        name != seq!['.'] ==> names(dir + seq!['/'] + name) == names(dir).push(name),
        has_root(dir + seq!['/'] + name) == has_root(dir),
{
    assert forall|i: int| 0 <= i < name.len() implies #[trigger] name[i] != '/' by {
        assert(name.contains(name[i]));
    }
    lemma_one_part(name, 0);
    let len = name.len() as int;
    assert(parts_from(name, len) =~= Seq::empty());
    assert(parts(name) =~= seq![(0int, len)]);
    assert(name.subrange(0, len) =~= name);
    assert(names(name) =~= seq![name]);
    let front = dir + seq!['/'];
    let whole = front + name;
    assert(whole[0] == dir[0]);
    if name != seq!['.'] {
        assert(!is_dot(name, 0, len)) by {
            if is_dot(name, 0, len) {
                assert(name =~= seq!['.']);
            }
        }
        assert(front.last() == '/');
        lemma_parts_in_front(front, name, 0);
        lemma_parts_behind(front, name, 0);
        lemma_parts_in_front(dir, seq!['/'], 0);
        assert(front[dir.len() as int] == '/');
        assert(parts_from(front, dir.len() as int + 1) =~= Seq::empty());
        assert(parts_from(front, dir.len() as int) =~= Seq::empty());
        assert(parts(front) =~= parts(dir));
        let shift = |part: (int, int)| (front.len() + part.0, front.len() + part.1);
        assert(parts(name).map_values(shift) =~= seq![(front.len() as int, front.len() + len)]);
        assert(parts(whole) =~= parts(dir).push((front.len() as int, front.len() + len)));
        lemma_parts_ok(dir, 0);
        assert forall|i: int| 0 <= i < names(dir).len() implies names(whole)[i] == names(dir)[i] by {
            let part = parts(dir)[i];
            assert(parts(whole)[i] == part);
            assert(part_text(whole, part) =~= part_text(dir, part));
        }
        assert(whole.subrange(front.len() as int, front.len() + len) =~= name);
        assert(names(whole) =~= names(dir).push(name));
    }
}

/// A path is below a directory where its components start with those of the directory, one
/// by one, and both start at the root or neither does: a name that only begins alike is
/// another directory.
pub proof fn below_means_component_by_component(path: Seq<char>, dir: Seq<char>, i: int)
    ensures
        path_starts_with(path, dir) ==> names(dir).len() <= names(path).len() && (0 <= i < names(dir).len()
            ==> names(path)[i] == names(dir)[i]),
        0 <= i < names(dir).len() && i < names(path).len() && names(path)[i] != names(dir)[i] ==> !path_starts_with(
            path,
            dir,
        ),
        names(dir).len() > names(path).len() ==> !path_starts_with(path, dir),
        has_root(dir) && !has_root(path) ==> !path_starts_with(path, dir),
        path_starts_with(path, path),
        has_root(path) == has_root(dir) && names(dir).is_prefix_of(names(path)) ==> path_starts_with(path, dir),
        stripped(path, dir) is Some <==> path_starts_with(path, dir),
{
    let n = names(dir).len() as int;
    if path_starts_with(path, dir) && 0 <= i < n {
        assert(names(path).take(n)[i] == names(path)[i]);
    }
    if 0 <= i < n && i < names(path).len() && names(path)[i] != names(dir)[i] && path_starts_with(path, dir) {
        assert(names(path).take(n)[i] == names(path)[i]);
    }
    assert(names(path).take(names(path).len() as int) =~= names(path));
    if names(dir).is_prefix_of(names(path)) {
        assert(names(path).take(n) =~= names(dir));
    }
}

/// A relative path goes behind a directory with one slash between them; a path from the root
/// stays as it is.
pub proof fn paths_are_put_behind_a_directory(dir: Seq<char>, rest: Seq<char>)
    ensures
        has_root(rest) ==> joined(dir, rest) == rest,
        !has_root(rest) && dir.len() > 0 && dir.last() != '/' ==> joined(dir, rest) == dir.push('/') + rest,
        !has_root(rest) && (dir.len() == 0 || dir.last() == '/') ==> joined(dir, rest) == dir + rest,
        rest.len() > 0 && rest[0] == '/' <==> has_root(rest),
{
    assert(dir + seq!['/'] =~= dir.push('/'));
}

/// The components of a path with one slash between each two are how it is written plainly.
pub proof fn plain_paths_have_one_slash_between(list: Seq<Seq<char>>, name: Seq<char>, path: Seq<char>)
    ensures
        slash_joined(Seq::empty()).len() == 0,
        slash_joined(seq![name]) == name,
        list.len() > 0 ==> slash_joined(list.push(name)) == slash_joined(list).push('/') + name,
        has_root(path) ==> normal(path) == seq!['/'] + slash_joined(names(path)),
        !has_root(path) ==> normal(path) == slash_joined(names(path)),
{
    assert(list.push(name).drop_last() =~= list);
    assert(list.push(name).last() == name);
    assert(slash_joined(list) + seq!['/'] =~= slash_joined(list).push('/'));
}

/// Backslashes become slashes and nothing else changes.
pub proof fn backslashes_become_slashes(path: Seq<char>, i: int)
    ensures
        with_slashes(path).len() == path.len(),
        0 <= i < path.len() && path[i] == '\\' ==> with_slashes(path)[i] == '/',
        0 <= i < path.len() && path[i] != '\\' ==> with_slashes(path)[i] == path[i],
{
}

/// A changed path that no other one of the batch has the components of is in the batch by its
/// repo-relative path where it has one; one that came before is not repeated.
pub proof fn changed_paths_are_in_the_batch_once(
    root: Seq<char>,
    changed: Seq<(Seq<char>, Seq<Option<Seq<char>>>)>,
    path: Seq<char>,
    resolved: Seq<Option<Seq<char>>>,
)
    ensures
        ({
            let before = batch_of(root, changed);
            let after = batch_of(root, changed.push((path, resolved)));
            let seen = exists|i: int|
                0 <= i < changed.len() && has_root(#[trigger] changed[i].0) == has_root(path) && names(changed[i].0)
                    == names(path);
            &&& seen ==> after == before
            &&& !seen && repo_relative(root, path, resolved) is None ==> after == before
            &&& !seen && repo_relative(root, path, resolved) is Some ==> after == before.push(
                repo_relative(root, path, resolved)->0,
            )
        }),
        batch_of(root, Seq::empty()).len() == 0,
{
    let more = changed.push((path, resolved));
    assert(more.drop_last() =~= changed);
    assert(more.last() == (path, resolved));
    if exists|i: int|
        0 <= i < changed.len() && has_root(#[trigger] changed[i].0) == has_root(path) && names(changed[i].0) == names(
            path,
        ) {
        let i = choose|i: int|
            0 <= i < changed.len() && has_root(#[trigger] changed[i].0) == has_root(path) && names(changed[i].0)
                == names(path);
        assert(same_path(changed[i].0, path));
    }
    if exists|i: int| 0 <= i < changed.len() && same_path(#[trigger] changed[i].0, path) {
        let i = choose|i: int| 0 <= i < changed.len() && same_path(#[trigger] changed[i].0, path);
        assert(has_root(changed[i].0) == has_root(path));
    }
}

/// The repo-relative path of a path below the root is what follows the root; of any other one
/// it is what follows it in its real path, where that is below the root.
pub proof fn real_paths_are_looked_at_too(root: Seq<char>, path: Seq<char>, resolved: Seq<Option<Seq<char>>>)
    ensures
        stripped(path, root) matches Some(rel) ==> repo_relative(root, path, resolved) == Some(with_slashes(rel)),
        stripped(path, root) is None && real_path(path, resolved) is None ==> repo_relative(root, path, resolved)
            is None,
        stripped(path, root) is None && real_path(path, resolved) is Some ==> {
            let actual = real_path(path, resolved)->0;
            &&& stripped(actual, root) is None ==> repo_relative(root, path, resolved) is None
            &&& stripped(actual, root) matches Some(rel) ==> repo_relative(root, path, resolved) == Some(
                with_slashes(rel),
            )
        },
        resolved.len() > 0 && resolved[0] is Some ==> real_path(path, resolved) == resolved[0],
        (forall|i: int| 0 <= i < resolved.len() ==> (#[trigger] resolved[i]) is None) ==> real_path(path, resolved) is None,
{
    let n = parts(path).len() + 1;
    let known = if resolved.len() < n {
        resolved
    } else {
        resolved.take(n as int)
    };
    if forall|i: int| 0 <= i < resolved.len() ==> (#[trigger] resolved[i]) is None {
        assert forall|i: int| 0 <= i < known.len() implies (#[trigger] known[i]) is None by {
            assert(known[i] == resolved[i]);
        }
        lemma_none_resolved(known, 0);
    }
    if resolved.len() > 0 && resolved[0] is Some {
        assert(known[0] == resolved[0]);
    }
}

proof fn lemma_none_resolved(known: Seq<Option<Seq<char>>>, from: int)
    requires
        0 <= from,
        forall|i: int| 0 <= i < known.len() ==> (#[trigger] known[i]) is None,
    ensures
        first_resolved(known, from) is None,
    decreases known.len() - from,
{
    if from < known.len() {
        lemma_none_resolved(known, from + 1);
    }
}

/// Where a path cannot be resolved but its nearest ancestor that can is so many components
/// up, its real path is that of the ancestor with these components behind it.
pub proof fn nearest_ancestor_gives_the_real_path(path: Seq<char>, resolved: Seq<Option<Seq<char>>>, up: int)
    requires
        0 < up <= parts(path).len(),
        up < resolved.len(),
        resolved[up] is Some,
        forall|i: int| 0 <= i < up ==> (#[trigger] resolved[i]) is None,
    ensures
        real_path(path, resolved) == Some(joined(resolved[up]->0, text_from(path, parts(path).len() - up))),
{
    let n = parts(path).len() + 1;
    let known = if resolved.len() < n {
        resolved
    } else {
        resolved.take(n as int)
    };
    assert forall|i: int| 0 <= i < up implies (#[trigger] known[i]) is None by {
        assert(known[i] == resolved[i]);
    }
    assert(known[up] == resolved[up]);
    lemma_resolved_at(known, 0, up);
}

proof fn lemma_resolved_at(known: Seq<Option<Seq<char>>>, from: int, up: int)
    requires
        0 <= from <= up < known.len(),
        known[up] is Some,
        forall|i: int| 0 <= i < up ==> (#[trigger] known[i]) is None,
    ensures
        first_resolved(known, from) == Some(up),
    decreases up - from,
{
    if from < up {
        lemma_resolved_at(known, from + 1, up);
    }
}

/// Strings are in the order of their bytes: by the first one that differs, and a string comes
/// before any that goes on from it.
pub proof fn strings_are_ordered_by_bytes(a: Seq<char>, b: Seq<char>, k: int)
    requires
        0 <= k <= encode_utf8(a).len(),
        k <= encode_utf8(b).len(),
        encode_utf8(a).take(k) == encode_utf8(b).take(k),
    ensures
        k == encode_utf8(a).len() && k < encode_utf8(b).len() ==> str_before(a, b),
        k == encode_utf8(b).len() ==> !str_before(a, b),
        k < encode_utf8(a).len() && k < encode_utf8(b).len() && encode_utf8(a)[k] < encode_utf8(b)[k] ==> str_before(
            a,
            b,
        ),
        k < encode_utf8(a).len() && k < encode_utf8(b).len() && encode_utf8(a)[k] > encode_utf8(b)[k] ==> !str_before(
            a,
            b,
        ),
{
    lemma_first_difference(encode_utf8(a), encode_utf8(b), k);
}

proof fn lemma_first_difference(a: Seq<u8>, b: Seq<u8>, k: int)
    requires
        0 <= k <= a.len(),
        k <= b.len(),
        a.take(k) == b.take(k),
    ensures
        k == a.len() && k < b.len() ==> bytes_before(a, b),
        k == b.len() ==> !bytes_before(a, b),
        k < a.len() && k < b.len() && a[k] != b[k] ==> (bytes_before(a, b) <==> a[k] < b[k]),
    decreases k,
{
    if k > 0 {
        assert(a[0] == a.take(k)[0] && b[0] == b.take(k)[0]);
        let x = a.drop_first();
        let y = b.drop_first();
        assert(x.take(k - 1) =~= a.take(k).drop_first());
        assert(y.take(k - 1) =~= b.take(k).drop_first());
        lemma_first_difference(x, y, k - 1);
    }
}

proof fn lemma_to_seq(set: Set<Seq<char>>)
    requires
        set.finite(),
    ensures
        set.to_seq().no_duplicates(),
        set.to_seq().to_set() == set,
    decreases set.len(),
{
    set.lemma_to_seq_to_set_id();
    if set.len() > 0 {
        let x = set.choose();
        let rest = set.remove(x).to_seq();
        lemma_to_seq(set.remove(x));
        let all = Seq::<Seq<char>>::empty().push(x) + rest;
        assert forall|i: int, j: int| 0 <= i < all.len() && 0 <= j < all.len() && i != j implies all[i] != all[j] by {
            if i == 0 {
                assert(all[j] == rest[j - 1]);
                assert(rest.to_set().contains(rest[j - 1]));
            } else if j == 0 {
                assert(all[i] == rest[i - 1]);
                assert(rest.to_set().contains(rest[i - 1]));
            } else {
                assert(all[i] == rest[i - 1] && all[j] == rest[j - 1]);
            }
        }
    }
}

/// The members of a finite set, in order, are all there, each once.
pub proof fn every_member_is_listed(set: Set<Seq<char>>, member: Seq<char>)
    requires
        set.finite(),
    ensures
        lists_in_order(in_order(set), set),
        in_order(set).contains(member) <==> set.contains(member),
        in_order(set).no_duplicates(),
        in_order(set).len() == set.len(),
{
    let leq = |x: Seq<char>, y: Seq<char>| str_le(x, y);
    assert forall|x: Seq<char>, y: Seq<char>, z: Seq<char>| #[trigger] leq(x, y) && #[trigger] leq(y, z) implies leq(
        x,
        z,
    ) by {
        str_before_is_total(x, y);
        str_before_is_total(y, z);
        str_before_is_total(x, z);
        if x != y && y != z {
            str_before_is_transitive(x, y, z);
        }
    }
    assert forall|x: Seq<char>, y: Seq<char>| #[trigger] leq(x, y) && #[trigger] leq(y, x) implies x == y by {
        str_before_is_total(x, y);
    }
    assert forall|x: Seq<char>| #[trigger] leq(x, x) by {
        str_before_is_total(x, x);
    }
    assert forall|x: Seq<char>, y: Seq<char>| #[trigger] leq(x, y) || #[trigger] leq(y, x) by {
        str_before_is_total(x, y);
    }
    assert(vstd::relations::total_ordering(leq));
    lemma_to_seq(set);
    let list = set.to_seq();
    let sorted = list.sort_by(leq);
    list.lemma_sort_by_ensures(leq);
    list.lemma_multiset_has_no_duplicates();
    sorted.lemma_multiset_has_no_duplicates_conv();
    assert forall|x: Seq<char>| sorted.to_set().contains(x) <==> list.to_set().contains(x) by {
        vstd::seq_lib::to_multiset_contains(sorted, x);
        vstd::seq_lib::to_multiset_contains(list, x);
    }
    assert(sorted.to_set() =~= set);
    assert forall|i: int, j: int| 0 <= i < j < sorted.len() implies str_le(
        #[trigger] sorted[i],
        #[trigger] sorted[j],
    ) by {
        assert(leq(sorted[i], sorted[j]));
    }
    assert(lists_in_order(sorted, set));
    let chosen = in_order(set);
    assert(chosen.contains(member) <==> chosen.to_set().contains(member));
    chosen.unique_seq_to_set();
}

} // verus!
