//! Unix paths: their components, prefixes and parents.

use crate::strings::{from_chars, to_chars, views};
use crate::staging::lemma_views_push;
use vstd::prelude::*;
use vstd::string::StringExecFns;

verus! {

/// The end of the component that starts at a place.
pub open spec fn part_end(path: Seq<char>, from: int) -> int
    decreases path.len() - from,
{
    if from < 0 || from >= path.len() || path[from] == '/' {
        from
    } else {
        part_end(path, from + 1)
    }
}

/// Whether a component is a single dot.
pub open spec fn is_dot(path: Seq<char>, from: int, to: int) -> bool {
    to == from + 1 && path[from] == '.'
}

/// The components from a place on, each by its start and end. Repeated slashes and dots
/// are no components, except for a dot at the very start.
pub open spec fn parts_from(path: Seq<char>, from: int) -> Seq<(int, int)>
    decreases path.len() - from,
    when from >= 0
    via parts_from_decreases
{
    if from >= path.len() {
        Seq::empty()
    } else if path[from] == '/' {
        parts_from(path, from + 1)
    } else {
        let end = part_end(path, from);
        if is_dot(path, from, end) && from > 0 {
            parts_from(path, end)
        } else {
            seq![(from, end)] + parts_from(path, end)
        }
    }
}

#[via_fn]
proof fn parts_from_decreases(path: Seq<char>, from: int) {
    lemma_part_end(path, from);
}

proof fn lemma_part_end(path: Seq<char>, from: int)
    requires
        0 <= from,
    ensures
        from <= part_end(path, from),
        from <= path.len() ==> part_end(path, from) <= path.len(),
        from < path.len() && path[from] != '/' ==> part_end(path, from) > from,
        forall|i: int| from <= i < part_end(path, from) ==> path[i] != '/',
        from <= path.len() && part_end(path, from) < path.len() ==> path[part_end(path, from)] == '/',
    decreases path.len() - from,
{
    if from < path.len() && path[from] != '/' {
        lemma_part_end(path, from + 1);
    }
}

/// The components of a path, without its root.
pub open spec fn parts(path: Seq<char>) -> Seq<(int, int)> {
    parts_from(path, 0)
}

/// Whether a path starts at the root.
pub open spec fn has_root(path: Seq<char>) -> bool {
    path.len() > 0 && path[0] == '/'
}

/// The text of a component.
pub open spec fn part_text(path: Seq<char>, part: (int, int)) -> Seq<char> {
    path.subrange(part.0, part.1)
}

/// The texts of the components of a path.
pub open spec fn names(path: Seq<char>) -> Seq<Seq<char>> {
    parts(path).map_values(|part: (int, int)| part_text(path, part))
}

/// The parts lie in the path, in order, and none is empty.
pub open spec fn parts_ok(list: Seq<(int, int)>, from: int, len: int) -> bool {
    &&& forall|i: int| 0 <= i < list.len() ==> from <= (#[trigger] list[i]).0 < list[i].1 <= len
    &&& forall|i: int, j: int| 0 <= i < j < list.len() ==> (#[trigger] list[i]).1 <= (#[trigger] list[j]).0
}

pub proof fn lemma_parts_ok(path: Seq<char>, from: int)
    requires
        0 <= from,
    ensures
        parts_ok(parts_from(path, from), from, path.len() as int),
    decreases path.len() - from,
{
    if from < path.len() {
        if path[from] == '/' {
            lemma_parts_ok(path, from + 1);
        } else {
            let end = part_end(path, from);
            lemma_part_end(path, from);
            lemma_parts_ok(path, end);
            let rest = parts_from(path, end);
            let all = parts_from(path, from);
            if !(is_dot(path, from, end) && from > 0) {
                assert forall|i: int| 0 <= i < all.len() implies from <= (#[trigger] all[i]).0 < all[i].1
                    <= path.len() by {
                    if i > 0 {
                        assert(all[i] == rest[i - 1]);
                    }
                }
                assert forall|i: int, j: int| 0 <= i < j < all.len() implies (#[trigger] all[i]).1 <= (
                #[trigger] all[j]).0 by {
                    assert(all[j] == rest[j - 1]);
                    if i > 0 {
                        assert(all[i] == rest[i - 1]);
                    }
                }
            }
        }
    }
}

/// A place of a component as a pair of mathematical integers.
pub open spec fn part_view(part: (usize, usize)) -> (int, int) {
    (part.0 as int, part.1 as int)
}

/// The components of a path, each by its start and end.
pub fn split_parts(path: &Vec<char>) -> (r: Vec<(usize, usize)>)
    ensures
        r@.map_values(|p: (usize, usize)| part_view(p)) == parts(path@),
        parts_ok(parts(path@), 0, path@.len() as int),
{
    let mut out: Vec<(usize, usize)> = Vec::new();
    let mut at: usize = 0;
    let ghost view = |p: (usize, usize)| part_view(p);
    proof {
        lemma_parts_ok(path@, 0);
        assert(out@.map_values(view) + parts_from(path@, 0) =~= parts(path@));
    }
    while at < path.len()
        invariant
            at <= path.len(),
            view == (|p: (usize, usize)| part_view(p)),
            out@.map_values(view) + parts_from(path@, at as int) == parts(path@),
        decreases path.len() - at,
    {
        if path[at] == '/' {
            at += 1;
        } else {
            let start: usize = at;
            proof {
                lemma_part_end(path@, start as int);
            }
            while at < path.len() && path[at] != '/'
                invariant
                    start <= at <= path.len(),
                    part_end(path@, at as int) == part_end(path@, start as int),
                decreases path.len() - at,
            {
                at += 1;
            }
            assert(at == part_end(path@, start as int));
            let dot: bool = at == start + 1 && path[start] == '.';
            if !(dot && start > 0) {
                let ghost before = out@;
                out.push((start, at));
                proof {
                    assert(out@.map_values(view) =~= before.map_values(view).push((start as int, at as int)));
                    assert(out@.map_values(view) + parts_from(path@, at as int) =~= before.map_values(view) + (
                    seq![(start as int, at as int)] + parts_from(path@, at as int)));
                }
            }
        }
    }
    assert(out@.map_values(view) + parts_from(path@, at as int) =~= out@.map_values(view));
    out
}

/// Whether the components of a path start with those of another one.
pub open spec fn path_starts_with(path: Seq<char>, base: Seq<char>) -> bool {
    &&& has_root(base) ==> has_root(path)
    &&& names(base).len() > 0 ==> has_root(base) == has_root(path)
    &&& names(base).len() <= names(path).len()
    &&& names(base) == names(path).take(names(base).len() as int)
}

/// The text of a path from a component on to its last one.
pub open spec fn text_from(path: Seq<char>, first: int) -> Seq<char> {
    let all = parts(path);
    if first < all.len() {
        path.subrange(all[first].0, all.last().1)
    } else {
        Seq::empty()
    }
}

/// What is left of a path after the components of a base that it starts with.
pub open spec fn stripped(path: Seq<char>, base: Seq<char>) -> Option<Seq<char>> {
    if !path_starts_with(path, base) {
        None
    } else if has_root(path) && !has_root(base) {
        Some(
            if parts(path).len() > 0 {
                path.take(parts(path).last().1)
            } else {
                path.take(1)
            },
        )
    } else {
        Some(text_from(path, names(base).len() as int))
    }
}

fn part_eq(a: &Vec<char>, p: (usize, usize), b: &Vec<char>, q: (usize, usize)) -> (r: bool)
    requires
        p.0 <= p.1 <= a.len(),
        q.0 <= q.1 <= b.len(),
    ensures
        r == (part_text(a@, part_view(p)) == part_text(b@, part_view(q))),
{
    let ghost x = part_text(a@, part_view(p));
    let ghost y = part_text(b@, part_view(q));
    if p.1 - p.0 != q.1 - q.0 {
        assert(x.len() != y.len());
        return false;
    }
    let n: usize = p.1 - p.0;
    let mut i: usize = 0;
    while i < n
        invariant
            p.0 <= p.1 <= a.len(),
            q.0 <= q.1 <= b.len(),
            n == p.1 - p.0 == q.1 - q.0,
            i <= n,
            x == part_text(a@, part_view(p)),
            y == part_text(b@, part_view(q)),
            forall|k: int| 0 <= k < i ==> x[k] == y[k],
        decreases n - i,
    {
        assert(x[i as int] == a@[p.0 + i] && y[i as int] == b@[q.0 + i]);
        if a[p.0 + i] != b[q.0 + i] {
            return false;
        }
        i += 1;
    }
    assert(x =~= y);
    true
}

/// Strips the components of a base from the start of a path.
pub fn strip_prefix(path: &str, base: &str) -> (r: Option<String>)
    ensures
        r.deep_view() == stripped(path@, base@),
{
    let p = to_chars(path);
    let b = to_chars(base);
    let pp = split_parts(&p);
    let bp = split_parts(&b);
    let ghost view = |q: (usize, usize)| part_view(q);
    let p_root: bool = p.len() > 0 && p[0] == '/';
    let b_root: bool = b.len() > 0 && b[0] == '/';
    proof {
        assert(names(path@).len() == pp@.len()) by {
            assert(pp@.map_values(view).len() == pp@.len());
        }
        assert(names(base@).len() == bp@.len()) by {
            assert(bp@.map_values(view).len() == bp@.len());
        }
    }
    if (b_root && !p_root) || (bp.len() > 0 && b_root != p_root) || bp.len() > pp.len() {
        return None;
    }
    let mut i: usize = 0;
    while i < bp.len()
        invariant
            i <= bp.len() <= pp.len(),
            p@ == path@,
            b@ == base@,
            view == (|q: (usize, usize)| part_view(q)),
            pp@.map_values(view) == parts(p@),
            bp@.map_values(view) == parts(b@),
            parts_ok(parts(p@), 0, p@.len() as int),
            parts_ok(parts(b@), 0, b@.len() as int),
            names(base@).len() == bp@.len(),
            names(path@).len() == pp@.len(),
            forall|k: int| 0 <= k < i ==> names(base@)[k] == names(path@)[k],
        decreases bp.len() - i,
    {
        proof {
            assert(pp@.map_values(view)[i as int] == part_view(pp@[i as int]));
            assert(bp@.map_values(view)[i as int] == part_view(bp@[i as int]));
        }
        if !part_eq(&p, pp[i], &b, bp[i]) {
            assert(names(base@)[i as int] != names(path@)[i as int]);
            assert(names(path@).take(bp@.len() as int)[i as int] == names(path@)[i as int]);
            return None;
        }
        i += 1;
    }
    assert(names(base@) =~= names(path@).take(bp@.len() as int));
    if p_root && !b_root {
        let end: usize = if pp.len() > 0 {
            pp[pp.len() - 1].1
        } else {
            1
        };
        proof {
            if pp@.len() > 0 {
                assert(pp@.map_values(view)[pp@.len() - 1] == part_view(pp@[pp@.len() - 1]));
            }
        }
        let r = from_chars(&p, 0, end);
        assert(r@ =~= p@.take(end as int));
        return Some(r);
    }
    if bp.len() < pp.len() {
        proof {
            assert(pp@.map_values(view)[bp@.len() as int] == part_view(pp@[bp@.len() as int]));
            assert(pp@.map_values(view)[pp@.len() - 1] == part_view(pp@[pp@.len() - 1]));
        }
        let start: usize = pp[bp.len()].0;
        let end: usize = pp[pp.len() - 1].1;
        Some(from_chars(&p, start, end))
    } else {
        let r = String::new();
        assert(r@ =~= Seq::empty());
        Some(r)
    }
}

/// Whether the components of a path start with those of another one.
pub fn starts_with(path: &str, base: &str) -> (r: bool)
    ensures
        r == path_starts_with(path@, base@),
{
    strip_prefix(path, base).is_some()
}

/// A path with slashes in place of backslashes.
pub open spec fn with_slashes(path: Seq<char>) -> Seq<char> {
    path.map_values(
        |c: char|
            if c == '\\' {
                '/'
            } else {
                c
            },
    )
}

fn replace_backslashes(path: &str) -> (r: String)
    ensures
        r@ == with_slashes(path@),
{
    let chars = to_chars(path);
    let mut out = String::new();
    let mut i: usize = 0;
    assert(out@ =~= with_slashes(path@).take(0));
    while i < chars.len()
        invariant
            i <= chars.len(),
            chars@ == path@,
            out@ == with_slashes(path@).take(i as int),
        decreases chars.len() - i,
    {
        let c = chars[i];
        out.push(
            if c == '\\' {
                '/'
            } else {
                c
            },
        );
        assert(out@ =~= with_slashes(path@).take(i + 1));
        i += 1;
    }
    assert(with_slashes(path@).take(i as int) =~= with_slashes(path@));
    out
}

/// A path put behind a directory.
pub open spec fn joined(dir: Seq<char>, rest: Seq<char>) -> Seq<char> {
    if has_root(rest) {
        rest
    } else if dir.len() == 0 || dir.last() == '/' {
        dir + rest
    } else {
        dir + seq!['/'] + rest
    }
}

/// Puts a path behind a directory.
pub fn join(dir: &str, rest: &str) -> (r: String)
    ensures
        r@ == joined(dir@, rest@),
{
    let d = to_chars(dir);
    let q = to_chars(rest);
    if q.len() > 0 && q[0] == '/' {
        return rest.to_owned();
    }
    let mut out = dir.to_owned();
    if d.len() > 0 && d[d.len() - 1] != '/' {
        out.push('/');
        assert(out@ =~= dir@ + seq!['/']);
    }
    out.append(rest);
    out
}

/// The place of the first directory that could be resolved.
pub open spec fn first_resolved(resolved: Seq<Option<Seq<char>>>, from: int) -> Option<int>
    decreases resolved.len() - from,
{
    if from < 0 || from >= resolved.len() {
        None
    } else if resolved[from] is Some {
        Some(from)
    } else {
        first_resolved(resolved, from + 1)
    }
}

/// The real path of a path, where the path itself or one of its ancestors could be
/// resolved: what is below that ancestor follows its real path.
pub open spec fn real_path(path: Seq<char>, resolved: Seq<Option<Seq<char>>>) -> Option<Seq<char>> {
    let ancestors = parts(path).len() + 1;
    let known = if resolved.len() < ancestors {
        resolved
    } else {
        resolved.take(ancestors as int)
    };
    match first_resolved(known, 0) {
        None => None,
        Some(up) => if up == 0 {
            resolved[0]
        } else {
            Some(joined(resolved[up]->0, text_from(path, parts(path).len() - up)))
        },
    }
}

/// The repo-relative path of an absolute one.
pub open spec fn repo_relative(
    root: Seq<char>,
    path: Seq<char>,
    resolved: Seq<Option<Seq<char>>>,
) -> Option<Seq<char>> {
    match stripped(path, root) {
        Some(rel) => Some(with_slashes(rel)),
        None => match real_path(path, resolved) {
            Some(actual) => match stripped(actual, root) {
                Some(rel) => Some(with_slashes(rel)),
                None => None,
            },
            None => None,
        },
    }
}

/// The strings of a list, where they are there.
pub open spec fn opt_views(list: Seq<Option<String>>) -> Seq<Option<Seq<char>>> {
    list.map_values(|s: Option<String>| s.deep_view())
}

/// The real path of a path, given the real paths of it and of its ancestors.
fn resolve(path: &str, resolved: &Vec<Option<String>>) -> (r: Option<String>)
    ensures
        r.deep_view() == real_path(path@, opt_views(resolved@)),
{
    let chars = to_chars(path);
    let all = split_parts(&chars);
    let ghost view = |q: (usize, usize)| part_view(q);
    let ghost n = parts(path@).len();
    assert(all@.map_values(view).len() == all@.len());
    let ghost answers = opt_views(resolved@);
    let ghost known = if answers.len() < n + 1 {
        answers
    } else {
        answers.take((n + 1) as int)
    };
    let mut up: usize = 0;
    while up < resolved.len() && up <= all.len()
        invariant
            up <= resolved.len(),
            up <= all.len() + 1,
            chars@ == path@,
            view == (|q: (usize, usize)| part_view(q)),
            all@.map_values(view) == parts(path@),
            all@.len() == n,
            n == parts(path@).len(),
            parts_ok(parts(path@), 0, path@.len() as int),
            answers == opt_views(resolved@),
            known == if answers.len() < n + 1 {
                answers
            } else {
                answers.take((n + 1) as int)
            },
            first_resolved(known, 0) == first_resolved(known, up as int),
        decreases resolved.len() - up,
    {
        assert(answers[up as int] == resolved@[up as int].deep_view());
        assert(known[up as int] == answers[up as int]);
        if let Some(actual) = &resolved[up] {
            if up == 0 {
                return Some(actual.clone());
            }
            let first: usize = all.len() - up;
            proof {
                assert(all@.map_values(view)[first as int] == part_view(all@[first as int]));
                assert(all@.map_values(view)[all@.len() - 1] == part_view(all@[all@.len() - 1]));
            }
            let rest = from_chars(&chars, all[first].0, all[all.len() - 1].1);
            return Some(join(actual.as_str(), rest.as_str()));
        }
        up += 1;
    }
    None
}

/// Convert an absolute filesystem path to a repo-relative path string.
///
/// Tries a direct prefix strip first, then falls back to the real path (handling symlinks
/// and macOS /var → /private/var). `resolved` holds the real paths of the path itself and
/// of each of its ancestors in turn, `None` where one could not be resolved: a deleted
/// file, and its deleted directories, take the real path of the nearest ancestor that
/// exists.
pub fn abs_to_repo_relative(repo_root: &str, abs_path: &str, resolved: &Vec<Option<String>>) -> (r: Option<String>)
    ensures
        r.deep_view() == repo_relative(repo_root@, abs_path@, opt_views(resolved@)),
{
    if let Some(rel) = strip_prefix(abs_path, repo_root) {
        return Some(replace_backslashes(rel.as_str()));
    }
    match resolve(abs_path, resolved) {
        Some(actual) => match strip_prefix(actual.as_str(), repo_root) {
            Some(rel) => Some(replace_backslashes(rel.as_str())),
            None => None,
        },
        None => None,
    }
}

/// The names of a list with slashes between them.
pub open spec fn slash_joined(list: Seq<Seq<char>>) -> Seq<char>
    decreases list.len(),
{
    if list.len() == 0 {
        Seq::empty()
    } else if list.len() == 1 {
        list[0]
    } else {
        slash_joined(list.drop_last()) + seq!['/'] + list.last()
    }
}

/// A path written with its components alone.
pub open spec fn normal(path: Seq<char>) -> Seq<char> {
    if has_root(path) {
        seq!['/'] + slash_joined(names(path))
    } else {
        slash_joined(names(path))
    }
}

/// The components of a path.
pub fn path_names(path: &str) -> (r: Vec<String>)
    ensures
        views(r@) == names(path@),
{
    let chars = to_chars(path);
    let all = split_parts(&chars);
    let ghost view = |q: (usize, usize)| part_view(q);
    let mut out: Vec<String> = Vec::new();
    let mut i: usize = 0;
    assert(views(out@) =~= names(path@).take(0));
    while i < all.len()
        invariant
            i <= all.len(),
            chars@ == path@,
            view == (|q: (usize, usize)| part_view(q)),
            all@.map_values(view) == parts(path@),
            parts_ok(parts(path@), 0, path@.len() as int),
            views(out@) == names(path@).take(i as int),
        decreases all.len() - i,
    {
        proof {
            assert(all@.map_values(view)[i as int] == part_view(all@[i as int]));
            assert(parts(path@)[i as int] == part_view(all@[i as int]));
        }
        let name = from_chars(&chars, all[i].0, all[i].1);
        let ghost before = out@;
        out.push(name);
        proof {
            lemma_views_push(before, name);
            assert(names(path@)[i as int] == name@);
            assert(names(path@).take(i + 1) =~= names(path@).take(i as int).push(name@));
        }
        i += 1;
    }
    assert(all@.map_values(view).len() == all@.len());
    assert(names(path@).take(i as int) =~= names(path@));
    out
}

/// Writes the names from one place of a list up to another with slashes between them.
pub fn join_names(list: &Vec<String>, from: usize, to: usize) -> (r: String)
    requires
        from <= to <= list@.len(),
    ensures
        r@ == slash_joined(views(list@).subrange(from as int, to as int)),
{
    let mut out = String::new();
    let mut i: usize = from;
    assert(out@ =~= Seq::empty());
    assert(views(list@).subrange(from as int, from as int) =~= Seq::empty());
    while i < to
        invariant
            from <= i <= to <= list@.len(),
            out@ == slash_joined(views(list@).subrange(from as int, i as int)),
        decreases to - i,
    {
        let ghost now = views(list@).subrange(from as int, i + 1);
        proof {
            assert(views(list@)[i as int] == list@[i as int]@);
            assert(now.last() == list@[i as int]@);
            assert(now.drop_last() =~= views(list@).subrange(from as int, i as int));
        }
        if i > from {
            out.push('/');
            assert(out@ =~= slash_joined(now.drop_last()) + seq!['/']);
        }
        out.append(list[i].as_str());
        assert(out@ =~= slash_joined(now));
        i += 1;
    }
    out
}

/// Writes a path with its components alone.
pub fn normalize(path: &str) -> (r: String)
    ensures
        r@ == normal(path@),
{
    let list = path_names(path);
    assert(views(list@).subrange(0, list@.len() as int) =~= views(list@));
    let text = join_names(&list, 0, list.len());
    let chars = to_chars(path);
    if chars.len() > 0 && chars[0] == '/' {
        let mut out = String::new();
        out.push('/');
        out.append(text.as_str());
        assert(out@ =~= seq!['/'] + text@);
        out
    } else {
        text
    }
}

/// A component has no slash in it, ends where the next slash is, and is no dot behind the
/// start of the path.
pub proof fn lemma_part_shape(path: Seq<char>, from: int, i: int)
    requires
        0 <= from,
        0 <= i < parts_from(path, from).len(),
    ensures
        ({
            let part = parts_from(path, from)[i];
            &&& 0 <= part.0 < part.1 <= path.len()
            &&& part.1 == part_end(path, part.0)
            &&& !(is_dot(path, part.0, part.1) && part.0 > 0)
            &&& forall|k: int| part.0 <= k < part.1 ==> path[k] != '/'
        }),
    decreases path.len() - from,
{
    if path[from] == '/' {
        lemma_part_shape(path, from + 1, i);
    } else {
        let end = part_end(path, from);
        lemma_part_end(path, from);
        if is_dot(path, from, end) && from > 0 {
            lemma_part_shape(path, end, i);
        } else if i > 0 {
            assert(parts_from(path, from)[i] == parts_from(path, end)[i - 1]);
            lemma_part_shape(path, end, i - 1);
        }
    }
}

/// What is left of an absolute path after some of its components is a relative path that
/// does not start with a dot component.
pub proof fn lemma_rest_is_relative(path: Seq<char>, first: int)
    requires
        has_root(path),
        0 <= first,
    ensures
        !has_root(text_from(path, first)),
        !(text_from(path, first).len() >= 2 && text_from(path, first)[0] == '.' && text_from(path, first)[1] == '/'),
{
    let all = parts(path);
    if first < all.len() {
        lemma_part_shape(path, 0, first);
        lemma_parts_ok(path, 0);
        let part = all[first];
        let text = text_from(path, first);
        let last = all[all.len() - 1];
        if first < all.len() - 1 {
            assert(part.1 <= last.0);
        }
        assert(text[0] == path[part.0]);
        if text.len() >= 2 && text[0] == '.' && text[1] == '/' {
            assert(path[part.0 + 1] == '/');
            assert(part.1 == part.0 + 1);
        }
    }
}

proof fn lemma_part_end_in_front(a: Seq<char>, b: Seq<char>, from: int)
    requires
        0 <= from < a.len(),
        a.last() == '/' || b.len() == 0 || b[0] == '/',
    ensures
        part_end(a + b, from) == part_end(a, from),
    decreases a.len() - from,
{
    assert((a + b)[from] == a[from]);
    if a[from] != '/' {
        if from + 1 < a.len() {
            lemma_part_end_in_front(a, b, from + 1);
        } else {
            assert(part_end(a, from + 1) == from + 1);
            if b.len() > 0 {
                assert((a + b)[from + 1] == b[0]);
            }
            assert(part_end(a + b, from + 1) == from + 1);
        }
    }
}

/// The components of a path start with those of the directory it is written behind.
pub(crate) proof fn lemma_parts_in_front(a: Seq<char>, b: Seq<char>, from: int)
    requires
        0 <= from <= a.len(),
        a.len() == 0 || a.last() == '/' || b.len() == 0 || b[0] == '/',
    ensures
        parts_from(a + b, from) == parts_from(a, from) + parts_from(a + b, a.len() as int),
    decreases a.len() - from,
{
    let behind = parts_from(a + b, a.len() as int);
    if from == a.len() {
        assert(parts_from(a, from) + behind =~= behind);
    } else {
        assert((a + b)[from] == a[from]);
        if a[from] == '/' {
            lemma_parts_in_front(a, b, from + 1);
        } else {
            let end = part_end(a, from);
            lemma_part_end(a, from);
            lemma_part_end_in_front(a, b, from);
            lemma_parts_in_front(a, b, end);
            assert(seq![(from, end)] + (parts_from(a, end) + behind) =~= (seq![(from, end)] + parts_from(a, end))
                + behind);
        }
    }
}

proof fn lemma_part_end_behind(a: Seq<char>, b: Seq<char>, from: int)
    requires
        0 <= from,
    ensures
        part_end(a + b, a.len() + from) == a.len() + part_end(b, from),
    decreases b.len() - from,
{
    if from < b.len() {
        assert((a + b)[a.len() + from] == b[from]);
        if b[from] != '/' {
            lemma_part_end_behind(a, b, from + 1);
        }
    }
}

/// The components of what is written behind a directory stand behind it.
pub(crate) proof fn lemma_parts_behind(a: Seq<char>, b: Seq<char>, from: int)
    requires
        0 <= from,
        a.len() > 0,
        from == 0 ==> !is_dot(b, 0, part_end(b, 0)),
    ensures
        parts_from(a + b, a.len() + from) == parts_from(b, from).map_values(
            |part: (int, int)| (a.len() + part.0, a.len() + part.1),
        ),
    decreases b.len() - from,
{
    let shift = |part: (int, int)| (a.len() + part.0, a.len() + part.1);
    let whole = a + b;
    let at = a.len() + from;
    if from >= b.len() {
        assert(parts_from(b, from).map_values(shift) =~= Seq::empty());
    } else {
        assert(whole[at] == b[from]);
        if b[from] == '/' {
            lemma_parts_behind(a, b, from + 1);
        } else {
            let end = part_end(b, from);
            lemma_part_end(b, from);
            lemma_part_end_behind(a, b, from);
            lemma_parts_behind(a, b, end);
            assert((seq![(from, end)] + parts_from(b, end)).map_values(shift) =~= seq![(at, a.len() + end)]
                + parts_from(b, end).map_values(shift));
        }
    }
}

/// Whether a text is a relative path written with its components alone: it starts and ends
/// with one, the first is no dot, and no backslash stands in it.
pub open spec fn is_plain_relative(path: Seq<char>) -> bool {
    &&& path.len() > 0
    &&& path[0] != '/'
    &&& !is_dot(path, 0, part_end(path, 0))
    &&& parts(path).last().1 == path.len()
    &&& !path.contains('\\')
}

/// A plain relative path put behind the repo's root has that path as its repo-relative
/// one, whatever the real paths of its ancestors are.
pub proof fn paths_below_the_root_come_back(root: Seq<char>, rel: Seq<char>, resolved: Seq<Option<Seq<char>>>)
    requires
        is_plain_relative(rel),
    ensures
        repo_relative(root, joined(root, rel), resolved) == Some(rel),
{
    let whole = joined(root, rel);
    let count = parts(root).len() as int;
    lemma_part_end(rel, 0);
    assert(parts(rel)[0].0 == 0);
    lemma_parts_ok(rel, 0);
    if root.len() == 0 {
        assert(whole =~= rel);
        assert(names(root) =~= Seq::empty());
        assert(names(rel).take(0) =~= names(root));
        assert(text_from(rel, 0) =~= rel);
    } else {
        let dir = if root.last() == '/' {
            root
        } else {
            root.push('/')
        };
        assert(whole =~= dir + rel);
        assert(dir.last() == '/');
        lemma_parts_in_front(dir, rel, 0);
        lemma_parts_behind(dir, rel, 0);
        if root.last() != '/' {
            assert(dir =~= root + seq!['/']);
            lemma_parts_in_front(root, seq!['/'], 0);
            assert(parts_from(dir, root.len() as int) =~= Seq::empty()) by {
                assert(dir[root.len() as int] == '/');
                assert(parts_from(dir, (root.len() + 1) as int) =~= Seq::empty());
            }
            assert(parts(dir) =~= parts(root));
        }
        let shift = |part: (int, int)| (dir.len() + part.0, dir.len() + part.1);
        let below = parts(rel).map_values(shift);
        assert(parts(whole) == parts(root) + below);
        lemma_parts_ok(root, 0);
        assert(names(whole).take(count) =~= names(root)) by {
            assert forall|i: int| 0 <= i < count implies #[trigger] names(whole).take(count)[i] == names(root)[i] by {
                let part = parts(root)[i];
                assert(parts(whole)[i] == part);
                assert(part_text(whole, part) =~= part_text(root, part));
            }
        }
        assert(has_root(whole) == has_root(root)) by {
            assert(whole[0] == root[0]);
        }
        assert(parts(whole)[count] == below[0]);
        assert(parts(whole).last() == below.last());
        assert(below.last() == shift(parts(rel).last()));
        assert(text_from(whole, count) =~= rel);
    }
    assert(with_slashes(rel) =~= rel);
}

/// Whether two paths have the same components.
pub open spec fn same_path(a: Seq<char>, b: Seq<char>) -> bool {
    has_root(a) == has_root(b) && names(a) == names(b)
}

/// A changed path, with the real paths of the path itself and of each of its ancestors in
/// turn, `None` where one could not be resolved.
pub struct ChangedPath {
    pub path: String,
    pub resolved: Vec<Option<String>>,
}

impl DeepView for ChangedPath {
    type V = (Seq<char>, Seq<Option<Seq<char>>>);

    open spec fn deep_view(&self) -> Self::V {
        (self.path@, opt_views(self.resolved@))
    }
}

/// The repo-relative paths of a batch, in the order of the batch: a path that came before
/// is left out, and so is one outside the repo.
pub open spec fn batch_of(root: Seq<char>, changed: Seq<(Seq<char>, Seq<Option<Seq<char>>>)>) -> Seq<Seq<char>>
    decreases changed.len(),
{
    if changed.len() == 0 {
        Seq::empty()
    } else {
        let front = changed.drop_last();
        let (path, resolved) = changed.last();
        if exists|i: int| 0 <= i < front.len() && same_path(#[trigger] front[i].0, path) {
            batch_of(root, front)
        } else {
            match repo_relative(root, path, resolved) {
                Some(rel) => batch_of(root, front).push(rel),
                None => batch_of(root, front),
            }
        }
    }
}

fn paths_equal(a: &str, b: &str) -> (r: bool)
    ensures
        r == same_path(a@, b@),
{
    let x = to_chars(a);
    let y = to_chars(b);
    let p = split_parts(&x);
    let q = split_parts(&y);
    let ghost view = |part: (usize, usize)| part_view(part);
    proof {
        lemma_parts_ok(a@, 0);
        lemma_parts_ok(b@, 0);
        assert(p@.map_values(view).len() == p@.len());
        assert(q@.map_values(view).len() == q@.len());
    }
    let rooted: bool = (x.len() > 0 && x[0] == '/') == (y.len() > 0 && y[0] == '/');
    if !rooted || p.len() != q.len() {
        assert(names(a@).len() == p@.len() && names(b@).len() == q@.len());
        return false;
    }
    let mut i: usize = 0;
    while i < p.len()
        invariant
            i <= p.len() == q.len(),
            x@ == a@,
            y@ == b@,
            view == (|part: (usize, usize)| part_view(part)),
            p@.map_values(view) == parts(a@),
            q@.map_values(view) == parts(b@),
            parts_ok(parts(a@), 0, a@.len() as int),
            parts_ok(parts(b@), 0, b@.len() as int),
            forall|k: int| 0 <= k < i ==> names(a@)[k] == names(b@)[k],
        decreases p.len() - i,
    {
        proof {
            assert(p@.map_values(view)[i as int] == part_view(p@[i as int]));
            assert(q@.map_values(view)[i as int] == part_view(q@[i as int]));
            assert(parts(a@)[i as int] == part_view(p@[i as int]));
            assert(parts(b@)[i as int] == part_view(q@[i as int]));
        }
        if !part_eq(&x, p[i], &y, q[i]) {
            assert(names(a@)[i as int] != names(b@)[i as int]);
            return false;
        }
        i += 1;
    }
    assert(names(a@) =~= names(b@));
    true
}

/// The repo-relative paths of a batch of changed paths, each path once and in the order of
/// the batch.
pub fn batch_paths(repo_root: &str, changed: &Vec<ChangedPath>) -> (r: Vec<String>)
    ensures
        views(r@) == batch_of(repo_root@, changed.deep_view()),
{
    let ghost all = changed.deep_view();
    let mut out: Vec<String> = Vec::new();
    let mut i: usize = 0;
    assert(views(out@) =~= batch_of(repo_root@, all.take(0)));
    while i < changed.len()
        invariant
            i <= changed.len(),
            all == changed.deep_view(),
            views(out@) == batch_of(repo_root@, all.take(i as int)),
        decreases changed.len() - i,
    {
        let path = changed[i].path.as_str();
        let ghost now = all.take(i + 1);
        assert(now.drop_last() =~= all.take(i as int));
        assert(now.last() == changed@[i as int].deep_view());
        let mut known = false;
        let mut j: usize = 0;
        while j < i && !known
            invariant
                j <= i < changed.len(),
                all == changed.deep_view(),
                path@ == changed@[i as int].path@,
                known == exists|k: int| 0 <= k < j && same_path(#[trigger] all[k].0, path@),
            decreases i - j + (if known { 0int } else { 1int }),
        {
            assert(all[j as int] == changed@[j as int].deep_view());
            known = paths_equal(changed[j].path.as_str(), path);
            if known {
                assert(same_path(all[j as int].0, path@));
            }
            j += 1;
        }
        let ghost front = all.take(i as int);
        assert(known == exists|k: int| 0 <= k < front.len() && same_path(#[trigger] front[k].0, path@)) by {
            if known {
                let k = choose|k: int| 0 <= k < j && same_path(#[trigger] all[k].0, path@);
                assert(front[k] == all[k]);
            } else if exists|k: int| 0 <= k < front.len() && same_path(#[trigger] front[k].0, path@) {
                let k = choose|k: int| 0 <= k < front.len() && same_path(#[trigger] front[k].0, path@);
                assert(front[k] == all[k]);
            }
        }
        if !known {
            if let Some(rel) = abs_to_repo_relative(repo_root, path, &changed[i].resolved) {
                let ghost before = out@;
                out.push(rel);
                proof {
                    lemma_views_push(before, rel);
                }
            }
        }
        i += 1;
    }
    assert(all.take(i as int) =~= all);
    out
}

} // verus!
