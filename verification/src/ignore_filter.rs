//! Ignore rules of a working copy: which files hold them, and which changed paths they
//! let through.

use crate::jj_config::{trim, trimmed};
use crate::lines::{lines_of, split_lines};
use crate::paths::{
    has_root, join, join_names, joined, lemma_rest_is_relative, names, normal, normalize, path_names,
    path_starts_with, slash_joined, starts_with, strip_prefix, stripped,
};
use crate::staging::{lemma_contains_push, lemma_views_push};
use crate::strings::{find_last, from_chars, last_place, str_eq, to_chars, views};
use crate::table::FileTable;
use ignore::gitignore::{Gitignore, GitignoreBuilder};
use vstd::prelude::*;

verus! {

/// The version control systems.
#[derive(Clone, Copy, Debug, PartialEq, Eq, Structural)]
pub enum VcsKind {
    Jj,
    Git,
}

/// A compiled list of ignore rules.
#[verifier::external_type_specification]
#[verifier::external_body]
pub struct ExGitignore(ignore::gitignore::Gitignore);

/// Why a list of ignore rules could not be compiled.
#[verifier::external_type_specification]
#[verifier::external_body]
pub struct ExIgnoreError(ignore::Error);

/// One line of an ignore file.
pub struct IgnoreLine {
    pub file: String,
    pub line: String,
}

/// The lines of a list, each with its file.
pub open spec fn line_views(lines: Seq<IgnoreLine>) -> Seq<(Seq<char>, Seq<char>)> {
    lines.map_values(|l: IgnoreLine| (l.file@, l.line@))
}

/// What `ignore`'s matcher made of some lines under a directory says of a path below it:
/// whether it is ignored or taken back in, nothing where no line speaks of it; `None` where
/// the lines cannot be compiled.
pub uninterp spec fn ruling(
    dir: Seq<char>,
    lines: Seq<(Seq<char>, Seq<char>)>,
    path: Seq<char>,
    is_dir: bool,
) -> Option<Option<bool>>;

/// What a compiled list of rules says of a path.
pub uninterp spec fn matcher_ruling(matcher: Gitignore, path: Seq<char>, is_dir: bool) -> Option<bool>;

/// Calls `ignore::gitignore::GitignoreBuilder`: makes a builder for the directory, hands it
/// the lines one by one with `add_line`, and builds the matcher. What the matcher says of a
/// path, and whether it can be built, is a function of the directory and the lines. Without
/// lines it can be built, and says nothing. The directory is absolute, so that no relative
/// path starts with it.
#[verifier::external_body]
fn compile_lines(dir: &str, lines: &Vec<IgnoreLine>) -> (r: Result<Gitignore, ignore::Error>)
    requires
        has_root(dir@),
    ensures
        forall|path: Seq<char>, is_dir: bool| #[trigger]
            ruling(dir@, line_views(lines@), path, is_dir) is Some <==> r is Ok,
        r is Ok ==> forall|path: Seq<char>, is_dir: bool| #[trigger]
            matcher_ruling(r->Ok_0, path, is_dir) == ruling(dir@, line_views(lines@), path, is_dir)->0,
        lines@.len() == 0 ==> r is Ok && forall|path: Seq<char>, is_dir: bool| #[trigger]
            matcher_ruling(r->Ok_0, path, is_dir) is None,
{
    let mut builder = GitignoreBuilder::new(dir);
    for line in lines {
        let _ = builder.add_line(Some(line.file.clone().into()), line.line.as_str());
    }
    builder.build()
}

/// Calls `matched_path_or_any_parents` of `ignore`'s matcher: what the rules say of the path
/// or, where they say nothing, of its nearest parent that they speak of. The matcher is one
/// that `compile_lines` made, for an absolute directory, and the path is a relative one: the
/// matcher then strips nothing from it, and takes every such path.
#[verifier::external_body]
fn matcher_says(matcher: &Gitignore, path: &str, is_dir: bool) -> (r: Option<bool>)
    requires
        !has_root(path@),
        !(path@.len() >= 2 && path@[0] == '.' && path@[1] == '/'),
    ensures
        r == matcher_ruling(*matcher, path@, is_dir),
{
    match matcher.matched_path_or_any_parents(path, is_dir) {
        ignore::Match::None => None,
        ignore::Match::Ignore(_) => Some(true),
        ignore::Match::Whitelist(_) => Some(false),
    }
}

/// What some lines under a directory say of a path: nothing of one that is not below the
/// directory, and nothing where they cannot be compiled.
pub open spec fn lines_say(
    dir: Seq<char>,
    lines: Seq<(Seq<char>, Seq<char>)>,
    path: Seq<char>,
    is_dir: bool,
) -> Option<bool> {
    match stripped(path, dir) {
        Some(rel) => match ruling(dir, lines, rel, is_dir) {
            Some(says) => says,
            None => None,
        },
        None => None,
    }
}

/// The ignore rules of a directory.
pub struct IgnoreRules {
    dir: String,
    lines: Vec<IgnoreLine>,
    matcher: Option<Gitignore>,
}

impl IgnoreRules {
    /// The lines that the rules come from.
    pub closed spec fn lines(&self) -> Seq<(Seq<char>, Seq<char>)> {
        line_views(self.lines@)
    }

    /// The directory that the rules are about.
    pub closed spec fn dir(&self) -> Seq<char> {
        self.dir@
    }

    /// The directory is absolute, and the matcher follows the lines; without one, they say
    /// nothing.
    pub closed spec fn wf(&self) -> bool {
        &&& has_root(self.dir@)
        &&& match self.matcher {
            Some(matcher) => forall|path: Seq<char>, is_dir: bool| #[trigger]
                ruling(self.dir@, line_views(self.lines@), path, is_dir) == Some(matcher_ruling(matcher, path, is_dir)),
            None => forall|path: Seq<char>, is_dir: bool| #[trigger]
                ruling(self.dir@, line_views(self.lines@), path, is_dir) is None,
        }
    }

    /// Build a matcher from lines for a directory, in the order in which they are to be
    /// added: later lines have higher priority.
    pub fn build_matcher(dir: &str, lines: Vec<IgnoreLine>) -> (r: IgnoreRules)
        requires
            has_root(dir@),
        ensures
            r.wf(),
            r.dir() == dir@,
            r.lines() == line_views(lines@),
    {
        let matcher = match compile_lines(dir, &lines) {
            Ok(matcher) => {
                assert forall|path: Seq<char>, is_dir: bool| #[trigger]
                    ruling(dir@, line_views(lines@), path, is_dir) == Some(
                        matcher_ruling(matcher, path, is_dir),
                    ) by {}
                Some(matcher)
            },
            Err(_) => None,
        };
        IgnoreRules { dir: dir.to_owned(), lines, matcher }
    }

    /// What the rules say of a path.
    pub fn says(&self, path: &str, is_dir: bool) -> (r: Option<bool>)
        requires
            self.wf(),
        ensures
            r == lines_say(self.dir(), self.lines(), path@, is_dir),
    {
        match strip_prefix(path, self.dir.as_str()) {
            Some(rel) => {
                proof {
                    lemma_rest_is_relative(path@, names(self.dir@).len() as int);
                }
                match &self.matcher {
                    Some(matcher) => matcher_says(matcher, rel.as_str(), is_dir),
                    None => None,
                }
            },
            None => None,
        }
    }
}

/// What the rules of a list are, each with its directory.
pub open spec fn rule_views(rules: Seq<IgnoreRules>) -> Seq<(Seq<char>, Seq<(Seq<char>, Seq<char>)>)> {
    rules.map_values(|r: IgnoreRules| (r.dir(), r.lines()))
}

/// Whether the rules of a list ignore a path: the last ones that say anything of it decide.
pub open spec fn rules_ignore(
    rules: Seq<(Seq<char>, Seq<(Seq<char>, Seq<char>)>)>,
    path: Seq<char>,
    is_dir: bool,
) -> bool
    decreases rules.len(),
{
    if rules.len() == 0 {
        false
    } else {
        match lines_say(rules.last().0, rules.last().1, path, is_dir) {
            Some(ignored) => ignored,
            None => rules_ignore(rules.drop_last(), path, is_dir),
        }
    }
}

/// The rules of a directory say nothing of a path that is not below it, such as one in a
/// sibling directory, whatever other rules there are.
pub proof fn rules_stay_in_their_directory(
    before: Seq<(Seq<char>, Seq<(Seq<char>, Seq<char>)>)>,
    dir: Seq<char>,
    lines: Seq<(Seq<char>, Seq<char>)>,
    after: Seq<(Seq<char>, Seq<(Seq<char>, Seq<char>)>)>,
    path: Seq<char>,
    is_dir: bool,
)
    requires
        !path_starts_with(path, dir),
    ensures
        rules_ignore(before.push((dir, lines)) + after, path, is_dir) == rules_ignore(before + after, path, is_dir),
    decreases after.len(),
{
    if after.len() == 0 {
        assert(before.push((dir, lines)) + after =~= before.push((dir, lines)));
        assert(before.push((dir, lines)).drop_last() =~= before);
        assert(before + after =~= before);
    } else {
        rules_stay_in_their_directory(before, dir, lines, after.drop_last(), path, is_dir);
        assert((before.push((dir, lines)) + after).drop_last() =~= before.push((dir, lines)) + after.drop_last());
        assert((before + after).drop_last() =~= before + after.drop_last());
    }
}

/// Whether the rules of a list ignore a path.
fn ignored_by(rules: &Vec<IgnoreRules>, path: &str, is_dir: bool) -> (r: bool)
    requires
        forall|i: int| 0 <= i < rules@.len() ==> (#[trigger] rules@[i]).wf(),
    ensures
        r == rules_ignore(rule_views(rules@), path@, is_dir),
{
    let ghost all = rule_views(rules@);
    let mut n: usize = rules.len();
    assert(all.take(n as int) =~= all);
    while n > 0
        invariant
            n <= rules.len(),
            all == rule_views(rules@),
            forall|i: int| 0 <= i < rules@.len() ==> (#[trigger] rules@[i]).wf(),
            rules_ignore(all.take(n as int), path@, is_dir) == rules_ignore(all, path@, is_dir),
        decreases n,
    {
        proof {
            assert(all.take(n as int).last() == (rules@[n - 1].dir(), rules@[n - 1].lines()));
            assert(all.take(n as int).drop_last() =~= all.take(n - 1));
        }
        if let Some(ignored) = rules[n - 1].says(path, is_dir) {
            return ignored;
        }
        n -= 1;
    }
    false
}

/// The byte order mark that may stand at the start of a file.
pub const BYTE_ORDER_MARK: char = '\u{feff}';

/// A line without byte order marks at its start.
pub open spec fn without_marks(line: Seq<char>) -> Seq<char>
    decreases line.len(),
{
    if line.len() > 0 && line[0] == BYTE_ORDER_MARK {
        without_marks(line.drop_first())
    } else {
        line
    }
}

fn strip_marks(line: &String) -> (r: String)
    ensures
        r@ == without_marks(line@),
{
    let chars = to_chars(line.as_str());
    let mut at: usize = 0;
    assert(chars@.skip(0) =~= line@);
    while at < chars.len() && chars[at] == BYTE_ORDER_MARK
        invariant
            at <= chars.len(),
            without_marks(chars@.skip(at as int)) == without_marks(line@),
        decreases chars.len() - at,
    {
        assert(chars@.skip(at as int).drop_first() =~= chars@.skip(at + 1));
        at += 1;
    }
    let r = from_chars(&chars, at, chars.len());
    assert(r@ =~= chars@.skip(at as int));
    r
}

/// The rule lines of a file: its lines, the first one without byte order marks.
pub open spec fn file_lines(file: Seq<char>, content: Seq<char>) -> Seq<(Seq<char>, Seq<char>)> {
    let all = lines_of(content);
    Seq::new(
        all.len(),
        |i: int|
            (
                file,
                if i == 0 {
                    without_marks(all[i])
                } else {
                    all[i]
                },
            ),
    )
}

fn push_file_lines(out: &mut Vec<IgnoreLine>, file: &str, content: &str)
    ensures
        line_views(final(out)@) == line_views(old(out)@) + file_lines(file@, content@),
{
    let all = split_lines(content);
    let ghost start = line_views(out@);
    let ghost wanted = file_lines(file@, content@);
    let mut i: usize = 0;
    assert(start + wanted.take(0) =~= start);
    while i < all.len()
        invariant
            i <= all.len(),
            views(all@) == lines_of(content@),
            wanted == file_lines(file@, content@),
            wanted.len() == all@.len(),
            line_views(out@) == start + wanted.take(i as int),
        decreases all.len() - i,
    {
        let line = if i == 0 {
            strip_marks(&all[i])
        } else {
            all[i].clone()
        };
        let ghost before = out@;
        out.push(IgnoreLine { file: file.to_owned(), line });
        proof {
            assert(views(all@)[i as int] == all@[i as int]@);
            assert(line_views(out@) =~= line_views(before).push(wanted[i as int]));
            assert(start + wanted.take(i + 1) =~= (start + wanted.take(i as int)).push(wanted[i as int]));
        }
        i += 1;
    }
    assert(wanted.take(i as int) =~= wanted);
}

/// How deep a path lies.
pub open spec fn depth(path: Seq<char>) -> nat {
    names(path).len()
}

/// A list sorted by depth with one more path in it, behind those of its depth.
pub open spec fn insert_by_depth(list: Seq<Seq<char>>, path: Seq<char>) -> Seq<Seq<char>>
    decreases list.len(),
{
    if list.len() == 0 || depth(list.last()) <= depth(path) {
        list.push(path)
    } else {
        insert_by_depth(list.drop_last(), path).push(list.last())
    }
}

/// The paths of a list, shallowest first; paths of one depth stay in order.
pub open spec fn by_depth(list: Seq<Seq<char>>) -> Seq<Seq<char>>
    decreases list.len(),
{
    if list.len() == 0 {
        Seq::empty()
    } else {
        insert_by_depth(by_depth(list.drop_last()), list.last())
    }
}

proof fn lemma_insert_by_depth(list: Seq<Seq<char>>, path: Seq<char>)
    requires
        forall|i: int, j: int| 0 <= i < j < list.len() ==> depth(#[trigger] list[i]) <= depth(#[trigger] list[j]),
    ensures
        ({
            let after = insert_by_depth(list, path);
            &&& after.len() == list.len() + 1
            &&& forall|i: int, j: int|
                0 <= i < j < after.len() ==> depth(#[trigger] after[i]) <= depth(#[trigger] after[j])
            &&& after.to_multiset() == list.push(path).to_multiset()
            &&& forall|i: int| 0 <= i < after.len() ==> after[i] == path || list.contains(#[trigger] after[i])
        }),
    decreases list.len(),
{
    let after = insert_by_depth(list, path);
    if list.len() == 0 || depth(list.last()) <= depth(path) {
        assert forall|i: int| 0 <= i < after.len() implies after[i] == path || list.contains(#[trigger] after[i]) by {
            if i < list.len() {
                assert(list[i] == after[i]);
            }
        }
        assert forall|i: int, j: int| 0 <= i < j < after.len() implies depth(#[trigger] after[i]) <= depth(
            #[trigger] after[j],
        ) by {
            if j == list.len() {
                assert(list[list.len() - 1] == list.last());
                if i < list.len() - 1 {
                    assert(depth(list[i]) <= depth(list[list.len() - 1]));
                }
            }
        }
    } else {
        let rest = list.drop_last();
        let last = list.last();
        assert(list[list.len() - 1] == last);
        assert forall|i: int, j: int| 0 <= i < j < rest.len() implies depth(#[trigger] rest[i]) <= depth(
            #[trigger] rest[j],
        ) by {
            assert(rest[i] == list[i] && rest[j] == list[j]);
        }
        lemma_insert_by_depth(rest, path);
        let inner = insert_by_depth(rest, path);
        assert forall|i: int| 0 <= i < after.len() implies after[i] == path || list.contains(#[trigger] after[i]) by {
            if i < inner.len() {
                assert(after[i] == inner[i]);
                if inner[i] != path {
                    assert(rest.contains(inner[i]));
                    let k = choose|k: int| 0 <= k < rest.len() && rest[k] == inner[i];
                    assert(list[k] == after[i]);
                }
            }
        }
        assert forall|i: int, j: int| 0 <= i < j < after.len() implies depth(#[trigger] after[i]) <= depth(
            #[trigger] after[j],
        ) by {
            assert(after[i] == inner[i]);
            if j < inner.len() {
                assert(after[j] == inner[j]);
            } else if inner[i] != path {
                assert(rest.contains(inner[i]));
                let k = choose|k: int| 0 <= k < rest.len() && rest[k] == inner[i];
                assert(list[k] == inner[i]);
            }
        }
        vstd::seq_lib::to_multiset_build(inner, last);
        vstd::seq_lib::to_multiset_build(rest, path);
        vstd::seq_lib::to_multiset_build(rest, last);
        vstd::seq_lib::to_multiset_build(list, path);
        assert(list =~= rest.push(last));
        assert(after.to_multiset() =~= list.push(path).to_multiset());
    }
}

/// Ignore files are added shallowest first, so that deeper files override shallower ones,
/// and none is left out.
pub proof fn shallow_files_come_first(list: Seq<Seq<char>>)
    ensures
        by_depth(list).to_multiset() == list.to_multiset(),
        forall|i: int, j: int|
            0 <= i < j < by_depth(list).len() ==> depth(#[trigger] by_depth(list)[i]) <= depth(
                #[trigger] by_depth(list)[j],
            ),
    decreases list.len(),
{
    if list.len() > 0 {
        let rest = list.drop_last();
        shallow_files_come_first(rest);
        lemma_insert_by_depth(by_depth(rest), list.last());
        vstd::seq_lib::to_multiset_build(by_depth(rest), list.last());
        vstd::seq_lib::to_multiset_build(rest, list.last());
        assert(list =~= rest.push(list.last()));
    } else {
        assert(list =~= Seq::empty());
    }
}

fn depth_of(path: &str) -> (r: usize)
    ensures
        r == depth(path@),
{
    let list = path_names(path);
    assert(views(list@).len() == list@.len());
    list.len()
}

/// Sorts the paths of a list, shallowest first.
fn sort_by_depth(list: &Vec<String>) -> (r: Vec<String>)
    ensures
        views(r@) == by_depth(views(list@)),
{
    let ghost all = views(list@);
    let mut out: Vec<String> = Vec::new();
    let mut i: usize = 0;
    assert(views(out@) =~= by_depth(all.take(0)));
    while i < list.len()
        invariant
            i <= list.len(),
            all == views(list@),
            views(out@) == by_depth(all.take(i as int)),
        decreases list.len() - i,
    {
        let item = &list[i];
        let d: usize = depth_of(item.as_str());
        let ghost before = views(out@);
        proof {
            assert(all[i as int] == item@);
            assert(all.take(i + 1).drop_last() =~= all.take(i as int));
            assert(all.take(i + 1).last() == item@);
        }
        let mut at: usize = out.len();
        proof {
            assert(before.take(before.len() as int) =~= before);
            assert(before.skip(before.len() as int) =~= Seq::empty());
            assert(insert_by_depth(before, item@) =~= insert_by_depth(before.take(at as int), item@) + before.skip(
                at as int,
            ));
        }
        while at > 0 && depth_of(out[at - 1].as_str()) > d
            invariant
                at <= out@.len(),
                d == depth(item@),
                before == views(out@),
                insert_by_depth(before, item@) == insert_by_depth(before.take(at as int), item@) + before.skip(
                    at as int,
                ),
            decreases at,
        {
            proof {
                let head = before.take(at as int);
                assert(head.last() == out@[at - 1]@);
                assert(head.drop_last() =~= before.take(at - 1));
                assert(before.skip(at - 1) =~= seq![head.last()] + before.skip(at as int));
                assert(insert_by_depth(head, item@) + before.skip(at as int) =~= insert_by_depth(
                    before.take(at - 1),
                    item@,
                ) + before.skip(at - 1));
            }
            at -= 1;
        }
        let copy = item.clone();
        proof {
            let head = before.take(at as int);
            if at > 0 {
                assert(head.last() == out@[at - 1]@);
            }
            assert(insert_by_depth(head, item@) == head.push(item@));
        }
        out.insert(at, copy);
        assert(views(out@) =~= before.take(at as int).push(item@) + before.skip(at as int));
        i += 1;
    }
    assert(all.take(i as int) =~= all);
    out
}

/// The name of the ignore files of git, which jj reads too.
pub open spec fn gitignore_name() -> Seq<char> {
    ".gitignore"@
}

/// The name of jj's own ignore files.
pub open spec fn jjignore_name() -> Seq<char> {
    ".jjignore"@
}

/// Which files hold the ignore rules of a working copy, and the rules in force.
///
/// Ignore files are found as changed paths come in: the directories above each path are
/// looked at once.
pub struct IgnoreFilter {
    /// The real path of the working copy.
    root: String,
    vcs_kind: VcsKind,
    /// Relative directories that have been looked at for ignore files.
    checked_dirs: FileTable<bool>,
    /// Absolute paths of the ignore files in force.
    loaded_files: Vec<String>,
    /// The global ignore file.
    global_ignore: Option<String>,
    /// The rules in force, those of deeper directories later.
    rules: Vec<IgnoreRules>,
}

/// What an ignore filter says.
#[verifier::ext_equal]
pub struct FilterView {
    pub root: Seq<char>,
    pub kind: VcsKind,
    pub checked: Set<Seq<char>>,
    pub loaded: Seq<Seq<char>>,
    pub global: Option<Seq<char>>,
    pub rules: Seq<(Seq<char>, Seq<(Seq<char>, Seq<char>)>)>,
}

impl View for IgnoreFilter {
    type V = FilterView;

    closed spec fn view(&self) -> FilterView {
        FilterView {
            root: self.root@,
            kind: self.vcs_kind,
            checked: self.checked_dirs@.dom(),
            loaded: views(self.loaded_files@),
            global: self.global_ignore.deep_view(),
            rules: rule_views(self.rules@),
        }
    }
}

/// The path of a file in a directory below the root.
pub open spec fn file_below(root: Seq<char>, dir: Seq<char>, name: Seq<char>) -> Seq<char> {
    joined(joined(root, dir), name)
}

/// The ignore files that a directory may hold.
pub open spec fn may_hold(kind: VcsKind, root: Seq<char>, dir: Seq<char>) -> Seq<Seq<char>> {
    if kind == VcsKind::Jj {
        seq![file_below(root, dir, gitignore_name()), file_below(root, dir, jjignore_name())]
    } else {
        seq![file_below(root, dir, gitignore_name())]
    }
}

/// What looking for ignore files has come to.
#[verifier::ext_equal]
pub struct Discovery {
    pub checked: Set<Seq<char>>,
    pub loaded: Seq<Seq<char>>,
    /// Whether the rules must be built anew.
    pub rebuild: bool,
}

/// A list with a path in it: at its end where it is new.
pub open spec fn with_path(list: Seq<Seq<char>>, path: Seq<char>) -> Seq<Seq<char>> {
    if list.contains(path) {
        list
    } else {
        list.push(path)
    }
}

/// A list without a path.
pub open spec fn without_path(list: Seq<Seq<char>>, path: Seq<char>) -> Seq<Seq<char>> {
    list.filter(|p: Seq<char>| p != path)
}

/// A file that is there is loaded, unless it is loaded already.
pub open spec fn probe(found: Discovery, file: Seq<char>, there: Set<Seq<char>>) -> Discovery {
    if there.contains(file) && !found.loaded.contains(file) {
        Discovery { loaded: found.loaded.push(file), rebuild: true, ..found }
    } else {
        found
    }
}

/// A directory is looked at for ignore files.
pub open spec fn probe_dir(
    kind: VcsKind,
    root: Seq<char>,
    found: Discovery,
    dir: Seq<char>,
    there: Set<Seq<char>>,
) -> Discovery {
    let marked = Discovery { checked: found.checked.insert(dir), ..found };
    let with_git = probe(marked, file_below(root, dir, gitignore_name()), there);
    if kind == VcsKind::Jj {
        probe(with_git, file_below(root, dir, jjignore_name()), there)
    } else {
        with_git
    }
}

/// The directories above a path are looked at, from the `n`-th one up to the one below
/// the root. One that was looked at before ends it: so were all above it.
pub open spec fn probe_up(
    kind: VcsKind,
    root: Seq<char>,
    found: Discovery,
    rel: Seq<Seq<char>>,
    n: int,
    there: Set<Seq<char>>,
) -> Discovery
    decreases n,
{
    if n <= 0 {
        found
    } else {
        let dir = slash_joined(rel.take(n));
        if found.checked.contains(dir) {
            found
        } else {
            probe_up(kind, root, probe_dir(kind, root, found, dir, there), rel, n - 1, there)
        }
    }
}

/// Whether the last component of a path is the name of an ignore file.
pub open spec fn is_ignore_file(kind: VcsKind, path: Seq<char>) -> bool {
    &&& names(path).len() > 0
    &&& names(path).last() == gitignore_name() || (kind == VcsKind::Jj && names(path).last() == jjignore_name())
}

/// Whether a path belongs to version control itself.
pub open spec fn in_vcs(path: Seq<char>, vcs_dir: Seq<char>, colocated: Option<Seq<char>>) -> bool {
    path_starts_with(path, vcs_dir) || (colocated is Some && path_starts_with(path, colocated->0))
}

/// One changed path is looked at: an ignore file itself comes in or goes, and the
/// directories above the path are looked at.
pub open spec fn discover_path(
    kind: VcsKind,
    root: Seq<char>,
    vcs_dir: Seq<char>,
    colocated: Option<Seq<char>>,
    found: Discovery,
    path: Seq<char>,
    there: Set<Seq<char>>,
) -> Discovery {
    if in_vcs(path, vcs_dir, colocated) {
        found
    } else {
        let own = if !is_ignore_file(kind, path) {
            found
        } else if there.contains(normal(path)) {
            Discovery { loaded: with_path(found.loaded, normal(path)), rebuild: true, ..found }
        } else if found.loaded.contains(normal(path)) {
            Discovery { loaded: without_path(found.loaded, normal(path)), rebuild: true, ..found }
        } else {
            found
        };
        if path_starts_with(path, root) {
            let rel = names(path).skip(names(root).len() as int);
            probe_up(kind, root, own, rel, rel.len() - 1, there)
        } else {
            own
        }
    }
}

/// All paths of a list are looked at.
pub open spec fn discover_all(
    kind: VcsKind,
    root: Seq<char>,
    vcs_dir: Seq<char>,
    colocated: Option<Seq<char>>,
    found: Discovery,
    paths: Seq<Seq<char>>,
    there: Set<Seq<char>>,
) -> Discovery
    decreases paths.len(),
{
    if paths.len() == 0 {
        found
    } else {
        discover_path(
            kind,
            root,
            vcs_dir,
            colocated,
            discover_all(kind, root, vcs_dir, colocated, found, paths.drop_last(), there),
            paths.last(),
            there,
        )
    }
}

/// The place of a string in a list.
pub(crate) fn place_of(list: &Vec<String>, item: &str) -> (r: Option<usize>)
    ensures
        r is Some == views(list@).contains(item@),
        r is Some ==> r->0 < list@.len() && list@[r->0 as int]@ == item@,
{
    let mut i: usize = 0;
    while i < list.len()
        invariant
            i <= list.len(),
            forall|k: int| 0 <= k < i ==> (#[trigger] views(list@)[k]) != item@,
        decreases list.len() - i,
    {
        assert(views(list@)[i as int] == list@[i as int]@);
        if str_eq(list[i].as_str(), item) {
            assert(views(list@).contains(item@));
            return Some(i);
        }
        i += 1;
    }
    None
}

pub(crate) fn drop_path(list: &Vec<String>, item: &str) -> (r: Vec<String>)
    ensures
        views(r@) == without_path(views(list@), item@),
{
    let ghost all = views(list@);
    let ghost keep = |p: Seq<char>| p != item@;
    let mut out: Vec<String> = Vec::new();
    let mut i: usize = 0;
    assert(all.take(0).filter(keep) =~= Seq::empty());
    assert(views(out@) =~= Seq::empty());
    while i < list.len()
        invariant
            i <= list.len(),
            all == views(list@),
            keep == (|p: Seq<char>| p != item@),
            views(out@) == all.take(i as int).filter(keep),
        decreases list.len() - i,
    {
        proof {
            assert(all[i as int] == list@[i as int]@);
            assert(all.take(i + 1) =~= all.take(i as int).push(all[i as int]));
            all.take(i as int).lemma_filter_push(all[i as int], keep);
        }
        if !str_eq(list[i].as_str(), item) {
            let copy = list[i].clone();
            let ghost before = out@;
            out.push(copy);
            proof {
                lemma_views_push(before, copy);
            }
        }
        i += 1;
    }
    assert(all.take(i as int) =~= all);
    out
}

/// A changed path, and whether it is a directory.
pub struct EventPath {
    pub path: String,
    pub is_dir: bool,
}

/// The paths of a list of changed paths.
pub open spec fn event_paths(list: Seq<EventPath>) -> Seq<Seq<char>> {
    list.map_values(|p: EventPath| p.path@)
}

/// Result of processing an event's paths through the ignore filter.
pub struct EventVerdict {
    /// All working-copy paths in the event are ignored — skip the event entirely.
    pub all_ignored: bool,
    /// Non-ignored working-copy paths for incremental diffs.
    pub changed_paths: Vec<String>,
}

/// Whether a path of the working copy is ignored.
pub open spec fn path_ignored(filter: FilterView, path: Seq<char>, is_dir: bool) -> bool {
    rules_ignore(filter.rules, path, is_dir)
}

/// The paths of a list that lie in the working copy.
pub open spec fn working_copy_paths(
    list: Seq<EventPath>,
    vcs_dir: Seq<char>,
    colocated: Option<Seq<char>>,
) -> Seq<EventPath> {
    list.filter(|p: EventPath| !in_vcs(p.path@, vcs_dir, colocated))
}

/// The paths of a list that are let through.
pub open spec fn let_through(
    filter: FilterView,
    list: Seq<EventPath>,
    vcs_dir: Seq<char>,
    colocated: Option<Seq<char>>,
) -> Seq<EventPath> {
    list.filter(
        |p: EventPath| !in_vcs(p.path@, vcs_dir, colocated) && !path_ignored(filter, p.path@, p.is_dir),
    )
}

/// A string that may not be there.
pub open spec fn opt_str(s: Option<&str>) -> Option<Seq<char>> {
    match s {
        Some(text) => Some(text@),
        None => None,
    }
}

pub(crate) fn belongs_to_vcs(path: &str, vcs_dir: &str, colocated: Option<&str>) -> (r: bool)
    ensures
        r == in_vcs(path@, vcs_dir@, opt_str(colocated)),
{
    if starts_with(path, vcs_dir) {
        return true;
    }
    match colocated {
        Some(dir) => starts_with(path, dir),
        None => false,
    }
}

/// The directory that a file is in.
pub open spec fn parent_dir(file: Seq<char>) -> Seq<char> {
    match last_place(file, '/') {
        Some(place) => if place == 0 {
            file.take(1)
        } else {
            file.take(place)
        },
        None => Seq::empty(),
    }
}

/// Whether a file is in a directory below the root.
pub open spec fn is_nested(root: Seq<char>, file: Seq<char>) -> bool {
    path_starts_with(parent_dir(file), root) && names(parent_dir(file)).len() > names(root).len()
}

/// The lines of an ignore file; one without content has none.
pub open spec fn lines_of_file(file: Seq<char>, contents: Map<Seq<char>, Seq<char>>) -> Seq<(Seq<char>, Seq<char>)> {
    if contents.contains_key(file) {
        file_lines(file, contents[file])
    } else {
        Seq::empty()
    }
}

/// The lines of the ignore files of a list that are in no directory below the root.
pub open spec fn root_lines(
    root: Seq<char>,
    files: Seq<Seq<char>>,
    contents: Map<Seq<char>, Seq<char>>,
) -> Seq<(Seq<char>, Seq<char>)>
    decreases files.len(),
{
    if files.len() == 0 {
        Seq::empty()
    } else if is_nested(root, files.last()) {
        root_lines(root, files.drop_last(), contents)
    } else {
        root_lines(root, files.drop_last(), contents) + lines_of_file(files.last(), contents)
    }
}

/// Rules with those of some lines for a directory; no lines make no rules.
pub open spec fn with_rules(
    rules: Seq<(Seq<char>, Seq<(Seq<char>, Seq<char>)>)>,
    dir: Seq<char>,
    lines: Seq<(Seq<char>, Seq<char>)>,
) -> Seq<(Seq<char>, Seq<(Seq<char>, Seq<char>)>)> {
    if lines.len() == 0 {
        rules
    } else {
        rules.push((dir, lines))
    }
}

/// The rules of some ignore files, in order: the global file and those of the root speak of
/// everything below the root, any other one of what is below its own directory.
pub open spec fn rules_of(
    root: Seq<char>,
    global: Option<Seq<char>>,
    files: Seq<Seq<char>>,
    contents: Map<Seq<char>, Seq<char>>,
) -> Seq<(Seq<char>, Seq<(Seq<char>, Seq<char>)>)> {
    let first = match global {
        Some(file) => lines_of_file(file, contents),
        None => Seq::empty(),
    };
    nested_rules(with_rules(Seq::empty(), root, first + root_lines(root, files, contents)), root, files, contents)
}

/// Rules with those of the files of a list that are in a directory below the root.
pub open spec fn nested_rules(
    rules: Seq<(Seq<char>, Seq<(Seq<char>, Seq<char>)>)>,
    root: Seq<char>,
    files: Seq<Seq<char>>,
    contents: Map<Seq<char>, Seq<char>>,
) -> Seq<(Seq<char>, Seq<(Seq<char>, Seq<char>)>)>
    decreases files.len(),
{
    if files.len() == 0 {
        rules
    } else {
        let before = nested_rules(rules, root, files.drop_last(), contents);
        if is_nested(root, files.last()) {
            with_rules(before, parent_dir(files.last()), lines_of_file(files.last(), contents))
        } else {
            before
        }
    }
}

/// The directory that a file is in.
fn dir_of_file(file: &str) -> (r: String)
    ensures
        r@ == parent_dir(file@),
{
    let chars = to_chars(file);
    match find_last(&chars, '/') {
        Some(place) => {
            let end: usize = if place == 0 {
                1
            } else {
                place
            };
            let r = from_chars(&chars, 0, end);
            assert(r@ =~= file@.take(end as int));
            r
        },
        None => {
            let r = String::new();
            assert(r@ =~= Seq::empty());
            r
        },
    }
}

/// Whether a directory is below the root.
fn is_below(root: &str, dir: &str) -> (r: bool)
    ensures
        r == (path_starts_with(dir@, root@) && names(dir@).len() > names(root@).len()),
{
    if !starts_with(dir, root) {
        return false;
    }
    let above = path_names(root);
    let own = path_names(dir);
    assert(views(above@).len() == above@.len());
    assert(views(own@).len() == own@.len());
    own.len() > above.len()
}

/// Adds the lines of an ignore file to a list.
fn push_contents(out: &mut Vec<IgnoreLine>, file: &str, contents: &FileTable<String>)
    requires
        contents.wf(),
    ensures
        line_views(final(out)@) == line_views(old(out)@) + lines_of_file(file@, contents@),
{
    match contents.get(file) {
        Some(content) => push_file_lines(out, file, content.as_str()),
        None => {
            assert(line_views(out@) + Seq::<(Seq<char>, Seq<char>)>::empty() =~= line_views(out@));
        },
    }
}

/// Adds the rules of some lines to a list.
fn push_rules(rules: &mut Vec<IgnoreRules>, dir: &str, lines: Vec<IgnoreLine>)
    requires
        has_root(dir@),
        forall|i: int| 0 <= i < old(rules)@.len() ==> (#[trigger] old(rules)@[i]).wf(),
    ensures
        forall|i: int| 0 <= i < final(rules)@.len() ==> (#[trigger] final(rules)@[i]).wf(),
        rule_views(final(rules)@) == with_rules(rule_views(old(rules)@), dir@, line_views(lines@)),
{
    assert(line_views(lines@).len() == lines@.len());
    if lines.len() > 0 {
        let ghost before = rules@;
        let ghost text = line_views(lines@);
        let made = IgnoreRules::build_matcher(dir, lines);
        rules.push(made);
        assert(rule_views(rules@) =~= rule_views(before).push((dir@, text)));
    }
}

/// The ignore files in force, in the order in which they are added: the global one, then
/// the others, shallowest first.
pub open spec fn load_sequence(filter: FilterView) -> Seq<Seq<char>> {
    match filter.global {
        Some(file) => seq![file] + by_depth(filter.loaded),
        None => by_depth(filter.loaded),
    }
}

/// The directory of the first `n` components of a path below the root.
pub open spec fn dir_above(root: Seq<char>, path: Seq<char>, n: int) -> Seq<char> {
    slash_joined(names(path).skip(names(root).len() as int).take(n))
}

/// Whether a file must be looked for before a path can be looked at: the path itself where
/// it is an ignore file, and the ignore files in the directories above it that have not
/// been looked at.
pub open spec fn looked_for(filter: FilterView, path: Seq<char>, file: Seq<char>) -> bool {
    (is_ignore_file(filter.kind, path) && file == normal(path)) || (path_starts_with(path, filter.root)
        && exists|n: int|
            0 < n < names(path).len() - names(filter.root).len() && !filter.checked.contains(
                #[trigger] dir_above(filter.root, path, n),
            ) && may_hold(filter.kind, filter.root, dir_above(filter.root, path, n)).contains(file))
}

/// The files that must be looked for before the paths of an event can be looked at.
pub open spec fn wanted_files(
    filter: FilterView,
    paths: Seq<Seq<char>>,
    vcs_dir: Seq<char>,
    colocated: Option<Seq<char>>,
) -> Set<Seq<char>> {
    Set::new(
        |file: Seq<char>|
            exists|i: int|
                0 <= i < paths.len() && !in_vcs(#[trigger] paths[i], vcs_dir, colocated) && looked_for(
                    filter,
                    paths[i],
                    file,
                ),
    )
}

proof fn lemma_probe_up_local(
    kind: VcsKind,
    root: Seq<char>,
    found: Discovery,
    rel: Seq<Seq<char>>,
    n: int,
    a: Set<Seq<char>>,
    b: Set<Seq<char>>,
    asked: Set<Seq<char>>,
    before: Set<Seq<char>>,
)
    requires
        n <= rel.len(),
        before.subset_of(found.checked),
        forall|file: Seq<char>| asked.contains(file) ==> (#[trigger] a.contains(file) == b.contains(file)),
        forall|k: int, file: Seq<char>|
            0 < k <= n && !before.contains(slash_joined(rel.take(k))) && #[trigger] may_hold(
                kind,
                root,
                slash_joined(rel.take(k)),
            ).contains(file) ==> asked.contains(file),
    ensures
        probe_up(kind, root, found, rel, n, a) == probe_up(kind, root, found, rel, n, b),
        before.subset_of(probe_up(kind, root, found, rel, n, a).checked),
    decreases n,
{
    if n > 0 {
        let dir = slash_joined(rel.take(n));
        if !found.checked.contains(dir) {
            let held = may_hold(kind, root, dir);
            let git = file_below(root, dir, gitignore_name());
            assert(held[0] == git);
            assert(held.contains(git));
            assert(asked.contains(git));
            assert(a.contains(git) == b.contains(git));
            if kind == VcsKind::Jj {
                let jj = file_below(root, dir, jjignore_name());
                assert(held[1] == jj);
                assert(held.contains(jj));
                assert(asked.contains(jj));
                assert(a.contains(jj) == b.contains(jj));
            }
            let next = probe_dir(kind, root, found, dir, a);
            assert(next == probe_dir(kind, root, found, dir, b));
            lemma_probe_up_local(kind, root, next, rel, n - 1, a, b, asked, before);
        }
    }
}

proof fn lemma_discover_local(
    filter: FilterView,
    vcs_dir: Seq<char>,
    colocated: Option<Seq<char>>,
    paths: Seq<Seq<char>>,
    a: Set<Seq<char>>,
    b: Set<Seq<char>>,
    asked: Set<Seq<char>>,
)
    requires
        forall|file: Seq<char>| asked.contains(file) ==> (#[trigger] a.contains(file) == b.contains(file)),
        wanted_files(filter, paths, vcs_dir, colocated).subset_of(asked),
    ensures
        ({
            let start = Discovery { checked: filter.checked, loaded: filter.loaded, rebuild: false };
            &&& discover_all(filter.kind, filter.root, vcs_dir, colocated, start, paths, a) == discover_all(
                filter.kind,
                filter.root,
                vcs_dir,
                colocated,
                start,
                paths,
                b,
            )
            &&& filter.checked.subset_of(
                discover_all(filter.kind, filter.root, vcs_dir, colocated, start, paths, a).checked,
            )
        }),
    decreases paths.len(),
{
    if paths.len() > 0 {
        let start = Discovery { checked: filter.checked, loaded: filter.loaded, rebuild: false };
        let rest = paths.drop_last();
        let path = paths.last();
        assert(paths[paths.len() - 1] == path);
        assert forall|file: Seq<char>| wanted_files(filter, rest, vcs_dir, colocated).contains(file) implies asked.contains(
            file,
        ) by {
            let i = choose|i: int|
                0 <= i < rest.len() && !in_vcs(#[trigger] rest[i], vcs_dir, colocated) && looked_for(
                    filter,
                    rest[i],
                    file,
                );
            assert(paths[i] == rest[i]);
            assert(wanted_files(filter, paths, vcs_dir, colocated).contains(file));
        }
        lemma_discover_local(filter, vcs_dir, colocated, rest, a, b, asked);
        let found = discover_all(filter.kind, filter.root, vcs_dir, colocated, start, rest, a);
        if !in_vcs(path, vcs_dir, colocated) {
            if is_ignore_file(filter.kind, path) {
                assert(looked_for(filter, path, normal(path)));
                assert(wanted_files(filter, paths, vcs_dir, colocated).contains(normal(path)));
                assert(asked.contains(normal(path)));
                assert(a.contains(normal(path)) == b.contains(normal(path)));
            }
            if path_starts_with(path, filter.root) {
                let rel = names(path).skip(names(filter.root).len() as int);
                let own = if !is_ignore_file(filter.kind, path) {
                    found
                } else if a.contains(normal(path)) {
                    Discovery { loaded: with_path(found.loaded, normal(path)), rebuild: true, ..found }
                } else if found.loaded.contains(normal(path)) {
                    Discovery { loaded: without_path(found.loaded, normal(path)), rebuild: true, ..found }
                } else {
                    found
                };
                assert forall|k: int, file: Seq<char>|
                    0 < k <= rel.len() - 1 && !filter.checked.contains(slash_joined(rel.take(k)))
                        && #[trigger] may_hold(filter.kind, filter.root, slash_joined(rel.take(k))).contains(
                        file,
                    ) implies asked.contains(file) by {
                    assert(dir_above(filter.root, path, k) == slash_joined(rel.take(k)));
                    assert(looked_for(filter, path, file));
                    assert(wanted_files(filter, paths, vcs_dir, colocated).contains(file));
                }
                lemma_probe_up_local(
                    filter.kind,
                    filter.root,
                    own,
                    rel,
                    rel.len() - 1,
                    a,
                    b,
                    asked,
                    filter.checked,
                );
            }
        }
    }
}

/// Looking at the paths of an event depends on no other files than the wanted ones.
pub proof fn wanted_files_decide(
    filter: FilterView,
    vcs_dir: Seq<char>,
    colocated: Option<Seq<char>>,
    paths: Seq<Seq<char>>,
    there: Set<Seq<char>>,
)
    ensures
        ({
            let start = Discovery { checked: filter.checked, loaded: filter.loaded, rebuild: false };
            let wanted = wanted_files(filter, paths, vcs_dir, colocated);
            discover_all(filter.kind, filter.root, vcs_dir, colocated, start, paths, there) == discover_all(
                filter.kind,
                filter.root,
                vcs_dir,
                colocated,
                start,
                paths,
                there.intersect(wanted),
            )
        }),
{
    let wanted = wanted_files(filter, paths, vcs_dir, colocated);
    lemma_discover_local(filter, vcs_dir, colocated, paths, there, there.intersect(wanted), wanted);
}

impl IgnoreFilter {
    /// The root is an absolute path, and the matchers follow their lines.
    pub closed spec fn wf(&self) -> bool {
        &&& self.checked_dirs.wf()
        &&& forall|i: int| 0 <= i < self.rules@.len() ==> (#[trigger] self.rules@[i]).wf()
        &&& has_root(self.root@)
    }

    /// Create a new filter for a working copy, given which ignore files its root holds and
    /// the global ignore file, where there is one. Its rules are loaded by `rebuild`.
    pub fn new(
        root: &str,
        vcs_kind: VcsKind,
        has_gitignore: bool,
        has_jjignore: bool,
        global_ignore: Option<String>,
    ) -> (r: IgnoreFilter)
        requires
            has_root(root@),
        ensures
            r.wf(),
            r@.root == root@,
            r@.kind == vcs_kind,
            r@.checked == set![Seq::<char>::empty()],
            r@.loaded == (if has_gitignore {
                seq![joined(root@, gitignore_name())]
            } else {
                Seq::empty()
            }) + (if has_jjignore && vcs_kind == VcsKind::Jj {
                seq![joined(root@, jjignore_name())]
            } else {
                Seq::empty()
            }),
            r@.global == global_ignore.deep_view(),
            r@.rules == Seq::<(Seq<char>, Seq<(Seq<char>, Seq<char>)>)>::empty(),
    {
        let mut loaded_files: Vec<String> = Vec::new();
        if has_gitignore {
            loaded_files.push(join(root, ".gitignore"));
        }
        if has_jjignore && vcs_kind == VcsKind::Jj {
            loaded_files.push(join(root, ".jjignore"));
        }
        let mut checked_dirs: FileTable<bool> = FileTable::new();
        checked_dirs.insert(String::new(), true);
        let r = IgnoreFilter {
            root: root.to_owned(),
            vcs_kind,
            checked_dirs,
            loaded_files,
            global_ignore,
            rules: Vec::new(),
        };
        proof {
            assert(r@.checked =~= set![Seq::<char>::empty()]);
            assert(r@.rules =~= Seq::empty());
            assert(r@.loaded =~= (if has_gitignore {
                seq![joined(root@, gitignore_name())]
            } else {
                Seq::empty()
            }) + (if has_jjignore && vcs_kind == VcsKind::Jj {
                seq![joined(root@, jjignore_name())]
            } else {
                Seq::empty()
            }));
        }
        r
    }

    /// The ignore files in force, in the order in which they are added: the global one,
    /// then the others, shallowest first, so that deeper files override shallower ones.
    pub fn load_order(&self) -> (r: Vec<String>)
        ensures
            views(r@) == load_sequence(self@),
    {
        let sorted = sort_by_depth(&self.loaded_files);
        match &self.global_ignore {
            Some(file) => {
                let mut out: Vec<String> = Vec::new();
                out.push(file.clone());
                let mut i: usize = 0;
                assert(views(out@) =~= seq![file@] + views(sorted@).take(0));
                while i < sorted.len()
                    invariant
                        i <= sorted.len(),
                        views(out@) == seq![file@] + views(sorted@).take(i as int),
                    decreases sorted.len() - i,
                {
                    let item = sorted[i].clone();
                    let ghost before = out@;
                    out.push(item);
                    proof {
                        lemma_views_push(before, item);
                        assert(views(sorted@)[i as int] == item@);
                        assert(seq![file@] + views(sorted@).take(i + 1) =~= (seq![file@] + views(sorted@).take(
                            i as int,
                        )).push(item@));
                    }
                    i += 1;
                }
                assert(views(sorted@).take(i as int) =~= views(sorted@));
                out
            },
            None => sorted,
        }
    }

    /// Builds the rules anew from the contents of the ignore files in force; one without
    /// content adds nothing.
    pub fn rebuild(&mut self, contents: &FileTable<String>)
        requires
            old(self).wf(),
            contents.wf(),
        ensures
            final(self).wf(),
            final(self)@ == (FilterView {
                rules: rules_of(old(self)@.root, old(self)@.global, by_depth(old(self)@.loaded), contents@),
                ..old(self)@
            }),
    {
        let files = sort_by_depth(&self.loaded_files);
        let ghost all = views(files@);
        let ghost root = self.root@;
        let mut first: Vec<IgnoreLine> = Vec::new();
        assert(line_views(first@) =~= Seq::empty());
        if let Some(file) = &self.global_ignore {
            push_contents(&mut first, file.as_str(), contents);
        }
        let ghost start = match self@.global {
            Some(file) => lines_of_file(file, contents@),
            None => Seq::empty(),
        };
        assert(line_views(first@) =~= start + root_lines(root, all.take(0), contents@));
        let mut i: usize = 0;
        while i < files.len()
            invariant
                i <= files.len(),
                self.wf(),
                contents.wf(),
                root == self.root@,
                all == views(files@),
                line_views(first@) == start + root_lines(root, all.take(i as int), contents@),
            decreases files.len() - i,
        {
            let file = files[i].as_str();
            proof {
                assert(all[i as int] == file@);
                assert(all.take(i + 1).drop_last() =~= all.take(i as int));
                assert(all.take(i + 1).last() == file@);
            }
            let dir = dir_of_file(file);
            if !is_below(self.root.as_str(), dir.as_str()) {
                let ghost before = line_views(first@);
                push_contents(&mut first, file, contents);
                assert(line_views(first@) =~= start + (root_lines(root, all.take(i as int), contents@)
                    + lines_of_file(file@, contents@)));
            }
            i += 1;
        }
        assert(all.take(i as int) =~= all);
        let mut rules: Vec<IgnoreRules> = Vec::new();
        assert(rule_views(rules@) =~= Seq::empty());
        push_rules(&mut rules, self.root.as_str(), first);
        let ghost base = rule_views(rules@);
        let mut j: usize = 0;
        assert(nested_rules(base, root, all.take(0), contents@) == base);
        while j < files.len()
            invariant
                j <= files.len(),
                self.wf(),
                contents.wf(),
                root == self.root@,
                has_root(root),
                all == views(files@),
                forall|k: int| 0 <= k < rules@.len() ==> (#[trigger] rules@[k]).wf(),
                rule_views(rules@) == nested_rules(base, root, all.take(j as int), contents@),
            decreases files.len() - j,
        {
            let file = files[j].as_str();
            proof {
                assert(all[j as int] == file@);
                assert(all.take(j + 1).drop_last() =~= all.take(j as int));
                assert(all.take(j + 1).last() == file@);
            }
            let dir = dir_of_file(file);
            if is_below(self.root.as_str(), dir.as_str()) {
                let mut lines: Vec<IgnoreLine> = Vec::new();
                push_contents(&mut lines, file, contents);
                assert(line_views(lines@) =~= lines_of_file(file@, contents@));
                push_rules(&mut rules, dir.as_str(), lines);
            }
            j += 1;
        }
        assert(all.take(j as int) =~= all);
        self.rules = rules;
    }

    /// Whether the last component of a path is the name of an ignore file.
    pub fn is_ignore_filename(&self, path: &str) -> (r: bool)
        ensures
            r == is_ignore_file(self@.kind, path@),
    {
        let list = path_names(path);
        assert(views(list@).len() == list@.len());
        if list.len() == 0 {
            return false;
        }
        let last = &list[list.len() - 1];
        assert(views(list@).last() == last@);
        str_eq(last.as_str(), ".gitignore") || (self.vcs_kind == VcsKind::Jj && str_eq(last.as_str(), ".jjignore"))
    }

    /// Adds the ignore files that a directory may hold to a list.
    fn push_held(&self, out: &mut Vec<String>, dir: &str)
        ensures
            forall|p: Seq<char>| #[trigger]
                views(final(out)@).contains(p) <==> views(old(out)@).contains(p) || may_hold(
                    self@.kind,
                    self@.root,
                    dir@,
                ).contains(p),
    {
        let ghost first = out@;
        let ghost held = may_hold(self@.kind, self@.root, dir@);
        let abs = join(self.root.as_str(), dir);
        let git = join(abs.as_str(), ".gitignore");
        out.push(git);
        let ghost second = out@;
        proof {
            lemma_views_push(first, git);
            assert(held[0] == git@);
        }
        if self.vcs_kind == VcsKind::Jj {
            let jj = join(abs.as_str(), ".jjignore");
            out.push(jj);
            proof {
                lemma_views_push(second, jj);
                assert(held[1] == jj@);
            }
        }
        proof {
            assert forall|p: Seq<char>| #[trigger] views(out@).contains(p) <==> views(first).contains(p)
                || held.contains(p) by {
                lemma_contains_push(views(first), held[0], p);
                if self@.kind == VcsKind::Jj {
                    lemma_contains_push(views(second), held[1], p);
                }
                if held.contains(p) {
                    let k = choose|k: int| 0 <= k < held.len() && held[k] == p;
                    assert(k == 0 || k == 1);
                }
                assert(held.contains(held[0]));
                if self@.kind == VcsKind::Jj {
                    assert(held.contains(held[1]));
                }
            }
        }
    }

    /// The files that must be looked for before the paths of an event can be looked at.
    pub fn files_to_look_for(&self, paths: &Vec<EventPath>, vcs_dir: &str, colocated_git_dir: Option<&str>) -> (r: Vec<
        String,
    >)
        requires
            self.wf(),
        ensures
            forall|file: Seq<char>| #[trigger]
                views(r@).contains(file) <==> wanted_files(
                    self@,
                    event_paths(paths@),
                    vcs_dir@,
                    opt_str(colocated_git_dir),
                ).contains(file),
    {
        let ghost colocated = opt_str(colocated_git_dir);
        let ghost all = event_paths(paths@);
        let mut out: Vec<String> = Vec::new();
        let mut i: usize = 0;
        while i < paths.len()
            invariant
                i <= paths.len(),
                self.wf(),
                colocated == opt_str(colocated_git_dir),
                all == event_paths(paths@),
                forall|file: Seq<char>| #[trigger]
                    views(out@).contains(file) <==> wanted_files(
                        self@,
                        all.take(i as int),
                        vcs_dir@,
                        colocated,
                    ).contains(file),
            decreases paths.len() - i,
        {
            let path = paths[i].path.as_str();
            let ghost before = views(out@);
            if !belongs_to_vcs(path, vcs_dir, colocated_git_dir) {
                self.push_looked_for(&mut out, path);
            }
            proof {
                assert(all[i as int] == path@);
                let was = all.take(i as int);
                let now = all.take(i + 1);
                assert forall|file: Seq<char>| #[trigger] views(out@).contains(file) <==> wanted_files(
                    self@,
                    now,
                    vcs_dir@,
                    colocated,
                ).contains(file) by {
                    if wanted_files(self@, was, vcs_dir@, colocated).contains(file) {
                        let k = choose|k: int|
                            0 <= k < was.len() && !in_vcs(#[trigger] was[k], vcs_dir@, colocated) && looked_for(
                                self@,
                                was[k],
                                file,
                            );
                        assert(now[k] == was[k]);
                    }
                    if !in_vcs(path@, vcs_dir@, colocated) && looked_for(self@, path@, file) {
                        assert(now[i as int] == path@);
                    }
                    if wanted_files(self@, now, vcs_dir@, colocated).contains(file) {
                        let k = choose|k: int|
                            0 <= k < now.len() && !in_vcs(#[trigger] now[k], vcs_dir@, colocated) && looked_for(
                                self@,
                                now[k],
                                file,
                            );
                        if k < i {
                            assert(was[k] == now[k]);
                        }
                    }
                }
            }
            i += 1;
        }
        assert(all.take(i as int) =~= all);
        out
    }

    /// Adds the files that must be looked for before a path can be looked at to a list.
    fn push_looked_for(&self, out: &mut Vec<String>, path: &str)
        requires
            self.wf(),
        ensures
            forall|file: Seq<char>| #[trigger]
                views(final(out)@).contains(file) <==> views(old(out)@).contains(file) || looked_for(
                    self@,
                    path@,
                    file,
                ),
    {
        let ghost first = views(out@);
        let ghost own = is_ignore_file(self@.kind, path@);
        if self.is_ignore_filename(path) {
            let key = normalize(path);
            let ghost list = out@;
            out.push(key);
            proof {
                lemma_views_push(list, key);
                assert forall|file: Seq<char>| #[trigger] views(out@).contains(file) <==> first.contains(file) || (own
                    && file == normal(path@)) by {
                    lemma_contains_push(first, key@, file);
                }
            }
        }
        if !starts_with(path, self.root.as_str()) {
            return ;
        }
        let all = path_names(path);
        let skip: usize = path_names(self.root.as_str()).len();
        let ghost root = self@.root;
        proof {
            assert(views(all@).len() == all@.len());
            assert(skip == names(root).len());
            assert(names(root).len() <= names(path@).len());
        }
        let mut n: usize = 1;
        while n < all.len() - skip
            invariant
                self.wf(),
                1 <= n,
                n <= all@.len() - skip || n == 1,
                root == self@.root,
                skip == names(root).len(),
                skip <= all@.len(),
                views(all@) == names(path@),
                forall|file: Seq<char>| #[trigger]
                    views(out@).contains(file) <==> first.contains(file) || (own && file == normal(path@)) || exists|
                        k: int,
                    |
                        0 < k < n && !self@.checked.contains(#[trigger] dir_above(root, path@, k)) && may_hold(
                            self@.kind,
                            root,
                            dir_above(root, path@, k),
                        ).contains(file),
            decreases all.len() - skip - n,
        {
            let dir = join_names(&all, skip, skip + n);
            let ghost before = views(out@);
            proof {
                assert(views(all@).len() == all@.len());
                assert(views(all@).subrange(skip as int, skip + n) =~= names(path@).skip(skip as int).take(n as int));
                assert(dir@ == dir_above(root, path@, n as int));
            }
            if !self.checked_dirs.contains(dir.as_str()) {
                self.push_held(out, dir.as_str());
            }
            proof {
                assert forall|file: Seq<char>| #[trigger]
                    views(out@).contains(file) <==> first.contains(file) || (own && file == normal(path@)) || exists|
                        k: int,
                    |
                        0 < k < n + 1 && !self@.checked.contains(#[trigger] dir_above(root, path@, k)) && may_hold(
                            self@.kind,
                            root,
                            dir_above(root, path@, k),
                        ).contains(file) by {
                    let d = dir_above(root, path@, n as int);
                    if !self@.checked.contains(d) {
                        assert(views(out@).contains(file) <==> before.contains(file) || may_hold(
                            self@.kind,
                            root,
                            d,
                        ).contains(file));
                    } else {
                        assert(views(out@) == before);
                    }
                    assert(before.contains(file) || !before.contains(file));
                }
            }
            n += 1;
        }
    }

    /// Loads a file that is there, unless it is loaded already. Says whether it did.
    fn probe_file(&mut self, file: String, there: &FileTable<bool>) -> (r: bool)
        requires
            old(self).wf(),
            there.wf(),
        ensures
            final(self).wf(),
            r == (there@.contains_key(file@) && !old(self)@.loaded.contains(file@)),
            final(self)@ == (FilterView {
                loaded: if r {
                    old(self)@.loaded.push(file@)
                } else {
                    old(self)@.loaded
                },
                ..old(self)@
            }),
    {
        if !there.contains(file.as_str()) {
            return false;
        }
        if place_of(&self.loaded_files, file.as_str()).is_some() {
            return false;
        }
        let ghost before = self.loaded_files@;
        self.loaded_files.push(file);
        proof {
            lemma_views_push(before, file);
        }
        true
    }

    /// Looks at the directories above a path. Says whether a file was loaded.
    fn probe_dirs(&mut self, path: &str, there: &FileTable<bool>, Ghost(start): Ghost<bool>) -> (r: bool)
        requires
            old(self).wf(),
            there.wf(),
            path_starts_with(path@, old(self)@.root),
        ensures
            final(self).wf(),
            ({
                let rel = names(path@).skip(names(old(self)@.root).len() as int);
                let after = probe_up(
                    old(self)@.kind,
                    old(self)@.root,
                    Discovery { checked: old(self)@.checked, loaded: old(self)@.loaded, rebuild: start },
                    rel,
                    rel.len() - 1,
                    there@.dom(),
                );
                &&& final(self)@ == (FilterView { checked: after.checked, loaded: after.loaded, ..old(self)@ })
                &&& (start || r) == after.rebuild
            }),
    {
        let all = path_names(path);
        let root_names = path_names(self.root.as_str());
        let skip: usize = root_names.len();
        let ghost rel = names(path@).skip(names(self@.root).len() as int);
        let ghost first = self@;
        proof {
            assert(views(all@).len() == all@.len());
            assert(views(root_names@).len() == root_names@.len());
            assert(names(self@.root).len() <= names(path@).len());
        }
        let total: usize = all.len();
        let mut n: usize = total - skip;
        let ghost kind = self@.kind;
        let ghost root = self@.root;
        let ghost goal = probe_up(
            kind,
            root,
            Discovery { checked: first.checked, loaded: first.loaded, rebuild: start },
            rel,
            rel.len() - 1,
            there@.dom(),
        );
        let mut rebuild: bool = false;
        if n == 0 {
            return false;
        }
        n = n - 1;
        while n > 0
            invariant_except_break
                skip + n <= total == all@.len(),
                self.wf(),
                there.wf(),
                skip == names(root).len(),
                views(all@) == names(path@),
                skip <= all@.len(),
                rel == names(path@).skip(skip as int),
                kind == first.kind,
                root == first.root,
                self@ == (FilterView { checked: self@.checked, loaded: self@.loaded, ..first }),
                goal == probe_up(
                    kind,
                    root,
                    Discovery { checked: self@.checked, loaded: self@.loaded, rebuild: start || rebuild },
                    rel,
                    n as int,
                    there@.dom(),
                ),
            ensures
                self.wf(),
                self@ == (FilterView { checked: goal.checked, loaded: goal.loaded, ..first }),
                (start || rebuild) == goal.rebuild,
            decreases n,
        {
            let dir = join_names(&all, skip, skip + n);
            proof {
                assert(views(all@).len() == all@.len());
                assert(views(all@).subrange(skip as int, skip + n) =~= rel.take(n as int));
            }
            if self.checked_dirs.contains(dir.as_str()) {
                break;
            }
            let ghost before = self@;
            self.checked_dirs.insert(dir.clone(), true);
            let ghost marked = self@;
            assert(marked.checked =~= before.checked.insert(dir@));
            let abs = join(self.root.as_str(), dir.as_str());
            let hit_git: bool = self.probe_file(join(abs.as_str(), ".gitignore"), there);
            let hit_jj: bool = if self.vcs_kind == VcsKind::Jj {
                self.probe_file(join(abs.as_str(), ".jjignore"), there)
            } else {
                false
            };
            let ghost was = Discovery {
                checked: before.checked,
                loaded: before.loaded,
                rebuild: start || rebuild,
            };
            rebuild = rebuild || hit_git || hit_jj;
            assert(probe_dir(kind, root, was, dir@, there@.dom()) =~= (Discovery {
                checked: self@.checked,
                loaded: self@.loaded,
                rebuild: start || rebuild,
            }));
            n -= 1;
        }
        rebuild
    }

    /// Check changed paths for new ignore files, given which of the files that may be
    /// there are. Says whether the rules must be built anew.
    pub fn discover_ignore_files(
        &mut self,
        paths: &Vec<EventPath>,
        vcs_dir: &str,
        colocated_git_dir: Option<&str>,
        there: &FileTable<bool>,
    ) -> (r: bool)
        requires
            old(self).wf(),
            there.wf(),
        ensures
            final(self).wf(),
            ({
                let after = discover_all(
                    old(self)@.kind,
                    old(self)@.root,
                    vcs_dir@,
                    opt_str(colocated_git_dir),
                    Discovery { checked: old(self)@.checked, loaded: old(self)@.loaded, rebuild: false },
                    event_paths(paths@),
                    there@.dom(),
                );
                &&& final(self)@ == (FilterView { checked: after.checked, loaded: after.loaded, ..old(self)@ })
                &&& r == after.rebuild
            }),
    {
        let ghost first = self@;
        let ghost all = event_paths(paths@);
        let ghost start = Discovery { checked: first.checked, loaded: first.loaded, rebuild: false };
        let mut rebuild: bool = false;
        let mut i: usize = 0;
        while i < paths.len()
            invariant
                i <= paths.len(),
                self.wf(),
                there.wf(),
                all == event_paths(paths@),
                start == (Discovery { checked: first.checked, loaded: first.loaded, rebuild: false }),
                self@ == (FilterView { checked: self@.checked, loaded: self@.loaded, ..first }),
                discover_all(
                    first.kind,
                    first.root,
                    vcs_dir@,
                    opt_str(colocated_git_dir),
                    start,
                    all.take(i as int),
                    there@.dom(),
                ) == (Discovery { checked: self@.checked, loaded: self@.loaded, rebuild }),
            decreases paths.len() - i,
        {
            let path = paths[i].path.as_str();
            let ghost before = self@;
            let ghost was = rebuild;
            proof {
                assert(all[i as int] == path@);
                assert(all.take(i + 1).drop_last() =~= all.take(i as int));
                assert(all.take(i + 1).last() == path@);
            }
            if !belongs_to_vcs(path, vcs_dir, colocated_git_dir) {
                if self.is_ignore_filename(path) {
                    let key = normalize(path);
                    let place = place_of(&self.loaded_files, key.as_str());
                    if there.contains(key.as_str()) {
                        if place.is_none() {
                            let ghost list = self.loaded_files@;
                            self.loaded_files.push(key);
                            proof {
                                lemma_views_push(list, key);
                            }
                        }
                        rebuild = true;
                    } else if place.is_some() {
                        self.loaded_files = drop_path(&self.loaded_files, key.as_str());
                        rebuild = true;
                    }
                }
                if starts_with(path, self.root.as_str()) {
                    let more: bool = self.probe_dirs(path, there, Ghost(rebuild));
                    rebuild = rebuild || more;
                }
            }
            i += 1;
        }
        assert(all.take(i as int) =~= all);
        rebuild
    }

    /// Filters changed paths by the rules in force. Only working-copy paths (outside
    /// version control's own directories) are considered.
    pub fn process_event(&self, vcs_dir: &str, colocated_git_dir: Option<&str>, paths: &Vec<EventPath>) -> (r:
        EventVerdict)
        requires
            self.wf(),
            self@.rules.len() > 0 ==> forall|i: int|
                0 <= i < paths@.len() ==> in_vcs((#[trigger] paths@[i]).path@, vcs_dir@, opt_str(colocated_git_dir))
                    || path_starts_with(paths@[i].path@, self@.root),
        ensures
            r.all_ignored == (working_copy_paths(paths@, vcs_dir@, opt_str(colocated_git_dir)).len() > 0
                && let_through(self@, paths@, vcs_dir@, opt_str(colocated_git_dir)).len() == 0),
            views(r.changed_paths@) == event_paths(
                let_through(self@, paths@, vcs_dir@, opt_str(colocated_git_dir)),
            ),
    {
        let ghost colocated = opt_str(colocated_git_dir);
        let ghost outside = |p: EventPath| !in_vcs(p.path@, vcs_dir@, colocated);
        let ghost keep = |p: EventPath|
            !in_vcs(p.path@, vcs_dir@, colocated) && !path_ignored(self@, p.path@, p.is_dir);
        let mut changed_paths: Vec<String> = Vec::new();
        let mut any: bool = false;
        let mut i: usize = 0;
        proof {
            assert(paths@.take(0).filter(keep) =~= Seq::empty());
            assert(paths@.take(0).filter(outside) =~= Seq::empty());
            assert(views(changed_paths@) =~= event_paths(Seq::empty()));
        }
        while i < paths.len()
            invariant
                i <= paths.len(),
                self.wf(),
                colocated == opt_str(colocated_git_dir),
                outside == (|p: EventPath| !in_vcs(p.path@, vcs_dir@, colocated)),
                keep == (|p: EventPath|
                    !in_vcs(p.path@, vcs_dir@, colocated) && !path_ignored(self@, p.path@, p.is_dir)),
                any == (paths@.take(i as int).filter(outside).len() > 0),
                views(changed_paths@) == event_paths(paths@.take(i as int).filter(keep)),
            decreases paths.len() - i,
        {
            let item = &paths[i];
            let ghost before = changed_paths@;
            let ghost so_far = paths@.take(i as int);
            proof {
                assert(paths@.take(i + 1) =~= so_far.push(*item));
                so_far.lemma_filter_push(*item, keep);
                so_far.lemma_filter_push(*item, outside);
            }
            if !belongs_to_vcs(item.path.as_str(), vcs_dir, colocated_git_dir) {
                any = true;
                let ignored: bool = ignored_by(&self.rules, item.path.as_str(), item.is_dir);
                if !ignored {
                    let copy = item.path.clone();
                    changed_paths.push(copy);
                    proof {
                        lemma_views_push(before, copy);
                        assert(event_paths(so_far.filter(keep).push(*item)) =~= event_paths(
                            so_far.filter(keep),
                        ).push(copy@));
                    }
                }
            }
            i += 1;
        }
        proof {
            assert(paths@.take(i as int) =~= paths@);
            assert(views(changed_paths@).len() == changed_paths@.len());
        }
        let all_ignored: bool = any && changed_paths.len() == 0;
        EventVerdict { all_ignored, changed_paths }
    }
}

/// What git's global configuration says of `core.excludesFile`.
pub enum ExcludesFile {
    /// Git could not be run.
    NoGit,
    Unset,
    /// The text that git printed.
    Named(String),
}

/// The text that git printed, where it says anything.
pub open spec fn excludes_text(answer: ExcludesFile) -> Seq<char> {
    match answer {
        ExcludesFile::Named(text) => trimmed(text@),
        _ => Seq::empty(),
    }
}

/// The path of the global ignore file.
pub open spec fn global_ignore_at(answer: ExcludesFile, home: Option<Seq<char>>) -> Option<Seq<char>> {
    let path = excludes_text(answer);
    if answer is NoGit {
        None
    } else if path.len() == 0 {
        match home {
            Some(dir) => Some(joined(dir, ".config/git/ignore"@)),
            None => None,
        }
    } else if path.len() >= 2 && path[0] == '~' && path[1] == '/' && home is Some {
        Some(joined(home->0, path.skip(2)))
    } else {
        Some(path)
    }
}

/// The path of the global ignore file: the one that git's configuration names, with `~/`
/// expanded, or else `~/.config/git/ignore`.
pub fn global_gitignore_path(answer: &ExcludesFile, home: Option<&str>) -> (r: Option<String>)
    ensures
        r.deep_view() == global_ignore_at(*answer, opt_str(home)),
{
    let path = match answer {
        ExcludesFile::NoGit => {
            return None;
        },
        ExcludesFile::Unset => String::new(),
        ExcludesFile::Named(text) => trim(text.as_str()),
    };
    let chars = to_chars(path.as_str());
    assert(chars@ =~= excludes_text(*answer));
    if chars.len() == 0 {
        match home {
            Some(dir) => Some(join(dir, ".config/git/ignore")),
            None => None,
        }
    } else {
        if let Some(dir) = home {
            if chars.len() >= 2 && chars[0] == '~' && chars[1] == '/' {
                let rest = from_chars(&chars, 2, chars.len());
                assert(rest@ =~= chars@.skip(2));
                return Some(join(dir, rest.as_str()));
            }
        }
        Some(path)
    }
}

} // verus!
