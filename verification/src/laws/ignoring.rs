//! Ignore rules, and the events that they let through.

use crate::ignore_filter::{
    by_depth, discover_path, event_paths, file_below, file_lines, global_ignore_at, in_vcs, is_nested, let_through, lines_of_file,
    load_sequence, nested_rules, parent_dir, probe, probe_dir, probe_up, root_lines, rules_ignore, rules_of, ruling,
    shallow_files_come_first, with_rules, without_marks, working_copy_paths, Discovery, EventPath, ExcludesFile, FilterView, VcsKind,
};
use crate::laws::lines::lines_of_two_texts_add_up;
use crate::laws::paths::one_more_name_is_one_more_component;
use crate::lines::lines_of;
use crate::paths::{names, normal, path_starts_with, slash_joined, stripped};
use crate::watch::touches_working_copy;
use vstd::prelude::*;

verus! {

/// Each line of an ignore file is a rule line of it, in order, whatever their number; only
/// byte order marks at the very start are left out.
pub proof fn every_line_is_a_rule(file: Seq<char>, content: Seq<char>, place: int)
    ensures
        file_lines(file, content).len() == lines_of(content).len(),
        0 < place < lines_of(content).len() ==> file_lines(file, content)[place] == (file, lines_of(content)[place]),
        lines_of(content).len() > 0 ==> {
            let first = file_lines(file, content)[0];
            let line = lines_of(content)[0];
            &&& first.0 == file
            &&& first.1.len() <= line.len()
            &&& first.1 == line.skip(line.len() - first.1.len())
            &&& forall|i: int| 0 <= i < line.len() - first.1.len() ==> #[trigger] line[i] == '\u{feff}'
            &&& first.1.len() > 0 ==> first.1[0] != '\u{feff}'
        },
{
    if lines_of(content).len() > 0 {
        marks_go_and_nothing_else(lines_of(content)[0]);
    }
}

/// A line without byte order marks is the line from its first other character on.
pub proof fn marks_go_and_nothing_else(line: Seq<char>)
    ensures
        without_marks(line).len() <= line.len(),
        without_marks(line) == line.skip(line.len() - without_marks(line).len()),
        forall|i: int| 0 <= i < line.len() - without_marks(line).len() ==> #[trigger] line[i] == '\u{feff}',
        without_marks(line).len() > 0 ==> without_marks(line)[0] != '\u{feff}',
    decreases line.len(),
{
    if line.len() > 0 && line[0] == '\u{feff}' {
        let rest = line.drop_first();
        marks_go_and_nothing_else(rest);
        let n = rest.len() - without_marks(rest).len();
        assert(rest.skip(n) =~= line.skip(n + 1));
        assert forall|i: int| 0 <= i < line.len() - without_marks(line).len() implies #[trigger] line[i] == '\u{feff}' by {
            if i > 0 {
                assert(rest[i - 1] == line[i]);
            }
        }
    } else {
        assert(line.skip(0) =~= line);
    }
}

/// The rule lines of a text that ends a line, followed by another text, are those of the
/// first one followed by the lines of the second.
pub proof fn rule_lines_add_up(file: Seq<char>, a: Seq<char>, b: Seq<char>)
    requires
        a.len() > 0,
        a.last() == '\n',
    ensures
        file_lines(file, a + b) == file_lines(file, a) + lines_of(b).map_values(|line: Seq<char>| (file, line)),
{
    lines_of_two_texts_add_up(a, b);
    crate::laws::lines::some_line_in_a_text(a);
    assert(file_lines(file, a + b) =~= file_lines(file, a) + lines_of(b).map_values(|line: Seq<char>| (file, line)));
}

/// One more file that is not in a directory below the root adds its lines to those that
/// speak of everything below the root, behind all that are there.
pub proof fn root_files_add_their_lines(
    root: Seq<char>,
    global: Option<Seq<char>>,
    files: Seq<Seq<char>>,
    file: Seq<char>,
    contents: Map<Seq<char>, Seq<char>>,
)
    requires
        !is_nested(root, file),
        contents.contains_key(file),
        forall|i: int| 0 <= i < files.len() ==> !is_nested(root, #[trigger] files[i]),
        lines_of(contents[file]).len() > 0,
    ensures
        ({
            let before = rules_of(root, global, files, contents);
            let after = rules_of(root, global, files.push(file), contents);
            &&& after.len() == 1
            &&& after[0].0 == root
            &&& before.len() == 0 ==> after[0].1 == file_lines(file, contents[file])
            &&& before.len() > 0 ==> before.len() == 1 && after[0].1 == before[0].1 + file_lines(file, contents[file])
        }),
        rules_of(root, None, Seq::empty(), contents).len() == 0,
        global matches Some(g) ==> (contents.contains_key(g) && lines_of(contents[g]).len() > 0 ==> rules_of(
            root,
            global,
            Seq::empty(),
            contents,
        ) == seq![(root, file_lines(g, contents[g]))]),
{
    let first = match global {
        Some(g) => lines_of_file(g, contents),
        None => Seq::empty(),
    };
    let more = files.push(file);
    assert(more.drop_last() =~= files);
    assert(more.last() == file);
    assert forall|i: int| 0 <= i < more.len() implies !is_nested(root, #[trigger] more[i]) by {
        if i < files.len() {
            assert(more[i] == files[i]);
        }
    }
    let own = file_lines(file, contents[file]);
    let a = first + root_lines(root, files, contents);
    let b = first + root_lines(root, more, contents);
    assert(b =~= a + own);
    let none = Seq::<(Seq<char>, Seq<(Seq<char>, Seq<char>)>)>::empty();
    lemma_nothing_nested(with_rules(none, root, a), root, files, contents);
    lemma_nothing_nested(with_rules(none, root, b), root, more, contents);
    if a.len() == 0 {
        assert(b =~= own);
    }
    let nothing = Seq::<Seq<char>>::empty();
    assert(first + root_lines(root, nothing, contents) =~= first);
    assert(none.push((root, first)) =~= seq![(root, first)]);
    assert(Seq::<(Seq<char>, Seq<char>)>::empty() + root_lines(root, nothing, contents) =~= Seq::empty());
}

proof fn lemma_nothing_nested(
    rules: Seq<(Seq<char>, Seq<(Seq<char>, Seq<char>)>)>,
    root: Seq<char>,
    files: Seq<Seq<char>>,
    contents: Map<Seq<char>, Seq<char>>,
)
    requires
        forall|i: int| 0 <= i < files.len() ==> !is_nested(root, #[trigger] files[i]),
    ensures
        nested_rules(rules, root, files, contents) == rules,
    decreases files.len(),
{
    if files.len() > 0 {
        let rest = files.drop_last();
        assert forall|i: int| 0 <= i < rest.len() implies !is_nested(root, #[trigger] rest[i]) by {
            assert(rest[i] == files[i]);
        }
        assert(files.last() == files[files.len() - 1]);
        lemma_nothing_nested(rules, root, rest, contents);
    }
}

/// One more file in a directory below the root adds rules of its own for that directory,
/// behind all others.
pub proof fn nested_files_add_their_rules(
    root: Seq<char>,
    global: Option<Seq<char>>,
    files: Seq<Seq<char>>,
    file: Seq<char>,
    contents: Map<Seq<char>, Seq<char>>,
)
    requires
        is_nested(root, file),
        contents.contains_key(file),
        lines_of(contents[file]).len() > 0,
    ensures
        rules_of(root, global, files.push(file), contents) == rules_of(root, global, files, contents).push(
            (parent_dir(file), file_lines(file, contents[file])),
        ),
{
    let more = files.push(file);
    assert(more.drop_last() =~= files);
    assert(more.last() == file);
}

/// The directory of a file is its path up to the last slash.
pub proof fn files_are_in_their_directory(dir: Seq<char>, name: Seq<char>)
    requires
        dir.len() > 0,
        !name.contains('/'),
    ensures
        parent_dir(dir + seq!['/'] + name) == dir,
{
    let file = dir + seq!['/'] + name;
    lemma_last_slash(dir, name);
    assert(file.take(dir.len() as int) =~= dir);
}

proof fn lemma_last_slash(dir: Seq<char>, name: Seq<char>)
    requires
        !name.contains('/'),
    ensures
        crate::strings::last_place(dir + seq!['/'] + name, '/') == Some(dir.len() as int),
    decreases name.len(),
{
    let file = dir + seq!['/'] + name;
    if name.len() == 0 {
        assert(file.last() == '/');
    } else {
        let rest = name.drop_last();
        assert(name[name.len() - 1] == name.last());
        assert(name.contains(name.last()));
        assert(file.drop_last() =~= dir + seq!['/'] + rest);
        assert forall|i: int| 0 <= i < rest.len() implies rest[i] != '/' by {
            assert(name[i] == rest[i]);
            assert(name.contains(name[i]));
        }
        lemma_last_slash(dir, rest);
    }
}

/// The rules that come last and say anything of a path decide; where no rules say anything
/// of it, it is not ignored. Rules say of a path below their directory what the matcher says
/// of its part below it, and nothing of any other path.
pub proof fn last_rules_decide(
    rules: Seq<(Seq<char>, Seq<(Seq<char>, Seq<char>)>)>,
    dir: Seq<char>,
    lines: Seq<(Seq<char>, Seq<char>)>,
    path: Seq<char>,
    is_dir: bool,
)
    ensures
        !rules_ignore(Seq::empty(), path, is_dir),
        ({
            let more = rules.push((dir, lines));
            let below = stripped(path, dir);
            &&& below matches Some(rel) ==> {
                &&& ruling(dir, lines, rel, is_dir) == Some(Some(true)) ==> rules_ignore(more, path, is_dir)
                &&& ruling(dir, lines, rel, is_dir) == Some(Some(false)) ==> !rules_ignore(more, path, is_dir)
                &&& ruling(dir, lines, rel, is_dir) == Some(None::<bool>) || ruling(dir, lines, rel, is_dir) is None
                    ==> rules_ignore(more, path, is_dir) == rules_ignore(rules, path, is_dir)
            }
            &&& below is None ==> rules_ignore(more, path, is_dir) == rules_ignore(rules, path, is_dir)
        }),
{
    let more = rules.push((dir, lines));
    assert(more.drop_last() =~= rules);
    assert(more.last() == (dir, lines));
}

/// Of the paths of an event just those are let through that are outside version control's
/// own directories and not ignored, in order and each as often as it is there.
pub proof fn just_the_others_are_let_through(
    filter: FilterView,
    list: Seq<EventPath>,
    vcs_dir: Seq<char>,
    colocated: Option<Seq<char>>,
    item: EventPath,
)
    ensures
        let_through(filter, Seq::empty(), vcs_dir, colocated).len() == 0,
        ({
            let outside = !in_vcs(item.path@, vcs_dir, colocated);
            let before = let_through(filter, list, vcs_dir, colocated);
            let after = let_through(filter, list.push(item), vcs_dir, colocated);
            &&& outside && !rules_ignore(filter.rules, item.path@, item.is_dir) ==> after == before.push(item)
                && event_paths(after) == event_paths(before).push(item.path@)
            &&& !outside || rules_ignore(filter.rules, item.path@, item.is_dir) ==> after == before
            &&& working_copy_paths(list.push(item), vcs_dir, colocated).len() == working_copy_paths(
                list,
                vcs_dir,
                colocated,
            ).len() + if outside {
                1int
            } else {
                0
            }
        }),
{
    reveal(Seq::filter);
    assert(list.push(item).drop_last() =~= list);
    let before = let_through(filter, list, vcs_dir, colocated);
    assert(event_paths(before.push(item)) =~= event_paths(before).push(item.path@));
}

/// A path is version control's own where it is below one of its directories, the colocated
/// one included where there is one; an event touches the working copy where some path is
/// outside the directory of version control.
pub proof fn own_directories_are_left_out(
    path: Seq<char>,
    vcs_dir: Seq<char>,
    other: Seq<char>,
    paths: Seq<EventPath>,
    place: int,
)
    ensures
        in_vcs(path, vcs_dir, None) <==> stripped(path, vcs_dir) is Some,
        in_vcs(path, vcs_dir, Some(other)) <==> stripped(path, vcs_dir) is Some || stripped(path, other) is Some,
        0 <= place < paths.len() && stripped(paths[place].path@, vcs_dir) is None ==> touches_working_copy(
            paths,
            vcs_dir,
        ),
        touches_working_copy(paths, vcs_dir) ==> exists|i: int|
            0 <= i < paths.len() && stripped((#[trigger] paths[i]).path@, vcs_dir) is None,
{
    if touches_working_copy(paths, vcs_dir) {
        let i = choose|i: int|
            0 <= i < paths.len() && !path_starts_with((#[trigger] paths[i]).path@, vcs_dir);
        assert(stripped(paths[i].path@, vcs_dir) is None);
    }
}

proof fn lemma_joined_grows(rel: Seq<Seq<char>>, a: int, b: int)
    requires
        0 < a < b <= rel.len(),
    ensures
        slash_joined(rel.take(a)).len() < slash_joined(rel.take(b)).len(),
    decreases b,
{
    assert(rel.take(b).drop_last() =~= rel.take(b - 1));
    if a < b - 1 {
        lemma_joined_grows(rel, a, b - 1);
    }
}

proof fn lemma_probe_keeps(found: Discovery, file: Seq<char>, there: Set<Seq<char>>, other: Seq<char>)
    requires
        found.loaded.contains(other),
    ensures
        probe(found, file, there).loaded.contains(other),
{
    let k = choose|k: int| 0 <= k < found.loaded.len() && found.loaded[k] == other;
    assert(found.loaded.push(file)[k] == other);
}

proof fn lemma_probe_loads(found: Discovery, file: Seq<char>, there: Set<Seq<char>>)
    requires
        there.contains(file),
    ensures
        probe(found, file, there).loaded.contains(file),
{
    if !found.loaded.contains(file) {
        assert(found.loaded.push(file).last() == file);
    }
}

proof fn lemma_probe_dir_keeps(
    kind: VcsKind,
    root: Seq<char>,
    found: Discovery,
    dir: Seq<char>,
    there: Set<Seq<char>>,
    other: Seq<char>,
)
    requires
        found.loaded.contains(other),
    ensures
        probe_dir(kind, root, found, dir, there).loaded.contains(other),
{
    let marked = Discovery { checked: found.checked.insert(dir), ..found };
    lemma_probe_keeps(marked, file_below(root, dir, ".gitignore"@), there, other);
    let with_git = probe(marked, file_below(root, dir, ".gitignore"@), there);
    lemma_probe_keeps(with_git, file_below(root, dir, ".jjignore"@), there, other);
}

proof fn lemma_probe_up_keeps(
    kind: VcsKind,
    root: Seq<char>,
    found: Discovery,
    rel: Seq<Seq<char>>,
    n: int,
    there: Set<Seq<char>>,
    other: Seq<char>,
)
    requires
        found.loaded.contains(other),
    ensures
        probe_up(kind, root, found, rel, n, there).loaded.contains(other),
    decreases n,
{
    if n > 0 {
        let dir = slash_joined(rel.take(n));
        if !found.checked.contains(dir) {
            lemma_probe_dir_keeps(kind, root, found, dir, there, other);
            lemma_probe_up_keeps(kind, root, probe_dir(kind, root, found, dir, there), rel, n - 1, there, other);
        }
    }
}

/// In every directory above a path that has not been looked at, the ignore files that are
/// there come into force: `.gitignore`, and for jj `.jjignore` too.
pub proof fn ignore_files_above_a_path_are_found(
    kind: VcsKind,
    root: Seq<char>,
    found: Discovery,
    rel: Seq<Seq<char>>,
    n: int,
    there: Set<Seq<char>>,
    k: int,
)
    requires
        0 < k <= n <= rel.len(),
        forall|i: int| 0 < i <= n ==> !found.checked.contains(#[trigger] slash_joined(rel.take(i))),
    ensures
        ({
            let after = probe_up(kind, root, found, rel, n, there);
            let git = file_below(root, slash_joined(rel.take(k)), ".gitignore"@);
            let jj = file_below(root, slash_joined(rel.take(k)), ".jjignore"@);
            &&& there.contains(git) ==> after.loaded.contains(git)
            &&& there.contains(jj) && kind == VcsKind::Jj ==> after.loaded.contains(jj)
        }),
    decreases n,
{
    let dir = slash_joined(rel.take(n));
    let next = probe_dir(kind, root, found, dir, there);
    let git = file_below(root, slash_joined(rel.take(k)), ".gitignore"@);
    let jj = file_below(root, slash_joined(rel.take(k)), ".jjignore"@);
    if k < n {
        assert forall|i: int| 0 < i <= n - 1 implies !next.checked.contains(#[trigger] slash_joined(rel.take(i))) by {
            lemma_joined_grows(rel, i, n);
        }
        ignore_files_above_a_path_are_found(kind, root, next, rel, n - 1, there, k);
    } else {
        let marked = Discovery { checked: found.checked.insert(dir), ..found };
        let with_git = probe(marked, git, there);
        if there.contains(git) {
            lemma_probe_loads(marked, git, there);
            lemma_probe_keeps(with_git, jj, there, git);
            lemma_probe_up_keeps(kind, root, next, rel, n - 1, there, git);
        }
        if there.contains(jj) && kind == VcsKind::Jj {
            lemma_probe_loads(with_git, jj, there);
            lemma_probe_up_keeps(kind, root, next, rel, n - 1, there, jj);
        }
    }
}

/// Without git there is no global ignore file; where git names none, it is the one below the
/// home directory. A name is taken as it is, but for `~/`, which stands for the home
/// directory.
pub proof fn global_ignore_file_is_the_named_one(text: String, home: Seq<char>, rest: Seq<char>)
    ensures
        global_ignore_at(ExcludesFile::NoGit, Some(home)) is None,
        global_ignore_at(ExcludesFile::Unset, None) is None,
        global_ignore_at(ExcludesFile::Unset, Some(home)) == Some(
            crate::paths::joined(home, ".config/git/ignore"@),
        ),
        crate::jj_config::trimmed(text@) == seq!['~', '/'] + rest ==> global_ignore_at(
            ExcludesFile::Named(text),
            Some(home),
        ) == Some(crate::paths::joined(home, rest)),
        crate::jj_config::trimmed(text@).len() > 0 && crate::jj_config::trimmed(text@)[0] != '~' ==> global_ignore_at(
            ExcludesFile::Named(text),
            Some(home),
        ) == Some(crate::jj_config::trimmed(text@)),
{
    assert((seq!['~', '/'] + rest).skip(2) =~= rest);
}

/// An ignore file that changed comes into force where it is there, and goes out of force where
/// it is not; either way the rules are built anew. Another file changes nothing of its own.
pub proof fn changed_ignore_files_come_and_go(
    kind: VcsKind,
    root: Seq<char>,
    vcs_dir: Seq<char>,
    found: Discovery,
    path: Seq<char>,
    there: Set<Seq<char>>,
)
    requires
        !in_vcs(path, vcs_dir, None),
        names(path).len() > 0,
        !path_starts_with(path, root) || names(path).len() == names(root).len() + 1,
    ensures
        ({
            let after = discover_path(kind, root, vcs_dir, None, found, path, there);
            let is_rules = names(path).last() == ".gitignore"@ || (kind == VcsKind::Jj && names(path).last()
                == ".jjignore"@);
            &&& is_rules && there.contains(normal(path)) ==> after.loaded.contains(normal(path)) && after.rebuild
            &&& is_rules && !there.contains(normal(path)) ==> !after.loaded.contains(normal(path))
            &&& is_rules && !there.contains(normal(path)) && found.loaded.contains(normal(path)) ==> after.rebuild
            &&& !is_rules ==> after == found
        }),
        discover_path(kind, root, vcs_dir, None, found, vcs_dir, there) == found,
{
    let file = normal(path);
    if names(path).last() == ".gitignore"@ || (kind == VcsKind::Jj && names(path).last() == ".jjignore"@) {
        if there.contains(file) {
            if !found.loaded.contains(file) {
                assert(found.loaded.push(file).last() == file);
            }
        } else {
            crate::laws::service::workers_come_and_go_one_by_one(found.loaded, file, file);
        }
    }
    assert(names(vcs_dir).take(names(vcs_dir).len() as int) =~= names(vcs_dir));
}

/// The global ignore file comes first, then every other one in force, shallowest first.
pub proof fn ignore_files_are_all_loaded(filter: FilterView)
    ensures
        filter.global matches Some(file) ==> load_sequence(filter).len() == filter.loaded.len() + 1 && load_sequence(
            filter,
        )[0] == file && load_sequence(filter).skip(1).to_multiset() == filter.loaded.to_multiset(),
        filter.global is None ==> load_sequence(filter).to_multiset() == filter.loaded.to_multiset(),
{
    shallow_files_come_first(filter.loaded);
    vstd::seq_lib::to_multiset_len(filter.loaded);
    vstd::seq_lib::to_multiset_len(by_depth(filter.loaded));
    if let Some(file) = filter.global {
        assert((seq![file] + by_depth(filter.loaded)).skip(1) =~= by_depth(filter.loaded));
    }
}

/// An ignore file in the root itself speaks of everything below the root, one in a directory
/// below the root of that directory alone, and so does one that is deeper.
pub proof fn files_below_the_root_are_nested(root: Seq<char>, dir: Seq<char>, name: Seq<char>, sub: Seq<char>)
    requires
        root.len() > 0,
        dir.len() > 0,
        !name.contains('/'),
        sub.len() > 0 && !sub.contains('/') && sub != seq!['.'],
    ensures
        is_nested(root, dir + seq!['/'] + name) <==> path_starts_with(dir, root) && names(dir).len()
            > names(root).len(),
        !is_nested(root, root + seq!['/'] + name),
        is_nested(root, root + seq!['/'] + sub + seq!['/'] + name),
{
    files_are_in_their_directory(dir, name);
    files_are_in_their_directory(root, name);
    let below = root + seq!['/'] + sub;
    files_are_in_their_directory(below, name);
    one_more_name_is_one_more_component(root, sub);
    assert(names(below).take(names(root).len() as int) =~= names(root));
}

/// The ignore files of a directory below the root lie in it.
pub proof fn ignore_files_lie_in_their_directory(root: Seq<char>, dir: Seq<char>)
    requires
        root.len() > 0 && root.last() != '/',
        dir.len() > 0 && dir[0] != '/' && dir.last() != '/',
    ensures
        file_below(root, dir, ".gitignore"@) == root + seq!['/'] + dir + seq!['/'] + ".gitignore"@,
        file_below(root, dir, ".jjignore"@) == root + seq!['/'] + dir + seq!['/'] + ".jjignore"@,
{
    reveal_strlit(".gitignore");
    reveal_strlit(".jjignore");
    let below = root + seq!['/'] + dir;
    assert(below.last() == dir.last());
}

} // verus!
