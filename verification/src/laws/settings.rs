//! jj's configuration, and command line arguments.

use crate::cli::{fast_from, repo_kind, DirFacts, FastArgs};
use crate::conflicts::ConflictMarkerStyle;
use crate::ignore_filter::VcsKind;
use crate::jj_config::{
    alias_files, alias_list, builtin_aliases, config_id_in, config_roots, entries_of, first_existing, is_space,
    keyed_config, no_settings, repo_dir_of, settings_in, string_entries, style_at, style_files, style_over, trimmed,
    trimmed_end, trimmed_start,
};
use crate::paths::{joined, normal};
use vstd::prelude::*;

verus! {

/// Nothing but white space is trimmed from a text, on both sides, and none is left at its
/// ends.
pub proof fn trimming_takes_white_space_alone(text: Seq<char>)
    ensures
        ({
            let inner = trimmed(text);
            &&& inner.len() > 0 ==> !is_space(inner[0]) && !is_space(inner.last())
            &&& exists|from: int, to: int|
                0 <= from <= to <= text.len() && inner == #[trigger] text.subrange(from, to) && (forall|i: int|
                    0 <= i < from ==> is_space(#[trigger] text[i])) && (forall|i: int|
                    to <= i < text.len() ==> is_space(#[trigger] text[i]))
        }),
{
    lemma_trimmed_start(text);
    let start = trimmed_start(text);
    let from = text.len() - start.len();
    lemma_trimmed_end(start);
    let inner = trimmed_end(start);
    let to = from + inner.len();
    assert(text.subrange(from, to) =~= inner) by {
        assert forall|i: int| 0 <= i < inner.len() implies text.subrange(from, to)[i] == inner[i] by {
            assert(inner[i] == start[i] && start[i] == text[from + i]);
        }
    }
    assert forall|i: int| to <= i < text.len() implies is_space(#[trigger] text[i]) by {
        assert(start[i - from] == text[i]);
    }
    if inner.len() > 0 {
        assert(inner[0] == start[0]);
    }
}

proof fn lemma_trimmed_start(text: Seq<char>)
    ensures
        trimmed_start(text).len() <= text.len(),
        trimmed_start(text) == text.skip(text.len() - trimmed_start(text).len()),
        forall|i: int| 0 <= i < text.len() - trimmed_start(text).len() ==> is_space(#[trigger] text[i]),
        trimmed_start(text).len() > 0 ==> !is_space(trimmed_start(text)[0]),
    decreases text.len(),
{
    if text.len() > 0 && is_space(text[0]) {
        let rest = text.drop_first();
        lemma_trimmed_start(rest);
        let n = rest.len() - trimmed_start(rest).len();
        assert(rest.skip(n) =~= text.skip(n + 1));
        assert forall|i: int| 0 <= i < text.len() - trimmed_start(text).len() implies is_space(#[trigger] text[i]) by {
            if i > 0 {
                assert(rest[i - 1] == text[i]);
            }
        }
    } else {
        assert(text.skip(0) =~= text);
    }
}

proof fn lemma_trimmed_end(text: Seq<char>)
    ensures
        trimmed_end(text).len() <= text.len(),
        trimmed_end(text) == text.take(trimmed_end(text).len() as int),
        forall|i: int| trimmed_end(text).len() <= i < text.len() ==> is_space(#[trigger] text[i]),
        trimmed_end(text).len() > 0 ==> !is_space(trimmed_end(text).last()),
    decreases text.len(),
{
    if text.len() > 0 && is_space(text.last()) {
        let rest = text.drop_last();
        lemma_trimmed_end(rest);
        let n = trimmed_end(rest).len() as int;
        assert(rest.take(n) =~= text.take(n));
        assert forall|i: int| n <= i < text.len() implies is_space(#[trigger] text[i]) by {
            if i < rest.len() {
                assert(rest[i] == text[i]);
            }
        }
    } else {
        assert(text.take(text.len() as int) =~= text);
    }
}

/// White space is what has that property in Unicode: tabs and line ends, the blank, and the
/// wide, narrow and other spaces.
pub proof fn blanks_are_white_space(c: char)
    ensures
        is_space(' ') && is_space('\t') && is_space('\n') && is_space('\r'),
        c > ' ' && c < '\u{85}' ==> !is_space(c),
        c < '\t' ==> !is_space(c),
        is_space('\u{85}') && is_space('\u{a0}') && is_space('\u{3000}'),
        c > '\u{3000}' ==> !is_space(c),
{
}

/// The last configuration file that sets a valid style decides, wherever it stands in the
/// list and whatever the ones before it say; without any the style is `diff`.
pub proof fn last_style_decides(
    before: Seq<Option<ConflictMarkerStyle>>,
    style: ConflictMarkerStyle,
    after: Seq<Option<ConflictMarkerStyle>>,
)
    requires
        forall|i: int| 0 <= i < after.len() ==> (#[trigger] after[i]) is None,
    ensures
        style_over(before.push(Some(style)) + after) == style,
        style_over(after) == ConflictMarkerStyle::Diff,
    decreases after.len(),
{
    let all = before.push(Some(style)) + after;
    if after.len() == 0 {
        assert(all =~= before.push(Some(style)));
        assert(all.last() == Some(style));
    } else {
        let rest = after.drop_last();
        assert forall|i: int| 0 <= i < rest.len() implies (#[trigger] rest[i]) is None by {
            assert(rest[i] == after[i]);
        }
        last_style_decides(before, style, rest);
        assert(after.last() == after[after.len() - 1]);
        assert(all.last() == after.last());
        assert(all.drop_last() =~= before.push(Some(style)) + rest);
    }
}

/// A file gives the style under `ui.conflict-marker-style`, and all aliases of the section
/// `revset-aliases` that are strings, in order; a file that cannot be read gives nothing.
pub proof fn files_give_style_and_aliases(
    content: Seq<char>,
    entries: Seq<(Seq<char>, Option<Seq<char>>)>,
    name: Seq<char>,
    definition: Seq<char>,
)
    ensures
        settings_in(content).style == style_at(content, "ui"@, "conflict-marker-style"@),
        settings_in(content).aliases == string_entries(entries_of(content, "revset-aliases"@)),
        no_settings().style is None && no_settings().aliases.len() == 0,
        string_entries(Seq::empty()).len() == 0,
        string_entries(entries.push((name, Some(definition)))) == string_entries(entries).push((name, definition)),
        string_entries(entries.push((name, None))) == string_entries(entries),
{
    assert(entries.push((name, Some(definition))).drop_last() =~= entries);
    assert(entries.push((name, None)).drop_last() =~= entries);
}

/// The built-in aliases come first, then those of each file in order: none is left out.
pub proof fn aliases_of_every_file_are_used(
    files: Seq<Seq<(Seq<char>, Seq<char>)>>,
    place: int,
    k: int,
)
    requires
        0 <= place < files.len(),
        0 <= k < files[place].len(),
    ensures
        alias_list(Seq::empty()) == builtin_aliases(),
        builtin_aliases().is_prefix_of(alias_list(files)),
        alias_list(files).contains(files[place][k]),
        files.len() > 0 ==> files.last() == alias_list(files).skip(alias_list(files).len() - files.last().len()),
    decreases files.len(),
{
    let rest = files.drop_last();
    let all = alias_list(files);
    let before = alias_list(rest);
    assert(all.skip(all.len() - files.last().len()) =~= files.last());
    lemma_builtin_first(files);
    if place < files.len() - 1 {
        assert(rest[place] == files[place]);
        aliases_of_every_file_are_used(rest, place, k);
        let j = choose|j: int| 0 <= j < before.len() && before[j] == files[place][k];
        assert(all[j] == files[place][k]);
    } else {
        assert(all[before.len() + k] == files[place][k]);
    }
}

proof fn lemma_builtin_first(files: Seq<Seq<(Seq<char>, Seq<char>)>>)
    ensures
        builtin_aliases().is_prefix_of(alias_list(files)),
    decreases files.len(),
{
    let n = builtin_aliases().len() as int;
    if files.len() > 0 {
        lemma_builtin_first(files.drop_last());
        let before = alias_list(files.drop_last());
        assert(alias_list(files).subrange(0, n) =~= before.subrange(0, n));
    } else {
        assert(alias_list(files).subrange(0, n) =~= builtin_aliases());
    }
}

/// The built-in aliases are those of jj: the trunk is the latest of the usual bookmarks of
/// the usual remotes, and immutable is what it has, what is tagged and what is not tracked.
pub proof fn builtin_aliases_are_those_of_jj()
    ensures
        builtin_aliases().len() == 3,
        builtin_aliases()[0] == (
            "trunk()"@,
            "latest(\n    remote_bookmarks(exact:\"main\", exact:\"origin\") |\n    remote_bookmarks(exact:\"master\", exact:\"origin\") |\n    remote_bookmarks(exact:\"trunk\", exact:\"origin\") |\n    remote_bookmarks(exact:\"main\", exact:\"upstream\") |\n    remote_bookmarks(exact:\"master\", exact:\"upstream\") |\n    remote_bookmarks(exact:\"trunk\", exact:\"upstream\") |\n    root()\n)"@,
        ),
        builtin_aliases()[1] == (
            "builtin_immutable_heads()"@,
            "trunk() | tags() | untracked_remote_bookmarks()"@,
        ),
        builtin_aliases()[2] == ("immutable_heads()"@, "builtin_immutable_heads()"@),
{
}

/// Whether a path is at a place of a list.
pub open spec fn stands_at(list: Seq<Seq<char>>, place: int, path: Seq<char>) -> bool {
    0 <= place < list.len() && list[place] == path
}

/// The style is looked for in the file that the environment names, then in `.jjconfig.toml`
/// of the home directory, then below each config root, and last in the repo's own file.
pub proof fn style_files_rise_in_precedence(
    env: Seq<char>,
    home: Seq<char>,
    roots: Seq<Seq<char>>,
    repo: Seq<char>,
    k: int,
)
    ensures
        ({
            let all = style_files(Some(env), Some(home), roots, repo);
            &&& all.len() == roots.len() + 3
            &&& stands_at(all, 0, env)
            &&& stands_at(all, 1, joined(home, ".jjconfig.toml"@))
            &&& 0 <= k < roots.len() ==> stands_at(all, k + 2, joined(roots[k], "config.toml"@))
            &&& stands_at(all, roots.len() as int + 2, repo)
            &&& style_files(None, None, roots, repo).len() == roots.len() + 1
            &&& stands_at(style_files(None, None, roots, repo), roots.len() as int, repo)
            &&& stands_at(style_files(None, Some(home), roots, repo), 0, joined(home, ".jjconfig.toml"@))
        }),
{
}

/// Aliases are looked for in the file that the environment names, in the platform's config
/// directory, and last in `.jjconfig.toml` of the home directory.
pub proof fn alias_files_rise_in_precedence(env: Seq<char>, config: Seq<char>, home: Seq<char>)
    ensures
        alias_files(Some(env), Some(config), Some(home)) =~= seq![
            env,
            joined(joined(config, "jj"@), "config.toml"@),
            joined(home, ".jjconfig.toml"@),
        ],
        alias_files(None, None, None).len() == 0,
        alias_files(None, None, Some(home)) =~= seq![joined(home, ".jjconfig.toml"@)],
        alias_files(Some(env), None, None) =~= seq![env],
        alias_files(None, Some(config), None) =~= seq![joined(joined(config, "jj"@), "config.toml"@)],
{
}

/// jj's configuration lies in `jj` below the platform's config directory, and below
/// `.config` of the home directory where that is another place.
pub proof fn config_roots_are_both_places(config: Seq<char>, home: Seq<char>)
    ensures
        ({
            let first = joined(config, "jj"@);
            let second = joined(joined(home, ".config"@), "jj"@);
            &&& config_roots(None, None).len() == 0
            &&& config_roots(Some(config), None) =~= seq![first]
            &&& config_roots(None, Some(home)) =~= seq![second]
            &&& normal(first) != normal(second) ==> config_roots(Some(config), Some(home)) =~= seq![first, second]
            &&& normal(first) == normal(second) ==> config_roots(Some(config), Some(home)) =~= seq![first]
        }),
{
}

/// A config id is one or more hexadecimal digits, with white space around them; any other
/// text holds none.
pub proof fn config_ids_are_hexadecimal(text: Seq<char>)
    ensures
        config_id_in(text) is Some ==> config_id_in(text)->0 == trimmed(text) && trimmed(text).len() > 0,
        config_id_in(text) is Some <==> trimmed(text).len() > 0 && forall|i: int|
            0 <= i < trimmed(text).len() ==> {
                let c = #[trigger] trimmed(text)[i];
                ('0' <= c && c <= '9') || ('a' <= c && c <= 'f') || ('A' <= c && c <= 'F')
            },
{
    if trimmed(text).len() > 0 && forall|i: int|
        0 <= i < trimmed(text).len() ==> {
            let c = #[trigger] trimmed(text)[i];
            ('0' <= c && c <= '9') || ('a' <= c && c <= 'f') || ('A' <= c && c <= 'F')
        } {
        assert(config_id_in(text) is Some);
    }
    if config_id_in(text) is Some {
        assert forall|i: int| 0 <= i < trimmed(text).len() implies {
            let c = #[trigger] trimmed(text)[i];
            ('0' <= c && c <= '9') || ('a' <= c && c <= 'f') || ('A' <= c && c <= 'F')
        } by {
            assert(crate::jj_config::is_hex_digit(trimmed(text)[i]));
        }
    }
}

/// The store of a repo is `.jj/repo`, or where the file of that name points; the repo's own
/// configuration is keyed by its id below a config root.
pub proof fn repo_configuration_lies_there(repo: Seq<char>, pointer: Seq<char>, root: Seq<char>, id: Seq<char>)
    ensures
        repo_dir_of(repo, None) == joined(joined(repo, ".jj"@), "repo"@),
        repo_dir_of(repo, Some(pointer)) == trimmed(pointer),
        keyed_config(root, id) == joined(joined(joined(root, "repos"@), id), "config.toml"@),
{
}

/// The first path of a list that exists is the one before which none does.
pub proof fn first_existing_path_is_taken(paths: Seq<Seq<char>>, exists_at: Seq<bool>, place: int)
    requires
        0 <= place < paths.len(),
        place < exists_at.len(),
        exists_at[place],
        forall|i: int| 0 <= i < place ==> !#[trigger] exists_at[i],
    ensures
        first_existing(paths, exists_at) == Some(paths[place]),
    decreases paths.len(),
{
    if place > 0 {
        assert(!exists_at[0]);
        let rest = exists_at.drop_first();
        assert forall|i: int| 0 <= i < place - 1 implies !#[trigger] rest[i] by {
            assert(rest[i] == exists_at[i + 1]);
        }
        first_existing_path_is_taken(paths.drop_first(), rest, place - 1);
    }
}

/// Without an existing path nothing is taken.
pub proof fn nothing_existing_nothing_taken(paths: Seq<Seq<char>>, exists_at: Seq<bool>)
    requires
        forall|i: int| 0 <= i < exists_at.len() ==> !#[trigger] exists_at[i],
    ensures
        first_existing(paths, exists_at) is None,
    decreases paths.len(),
{
    if paths.len() > 0 && exists_at.len() > 0 {
        let rest = exists_at.drop_first();
        assert forall|i: int| 0 <= i < rest.len() implies !#[trigger] rest[i] by {
            assert(rest[i] == exists_at[i + 1]);
        }
        nothing_existing_nothing_taken(paths.drop_first(), rest);
    }
}

/// No arguments are a query for the current directory. As many pairs of `--repo` and a value
/// as there may be are one for the value of the last pair; anything else is no such query.
pub proof fn repo_arguments_are_a_query(args: Seq<Option<Seq<char>>>, from: int, so_far: FastArgs)
    requires
        0 <= from <= args.len(),
        args.len() <= usize::MAX,
    ensures
        from == args.len() ==> fast_from(args, from, so_far) == so_far,
        from < args.len() && (args.len() - from) % 2 == 0 && (forall|i: int|
            from <= i < args.len() && (i - from) % 2 == 0 ==> #[trigger] args[i] == Some("--repo"@)) ==> fast_from(
            args,
            from,
            so_far,
        ) == FastArgs::At((args.len() - 1) as usize),
        (args.len() - from) % 2 == 1 ==> fast_from(args, from, so_far) is Other,
        forall|i: int|
            from <= i < args.len() && (i - from) % 2 == 0 && #[trigger] args[i] != Some("--repo"@) ==> fast_from(
                args,
                from,
                so_far,
            ) is Other,
    decreases args.len() - from,
{
    if from + 1 < args.len() && args[from] == Some("--repo"@) {
        repo_arguments_are_a_query(args, from + 2, FastArgs::At((from + 1) as usize));
    }
}

/// A directory with `.jj` is a repo of jj, whatever else it holds; one with `.git` alone is
/// one of git.
pub proof fn jj_comes_before_git(has_git: bool)
    ensures
        repo_kind(DirFacts { has_jj: true, has_git }) == Some(VcsKind::Jj),
        repo_kind(DirFacts { has_jj: false, has_git: true }) == Some(VcsKind::Git),
        repo_kind(DirFacts { has_jj: false, has_git: false }) is None,
{
}

} // verus!
