//! jj's configuration, as far as it matters here: where it lies, the marker style of
//! conflicts, and revset aliases.

use crate::conflicts::ConflictMarkerStyle;
use crate::paths::{join, joined, normal, normalize};
use crate::staging::lemma_views_push;
use crate::strings::{from_chars, str_eq, to_chars, views};
use crate::table::FileTable;
use jj_lib::conflicts::ConflictMarkerStyle as JjStyle;
use serde::Deserialize;
use vstd::prelude::*;
use vstd::string::StringExecFns;

verus! {

/// Whether a character is white space: those with the property `White_Space` of Unicode.
pub open spec fn is_space(c: char) -> bool {
    ||| '\u{9}' <= c && c <= '\u{d}'
    ||| c == '\u{20}'
    ||| c == '\u{85}'
    ||| c == '\u{a0}'
    ||| c == '\u{1680}'
    ||| '\u{2000}' <= c && c <= '\u{200a}'
    ||| c == '\u{2028}'
    ||| c == '\u{2029}'
    ||| c == '\u{202f}'
    ||| c == '\u{205f}'
    ||| c == '\u{3000}'
}

fn is_whitespace(c: char) -> (r: bool)
    ensures
        r == is_space(c),
{
    ('\u{9}' <= c && c <= '\u{d}') || c == '\u{20}' || c == '\u{85}' || c == '\u{a0}' || c == '\u{1680}' || (
    '\u{2000}' <= c && c <= '\u{200a}') || c == '\u{2028}' || c == '\u{2029}' || c == '\u{202f}' || c == '\u{205f}'
        || c == '\u{3000}'
}

/// A text without white space at its start.
pub open spec fn trimmed_start(text: Seq<char>) -> Seq<char>
    decreases text.len(),
{
    if text.len() > 0 && is_space(text[0]) {
        trimmed_start(text.drop_first())
    } else {
        text
    }
}

/// A text without white space at its end.
pub open spec fn trimmed_end(text: Seq<char>) -> Seq<char>
    decreases text.len(),
{
    if text.len() > 0 && is_space(text.last()) {
        trimmed_end(text.drop_last())
    } else {
        text
    }
}

/// A text without white space at its ends.
pub open spec fn trimmed(text: Seq<char>) -> Seq<char> {
    trimmed_end(trimmed_start(text))
}

/// Drops white space at the ends of a text.
pub fn trim(text: &str) -> (r: String)
    ensures
        r@ == trimmed(text@),
{
    let chars = to_chars(text);
    let mut from: usize = 0;
    assert(chars@.skip(0) =~= text@);
    while from < chars.len() && is_whitespace(chars[from])
        invariant
            from <= chars.len(),
            trimmed_start(chars@.skip(from as int)) == trimmed_start(text@),
        decreases chars.len() - from,
    {
        assert(chars@.skip(from as int).drop_first() =~= chars@.skip(from + 1));
        from += 1;
    }
    let ghost start = trimmed_start(text@);
    assert(start == chars@.skip(from as int));
    let mut to: usize = chars.len();
    assert(chars@.subrange(from as int, to as int) =~= start);
    while from < to && is_whitespace(chars[to - 1])
        invariant
            from <= to <= chars.len(),
            trimmed_end(chars@.subrange(from as int, to as int)) == trimmed_end(start),
        decreases to,
    {
        assert(chars@.subrange(from as int, to as int).last() == chars@[to - 1]);
        assert(chars@.subrange(from as int, to as int).drop_last() =~= chars@.subrange(from as int, to - 1));
        to -= 1;
    }
    from_chars(&chars, from, to)
}

/// The marker style that a configuration file sets under a key of a section, where it is a
/// valid one: what `toml` reads of the file and `jj_lib` makes of the value.
pub uninterp spec fn style_at(content: Seq<char>, section: Seq<char>, key: Seq<char>) -> Option<ConflictMarkerStyle>;

/// Parses a `toml::Table`, takes the value under a key of a section, and hands it to
/// `jj_lib::conflicts::ConflictMarkerStyle::deserialize`. The result is a function of the
/// text and of both names; there is none where the text cannot be parsed, the value is not
/// there, or it names no style.
#[verifier::external_body]
fn read_style(content: &str, section: &str, key: &str) -> (r: Option<ConflictMarkerStyle>)
    ensures
        r == style_at(content@, section@, key@),
{
    let table = content.parse::<toml::Table>().ok()?;
    let value = table.get(section)?.get(key)?;
    match JjStyle::deserialize(value.clone()).ok()? {
        JjStyle::Diff => Some(ConflictMarkerStyle::Diff),
        JjStyle::DiffExperimental => Some(ConflictMarkerStyle::DiffExperimental),
        JjStyle::Snapshot => Some(ConflictMarkerStyle::Snapshot),
        JjStyle::Git => Some(ConflictMarkerStyle::Git),
    }
}

/// The entries of a section of a configuration file, as `toml` reads them: each name, and
/// its value where that is a string.
pub uninterp spec fn entries_of(content: Seq<char>, section: Seq<char>) -> Seq<(Seq<char>, Option<Seq<char>>)>;

/// What the entries of a list say.
pub open spec fn entry_views(list: Seq<(String, Option<String>)>) -> Seq<(Seq<char>, Option<Seq<char>>)> {
    list.map_values(|e: (String, Option<String>)| (e.0@, e.1.deep_view()))
}

/// Parses a `toml::Table` and lists the entries of a section. The result is a function of
/// the text and of the section's name; there are none where the text cannot be parsed or
/// has no such section.
#[verifier::external_body]
fn read_entries(content: &str, section: &str) -> (r: Vec<(String, Option<String>)>)
    ensures
        entry_views(r@) == entries_of(content@, section@),
{
    let table = content.parse::<toml::Table>().unwrap_or_default();
    match table.get(section).and_then(|value| value.as_table()) {
        Some(entries) => entries.iter().map(|(name, value)| (name.clone(), value.as_str().map(String::from))).collect(),
        None => Vec::new(),
    }
}

/// A revset alias: its name and what it stands for.
pub struct Alias {
    pub name: String,
    pub definition: String,
}

/// What the aliases of a list say.
pub open spec fn alias_views(list: Seq<Alias>) -> Seq<(Seq<char>, Seq<char>)> {
    list.map_values(|a: Alias| (a.name@, a.definition@))
}

/// What is taken from a configuration file.
pub struct ConfigSettings {
    pub style: Option<ConflictMarkerStyle>,
    pub aliases: Vec<Alias>,
}

/// What the settings of a file say.
#[verifier::ext_equal]
pub struct SettingsView {
    pub style: Option<ConflictMarkerStyle>,
    pub aliases: Seq<(Seq<char>, Seq<char>)>,
}

impl DeepView for ConfigSettings {
    type V = SettingsView;

    open spec fn deep_view(&self) -> SettingsView {
        SettingsView { style: self.style, aliases: alias_views(self.aliases@) }
    }
}

impl View for ConfigSettings {
    type V = SettingsView;

    open spec fn view(&self) -> SettingsView {
        self.deep_view()
    }
}

/// The entries of a list whose value is a string.
pub open spec fn string_entries(entries: Seq<(Seq<char>, Option<Seq<char>>)>) -> Seq<(Seq<char>, Seq<char>)>
    decreases entries.len(),
{
    if entries.len() == 0 {
        Seq::empty()
    } else {
        let before = string_entries(entries.drop_last());
        match entries.last().1 {
            Some(value) => before.push((entries.last().0, value)),
            None => before,
        }
    }
}

/// What is taken from the text of a configuration file.
pub open spec fn settings_in(content: Seq<char>) -> SettingsView {
    SettingsView {
        style: style_at(content, "ui"@, "conflict-marker-style"@),
        aliases: string_entries(entries_of(content, "revset-aliases"@)),
    }
}

/// Nothing is set.
pub open spec fn no_settings() -> SettingsView {
    SettingsView { style: None, aliases: Seq::empty() }
}

/// Takes from a list of entries those whose value is a string.
pub fn keep_strings(entries: &Vec<(String, Option<String>)>) -> (r: Vec<Alias>)
    ensures
        alias_views(r@) == string_entries(entry_views(entries@)),
{
    let ghost all = entry_views(entries@);
    let mut out: Vec<Alias> = Vec::new();
    let mut i: usize = 0;
    assert(alias_views(out@) =~= Seq::empty());
    while i < entries.len()
        invariant
            i <= entries.len(),
            all == entry_views(entries@),
            alias_views(out@) == string_entries(all.take(i as int)),
        decreases entries.len() - i,
    {
        let (name, value) = &entries[i];
        proof {
            assert(all[i as int] == (name@, value.deep_view()));
            assert(all.take(i + 1).drop_last() =~= all.take(i as int));
            assert(all.take(i + 1).last() == all[i as int]);
        }
        if let Some(definition) = value {
            let ghost before = out@;
            out.push(Alias { name: name.clone(), definition: definition.clone() });
            assert(alias_views(out@) =~= alias_views(before).push((name@, definition@)));
        }
        i += 1;
    }
    assert(all.take(i as int) =~= all);
    out
}

/// What is taken from the text of a configuration file; nothing where it could not be read.
pub fn parse_settings(content: Option<&str>) -> (r: ConfigSettings)
    ensures
        r@ == match content {
            Some(text) => settings_in(text@),
            None => no_settings(),
        },
{
    match content {
        Some(text) => ConfigSettings {
            style: read_style(text, "ui", "conflict-marker-style"),
            aliases: keep_strings(&read_entries(text, "revset-aliases")),
        },
        None => {
            let r = ConfigSettings { style: None, aliases: Vec::new() };
            assert(r@ =~= no_settings());
            r
        },
    }
}

/// When a file was last modified, in nanoseconds, and its size.
#[derive(Clone, Copy, Debug, PartialEq, Eq, Structural)]
pub struct FileStamp {
    pub modified_ns: u128,
    pub len: u64,
}

/// The settings of a file as it was when it had a stamp.
pub struct CachedSettings {
    pub stamp: FileStamp,
    pub settings: ConfigSettings,
}

impl DeepView for CachedSettings {
    type V = (FileStamp, SettingsView);

    open spec fn deep_view(&self) -> (FileStamp, SettingsView) {
        (self.stamp, self.settings@)
    }
}

/// Settings of configuration files, so that unchanged files are not read again.
pub struct ConfigCache {
    entries: FileTable<CachedSettings>,
}

impl View for ConfigCache {
    type V = Map<Seq<char>, (FileStamp, SettingsView)>;

    closed spec fn view(&self) -> Map<Seq<char>, (FileStamp, SettingsView)> {
        self.entries@
    }
}

impl ConfigCache {
    pub closed spec fn wf(&self) -> bool {
        self.entries.wf()
    }

    /// Nothing is cached.
    pub fn new() -> (r: ConfigCache)
        ensures
            r.wf(),
            r@ == Map::<Seq<char>, (FileStamp, SettingsView)>::empty(),
    {
        ConfigCache { entries: FileTable::new() }
    }

    /// The cached settings of a file, where it has not changed since.
    pub fn cached_config(&self, path: &str, stamp: FileStamp) -> (r: Option<&ConfigSettings>)
        requires
            self.wf(),
        ensures
            r is Some == (self@.contains_key(path@) && self@[path@].0 == stamp),
            r is Some ==> r->0@ == self@[path@].1,
    {
        match self.entries.get(path) {
            Some(cached) => if cached.stamp == stamp {
                Some(&cached.settings)
            } else {
                None
            },
            None => None,
        }
    }

    /// Caches the settings of a file with the given content, `None` where it could not be
    /// read.
    pub fn store(&mut self, path: &str, stamp: FileStamp, content: Option<&str>)
        requires
            old(self).wf(),
        ensures
            final(self).wf(),
            final(self)@ == old(self)@.insert(path@, (stamp, match content {
                Some(text) => settings_in(text@),
                None => no_settings(),
            })),
    {
        let settings = parse_settings(content);
        self.entries.insert(path.to_owned(), CachedSettings { stamp, settings });
    }
}

/// The marker style that several files set together: the last one that sets a valid style
/// wins, and without any the default holds.
pub open spec fn style_over(styles: Seq<Option<ConflictMarkerStyle>>) -> ConflictMarkerStyle
    decreases styles.len(),
{
    if styles.len() == 0 {
        ConflictMarkerStyle::Diff
    } else if styles.last() is Some {
        styles.last()->0
    } else {
        style_over(styles.drop_last())
    }
}

/// Resolve the user's `ui.conflict-marker-style` from the styles that the configuration
/// files set, later files overriding earlier ones; files without a valid style are passed
/// over.
pub fn conflict_marker_style_for_repo(styles: &Vec<Option<ConflictMarkerStyle>>) -> (r: ConflictMarkerStyle)
    ensures
        r == style_over(styles@),
{
    let mut style = ConflictMarkerStyle::Diff;
    let mut i: usize = 0;
    while i < styles.len()
        invariant
            i <= styles.len(),
            style == style_over(styles@.take(i as int)),
        decreases styles.len() - i,
    {
        assert(styles@.take(i + 1).drop_last() =~= styles@.take(i as int));
        assert(styles@.take(i + 1).last() == styles@[i as int]);
        if let Some(set) = styles[i] {
            style = set;
        }
        i += 1;
    }
    assert(styles@.take(i as int) =~= styles@);
    style
}

/// A file without a valid style changes nothing, wherever it stands.
pub proof fn invalid_style_is_passed_over(
    before: Seq<Option<ConflictMarkerStyle>>,
    after: Seq<Option<ConflictMarkerStyle>>,
)
    ensures
        style_over(before.push(None) + after) == style_over(before + after),
    decreases after.len(),
{
    if after.len() == 0 {
        assert(before.push(None) + after =~= before.push(None));
        assert(before.push(None).drop_last() =~= before);
        assert(before + after =~= before);
    } else {
        assert((before.push(None) + after).drop_last() =~= before.push(None) + after.drop_last());
        assert((before + after).drop_last() =~= before + after.drop_last());
        assert((before.push(None) + after).last() == after.last() && (before + after).last() == after.last());
        invalid_style_is_passed_over(before, after.drop_last());
    }
}

/// The directories that may hold jj's configuration.
pub open spec fn config_roots(config_dir: Option<Seq<char>>, home: Option<Seq<char>>) -> Seq<Seq<char>> {
    let first = match config_dir {
        Some(dir) => seq![joined(dir, "jj"@)],
        None => Seq::empty(),
    };
    match home {
        Some(dir) => {
            let other = joined(joined(dir, ".config"@), "jj"@);
            if first.len() > 0 && normal(first[0]) == normal(other) {
                first
            } else {
                first.push(other)
            }
        },
        None => first,
    }
}

/// Candidate jj config root directories (containing `config.toml`, `repos/`): the
/// platform's config dir and, where it differs, `~/.config`.
pub fn jj_config_roots(config_dir: Option<&str>, home: Option<&str>) -> (r: Vec<String>)
    ensures
        views(r@) == config_roots(
            crate::ignore_filter::opt_str(config_dir),
            crate::ignore_filter::opt_str(home),
        ),
{
    let mut roots: Vec<String> = Vec::new();
    if let Some(dir) = config_dir {
        roots.push(join(dir, "jj"));
    }
    let ghost first = views(roots@);
    if let Some(dir) = home {
        let config = join(dir, ".config");
        let other = join(config.as_str(), "jj");
        let known: bool = roots.len() > 0 && str_eq(
            normalize(roots[0].as_str()).as_str(),
            normalize(other.as_str()).as_str(),
        );
        if !known {
            let ghost before = roots@;
            roots.push(other);
            proof {
                lemma_views_push(before, other);
            }
        }
    }
    assert(views(roots@) =~= config_roots(
        crate::ignore_filter::opt_str(config_dir),
        crate::ignore_filter::opt_str(home),
    ));
    roots
}

/// The configuration files that may set the marker style, in rising precedence.
pub open spec fn style_files(
    env_config: Option<Seq<char>>,
    home: Option<Seq<char>>,
    roots: Seq<Seq<char>>,
    repo_config: Seq<char>,
) -> Seq<Seq<char>> {
    let env = match env_config {
        Some(path) => seq![path],
        None => Seq::empty(),
    };
    let own = match home {
        Some(dir) => seq![joined(dir, ".jjconfig.toml"@)],
        None => Seq::empty(),
    };
    (env + own + roots.map_values(|root: Seq<char>| joined(root, "config.toml"@))).push(repo_config)
}

/// The configuration files that may set the marker style: the user's, then the repo's,
/// which has the highest precedence.
pub fn style_config_paths(
    env_config: Option<&str>,
    home: Option<&str>,
    roots: &Vec<String>,
    repo_config: String,
) -> (r: Vec<String>)
    ensures
        views(r@) == style_files(
            crate::ignore_filter::opt_str(env_config),
            crate::ignore_filter::opt_str(home),
            views(roots@),
            repo_config@,
        ),
{
    let mut out: Vec<String> = Vec::new();
    if let Some(path) = env_config {
        out.push(path.to_owned());
    }
    if let Some(dir) = home {
        let ghost before = out@;
        let path = join(dir, ".jjconfig.toml");
        out.push(path);
        proof {
            lemma_views_push(before, path);
        }
    }
    let ghost start = views(out@);
    let ghost all = views(roots@).map_values(|root: Seq<char>| joined(root, "config.toml"@));
    let mut i: usize = 0;
    assert(start + all.take(0) =~= start);
    while i < roots.len()
        invariant
            i <= roots.len(),
            all == views(roots@).map_values(|root: Seq<char>| joined(root, "config.toml"@)),
            views(out@) == start + all.take(i as int),
        decreases roots.len() - i,
    {
        let path = join(roots[i].as_str(), "config.toml");
        let ghost before = out@;
        out.push(path);
        proof {
            lemma_views_push(before, path);
            assert(views(roots@)[i as int] == roots@[i as int]@);
            assert(start + all.take(i + 1) =~= (start + all.take(i as int)).push(path@));
        }
        i += 1;
    }
    let ghost before = out@;
    out.push(repo_config);
    proof {
        lemma_views_push(before, repo_config);
        assert(all.take(i as int) =~= all);
        assert(views(out@) =~= style_files(
            crate::ignore_filter::opt_str(env_config),
            crate::ignore_filter::opt_str(home),
            views(roots@),
            repo_config@,
        ));
    }
    out
}

/// Whether a character is a hexadecimal digit.
pub open spec fn is_hex_digit(c: char) -> bool {
    ('0' <= c && c <= '9') || ('a' <= c && c <= 'f') || ('A' <= c && c <= 'F')
}

/// The config id that the text of a `config-id` file holds: hexadecimal digits, at least
/// one.
pub open spec fn config_id_in(text: Seq<char>) -> Option<Seq<char>> {
    let id = trimmed(text);
    if id.len() > 0 && forall|i: int| 0 <= i < id.len() ==> is_hex_digit(#[trigger] id[i]) {
        Some(id)
    } else {
        None
    }
}

/// The config id that the text of a `config-id` file holds.
pub fn config_id(text: &str) -> (r: Option<String>)
    ensures
        r.deep_view() == config_id_in(text@),
{
    let id = trim(text);
    let chars = to_chars(id.as_str());
    if chars.len() == 0 {
        return None;
    }
    let mut i: usize = 0;
    while i < chars.len()
        invariant
            i <= chars.len(),
            chars@ == id@,
            id@ == trimmed(text@),
            forall|k: int| 0 <= k < i ==> is_hex_digit(#[trigger] chars@[k]),
        decreases chars.len() - i,
    {
        let c = chars[i];
        let hex: bool = ('0' <= c && c <= '9') || ('a' <= c && c <= 'f') || ('A' <= c && c <= 'F');
        if !hex {
            assert(!is_hex_digit(id@[i as int]));
            return None;
        }
        i += 1;
    }
    Some(id)
}

/// The directory of a repo's store: `.jj/repo`, or the directory that this file names in a
/// secondary workspace.
pub open spec fn repo_dir_of(repo_path: Seq<char>, pointer: Option<Seq<char>>) -> Seq<char> {
    match pointer {
        Some(text) => trimmed(text),
        None => joined(joined(repo_path, ".jj"@), "repo"@),
    }
}

/// The directory of a repo's store, given the content of `.jj/repo` where that is a file.
pub fn repo_dir(repo_path: &str, pointer: Option<&str>) -> (r: String)
    ensures
        r@ == repo_dir_of(repo_path@, crate::ignore_filter::opt_str(pointer)),
{
    match pointer {
        Some(text) => trim(text),
        None => join(join(repo_path, ".jj").as_str(), "repo"),
    }
}

/// The repo's configuration below a config root.
pub open spec fn keyed_config(root: Seq<char>, id: Seq<char>) -> Seq<char> {
    joined(joined(joined(root, "repos"@), id), "config.toml"@)
}

/// The repo's configuration files under the config roots, for a config id.
pub fn keyed_config_paths(roots: &Vec<String>, id: &str) -> (r: Vec<String>)
    ensures
        views(r@) == views(roots@).map_values(|root: Seq<char>| keyed_config(root, id@)),
{
    let ghost all = views(roots@).map_values(|root: Seq<char>| keyed_config(root, id@));
    let mut out: Vec<String> = Vec::new();
    let mut i: usize = 0;
    assert(views(out@) =~= all.take(0));
    while i < roots.len()
        invariant
            i <= roots.len(),
            all == views(roots@).map_values(|root: Seq<char>| keyed_config(root, id@)),
            views(out@) == all.take(i as int),
        decreases roots.len() - i,
    {
        let repos = join(roots[i].as_str(), "repos");
        let path = join(join(repos.as_str(), id).as_str(), "config.toml");
        let ghost before = out@;
        out.push(path);
        proof {
            lemma_views_push(before, path);
            assert(views(roots@)[i as int] == roots@[i as int]@);
            assert(all.take(i + 1) =~= all.take(i as int).push(path@));
        }
        i += 1;
    }
    assert(all.take(i as int) =~= all);
    out
}

/// The first path of a list that exists.
pub open spec fn first_existing(paths: Seq<Seq<char>>, exists_at: Seq<bool>) -> Option<Seq<char>>
    decreases paths.len(),
{
    if paths.len() == 0 || exists_at.len() == 0 {
        None
    } else if exists_at[0] {
        Some(paths[0])
    } else {
        first_existing(paths.drop_first(), exists_at.drop_first())
    }
}

/// Path to the repo-level jj config: the first keyed one that exists, else the one in the
/// store's directory.
pub fn repo_config_path(repo_dir: &str, keyed: &Vec<String>, exists_at: &Vec<bool>) -> (r: String)
    ensures
        r@ == match first_existing(views(keyed@), exists_at@) {
            Some(path) => path,
            None => joined(repo_dir@, "config.toml"@),
        },
{
    let ghost all = views(keyed@);
    let mut i: usize = 0;
    assert(all.skip(0) =~= all);
    assert(exists_at@.skip(0) =~= exists_at@);
    while i < keyed.len() && i < exists_at.len()
        invariant
            i <= keyed.len(),
            i <= exists_at.len(),
            all == views(keyed@),
            first_existing(all.skip(i as int), exists_at@.skip(i as int)) == first_existing(all, exists_at@),
        decreases keyed.len() - i,
    {
        assert(all.skip(i as int)[0] == keyed@[i as int]@);
        assert(exists_at@.skip(i as int)[0] == exists_at@[i as int]);
        if exists_at[i] {
            return keyed[i].clone();
        }
        assert(all.skip(i as int).drop_first() =~= all.skip(i + 1));
        assert(exists_at@.skip(i as int).drop_first() =~= exists_at@.skip(i + 1));
        i += 1;
    }
    join(repo_dir, "config.toml")
}

/// The revset aliases to use: the built-in ones, then those of the configuration files, of
/// which later ones override earlier ones of the same name.
pub open spec fn alias_list(files: Seq<Seq<(Seq<char>, Seq<char>)>>) -> Seq<(Seq<char>, Seq<char>)>
    decreases files.len(),
{
    if files.len() == 0 {
        builtin_aliases()
    } else {
        alias_list(files.drop_last()) + files.last()
    }
}

/// The built-in revset aliases.
pub open spec fn builtin_aliases() -> Seq<(Seq<char>, Seq<char>)> {
    seq![
        ("trunk()"@, trunk_text()),
        ("builtin_immutable_heads()"@, "trunk() | tags() | untracked_remote_bookmarks()"@),
        ("immutable_heads()"@, "builtin_immutable_heads()"@),
    ]
}

/// The built-in definition of `trunk()`.
pub open spec fn trunk_text() -> Seq<char> {
    "latest(\n    remote_bookmarks(exact:\"main\", exact:\"origin\") |\n    remote_bookmarks(exact:\"master\", exact:\"origin\") |\n    remote_bookmarks(exact:\"trunk\", exact:\"origin\") |\n    remote_bookmarks(exact:\"main\", exact:\"upstream\") |\n    remote_bookmarks(exact:\"master\", exact:\"upstream\") |\n    remote_bookmarks(exact:\"trunk\", exact:\"upstream\") |\n    root()\n)"@
}

fn push_alias(out: &mut Vec<Alias>, name: &str, definition: &str)
    ensures
        alias_views(final(out)@) == alias_views(old(out)@).push((name@, definition@)),
{
    let ghost before = out@;
    out.push(Alias { name: name.to_owned(), definition: definition.to_owned() });
    assert(alias_views(out@) =~= alias_views(before).push((name@, definition@)));
}

/// The configuration files that may define revset aliases, in rising precedence.
pub open spec fn alias_files(
    env_config: Option<Seq<char>>,
    config_dir: Option<Seq<char>>,
    home: Option<Seq<char>>,
) -> Seq<Seq<char>> {
    let env = match env_config {
        Some(path) => seq![path],
        None => Seq::empty(),
    };
    let platform = match config_dir {
        Some(dir) => seq![joined(joined(dir, "jj"@), "config.toml"@)],
        None => Seq::empty(),
    };
    let own = match home {
        Some(dir) => seq![joined(dir, ".jjconfig.toml"@)],
        None => Seq::empty(),
    };
    env + platform + own
}

/// The configuration files that may define revset aliases: a later one overrides an
/// earlier one.
pub fn alias_config_paths(env_config: Option<&str>, config_dir: Option<&str>, home: Option<&str>) -> (r: Vec<String>)
    ensures
        views(r@) == alias_files(
            crate::ignore_filter::opt_str(env_config),
            crate::ignore_filter::opt_str(config_dir),
            crate::ignore_filter::opt_str(home),
        ),
{
    let mut out: Vec<String> = Vec::new();
    if let Some(path) = env_config {
        out.push(path.to_owned());
    }
    if let Some(dir) = config_dir {
        let ghost before = out@;
        let own_dir = join(dir, "jj");
        let path = join(own_dir.as_str(), "config.toml");
        out.push(path);
        proof {
            lemma_views_push(before, path);
        }
    }
    if let Some(dir) = home {
        let ghost before = out@;
        let path = join(dir, ".jjconfig.toml");
        out.push(path);
        proof {
            lemma_views_push(before, path);
        }
    }
    assert(views(out@) =~= alias_files(
        crate::ignore_filter::opt_str(env_config),
        crate::ignore_filter::opt_str(config_dir),
        crate::ignore_filter::opt_str(home),
    ));
    out
}

/// What the aliases of the settings of each file say.
pub open spec fn file_aliases(files: Seq<&ConfigSettings>) -> Seq<Seq<(Seq<char>, Seq<char>)>> {
    files.map_values(|f: &ConfigSettings| f@.aliases)
}

/// The revset aliases to use, given the settings of the user's configuration files.
pub fn load_revset_aliases(files: &Vec<&ConfigSettings>) -> (r: Vec<Alias>)
    ensures
        alias_views(r@) == alias_list(file_aliases(files@)),
{
    let mut out: Vec<Alias> = Vec::new();
    assert(alias_views(out@) =~= Seq::empty());
    push_alias(
        &mut out,
        "trunk()",
        "latest(\n    remote_bookmarks(exact:\"main\", exact:\"origin\") |\n    remote_bookmarks(exact:\"master\", exact:\"origin\") |\n    remote_bookmarks(exact:\"trunk\", exact:\"origin\") |\n    remote_bookmarks(exact:\"main\", exact:\"upstream\") |\n    remote_bookmarks(exact:\"master\", exact:\"upstream\") |\n    remote_bookmarks(exact:\"trunk\", exact:\"upstream\") |\n    root()\n)",
    );
    push_alias(&mut out, "builtin_immutable_heads()", "trunk() | tags() | untracked_remote_bookmarks()");
    push_alias(&mut out, "immutable_heads()", "builtin_immutable_heads()");
    assert(alias_views(out@) =~= builtin_aliases());
    let ghost all = file_aliases(files@);
    let mut i: usize = 0;
    while i < files.len()
        invariant
            i <= files.len(),
            all == file_aliases(files@),
            alias_views(out@) == alias_list(all.take(i as int)),
        decreases files.len() - i,
    {
        let list = &files[i].aliases;
        let ghost start = alias_views(out@);
        let ghost more = alias_views(list@);
        proof {
            assert(all[i as int] == more);
            assert(all.take(i + 1).drop_last() =~= all.take(i as int));
            assert(all.take(i + 1).last() == more);
            assert(start + more.take(0) =~= start);
        }
        let mut j: usize = 0;
        while j < list.len()
            invariant
                j <= list.len(),
                more == alias_views(list@),
                alias_views(out@) == start + more.take(j as int),
            decreases list.len() - j,
        {
            push_alias(&mut out, list[j].name.as_str(), list[j].definition.as_str());
            proof {
                assert(more[j as int] == (list@[j as int].name@, list@[j as int].definition@));
                assert(start + more.take(j + 1) =~= (start + more.take(j as int)).push(more[j as int]));
            }
            j += 1;
        }
        assert(more.take(j as int) =~= more);
        i += 1;
    }
    assert(all.take(i as int) =~= all);
    out
}

/// The revset of the current line of work: the ancestors of a commit that are no ancestors
/// of trunk.
pub fn line_of_work_revset(commit_hex: &str) -> (r: String)
    ensures
        r@ == "::"@ + commit_hex@ + " ~ ::trunk()"@,
{
    let mut out = "::".to_owned();
    out.append(commit_hex);
    out.append(" ~ ::trunk()");
    out
}

} // verus!
