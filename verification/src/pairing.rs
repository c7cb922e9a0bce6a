//! Renames and copies: pairing of deleted, modified and added files by similarity.
//!
//! Pairing works on the composite diff (staged entries over overlay over base), so a
//! delete recorded batches ago pairs with an add that arrives now.

use crate::aggregate::effective;
use crate::conflicts::{ConflictMarkerStyle, MergeOptions};
use crate::facts::{
    blob, facts_ok, has_content, lookup_content, materialized_content, present, record_count, records_before,
    snapshot_blob, yields_record, FactsView, PathFacts,
};
use crate::similarity::{content_similarity, similarity, RENAME_SIMILARITY};
use crate::staging::{
    all_facts_ok, copy_trees, diff_against, facts_of, lemma_views_push, DiffState, DiffStateView, Staging,
    StagingView,
};
use crate::stats::{blank_stats, FileChangeKind, FileDiffStats, FileStats};
use crate::strings::{in_order, sort_set, views};
use crate::table::FileTable;
use crate::wc::{as_content, diff_single_file};
use vstd::prelude::*;

verus! {

/// The whole diff: staged entries over the overlay over the base.
pub open spec fn composite(
    state: DiffStateView,
    entries: Map<Seq<char>, Option<FileStats>>,
) -> Map<Seq<char>, FileStats> {
    effective(state.base, state.overlay.union_prefer_right(entries))
}

/// All paths that the diff speaks of.
pub open spec fn all_paths(state: DiffStateView, entries: Map<Seq<char>, Option<FileStats>>) -> Set<Seq<char>> {
    state.base.dom() + state.overlay.dom() + entries.dom()
}

/// What a file of a diff may be for pairing.
#[derive(Clone, Copy, PartialEq, Eq, Structural)]
pub enum Role {
    /// A deleted file, which may turn out to be renamed.
    Deleted,
    /// A file that may turn out to be the target of a rename: an added one; under several
    /// parents also a modified one, which may have come from a parent without the source.
    Arrived,
    /// A modified file, which may turn out to be copied from.
    Modified,
    /// An added file, which may turn out to be a copy.
    Added,
}

/// Whether a file of a diff that is not renamed yet has a role.
pub open spec fn has_role(state: DiffStateView, files: Map<Seq<char>, FileStats>, role: Role, path: Seq<char>) -> bool {
    &&& files.contains_key(path)
    &&& files[path].renamed_from is None
    &&& match role {
        Role::Deleted => files[path].kind == FileChangeKind::Deleted,
        Role::Arrived => files[path].kind == FileChangeKind::Added || (files[path].kind == FileChangeKind::Modified
            && state.parents > 1),
        Role::Modified => files[path].kind == FileChangeKind::Modified,
        Role::Added => files[path].kind == FileChangeKind::Added,
    }
}

/// The files of a diff that have a role.
pub open spec fn with_role(state: DiffStateView, entries: Map<Seq<char>, Option<FileStats>>, role: Role) -> Set<
    Seq<char>,
> {
    let files = composite(state, entries);
    Set::new(|path: Seq<char>| has_role(state, files, role, path))
}

/// The largest similarity among the first `n` parents that yield a record.
pub open spec fn score_before(
    source: FactsView,
    target: FactsView,
    disk: Seq<u8>,
    n: int,
    style: ConflictMarkerStyle,
    options: MergeOptions,
) -> nat
    decreases n,
{
    if n <= 0 {
        0
    } else {
        let before = score_before(source, target, disk, n - 1, style, options);
        let here = similarity(lookup_content(source.parents[n - 1], style, options)->0, disk);
        if yields_record(source, target, disk, n - 1, style, options) && here > before {
            here
        } else {
            before
        }
    }
}

/// How well a target goes with a source.
pub open spec fn rename_score(state: DiffStateView, source: FactsView, target: FactsView) -> nat {
    score_before(
        source,
        target,
        blob(target, state.options)->0,
        source.parents.len() as int,
        state.style,
        state.options,
    )
}

/// How many parents yield a record of a rename.
pub open spec fn rename_records(state: DiffStateView, source: FactsView, target: FactsView) -> nat {
    record_count(source, target, state.style, state.options)
}

/// The place of the best target for a source among the first `n` of a list: the first one
/// with the largest score.
pub open spec fn best_target(
    state: DiffStateView,
    facts: Map<Seq<char>, FactsView>,
    source: Seq<char>,
    targets: Seq<Seq<char>>,
    n: int,
) -> Option<int>
    decreases n,
{
    if n <= 0 {
        None
    } else {
        let before = best_target(state, facts, source, targets, n - 1);
        let s = facts[source];
        let t = facts[targets[n - 1]];
        if rename_records(state, s, t) > 0 && (before is None || rename_score(state, s, t) > rename_score(
            state,
            s,
            facts[targets[before->0]],
        )) {
            Some(n - 1)
        } else {
            before
        }
    }
}

/// The entry of a renamed or copied file.
pub open spec fn rename_entry(diff: Option<FileStats>, source: Seq<char>) -> FileStats {
    FileStats {
        kind: FileChangeKind::Modified,
        content_hash: None,
        renamed_from: Some(source),
        ..match diff {
            Some(stats) => stats,
            None => blank_stats(),
        }
    }
}

/// The targets that are still free, the staged entries, and the sources whose delete was
/// dropped without a rename.
pub struct Pairing {
    pub free: Seq<Seq<char>>,
    pub entries: Map<Seq<char>, Option<FileStats>>,
    pub dropped: Seq<Seq<char>>,
}

/// The pairing after one more source. A source with a target becomes part of it: one
/// record makes the target a renamed file, several records cancel each other, so that the
/// target stays as it is. Either way the source's delete is gone.
pub open spec fn paired_source(
    state: DiffStateView,
    facts: Map<Seq<char>, FactsView>,
    pairing: Pairing,
    source: Seq<char>,
) -> Pairing {
    match best_target(state, facts, source, pairing.free, pairing.free.len() as int) {
        None => pairing,
        Some(place) => {
            let target = pairing.free[place];
            let free = pairing.free.update(place, pairing.free.last()).drop_last();
            if rename_records(state, facts[source], facts[target]) >= 2 {
                Pairing { free, entries: pairing.entries.insert(source, None), dropped: pairing.dropped.push(source) }
            } else {
                let entry = rename_entry(diff_against(state, facts[source], facts[target].disk), source);
                Pairing {
                    free,
                    entries: pairing.entries.insert(target, Some(entry)).insert(source, None),
                    ..pairing
                }
            }
        },
    }
}

/// The pairing after a list of sources.
pub open spec fn paired_sources(
    state: DiffStateView,
    facts: Map<Seq<char>, FactsView>,
    start: Pairing,
    sources: Seq<Seq<char>>,
) -> Pairing
    decreases sources.len(),
{
    if sources.len() == 0 {
        start
    } else {
        paired_source(state, facts, paired_sources(state, facts, start, sources.drop_last()), sources.last())
    }
}

/// The possible targets of renames in a diff: those with content, in order.
pub open spec fn rename_candidates(
    state: DiffStateView,
    facts: Map<Seq<char>, FactsView>,
    entries: Map<Seq<char>, Option<FileStats>>,
) -> Seq<Seq<char>> {
    in_order(with_role(state, entries, Role::Arrived).filter(|path: Seq<char>| has_content(facts[path], state.options)))
}

/// What pairing renames makes of staged entries.
pub open spec fn paired(
    state: DiffStateView,
    facts: Map<Seq<char>, FactsView>,
    entries: Map<Seq<char>, Option<FileStats>>,
) -> Pairing {
    let start = Pairing { free: rename_candidates(state, facts, entries), entries, dropped: Seq::empty() };
    if start.free.len() == 0 {
        start
    } else {
        paired_sources(state, facts, start, in_order(with_role(state, entries, Role::Deleted)))
    }
}

/// The staged entries with renames worked in.
pub open spec fn with_renames(
    state: DiffStateView,
    facts: Map<Seq<char>, FactsView>,
    entries: Map<Seq<char>, Option<FileStats>>,
) -> Map<Seq<char>, Option<FileStats>> {
    paired(state, facts, entries).entries
}

/// The sources whose delete pairing drops without a rename.
pub open spec fn dropped_sources(
    state: DiffStateView,
    facts: Map<Seq<char>, FactsView>,
    entries: Map<Seq<char>, Option<FileStats>>,
) -> Seq<Seq<char>> {
    paired(state, facts, entries).dropped
}

/// The paths that must be known before renames can be paired: those that may be targets,
/// and the deleted files where there are any such.
pub open spec fn needed_for_renames(
    state: DiffStateView,
    entries: Map<Seq<char>, Option<FileStats>>,
) -> Set<Seq<char>> {
    let arrived = with_role(state, entries, Role::Arrived);
    if arrived == Set::<Seq<char>>::empty() {
        arrived
    } else {
        arrived + with_role(state, entries, Role::Deleted)
    }
}

impl DiffState {
    /// The stats of a path in the whole diff.
    fn composite_entry<'a>(&'a self, staging: &'a Staging, path: &str) -> (r: Option<&'a FileDiffStats>)
        requires
            self.wf(),
            staging.wf(),
        ensures
            r is Some == composite(self@, staging@.entries).contains_key(path@),
            r is Some ==> r->0@ == composite(self@, staging@.entries)[path@],
    {
        if let Some(entry) = staging.entries.get(path) {
            return entry.as_ref();
        }
        if let Some(entry) = self.overlay.get(path) {
            return entry.as_ref();
        }
        self.base_file_stats.get(path)
    }

    /// All paths that the diff speaks of, each once.
    fn every_path(&self, staging: &Staging) -> (r: Vec<String>)
        requires
            self.wf(),
            staging.wf(),
        ensures
            views(r@).no_duplicates(),
            views(r@).to_set() == all_paths(self@, staging@.entries),
    {
        let mut seen: FileTable<bool> = FileTable::new();
        let mut out: Vec<String> = Vec::new();
        assert(views(out@) =~= Seq::empty());
        let n: usize = self.base_file_stats.len();
        let mut i: usize = 0;
        proof {
            self.base_file_stats.paths_are_domain();
            self.overlay.paths_are_domain();
            staging.entries.paths_are_domain();
            assert(seen@.dom() =~= self.base_file_stats.paths().take(0).to_set());
            assert(views(out@).to_set() =~= seen@.dom());
        }
        while i < n
            invariant
                self.wf(),
                seen.wf(),
                i <= n == self.base_file_stats.paths().len(),
                views(out@).no_duplicates(),
                views(out@).to_set() == seen@.dom(),
                seen@.dom() == self.base_file_stats.paths().take(i as int).to_set(),
            decreases n - i,
        {
            let path = self.base_file_stats.path_at(i);
            proof {
                lemma_take_next(self.base_file_stats.paths(), i as int);
            }
            add_new(&mut out, &mut seen, path.as_str());
            i += 1;
        }
        let m: usize = self.overlay.len();
        let mut j: usize = 0;
        proof {
            assert(self.base_file_stats.paths().take(n as int) =~= self.base_file_stats.paths());
            assert(seen@.dom() =~= self@.base.dom() + self.overlay.paths().take(0).to_set());
        }
        while j < m
            invariant
                self.wf(),
                seen.wf(),
                j <= m == self.overlay.paths().len(),
                views(out@).no_duplicates(),
                views(out@).to_set() == seen@.dom(),
                seen@.dom() == self@.base.dom() + self.overlay.paths().take(j as int).to_set(),
            decreases m - j,
        {
            let path = self.overlay.path_at(j);
            proof {
                lemma_take_next(self.overlay.paths(), j as int);
            }
            add_new(&mut out, &mut seen, path.as_str());
            assert(seen@.dom() =~= self@.base.dom() + self.overlay.paths().take(j + 1).to_set());
            j += 1;
        }
        let q: usize = staging.entries.len();
        let mut k: usize = 0;
        proof {
            assert(self.overlay.paths().take(m as int) =~= self.overlay.paths());
            assert(seen@.dom() =~= self@.base.dom() + self@.overlay.dom() + staging.entries.paths().take(0).to_set());
        }
        while k < q
            invariant
                self.wf(),
                staging.wf(),
                seen.wf(),
                k <= q == staging.entries.paths().len(),
                views(out@).no_duplicates(),
                views(out@).to_set() == seen@.dom(),
                seen@.dom() == self@.base.dom() + self@.overlay.dom() + staging.entries.paths().take(
                    k as int,
                ).to_set(),
            decreases q - k,
        {
            let path = staging.entries.path_at(k);
            proof {
                lemma_take_next(staging.entries.paths(), k as int);
            }
            add_new(&mut out, &mut seen, path.as_str());
            assert(seen@.dom() =~= self@.base.dom() + self@.overlay.dom() + staging.entries.paths().take(
                k + 1,
            ).to_set());
            k += 1;
        }
        assert(staging.entries.paths().take(q as int) =~= staging.entries.paths());
        out
    }
}

proof fn lemma_take_next(paths: Seq<Seq<char>>, n: int)
    requires
        0 <= n < paths.len(),
    ensures
        paths.take(n + 1).to_set() == paths.take(n).to_set().insert(paths[n]),
{
    assert(paths.take(n + 1) =~= paths.take(n).push(paths[n]));
    paths.take(n).lemma_push_to_set_commute(paths[n]);
}

/// Adds a path to a list unless it has been seen.
fn add_new(out: &mut Vec<String>, seen: &mut FileTable<bool>, path: &str)
    requires
        old(seen).wf(),
        views(old(out)@).no_duplicates(),
        views(old(out)@).to_set() == old(seen)@.dom(),
    ensures
        final(seen).wf(),
        views(final(out)@).no_duplicates(),
        views(final(out)@).to_set() == final(seen)@.dom(),
        final(seen)@.dom() == old(seen)@.dom().insert(path@),
{
    let ghost before = views(out@);
    let ghost dom = seen@.dom();
    if seen.contains(path) {
        assert(dom.insert(path@) =~= dom);
        return ;
    }
    let name = path.to_owned();
    let ghost list = out@;
    out.push(name);
    seen.insert(path.to_owned(), true);
    proof {
        lemma_views_push(list, name);
        before.lemma_push_to_set_commute(path@);
        assert(!before.to_set().contains(path@));
        assert(!before.contains(path@));
        assert(views(out@).no_duplicates()) by {
            let after = before.push(path@);
            assert forall|a: int, b: int| 0 <= a < after.len() && 0 <= b < after.len() && a != b implies after[a]
                != after[b] by {
                if a == before.len() {
                    assert(before[b] != path@);
                }
                if b == before.len() {
                    assert(before[a] != path@);
                }
            }
        }
        assert(seen@.dom() =~= dom.insert(path@));
    }
}

/// Whether a kind fits a role.
fn fits(role: Role, kind: FileChangeKind, parents: usize) -> (r: bool)
    ensures
        r == match role {
            Role::Deleted => kind == FileChangeKind::Deleted,
            Role::Arrived => kind == FileChangeKind::Added || (kind == FileChangeKind::Modified && parents > 1),
            Role::Modified => kind == FileChangeKind::Modified,
            Role::Added => kind == FileChangeKind::Added,
        },
{
    match role {
        Role::Deleted => kind == FileChangeKind::Deleted,
        Role::Arrived => kind == FileChangeKind::Added || (kind == FileChangeKind::Modified && parents > 1),
        Role::Modified => kind == FileChangeKind::Modified,
        Role::Added => kind == FileChangeKind::Added,
    }
}

impl DiffState {
    /// The files of the diff that have a role, each once.
    pub(crate) fn paths_with(&self, staging: &Staging, role: Role) -> (r: Vec<String>)
        requires
            self.wf(),
            staging.wf(),
        ensures
            views(r@).no_duplicates(),
            views(r@).to_set() == with_role(self@, staging@.entries, role),
    {
        let every = self.every_path(staging);
        let ghost all = views(every@);
        let ghost wanted = with_role(self@, staging@.entries, role);
        let mut out: Vec<String> = Vec::new();
        let mut i: usize = 0;
        proof {
            assert(views(out@) =~= Seq::empty());
            assert(views(out@).to_set() =~= wanted.intersect(all.take(0).to_set()));
        }
        while i < every.len()
            invariant
                self.wf(),
                staging.wf(),
                i <= every.len(),
                all == views(every@),
                all.no_duplicates(),
                wanted == with_role(self@, staging@.entries, role),
                views(out@).no_duplicates(),
                views(out@).to_set() == wanted.intersect(all.take(i as int).to_set()),
            decreases every.len() - i,
        {
            let path = &every[i];
            let ghost before = out@;
            proof {
                assert(all[i as int] == path@);
                lemma_take_next(all, i as int);
                assert(!all.take(i as int).contains(path@)) by {
                    if all.take(i as int).contains(path@) {
                        let k = choose|k: int| 0 <= k < i && all.take(i as int)[k] == path@;
                        assert(all[k] == all[i as int]);
                    }
                }
            }
            let hit: bool = match self.composite_entry(staging, path.as_str()) {
                Some(stats) => stats.renamed_from.is_none() && fits(role, stats.kind, self.parent_count),
                None => false,
            };
            if hit {
                let name = path.clone();
                out.push(name);
                proof {
                    lemma_views_push(before, name);
                    assert(!views(before).to_set().contains(path@));
                    assert(!views(before).contains(path@));
                    lemma_push_new(views(before), path@);
                }
            }
            assert(hit == wanted.contains(path@));
            assert(views(out@).to_set() =~= wanted.intersect(all.take(i + 1).to_set()));
            i += 1;
        }
        proof {
            assert(all.take(i as int) =~= all);
            assert(views(out@).to_set() =~= wanted);
        }
        out
    }

    /// The possible targets of renames, in order.
    fn rename_targets_in_order(&self, staging: &Staging, facts: &FileTable<PathFacts>) -> (r: Vec<String>)
        requires
            self.wf(),
            staging.wf(),
            facts.wf(),
            all_facts_ok(self@, facts@),
            with_role(self@, staging@.entries, Role::Arrived).subset_of(facts@.dom()),
        ensures
            views(r@) == rename_candidates(self@, facts@, staging@.entries),
            forall|i: int|
                0 <= i < r@.len() ==> facts@.contains_key((#[trigger] r@[i])@) && has_content(
                    facts@[r@[i]@],
                    self@.options,
                ) && with_role(self@, staging@.entries, Role::Arrived).contains(r@[i]@),
    {
        let arrived = self.paths_with(staging, Role::Arrived);
        let ghost all = views(arrived@);
        let ghost fv = facts@;
        let ghost keep = |path: Seq<char>| has_content(fv[path], self@.options);
        let mut out: Vec<String> = Vec::new();
        let mut i: usize = 0;
        proof {
            assert(views(out@) =~= Seq::empty());
            assert(views(out@).to_set() =~= all.take(0).to_set().filter(keep));
        }
        while i < arrived.len()
            invariant
                facts.wf(),
                all_facts_ok(self@, facts@),
                fv == facts@,
                keep == (|path: Seq<char>| has_content(fv[path], self@.options)),
                i <= arrived.len(),
                all == views(arrived@),
                all.no_duplicates(),
                all.to_set().subset_of(facts@.dom()),
                views(out@).no_duplicates(),
                views(out@).to_set() == all.take(i as int).to_set().filter(keep),
            decreases arrived.len() - i,
        {
            let path = &arrived[i];
            let ghost before = out@;
            proof {
                assert(all[i as int] == path@);
                assert(all.contains(path@));
                assert(all.to_set().contains(path@));
                lemma_take_next(all, i as int);
                assert(!all.take(i as int).contains(path@)) by {
                    if all.take(i as int).contains(path@) {
                        let k = choose|k: int| 0 <= k < i && all.take(i as int)[k] == path@;
                        assert(all[k] == all[i as int]);
                    }
                }
            }
            let hit: bool = match snapshot_blob(facts_of(facts, path.as_str()), self.merge_options) {
                Some(content) => content.len() > 0,
                None => false,
            };
            if hit {
                let name = path.clone();
                out.push(name);
                proof {
                    lemma_views_push(before, name);
                    assert(!views(before).to_set().contains(path@));
                    assert(!views(before).contains(path@));
                    lemma_push_new(views(before), path@);
                }
            }
            assert(views(out@).to_set() =~= all.take(i + 1).to_set().filter(keep));
            i += 1;
        }
        assert(all.take(i as int) =~= all);
        let ghost set = views(out@).to_set();
        let r = sort_set(out);
        proof {
            assert forall|k: int| 0 <= k < r@.len() implies facts@.contains_key((#[trigger] r@[k])@) && has_content(
                facts@[r@[k]@],
                self@.options,
            ) && with_role(self@, staging@.entries, Role::Arrived).contains(r@[k]@) by {
                assert(views(r@)[k] == r@[k]@);
                assert(views(r@).contains(r@[k]@));
                assert(views(r@).to_set().contains(r@[k]@));
                assert(set.contains(r@[k]@));
            }
        }
        r
    }
}

pub(crate) proof fn lemma_push_new(list: Seq<Seq<char>>, item: Seq<char>)
    requires
        list.no_duplicates(),
        !list.contains(item),
    ensures
        list.push(item).no_duplicates(),
        list.push(item).to_set() == list.to_set().insert(item),
{
    list.lemma_push_to_set_commute(item);
    let more = list.push(item);
    assert forall|a: int, b: int| 0 <= a < more.len() && 0 <= b < more.len() && a != b implies more[a] != more[b] by {
        if a == list.len() {
            assert(list[b] != item);
        }
        if b == list.len() {
            assert(list[a] != item);
        }
    }
}

/// The content of a path in each parent tree that has any.
spec fn contents_match(
    contents: Seq<Option<Vec<u8>>>,
    source: FactsView,
    style: ConflictMarkerStyle,
    options: MergeOptions,
) -> bool {
    &&& contents.len() == source.parents.len()
    &&& forall|i: int|
        0 <= i < contents.len() ==> {
            let here = lookup_content(source.parents[i], style, options);
            let usable = present(source.parents[i]) && here is Some && here->0.len() > 0;
            &&& (#[trigger] contents[i]) is Some == usable
            &&& contents[i] is Some ==> contents[i]->0@ == here->0
        }
}

fn parent_contents(source: &PathFacts, style: ConflictMarkerStyle, options: MergeOptions) -> (r: Vec<Option<Vec<u8>>>)
    requires
        facts_ok(source@, source@.parents.len()),
    ensures
        contents_match(r@, source@, style, options),
{
    let mut out: Vec<Option<Vec<u8>>> = Vec::new();
    let mut i: usize = 0;
    while i < source.parents.len()
        invariant
            i <= source.parents.len(),
            facts_ok(source@, source@.parents.len()),
            out.len() == i,
            forall|k: int|
                0 <= k < i ==> {
                    let here = lookup_content(source@.parents[k], style, options);
                    let usable = present(source@.parents[k]) && here is Some && here->0.len() > 0;
                    &&& (#[trigger] out@[k]) is Some == usable
                    &&& out@[k] is Some ==> out@[k]->0@ == here->0
                },
        decreases source.parents.len() - i,
    {
        let lookup = &source.parents[i];
        assert(source@.parents[i as int] == lookup@);
        let content = if lookup.is_present() {
            match materialized_content(lookup, style, options) {
                Some(bytes) => if bytes.len() > 0 {
                    Some(bytes)
                } else {
                    None
                },
                None => None,
            }
        } else {
            None
        };
        out.push(content);
        i += 1;
    }
    out
}

/// How many parents yield a record of a rename, and the largest similarity among them.
fn score_target(
    contents: &Vec<Option<Vec<u8>>>,
    target: &PathFacts,
    disk: &Vec<u8>,
    style: ConflictMarkerStyle,
    options: MergeOptions,
    Ghost(source): Ghost<FactsView>,
) -> (r: (usize, u32))
    requires
        contents_match(contents@, source, style, options),
        facts_ok(target@, source.parents.len()),
    ensures
        r.0 == records_before(source, target@, disk@, source.parents.len() as int, style, options),
        r.1 == score_before(source, target@, disk@, source.parents.len() as int, style, options),
{
    let mut records: usize = 0;
    let mut score: u32 = 0;
    let mut i: usize = 0;
    while i < contents.len()
        invariant
            i <= contents.len(),
            records <= i,
            contents_match(contents@, source, style, options),
            facts_ok(target@, source.parents.len()),
            records == records_before(source, target@, disk@, i as int, style, options),
            score == score_before(source, target@, disk@, i as int, style, options),
        decreases contents.len() - i,
    {
        assert(target@.parents[i as int] == target.parents@[i as int]@);
        if let Some(content) = &contents[i] {
            if target.parents[i].is_absent() {
                let here: u32 = content_similarity(content.as_slice(), disk.as_slice());
                if here >= RENAME_SIMILARITY {
                    records += 1;
                    if here > score {
                        score = here;
                    }
                }
            }
        }
        i += 1;
    }
    (records, score)
}

/// The place of a target in a list, and how many parents yield the record.
#[derive(Clone, Copy)]
struct FoundTarget {
    place: usize,
    records: usize,
}

/// All paths of a list are known.
spec fn all_known(list: Seq<Seq<char>>, facts: Map<Seq<char>, FactsView>, options: MergeOptions) -> bool {
    forall|i: int|
        0 <= i < list.len() ==> facts.contains_key(#[trigger] list[i]) && has_content(facts[list[i]], options)
}

impl DiffState {
    /// The best target of a source among a list, and how many parents yield the record.
    fn find_target(
        &self,
        facts: &FileTable<PathFacts>,
        source: &str,
        targets: &Vec<String>,
    ) -> (r: Option<FoundTarget>)
        requires
            facts.wf(),
            all_facts_ok(self@, facts@),
            facts@.contains_key(source@),
            all_known(views(targets@), facts@, self@.options),
        ensures
            match best_target(self@, facts@, source@, views(targets@), targets@.len() as int) {
                None => r is None,
                Some(place) => {
                    &&& r is Some
                    &&& 0 <= place < targets@.len()
                    &&& r->0.place == place
                    &&& r->0.records == rename_records(self@, facts@[source@], facts@[views(targets@)[place]])
                },
            },
    {
        let source_facts = facts_of(facts, source);
        let ghost sv = source_facts@;
        let ghost all = views(targets@);
        let style = self.conflict_marker_style;
        let options = self.merge_options;
        let contents = parent_contents(source_facts, style, options);
        let mut best: Option<FoundTarget> = None;
        let mut best_score: u32 = 0;
        let mut i: usize = 0;
        while i < targets.len()
            invariant
                i <= targets.len(),
                facts.wf(),
                all_facts_ok(self@, facts@),
                facts@.contains_key(source@),
                sv == facts@[source@],
                sv == source_facts@,
                all == views(targets@),
                all_known(all, facts@, self@.options),
                style == self.conflict_marker_style,
                options == self.merge_options,
                contents_match(contents@, sv, style, options),
                match best_target(self@, facts@, source@, all, i as int) {
                    None => best is None,
                    Some(place) => {
                        &&& best is Some
                        &&& 0 <= place < i
                        &&& best->0.place == place
                        &&& best->0.records == rename_records(self@, sv, facts@[all[place]])
                        &&& best_score == rename_score(self@, sv, facts@[all[place]])
                    },
                },
            decreases targets.len() - i,
        {
            assert(all[i as int] == targets@[i as int]@);
            let target = facts_of(facts, targets[i].as_str());
            if source_facts.valid && target.valid {
                if let Some(content) = snapshot_blob(target, options) {
                    let (records, score) = score_target(&contents, target, &content, style, options, Ghost(sv));
                    let better: bool = match best {
                        None => true,
                        Some(_) => score > best_score,
                    };
                    if records > 0 && better {
                        best = Some(FoundTarget { place: i, records });
                        best_score = score;
                    }
                }
            }
            i += 1;
        }
        best
    }

    /// The entry of a file renamed or copied from a source.
    pub(crate) fn renamed_stats(&self, source_facts: &PathFacts, disk: &Option<Vec<u8>>, source: &String) -> (r: FileDiffStats)
        requires
            facts_ok(source_facts@, copy_trees(self@)),
        ensures
            r@ == rename_entry(
                diff_against(self@, source_facts@, crate::wc::vec_view(*disk)),
                source@,
            ),
    {
        let mut stats = match diff_single_file(
            &source_facts.parent_labeled,
            as_content(disk),
            self.conflict_marker_style,
            self.merge_options,
        ) {
            Some(stats) => stats,
            None => FileDiffStats::default(),
        };
        stats.kind = FileChangeKind::Modified;
        stats.content_hash = None;
        stats.renamed_from = Some(source.clone());
        stats
    }
}

/// Pairs deleted files with arrived ones, mirroring jj's copy detection: source content in
/// a parent tree vs target content in the working copy, at >= 50% similarity. A pair
/// becomes one rename target diffed against the source's parent content, and the source's
/// delete entry is suppressed. The sources of which the delete goes without a rename, as
/// several parents yield the record, are listed.
pub fn pair_renames(staging: &mut Staging, state: &DiffState, facts: &FileTable<PathFacts>)
    requires
        old(staging).wf(),
        state.wf(),
        facts.wf(),
        all_facts_ok(state@, facts@),
        needed_for_renames(state@, old(staging)@.entries).subset_of(facts@.dom()),
    ensures
        final(staging).wf(),
        final(staging)@ == (StagingView {
            entries: with_renames(state@, facts@, old(staging)@.entries),
            dropped: dropped_sources(state@, facts@, old(staging)@.entries),
            ..old(staging)@
        }),
{
    let ghost start = *staging;
    proof {
        if with_role(state@, start@.entries, Role::Arrived) == Set::<Seq<char>>::empty() {
        } else {
            assert forall|p: Seq<char>| with_role(state@, start@.entries, Role::Arrived).contains(p) implies
                facts@.dom().contains(p) by {
                assert(needed_for_renames(state@, start@.entries).contains(p));
            }
        }
    }
    let mut free = state.rename_targets_in_order(staging, facts);
    assert(views(free@).len() == free@.len());
    staging.dropped = Vec::new();
    assert(views(staging.dropped@) =~= Seq::empty());
    if free.len() == 0 {
        return ;
    }
    let sources = sort_set(state.paths_with(staging, Role::Deleted));
    let ghost all = views(sources@);
    let ghost first = Pairing { free: views(free@), entries: start@.entries, dropped: Seq::empty() };
    proof {
        assert(with_role(state@, start@.entries, Role::Arrived).contains(free@[0]@));
        assert forall|i: int| 0 <= i < all.len() implies facts@.contains_key(#[trigger] all[i]) by {
            assert(all.contains(all[i]));
            assert(all.to_set().contains(all[i]));
            assert(needed_for_renames(state@, start@.entries).contains(all[i]));
        }
        assert forall|i: int| 0 <= i < views(free@).len() implies facts@.contains_key(#[trigger] views(free@)[i])
            && has_content(facts@[views(free@)[i]], state@.options) by {
            assert(views(free@)[i] == free@[i]@);
        }
    }
    let mut i: usize = 0;
    while i < sources.len()
        invariant
            i <= sources.len(),
            staging.wf(),
            state.wf(),
            facts.wf(),
            all_facts_ok(state@, facts@),
            all == views(sources@),
            forall|k: int| 0 <= k < all.len() ==> facts@.contains_key(#[trigger] all[k]),
            all_known(views(free@), facts@, state@.options),
            staging.writes == start.writes,
            staging.derived == start.derived,
            staging.overrides == start.overrides,
            paired_sources(state@, facts@, first, all.take(i as int)) == (Pairing {
                free: views(free@),
                entries: staging@.entries,
                dropped: staging@.dropped,
            }),
        decreases sources.len() - i,
    {
        let source = &sources[i];
        let ghost before = views(free@);
        let ghost entries = staging@.entries;
        proof {
            assert(all[i as int] == source@);
            assert(all.take(i + 1).drop_last() =~= all.take(i as int));
            assert(all.take(i + 1).last() == source@);
        }
        if let Some(FoundTarget { place, records }) = state.find_target(facts, source.as_str(), &free) {
            let target = free.swap_remove(place);
            proof {
                assert(before[place as int] == target@);
                assert(views(free@) =~= before.update(place as int, before.last()).drop_last());
                assert forall|k: int| 0 <= k < views(free@).len() implies facts@.contains_key(
                    #[trigger] views(free@)[k],
                ) && has_content(facts@[views(free@)[k]], state@.options) by {
                    if k == place {
                        assert(views(free@)[k] == before[before.len() - 1]);
                    } else {
                        assert(views(free@)[k] == before[k]);
                    }
                }
            }
            if records < 2 {
                let source_facts = facts_of(facts, source.as_str());
                let target_facts = facts_of(facts, target.as_str());
                let stats = state.renamed_stats(source_facts, &target_facts.disk, source);
                staging.entries.insert(target, Some(stats));
            } else {
                let name = source.clone();
                let ghost list = staging.dropped@;
                staging.dropped.push(name);
                proof {
                    lemma_views_push(list, name);
                }
            }
            staging.entries.insert(source.clone(), None);
        }
        i += 1;
    }
    assert(all.take(i as int) =~= all);
}

} // verus!
