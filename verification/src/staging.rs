//! Incremental diffs: what changed paths do to the overlay.
//!
//! Per-path results are staged first. Conflicted paths that a writing snapshot reshapes,
//! renames and copies are then worked into the staged entries, and in the end these go
//! into the overlay.

use crate::conflicts::{ConflictMarkerStyle, MergeOptions};
use crate::facts::{
    copy_count, copy_record_parents, facts_ok, lookup_ok, record_count, rename_record_parents, source_visible_on_disk, tree_entry, visible_on_disk, FactsView,
    PathFacts,
};
use crate::stats::{blank_stats, FileChangeKind, FileDiffStats, FileStats};
use crate::strings::{str_eq, views};
use crate::table::FileTable;
use crate::wc::{
    as_content, derived_view, diff_single_file, diff_wc_values, disk_diff, same_value, snapshot_of,
    synthetic_wc_value, values_diff, WcEntry, WcEntryView, WcValue, WcView,
};
use vstd::prelude::*;

verus! {

/// The diff of a working copy: the stats of the last full diff, and an overlay over them
/// from disk reads.
pub struct DiffState {
    /// Per-file stats from the last full diff (parent tree vs working-copy commit tree).
    pub base_file_stats: FileTable<FileDiffStats>,
    /// `Some(stats)` overrides a base entry; `None` means the file matches the parent.
    pub overlay: FileTable<Option<FileDiffStats>>,
    pub conflict_marker_style: ConflictMarkerStyle,
    pub merge_options: MergeOptions,
    /// The number of parents of the working-copy commit, where they could be loaded.
    pub parent_count: usize,
    /// The tree ids of the working-copy commit: one, or the terms of a merge of trees.
    pub commit_tree_ids: Vec<Vec<u8>>,
    /// Paths that are conflicted in the working-copy commit.
    pub conflicted_paths: Vec<String>,
    /// Deleted files without an entry of their own, and without a file renamed from them:
    /// several parents yielded the record of a rename, which cancelled it and dropped the
    /// delete.
    pub dropped: Vec<String>,
}

/// What the diff of a working copy says.
pub struct DiffStateView {
    pub base: Map<Seq<char>, FileStats>,
    pub overlay: Map<Seq<char>, Option<FileStats>>,
    pub style: ConflictMarkerStyle,
    pub options: MergeOptions,
    pub parents: nat,
    pub terms: Seq<Seq<u8>>,
    pub conflicted: Seq<Seq<char>>,
    pub dropped: Seq<Seq<char>>,
}

impl View for DiffState {
    type V = DiffStateView;

    open spec fn view(&self) -> DiffStateView {
        DiffStateView {
            base: self.base_file_stats@,
            overlay: self.overlay@,
            style: self.conflict_marker_style,
            options: self.merge_options,
            parents: self.parent_count as nat,
            terms: crate::conflicts::contents_view(self.commit_tree_ids@),
            conflicted: views(self.conflicted_paths@),
            dropped: views(self.dropped@),
        }
    }
}

impl DiffState {
    /// The tables are in shape, and the tree ids are those of a merge.
    pub open spec fn wf(&self) -> bool {
        &&& self.base_file_stats.wf()
        &&& self.overlay.wf()
        &&& self.commit_tree_ids@.len() % 2 == 1
        &&& self.commit_tree_ids@.len() <= i32::MAX
    }
}

/// The number of trees that copies are looked for in: the parents' trees, or the one
/// parent tree where the parents could not be loaded.
pub open spec fn copy_trees(state: DiffStateView) -> nat {
    if state.parents == 0 {
        1
    } else {
        state.parents
    }
}

/// All facts are in shape.
pub open spec fn all_facts_ok(state: DiffStateView, facts: Map<Seq<char>, FactsView>) -> bool {
    forall|path: Seq<char>| #[trigger] facts.contains_key(path) ==> facts_ok(facts[path], copy_trees(state))
}

/// What a batch of changed paths has come to so far.
pub struct Staging {
    /// The new entry of each path that has one.
    pub entries: FileTable<Option<FileDiffStats>>,
    /// Whether the next snapshot would write a new tree.
    pub writes: bool,
    /// Paths whose entry was derived from disk.
    pub derived: FileTable<bool>,
    /// Paths whose new value is resolved or absent: a snapshot applies these alike to
    /// every term of a merge of trees.
    pub overrides: FileTable<bool>,
    /// Rename sources whose delete was dropped without a rename.
    pub dropped: Vec<String>,
}

/// What a staged batch says.
#[verifier::ext_equal]
pub struct StagingView {
    pub entries: Map<Seq<char>, Option<FileStats>>,
    pub writes: bool,
    pub derived: Set<Seq<char>>,
    pub overrides: Set<Seq<char>>,
    pub dropped: Seq<Seq<char>>,
}

impl View for Staging {
    type V = StagingView;

    open spec fn view(&self) -> StagingView {
        StagingView {
            entries: self.entries@,
            writes: self.writes,
            derived: self.derived@.dom(),
            overrides: self.overrides@.dom(),
            dropped: views(self.dropped@),
        }
    }
}

/// Nothing staged.
pub open spec fn nothing_staged() -> StagingView {
    StagingView {
        entries: Map::empty(),
        writes: false,
        derived: Set::empty(),
        overrides: Set::empty(),
        dropped: Seq::empty(),
    }
}

impl Staging {
    pub open spec fn wf(&self) -> bool {
        &&& self.entries.wf()
        &&& self.derived.wf()
        &&& self.overrides.wf()
    }

    /// Nothing staged.
    pub fn new() -> (r: Self)
        ensures
            r.wf(),
            r@ == nothing_staged(),
    {
        let r = Staging {
            entries: FileTable::new(),
            writes: false,
            derived: FileTable::new(),
            overrides: FileTable::new(),
            dropped: Vec::new(),
        };
        assert(views(r.dropped@) =~= Seq::empty());
        assert(r.derived@.dom() =~= Set::empty());
        assert(r.overrides@.dom() =~= Set::empty());
        r
    }
}

/// The path that the base has a file renamed from.
pub open spec fn base_source(state: DiffStateView, path: Seq<char>) -> Option<Seq<char>> {
    if state.base.contains_key(path) {
        state.base[path].renamed_from
    } else {
        None
    }
}

/// The files that the base or the overlay has renamed from a path.
pub open spec fn targets_of(state: DiffStateView, source: Seq<char>) -> Set<Seq<char>> {
    Set::new(
        |path: Seq<char>|
            (state.base.contains_key(path) && state.base[path].renamed_from == Some(source)) || (
            state.overlay.contains_key(path) && state.overlay[path] is Some
                && state.overlay[path]->0.renamed_from == Some(source)),
    )
}

/// The paths that must be known before a changed path can be staged: itself, the source
/// that the base has it renamed from, and the files that were renamed from either.
pub open spec fn needed_for(state: DiffStateView, path: Seq<char>) -> Set<Seq<char>> {
    Set::new(
        |p: Seq<char>|
            p == path || base_source(state, path) == Some(p) || targets_of(state, path).contains(p) || (base_source(
                state,
                path,
            ) is Some && targets_of(state, base_source(state, path)->0).contains(p)),
    )
}

/// What has become of a rename that the base recorded.
pub enum Premise {
    /// The path is a file like any other: nothing was recorded, the source is visible again
    /// and the file no copy of it, or several parents yield a record, which cancels them.
    Plain,
    /// The file still counts as renamed from the source, or as a copy of it.
    Kept(Seq<char>),
    /// No parent yields the record any more: the source's delete comes back.
    Void(Seq<char>),
}

/// Whether a file counts as a copy of a source that is visible: just one parent yields the
/// record.
pub open spec fn is_copy(state: DiffStateView, source: FactsView, target: FactsView) -> bool {
    copy_count(source, target, state.style, state.options) == 1
}

/// What has become of the rename that the base recorded for a path.
pub open spec fn premise(state: DiffStateView, facts: Map<Seq<char>, FactsView>, path: Seq<char>) -> Premise {
    match base_source(state, path) {
        Some(source) => if visible_on_disk(facts[source]) {
            if is_copy(state, facts[source], facts[path]) {
                Premise::Kept(source)
            } else {
                Premise::Plain
            }
        } else {
            let records = record_count(facts[source], facts[path], state.style, state.options);
            if records == 1 {
                Premise::Kept(source)
            } else if records == 0 {
                Premise::Void(source)
            } else {
                Premise::Plain
            }
        },
        None => Premise::Plain,
    }
}

/// The entry of a file that still counts as renamed: a file like its source is one
/// changed file all the same.
pub open spec fn kept_entry(diff: Option<FileStats>, source: Seq<char>) -> Option<FileStats> {
    match diff {
        None => Some(FileStats { renamed_from: Some(source), ..blank_stats() }),
        Some(stats) => if stats.kind == FileChangeKind::Modified {
            Some(FileStats { renamed_from: Some(source), content_hash: None, ..stats })
        } else {
            Some(stats)
        },
    }
}

/// The entry of a path that is gone from disk as far as jj can see.
pub open spec fn gone_entry(state: DiffStateView, facts: FactsView) -> Option<FileStats> {
    values_diff(
        tree_entry(facts.parent),
        derived_view(WcView::Absent),
        state.style,
        state.options,
    )
}

/// Whether no file counts as renamed from a source any more, of all that were.
pub open spec fn is_deserted(state: DiffStateView, facts: Map<Seq<char>, FactsView>, source: Seq<char>) -> bool {
    forall|target: Seq<char>| #[trigger]
        targets_of(state, source).contains(target) ==> premise(state, facts, target) == Premise::Void(source)
}

/// The entry of a source that is out of sight: its delete is part of the renames from it,
/// and comes back once none of them stands.
pub open spec fn source_entry(
    state: DiffStateView,
    facts: Map<Seq<char>, FactsView>,
    source: Seq<char>,
) -> Option<FileStats> {
    if is_deserted(state, facts, source) {
        gone_entry(state, facts[source])
    } else {
        None
    }
}

/// The value that the next snapshot would record.
pub open spec fn next_value(state: DiffStateView, facts: FactsView, visible: bool) -> WcEntryView {
    snapshot_of(tree_entry(facts.commit), facts.disk, facts.executable, visible, state.options)
}

/// The diff of the file on disk against a path of the parent tree.
pub open spec fn diff_against(state: DiffStateView, parent: FactsView, disk: Option<Seq<u8>>) -> Option<FileStats> {
    disk_diff(parent.parent_labeled, disk, state.style, state.options)
}

/// The entry of a file that was renamed from a path which is visible again: it is a copy,
/// or a file like any other.
pub open spec fn target_entry(
    state: DiffStateView,
    source: FactsView,
    target: FactsView,
    source_path: Seq<char>,
) -> Option<FileStats> {
    if is_copy(state, source, target) {
        kept_entry(diff_against(state, source, target.disk), source_path)
    } else {
        values_diff(
            tree_entry(target.parent),
            next_value(state, target, target.not_ignored),
            state.style,
            state.options,
        )
    }
}

/// The entries of the files that were renamed from a path which is visible again.
pub open spec fn left_targets(
    state: DiffStateView,
    facts: Map<Seq<char>, FactsView>,
    source: Seq<char>,
) -> Map<Seq<char>, Option<FileStats>> {
    Map::new(
        |path: Seq<char>| targets_of(state, source).contains(path) && facts[path].valid,
        |path: Seq<char>| target_entry(state, facts[source], facts[path], source),
    )
}

/// The own entry of a changed path.
pub open spec fn own_entry(
    state: DiffStateView,
    facts: Map<Seq<char>, FactsView>,
    path: Seq<char>,
) -> Option<FileStats> {
    let f = facts[path];
    if targets_of(state, path) != Set::<Seq<char>>::empty() && !visible_on_disk(f) {
        source_entry(state, facts, path)
    } else {
        match premise(state, facts, path) {
            Premise::Kept(source) => kept_entry(diff_against(state, facts[source], f.disk), source),
            _ => values_diff(
                tree_entry(f.parent),
                next_value(state, f, f.not_ignored),
                state.style,
                state.options,
            ),
        }
    }
}

/// The path that the entry of a changed path is computed from.
pub open spec fn lookup_path(state: DiffStateView, facts: Map<Seq<char>, FactsView>, path: Seq<char>) -> Seq<char> {
    match premise(state, facts, path) {
        Premise::Kept(source) => source,
        _ => path,
    }
}

/// The staged batch once it is noted what the next snapshot would do with a path.
pub open spec fn noted(
    staging: StagingView,
    f: FactsView,
    path: Seq<char>,
    next: WcEntryView,
    kept: bool,
) -> StagingView {
    let changes = f.valid && !same_value(next, tree_entry(f.commit));
    StagingView {
        writes: staging.writes || changes,
        derived: if kept || (f.valid && next.raw is None) {
            staging.derived.insert(path)
        } else {
            staging.derived
        },
        overrides: if changes && !(next.value is Conflict) {
            staging.overrides.insert(path)
        } else {
            staging.overrides
        },
        ..staging
    }
}

/// The staged batch after one more changed path.
pub open spec fn staged_path(
    state: DiffStateView,
    facts: Map<Seq<char>, FactsView>,
    staging: StagingView,
    path: Seq<char>,
) -> StagingView {
    let f = facts[path];
    if !facts[lookup_path(state, facts, path)].valid {
        staging
    } else {
        let kept = premise(state, facts, path) is Kept;
        let with_source = match premise(state, facts, path) {
            Premise::Void(source) => if facts[source].valid {
                staging.entries.insert(source, source_entry(state, facts, source))
            } else {
                staging.entries
            },
            _ => staging.entries,
        };
        let with_targets = if visible_on_disk(f) {
            with_source.union_prefer_right(left_targets(state, facts, path))
        } else {
            with_source
        };
        StagingView {
            entries: with_targets.insert(path, own_entry(state, facts, path)),
            ..noted(staging, f, path, next_value(state, f, kept || f.not_ignored), kept)
        }
    }
}

/// The batch after all of a list of changed paths.
pub open spec fn staged_batch(
    state: DiffStateView,
    facts: Map<Seq<char>, FactsView>,
    changed: Seq<Seq<char>>,
) -> StagingView
    decreases changed.len(),
{
    if changed.len() == 0 {
        nothing_staged()
    } else {
        staged_path(state, facts, staged_batch(state, facts, changed.drop_last()), changed.last())
    }
}

/// What has become of the rename that the base recorded for a path.
enum RenamePremise {
    Plain,
    Kept(String),
    Void(String),
}

spec fn premise_view(premise: RenamePremise) -> Premise {
    match premise {
        RenamePremise::Plain => Premise::Plain,
        RenamePremise::Kept(source) => Premise::Kept(source@),
        RenamePremise::Void(source) => Premise::Void(source@),
    }
}

/// Whether stats say that the file was renamed from a path.
fn is_renamed_from(stats: &FileDiffStats, source: &str) -> (r: bool)
    ensures
        r == (stats@.renamed_from == Some(source@)),
{
    match &stats.renamed_from {
        Some(from) => str_eq(from.as_str(), source),
        None => false,
    }
}

pub(crate) proof fn lemma_views_push(list: Seq<String>, s: String)
    ensures
        views(list.push(s)) == views(list).push(s@),
{
    assert(views(list.push(s)) =~= views(list).push(s@));
}

impl DiffState {
    /// The files that the base or the overlay has renamed from a path.
    fn rename_targets(&self, source: &str) -> (r: Vec<String>)
        requires
            self.wf(),
        ensures
            forall|p: Seq<char>| #[trigger] views(r@).contains(p) <==> targets_of(self@, source@).contains(p),
    {
        let mut out: Vec<String> = Vec::new();
        let n: usize = self.base_file_stats.len();
        let mut i: usize = 0;
        let ghost base = self.base_file_stats.paths();
        let ghost over = self.overlay.paths();
        let ghost in_base = |p: Seq<char>| self@.base.contains_key(p) && self@.base[p].renamed_from == Some(source@);
        let ghost in_over = |p: Seq<char>|
            self@.overlay.contains_key(p) && self@.overlay[p] is Some && self@.overlay[p]->0.renamed_from == Some(
                source@,
            );
        proof {
            self.base_file_stats.paths_are_domain();
            self.overlay.paths_are_domain();
        }
        while i < n
            invariant
                self.wf(),
                i <= n == base.len(),
                base == self.base_file_stats.paths(),
                in_base == (|p: Seq<char>|
                    self@.base.contains_key(p) && self@.base[p].renamed_from == Some(source@)),
                forall|p: Seq<char>| #[trigger]
                    views(out@).contains(p) <==> base.take(i as int).contains(p) && in_base(p),
            decreases n - i,
        {
            let ghost before = out@;
            let path = self.base_file_stats.path_at(i);
            let hit: bool = is_renamed_from(self.base_file_stats.value_at(i), source);
            if hit {
                let name = path.clone();
                out.push(name);
            }
            proof {
                assert(base.take(i + 1) =~= base.take(i as int).push(path@));
                assert(in_base(path@) == hit);
                assert forall|p: Seq<char>| #[trigger] views(out@).contains(p) <==> base.take(i + 1).contains(p)
                    && in_base(p) by {
                    lemma_contains_push(base.take(i as int), path@, p);
                    if hit {
                        lemma_views_push(before, out@.last());
                        assert(out@ =~= before.push(out@.last()));
                        lemma_contains_push(views(before), path@, p);
                    }
                }
            }
            i += 1;
        }
        assert(base.take(n as int) =~= base);
        let m: usize = self.overlay.len();
        let mut j: usize = 0;
        while j < m
            invariant
                self.wf(),
                j <= m == over.len(),
                over == self.overlay.paths(),
                in_over == (|p: Seq<char>|
                    self@.overlay.contains_key(p) && self@.overlay[p] is Some && self@.overlay[p]->0.renamed_from
                        == Some(source@)),
                forall|p: Seq<char>| #[trigger]
                    views(out@).contains(p) <==> (base.contains(p) && in_base(p)) || (over.take(j as int).contains(p)
                        && in_over(p)),
            decreases m - j,
        {
            let ghost before = out@;
            let path = self.overlay.path_at(j);
            let hit: bool = match self.overlay.value_at(j) {
                Some(stats) => is_renamed_from(stats, source),
                None => false,
            };
            if hit {
                let name = path.clone();
                out.push(name);
            }
            proof {
                assert(over.take(j + 1) =~= over.take(j as int).push(path@));
                assert(in_over(path@) == hit);
                assert forall|p: Seq<char>| #[trigger] views(out@).contains(p) <==> (base.contains(p) && in_base(p))
                    || (over.take(j + 1).contains(p) && in_over(p)) by {
                    lemma_contains_push(over.take(j as int), path@, p);
                    if hit {
                        lemma_views_push(before, out@.last());
                        assert(out@ =~= before.push(out@.last()));
                        lemma_contains_push(views(before), path@, p);
                    }
                }
            }
            j += 1;
        }
        assert(over.take(m as int) =~= over);
        out
    }
}

/// The facts of a path.
pub(crate) fn facts_of<'a>(facts: &'a FileTable<PathFacts>, path: &str) -> (r: &'a PathFacts)
    requires
        facts.wf(),
        facts@.contains_key(path@),
    ensures
        r@ == facts@[path@],
{
    match facts.get(path) {
        Some(f) => f,
        None => {
            assert(false);
            facts.value_at(0)
        },
    }
}

impl DiffState {
    /// What has become of the rename that the base recorded for a path.
    fn rename_premise(&self, facts: &FileTable<PathFacts>, path: &str) -> (r: RenamePremise)
        requires
            self.wf(),
            facts.wf(),
            all_facts_ok(self@, facts@),
            facts@.contains_key(path@),
            base_source(self@, path@) is Some ==> facts@.contains_key(base_source(self@, path@)->0),
        ensures
            premise_view(r) == premise(self@, facts@, path@),
    {
        let source = match self.base_file_stats.get(path) {
            Some(stats) => match &stats.renamed_from {
                Some(source) => source.clone(),
                None => {
                    return RenamePremise::Plain;
                },
            },
            None => {
                return RenamePremise::Plain;
            },
        };
        let source_facts = facts_of(facts, source.as_str());
        if source_visible_on_disk(source_facts) {
            let copies: usize = copy_record_parents(
                source_facts,
                facts_of(facts, path),
                self.conflict_marker_style,
                self.merge_options,
            );
            return if copies == 1 {
                RenamePremise::Kept(source)
            } else {
                RenamePremise::Plain
            };
        }
        let records: usize = rename_record_parents(
            source_facts,
            facts_of(facts, path),
            self.conflict_marker_style,
            self.merge_options,
        );
        if records == 1 {
            RenamePremise::Kept(source)
        } else if records == 0 {
            RenamePremise::Void(source)
        } else {
            RenamePremise::Plain
        }
    }

    /// The value that the next snapshot would record for a path.
    fn next_snapshot(&self, f: &PathFacts, visible: bool) -> (r: WcEntry)
        requires
            lookup_ok(f@.commit),
        ensures
            r.wf(),
            r@ == next_value(self@, f@, visible),
    {
        synthetic_wc_value(
            f.commit.tree_wc_value(),
            as_content(&f.disk),
            f.executable,
            visible,
            self.merge_options,
        )
    }

    /// The entry of a file that still counts as renamed from a source.
    fn kept_rename(&self, source: String, source_facts: &PathFacts, f: &PathFacts) -> (r: Option<FileDiffStats>)
        requires
            facts_ok(source_facts@, copy_trees(self@)),
        ensures
            r.deep_view() == kept_entry(diff_against(self@, source_facts@, f@.disk), source@),
    {
        let result = diff_single_file(
            &source_facts.parent_labeled,
            as_content(&f.disk),
            self.conflict_marker_style,
            self.merge_options,
        );
        match result {
            None => {
                let mut stats = FileDiffStats::default();
                stats.renamed_from = Some(source);
                Some(stats)
            },
            Some(stats) => {
                let mut stats = stats;
                if stats.kind == FileChangeKind::Modified {
                    stats.renamed_from = Some(source);
                    stats.content_hash = None;
                }
                Some(stats)
            },
        }
    }
}

impl DiffState {
    /// The entry of a file that was renamed from a path which is visible again.
    fn left_target(&self, source: &str, source_facts: &PathFacts, f: &PathFacts) -> (r: Option<FileDiffStats>)
        requires
            facts_ok(source_facts@, copy_trees(self@)),
            facts_ok(f@, copy_trees(self@)),
        ensures
            r.deep_view() == target_entry(self@, source_facts@, f@, source@),
    {
        let copies: usize = copy_record_parents(
            source_facts,
            f,
            self.conflict_marker_style,
            self.merge_options,
        );
        if copies == 1 {
            self.kept_rename(source.to_owned(), source_facts, f)
        } else {
            let synthetic = self.next_snapshot(f, f.not_ignored);
            diff_wc_values(
                &f.parent.tree_wc_value(),
                &synthetic,
                self.conflict_marker_style,
                self.merge_options,
            )
        }
    }

    /// Whether a file no longer counts as renamed from a source that the base or the overlay
    /// has it renamed from.
    fn has_left(&self, facts: &FileTable<PathFacts>, source: &str, target: &str) -> (r: bool)
        requires
            self.wf(),
            facts.wf(),
            all_facts_ok(self@, facts@),
            facts@.contains_key(source@),
            facts@.contains_key(target@),
        ensures
            r == (premise(self@, facts@, target@) == Premise::Void(source@)),
    {
        let recorded: bool = match self.base_file_stats.get(target) {
            Some(stats) => is_renamed_from(stats, source),
            None => false,
        };
        if !recorded {
            return false;
        }
        match self.rename_premise(facts, target) {
            RenamePremise::Void(_) => true,
            _ => false,
        }
    }

    /// The entry of a source that is out of sight, given all files renamed from it.
    fn hidden_source(&self, facts: &FileTable<PathFacts>, targets: &Vec<String>, source: &str) -> (r: Option<
        FileDiffStats,
    >)
        requires
            self.wf(),
            facts.wf(),
            all_facts_ok(self@, facts@),
            forall|p: Seq<char>| #[trigger] views(targets@).contains(p) <==> targets_of(self@, source@).contains(p),
            targets_of(self@, source@).subset_of(facts@.dom()),
            facts@.contains_key(source@),
        ensures
            r.deep_view() == source_entry(self@, facts@, source@),
    {
        let mut i: usize = 0;
        while i < targets.len()
            invariant
                i <= targets.len(),
                self.wf(),
                facts.wf(),
                all_facts_ok(self@, facts@),
                forall|p: Seq<char>| #[trigger]
                    views(targets@).contains(p) <==> targets_of(self@, source@).contains(p),
                targets_of(self@, source@).subset_of(facts@.dom()),
                facts@.contains_key(source@),
                forall|j: int|
                    0 <= j < i ==> premise(self@, facts@, #[trigger] views(targets@)[j]) == Premise::Void(source@),
            decreases targets.len() - i,
        {
            let target = targets[i].as_str();
            proof {
                assert(views(targets@)[i as int] == target@);
                assert(views(targets@).contains(target@));
            }
            if !self.has_left(facts, source, target) {
                return None;
            }
            i += 1;
        }
        proof {
            assert forall|p: Seq<char>| #[trigger] targets_of(self@, source@).contains(p) implies premise(
                self@,
                facts@,
                p,
            ) == Premise::Void(source@) by {
                assert(views(targets@).contains(p));
                let j = choose|j: int| 0 <= j < views(targets@).len() && views(targets@)[j] == p;
                assert(premise(self@, facts@, views(targets@)[j]) == Premise::Void(source@));
            }
        }
        let f = facts_of(facts, source);
        let parent_value = f.parent.tree_wc_value();
        let commit_entry = f.commit.tree_wc_value();
        let synthetic = synthetic_wc_value(commit_entry, None, false, false, self.merge_options);
        diff_wc_values(&parent_value, &synthetic, self.conflict_marker_style, self.merge_options)
    }
}

impl Staging {
    /// Stages the files that were renamed from a path which is visible again.
    fn stage_targets(
        &mut self,
        state: &DiffState,
        facts: &FileTable<PathFacts>,
        targets: &Vec<String>,
        source: &str,
    )
        requires
            old(self).wf(),
            state.wf(),
            facts.wf(),
            all_facts_ok(state@, facts@),
            forall|p: Seq<char>| #[trigger] views(targets@).contains(p) <==> targets_of(state@, source@).contains(p),
            targets_of(state@, source@).subset_of(facts@.dom()),
            facts@.contains_key(source@),
        ensures
            final(self).wf(),
            final(self)@ == (StagingView {
                entries: old(self)@.entries.union_prefer_right(left_targets(state@, facts@, source@)),
                ..old(self)@
            }),
    {
        let ghost plain = left_targets(state@, facts@, source@);
        let ghost start = *self;
        let source_facts = facts_of(facts, source);
        let mut i: usize = 0;
        assert(self@.entries =~= start@.entries.union_prefer_right(
            plain.restrict(views(targets@).take(0).to_set()),
        ));
        while i < targets.len()
            invariant
                i <= targets.len(),
                self.wf(),
                state.wf(),
                facts.wf(),
                all_facts_ok(state@, facts@),
                forall|p: Seq<char>| #[trigger]
                    views(targets@).contains(p) <==> targets_of(state@, source@).contains(p),
                targets_of(state@, source@).subset_of(facts@.dom()),
                facts@.contains_key(source@),
                source_facts@ == facts@[source@],
                plain == left_targets(state@, facts@, source@),
                self.writes == start.writes,
                self.derived == start.derived,
                self.overrides == start.overrides,
                self.dropped == start.dropped,
                self@.entries == start@.entries.union_prefer_right(
                    plain.restrict(views(targets@).take(i as int).to_set()),
                ),
            decreases targets.len() - i,
        {
            let target = targets[i].clone();
            let ghost before = views(targets@).take(i as int);
            proof {
                assert(views(targets@)[i as int] == target@);
                assert(views(targets@).contains(target@));
                assert(views(targets@).take(i + 1) =~= before.push(target@));
                before.lemma_push_to_set_commute(target@);
            }
            let f = facts_of(facts, target.as_str());
            let ghost entries = self@.entries;
            if f.valid {
                let entry = state.left_target(source, source_facts, f);
                self.entries.insert(target, entry);
            }
            assert(self@.entries =~= start@.entries.union_prefer_right(
                plain.restrict(views(targets@).take(i + 1).to_set()),
            ));
            i += 1;
        }
        assert(views(targets@).take(i as int) =~= views(targets@));
        assert(plain.restrict(views(targets@).to_set()) =~= plain);
    }

    /// Stages a source that is out of sight.
    fn stage_source(&mut self, state: &DiffState, facts: &FileTable<PathFacts>, source: &String)
        requires
            old(self).wf(),
            state.wf(),
            facts.wf(),
            all_facts_ok(state@, facts@),
            targets_of(state@, source@).subset_of(facts@.dom()),
            facts@.contains_key(source@),
        ensures
            final(self).wf(),
            final(self)@ == (StagingView {
                entries: if facts@[source@].valid {
                    old(self)@.entries.insert(source@, source_entry(state@, facts@, source@))
                } else {
                    old(self)@.entries
                },
                ..old(self)@
            }),
    {
        if facts_of(facts, source.as_str()).valid {
            let targets = state.rename_targets(source.as_str());
            let entry = state.hidden_source(facts, &targets, source.as_str());
            self.entries.insert(source.clone(), entry);
        }
    }

    /// Notes what the next snapshot would do with a path.
    fn note_value(&mut self, f: &PathFacts, path: &str, synthetic: &WcEntry, kept: bool)
        requires
            old(self).wf(),
            lookup_ok(f@.commit),
        ensures
            final(self).wf(),
            final(self)@ == noted(old(self)@, f@, path@, synthetic@, kept),
    {
        let ghost start = self@;
        if f.valid {
            let commit_entry = f.commit.tree_wc_value();
            if !synthetic.same_value_as(&commit_entry) {
                self.writes = true;
                let conflicted: bool = match &synthetic.value {
                    WcValue::Conflict(_) => true,
                    _ => false,
                };
                if !conflicted {
                    self.overrides.insert(path.to_owned(), true);
                }
            }
            if synthetic.raw.is_none() {
                self.derived.insert(path.to_owned(), true);
            }
        }
        if kept {
            self.derived.insert(path.to_owned(), true);
        }
        assert(self@ =~= noted(start, f@, path@, synthetic@, kept));
    }

    /// Stages the files renamed from a path where the path is visible. Where it is not, and
    /// there are any, it gives the path's own entry.
    fn stage_visible_targets(
        &mut self,
        state: &DiffState,
        facts: &FileTable<PathFacts>,
        path: &str,
        visible: bool,
    ) -> (r: Option<Option<FileDiffStats>>)
        requires
            old(self).wf(),
            state.wf(),
            facts.wf(),
            all_facts_ok(state@, facts@),
            needed_for(state@, path@).subset_of(facts@.dom()),
        ensures
            final(self).wf(),
            r is Some == (targets_of(state@, path@) != Set::<Seq<char>>::empty() && !visible),
            r is Some ==> r->0.deep_view() == source_entry(state@, facts@, path@),
            final(self)@ == (StagingView {
                entries: if visible {
                    old(self)@.entries.union_prefer_right(left_targets(state@, facts@, path@))
                } else {
                    old(self)@.entries
                },
                ..old(self)@
            }),
    {
        let targets = state.rename_targets(path);
        let ghost all = targets_of(state@, path@);
        if targets.len() == 0 {
            proof {
                assert(all =~= Set::empty()) by {
                    assert forall|p: Seq<char>| !all.contains(p) by {
                        assert(!views(targets@).contains(p));
                    }
                }
                assert(left_targets(state@, facts@, path@) =~= Map::empty());
                assert(self@.entries.union_prefer_right(left_targets(state@, facts@, path@)) =~= self@.entries);
            }
            return None;
        }
        proof {
            assert(views(targets@).contains(views(targets@)[0]));
            assert(all.contains(views(targets@)[0]));
            assert forall|p: Seq<char>| all.contains(p) implies facts@.dom().contains(p) by {
                assert(needed_for(state@, path@).contains(p));
            }
            assert(needed_for(state@, path@).contains(path@));
        }
        if visible {
            self.stage_targets(state, facts, &targets, path);
            return None;
        }
        Some(state.hidden_source(facts, &targets, path))
    }

    /// Stages one changed path.
    ///
    /// - A file that the base has as renamed is diffed against its source, as long as the
    ///   source stays out of sight and exactly one parent still yields the record. Where
    ///   none does, for any file renamed from the source, its delete comes back. With a source in sight it is still
    ///   diffed against the source where exactly one parent yields the record of a copy.
    /// - Any other file is diffed as the value that the next snapshot would record, so
    ///   that ignored files without a tracked value stay invisible.
    /// - An event on the source of a rename is part of the rename while the source is out
    ///   of sight and the rename stands. Where it is visible again, every file renamed from it becomes a file
    ///   like any other, unless it counts as a copy.
    pub fn stage_path(&mut self, state: &DiffState, facts: &FileTable<PathFacts>, path: &str)
        requires
            old(self).wf(),
            state.wf(),
            facts.wf(),
            all_facts_ok(state@, facts@),
            needed_for(state@, path@).subset_of(facts@.dom()),
        ensures
            final(self).wf(),
            final(self)@ == staged_path(state@, facts@, old(self)@, path@),
    {
        let ghost start = self@;
        let ghost sv = state@;
        let ghost fv = facts@;
        assert(needed_for(sv, path@).contains(path@));
        let f = facts_of(facts, path);
        proof {
            if base_source(sv, path@) is Some {
                assert(needed_for(sv, path@).contains(base_source(sv, path@)->0));
            }
        }
        let premise = state.rename_premise(facts, path);
        let (kept, valid): (bool, bool) = match &premise {
            RenamePremise::Kept(source) => {
                assert(needed_for(sv, path@).contains(source@));
                (true, facts_of(facts, source.as_str()).valid)
            },
            _ => (false, f.valid),
        };
        if !valid {
            return ;
        }
        if let RenamePremise::Void(source) = &premise {
            assert(needed_for(sv, path@).contains(source@));
            assert forall|p: Seq<char>| targets_of(sv, source@).contains(p) implies fv.dom().contains(p) by {
                assert(needed_for(sv, path@).contains(p));
            }
            self.stage_source(state, facts, source);
        }
        let synthetic = state.next_snapshot(f, kept || f.not_ignored);
        self.note_value(f, path, &synthetic, kept);
        let entry = match premise {
            RenamePremise::Kept(source) => {
                let source_facts = facts_of(facts, source.as_str());
                state.kept_rename(source, source_facts, f)
            },
            _ => {
                let parent_value = f.parent.tree_wc_value();
                diff_wc_values(&parent_value, &synthetic, state.conflict_marker_style, state.merge_options)
            },
        };
        let ghost noted = self@;
        let visible: bool = source_visible_on_disk(f);
        let entry = match self.stage_visible_targets(state, facts, path, visible) {
            Some(hidden) => hidden,
            None => entry,
        };
        self.entries.insert(path.to_owned(), entry);
        proof {
            let goal = staged_path(sv, fv, start, path@);
            assert(entry.deep_view() == own_entry(sv, fv, path@));
            assert(self@.entries == goal.entries);
            assert(self@ =~= goal);
        }
    }
}

/// The paths that must be known before a list of changed paths can be staged.
pub open spec fn needed_for_all(state: DiffStateView, changed: Seq<Seq<char>>) -> Set<Seq<char>> {
    Set::new(|p: Seq<char>| exists|i: int| 0 <= i < changed.len() && needed_for(state, #[trigger] changed[i]).contains(p))
}

/// Stages a list of changed paths.
pub fn stage_changed(state: &DiffState, facts: &FileTable<PathFacts>, changed: &Vec<String>) -> (r: Staging)
    requires
        state.wf(),
        facts.wf(),
        all_facts_ok(state@, facts@),
        needed_for_all(state@, views(changed@)).subset_of(facts@.dom()),
    ensures
        r.wf(),
        r@ == staged_batch(state@, facts@, views(changed@)),
{
    let mut staging = Staging::new();
    let ghost all = views(changed@);
    let mut i: usize = 0;
    while i < changed.len()
        invariant
            i <= changed.len(),
            state.wf(),
            facts.wf(),
            all_facts_ok(state@, facts@),
            all == views(changed@),
            needed_for_all(state@, all).subset_of(facts@.dom()),
            staging.wf(),
            staging@ == staged_batch(state@, facts@, all.take(i as int)),
        decreases changed.len() - i,
    {
        proof {
            assert(all[i as int] == changed@[i as int]@);
            assert forall|p: Seq<char>| needed_for(state@, all[i as int]).contains(p) implies facts@.dom().contains(
                p,
            ) by {
                assert(needed_for_all(state@, all).contains(p));
            }
            assert(all.take(i + 1).drop_last() =~= all.take(i as int));
            assert(all.take(i + 1).last() == all[i as int]);
        }
        staging.stage_path(state, facts, changed[i].as_str());
        i += 1;
    }
    assert(all.take(i as int) =~= all);
    staging
}

/// The paths of which nothing is known yet, of those that a list of changed paths needs.
pub fn missing_for_changed(state: &DiffState, facts: &FileTable<PathFacts>, changed: &Vec<String>) -> (r: Vec<String>)
    requires
        state.wf(),
        facts.wf(),
    ensures
        forall|p: Seq<char>| #[trigger]
            views(r@).contains(p) <==> needed_for_all(state@, views(changed@)).contains(p) && !facts@.contains_key(p),
{
    let mut out: Vec<String> = Vec::new();
    let ghost all = views(changed@);
    let mut i: usize = 0;
    while i < changed.len()
        invariant
            i <= changed.len(),
            state.wf(),
            facts.wf(),
            all == views(changed@),
            forall|p: Seq<char>| #[trigger]
                views(out@).contains(p) <==> needed_for_all(state@, all.take(i as int)).contains(p)
                    && !facts@.contains_key(p),
        decreases changed.len() - i,
    {
        let path = &changed[i];
        let ghost before = views(out@);
        assert(all[i as int] == path@);
        push_missing(&mut out, facts, path.as_str());
        if let Some(stats) = state.base_file_stats.get(path.as_str()) {
            if let Some(source) = &stats.renamed_from {
                push_missing(&mut out, facts, source.as_str());
                push_missing_targets(&mut out, state, facts, source.as_str());
            }
        }
        push_missing_targets(&mut out, state, facts, path.as_str());
        proof {
            assert forall|p: Seq<char>| #[trigger]
                views(out@).contains(p) <==> needed_for_all(state@, all.take(i + 1)).contains(p)
                    && !facts@.contains_key(p) by {
                let now = all.take(i + 1);
                let was = all.take(i as int);
                if needed_for_all(state@, now).contains(p) {
                    let k = choose|k: int| 0 <= k < now.len() && needed_for(state@, #[trigger] now[k]).contains(p);
                    if k < i {
                        assert(was[k] == now[k]);
                        assert(needed_for_all(state@, was).contains(p));
                    }
                }
                if needed_for_all(state@, was).contains(p) {
                    let k = choose|k: int| 0 <= k < was.len() && needed_for(state@, #[trigger] was[k]).contains(p);
                    assert(now[k] == was[k]);
                }
                if needed_for(state@, path@).contains(p) {
                    assert(now[i as int] == path@);
                }
            }
        }
        i += 1;
    }
    assert(all.take(i as int) =~= all);
    out
}

/// Adds the files that were renamed from a source to a list where nothing is known of them.
fn push_missing_targets(out: &mut Vec<String>, state: &DiffState, facts: &FileTable<PathFacts>, source: &str)
    requires
        state.wf(),
        facts.wf(),
    ensures
        forall|p: Seq<char>| #[trigger]
            views(final(out)@).contains(p) <==> views(old(out)@).contains(p) || (targets_of(state@, source@).contains(p)
                && !facts@.contains_key(p)),
{
    let ghost start = views(out@);
    let targets = state.rename_targets(source);
    let mut j: usize = 0;
    while j < targets.len()
        invariant
            j <= targets.len(),
            facts.wf(),
            forall|p: Seq<char>| #[trigger]
                views(out@).contains(p) <==> start.contains(p) || (views(targets@).take(j as int).contains(p)
                    && !facts@.contains_key(p)),
        decreases targets.len() - j,
    {
        let ghost so_far = views(targets@).take(j as int);
        let ghost before = views(out@);
        push_missing(out, facts, targets[j].as_str());
        proof {
            assert(views(targets@)[j as int] == targets@[j as int]@);
            assert(views(targets@).take(j + 1) =~= so_far.push(targets@[j as int]@));
            assert forall|p: Seq<char>| #[trigger]
                views(out@).contains(p) <==> start.contains(p) || (views(targets@).take(j + 1).contains(p)
                    && !facts@.contains_key(p)) by {
                lemma_contains_push(so_far, targets@[j as int]@, p);
                assert(views(out@).contains(p) <==> before.contains(p) || (p == targets@[j as int]@
                    && !facts@.contains_key(p)));
            }
        }
        j += 1;
    }
    assert(views(targets@).take(j as int) =~= views(targets@));
}

/// Adds a path to a list where nothing is known of it.
pub(crate) fn push_missing(out: &mut Vec<String>, facts: &FileTable<PathFacts>, path: &str)
    requires
        facts.wf(),
    ensures
        forall|p: Seq<char>| #[trigger]
            views(final(out)@).contains(p) <==> views(old(out)@).contains(p) || (p == path@
                && !facts@.contains_key(p)),
{
    if !facts.contains(path) {
        let name = path.to_owned();
        let ghost before = out@;
        out.push(name);
        proof {
            lemma_views_push(before, name);
            assert forall|p: Seq<char>| #[trigger] views(out@).contains(p) <==> views(before).contains(p) || (p == path@
                && !facts@.contains_key(p)) by {
                lemma_contains_push(views(before), path@, p);
            }
        }
    }
}

/// What a list contains after one more item.
pub(crate) proof fn lemma_contains_push(list: Seq<Seq<char>>, item: Seq<char>, p: Seq<char>)
    ensures
        list.push(item).contains(p) <==> list.contains(p) || p == item,
{
    let more = list.push(item);
    if list.contains(p) {
        let i = choose|i: int| 0 <= i < list.len() && list[i] == p;
        assert(more[i] == p);
    }
    if p == item {
        assert(more[list.len() as int] == p);
    }
    if more.contains(p) && p != item {
        let i = choose|i: int| 0 <= i < more.len() && more[i] == p;
        assert(list[i] == p);
    }
}

} // verus!
