//! What the store and the disk say of one path.

use crate::conflicts::{contents_view, raw_view, ConflictMarkerStyle, MergeOptions, RawValue, TreeTermView};
use crate::similarity::{content_similarity, similarity, RENAME_SIMILARITY};
use crate::strings::bytes_eq;
use crate::wc::{
    as_content, content_of, derived_view, materialized_bytes, materialized_ok, opt_view, raw_entry, raw_wc_value,
    snapshot_of, synthetic_wc_value, vec_view, MaterializedValue, MaterializedView, WcEntry, WcEntryView, WcValue, WcView,
};
use jj_lib::repo_path::RepoPathBuf;
use vstd::prelude::*;
use vstd::slice::slice_to_vec;

verus! {

/// A path in a tree: its stored value, `None` where the lookup failed, and what that was
/// materialized to, `None` where that failed.
#[derive(Debug)]
pub struct TreeLookup {
    pub raw: Option<RawValue>,
    pub value: Option<MaterializedValue>,
}

/// What a lookup says.
pub struct LookupView {
    pub raw: Option<Seq<Option<TreeTermView>>>,
    pub value: Option<MaterializedView>,
}

impl View for TreeLookup {
    type V = LookupView;

    open spec fn view(&self) -> LookupView {
        LookupView {
            raw: match self.raw {
                Some(raw) => Some(raw_view(raw@)),
                None => None,
            },
            value: opt_view(self.value),
        }
    }
}

/// Whether a stored value says that nothing is there.
pub open spec fn raw_absent(raw: Seq<Option<TreeTermView>>) -> bool {
    raw.len() == 1 && raw[0] is None
}

/// The lookup found something.
pub open spec fn present(lookup: LookupView) -> bool {
    lookup.raw is Some && !raw_absent(lookup.raw->0)
}

/// The lookup found that nothing is there.
pub open spec fn absent(lookup: LookupView) -> bool {
    lookup.raw is Some && raw_absent(lookup.raw->0)
}

/// The snapshot-level entry of a path in a tree.
pub open spec fn tree_entry(lookup: LookupView) -> WcEntryView {
    match lookup.raw {
        Some(raw) => raw_entry(raw, lookup.value),
        None => derived_view(WcView::Absent),
    }
}

/// A lookup whose conflicts are in shape.
pub open spec fn lookup_ok(lookup: LookupView) -> bool {
    lookup.value is Some ==> materialized_ok(lookup.value->0)
}

impl TreeLookup {
    /// Whether the lookup found something.
    pub fn is_present(&self) -> (r: bool)
        ensures
            r == present(self@),
    {
        match &self.raw {
            Some(raw) => {
                let r: bool = raw.len() != 1 || raw[0].is_some();
                assert(raw@.len() == 1 ==> raw_view(raw@)[0] is Some == raw@[0] is Some);
                r
            },
            None => false,
        }
    }

    /// Whether the lookup found that nothing is there.
    pub fn is_absent(&self) -> (r: bool)
        ensures
            r == absent(self@),
    {
        self.raw.is_some() && !self.is_present()
    }

    /// Read a tree's value at a path as an entry.
    pub fn tree_wc_value(&self) -> (r: WcEntry)
        requires
            lookup_ok(self@),
        ensures
            r@ == tree_entry(self@),
            r.wf(),
    {
        match &self.raw {
            Some(raw) => raw_wc_value(raw, &self.value),
            None => WcEntry::derived(WcValue::Absent),
        }
    }
}

/// The byte content of a path in a tree, if it has any.
pub open spec fn lookup_content(
    lookup: LookupView,
    style: ConflictMarkerStyle,
    options: MergeOptions,
) -> Option<Seq<u8>> {
    match lookup.value {
        Some(value) => content_of(value, style, options),
        None => None,
    }
}

/// The byte content of a path in a tree: `None` where nothing could be materialized, and
/// for values without content.
pub fn materialized_content(lookup: &TreeLookup, style: ConflictMarkerStyle, options: MergeOptions) -> (r: Option<
    Vec<u8>,
>)
    requires
        lookup_ok(lookup@),
    ensures
        vec_view(r) == lookup_content(lookup@, style, options),
{
    match &lookup.value {
        Some(value) => materialized_bytes(value, style, options),
        None => None,
    }
}

/// What the store and the disk say of one path.
#[derive(Debug)]
pub struct PathFacts {
    /// Whether the path can name a file of the repo.
    pub valid: bool,
    /// The content on disk, where the file can be read.
    pub disk: Option<Vec<u8>>,
    /// Whether the file on disk is executable.
    pub executable: bool,
    /// Whether anything is on disk at the path.
    pub exists: bool,
    /// Whether the ignore rules let changes of the path through.
    pub not_ignored: bool,
    /// The path in the (merged) parent tree, materialized without labels.
    pub parent: TreeLookup,
    /// The path in the parent tree, materialized with that tree's labels.
    pub parent_labeled: Option<MaterializedValue>,
    /// The path in the working-copy commit's tree, materialized without labels.
    pub commit: TreeLookup,
    /// The path in each of the trees that copies are looked for in.
    pub parents: Vec<TreeLookup>,
}

/// What the facts say.
pub struct FactsView {
    pub valid: bool,
    pub disk: Option<Seq<u8>>,
    pub executable: bool,
    pub exists: bool,
    pub not_ignored: bool,
    pub parent: LookupView,
    pub parent_labeled: Option<MaterializedView>,
    pub commit: LookupView,
    pub parents: Seq<LookupView>,
}

impl DeepView for PathFacts {
    type V = FactsView;

    open spec fn deep_view(&self) -> FactsView {
        FactsView {
            valid: self.valid,
            disk: vec_view(self.disk),
            executable: self.executable,
            exists: self.exists,
            not_ignored: self.not_ignored,
            parent: self.parent@,
            parent_labeled: opt_view(self.parent_labeled),
            commit: self.commit@,
            parents: self.parents@.map_values(|lookup: TreeLookup| lookup@),
        }
    }
}

impl View for PathFacts {
    type V = FactsView;

    open spec fn view(&self) -> FactsView {
        self.deep_view()
    }
}

/// Whether a path can name a file of the repo: whether `jj_lib` takes it for one.
pub uninterp spec fn is_repo_path(path: Seq<char>) -> bool;

/// Calls `jj_lib::repo_path::RepoPathBuf::from_relative_path`. Whether it succeeds is a
/// function of the path alone.
#[verifier::external_body]
fn names_repo_path(path: &str) -> (r: bool)
    ensures
        r == is_repo_path(path@),
{
    RepoPathBuf::from_relative_path(path).is_ok()
}

/// What the disk and the ignore rules say of one path.
#[derive(Debug)]
pub struct DiskFacts {
    pub disk: Option<Vec<u8>>,
    pub executable: bool,
    pub exists: bool,
    pub not_ignored: bool,
}

/// What the trees of a repo say of one path.
#[derive(Debug)]
pub struct TreeFacts {
    pub parent: TreeLookup,
    pub parent_labeled: Option<MaterializedValue>,
    pub commit: TreeLookup,
    pub parents: Vec<TreeLookup>,
}

impl PathFacts {
    /// All that is known of a path.
    pub fn new(path: &str, on_disk: DiskFacts, in_trees: TreeFacts) -> (r: PathFacts)
        ensures
            r@ == (FactsView {
                valid: is_repo_path(path@),
                disk: vec_view(on_disk.disk),
                executable: on_disk.executable,
                exists: on_disk.exists,
                not_ignored: on_disk.not_ignored,
                parent: in_trees.parent@,
                parent_labeled: opt_view(in_trees.parent_labeled),
                commit: in_trees.commit@,
                parents: in_trees.parents@.map_values(|lookup: TreeLookup| lookup@),
            }),
    {
        PathFacts {
            valid: names_repo_path(path),
            disk: on_disk.disk,
            executable: on_disk.executable,
            exists: on_disk.exists,
            not_ignored: on_disk.not_ignored,
            parent: in_trees.parent,
            parent_labeled: in_trees.parent_labeled,
            commit: in_trees.commit,
            parents: in_trees.parents,
        }
    }
}

/// The facts are in shape, and speak of `parents` parent trees.
pub open spec fn facts_ok(facts: FactsView, parents: nat) -> bool {
    &&& lookup_ok(facts.parent)
    &&& facts.parent_labeled is Some ==> materialized_ok(facts.parent_labeled->0)
    &&& lookup_ok(facts.commit)
    &&& facts.parents.len() == parents
    &&& forall|i: int| 0 <= i < facts.parents.len() ==> lookup_ok(#[trigger] facts.parents[i])
}

/// Whether a path on disk is visible to jj: it is there, and tracked or not ignored.
pub open spec fn visible_on_disk(facts: FactsView) -> bool {
    facts.exists && ((facts.valid && present(facts.commit)) || facts.not_ignored)
}

/// Whether a rename/copy source path re-created on disk is *visible* to jj. A file that is
/// untracked (absent from the working-copy commit tree) AND ignored is invisible to the
/// snapshot, so its presence on disk does not void a rename premise.
pub fn source_visible_on_disk(facts: &PathFacts) -> (r: bool)
    ensures
        r == visible_on_disk(facts@),
{
    if !facts.exists {
        return false;
    }
    if facts.valid && facts.commit.is_present() {
        return true;
    }
    facts.not_ignored
}

/// The content of a path that copy detection sees in the commit of the next snapshot: what
/// is on disk; of a file that stays in conflict, its first side.
pub open spec fn blob(facts: FactsView, options: MergeOptions) -> Option<Seq<u8>> {
    match snapshot_of(tree_entry(facts.commit), facts.disk, facts.executable, true, options).value {
        WcView::Absent => None,
        WcView::Resolved { content, .. } => Some(content),
        WcView::Conflict(sides) => Some(sides[0]),
    }
}

/// The content of a path that copy detection sees in the commit of the next snapshot. It
/// works on the backend's own trees: a file in conflict has the content of its first side
/// there, never marker text.
pub fn snapshot_blob(facts: &PathFacts, options: MergeOptions) -> (r: Option<Vec<u8>>)
    requires
        lookup_ok(facts@.commit),
    ensures
        vec_view(r) == blob(facts@, options),
{
    let entry = synthetic_wc_value(
        facts.commit.tree_wc_value(),
        as_content(&facts.disk),
        facts.executable,
        true,
        options,
    );
    match &entry.value {
        WcValue::Absent => None,
        WcValue::Resolved { content, .. } => Some(slice_to_vec(content.as_slice())),
        WcValue::Conflict(sides) => {
            assert(contents_view(sides@)[0] == sides@[0]@);
            Some(slice_to_vec(sides[0].as_slice()))
        },
    }
}

/// Whether there is content for copy detection to compare.
pub open spec fn has_content(facts: FactsView, options: MergeOptions) -> bool {
    blob(facts, options) is Some && blob(facts, options)->0.len() > 0
}

/// Whether one parent yields a record of a rename from a source to a target with the
/// given content.
pub open spec fn yields_record(
    source: FactsView,
    target: FactsView,
    disk: Seq<u8>,
    parent: int,
    style: ConflictMarkerStyle,
    options: MergeOptions,
) -> bool {
    &&& present(source.parents[parent])
    &&& absent(target.parents[parent])
    &&& lookup_content(source.parents[parent], style, options) is Some
    &&& lookup_content(source.parents[parent], style, options)->0.len() > 0
    &&& similarity(lookup_content(source.parents[parent], style, options)->0, disk) >= RENAME_SIMILARITY
}

/// How many of the first `n` parents yield a record.
pub open spec fn records_before(
    source: FactsView,
    target: FactsView,
    disk: Seq<u8>,
    n: int,
    style: ConflictMarkerStyle,
    options: MergeOptions,
) -> nat
    decreases n,
{
    if n <= 0 {
        0
    } else {
        records_before(source, target, disk, n - 1, style, options) + if yields_record(
            source,
            target,
            disk,
            n - 1,
            style,
            options,
        ) {
            1nat
        } else {
            0
        }
    }
}

/// How many parents yield a record of a rename from a source to a target as the next
/// snapshot has it.
pub open spec fn record_count(
    source: FactsView,
    target: FactsView,
    style: ConflictMarkerStyle,
    options: MergeOptions,
) -> nat {
    if !has_content(target, options) || !source.valid || !target.valid {
        0
    } else {
        records_before(
            source,
            target,
            blob(target, options)->0,
            source.parents.len() as int,
            style,
            options,
        )
    }
}

/// Count parents that would produce a gix copy/rename record for
/// (source → target-with-this-content): the source present in that parent's tree, the
/// target absent there, and the source's content >= 50% similar to the target's.
pub fn rename_record_parents(
    source: &PathFacts,
    target: &PathFacts,
    style: ConflictMarkerStyle,
    options: MergeOptions,
) -> (r: usize)
    requires
        facts_ok(source@, source@.parents.len()),
        facts_ok(target@, source@.parents.len()),
    ensures
        r == record_count(source@, target@, style, options),
{
    if !source.valid || !target.valid {
        return 0;
    }
    let disk = match snapshot_blob(target, options) {
        Some(disk) => disk,
        None => {
            return 0;
        },
    };
    if disk.len() == 0 {
        return 0;
    }
    let mut records: usize = 0;
    let mut i: usize = 0;
    while i < source.parents.len()
        invariant
            i <= source.parents.len(),
            records <= i,
            facts_ok(source@, source@.parents.len()),
            facts_ok(target@, source@.parents.len()),
            records == records_before(source@, target@, disk@, i as int, style, options),
        decreases source.parents.len() - i,
    {
        assert(source@.parents[i as int] == source.parents@[i as int]@);
        assert(target@.parents[i as int] == target.parents@[i as int]@);
        if source.parents[i].is_present() && target.parents[i].is_absent() {
            if let Some(content) = materialized_content(&source.parents[i], style, options) {
                if content.len() > 0 && content_similarity(content.as_slice(), disk.as_slice()) >= RENAME_SIMILARITY {
                    records += 1;
                }
            }
        }
        i += 1;
    }
    records
}

/// Whether one parent yields a record of a copy: it has the source with another content
/// than the next snapshot, and lacks the target.
pub open spec fn yields_copy(
    source: FactsView,
    target: FactsView,
    parent: int,
    style: ConflictMarkerStyle,
    options: MergeOptions,
) -> bool {
    &&& present(source.parents[parent])
    &&& absent(target.parents[parent])
    &&& lookup_content(source.parents[parent], style, options) != blob(source, options)
}

/// How many of the first `n` parents yield a record of a copy.
pub open spec fn copies_before(
    source: FactsView,
    target: FactsView,
    n: int,
    style: ConflictMarkerStyle,
    options: MergeOptions,
) -> nat
    decreases n,
{
    if n <= 0 {
        0
    } else {
        copies_before(source, target, n - 1, style, options) + if yields_copy(source, target, n - 1, style, options) {
            1nat
        } else {
            0
        }
    }
}

/// How many parents yield a record of a copy from a source that is still there to a target,
/// both as the next snapshot has them: the two must be alike.
pub open spec fn copy_count(
    source: FactsView,
    target: FactsView,
    style: ConflictMarkerStyle,
    options: MergeOptions,
) -> nat {
    if !source.valid || !target.valid || !has_content(source, options) || !has_content(target, options) || similarity(
        blob(source, options)->0,
        blob(target, options)->0,
    ) < RENAME_SIMILARITY {
        0
    } else {
        copies_before(source, target, source.parents.len() as int, style, options)
    }
}

fn is_content(content: &Option<Vec<u8>>, bytes: &Vec<u8>) -> (r: bool)
    ensures
        r == (vec_view(*content) == Some(bytes@)),
{
    match content {
        Some(content) => bytes_eq(content.as_slice(), bytes.as_slice()),
        None => false,
    }
}

/// Count parents that produce a copy record for a source that is visible: a file that is
/// unmodified against the merged parents may still be modified against one of them, and
/// then a target like it counts as its copy.
pub fn copy_record_parents(
    source: &PathFacts,
    target: &PathFacts,
    style: ConflictMarkerStyle,
    options: MergeOptions,
) -> (r: usize)
    requires
        facts_ok(source@, source@.parents.len()),
        facts_ok(target@, source@.parents.len()),
    ensures
        r == copy_count(source@, target@, style, options),
{
    if !source.valid || !target.valid {
        return 0;
    }
    let (old, new) = match (snapshot_blob(source, options), snapshot_blob(target, options)) {
        (Some(old), Some(new)) => (old, new),
        _ => {
            return 0;
        },
    };
    if old.len() == 0 || new.len() == 0 || content_similarity(old.as_slice(), new.as_slice()) < RENAME_SIMILARITY {
        return 0;
    }
    let mut records: usize = 0;
    let mut i: usize = 0;
    while i < source.parents.len()
        invariant
            i <= source.parents.len(),
            records <= i,
            facts_ok(source@, source@.parents.len()),
            facts_ok(target@, source@.parents.len()),
            blob(source@, options) == Some(old@),
            records == copies_before(source@, target@, i as int, style, options),
        decreases source.parents.len() - i,
    {
        assert(source@.parents[i as int] == source.parents@[i as int]@);
        assert(target@.parents[i as int] == target.parents@[i as int]@);
        if source.parents[i].is_present() && target.parents[i].is_absent() {
            let content = materialized_content(&source.parents[i], style, options);
            if !is_content(&content, &old) {
                records += 1;
            }
        }
        i += 1;
    }
    records
}

} // verus!
