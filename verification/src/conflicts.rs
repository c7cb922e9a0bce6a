//! Conflicted contents: what is read from them, merged in them and written for them.
//!
//! The terms of a conflict alternate: added, removed, added, and so on.

use crate::simplify::{net, pick, simplified};
use jj_lib::backend::{CommitId, CopyId, FileId, SymlinkId, TreeId, TreeValue};
use jj_lib::conflict_labels::ConflictLabels;
use jj_lib::conflicts::{
    materialize_merge_result_to_bytes, ConflictMarkerStyle as JjStyle, ConflictMaterializeOptions,
};
use jj_lib::files::{FileMergeHunkLevel as JjLevel, MergeResult};
use jj_lib::merge::{Merge, SameChange as JjChange};
use jj_lib::tree_merge::MergeOptions as JjOptions;
use vstd::prelude::*;

verus! {

/// Describes what style should be used when materializing conflicts.
#[derive(Clone, Copy, Debug, PartialEq, Eq, Structural)]
pub enum ConflictMarkerStyle {
    /// Style which shows a snapshot and a series of diffs to apply.
    Diff,
    /// Similar to "diff", but always picks the first side as the snapshot.
    DiffExperimental,
    /// Style which shows a snapshot for each base and side.
    Snapshot,
    /// Style which replicates Git's "diff3" style to support external tools.
    Git,
}

/// Whether to resolve a conflict that makes the same change at all sides.
#[derive(Clone, Copy, Debug, PartialEq, Eq, Structural)]
pub enum SameChange {
    Keep,
    Accept,
}

/// Granularity of hunks when merging files.
#[derive(Clone, Copy, Debug, PartialEq, Eq, Structural)]
pub enum FileMergeHunkLevel {
    Line,
    Word,
}

/// Options for file conflict resolution.
#[derive(Clone, Copy, Debug, PartialEq, Eq, Structural)]
pub struct MergeOptions {
    pub hunk_level: FileMergeHunkLevel,
    pub same_change: SameChange,
}

/// One term of a stored tree value, by its id.
#[derive(Debug)]
pub enum TreeTerm {
    File { id: Vec<u8>, executable: bool, copy_id: Vec<u8> },
    Symlink(Vec<u8>),
    Tree(Vec<u8>),
    GitSubmodule(Vec<u8>),
}

/// What a term of a stored tree value says.
pub enum TreeTermView {
    File { id: Seq<u8>, executable: bool, copy_id: Seq<u8> },
    Symlink(Seq<u8>),
    Tree(Seq<u8>),
    GitSubmodule(Seq<u8>),
}

impl View for TreeTerm {
    type V = TreeTermView;

    open spec fn view(&self) -> TreeTermView {
        match self {
            TreeTerm::File { id, executable, copy_id } => TreeTermView::File {
                id: id@,
                executable: *executable,
                copy_id: copy_id@,
            },
            TreeTerm::Symlink(id) => TreeTermView::Symlink(id@),
            TreeTerm::Tree(id) => TreeTermView::Tree(id@),
            TreeTerm::GitSubmodule(id) => TreeTermView::GitSubmodule(id@),
        }
    }
}

/// A stored value: one term where it is resolved, more where it is in conflict. A term
/// that is not there is `None`.
pub type RawValue = Vec<Option<TreeTerm>>;

/// What one term of a stored value says, if it is there.
pub open spec fn term_view(term: Option<TreeTerm>) -> Option<TreeTermView> {
    match term {
        Some(t) => Some(t@),
        None => None,
    }
}

/// What the terms of a stored value say.
pub open spec fn raw_view(raw: Seq<Option<TreeTerm>>) -> Seq<Option<TreeTermView>> {
    raw.map_values(|term: Option<TreeTerm>| term_view(term))
}

/// The bytes of each of a list of contents.
pub open spec fn contents_view(contents: Seq<Vec<u8>>) -> Seq<Seq<u8>> {
    contents.map_values(|content: Vec<u8>| content@)
}

/// The pieces of each of a list of hunks.
pub open spec fn pieces_view(hunks: Seq<Vec<Vec<u8>>>) -> Seq<Seq<Seq<u8>>> {
    hunks.map_values(|hunk: Vec<Vec<u8>>| contents_view(hunk@))
}

/// The characters of each of a list of labels.
pub open spec fn labels_view(labels: Seq<String>) -> Seq<Seq<char>> {
    labels.map_values(|label: String| label@)
}

/// The marker length that `jj_lib::conflicts::choose_materialized_conflict_marker_len`
/// picks for the terms of a conflict.
pub uninterp spec fn chosen_marker_len(terms: Seq<Seq<u8>>) -> usize;

/// Calls `jj_lib::conflicts::choose_materialized_conflict_marker_len`: its result is a
/// function of the terms. It is at most four more than the longest line of a term, which
/// is in memory twice during the call, so that it is no more than half of what can be
/// addressed.
#[verifier::external_body]
fn choose_marker_len(terms: &Vec<Vec<u8>>) -> (r: usize)
    requires
        terms@.len() % 2 == 1,
    ensures
        r == chosen_marker_len(contents_view(terms@)),
        r <= isize::MAX,
{
    jj_lib::conflicts::choose_materialized_conflict_marker_len(&Merge::from_vec(terms.clone()))
}

/// What `jj_lib::files::merge_hunks` makes of the terms of a conflict: the merged content,
/// or the hunks of which some stay in conflict.
pub uninterp spec fn merged_hunks(terms: Seq<Seq<u8>>, options: MergeOptions) -> Result<Seq<u8>, Seq<Seq<Seq<u8>>>>;

/// Calls `jj_lib::files::merge_hunks`: its result is a function of the terms and the
/// options.
#[verifier::external_body]
pub(crate) fn merge_hunks(terms: &Vec<Vec<u8>>, options: MergeOptions) -> (r: Result<Vec<u8>, Vec<Vec<Vec<u8>>>>)
    requires
        terms@.len() % 2 == 1,
    ensures
        match r {
            Ok(content) => merged_hunks(contents_view(terms@), options) == Ok::<Seq<u8>, Seq<Seq<Seq<u8>>>>(content@),
            Err(hunks) => merged_hunks(contents_view(terms@), options) == Err::<Seq<u8>, Seq<Seq<Seq<u8>>>>(
                pieces_view(hunks@),
            ),
        },
{
    let (level, same) = (options.hunk_level, options.same_change);
    let hunk_level = match level { FileMergeHunkLevel::Line => JjLevel::Line, FileMergeHunkLevel::Word => JjLevel::Word };
    let same_change = match same { SameChange::Keep => JjChange::Keep, SameChange::Accept => JjChange::Accept };
    let options = JjOptions { hunk_level, same_change };
    match jj_lib::files::merge_hunks(&Merge::from_vec(terms.clone()), &options) {
        MergeResult::Resolved(content) => Ok(content.into()),
        MergeResult::Conflict(hunks) => Err(hunks.iter().map(|h| h.iter().map(|p| p.to_vec()).collect()).collect()),
    }
}

/// What `jj_lib::conflicts::parse_conflict` reads back from a file with conflict markers.
pub uninterp spec fn parsed_conflict(
    content: Seq<u8>,
    num_sides: usize,
    marker_len: usize,
) -> Option<Seq<Seq<Seq<u8>>>>;

/// Each hunk is resolved, or has a piece for each of `len` terms.
pub open spec fn hunks_fit(hunks: Seq<Seq<Seq<u8>>>, len: int) -> bool {
    forall|i: int| 0 <= i < hunks.len() ==> (#[trigger] hunks[i]).len() == 1 || hunks[i].len() == len
}

/// Calls `jj_lib::conflicts::parse_conflict`: its result is a function of the content, the
/// number of sides and the marker length. Hunks come back only where the file has
/// conflicts of that many sides, and each hunk is resolved or has all of their terms.
/// Nothing is said of what it reads back from a conflict that was written with markers: a
/// side that ends in a carriage return without a line feed comes back without it.
#[verifier::external_body]
pub(crate) fn parse_conflict(content: &[u8], num_sides: usize, marker_len: usize) -> (r: Option<Vec<Vec<Vec<u8>>>>)
    ensures
        match r {
            Some(hunks) => {
                &&& parsed_conflict(content@, num_sides, marker_len) == Some(pieces_view(hunks@))
                &&& hunks_fit(pieces_view(hunks@), 2 * num_sides - 1)
            },
            None => parsed_conflict(content@, num_sides, marker_len) is None,
        },
{
    jj_lib::conflicts::parse_conflict(content, num_sides, marker_len).map(
        |hunks| hunks.iter().map(|hunk| hunk.iter().map(|piece| piece.to_vec()).collect()).collect(),
    )
}

/// What `jj_lib::conflicts::materialize_merge_result_to_bytes` writes for a conflict.
pub uninterp spec fn rendered_conflict(
    terms: Seq<Seq<u8>>,
    labels: Seq<Seq<char>>,
    style: ConflictMarkerStyle,
    marker_len: usize,
    options: MergeOptions,
) -> Seq<u8>;

/// Calls `jj_lib::conflicts::materialize_merge_result_to_bytes`: its result is a function
/// of the terms, the labels, the marker style, the marker length and the merge options.
#[verifier::external_body]
pub(crate) fn render_conflict(
    terms: &Vec<Vec<u8>>,
    labels: &Vec<String>,
    style: ConflictMarkerStyle,
    marker_len: usize,
    options: MergeOptions,
) -> (r: Vec<u8>)
    requires
        terms@.len() % 2 == 1,
        labels@.len() == 0 || labels@.len() % 2 == 1,
        marker_len <= isize::MAX,
    ensures
        r@ == rendered_conflict(contents_view(terms@), labels_view(labels@), style, marker_len, options),
{
    let marker_style = match style {
        ConflictMarkerStyle::Diff => JjStyle::Diff,
        ConflictMarkerStyle::DiffExperimental => JjStyle::DiffExperimental,
        ConflictMarkerStyle::Snapshot => JjStyle::Snapshot,
        ConflictMarkerStyle::Git => JjStyle::Git,
    };
    let (level, same) = (options.hunk_level, options.same_change);
    let hunk_level = match level { FileMergeHunkLevel::Line => JjLevel::Line, FileMergeHunkLevel::Word => JjLevel::Word };
    let same_change = match same { SameChange::Keep => JjChange::Keep, SameChange::Accept => JjChange::Accept };
    let merge = JjOptions { hunk_level, same_change };
    let options = ConflictMaterializeOptions { marker_style, marker_len: Some(marker_len), merge };
    let labels = ConflictLabels::from_vec(labels.clone());
    materialize_merge_result_to_bytes(&Merge::from_vec(terms.clone()), &labels, &options).into()
}

/// Whether a merge trivially comes down to a value: on balance it is added, and no other
/// value is added or removed, or, where the same change on all sides is accepted, one
/// other is removed.
pub open spec fn resolves_to<A>(values: Seq<A>, same_change: SameChange, value: A) -> bool {
    &&& net(values, value) > 0
    &&& forall|a: A| #[trigger]
        net(values, a) != 0 && a != value ==> net(values, a) < 0 && same_change == SameChange::Accept
    &&& forall|a: A, b: A|
        #![trigger net(values, a), net(values, b)]
        a != value && b != value && net(values, a) != 0 && net(values, b) != 0 ==> a == b
}

/// Calls `jj_lib::merge::Merge::resolve_trivial` on a merge of numbers: it gives the value
/// that the merge comes down to, and nothing where there is none.
#[verifier::external_body]
pub(crate) fn resolve_trivial(values: &Vec<usize>, same_change: SameChange) -> (r: Option<usize>)
    requires
        values@.len() % 2 == 1,
        values@.len() <= i32::MAX,
    ensures
        match r {
            Some(value) => resolves_to(values@, same_change, value),
            None => forall|value: usize| !#[trigger] resolves_to(values@, same_change, value),
        },
{
    let same_change = match same_change {
        SameChange::Keep => JjChange::Keep,
        SameChange::Accept => JjChange::Accept,
    };
    Merge::from_vec(values.clone()).resolve_trivial(same_change).copied()
}

/// The terms that simplification leaves of a conflict.
pub open spec fn simplified_terms(terms: Seq<Seq<u8>>) -> Seq<Seq<u8>> {
    pick(terms, simplified(terms.len(), |i: int, j: int| terms[i] == terms[j]))
}

/// Calls `jj_lib::merge::Merge::simplify`: removed terms cancel against equal added ones,
/// each added term in turn against the first removed term that equals it.
#[verifier::external_body]
pub(crate) fn simplify_terms(terms: &Vec<Vec<u8>>) -> (r: Vec<Vec<u8>>)
    requires
        terms@.len() % 2 == 1,
    ensures
        contents_view(r@) == simplified_terms(contents_view(terms@)),
{
    Merge::from_vec(terms.clone()).simplify().into_iter().collect()
}

/// What `jj_lib`'s `Merge::describe` says of a conflict between stored values.
pub uninterp spec fn conflict_description(terms: Seq<Option<TreeTermView>>, labels: Seq<Seq<char>>) -> Seq<char>;

/// Calls `describe` of `jj_lib`'s `Merge` of tree values: its result is a function of the
/// terms and the labels.
#[verifier::external_body]
pub(crate) fn describe_conflict(terms: &RawValue, labels: &Vec<String>) -> (r: String)
    requires
        terms@.len() % 2 == 1,
        labels@.len() == 0 || labels@.len() % 2 == 1,
    ensures
        r@ == conflict_description(raw_view(terms@), labels_view(labels@)),
{
    let values: Vec<Option<TreeValue>> = terms.iter().map(|term| term.as_ref().map(|value| match value {
        TreeTerm::File { id, executable, copy_id } => TreeValue::File {
            id: FileId::from_bytes(id),
            executable: *executable,
            copy_id: CopyId::from_bytes(copy_id),
        },
        TreeTerm::Symlink(id) => TreeValue::Symlink(SymlinkId::from_bytes(id)),
        TreeTerm::Tree(id) => TreeValue::Tree(TreeId::from_bytes(id)),
        TreeTerm::GitSubmodule(id) => TreeValue::GitSubmodule(CommitId::from_bytes(id)),
    })).collect();
    Merge::from_vec(values).describe(&ConflictLabels::from_vec(labels.clone()))
}

/// The marker length for the terms of a conflict: long enough to stand out from their
/// lines.
pub fn marker_len(terms: &Vec<Vec<u8>>) -> (r: usize)
    requires
        terms@.len() % 2 == 1,
    ensures
        r == chosen_marker_len(contents_view(terms@)),
        r <= isize::MAX,
{
    choose_marker_len(terms)
}

} // verus!
