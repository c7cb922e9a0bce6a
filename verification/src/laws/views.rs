//! What values say is what they hold.

use crate::bookmarks::{Bookmark, CommitFacts, Names};
use crate::conflicts::{TreeTerm, TreeTermView};
use crate::facts::{PathFacts, TreeLookup};
use crate::jj_config::{Alias, ConfigSettings};
use crate::paths::ChangedPath;
use crate::repo_state::DiffEntry;
use crate::replay::{MirrorEntry, Move, MoveView};
use crate::reshape::{projection_view, Projection};
use crate::staging::{DiffState, Staging};
use crate::stats::FileDiffStats;
use crate::strings::views;
use crate::wc::{opt_view, vec_view, MaterializedValue, WcEntry, WcValue};
use vstd::prelude::*;

verus! {

/// The stats of a file say their lines, kind, fingerprint and source.
pub proof fn stats_say_what_they_hold(stats: FileDiffStats)
    ensures
        stats@.lines_added == stats.lines_added,
        stats@.lines_removed == stats.lines_removed,
        stats@.kind == stats.kind,
        stats@.content_hash == stats.content_hash,
        stats.renamed_from is None ==> stats@.renamed_from is None,
        stats.renamed_from is Some ==> stats@.renamed_from == Some(stats.renamed_from->0@),
        stats.deep_view() == stats@,
        Some(stats).deep_view() == Some(stats@),
        None::<FileDiffStats>.deep_view() is None,
{
}

/// A list of strings says each of them in order.
pub proof fn lists_say_every_string(list: Seq<String>, i: int)
    ensures
        views(list).len() == list.len(),
        0 <= i < list.len() ==> views(list)[i] == list[i]@,
{
}

/// A bookmark says its name, distance, how it is shown and how it stands.
pub proof fn bookmarks_say_what_they_hold(list: Seq<Bookmark>, i: int)
    ensures
        crate::bookmarks::bookmark_views(list).len() == list.len(),
        0 <= i < list.len() ==> {
            let seen = crate::bookmarks::bookmark_views(list)[i];
            &&& seen.name == list[i].name@ && seen.distance == list[i].distance
            &&& seen.display == list[i].display@ && seen.tracking == list[i].tracking
        },
{
}

/// A commit says its parents in order, where it could be read, and whether it is on the line
/// of work.
pub proof fn commits_say_their_parents(commit: CommitFacts, names: Names, i: int)
    ensures
        commit.deep_view().in_branch == commit.in_branch,
        commit.parents is None <==> commit.deep_view().parents is None,
        commit.parents is Some ==> commit.deep_view().parents->0.len() == commit.parents->0@.len(),
        commit.parents is Some && 0 <= i < commit.parents->0@.len() ==> commit.deep_view().parents->0[i]
            == commit.parents->0@[i]@,
        names.deep_view().len() == names.list@.len(),
        0 <= i < names.list@.len() ==> names.deep_view()[i] == names.list@[i]@,
{
}

/// A term of a stored value says its id, its kind, and of a file the executable bit.
pub proof fn terms_say_what_they_hold(term: TreeTerm)
    ensures
        match term {
            TreeTerm::File { id, executable, copy_id } => {
                &&& term@ is File
                &&& term@->id == id@ && term@->executable == executable && term@->copy_id == copy_id@
            },
            TreeTerm::Symlink(id) => term@ == TreeTermView::Symlink(id@),
            TreeTerm::Tree(id) => term@ == TreeTermView::Tree(id@),
            TreeTerm::GitSubmodule(id) => term@ == TreeTermView::GitSubmodule(id@),
        },
{
}

/// A materialized value says its content and its executable bit, its target, or its terms.
pub proof fn values_say_what_they_hold(value: MaterializedValue, bytes: Vec<u8>, i: int)
    ensures
        match value {
            MaterializedValue::File { content, executable } => {
                &&& value@ is File
                &&& value@->executable == executable
                &&& content is None <==> value@->content is None
                &&& content is Some ==> value@->content == Some(content->0@)
            },
            MaterializedValue::Symlink { target } => value@ is Symlink && value@->target == target@,
            MaterializedValue::FileConflict { contents, labels, resolved_exec } => {
                &&& value@ is FileConflict
                &&& value@->contents.len() == contents@.len()
                &&& 0 <= i < contents@.len() ==> value@->contents[i] == contents@[i]@
                &&& value@->resolved_exec == resolved_exec
            },
            MaterializedValue::OtherConflict { terms, labels } => value@ is OtherConflict && value@->terms.len()
                == terms@.len(),
            MaterializedValue::Absent => value@ is Absent,
            MaterializedValue::AccessDenied => value@ is AccessDenied,
            MaterializedValue::GitSubmodule => value@ is GitSubmodule,
            MaterializedValue::Tree => value@ is Tree,
        },
        opt_view(Some(value)) == Some(value@),
        opt_view(None) is None,
        vec_view(Some(bytes)) == Some(bytes@),
        vec_view(None) is None,
{
}

/// A snapshot-level value says its content and its executable bit, or its terms.
pub proof fn entries_say_what_they_hold(entry: WcEntry, i: int)
    ensures
        match entry.value {
            WcValue::Absent => entry@.value is Absent,
            WcValue::Resolved { content, executable } => {
                &&& entry@.value is Resolved
                &&& entry@.value->content == content@ && entry@.value->executable == executable
            },
            WcValue::Conflict(terms) => {
                &&& entry@.value is Conflict
                &&& entry@.value->Conflict_0.len() == terms@.len()
                &&& 0 <= i < terms@.len() ==> entry@.value->Conflict_0[i] == terms@[i]@
            },
        },
        entry@.value == entry.value@,
        entry.raw is None <==> entry@.raw is None,
        entry.raw is Some ==> entry@.raw->0.len() == entry.raw->0@.len(),
{
}

/// What is known of a path says what was found of it.
pub proof fn facts_say_what_they_hold(facts: PathFacts, lookup: TreeLookup, i: int)
    ensures
        facts@.valid == facts.valid,
        facts.disk is None <==> facts@.disk is None,
        facts.disk is Some ==> facts@.disk == Some(facts.disk->0@),
        facts@.executable == facts.executable,
        facts@.exists == facts.exists,
        facts@.not_ignored == facts.not_ignored,
        facts@.parent == facts.parent@,
        facts@.commit == facts.commit@,
        facts@.parents.len() == facts.parents@.len(),
        0 <= i < facts.parents@.len() ==> facts@.parents[i] == facts.parents@[i]@,
        facts.parent_labeled is Some ==> facts@.parent_labeled == Some(facts.parent_labeled->0@),
        facts.parent_labeled is None ==> facts@.parent_labeled is None,
        lookup.value is Some ==> lookup@.value == Some(lookup.value->0@),
        lookup.value is None ==> lookup@.value is None,
        lookup.raw is None <==> lookup@.raw is None,
        lookup.raw is Some ==> lookup@.raw->0.len() == lookup.raw->0@.len(),
        lookup.raw is Some && 0 <= i < lookup.raw->0@.len() ==> (lookup@.raw->0[i] is Some <==> lookup.raw->0@[i]
            is Some),
{
}

/// The diff of a working copy says its base, its overlay, the marker style, the parents, the
/// terms, and the conflicted and dropped paths.
pub proof fn states_say_what_they_hold(state: DiffState, staging: Staging, i: int)
    ensures
        state@.base == state.base_file_stats@,
        state@.overlay == state.overlay@,
        state@.style == state.conflict_marker_style,
        state@.options == state.merge_options,
        state@.parents == state.parent_count,
        state@.terms.len() == state.commit_tree_ids@.len(),
        0 <= i < state.commit_tree_ids@.len() ==> state@.terms[i] == state.commit_tree_ids@[i]@,
        state@.conflicted == views(state.conflicted_paths@),
        state@.dropped == views(state.dropped@),
        staging@.entries == staging.entries@,
        staging@.writes == staging.writes,
        staging@.derived == staging.derived@.dom(),
        staging@.overrides == staging.overrides@.dom(),
        staging@.dropped == views(staging.dropped@),
{
}

/// An entry of a diff says its path, where it came from, and both values.
pub proof fn diff_entries_say_what_they_hold(entry: DiffEntry, changed: ChangedPath, projection: Projection, i: int)
    ensures
        entry@.path == entry.path@,
        entry.copied_from is Some ==> entry@.copied_from == Some(entry.copied_from->0@),
        entry.copied_from is None ==> entry@.copied_from is None,
        entry.before is Some ==> entry@.before == Some(entry.before->0@),
        entry.before is None ==> entry@.before is None,
        entry.after is Some ==> entry@.after == Some(entry.after->0@),
        entry.after is None ==> entry@.after is None,
        (changed.deep_view()).0 == changed.path@,
        (changed.deep_view()).1.len() == changed.resolved@.len(),
        0 <= i < changed.resolved@.len() && changed.resolved@[i] is Some ==> (changed.deep_view()).1[i] == Some(
            changed.resolved@[i]->0@,
        ),
        0 <= i < changed.resolved@.len() && changed.resolved@[i] is None ==> (changed.deep_view()).1[i] is None,
        projection_view(projection).0 == projection.path@,
        projection_view(projection).1.len() == projection.raw@.len(),
{
}

/// The settings of a configuration file say the style and every alias with its definition.
pub proof fn settings_say_what_they_hold(settings: ConfigSettings, list: Seq<Alias>, i: int)
    ensures
        settings@.style == settings.style,
        settings@.aliases.len() == settings.aliases@.len(),
        0 <= i < settings.aliases@.len() ==> settings@.aliases[i] == (
            settings.aliases@[i].name@,
            settings.aliases@[i].definition@,
        ),
        settings.deep_view() == settings@,
        crate::jj_config::alias_views(list).len() == list.len(),
        0 <= i < list.len() ==> crate::jj_config::alias_views(list)[i] == (list[i].name@, list[i].definition@),
{
}

/// A file on disk says its content and its executable bit, and an action what it does.
pub proof fn actions_say_what_they_do(entry: MirrorEntry, action: Move)
    ensures
        entry.deep_view() == (entry.executable, entry.content@),
        match action {
            Move::WriteFile { path, content } => action@ == (MoveView::WriteFile { path: path@, content: content@ }),
            Move::RemoveFile { path } => action@ == (MoveView::RemoveFile { path: path@ }),
            Move::RenamePath { from, to } => action@ == (MoveView::RenamePath { from: from@, to: to@ }),
            Move::SetMode { path, mode } => action@ == (MoveView::SetMode { path: path@, mode }),
            Move::Jj(args) => action@ == MoveView::Jj(views(args@)),
            Move::Query(args) => action@ == MoveView::Query(views(args@)),
            Move::Skip => action@ is Skip,
            _ => true,
        },
{
}

} // verus!
