//! Replay of random sequences of file edits and jj commands against a repo: what each
//! action does, which events it yields, and when the worker's numbers must match those of
//! `jj diff --stat`.
//!
//! Two event-delivery modes:
//! - **Perfect**: every changed file is delivered, like a lossless watcher.
//! - **Lossy**: event batches are dropped, simulating queue overflow. The numbers must
//!   then match after the next operation.

use crate::aggregate::DiffCounts;
use crate::lines::{lines_of, split_lines};
use crate::staging::lemma_views_push;
use crate::strings::{bytes_eq, decimal, in_order, lists_in_order, sort_set, to_chars, to_decimal, views};
use crate::table::FileTable;
use vstd::prelude::*;
use vstd::slice::slice_to_vec;
use vstd::string::StringExecFns;
use vstd::utf8::encode_utf8;

verus! {

/// The number of contents that a root `.gitignore` can get.
pub const VARIANT_COUNT: usize = 4;

/// The path of a file that actions work on.
pub open spec fn pool_path(file: int) -> Seq<char> {
    if file == 0 {
        "a.txt"@
    } else if file == 1 {
        "b.txt"@
    } else if file == 2 {
        "dir/c.txt"@
    } else if file == 3 {
        "dir/sub/d.txt"@
    } else if file == 4 {
        "e.rs"@
    } else {
        "x.log"@
    }
}

fn pool_name(file: usize) -> (r: &'static str)
    ensures
        r@ == pool_path(file as int),
{
    if file == 0 {
        "a.txt"
    } else if file == 1 {
        "b.txt"
    } else if file == 2 {
        "dir/c.txt"
    } else if file == 3 {
        "dir/sub/d.txt"
    } else if file == 4 {
        "e.rs"
    } else {
        "x.log"
    }
}

/// The contents that a root `.gitignore` can get.
pub open spec fn gitignore_variant(variant: int) -> Seq<char> {
    if variant == 0 {
        "*.log\n"@
    } else if variant == 1 {
        "dir/\n"@
    } else if variant == 2 {
        "e.rs\n"@
    } else {
        "*.log\ndir/\n"@
    }
}

/// The marker styles that can be set.
pub open spec fn style_name(style: int) -> Seq<char> {
    if style == 0 {
        "diff"@
    } else if style == 1 {
        "snapshot"@
    } else {
        "git"@
    }
}

/// One step of a sequence.
#[derive(Clone, Copy, Debug)]
pub enum Action {
    /// Overwrite (or create) a file with `lines` seeded lines.
    Write { file: usize, lines: u8, seed: u8 },
    /// Append `lines` seeded lines to a file (no-op if the file is absent).
    Append { file: usize, lines: u8, seed: u8 },
    /// Rewrite one line in place (no-op if the file is absent/empty).
    Touch { file: usize, line: u8, seed: u8 },
    /// Delete a file (no-op if absent).
    Delete { file: usize },
    JjNew,
    JjCommit,
    JjDescribe { seed: u8 },
    JjAbandon,
    JjSquash,
    JjUndo,
    /// Edits the n-th mutable change but the current one.
    JjEditPrior { nth: u8 },
    /// Rewrite the whole working copy from the parent.
    JjRestoreAll,
    /// Restore one file from the parent.
    JjRestoreFile { file: usize },
    /// Rename between two files.
    RenameFile { from: usize, to: usize },
    /// Rename the `dir/` tree to `dir2/` or back.
    MoveDir,
    /// Carve one file into a new parent commit.
    JjSplit { file: usize },
    /// Reparent the current change.
    JjRebase { nth: u8 },
    /// Create a merge commit.
    JjNewMerge { nth: u8 },
    /// Set the style of conflict markers, unless the current change is conflicted.
    SetMarkerStyle { style: u8 },
    /// Commit seeded content to the remote.
    RemoteCommit { file: usize, lines: u8, seed: u8 },
    JjGitFetch,
    /// Start a change on fetched remote work.
    JjNewOnRemote,
    /// Write a root `.gitignore`.
    WriteGitignore { variant: u8 },
    /// Delete the root `.gitignore`.
    DeleteGitignore,
    /// Drop the events of the next changes, in lossy mode.
    DropPendingEvents,
    /// Set or clear the executable bits of a file (no-op if absent).
    SetExecBit { file: usize, on: bool },
    /// Create the second workspace (no-op if it exists).
    WorkspaceAdd,
    /// Write a file in the second workspace and snapshot it there.
    WorkspaceOp { file: usize, lines: u8, seed: u8 },
    /// From the watched workspace, rewrite the second workspace's change.
    RewriteOtherWsAncestor { file: usize },
    /// From the second workspace, rewrite a change on the watched one's line.
    RewriteWatchedWsAncestor { file: usize, nth: u8 },
    /// Recover the watched workspace.
    WorkspaceUpdateStale,
    /// Forget the second workspace (no-op if absent).
    WorkspaceForget,
}

/// How events are delivered.
#[derive(Clone, Copy, Debug, PartialEq, Eq, Structural)]
pub enum Delivery {
    Perfect,
    Lossy,
}

/// What is on disk, as far as an action looks at it.
pub struct ActionFacts {
    /// The file of the action is there.
    pub exists: bool,
    /// It is a regular file.
    pub is_file: bool,
    /// Its content.
    pub bytes: Vec<u8>,
    /// Its content as text.
    pub text: String,
    /// Its permission bits.
    pub mode: u32,
    pub dir_is_dir: bool,
    pub dir_exists: bool,
    pub dir2_is_dir: bool,
    pub dir2_exists: bool,
}

/// What an action does.
pub enum Move {
    /// Nothing.
    Skip,
    /// Write a file, with the directories that it needs; its events are delivered.
    WriteFile { path: String, content: Vec<u8> },
    RemoveFile { path: String },
    RenamePath { from: String, to: String },
    SetMode { path: String, mode: u32 },
    /// Run jj; where it succeeds, an operation event is delivered.
    Jj(Vec<String>),
    /// Run jj without any event.
    JjQuiet(Vec<String>),
    /// Run jj for its output, with which the action goes on.
    Query(Vec<String>),
    /// The same, in the second workspace.
    QuerySecond(Vec<String>),
    /// Undo the last operation, and redo it where that leaves no working-copy commit.
    Undo,
    /// Commit a file to the remote.
    CommitToRemote { path: String, content: Vec<u8> },
    /// Drop the events of the next changes.
    ArmDrop,
    AddWorkspace,
    /// Write a file in the second workspace and snapshot there.
    WriteInSecond { path: String, content: Vec<u8> },
    /// Run jj in the second workspace, look whether the watched one is stale, and deliver
    /// an operation event.
    JjInSecond(Vec<String>),
    UpdateStale,
    ForgetWorkspace,
}

/// What an action does.
pub enum MoveView {
    Skip,
    WriteFile { path: Seq<char>, content: Seq<u8> },
    RemoveFile { path: Seq<char> },
    RenamePath { from: Seq<char>, to: Seq<char> },
    SetMode { path: Seq<char>, mode: u32 },
    Jj(Seq<Seq<char>>),
    JjQuiet(Seq<Seq<char>>),
    Query(Seq<Seq<char>>),
    QuerySecond(Seq<Seq<char>>),
    Undo,
    CommitToRemote { path: Seq<char>, content: Seq<u8> },
    ArmDrop,
    AddWorkspace,
    WriteInSecond { path: Seq<char>, content: Seq<u8> },
    JjInSecond(Seq<Seq<char>>),
    UpdateStale,
    ForgetWorkspace,
}

impl View for Move {
    type V = MoveView;

    open spec fn view(&self) -> MoveView {
        match *self {
            Move::Skip => MoveView::Skip,
            Move::WriteFile { path, content } => MoveView::WriteFile { path: path@, content: content@ },
            Move::RemoveFile { path } => MoveView::RemoveFile { path: path@ },
            Move::RenamePath { from, to } => MoveView::RenamePath { from: from@, to: to@ },
            Move::SetMode { path, mode } => MoveView::SetMode { path: path@, mode },
            Move::Jj(args) => MoveView::Jj(views(args@)),
            Move::JjQuiet(args) => MoveView::JjQuiet(views(args@)),
            Move::Query(args) => MoveView::Query(views(args@)),
            Move::QuerySecond(args) => MoveView::QuerySecond(views(args@)),
            Move::Undo => MoveView::Undo,
            Move::CommitToRemote { path, content } => MoveView::CommitToRemote { path: path@, content: content@ },
            Move::ArmDrop => MoveView::ArmDrop,
            Move::AddWorkspace => MoveView::AddWorkspace,
            Move::WriteInSecond { path, content } => MoveView::WriteInSecond { path: path@, content: content@ },
            Move::JjInSecond(args) => MoveView::JjInSecond(views(args@)),
            Move::UpdateStale => MoveView::UpdateStale,
            Move::ForgetWorkspace => MoveView::ForgetWorkspace,
        }
    }
}

/// A seeded line.
pub open spec fn seeded_line_text(file: nat, seed: nat, i: nat) -> Seq<char> {
    "f"@ + decimal(file) + "-s"@ + decimal(seed) + "-line"@ + decimal(i) + "\n"@
}

/// A number of seeded lines.
pub open spec fn seeded_text(file: nat, lines: nat, seed: nat) -> Seq<char>
    decreases lines,
{
    if lines == 0 {
        Seq::empty()
    } else {
        seeded_text(file, (lines - 1) as nat, seed) + seeded_line_text(file, seed, (lines - 1) as nat)
    }
}

/// A seeded line.
pub fn seeded_line(file: usize, seed: u8, i: usize) -> (r: String)
    ensures
        r@ == seeded_line_text(file as nat, seed as nat, i as nat),
{
    let mut out = "f".to_owned();
    out.append(to_decimal(file as u64).as_str());
    out.append("-s");
    out.append(to_decimal(seed as u64).as_str());
    out.append("-line");
    out.append(to_decimal(i as u64).as_str());
    out.append("\n");
    out
}

/// A number of seeded lines.
pub fn seeded_content(file: usize, lines: u8, seed: u8) -> (r: String)
    ensures
        r@ == seeded_text(file as nat, lines as nat, seed as nat),
{
    let mut out = String::new();
    let mut i: u8 = 0;
    assert(out@ =~= Seq::empty());
    while i < lines
        invariant
            i <= lines,
            out@ == seeded_text(file as nat, i as nat, seed as nat),
        decreases lines - i,
    {
        let line = seeded_line(file, seed, i as usize);
        out.append(line.as_str());
        i += 1;
    }
    out
}

/// The line that a touched line becomes.
pub open spec fn touched_line(file: nat, seed: nat) -> Seq<char> {
    "f"@ + decimal(file) + "-touched-s"@ + decimal(seed)
}

/// The lines of a list, each with a newline behind it.
pub open spec fn with_newlines(list: Seq<Seq<char>>) -> Seq<char>
    decreases list.len(),
{
    if list.len() == 0 {
        Seq::empty()
    } else {
        with_newlines(list.drop_last()) + list.last() + "\n"@
    }
}

/// A text with one of its lines replaced: which one wraps round.
pub open spec fn touched_text(text: Seq<char>, line: nat, replacement: Seq<char>) -> Seq<char> {
    let all = lines_of(text);
    with_newlines(all.update((line % all.len()) as int, replacement))
}

/// The arguments of a list of words.
fn words1(a: &str) -> (r: Vec<String>)
    ensures
        views(r@) == seq![a@],
{
    let mut out: Vec<String> = Vec::new();
    out.push(a.to_owned());
    assert(views(out@) =~= seq![a@]);
    out
}

/// Adds a word to a list.
fn word(list: Vec<String>, a: &str) -> (r: Vec<String>)
    ensures
        views(r@) == views(list@).push(a@),
{
    let mut out = list;
    let item = a.to_owned();
    let ghost before = out@;
    out.push(item);
    proof {
        lemma_views_push(before, item);
    }
    out
}

/// The arguments of a query for changes of a revset.
pub open spec fn log_args(revset: Seq<char>, template: Seq<char>) -> Seq<Seq<char>> {
    seq!["log"@, "--no-graph"@, "-r"@, revset, "-T"@, template]
}

fn log_words(revset: &str, template: &str) -> (r: Vec<String>)
    ensures
        views(r@) == log_args(revset@, template@),
{
    let r = word(word(word(word(word(words1("log"), "--no-graph"), "-r"), revset), "-T"), template);
    assert(views(r@) =~= log_args(revset@, template@));
    r
}

/// The template that lists change ids.
pub open spec fn id_template() -> Seq<char> {
    "change_id ++ \"\\n\""@
}

/// The lines of an output that are not empty.
pub open spec fn ids_in(output: Seq<char>) -> Seq<Seq<char>> {
    lines_of(output).filter(|line: Seq<char>| line.len() > 0)
}

/// The n-th of the ids of an output, wrapping round.
pub open spec fn pick_id(output: Seq<char>, nth: nat) -> Option<Seq<char>> {
    let ids = ids_in(output);
    if ids.len() == 0 {
        None
    } else {
        Some(ids[(nth % ids.len()) as int])
    }
}

fn choose_id(output: &str, nth: u8) -> (r: Option<String>)
    ensures
        r.deep_view() == pick_id(output@, nth as nat),
{
    let all = split_lines(output);
    let ghost lines = views(all@);
    let ghost keep = |line: Seq<char>| line.len() > 0;
    let mut ids: Vec<String> = Vec::new();
    let mut i: usize = 0;
    proof {
        assert(lines.take(0).filter(keep) =~= Seq::empty());
        assert(views(ids@) =~= Seq::empty());
    }
    while i < all.len()
        invariant
            i <= all.len(),
            lines == views(all@),
            keep == (|line: Seq<char>| line.len() > 0),
            views(ids@) == lines.take(i as int).filter(keep),
        decreases all.len() - i,
    {
        proof {
            assert(lines[i as int] == all@[i as int]@);
            assert(lines.take(i + 1) =~= lines.take(i as int).push(lines[i as int]));
            lines.take(i as int).lemma_filter_push(lines[i as int], keep);
        }
        if !all[i].as_str().is_empty() {
            let copy = all[i].clone();
            let ghost before = ids@;
            ids.push(copy);
            proof {
                lemma_views_push(before, copy);
            }
        }
        i += 1;
    }
    proof {
        assert(lines.take(i as int) =~= lines);
        assert(views(ids@).len() == ids@.len());
    }
    if ids.len() == 0 {
        return None;
    }
    let at: usize = nth as usize % ids.len();
    assert(views(ids@)[at as int] == ids@[at as int]@);
    Some(ids[at].clone())
}

/// Whether a text holds another one.
pub open spec fn holds(text: Seq<char>, part: Seq<char>) -> bool {
    exists|i: int| 0 <= i && i + part.len() <= text.len() && #[trigger] text.subrange(i, i + part.len()) == part
}

fn contains_text(text: &str, part: &str) -> (r: bool)
    ensures
        r == holds(text@, part@),
{
    let t = to_chars(text);
    let p = to_chars(part);
    if p.len() > t.len() {
        return false;
    }
    let mut i: usize = 0;
    while i <= t.len() - p.len()
        invariant
            t@ == text@,
            p@ == part@,
            p.len() <= t.len(),
            i <= t.len() - p.len() + 1,
            forall|k: int| 0 <= k < i ==> #[trigger] text@.subrange(k, k + part@.len()) != part@,
        decreases t.len() - p.len() + 1 - i,
    {
        let mut j: usize = 0;
        while j < p.len() && t[i + j] == p[j]
            invariant
                t@ == text@,
                p@ == part@,
                i + p.len() <= t.len(),
                j <= p.len(),
                forall|k: int| 0 <= k < j ==> t@[i + k] == p@[k],
            decreases p.len() - j,
        {
            j += 1;
        }
        if j == p.len() {
            assert(text@.subrange(i as int, i + part@.len()) =~= part@);
            return true;
        }
        assert(text@.subrange(i as int, i + part@.len())[j as int] != part@[j as int]);
        if i == t.len() - p.len() {
            return false;
        }
        i += 1;
    }
    false
}

/// Whether an action is skipped while the watched workspace is stale: its queries would
/// fail there.
pub open spec fn needs_healthy(action: Action) -> bool {
    ||| action is JjSquash
    ||| action is JjEditPrior
    ||| action is JjRebase
    ||| action is JjNewMerge
    ||| action is SetMarkerStyle
}

/// The bytes of seeded lines.
pub open spec fn seeded_bytes(file: nat, lines: nat, seed: nat) -> Seq<u8> {
    encode_utf8(seeded_text(file, lines, seed))
}

/// Permission bits with the executable ones set or cleared.
pub open spec fn exec_mode(mode: u32, on: bool) -> u32 {
    if on {
        mode | 0o111
    } else {
        mode & !0o111
    }
}

/// What an action does first.
pub open spec fn first_move(
    action: Action,
    delivery: Delivery,
    watched_stale: bool,
    has_second: bool,
    facts: ActionFacts,
) -> MoveView {
    if watched_stale && needs_healthy(action) {
        MoveView::Skip
    } else {
        match action {
            Action::Write { file, lines, seed } => MoveView::WriteFile {
                path: pool_path(file as int),
                content: seeded_bytes(file as nat, lines as nat, seed as nat),
            },
            Action::Append { file, lines, seed } => if facts.exists {
                MoveView::WriteFile {
                    path: pool_path(file as int),
                    content: facts.bytes@ + seeded_bytes(file as nat, lines as nat, seed as nat),
                }
            } else {
                MoveView::Skip
            },
            Action::Touch { file, line, seed } => if facts.exists && lines_of(facts.text@).len() > 0 {
                MoveView::WriteFile {
                    path: pool_path(file as int),
                    content: encode_utf8(
                        touched_text(facts.text@, line as nat, touched_line(file as nat, seed as nat)),
                    ),
                }
            } else {
                MoveView::Skip
            },
            Action::Delete { file } => if facts.exists {
                MoveView::RemoveFile { path: pool_path(file as int) }
            } else {
                MoveView::Skip
            },
            Action::JjNew => MoveView::Jj(seq!["new"@]),
            Action::JjCommit => MoveView::Jj(seq!["commit"@, "-m"@, "commit"@]),
            Action::JjDescribe { seed } => MoveView::Jj(seq!["describe"@, "-m"@, "desc-"@ + decimal(seed as nat)]),
            Action::JjAbandon => MoveView::Jj(seq!["abandon"@]),
            Action::JjSquash => MoveView::Query(log_args("@-"@, "if(root, \"root\", \"ok\")"@)),
            Action::JjUndo => MoveView::Undo,
            Action::JjEditPrior { nth } => MoveView::Query(log_args("mutable() ~ @"@, id_template())),
            Action::JjRestoreAll => MoveView::Jj(seq!["restore"@]),
            Action::JjRestoreFile { file } => MoveView::Jj(seq!["restore"@, pool_path(file as int)]),
            Action::RenameFile { from, to } => if from != to && facts.is_file {
                MoveView::RenamePath { from: pool_path(from as int), to: pool_path(to as int) }
            } else {
                MoveView::Skip
            },
            Action::MoveDir => if facts.dir_is_dir && !facts.dir2_exists {
                MoveView::RenamePath { from: "dir"@, to: "dir2"@ }
            } else if facts.dir2_is_dir && !facts.dir_exists {
                MoveView::RenamePath { from: "dir2"@, to: "dir"@ }
            } else {
                MoveView::Skip
            },
            Action::JjSplit { file } => MoveView::Jj(
                seq!["split"@, "-m"@, "split-out"@, "--"@, pool_path(file as int)],
            ),
            Action::JjRebase { nth } => MoveView::Query(log_args("all() ~ @"@, id_template())),
            Action::JjNewMerge { nth } => MoveView::Query(log_args("heads(all()) ~ ::@"@, id_template())),
            Action::SetMarkerStyle { style } => MoveView::Query(log_args("@ & conflicts()"@, "\"c\""@)),
            Action::RemoteCommit { file, lines, seed } => MoveView::CommitToRemote {
                path: pool_path(file as int),
                content: seeded_bytes(file as nat, lines as nat, seed as nat),
            },
            Action::JjGitFetch => MoveView::Jj(seq!["git"@, "fetch"@]),
            Action::JjNewOnRemote => MoveView::Query(log_args("main@origin"@, "\"\""@)),
            Action::WriteGitignore { variant } => MoveView::WriteFile {
                path: ".gitignore"@,
                content: encode_utf8(gitignore_variant(variant as int % VARIANT_COUNT as int)),
            },
            Action::DeleteGitignore => if facts.exists {
                MoveView::RemoveFile { path: ".gitignore"@ }
            } else {
                MoveView::Skip
            },
            Action::DropPendingEvents => if delivery == Delivery::Lossy {
                MoveView::ArmDrop
            } else {
                MoveView::Skip
            },
            Action::SetExecBit { file, on } => if facts.is_file && exec_mode(facts.mode, on) != facts.mode {
                MoveView::SetMode { path: pool_path(file as int), mode: exec_mode(facts.mode, on) }
            } else {
                MoveView::Skip
            },
            Action::WorkspaceAdd => if has_second {
                MoveView::Skip
            } else {
                MoveView::AddWorkspace
            },
            Action::WorkspaceOp { file, lines, seed } => if has_second {
                MoveView::WriteInSecond {
                    path: pool_path(file as int),
                    content: seeded_bytes(file as nat, lines as nat, seed as nat),
                }
            } else {
                MoveView::Skip
            },
            Action::RewriteOtherWsAncestor { file } => if has_second {
                MoveView::Jj(
                    seq![
                        "restore"@,
                        "--from"@,
                        "@"@,
                        "--into"@,
                        "second@"@,
                        "--"@,
                        pool_path(file as int),
                    ],
                )
            } else {
                MoveView::Skip
            },
            Action::RewriteWatchedWsAncestor { file, nth } => if has_second {
                MoveView::QuerySecond(
                    seq!["--ignore-working-copy"@] + log_args("(mutable() & ::default@) ~ ::@"@, id_template()),
                )
            } else {
                MoveView::Skip
            },
            Action::WorkspaceUpdateStale => MoveView::UpdateStale,
            Action::WorkspaceForget => if has_second {
                MoveView::ForgetWorkspace
            } else {
                MoveView::Skip
            },
        }
    }
}

/// What an action does with the output of its query; `None` where the query failed.
pub open spec fn move_after_query(action: Action, output: Option<Seq<char>>) -> MoveView {
    match output {
        None => MoveView::Skip,
        Some(out) => match action {
            Action::JjSquash => if holds(out, "root"@) {
                MoveView::Skip
            } else {
                MoveView::Jj(seq!["squash"@, "-m"@, "squashed"@])
            },
            Action::JjEditPrior { nth } => match pick_id(out, nth as nat) {
                Some(id) => MoveView::Jj(seq!["edit"@, id]),
                None => MoveView::Skip,
            },
            Action::JjRebase { nth } => match pick_id(out, nth as nat) {
                Some(id) => MoveView::Jj(seq!["rebase"@, "-r"@, "@"@, "-d"@, id]),
                None => MoveView::Skip,
            },
            Action::JjNewMerge { nth } => match pick_id(out, nth as nat) {
                Some(id) => MoveView::Jj(seq!["new"@, "@"@, id]),
                None => MoveView::Skip,
            },
            Action::SetMarkerStyle { style } => if out.len() > 0 {
                MoveView::Skip
            } else {
                MoveView::JjQuiet(
                    seq![
                        "config"@,
                        "set"@,
                        "--repo"@,
                        "ui.conflict-marker-style"@,
                        style_name(style as int % 3),
                    ],
                )
            },
            Action::JjNewOnRemote => MoveView::Jj(seq!["new"@, "main@origin"@]),
            Action::RewriteWatchedWsAncestor { file, nth } => match pick_id(out, nth as nat) {
                Some(id) => MoveView::JjInSecond(
                    seq![
                        "--ignore-working-copy"@,
                        "restore"@,
                        "--from"@,
                        "@"@,
                        "--into"@,
                        id,
                        "--"@,
                        pool_path(file as int),
                    ],
                ),
                None => MoveView::Skip,
            },
            _ => MoveView::Skip,
        },
    }
}

fn bytes_of(text: &str) -> (r: Vec<u8>)
    ensures
        r@ == encode_utf8(text@),
{
    slice_to_vec(text.as_bytes())
}

fn touch_content(facts: &ActionFacts, file: usize, line: u8, seed: u8) -> (r: Option<Vec<u8>>)
    ensures
        r is Some == (lines_of(facts.text@).len() > 0),
        r is Some ==> r->0@ == encode_utf8(
            touched_text(facts.text@, line as nat, touched_line(file as nat, seed as nat)),
        ),
{
    let mut all = split_lines(facts.text.as_str());
    let ghost lines = views(all@);
    assert(lines.len() == all@.len());
    if all.len() == 0 {
        return None;
    }
    let at: usize = line as usize % all.len();
    let mut replacement = "f".to_owned();
    replacement.append(to_decimal(file as u64).as_str());
    replacement.append("-touched-s");
    replacement.append(to_decimal(seed as u64).as_str());
    all.set(at, replacement);
    let ghost touched = lines.update(at as int, replacement@);
    assert(views(all@) =~= touched);
    let mut text = String::new();
    let mut i: usize = 0;
    assert(text@ =~= with_newlines(touched.take(0)));
    while i < all.len()
        invariant
            i <= all.len(),
            touched == views(all@),
            text@ == with_newlines(touched.take(i as int)),
        decreases all.len() - i,
    {
        proof {
            assert(touched[i as int] == all@[i as int]@);
            assert(touched.take(i + 1).drop_last() =~= touched.take(i as int));
            assert(touched.take(i + 1).last() == touched[i as int]);
        }
        text.append(all[i].as_str());
        text.append("\n");
        i += 1;
    }
    assert(touched.take(i as int) =~= touched);
    Some(bytes_of(text.as_str()))
}

fn gitignore_text(variant: usize) -> (r: &'static str)
    ensures
        r@ == gitignore_variant(variant as int),
{
    if variant == 0 {
        "*.log\n"
    } else if variant == 1 {
        "dir/\n"
    } else if variant == 2 {
        "e.rs\n"
    } else {
        "*.log\ndir/\n"
    }
}

/// What an action that edits files does first.
fn file_move(action: Action, facts: &ActionFacts) -> (r: Option<Move>)
    ensures
        r is Some ==> r->0@ == first_move(action, Delivery::Perfect, false, false, *facts),
        r is Some <==> (action is Write || action is Append || action is Touch || action is Delete
            || action is RenameFile || action is MoveDir || action is WriteGitignore || action is DeleteGitignore
            || action is SetExecBit || action is RemoteCommit),
{
    match action {
        Action::Write { file, lines, seed } => Some(
            Move::WriteFile {
                path: pool_name(file).to_owned(),
                content: bytes_of(seeded_content(file, lines, seed).as_str()),
            },
        ),
        Action::Append { file, lines, seed } => {
            if !facts.exists {
                return Some(Move::Skip);
            }
            let mut content = slice_to_vec(facts.bytes.as_slice());
            let more = bytes_of(seeded_content(file, lines, seed).as_str());
            content.extend_from_slice(more.as_slice());
            assert(content@ =~= facts.bytes@ + more@);
            Some(Move::WriteFile { path: pool_name(file).to_owned(), content })
        },
        Action::Touch { file, line, seed } => {
            if !facts.exists {
                return Some(Move::Skip);
            }
            match touch_content(facts, file, line, seed) {
                Some(content) => Some(Move::WriteFile { path: pool_name(file).to_owned(), content }),
                None => Some(Move::Skip),
            }
        },
        Action::Delete { file } => {
            if facts.exists {
                Some(Move::RemoveFile { path: pool_name(file).to_owned() })
            } else {
                Some(Move::Skip)
            }
        },
        Action::RenameFile { from, to } => {
            if from != to && facts.is_file {
                Some(Move::RenamePath { from: pool_name(from).to_owned(), to: pool_name(to).to_owned() })
            } else {
                Some(Move::Skip)
            }
        },
        Action::MoveDir => {
            if facts.dir_is_dir && !facts.dir2_exists {
                Some(Move::RenamePath { from: "dir".to_owned(), to: "dir2".to_owned() })
            } else if facts.dir2_is_dir && !facts.dir_exists {
                Some(Move::RenamePath { from: "dir2".to_owned(), to: "dir".to_owned() })
            } else {
                Some(Move::Skip)
            }
        },
        Action::WriteGitignore { variant } => Some(
            Move::WriteFile {
                path: ".gitignore".to_owned(),
                content: bytes_of(gitignore_text(variant as usize % VARIANT_COUNT)),
            },
        ),
        Action::DeleteGitignore => {
            if facts.exists {
                Some(Move::RemoveFile { path: ".gitignore".to_owned() })
            } else {
                Some(Move::Skip)
            }
        },
        Action::SetExecBit { file, on } => {
            let mode: u32 = if on {
                facts.mode | 0o111
            } else {
                facts.mode & !0o111
            };
            assert(mode == exec_mode(facts.mode, on));
            if facts.is_file && mode != facts.mode {
                Some(Move::SetMode { path: pool_name(file).to_owned(), mode })
            } else {
                Some(Move::Skip)
            }
        },
        Action::RemoteCommit { file, lines, seed } => Some(
            Move::CommitToRemote {
                path: pool_name(file).to_owned(),
                content: bytes_of(seeded_content(file, lines, seed).as_str()),
            },
        ),
        _ => None,
    }
}

/// What an action that runs jj does first.
fn jj_move(action: Action) -> (r: Option<Move>)
    ensures
        r is Some ==> forall|facts: ActionFacts| #[trigger] first_move(action, Delivery::Perfect, false, true, facts) == r->0@,
        r is Some <==> (action is JjNew || action is JjCommit || action is JjDescribe || action is JjAbandon
            || action is JjSquash || action is JjUndo || action is JjEditPrior || action is JjRestoreAll
            || action is JjRestoreFile || action is JjSplit || action is JjRebase || action is JjNewMerge
            || action is SetMarkerStyle || action is JjGitFetch || action is JjNewOnRemote
            || action is RewriteOtherWsAncestor || action is RewriteWatchedWsAncestor),
{
    match action {
        Action::JjNew => Some(Move::Jj(words1("new"))),
        Action::JjCommit => {
            let args = word(word(words1("commit"), "-m"), "commit");
            assert(views(args@) =~= seq!["commit"@, "-m"@, "commit"@]);
            Some(Move::Jj(args))
        },
        Action::JjDescribe { seed } => {
            let mut message = "desc-".to_owned();
            message.append(to_decimal(seed as u64).as_str());
            let args = word(word(words1("describe"), "-m"), message.as_str());
            assert(views(args@) =~= seq!["describe"@, "-m"@, "desc-"@ + decimal(seed as nat)]);
            Some(Move::Jj(args))
        },
        Action::JjAbandon => Some(Move::Jj(words1("abandon"))),
        Action::JjSquash => Some(Move::Query(log_words("@-", "if(root, \"root\", \"ok\")"))),
        Action::JjUndo => Some(Move::Undo),
        Action::JjEditPrior { nth } => Some(Move::Query(log_words("mutable() ~ @", "change_id ++ \"\\n\""))),
        Action::JjRestoreAll => Some(Move::Jj(words1("restore"))),
        Action::JjRestoreFile { file } => {
            let args = word(words1("restore"), pool_name(file));
            assert(views(args@) =~= seq!["restore"@, pool_path(file as int)]);
            Some(Move::Jj(args))
        },
        Action::JjSplit { file } => {
            let args = word(word(word(word(words1("split"), "-m"), "split-out"), "--"), pool_name(file));
            assert(views(args@) =~= seq!["split"@, "-m"@, "split-out"@, "--"@, pool_path(file as int)]);
            Some(Move::Jj(args))
        },
        Action::JjRebase { nth } => Some(Move::Query(log_words("all() ~ @", "change_id ++ \"\\n\""))),
        Action::JjNewMerge { nth } => Some(Move::Query(log_words("heads(all()) ~ ::@", "change_id ++ \"\\n\""))),
        Action::SetMarkerStyle { style } => Some(Move::Query(log_words("@ & conflicts()", "\"c\""))),
        Action::JjGitFetch => {
            let args = word(words1("git"), "fetch");
            assert(views(args@) =~= seq!["git"@, "fetch"@]);
            Some(Move::Jj(args))
        },
        Action::JjNewOnRemote => Some(Move::Query(log_words("main@origin", "\"\""))),
        Action::RewriteOtherWsAncestor { file } => {
            let first = word(word(word(words1("restore"), "--from"), "@"), "--into");
            let args = word(word(word(first, "second@"), "--"), pool_name(file));
            assert(views(args@) =~= seq![
                "restore"@,
                "--from"@,
                "@"@,
                "--into"@,
                "second@"@,
                "--"@,
                pool_path(file as int),
            ]);
            Some(Move::Jj(args))
        },
        Action::RewriteWatchedWsAncestor { file, nth } => {
            let first = word(word(word(words1("--ignore-working-copy"), "log"), "--no-graph"), "-r");
            let args = word(
                word(word(first, "(mutable() & ::default@) ~ ::@"), "-T"),
                "change_id ++ \"\\n\"",
            );
            assert(views(args@) =~= seq!["--ignore-working-copy"@] + log_args(
                "(mutable() & ::default@) ~ ::@"@,
                id_template(),
            ));
            Some(Move::QuerySecond(args))
        },
        _ => None,
    }
}

/// What an action does first: edits of files depend on what is on disk, work with the
/// second workspace on whether there is one, and actions that query the watched workspace
/// are skipped while it is stale.
pub fn begin_action(
    action: Action,
    delivery: Delivery,
    watched_stale: bool,
    has_second: bool,
    facts: &ActionFacts,
) -> (r: Move)
    ensures
        r@ == first_move(action, delivery, watched_stale, has_second, *facts),
{
    let fragile: bool = match action {
        Action::JjSquash
        | Action::JjEditPrior { .. }
        | Action::JjRebase { .. }
        | Action::JjNewMerge { .. }
        | Action::SetMarkerStyle { .. } => true,
        _ => false,
    };
    if watched_stale && fragile {
        return Move::Skip;
    }
    if let Some(step) = file_move(action, facts) {
        return step;
    }
    let wants_second: bool = match action {
        Action::WorkspaceOp { .. }
        | Action::RewriteOtherWsAncestor { .. }
        | Action::RewriteWatchedWsAncestor { .. }
        | Action::WorkspaceForget => true,
        _ => false,
    };
    if wants_second && !has_second {
        return Move::Skip;
    }
    if let Some(step) = jj_move(action) {
        assert(first_move(action, Delivery::Perfect, false, true, *facts) == step@);
        return step;
    }
    match action {
        Action::DropPendingEvents => {
            if delivery == Delivery::Lossy {
                Move::ArmDrop
            } else {
                Move::Skip
            }
        },
        Action::WorkspaceAdd => {
            if has_second {
                Move::Skip
            } else {
                Move::AddWorkspace
            }
        },
        Action::WorkspaceOp { file, lines, seed } => Move::WriteInSecond {
            path: pool_name(file).to_owned(),
            content: bytes_of(seeded_content(file, lines, seed).as_str()),
        },
        Action::WorkspaceUpdateStale => Move::UpdateStale,
        Action::WorkspaceForget => Move::ForgetWorkspace,
        _ => Move::Skip,
    }
}

/// What an action does with the output of its query.
pub fn continue_action(action: Action, output: Option<&str>) -> (r: Move)
    ensures
        r@ == move_after_query(action, crate::ignore_filter::opt_str(output)),
{
    let out = match output {
        Some(out) => out,
        None => {
            return Move::Skip;
        },
    };
    match action {
        Action::JjSquash => {
            if contains_text(out, "root") {
                Move::Skip
            } else {
                let args = word(word(words1("squash"), "-m"), "squashed");
                assert(views(args@) =~= seq!["squash"@, "-m"@, "squashed"@]);
                Move::Jj(args)
            }
        },
        Action::JjEditPrior { nth } => match choose_id(out, nth) {
            Some(id) => {
                let args = word(words1("edit"), id.as_str());
                assert(views(args@) =~= seq!["edit"@, id@]);
                Move::Jj(args)
            },
            None => Move::Skip,
        },
        Action::JjRebase { nth } => match choose_id(out, nth) {
            Some(id) => {
                let args = word(word(word(word(words1("rebase"), "-r"), "@"), "-d"), id.as_str());
                assert(views(args@) =~= seq!["rebase"@, "-r"@, "@"@, "-d"@, id@]);
                Move::Jj(args)
            },
            None => Move::Skip,
        },
        Action::JjNewMerge { nth } => match choose_id(out, nth) {
            Some(id) => {
                let args = word(word(words1("new"), "@"), id.as_str());
                assert(views(args@) =~= seq!["new"@, "@"@, id@]);
                Move::Jj(args)
            },
            None => Move::Skip,
        },
        Action::SetMarkerStyle { style } => {
            if !out.is_empty() {
                return Move::Skip;
            }
            let style: u8 = style % 3;
            let name = if style == 0 {
                "diff"
            } else if style == 1 {
                "snapshot"
            } else {
                "git"
            };
            let first = word(word(word(words1("config"), "set"), "--repo"), "ui.conflict-marker-style");
            let args = word(first, name);
            assert(views(args@) =~= seq![
                "config"@,
                "set"@,
                "--repo"@,
                "ui.conflict-marker-style"@,
                style_name(style as int),
            ]);
            Move::JjQuiet(args)
        },
        Action::JjNewOnRemote => {
            let args = word(words1("new"), "main@origin");
            assert(views(args@) =~= seq!["new"@, "main@origin"@]);
            Move::Jj(args)
        },
        Action::RewriteWatchedWsAncestor { file, nth } => match choose_id(out, nth) {
            Some(id) => {
                let first = word(word(word(words1("--ignore-working-copy"), "restore"), "--from"), "@");
                let args = word(word(word(word(first, "--into"), id.as_str()), "--"), pool_name(file));
                assert(views(args@) =~= seq![
                    "--ignore-working-copy"@,
                    "restore"@,
                    "--from"@,
                    "@"@,
                    "--into"@,
                    id@,
                    "--"@,
                    pool_path(file as int),
                ]);
                Move::JjInSecond(args)
            },
            None => Move::Skip,
        },
        _ => Move::Skip,
    }
}

/// A file on disk: its executable bit and its content.
pub struct MirrorEntry {
    pub executable: bool,
    pub content: Vec<u8>,
}

impl DeepView for MirrorEntry {
    type V = (bool, Seq<u8>);

    open spec fn deep_view(&self) -> (bool, Seq<u8>) {
        (self.executable, self.content@)
    }
}

/// Whether a path is different in two states of the disk.
pub open spec fn differs(
    before: Map<Seq<char>, (bool, Seq<u8>)>,
    after: Map<Seq<char>, (bool, Seq<u8>)>,
    path: Seq<char>,
) -> bool {
    ||| before.contains_key(path) != after.contains_key(path)
    ||| before.contains_key(path) && after.contains_key(path) && before[path] != after[path]
}

/// The paths that are different in two states of the disk, in order.
pub open spec fn differing_paths(
    before: Map<Seq<char>, (bool, Seq<u8>)>,
    after: Map<Seq<char>, (bool, Seq<u8>)>,
) -> Seq<Seq<char>> {
    in_order(Set::new(|path: Seq<char>| differs(before, after, path)))
}

/// Paths whose state differs between two mirrors (added, removed, changed content or exec
/// bit), in order.
pub fn changed_paths(before: &FileTable<MirrorEntry>, after: &FileTable<MirrorEntry>) -> (r: Vec<String>)
    requires
        before.wf(),
        after.wf(),
    ensures
        views(r@) == differing_paths(before@, after@),
        lists_in_order(views(r@), Set::new(|path: Seq<char>| differs(before@, after@, path))),
{
    let mut out: Vec<String> = Vec::new();
    let ghost b = before@;
    let ghost a = after@;
    let ghost wanted = Set::new(|path: Seq<char>| differs(b, a, path));
    proof {
        before.paths_are_domain();
        after.paths_are_domain();
        assert(views(out@) =~= Seq::empty());
        assert(views(out@).to_set() =~= wanted.intersect(after.paths().take(0).to_set()));
    }
    let n: usize = after.len();
    let mut i: usize = 0;
    while i < n
        invariant
            before.wf(),
            after.wf(),
            b == before@,
            a == after@,
            wanted == Set::new(|path: Seq<char>| differs(b, a, path)),
            i <= n == after.paths().len(),
            after.paths().no_duplicates(),
            views(out@).no_duplicates(),
            views(out@).to_set() == wanted.intersect(after.paths().take(i as int).to_set()),
        decreases n - i,
    {
        let path = after.path_at(i);
        let entry = after.value_at(i);
        let same: bool = match before.get(path.as_str()) {
            Some(old_entry) => old_entry.executable == entry.executable && bytes_eq(
                old_entry.content.as_slice(),
                entry.content.as_slice(),
            ),
            None => false,
        };
        let ghost so_far = after.paths().take(i as int);
        proof {
            assert(after.paths().take(i + 1) =~= so_far.push(path@));
            so_far.lemma_push_to_set_commute(path@);
            assert(!so_far.contains(path@)) by {
                if so_far.contains(path@) {
                    let k = choose|k: int| 0 <= k < i && so_far[k] == path@;
                    assert(after.paths()[k] == after.paths()[i as int]);
                }
            }
            assert(!same == wanted.contains(path@));
        }
        if !same {
            let copy = path.clone();
            let ghost list = out@;
            out.push(copy);
            proof {
                lemma_views_push(list, copy);
                assert(!views(list).to_set().contains(path@));
                crate::pairing::lemma_push_new(views(list), path@);
            }
        }
        assert(views(out@).to_set() =~= wanted.intersect(after.paths().take(i + 1).to_set()));
        i += 1;
    }
    let ghost in_after = after.paths().to_set();
    let m: usize = before.len();
    let mut j: usize = 0;
    proof {
        assert(after.paths().take(n as int) =~= after.paths());
        assert(views(out@).to_set() =~= wanted.intersect(in_after + before.paths().take(0).to_set()));
    }
    while j < m
        invariant
            before.wf(),
            after.wf(),
            b == before@,
            a == after@,
            wanted == Set::new(|path: Seq<char>| differs(b, a, path)),
            in_after == a.dom(),
            j <= m == before.paths().len(),
            before.paths().no_duplicates(),
            views(out@).no_duplicates(),
            views(out@).to_set() == wanted.intersect(in_after + before.paths().take(j as int).to_set()),
        decreases m - j,
    {
        let path = before.path_at(j);
        let ghost so_far = before.paths().take(j as int);
        proof {
            assert(before.paths().take(j + 1) =~= so_far.push(path@));
            so_far.lemma_push_to_set_commute(path@);
            assert(!so_far.contains(path@)) by {
                if so_far.contains(path@) {
                    let k = choose|k: int| 0 <= k < j && so_far[k] == path@;
                    assert(before.paths()[k] == before.paths()[j as int]);
                }
            }
        }
        if !after.contains(path.as_str()) {
            let copy = path.clone();
            let ghost list = out@;
            out.push(copy);
            proof {
                lemma_views_push(list, copy);
                assert(!views(list).to_set().contains(path@));
                crate::pairing::lemma_push_new(views(list), path@);
            }
        }
        assert(views(out@).to_set() =~= wanted.intersect(in_after + before.paths().take(j + 1).to_set()));
        j += 1;
    }
    proof {
        assert(before.paths().take(m as int) =~= before.paths());
        assert(views(out@).to_set() =~= wanted);
    }
    sort_set(out)
}

/// The events that a replay has to deliver yet.
pub struct EventQueue {
    pub mirror: FileTable<MirrorEntry>,
    pub pending: Vec<String>,
    /// The events of the next changes are lost.
    pub drop_next_sync: bool,
}

impl EventQueue {
    /// Record disk changes made since the last sync. If a drop was requested, the batch is
    /// discarded instead: the mirror still advances, so those events are lost forever.
    pub fn sync_mirror(&mut self, after: FileTable<MirrorEntry>)
        requires
            old(self).mirror.wf(),
            after.wf(),
        ensures
            final(self).mirror == after,
            !final(self).drop_next_sync,
            views(final(self).pending@) == if old(self).drop_next_sync {
                views(old(self).pending@)
            } else {
                views(old(self).pending@) + differing_paths(old(self).mirror@, after@)
            },
    {
        let changed = changed_paths(&self.mirror, &after);
        self.mirror = after;
        if self.drop_next_sync {
            self.drop_next_sync = false;
        } else {
            let ghost start = views(self.pending@);
            let ghost all = views(changed@);
            let ghost kept = self.mirror;
            let mut i: usize = 0;
            assert(start + all.take(0) =~= start);
            while i < changed.len()
                invariant
                    i <= changed.len(),
                    all == views(changed@),
                    self.mirror == kept,
                    !self.drop_next_sync,
                    views(self.pending@) == start + all.take(i as int),
                decreases changed.len() - i,
            {
                let copy = changed[i].clone();
                let ghost before = self.pending@;
                self.pending.push(copy);
                proof {
                    lemma_views_push(before, copy);
                    assert(all[i as int] == copy@);
                    assert(start + all.take(i + 1) =~= (start + all.take(i as int)).push(copy@));
                }
                i += 1;
            }
            assert(all.take(i as int) =~= all);
        }
    }
}

/// Two states of the disk have no differing paths exactly where they are the same.
pub proof fn same_disk_no_events(
    before: Map<Seq<char>, (bool, Seq<u8>)>,
    after: Map<Seq<char>, (bool, Seq<u8>)>,
)
    ensures
        (forall|path: Seq<char>| !#[trigger] differs(before, after, path)) <==> before == after,
{
    if forall|path: Seq<char>| !#[trigger] differs(before, after, path) {
        assert forall|path: Seq<char>| before.contains_key(path) == after.contains_key(path) by {
            assert(!differs(before, after, path));
        }
        assert forall|path: Seq<char>| before.contains_key(path) implies before[path] == after[path] by {
            assert(!differs(before, after, path));
        }
        assert(before =~= after);
    }
}

/// Whether the worker's numbers must match those of `jj diff --stat` after an action: in
/// perfect mode whenever the action yielded a status, unless the watched workspace is
/// stale, so that jj has no numbers.
pub fn must_match_now(delivery: Delivery, watched_stale: bool, has_status: bool) -> (r: bool)
    ensures
        r == (delivery == Delivery::Perfect && !watched_stale && has_status),
{
    delivery == Delivery::Perfect && !watched_stale && has_status
}

/// Whether the worker's counts are those of `jj diff --stat`.
pub fn matches_oracle(counts: &DiffCounts, files: u32, added: u32, removed: u32) -> (r: bool)
    ensures
        r == (counts.file_mad_count == files && counts.lines_added == added && counts.lines_removed == removed),
{
    counts.file_mad_count == files && counts.lines_added == added && counts.lines_removed == removed
}

/// The lengths that sequences may have: from three up to a bound, which is ten where none
/// is set and at least four.
pub fn seq_len(bound: Option<usize>) -> (r: (usize, usize))
    ensures
        r.0 == 3,
        r.1 == match bound {
            Some(n) => if n < 4 {
                4
            } else {
                n
            },
            None => 10,
        },
{
    let max: usize = match bound {
        Some(n) => if n < 4 {
            4
        } else {
            n
        },
        None => 10,
    };
    (3, max)
}

} // verus!
