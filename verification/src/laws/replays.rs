//! Sequences of actions that the engine is held against.

use crate::laws::lines::{every_line_is_a_line, lines_of_two_texts_add_up};
use crate::lines::lines_of;
use crate::replay::{
    differs, exec_mode, first_move, gitignore_variant, holds, ids_in, move_after_query, pool_path,
    seeded_line_text, seeded_text, touched_line, touched_text, with_newlines, Action,
    ActionFacts, Delivery, MoveView,
};
use crate::strings::decimal;
use vstd::prelude::*;
use vstd::utf8::encode_utf8;

verus! {

/// Text that is written behind another one is one more line for each seeded line: as many
/// lines come out as were asked for, and each tells the file, the seed and its number.
pub proof fn seeded_lines_are_numbered(file: nat, lines: nat, seed: nat)
    ensures
        seeded_text(file, 0, seed).len() == 0,
        seeded_text(file, lines + 1, seed) == seeded_text(file, lines, seed) + seeded_line_text(file, seed, lines),
        seeded_line_text(file, seed, lines) == "f"@ + decimal(file) + "-s"@ + decimal(seed) + "-line"@ + decimal(lines)
            + "\n"@,
        touched_line(file, seed) == "f"@ + decimal(file) + "-touched-s"@ + decimal(seed),
{
}

/// The lines of a list, each with its end, are the lines of the text that they make.
pub proof fn lines_with_ends_come_back(list: Seq<Seq<char>>)
    requires
        forall|i: int| 0 <= i < list.len() ==> !(#[trigger] list[i]).contains('\n') && (list[i].len() == 0
            || list[i].last() != '\r'),
    ensures
        lines_of(with_newlines(list)) == list,
        with_newlines(list).len() == 0 || with_newlines(list).last() == '\n',
    decreases list.len(),
{
    reveal_strlit("\n");
    if list.len() > 0 {
        let rest = list.drop_last();
        let last = list.last();
        assert(last == list[list.len() - 1]);
        assert forall|i: int| 0 <= i < rest.len() implies !(#[trigger] rest[i]).contains('\n') && (rest[i].len() == 0
            || rest[i].last() != '\r') by {
            assert(rest[i] == list[i]);
        }
        lines_with_ends_come_back(rest);
        let empty = Seq::<char>::empty();
        every_line_is_a_line(last, empty);
        let line = last + "\n"@;
        assert("\n"@ =~= seq!['\n']);
        assert(last + seq!['\n'] + empty =~= line);
        assert(with_newlines(list) =~= with_newlines(rest) + line);
        lines_of_two_texts_add_up(with_newlines(rest), line);
        every_line_is_a_line(empty, empty);
        assert(seq![last] + lines_of(empty) =~= seq![last]);
        assert(rest + seq![last] =~= list);
    } else {
        every_line_is_a_line(with_newlines(list), Seq::empty());
        assert(lines_of(with_newlines(list)) =~= list);
    }
}

/// A touched text has the replacement in place of one line, which one wraps round, and all
/// other lines as they were.
pub proof fn touching_replaces_one_line(text: Seq<char>, line: nat, replacement: Seq<char>)
    requires
        lines_of(text).len() > 0,
        !replacement.contains('\n'),
        replacement.len() == 0 || replacement.last() != '\r',
        forall|i: int|
            0 <= i < lines_of(text).len() ==> !(#[trigger] lines_of(text)[i]).contains('\n') && (lines_of(text)[i].len()
                == 0 || lines_of(text)[i].last() != '\r'),
    ensures
        lines_of(touched_text(text, line, replacement)) == lines_of(text).update(
            (line % lines_of(text).len()) as int,
            replacement,
        ),
{
    let all = lines_of(text).update((line % lines_of(text).len()) as int, replacement);
    assert forall|i: int| 0 <= i < all.len() implies !(#[trigger] all[i]).contains('\n') && (all[i].len() == 0
        || all[i].last() != '\r') by {
        if i != (line % lines_of(text).len()) as int {
            assert(all[i] == lines_of(text)[i]);
        }
    }
    lines_with_ends_come_back(all);
}

/// An edit of a file writes, extends or removes just that file, and does nothing where it is
/// not there; renames move a regular file to another path; a mode is set only where it is
/// another one.
pub proof fn file_actions_do_what_they_say(
    file: usize,
    other: usize,
    lines: u8,
    seed: u8,
    on: bool,
    delivery: Delivery,
    stale: bool,
    second: bool,
    facts: ActionFacts,
)
    ensures
        first_move(Action::Write { file, lines, seed }, delivery, stale, second, facts) == (MoveView::WriteFile {
            path: pool_path(file as int),
            content: encode_utf8(seeded_text(file as nat, lines as nat, seed as nat)),
        }),
        facts.exists ==> first_move(Action::Append { file, lines, seed }, delivery, stale, second, facts) == (
        MoveView::WriteFile {
            path: pool_path(file as int),
            content: facts.bytes@ + encode_utf8(seeded_text(file as nat, lines as nat, seed as nat)),
        }),
        !facts.exists ==> first_move(Action::Append { file, lines, seed }, delivery, stale, second, facts) is Skip
            && first_move(Action::Delete { file }, delivery, stale, second, facts) is Skip,
        facts.exists ==> first_move(Action::Delete { file }, delivery, stale, second, facts) == (MoveView::RemoveFile {
            path: pool_path(file as int),
        }),
        file != other && facts.is_file ==> first_move(
            Action::RenameFile { from: file, to: other },
            delivery,
            stale,
            second,
            facts,
        ) == (MoveView::RenamePath { from: pool_path(file as int), to: pool_path(other as int) }),
        file == other || !facts.is_file ==> first_move(
            Action::RenameFile { from: file, to: other },
            delivery,
            stale,
            second,
            facts,
        ) is Skip,
        facts.is_file && exec_mode(facts.mode, on) != facts.mode ==> first_move(
            Action::SetExecBit { file, on },
            delivery,
            stale,
            second,
            facts,
        ) == (MoveView::SetMode { path: pool_path(file as int), mode: exec_mode(facts.mode, on) }),
        exec_mode(facts.mode, true) == facts.mode | 0o111,
        exec_mode(facts.mode, false) == facts.mode & !0o111,
        facts.dir_is_dir && !facts.dir2_exists ==> first_move(Action::MoveDir, delivery, stale, second, facts) == (
        MoveView::RenamePath { from: "dir"@, to: "dir2"@ }),
        !facts.dir_is_dir && facts.dir2_is_dir && !facts.dir_exists ==> first_move(
            Action::MoveDir,
            delivery,
            stale,
            second,
            facts,
        ) == (MoveView::RenamePath { from: "dir2"@, to: "dir"@ }),
        pool_path(0) == "a.txt"@ && pool_path(1) == "b.txt"@ && pool_path(2) == "dir/c.txt"@,
        pool_path(3) == "dir/sub/d.txt"@ && pool_path(4) == "e.rs"@ && pool_path(5) == "x.log"@,
{
}

/// Actions that run jj run it with the arguments of their operation; those that ask first go
/// on with the change that they picked, wrapping round among those that were listed, and do
/// nothing where none was.
pub proof fn jj_actions_run_their_operation(
    nth: u8,
    seed: u8,
    file: usize,
    output: Seq<char>,
    delivery: Delivery,
    second: bool,
    facts: ActionFacts,
)
    ensures
        first_move(Action::JjNew, delivery, false, second, facts) == MoveView::Jj(seq!["new"@]),
        first_move(Action::JjCommit, delivery, false, second, facts) == MoveView::Jj(
            seq!["commit"@, "-m"@, "commit"@],
        ),
        first_move(Action::JjDescribe { seed }, delivery, false, second, facts) == MoveView::Jj(
            seq!["describe"@, "-m"@, "desc-"@ + decimal(seed as nat)],
        ),
        first_move(Action::JjAbandon, delivery, false, second, facts) == MoveView::Jj(seq!["abandon"@]),
        first_move(Action::JjRestoreAll, delivery, false, second, facts) == MoveView::Jj(seq!["restore"@]),
        first_move(Action::JjRestoreFile { file }, delivery, false, second, facts) == MoveView::Jj(
            seq!["restore"@, pool_path(file as int)],
        ),
        first_move(Action::JjGitFetch, delivery, false, second, facts) == MoveView::Jj(seq!["git"@, "fetch"@]),
        first_move(Action::JjUndo, delivery, false, second, facts) is Undo,
        first_move(Action::JjSquash, delivery, true, second, facts) is Skip,
        first_move(Action::JjRebase { nth }, delivery, true, second, facts) is Skip,
        move_after_query(Action::JjEditPrior { nth }, None) is Skip,
        ids_in(output).len() == 0 ==> move_after_query(Action::JjEditPrior { nth }, Some(output)) is Skip
            && move_after_query(Action::JjRebase { nth }, Some(output)) is Skip && move_after_query(
            Action::JjNewMerge { nth },
            Some(output),
        ) is Skip,
        ids_in(output).len() > 0 ==> {
            let id = ids_in(output)[nth as int % ids_in(output).len() as int];
            &&& move_after_query(Action::JjEditPrior { nth }, Some(output)) == MoveView::Jj(seq!["edit"@, id])
            &&& move_after_query(Action::JjRebase { nth }, Some(output)) == MoveView::Jj(
                seq!["rebase"@, "-r"@, "@"@, "-d"@, id],
            )
            &&& move_after_query(Action::JjNewMerge { nth }, Some(output)) == MoveView::Jj(seq!["new"@, "@"@, id])
        },
        holds(output, "root"@) ==> move_after_query(Action::JjSquash, Some(output)) is Skip,
        !holds(output, "root"@) ==> move_after_query(Action::JjSquash, Some(output)) == MoveView::Jj(
            seq!["squash"@, "-m"@, "squashed"@],
        ),
        move_after_query(Action::JjNewOnRemote, Some(output)) == MoveView::Jj(seq!["new"@, "main@origin"@]),
        ids_in(output) == lines_of(output).filter(|line: Seq<char>| line.len() > 0),
{
}

/// A path has changed exactly where it came, went, or has another content or another
/// executable bit.
pub proof fn every_difference_is_an_event(
    before: Map<Seq<char>, (bool, Seq<u8>)>,
    after: Map<Seq<char>, (bool, Seq<u8>)>,
    path: Seq<char>,
)
    ensures
        before.contains_key(path) && !after.contains_key(path) ==> differs(before, after, path),
        !before.contains_key(path) && after.contains_key(path) ==> differs(before, after, path),
        before.contains_key(path) && after.contains_key(path) ==> (differs(before, after, path) <==> before[path].0
            != after[path].0 || before[path].1 != after[path].1),
        !before.contains_key(path) && !after.contains_key(path) ==> !differs(before, after, path),
{
}

/// Actions that pick a change list those that may be picked; the second workspace is worked
/// with only where there is one; lost events are made up in lossy mode alone.
pub proof fn queries_list_what_may_be_picked(
    nth: u8,
    style: u8,
    variant: u8,
    file: usize,
    delivery: Delivery,
    second: bool,
    facts: ActionFacts,
)
    ensures
        ({
            let ids = "change_id ++ \"\\n\""@;
            let log = |revset: Seq<char>, template: Seq<char>|
                seq!["log"@, "--no-graph"@, "-r"@, revset, "-T"@, template];
            &&& first_move(Action::JjEditPrior { nth }, delivery, false, second, facts) == MoveView::Query(
                log("mutable() ~ @"@, ids),
            )
            &&& first_move(Action::JjRebase { nth }, delivery, false, second, facts) == MoveView::Query(
                log("all() ~ @"@, ids),
            )
            &&& first_move(Action::JjNewMerge { nth }, delivery, false, second, facts) == MoveView::Query(
                log("heads(all()) ~ ::@"@, ids),
            )
            &&& first_move(Action::SetMarkerStyle { style }, delivery, false, second, facts) == MoveView::Query(
                log("@ & conflicts()"@, "\"c\""@),
            )
        }),
        first_move(Action::DropPendingEvents, Delivery::Lossy, false, second, facts) is ArmDrop,
        first_move(Action::DropPendingEvents, Delivery::Perfect, false, second, facts) is Skip,
        first_move(Action::WorkspaceAdd, delivery, false, true, facts) is Skip,
        first_move(Action::WorkspaceAdd, delivery, false, false, facts) is AddWorkspace,
        first_move(Action::WorkspaceForget, delivery, false, false, facts) is Skip,
        first_move(Action::WorkspaceForget, delivery, false, true, facts) is ForgetWorkspace,
        first_move(Action::RewriteOtherWsAncestor { file }, delivery, false, false, facts) is Skip,
        move_after_query(Action::SetMarkerStyle { style }, Some(Seq::empty())) == MoveView::JjQuiet(
            seq![
                "config"@,
                "set"@,
                "--repo"@,
                "ui.conflict-marker-style"@,
                if style % 3 == 0 {
                    "diff"@
                } else if style % 3 == 1 {
                    "snapshot"@
                } else {
                    "git"@
                },
            ],
        ),
        gitignore_variant(0) == "*.log\n"@ && gitignore_variant(1) == "dir/\n"@,
        gitignore_variant(2) == "e.rs\n"@ && gitignore_variant(3) == "*.log\ndir/\n"@,
        first_move(Action::WriteGitignore { variant }, delivery, false, second, facts) == (MoveView::WriteFile {
            path: ".gitignore"@,
            content: encode_utf8(gitignore_variant(variant as int % 4)),
        }),
{
}

} // verus!
