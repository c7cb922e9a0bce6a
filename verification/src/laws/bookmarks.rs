//! Bookmarks near the working copy.

use crate::bookmarks::{
    all_found, bookmarks_come_nearest_first, bookmarks_to_show, first_stuck, first_unknown, found_at, found_here, has_name, is_settled, named_at, names_in,
    names_on, nearest_search_is_one_level, passes, reach, search_misses_no_bookmark, search_walk,
    stuck_commit, stuck_from, tracking_over, unknown_commits, visit, visit_all, walk_complete, with_tracking, BookmarkView, CommitView, LocalBookmark, RemoteBookmark,
    TrackingStatus, Trail, Walk,
};
use crate::strings::decimal;
use vstd::prelude::*;

verus! {

/// Each commit of a path but the last is a child of the next one.
pub open spec fn goes_up(commits: Map<Seq<char>, CommitView>, path: Seq<Seq<char>>) -> bool {
    &&& path.len() > 0
    &&& forall|i: int|
        0 <= i < path.len() - 1 ==> commits[#[trigger] path[i]].parents is Some && commits[path[i]].parents->0.contains(
            path[i + 1],
        )
}

proof fn lemma_path_reaches(walk: Walk, path: Seq<Seq<char>>)
    requires
        goes_up(walk.commits, path),
        forall|i: int| 0 < i < path.len() - 1 ==> passes(walk, #[trigger] path[i]),
    ensures
        reach(walk, path[0], (path.len() - 1) as nat).contains(path.last()),
    decreases path.len(),
{
    if path.len() > 1 {
        let head = path.drop_last();
        let child = head.last();
        let n = path.len() - 1;
        assert forall|i: int| 0 <= i < head.len() - 1 implies walk.commits[#[trigger] head[i]].parents is Some
            && walk.commits[head[i]].parents->0.contains(head[i + 1]) by {
            assert(head[i] == path[i] && head[i + 1] == path[i + 1]);
        }
        assert forall|i: int| 0 < i < head.len() - 1 implies passes(walk, #[trigger] head[i]) by {
            assert(head[i] == path[i]);
        }
        lemma_path_reaches(walk, head);
        assert(child == path[n - 1]);
        assert(path[n] == path.last());
        assert(reach(walk, path[0], (n - 1) as nat).contains(child));
    }
}

proof fn lemma_reach_has_path(walk: Walk, wc: Seq<char>, steps: nat, id: Seq<char>) -> (path: Seq<Seq<char>>)
    requires
        reach(walk, wc, steps).contains(id),
    ensures
        path.len() == steps + 1,
        path[0] == wc,
        path.last() == id,
        goes_up(walk.commits, path),
        forall|i: int| 0 < i < path.len() - 1 ==> passes(walk, #[trigger] path[i]),
    decreases steps,
{
    if steps == 0 {
        seq![wc]
    } else {
        let before = reach(walk, wc, (steps - 1) as nat);
        let child = choose|child: Seq<char>| #[trigger]
            before.contains(child) && (steps == 1 || passes(walk, child)) && walk.commits[child].parents is Some
                && walk.commits[child].parents->0.contains(id);
        let head = lemma_reach_has_path(walk, wc, (steps - 1) as nat, child);
        let path = head.push(id);
        assert forall|i: int| 0 <= i < path.len() - 1 implies walk.commits[#[trigger] path[i]].parents is Some
            && walk.commits[path[i]].parents->0.contains(path[i + 1]) by {
            if i < head.len() - 1 {
                assert(head[i] == path[i] && head[i + 1] == path[i + 1]);
            } else {
                assert(path[i] == child && path[i + 1] == id);
            }
        }
        assert forall|i: int| 0 < i < path.len() - 1 implies passes(walk, #[trigger] path[i]) by {
            if i < head.len() - 1 {
                assert(head[i] == path[i]);
            } else {
                assert(path[i] == child);
            }
        }
        path
    }
}

proof fn lemma_names_in(list: Seq<LocalBookmark>, id: Seq<char>, place: int)
    requires
        0 <= place < list.len(),
        list[place].commit is Some,
        list[place].commit->0@ == id,
    ensures
        names_in(list, id).contains(list[place].name@),
    decreases list.len(),
{
    let name = list[place].name@;
    let before = names_in(list.drop_last(), id);
    if place < list.len() - 1 {
        assert(list.drop_last()[place] == list[place]);
        lemma_names_in(list.drop_last(), id, place);
        let k = choose|k: int| 0 <= k < before.len() && before[k] == name;
        assert(names_in(list, id)[k] == name);
    } else {
        assert(names_in(list, id).last() == name);
    }
}

proof fn lemma_name_has_place(list: Seq<LocalBookmark>, id: Seq<char>, name: Seq<char>) -> (place: int)
    requires
        names_in(list, id).contains(name),
    ensures
        0 <= place < list.len(),
        list[place].commit is Some,
        list[place].commit->0@ == id,
        list[place].name@ == name,
    decreases list.len(),
{
    let before = names_in(list.drop_last(), id);
    let last = list.last();
    if last.commit is Some && last.commit->0@ == id && last.name@ == name {
        list.len() - 1
    } else {
        let k = choose|k: int| 0 <= k < names_in(list, id).len() && names_in(list, id)[k] == name;
        assert(k < before.len());
        assert(before[k] == name);
        let place = lemma_name_has_place(list.drop_last(), id, name);
        assert(list.drop_last()[place] == list[place]);
        place
    }
}

proof fn lemma_named(
    commits: Map<Seq<char>, CommitView>,
    local: Seq<LocalBookmark>,
    max_depth: u32,
    on_line: bool,
    path: Seq<Seq<char>>,
    place: int,
)
    requires
        goes_up(commits, path),
        on_line ==> forall|i: int| 0 <= i < path.len() && (0 < i || path.len() == 1) ==> commits[#[trigger] path[i]].in_branch,
        0 <= place < local.len(),
        local[place].commit is Some,
        local[place].commit->0@ == path.last(),
    ensures
        named_at(
            search_walk(commits, local, max_depth, on_line),
            path[0],
            local[place].name@,
            (path.len() - 1) as nat,
        ),
{
    let walk = search_walk(commits, local, max_depth, on_line);
    lemma_path_reaches(walk, path);
    lemma_names_in(local, path.last(), place);
    assert(path.last() == path[path.len() - 1]);
    assert(passes(walk, path.last()));
    assert(names_on(walk, path.last()).contains(local[place].name@));
}

/// Whether a bookmark of a name is in a list, no further away than so many steps.
pub open spec fn is_shown_within(list: Seq<BookmarkView>, name: Seq<char>, steps: int) -> bool {
    exists|k: int| 0 <= k < list.len() && (#[trigger] list[k]).name == name && list[k].distance <= steps
}

/// Where the current line of work is known, every local bookmark on a commit that can be
/// reached from the working copy in no more steps than are allowed, over commits of the
/// line, is shown, at its shortest distance.
pub proof fn bookmarks_of_the_line_are_shown(
    commits: Map<Seq<char>, CommitView>,
    local: Seq<LocalBookmark>,
    remotes: Seq<RemoteBookmark>,
    max_depth: u32,
    path: Seq<Seq<char>>,
    place: int,
)
    requires
        path.len() > 0,
        path.len() - 1 <= max_depth,
        is_settled(commits, local, path[0], max_depth, true),
        forall|i: int|
            0 <= i < path.len() - 1 ==> commits[#[trigger] path[i]].parents is Some && commits[path[i]].parents->0.contains(
                path[i + 1],
            ),
        forall|i: int| 0 <= i < path.len() && (0 < i || path.len() == 1) ==> commits[#[trigger] path[i]].in_branch,
        0 <= place < local.len(),
        local[place].commit is Some,
        local[place].commit->0@ == path.last(),
    ensures
        is_shown_within(
            with_tracking(bookmarks_to_show(commits, local, path[0], max_depth, true), remotes),
            local[place].name@,
            path.len() - 1,
        ),
{
    let walk = search_walk(commits, local, max_depth, true);
    let wc = path[0];
    let name = local[place].name@;
    let found = all_found(walk, wc);
    lemma_named(commits, local, max_depth, true, path, place);
    search_misses_no_bookmark(walk, wc);
    bookmarks_come_nearest_first(walk, wc);
    assert(has_name(found, name));
    let k = choose|k: int| 0 <= k < found.len() && (#[trigger] found[k]).name == name;
    assert(found[k].distance <= path.len() - 1) by {
        if path.len() - 1 < found[k].distance {
            assert(!named_at(walk, wc, found[k].name, (path.len() - 1) as nat));
        }
    }
    let list = with_tracking(found, remotes);
    assert(list[k].name == name && list[k].distance == found[k].distance);
}

/// Where any bookmark can be reached from the working copy in no more steps than are
/// allowed, some bookmark is shown that is no further away; where the line of work is not
/// known, those at the shortest distance are all shown.
pub proof fn a_bookmark_in_reach_is_shown(
    commits: Map<Seq<char>, CommitView>,
    local: Seq<LocalBookmark>,
    remotes: Seq<RemoteBookmark>,
    max_depth: u32,
    line_known: bool,
    path: Seq<Seq<char>>,
    place: int,
)
    requires
        path.len() > 0,
        path.len() - 1 <= max_depth,
        is_settled(commits, local, path[0], max_depth, line_known),
        forall|i: int|
            0 <= i < path.len() - 1 ==> commits[#[trigger] path[i]].parents is Some && commits[path[i]].parents->0.contains(
                path[i + 1],
            ),
        0 <= place < local.len(),
        local[place].commit is Some,
        local[place].commit->0@ == path.last(),
    ensures
        ({
            let list = with_tracking(bookmarks_to_show(commits, local, path[0], max_depth, line_known), remotes);
            &&& list.len() > 0
            &&& !line_known ==> forall|k: int| 0 <= k < list.len() ==> (#[trigger] list[k]).distance <= path.len() - 1
            &&& !line_known && (exists|k: int| 0 <= k < list.len() && (#[trigger] list[k]).distance == path.len() - 1)
                ==> is_shown_within(list, local[place].name@, path.len() - 1)
        }),
{
    let wc = path[0];
    let name = local[place].name@;
    let line = all_found(search_walk(commits, local, max_depth, true), wc);
    if !(line_known && line.len() > 0) {
        let walk = search_walk(commits, local, max_depth, false);
        let found = all_found(walk, wc);
        lemma_named(commits, local, max_depth, false, path, place);
        nearest_search_is_one_level(walk, wc);
        assert(named_at(walk, wc, name, (path.len() - 1) as nat));
        let list = with_tracking(found, remotes);
        assert forall|k: int| 0 <= k < list.len() implies (#[trigger] list[k]).distance <= path.len() - 1 by {
            assert(list[k].distance == found[k].distance);
            if path.len() - 1 < found[k].distance {
                assert(!named_at(walk, wc, name, (path.len() - 1) as nat));
            }
        }
        if exists|k: int| 0 <= k < list.len() && (#[trigger] list[k]).distance == path.len() - 1 {
            let k = choose|k: int| 0 <= k < list.len() && (#[trigger] list[k]).distance == path.len() - 1;
            assert(found[k].distance == path.len() - 1);
            assert(has_name(found, name));
            let j = choose|j: int| 0 <= j < found.len() && (#[trigger] found[j]).name == name;
            assert(found[j].distance == found[k].distance);
            assert(list[j].name == name && list[j].distance == found[j].distance);
        }
    }
}

/// Every bookmark that is shown is a local one at the end of a way up from the working copy
/// with as many steps as its distance, which is no more than are allowed. The way is over
/// commits of the line of work where that is known and has a bookmark. The bookmark is shown
/// by its name, with a plus sign and its distance behind it unless that is zero. No name is
/// shown twice, and nearer bookmarks come first.
pub proof fn shown_bookmarks_are_there(
    commits: Map<Seq<char>, CommitView>,
    local: Seq<LocalBookmark>,
    remotes: Seq<RemoteBookmark>,
    wc: Seq<char>,
    max_depth: u32,
    line_known: bool,
    k: int,
) -> (r: (Seq<Seq<char>>, int))
    requires
        is_settled(commits, local, wc, max_depth, line_known),
        0 <= k < with_tracking(bookmarks_to_show(commits, local, wc, max_depth, line_known), remotes).len(),
    ensures
        ({
            let list = with_tracking(bookmarks_to_show(commits, local, wc, max_depth, line_known), remotes);
            let path = r.0;
            &&& path.len() == list[k].distance + 1
            &&& list[k].distance <= max_depth
            &&& path[0] == wc
            &&& forall|i: int|
                0 <= i < path.len() - 1 ==> commits[#[trigger] path[i]].parents is Some
                    && commits[path[i]].parents->0.contains(path[i + 1])
            &&& line_known && all_found(search_walk(commits, local, max_depth, true), wc).len() > 0 ==> forall|i: int|
                0 <= i < path.len() && (0 < i || path.len() == 1) ==> commits[#[trigger] path[i]].in_branch
            &&& 0 <= r.1 < local.len()
            &&& local[r.1].commit is Some && local[r.1].commit->0@ == path.last()
            &&& local[r.1].name@ == list[k].name
            &&& list[k].display == if list[k].distance == 0 {
                list[k].name
            } else {
                list[k].name.push('+') + decimal(list[k].distance as nat)
            }
            &&& list[k].tracking == tracking_over(remotes, list[k].name)
            &&& forall|j: int| 0 <= j < k ==> (#[trigger] list[j]).name != list[k].name && list[j].distance
                <= list[k].distance
        }),
{
    let line = search_walk(commits, local, max_depth, true);
    let walk = if line_known && all_found(line, wc).len() > 0 {
        line
    } else {
        search_walk(commits, local, max_depth, false)
    };
    let found = all_found(walk, wc);
    let list = with_tracking(found, remotes);
    bookmarks_come_nearest_first(walk, wc);
    let name = found[k].name;
    let steps = found[k].distance as nat;
    assert(list[k].name == name && list[k].distance == found[k].distance);
    assert(named_at(walk, wc, name, steps));
    let id = choose|id: Seq<char>| #[trigger]
        reach(walk, wc, steps).contains(id) && passes(walk, id) && names_on(walk, id).contains(name);
    let path = lemma_reach_has_path(walk, wc, steps, id);
    assert(path.last() == path[path.len() - 1]);
    if walk == line {
        assert forall|i: int| 0 <= i < path.len() && (0 < i || path.len() == 1) implies commits[#[trigger] path[i]].in_branch by {
            if 0 < i < path.len() - 1 {
                assert(passes(walk, path[i]));
            } else {
                assert(path[i] == id);
            }
        }
    }
    assert(names_in(local, id).contains(name));
    let place = lemma_name_has_place(local, id, name);
    assert(found[k] == found_at(name, found[k].distance));
    assert(name + seq!['+'] =~= name.push('+'));
    assert forall|j: int| 0 <= j < k implies (#[trigger] list[j]).name != list[k].name && list[j].distance
        <= list[k].distance by {
        assert(list[j].name == found[j].name && list[j].distance == found[j].distance);
    }
    (path, place)
}

proof fn lemma_level_in(walk: Walk, trail: Trail, level: Seq<Seq<char>>, depth: u32)
    requires
        is_whole(walk.commits),
        forall|i: int| 0 <= i < level.len() ==> walk.commits.contains_key(#[trigger] level[i]),
        forall|i: int| 0 <= i < trail.next.len() ==> walk.commits.contains_key(#[trigger] trail.next[i]),
    ensures
        forall|i: int|
            0 <= i < visit_all(walk, trail, level, depth).next.len() ==> walk.commits.contains_key(
                #[trigger] visit_all(walk, trail, level, depth).next[i],
            ),
    decreases level.len(),
{
    if level.len() > 0 {
        let rest = level.drop_last();
        assert forall|i: int| 0 <= i < rest.len() implies walk.commits.contains_key(#[trigger] rest[i]) by {
            assert(rest[i] == level[i]);
        }
        lemma_level_in(walk, trail, rest, depth);
        let id = level.last();
        assert(id == level[level.len() - 1]);
        let parents = walk.commits[id].parents->0;
        assert forall|i: int| 0 <= i < parents.len() implies walk.commits.contains_key(#[trigger] parents[i]) by {
            assert(parents.contains(parents[i]));
        }
        let before = visit_all(walk, trail, rest, depth);
        let after = visit(walk, before, id, depth);
        assert forall|i: int| 0 <= i < after.next.len() implies walk.commits.contains_key(#[trigger] after.next[i]) by {
            if i < before.next.len() {
                assert(after.next[i] == before.next[i]);
            } else {
                assert(after.next[i] == parents[i - before.next.len()]);
            }
        }
    }
}

proof fn lemma_whole_walk(
    walk: Walk,
    visited: Set<Seq<char>>,
    found: Seq<BookmarkView>,
    level: Seq<Seq<char>>,
    depth: u32,
)
    requires
        is_whole(walk.commits),
        forall|i: int| 0 <= i < level.len() ==> walk.commits.contains_key(#[trigger] level[i]),
    ensures
        walk_complete(walk, visited, found, level, depth),
    decreases walk.max_depth - depth,
{
    if !(depth > walk.max_depth || level.len() == 0 || (walk.nearest_only && found.len() > 0)) {
        let start = Trail { visited, found, next: Seq::empty() };
        let trail = visit_all(walk, start, level, depth);
        lemma_level_in(walk, start, level, depth);
        if depth < walk.max_depth {
            lemma_whole_walk(walk, trail.visited, trail.found, trail.next, (depth + 1) as u32);
        }
    }
}

/// All commits can be read, and their parents are all known.
pub open spec fn is_whole(commits: Map<Seq<char>, CommitView>) -> bool {
    forall|id: Seq<char>| #[trigger]
        commits.contains_key(id) ==> commits[id].parents is Some && forall|p: Seq<char>| #[trigger]
            commits[id].parents->0.contains(p) ==> commits.contains_key(p)
}

/// Where the whole history is known, the search comes to an end, whatever its depth.
pub proof fn known_history_is_searched(
    commits: Map<Seq<char>, CommitView>,
    local: Seq<LocalBookmark>,
    wc: Seq<char>,
    max_depth: u32,
    line_known: bool,
)
    requires
        commits.contains_key(wc),
        forall|id: Seq<char>| #[trigger]
            commits.contains_key(id) ==> commits[id].parents is Some && forall|p: Seq<char>| #[trigger]
                commits[id].parents->0.contains(p) ==> commits.contains_key(p),
    ensures
        is_settled(commits, local, wc, max_depth, line_known),
{
    let parents = commits[wc].parents->0;
    assert forall|i: int| 0 <= i < parents.len() implies commits.contains_key(#[trigger] parents[i]) by {
        assert(parents.contains(parents[i]));
    }
    let line = search_walk(commits, local, max_depth, true);
    let near = search_walk(commits, local, max_depth, false);
    lemma_whole_walk(line, Set::empty(), found_here(line, wc), parents, 1);
    lemma_whole_walk(near, Set::empty(), found_here(near, wc), parents, 1);
}

/// A search asks only for commits that are not known, and is stuck only at a commit without
/// parents to go on to.
pub proof fn searches_ask_for_what_is_not_known(walk: Walk, wc: Seq<char>, id: Seq<char>)
    ensures
        unknown_commits(walk, wc).contains(id) ==> !walk.commits.contains_key(id),
        stuck_commit(walk, wc) == Some(id) ==> walk.commits[id].parents is None,
        !walk.commits.contains_key(wc) ==> unknown_commits(walk, wc) == set![wc],
{
    let level = walk.commits[wc].parents->0;
    lemma_asks(walk, Set::empty(), found_here(walk, wc), level, 1, id);
}

proof fn lemma_asks(
    walk: Walk,
    visited: Set<Seq<char>>,
    found: Seq<BookmarkView>,
    level: Seq<Seq<char>>,
    depth: u32,
    id: Seq<char>,
)
    ensures
        first_unknown(walk, visited, found, level, depth).contains(id) ==> !walk.commits.contains_key(id),
        first_stuck(walk, visited, found, level, depth) == Some(id) ==> walk.commits[id].parents is None,
    decreases walk.max_depth - depth,
{
    if !(depth > walk.max_depth || level.len() == 0 || (walk.nearest_only && found.len() > 0)) {
        let start = Trail { visited, found, next: Seq::empty() };
        let trail = visit_all(walk, start, level, depth);
        lemma_stuck(walk, start, level, depth, 0);
        if depth < walk.max_depth {
            lemma_asks(walk, trail.visited, trail.found, trail.next, (depth + 1) as u32, id);
        }
    }
}

proof fn lemma_stuck(walk: Walk, trail: Trail, level: Seq<Seq<char>>, depth: u32, from: int)
    ensures
        stuck_from(walk, trail, level, depth, from) matches Some(id) ==> walk.commits[id].parents is None,
    decreases level.len() - from,
{
    if 0 <= from < level.len() {
        lemma_stuck(walk, trail, level, depth, from + 1);
    }
}

/// A bookmark that no tracked remote speaks of is untracked; one remote says how it stands:
/// in sync on the same commit, ahead where the remote is an ancestor, behind where the local
/// one is, else sideways. A remote in sync or one that is not tracked changes nothing, and
/// ahead of one remote and behind another is sideways.
pub proof fn remotes_say_how_a_bookmark_stands(
    remotes: Seq<RemoteBookmark>,
    remote: RemoteBookmark,
    name: Seq<char>,
)
    ensures
        ({
            let before = tracking_over(remotes, name);
            let after = tracking_over(remotes.push(remote), name);
            let counts = remote.name@ == name && remote.is_tracked && remote.present && remote.remote_normal
                && remote.local_normal;
            let none = tracking_over(Seq::<RemoteBookmark>::empty(), name);
            &&& none == TrackingStatus::Untracked
            &&& !counts ==> after == before
            &&& counts && before == TrackingStatus::Untracked ==> {
                &&& remote.same_commit ==> after == TrackingStatus::InSync
                &&& !remote.same_commit && remote.local_is_ancestor && !remote.remote_is_ancestor ==> after
                    == TrackingStatus::Behind
                &&& !remote.same_commit && !remote.local_is_ancestor && remote.remote_is_ancestor ==> after
                    == TrackingStatus::Ahead
                &&& !remote.same_commit && remote.local_is_ancestor == remote.remote_is_ancestor ==> after
                    == TrackingStatus::Sideways
            }
            &&& counts && before != TrackingStatus::Untracked && remote.same_commit ==> after == before
            &&& counts && before == TrackingStatus::InSync ==> after == tracking_over(seq![remote], name)
            &&& counts && before == TrackingStatus::Sideways ==> after == TrackingStatus::Sideways
            &&& counts && before == TrackingStatus::Ahead && !remote.same_commit ==> after == if remote.remote_is_ancestor
                && !remote.local_is_ancestor {
                TrackingStatus::Ahead
            } else {
                TrackingStatus::Sideways
            }
            &&& counts && before == TrackingStatus::Behind && !remote.same_commit ==> after == if remote.local_is_ancestor
                && !remote.remote_is_ancestor {
                TrackingStatus::Behind
            } else {
                TrackingStatus::Sideways
            }
        }),
{
    assert(remotes.push(remote).drop_last() =~= remotes);
    assert(remotes.push(remote).last() == remote);
    assert(seq![remote].drop_last() =~= Seq::<RemoteBookmark>::empty());
    assert(seq![remote].last() == remote);
    reveal_with_fuel(tracking_over, 3);
}

} // verus!
