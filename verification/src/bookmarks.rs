//! Bookmarks near the working copy, and how they stand to their remotes.

use crate::staging::{lemma_contains_push, lemma_views_push};
use crate::strings::{decimal, str_eq, to_decimal, views};
use crate::table::FileTable;
use vstd::prelude::*;
use vstd::string::StringExecFns;

verus! {

/// How a local bookmark stands to its remote counterpart.
#[derive(Clone, Copy, Debug, Default, PartialEq, Eq, Structural)]
pub enum TrackingStatus {
    /// No remote bookmark is tracked.
    #[default]
    Untracked,
    /// Both are on the same commit.
    InSync,
    /// The remote is an ancestor of the local one.
    Ahead,
    /// The local one is an ancestor of the remote.
    Behind,
    /// Neither is an ancestor of the other.
    Sideways,
}

/// A bookmark near the working copy.
#[derive(Debug)]
pub struct Bookmark {
    pub name: String,
    /// Steps from the working-copy commit.
    pub distance: u32,
    /// The name, with the distance where it is not zero.
    pub display: String,
    pub tracking: TrackingStatus,
}

/// What a bookmark says.
#[verifier::ext_equal]
pub struct BookmarkView {
    pub name: Seq<char>,
    pub distance: u32,
    pub display: Seq<char>,
    pub tracking: TrackingStatus,
}

impl View for Bookmark {
    type V = BookmarkView;

    open spec fn view(&self) -> BookmarkView {
        BookmarkView {
            name: self.name@,
            distance: self.distance,
            display: self.display@,
            tracking: self.tracking,
        }
    }
}

/// What the bookmarks of a list say.
pub open spec fn bookmark_views(list: Seq<Bookmark>) -> Seq<BookmarkView> {
    list.map_values(|b: Bookmark| b@)
}

impl Clone for Bookmark {
    fn clone(&self) -> (r: Self)
        ensures
            r@ == self@,
    {
        Bookmark {
            name: self.name.clone(),
            distance: self.distance,
            display: self.display.clone(),
            tracking: self.tracking,
        }
    }
}

/// A copy of a list of bookmarks.
pub fn clone_bookmarks(list: &Vec<Bookmark>) -> (r: Vec<Bookmark>)
    ensures
        bookmark_views(r@) == bookmark_views(list@),
{
    let mut out: Vec<Bookmark> = Vec::new();
    let mut i: usize = 0;
    while i < list.len()
        invariant
            i <= list.len(),
            out.len() == i,
            forall|k: int| 0 <= k < i ==> (#[trigger] out@[k])@ == list@[k]@,
        decreases list.len() - i,
    {
        out.push(list[i].clone());
        i += 1;
    }
    assert(bookmark_views(out@) =~= bookmark_views(list@));
    out
}

/// Classify the tracking status of a local bookmark vs its remote counterpart.
pub fn classify_tracking(same_commit: bool, local_is_ancestor: bool, remote_is_ancestor: bool) -> (r: TrackingStatus)
    ensures
        r == tracking_of(same_commit, local_is_ancestor, remote_is_ancestor),
{
    if same_commit {
        return TrackingStatus::InSync;
    }
    match (local_is_ancestor, remote_is_ancestor) {
        (true, false) => TrackingStatus::Behind,
        (false, true) => TrackingStatus::Ahead,
        _ => TrackingStatus::Sideways,
    }
}

/// How a bookmark stands to its remote, by which of the two commits is an ancestor.
pub open spec fn tracking_of(
    same_commit: bool,
    local_is_ancestor: bool,
    remote_is_ancestor: bool,
) -> TrackingStatus {
    if same_commit {
        TrackingStatus::InSync
    } else if local_is_ancestor && !remote_is_ancestor {
        TrackingStatus::Behind
    } else if remote_is_ancestor && !local_is_ancestor {
        TrackingStatus::Ahead
    } else {
        TrackingStatus::Sideways
    }
}

/// The worse of two statuses: being ahead of one remote and behind another is worse than
/// either.
pub open spec fn worse(a: TrackingStatus, b: TrackingStatus) -> TrackingStatus {
    if a == b || b == TrackingStatus::Untracked {
        a
    } else if a == TrackingStatus::Untracked {
        b
    } else if a == TrackingStatus::InSync {
        b
    } else if b == TrackingStatus::InSync {
        a
    } else {
        TrackingStatus::Sideways
    }
}

/// The status over several remotes does not depend on their order or on repeats.
pub proof fn worse_is_order_free(a: TrackingStatus, b: TrackingStatus, c: TrackingStatus)
    ensures
        worse(a, b) == worse(b, a),
        worse(worse(a, b), c) == worse(a, worse(b, c)),
        worse(a, a) == a,
        worse(a, TrackingStatus::Sideways) == TrackingStatus::Sideways,
{
}

fn escalate(existing: TrackingStatus, status: TrackingStatus) -> (r: TrackingStatus)
    requires
        existing != TrackingStatus::Untracked,
        status != TrackingStatus::Untracked,
    ensures
        r == worse(existing, status),
{
    match (existing, status) {
        (TrackingStatus::Sideways, _) => existing,
        (_, TrackingStatus::Sideways) => TrackingStatus::Sideways,
        (TrackingStatus::Ahead, TrackingStatus::Behind) => TrackingStatus::Sideways,
        (TrackingStatus::Behind, TrackingStatus::Ahead) => TrackingStatus::Sideways,
        (TrackingStatus::InSync, _) => status,
        _ => existing,
    }
}

/// A bookmark on a remote.
pub struct RemoteBookmark {
    pub name: String,
    pub is_tracked: bool,
    pub present: bool,
    /// Whether the remote bookmark is on one commit.
    pub remote_normal: bool,
    /// Whether the local bookmark of the name is on one commit.
    pub local_normal: bool,
    /// Whether both are on the same commit.
    pub same_commit: bool,
    pub local_is_ancestor: bool,
    pub remote_is_ancestor: bool,
}

/// Whether a remote bookmark says something of a local one.
pub open spec fn counts_for(remote: RemoteBookmark, name: Seq<char>) -> bool {
    &&& remote.name@ == name
    &&& remote.is_tracked
    &&& remote.present
    &&& remote.remote_normal
    &&& remote.local_normal
}

/// The status of a bookmark over the remotes of a list.
pub open spec fn tracking_over(remotes: Seq<RemoteBookmark>, name: Seq<char>) -> TrackingStatus
    decreases remotes.len(),
{
    if remotes.len() == 0 {
        TrackingStatus::Untracked
    } else {
        let before = tracking_over(remotes.drop_last(), name);
        let last = remotes.last();
        if counts_for(last, name) {
            worse(before, tracking_of(last.same_commit, last.local_is_ancestor, last.remote_is_ancestor))
        } else {
            before
        }
    }
}

/// The tracking status of a bookmark name over a list of remote bookmarks: the worst one
/// where there are several remotes.
pub fn tracking_status(remotes: &Vec<RemoteBookmark>, name: &str) -> (r: TrackingStatus)
    ensures
        r == tracking_over(remotes@, name@),
{
    let mut status = TrackingStatus::Untracked;
    let mut i: usize = 0;
    while i < remotes.len()
        invariant
            i <= remotes.len(),
            status == tracking_over(remotes@.take(i as int), name@),
        decreases remotes.len() - i,
    {
        let remote = &remotes[i];
        proof {
            assert(remotes@.take(i + 1).drop_last() =~= remotes@.take(i as int));
            assert(remotes@.take(i + 1).last() == *remote);
        }
        if remote.is_tracked && remote.present && remote.remote_normal && remote.local_normal && str_eq(
            remote.name.as_str(),
            name,
        ) {
            let here = classify_tracking(remote.same_commit, remote.local_is_ancestor, remote.remote_is_ancestor);
            status = if status == TrackingStatus::Untracked {
                here
            } else {
                escalate(status, here)
            };
        }
        i += 1;
    }
    assert(remotes@.take(i as int) =~= remotes@);
    status
}

/// The bookmarks with their statuses over a list of remotes.
pub open spec fn with_tracking(list: Seq<BookmarkView>, remotes: Seq<RemoteBookmark>) -> Seq<BookmarkView> {
    list.map_values(
        |b: BookmarkView|
            BookmarkView {
                tracking: if tracking_over(remotes, b.name) == TrackingStatus::Untracked {
                    b.tracking
                } else {
                    tracking_over(remotes, b.name)
                },
                ..b
            },
    )
}

/// Sets the tracking status of each bookmark of a list that a remote counts for.
pub fn compute_tracking_statuses(list: Vec<Bookmark>, remotes: &Vec<RemoteBookmark>) -> (r: Vec<Bookmark>)
    ensures
        bookmark_views(r@) == with_tracking(bookmark_views(list@), remotes@),
{
    let ghost all = bookmark_views(list@);
    let mut out: Vec<Bookmark> = Vec::new();
    let mut i: usize = 0;
    while i < list.len()
        invariant
            i <= list.len(),
            all == bookmark_views(list@),
            out.len() == i,
            forall|k: int| 0 <= k < i ==> (#[trigger] out@[k])@ == with_tracking(all, remotes@)[k],
        decreases list.len() - i,
    {
        let mut bookmark = list[i].clone();
        assert(all[i as int] == list@[i as int]@);
        let status = tracking_status(remotes, bookmark.name.as_str());
        if status != TrackingStatus::Untracked {
            bookmark.tracking = status;
        }
        out.push(bookmark);
        i += 1;
    }
    assert(bookmark_views(out@) =~= with_tracking(all, remotes@));
    out
}

/// A commit as the search for bookmarks sees it.
pub struct CommitFacts {
    /// The ids of the parents, where the commit could be read.
    pub parents: Option<Vec<String>>,
    /// Whether the commit is on the current line of work.
    pub in_branch: bool,
}

/// What a commit says.
#[verifier::ext_equal]
pub struct CommitView {
    pub parents: Option<Seq<Seq<char>>>,
    pub in_branch: bool,
}

impl DeepView for CommitFacts {
    type V = CommitView;

    open spec fn deep_view(&self) -> CommitView {
        CommitView {
            parents: match self.parents {
                Some(parents) => Some(views(parents@)),
                None => None,
            },
            in_branch: self.in_branch,
        }
    }
}

/// A list of names.
pub struct Names {
    pub list: Vec<String>,
}

impl DeepView for Names {
    type V = Seq<Seq<char>>;

    open spec fn deep_view(&self) -> Seq<Seq<char>> {
        views(self.list@)
    }
}

/// How a bookmark is shown: the distance follows its name where it is not zero.
pub open spec fn shown(name: Seq<char>, distance: u32) -> Seq<char> {
    if distance == 0 {
        name
    } else {
        name + seq!['+'] + decimal(distance as nat)
    }
}

/// A bookmark found at a distance.
pub open spec fn found_at(name: Seq<char>, distance: u32) -> BookmarkView {
    BookmarkView { name, distance, display: shown(name, distance), tracking: TrackingStatus::Untracked }
}

/// What a walk over ancestors works on.
pub struct Walk {
    pub commits: Map<Seq<char>, CommitView>,
    pub targets: Map<Seq<char>, Seq<Seq<char>>>,
    pub max_depth: u32,
    /// Whether commits outside the current line of work end the walk.
    pub filtered: bool,
    /// Whether the walk ends at the first distance with a bookmark.
    pub nearest_only: bool,
}

/// Whether the walk goes through a commit.
pub open spec fn passes(walk: Walk, id: Seq<char>) -> bool {
    !walk.filtered || walk.commits[id].in_branch
}

/// The names of the bookmarks on a commit.
pub open spec fn names_on(walk: Walk, id: Seq<char>) -> Seq<Seq<char>> {
    if walk.targets.contains_key(id) {
        walk.targets[id]
    } else {
        Seq::empty()
    }
}

/// Whether a name is among the bookmarks found.
pub open spec fn has_name(found: Seq<BookmarkView>, name: Seq<char>) -> bool {
    exists|i: int| 0 <= i < found.len() && (#[trigger] found[i]).name == name
}

/// The bookmarks found, with those of the names that are new.
pub open spec fn with_names(found: Seq<BookmarkView>, names: Seq<Seq<char>>, distance: u32) -> Seq<BookmarkView>
    decreases names.len(),
{
    if names.len() == 0 {
        found
    } else {
        let before = with_names(found, names.drop_last(), distance);
        if has_name(before, names.last()) {
            before
        } else {
            before.push(found_at(names.last(), distance))
        }
    }
}

/// How far a walk has come.
#[verifier::ext_equal]
pub struct Trail {
    pub visited: Set<Seq<char>>,
    pub found: Seq<BookmarkView>,
    /// The commits of the next distance, in the order in which they were met.
    pub next: Seq<Seq<char>>,
}

/// The walk after one more commit of a distance.
pub open spec fn visit(walk: Walk, trail: Trail, id: Seq<char>, depth: u32) -> Trail {
    if trail.visited.contains(id) {
        trail
    } else if !passes(walk, id) {
        Trail { visited: trail.visited.insert(id), ..trail }
    } else {
        Trail {
            visited: trail.visited.insert(id),
            found: with_names(trail.found, names_on(walk, id), depth),
            next: if depth < walk.max_depth {
                trail.next + walk.commits[id].parents->0
            } else {
                trail.next
            },
        }
    }
}

/// The walk after the commits of one distance.
pub open spec fn visit_all(walk: Walk, trail: Trail, level: Seq<Seq<char>>, depth: u32) -> Trail
    decreases level.len(),
{
    if level.len() == 0 {
        trail
    } else {
        visit(walk, visit_all(walk, trail, level.drop_last(), depth), level.last(), depth)
    }
}

/// What is found from a distance on: the commits there, then those one step further.
pub open spec fn found_from(
    walk: Walk,
    visited: Set<Seq<char>>,
    found: Seq<BookmarkView>,
    level: Seq<Seq<char>>,
    depth: u32,
) -> Seq<BookmarkView>
    decreases walk.max_depth - depth,
{
    if depth > walk.max_depth || level.len() == 0 || (walk.nearest_only && found.len() > 0) {
        found
    } else {
        let trail = visit_all(walk, Trail { visited, found, next: Seq::empty() }, level, depth);
        if depth == walk.max_depth {
            trail.found
        } else {
            found_from(walk, trail.visited, trail.found, trail.next, (depth + 1) as u32)
        }
    }
}

/// The bookmarks on the working-copy commit itself.
pub open spec fn found_here(walk: Walk, wc: Seq<char>) -> Seq<BookmarkView> {
    if passes(walk, wc) {
        with_names(Seq::empty(), names_on(walk, wc), 0)
    } else {
        Seq::empty()
    }
}

/// The bookmarks on the working-copy commit and its ancestors, nearest first.
pub open spec fn all_found(walk: Walk, wc: Seq<char>) -> Seq<BookmarkView> {
    found_from(walk, Set::empty(), found_here(walk, wc), walk.commits[wc].parents->0, 1)
}

/// How a search for bookmarks ends.
pub enum Search {
    /// The bookmarks found, nearest first.
    Found(Vec<Bookmark>),
    /// A commit that the walk goes through could not be read.
    Unreadable(String),
    /// Nothing is known yet of these commits.
    Missing(Vec<String>),
}

/// Whether a bookmark of a list has a name.
fn list_has_name(list: &Vec<Bookmark>, name: &str) -> (r: bool)
    ensures
        r == has_name(bookmark_views(list@), name@),
{
    let ghost all = bookmark_views(list@);
    let mut i: usize = 0;
    while i < list.len()
        invariant
            i <= list.len(),
            all == bookmark_views(list@),
            forall|k: int| 0 <= k < i ==> (#[trigger] all[k]).name != name@,
        decreases list.len() - i,
    {
        assert(all[i as int] == list@[i as int]@);
        if str_eq(list[i].name.as_str(), name) {
            assert(all[i as int].name == name@);
            return true;
        }
        i += 1;
    }
    false
}

fn display_name(name: &String, distance: u32) -> (r: String)
    ensures
        r@ == shown(name@, distance),
{
    let mut display = name.clone();
    if distance > 0 {
        display.push('+');
        let digits = to_decimal(distance as u64);
        display.append(digits.as_str());
        assert(display@ =~= name@ + seq!['+'] + decimal(distance as nat));
    }
    display
}

/// Adds the bookmarks of the names that are new.
fn add_names(found: &mut Vec<Bookmark>, names: &Vec<String>, distance: u32)
    ensures
        bookmark_views(final(found)@) == with_names(bookmark_views(old(found)@), views(names@), distance),
{
    let ghost start = bookmark_views(found@);
    let ghost all = views(names@);
    let mut i: usize = 0;
    while i < names.len()
        invariant
            i <= names.len(),
            all == views(names@),
            bookmark_views(found@) == with_names(start, all.take(i as int), distance),
        decreases names.len() - i,
    {
        let name = &names[i];
        proof {
            assert(all[i as int] == name@);
            assert(all.take(i + 1).drop_last() =~= all.take(i as int));
            assert(all.take(i + 1).last() == name@);
        }
        if !list_has_name(found, name.as_str()) {
            let ghost before = found@;
            let display = display_name(name, distance);
            found.push(
                Bookmark { name: name.clone(), distance, display, tracking: TrackingStatus::Untracked },
            );
            assert(bookmark_views(found@) =~= bookmark_views(before).push(found_at(name@, distance)));
        }
        i += 1;
    }
    assert(all.take(i as int) =~= all);
}

/// What is known of a commit.
fn commit_of<'a>(commits: &'a FileTable<CommitFacts>, id: &str) -> (r: &'a CommitFacts)
    requires
        commits.wf(),
        commits@.contains_key(id@),
    ensures
        r.deep_view() == commits@[id@],
{
    match commits.get(id) {
        Some(f) => f,
        None => {
            assert(false);
            commits.value_at(0)
        },
    }
}

/// All commits of a level that are not visited yet are known.
pub open spec fn level_known(walk: Walk, visited: Set<Seq<char>>, level: Seq<Seq<char>>) -> bool {
    forall|i: int|
        0 <= i < level.len() ==> visited.contains(#[trigger] level[i]) || walk.commits.contains_key(level[i])
}

/// The commits of a level that are neither visited nor known.
fn missing_of_level(level: &Vec<String>, visited: &FileTable<bool>, commits: &FileTable<CommitFacts>) -> (r: Vec<
    String,
>)
    requires
        visited.wf(),
        commits.wf(),
    ensures
        forall|p: Seq<char>| #[trigger]
            views(r@).contains(p) <==> views(level@).contains(p) && !visited@.contains_key(p)
                && !commits@.contains_key(p),
{
    let mut out: Vec<String> = Vec::new();
    let ghost all = views(level@);
    let mut i: usize = 0;
    while i < level.len()
        invariant
            i <= level.len(),
            visited.wf(),
            commits.wf(),
            all == views(level@),
            forall|p: Seq<char>| #[trigger]
                views(out@).contains(p) <==> all.take(i as int).contains(p) && !visited@.contains_key(p)
                    && !commits@.contains_key(p),
        decreases level.len() - i,
    {
        let id = &level[i];
        let ghost before = out@;
        let hit: bool = !visited.contains(id.as_str()) && !commits.contains(id.as_str());
        if hit {
            let copy = id.clone();
            out.push(copy);
        }
        proof {
            assert(all[i as int] == id@);
            assert(all.take(i + 1) =~= all.take(i as int).push(id@));
            assert forall|p: Seq<char>| #[trigger]
                views(out@).contains(p) <==> all.take(i + 1).contains(p) && !visited@.contains_key(p)
                    && !commits@.contains_key(p) by {
                lemma_contains_push(all.take(i as int), id@, p);
                if hit {
                    lemma_views_push(before, out@.last());
                    assert(out@ =~= before.push(out@.last()));
                    lemma_contains_push(views(before), id@, p);
                }
            }
        }
        i += 1;
    }
    assert(all.take(i as int) =~= all);
    out
}

/// A walk needs the parents of a commit that could not be read.
pub open spec fn stuck_at(walk: Walk, visited: Set<Seq<char>>, depth: u32, id: Seq<char>) -> bool {
    &&& !visited.contains(id)
    &&& passes(walk, id)
    &&& depth < walk.max_depth
    &&& walk.commits[id].parents is None
}

/// Whether a walk gets through the commits of a level, each in turn.
pub open spec fn level_readable(walk: Walk, trail: Trail, level: Seq<Seq<char>>, depth: u32) -> bool {
    forall|i: int|
        0 <= i < level.len() ==> !stuck_at(
            walk,
            visit_all(walk, trail, level.take(i), depth).visited,
            depth,
            #[trigger] level[i],
        )
}

/// Whether everything that a walk comes to is known and can be read.
pub open spec fn walk_complete(
    walk: Walk,
    visited: Set<Seq<char>>,
    found: Seq<BookmarkView>,
    level: Seq<Seq<char>>,
    depth: u32,
) -> bool
    decreases walk.max_depth - depth,
{
    if depth > walk.max_depth || level.len() == 0 || (walk.nearest_only && found.len() > 0) {
        true
    } else {
        let start = Trail { visited, found, next: Seq::empty() };
        let trail = visit_all(walk, start, level, depth);
        &&& level_known(walk, visited, level)
        &&& level_readable(walk, start, level, depth)
        &&& depth < walk.max_depth ==> walk_complete(walk, trail.visited, trail.found, trail.next, (depth + 1) as u32)
    }
}

/// Whether everything that the search from the working-copy commit comes to is known and
/// can be read.
pub open spec fn search_complete(walk: Walk, wc: Seq<char>) -> bool {
    &&& walk.commits.contains_key(wc)
    &&& walk.commits[wc].parents is Some
    &&& walk_complete(walk, Set::empty(), found_here(walk, wc), walk.commits[wc].parents->0, 1)
}

/// The commits that a walk from a level on comes to first without knowing them.
pub open spec fn first_unknown(
    walk: Walk,
    visited: Set<Seq<char>>,
    found: Seq<BookmarkView>,
    level: Seq<Seq<char>>,
    depth: u32,
) -> Set<Seq<char>>
    decreases walk.max_depth - depth,
{
    if depth > walk.max_depth || level.len() == 0 || (walk.nearest_only && found.len() > 0) {
        Set::empty()
    } else if !level_known(walk, visited, level) {
        Set::new(|id: Seq<char>| level.contains(id) && !visited.contains(id) && !walk.commits.contains_key(id))
    } else {
        let start = Trail { visited, found, next: Seq::empty() };
        let trail = visit_all(walk, start, level, depth);
        if level_readable(walk, start, level, depth) && depth < walk.max_depth {
            first_unknown(walk, trail.visited, trail.found, trail.next, (depth + 1) as u32)
        } else {
            Set::empty()
        }
    }
}

/// The commits that the search from the working-copy commit comes to first without knowing
/// them.
pub open spec fn unknown_commits(walk: Walk, wc: Seq<char>) -> Set<Seq<char>> {
    if walk.commits.contains_key(wc) {
        first_unknown(walk, Set::empty(), found_here(walk, wc), walk.commits[wc].parents->0, 1)
    } else {
        set![wc]
    }
}

/// The commit of a level, from a place on, that a walk is stuck at first.
pub open spec fn stuck_from(walk: Walk, trail: Trail, level: Seq<Seq<char>>, depth: u32, from: int) -> Option<Seq<char>>
    decreases level.len() - from,
{
    if from < 0 || from >= level.len() {
        None
    } else if stuck_at(walk, visit_all(walk, trail, level.take(from), depth).visited, depth, level[from]) {
        Some(level[from])
    } else {
        stuck_from(walk, trail, level, depth, from + 1)
    }
}

/// The commit that a walk from a level on is stuck at, as long as it knows all on its way.
pub open spec fn first_stuck(
    walk: Walk,
    visited: Set<Seq<char>>,
    found: Seq<BookmarkView>,
    level: Seq<Seq<char>>,
    depth: u32,
) -> Option<Seq<char>>
    decreases walk.max_depth - depth,
{
    if depth > walk.max_depth || level.len() == 0 || (walk.nearest_only && found.len() > 0) || !level_known(
        walk,
        visited,
        level,
    ) {
        None
    } else {
        let start = Trail { visited, found, next: Seq::empty() };
        let trail = visit_all(walk, start, level, depth);
        match stuck_from(walk, start, level, depth, 0) {
            Some(id) => Some(id),
            None => if depth < walk.max_depth {
                first_stuck(walk, trail.visited, trail.found, trail.next, (depth + 1) as u32)
            } else {
                None
            },
        }
    }
}

/// The commit that the search from the working-copy commit is stuck at.
pub open spec fn stuck_commit(walk: Walk, wc: Seq<char>) -> Option<Seq<char>> {
    if !walk.commits.contains_key(wc) {
        None
    } else if walk.commits[wc].parents is None {
        Some(wc)
    } else {
        first_stuck(walk, Set::empty(), found_here(walk, wc), walk.commits[wc].parents->0, 1)
    }
}

/// A walk is stuck at a commit of a level exactly where it does not get through.
proof fn lemma_stuck_from(walk: Walk, trail: Trail, level: Seq<Seq<char>>, depth: u32, from: int)
    requires
        0 <= from <= level.len(),
        forall|k: int|
            0 <= k < from ==> !stuck_at(
                walk,
                visit_all(walk, trail, level.take(k), depth).visited,
                depth,
                #[trigger] level[k],
            ),
    ensures
        stuck_from(walk, trail, level, depth, from) == stuck_from(walk, trail, level, depth, 0),
        from == level.len() ==> level_readable(walk, trail, level, depth) && stuck_from(walk, trail, level, depth, 0)
            is None,
    decreases from,
{
    if from > 0 {
        lemma_stuck_from(walk, trail, level, depth, from - 1);
        assert(!stuck_at(
            walk,
            visit_all(walk, trail, level.take(from - 1), depth).visited,
            depth,
            level[from - 1],
        ));
    }
}

/// Visits the commits of one level.
fn visit_level(
    commits: &FileTable<CommitFacts>,
    targets: &FileTable<Names>,
    max_depth: u32,
    filtered: bool,
    level: &Vec<String>,
    depth: u32,
    visited: &mut FileTable<bool>,
    found: &mut Vec<Bookmark>,
    Ghost(walk): Ghost<Walk>,
) -> (r: Result<Vec<String>, String>)
    requires
        commits.wf(),
        targets.wf(),
        old(visited).wf(),
        walk.commits == commits@,
        walk.targets == targets@,
        walk.max_depth == max_depth,
        walk.filtered == filtered,
        level_known(walk, old(visited)@.dom(), views(level@)),
    ensures
        final(visited).wf(),
        ({
            let start = Trail {
                visited: old(visited)@.dom(),
                found: bookmark_views(old(found)@),
                next: Seq::empty(),
            };
            match r {
                Ok(next) => {
                    &&& level_readable(walk, start, views(level@), depth)
                    &&& stuck_from(walk, start, views(level@), depth, 0) is None
                    &&& visit_all(walk, start, views(level@), depth) == (Trail {
                        visited: final(visited)@.dom(),
                        found: bookmark_views(final(found)@),
                        next: views(next@),
                    })
                },
                Err(id) => {
                    &&& !level_readable(walk, start, views(level@), depth)
                    &&& stuck_from(walk, start, views(level@), depth, 0) == Some(id@)
                },
            }
        }),
{
    let ghost start = Trail { visited: visited@.dom(), found: bookmark_views(found@), next: Seq::empty() };
    let ghost all = views(level@);
    let mut next: Vec<String> = Vec::new();
    let mut i: usize = 0;
    assert(views(next@) =~= Seq::empty());
    while i < level.len()
        invariant
            i <= level.len(),
            commits.wf(),
            targets.wf(),
            visited.wf(),
            walk.commits == commits@,
            walk.targets == targets@,
            walk.max_depth == max_depth,
            walk.filtered == filtered,
            all == views(level@),
            level_known(walk, start.visited, all),
            start == (Trail {
                visited: old(visited)@.dom(),
                found: bookmark_views(old(found)@),
                next: Seq::empty(),
            }),
            start.visited.subset_of(visited@.dom()),
            visit_all(walk, start, all.take(i as int), depth) == (Trail {
                visited: visited@.dom(),
                found: bookmark_views(found@),
                next: views(next@),
            }),
            forall|k: int|
                0 <= k < i ==> !stuck_at(
                    walk,
                    visit_all(walk, start, all.take(k), depth).visited,
                    depth,
                    #[trigger] all[k],
                ),
        decreases level.len() - i,
    {
        let id = &level[i];
        proof {
            assert(all[i as int] == id@);
            assert(all.take(i + 1).drop_last() =~= all.take(i as int));
            assert(all.take(i + 1).last() == id@);
        }
        if !visited.contains(id.as_str()) {
            assert(commits@.contains_key(id@)) by {
                assert(start.visited.contains(all[i as int]) || walk.commits.contains_key(all[i as int]));
            }
            let commit = commit_of(commits, id.as_str());
            let ghost dom = visited@.dom();
            let goes_on: bool = !filtered || commit.in_branch;
            if goes_on && depth < max_depth && commit.parents.is_none() {
                assert(stuck_at(walk, visit_all(walk, start, all.take(i as int), depth).visited, depth, all[i as int]));
                proof {
                    lemma_stuck_from(walk, start, all, depth, i as int);
                }
                return Err(id.clone());
            }
            visited.insert(id.clone(), true);
            assert(visited@.dom() =~= dom.insert(id@));
            if goes_on {
                let ghost before = bookmark_views(found@);
                match targets.get(id.as_str()) {
                    Some(names) => {
                        add_names(found, &names.list, depth);
                    },
                    None => {},
                }
                if depth < max_depth {
                    if let Some(parents) = &commit.parents {
                        push_all(&mut next, parents);
                    }
                }
            }
        }
        i += 1;
    }
    assert(all.take(i as int) =~= all);
    proof {
        lemma_stuck_from(walk, start, all, depth, i as int);
    }
    Ok(next)
}

/// Appends a copy of a list of strings.
fn push_all(out: &mut Vec<String>, list: &Vec<String>)
    ensures
        views(final(out)@) == views(old(out)@) + views(list@),
{
    let ghost start = views(out@);
    let ghost all = views(list@);
    let mut i: usize = 0;
    assert(start + all.take(0) =~= start);
    while i < list.len()
        invariant
            i <= list.len(),
            all == views(list@),
            views(out@) == start + all.take(i as int),
        decreases list.len() - i,
    {
        let item = list[i].clone();
        let ghost before = out@;
        out.push(item);
        proof {
            lemma_views_push(before, item);
            assert(all[i as int] == item@);
            assert(all.take(i + 1) =~= all.take(i as int).push(item@));
            assert(start + all.take(i + 1) =~= (start + all.take(i as int)).push(item@));
        }
        i += 1;
    }
    assert(all.take(i as int) =~= all);
}

/// BFS over ancestors of the working-copy commit up to `max_depth`, collecting bookmarks
/// on the commits that the walk goes through. A commit outside the current line of work
/// ends the walk there (its ancestors are outside too), where `filtered` is set.
///
/// With `nearest_only`, the walk stops after the first depth level that yielded any
/// bookmark (all same-distance bookmarks are still collected).
pub fn collect_bookmarks_bfs(
    commits: &FileTable<CommitFacts>,
    targets: &FileTable<Names>,
    wc_id: &str,
    max_depth: u32,
    filtered: bool,
    nearest_only: bool,
) -> (r: Search)
    requires
        commits.wf(),
        targets.wf(),
    ensures
        ({
            let walk = Walk { commits: commits@, targets: targets@, max_depth, filtered, nearest_only };
            match r {
                Search::Found(list) => search_complete(walk, wc_id@) && bookmark_views(list@) == all_found(
                    walk,
                    wc_id@,
                ),
                Search::Unreadable(id) => !search_complete(walk, wc_id@) && stuck_commit(walk, wc_id@) == Some(id@),
                Search::Missing(list) => {
                    &&& !search_complete(walk, wc_id@)
                    &&& list@.len() > 0
                    &&& forall|id: Seq<char>| #[trigger]
                        views(list@).contains(id) <==> unknown_commits(walk, wc_id@).contains(id)
                },
            }
        }),
{
    let ghost walk = Walk { commits: commits@, targets: targets@, max_depth, filtered, nearest_only };
    if !commits.contains(wc_id) {
        let mut missing: Vec<String> = Vec::new();
        missing.push(wc_id.to_owned());
        proof {
            assert forall|id: Seq<char>| #[trigger] views(missing@).contains(id) <==> id == wc_id@ by {
                assert(views(missing@) =~= seq![wc_id@]);
                if id == wc_id@ {
                    assert(views(missing@)[0] == id);
                }
            }
        }
        return Search::Missing(missing);
    }
    let commit = commit_of(commits, wc_id);
    let mut found: Vec<Bookmark> = Vec::new();
    assert(bookmark_views(found@) =~= Seq::empty());
    if !filtered || commit.in_branch {
        if let Some(names) = targets.get(wc_id) {
            add_names(&mut found, &names.list, 0);
        }
    }
    assert(bookmark_views(found@) == found_here(walk, wc_id@));
    let mut level: Vec<String> = Vec::new();
    match &commit.parents {
        None => {
            return Search::Unreadable(wc_id.to_owned());
        },
        Some(parents) => {
            assert(views(level@) =~= Seq::empty());
            push_all(&mut level, parents);
            assert(Seq::<Seq<char>>::empty() + views(parents@) =~= views(parents@));
        },
    }
    let mut visited: FileTable<bool> = FileTable::new();
    assert(visited@.dom() =~= Set::empty());
    let mut depth: u32 = 1;
    let ghost first = views(level@);
    let ghost here = found_here(walk, wc_id@);
    while depth <= max_depth && level.len() > 0 && !(nearest_only && found.len() > 0)
        invariant
            commits.wf(),
            targets.wf(),
            visited.wf(),
            walk == (Walk { commits: commits@, targets: targets@, max_depth, filtered, nearest_only }),
            commits@.contains_key(wc_id@),
            commits@[wc_id@].parents == Some(first),
            here == found_here(walk, wc_id@),
            depth >= 1,
            depth <= max_depth || depth == 1,
            found_from(walk, visited@.dom(), bookmark_views(found@), views(level@), depth) == all_found(
                walk,
                wc_id@,
            ),
            walk_complete(walk, visited@.dom(), bookmark_views(found@), views(level@), depth) == search_complete(
                walk,
                wc_id@,
            ),
            first_unknown(walk, visited@.dom(), bookmark_views(found@), views(level@), depth) == first_unknown(
                walk,
                Set::empty(),
                here,
                first,
                1,
            ),
            first_stuck(walk, visited@.dom(), bookmark_views(found@), views(level@), depth) == first_stuck(
                walk,
                Set::empty(),
                here,
                first,
                1,
            ),
        decreases max_depth - depth,
    {
        assert(views(level@).len() == level@.len());
        assert(bookmark_views(found@).len() == found@.len());
        let missing = missing_of_level(&level, &visited, commits);
        if missing.len() > 0 {
            proof {
                assert(views(missing@)[0] == missing@[0]@);
                assert(views(missing@).contains(missing@[0]@));
                let at = choose|k: int| 0 <= k < views(level@).len() && views(level@)[k] == missing@[0]@;
                assert(!level_known(walk, visited@.dom(), views(level@)));
            }
            return Search::Missing(missing);
        }
        proof {
            assert forall|i: int| 0 <= i < views(level@).len() implies visited@.dom().contains(
                #[trigger] views(level@)[i],
            ) || walk.commits.contains_key(views(level@)[i]) by {
                assert(views(level@).contains(views(level@)[i]));
                assert(!views(missing@).contains(views(level@)[i]));
            }
        }
        match visit_level(
            commits,
            targets,
            max_depth,
            filtered,
            &level,
            depth,
            &mut visited,
            &mut found,
            Ghost(walk),
        ) {
            Ok(next) => {
                if depth == max_depth {
                    return Search::Found(found);
                }
                level = next;
                depth += 1;
            },
            Err(id) => {
                return Search::Unreadable(id);
            },
        }
    }
    assert(views(level@).len() == level@.len());
    assert(bookmark_views(found@).len() == found@.len());
    Search::Found(found)
}

/// The commits that a walk can be at after a number of steps from the working-copy commit:
/// it goes on from the commits that it goes through.
pub open spec fn reach(walk: Walk, wc: Seq<char>, steps: nat) -> Set<Seq<char>>
    decreases steps,
{
    if steps == 0 {
        set![wc]
    } else {
        let before = reach(walk, wc, (steps - 1) as nat);
        Set::new(
            |id: Seq<char>|
                exists|child: Seq<char>| #[trigger]
                    before.contains(child) && (steps == 1 || passes(walk, child)) && walk.commits[child].parents is Some
                        && walk.commits[child].parents->0.contains(id),
        )
    }
}

/// A bookmark of the name is on a commit that the walk goes through after that many steps.
pub open spec fn named_at(walk: Walk, wc: Seq<char>, name: Seq<char>, steps: nat) -> bool {
    exists|id: Seq<char>| #[trigger]
        reach(walk, wc, steps).contains(id) && passes(walk, id) && names_on(walk, id).contains(name)
}

/// Every bookmark of the list is at its distance and at no shorter one, each name is there
/// once, and the distances do not fall.
pub open spec fn nearest_first(walk: Walk, wc: Seq<char>, found: Seq<BookmarkView>) -> bool {
    &&& forall|i: int| 0 <= i < found.len() ==> named_at(walk, wc, (#[trigger] found[i]).name, found[i].distance as nat)
    &&& forall|i: int, k: nat|
        0 <= i < found.len() && k < (#[trigger] found[i]).distance ==> !#[trigger] named_at(walk, wc, found[i].name, k)
    &&& forall|i: int| 0 <= i < found.len() ==> (#[trigger] found[i]) == found_at(found[i].name, found[i].distance)
    &&& forall|i: int, j: int|
        0 <= i < j < found.len() ==> (#[trigger] found[i]).name != (#[trigger] found[j]).name && found[i].distance
            <= found[j].distance
}

/// Every name that is on a commit within so many steps is in the list.
pub open spec fn covers_to(walk: Walk, wc: Seq<char>, found: Seq<BookmarkView>, steps: int) -> bool {
    forall|name: Seq<char>, k: nat| k < steps && #[trigger] named_at(walk, wc, name, k) ==> has_name(found, name)
}

/// What holds of a walk when it comes to the commits of a distance.
spec fn on_course(
    walk: Walk,
    wc: Seq<char>,
    visited: Set<Seq<char>>,
    found: Seq<BookmarkView>,
    level: Seq<Seq<char>>,
    depth: nat,
) -> bool {
    &&& forall|id: Seq<char>| #[trigger]
        visited.contains(id) <==> exists|j: nat| 1 <= j < depth && #[trigger] reach(walk, wc, j).contains(id)
    &&& forall|i: int| 0 <= i < level.len() ==> reach(walk, wc, depth).contains(#[trigger] level[i])
    &&& forall|id: Seq<char>| #[trigger]
        reach(walk, wc, depth).contains(id) ==> level.contains(id) || visited.contains(id)
    &&& nearest_first(walk, wc, found)
    &&& forall|i: int| 0 <= i < found.len() ==> (#[trigger] found[i]).distance < depth
    &&& covers_to(walk, wc, found, depth as int)
}

/// What is behind in a level.
spec fn opened(walk: Walk, visited: Set<Seq<char>>, level: Seq<Seq<char>>, id: Seq<char>) -> bool {
    level.contains(id) && !visited.contains(id) && passes(walk, id)
}

proof fn lemma_with_names(
    walk: Walk,
    wc: Seq<char>,
    found: Seq<BookmarkView>,
    names: Seq<Seq<char>>,
    distance: u32,
    id: Seq<char>,
)
    requires
        nearest_first(walk, wc, found),
        covers_to(walk, wc, found, distance as int),
        forall|i: int| 0 <= i < found.len() ==> (#[trigger] found[i]).distance <= distance,
        reach(walk, wc, distance as nat).contains(id),
        passes(walk, id),
        forall|i: int| 0 <= i < names.len() ==> names_on(walk, id).contains(#[trigger] names[i]),
    ensures
        nearest_first(walk, wc, with_names(found, names, distance)),
        covers_to(walk, wc, with_names(found, names, distance), distance as int),
        forall|i: int|
            0 <= i < with_names(found, names, distance).len() ==> (#[trigger] with_names(found, names, distance)[i]).distance <= distance,
        forall|name: Seq<char>| #[trigger]
            has_name(with_names(found, names, distance), name) <==> has_name(found, name) || names.contains(name),
    decreases names.len(),
{
    if names.len() > 0 {
        let rest = names.drop_last();
        let last = names.last();
        assert forall|i: int| 0 <= i < rest.len() implies names_on(walk, id).contains(#[trigger] rest[i]) by {
            assert(rest[i] == names[i]);
        }
        lemma_with_names(walk, wc, found, rest, distance, id);
        let before = with_names(found, rest, distance);
        let after = with_names(found, names, distance);
        assert(names[names.len() - 1] == last);
        if !has_name(before, last) {
            let item = found_at(last, distance);
            assert(after == before.push(item));
            assert(named_at(walk, wc, last, distance as nat));
            assert forall|i: int, k: nat| 0 <= i < after.len() && k < (#[trigger] after[i]).distance implies !#[trigger] named_at(
                walk,
                wc,
                after[i].name,
                k,
            ) by {
                if i < before.len() {
                    assert(after[i] == before[i]);
                }
            }
            assert forall|i: int, j: int| 0 <= i < j < after.len() implies (#[trigger] after[i]).name
                != (#[trigger] after[j]).name && after[i].distance <= after[j].distance by {
                assert(after[i] == before[i]);
                if j < before.len() {
                    assert(after[j] == before[j]);
                }
            }
            assert forall|i: int| 0 <= i < after.len() implies (#[trigger] after[i]) == found_at(
                after[i].name,
                after[i].distance,
            ) by {
                if i < before.len() {
                    assert(after[i] == before[i]);
                }
            }
            assert forall|i: int| 0 <= i < after.len() implies named_at(
                walk,
                wc,
                (#[trigger] after[i]).name,
                after[i].distance as nat,
            ) by {
                if i < before.len() {
                    assert(after[i] == before[i]);
                }
            }
        }
        assert forall|name: Seq<char>| #[trigger] has_name(after, name) <==> has_name(found, name) || names.contains(
            name,
        ) by {
            lemma_contains_push(rest, last, name);
            assert(names =~= rest.push(last));
            if has_name(before, name) {
                let i = choose|i: int| 0 <= i < before.len() && (#[trigger] before[i]).name == name;
                assert(after[i].name == name);
            }
            if has_name(after, name) && !has_name(before, last) {
                let i = choose|i: int| 0 <= i < after.len() && (#[trigger] after[i]).name == name;
                if i < before.len() {
                    assert(before[i].name == name);
                }
            }
            if name == last && !has_name(before, last) {
                assert(after[before.len() as int].name == last);
            }
        }
        assert forall|name: Seq<char>, k: nat| k < distance && #[trigger] named_at(walk, wc, name, k) implies has_name(
            after,
            name,
        ) by {
            assert(has_name(before, name));
            assert(has_name(found, name) || rest.contains(name));
            lemma_contains_push(rest, last, name);
            assert(names =~= rest.push(last));
        }
    }
}

proof fn lemma_visit_all(
    walk: Walk,
    wc: Seq<char>,
    start: Trail,
    level: Seq<Seq<char>>,
    depth: u32,
)
    requires
        start.next.len() == 0,
        nearest_first(walk, wc, start.found),
        covers_to(walk, wc, start.found, depth as int),
        forall|i: int| 0 <= i < start.found.len() ==> (#[trigger] start.found[i]).distance <= depth,
        forall|i: int| 0 <= i < level.len() ==> reach(walk, wc, depth as nat).contains(#[trigger] level[i]),
    ensures
        ({
            let trail = visit_all(walk, start, level, depth);
            &&& nearest_first(walk, wc, trail.found)
            &&& covers_to(walk, wc, trail.found, depth as int)
            &&& forall|i: int| 0 <= i < trail.found.len() ==> (#[trigger] trail.found[i]).distance <= depth
            &&& forall|id: Seq<char>| #[trigger]
                trail.visited.contains(id) <==> start.visited.contains(id) || level.contains(id)
            &&& forall|name: Seq<char>| #[trigger]
                has_name(trail.found, name) <==> has_name(start.found, name) || exists|id: Seq<char>| #[trigger]
                    opened(walk, start.visited, level, id) && names_on(walk, id).contains(name)
            &&& depth < walk.max_depth ==> forall|p: Seq<char>| #[trigger]
                trail.next.contains(p) <==> exists|id: Seq<char>| #[trigger]
                    opened(walk, start.visited, level, id) && walk.commits[id].parents->0.contains(p)
        }),
    decreases level.len(),
{
    if level.len() > 0 {
        let rest = level.drop_last();
        let last = level.last();
        assert(level[level.len() - 1] == last);
        assert forall|i: int| 0 <= i < rest.len() implies reach(walk, wc, depth as nat).contains(#[trigger] rest[i]) by {
            assert(rest[i] == level[i]);
        }
        lemma_visit_all(walk, wc, start, rest, depth);
        let before = visit_all(walk, start, rest, depth);
        let after = visit_all(walk, start, level, depth);
        assert(level =~= rest.push(last));
        assert forall|id: Seq<char>| #[trigger] level.contains(id) <==> rest.contains(id) || id == last by {
            lemma_contains_push(rest, last, id);
        }
        let fresh = !before.visited.contains(last);
        let names = names_on(walk, last);
        if fresh && passes(walk, last) {
            assert forall|i: int| 0 <= i < names.len() implies names_on(walk, last).contains(#[trigger] names[i]) by {}
            lemma_with_names(walk, wc, before.found, names, depth, last);
        }
        assert forall|id: Seq<char>| #[trigger] opened(walk, start.visited, level, id) <==> opened(
            walk,
            start.visited,
            rest,
            id,
        ) || (fresh && passes(walk, last) && id == last) by {}
        assert forall|name: Seq<char>| #[trigger]
            has_name(after.found, name) <==> has_name(start.found, name) || exists|id: Seq<char>| #[trigger]
                opened(walk, start.visited, level, id) && names_on(walk, id).contains(name) by {
            if exists|id: Seq<char>| #[trigger] opened(walk, start.visited, rest, id) && names_on(walk, id).contains(name) {
                let id = choose|id: Seq<char>| #[trigger]
                    opened(walk, start.visited, rest, id) && names_on(walk, id).contains(name);
                assert(opened(walk, start.visited, level, id));
            }
            if exists|id: Seq<char>| #[trigger] opened(walk, start.visited, level, id) && names_on(walk, id).contains(name) {
                let id = choose|id: Seq<char>| #[trigger]
                    opened(walk, start.visited, level, id) && names_on(walk, id).contains(name);
                if id != last {
                    assert(opened(walk, start.visited, rest, id));
                }
            }
            if fresh && passes(walk, last) {
                assert(opened(walk, start.visited, level, last));
                assert(has_name(after.found, name) <==> has_name(before.found, name) || names.contains(name));
            }
        }
        if depth < walk.max_depth {
            assert forall|p: Seq<char>| #[trigger]
                after.next.contains(p) <==> exists|id: Seq<char>| #[trigger]
                    opened(walk, start.visited, level, id) && walk.commits[id].parents->0.contains(p) by {
                let more = walk.commits[last].parents->0;
                if fresh && passes(walk, last) {
                    lemma_contains_concat(before.next, more, p);
                    assert(opened(walk, start.visited, level, last));
                }
                if exists|id: Seq<char>| #[trigger] opened(walk, start.visited, rest, id)
                    && walk.commits[id].parents->0.contains(p) {
                    let id = choose|id: Seq<char>| #[trigger]
                        opened(walk, start.visited, rest, id) && walk.commits[id].parents->0.contains(p);
                    assert(opened(walk, start.visited, level, id));
                }
                if exists|id: Seq<char>| #[trigger] opened(walk, start.visited, level, id)
                    && walk.commits[id].parents->0.contains(p) {
                    let id = choose|id: Seq<char>| #[trigger]
                        opened(walk, start.visited, level, id) && walk.commits[id].parents->0.contains(p);
                    if id != last {
                        assert(opened(walk, start.visited, rest, id));
                    }
                }
            }
        }
    } else {
        assert forall|p: Seq<char>| !#[trigger] start.next.contains(p) by {}
    }
}

proof fn lemma_contains_concat(a: Seq<Seq<char>>, b: Seq<Seq<char>>, p: Seq<char>)
    ensures
        (a + b).contains(p) <==> a.contains(p) || b.contains(p),
{
    let c = a + b;
    if a.contains(p) {
        let i = choose|i: int| 0 <= i < a.len() && a[i] == p;
        assert(c[i] == p);
    }
    if b.contains(p) {
        let i = choose|i: int| 0 <= i < b.len() && b[i] == p;
        assert(c[a.len() + i] == p);
    }
    if c.contains(p) {
        let i = choose|i: int| 0 <= i < c.len() && c[i] == p;
        if i < a.len() {
            assert(a[i] == p);
        } else {
            assert(b[i - a.len()] == p);
        }
    }
}

/// After a level, every name up to its distance is found.
proof fn lemma_level_covers(
    walk: Walk,
    wc: Seq<char>,
    visited: Set<Seq<char>>,
    found: Seq<BookmarkView>,
    level: Seq<Seq<char>>,
    depth: u32,
)
    requires
        depth >= 1,
        on_course(walk, wc, visited, found, level, depth as nat),
    ensures
        covers_to(
            walk,
            wc,
            visit_all(walk, Trail { visited, found, next: Seq::empty() }, level, depth).found,
            depth + 1,
        ),
{
    let start = Trail { visited, found, next: Seq::empty() };
    let trail = visit_all(walk, start, level, depth);
    let d = depth as nat;
    lemma_visit_all(walk, wc, start, level, depth);
    assert forall|name: Seq<char>, k: nat| k < depth + 1 && #[trigger] named_at(walk, wc, name, k) implies has_name(
        trail.found,
        name,
    ) by {
        if k < depth {
            assert(has_name(start.found, name));
        } else {
            assert(k == d);
            let id = choose|id: Seq<char>| #[trigger]
                reach(walk, wc, k).contains(id) && passes(walk, id) && names_on(walk, id).contains(name);
            if visited.contains(id) {
                let j = choose|j: nat| 1 <= j < d && #[trigger] reach(walk, wc, j).contains(id);
                assert(reach(walk, wc, j).contains(id));
                assert(named_at(walk, wc, name, j));
                assert(has_name(start.found, name));
            } else {
                assert(reach(walk, wc, d).contains(id));
                assert(level.contains(id));
                assert(opened(walk, start.visited, level, id));
                assert(names_on(walk, id).contains(name));
            }
        }
    }
}

/// After a level, the commits up to its distance are visited.
proof fn lemma_level_visited(
    walk: Walk,
    wc: Seq<char>,
    visited: Set<Seq<char>>,
    found: Seq<BookmarkView>,
    level: Seq<Seq<char>>,
    depth: u32,
)
    requires
        depth >= 1,
        on_course(walk, wc, visited, found, level, depth as nat),
    ensures
        forall|id: Seq<char>| #[trigger]
            visit_all(walk, Trail { visited, found, next: Seq::empty() }, level, depth).visited.contains(id)
                <==> exists|j: nat| 1 <= j < depth + 1 && #[trigger] reach(walk, wc, j).contains(id),
{
    let start = Trail { visited, found, next: Seq::empty() };
    let trail = visit_all(walk, start, level, depth);
    let d = depth as nat;
    lemma_visit_all(walk, wc, start, level, depth);
    assert forall|id: Seq<char>| #[trigger]
        trail.visited.contains(id) <==> exists|j: nat| 1 <= j < d + 1 && #[trigger] reach(walk, wc, j).contains(id) by {
        if level.contains(id) {
            assert(reach(walk, wc, d).contains(id));
        }
        if visited.contains(id) {
            let j = choose|j: nat| 1 <= j < d && #[trigger] reach(walk, wc, j).contains(id);
            assert(1 <= j < d + 1);
        }
        if exists|j: nat| 1 <= j < d + 1 && #[trigger] reach(walk, wc, j).contains(id) {
            let j = choose|j: nat| 1 <= j < d + 1 && #[trigger] reach(walk, wc, j).contains(id);
            if j < d {
                assert(visited.contains(id));
            }
        }
    }
}

/// The next level is where a walk can be after one more step, apart from what is visited.
proof fn lemma_level_next(
    walk: Walk,
    wc: Seq<char>,
    visited: Set<Seq<char>>,
    found: Seq<BookmarkView>,
    level: Seq<Seq<char>>,
    depth: u32,
)
    requires
        depth >= 1,
        on_course(walk, wc, visited, found, level, depth as nat),
        depth < walk.max_depth,
        level_readable(walk, Trail { visited, found, next: Seq::empty() }, level, depth),
    ensures
        ({
            let trail = visit_all(walk, Trail { visited, found, next: Seq::empty() }, level, depth);
            let further = reach(walk, wc, (depth + 1) as nat);
            &&& forall|i: int| 0 <= i < trail.next.len() ==> further.contains(#[trigger] trail.next[i])
            &&& forall|p: Seq<char>| #[trigger]
                further.contains(p) ==> trail.next.contains(p) || trail.visited.contains(p)
        }),
{
    let start = Trail { visited, found, next: Seq::empty() };
    let trail = visit_all(walk, start, level, depth);
    let d = depth as nat;
    lemma_visit_all(walk, wc, start, level, depth);
    lemma_level_visited(walk, wc, visited, found, level, depth);
    assert forall|id: Seq<char>| #[trigger] opened(walk, visited, level, id) implies walk.commits[id].parents is Some by {
        lemma_opened_readable(walk, start, level, depth, id);
    }
    let below = reach(walk, wc, d);
    let further = reach(walk, wc, d + 1);
    assert forall|i: int| 0 <= i < trail.next.len() implies further.contains(#[trigger] trail.next[i]) by {
        let p = trail.next[i];
        assert(trail.next.contains(p));
        let id = choose|id: Seq<char>| #[trigger]
            opened(walk, visited, level, id) && walk.commits[id].parents->0.contains(p);
        assert(below.contains(id));
    }
    assert forall|p: Seq<char>| #[trigger] further.contains(p) implies trail.next.contains(p) || trail.visited.contains(
        p,
    ) by {
        let child = choose|child: Seq<char>| #[trigger]
            below.contains(child) && (d + 1 == 1 || passes(walk, child)) && walk.commits[child].parents is Some
                && walk.commits[child].parents->0.contains(p);
        if visited.contains(child) {
            let j = choose|j: nat| 1 <= j < d && #[trigger] reach(walk, wc, j).contains(child);
            assert(reach(walk, wc, j).contains(child));
            assert(reach(walk, wc, (j + 1) as nat).contains(p));
            assert(1 <= j + 1 < d + 1);
        } else {
            assert(level.contains(child));
            assert(opened(walk, visited, level, child));
        }
    }
}

/// One level keeps the walk on course.
proof fn lemma_level_on_course(
    walk: Walk,
    wc: Seq<char>,
    visited: Set<Seq<char>>,
    found: Seq<BookmarkView>,
    level: Seq<Seq<char>>,
    depth: u32,
)
    requires
        depth >= 1,
        on_course(walk, wc, visited, found, level, depth as nat),
    ensures
        ({
            let start = Trail { visited, found, next: Seq::empty() };
            let trail = visit_all(walk, start, level, depth);
            &&& nearest_first(walk, wc, trail.found)
            &&& covers_to(walk, wc, trail.found, depth + 1)
            &&& forall|i: int| 0 <= i < trail.found.len() ==> (#[trigger] trail.found[i]).distance <= depth
            &&& depth < walk.max_depth && level_readable(walk, start, level, depth) ==> on_course(
                walk,
                wc,
                trail.visited,
                trail.found,
                trail.next,
                (depth + 1) as nat,
            )
        }),
{
    let start = Trail { visited, found, next: Seq::empty() };
    lemma_visit_all(walk, wc, start, level, depth);
    lemma_level_covers(walk, wc, visited, found, level, depth);
    lemma_level_visited(walk, wc, visited, found, level, depth);
    if depth < walk.max_depth && level_readable(walk, start, level, depth) {
        lemma_level_next(walk, wc, visited, found, level, depth);
    }
}

proof fn lemma_opened_readable(walk: Walk, start: Trail, level: Seq<Seq<char>>, depth: u32, id: Seq<char>)
    requires
        level_readable(walk, start, level, depth),
        depth < walk.max_depth,
        opened(walk, start.visited, level, id),
    ensures
        walk.commits[id].parents is Some,
{
    let first = level.index_of_first(id);
    level.index_of_first_ensures(id);
    let i = first->0;
    lemma_visited_prefix(walk, start, level.take(i), depth, id);
    assert(level[i] == id);
    assert(!level.take(i).contains(id)) by {
        if level.take(i).contains(id) {
            let k = choose|k: int| 0 <= k < i && level.take(i)[k] == id;
            assert(level[k] == id);
        }
    }
    assert(!stuck_at(walk, visit_all(walk, start, level.take(i), depth).visited, depth, level[i]));
}

proof fn lemma_visited_prefix(walk: Walk, start: Trail, level: Seq<Seq<char>>, depth: u32, id: Seq<char>)
    ensures
        visit_all(walk, start, level, depth).visited.contains(id) ==> start.visited.contains(id) || level.contains(id),
    decreases level.len(),
{
    if level.len() > 0 {
        let rest = level.drop_last();
        lemma_visited_prefix(walk, start, rest, depth, id);
        assert(level =~= rest.push(level.last()));
        lemma_contains_push(rest, level.last(), id);
    }
}

/// Where a level has nothing new, no later one has.
proof fn lemma_nothing_new(walk: Walk, wc: Seq<char>, depth: nat, steps: nat, id: Seq<char>)
    requires
        depth >= 1,
        steps >= depth,
        reach(walk, wc, steps).contains(id),
        forall|p: Seq<char>| #[trigger]
            reach(walk, wc, depth).contains(p) ==> exists|j: nat| 1 <= j < depth && #[trigger] reach(walk, wc, j).contains(p),
    ensures
        exists|j: nat| 1 <= j < depth && #[trigger] reach(walk, wc, j).contains(id),
    decreases steps,
{
    if steps > depth {
        let below = reach(walk, wc, (steps - 1) as nat);
        let child = choose|child: Seq<char>| #[trigger]
            below.contains(child) && (steps == 1 || passes(walk, child)) && walk.commits[child].parents is Some
                && walk.commits[child].parents->0.contains(id);
        lemma_nothing_new(walk, wc, depth, (steps - 1) as nat, child);
        let j = choose|j: nat| 1 <= j < depth && #[trigger] reach(walk, wc, j).contains(child);
        assert(reach(walk, wc, j).contains(child));
        assert(reach(walk, wc, (j + 1) as nat).contains(id));
        if j + 1 == depth {
            assert(reach(walk, wc, depth).contains(id));
        } else {
            assert(1 <= j + 1 < depth);
        }
    }
}

proof fn lemma_found_from(
    walk: Walk,
    wc: Seq<char>,
    visited: Set<Seq<char>>,
    found: Seq<BookmarkView>,
    level: Seq<Seq<char>>,
    depth: u32,
)
    requires
        depth >= 1,
        on_course(walk, wc, visited, found, level, depth as nat),
        walk_complete(walk, visited, found, level, depth),
    ensures
        nearest_first(walk, wc, found_from(walk, visited, found, level, depth)),
        forall|i: int|
            0 <= i < found_from(walk, visited, found, level, depth).len() ==> (#[trigger] found_from(
                walk,
                visited,
                found,
                level,
                depth,
            )[i]).distance <= walk.max_depth || found_from(walk, visited, found, level, depth) == found,
        !walk.nearest_only ==> covers_to(
            walk,
            wc,
            found_from(walk, visited, found, level, depth),
            walk.max_depth + 1,
        ),
        walk.nearest_only && found.len() == 0 ==> forall|i: int, name: Seq<char>|
            0 <= i < found_from(walk, visited, found, level, depth).len() && #[trigger] named_at(
                walk,
                wc,
                name,
                (#[trigger] found_from(walk, visited, found, level, depth)[i]).distance as nat,
            ) ==> has_name(found_from(walk, visited, found, level, depth), name),
        walk.nearest_only && found.len() == 0 ==> forall|i: int, name: Seq<char>, k: nat|
            0 <= i < found_from(walk, visited, found, level, depth).len() && k < (#[trigger] found_from(
                walk,
                visited,
                found,
                level,
                depth,
            )[i]).distance ==> !#[trigger] named_at(walk, wc, name, k),
        walk.nearest_only ==> forall|i: int, j: int|
            found.len() == 0 && 0 <= i < found_from(walk, visited, found, level, depth).len() && 0 <= j < found_from(
                walk,
                visited,
                found,
                level,
                depth,
            ).len() ==> (#[trigger] found_from(walk, visited, found, level, depth)[i]).distance == (
            #[trigger] found_from(walk, visited, found, level, depth)[j]).distance,
        walk.nearest_only && found_from(walk, visited, found, level, depth).len() == 0 ==> covers_to(
            walk,
            wc,
            found,
            walk.max_depth + 1,
        ),
    decreases walk.max_depth - depth,
{
    if depth > walk.max_depth {
        assert forall|name: Seq<char>, k: nat| k < walk.max_depth + 1 && #[trigger] named_at(walk, wc, name, k) implies has_name(
            found,
            name,
        ) by {
            assert(k < depth);
        }
    } else if level.len() == 0 {
        assert forall|p: Seq<char>| #[trigger] reach(walk, wc, depth as nat).contains(p) implies exists|j: nat|
            1 <= j < depth && #[trigger] reach(walk, wc, j).contains(p) by {
            assert(!level.contains(p));
            assert(visited.contains(p));
        }
        assert forall|name: Seq<char>, k: nat| k < walk.max_depth + 1 && #[trigger] named_at(walk, wc, name, k) implies has_name(
            found,
            name,
        ) by {
            if k >= depth {
                let id = choose|id: Seq<char>| #[trigger]
                    reach(walk, wc, k).contains(id) && passes(walk, id) && names_on(walk, id).contains(name);
                lemma_nothing_new(walk, wc, depth as nat, k, id);
                let j = choose|j: nat| 1 <= j < depth && #[trigger] reach(walk, wc, j).contains(id);
                assert(reach(walk, wc, j).contains(id));
                assert(named_at(walk, wc, name, j));
            }
        }
    } else if walk.nearest_only && found.len() > 0 {
    } else {
        lemma_level_on_course(walk, wc, visited, found, level, depth);
        let trail = visit_all(walk, Trail { visited, found, next: Seq::empty() }, level, depth);
        if walk.nearest_only {
            assert forall|i: int| 0 <= i < trail.found.len() implies (#[trigger] trail.found[i]).distance == depth by {
                if trail.found[i].distance < depth {
                    assert(named_at(walk, wc, trail.found[i].name, trail.found[i].distance as nat));
                    assert(has_name(found, trail.found[i].name));
                }
            }
            assert forall|name: Seq<char>, k: nat| k < depth implies !#[trigger] named_at(walk, wc, name, k) by {
                if named_at(walk, wc, name, k) {
                    assert(has_name(found, name));
                }
            }
        }
        if depth < walk.max_depth {
            lemma_found_from(walk, wc, trail.visited, trail.found, trail.next, (depth + 1) as u32);
        }
    }
}

proof fn lemma_start_on_course(walk: Walk, wc: Seq<char>)
    requires
        walk.commits[wc].parents is Some,
    ensures
        on_course(walk, wc, Set::empty(), found_here(walk, wc), walk.commits[wc].parents->0, 1),
        forall|i: int| 0 <= i < found_here(walk, wc).len() ==> (#[trigger] found_here(walk, wc)[i]).distance == 0,
{
    let none = Seq::<BookmarkView>::empty();
    let here = found_here(walk, wc);
    let names = names_on(walk, wc);
    let level = walk.commits[wc].parents->0;
    assert(reach(walk, wc, 0).contains(wc));
    assert(nearest_first(walk, wc, none));
    if passes(walk, wc) {
        assert forall|i: int| 0 <= i < names.len() implies names_on(walk, wc).contains(#[trigger] names[i]) by {}
        lemma_with_names(walk, wc, none, names, 0, wc);
    }
    assert(covers_to(walk, wc, here, 1)) by {
        assert forall|name: Seq<char>, k: nat| k < 1 && #[trigger] named_at(walk, wc, name, k) implies has_name(
            here,
            name,
        ) by {
            let id = choose|id: Seq<char>| #[trigger]
                reach(walk, wc, k).contains(id) && passes(walk, id) && names_on(walk, id).contains(name);
            assert(id == wc);
        }
    }
    let before = reach(walk, wc, 0);
    assert forall|id: Seq<char>| #[trigger] reach(walk, wc, 1).contains(id) <==> level.contains(id) by {
        if reach(walk, wc, 1).contains(id) {
            let child = choose|child: Seq<char>| #[trigger]
                before.contains(child) && (1nat == 1 || passes(walk, child)) && walk.commits[child].parents is Some
                    && walk.commits[child].parents->0.contains(id);
            assert(child == wc);
        }
        if level.contains(id) {
            assert(before.contains(wc));
        }
    }
    assert forall|i: int| 0 <= i < level.len() implies reach(walk, wc, 1).contains(#[trigger] level[i]) by {
        assert(level.contains(level[i]));
    }
}

/// The bookmarks that a complete search finds come nearest first, each name once and at
/// its shortest distance over commits that the walk goes through, and none is further than
/// the walk may go.
pub proof fn bookmarks_come_nearest_first(walk: Walk, wc: Seq<char>)
    requires
        search_complete(walk, wc),
    ensures
        nearest_first(walk, wc, all_found(walk, wc)),
        forall|i: int|
            0 <= i < all_found(walk, wc).len() ==> (#[trigger] all_found(walk, wc)[i]).distance <= walk.max_depth,
{
    lemma_start_on_course(walk, wc);
    lemma_found_from(walk, wc, Set::empty(), found_here(walk, wc), walk.commits[wc].parents->0, 1);
}

/// A complete search that does not stop early misses no bookmark within its depth.
pub proof fn search_misses_no_bookmark(walk: Walk, wc: Seq<char>)
    requires
        search_complete(walk, wc),
        !walk.nearest_only,
    ensures
        covers_to(walk, wc, all_found(walk, wc), walk.max_depth + 1),
{
    lemma_start_on_course(walk, wc);
    lemma_found_from(walk, wc, Set::empty(), found_here(walk, wc), walk.commits[wc].parents->0, 1);
}

/// A complete search for the nearest bookmarks finds those of one distance, and all of
/// them, and there is none nearer; where it finds none, there is none within its depth.
pub proof fn nearest_search_is_one_level(walk: Walk, wc: Seq<char>)
    requires
        search_complete(walk, wc),
        walk.nearest_only,
    ensures
        forall|i: int, j: int|
            0 <= i < all_found(walk, wc).len() && 0 <= j < all_found(walk, wc).len() ==> (#[trigger] all_found(
                walk,
                wc,
            )[i]).distance == (#[trigger] all_found(walk, wc)[j]).distance,
        forall|i: int, name: Seq<char>|
            0 <= i < all_found(walk, wc).len() && #[trigger] named_at(
                walk,
                wc,
                name,
                (#[trigger] all_found(walk, wc)[i]).distance as nat,
            ) ==> has_name(all_found(walk, wc), name),
        forall|i: int, name: Seq<char>, k: nat|
            0 <= i < all_found(walk, wc).len() && k < (#[trigger] all_found(walk, wc)[i]).distance ==> !#[trigger] named_at(
                walk,
                wc,
                name,
                k,
            ),
        all_found(walk, wc).len() == 0 ==> forall|name: Seq<char>, k: nat|
            k <= walk.max_depth ==> !#[trigger] named_at(walk, wc, name, k),
{
    lemma_start_on_course(walk, wc);
    let here = found_here(walk, wc);
    lemma_found_from(walk, wc, Set::empty(), here, walk.commits[wc].parents->0, 1);
    let all = all_found(walk, wc);
    if here.len() > 0 {
        assert(all == here);
    } else if all.len() == 0 {
        assert forall|name: Seq<char>, k: nat| k <= walk.max_depth implies !#[trigger] named_at(walk, wc, name, k) by {
            if named_at(walk, wc, name, k) {
                assert(has_name(here, name));
            }
        }
    }
}

/// A local bookmark and the commit that it is on, where it is on one.
pub struct LocalBookmark {
    pub name: String,
    pub commit: Option<String>,
}

/// The names of the bookmarks that are on a commit, in the order of a list.
pub open spec fn names_in(list: Seq<LocalBookmark>, id: Seq<char>) -> Seq<Seq<char>>
    decreases list.len(),
{
    if list.len() == 0 {
        Seq::empty()
    } else {
        let before = names_in(list.drop_last(), id);
        if list.last().commit is Some && list.last().commit->0@ == id {
            before.push(list.last().name@)
        } else {
            before
        }
    }
}

/// The commits that bookmarks are on, with the names of these.
pub open spec fn targets_view(list: Seq<LocalBookmark>) -> Map<Seq<char>, Seq<Seq<char>>> {
    Map::new(|id: Seq<char>| names_in(list, id).len() > 0, |id: Seq<char>| names_in(list, id))
}

/// Build a map from commit id to the names of the bookmarks on it.
pub fn bookmark_targets(list: &Vec<LocalBookmark>) -> (r: FileTable<Names>)
    ensures
        r.wf(),
        r@ == targets_view(list@),
{
    let mut table: FileTable<Names> = FileTable::new();
    let mut i: usize = 0;
    assert(table@ =~= targets_view(list@.take(0)));
    while i < list.len()
        invariant
            i <= list.len(),
            table.wf(),
            table@ == targets_view(list@.take(i as int)),
        decreases list.len() - i,
    {
        let item = &list[i];
        let ghost before = list@.take(i as int);
        let ghost now = list@.take(i + 1);
        proof {
            assert(now.drop_last() =~= before);
            assert(now.last() == *item);
        }
        match &item.commit {
            Some(id) => {
                let mut names: Vec<String> = Vec::new();
                assert(views(names@) =~= Seq::empty());
                if let Some(known) = table.get(id.as_str()) {
                    push_all(&mut names, &known.list);
                    assert(Seq::<Seq<char>>::empty() + views(known.list@) =~= views(known.list@));
                }
                assert(views(names@) == names_in(before, id@));
                let name = item.name.clone();
                let ghost so_far = names@;
                names.push(name);
                proof {
                    lemma_views_push(so_far, name);
                }
                table.insert(id.clone(), Names { list: names });
                assert(table@ =~= targets_view(now));
            },
            None => {
                assert(table@ =~= targets_view(now));
            },
        }
        i += 1;
    }
    assert(list@.take(i as int) =~= list@);
    table
}

/// The walk over the current line of work, and that for the nearest bookmarks.
pub open spec fn search_walk(
    commits: Map<Seq<char>, CommitView>,
    local: Seq<LocalBookmark>,
    max_depth: u32,
    on_line: bool,
) -> Walk {
    Walk { commits, targets: targets_view(local), max_depth, filtered: on_line, nearest_only: !on_line }
}

/// The bookmarks to show: those on the current line of work where it is known and has any,
/// else the nearest ones.
pub open spec fn bookmarks_to_show(
    commits: Map<Seq<char>, CommitView>,
    local: Seq<LocalBookmark>,
    wc: Seq<char>,
    max_depth: u32,
    line_known: bool,
) -> Seq<BookmarkView> {
    let on_line = all_found(search_walk(commits, local, max_depth, true), wc);
    if line_known && on_line.len() > 0 {
        on_line
    } else {
        all_found(search_walk(commits, local, max_depth, false), wc)
    }
}

/// The walk that a search for the bookmarks to show is at: that over the current line of
/// work as long as it is not complete, then that for the nearest bookmarks.
pub open spec fn pending_walk(
    commits: Map<Seq<char>, CommitView>,
    local: Seq<LocalBookmark>,
    wc: Seq<char>,
    max_depth: u32,
    line_known: bool,
) -> Walk {
    let line = search_walk(commits, local, max_depth, true);
    if line_known && !search_complete(line, wc) {
        line
    } else {
        search_walk(commits, local, max_depth, false)
    }
}

/// Whether everything that a search for the bookmarks to show comes to is known and can be
/// read.
pub open spec fn is_settled(
    commits: Map<Seq<char>, CommitView>,
    local: Seq<LocalBookmark>,
    wc: Seq<char>,
    max_depth: u32,
    line_known: bool,
) -> bool {
    let line = search_walk(commits, local, max_depth, true);
    &&& line_known ==> search_complete(line, wc)
    &&& line_known && all_found(line, wc).len() > 0 || search_complete(
        search_walk(commits, local, max_depth, false),
        wc,
    )
}

/// A list has just the members of a set.
pub open spec fn lists_all(list: Seq<Seq<char>>, set: Set<Seq<char>>) -> bool {
    forall|id: Seq<char>| #[trigger] list.contains(id) <==> set.contains(id)
}

/// Finds the bookmarks to show, each with its tracking status over the remotes. Where a
/// commit that it comes to is not known yet, it asks for it.
///
/// Bookmarks on the current line of work are preferred; bookmarks in trunk's history are
/// noise when feature bookmarks exist. If the current line has NO bookmarks, or is not
/// known, the nearest ancestor bookmarks are found (stopping at the first depth with a
/// match), so a fresh stack of changes still shows where it sits.
pub fn find_ancestor_bookmarks(
    commits: &FileTable<CommitFacts>,
    local: &Vec<LocalBookmark>,
    remotes: &Vec<RemoteBookmark>,
    wc_id: &str,
    max_depth: u32,
    line_known: bool,
) -> (r: Search)
    requires
        commits.wf(),
    ensures
        ({
            let settled = is_settled(commits@, local@, wc_id@, max_depth, line_known);
            let walk = pending_walk(commits@, local@, wc_id@, max_depth, line_known);
            match r {
                Search::Found(list) => settled && bookmark_views(list@) == with_tracking(
                    bookmarks_to_show(commits@, local@, wc_id@, max_depth, line_known),
                    remotes@,
                ),
                Search::Unreadable(id) => !settled && stuck_commit(walk, wc_id@) == Some(id@),
                Search::Missing(list) => {
                    &&& !settled
                    &&& list@.len() > 0
                    &&& lists_all(views(list@), unknown_commits(walk, wc_id@))
                },
            }
        }),
{
    let targets = bookmark_targets(local);
    if line_known {
        match collect_bookmarks_bfs(commits, &targets, wc_id, max_depth, true, false) {
            Search::Found(list) => {
                assert(bookmark_views(list@).len() == list@.len());
                if list.len() > 0 {
                    return Search::Found(compute_tracking_statuses(list, remotes));
                }
            },
            other => {
                return other;
            },
        }
    }
    match collect_bookmarks_bfs(commits, &targets, wc_id, max_depth, false, true) {
        Search::Found(list) => Search::Found(compute_tracking_statuses(list, remotes)),
        other => other,
    }
}

} // verus!
