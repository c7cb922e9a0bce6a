use vcs_status_daemon::bookmarks::{
    bookmark_targets, classify_tracking, collect_bookmarks_bfs, compute_tracking_statuses, find_ancestor_bookmarks,
    Bookmark, CommitFacts, LocalBookmark, RemoteBookmark, Search, TrackingStatus,
};
use vcs_status_daemon::table::FileTable;

fn commits(list: &[(&str, &[&str], bool)]) -> FileTable<CommitFacts> {
    let mut table = FileTable::new();
    for (id, parents, in_branch) in list {
        let parents = Some(parents.iter().map(|p| p.to_string()).collect());
        table.insert(id.to_string(), CommitFacts { parents, in_branch: *in_branch });
    }
    table
}

fn local(list: &[(&str, &str)]) -> Vec<LocalBookmark> {
    list.iter()
        .map(|(name, id)| LocalBookmark { name: name.to_string(), commit: Some(id.to_string()) })
        .collect()
}

fn shown(search: Search) -> Vec<String> {
    match search {
        Search::Found(list) => list.into_iter().map(|b| b.display).collect(),
        Search::Unreadable(id) => vec![format!("unreadable {id}")],
        Search::Missing(list) => list.into_iter().map(|id| format!("missing {id}")).collect(),
    }
}

#[test]
fn bookmarks_come_with_their_distance() {
    let graph = commits(&[("w", &["p"], true), ("p", &["q"], true), ("q", &["r"], true), ("r", &[], true)]);
    let names = local(&[("here", "w"), ("one", "p"), ("two", "q"), ("three", "r")]);
    let found = find_ancestor_bookmarks(&graph, &names, &vec![], "w", 2, true);
    assert_eq!(shown(found), vec!["here", "one+1", "two+2"]);
}

#[test]
fn shortest_way_counts() {
    let graph = commits(&[
        ("w", &["a", "b"], true),
        ("a", &["c"], true),
        ("b", &["d"], true),
        ("c", &["d"], true),
        ("d", &[], true),
    ]);
    let names = local(&[("deep", "d"), ("both", "c"), ("both", "d")]);
    let found = find_ancestor_bookmarks(&graph, &names, &vec![], "w", 10, true);
    assert_eq!(shown(found), vec!["both+2", "deep+2"]);
}

#[test]
fn trunk_is_left_out_when_the_line_has_bookmarks() {
    let graph = commits(&[("w", &["p"], true), ("p", &["t"], true), ("t", &["u"], false), ("u", &[], false)]);
    let names = local(&[("feature", "p"), ("main", "t"), ("old", "u")]);
    assert_eq!(shown(find_ancestor_bookmarks(&graph, &names, &vec![], "w", 10, true)), vec!["feature+1"]);
}

#[test]
fn without_bookmarks_on_the_line_the_nearest_are_shown() {
    let graph = commits(&[("w", &["p"], true), ("p", &["t"], true), ("t", &["u"], false), ("u", &[], false)]);
    let names = local(&[("main", "t"), ("stable", "t"), ("old", "u")]);
    assert_eq!(shown(find_ancestor_bookmarks(&graph, &names, &vec![], "w", 10, true)), vec!["main+2", "stable+2"]);
    assert_eq!(shown(find_ancestor_bookmarks(&graph, &names, &vec![], "w", 10, false)), vec!["main+2", "stable+2"]);
    assert!(shown(find_ancestor_bookmarks(&graph, &names, &vec![], "w", 1, true)).is_empty());
}

#[test]
fn nearest_search_stops_at_the_working_copy() {
    let graph = commits(&[("w", &["p"], true), ("p", &[], true)]);
    let targets = bookmark_targets(&local(&[("a", "w"), ("b", "p")]));
    let found = collect_bookmarks_bfs(&graph, &targets, "w", 5, false, true);
    assert_eq!(shown(found), vec!["a"]);
}

#[test]
fn unknown_commits_are_asked_for() {
    let names = local(&[("far", "q")]);
    let nothing = commits(&[]);
    assert_eq!(shown(find_ancestor_bookmarks(&nothing, &names, &vec![], "w", 5, true)), vec!["missing w"]);
    let some = commits(&[("w", &["p", "q"], true)]);
    assert_eq!(
        shown(find_ancestor_bookmarks(&some, &names, &vec![], "w", 5, true)),
        vec!["missing p", "missing q"]
    );
    let shallow = commits(&[("w", &["p"], true)]);
    assert!(shown(find_ancestor_bookmarks(&shallow, &names, &vec![], "w", 0, true)).is_empty());
}

#[test]
fn unreadable_commits_are_an_error() {
    let names = local(&[]);
    let mut graph = commits(&[("w", &["p"], true)]);
    graph.insert("p".to_string(), CommitFacts { parents: None, in_branch: true });
    assert_eq!(shown(find_ancestor_bookmarks(&graph, &names, &vec![], "w", 5, true)), vec!["unreadable p"]);
    assert!(shown(find_ancestor_bookmarks(&graph, &names, &vec![], "w", 1, true)).is_empty());
    let mut start = commits(&[]);
    start.insert("w".to_string(), CommitFacts { parents: None, in_branch: true });
    assert_eq!(shown(find_ancestor_bookmarks(&start, &names, &vec![], "w", 5, true)), vec!["unreadable w"]);
}

#[test]
fn bookmarks_without_one_commit_are_left_out() {
    let list = vec![
        LocalBookmark { name: "conflicted".into(), commit: None },
        LocalBookmark { name: "a".into(), commit: Some("x".into()) },
        LocalBookmark { name: "b".into(), commit: Some("x".into()) },
    ];
    let targets = bookmark_targets(&list);
    assert_eq!(targets.len(), 1);
    assert_eq!(targets.get("x").unwrap().list, vec!["a", "b"]);
}

#[test]
fn tracking_by_ancestry() {
    assert_eq!(classify_tracking(true, false, false), TrackingStatus::InSync);
    assert_eq!(classify_tracking(false, true, false), TrackingStatus::Behind);
    assert_eq!(classify_tracking(false, false, true), TrackingStatus::Ahead);
    assert_eq!(classify_tracking(false, false, false), TrackingStatus::Sideways);
    assert_eq!(classify_tracking(false, true, true), TrackingStatus::Sideways);
}

fn remote(name: &str, same: bool, local_is_ancestor: bool, remote_is_ancestor: bool) -> RemoteBookmark {
    RemoteBookmark {
        name: name.to_string(),
        is_tracked: true,
        present: true,
        remote_normal: true,
        local_normal: true,
        same_commit: same,
        local_is_ancestor,
        remote_is_ancestor,
    }
}

fn status_over(remotes: Vec<RemoteBookmark>) -> TrackingStatus {
    let list = vec![Bookmark {
        name: "main".into(),
        distance: 1,
        display: "main+1".into(),
        tracking: TrackingStatus::Untracked,
    }];
    let list = compute_tracking_statuses(list, &remotes);
    assert_eq!(list[0].display, "main+1");
    list[0].tracking
}

#[test]
fn the_worst_remote_counts() {
    let in_sync = || remote("main", true, false, false);
    let ahead = || remote("main", false, false, true);
    let behind = || remote("main", false, true, false);
    let sideways = || remote("main", false, false, false);
    assert_eq!(status_over(vec![]), TrackingStatus::Untracked);
    assert_eq!(status_over(vec![in_sync()]), TrackingStatus::InSync);
    assert_eq!(status_over(vec![in_sync(), ahead()]), TrackingStatus::Ahead);
    assert_eq!(status_over(vec![behind(), in_sync()]), TrackingStatus::Behind);
    assert_eq!(status_over(vec![ahead(), behind()]), TrackingStatus::Sideways);
    assert_eq!(status_over(vec![behind(), in_sync(), ahead()]), TrackingStatus::Sideways);
    assert_eq!(status_over(vec![sideways(), in_sync()]), TrackingStatus::Sideways);
    assert_eq!(status_over(vec![in_sync(), sideways()]), TrackingStatus::Sideways);
    assert_eq!(status_over(vec![ahead(), ahead()]), TrackingStatus::Ahead);
    let other = remote("other", false, false, false);
    assert_eq!(status_over(vec![other]), TrackingStatus::Untracked);
    let untracked = RemoteBookmark { is_tracked: false, ..sideways() };
    assert_eq!(status_over(vec![untracked]), TrackingStatus::Untracked);
    let absent = RemoteBookmark { present: false, ..sideways() };
    assert_eq!(status_over(vec![absent]), TrackingStatus::Untracked);
}

#[test]
fn found_bookmarks_have_their_status() {
    let graph = commits(&[("w", &["p"], true), ("p", &[], true)]);
    let names = local(&[("main", "p"), ("loose", "w")]);
    let remotes = vec![remote("main", false, true, false)];
    match find_ancestor_bookmarks(&graph, &names, &remotes, "w", 5, true) {
        Search::Found(list) => {
            assert_eq!((list[0].name.as_str(), list[0].tracking), ("loose", TrackingStatus::Untracked));
            assert_eq!((list[1].name.as_str(), list[1].tracking), ("main", TrackingStatus::Behind));
        }
        _ => panic!("expected bookmarks"),
    }
}
