use vcs_status_daemon::cli::{find_repo, query_repo, try_fast_args, DirFacts, FastArgs};
use vcs_status_daemon::daemon::{
    binary_verdict, cleans_file, goes_on, socket_verdict, start_verdict, StartVerdict, BinaryVerdict, CachedStatus, DaemonState, PendingRefreshes,
    SocketVerdict,
};
use vcs_status_daemon::ignore_filter::VcsKind;
use vcs_status_daemon::lines::{split_lines, take_first_line};
use vcs_status_daemon::protocol::{
    add_version, begin_query, continue_query, extract_status, is_other_version, restart_step, shutdown, status_lines, QueryAction,
    QueryEvent, QueryStep, Response, RestartAction, StatusOutcome,
};
use vcs_status_daemon::router::{Route, Routed, Router};
use vcs_status_daemon::status::RepoStatus;

fn status(formatted: &str) -> Response {
    Response::Status { formatted: formatted.to_string() }
}

fn error(message: &str) -> Response {
    Response::Error { message: message.to_string() }
}

#[test]
fn answers_to_a_query() {
    assert_eq!(extract_status(status("main+1")), Ok("main+1".to_string()));
    assert_eq!(extract_status(error("no repo")), Err("no repo".to_string()));
    assert_eq!(extract_status(Response::Acknowledged), Ok(String::new()));
}

#[test]
fn answers_to_a_shutdown() {
    assert_eq!(shutdown(Some(Response::Acknowledged)), Ok(()));
    assert_eq!(shutdown(Some(error("busy"))), Err("busy".to_string()));
    assert_eq!(shutdown(Some(status("x"))), Ok(()));
    assert_eq!(shutdown(None), Err("failed to send shutdown".to_string()));
}

#[test]
fn cached_status_answers_a_query() {
    let (_, action) = begin_query(true, Some("cached".to_string()));
    assert!(matches!(action, QueryAction::Done(Ok(text)) if text == "cached"));
    assert!(matches!(begin_query(false, Some("cached".to_string())).1, QueryAction::Send));
    assert!(matches!(begin_query(true, None).1, QueryAction::Send));
}

#[test]
fn unanswered_query_starts_the_daemon_and_tries_again() {
    let (step, action) = continue_query(QueryStep::First, QueryEvent::NoAnswer);
    assert!(matches!(action, QueryAction::StartDaemon));
    let (mut step, mut action) = continue_query(step, QueryEvent::Started);
    let mut waits = vec![];
    loop {
        match action {
            QueryAction::WaitAndSend(ms) => waits.push(ms),
            QueryAction::Done(result) => {
                assert_eq!(result, Err("failed to connect to daemon after starting it".to_string()));
                break;
            }
            _ => panic!("unexpected action"),
        }
        (step, action) = continue_query(step, QueryEvent::NoAnswer);
    }
    assert_eq!(waits, vec![100, 200, 300, 400, 500, 600, 700, 800, 900, 1000]);
    assert_eq!(waits.iter().sum::<u64>(), 5500);
}

#[test]
fn late_answer_ends_a_query() {
    let (_, action) = continue_query(QueryStep::Retrying(3), QueryEvent::Answer(status("late")));
    assert!(matches!(action, QueryAction::Done(Ok(text)) if text == "late"));
    let (_, action) = continue_query(QueryStep::Starting, QueryEvent::StartFailed("no exe".to_string()));
    assert!(matches!(action, QueryAction::Done(Err(text)) if text == "no exe"));
}

#[test]
fn restart_waits_then_kills() {
    assert!(matches!(restart_step(false, 0, None), RestartAction::Start));
    assert!(matches!(restart_step(true, 0, None), RestartAction::Wait(100)));
    assert!(matches!(restart_step(true, 4999, Some("12\n".into())), RestartAction::Wait(100)));
    assert!(matches!(
        restart_step(true, 5000, Some("12\n".into())),
        RestartAction::Kill { pid, wait_ms: 200 } if pid == "12"
    ));
    assert!(matches!(restart_step(true, 5000, None), RestartAction::RemoveSocket));
}

#[test]
fn status_of_a_running_daemon() {
    let answer = Response::DaemonStatus {
        pid: 42,
        uptime_secs: 3725,
        watched_repos: vec!["/a".to_string(), "/b".to_string()],
    };
    assert_eq!(
        status_lines(StatusOutcome::Answer(answer), "/run/pid", "/run/sock").unwrap(),
        vec![
            "daemon running",
            "  pid:           42",
            "  uptime:        1h 2m 5s",
            "  watched repos: 2",
            "    /a",
            "    /b",
            "  socket:        /run/sock",
        ]
    );
    assert_eq!(
        status_lines(StatusOutcome::Answer(error("broken")), "/run/pid", "/run/sock"),
        Err("broken".to_string())
    );
    assert!(status_lines(StatusOutcome::Answer(Response::Acknowledged), "/run/pid", "/run/sock").is_err());
}

#[test]
fn status_without_a_daemon() {
    assert_eq!(
        status_lines(StatusOutcome::NotRunning { stale_pid: None }, "/run/pid", "/run/sock").unwrap(),
        vec!["daemon not running", "  socket: /run/sock"]
    );
    assert_eq!(
        status_lines(StatusOutcome::NotRunning { stale_pid: Some("999999\n".into()) }, "/run/pid", "/run/sock")
            .unwrap(),
        vec!["daemon not running", "  stale pidfile: /run/pid (pid 999999)", "  socket: /run/sock"]
    );
}

#[test]
fn versions_are_compared() {
    assert!(!is_other_version(None, "0.0.8"));
    assert!(!is_other_version(Some("0.0.8\n"), "0.0.8"));
    assert!(is_other_version(Some("0.0.7\n"), "0.0.8"));
}

fn cached(description: &str, formatted: &str) -> CachedStatus {
    let mut status = RepoStatus::default();
    status.description = description.to_string();
    CachedStatus { status, formatted: formatted.to_string() }
}

#[test]
fn first_query_watches_and_asks() {
    let mut daemon = DaemonState::new(5);
    let plan = daemon.on_query("/repo", 10);
    assert!(plan.watch && plan.cached.is_none());
    daemon.on_watched("/repo");
    assert!(matches!(daemon.on_asked("/repo", Err("no".into())), Response::Error { message } if message == "no"));
    assert!(daemon.on_query("/repo", 11).cached.is_none());
    assert!(matches!(
        daemon.on_asked("/repo", Ok(cached("d", "shown"))),
        Response::Status { formatted } if formatted == "shown"
    ));
    let plan = daemon.on_query("/repo", 12);
    assert!(!plan.watch);
    assert_eq!(plan.cached.as_deref(), Some("shown"));
    assert_eq!(daemon.watched_repos(), vec!["/repo"]);
}

#[test]
fn failed_refresh_marks_the_status_stale() {
    let mut daemon = DaemonState::new(0);
    assert!(daemon.begin_refresh("/repo").is_none());
    assert!(daemon.end_refresh("/repo", Err("locked".into())).is_none());
    daemon.keep("/repo", cached("work", "work"));
    let refreshing = daemon.begin_refresh("/repo").unwrap();
    assert!(refreshing.is_stale && refreshing.refresh_error.is_empty());
    assert_eq!(refreshing.description, "work");
    daemon.keep("/repo", CachedStatus { status: refreshing, formatted: "work STALE".into() });
    let failed = daemon.end_refresh("/repo", Err("locked".into())).unwrap();
    assert!(failed.is_stale);
    assert_eq!(failed.refresh_error, "locked");
    assert_eq!(failed.description, "work");
    daemon.keep("/repo", CachedStatus { status: failed, formatted: "work STALE".into() });
    let healed = daemon.end_refresh("/repo", Ok(RepoStatus::default())).unwrap();
    assert!(!healed.is_stale && healed.refresh_error.is_empty());
}

#[test]
fn idle_daemon_times_out() {
    let mut daemon = DaemonState::new(0);
    assert!(!daemon.is_idle(3_600_000_000_000, 3600));
    assert!(daemon.is_idle(3_600_000_000_001, 3600));
    daemon.on_query("/repo", 3_600_000_000_000);
    assert!(!daemon.is_idle(3_600_000_000_001, 3600));
}

#[test]
fn changes_wait_for_one_refresh() {
    let mut pending = PendingRefreshes::new();
    pending.note("/b", false);
    pending.note("/a", true);
    pending.note("/b", true);
    pending.note("/a", false);
    pending.note("/c", false);
    let mut list = pending.drain();
    list.sort();
    assert_eq!(list, vec![("/a".to_string(), false), ("/b".to_string(), false), ("/c".to_string(), true)]);
    assert!(pending.drain().is_empty());
}

#[test]
fn start_of_a_daemon() {
    assert!(matches!(socket_verdict(false, false), SocketVerdict::Bind));
    assert!(matches!(socket_verdict(true, false), SocketVerdict::RemoveStale));
    assert!(matches!(socket_verdict(true, true), SocketVerdict::AlreadyRunning));
}

#[test]
fn replaced_binary_restarts() {
    assert!(matches!(binary_verdict(7, Some(7)), BinaryVerdict::Unchanged));
    assert!(matches!(binary_verdict(7, Some(8)), BinaryVerdict::Restart));
    assert!(matches!(binary_verdict(7, None), BinaryVerdict::Shutdown));
    assert!(cleans_file(1, 2, "cache.txt"));
    assert!(!cleans_file(1, 2, "daemon.log.1"));
    assert!(!cleans_file(1, 2, "daemon.log"));
    assert!(!cleans_file(2, 2, "cache.txt"));
}

#[test]
fn requests_find_their_worker() {
    let mut router = Router::new();
    assert!(matches!(router.route(Routed::ForRepo("/a".into())), Route::Spawn(p) if p == "/a"));
    assert!(matches!(router.route(Routed::ForRepo("/a".into())), Route::Send(p) if p == "/a"));
    assert!(matches!(router.route(Routed::ForRepo("/b".into())), Route::Spawn(_)));
    assert!(matches!(router.route(Routed::ForAll), Route::FanOut(all) if all == vec!["/a", "/b"]));
    assert!(matches!(router.route(Routed::Forget("/a".into())), Route::Drop(p) if p == "/a"));
    assert!(matches!(router.route(Routed::ForAll), Route::FanOut(all) if all == vec!["/b"]));
    assert!(matches!(router.route(Routed::ForRepo("/a".into())), Route::Spawn(_)));
    assert!(matches!(router.on_send_failed("/b".into()), Route::Spawn(p) if p == "/b"));
    assert!(matches!(router.route(Routed::ForAll), Route::FanOut(all) if all.len() == 2));
}

fn args(list: &[&str]) -> Vec<Option<String>> {
    list.iter().map(|a| Some(a.to_string())).collect()
}

#[test]
fn fast_arguments() {
    assert_eq!(try_fast_args(&args(&[])), FastArgs::Here);
    assert_eq!(try_fast_args(&args(&["--repo", "/a"])), FastArgs::At(1));
    assert_eq!(try_fast_args(&args(&["--repo", "/a", "--repo", "/b"])), FastArgs::At(3));
    assert_eq!(try_fast_args(&args(&["--repo"])), FastArgs::Other);
    assert_eq!(try_fast_args(&args(&["status"])), FastArgs::Other);
    assert_eq!(try_fast_args(&args(&["--repo", "/a", "--use-cache"])), FastArgs::Other);
    assert_eq!(try_fast_args(&vec![Some("--repo".to_string()), None]), FastArgs::At(1));
    assert_eq!(try_fast_args(&vec![None]), FastArgs::Other);
    assert_eq!(query_repo(Some("/sub".into()), Some("/before".into())).as_deref(), Some("/sub"));
    assert_eq!(query_repo(None, Some("/before".into())).as_deref(), Some("/before"));
    assert_eq!(query_repo(None, None), None);
}

#[test]
fn nearest_repo() {
    let none = DirFacts { has_jj: false, has_git: false };
    let git = DirFacts { has_jj: false, has_git: true };
    let both = DirFacts { has_jj: true, has_git: true };
    assert_eq!(find_repo(&vec![none, none]), None);
    assert_eq!(find_repo(&vec![none, git, both]), Some((1, VcsKind::Git)));
    assert_eq!(find_repo(&vec![none, both]), Some((1, VcsKind::Jj)));
}

#[test]
fn lines_of_texts() {
    for text in ["", "\n", "a", "a\n", "a\r\nb", "a\n\nb\r\n", "a\r", "\r\n", "a\rb\n"] {
        let expected: Vec<String> = text.lines().map(String::from).collect();
        assert_eq!(split_lines(text), expected, "{text:?}");
        assert_eq!(take_first_line(text), text.lines().next().unwrap_or(""), "{text:?}");
    }
}

#[test]
fn root_is_refused() {
    assert_eq!(start_verdict(false, false, false), StartVerdict::Start);
    assert_eq!(start_verdict(true, false, false), StartVerdict::RefuseRoot);
    assert_eq!(start_verdict(true, true, false), StartVerdict::Start);
    assert_eq!(start_verdict(true, false, true), StartVerdict::Start);
}

#[test]
fn daemon_ends_without_its_socket() {
    assert!(goes_on(true, false));
    assert!(!goes_on(false, false));
    assert!(!goes_on(true, true));
}

#[test]
fn status_tells_the_version() {
    let lines = vec!["daemon running".to_string()];
    assert_eq!(add_version(lines.clone(), None), lines);
    assert_eq!(add_version(lines, Some("0.0.8\n")), vec!["daemon running", "  version:       0.0.8"]);
}
