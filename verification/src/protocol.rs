//! What the client and the daemon say to each other, and what the client makes of it.

use crate::staging::lemma_views_push;
use crate::strings::{decimal, to_decimal, views};
use vstd::prelude::*;
use vstd::string::StringExecFns;

verus! {

/// A request of the client.
#[derive(Debug)]
pub enum Request {
    Query { repo_path: String },
    Shutdown,
    DaemonStatus,
}

/// An answer of the daemon.
#[derive(Debug)]
pub enum Response {
    Status { formatted: String },
    Acknowledged,
    Error { message: String },
    DaemonStatus { pid: u32, uptime_secs: u64, watched_repos: Vec<String> },
}

/// The text of a status response; an error response gives its message. Any other response
/// has no text.
pub fn extract_status(response: Response) -> (r: Result<String, String>)
    ensures
        match response {
            Response::Status { formatted } => r == Ok::<String, String>(formatted),
            Response::Error { message } => r == Err::<String, String>(message),
            _ => r is Ok && r->Ok_0@ == Seq::<char>::empty(),
        },
{
    match response {
        Response::Status { formatted } => Ok(formatted),
        Response::Error { message } => Err(message),
        _ => Ok(String::new()),
    }
}

/// What a shutdown request came to: an error where it could not be sent, or where the
/// daemon answered with one.
pub fn shutdown(response: Option<Response>) -> (r: Result<(), String>)
    ensures
        match response {
            None => r is Err && r->Err_0@ == "failed to send shutdown"@,
            Some(Response::Error { message }) => r == Err::<(), String>(message),
            Some(_) => r is Ok,
        },
{
    match response {
        None => Err("failed to send shutdown".to_owned()),
        Some(Response::Error { message }) => Err(message),
        Some(_) => Ok(()),
    }
}

/// How often a query is sent again after the daemon was started.
pub const MAX_RETRIES: u64 = 10;

/// How much longer each retry waits than the one before it, in milliseconds.
pub const RETRY_STEP_MS: u64 = 100;

/// Where a query is.
pub enum QueryStep {
    /// Nothing has been sent yet.
    First,
    /// The daemon is being started.
    Starting,
    /// The query has been sent again so many times after the daemon was started.
    Retrying(u64),
}

/// What a query wants done.
pub enum QueryAction {
    Send,
    StartDaemon,
    /// Wait so many milliseconds, then send the query again.
    WaitAndSend(u64),
    Done(Result<String, String>),
}

/// What happened.
pub enum QueryEvent {
    /// The daemon answered.
    Answer(Response),
    /// The request could not be sent, or was not answered.
    NoAnswer,
    /// The daemon has been started.
    Started,
    /// The daemon could not be started.
    StartFailed(String),
}

/// How a query begins: with the cached status where that may be used and is there.
pub fn begin_query(use_cache: bool, cached: Option<String>) -> (r: (QueryStep, QueryAction))
    ensures
        r.0 == QueryStep::First,
        if use_cache && cached is Some {
            r.1 == QueryAction::Done(Ok::<String, String>(cached->0))
        } else {
            r.1 == QueryAction::Send
        },
{
    if use_cache {
        if let Some(status) = cached {
            return (QueryStep::First, QueryAction::Done(Ok(status)));
        }
    }
    (QueryStep::First, QueryAction::Send)
}

/// How a query goes on.
pub open spec fn query_goes_on(step: QueryStep, event: QueryEvent, next: QueryStep, action: QueryAction) -> bool {
    match (step, event) {
        (_, QueryEvent::Answer(response)) => {
            &&& next == step
            &&& action is Done
            &&& match response {
                Response::Status { formatted } => action->Done_0 == Ok::<String, String>(formatted),
                Response::Error { message } => action->Done_0 == Err::<String, String>(message),
                _ => action->Done_0 is Ok && action->Done_0->Ok_0@ == Seq::<char>::empty(),
            }
        },
        (QueryStep::First, QueryEvent::NoAnswer) => next == QueryStep::Starting && action == QueryAction::StartDaemon,
        (QueryStep::Starting, QueryEvent::Started) => {
            &&& next == QueryStep::Retrying(1)
            &&& action == QueryAction::WaitAndSend(RETRY_STEP_MS)
        },
        (QueryStep::Starting, QueryEvent::StartFailed(message)) => {
            &&& next == step
            &&& action == QueryAction::Done(Err::<String, String>(message))
        },
        (QueryStep::Retrying(sent), QueryEvent::NoAnswer) => if sent < MAX_RETRIES {
            &&& next == QueryStep::Retrying((sent + 1) as u64)
            &&& action == QueryAction::WaitAndSend((RETRY_STEP_MS * (sent + 1)) as u64)
        } else {
            &&& next == step
            &&& action is Done
            &&& action->Done_0 is Err
            &&& action->Done_0->Err_0@ == "failed to connect to daemon after starting it"@
        },
        _ => next == step && action is Done && action->Done_0 is Err,
    }
}

/// How a query goes on: a daemon that does not answer at first is started, and then the
/// query is sent again with growing waits.
pub fn continue_query(step: QueryStep, event: QueryEvent) -> (r: (QueryStep, QueryAction))
    ensures
        query_goes_on(step, event, r.0, r.1),
{
    match event {
        QueryEvent::Answer(response) => (step, QueryAction::Done(extract_status(response))),
        QueryEvent::NoAnswer => match step {
            QueryStep::First => (QueryStep::Starting, QueryAction::StartDaemon),
            QueryStep::Retrying(sent) => {
                if sent < MAX_RETRIES {
                    (QueryStep::Retrying(sent + 1), QueryAction::WaitAndSend(RETRY_STEP_MS * (sent + 1)))
                } else {
                    (
                        step,
                        QueryAction::Done(Err("failed to connect to daemon after starting it".to_owned())),
                    )
                }
            },
            QueryStep::Starting => (step, QueryAction::Done(Err("unexpected event".to_owned()))),
        },
        QueryEvent::Started => match step {
            QueryStep::Starting => (QueryStep::Retrying(1), QueryAction::WaitAndSend(RETRY_STEP_MS)),
            _ => (step, QueryAction::Done(Err("unexpected event".to_owned()))),
        },
        QueryEvent::StartFailed(message) => match step {
            QueryStep::Starting => (step, QueryAction::Done(Err(message))),
            _ => (step, QueryAction::Done(Err("unexpected event".to_owned()))),
        },
    }
}

/// The time that a query has waited after a number of retries, in milliseconds.
pub open spec fn waited_ms(retries: nat) -> nat
    decreases retries,
{
    if retries == 0 {
        0
    } else {
        waited_ms((retries - 1) as nat) + RETRY_STEP_MS as nat * retries
    }
}

/// A query that nobody answers ends after ten retries and five and a half seconds of
/// waiting.
pub proof fn unanswered_query_ends()
    ensures
        waited_ms(MAX_RETRIES as nat) == 5500,
        forall|next: QueryStep, action: QueryAction| #[trigger]
            query_goes_on(QueryStep::Retrying(MAX_RETRIES), QueryEvent::NoAnswer, next, action) ==> action is Done
                && action->Done_0 is Err,
{
    reveal_with_fuel(waited_ms, 11);
}

/// How long a restart waits for the old daemon's socket to go, in milliseconds.
pub const RESTART_WAIT_MS: u64 = 5000;

/// How long it waits between two looks, in milliseconds.
pub const RESTART_POLL_MS: u64 = 100;

/// How long it waits for a killed daemon, in milliseconds.
pub const KILL_WAIT_MS: u64 = 200;

/// What a restart does about the old daemon when it looks for the socket.
pub enum RestartAction {
    /// Look again after so many milliseconds.
    Wait(u64),
    /// Kill the process of the pid file, wait so many milliseconds, remove the socket, and
    /// go on as where it is gone.
    Kill { pid: String, wait_ms: u64 },
    /// Remove the socket, and go on as where it is gone.
    RemoveSocket,
    /// Remove the pid file and start a new daemon.
    Start,
}

/// What to do about the old daemon, given whether its socket is there, how long that has
/// been waited for, and what the pid file says: wait until the socket goes, up to a limit;
/// then kill the daemon and remove its socket.
pub fn restart_step(socket_exists: bool, elapsed_ms: u64, pid_file: Option<String>) -> (r: RestartAction)
    ensures
        if !socket_exists {
            r == RestartAction::Start
        } else if elapsed_ms < RESTART_WAIT_MS {
            r == RestartAction::Wait(RESTART_POLL_MS)
        } else {
            match pid_file {
                Some(text) => r is Kill && r->pid@ == crate::jj_config::trimmed(text@) && r->wait_ms == KILL_WAIT_MS,
                None => r == RestartAction::RemoveSocket,
            }
        },
{
    if !socket_exists {
        RestartAction::Start
    } else if elapsed_ms < RESTART_WAIT_MS {
        RestartAction::Wait(RESTART_POLL_MS)
    } else {
        match pid_file {
            Some(text) => RestartAction::Kill {
                pid: crate::jj_config::trim(text.as_str()),
                wait_ms: KILL_WAIT_MS,
            },
            None => RestartAction::RemoveSocket,
        }
    }
}

/// What the daemon says of itself, or that it does not run.
pub enum StatusOutcome {
    Answer(Response),
    /// It does not answer; the pid file that it left, if it did.
    NotRunning { stale_pid: Option<String> },
}

/// A time in hours, minutes and seconds.
pub open spec fn uptime_text(secs: nat) -> Seq<char> {
    decimal(secs / 3600) + "h "@ + decimal((secs % 3600) / 60) + "m "@ + decimal(secs % 60) + "s"@
}

/// The lines that tell the status of a running daemon.
pub open spec fn running_lines(
    pid: nat,
    uptime_secs: nat,
    repos: Seq<Seq<char>>,
    socket: Seq<char>,
) -> Seq<Seq<char>> {
    seq![
        "daemon running"@,
        "  pid:           "@ + decimal(pid),
        "  uptime:        "@ + uptime_text(uptime_secs),
        "  watched repos: "@ + decimal(repos.len()),
    ] + repos.map_values(|repo: Seq<char>| "    "@ + repo) + seq!["  socket:        "@ + socket]
}

/// The lines that tell that no daemon runs.
pub open spec fn stopped_lines(stale_pid: Option<Seq<char>>, pid_path: Seq<char>, socket: Seq<char>) -> Seq<Seq<char>> {
    match stale_pid {
        Some(pid) => seq![
            "daemon not running"@,
            "  stale pidfile: "@ + pid_path + " (pid "@ + crate::jj_config::trimmed(pid) + ")"@,
            "  socket: "@ + socket,
        ],
        None => seq!["daemon not running"@, "  socket: "@ + socket],
    }
}

fn uptime_string(secs: u64) -> (r: String)
    ensures
        r@ == uptime_text(secs as nat),
{
    let mut out = to_decimal(secs / 3600);
    out.append("h ");
    out.append(to_decimal((secs % 3600) / 60).as_str());
    out.append("m ");
    out.append(to_decimal(secs % 60).as_str());
    out.append("s");
    out
}

fn push_line(lines: &mut Vec<String>, first: &str, second: &str)
    ensures
        views(final(lines)@) == views(old(lines)@).push(first@ + second@),
{
    let mut line = first.to_owned();
    line.append(second);
    let ghost before = lines@;
    lines.push(line);
    proof {
        lemma_views_push(before, line);
    }
}

/// The lines that tell the status of the daemon, or an error where it answered with one or
/// with something else than its status.
pub fn status_lines(outcome: StatusOutcome, pid_path: &str, socket: &str) -> (r: Result<Vec<String>, String>)
    ensures
        match outcome {
            StatusOutcome::Answer(Response::DaemonStatus { pid, uptime_secs, watched_repos }) => r is Ok && views(
                r->Ok_0@,
            ) == running_lines(pid as nat, uptime_secs as nat, views(watched_repos@), socket@),
            StatusOutcome::Answer(Response::Error { message }) => r == Err::<Vec<String>, String>(message),
            StatusOutcome::Answer(_) => r is Err && r->Err_0@ == "unexpected response from daemon"@,
            StatusOutcome::NotRunning { stale_pid } => r is Ok && views(r->Ok_0@) == stopped_lines(
                stale_pid.deep_view(),
                pid_path@,
                socket@,
            ),
        },
{
    let mut lines: Vec<String> = Vec::new();
    assert(views(lines@) =~= Seq::empty());
    match outcome {
        StatusOutcome::Answer(Response::DaemonStatus { pid, uptime_secs, watched_repos }) => {
            push_line(&mut lines, "daemon running", "");
            push_line(&mut lines, "  pid:           ", to_decimal(pid as u64).as_str());
            push_line(&mut lines, "  uptime:        ", uptime_string(uptime_secs).as_str());
            push_line(&mut lines, "  watched repos: ", to_decimal(watched_repos.len() as u64).as_str());
            let ghost repos = views(watched_repos@);
            let ghost tail = repos.map_values(|repo: Seq<char>| "    "@ + repo);
            let ghost head = seq![
                "daemon running"@,
                "  pid:           "@ + decimal(pid as nat),
                "  uptime:        "@ + uptime_text(uptime_secs as nat),
                "  watched repos: "@ + decimal(repos.len()),
            ];
            proof {
                reveal_strlit("");
                assert("daemon running"@ + ""@ =~= "daemon running"@);
                assert(views(lines@) =~= head + tail.take(0));
            }
            let mut i: usize = 0;
            while i < watched_repos.len()
                invariant
                    i <= watched_repos.len(),
                    repos == views(watched_repos@),
                    tail == repos.map_values(|repo: Seq<char>| "    "@ + repo),
                    views(lines@) == head + tail.take(i as int),
                decreases watched_repos.len() - i,
            {
                push_line(&mut lines, "    ", watched_repos[i].as_str());
                proof {
                    assert(repos[i as int] == watched_repos@[i as int]@);
                    assert(head + tail.take(i + 1) =~= (head + tail.take(i as int)).push(tail[i as int]));
                }
                i += 1;
            }
            push_line(&mut lines, "  socket:        ", socket);
            assert(tail.take(i as int) =~= tail);
            assert(views(lines@) =~= running_lines(pid as nat, uptime_secs as nat, repos, socket@));
            Ok(lines)
        },
        StatusOutcome::Answer(Response::Error { message }) => Err(message),
        StatusOutcome::Answer(_) => Err("unexpected response from daemon".to_owned()),
        StatusOutcome::NotRunning { stale_pid } => {
            push_line(&mut lines, "daemon not running", "");
            proof {
                reveal_strlit("");
                assert("daemon not running"@ + ""@ =~= "daemon not running"@);
            }
            if let Some(pid) = &stale_pid {
                let mut rest = pid_path.to_owned();
                rest.append(" (pid ");
                rest.append(crate::jj_config::trim(pid.as_str()).as_str());
                rest.append(")");
                push_line(&mut lines, "  stale pidfile: ", rest.as_str());
                assert("  stale pidfile: "@ + rest@ =~= "  stale pidfile: "@ + pid_path@ + " (pid "@
                    + crate::jj_config::trimmed(pid@) + ")"@);
            }
            push_line(&mut lines, "  socket: ", socket);
            assert(views(lines@) =~= stopped_lines(stale_pid.deep_view(), pid_path@, socket@));
            Ok(lines)
        },
    }
}

/// The lines that tell the status of the daemon, with its version where a version file says
/// it.
pub fn add_version(lines: Vec<String>, version_file: Option<&str>) -> (r: Vec<String>)
    ensures
        views(r@) == match version_file {
            Some(text) => views(lines@).push("  version:       "@ + crate::jj_config::trimmed(text@)),
            None => views(lines@),
        },
{
    let mut lines = lines;
    if let Some(text) = version_file {
        push_line(&mut lines, "  version:       ", crate::jj_config::trim(text).as_str());
    }
    lines
}

/// Whether the client must shut the daemon down, so that the next query starts one of the
/// client's own version: the version file names another version.
pub fn is_other_version(version_file: Option<&str>, own_version: &str) -> (r: bool)
    ensures
        r == match version_file {
            Some(text) => crate::jj_config::trimmed(text@) != own_version@,
            None => false,
        },
{
    match version_file {
        Some(text) => !crate::strings::str_eq(crate::jj_config::trim(text).as_str(), own_version),
        None => false,
    }
}

} // verus!
