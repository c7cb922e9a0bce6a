//! The daemon's own configuration.

use crate::ignore_filter::opt_str;
use crate::paths::{join, joined};
use vstd::prelude::*;
use vstd::string::StringExecFns;

verus! {

/// The daemon's configuration.
#[derive(Debug)]
pub struct Config {
    /// How long the daemon runs without a query, in seconds.
    pub idle_timeout_secs: u64,
    /// How long changes are gathered before a refresh, in milliseconds.
    pub debounce_ms: u64,
    pub format: String,
    pub bookmark_search_depth: u32,
    pub socket_path: Option<String>,
}

pub fn default_idle_timeout_secs() -> (r: u64)
    ensures
        r == 3600,
{
    3600
}

pub fn default_debounce_ms() -> (r: u64)
    ensures
        r == 200,
{
    200
}

pub fn default_format() -> (r: String)
    ensures
        r@ == "{change_id} {bookmarks}{metrics} {state}"@,
{
    "{change_id} {bookmarks}{metrics} {state}".to_owned()
}

pub fn default_bookmark_search_depth() -> (r: u32)
    ensures
        r == 10,
{
    10
}

impl Default for Config {
    fn default() -> (r: Self)
        ensures
            r.idle_timeout_secs == 3600,
            r.debounce_ms == 200,
            r.format@ == "{change_id} {bookmarks}{metrics} {state}"@,
            r.bookmark_search_depth == 10,
            r.socket_path is None,
    {
        Config {
            idle_timeout_secs: default_idle_timeout_secs(),
            debounce_ms: default_debounce_ms(),
            format: default_format(),
            bookmark_search_depth: default_bookmark_search_depth(),
            socket_path: None,
        }
    }
}

impl Config {
    /// The path of the daemon's socket: the configured one, else one for the user, who is
    /// `unknown` where the environment does not name them.
    pub fn socket_path(&self, user: Option<&str>) -> (r: String)
        ensures
            r@ == match self.socket_path {
                Some(path) => path@,
                None => "/tmp/jj-status-daemon-"@ + match opt_str(user) {
                    Some(name) => name,
                    None => "unknown"@,
                } + ".sock"@,
            },
    {
        if let Some(path) = &self.socket_path {
            return path.clone();
        }
        let mut out = "/tmp/jj-status-daemon-".to_owned();
        match user {
            Some(name) => {
                out.append(name);
            },
            None => {
                out.append("unknown");
            },
        }
        out.append(".sock");
        out
    }
}

/// The path of the configuration file, where there is a directory for it.
pub fn config_path(config_dir: Option<&str>) -> (r: Option<String>)
    ensures
        r.deep_view() == match opt_str(config_dir) {
            Some(dir) => Some(joined(joined(dir, "jj-status-daemon"@), "config.toml"@)),
            None => None,
        },
{
    match config_dir {
        Some(dir) => Some(join(join(dir, "jj-status-daemon").as_str(), "config.toml")),
        None => None,
    }
}

/// What the configuration file came to.
pub enum ConfigFile {
    /// There is no place for it, or it does not exist.
    Missing,
    /// It could not be read or parsed.
    Broken(String),
    Parsed(Config),
}

/// The configuration to use: the defaults where there is no file; a file that cannot be
/// read or parsed is an error.
pub fn load_config(file: ConfigFile) -> (r: Result<Config, String>)
    ensures
        match file {
            ConfigFile::Missing => {
                &&& r is Ok
                &&& r->Ok_0.idle_timeout_secs == 3600
                &&& r->Ok_0.debounce_ms == 200
                &&& r->Ok_0.format@ == "{change_id} {bookmarks}{metrics} {state}"@
                &&& r->Ok_0.bookmark_search_depth == 10
                &&& r->Ok_0.socket_path is None
            },
            ConfigFile::Broken(message) => r == Err::<Config, String>(message),
            ConfigFile::Parsed(config) => r == Ok::<Config, String>(config),
        },
{
    match file {
        ConfigFile::Missing => Ok(Config::default()),
        ConfigFile::Broken(message) => Err(message),
        ConfigFile::Parsed(config) => Ok(config),
    }
}

/// The configuration after the file has changed: what it says now; where it cannot be read
/// or parsed, the configuration stays.
pub fn reload_config(current: Config, file: ConfigFile) -> (r: Config)
    ensures
        match file {
            ConfigFile::Broken(_) => r == current,
            ConfigFile::Parsed(config) => r == config,
            ConfigFile::Missing => {
                &&& r.idle_timeout_secs == 3600
                &&& r.debounce_ms == 200
                &&& r.format@ == "{change_id} {bookmarks}{metrics} {state}"@
                &&& r.bookmark_search_depth == 10
                &&& r.socket_path is None
            },
        },
{
    match load_config(file) {
        Ok(config) => config,
        Err(_) => current,
    }
}

/// The configuration file to edit: the one that exists, else the one that may be made.
pub fn file_to_edit(existing: Option<String>, to_make: Option<String>) -> (r: Option<String>)
    ensures
        r == if existing is Some {
            existing
        } else {
            to_make
        },
{
    match existing {
        Some(path) => Some(path),
        None => to_make,
    }
}

} // verus!
