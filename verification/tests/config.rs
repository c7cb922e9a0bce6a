use vcs_status_daemon::conflicts::ConflictMarkerStyle;
use vcs_status_daemon::config::{
    config_path, default_bookmark_search_depth, default_debounce_ms, default_format, default_idle_timeout_secs,
    file_to_edit, load_config, reload_config, Config, ConfigFile,
};
use vcs_status_daemon::jj_config::{
    alias_config_paths, config_id, conflict_marker_style_for_repo, jj_config_roots, keyed_config_paths, line_of_work_revset,
    load_revset_aliases, parse_settings, repo_config_path, repo_dir, style_config_paths, trim, ConfigCache,
    FileStamp,
};

#[test]
fn test_default_config() {
    let config = Config::default();
    assert_eq!(config.idle_timeout_secs, 3600);
    assert_eq!(config.debounce_ms, 200);
    assert_eq!(config.bookmark_search_depth, 10);
    assert!(config.format.contains("{change_id}"));
    assert!(config.socket_path.is_none());
}

#[test]
fn defaults_one_by_one() {
    assert_eq!(default_idle_timeout_secs(), 3600);
    assert_eq!(default_debounce_ms(), 200);
    assert_eq!(default_format(), "{change_id} {bookmarks}{metrics} {state}");
    assert_eq!(default_bookmark_search_depth(), 10);
}

#[test]
fn test_socket_path_default() {
    let config = Config::default();
    let path = config.socket_path(Some("someone"));
    assert!(path.contains("jj-status-daemon"));
    assert!(path.ends_with(".sock"));
    assert_eq!(path, "/tmp/jj-status-daemon-someone.sock");
    assert_eq!(config.socket_path(None), "/tmp/jj-status-daemon-unknown.sock");
}

#[test]
fn test_socket_path_custom() {
    let config = Config { socket_path: Some("/custom/path.sock".to_string()), ..Default::default() };
    assert_eq!(config.socket_path(Some("someone")), "/custom/path.sock");
}

#[test]
fn test_load_config_missing_file() {
    let config = load_config(ConfigFile::Missing).unwrap();
    assert_eq!(config.idle_timeout_secs, 3600);
}

#[test]
fn broken_config_is_an_error() {
    assert_eq!(load_config(ConfigFile::Broken("bad".into())).unwrap_err(), "bad");
    let parsed = Config { debounce_ms: 7, ..Default::default() };
    assert_eq!(load_config(ConfigFile::Parsed(parsed)).unwrap().debounce_ms, 7);
}

#[test]
fn config_paths() {
    assert_eq!(config_path(Some("/c")), Some("/c/jj-status-daemon/config.toml".to_string()));
    assert_eq!(config_path(None), None);
    assert_eq!(file_to_edit(Some("a".into()), Some("b".into())), Some("a".to_string()));
    assert_eq!(file_to_edit(None, Some("b".into())), Some("b".to_string()));
}

#[test]
fn test_conflict_marker_style_default_and_invalid() {
    let style = |content: Option<&str>| conflict_marker_style_for_repo(&vec![parse_settings(content).style]);
    assert_eq!(style(None), ConflictMarkerStyle::Diff);
    assert_eq!(
        style(Some("[ui]\nconflict-marker-style = \"snapshot\"\n")),
        ConflictMarkerStyle::Snapshot
    );
    assert_eq!(
        style(Some("[ui]\nconflict-marker-style = \"bogus\"\n")),
        ConflictMarkerStyle::Diff,
        "invalid value should fall back to the default"
    );
}

#[test]
fn every_marker_style_is_known() {
    for (name, style) in [
        ("diff", ConflictMarkerStyle::Diff),
        ("diff-experimental", ConflictMarkerStyle::DiffExperimental),
        ("snapshot", ConflictMarkerStyle::Snapshot),
        ("git", ConflictMarkerStyle::Git),
    ] {
        let content = format!("[ui]\nconflict-marker-style = \"{name}\"\n");
        assert_eq!(parse_settings(Some(&content)).style, Some(style));
    }
    assert_eq!(parse_settings(Some("[ui]\nother = 1\n")).style, None);
    assert_eq!(parse_settings(Some("not toml")).style, None);
    assert_eq!(parse_settings(Some("[ui]\nconflict-marker-style = 3\n")).style, None);
}

#[test]
fn later_files_win_and_invalid_ones_are_passed_over() {
    let git = Some(ConflictMarkerStyle::Git);
    let snapshot = Some(ConflictMarkerStyle::Snapshot);
    assert_eq!(conflict_marker_style_for_repo(&vec![git, snapshot]), ConflictMarkerStyle::Snapshot);
    assert_eq!(conflict_marker_style_for_repo(&vec![git, None]), ConflictMarkerStyle::Git);
    assert_eq!(conflict_marker_style_for_repo(&vec![]), ConflictMarkerStyle::Diff);
}

#[test]
fn aliases_of_files_follow_the_built_in_ones() {
    let first = parse_settings(Some("[revset-aliases]\n\"trunk()\" = \"mine\"\nnumber = 4\nb = \"x\"\n"));
    let second = parse_settings(Some("[revset-aliases]\n\"trunk()\" = \"later\"\n"));
    let list: Vec<(String, String)> = load_revset_aliases(&vec![&first, &second])
        .into_iter()
        .map(|a| (a.name, a.definition))
        .collect();
    assert_eq!(list.len(), 6);
    assert_eq!(list[0].0, "trunk()");
    assert!(list[0].1.starts_with("latest(\n    remote_bookmarks(exact:\"main\", exact:\"origin\") |\n"));
    assert!(list[0].1.ends_with("    root()\n)"));
    assert_eq!(list[1].1, "trunk() | tags() | untracked_remote_bookmarks()");
    assert_eq!(list[2], ("immutable_heads()".to_string(), "builtin_immutable_heads()".to_string()));
    assert_eq!(list[3], ("b".to_string(), "x".to_string()));
    assert_eq!(list[4], ("trunk()".to_string(), "mine".to_string()));
    assert_eq!(list[5], ("trunk()".to_string(), "later".to_string()));
    assert_eq!(load_revset_aliases(&vec![]).len(), 3);
    assert_eq!(line_of_work_revset("abc"), "::abc ~ ::trunk()");
}

#[test]
fn unchanged_files_come_from_the_cache() {
    let mut cache = ConfigCache::new();
    let stamp = FileStamp { modified_ns: 5, len: 9 };
    assert!(cache.cached_config("/c", stamp).is_none());
    cache.store("/c", stamp, Some("[ui]\nconflict-marker-style = \"git\"\n"));
    assert_eq!(cache.cached_config("/c", stamp).unwrap().style, Some(ConflictMarkerStyle::Git));
    assert!(cache.cached_config("/c", FileStamp { modified_ns: 6, len: 9 }).is_none());
    assert!(cache.cached_config("/d", stamp).is_none());
    cache.store("/c", FileStamp { modified_ns: 6, len: 9 }, None);
    assert!(cache.cached_config("/c", stamp).is_none());
    assert_eq!(cache.cached_config("/c", FileStamp { modified_ns: 6, len: 9 }).unwrap().style, None);
}

#[test]
fn white_space_is_trimmed() {
    assert_eq!(trim(" \t a b\n\u{a0}"), "a b");
    assert_eq!(trim("   "), "");
}

#[test]
fn config_ids_are_hexadecimal() {
    assert_eq!(config_id(" 0aF9\n"), Some("0aF9".to_string()));
    assert_eq!(config_id(""), None);
    assert_eq!(config_id("0g"), None);
    assert_eq!(config_id("a/b"), None);
}

#[test]
fn where_repo_config_lies() {
    let roots = vec!["/c/jj".to_string(), "/h/.config/jj".to_string()];
    let keyed = keyed_config_paths(&roots, "ab");
    assert_eq!(keyed, vec!["/c/jj/repos/ab/config.toml", "/h/.config/jj/repos/ab/config.toml"]);
    assert_eq!(repo_config_path("/r/.jj/repo", &keyed, &vec![false, true]), keyed[1]);
    assert_eq!(repo_config_path("/r/.jj/repo", &keyed, &vec![true, true]), keyed[0]);
    assert_eq!(repo_config_path("/r/.jj/repo", &keyed, &vec![false, false]), "/r/.jj/repo/config.toml");
    assert_eq!(repo_config_path("/r/.jj/repo", &vec![], &vec![]), "/r/.jj/repo/config.toml");
    assert_eq!(repo_dir("/r", None), "/r/.jj/repo");
    assert_eq!(repo_dir("/r", Some("/primary/.jj/repo\n")), "/primary/.jj/repo");
}

#[test]
fn config_roots_are_not_repeated() {
    assert_eq!(jj_config_roots(Some("/h/.config"), Some("/h")), vec!["/h/.config/jj"]);
    assert_eq!(
        jj_config_roots(Some("/h/Library"), Some("/h")),
        vec!["/h/Library/jj", "/h/.config/jj"]
    );
    assert_eq!(jj_config_roots(None, Some("/h")), vec!["/h/.config/jj"]);
    assert!(jj_config_roots(None, None).is_empty());
}

#[test]
fn style_files_in_rising_precedence() {
    assert_eq!(
        style_config_paths(Some("/env.toml"), Some("/h"), &vec!["/c/jj".to_string()], "/repo.toml".to_string()),
        vec!["/env.toml", "/h/.jjconfig.toml", "/c/jj/config.toml", "/repo.toml"]
    );
    assert_eq!(style_config_paths(None, None, &vec![], "/repo.toml".to_string()), vec!["/repo.toml"]);
}

#[test]
fn alias_files_in_rising_precedence() {
    assert_eq!(
        alias_config_paths(Some("/etc/jj.toml"), Some("/home/me/.config"), Some("/home/me")),
        vec!["/etc/jj.toml", "/home/me/.config/jj/config.toml", "/home/me/.jjconfig.toml"]
    );
    assert_eq!(alias_config_paths(None, None, Some("/home/me")), vec!["/home/me/.jjconfig.toml"]);
    assert!(alias_config_paths(None, None, None).is_empty());
}

/// Reads a configuration file, as a program does before it hands the values on.
fn parse(text: &str) -> Config {
    let table: toml::Table = text.parse().unwrap();
    let number = |key: &str| table.get(key).and_then(|value| value.as_integer());
    let word = |key: &str| table.get(key).and_then(|value| value.as_str()).map(String::from);
    Config {
        idle_timeout_secs: number("idle_timeout_secs").map_or(default_idle_timeout_secs(), |n| n as u64),
        debounce_ms: number("debounce_ms").map_or(default_debounce_ms(), |n| n as u64),
        format: word("format").unwrap_or(default_format()),
        bookmark_search_depth: number("bookmark_search_depth")
            .map_or(default_bookmark_search_depth(), |n| n as u32),
        socket_path: word("socket_path"),
    }
}

#[test]
fn test_config_from_toml() {
    let toml_str = r#"
idle_timeout_secs = 7200
debounce_ms = 500
format = "{change_id}"
bookmark_search_depth = 5
socket_path = "/tmp/test.sock"
"#;
    let config = load_config(ConfigFile::Parsed(parse(toml_str))).unwrap();
    assert_eq!(config.idle_timeout_secs, 7200);
    assert_eq!(config.debounce_ms, 500);
    assert_eq!(config.format, "{change_id}");
    assert_eq!(config.bookmark_search_depth, 5);
    assert_eq!(config.socket_path, Some("/tmp/test.sock".to_string()));
}

#[test]
fn white_space_is_that_of_the_standard_library() {
    for c in (0..=0x10ffff_u32).filter_map(char::from_u32) {
        assert_eq!(trim(&c.to_string()).is_empty(), c.is_whitespace(), "{c:?}");
    }
}

#[test]
fn valid_changes_of_the_configuration_are_taken_over() {
    let current = || Config { debounce_ms: 7, ..Default::default() };
    assert_eq!(reload_config(current(), ConfigFile::Broken("bad".into())).debounce_ms, 7);
    let new = Config { debounce_ms: 9, ..Default::default() };
    assert_eq!(reload_config(current(), ConfigFile::Parsed(new)).debounce_ms, 9);
    assert_eq!(reload_config(current(), ConfigFile::Missing).debounce_ms, 200);
}
