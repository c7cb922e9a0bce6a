pub mod aggregate;
pub mod bookmarks;
pub mod by_dir;
pub mod cli;
pub mod config;
pub mod conflicts;
pub mod copies;
pub mod daemon;
pub mod facts;
pub mod git_status;
pub mod history;
pub mod ignore_filter;
pub mod incremental;
pub mod jj_config;
pub mod laws;
pub mod linediff;
pub mod lines;
pub mod pairing;
pub mod parity;
pub mod paths;
pub mod protocol;
pub mod replay;
pub mod repo_state;
pub mod reshape;
pub mod router;
pub mod similarity;
pub mod simplify;
pub mod staging;
pub mod stats;
pub mod status;
pub mod strings;
pub mod table;
pub mod text;
pub mod watch;
pub mod wc;
pub mod worker;
