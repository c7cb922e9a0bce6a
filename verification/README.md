# vcs-status-daemon

The status of a jj or git repository for shell prompts, within milliseconds: a daemon watches
the repository's files, keeps its status up to date with each change, and answers queries from
memory.

- `src/` is the verified library: line counts and similarity of contents, the values that jj's
  next snapshot records, incremental diffs with renames, copies and conflicts, sums by file and
  by directory, bookmarks near the working copy, ignore rules, configuration files, and the
  state machines of the worker, the router, the client and the daemon.
- `tests/` runs the library, among others on repositories of `jj_lib`.
- `app/` is the program around it: command line, sockets, file watching, and the reads of
  repositories through `jj_lib` and `git2`.

Incremental diffs follow what `jj diff --stat` would say after the next snapshot, without ever
taking one. `src/staging.rs` derives the entry of a changed path, `src/reshape.rs` finds the
conflicts that a snapshot stores anew, `src/pairing.rs` and `src/copies.rs` mirror the backend's
rename and copy detection, and `src/incremental.rs` puts the steps in order and asks for what
each of them needs to know.

`src/parity.rs` proves that a batch of changed paths, and any number of them, leaves the diff
that a full diff gives after the snapshot, and `src/history.rs` that a worker's answers have its
counts over any history of requests. What backs this up is said in `compares_alike` and
`follows_full_diff`: both diffs read the same contents, all that changed on disk is in a batch,
and renames and copies that are new are those that pairing finds, as the backend's own records
are not part of the proof.

`kstring`, which `jj_lib` pulls in, is held at a release that older compilers can build.
