//! Sums of per-file stats by directory.

use crate::aggregate::{
    counts_of, effective, lemma_filter_insert, lemma_sum_over_remove, lemma_sum_over_same, listed, sum_over,
};
use crate::stats::{FileChangeKind, FileDiffStats, FileStats};
use crate::strings::{find_last, from_chars, is_sorted, last_place, sort_strings, to_chars, views};
use crate::table::FileTable;
use crate::text::{lemma_u32_of_sum, u32_of};
use vstd::prelude::*;
use vstd::wrapping::u32_specs::wrapping_add;

verus! {

/// Diff statistics of one directory, and how many entries of the base and of the overlay
/// they come from.
#[derive(Clone, Copy, Debug, PartialEq, Eq, Structural)]
pub struct IncrementalDiffStats {
    pub base_files: u32,
    pub overlay_entries: u32,
    pub files_changed: u32,
    pub lines_added: u32,
    pub lines_removed: u32,
}

impl DeepView for IncrementalDiffStats {
    type V = IncrementalDiffStats;

    open spec fn deep_view(&self) -> IncrementalDiffStats {
        *self
    }
}

/// The directory of a path: what stands before its last slash, `.` where it has none.
pub open spec fn dir_of(path: Seq<char>) -> Seq<char> {
    match last_place(path, '/') {
        Some(i) => path.take(i),
        None => seq!['.'],
    }
}

/// The paths that lie in a directory.
pub open spec fn within(paths: Set<Seq<char>>, dir: Seq<char>) -> Set<Seq<char>> {
    paths.filter(|path: Seq<char>| dir_of(path) == dir)
}

/// The stats of one directory.
pub open spec fn dir_stats(
    base: Map<Seq<char>, FileStats>,
    overlay: Map<Seq<char>, Option<FileStats>>,
    dir: Seq<char>,
) -> IncrementalDiffStats {
    let files = effective(base, overlay);
    let changed = within(listed(files), dir);
    IncrementalDiffStats {
        base_files: u32_of(within(base.dom(), dir).len()),
        overlay_entries: u32_of(within(overlay.dom(), dir).len()),
        files_changed: u32_of(changed.len()),
        lines_added: u32_of(sum_over(changed, |path: Seq<char>| files[path].lines_added as nat)),
        lines_removed: u32_of(sum_over(changed, |path: Seq<char>| files[path].lines_removed as nat)),
    }
}

/// Whether any path lies in the directory.
pub open spec fn is_dir(paths: Set<Seq<char>>, dir: Seq<char>) -> bool {
    exists|path: Seq<char>| #[trigger] paths.contains(path) && dir_of(path) == dir
}

/// The stats of a directory after one more path.
pub open spec fn bumped(
    acc: IncrementalDiffStats,
    is_base: bool,
    is_overlay: bool,
    entry: Option<FileStats>,
) -> IncrementalDiffStats {
    let counts = entry is Some && entry->0.kind != FileChangeKind::Untracked;
    IncrementalDiffStats {
        base_files: if is_base {
            wrapping_add(acc.base_files, 1)
        } else {
            acc.base_files
        },
        overlay_entries: if is_overlay {
            wrapping_add(acc.overlay_entries, 1)
        } else {
            acc.overlay_entries
        },
        files_changed: if counts {
            wrapping_add(acc.files_changed, 1)
        } else {
            acc.files_changed
        },
        lines_added: if counts {
            wrapping_add(acc.lines_added, entry->0.lines_added)
        } else {
            acc.lines_added
        },
        lines_removed: if counts {
            wrapping_add(acc.lines_removed, entry->0.lines_removed)
        } else {
            acc.lines_removed
        },
    }
}

/// The names of the listed directories.
pub open spec fn dir_names(list: Seq<(String, IncrementalDiffStats)>) -> Seq<Seq<char>> {
    list.map_values(|e: (String, IncrementalDiffStats)| e.0@)
}

fn dir_name(path: &str) -> (r: String)
    ensures
        r@ == dir_of(path@),
{
    let chars = to_chars(path);
    match find_last(&chars, '/') {
        Some(i) => {
            let r = from_chars(&chars, 0, i);
            assert(r@ =~= path@.take(i as int));
            r
        },
        None => {
            let mut r = String::new();
            r.push('.');
            assert(r@ =~= seq!['.']);
            r
        },
    }
}

fn bump(acc: IncrementalDiffStats, is_base: bool, is_overlay: bool, entry: Option<&FileDiffStats>) -> (r:
    IncrementalDiffStats)
    ensures
        r == bumped(acc, is_base, is_overlay, match entry {
            Some(stats) => Some(stats@),
            None => None,
        }),
{
    let mut acc = acc;
    if is_base {
        acc.base_files = acc.base_files.wrapping_add(1);
    }
    if is_overlay {
        acc.overlay_entries = acc.overlay_entries.wrapping_add(1);
    }
    if let Some(stats) = entry {
        if stats.kind != FileChangeKind::Untracked {
            acc.files_changed = acc.files_changed.wrapping_add(1);
            acc.lines_added = acc.lines_added.wrapping_add(stats.lines_added);
            acc.lines_removed = acc.lines_removed.wrapping_add(stats.lines_removed);
        }
    }
    acc
}

proof fn lemma_within_insert(paths: Set<Seq<char>>, path: Seq<char>, dir: Seq<char>)
    requires
        paths.finite(),
        !paths.contains(path),
    ensures
        within(paths, dir).finite(),
        within(paths.insert(path), dir) == if dir_of(path) == dir {
            within(paths, dir).insert(path)
        } else {
            within(paths, dir)
        },
        within(paths.insert(path), dir).len() == within(paths, dir).len() + if dir_of(path) == dir {
            1nat
        } else {
            0
        },
        wrapping_add(u32_of(within(paths, dir).len()), 1) == u32_of(within(paths, dir).len() + 1),
{
    let p = |k: Seq<char>| dir_of(k) == dir;
    lemma_filter_insert(paths, path, p, p);
    lemma_u32_of_sum(within(paths, dir).len(), 1);
}

proof fn lemma_sum_insert(
    paths: Set<Seq<char>>,
    path: Seq<char>,
    old_measure: spec_fn(Seq<char>) -> nat,
    measure: spec_fn(Seq<char>) -> nat,
)
    requires
        paths.finite(),
        !paths.contains(path),
        forall|k: Seq<char>| #[trigger] paths.contains(k) ==> old_measure(k) == measure(k),
    ensures
        sum_over(paths.insert(path), measure) == sum_over(paths, old_measure) + measure(path),
        u32_of(sum_over(paths.insert(path), measure)) == wrapping_add(
            u32_of(sum_over(paths, old_measure)),
            u32_of(measure(path)),
        ),
{
    lemma_sum_over_remove(paths.insert(path), measure, path);
    assert(paths.insert(path).remove(path) =~= paths);
    lemma_sum_over_same(paths, old_measure, measure);
    lemma_u32_of_sum(sum_over(paths, old_measure), measure(path));
}

/// The entry of a path: that of the overlay where it has one, else that of the base.
spec fn entry_of(
    base: Map<Seq<char>, FileStats>,
    overlay: Map<Seq<char>, Option<FileStats>>,
    path: Seq<char>,
) -> Option<FileStats> {
    if overlay.contains_key(path) {
        overlay[path]
    } else {
        Some(base[path])
    }
}

proof fn lemma_restrict_step(
    base: Map<Seq<char>, FileStats>,
    overlay: Map<Seq<char>, Option<FileStats>>,
    done: Set<Seq<char>>,
    path: Seq<char>,
)
    requires
        done.finite(),
        !done.contains(path),
        base.contains_key(path) || overlay.contains_key(path),
    ensures
        ({
            let b0 = base.restrict(done);
            let o0 = overlay.restrict(done);
            let b1 = base.restrict(done.insert(path));
            let o1 = overlay.restrict(done.insert(path));
            let f0 = effective(b0, o0);
            let f1 = effective(b1, o1);
            let entry = entry_of(base, overlay, path);
            &&& b0.dom().finite() && !b0.contains_key(path)
            &&& o0.dom().finite() && !o0.contains_key(path)
            &&& listed(f0).finite() && !listed(f0).contains(path)
            &&& b1.dom() == if base.contains_key(path) {
                b0.dom().insert(path)
            } else {
                b0.dom()
            }
            &&& o1.dom() == if overlay.contains_key(path) {
                o0.dom().insert(path)
            } else {
                o0.dom()
            }
            &&& listed(f1) == if entry is Some && entry->0.kind != FileChangeKind::Untracked {
                listed(f0).insert(path)
            } else {
                listed(f0)
            }
            &&& forall|p: Seq<char>| #[trigger] listed(f0).contains(p) ==> f1[p] == f0[p]
            &&& entry is Some ==> f1[path] == entry->0
        }),
{
    let b0 = base.restrict(done);
    let o0 = overlay.restrict(done);
    let b1 = base.restrict(done.insert(path));
    let o1 = overlay.restrict(done.insert(path));
    let f0 = effective(b0, o0);
    let f1 = effective(b1, o1);
    let entry = entry_of(base, overlay, path);
    assert(b0.dom() =~= base.dom().intersect(done));
    assert(o0.dom() =~= overlay.dom().intersect(done));
    assert(b1.dom() =~= if base.contains_key(path) {
        b0.dom().insert(path)
    } else {
        b0.dom()
    });
    assert(o1.dom() =~= if overlay.contains_key(path) {
        o0.dom().insert(path)
    } else {
        o0.dom()
    });
    assert(listed(f0).subset_of(done));
    vstd::set_lib::lemma_set_subset_finite(done, listed(f0));
    assert(listed(f1) =~= if entry is Some && entry->0.kind != FileChangeKind::Untracked {
        listed(f0).insert(path)
    } else {
        listed(f0)
    });
}

/// What one more path does to the stats of each directory.
#[verifier::spinoff_prover]
proof fn lemma_dir_stats_step(
    base: Map<Seq<char>, FileStats>,
    overlay: Map<Seq<char>, Option<FileStats>>,
    done: Set<Seq<char>>,
    path: Seq<char>,
    dir: Seq<char>,
)
    requires
        done.finite(),
        !done.contains(path),
        base.contains_key(path) || overlay.contains_key(path),
    ensures
        dir_stats(base.restrict(done.insert(path)), overlay.restrict(done.insert(path)), dir) == if dir == dir_of(
            path,
        ) {
            bumped(
                dir_stats(base.restrict(done), overlay.restrict(done), dir),
                base.contains_key(path),
                overlay.contains_key(path),
                entry_of(base, overlay, path),
            )
        } else {
            dir_stats(base.restrict(done), overlay.restrict(done), dir)
        },
{
    lemma_restrict_step(base, overlay, done, path);
    let b0 = base.restrict(done).dom();
    let o0 = overlay.restrict(done).dom();
    let f0 = effective(base.restrict(done), overlay.restrict(done));
    let f1 = effective(base.restrict(done.insert(path)), overlay.restrict(done.insert(path)));
    let entry = entry_of(base, overlay, path);
    lemma_within_insert(b0, path, dir);
    lemma_within_insert(o0, path, dir);
    lemma_within_insert(listed(f0), path, dir);
    let c0 = within(listed(f0), dir);
    let added0 = |p: Seq<char>| f0[p].lines_added as nat;
    let added1 = |p: Seq<char>| f1[p].lines_added as nat;
    let removed0 = |p: Seq<char>| f0[p].lines_removed as nat;
    let removed1 = |p: Seq<char>| f1[p].lines_removed as nat;
    if entry is Some && entry->0.kind != FileChangeKind::Untracked && dir == dir_of(path) {
        lemma_sum_insert(c0, path, added0, added1);
        lemma_sum_insert(c0, path, removed0, removed1);
    } else {
        lemma_sum_over_same(c0, added0, added1);
        lemma_sum_over_same(c0, removed0, removed1);
    }
}

/// The table holds the stats of every directory of the paths that are done.
spec fn table_covers(
    dirs: Map<Seq<char>, IncrementalDiffStats>,
    base: Map<Seq<char>, FileStats>,
    overlay: Map<Seq<char>, Option<FileStats>>,
    done: Set<Seq<char>>,
) -> bool {
    &&& forall|dir: Seq<char>| #[trigger] dirs.contains_key(dir) <==> is_dir(done, dir)
    &&& forall|dir: Seq<char>| #[trigger]
        dirs.contains_key(dir) ==> dirs[dir] == dir_stats(base.restrict(done), overlay.restrict(done), dir)
}

proof fn lemma_no_dir_stats(
    base: Map<Seq<char>, FileStats>,
    overlay: Map<Seq<char>, Option<FileStats>>,
    done: Set<Seq<char>>,
    dir: Seq<char>,
)
    requires
        done.finite(),
        !is_dir(done, dir),
    ensures
        dir_stats(base.restrict(done), overlay.restrict(done), dir) == (IncrementalDiffStats {
            base_files: 0,
            overlay_entries: 0,
            files_changed: 0,
            lines_added: 0,
            lines_removed: 0,
        }),
{
    let b = base.restrict(done);
    let o = overlay.restrict(done);
    assert(within(b.dom(), dir) =~= Set::empty()) by {
        assert forall|p: Seq<char>| within(b.dom(), dir).contains(p) implies false by {
            assert(done.contains(p));
        }
    }
    assert(within(o.dom(), dir) =~= Set::empty()) by {
        assert forall|p: Seq<char>| within(o.dom(), dir).contains(p) implies false by {
            assert(done.contains(p));
        }
    }
    assert(within(listed(effective(b, o)), dir) =~= Set::empty()) by {
        assert forall|p: Seq<char>| within(listed(effective(b, o)), dir).contains(p) implies false by {
            assert(done.contains(p));
        }
    }
}

fn add_path(
    dirs: &mut FileTable<IncrementalDiffStats>,
    path: &str,
    is_base: bool,
    is_overlay: bool,
    entry: Option<&FileDiffStats>,
    base: &FileTable<FileDiffStats>,
    overlay: &FileTable<Option<FileDiffStats>>,
    Ghost(done): Ghost<Set<Seq<char>>>,
)
    requires
        old(dirs).wf(),
        done.finite(),
        !done.contains(path@),
        is_base == base@.contains_key(path@),
        is_overlay == overlay@.contains_key(path@),
        is_base || is_overlay,
        match entry {
            Some(stats) => Some(stats@),
            None => None,
        } == if is_overlay {
            overlay@[path@]
        } else {
            Some(base@[path@])
        },
        table_covers(old(dirs)@, base@, overlay@, done),
    ensures
        final(dirs).wf(),
        table_covers(final(dirs)@, base@, overlay@, done.insert(path@)),
{
    let dir = dir_name(path);
    let acc = match dirs.get(dir.as_str()) {
        Some(acc) => *acc,
        None => {
            proof {
                assert(!dirs@.contains_key(dir@));
                lemma_no_dir_stats(base@, overlay@, done, dir@);
            }
            IncrementalDiffStats {
                base_files: 0,
                overlay_entries: 0,
                files_changed: 0,
                lines_added: 0,
                lines_removed: 0,
            }
        },
    };
    let ghost before = dirs@;
    let ghost now = done.insert(path@);
    dirs.insert(dir, bump(acc, is_base, is_overlay, entry));
    proof {
        assert forall|d: Seq<char>| #[trigger] dirs@.contains_key(d) <==> is_dir(now, d) by {
            if dirs@.contains_key(d) {
                if d == dir_of(path@) {
                    assert(now.contains(path@));
                } else {
                    assert(before.contains_key(d));
                    let p = choose|p: Seq<char>| #[trigger] done.contains(p) && dir_of(p) == d;
                    assert(now.contains(p));
                }
            }
            if is_dir(now, d) {
                let p = choose|p: Seq<char>| #[trigger] now.contains(p) && dir_of(p) == d;
                if p != path@ {
                    assert(done.contains(p));
                    assert(is_dir(done, d));
                    assert(before.contains_key(d));
                }
            }
        }
        assert forall|d: Seq<char>| #[trigger] dirs@.contains_key(d) implies dirs@[d] == dir_stats(
            base@.restrict(now),
            overlay@.restrict(now),
            d,
        ) by {
            lemma_dir_stats_step(base@, overlay@, done, path@, d);
            if d != dir_of(path@) {
                assert(before.contains_key(d));
            }
        }
    }
}

/// Like `aggregate_overlay_stats` but groups results by directory.
///
/// Returns a vec of `(directory, IncrementalDiffStats)` sorted by directory name.
/// The root directory is represented as `"."`.
pub fn aggregate_overlay_stats_by_dir(
    base: &FileTable<FileDiffStats>,
    overlay: &FileTable<Option<FileDiffStats>>,
) -> (r: Vec<(String, IncrementalDiffStats)>)
    requires
        base.wf(),
        overlay.wf(),
    ensures
        is_sorted(dir_names(r@)),
        dir_names(r@).no_duplicates(),
        forall|dir: Seq<char>|
            #[trigger]
            dir_names(r@).contains(dir) <==> is_dir(
                base@.dom() + overlay@.dom(),
                dir,
            ),
        forall|i: int| 0 <= i < r@.len() ==> (#[trigger] r@[i]).1 == dir_stats(base@, overlay@, r@[i].0@),
{
    let mut dirs = FileTable::<IncrementalDiffStats>::new();
    let ghost mut done = Set::<Seq<char>>::empty();
    proof {
        base.paths_are_domain();
        overlay.paths_are_domain();
    }
    let n: usize = base.len();
    let mut i: usize = 0;
    assert(base.paths().take(0).to_set() =~= done);
    while i < n
        invariant
            i <= n == base.paths().len(),
            base.wf(),
            overlay.wf(),
            dirs.wf(),
            base.paths().no_duplicates(),
            done.finite(),
            done == base.paths().take(i as int).to_set(),
            table_covers(dirs@, base@, overlay@, done),
        decreases n - i,
    {
        let path = base.path_at(i);
        proof {
            lemma_take_insert(base.paths(), i as int);
        }
        match overlay.get(path.as_str()) {
            Some(entry) => {
                let stats = match entry {
                    Some(stats) => Some(stats),
                    None => None,
                };
                add_path(&mut dirs, path.as_str(), true, true, stats, base, overlay, Ghost(done));
            },
            None => {
                add_path(
                    &mut dirs,
                    path.as_str(),
                    true,
                    false,
                    Some(base.value_at(i)),
                    base,
                    overlay,
                    Ghost(done),
                );
            },
        }
        proof {
            done = done.insert(path@);
        }
        i += 1;
    }
    assert(base.paths().take(n as int) =~= base.paths());
    let m: usize = overlay.len();
    let mut j: usize = 0;
    assert(done =~= base@.dom() + overlay.paths().take(0).to_set());
    while j < m
        invariant
            j <= m == overlay.paths().len(),
            base.wf(),
            overlay.wf(),
            dirs.wf(),
            overlay.paths().no_duplicates(),
            done.finite(),
            done == base@.dom() + overlay.paths().take(j as int).to_set(),
            table_covers(dirs@, base@, overlay@, done),
        decreases m - j,
    {
        let path = overlay.path_at(j);
        proof {
            lemma_take_insert(overlay.paths(), j as int);
        }
        if base.contains(path.as_str()) {
            assert(done =~= base@.dom() + overlay.paths().take(j + 1).to_set());
        } else {
            let stats = match overlay.value_at(j) {
                Some(stats) => Some(stats),
                None => None,
            };
            add_path(&mut dirs, path.as_str(), false, true, stats, base, overlay, Ghost(done));
            proof {
                done = done.insert(path@);
                assert(done =~= base@.dom() + overlay.paths().take(j + 1).to_set());
            }
        }
        j += 1;
    }
    proof {
        assert(overlay.paths().take(m as int) =~= overlay.paths());
        assert(done =~= base@.dom() + overlay@.dom());
        assert(base@.restrict(done) =~= base@);
        assert(overlay@.restrict(done) =~= overlay@);
    }
    let r = sorted_entries(&dirs);
    proof {
        assert forall|i: int| 0 <= i < r@.len() implies (#[trigger] r@[i]).1 == dir_stats(
            base@,
            overlay@,
            r@[i].0@,
        ) by {
            assert(dir_names(r@)[i] == r@[i].0@);
            assert(dir_names(r@).contains(r@[i].0@));
        }
    }
    r
}

proof fn lemma_take_insert(paths: Seq<Seq<char>>, n: int)
    requires
        0 <= n < paths.len(),
        paths.no_duplicates(),
    ensures
        paths.take(n + 1).to_set() == paths.take(n).to_set().insert(paths[n]),
        !paths.take(n).to_set().contains(paths[n]),
{
    assert(paths.take(n + 1) =~= paths.take(n).push(paths[n]));
    paths.take(n).lemma_push_to_set_commute(paths[n]);
    if paths.take(n).contains(paths[n]) {
        let i = choose|i: int| 0 <= i < n && paths.take(n)[i] == paths[n];
        assert(paths[i] == paths[n]);
    }
}

/// The entries of a table, sorted by path.
fn sorted_entries(dirs: &FileTable<IncrementalDiffStats>) -> (r: Vec<(String, IncrementalDiffStats)>)
    requires
        dirs.wf(),
    ensures
        is_sorted(dir_names(r@)),
        dir_names(r@).no_duplicates(),
        forall|dir: Seq<char>|
            #[trigger]
            dir_names(r@).contains(dir) <==> dirs@.contains_key(dir),
        forall|i: int| 0 <= i < r@.len() ==> dirs@.contains_key((#[trigger] r@[i]).0@) && r@[i].1 == dirs@[r@[i].0@],
{
    let mut names: Vec<String> = Vec::new();
    let n: usize = dirs.len();
    let mut i: usize = 0;
    while i < n
        invariant
            i <= n == dirs.paths().len(),
            dirs.wf(),
            views(names@) == dirs.paths().take(i as int),
        decreases n - i,
    {
        let ghost before = names@;
        let name = dirs.path_at(i).clone();
        names.push(name);
        assert(views(names@) =~= views(before).push(name@));
        assert(dirs.paths().take(i + 1) =~= dirs.paths().take(i as int).push(name@));
        i += 1;
    }
    let ghost listed_names = views(names@);
    let sorted = sort_strings(names);
    let mut out: Vec<(String, IncrementalDiffStats)> = Vec::new();
    proof {
        dirs.paths_are_domain();
        assert(dirs.paths().take(n as int) =~= dirs.paths());
        assert(listed_names == dirs.paths());
        listed_names.lemma_multiset_has_no_duplicates();
        views(sorted@).lemma_multiset_has_no_duplicates_conv();
        assert forall|d: Seq<char>| #[trigger] views(sorted@).contains(d) <==> dirs@.contains_key(d) by {
            vstd::seq_lib::to_multiset_contains(views(sorted@), d);
            vstd::seq_lib::to_multiset_contains(listed_names, d);
        }
    }
    let mut k: usize = 0;
    while k < sorted.len()
        invariant
            k <= sorted.len(),
            dirs.wf(),
            forall|d: Seq<char>| #[trigger] views(sorted@).contains(d) <==> dirs@.contains_key(d),
            dir_names(out@) == views(sorted@).take(k as int),
            forall|i: int| 0 <= i < out@.len() ==> dirs@.contains_key((#[trigger] out@[i]).0@) && out@[i].1 == dirs@[out@[i].0@],
        decreases sorted.len() - k,
    {
        let name = sorted[k].clone();
        assert(views(sorted@)[k as int] == name@);
        assert(views(sorted@).contains(name@));
        match dirs.get(name.as_str()) {
            Some(acc) => {
                let acc = *acc;
                let ghost before = out@;
                out.push((name, acc));
                assert(dir_names(out@) =~= dir_names(before).push(name@));
                assert(views(sorted@).take(k + 1) =~= views(sorted@).take(k as int).push(name@));
            },
            None => {
                assert(false);
            },
        }
        k += 1;
    }
    assert(views(sorted@).take(k as int) =~= views(sorted@));
    out
}

/// A sum is made of the sums of its parts.
proof fn lemma_sum_split(members: Set<Seq<char>>, part: Set<Seq<char>>, measure: spec_fn(Seq<char>) -> nat)
    requires
        members.finite(),
        part.subset_of(members),
    ensures
        sum_over(members, measure) == sum_over(part, measure) + sum_over(members.difference(part), measure),
    decreases part.len(),
{
    vstd::set_lib::lemma_len_subset(part, members);
    if part.len() == 0 {
        assert(members.difference(part) =~= members);
    } else {
        let one = part.choose();
        lemma_sum_split(members.remove(one), part.remove(one), measure);
        lemma_sum_over_remove(members, measure, one);
        assert(members.remove(one).difference(part.remove(one)) =~= members.difference(part));
    }
}

/// What the files of each directory sum up to, summed up over the directories.
proof fn lemma_sum_by_dir(files: Set<Seq<char>>, measure: spec_fn(Seq<char>) -> nat, dirs: Set<Seq<char>>)
    requires
        files.finite(),
        dirs.finite(),
        forall|path: Seq<char>| #[trigger] files.contains(path) ==> dirs.contains(dir_of(path)),
    ensures
        sum_over(dirs, |dir: Seq<char>| sum_over(within(files, dir), measure)) == sum_over(files, measure),
    decreases dirs.len(),
{
    let per_dir = |dir: Seq<char>| sum_over(within(files, dir), measure);
    if dirs.len() == 0 {
        assert(files =~= Set::empty()) by {
            assert forall|path: Seq<char>| !files.contains(path) by {
                if files.contains(path) {
                    assert(dirs.contains(dir_of(path)));
                }
            }
        }
    } else {
        let dir = dirs.choose();
        let here = within(files, dir);
        let rest = files.difference(here);
        let per_rest = |d: Seq<char>| sum_over(within(rest, d), measure);
        lemma_sum_split(files, here, measure);
        assert forall|d: Seq<char>| #[trigger] dirs.remove(dir).contains(d) implies per_dir(d) == per_rest(d) by {
            assert(within(files, d) =~= within(rest, d));
        }
        lemma_sum_over_same(dirs.remove(dir), per_dir, per_rest);
        lemma_sum_by_dir(rest, measure, dirs.remove(dir));
    }
}

/// Counters that wrap sum up to the wrapped sum.
proof fn lemma_sum_of_counters(dirs: Set<Seq<char>>, counts: spec_fn(Seq<char>) -> nat)
    requires
        dirs.finite(),
    ensures
        u32_of(sum_over(dirs, |dir: Seq<char>| u32_of(counts(dir)) as nat)) == u32_of(sum_over(dirs, counts)),
    decreases dirs.len(),
{
    if dirs.len() > 0 {
        let dir = dirs.choose();
        let rest = dirs.remove(dir);
        let counters = |d: Seq<char>| u32_of(counts(d)) as nat;
        lemma_sum_of_counters(rest, counts);
        lemma_u32_of_sum(counts(dir), sum_over(rest, counts));
        lemma_u32_of_sum(counters(dir), sum_over(rest, counters));
    }
}

proof fn lemma_len_is_sum(members: Set<Seq<char>>)
    requires
        members.finite(),
    ensures
        sum_over(members, |path: Seq<char>| 1nat) == members.len(),
    decreases members.len(),
{
    if members.len() > 0 {
        lemma_len_is_sum(members.remove(members.choose()));
    }
}

/// The directories of a diff.
pub open spec fn dirs_of(
    base: Map<Seq<char>, FileStats>,
    overlay: Map<Seq<char>, Option<FileStats>>,
) -> Set<Seq<char>> {
    Set::new(|dir: Seq<char>| is_dir(base.dom() + overlay.dom(), dir))
}

/// The sums by directory add up to the counts of the whole diff, and to the number of
/// entries that it comes from.
pub proof fn directories_add_up(base: Map<Seq<char>, FileStats>, overlay: Map<Seq<char>, Option<FileStats>>)
    requires
        base.dom().finite(),
        overlay.dom().finite(),
    ensures
        ({
            let dirs = dirs_of(base, overlay);
            let counts = counts_of(effective(base, overlay));
            let at = |dir: Seq<char>| dir_stats(base, overlay, dir);
            &&& dirs.finite()
            &&& u32_of(sum_over(dirs, |dir: Seq<char>| at(dir).files_changed as nat)) == counts.file_mad_count
            &&& u32_of(sum_over(dirs, |dir: Seq<char>| at(dir).lines_added as nat)) == counts.lines_added
            &&& u32_of(sum_over(dirs, |dir: Seq<char>| at(dir).lines_removed as nat)) == counts.lines_removed
            &&& u32_of(sum_over(dirs, |dir: Seq<char>| at(dir).base_files as nat)) == u32_of(base.dom().len())
            &&& u32_of(sum_over(dirs, |dir: Seq<char>| at(dir).overlay_entries as nat)) == u32_of(overlay.dom().len())
        }),
{
    let paths = base.dom() + overlay.dom();
    let dirs = dirs_of(base, overlay);
    let to_dir = |path: Seq<char>| dir_of(path);
    paths.lemma_map_finite(to_dir);
    assert(dirs =~= paths.map(to_dir)) by {
        assert forall|dir: Seq<char>| dirs.contains(dir) == paths.map(to_dir).contains(dir) by {
            if dirs.contains(dir) {
                let path = choose|path: Seq<char>| #[trigger] paths.contains(path) && dir_of(path) == dir;
                assert(to_dir(path) == dir);
            }
            if paths.map(to_dir).contains(dir) {
                let path = choose|path: Seq<char>| paths.contains(path) && to_dir(path) == dir;
                assert(paths.contains(path) && dir_of(path) == dir);
            }
        }
    }
    let files = effective(base, overlay);
    let shown = listed(files);
    assert(shown.subset_of(paths));
    vstd::set_lib::lemma_len_subset(shown, paths);
    assert forall|path: Seq<char>| #[trigger] shown.contains(path) implies dirs.contains(dir_of(path)) by {
        assert(paths.contains(path));
    }
    let at = |dir: Seq<char>| dir_stats(base, overlay, dir);
    let one = |path: Seq<char>| 1nat;
    let added = |path: Seq<char>| files[path].lines_added as nat;
    let removed = |path: Seq<char>| files[path].lines_removed as nat;
    let ones = |dir: Seq<char>| sum_over(within(shown, dir), one);
    let adds = |dir: Seq<char>| sum_over(within(shown, dir), added);
    let removals = |dir: Seq<char>| sum_over(within(shown, dir), removed);
    lemma_sum_by_dir(shown, one, dirs);
    lemma_sum_by_dir(shown, added, dirs);
    lemma_sum_by_dir(shown, removed, dirs);
    lemma_len_is_sum(shown);
    lemma_sum_of_counters(dirs, ones);
    lemma_sum_of_counters(dirs, adds);
    lemma_sum_of_counters(dirs, removals);
    assert forall|dir: Seq<char>| #[trigger] dirs.contains(dir) implies at(dir).files_changed as nat == u32_of(
        ones(dir),
    ) as nat by {
        lemma_len_is_sum(within(shown, dir));
    }
    lemma_sum_over_same(
        dirs,
        |dir: Seq<char>| at(dir).files_changed as nat,
        |dir: Seq<char>| u32_of(ones(dir)) as nat,
    );
    lemma_sum_over_same(dirs, |dir: Seq<char>| at(dir).lines_added as nat, |dir: Seq<char>| u32_of(adds(dir)) as nat);
    lemma_sum_over_same(
        dirs,
        |dir: Seq<char>| at(dir).lines_removed as nat,
        |dir: Seq<char>| u32_of(removals(dir)) as nat,
    );
    assert forall|path: Seq<char>| #[trigger] base.dom().contains(path) implies dirs.contains(dir_of(path)) by {
        assert(paths.contains(path));
    }
    assert forall|path: Seq<char>| #[trigger] overlay.dom().contains(path) implies dirs.contains(dir_of(path)) by {
        assert(paths.contains(path));
    }
    lemma_entries_by_dir(base.dom(), dirs);
    lemma_sum_over_same(
        dirs,
        |dir: Seq<char>| at(dir).base_files as nat,
        |dir: Seq<char>| u32_of(within(base.dom(), dir).len()) as nat,
    );
    lemma_entries_by_dir(overlay.dom(), dirs);
    lemma_sum_over_same(
        dirs,
        |dir: Seq<char>| at(dir).overlay_entries as nat,
        |dir: Seq<char>| u32_of(within(overlay.dom(), dir).len()) as nat,
    );
}

/// The numbers of paths by directory add up.
proof fn lemma_entries_by_dir(paths: Set<Seq<char>>, dirs: Set<Seq<char>>)
    requires
        paths.finite(),
        dirs.finite(),
        forall|path: Seq<char>| #[trigger] paths.contains(path) ==> dirs.contains(dir_of(path)),
    ensures
        u32_of(sum_over(dirs, |dir: Seq<char>| u32_of(within(paths, dir).len()) as nat)) == u32_of(paths.len()),
{
    let one = |path: Seq<char>| 1nat;
    let ones = |dir: Seq<char>| sum_over(within(paths, dir), one);
    let lens = |dir: Seq<char>| within(paths, dir).len();
    lemma_sum_by_dir(paths, one, dirs);
    lemma_len_is_sum(paths);
    assert forall|dir: Seq<char>| #[trigger] dirs.contains(dir) implies ones(dir) == lens(dir) by {
        lemma_len_is_sum(within(paths, dir));
    }
    lemma_sum_over_same(dirs, ones, lens);
    lemma_sum_of_counters(dirs, lens);
    lemma_sum_over_same(
        dirs,
        |dir: Seq<char>| u32_of(lens(dir)) as nat,
        |dir: Seq<char>| u32_of(within(paths, dir).len()) as nat,
    );
}

} // verus!
