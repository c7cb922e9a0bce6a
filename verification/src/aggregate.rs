//! Sums of per-file stats over a base and an overlay.

use crate::stats::{FileChangeKind, FileDiffStats, FileStats};
use crate::table::FileTable;
use crate::text::{lemma_u32_of_sum, u32_of};
use vstd::prelude::*;

verus! {

/// Aggregated diff statistics including per-category file counts.
#[derive(Clone, Copy, Debug, PartialEq, Eq, Structural)]
pub struct DiffCounts {
    pub file_mad_count: u32,
    pub lines_added: u32,
    pub lines_removed: u32,
    pub files_modified: u32,
    pub files_added: u32,
    pub files_deleted: u32,
    pub files_untracked: u32,
}

impl Default for DiffCounts {
    fn default() -> (r: Self)
        ensures
            r == no_counts(),
    {
        DiffCounts {
            file_mad_count: 0,
            lines_added: 0,
            lines_removed: 0,
            files_modified: 0,
            files_added: 0,
            files_deleted: 0,
            files_untracked: 0,
        }
    }
}

/// All counts at zero.
pub open spec fn no_counts() -> DiffCounts {
    DiffCounts {
        file_mad_count: 0,
        lines_added: 0,
        lines_removed: 0,
        files_modified: 0,
        files_added: 0,
        files_deleted: 0,
        files_untracked: 0,
    }
}

/// The sum of a measure over the members of a finite set.
pub open spec fn sum_over<K>(members: Set<K>, measure: spec_fn(K) -> nat) -> nat
    decreases members.len(),
    when members.finite()
{
    if members.len() == 0 {
        0
    } else {
        let member = members.choose();
        measure(member) + sum_over(members.remove(member), measure)
    }
}

/// A sum does not depend on which member is taken out first.
pub proof fn lemma_sum_over_remove<K>(members: Set<K>, measure: spec_fn(K) -> nat, member: K)
    requires
        members.finite(),
        members.contains(member),
    ensures
        sum_over(members, measure) == measure(member) + sum_over(members.remove(member), measure),
    decreases members.len(),
{
    let first = members.choose();
    if first != member {
        lemma_sum_over_remove(members.remove(first), measure, member);
        lemma_sum_over_remove(members.remove(member), measure, first);
        assert(members.remove(first).remove(member) =~= members.remove(member).remove(first));
    }
}

/// A sum only looks at the measure of its members.
pub proof fn lemma_sum_over_same<K>(members: Set<K>, a: spec_fn(K) -> nat, b: spec_fn(K) -> nat)
    requires
        members.finite(),
        forall|k: K| #[trigger] members.contains(k) ==> a(k) == b(k),
    ensures
        sum_over(members, a) == sum_over(members, b),
    decreases members.len(),
{
    if members.len() != 0 {
        lemma_sum_over_same(members.remove(members.choose()), a, b);
    }
}

/// The diff that a base and an overlay make together: an overlay entry replaces the base
/// entry of its path, an overlay entry without stats takes the path out.
pub open spec fn effective(
    base: Map<Seq<char>, FileStats>,
    overlay: Map<Seq<char>, Option<FileStats>>,
) -> Map<Seq<char>, FileStats> {
    Map::new(
        |path: Seq<char>|
            if overlay.contains_key(path) {
                overlay[path] is Some
            } else {
                base.contains_key(path)
            },
        |path: Seq<char>|
            if overlay.contains_key(path) {
                overlay[path]->0
            } else {
                base[path]
            },
    )
}

/// The number of files of a kind.
pub open spec fn files_of_kind(files: Map<Seq<char>, FileStats>, kind: FileChangeKind) -> nat {
    files.dom().filter(|path: Seq<char>| files[path].kind == kind).len()
}

/// The files that `diff --stat` lists: all but the untracked ones.
pub open spec fn listed(files: Map<Seq<char>, FileStats>) -> Set<Seq<char>> {
    files.dom().filter(|path: Seq<char>| files[path].kind != FileChangeKind::Untracked)
}

/// The lines that the listed files add.
pub open spec fn total_added(files: Map<Seq<char>, FileStats>) -> nat {
    sum_over(listed(files), |path: Seq<char>| files[path].lines_added as nat)
}

/// The lines that the listed files remove.
pub open spec fn total_removed(files: Map<Seq<char>, FileStats>) -> nat {
    sum_over(listed(files), |path: Seq<char>| files[path].lines_removed as nat)
}

/// The counts of a diff: every entry is a changed file, even one without a changed line.
pub open spec fn counts_of(files: Map<Seq<char>, FileStats>) -> DiffCounts {
    DiffCounts {
        file_mad_count: u32_of(listed(files).len()),
        lines_added: u32_of(total_added(files)),
        lines_removed: u32_of(total_removed(files)),
        files_modified: u32_of(files_of_kind(files, FileChangeKind::Modified)),
        files_added: u32_of(files_of_kind(files, FileChangeKind::Added)),
        files_deleted: u32_of(files_of_kind(files, FileChangeKind::Deleted)),
        files_untracked: u32_of(files_of_kind(files, FileChangeKind::Untracked)),
    }
}

/// Each listed file is modified, added or deleted, and only one of them.
pub proof fn listed_files_by_kind(files: Map<Seq<char>, FileStats>)
    requires
        files.dom().finite(),
    ensures
        listed(files).len() == files_of_kind(files, FileChangeKind::Modified) + files_of_kind(
            files,
            FileChangeKind::Added,
        ) + files_of_kind(files, FileChangeKind::Deleted),
        files.dom().len() == listed(files).len() + files_of_kind(files, FileChangeKind::Untracked),
{
    let d = files.dom();
    let m = d.filter(|p: Seq<char>| files[p].kind == FileChangeKind::Modified);
    let a = d.filter(|p: Seq<char>| files[p].kind == FileChangeKind::Added);
    let x = d.filter(|p: Seq<char>| files[p].kind == FileChangeKind::Deleted);
    let u = d.filter(|p: Seq<char>| files[p].kind == FileChangeKind::Untracked);
    d.lemma_len_filter(|p: Seq<char>| files[p].kind == FileChangeKind::Modified);
    d.lemma_len_filter(|p: Seq<char>| files[p].kind == FileChangeKind::Added);
    d.lemma_len_filter(|p: Seq<char>| files[p].kind == FileChangeKind::Deleted);
    d.lemma_len_filter(|p: Seq<char>| files[p].kind == FileChangeKind::Untracked);
    d.lemma_len_filter(|p: Seq<char>| files[p].kind != FileChangeKind::Untracked);
    vstd::set_lib::lemma_set_disjoint_lens(m, a);
    vstd::set_lib::lemma_set_disjoint_lens(m + a, x);
    vstd::set_lib::lemma_set_disjoint_lens(listed(files), u);
    assert(listed(files) =~= m + a + x);
    assert(d =~= listed(files) + u);
}

pub(crate) proof fn lemma_filter_insert(
    dom: Set<Seq<char>>,
    path: Seq<char>,
    p: spec_fn(Seq<char>) -> bool,
    q: spec_fn(Seq<char>) -> bool,
)
    requires
        dom.finite(),
        !dom.contains(path),
        forall|k: Seq<char>| #[trigger] dom.contains(k) ==> p(k) == q(k),
    ensures
        dom.filter(p).finite(),
        dom.insert(path).filter(q) == if q(path) {
            dom.filter(p).insert(path)
        } else {
            dom.filter(p)
        },
        dom.insert(path).filter(q).len() == dom.filter(p).len() + if q(path) {
            1nat
        } else {
            0
        },
{
    dom.lemma_len_filter(p);
    assert(dom.insert(path).filter(q) =~= if q(path) {
        dom.filter(p).insert(path)
    } else {
        dom.filter(p)
    });
}

/// What one more file adds to the counts.
pub(crate) proof fn lemma_counts_insert(files: Map<Seq<char>, FileStats>, path: Seq<char>, stats: FileStats)
    requires
        files.dom().finite(),
        !files.contains_key(path),
    ensures
        files.insert(path, stats).dom().finite(),
        counts_of(files.insert(path, stats)) == tallied(counts_of(files), stats),
{
    let more = files.insert(path, stats);
    let dom = files.dom();
    assert(more.dom() =~= dom.insert(path));
    lemma_kind_insert(files, path, stats, FileChangeKind::Modified);
    lemma_kind_insert(files, path, stats, FileChangeKind::Added);
    lemma_kind_insert(files, path, stats, FileChangeKind::Deleted);
    lemma_kind_insert(files, path, stats, FileChangeKind::Untracked);
    lemma_filter_insert(
        dom,
        path,
        |p: Seq<char>| files[p].kind != FileChangeKind::Untracked,
        |p: Seq<char>| more[p].kind != FileChangeKind::Untracked,
    );
    lemma_u32_of_sum(listed(files).len(), 1);
    let added = |p: Seq<char>| files[p].lines_added as nat;
    let added2 = |p: Seq<char>| more[p].lines_added as nat;
    let removed = |p: Seq<char>| files[p].lines_removed as nat;
    let removed2 = |p: Seq<char>| more[p].lines_removed as nat;
    lemma_sum_over_same(listed(files), added, added2);
    lemma_sum_over_same(listed(files), removed, removed2);
    if stats.kind != FileChangeKind::Untracked {
        lemma_sum_over_remove(listed(more), added2, path);
        lemma_sum_over_remove(listed(more), removed2, path);
        assert(listed(more).remove(path) =~= listed(files));
        lemma_u32_of_sum(total_added(files), stats.lines_added as nat);
        lemma_u32_of_sum(total_removed(files), stats.lines_removed as nat);
    } else {
        assert(listed(more) =~= listed(files));
    }
}

proof fn lemma_kind_insert(files: Map<Seq<char>, FileStats>, path: Seq<char>, stats: FileStats, kind: FileChangeKind)
    requires
        files.dom().finite(),
        !files.contains_key(path),
    ensures
        files_of_kind(files.insert(path, stats), kind) == files_of_kind(files, kind) + if stats.kind == kind {
            1nat
        } else {
            0
        },
        vstd::wrapping::u32_specs::wrapping_add(u32_of(files_of_kind(files, kind)), 1) == u32_of(
            files_of_kind(files, kind) + 1,
        ),
{
    let more = files.insert(path, stats);
    assert(more.dom() =~= files.dom().insert(path));
    lemma_filter_insert(
        files.dom(),
        path,
        |p: Seq<char>| files[p].kind == kind,
        |p: Seq<char>| more[p].kind == kind,
    );
    lemma_u32_of_sum(files_of_kind(files, kind), 1);
}

/// The counts after one more file.
pub open spec fn tallied(counts: DiffCounts, stats: FileStats) -> DiffCounts {
    let one = |n: u32| vstd::wrapping::u32_specs::wrapping_add(n, 1);
    if stats.kind == FileChangeKind::Untracked {
        DiffCounts { files_untracked: one(counts.files_untracked), ..counts }
    } else {
        DiffCounts {
            file_mad_count: one(counts.file_mad_count),
            lines_added: vstd::wrapping::u32_specs::wrapping_add(counts.lines_added, stats.lines_added),
            lines_removed: vstd::wrapping::u32_specs::wrapping_add(counts.lines_removed, stats.lines_removed),
            files_modified: if stats.kind == FileChangeKind::Modified {
                one(counts.files_modified)
            } else {
                counts.files_modified
            },
            files_added: if stats.kind == FileChangeKind::Added {
                one(counts.files_added)
            } else {
                counts.files_added
            },
            files_deleted: if stats.kind == FileChangeKind::Deleted {
                one(counts.files_deleted)
            } else {
                counts.files_deleted
            },
            files_untracked: counts.files_untracked,
        }
    }
}

/// Counts one more file.
fn tally(counts: &mut DiffCounts, stats: &FileDiffStats)
    ensures
        *final(counts) == tallied(*old(counts), stats@),
{
    match stats.kind {
        FileChangeKind::Untracked => {
            counts.files_untracked = counts.files_untracked.wrapping_add(1);
            return;
        },
        FileChangeKind::Modified => {
            counts.files_modified = counts.files_modified.wrapping_add(1);
        },
        FileChangeKind::Added => {
            counts.files_added = counts.files_added.wrapping_add(1);
        },
        FileChangeKind::Deleted => {
            counts.files_deleted = counts.files_deleted.wrapping_add(1);
        },
    }
    counts.file_mad_count = counts.file_mad_count.wrapping_add(1);
    counts.lines_added = counts.lines_added.wrapping_add(stats.lines_added);
    counts.lines_removed = counts.lines_removed.wrapping_add(stats.lines_removed);
}

/// The part of a diff that lies on the first `n` of a list of paths.
spec fn on_prefix(files: Map<Seq<char>, FileStats>, paths: Seq<Seq<char>>, n: int) -> Map<Seq<char>, FileStats> {
    files.restrict(paths.take(n).to_set())
}

proof fn lemma_on_prefix_step(files: Map<Seq<char>, FileStats>, paths: Seq<Seq<char>>, n: int)
    requires
        0 <= n < paths.len(),
        paths.no_duplicates(),
    ensures
        on_prefix(files, paths, n).dom().finite(),
        !on_prefix(files, paths, n).contains_key(paths[n]),
        on_prefix(files, paths, n + 1) == if files.contains_key(paths[n]) {
            on_prefix(files, paths, n).insert(paths[n], files[paths[n]])
        } else {
            on_prefix(files, paths, n)
        },
{
    let a = paths.take(n).to_set();
    let b = paths.take(n + 1).to_set();
    assert(paths.take(n + 1) =~= paths.take(n).push(paths[n]));
    paths.take(n).lemma_push_to_set_commute(paths[n]);
    assert(b == a.insert(paths[n]));
    vstd::seq_lib::seq_to_set_is_finite(paths.take(n));
    assert(on_prefix(files, paths, n).dom() =~= files.dom().intersect(a));
    assert(!a.contains(paths[n])) by {
        if paths.take(n).contains(paths[n]) {
            let i = choose|i: int| 0 <= i < n && paths.take(n)[i] == paths[n];
            assert(paths[i] == paths[n]);
        }
    }
    assert(on_prefix(files, paths, n + 1) =~= if files.contains_key(paths[n]) {
        on_prefix(files, paths, n).insert(paths[n], files[paths[n]])
    } else {
        on_prefix(files, paths, n)
    });
}

/// Compute aggregate diff stats by merging base per-file stats with an overlay.
///
/// - Base entries not in overlay: counted as-is.
/// - Base entries with `Some(stats)` in overlay: overlay replaces base.
/// - Base entries with `None` in overlay: file reverted to parent, excluded.
/// - Overlay entries not in base: new files created after snapshot.
///
/// The counts are `u32` and wrap.
pub fn aggregate_overlay_stats(
    base: &FileTable<FileDiffStats>,
    overlay: &FileTable<Option<FileDiffStats>>,
) -> (r: DiffCounts)
    requires
        base.wf(),
        overlay.wf(),
    ensures
        r == counts_of(effective(base@, overlay@)),
{
    let mut counts = DiffCounts::default();
    let ghost files = effective(base@, overlay@);
    let ghost mut done = Map::<Seq<char>, FileStats>::empty();
    proof {
        base.paths_are_domain();
        overlay.paths_are_domain();
        lemma_counts_empty();
    }
    let n: usize = base.len();
    let mut i: usize = 0;
    assert(done =~= files.restrict(base.paths().take(0).to_set()));
    while i < n
        invariant
            i <= n == base.paths().len(),
            base.wf(),
            overlay.wf(),
            base.paths().no_duplicates(),
            files == effective(base@, overlay@),
            done.dom().finite(),
            done == on_prefix(files, base.paths(), i as int),
            counts == counts_of(done),
        decreases n - i,
    {
        let path = base.path_at(i);
        proof {
            lemma_on_prefix_step(files, base.paths(), i as int);
        }
        let ghost key = base.paths()[i as int];
        match overlay.get(path.as_str()) {
            Some(entry) => {
                if let Some(stats) = entry {
                    proof {
                        lemma_counts_insert(done, key, stats@);
                        done = done.insert(key, stats@);
                    }
                    tally(&mut counts, stats);
                }
            },
            None => {
                let stats = base.value_at(i);
                proof {
                    lemma_counts_insert(done, key, stats@);
                    done = done.insert(key, stats@);
                }
                tally(&mut counts, stats);
            },
        }
        i += 1;
    }
    let ghost in_base = base.paths().to_set();
    let m: usize = overlay.len();
    let mut j: usize = 0;
    proof {
        assert(base.paths().take(n as int) =~= base.paths());
        assert(done =~= files.restrict(in_base + overlay.paths().take(0).to_set()));
    }
    while j < m
        invariant
            j <= m == overlay.paths().len(),
            base.wf(),
            overlay.wf(),
            overlay.paths().no_duplicates(),
            in_base == base@.dom(),
            files == effective(base@, overlay@),
            done.dom().finite(),
            done == files.restrict(in_base + overlay.paths().take(j as int).to_set()),
            counts == counts_of(done),
        decreases m - j,
    {
        let path = overlay.path_at(j);
        let ghost key = overlay.paths()[j as int];
        let ghost before = overlay.paths().take(j as int);
        proof {
            assert(overlay.paths().take(j + 1) =~= before.push(key));
            before.lemma_push_to_set_commute(key);
            assert(!before.to_set().contains(key)) by {
                if before.contains(key) {
                    let q = choose|q: int| 0 <= q < j && before[q] == key;
                    assert(overlay.paths()[q] == key);
                }
            }
        }
        let ghost after = in_base + overlay.paths().take(j + 1).to_set();
        if base.contains(path.as_str()) {
            assert(done =~= files.restrict(after));
        } else {
            match overlay.value_at(j) {
                Some(stats) => {
                    proof {
                        lemma_counts_insert(done, key, stats@);
                        done = done.insert(key, stats@);
                        assert(done =~= files.restrict(after));
                    }
                    tally(&mut counts, stats);
                },
                None => {
                    assert(done =~= files.restrict(after));
                },
            }
        }
        j += 1;
    }
    proof {
        assert(overlay.paths().take(m as int) =~= overlay.paths());
        assert(done =~= files);
    }
    counts
}

pub proof fn lemma_counts_empty()
    ensures
        counts_of(Map::<Seq<char>, FileStats>::empty()) == no_counts(),
{
    let none = Map::<Seq<char>, FileStats>::empty();
    assert(listed(none) =~= Set::empty());
    assert(none.dom().filter(|p: Seq<char>| none[p].kind == FileChangeKind::Modified) =~= Set::empty());
    assert(none.dom().filter(|p: Seq<char>| none[p].kind == FileChangeKind::Added) =~= Set::empty());
    assert(none.dom().filter(|p: Seq<char>| none[p].kind == FileChangeKind::Deleted) =~= Set::empty());
    assert(none.dom().filter(|p: Seq<char>| none[p].kind == FileChangeKind::Untracked) =~= Set::empty());
}

/// Compute aggregate diff stats from a per-file map.
pub fn aggregate_file_stats(per_file: &FileTable<FileDiffStats>) -> (r: DiffCounts)
    requires
        per_file.wf(),
    ensures
        r == counts_of(per_file@),
{
    let empty = FileTable::<Option<FileDiffStats>>::new();
    proof {
        assert(effective(per_file@, empty@) =~= per_file@);
    }
    aggregate_overlay_stats(per_file, &empty)
}

/// An overlay entry that restates the base changes nothing.
pub proof fn restating_base_changes_nothing(
    base: Map<Seq<char>, FileStats>,
    overlay: Map<Seq<char>, Option<FileStats>>,
    path: Seq<char>,
)
    requires
        base.contains_key(path),
        !overlay.contains_key(path),
    ensures
        effective(base, overlay.insert(path, Some(base[path]))) == effective(base, overlay),
{
    assert(effective(base, overlay.insert(path, Some(base[path]))) =~= effective(base, overlay));
}

/// Of several overlay writes of one path only the last one counts, whatever the base says.
pub proof fn last_overlay_write_wins(
    base: Map<Seq<char>, FileStats>,
    overlay: Map<Seq<char>, Option<FileStats>>,
    path: Seq<char>,
    first: Option<FileStats>,
    last: Option<FileStats>,
)
    ensures
        effective(base, overlay.insert(path, first).insert(path, last)) == effective(
            base,
            overlay.insert(path, last),
        ),
        effective(base, overlay.insert(path, last)).contains_key(path) <==> last is Some,
        last is Some ==> effective(base, overlay.insert(path, last))[path] == last->0,
{
    assert(effective(base, overlay.insert(path, first).insert(path, last)) =~= effective(
        base,
        overlay.insert(path, last),
    ));
}

/// Writing an overlay entry leaves every other path of the diff as it was.
pub proof fn overlay_write_is_local(
    base: Map<Seq<char>, FileStats>,
    overlay: Map<Seq<char>, Option<FileStats>>,
    path: Seq<char>,
    entry: Option<FileStats>,
    other: Seq<char>,
)
    requires
        other != path,
    ensures
        effective(base, overlay.insert(path, entry)).contains_key(other) <==> effective(base, overlay).contains_key(
            other,
        ),
        effective(base, overlay).contains_key(other) ==> effective(base, overlay.insert(path, entry))[other]
            == effective(base, overlay)[other],
{
}

} // verus!
