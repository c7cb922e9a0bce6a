//! File values as a working-copy snapshot records them, and the difference of two of them.

use crate::conflicts::{
    chosen_marker_len, conflict_description, contents_view, describe_conflict, hunks_fit, labels_view, marker_len,
    merge_hunks, merged_hunks, parse_conflict, parsed_conflict, pieces_view, raw_view, render_conflict,
    rendered_conflict, simplified_terms, simplify_terms, term_view, ConflictMarkerStyle, MergeOptions, RawValue,
    TreeTerm, TreeTermView,
};
use crate::simplify::{simplified, simplified_is_settled};
use crate::stats::{blank_stats, content_view, diff_stats_for_contents, stats_for_contents, FileDiffStats, FileStats};
use crate::strings::bytes_eq;
use vstd::prelude::*;
use vstd::slice::slice_to_vec;
use vstd::utf8::encode_utf8;

verus! {

/// A tree value brought to content: what a lookup in a tree gives.
#[derive(Debug)]
pub enum MaterializedValue {
    Absent,
    AccessDenied,
    /// A file; its content is `None` where it could not be read.
    File { content: Option<Vec<u8>>, executable: bool },
    Symlink { target: String },
    /// A conflict between files, simplified, with its labels (none, or one for each term
    /// of the conflict that they were made for).
    FileConflict { contents: Vec<Vec<u8>>, labels: Vec<String>, resolved_exec: Option<bool> },
    /// A conflict with something else than files in it.
    OtherConflict { terms: RawValue, labels: Vec<String> },
    GitSubmodule,
    Tree,
}

/// What a materialized value says.
pub enum MaterializedView {
    Absent,
    AccessDenied,
    File { content: Option<Seq<u8>>, executable: bool },
    Symlink { target: Seq<char> },
    FileConflict { contents: Seq<Seq<u8>>, labels: Seq<Seq<char>>, resolved_exec: Option<bool> },
    OtherConflict { terms: Seq<Option<TreeTermView>>, labels: Seq<Seq<char>> },
    GitSubmodule,
    Tree,
}

/// The bytes of a content that may be absent.
pub open spec fn vec_view(content: Option<Vec<u8>>) -> Option<Seq<u8>> {
    match content {
        Some(bytes) => Some(bytes@),
        None => None,
    }
}

impl View for MaterializedValue {
    type V = MaterializedView;

    open spec fn view(&self) -> MaterializedView {
        match *self {
            MaterializedValue::Absent => MaterializedView::Absent,
            MaterializedValue::AccessDenied => MaterializedView::AccessDenied,
            MaterializedValue::File { content, executable } => MaterializedView::File {
                content: vec_view(content),
                executable,
            },
            MaterializedValue::Symlink { target } => MaterializedView::Symlink { target: target@ },
            MaterializedValue::FileConflict { contents, labels, resolved_exec } => MaterializedView::FileConflict {
                contents: contents_view(contents@),
                labels: labels_view(labels@),
                resolved_exec,
            },
            MaterializedValue::OtherConflict { terms, labels } => MaterializedView::OtherConflict {
                terms: raw_view(terms@),
                labels: labels_view(labels@),
            },
            MaterializedValue::GitSubmodule => MaterializedView::GitSubmodule,
            MaterializedValue::Tree => MaterializedView::Tree,
        }
    }
}

/// Conflicts have one more added term than removed ones, and so have their labels.
pub open spec fn materialized_ok(value: MaterializedView) -> bool {
    match value {
        MaterializedView::FileConflict { contents, labels, resolved_exec } => contents.len() % 2 == 1 && (labels.len()
            == 0 || labels.len() % 2 == 1),
        MaterializedView::OtherConflict { terms, labels } => terms.len() % 2 == 1 && (labels.len() == 0
            || labels.len() % 2 == 1),
        _ => true,
    }
}

/// What a materialized value says, if there is one.
pub open spec fn opt_view(value: Option<MaterializedValue>) -> Option<MaterializedView> {
    match value {
        Some(v) => Some(v@),
        None => None,
    }
}

impl MaterializedValue {
    pub open spec fn wf(&self) -> bool {
        materialized_ok(self@)
    }
}

/// The text of a conflict as a checkout writes it.
pub open spec fn conflict_text(
    terms: Seq<Seq<u8>>,
    labels: Seq<Seq<char>>,
    style: ConflictMarkerStyle,
    options: MergeOptions,
) -> Seq<u8> {
    rendered_conflict(terms, labels, style, chosen_marker_len(terms), options)
}

/// The byte content that `jj diff` would compare.
pub open spec fn content_of(
    value: MaterializedView,
    style: ConflictMarkerStyle,
    options: MergeOptions,
) -> Option<Seq<u8>> {
    match value {
        MaterializedView::Absent => None,
        MaterializedView::AccessDenied => None,
        MaterializedView::File { content, executable } => content,
        MaterializedView::Symlink { target } => Some(encode_utf8(target)),
        MaterializedView::FileConflict { contents, labels, resolved_exec } => Some(
            conflict_text(contents, labels, style, options),
        ),
        MaterializedView::OtherConflict { terms, labels } => Some(encode_utf8(conflict_description(terms, labels))),
        MaterializedView::GitSubmodule => None,
        MaterializedView::Tree => None,
    }
}

fn clone_bytes(bytes: &Vec<u8>) -> (r: Vec<u8>)
    ensures
        r@ == bytes@,
{
    slice_to_vec(bytes.as_slice())
}

/// Convert an already-materialized tree value to the bytes `jj diff` would compare: plain
/// file bytes, symlink targets as text, and conflicts rendered with conflict markers
/// exactly as jj materializes them in the working copy.
///
/// Returns `None` for absent values and non-content values (submodules, unreadable
/// entries), which jj diffs as empty.
pub fn materialized_bytes(value: &MaterializedValue, style: ConflictMarkerStyle, options: MergeOptions) -> (r: Option<
    Vec<u8>,
>)
    requires
        value.wf(),
    ensures
        vec_view(r) == content_of(value@, style, options),
{
    match value {
        MaterializedValue::Absent => None,
        MaterializedValue::AccessDenied => None,
        MaterializedValue::File { content, executable } => match content {
            Some(bytes) => Some(clone_bytes(bytes)),
            None => None,
        },
        MaterializedValue::Symlink { target } => Some(slice_to_vec(target.as_str().as_bytes())),
        MaterializedValue::FileConflict { contents, labels, resolved_exec } => {
            let len: usize = marker_len(contents);
            Some(render_conflict(contents, labels, style, len, options))
        },
        MaterializedValue::OtherConflict { terms, labels } => {
            let description = describe_conflict(terms, labels);
            Some(slice_to_vec(description.as_str().as_bytes()))
        },
        MaterializedValue::GitSubmodule => None,
        MaterializedValue::Tree => None,
    }
}

/// A file's value at the snapshot level: the shape jj's working-copy snapshot records,
/// abstracted from store ids to contents.
#[derive(Debug)]
pub enum WcValue {
    Absent,
    /// Resolved content bytes (plain file, symlink target as text) plus the executable
    /// bit, which the snapshot records too. Symlinks and other non-file values use `false`.
    Resolved { content: Vec<u8>, executable: bool },
    /// Unresolved conflict: simplified per-side contents, without executable bits: while a
    /// file stays conflicted, a flip of the bit on disk is invisible to `jj diff`.
    Conflict(Vec<Vec<u8>>),
}

/// What a snapshot-level value says.
pub enum WcView {
    Absent,
    Resolved { content: Seq<u8>, executable: bool },
    Conflict(Seq<Seq<u8>>),
}

impl View for WcValue {
    type V = WcView;

    open spec fn view(&self) -> WcView {
        match *self {
            WcValue::Absent => WcView::Absent,
            WcValue::Resolved { content, executable } => WcView::Resolved { content: content@, executable },
            WcValue::Conflict(terms) => WcView::Conflict(contents_view(terms@)),
        }
    }
}

impl WcValue {
    /// A conflict has one more added term than removed ones.
    pub open spec fn wf(&self) -> bool {
        match *self {
            WcValue::Conflict(terms) => terms@.len() % 2 == 1 && terms@.len() > 1,
            _ => true,
        }
    }
}

/// A snapshot-level value plus, when it mirrors an existing tree value, the stored value
/// itself. jj's diff emits an entry whenever the *stored* values differ, so equality
/// compares stored values when both sides are tree-backed, contents otherwise.
#[derive(Debug)]
pub struct WcEntry {
    pub raw: Option<RawValue>,
    pub value: WcValue,
}

/// What an entry says.
pub struct WcEntryView {
    pub raw: Option<Seq<Option<TreeTermView>>>,
    pub value: WcView,
}

impl View for WcEntry {
    type V = WcEntryView;

    open spec fn view(&self) -> WcEntryView {
        WcEntryView {
            raw: match self.raw {
                Some(raw) => Some(raw_view(raw@)),
                None => None,
            },
            value: self.value@,
        }
    }
}

/// An entry that mirrors no stored value.
pub open spec fn derived_view(value: WcView) -> WcEntryView {
    WcEntryView { raw: None, value }
}

/// Whether two entries stand for the same value.
pub open spec fn same_value(a: WcEntryView, b: WcEntryView) -> bool {
    if a.raw is Some && b.raw is Some {
        a.raw->0 == b.raw->0
    } else {
        a.value == b.value
    }
}

impl WcEntry {
    pub open spec fn wf(&self) -> bool {
        self.value.wf()
    }

    /// An entry that mirrors no stored value.
    pub fn derived(value: WcValue) -> (r: Self)
        ensures
            r@ == derived_view(value@),
            r.value == value,
    {
        WcEntry { raw: None, value }
    }

    /// Whether two entries stand for the same value.
    pub fn same_value_as(&self, other: &WcEntry) -> (r: bool)
        ensures
            r == same_value(self@, other@),
    {
        match (&self.raw, &other.raw) {
            (Some(a), Some(b)) => raw_eq(a, b),
            _ => value_eq(&self.value, &other.value),
        }
    }
}

fn term_eq(a: &TreeTerm, b: &TreeTerm) -> (r: bool)
    ensures
        r == (a@ == b@),
{
    match (a, b) {
        (
            TreeTerm::File { id, executable, copy_id },
            TreeTerm::File { id: id2, executable: executable2, copy_id: copy_id2 },
        ) => *executable == *executable2 && bytes_eq(id.as_slice(), id2.as_slice()) && bytes_eq(
            copy_id.as_slice(),
            copy_id2.as_slice(),
        ),
        (TreeTerm::Symlink(id), TreeTerm::Symlink(id2)) => bytes_eq(id.as_slice(), id2.as_slice()),
        (TreeTerm::Tree(id), TreeTerm::Tree(id2)) => bytes_eq(id.as_slice(), id2.as_slice()),
        (TreeTerm::GitSubmodule(id), TreeTerm::GitSubmodule(id2)) => bytes_eq(id.as_slice(), id2.as_slice()),
        _ => false,
    }
}

/// Whether two terms of stored values are the same.
pub fn opt_term_eq(a: &Option<TreeTerm>, b: &Option<TreeTerm>) -> (r: bool)
    ensures
        r == (term_view(*a) == term_view(*b)),
{
    match (a, b) {
        (Some(x), Some(y)) => term_eq(x, y),
        (None, None) => true,
        _ => false,
    }
}

/// Whether two stored values are the same.
pub fn raw_eq(a: &RawValue, b: &RawValue) -> (r: bool)
    ensures
        r == (raw_view(a@) == raw_view(b@)),
{
    if a.len() != b.len() {
        assert(raw_view(a@).len() != raw_view(b@).len());
        return false;
    }
    let mut i: usize = 0;
    while i < a.len()
        invariant
            i <= a.len(),
            a.len() == b.len(),
            forall|j: int| 0 <= j < i ==> raw_view(a@)[j] == raw_view(b@)[j],
        decreases a.len() - i,
    {
        if !opt_term_eq(&a[i], &b[i]) {
            assert(raw_view(a@)[i as int] != raw_view(b@)[i as int]);
            return false;
        }
        i += 1;
    }
    assert(raw_view(a@) =~= raw_view(b@));
    true
}

/// Whether two lists of contents are the same.
pub fn contents_eq(a: &Vec<Vec<u8>>, b: &Vec<Vec<u8>>) -> (r: bool)
    ensures
        r == (contents_view(a@) == contents_view(b@)),
{
    if a.len() != b.len() {
        assert(contents_view(a@).len() != contents_view(b@).len());
        return false;
    }
    let mut i: usize = 0;
    while i < a.len()
        invariant
            i <= a.len(),
            a.len() == b.len(),
            forall|j: int| 0 <= j < i ==> contents_view(a@)[j] == contents_view(b@)[j],
        decreases a.len() - i,
    {
        if !bytes_eq(a[i].as_slice(), b[i].as_slice()) {
            assert(contents_view(a@)[i as int] != contents_view(b@)[i as int]);
            return false;
        }
        i += 1;
    }
    assert(contents_view(a@) =~= contents_view(b@));
    true
}

/// Whether two lists of hunks are the same.
pub fn pieces_eq(a: &Vec<Vec<Vec<u8>>>, b: &Vec<Vec<Vec<u8>>>) -> (r: bool)
    ensures
        r == (pieces_view(a@) == pieces_view(b@)),
{
    if a.len() != b.len() {
        assert(pieces_view(a@).len() != pieces_view(b@).len());
        return false;
    }
    let mut i: usize = 0;
    while i < a.len()
        invariant
            i <= a.len(),
            a.len() == b.len(),
            forall|j: int| 0 <= j < i ==> pieces_view(a@)[j] == pieces_view(b@)[j],
        decreases a.len() - i,
    {
        if !contents_eq(&a[i], &b[i]) {
            assert(pieces_view(a@)[i as int] != pieces_view(b@)[i as int]);
            return false;
        }
        i += 1;
    }
    assert(pieces_view(a@) =~= pieces_view(b@));
    true
}

fn value_eq(a: &WcValue, b: &WcValue) -> (r: bool)
    ensures
        r == (a@ == b@),
{
    match (a, b) {
        (WcValue::Absent, WcValue::Absent) => true,
        (
            WcValue::Resolved { content, executable },
            WcValue::Resolved { content: content2, executable: executable2 },
        ) => *executable == *executable2 && bytes_eq(content.as_slice(), content2.as_slice()),
        (WcValue::Conflict(terms), WcValue::Conflict(terms2)) => contents_eq(terms, terms2),
        _ => false,
    }
}

/// A conflict after simplification, which may resolve it.
pub open spec fn normalized(terms: Seq<Seq<u8>>, resolved_exec: bool) -> WcView {
    let left = simplified_terms(terms);
    if left.len() == 1 {
        WcView::Resolved { content: left[0], executable: resolved_exec }
    } else {
        WcView::Conflict(left)
    }
}

/// Normalize conflict sides: simplification may resolve the merge. `resolved_exec` is the
/// executable bit to use if the merge resolves.
pub fn normalize_conflict_sides(sides: &Vec<Vec<u8>>, resolved_exec: bool) -> (r: WcValue)
    requires
        sides@.len() % 2 == 1,
    ensures
        r@ == normalized(contents_view(sides@), resolved_exec),
        r.wf(),
{
    let left = simplify_terms(sides);
    proof {
        let terms = contents_view(sides@);
        let eq = |i: int, j: int| terms[i] == terms[j];
        simplified_is_settled(terms.len(), eq);
        assert(contents_view(left@).len() == simplified(terms.len(), eq).len());
        assert(left@.len() == contents_view(left@).len());
    }
    if left.len() == 1 {
        assert(contents_view(left@)[0] == left@[0]@);
        WcValue::Resolved { content: clone_bytes(&left[0]), executable: resolved_exec }
    } else {
        WcValue::Conflict(left)
    }
}

/// The snapshot-level value of a materialized tree value.
pub open spec fn snapshot_value(value: MaterializedView) -> WcView {
    match value {
        MaterializedView::File { content: Some(content), executable } => WcView::Resolved { content, executable },
        MaterializedView::Symlink { target } => WcView::Resolved {
            content: encode_utf8(target),
            executable: false,
        },
        MaterializedView::FileConflict { contents, labels, resolved_exec } => normalized(
            contents,
            resolved_exec == Some(true),
        ),
        MaterializedView::OtherConflict { terms, labels } => WcView::Resolved {
            content: encode_utf8(conflict_description(terms, labels)),
            executable: false,
        },
        _ => WcView::Absent,
    }
}

/// The entry of a stored value: where the value could not be materialized, nothing is
/// known to be there.
pub open spec fn raw_entry(raw: Seq<Option<TreeTermView>>, value: Option<MaterializedView>) -> WcEntryView {
    match value {
        Some(materialized) => WcEntryView { raw: Some(raw), value: snapshot_value(materialized) },
        None => derived_view(WcView::Absent),
    }
}

/// A copy of a term of a stored value.
pub fn clone_term(term: &Option<TreeTerm>) -> (r: Option<TreeTerm>)
    ensures
        term_view(r) == term_view(*term),
{
    match term {
        Some(TreeTerm::File { id, executable, copy_id }) => Some(
            TreeTerm::File { id: clone_bytes(id), executable: *executable, copy_id: clone_bytes(copy_id) },
        ),
        Some(TreeTerm::Symlink(id)) => Some(TreeTerm::Symlink(clone_bytes(id))),
        Some(TreeTerm::Tree(id)) => Some(TreeTerm::Tree(clone_bytes(id))),
        Some(TreeTerm::GitSubmodule(id)) => Some(TreeTerm::GitSubmodule(clone_bytes(id))),
        None => None,
    }
}

/// A copy of a stored value.
pub fn clone_raw(raw: &RawValue) -> (r: RawValue)
    ensures
        raw_view(r@) == raw_view(raw@),
{
    let mut out: RawValue = Vec::new();
    let mut i: usize = 0;
    while i < raw.len()
        invariant
            i <= raw.len(),
            out.len() == i,
            forall|j: int| 0 <= j < i ==> term_view(out@[j]) == term_view(raw@[j]),
        decreases raw.len() - i,
    {
        out.push(clone_term(&raw[i]));
        i += 1;
    }
    assert(raw_view(out@) =~= raw_view(raw@));
    out
}

/// Build an entry from a stored value and what it was materialized to, without labels.
pub fn raw_wc_value(raw: &RawValue, value: &Option<MaterializedValue>) -> (r: WcEntry)
    requires
        value is Some ==> value->0.wf(),
    ensures
        r@ == raw_entry(raw_view(raw@), opt_view(*value)),
        r.wf(),
{
    let value = match value {
        Some(MaterializedValue::File { content, executable }) => match content {
            Some(bytes) => WcValue::Resolved { content: clone_bytes(bytes), executable: *executable },
            None => WcValue::Absent,
        },
        Some(MaterializedValue::Symlink { target }) => WcValue::Resolved {
            content: slice_to_vec(target.as_str().as_bytes()),
            executable: false,
        },
        Some(MaterializedValue::FileConflict { contents, labels, resolved_exec }) => {
            let resolved_exec: bool = match resolved_exec {
                Some(bit) => *bit,
                None => false,
            };
            normalize_conflict_sides(contents, resolved_exec)
        },
        Some(MaterializedValue::OtherConflict { terms, labels }) => {
            let description = describe_conflict(terms, labels);
            WcValue::Resolved { content: slice_to_vec(description.as_str().as_bytes()), executable: false }
        },
        Some(MaterializedValue::Absent)
        | Some(MaterializedValue::AccessDenied)
        | Some(MaterializedValue::GitSubmodule)
        | Some(MaterializedValue::Tree) => WcValue::Absent,
        None => {
            return WcEntry::derived(WcValue::Absent);
        },
    };
    WcEntry { raw: Some(clone_raw(raw)), value }
}

/// The content of one side of a conflict, put together from parsed hunks: resolved hunks
/// go into every side.
pub open spec fn side_text(hunks: Seq<Seq<Seq<u8>>>, side: int) -> Seq<u8>
    decreases hunks.len(),
{
    if hunks.len() == 0 {
        Seq::empty()
    } else {
        side_text(hunks.drop_last(), side) + if hunks.last().len() == 1 {
            hunks.last()[0]
        } else {
            hunks.last()[side]
        }
    }
}

/// The contents of all sides, put together from parsed hunks.
pub open spec fn reassembled(hunks: Seq<Seq<Seq<u8>>>, len: nat) -> Seq<Seq<u8>> {
    Seq::new(len, |side: int| side_text(hunks, side))
}

/// Reassemble per-side contents from parsed hunks, as jj's snapshot does.
pub fn reassemble(hunks: &Vec<Vec<Vec<u8>>>, len: usize) -> (r: Vec<Vec<u8>>)
    requires
        hunks_fit(pieces_view(hunks@), len as int),
    ensures
        contents_view(r@) == reassembled(pieces_view(hunks@), len as nat),
{
    let mut sides: Vec<Vec<u8>> = Vec::new();
    let mut side: usize = 0;
    while side < len
        invariant
            side <= len,
            hunks_fit(pieces_view(hunks@), len as int),
            sides.len() == side,
            forall|s: int| 0 <= s < side ==> (#[trigger] sides@[s])@ == side_text(pieces_view(hunks@), s),
        decreases len - side,
    {
        let mut text: Vec<u8> = Vec::new();
        let mut i: usize = 0;
        while i < hunks.len()
            invariant
                i <= hunks.len(),
                side < len,
                hunks_fit(pieces_view(hunks@), len as int),
                text@ == side_text(pieces_view(hunks@).take(i as int), side as int),
            decreases hunks.len() - i,
        {
            let ghost prefix = pieces_view(hunks@).take(i + 1);
            let hunk = &hunks[i];
            proof {
                assert(prefix.drop_last() =~= pieces_view(hunks@).take(i as int));
                assert(prefix.last() == pieces_view(hunks@)[i as int]);
                assert(pieces_view(hunks@)[i as int] == contents_view(hunk@));
            }
            let at: usize = if hunk.len() == 1 {
                0
            } else {
                side
            };
            assert(contents_view(hunk@)[at as int] == hunk@[at as int]@);
            text.extend_from_slice(hunk[at].as_slice());
            i += 1;
        }
        assert(pieces_view(hunks@).take(i as int) =~= pieces_view(hunks@));
        sides.push(text);
        side += 1;
    }
    assert(contents_view(sides@) =~= reassembled(pieces_view(hunks@), len as nat));
    sides
}

/// The value that jj's next snapshot would record for a path, given the entry of the
/// working-copy commit and what is on disk.
pub open spec fn snapshot_of(
    commit: WcEntryView,
    disk: Option<Seq<u8>>,
    disk_exec: bool,
    visible_if_untracked: bool,
    options: MergeOptions,
) -> WcEntryView {
    match disk {
        None => derived_view(WcView::Absent),
        Some(bytes) => {
            let from_disk = derived_view(WcView::Resolved { content: bytes, executable: disk_exec });
            match commit.value {
                WcView::Absent => if visible_if_untracked {
                    from_disk
                } else {
                    commit
                },
                WcView::Resolved { .. } => from_disk,
                WcView::Conflict(terms) => {
                    let hunks = parsed_conflict(bytes, (terms.len() / 2 + 1) as usize, chosen_marker_len(terms));
                    let unchanged = match (merged_hunks(terms, options), hunks) {
                        (Ok(merged), None) => merged == bytes,
                        (Err(old), Some(new)) => old == new,
                        _ => false,
                    };
                    if unchanged {
                        commit
                    } else {
                        match hunks {
                            None => from_disk,
                            Some(new) => derived_view(normalized(reassembled(new, terms.len()), disk_exec)),
                        }
                    }
                },
            }
        },
    }
}

fn resolved_from_disk(disk: &[u8], disk_exec: bool) -> (r: WcEntry)
    ensures
        r@ == derived_view(WcView::Resolved { content: disk@, executable: disk_exec }),
        r.wf(),
{
    WcEntry::derived(WcValue::Resolved { content: slice_to_vec(disk), executable: disk_exec })
}

/// Synthesize the value jj's next snapshot would record for a path, given the current
/// disk content.
///
/// - An untracked file is recorded unless it is ignored, which makes it invisible.
/// - A tracked file is recorded with its content and executable bit on disk.
/// - A tracked conflict has its markers parsed back. Where they still say what the
///   conflict says, its stored value stays; where none can be parsed, the file has been
///   resolved to its bytes.
pub fn synthetic_wc_value(
    commit_entry: WcEntry,
    disk_content: Option<&[u8]>,
    disk_exec: bool,
    visible_if_untracked: bool,
    options: MergeOptions,
) -> (r: WcEntry)
    requires
        commit_entry.wf(),
    ensures
        r@ == snapshot_of(commit_entry@, content_view(disk_content), disk_exec, visible_if_untracked, options),
        r.wf(),
{
    let disk = match disk_content {
        Some(disk) => disk,
        None => {
            return WcEntry::derived(WcValue::Absent);
        },
    };
    let new_value = match &commit_entry.value {
        WcValue::Absent => {
            if visible_if_untracked {
                return resolved_from_disk(disk, disk_exec);
            }
            None
        },
        WcValue::Resolved { .. } => {
            return resolved_from_disk(disk, disk_exec);
        },
        WcValue::Conflict(sides) => {
            let num_sides: usize = sides.len() / 2 + 1;
            let old_hunks = merge_hunks(sides, options);
            let len: usize = marker_len(sides);
            let new_hunks = parse_conflict(disk, num_sides, len);
            let unchanged: bool = match (&old_hunks, &new_hunks) {
                (Ok(old), None) => bytes_eq(old.as_slice(), disk),
                (Err(old), Some(new)) => pieces_eq(old, new),
                _ => false,
            };
            if unchanged {
                None
            } else {
                match new_hunks {
                    None => {
                        return resolved_from_disk(disk, disk_exec);
                    },
                    Some(hunks) => {
                        let new_sides = reassemble(&hunks, sides.len());
                        assert(new_sides@.len() == contents_view(new_sides@).len());
                        Some(normalize_conflict_sides(&new_sides, disk_exec))
                    },
                }
            }
        },
    };
    match new_value {
        Some(value) => WcEntry::derived(value),
        None => commit_entry,
    }
}

/// The unlabeled text that jj's `diff --stat` compares.
pub open spec fn value_text(value: WcView, style: ConflictMarkerStyle, options: MergeOptions) -> Option<Seq<u8>> {
    match value {
        WcView::Absent => None,
        WcView::Resolved { content, executable } => Some(content),
        WcView::Conflict(terms) => Some(conflict_text(terms, Seq::empty(), style, options)),
    }
}

/// Materialize a value to the unlabeled text jj's `diff --stat` compares.
pub fn wc_value_text(value: &WcValue, style: ConflictMarkerStyle, options: MergeOptions) -> (r: Option<Vec<u8>>)
    requires
        value.wf(),
    ensures
        vec_view(r) == value_text(value@, style, options),
{
    match value {
        WcValue::Absent => None,
        WcValue::Resolved { content, executable } => Some(clone_bytes(content)),
        WcValue::Conflict(sides) => {
            let unlabeled: Vec<String> = Vec::new();
            assert(labels_view(unlabeled@) =~= Seq::empty());
            let len: usize = marker_len(sides);
            Some(render_conflict(sides, &unlabeled, style, len, options))
        },
    }
}

/// The bytes of a content that may be absent, as a slice.
pub fn as_content(content: &Option<Vec<u8>>) -> (r: Option<&[u8]>)
    ensures
        content_view(r) == vec_view(*content),
{
    match content {
        Some(bytes) => Some(bytes.as_slice()),
        None => None,
    }
}

/// The diff of two values: an entry exists exactly where the values differ, and a change
/// that does not show in the text counts as a modified file without changed lines.
pub open spec fn values_diff(
    before: WcEntryView,
    after: WcEntryView,
    style: ConflictMarkerStyle,
    options: MergeOptions,
) -> Option<FileStats> {
    if same_value(before, after) {
        None
    } else {
        match stats_for_contents(value_text(before.value, style, options), value_text(after.value, style, options)) {
            Some(stats) => Some(stats),
            None => Some(blank_stats()),
        }
    }
}

/// Diff two snapshot-level values jj-style: an entry exists iff the values differ; line
/// stats come from the unlabeled texts, so a value change with identical text yields a
/// zero-line Modified entry (`file | 0`).
pub fn diff_wc_values(
    before: &WcEntry,
    after: &WcEntry,
    style: ConflictMarkerStyle,
    options: MergeOptions,
) -> (r: Option<FileDiffStats>)
    requires
        before.wf(),
        after.wf(),
    ensures
        r.deep_view() == values_diff(before@, after@, style, options),
{
    if before.same_value_as(after) {
        return None;
    }
    let before_text = wc_value_text(&before.value, style, options);
    let after_text = wc_value_text(&after.value, style, options);
    match diff_stats_for_contents(as_content(&before_text), as_content(&after_text)) {
        Some(stats) => Some(stats),
        None => Some(FileDiffStats::default()),
    }
}

/// What a file that holds a conflict on disk comes to, once its markers have been parsed
/// with the conflict it started from and written again without labels.
pub open spec fn reread_conflict(
    terms: Seq<Seq<u8>>,
    disk: Seq<u8>,
    style: ConflictMarkerStyle,
    options: MergeOptions,
) -> Seq<u8> {
    match parsed_conflict(disk, (terms.len() / 2 + 1) as usize, chosen_marker_len(terms)) {
        Some(hunks) => rendered_conflict(
            reassembled(hunks, terms.len()),
            Seq::empty(),
            style,
            chosen_marker_len(terms),
            options,
        ),
        None => disk,
    }
}

/// The diff of a file on disk against the value of a tree.
pub open spec fn disk_diff(
    parent: Option<MaterializedView>,
    disk: Option<Seq<u8>>,
    style: ConflictMarkerStyle,
    options: MergeOptions,
) -> Option<FileStats> {
    match parent {
        None => None,
        Some(MaterializedView::FileConflict { contents, labels, resolved_exec }) => stats_for_contents(
            Some(conflict_text(contents, Seq::empty(), style, options)),
            match disk {
                Some(bytes) => Some(reread_conflict(contents, bytes, style, options)),
                None => None,
            },
        ),
        Some(value) => stats_for_contents(content_of(value, style, options), disk),
    }
}

/// Diff a single file on disk against its parent tree version, which is `None` where it
/// could not be read.
///
/// Returns `Some(stats)` if the file differs from the parent, `None` if identical or both
/// sides are absent. Disk text is never diffed against a conflicted parent as it stands:
/// its conflict markers are parsed back first, and both sides are written without labels.
pub fn diff_single_file(
    parent: &Option<MaterializedValue>,
    disk_content: Option<&[u8]>,
    style: ConflictMarkerStyle,
    options: MergeOptions,
) -> (r: Option<FileDiffStats>)
    requires
        parent is Some ==> parent->0.wf(),
    ensures
        r.deep_view() == disk_diff(opt_view(*parent), content_view(disk_content), style, options),
{
    match parent {
        None => None,
        Some(MaterializedValue::FileConflict { contents, labels, resolved_exec }) => {
            let len: usize = marker_len(contents);
            let unlabeled: Vec<String> = Vec::new();
            assert(labels_view(unlabeled@) =~= Seq::empty());
            let before = render_conflict(contents, &unlabeled, style, len, options);
            let after = match disk_content {
                Some(disk) => match parse_conflict(disk, contents.len() / 2 + 1, len) {
                    Some(hunks) => {
                        let sides = reassemble(&hunks, contents.len());
                        assert(sides@.len() == contents_view(sides@).len());
                        Some(render_conflict(&sides, &unlabeled, style, len, options))
                    },
                    None => Some(slice_to_vec(disk)),
                },
                None => None,
            };
            diff_stats_for_contents(Some(before.as_slice()), as_content(&after))
        },
        Some(value) => {
            let parent_content = materialized_bytes(value, style, options);
            diff_stats_for_contents(as_content(&parent_content), disk_content)
        },
    }
}

/// A value differs from itself in nothing, whatever it mirrors.
pub proof fn no_diff_with_itself(entry: WcEntryView, style: ConflictMarkerStyle, options: MergeOptions)
    ensures
        values_diff(entry, entry, style, options) is None,
{
}

/// The value of a tracked file that is on disk as the commit has it does not change.
pub proof fn untouched_file_stays(
    content: Seq<u8>,
    executable: bool,
    raw: Option<Seq<Option<TreeTermView>>>,
    visible: bool,
    options: MergeOptions,
)
    ensures
        same_value(
            snapshot_of(
                WcEntryView { raw, value: WcView::Resolved { content, executable } },
                Some(content),
                executable,
                visible,
                options,
            ),
            WcEntryView { raw, value: WcView::Resolved { content, executable } },
        ),
{
}

/// Whether what is on disk reads back as a conflict was written: as its merged content, or
/// as the hunks that stay in conflict.
pub open spec fn reads_back(terms: Seq<Seq<u8>>, bytes: Seq<u8>, options: MergeOptions) -> bool {
    let hunks = parsed_conflict(bytes, (terms.len() / 2 + 1) as usize, chosen_marker_len(terms));
    match merged_hunks(terms, options) {
        Ok(merged) => hunks is None && merged == bytes,
        Err(old) => hunks == Some(old),
    }
}

/// A conflict that is on disk as it was written keeps its stored value, whatever its marker
/// style, its labels and the executable bit, so that touching the file changes no number.
pub proof fn untouched_conflict_stays(
    terms: Seq<Seq<u8>>,
    bytes: Seq<u8>,
    raw: Option<Seq<Option<TreeTermView>>>,
    executable: bool,
    visible: bool,
    style: ConflictMarkerStyle,
    options: MergeOptions,
)
    requires
        reads_back(terms, bytes, options),
    ensures
        ({
            let commit = WcEntryView { raw, value: WcView::Conflict(terms) };
            let next = snapshot_of(commit, Some(bytes), executable, visible, options);
            next == commit && values_diff(commit, next, style, options) is None
        }),
{
}

/// A file that is neither tracked nor visible leaves no entry behind, whatever is on disk.
pub proof fn ignored_untracked_is_invisible(
    raw: Option<Seq<Option<TreeTermView>>>,
    disk: Option<Seq<u8>>,
    disk_exec: bool,
    style: ConflictMarkerStyle,
    options: MergeOptions,
)
    ensures
        values_diff(
            derived_view(WcView::Absent),
            snapshot_of(WcEntryView { raw, value: WcView::Absent }, disk, disk_exec, false, options),
            style,
            options,
        ) is None,
{
}

/// A flip of the executable bit alone is one changed file without changed lines.
pub proof fn exec_flip_is_a_blank_change(
    content: Seq<u8>,
    executable: bool,
    raw: Option<Seq<Option<TreeTermView>>>,
    visible: bool,
    style: ConflictMarkerStyle,
    options: MergeOptions,
)
    ensures
        values_diff(
            WcEntryView { raw, value: WcView::Resolved { content, executable } },
            snapshot_of(
                WcEntryView { raw, value: WcView::Resolved { content, executable } },
                Some(content),
                !executable,
                visible,
                options,
            ),
            style,
            options,
        ) == Some(blank_stats()),
{
}

} // verus!
