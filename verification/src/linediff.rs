//! The difference of two contents, line by line.

use crate::text::{count_lines, lemma_u32_of_sum, line_count, line_count_concat, u32_of};
use vstd::prelude::*;

verus! {

/// The runs of lines of a list of hunks: whether the two sides differ there, the lines
/// before, the lines after.
pub open spec fn hunk_views(hunks: Seq<(bool, Vec<u8>, Vec<u8>)>) -> Seq<(bool, Seq<u8>, Seq<u8>)> {
    hunks.map_values(|h: (bool, Vec<u8>, Vec<u8>)| (h.0, h.1@, h.2@))
}

/// The left sides of the hunks, one after the other.
pub open spec fn left_text(hunks: Seq<(bool, Seq<u8>, Seq<u8>)>) -> Seq<u8>
    decreases hunks.len(),
{
    if hunks.len() == 0 {
        Seq::empty()
    } else {
        left_text(hunks.drop_last()) + hunks.last().1
    }
}

/// The right sides of the hunks, one after the other.
pub open spec fn right_text(hunks: Seq<(bool, Seq<u8>, Seq<u8>)>) -> Seq<u8>
    decreases hunks.len(),
{
    if hunks.len() == 0 {
        Seq::empty()
    } else {
        right_text(hunks.drop_last()) + hunks.last().2
    }
}

/// A side that ends where a line ends, or has nothing.
pub open spec fn ends_line(side: Seq<u8>) -> bool {
    side.len() == 0 || side.last() == 10
}

/// The hunks cut the two contents at line ends and leave nothing out, and where they do
/// not differ, both sides are the same.
pub open spec fn cuts_lines(hunks: Seq<(bool, Seq<u8>, Seq<u8>)>, before: Seq<u8>, after: Seq<u8>) -> bool {
    &&& left_text(hunks) == before
    &&& right_text(hunks) == after
    &&& forall|i: int| 0 <= i < hunks.len() && !(#[trigger] hunks[i]).0 ==> hunks[i].1 == hunks[i].2
    &&& forall|i: int, j: int|
        #![trigger hunks[i], hunks[j]]
        0 <= i < j < hunks.len() ==> (ends_line(hunks[i].1) || hunks[j].1.len() == 0) && (ends_line(hunks[i].2)
            || hunks[j].2.len() == 0)
}

/// What `jj_lib::diff_presentation::diff_by_line` makes of two contents.
pub uninterp spec fn line_diff(before: Seq<u8>, after: Seq<u8>) -> Seq<(bool, Seq<u8>, Seq<u8>)>;

/// Calls `jj_lib::diff_presentation::diff_by_line` in its exact mode and collects its
/// hunks. Which lines it takes for unchanged is left to it, but depends on the two contents
/// alone: the hasher that it seeds only finds equal lines, and these are put in order by
/// their places. The hunks are whole lines of both contents in order, nothing is left out,
/// and an unchanged hunk is the same on both sides.
#[verifier::external_body]
pub(crate) fn line_hunks(before: &[u8], after: &[u8]) -> (r: Vec<(bool, Vec<u8>, Vec<u8>)>)
    ensures
        hunk_views(r@) == line_diff(before@, after@),
        cuts_lines(hunk_views(r@), before@, after@),
{
    jj_lib::diff_presentation::diff_by_line([before, after], &jj_lib::diff_presentation::LineCompareMode::Exact)
        .hunks()
        .map(|hunk| (
            matches!(hunk.kind, jj_lib::diff::DiffHunkKind::Different),
            hunk.contents[0].to_vec(),
            hunk.contents[1].to_vec(),
        ))
        .collect()
}

/// The lines of the left sides where the hunks differ.
pub open spec fn lines_dropped(hunks: Seq<(bool, Seq<u8>, Seq<u8>)>) -> nat
    decreases hunks.len(),
{
    if hunks.len() == 0 {
        0
    } else {
        lines_dropped(hunks.drop_last()) + if hunks.last().0 {
            line_count(hunks.last().1)
        } else {
            0
        }
    }
}

/// The lines of the right sides where the hunks differ.
pub open spec fn lines_gained(hunks: Seq<(bool, Seq<u8>, Seq<u8>)>) -> nat
    decreases hunks.len(),
{
    if hunks.len() == 0 {
        0
    } else {
        lines_gained(hunks.drop_last()) + if hunks.last().0 {
            line_count(hunks.last().2)
        } else {
            0
        }
    }
}

/// The bytes of the left sides where the hunks differ.
pub open spec fn bytes_dropped(hunks: Seq<(bool, Seq<u8>, Seq<u8>)>) -> nat
    decreases hunks.len(),
{
    if hunks.len() == 0 {
        0
    } else {
        bytes_dropped(hunks.drop_last()) + if hunks.last().0 {
            hunks.last().1.len()
        } else {
            0
        }
    }
}

/// The numbers of lines that a list of hunks drops and gains.
pub fn changed_lines(hunks: &Vec<(bool, Vec<u8>, Vec<u8>)>) -> (r: (u32, u32))
    ensures
        r.0 == u32_of(lines_dropped(hunk_views(hunks@))),
        r.1 == u32_of(lines_gained(hunk_views(hunks@))),
{
    let mut removed: u32 = 0;
    let mut added: u32 = 0;
    let mut i: usize = 0;
    while i < hunks.len()
        invariant
            i <= hunks.len(),
            removed == u32_of(lines_dropped(hunk_views(hunks@).take(i as int))),
            added == u32_of(lines_gained(hunk_views(hunks@).take(i as int))),
        decreases hunks.len() - i,
    {
        let ghost prefix = hunk_views(hunks@).take(i + 1);
        assert(prefix.drop_last() =~= hunk_views(hunks@).take(i as int));
        assert(prefix.last() == (hunks@[i as int].0, hunks@[i as int].1@, hunks@[i as int].2@));
        if hunks[i].0 {
            proof {
                lemma_u32_of_sum(lines_dropped(prefix.drop_last()), line_count(prefix.last().1));
                lemma_u32_of_sum(lines_gained(prefix.drop_last()), line_count(prefix.last().2));
            }
            removed = removed.wrapping_add(count_lines(hunks[i].1.as_slice()));
            added = added.wrapping_add(count_lines(hunks[i].2.as_slice()));
        }
        i += 1;
    }
    assert(hunk_views(hunks@).take(hunks@.len() as int) =~= hunk_views(hunks@));
    (removed, added)
}

proof fn lemma_cuts_prefix(hunks: Seq<(bool, Seq<u8>, Seq<u8>)>)
    requires
        cuts_lines(hunks, left_text(hunks), right_text(hunks)),
        hunks.len() > 0,
    ensures
        cuts_lines(hunks.drop_last(), left_text(hunks.drop_last()), right_text(hunks.drop_last())),
{
    let rest = hunks.drop_last();
    assert forall|i: int| 0 <= i < rest.len() && !(#[trigger] rest[i]).0 implies rest[i].1 == rest[i].2 by {
        assert(rest[i] == hunks[i]);
    }
    assert forall|i: int, j: int|
        #![trigger rest[i], rest[j]]
        0 <= i < j < rest.len() implies (ends_line(rest[i].1) || rest[j].1.len() == 0) && (ends_line(rest[i].2)
        || rest[j].2.len() == 0) by {
        assert(rest[i] == hunks[i] && rest[j] == hunks[j]);
    }
}

proof fn lemma_left_ends_line(hunks: Seq<(bool, Seq<u8>, Seq<u8>)>)
    requires
        forall|i: int| 0 <= i < hunks.len() ==> ends_line((#[trigger] hunks[i]).1),
    ensures
        ends_line(left_text(hunks)),
    decreases hunks.len(),
{
    if hunks.len() > 0 {
        let rest = hunks.drop_last();
        assert forall|i: int| 0 <= i < rest.len() implies ends_line((#[trigger] rest[i]).1) by {
            assert(rest[i] == hunks[i]);
        }
        lemma_left_ends_line(rest);
        assert(hunks.last() == hunks[hunks.len() - 1]);
        let last = hunks.last().1;
        if last.len() > 0 {
            assert(left_text(hunks).last() == last.last());
        } else {
            assert(left_text(hunks) =~= left_text(rest));
        }
    }
}

proof fn lemma_right_ends_line(hunks: Seq<(bool, Seq<u8>, Seq<u8>)>)
    requires
        forall|i: int| 0 <= i < hunks.len() ==> ends_line((#[trigger] hunks[i]).2),
    ensures
        ends_line(right_text(hunks)),
    decreases hunks.len(),
{
    if hunks.len() > 0 {
        let rest = hunks.drop_last();
        assert forall|i: int| 0 <= i < rest.len() implies ends_line((#[trigger] rest[i]).2) by {
            assert(rest[i] == hunks[i]);
        }
        lemma_right_ends_line(rest);
        assert(hunks.last() == hunks[hunks.len() - 1]);
        let last = hunks.last().2;
        if last.len() > 0 {
            assert(right_text(hunks).last() == last.last());
        } else {
            assert(right_text(hunks) =~= right_text(rest));
        }
    }
}

/// What a line diff counts is in balance: the lines before and those gained are as many
/// as the lines after and those dropped, and it drops no more lines than were there and
/// gains no more than are there now.
pub proof fn changed_lines_balance(hunks: Seq<(bool, Seq<u8>, Seq<u8>)>, before: Seq<u8>, after: Seq<u8>)
    requires
        cuts_lines(hunks, before, after),
    ensures
        line_count(before) + lines_gained(hunks) == line_count(after) + lines_dropped(hunks),
        lines_dropped(hunks) <= line_count(before),
        lines_gained(hunks) <= line_count(after),
    decreases hunks.len(),
{
    if hunks.len() > 0 {
        let rest = hunks.drop_last();
        let last = hunks.last();
        let n = hunks.len() - 1;
        assert(last == hunks[n]);
        lemma_cuts_prefix(hunks);
        changed_lines_balance(rest, left_text(rest), right_text(rest));
        if last.1.len() > 0 {
            assert forall|i: int| 0 <= i < rest.len() implies ends_line((#[trigger] rest[i]).1) by {
                assert(rest[i] == hunks[i] && hunks[n] == last);
            }
            lemma_left_ends_line(rest);
        }
        line_count_concat(left_text(rest), last.1);
        if last.2.len() > 0 {
            assert forall|i: int| 0 <= i < rest.len() implies ends_line((#[trigger] rest[i]).2) by {
                assert(rest[i] == hunks[i] && hunks[n] == last);
            }
            lemma_right_ends_line(rest);
        }
        line_count_concat(right_text(rest), last.2);
    }
}

/// A line diff drops no more bytes than were there.
pub proof fn bytes_dropped_bounded(hunks: Seq<(bool, Seq<u8>, Seq<u8>)>)
    ensures
        bytes_dropped(hunks) <= left_text(hunks).len(),
    decreases hunks.len(),
{
    if hunks.len() > 0 {
        bytes_dropped_bounded(hunks.drop_last());
    }
}

/// The number of bytes that a list of hunks drops.
pub fn removed_bytes(hunks: &Vec<(bool, Vec<u8>, Vec<u8>)>) -> (r: usize)
    requires
        left_text(hunk_views(hunks@)).len() <= usize::MAX,
    ensures
        r == bytes_dropped(hunk_views(hunks@)),
{
    let mut removed: usize = 0;
    let mut i: usize = 0;
    let ghost all = hunk_views(hunks@);
    while i < hunks.len()
        invariant
            i <= hunks.len(),
            all == hunk_views(hunks@),
            removed == bytes_dropped(all.take(i as int)),
            left_text(all).len() <= usize::MAX,
        decreases hunks.len() - i,
    {
        let ghost prefix = all.take(i + 1);
        proof {
            assert(prefix.drop_last() =~= all.take(i as int));
            assert(prefix.last() == (hunks@[i as int].0, hunks@[i as int].1@, hunks@[i as int].2@));
            bytes_dropped_bounded(prefix);
            lemma_left_text_prefix(all, i + 1);
        }
        if hunks[i].0 {
            removed += hunks[i].1.len();
        }
        i += 1;
    }
    assert(all.take(hunks@.len() as int) =~= all);
    removed
}

proof fn lemma_left_text_prefix(hunks: Seq<(bool, Seq<u8>, Seq<u8>)>, n: int)
    requires
        0 <= n <= hunks.len(),
    ensures
        left_text(hunks.take(n)).len() <= left_text(hunks).len(),
    decreases hunks.len(),
{
    if n == hunks.len() {
        assert(hunks.take(n) =~= hunks);
    } else {
        assert(hunks.drop_last().take(n) =~= hunks.take(n));
        lemma_left_text_prefix(hunks.drop_last(), n);
    }
}

} // verus!
