//! Lines of a text.

use crate::staging::lemma_views_push;
use crate::strings::{from_chars, to_chars, views};
use vstd::prelude::*;

verus! {

/// The place of the first newline, or the end where there is none.
pub open spec fn first_newline(text: Seq<char>) -> int
    decreases text.len(),
{
    if text.len() == 0 || text[0] == '\n' {
        0
    } else {
        1 + first_newline(text.drop_first())
    }
}

/// The first line of a text, without its line end: a newline, or a carriage return and a
/// newline.
pub open spec fn first_line(text: Seq<char>) -> Seq<char> {
    let end = first_newline(text);
    if 0 < end < text.len() && text[end - 1] == '\r' {
        text.take(end - 1)
    } else {
        text.take(end)
    }
}

/// The lines of a text, without their line ends.
pub open spec fn lines_of(text: Seq<char>) -> Seq<Seq<char>>
    decreases text.len(),
    via lines_of_decreases
{
    if text.len() == 0 {
        Seq::empty()
    } else if first_newline(text) < text.len() {
        seq![first_line(text)] + lines_of(text.skip(first_newline(text) + 1))
    } else {
        seq![first_line(text)]
    }
}

#[via_fn]
proof fn lines_of_decreases(text: Seq<char>) {
    lemma_newline_bounds(text);
}

pub(crate) proof fn lemma_newline_bounds(text: Seq<char>)
    ensures
        0 <= first_newline(text) <= text.len(),
    decreases text.len(),
{
    if text.len() > 0 && text[0] != '\n' {
        lemma_newline_bounds(text.drop_first());
    }
}

pub(crate) proof fn lemma_first_newline(text: Seq<char>, n: int)
    requires
        0 <= n <= text.len(),
        forall|i: int| 0 <= i < n ==> text[i] != '\n',
        n < text.len() ==> text[n] == '\n',
    ensures
        first_newline(text) == n,
    decreases text.len(),
{
    if n > 0 {
        assert forall|i: int| 0 <= i < n - 1 implies text.drop_first()[i] != '\n' by {
            assert(text[i + 1] != '\n');
        }
        lemma_first_newline(text.drop_first(), n - 1);
    }
}

/// The first line from a place of a text on, and the place of its newline.
fn line_at(chars: &Vec<char>, from: usize) -> (r: (String, usize))
    requires
        from <= chars.len(),
    ensures
        r.0@ == first_line(chars@.skip(from as int)),
        from <= r.1 <= chars.len(),
        r.1 - from == first_newline(chars@.skip(from as int)),
{
    let ghost text = chars@.skip(from as int);
    let mut end: usize = from;
    while end < chars.len() && chars[end] != '\n'
        invariant
            from <= end <= chars.len(),
            forall|i: int| from <= i < end ==> chars@[i] != '\n',
        decreases chars.len() - end,
    {
        end += 1;
    }
    proof {
        assert forall|i: int| 0 <= i < end - from implies text[i] != '\n' by {
            assert(text[i] == chars@[from + i]);
        }
        lemma_first_newline(text, end - from);
    }
    let stop: usize = if from < end && end < chars.len() && chars[end - 1] == '\r' {
        end - 1
    } else {
        end
    };
    let line = from_chars(chars, from, stop);
    assert(line@ =~= first_line(text));
    (line, end)
}

/// The first line of a text.
pub fn take_first_line(text: &str) -> (r: String)
    ensures
        r@ == first_line(text@),
{
    let chars = to_chars(text);
    assert(chars@.skip(0) =~= text@);
    line_at(&chars, 0).0
}

/// The lines of a text.
pub fn split_lines(text: &str) -> (r: Vec<String>)
    ensures
        views(r@) == lines_of(text@),
{
    let chars = to_chars(text);
    let mut out: Vec<String> = Vec::new();
    let mut at: usize = 0;
    proof {
        assert(chars@.skip(0) =~= text@);
        assert(views(out@) + lines_of(chars@.skip(0)) =~= lines_of(text@));
    }
    while at < chars.len()
        invariant
            at <= chars.len(),
            views(out@) + lines_of(chars@.skip(at as int)) == lines_of(text@),
        decreases chars.len() - at,
    {
        let ghost rest = chars@.skip(at as int);
        let ghost before = out@;
        let (line, end) = line_at(&chars, at);
        out.push(line);
        proof {
            lemma_views_push(before, line);
            if end < chars.len() {
                assert(rest.skip(end - at + 1) =~= chars@.skip(end + 1));
                assert(views(out@) + lines_of(chars@.skip(end + 1)) =~= views(before) + (seq![line@] + lines_of(
                    chars@.skip(end + 1),
                )));
            } else {
                assert(views(out@) + lines_of(chars@.skip(end as int)) =~= views(before) + seq![line@]);
            }
        }
        at = if end < chars.len() {
            end + 1
        } else {
            end
        };
    }
    assert(views(out@) + lines_of(chars@.skip(at as int)) =~= views(out@));
    out
}

} // verus!
