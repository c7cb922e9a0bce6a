//! Lines of a text.

use crate::lines::{first_line, first_newline, lemma_first_newline, lemma_newline_bounds, lines_of};
use vstd::prelude::*;

verus! {

/// The first line of a text is what comes before its first newline, without a carriage return
/// right before that; a text without a newline is one line.
pub proof fn first_line_ends_at_the_newline(line: Seq<char>, rest: Seq<char>)
    requires
        !line.contains('\n'),
    ensures
        first_line(line) == line,
        line.len() == 0 || line.last() != '\r' ==> first_line(line + seq!['\n'] + rest) == line,
        first_line(line + seq!['\r', '\n'] + rest) == line,
{
    assert forall|i: int| 0 <= i < line.len() implies line[i] != '\n' by {
        assert(line.contains(line[i]));
    }
    lemma_first_newline(line, line.len() as int);
    assert(line.take(line.len() as int) =~= line);
    let unix = line + seq!['\n'] + rest;
    assert forall|i: int| 0 <= i < line.len() implies unix[i] != '\n' by {
        assert(unix[i] == line[i]);
    }
    lemma_first_newline(unix, line.len() as int);
    assert(unix.take(line.len() as int) =~= line);
    if line.len() > 0 {
        assert(unix[line.len() - 1] == line.last());
    }
    let dos = line + seq!['\r', '\n'] + rest;
    assert forall|i: int| 0 <= i < line.len() + 1 implies dos[i] != '\n' by {
        if i < line.len() {
            assert(dos[i] == line[i]);
        } else {
            assert(dos[i] == '\r');
        }
    }
    assert(dos[line.len() as int + 1] == '\n');
    lemma_first_newline(dos, line.len() as int + 1);
    assert(dos.take(line.len() as int) =~= line);
}

proof fn lemma_first_newline_stays(a: Seq<char>, b: Seq<char>)
    requires
        first_newline(a) < a.len(),
    ensures
        first_newline(a + b) == first_newline(a),
    decreases a.len(),
{
    if a.len() > 0 && a[0] != '\n' {
        assert((a + b).drop_first() =~= a.drop_first() + b);
        lemma_first_newline_stays(a.drop_first(), b);
    }
}

proof fn lemma_ends_with_newline(a: Seq<char>)
    requires
        a.len() > 0,
        a.last() == '\n',
    ensures
        first_newline(a) < a.len(),
    decreases a.len(),
{
    if a[0] != '\n' {
        assert(a.drop_first().last() == a.last());
        lemma_ends_with_newline(a.drop_first());
    }
}

/// The lines of a text that ends a line, followed by another text, are those of both.
pub proof fn lines_of_two_texts_add_up(a: Seq<char>, b: Seq<char>)
    requires
        a.len() == 0 || a.last() == '\n',
    ensures
        lines_of(a + b) == lines_of(a) + lines_of(b),
    decreases a.len(),
{
    if a.len() == 0 {
        assert(a + b =~= b);
        assert(lines_of(a) + lines_of(b) =~= lines_of(b));
    } else {
        lemma_ends_with_newline(a);
        lemma_newline_bounds(a);
        lemma_first_newline_stays(a, b);
        let n = first_newline(a);
        let rest = a.skip(n + 1);
        assert((a + b).skip(n + 1) =~= rest + b);
        if rest.len() > 0 {
            assert(rest.last() == a.last());
        }
        lines_of_two_texts_add_up(rest, b);
        assert((a + b).take(n) =~= a.take(n));
        if n > 0 {
            assert((a + b)[n - 1] == a[n - 1]);
            assert((a + b).take(n - 1) =~= a.take(n - 1));
        }
        assert(lines_of(a + b) =~= lines_of(a) + lines_of(b));
    }
}

/// A text without a newline is one line, or none where it is empty; a line with its end and
/// what follows is that line and the lines of the rest, however many there are.
pub proof fn every_line_is_a_line(line: Seq<char>, rest: Seq<char>)
    requires
        !line.contains('\n'),
    ensures
        line.len() == 0 ==> lines_of(line).len() == 0,
        line.len() > 0 ==> lines_of(line) == seq![line],
        line.len() == 0 || line.last() != '\r' ==> lines_of(line + seq!['\n'] + rest) == seq![line] + lines_of(rest),
        lines_of(line + seq!['\r', '\n'] + rest) == seq![line] + lines_of(rest),
{
    first_line_ends_at_the_newline(line, rest);
    assert forall|i: int| 0 <= i < line.len() implies line[i] != '\n' by {
        assert(line.contains(line[i]));
    }
    lemma_first_newline(line, line.len() as int);
    let unix = line + seq!['\n'] + rest;
    assert forall|i: int| 0 <= i < line.len() implies unix[i] != '\n' by {
        assert(unix[i] == line[i]);
    }
    lemma_first_newline(unix, line.len() as int);
    assert(unix.skip(line.len() as int + 1) =~= rest);
    let dos = line + seq!['\r', '\n'] + rest;
    assert forall|i: int| 0 <= i < line.len() + 1 implies dos[i] != '\n' by {
        if i < line.len() {
            assert(dos[i] == line[i]);
        } else {
            assert(dos[i] == '\r');
        }
    }
    assert(dos[line.len() as int + 1] == '\n');
    lemma_first_newline(dos, line.len() as int + 1);
    assert(dos.skip(line.len() as int + 2) =~= rest);
}

/// A text that is not empty has a line.
pub proof fn some_line_in_a_text(text: Seq<char>)
    ensures
        text.len() > 0 <==> lines_of(text).len() > 0,
{
}

} // verus!
