//! Equality, order and sorting of strings.

use vstd::prelude::*;
use vstd::utf8::{encode_utf8, encode_utf8_decode_utf8};

verus! {

/// Two strings with the same UTF-8 bytes hold the same characters.
pub proof fn lemma_utf8_injective(a: Seq<char>, b: Seq<char>)
    requires
        encode_utf8(a) == encode_utf8(b),
    ensures
        a == b,
{
    encode_utf8_decode_utf8(a);
    encode_utf8_decode_utf8(b);
}

/// Whether two byte slices hold the same bytes.
pub fn bytes_eq(a: &[u8], b: &[u8]) -> (r: bool)
    ensures
        r == (a@ == b@),
{
    if a.len() != b.len() {
        return false;
    }
    let mut i: usize = 0;
    while i < a.len()
        invariant
            i <= a.len(),
            a.len() == b.len(),
            forall|j: int| 0 <= j < i ==> a@[j] == b@[j],
        decreases a.len() - i,
    {
        if a[i] != b[i] {
            return false;
        }
        i += 1;
    }
    assert(a@ =~= b@);
    true
}

/// Whether two strings hold the same characters.
pub fn str_eq(a: &str, b: &str) -> (r: bool)
    ensures
        r == (a@ == b@),
{
    let r = bytes_eq(a.as_bytes(), b.as_bytes());
    proof {
        if r {
            lemma_utf8_injective(a@, b@);
        }
    }
    r
}

/// Lexicographic order of byte sequences: a proper prefix comes first.
pub open spec fn bytes_before(a: Seq<u8>, b: Seq<u8>) -> bool
    decreases a.len(),
{
    if b.len() == 0 {
        false
    } else if a.len() == 0 {
        true
    } else if a[0] != b[0] {
        a[0] < b[0]
    } else {
        bytes_before(a.drop_first(), b.drop_first())
    }
}

/// The order of strings: that of their UTF-8 bytes.
pub open spec fn str_before(a: Seq<char>, b: Seq<char>) -> bool {
    bytes_before(encode_utf8(a), encode_utf8(b))
}

/// `a` comes before `b`, or they are equal.
pub open spec fn str_le(a: Seq<char>, b: Seq<char>) -> bool {
    !str_before(b, a)
}

proof fn lemma_bytes_before_total(a: Seq<u8>, b: Seq<u8>)
    ensures
        bytes_before(a, b) || bytes_before(b, a) || a == b,
        !(bytes_before(a, b) && bytes_before(b, a)),
        !bytes_before(a, a),
    decreases a.len(),
{
    if a.len() == 0 || b.len() == 0 {
        if a.len() == 0 && b.len() == 0 {
            assert(a =~= b);
        }
    } else {
        lemma_bytes_before_total(a.drop_first(), b.drop_first());
        if a[0] == b[0] && a.drop_first() == b.drop_first() {
            assert(a =~= seq![a[0]] + a.drop_first());
            assert(b =~= seq![b[0]] + b.drop_first());
        }
    }
    if a.len() > 0 {
        lemma_bytes_before_total(a.drop_first(), a.drop_first());
    }
}

proof fn lemma_bytes_before_transitive(a: Seq<u8>, b: Seq<u8>, c: Seq<u8>)
    requires
        bytes_before(a, b),
        bytes_before(b, c),
    ensures
        bytes_before(a, c),
    decreases a.len(),
{
    if a.len() > 0 && b.len() > 0 && c.len() > 0 && a[0] == b[0] && b[0] == c[0] {
        lemma_bytes_before_transitive(a.drop_first(), b.drop_first(), c.drop_first());
    }
}

/// The order of strings is total: of two different strings exactly one comes before the
/// other, and none comes before itself.
pub proof fn str_before_is_total(a: Seq<char>, b: Seq<char>)
    ensures
        str_before(a, b) || str_before(b, a) || a == b,
        !(str_before(a, b) && str_before(b, a)),
        !str_before(a, a),
{
    lemma_bytes_before_total(encode_utf8(a), encode_utf8(b));
    lemma_bytes_before_total(encode_utf8(a), encode_utf8(a));
    if encode_utf8(a) == encode_utf8(b) {
        lemma_utf8_injective(a, b);
    }
}

/// The order of strings is transitive.
pub proof fn str_before_is_transitive(a: Seq<char>, b: Seq<char>, c: Seq<char>)
    requires
        str_before(a, b),
        str_before(b, c),
    ensures
        str_before(a, c),
{
    lemma_bytes_before_transitive(encode_utf8(a), encode_utf8(b), encode_utf8(c));
}

proof fn lemma_bytes_before_at(a: Seq<u8>, b: Seq<u8>, i: int)
    requires
        0 <= i <= a.len(),
        i <= b.len(),
        a.subrange(0, i) == b.subrange(0, i),
    ensures
        bytes_before(a, b) == bytes_before(a.subrange(i, a.len() as int), b.subrange(i, b.len() as int)),
    decreases i,
{
    if i == 0 {
        assert(a.subrange(0, a.len() as int) =~= a);
        assert(b.subrange(0, b.len() as int) =~= b);
    } else {
        assert(a[0] == a.subrange(0, i)[0] && b[0] == b.subrange(0, i)[0]);
        let a1 = a.drop_first();
        let b1 = b.drop_first();
        assert(a1.subrange(0, i - 1) =~= a.subrange(0, i).drop_first());
        assert(b1.subrange(0, i - 1) =~= b.subrange(0, i).drop_first());
        lemma_bytes_before_at(a1, b1, i - 1);
        assert(a1.subrange(i - 1, a1.len() as int) =~= a.subrange(i, a.len() as int));
        assert(b1.subrange(i - 1, b1.len() as int) =~= b.subrange(i, b.len() as int));
    }
}

/// Whether `a` comes before `b`.
pub fn str_lt(a: &str, b: &str) -> (r: bool)
    ensures
        r == str_before(a@, b@),
{
    let x = a.as_bytes();
    let y = b.as_bytes();
    let mut i: usize = 0;
    while i < x.len() && i < y.len()
        invariant
            i <= x.len(),
            i <= y.len(),
            x@ == encode_utf8(a@),
            y@ == encode_utf8(b@),
            x@.subrange(0, i as int) == y@.subrange(0, i as int),
        decreases x.len() - i,
    {
        if x[i] != y[i] {
            proof {
                lemma_bytes_before_at(x@, y@, i as int);
            }
            return x[i] < y[i];
        }
        proof {
            assert(x@.subrange(0, i + 1) =~= x@.subrange(0, i as int).push(x@[i as int]));
            assert(y@.subrange(0, i + 1) =~= y@.subrange(0, i as int).push(y@[i as int]));
        }
        i += 1;
    }
    proof {
        lemma_bytes_before_at(x@, y@, i as int);
    }
    i < y.len()
}

/// `String::push` appends the character to the end of the string.
pub assume_specification[ String::push ](s: &mut String, ch: char)
    ensures
        final(s)@ == old(s)@.push(ch),
;

/// The characters of a string.
pub fn to_chars(s: &str) -> (r: Vec<char>)
    ensures
        r@ == s@,
{
    let mut out: Vec<char> = Vec::new();
    for c in it: s.chars()
        invariant
            it.seq() == s@,
            out@ == s@.take(it.index() as int),
    {
        out.push(c);
        assert(out@ =~= s@.take(it.index() + 1));
    }
    assert(out@ =~= s@);
    out
}

/// The string made of the characters from one place of a list up to another.
pub fn from_chars(chars: &Vec<char>, from: usize, to: usize) -> (r: String)
    requires
        from <= to <= chars.len(),
    ensures
        r@ == chars@.subrange(from as int, to as int),
{
    let mut out = String::new();
    let mut i: usize = from;
    assert(out@ =~= chars@.subrange(from as int, i as int));
    while i < to
        invariant
            from <= i <= to <= chars.len(),
            out@ == chars@.subrange(from as int, i as int),
        decreases to - i,
    {
        out.push(chars[i]);
        assert(out@ =~= chars@.subrange(from as int, i + 1));
        i += 1;
    }
    out
}

/// The last place of a character in a list.
pub open spec fn last_place(chars: Seq<char>, c: char) -> Option<int>
    decreases chars.len(),
{
    if chars.len() == 0 {
        None
    } else if chars.last() == c {
        Some(chars.len() - 1)
    } else {
        last_place(chars.drop_last(), c)
    }
}

/// Finds the last place of a character in a list.
pub fn find_last(chars: &Vec<char>, c: char) -> (r: Option<usize>)
    ensures
        r is Some == last_place(chars@, c) is Some,
        r is Some ==> r->0 as int == last_place(chars@, c)->0 && r->0 < chars.len(),
{
    let mut n: usize = chars.len();
    assert(chars@.take(n as int) =~= chars@);
    while n > 0
        invariant
            n <= chars.len(),
            last_place(chars@.take(n as int), c) == last_place(chars@, c),
        decreases n,
    {
        assert(chars@.take(n as int).last() == chars@[n - 1]);
        assert(chars@.take(n as int).drop_last() =~= chars@.take(n - 1));
        if chars[n - 1] == c {
            return Some(n - 1);
        }
        n -= 1;
    }
    None
}

/// The characters of each string of a list.
pub open spec fn views(list: Seq<String>) -> Seq<Seq<char>> {
    list.map_values(|s: String| s@)
}

/// Each string of the list comes before all that follow it or equals them.
pub open spec fn is_sorted(list: Seq<Seq<char>>) -> bool {
    forall|i: int, j: int| 0 <= i < j < list.len() ==> str_le(#[trigger] list[i], #[trigger] list[j])
}

/// Sorts a list of strings: the same strings, in order.
pub fn sort_strings(list: Vec<String>) -> (r: Vec<String>)
    ensures
        is_sorted(views(r@)),
        views(r@).to_multiset() == views(list@).to_multiset(),
{
    let mut out: Vec<String> = Vec::new();
    let mut i: usize = 0;
    assert(views(out@) =~= views(list@).take(0));
    while i < list.len()
        invariant
            i <= list.len(),
            is_sorted(views(out@)),
            views(out@).to_multiset() == views(list@).take(i as int).to_multiset(),
        decreases list.len() - i,
    {
        let mut at: usize = out.len();
        while at > 0 && str_lt(list[i].as_str(), out[at - 1].as_str())
            invariant
                i < list.len(),
                at <= out.len(),
                forall|j: int| at <= j < out.len() ==> str_before(list@[i as int]@, #[trigger] out@[j]@),
            decreases at,
        {
            at -= 1;
        }
        let ghost before = views(out@);
        let item = list[i].clone();
        out.insert(at, item);
        proof {
            let x = list@[i as int]@;
            assert(views(out@) =~= before.insert(at as int, x));
            vstd::seq_lib::to_multiset_insert(before, at as int, x);
            assert(views(list@).take(i + 1) =~= views(list@).take(i as int).push(x));
            vstd::seq_lib::to_multiset_build(views(list@).take(i as int), x);
            let now = views(out@);
            assert forall|p: int, q: int| 0 <= p < q < now.len() implies str_le(
                #[trigger] now[p],
                #[trigger] now[q],
            ) by {
                str_before_is_total(x, x);
                if q < at {
                    assert(now[p] == before[p] && now[q] == before[q]);
                } else if p > at {
                    assert(now[p] == before[p - 1] && now[q] == before[q - 1]);
                } else if p == at {
                    assert(now[q] == before[q - 1]);
                    str_before_is_total(x, before[q - 1]);
                } else if q == at {
                    let y = before[at - 1];
                    str_before_is_total(x, y);
                    if p < at - 1 {
                        assert(str_le(before[p], y));
                        str_before_is_total(before[p], y);
                        str_before_is_total(x, before[p]);
                        if str_before(x, before[p]) {
                            if before[p] != y {
                                str_before_is_transitive(x, before[p], y);
                            }
                        }
                    }
                } else {
                    assert(now[p] == before[p] && now[q] == before[q - 1]);
                }
            }
        }
        i += 1;
    }
    assert(views(list@).take(list@.len() as int) =~= views(list@));
    out
}

/// The character of a decimal digit.
pub open spec fn digit_char(d: nat) -> char {
    if d == 0 {
        '0'
    } else if d == 1 {
        '1'
    } else if d == 2 {
        '2'
    } else if d == 3 {
        '3'
    } else if d == 4 {
        '4'
    } else if d == 5 {
        '5'
    } else if d == 6 {
        '6'
    } else if d == 7 {
        '7'
    } else if d == 8 {
        '8'
    } else {
        '9'
    }
}

/// A number in decimal digits.
pub open spec fn decimal(n: nat) -> Seq<char>
    decreases n,
{
    if n < 10 {
        seq![digit_char(n)]
    } else {
        decimal(n / 10).push(digit_char(n % 10))
    }
}

fn digit(d: u64) -> (r: char)
    requires
        d < 10,
    ensures
        r == digit_char(d as nat),
{
    if d == 0 {
        '0'
    } else if d == 1 {
        '1'
    } else if d == 2 {
        '2'
    } else if d == 3 {
        '3'
    } else if d == 4 {
        '4'
    } else if d == 5 {
        '5'
    } else if d == 6 {
        '6'
    } else if d == 7 {
        '7'
    } else if d == 8 {
        '8'
    } else {
        '9'
    }
}

/// Writes a number in decimal digits.
pub fn to_decimal(n: u64) -> (r: String)
    ensures
        r@ == decimal(n as nat),
    decreases n,
{
    if n < 10 {
        let mut out = String::new();
        out.push(digit(n));
        assert(out@ =~= seq![digit_char(n as nat)]);
        out
    } else {
        let mut out = to_decimal(n / 10);
        out.push(digit(n % 10));
        out
    }
}

/// The list holds each string of the set once, in order.
pub open spec fn lists_in_order(list: Seq<Seq<char>>, set: Set<Seq<char>>) -> bool {
    is_sorted(list) && list.no_duplicates() && list.to_set() == set
}

/// The strings of a set, in order.
pub open spec fn in_order(set: Set<Seq<char>>) -> Seq<Seq<char>> {
    choose|list: Seq<Seq<char>>| lists_in_order(list, set)
}

/// A set of strings is listed in order in one way only.
pub proof fn order_is_unique(a: Seq<Seq<char>>, b: Seq<Seq<char>>, set: Set<Seq<char>>)
    requires
        lists_in_order(a, set),
        lists_in_order(b, set),
    ensures
        a == b,
{
    let leq = |x: Seq<char>, y: Seq<char>| str_le(x, y);
    assert forall|x: Seq<char>, y: Seq<char>, z: Seq<char>| #[trigger] leq(x, y) && #[trigger] leq(y, z) implies leq(
        x,
        z,
    ) by {
        str_before_is_total(x, y);
        str_before_is_total(y, z);
        str_before_is_total(x, z);
        if x != y && y != z {
            str_before_is_transitive(x, y, z);
        }
    }
    assert forall|x: Seq<char>, y: Seq<char>| #[trigger] leq(x, y) && #[trigger] leq(y, x) implies x == y by {
        str_before_is_total(x, y);
    }
    assert forall|x: Seq<char>| #[trigger] leq(x, x) by {
        str_before_is_total(x, x);
    }
    assert forall|x: Seq<char>, y: Seq<char>| #[trigger] leq(x, y) || #[trigger] leq(y, x) by {
        str_before_is_total(x, y);
    }
    assert(vstd::relations::total_ordering(leq));
    assert forall|i: int, j: int| 0 <= i < j < a.len() implies #[trigger] leq(a[i], a[j]) by {}
    assert forall|i: int, j: int| 0 <= i < j < b.len() implies #[trigger] leq(b[i], b[j]) by {}
    a.lemma_multiset_has_no_duplicates();
    b.lemma_multiset_has_no_duplicates();
    assert forall|x: Seq<char>| a.to_multiset().count(x) == b.to_multiset().count(x) by {
        vstd::seq_lib::to_multiset_contains(a, x);
        vstd::seq_lib::to_multiset_contains(b, x);
        assert(a.contains(x) <==> a.to_set().contains(x));
        assert(b.contains(x) <==> b.to_set().contains(x));
        if a.contains(x) {
            assert(a.to_multiset().contains(x) && b.to_multiset().contains(x));
        } else {
            assert(!a.to_multiset().contains(x) && !b.to_multiset().contains(x));
        }
    }
    assert(a.to_multiset() =~= b.to_multiset());
    vstd::seq_lib::lemma_sorted_unique(a, b, leq);
}

/// Sorts a list of different strings.
pub fn sort_set(list: Vec<String>) -> (r: Vec<String>)
    requires
        views(list@).no_duplicates(),
    ensures
        views(r@) == in_order(views(list@).to_set()),
        lists_in_order(views(r@), views(list@).to_set()),
{
    let ghost before = views(list@);
    let r = sort_strings(list);
    proof {
        let after = views(r@);
        before.lemma_multiset_has_no_duplicates();
        after.lemma_multiset_has_no_duplicates_conv();
        assert forall|x: Seq<char>| after.to_set().contains(x) <==> before.to_set().contains(x) by {
            vstd::seq_lib::to_multiset_contains(after, x);
            vstd::seq_lib::to_multiset_contains(before, x);
        }
        assert(after.to_set() =~= before.to_set());
        assert(lists_in_order(after, before.to_set()));
        order_is_unique(after, in_order(before.to_set()), before.to_set());
    }
    r
}

} // verus!
