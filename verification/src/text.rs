//! What the bytes of one file say: whether they are text, how many lines they hold, and
//! a fingerprint of them.

use vstd::prelude::*;

verus! {

/// How far into a file a null byte is looked for.
pub const BINARY_SCAN_LEN: usize = 8192;

/// The value of a `u32` counter that was advanced `n` times from zero: counters wrap.
pub open spec fn u32_of(n: nat) -> u32 {
    (n % 0x1_0000_0000) as u32
}

/// Advancing a counter by the value of another adds up what they stand for.
pub proof fn lemma_u32_of_sum(a: nat, b: nat)
    ensures
        vstd::wrapping::u32_specs::wrapping_add(u32_of(a), u32_of(b)) == u32_of(a + b),
{
    assert((a + b) % 0x1_0000_0000 == (a % 0x1_0000_0000 + b % 0x1_0000_0000) % 0x1_0000_0000) by (nonlinear_arith);
}

/// How often a byte occurs.
pub open spec fn occurrences(bytes: Seq<u8>, byte: u8) -> nat {
    bytes.filter(|b: u8| b == byte).len()
}

/// Calls `bytecount::count`: the number of positions of `bytes` that hold `byte`.
#[verifier::external_body]
fn count_byte(bytes: &[u8], byte: u8) -> (r: usize)
    ensures
        r == occurrences(bytes@, byte),
{
    bytecount::count(bytes, byte)
}

/// Whether a null byte stands near the start of the content.
pub open spec fn looks_binary(content: Seq<u8>) -> bool {
    exists|i: int| 0 <= i < content.len() && i < BINARY_SCAN_LEN && content[i] == 0
}

/// Check if content looks binary by scanning for null bytes in the first 8KB.
pub fn is_binary(content: &[u8]) -> (r: bool)
    ensures
        r == looks_binary(content@),
{
    let mut i: usize = 0;
    while i < content.len() && i < BINARY_SCAN_LEN
        invariant
            i <= content.len(),
            i <= BINARY_SCAN_LEN,
            forall|j: int| 0 <= j < i ==> content@[j] != 0,
        decreases content.len() - i,
    {
        if content[i] == 0 {
            return true;
        }
        i += 1;
    }
    false
}

/// The number of lines: one per newline, and one for a trailing fragment without one.
pub open spec fn line_count(content: Seq<u8>) -> nat {
    if content.len() == 0 {
        0
    } else {
        occurrences(content, 10) + if content.last() == 10 {
            0nat
        } else {
            1
        }
    }
}

/// Count lines the way `diff --stat` does: a trailing fragment without a final newline
/// still counts as a line.
pub fn count_lines(content: &[u8]) -> (r: u32)
    ensures
        r == u32_of(line_count(content@)),
{
    if content.len() == 0 {
        return 0;
    }
    let newlines: usize = count_byte(content, 10);
    let low: u32 = (newlines as u64 % 0x1_0000_0000) as u32;
    if content[content.len() - 1] == 10 {
        low
    } else {
        proof {
            lemma_u32_of_sum(newlines as nat, 1);
        }
        low.wrapping_add(1)
    }
}

/// One step of the fingerprint: a byte is mixed in and the sum is spread.
pub open spec fn fnv_step(hash: u64, byte: u8) -> u64 {
    vstd::wrapping::u64_specs::wrapping_mul(hash ^ (byte as u64), 0x100000001b3)
}

/// FNV-1a, 64 bit.
pub open spec fn fnv1a(content: Seq<u8>) -> u64 {
    content.fold_left(0xcbf29ce484222325u64, |hash: u64, byte: u8| fnv_step(hash, byte))
}

/// The fingerprint of a content; an empty content has none.
pub open spec fn fingerprint(content: Seq<u8>) -> Option<u64> {
    if content.len() == 0 {
        None
    } else {
        Some(fnv1a(content))
    }
}

/// FNV-1a over content: a stable fingerprint for exact-rename pairing.
pub fn content_fingerprint(content: &[u8]) -> (r: Option<u64>)
    ensures
        r == fingerprint(content@),
{
    if content.len() == 0 {
        return None;
    }
    let mut hash: u64 = 0xcbf29ce484222325;
    let mut i: usize = 0;
    while i < content.len()
        invariant
            i <= content.len(),
            hash == fnv1a(content@.take(i as int)),
        decreases content.len() - i,
    {
        proof {
            let prefix = content@.take(i + 1);
            assert(prefix.drop_last() =~= content@.take(i as int));
            assert(prefix.last() == content@[i as int]);
        }
        hash = (hash ^ (content[i] as u64)).wrapping_mul(0x100000001b3);
        i += 1;
    }
    assert(content@.take(content@.len() as int) =~= content@);
    Some(hash)
}

proof fn lemma_occurrences_concat(a: Seq<u8>, b: Seq<u8>, byte: u8)
    ensures
        occurrences(a + b, byte) == occurrences(a, byte) + occurrences(b, byte),
{
    Seq::filter_distributes_over_add(a, b, |x: u8| x == byte);
}

/// The lines of two contents add up where the first ends at a line's end.
pub proof fn line_count_concat(a: Seq<u8>, b: Seq<u8>)
    requires
        a.len() == 0 || a.last() == 10 || b.len() == 0,
    ensures
        line_count(a + b) == line_count(a) + line_count(b),
{
    lemma_occurrences_concat(a, b, 10);
    if b.len() == 0 {
        assert(a + b =~= a);
    } else {
        assert((a + b).last() == b.last());
        if a.len() == 0 {
            assert(a + b =~= b);
        }
    }
}

} // verus!
