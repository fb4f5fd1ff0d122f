//! Counting and finding bytes.

use vstd::prelude::*;

verus! {

/// The number of positions of `s` that hold `needle`.
pub open spec fn count_byte(s: Seq<u8>, needle: u8) -> nat
    decreases s.len(),
{
    if s.len() == 0 {
        0
    } else {
        count_byte(s.drop_last(), needle) + if s.last() == needle {
            1nat
        } else {
            0nat
        }
    }
}

/// `needle` does not occur in `s`.
pub open spec fn byte_absent(s: Seq<u8>, needle: u8) -> bool {
    forall|i: int| 0 <= i < s.len() ==> s[i] != needle
}

/// Counting over two pieces laid end to end adds the two counts.
pub proof fn lemma_count_byte_concat(a: Seq<u8>, b: Seq<u8>, needle: u8)
    ensures
        count_byte(a + b, needle) == count_byte(a, needle) + count_byte(b, needle),
    decreases b.len(),
{
    if b.len() == 0 {
        assert(a + b =~= a);
    } else {
        assert((a + b).drop_last() =~= a + b.drop_last());
        lemma_count_byte_concat(a, b.drop_last(), needle);
    }
}

/// A one-byte extension raises the count by one exactly when the byte is the needle.
pub proof fn lemma_count_byte_push(s: Seq<u8>, b: u8, needle: u8)
    ensures
        count_byte(s.push(b), needle) == count_byte(s, needle) + if b == needle {
            1nat
        } else {
            0nat
        },
{
    assert(s.push(b).drop_last() =~= s);
}

/// `bytecount::count`: the number of bytes of `haystack` equal to `needle`.
#[verifier::external_body]
pub(crate) fn count_occurrences(haystack: &[u8], needle: u8) -> (n: usize)
    ensures
        n == count_byte(haystack@, needle),
{
    bytecount::count(haystack, needle)
}

/// `memchr::memchr`: the index of the first byte of `haystack` equal to
/// `needle`, or `None` where there is none.
#[verifier::external_body]
pub(crate) fn find_byte(needle: u8, haystack: &[u8]) -> (found: Option<usize>)
    ensures
        match found {
            Some(i) => i < haystack.len() && haystack[i as int] == needle && byte_absent(
                haystack@.take(i as int),
                needle,
            ),
            None => byte_absent(haystack@, needle),
        },
{
    memchr::memchr(needle, haystack)
}

} // verus!
