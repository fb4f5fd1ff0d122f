//! What the logical records of a byte stream are.
//!
//! A line feed ends a record only where the number of quote bytes since the
//! start of the record is even. A line feed inside an open quote is content.
//! What is left at the end of the input, with or without an open quote, is
//! the last record.

use crate::bytes::{byte_absent, count_byte, lemma_count_byte_concat, lemma_count_byte_push};
use vstd::prelude::*;

verus! {

/// The quote byte, `"`.
pub const QUOTE: u8 = 34;

/// The byte that ends a physical line.
pub const LINE_FEED: u8 = 10;

/// `s` holds an even number of quote bytes: no quote is open at its end.
pub open spec fn quotes_balanced(s: Seq<u8>) -> bool {
    count_byte(s, QUOTE) % 2 == 0
}

/// Position `i` of `input` holds a line feed that ends a record which began
/// at the start of `input`.
pub open spec fn ends_record(input: Seq<u8>, i: int) -> bool {
    &&& 0 <= i < input.len()
    &&& input[i] == LINE_FEED
    &&& quotes_balanced(input.take(i))
}

/// Position `i` ends a record and no earlier position does.
pub open spec fn is_first_record_end(input: Seq<u8>, i: int) -> bool {
    &&& ends_record(input, i)
    &&& forall|j: int| 0 <= j < i ==> !ends_record(input, j)
}

/// Some line feed of `input` ends a record.
pub open spec fn has_record_end(input: Seq<u8>) -> bool {
    exists|i: int| ends_record(input, i)
}

/// The position of the line feed that ends the first record of `input`,
/// where there is one.
pub open spec fn first_record_end(input: Seq<u8>) -> int {
    choose|i: int| is_first_record_end(input, i)
}

/// The first record of a non-empty `input`, without the line feed that ends it.
pub open spec fn first_record(input: Seq<u8>) -> Seq<u8> {
    if has_record_end(input) {
        input.take(first_record_end(input))
    } else {
        input
    }
}

/// What is left of `input` after its first record and the line feed that ends it.
pub open spec fn after_first_record(input: Seq<u8>) -> Seq<u8> {
    if has_record_end(input) {
        input.skip(first_record_end(input) + 1)
    } else {
        Seq::empty()
    }
}

/// The logical records of `input`, in order.
pub open spec fn split_records(input: Seq<u8>) -> Seq<Seq<u8>>
    decreases input.len(),
    via split_records_decreases
{
    if input.len() == 0 {
        Seq::empty()
    } else {
        seq![first_record(input)] + split_records(after_first_record(input))
    }
}

#[via_fn]
proof fn split_records_decreases(input: Seq<u8>) {
    if input.len() > 0 && has_record_end(input) {
        lemma_first_record_end(input);
    }
}

/// `s` without its last byte where that byte is a line feed.
pub open spec fn strip_line_feed(s: Seq<u8>) -> Seq<u8> {
    if s.len() > 0 && s.last() == LINE_FEED {
        s.drop_last()
    } else {
        s
    }
}

proof fn lemma_least_record_end(input: Seq<u8>, bound: int)
    requires
        ends_record(input, bound),
    ensures
        exists|i: int| is_first_record_end(input, i),
    decreases bound,
{
    if forall|j: int| 0 <= j < bound ==> !ends_record(input, j) {
        assert(is_first_record_end(input, bound));
    } else {
        let j = choose|j: int| 0 <= j < bound && ends_record(input, j);
        lemma_least_record_end(input, j);
    }
}

/// Where some line feed ends a record, `first_record_end` is the first that does.
pub proof fn lemma_first_record_end(input: Seq<u8>)
    requires
        has_record_end(input),
    ensures
        is_first_record_end(input, first_record_end(input)),
{
    let bound = choose|i: int| ends_record(input, i);
    lemma_least_record_end(input, bound);
}

/// The first record end is the only position that ends a record and has no
/// record end before it.
pub proof fn lemma_first_record_end_is(input: Seq<u8>, end: int)
    requires
        is_first_record_end(input, end),
    ensures
        has_record_end(input),
        first_record_end(input) == end,
{
    let chosen = first_record_end(input);
    assert(is_first_record_end(input, chosen));
    if chosen < end {
        assert(!ends_record(input, chosen));
    }
    if end < chosen {
        assert(!ends_record(input, end));
    }
}
/// `n` is the number of bytes that reading up to the first `delimiter` takes
/// from `rest`: none where `rest` is empty, else everything up to and
/// including the first `delimiter`, or all of `rest` where it holds none.
pub open spec fn is_chunk_len(rest: Seq<u8>, delimiter: u8, n: int) -> bool {
    if rest.len() == 0 {
        n == 0
    } else {
        &&& 1 <= n <= rest.len()
        &&& byte_absent(rest.take(n - 1), delimiter)
        &&& (rest[n - 1] == delimiter || n == rest.len())
    }
}

/// What one more physical line tells about where the first record ends.
///
/// `start` is the input from the beginning of the record, of which `k` bytes
/// were taken without finding the record's end, and the next physical line
/// has `n` bytes.
pub proof fn lemma_physical_line(start: Seq<u8>, k: int, n: int)
    requires
        0 <= k,
        k < start.len(),
        forall|j: int| 0 <= j < k ==> !ends_record(start, j),
        is_chunk_len(start.skip(k), LINE_FEED, n),
    ensures
        1 <= n,
        k + n <= start.len(),
        forall|j: int| 0 <= j < k + n - 1 ==> !ends_record(start, j),
        ends_record(start, k + n - 1) <==> (start[k + n - 1] == LINE_FEED && quotes_balanced(
            start.take(k + n),
        )),
        start[k + n - 1] != LINE_FEED ==> k + n == start.len(),
{
    let rest = start.skip(k);
    assert forall|j: int| 0 <= j < k + n - 1 implies !ends_record(start, j) by {
        if j >= k {
            assert(rest.take(n - 1)[j - k] == start[j]);
        }
    }
    assert(rest[n - 1] == start[k + n - 1]);
    assert(start.take(k + n) =~= start.take(k + n - 1).push(start[k + n - 1]));
    lemma_count_byte_push(start.take(k + n - 1), start[k + n - 1], QUOTE);
}

/// Where no line feed ends a record, the input is one record.
pub proof fn lemma_no_record_end(start: Seq<u8>)
    requires
        forall|j: int| 0 <= j < start.len() ==> !ends_record(start, j),
    ensures
        !has_record_end(start),
        first_record(start) == start,
        after_first_record(start) == Seq::<u8>::empty(),
{
}

/// The physical line that closes the last open quote completes the record.
///
/// `start`, `k` and `n` are as in [`lemma_physical_line`].
pub proof fn lemma_record_complete(start: Seq<u8>, k: int, n: int)
    requires
        0 <= k,
        k < start.len(),
        forall|j: int| 0 <= j < k ==> !ends_record(start, j),
        is_chunk_len(start.skip(k), LINE_FEED, n),
        quotes_balanced(start.take(k + n)),
    ensures
        first_record(start) == strip_line_feed(start.take(k + n)),
        after_first_record(start) == start.skip(k + n),
{
    lemma_physical_line(start, k, n);
    let end = k + n - 1;
    assert(start.take(k + n).last() == start[end]);
    if start[end] == LINE_FEED {
        lemma_first_record_end_is(start, end);
        assert(start.take(k + n).drop_last() =~= start.take(end));
    } else {
        lemma_no_record_end(start);
        assert(start.take(k + n) =~= start);
        assert(start.skip(k + n) =~= Seq::<u8>::empty());
    }
}

/// A physical line that leaves a quote open does not complete the record.
///
/// `start`, `k` and `n` are as in [`lemma_physical_line`].
pub proof fn lemma_record_pending(start: Seq<u8>, k: int, n: int)
    requires
        0 <= k,
        k < start.len(),
        forall|j: int| 0 <= j < k ==> !ends_record(start, j),
        is_chunk_len(start.skip(k), LINE_FEED, n),
        !quotes_balanced(start.take(k + n)),
    ensures
        forall|j: int| 0 <= j < k + n ==> !ends_record(start, j),
{
    lemma_physical_line(start, k, n);
}

/// Behind a prefix in which no quote is left open, a line feed ends a record
/// exactly when it does so with the prefix taken away.
pub proof fn lemma_balanced_prefix(prefix: Seq<u8>, tail: Seq<u8>, i: int)
    requires
        quotes_balanced(prefix),
        0 <= i,
    ensures
        ends_record(prefix + tail, prefix.len() + i) <==> ends_record(tail, i),
{
    if i < tail.len() {
        assert((prefix + tail).take(prefix.len() + i) =~= prefix + tail.take(i));
        lemma_count_byte_concat(prefix, tail.take(i), QUOTE);
    }
}

/// The first record together with its line feed leaves no quote open.
pub proof fn lemma_first_record_balanced(input: Seq<u8>)
    requires
        has_record_end(input),
    ensures
        0 <= first_record_end(input) < input.len(),
        quotes_balanced(input.take(first_record_end(input) + 1)),
        input == input.take(first_record_end(input) + 1) + after_first_record(input),
{
    lemma_first_record_end(input);
    let end = first_record_end(input);
    assert(input.take(end + 1) =~= input.take(end).push(LINE_FEED));
    lemma_count_byte_push(input.take(end), LINE_FEED, QUOTE);
    assert(input =~= input.take(end + 1) + input.skip(end + 1));
}

/// The number of positions below `n` at which a line feed of `input` stands
/// outside quotes, the quotes counted from the start of `input`.
pub open spec fn count_record_ends(input: Seq<u8>, n: int) -> nat
    decreases n,
{
    if n <= 0 {
        0
    } else {
        count_record_ends(input, n - 1) + if ends_record(input, n - 1) {
            1nat
        } else {
            0nat
        }
    }
}

/// The input does not stop at a line feed that stands outside quotes: its
/// last bytes form a line group that no line feed ends.
pub open spec fn has_open_tail(input: Seq<u8>) -> bool {
    input.len() > 0 && !ends_record(input, input.len() - 1)
}

/// The number of quote-balanced line groups of `input`: one for each line
/// feed outside quotes, and one more for what follows the last of them.
pub open spec fn line_group_count(input: Seq<u8>) -> nat {
    count_record_ends(input, input.len() as int) + if has_open_tail(input) {
        1nat
    } else {
        0nat
    }
}

proof fn lemma_count_record_ends_none(input: Seq<u8>, n: int)
    requires
        forall|j: int| 0 <= j < n ==> !ends_record(input, j),
    ensures
        count_record_ends(input, n) == 0,
    decreases n,
{
    if n > 0 {
        lemma_count_record_ends_none(input, n - 1);
    }
}

proof fn lemma_count_record_ends_shift(input: Seq<u8>, m: int)
    requires
        has_record_end(input),
        0 <= m <= after_first_record(input).len(),
    ensures
        count_record_ends(input, first_record_end(input) + 1 + m) == 1 + count_record_ends(
            after_first_record(input),
            m,
        ),
    decreases m,
{
    let end = first_record_end(input);
    lemma_first_record_end(input);
    if m == 0 {
        lemma_count_record_ends_none(input, end);
    } else {
        lemma_count_record_ends_shift(input, m - 1);
        lemma_first_record_balanced(input);
        lemma_balanced_prefix(input.take(end + 1), after_first_record(input), m - 1);
    }
}

/// The number of records equals the number of quote-balanced line groups of
/// the input.
pub proof fn lemma_record_count(input: Seq<u8>)
    ensures
        split_records(input).len() == line_group_count(input),
    decreases input.len(),
{
    if input.len() == 0 {
        assert(count_record_ends(input, 0) == 0);
    } else if has_record_end(input) {
        let end = first_record_end(input);
        let rest = after_first_record(input);
        lemma_first_record_balanced(input);
        lemma_record_count(rest);
        lemma_count_record_ends_shift(input, rest.len() as int);
        assert(input.len() == end + 1 + rest.len());
        if rest.len() > 0 {
            lemma_balanced_prefix(input.take(end + 1), rest, rest.len() - 1);
            assert(has_open_tail(input) == has_open_tail(rest));
        } else {
            lemma_first_record_end(input);
            assert(!has_open_tail(input));
        }
        assert(line_group_count(input) == 1 + line_group_count(rest));
        assert(split_records(input).len() == 1 + split_records(rest).len());
    } else {
        lemma_count_record_ends_none(input, input.len() as int);
        assert(has_open_tail(input));
        assert(split_records(after_first_record(input)).len() == 0);
        assert(split_records(input).len() == 1);
    }
}

/// Records do not reach across a line feed that stands outside quotes: where
/// `head` is empty or stops at such a line feed, the records of `head`
/// followed by `tail` are those of `head` followed by those of `tail`.
pub proof fn lemma_split_records_concat(head: Seq<u8>, tail: Seq<u8>)
    requires
        head.len() == 0 || ends_record(head, head.len() - 1),
    ensures
        split_records(head + tail) == split_records(head) + split_records(tail),
    decreases head.len(),
{
    if head.len() == 0 {
        assert(head + tail =~= tail);
        assert(split_records(head) + split_records(tail) =~= split_records(tail));
    } else {
        let whole = head + tail;
        lemma_first_record_end(head);
        let end = first_record_end(head);
        assert forall|j: int| 0 <= j <= end implies ends_record(whole, j) == ends_record(
            head,
            j,
        ) by {
            assert(whole.take(j) =~= head.take(j));
        }
        lemma_first_record_end_is(whole, end);
        let rest = after_first_record(head);
        assert(after_first_record(whole) =~= rest + tail);
        assert(first_record(whole) =~= first_record(head));
        lemma_first_record_balanced(head);
        if rest.len() > 0 {
            lemma_balanced_prefix(head.take(end + 1), rest, rest.len() - 1);
        }
        lemma_split_records_concat(rest, tail);
        assert(split_records(whole) =~= split_records(head) + split_records(tail));
    }
}

/// A last stretch of input in which no line feed stands outside quotes, as
/// when a quote is opened and never closed, is returned exactly once and as
/// it stands: the line feeds in it are part of the record.
pub proof fn lemma_unclosed_tail_is_one_record(head: Seq<u8>, tail: Seq<u8>)
    requires
        head.len() == 0 || ends_record(head, head.len() - 1),
        tail.len() > 0,
        !has_record_end(tail),
    ensures
        split_records(head + tail) == split_records(head).push(tail),
{
    lemma_split_records_concat(head, tail);
    assert(split_records(after_first_record(tail)) =~= Seq::<Seq<u8>>::empty());
    assert(split_records(tail) =~= seq![tail]);
    assert(split_records(head) + seq![tail] =~= split_records(head).push(tail));
}

/// Taking the first record away makes a non-empty input shorter.
pub proof fn lemma_after_first_record_shorter(input: Seq<u8>)
    requires
        input.len() > 0,
    ensures
        after_first_record(input).len() < input.len(),
{
    if has_record_end(input) {
        lemma_first_record_end(input);
    }
}

/// The length of the first physical line of `input`, its line feed included.
pub open spec fn first_line_len(input: Seq<u8>) -> int {
    choose|n: int| is_chunk_len(input, LINE_FEED, n)
}

/// The physical lines of `input`, in order, each with its line feed. Only
/// the last can be without one.
pub open spec fn physical_lines(input: Seq<u8>) -> Seq<Seq<u8>>
    decreases input.len(),
    via physical_lines_decreases
{
    if input.len() == 0 {
        Seq::empty()
    } else {
        seq![input.take(first_line_len(input))] + physical_lines(
            input.skip(first_line_len(input)),
        )
    }
}

#[via_fn]
proof fn physical_lines_decreases(input: Seq<u8>) {
    lemma_first_line_len(input);
}

proof fn lemma_least_line_feed(input: Seq<u8>, bound: int)
    requires
        0 <= bound < input.len(),
        input[bound] == LINE_FEED,
    ensures
        exists|n: int| is_chunk_len(input, LINE_FEED, n),
    decreases bound,
{
    if byte_absent(input.take(bound), LINE_FEED) {
        assert(is_chunk_len(input, LINE_FEED, bound + 1));
    } else {
        let before = input.take(bound);
        let j = choose|j: int| 0 <= j < before.len() && before[j] == LINE_FEED;
        assert(input[j] == LINE_FEED);
        lemma_least_line_feed(input, j);
    }
}

/// Every input has a first physical line, and only one.
pub proof fn lemma_first_line_len(input: Seq<u8>)
    ensures
        is_chunk_len(input, LINE_FEED, first_line_len(input)),
        forall|n: int| is_chunk_len(input, LINE_FEED, n) ==> n == first_line_len(input),
{
    if input.len() == 0 {
        assert(is_chunk_len(input, LINE_FEED, 0));
    } else if byte_absent(input, LINE_FEED) {
        assert(byte_absent(input.take(input.len() - 1), LINE_FEED));
        assert(is_chunk_len(input, LINE_FEED, input.len() as int));
    } else {
        let bound = choose|j: int| 0 <= j < input.len() && input[j] == LINE_FEED;
        lemma_least_line_feed(input, bound);
    }
    let first = first_line_len(input);
    assert forall|n: int| is_chunk_len(input, LINE_FEED, n) implies n == first by {
        if input.len() > 0 {
            if n < first {
                assert(input.take(first - 1)[n - 1] == input[n - 1]);
            }
            if first < n {
                assert(input.take(n - 1)[first - 1] == input[first - 1]);
            }
        }
    }
}

/// The records that come out when `lines` are handed, one after the other,
/// to an assembler that holds `held`, and the input is then ended: a line
/// that closes every open quote completes a record, any other line is kept,
/// and what is held at the end is the last record.
pub open spec fn assembled(held: Seq<u8>, lines: Seq<Seq<u8>>) -> Seq<Seq<u8>>
    decreases lines.len(),
{
    if lines.len() == 0 {
        if held.len() == 0 {
            Seq::empty()
        } else {
            seq![held]
        }
    } else if quotes_balanced(held + lines.first()) {
        seq![strip_line_feed(held + lines.first())] + assembled(Seq::empty(), lines.drop_first())
    } else {
        assembled(held + lines.first(), lines.drop_first())
    }
}

proof fn lemma_assembled_from(held: Seq<u8>, rest: Seq<u8>)
    requires
        forall|j: int| 0 <= j < held.len() ==> !ends_record(held + rest, j),
    ensures
        assembled(held, physical_lines(rest)) == split_records(held + rest),
    decreases rest.len(),
{
    let start = held + rest;
    if rest.len() == 0 {
        assert(start =~= held);
        if held.len() > 0 {
            lemma_no_record_end(held);
            assert(split_records(after_first_record(held)) =~= Seq::<Seq<u8>>::empty());
            assert(split_records(held) =~= seq![held]);
        }
    } else {
        lemma_first_line_len(rest);
        let k = held.len() as int;
        let n = first_line_len(rest);
        let line = rest.take(n);
        let after = rest.skip(n);
        let lines = physical_lines(rest);
        assert(lines.first() == line);
        assert(lines.drop_first() =~= physical_lines(after));
        assert(start.skip(k) =~= rest);
        assert(held + line =~= start.take(k + n));
        assert(start.skip(k + n) =~= after);
        if quotes_balanced(held + line) {
            lemma_record_complete(start, k, n);
            lemma_assembled_from(Seq::empty(), after);
            assert(Seq::<u8>::empty() + after =~= after);
        } else {
            lemma_record_pending(start, k, n);
            assert((held + line) + after =~= start);
            lemma_assembled_from(held + line, after);
        }
    }
}

/// Handing the physical lines of an input to an assembler, one after the
/// other, and ending the input behind the last gives the records of the
/// input.
pub proof fn lemma_assembled_lines(input: Seq<u8>)
    ensures
        assembled(Seq::empty(), physical_lines(input)) == split_records(input),
{
    lemma_assembled_from(Seq::empty(), input);
    assert(Seq::<u8>::empty() + input =~= input);
}

} // verus!
