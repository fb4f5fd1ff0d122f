//! Readers that take logical records, or physical lines, from bytes.

use crate::bytes::{count_occurrences, find_byte, lemma_count_byte_concat, lemma_count_byte_push};
use crate::records::{
    after_first_record, ends_record, first_record, is_chunk_len, lemma_after_first_record_shorter,
    lemma_first_record_end_is, lemma_no_record_end, lemma_record_complete, lemma_record_count,
    lemma_record_pending, line_group_count, quotes_balanced, split_records, strip_line_feed,
    LINE_FEED, QUOTE,
};
use crate::text::{decode_lossy, lossy_text, utf8_text};
use vstd::prelude::*;
use vstd::string::StringExecFns;
use vstd::utf8::*;

verus! {

/// A reader over bytes held in memory.
pub struct MemoryBufferedReader<'a> {
    data: &'a [u8],
    position: usize,
}

impl<'a> MemoryBufferedReader<'a> {
    /// The reader's position lies within its data.
    #[verifier::type_invariant]
    spec fn within_data(&self) -> bool {
        self.position <= self.data@.len()
    }

    /// The bytes that have not been read yet.
    pub closed spec fn remaining(&self) -> Seq<u8> {
        self.data@.skip(self.position as int)
    }

    /// A reader at the start of `buffer`. A reader over memory needs no
    /// buffer of its own, so `buffer_capacity` has no effect on what is read.
    pub fn new(buffer: &'a [u8], buffer_capacity: usize) -> (reader: Self)
        ensures
            reader.remaining() == buffer@,
    {
        let reader = Self { data: buffer, position: 0 };
        assert(reader.remaining() =~= buffer@);
        reader
    }

    /// Appends to `buf` the unread bytes up to and including the first
    /// `delimiter`, or all of them where there is none, and returns how many
    /// were appended. Zero means that the end had been reached.
    pub fn read_until(&mut self, delimiter: u8, buf: &mut Vec<u8>) -> (n: usize)
        ensures
            is_chunk_len(old(self).remaining(), delimiter, n as int),
            final(buf)@ == old(buf)@ + old(self).remaining().take(n as int),
            final(self).remaining() == old(self).remaining().skip(n as int),
    {
        proof {
            use_type_invariant(&*self);
        }
        let rest = vstd::slice::slice_subrange(self.data, self.position, self.data.len());
        assert(rest@ =~= self.remaining());
        let n = match find_byte(delimiter, rest) {
            Some(i) => i + 1,
            None => rest.len(),
        };
        let chunk = vstd::slice::slice_subrange(rest, 0, n);
        buf.extend_from_slice(chunk);
        self.position = self.position + n;
        assert(buf@ =~= old(buf)@ + old(self).remaining().take(n as int));
        assert(self.remaining() =~= old(self).remaining().skip(n as int));
        n
    }

    /// Fills `block` from its start with unread bytes, as many as it has room
    /// for, and returns how many were written. Zero means that the end had
    /// been reached or that `block` is empty.
    pub fn read(&mut self, block: &mut Vec<u8>) -> (n: usize)
        ensures
            n == vstd::math::min(old(block)@.len() as int, old(self).remaining().len() as int),
            final(block)@ == old(self).remaining().take(n as int) + old(block)@.skip(n as int),
            final(self).remaining() == old(self).remaining().skip(n as int),
    {
        proof {
            use_type_invariant(&*self);
        }
        let available = self.data.len() - self.position;
        let n = if block.len() < available {
            block.len()
        } else {
            available
        };
        let mut i: usize = 0;
        while i < n
            invariant
                i <= n,
                n <= block@.len(),
                block@.len() == old(block)@.len(),
                self.position + n <= self.data@.len() <= usize::MAX,
                *self == *old(self),
                forall|j: int| 0 <= j < i ==> block@[j] == self.data@[self.position + j],
                forall|j: int| i <= j < block@.len() ==> block@[j] == old(block)@[j],
            decreases n - i,
        {
            block.set(i, self.data[self.position + i]);
            i += 1;
        }
        self.position = self.position + n;
        assert(block@ =~= old(self).remaining().take(n as int) + old(block)@.skip(n as int));
        assert(self.remaining() =~= old(self).remaining().skip(n as int));
        n
    }
}

/// The state of a record that is being put together from physical lines.
///
/// This is the part of record reading that decides; it reads nothing itself.
/// A caller that reads physical lines from any source hands each line to
/// [`RecordAssembler::push_line`] and, once the source is exhausted, calls
/// [`RecordAssembler::finish`].
pub struct RecordAssembler {
    pending: Vec<u8>,
    open_quote: bool,
}

impl RecordAssembler {
    /// The quote state that is kept matches the bytes that are held.
    pub closed spec fn wf(&self) -> bool {
        self.open_quote == !quotes_balanced(self.pending@)
    }

    /// The bytes of the record under construction.
    pub closed spec fn pending(&self) -> Seq<u8> {
        self.pending@
    }

    /// An assembler that holds nothing.
    pub fn new() -> (assembler: Self)
        ensures
            assembler.wf(),
            assembler.pending() == Seq::<u8>::empty(),
    {
        Self { pending: Vec::new(), open_quote: false }
    }

    /// Takes the next physical line, its line feed included where it has
    /// one. Returns the finished record, without its final line feed, where
    /// the line closes every quote that is open; else keeps the line and
    /// returns `None`.
    pub fn push_line(&mut self, chunk: &[u8]) -> (record: Option<Vec<u8>>)
        requires
            old(self).wf(),
        ensures
            final(self).wf(),
            match record {
                Some(bytes) => {
                    &&& quotes_balanced(old(self).pending() + chunk@)
                    &&& bytes@ == strip_line_feed(old(self).pending() + chunk@)
                    &&& final(self).pending() == Seq::<u8>::empty()
                },
                None => {
                    &&& !quotes_balanced(old(self).pending() + chunk@)
                    &&& final(self).pending() == old(self).pending() + chunk@
                },
            },
    {
        self.pending.extend_from_slice(chunk);
        assert(self.pending@ =~= old(self).pending@ + chunk@);
        proof {
            lemma_count_byte_concat(old(self).pending@, chunk@, QUOTE);
        }
        if count_occurrences(chunk, QUOTE) % 2 == 1 {
            self.open_quote = !self.open_quote;
        }
        if self.open_quote {
            None
        } else {
            let mut record: Vec<u8> = Vec::new();
            std::mem::swap(&mut record, &mut self.pending);
            if record.len() > 0 && record[record.len() - 1] == LINE_FEED {
                record.pop();
            }
            assert(record@ =~= strip_line_feed(old(self).pending@ + chunk@));
            Some(record)
        }
    }

    /// Ends the input. What is held, if anything, is the last record: it is
    /// returned as it stands, an open quote and line feeds included.
    pub fn finish(&mut self) -> (record: Option<Vec<u8>>)
        requires
            old(self).wf(),
        ensures
            final(self).wf(),
            final(self).pending() == Seq::<u8>::empty(),
            old(self).pending().len() == 0 ==> record is None,
            old(self).pending().len() > 0 ==> record is Some && record->Some_0@ == old(
                self,
            ).pending(),
    {
        let mut record: Vec<u8> = Vec::new();
        std::mem::swap(&mut record, &mut self.pending);
        self.open_quote = false;
        if record.len() == 0 {
            None
        } else {
            Some(record)
        }
    }
}

/// Reads logical records from bytes held in memory, one physical line at a
/// time, and tells from the quotes of each new line alone whether the record
/// is complete.
pub struct OptimizedQuoteAwareReader<'a> {
    reader: MemoryBufferedReader<'a>,
    buf: Vec<u8>,
}

impl<'a> OptimizedQuoteAwareReader<'a> {
    /// The bytes that have not been read yet.
    pub closed spec fn remaining(&self) -> Seq<u8> {
        self.reader.remaining()
    }

    /// A reader at the start of `input`. `capacity` is the size of the read
    /// buffer that a reader over a file would use; it has no effect on the
    /// records.
    pub fn new(input: &'a [u8], capacity: usize) -> (reader: Self)
        ensures
            reader.remaining() == input@,
    {
        Self { reader: MemoryBufferedReader::new(input, capacity), buf: Vec::new() }
    }

    /// The next logical record, or `None` at the end of the input.
    ///
    /// The record ends at the first line feed that is preceded by an even
    /// number of quotes, and that line feed is not part of it. Where there
    /// is no such line feed the record is all that is left, as it stands.
    pub fn next_logical_line(&mut self) -> (record: Option<Vec<u8>>)
        ensures
            old(self).remaining().len() == 0 ==> record is None && final(self).remaining() == old(
                self,
            ).remaining(),
            old(self).remaining().len() > 0 ==> {
                &&& record is Some
                &&& record->Some_0@ == first_record(old(self).remaining())
                &&& final(self).remaining() == after_first_record(old(self).remaining())
            },
    {
        let ghost start = self.reader.remaining();
        let mut assembler = RecordAssembler::new();
        assert(assembler.pending() + self.reader.remaining() =~= start);
        loop
            invariant
                assembler.wf(),
                start == old(self).remaining(),
                assembler.pending() + self.reader.remaining() == start,
                forall|j: int| 0 <= j < assembler.pending().len() ==> !ends_record(start, j),
            decreases self.reader.remaining().len(),
        {
            let ghost held = assembler.pending();
            let ghost rest = self.reader.remaining();
            assert(rest =~= start.skip(held.len() as int));
            self.buf.clear();
            let n = self.reader.read_until(LINE_FEED, &mut self.buf);
            assert(self.buf@ =~= rest.take(n as int));
            if n == 0 {
                proof {
                    assert(held =~= start);
                    lemma_no_record_end(start);
                }
                return assembler.finish();
            }
            assert(held + rest.take(n as int) =~= start.take(held.len() + n));
            assert(self.reader.remaining() =~= start.skip(held.len() + n));
            match assembler.push_line(self.buf.as_slice()) {
                Some(record) => {
                    proof {
                        lemma_record_complete(start, held.len() as int, n as int);
                    }
                    return Some(record);
                },
                None => {
                    proof {
                        lemma_record_pending(start, held.len() as int, n as int);
                        assert(assembler.pending() + self.reader.remaining() =~= start);
                    }
                },
            }
        }
    }
}

/// The contents of a list of records, record by record.
pub open spec fn record_views(records: Seq<Vec<u8>>) -> Seq<Seq<u8>> {
    records.map_values(|record: Vec<u8>| record@)
}

/// All logical records of `input`, in order. Their number is the number of
/// quote-balanced line groups of `input`.
pub fn read_records(input: &[u8]) -> (records: Vec<Vec<u8>>)
    ensures
        record_views(records@) == split_records(input@),
        records@.len() == line_group_count(input@),
{
    let mut reader = OptimizedQuoteAwareReader::new(input, 0);
    let mut records: Vec<Vec<u8>> = Vec::new();
    assert(record_views(records@) + split_records(reader.remaining()) =~= split_records(input@));
    loop
        invariant
            record_views(records@) + split_records(reader.remaining()) == split_records(input@),
        decreases reader.remaining().len(),
    {
        let ghost rest = reader.remaining();
        let ghost before = records@;
        match reader.next_logical_line() {
            Some(record) => {
                records.push(record);
                proof {
                    lemma_after_first_record_shorter(rest);
                    assert(record_views(records@) =~= record_views(before).push(record@));
                    assert(record_views(records@) + split_records(reader.remaining())
                        =~= record_views(before) + split_records(rest));
                }
            },
            None => {
                proof {
                    assert(record_views(records@) =~= split_records(input@));
                    lemma_record_count(input@);
                }
                return records;
            },
        }
    }
}

/// Reads logical records from bytes held in memory, block by block and byte
/// by byte: the read buffer is refilled whenever it runs out, also in the
/// middle of a record or of a quoted field.
pub struct QuoteAwareBufferedReader<'a> {
    reader: MemoryBufferedReader<'a>,
    buffer: Vec<u8>,
    position: usize,
    bytes_read: usize,
}

impl<'a> QuoteAwareBufferedReader<'a> {
    /// The part of the buffer that is in use lies within the buffer, and the
    /// buffer has room for at least one byte.
    pub closed spec fn wf(&self) -> bool {
        &&& self.position <= self.bytes_read <= self.buffer@.len()
        &&& self.buffer@.len() > 0
    }

    /// The bytes that have not been handed out yet: those left in the buffer,
    /// then those not yet taken from the source.
    pub closed spec fn remaining(&self) -> Seq<u8> {
        self.buffer@.subrange(self.position as int, self.bytes_read as int)
            + self.reader.remaining()
    }

    /// A reader at the start of `input` that takes `buffer_capacity` bytes
    /// from it at a time, and one byte at a time where `buffer_capacity` is
    /// zero.
    pub fn new(input: &'a [u8], buffer_capacity: usize) -> (reader: Self)
        ensures
            reader.wf(),
            reader.remaining() == input@,
    {
        let size = if buffer_capacity == 0 {
            1
        } else {
            buffer_capacity
        };
        let reader = Self {
            reader: MemoryBufferedReader::new(input, buffer_capacity),
            buffer: vec![0u8; size],
            position: 0,
            bytes_read: 0,
        };
        assert(reader.remaining() =~= input@);
        reader
    }

    /// The next logical record, or `None` at the end of the input. The
    /// record is the same as the one [`OptimizedQuoteAwareReader`] gives.
    pub fn next_logical_line(&mut self) -> (record: Option<Vec<u8>>)
        requires
            old(self).wf(),
        ensures
            final(self).wf(),
            old(self).remaining().len() == 0 ==> record is None && final(self).remaining() == old(
                self,
            ).remaining(),
            old(self).remaining().len() > 0 ==> {
                &&& record is Some
                &&& record->Some_0@ == first_record(old(self).remaining())
                &&& final(self).remaining() == after_first_record(old(self).remaining())
            },
    {
        let ghost start = self.remaining();
        let mut line: Vec<u8> = Vec::new();
        let mut in_quotes = false;
        assert(line@ + self.remaining() =~= start);
        loop
            invariant
                self.wf(),
                start == old(self).remaining(),
                line@ + self.remaining() == start,
                in_quotes == !quotes_balanced(line@),
                forall|j: int| 0 <= j < line@.len() ==> !ends_record(start, j),
            decreases self.remaining().len(),
        {
            if self.position >= self.bytes_read {
                let ghost source = self.reader.remaining();
                assert(self.remaining() =~= source);
                self.bytes_read = self.reader.read(&mut self.buffer);
                self.position = 0;
                assert(self.remaining() =~= source);
                if self.bytes_read == 0 {
                    proof {
                        assert(line@ =~= start);
                        lemma_no_record_end(start);
                    }
                    if line.len() > 0 {
                        return Some(line);
                    } else {
                        return None;
                    }
                }
            }
            let ghost unread = self.remaining();
            let ghost taken = line@;
            let b = self.buffer[self.position];
            self.position += 1;
            proof {
                assert(unread[0] == b);
                assert(self.remaining() =~= unread.skip(1));
                assert(start[taken.len() as int] == b);
                assert(start.take(taken.len() as int) =~= taken);
                assert(start.skip(taken.len() as int + 1) =~= self.remaining());
                lemma_count_byte_push(taken, b, QUOTE);
            }
            if b == QUOTE {
                in_quotes = !in_quotes;
                line.push(b);
            } else if b == LINE_FEED {
                if !in_quotes {
                    proof {
                        lemma_first_record_end_is(start, taken.len() as int);
                    }
                    return Some(line);
                }
                line.push(b);
            } else {
                line.push(b);
            }
            assert(line@ + self.remaining() =~= start);
        }
    }
}

/// Reads physical lines from bytes held in memory. Quotes mean nothing to
/// it: every line feed ends a line.
pub struct FastBufferedReader<'a> {
    pub reader: MemoryBufferedReader<'a>,
    pub buffer: Vec<u8>,
}

impl<'a> FastBufferedReader<'a> {
    /// A reader at the start of `input`. `capacity` has no effect on the lines.
    pub fn new(input: &'a [u8], capacity: usize) -> (reader: Self)
        ensures
            reader.reader.remaining() == input@,
    {
        Self { reader: MemoryBufferedReader::new(input, capacity), buffer: Vec::new() }
    }

    /// The next physical line without its line feed, or `None` at the end of
    /// the input.
    pub fn next_line(&mut self) -> (line: Option<&[u8]>)
        ensures
            old(self).reader.remaining().len() == 0 ==> {
                &&& line is None
                &&& final(self).reader.remaining() == old(self).reader.remaining()
            },
            old(self).reader.remaining().len() > 0 ==> line is Some && exists|n: int|
                {
                    &&& is_chunk_len(old(self).reader.remaining(), LINE_FEED, n)
                    &&& line->Some_0@ == strip_line_feed(
                        #[trigger] old(self).reader.remaining().take(n),
                    )
                    &&& final(self).reader.remaining() == old(self).reader.remaining().skip(n)
                },
    {
        self.buffer.clear();
        let n = self.reader.read_until(LINE_FEED, &mut self.buffer);
        if n == 0 {
            return None;
        }
        assert(self.buffer@ =~= old(self).reader.remaining().take(n as int));
        if self.buffer[self.buffer.len() - 1] == LINE_FEED {
            self.buffer.pop();
        }
        assert(self.buffer@ =~= strip_line_feed(old(self).reader.remaining().take(n as int)));
        Some(self.buffer.as_slice())
    }
}

/// The bytes of a line are not valid UTF-8, so the line cannot be handed out
/// as text.
#[derive(Debug, Clone, Copy, PartialEq, Eq, Structural)]
pub struct InvalidUtf8;

/// A source of physical lines as text.
pub trait BufferedLineReader {
    /// Why the source may fail to hand out a line.
    type Error;

    /// Puts the next line into `buf`, replacing what `buf` held, and returns
    /// whether there was one: `Ok(false)` marks the end of the input.
    fn next_line(&mut self, buf: &mut String) -> (more: Result<bool, Self::Error>);
}

impl<'a> BufferedLineReader for MemoryBufferedReader<'a> {
    type Error = InvalidUtf8;

    /// The line is handed out with its line feed. A line that is not valid
    /// UTF-8 is consumed and reported as an error, and `buf` is left empty.
    fn next_line(&mut self, buf: &mut String) -> (more: Result<bool, InvalidUtf8>)
        ensures
            exists|n: int|
                {
                    &&& is_chunk_len(old(self).remaining(), LINE_FEED, n)
                    &&& final(self).remaining() == old(self).remaining().skip(n)
                    &&& valid_utf8(#[trigger] old(self).remaining().take(n)) ==> {
                        &&& more == Ok::<bool, InvalidUtf8>(n != 0)
                        &&& final(buf)@ == decode_utf8(old(self).remaining().take(n))
                    }
                    &&& !valid_utf8(old(self).remaining().take(n)) ==> {
                        &&& more == Err::<bool, InvalidUtf8>(InvalidUtf8)
                        &&& final(buf)@ == Seq::<char>::empty()
                    }
                },
    {
        *buf = String::new();
        let mut bytes: Vec<u8> = Vec::new();
        let n = self.read_until(LINE_FEED, &mut bytes);
        assert(bytes@ =~= old(self).remaining().take(n as int));
        match utf8_text(bytes.as_slice()) {
            Some(text) => {
                buf.append(text);
                assert(buf@ =~= decode_utf8(old(self).remaining().take(n as int)));
                Ok(n != 0)
            },
            None => Err(InvalidUtf8),
        }
    }
}

/// Reads physical lines as text from the bytes of a memory-mapped file.
pub struct MmapBufferedReader<'a> {
    pub mmap: &'a [u8],
    pub position: usize,
}

impl<'a> MmapBufferedReader<'a> {
    /// The bytes that have not been read yet.
    pub open spec fn remaining(&self) -> Seq<u8> {
        self.mmap@.skip(self.position as int)
    }

    /// A reader at the start of the mapped bytes.
    pub fn new(mmap: &'a [u8]) -> (reader: Self)
        ensures
            reader.mmap@ == mmap@,
            reader.position == 0,
    {
        Self { mmap, position: 0 }
    }
}

impl<'a> BufferedLineReader for MmapBufferedReader<'a> {
    type Error = InvalidUtf8;

    /// The line is handed out without its line feed and never fails: a line
    /// that is valid UTF-8 is handed out as its text, and bytes that are not
    /// valid UTF-8 are decoded lossily. Any position will do:
    /// one behind the end of the bytes is the end of the input.
    fn next_line(&mut self, buf: &mut String) -> (more: Result<bool, InvalidUtf8>)
        ensures
            final(self).mmap == old(self).mmap,
            old(self).position >= old(self).mmap@.len() ==> {
                &&& more == Ok::<bool, InvalidUtf8>(false)
                &&& final(buf)@ == Seq::<char>::empty()
                &&& final(self).position == old(self).position
            },
            old(self).position < old(self).mmap@.len() ==> {
                &&& more == Ok::<bool, InvalidUtf8>(true)
                &&& exists|n: int|
                    {
                        &&& is_chunk_len(old(self).remaining(), LINE_FEED, n)
                        &&& final(buf)@ == lossy_text(
                            strip_line_feed(#[trigger] old(self).remaining().take(n)),
                        )
                        &&& valid_utf8(strip_line_feed(old(self).remaining().take(n)))
                            ==> final(buf)@ == decode_utf8(
                            strip_line_feed(old(self).remaining().take(n)),
                        )
                        &&& final(self).position == old(self).position + n
                    }
            },
    {
        *buf = String::new();
        if self.position >= self.mmap.len() {
            return Ok(false);
        }
        let slice = vstd::slice::slice_subrange(self.mmap, self.position, self.mmap.len());
        assert(slice@ =~= self.remaining());
        match find_byte(LINE_FEED, slice) {
            Some(newline_pos) => {
                let line = vstd::slice::slice_subrange(slice, 0, newline_pos);
                *buf = decode_lossy(line);
                self.position = self.position + newline_pos + 1;
                proof {
                    let n = newline_pos + 1;
                    assert(slice@.take(n).last() == LINE_FEED);
                    assert(line@ =~= strip_line_feed(slice@.take(n)));
                    assert(is_chunk_len(old(self).remaining(), LINE_FEED, n));
                }
            },
            None => {
                *buf = decode_lossy(slice);
                self.position = self.mmap.len();
                proof {
                    let n = slice@.len() as int;
                    assert(slice@.take(n) =~= slice@);
                    assert(slice@.last() != LINE_FEED);
                    assert(slice@ =~= strip_line_feed(slice@.take(n)));
                    assert(is_chunk_len(old(self).remaining(), LINE_FEED, n));
                }
            },
        }
        Ok(true)
    }
}

} // verus!
