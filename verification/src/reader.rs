//! Finding the records of an input.
//!
//! A record ends at a line feed, or at the end of the input where no line
//! feed follows the last record. A carriage return just before the line feed
//! belongs to the line ending. In quoted text a line feed inside a quoted
//! stretch is part of a field and ends nothing.

use vstd::prelude::*;
use crate::error::MalformedRecordError;
use crate::mode::Mode;
use crate::quoted::{lemma_malformed_is_odd, quote_count};
use crate::text::{copy_range, CARRIAGE_RETURN, COMMA, LINE_FEED, QUOTE, TAB};

verus! {

/// One record as it was found in the input.
#[derive(Debug, Clone, PartialEq, Eq)]
pub struct RawRecord {
    /// The bytes of the record, without its line ending.
    pub content: Vec<u8>,
    /// Where the next record starts.
    pub next: usize,
    /// Whether a line feed ended the record. Where none did, the record runs
    /// to the end of the input, and more input would make it longer.
    pub terminated: bool,
}

/// Whether the byte at `at` ends the record that starts at `start`: it is a
/// line feed, and in quoted text the double quotes of the record before it
/// are even in number.
pub open spec fn is_break(input: Seq<u8>, start: int, at: int, quoted: bool) -> bool {
    &&& start <= at < input.len()
    &&& input[at] == LINE_FEED
    &&& quoted ==> quote_count(input.subrange(start, at)) % 2 == 0
}

/// Whether the record that starts at `start` ends at `end`: no byte before
/// `end` ends it, and `end` is a byte that does, or the end of the input.
pub open spec fn is_record_end(input: Seq<u8>, start: int, end: int, quoted: bool) -> bool {
    &&& start <= end <= input.len()
    &&& end == input.len() || is_break(input, start, end, quoted)
    &&& forall|j: int| start <= j < end ==> !is_break(input, start, j, quoted)
}

/// The bytes of the record from `start` to `end`: a carriage return just
/// before the line feed that ends it is left out.
pub open spec fn record_content(input: Seq<u8>, start: int, end: int) -> Seq<u8> {
    if start < end < input.len() && input[end - 1] == CARRIAGE_RETURN {
        input.subrange(start, end - 1)
    } else {
        input.subrange(start, end)
    }
}

/// A record has one end only.
pub proof fn lemma_record_end_unique(input: Seq<u8>, start: int, a: int, b: int, quoted: bool)
    requires
        is_record_end(input, start, a, quoted),
        is_record_end(input, start, b, quoted),
    ensures
        a == b,
{
}

/// Leaving out a last byte that is no double quote leaves the count of
/// double quotes as it was.
pub proof fn lemma_quote_count_without_last(text: Seq<u8>)
    requires
        text.len() > 0,
        text.last() != QUOTE,
    ensures
        quote_count(text.drop_last()) == quote_count(text),
{
}

/// Whether `record` is the record of `input` that starts at `start`: it runs
/// to the first byte that ends it, or to the end of the input, its content
/// is what stands between without the line ending, and the next record
/// starts after the line feed. A record of quoted text holds an even number
/// of double quotes.
pub open spec fn found(input: Seq<u8>, start: int, quoted: bool, record: RawRecord) -> bool {
    let end = if record.terminated {
        record.next - 1
    } else {
        input.len() as int
    };
    &&& start < record.next <= input.len()
    &&& is_record_end(input, start, end, quoted)
    &&& record.terminated == (end < input.len())
    &&& !record.terminated ==> record.next == input.len()
    &&& record.content@ == record_content(input, start, end)
    &&& quoted ==> quote_count(record.content@) % 2 == 0
}

/// Whether the input ends inside a quoted stretch of the record that starts
/// at `start`: the text is quoted, no byte ends the record, and its double
/// quotes are odd in number.
pub open spec fn unclosed(input: Seq<u8>, start: int, quoted: bool) -> bool {
    &&& quoted
    &&& is_record_end(input, start, input.len() as int, quoted)
    &&& quote_count(input.subrange(start, input.len() as int)) % 2 == 1
}

/// Finds the record that starts at `start`.
///
/// There is none where `start` is the end of the input. Otherwise the record
/// runs to the first line feed that ends it, or to the end of the input. A
/// record of quoted text that reaches the end of the input inside a quoted
/// stretch is malformed.
pub fn next_record(input: &[u8], start: usize, mode: &Mode) -> (r: Result<
    Option<RawRecord>,
    MalformedRecordError,
>)
    ensures
        match r {
            Ok(None) => start >= input.len(),
            Ok(Some(record)) => start < input.len() && found(
                input@,
                start as int,
                mode.quoted(),
                record,
            ),
            Err(_) => start < input.len() && unclosed(input@, start as int, mode.quoted()),
        },
{
    let quoted = mode.is_quoted();
    if start >= input.len() {
        return Ok(None);
    }
    let mut i: usize = start;
    let mut inside: bool = false;
    assert(input@.subrange(start as int, start as int) =~= Seq::<u8>::empty());
    while i < input.len()
        invariant
            start <= i <= input.len(),
            quoted == mode.quoted(),
            inside == (quote_count(input@.subrange(start as int, i as int)) % 2 == 1),
            forall|j: int| start <= j < i ==> !is_break(input@, start as int, j, quoted),
        decreases input.len() - i,
    {
        let b: u8 = input[i];
        if b == LINE_FEED && !(quoted && inside) {
            let to: usize = if i > start && input[i - 1] == CARRIAGE_RETURN {
                i - 1
            } else {
                i
            };
            let content = copy_range(input, start, to);
            proof {
                if to < i {
                    let whole = input@.subrange(start as int, i as int);
                    assert(whole.last() == CARRIAGE_RETURN);
                    assert(whole.drop_last() =~= content@);
                    lemma_quote_count_without_last(whole);
                }
            }
            return Ok(Some(RawRecord { content, next: i + 1, terminated: true }));
        }
        proof {
            let longer = input@.subrange(start as int, i + 1);
            assert(longer.drop_last() =~= input@.subrange(start as int, i as int));
            assert(longer.last() == b);
        }
        if b == QUOTE {
            inside = !inside;
        }
        i += 1;
    }
    if quoted && inside {
        return Err(MalformedRecordError);
    }
    let content = copy_range(input, start, input.len());
    Ok(Some(RawRecord { content, next: input.len(), terminated: false }))
}

/// What can be taken from the bytes that have come in from a stream.
#[derive(Debug, Clone, PartialEq, Eq)]
pub enum Taken {
    /// A whole record: it stands at the start of the bytes.
    Record(RawRecord),
    /// The stream has ended inside a quoted stretch: what is left of it is
    /// one malformed record.
    Malformed,
    /// The stream has ended and nothing is left of it.
    End,
    /// No record is whole yet: more of the stream has to come in.
    More,
}

/// Takes the first record from the bytes of a stream that have come in and
/// have not been taken yet. `ended` says whether the stream has ended.
///
/// A record that a line feed ends is whole. What stands after the last line
/// feed is a record only once the stream has ended: until then more bytes
/// may belong to it.
pub fn take_record(pending: &[u8], ended: bool, mode: &Mode) -> (t: Taken)
    ensures
        match t {
            Taken::Record(record) => found(pending@, 0, mode.quoted(), record) && (
            record.terminated || ended),
            Taken::Malformed => ended && pending.len() > 0 && unclosed(pending@, 0, mode.quoted()),
            Taken::End => ended && pending.len() == 0,
            Taken::More => !ended && (pending.len() == 0 || is_record_end(
                pending@,
                0,
                pending.len() as int,
                mode.quoted(),
            )),
        },
{
    match next_record(pending, 0, mode) {
        Ok(Some(record)) => {
            if record.terminated || ended {
                Taken::Record(record)
            } else {
                Taken::More
            }
        },
        Ok(None) => {
            if ended {
                Taken::End
            } else {
                Taken::More
            }
        },
        Err(_) => {
            if ended {
                Taken::Malformed
            } else {
                Taken::More
            }
        },
    }
}

/// A record that the reader finds can be cut into fields: in every mode,
/// the record of an input that starts at some place is not malformed. Only
/// what is left at the end of a stream inside an open quoted stretch is.
pub proof fn lemma_found_is_well_formed(input: Seq<u8>, start: int, mode: Mode, record: RawRecord)
    requires
        found(input, start, mode.quoted(), record),
    ensures
        mode.fields(record.content@) is Some,
{
    match mode {
        Mode::CSV => lemma_malformed_is_odd(record.content@, COMMA),
        Mode::TSV => lemma_malformed_is_odd(record.content@, TAB),
        _ => {},
    }
}

} // verus!
