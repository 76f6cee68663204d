//! Cutting a record of quoted text, as CSV and TSV write it.
//!
//! Fields are separated by one delimiter byte. A double quote opens a quoted
//! stretch, in which the delimiter is an ordinary byte; the next double quote
//! closes it, unless another one follows at once, in which case the two stand
//! for one double quote inside the stretch. The quotes that open and close
//! are not part of the field.

use vstd::prelude::*;
use crate::error::MalformedRecordError;
use crate::split::{glued, split_fields, lemma_split_nonempty};
use crate::text::{rows, joined, lemma_rows_push, QUOTE};

verus! {

/// Where the reading of a record stands with respect to quotes.
#[derive(Debug, Clone, Copy, PartialEq, Eq)]
pub enum QuoteState {
    /// Outside quotes.
    Plain,
    /// Inside a quoted stretch.
    Quoted,
    /// Just after a double quote met inside a quoted stretch: it closes the
    /// stretch unless the next byte is a double quote too.
    Closing,
}

/// What has been read of a record: the fields that are complete, the bytes
/// of the field being read, and the state with respect to quotes.
pub struct Scan {
    pub done: Seq<Seq<u8>>,
    pub cur: Seq<u8>,
    pub state: QuoteState,
}

/// Nothing read yet.
pub open spec fn scan_start() -> Scan {
    Scan { done: Seq::empty(), cur: Seq::empty(), state: QuoteState::Plain }
}

/// The reading after one more byte.
pub open spec fn scan_byte(s: Scan, b: u8, delimiter: u8) -> Scan {
    match s.state {
        QuoteState::Plain => if b == delimiter {
            Scan { done: s.done.push(s.cur), cur: Seq::empty(), state: QuoteState::Plain }
        } else if b == QUOTE {
            Scan { state: QuoteState::Quoted, ..s }
        } else {
            Scan { cur: s.cur.push(b), ..s }
        },
        QuoteState::Quoted => if b == QUOTE {
            Scan { state: QuoteState::Closing, ..s }
        } else {
            Scan { cur: s.cur.push(b), ..s }
        },
        QuoteState::Closing => if b == QUOTE {
            Scan { cur: s.cur.push(QUOTE), state: QuoteState::Quoted, ..s }
        } else if b == delimiter {
            Scan { done: s.done.push(s.cur), cur: Seq::empty(), state: QuoteState::Plain }
        } else {
            Scan { cur: s.cur.push(b), state: QuoteState::Plain, ..s }
        },
    }
}

/// The reading after all of `text`, byte by byte.
pub open spec fn scan_from(s: Scan, text: Seq<u8>, delimiter: u8) -> Scan
    decreases text.len(),
{
    if text.len() == 0 {
        s
    } else {
        scan_from(scan_byte(s, text[0], delimiter), text.skip(1), delimiter)
    }
}

/// The fields of a record of quoted text, or `None` where the record ends
/// inside a quoted stretch.
pub open spec fn quoted_fields(record: Seq<u8>, delimiter: u8) -> Option<Seq<Seq<u8>>> {
    let end = scan_from(scan_start(), record, delimiter);
    if end.state is Quoted {
        None
    } else {
        Some(end.done.push(end.cur))
    }
}

/// Cuts a record of quoted text into its fields. The record is malformed
/// where it ends before a quoted stretch is closed.
pub fn split_quoted(record: &[u8], delimiter: u8) -> (r: Result<
    Vec<Vec<u8>>,
    MalformedRecordError,
>)
    ensures
        match r {
            Ok(fields) => quoted_fields(record@, delimiter) == Some(rows(fields@)),
            Err(_) => quoted_fields(record@, delimiter) is None,
        },
{
    let mut out: Vec<Vec<u8>> = Vec::new();
    let mut cur: Vec<u8> = Vec::new();
    let mut state = QuoteState::Plain;
    let mut i: usize = 0;
    proof {
        assert(record@.skip(0) =~= record@);
        assert(rows(out@) =~= Seq::<Seq<u8>>::empty());
    }
    while i < record.len()
        invariant
            i <= record.len(),
            scan_from(scan_start(), record@, delimiter) == scan_from(
                Scan { done: rows(out@), cur: cur@, state },
                record@.skip(i as int),
                delimiter,
            ),
        decreases record.len() - i,
    {
        let b: u8 = record[i];
        proof {
            assert(record@.skip(i as int)[0] == b);
            assert(record@.skip(i as int).skip(1) =~= record@.skip(i + 1));
            lemma_rows_push(out@, cur);
        }
        match state {
            QuoteState::Plain => {
                if b == delimiter {
                    out.push(cur);
                    cur = Vec::new();
                } else if b == QUOTE {
                    state = QuoteState::Quoted;
                } else {
                    cur.push(b);
                }
            },
            QuoteState::Quoted => {
                if b == QUOTE {
                    state = QuoteState::Closing;
                } else {
                    cur.push(b);
                }
            },
            QuoteState::Closing => {
                if b == QUOTE {
                    cur.push(QUOTE);
                    state = QuoteState::Quoted;
                } else if b == delimiter {
                    out.push(cur);
                    cur = Vec::new();
                    state = QuoteState::Plain;
                } else {
                    cur.push(b);
                    state = QuoteState::Plain;
                }
            },
        }
        i += 1;
    }
    match state {
        QuoteState::Quoted => Err(MalformedRecordError),
        _ => {
            proof {
                lemma_rows_push(out@, cur);
            }
            out.push(cur);
            Ok(out)
        },
    }
}

/// How many double quotes a text holds.
pub open spec fn quote_count(text: Seq<u8>) -> nat
    decreases text.len(),
{
    if text.len() == 0 {
        0
    } else {
        quote_count(text.drop_last()) + if text.last() == QUOTE {
            1nat
        } else {
            0nat
        }
    }
}

/// A field written between double quotes, each double quote in it doubled.
pub open spec fn escaped(field: Seq<u8>) -> Seq<u8>
    decreases field.len(),
{
    if field.len() == 0 {
        Seq::empty()
    } else if field[0] == QUOTE {
        seq![QUOTE, QUOTE] + escaped(field.skip(1))
    } else {
        seq![field[0]] + escaped(field.skip(1))
    }
}

/// A field as quoted text writes it in full: an opening double quote, the
/// field with its double quotes doubled, and a closing double quote.
pub open spec fn enclosed(field: Seq<u8>) -> Seq<u8> {
    seq![QUOTE] + escaped(field) + seq![QUOTE]
}

/// Reading two texts one after the other is reading them as one.
pub proof fn lemma_scan_concat(s: Scan, a: Seq<u8>, b: Seq<u8>, delimiter: u8)
    ensures
        scan_from(s, a + b, delimiter) == scan_from(scan_from(s, a, delimiter), b, delimiter),
    decreases a.len(),
{
    if a.len() == 0 {
        assert(a + b =~= b);
    } else {
        assert((a + b)[0] == a[0]);
        assert((a + b).skip(1) =~= a.skip(1) + b);
        lemma_scan_concat(scan_byte(s, a[0], delimiter), a.skip(1), b, delimiter);
    }
}

/// Reading a text without double quotes from outside quotes cuts it as a
/// literal delimiter of one byte does.
pub proof fn lemma_scan_plain(done: Seq<Seq<u8>>, cur: Seq<u8>, text: Seq<u8>, delimiter: u8)
    requires
        forall|i: int| 0 <= i < text.len() ==> #[trigger] text[i] != QUOTE,
    ensures
        ({
            let end = scan_from(Scan { done, cur, state: QuoteState::Plain }, text, delimiter);
            &&& end.state is Plain
            &&& end.done.push(end.cur) == done + glued(cur, split_fields(text, seq![delimiter]))
        }),
    decreases text.len(),
{
    let d = seq![delimiter];
    if text.len() == 0 {
        assert(glued(cur, seq![text]) =~= seq![cur]);
        assert(done.push(cur) =~= done + seq![cur]);
    } else {
        let rest = text.skip(1);
        assert forall|i: int| 0 <= i < rest.len() implies #[trigger] rest[i] != QUOTE by {
            assert(rest[i] == text[i + 1]);
        }
        lemma_split_nonempty(rest, d);
        let t = split_fields(rest, d);
        if text[0] == delimiter {
            assert(d =~= text.subrange(0, 1));
            assert(d.is_prefix_of(text));
            lemma_scan_plain(done.push(cur), Seq::empty(), rest, delimiter);
            assert(glued(Seq::<u8>::empty(), t) =~= t);
            assert(glued(cur, seq![Seq::<u8>::empty()] + t) =~= seq![cur] + t);
            assert(done.push(cur) + t =~= done + (seq![cur] + t));
        } else {
            assert(!d.is_prefix_of(text)) by {
                if d.is_prefix_of(text) {
                    assert(d[0] == text.subrange(0, 1)[0]);
                }
            }
            lemma_scan_plain(done, cur.push(text[0]), rest, delimiter);
            let inner = glued(seq![text[0]], t);
            assert(inner.first() == seq![text[0]] + t.first());
            assert(inner.drop_first() =~= t.drop_first());
            assert(cur + (seq![text[0]] + t.first()) =~= cur.push(text[0]) + t.first());
            assert(glued(cur, inner) =~= glued(cur.push(text[0]), t));
        }
    }
}

/// A record without double quotes has the fields that cutting it at the
/// delimiter byte gives.
pub proof fn lemma_quoted_fields_without_quotes(record: Seq<u8>, delimiter: u8)
    requires
        forall|i: int| 0 <= i < record.len() ==> #[trigger] record[i] != QUOTE,
    ensures
        quoted_fields(record, delimiter) == Some(split_fields(record, seq![delimiter])),
{
    let t = split_fields(record, seq![delimiter]);
    lemma_split_nonempty(record, seq![delimiter]);
    lemma_scan_plain(Seq::empty(), Seq::empty(), record, delimiter);
    assert(glued(Seq::<u8>::empty(), t) =~= t);
    assert(Seq::<Seq<u8>>::empty() + t =~= t);
}

/// Whether a reading is inside a quoted stretch changes with every double
/// quote and with nothing else.
pub proof fn lemma_scan_parity(s: Scan, text: Seq<u8>, delimiter: u8)
    requires
        delimiter != QUOTE,
    ensures
        scan_from(s, text, delimiter).state is Quoted <==> ((s.state is Quoted) != (quote_count(
            text,
        ) % 2 == 1)),
    decreases text.len(),
{
    if text.len() > 0 {
        let front = text.drop_last();
        assert(text =~= front + seq![text.last()]);
        lemma_scan_concat(s, front, seq![text.last()], delimiter);
        lemma_scan_parity(s, front, delimiter);
        let mid = scan_from(s, front, delimiter);
        let one = seq![text.last()];
        let next = scan_byte(mid, text.last(), delimiter);
        assert(one.skip(1).len() == 0);
        assert(scan_from(next, one.skip(1), delimiter) == next);
        assert(scan_from(mid, one, delimiter) == next);
    }
}

/// A record is malformed exactly where it holds an odd number of double
/// quotes.
pub proof fn lemma_malformed_is_odd(record: Seq<u8>, delimiter: u8)
    requires
        delimiter != QUOTE,
    ensures
        quoted_fields(record, delimiter) is None <==> quote_count(record) % 2 == 1,
{
    lemma_scan_parity(scan_start(), record, delimiter);
}

/// Inside a quoted stretch, the doubled form of a field reads as the field.
pub proof fn lemma_scan_escaped(
    done: Seq<Seq<u8>>,
    cur: Seq<u8>,
    field: Seq<u8>,
    rest: Seq<u8>,
    delimiter: u8,
)
    ensures
        scan_from(Scan { done, cur, state: QuoteState::Quoted }, escaped(field) + rest, delimiter)
            == scan_from(Scan { done, cur: cur + field, state: QuoteState::Quoted }, rest, delimiter),
    decreases field.len(),
{
    let from = Scan { done, cur, state: QuoteState::Quoted };
    if field.len() == 0 {
        assert(escaped(field) + rest =~= rest);
        assert(cur + field =~= cur);
    } else {
        let tail = field.skip(1);
        let after = escaped(tail) + rest;
        assert(cur.push(field[0]) + tail =~= cur + field);
        if field[0] == QUOTE {
            let text = escaped(field) + rest;
            assert(text =~= seq![QUOTE, QUOTE] + after);
            assert(text[0] == QUOTE);
            assert(text.skip(1)[0] == QUOTE);
            assert(text.skip(1).skip(1) =~= after);
            lemma_scan_escaped(done, cur.push(QUOTE), tail, rest, delimiter);
            let first = scan_byte(from, QUOTE, delimiter);
            let second = scan_byte(first, QUOTE, delimiter);
            assert(second == Scan { done, cur: cur.push(QUOTE), state: QuoteState::Quoted });
            assert(scan_from(first, text.skip(1), delimiter) == scan_from(
                second,
                text.skip(1).skip(1),
                delimiter,
            ));
            assert(scan_from(from, text, delimiter) == scan_from(first, text.skip(1), delimiter));
        } else {
            let text = escaped(field) + rest;
            assert(text =~= seq![field[0]] + after);
            assert(text[0] == field[0]);
            assert(text.skip(1) =~= after);
            lemma_scan_escaped(done, cur.push(field[0]), tail, rest, delimiter);
            let first = scan_byte(from, field[0], delimiter);
            assert(first == Scan { done, cur: cur.push(field[0]), state: QuoteState::Quoted });
            assert(scan_from(from, text, delimiter) == scan_from(first, text.skip(1), delimiter));
        }
    }
}

/// From outside quotes, a field written in full between double quotes reads
/// as the field, whatever bytes it holds, and leaves the reading just after
/// its closing quote.
pub proof fn lemma_scan_enclosed(done: Seq<Seq<u8>>, field: Seq<u8>, rest: Seq<u8>, delimiter: u8)
    requires
        delimiter != QUOTE,
    ensures
        scan_from(
            Scan { done, cur: Seq::empty(), state: QuoteState::Plain },
            enclosed(field) + rest,
            delimiter,
        ) == scan_from(Scan { done, cur: field, state: QuoteState::Closing }, rest, delimiter),
{
    let text = enclosed(field) + rest;
    let inner = escaped(field) + (seq![QUOTE] + rest);
    assert(text =~= seq![QUOTE] + inner);
    assert(text[0] == QUOTE);
    assert(text.skip(1) =~= inner);
    lemma_scan_escaped(done, Seq::empty(), field, seq![QUOTE] + rest, delimiter);
    assert(Seq::<u8>::empty() + field =~= field);
    let closing = seq![QUOTE] + rest;
    assert(closing[0] == QUOTE);
    assert(closing.skip(1) =~= rest);
}

/// The fields, each written in full between double quotes.
pub open spec fn enclosed_all(fields: Seq<Seq<u8>>) -> Seq<Seq<u8>> {
    Seq::new(fields.len(), |i: int| enclosed(fields[i]))
}

/// Reading a record of fields that are all written between double quotes
/// gives the fields, the last one still open to a closing of the record.
pub proof fn lemma_scan_enclosed_record(done: Seq<Seq<u8>>, fields: Seq<Seq<u8>>, delimiter: u8)
    requires
        delimiter != QUOTE,
        fields.len() > 0,
    ensures
        ({
            let end = scan_from(
                Scan { done, cur: Seq::empty(), state: QuoteState::Plain },
                joined(enclosed_all(fields), seq![delimiter]),
                delimiter,
            );
            &&& end.state is Closing
            &&& end.done.push(end.cur) == done + fields
        }),
    decreases fields.len(),
{
    let written = enclosed_all(fields);
    let d = seq![delimiter];
    let empty = Seq::<u8>::empty();
    if fields.len() == 1 {
        assert(joined(written, d) == enclosed(fields[0]));
        assert(enclosed(fields[0]) + empty =~= enclosed(fields[0]));
        lemma_scan_enclosed(done, fields[0], empty, delimiter);
        assert(done.push(fields[0]) =~= done + fields);
    } else {
        let tail = fields.skip(1);
        assert(written.skip(1) =~= enclosed_all(tail));
        let after = joined(enclosed_all(tail), d);
        assert(joined(written, d) =~= enclosed(fields[0]) + (d + after));
        lemma_scan_enclosed(done, fields[0], d + after, delimiter);
        assert((d + after)[0] == delimiter);
        assert((d + after).skip(1) =~= after);
        lemma_scan_enclosed_record(done.push(fields[0]), tail, delimiter);
        assert(done.push(fields[0]) + tail =~= done + fields);
    }
}

/// Quoting and cutting again gives the fields back, whatever they hold:
/// delimiters, double quotes, line breaks. Where there is at least one
/// field, the record made of the fields, each between double quotes with
/// its own double quotes doubled, and the delimiter between them, has
/// exactly those fields.
pub proof fn lemma_quoted_fields_of_enclosed(fields: Seq<Seq<u8>>, delimiter: u8)
    requires
        delimiter != QUOTE,
        fields.len() > 0,
    ensures
        quoted_fields(joined(enclosed_all(fields), seq![delimiter]), delimiter) == Some(fields),
{
    lemma_scan_enclosed_record(Seq::empty(), fields, delimiter);
    assert(Seq::<Seq<u8>>::empty() + fields =~= fields);
}

} // verus!
