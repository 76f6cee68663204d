//! Selecting fields by position.
//!
//! A selection expression is a list of parts separated by commas. A part is
//! a position, written in decimal digits, or two positions with a dash
//! between them, the first no greater than the second. Positions count from 1.

use vstd::prelude::*;
use vstd::string::StringSliceAdditionalSpecFns;
use crate::error::InvalidSelectionError;
use crate::split::{lemma_split_at_byte, split_fields, split_literal};
use crate::text::{rows, copy_bytes, lemma_rows_push, COMMA, DASH};

verus! {

/// A run of neighbouring positions, both ends included.
#[derive(Debug, Clone, Copy, PartialEq, Eq)]
pub struct FieldRange {
    pub start: u64,
    pub end: u64,
}

/// The ranges that a selection asks for, in the order in which it names them.
/// A position may be named more than once.
#[derive(Debug, Clone, PartialEq, Eq)]
pub struct FieldSelection {
    pub ranges: Vec<FieldRange>,
}

impl View for FieldSelection {
    type V = Seq<FieldRange>;

    open spec fn view(&self) -> Seq<FieldRange> {
        self.ranges@
    }
}

impl FieldRange {
    /// A range starts at position 1 or later and does not end before it starts.
    pub open spec fn wf(self) -> bool {
        1 <= self.start <= self.end
    }
}

impl FieldSelection {
    /// Every range of the selection is a range.
    pub open spec fn wf(&self) -> bool {
        forall|i: int| 0 <= i < self@.len() ==> (#[trigger] self@[i]).wf()
    }
}

pub open spec fn is_digit(b: u8) -> bool {
    48 <= b <= 57
}

/// What a digit counts for; a byte that is no digit counts for nothing.
pub open spec fn digit_value(b: u8) -> nat {
    if is_digit(b) {
        (b - 48) as nat
    } else {
        0
    }
}

/// The number that a run of decimal digits writes.
pub open spec fn decimal_value(s: Seq<u8>) -> nat
    decreases s.len(),
{
    if s.len() == 0 {
        0
    } else {
        decimal_value(s.drop_last()) * 10 + digit_value(s.last())
    }
}

/// The position that `s` writes: `s` is one digit or more, and the number is
/// at least 1 and fits in 64 bits.
pub open spec fn position_of(s: Seq<u8>) -> Option<u64> {
    if s.len() > 0 && (forall|i: int| 0 <= i < s.len() ==> is_digit(#[trigger] s[i])) && 1
        <= decimal_value(s) <= u64::MAX {
        Some(decimal_value(s) as u64)
    } else {
        None
    }
}

/// The range that one part of an expression writes: a position alone, or two
/// positions around one dash, the first no greater than the second.
pub open spec fn range_of(part: Seq<u8>) -> Option<FieldRange> {
    let ends = split_fields(part, seq![DASH]);
    if ends.len() == 1 {
        match position_of(ends[0]) {
            Some(p) => Some(FieldRange { start: p, end: p }),
            None => None,
        }
    } else if ends.len() == 2 {
        match (position_of(ends[0]), position_of(ends[1])) {
            (Some(a), Some(b)) => if a <= b {
                Some(FieldRange { start: a, end: b })
            } else {
                None
            },
            _ => None,
        }
    } else {
        None
    }
}

/// The ranges that an expression writes, or `None` where one of its parts
/// writes no range. The empty expression has one empty part and writes none.
pub open spec fn selection_of(expr: Seq<u8>) -> Option<Seq<FieldRange>> {
    let parts = split_fields(expr, seq![COMMA]);
    if forall|i: int| 0 <= i < parts.len() ==> (#[trigger] range_of(parts[i])) is Some {
        Some(Seq::new(parts.len(), |i: int| range_of(parts[i]).unwrap()))
    } else {
        None
    }
}

/// The fields of `record` at the positions of `range`, in the record's
/// order. A position that the record does not have gives no field.
pub open spec fn picked(record: Seq<Seq<u8>>, range: FieldRange) -> Seq<Seq<u8>> {
    let lo = if range.start == 0 {
        0
    } else if range.start - 1 <= record.len() {
        range.start - 1
    } else {
        record.len() as int
    };
    let hi = if range.end <= record.len() {
        range.end as int
    } else {
        record.len() as int
    };
    if lo <= hi {
        record.subrange(lo, hi)
    } else {
        Seq::empty()
    }
}

/// The fields that a selection takes from a record: for each range in turn,
/// the fields at its positions.
pub open spec fn projected(record: Seq<Seq<u8>>, selection: Seq<FieldRange>) -> Seq<Seq<u8>>
    decreases selection.len(),
{
    if selection.len() == 0 {
        Seq::empty()
    } else {
        projected(record, selection.drop_last()) + picked(record, selection.last())
    }
}

/// The digits read so far never write more than the whole run does.
pub proof fn lemma_decimal_prefix(s: Seq<u8>, n: int)
    requires
        0 <= n <= s.len(),
    ensures
        decimal_value(s.take(n)) <= decimal_value(s),
    decreases s.len(),
{
    if n == s.len() {
        assert(s.take(n) =~= s);
    } else {
        assert(s.drop_last().take(n) =~= s.take(n));
        lemma_decimal_prefix(s.drop_last(), n);
        assert(decimal_value(s.drop_last()) <= decimal_value(s.drop_last()) * 10) by (nonlinear_arith);
    }
}

/// Reads a position.
pub fn parse_position(s: &[u8]) -> (r: Option<u64>)
    ensures
        r == position_of(s@),
{
    if s.len() == 0 {
        return None;
    }
    let mut acc: u64 = 0;
    let mut i: usize = 0;
    while i < s.len()
        invariant
            i <= s.len(),
            forall|j: int| 0 <= j < i ==> is_digit(#[trigger] s@[j]),
            acc as nat == decimal_value(s@.take(i as int)),
        decreases s.len() - i,
    {
        let b: u8 = s[i];
        if b < 48 || b > 57 {
            assert(!is_digit(s@[i as int]));
            return None;
        }
        let d: u64 = (b - 48) as u64;
        proof {
            assert(s@.take(i + 1).drop_last() =~= s@.take(i as int));
            assert(s@.take(i + 1).last() == b);
            assert(decimal_value(s@.take(i + 1)) == acc * 10 + d);
        }
        if acc > (u64::MAX - d) / 10 {
            proof {
                lemma_decimal_prefix(s@, i + 1);
            }
            return None;
        }
        acc = acc * 10 + d;
        i += 1;
    }
    assert(s@.take(i as int) =~= s@);
    if acc == 0 {
        None
    } else {
        Some(acc)
    }
}

/// Reads one part of an expression.
pub fn parse_range(part: &[u8]) -> (r: Option<FieldRange>)
    ensures
        r == range_of(part@),
        r matches Some(range) ==> range.wf(),
{
    let mut dash: Vec<u8> = Vec::new();
    dash.push(DASH);
    assert(dash@ =~= seq![DASH]);
    let ends = split_literal(part, dash.as_slice());
    if ends.len() == 1 {
        assert(rows(ends@)[0] == ends@[0]@);
        match parse_position(ends[0].as_slice()) {
            Some(p) => Some(FieldRange { start: p, end: p }),
            None => None,
        }
    } else if ends.len() == 2 {
        assert(rows(ends@)[0] == ends@[0]@);
        assert(rows(ends@)[1] == ends@[1]@);
        let first = parse_position(ends[0].as_slice());
        let second = parse_position(ends[1].as_slice());
        match (first, second) {
            (Some(a), Some(b)) => if a <= b {
                Some(FieldRange { start: a, end: b })
            } else {
                None
            },
            _ => None,
        }
    } else {
        None
    }
}

impl FieldRange {
    /// The range from `start` to `end`, where that is a range.
    pub fn new(start: u64, end: u64) -> (r: Option<FieldRange>)
        ensures
            r == if 1 <= start <= end {
                Some(FieldRange { start, end })
            } else {
                None
            },
    {
        if 1 <= start && start <= end {
            Some(FieldRange { start, end })
        } else {
            None
        }
    }
}

impl FieldSelection {
    /// Reads a selection expression given as bytes.
    pub fn parse_bytes(expr: &[u8]) -> (r: Result<FieldSelection, InvalidSelectionError>)
        ensures
            match r {
                Ok(selection) => selection_of(expr@) == Some(selection@) && selection.wf(),
                Err(_) => selection_of(expr@) is None,
            },
    {
        let mut comma: Vec<u8> = Vec::new();
        comma.push(COMMA);
        assert(comma@ =~= seq![COMMA]);
        let parts = split_literal(expr, comma.as_slice());
        let ghost texts = split_fields(expr@, seq![COMMA]);
        let mut ranges: Vec<FieldRange> = Vec::new();
        let mut i: usize = 0;
        while i < parts.len()
            invariant
                i <= parts.len(),
                rows(parts@) == texts,
                texts == split_fields(expr@, seq![COMMA]),
                ranges@.len() == i,
                forall|j: int| 0 <= j < i ==> #[trigger] range_of(texts[j]) == Some(ranges@[j]),
                forall|j: int| 0 <= j < i ==> (#[trigger] ranges@[j]).wf(),
            decreases parts.len() - i,
        {
            assert(texts[i as int] == parts@[i as int]@);
            match parse_range(parts[i].as_slice()) {
                Some(range) => {
                    ranges.push(range);
                },
                None => {
                    assert(!(range_of(texts[i as int]) is Some));
                    return Err(InvalidSelectionError);
                },
            }
            i += 1;
        }
        assert(ranges@ =~= Seq::new(texts.len(), |i: int| range_of(texts[i]).unwrap()));
        Ok(FieldSelection { ranges })
    }

    /// Reads a selection expression such as `1,3-5`.
    pub fn parse(expr: &str) -> (r: Result<FieldSelection, InvalidSelectionError>)
        ensures
            match r {
                Ok(selection) => selection_of(expr.spec_bytes()) == Some(selection@)
                    && selection.wf(),
                Err(_) => selection_of(expr.spec_bytes()) is None,
            },
    {
        FieldSelection::parse_bytes(expr.as_bytes())
    }
}

/// Takes from `record` the fields that `selection` names: range by range in
/// the selection's order, a field once for each time its position is named.
/// A position beyond the end of the record gives nothing, and is no error:
/// short records are let through.
pub fn project(record: &Vec<Vec<u8>>, selection: &FieldSelection) -> (out: Vec<Vec<u8>>)
    ensures
        rows(out@) == projected(rows(record@), selection@),
{
    let mut out: Vec<Vec<u8>> = Vec::new();
    let ghost fields = rows(record@);
    let mut i: usize = 0;
    assert(rows(out@) =~= Seq::<Seq<u8>>::empty());
    assert(selection@.take(0) =~= Seq::<FieldRange>::empty());
    while i < selection.ranges.len()
        invariant
            i <= selection@.len(),
            fields == rows(record@),
            rows(out@) == projected(fields, selection@.take(i as int)),
        decreases selection@.len() - i,
    {
        let range = selection.ranges[i];
        let n: usize = record.len();
        let lo: usize = if range.start == 0 {
            0
        } else if range.start - 1 <= n as u64 {
            (range.start - 1) as usize
        } else {
            n
        };
        let hi: usize = if range.end <= n as u64 {
            range.end as usize
        } else {
            n
        };
        let ghost before = rows(out@);
        let mut p: usize = lo;
        if lo <= hi {
            assert(fields.subrange(lo as int, lo as int) =~= Seq::<Seq<u8>>::empty());
            assert(before + Seq::<Seq<u8>>::empty() =~= before);
            while p < hi
                invariant
                    lo <= p <= hi <= record.len(),
                    fields == rows(record@),
                    rows(out@) == before + fields.subrange(lo as int, p as int),
                decreases hi - p,
            {
                let field = copy_bytes(record[p].as_slice());
                proof {
                    lemma_rows_push(out@, field);
                    assert(fields[p as int] == field@);
                    assert((before + fields.subrange(lo as int, p as int)).push(field@) =~= before
                        + fields.subrange(lo as int, p + 1));
                }
                out.push(field);
                p += 1;
            }
        } else {
            assert(before + Seq::<Seq<u8>>::empty() =~= before);
        }
        proof {
            assert(selection@.take(i + 1).drop_last() =~= selection@.take(i as int));
            assert(selection@.take(i + 1).last() == range);
        }
        i += 1;
    }
    assert(selection@.take(i as int) =~= selection@);
    out
}

/// The order of the selection is the order of the output: a selection made
/// of two lists of ranges takes what the first list takes, and after it what
/// the second takes, whether or not they name the same positions.
pub proof fn lemma_projected_concat(record: Seq<Seq<u8>>, a: Seq<FieldRange>, b: Seq<FieldRange>)
    ensures
        projected(record, a + b) == projected(record, a) + projected(record, b),
    decreases b.len(),
{
    if b.len() == 0 {
        assert(a + b =~= a);
        assert(projected(record, a) + projected(record, b) =~= projected(record, a));
    } else {
        assert((a + b).drop_last() =~= a + b.drop_last());
        assert((a + b).last() == b.last());
        lemma_projected_concat(record, a, b.drop_last());
        assert((projected(record, a) + projected(record, b.drop_last())) + picked(record, b.last())
            =~= projected(record, a) + (projected(record, b.drop_last()) + picked(
            record,
            b.last(),
        )));
    }
}

/// A range gives the fields at its positions, as far as the record has them:
/// the field at its start first, and none for a position beyond the record.
pub proof fn lemma_picked_positions(record: Seq<Seq<u8>>, range: FieldRange)
    requires
        range.wf(),
    ensures
        range.start > record.len() ==> picked(record, range).len() == 0,
        range.start <= record.len() && range.end <= record.len() ==> picked(record, range).len()
            == range.end - range.start + 1,
        range.start <= record.len() && range.end > record.len() ==> picked(record, range).len()
            == record.len() - range.start + 1,
        forall|j: int|
            0 <= j < picked(record, range).len() ==> #[trigger] picked(record, range)[j]
                == record[range.start - 1 + j],
{
}

/// Positions named one by one come out one by one: where every range of the
/// selection is a single position that the record has, the output has one
/// field for each range, in the selection's order, and a position named
/// twice gives its field twice.
pub proof fn lemma_projected_positions(record: Seq<Seq<u8>>, selection: Seq<FieldRange>)
    requires
        forall|i: int|
            0 <= i < selection.len() ==> (#[trigger] selection[i]).start == selection[i].end && 1
                <= selection[i].start <= record.len(),
    ensures
        projected(record, selection).len() == selection.len(),
        forall|i: int|
            0 <= i < selection.len() ==> #[trigger] projected(record, selection)[i]
                == record[selection[i].start - 1],
    decreases selection.len(),
{
    if selection.len() > 0 {
        let front = selection.drop_last();
        assert forall|i: int| 0 <= i < front.len() implies (#[trigger] front[i]).start
            == front[i].end && 1 <= front[i].start <= record.len() by {
            assert(front[i] == selection[i]);
        }
        lemma_projected_positions(record, front);
        let last = selection.last();
        assert(last == selection[selection.len() - 1]);
        assert(picked(record, last) =~= seq![record[last.start - 1]]);
        assert forall|i: int| 0 <= i < selection.len() implies #[trigger] projected(
            record,
            selection,
        )[i] == record[selection[i].start - 1] by {
            if i < front.len() {
                assert(front[i] == selection[i]);
                assert(projected(record, selection)[i] == projected(record, front)[i]);
            }
        }
    }
}

/// Short records are let through: a selection whose ranges all start beyond
/// the end of the record takes nothing from it.
pub proof fn lemma_projected_beyond(record: Seq<Seq<u8>>, selection: Seq<FieldRange>)
    requires
        forall|i: int| 0 <= i < selection.len() ==> (#[trigger] selection[i]).start > record.len(),
    ensures
        projected(record, selection).len() == 0,
    decreases selection.len(),
{
    if selection.len() > 0 {
        let front = selection.drop_last();
        assert forall|i: int| 0 <= i < front.len() implies (#[trigger] front[i]).start
            > record.len() by {
            assert(front[i] == selection[i]);
        }
        lemma_projected_beyond(record, front);
        assert(selection.last() == selection[selection.len() - 1]);
    }
}

/// An expression made of two expressions with a comma between them writes
/// the ranges of the first followed by the ranges of the second, and writes
/// none where one of the two writes none.
pub proof fn lemma_selection_of_list(a: Seq<u8>, b: Seq<u8>)
    ensures
        selection_of(a + seq![COMMA] + b) == match (selection_of(a), selection_of(b)) {
            (Some(first), Some(second)) => Some(first + second),
            _ => None,
        },
{
    let d = seq![COMMA];
    let pa = split_fields(a, d);
    let pb = split_fields(b, d);
    let parts = split_fields(a + d + b, d);
    lemma_split_at_byte(a, b, COMMA);
    assert(parts == pa + pb);
    if selection_of(a) is Some && selection_of(b) is Some {
        assert forall|i: int| 0 <= i < parts.len() implies (#[trigger] range_of(
            parts[i],
        )) is Some by {
            if i < pa.len() {
                assert(parts[i] == pa[i]);
            } else {
                assert(parts[i] == pb[i - pa.len()]);
            }
        }
        assert(selection_of(a + d + b).unwrap() =~= selection_of(a).unwrap() + selection_of(
            b,
        ).unwrap());
    } else if selection_of(a) is None {
        let i = choose|i: int| 0 <= i < pa.len() && !((#[trigger] range_of(pa[i])) is Some);
        assert(parts[i] == pa[i]);
        assert(!(range_of(parts[i]) is Some));
    } else {
        let i = choose|i: int| 0 <= i < pb.len() && !((#[trigger] range_of(pb[i])) is Some);
        assert(parts[pa.len() + i] == pb[i]);
        assert(!(range_of(parts[pa.len() + i]) is Some));
    }
}

/// Fields come out in the order in which the expression names them, as
/// often as it names them: what the expression `a,b` takes from a record is
/// what `a` takes followed by what `b` takes, whether or not the two name
/// the same positions.
pub proof fn lemma_projected_in_order(record: Seq<Seq<u8>>, a: Seq<u8>, b: Seq<u8>)
    requires
        selection_of(a) is Some,
        selection_of(b) is Some,
    ensures
        selection_of(a + seq![COMMA] + b) is Some,
        projected(record, selection_of(a + seq![COMMA] + b).unwrap()) == projected(
            record,
            selection_of(a).unwrap(),
        ) + projected(record, selection_of(b).unwrap()),
{
    lemma_selection_of_list(a, b);
    lemma_projected_concat(record, selection_of(a).unwrap(), selection_of(b).unwrap());
}

} // verus!
