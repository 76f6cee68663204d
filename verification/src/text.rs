//! Models shared by the whole library: what a list of fields is, and what it
//! means to join fields with a delimiter.

use vstd::prelude::*;

verus! {

/// The comma: it separates the fields of CSV and the parts of a selection.
pub const COMMA: u8 = 44;

/// The tab, which separates the fields of TSV.
pub const TAB: u8 = 9;

/// The dash between the two positions of a range.
pub const DASH: u8 = 45;

/// The double quote.
pub const QUOTE: u8 = 34;

/// The line feed, which ends a line.
pub const LINE_FEED: u8 = 10;

/// The carriage return, which may stand before the line feed.
pub const CARRIAGE_RETURN: u8 = 13;

/// The fields that a vector of byte vectors holds, each as a sequence of bytes.
pub open spec fn rows(v: Seq<Vec<u8>>) -> Seq<Seq<u8>> {
    v.map_values(|f: Vec<u8>| f@)
}

/// The texts of a list of strings, each as a sequence of characters.
pub open spec fn texts(strings: Seq<String>) -> Seq<Seq<char>> {
    Seq::new(strings.len(), |i: int| strings[i]@)
}

/// The fields joined by `d`: `d` stands between neighbours, not before the
/// first field nor after the last. No field gives the empty text.
pub open spec fn joined(fields: Seq<Seq<u8>>, d: Seq<u8>) -> Seq<u8>
    decreases fields.len(),
{
    if fields.len() == 0 {
        Seq::empty()
    } else if fields.len() == 1 {
        fields[0]
    } else {
        fields[0] + d + joined(fields.skip(1), d)
    }
}

/// Adding one more vector adds its bytes as the last field.
pub proof fn lemma_rows_push(v: Seq<Vec<u8>>, f: Vec<u8>)
    ensures
        rows(v.push(f)) == rows(v).push(f@),
{
    assert(rows(v.push(f)) =~= rows(v).push(f@));
}

/// Joining one more field at the end appends the delimiter and the field,
/// or the field alone where it is the first.
pub proof fn lemma_joined_push(fields: Seq<Seq<u8>>, f: Seq<u8>, d: Seq<u8>)
    ensures
        joined(fields.push(f), d) == if fields.len() == 0 {
            f
        } else {
            joined(fields, d) + d + f
        },
    decreases fields.len(),
{
    let all = fields.push(f);
    if fields.len() == 0 {
        assert(all[0] == f);
    } else if fields.len() == 1 {
        assert(all.skip(1) =~= seq![f]);
        assert(joined(all.skip(1), d) == f);
        assert(all[0] == fields[0]);
    } else {
        assert(all.skip(1) =~= fields.skip(1).push(f));
        lemma_joined_push(fields.skip(1), f, d);
        assert(all[0] == fields[0]);
        assert(fields[0] + d + (joined(fields.skip(1), d) + d + f) =~= (fields[0] + d + joined(
            fields.skip(1),
            d,
        )) + d + f);
    }
}

/// A copy of the bytes of `input` from `from` up to `to`.
pub fn copy_range(input: &[u8], from: usize, to: usize) -> (v: Vec<u8>)
    requires
        from <= to <= input.len(),
    ensures
        v@ == input@.subrange(from as int, to as int),
{
    let mut v: Vec<u8> = Vec::new();
    let mut i: usize = from;
    assert(input@.subrange(from as int, from as int) =~= Seq::<u8>::empty());
    while i < to
        invariant
            from <= i <= to <= input.len(),
            v@ == input@.subrange(from as int, i as int),
        decreases to - i,
    {
        v.push(input[i]);
        assert(input@.subrange(from as int, i as int).push(input@[i as int]) =~= input@.subrange(
            from as int,
            i + 1,
        ));
        i += 1;
    }
    v
}

/// A copy of a slice of bytes.
pub fn copy_bytes(s: &[u8]) -> (v: Vec<u8>)
    ensures
        v@ == s@,
{
    assert(s@.subrange(0, s@.len() as int) =~= s@);
    copy_range(s, 0, s.len())
}

} // verus!
