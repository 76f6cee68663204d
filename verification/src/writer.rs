//! Writing the selected fields as one line of output.

use vstd::prelude::*;
use crate::text::{rows, joined, lemma_joined_push, LINE_FEED};

verus! {

/// The line that a record's fields make: the fields with the delimiter
/// between them, and one line feed at the end.
pub open spec fn line_of(fields: Seq<Seq<u8>>, delimiter: Seq<u8>) -> Seq<u8> {
    joined(fields, delimiter).push(LINE_FEED)
}

/// Appends the bytes of `s` to `v`.
pub fn append(v: &mut Vec<u8>, s: &[u8])
    ensures
        final(v)@ == old(v)@ + s@,
{
    let mut i: usize = 0;
    assert(old(v)@ + s@.take(0) =~= old(v)@);
    while i < s.len()
        invariant
            i <= s.len(),
            v@ == old(v)@ + s@.take(i as int),
        decreases s.len() - i,
    {
        v.push(s[i]);
        assert((old(v)@ + s@.take(i as int)).push(s@[i as int]) =~= old(v)@ + s@.take(i + 1));
        i += 1;
    }
    assert(s@.take(s@.len() as int) =~= s@);
}

/// Makes the output line of a record: its fields joined by `delimiter`,
/// ended by one line feed. No fields make an empty line.
pub fn format_line(fields: &Vec<Vec<u8>>, delimiter: &[u8]) -> (line: Vec<u8>)
    ensures
        line@ == line_of(rows(fields@), delimiter@),
{
    let mut line: Vec<u8> = Vec::new();
    let mut i: usize = 0;
    let ghost all = rows(fields@);
    assert(all.take(0) =~= Seq::<Seq<u8>>::empty());
    while i < fields.len()
        invariant
            i <= fields.len(),
            all == rows(fields@),
            line@ == joined(all.take(i as int), delimiter@),
        decreases fields.len() - i,
    {
        proof {
            lemma_joined_push(all.take(i as int), all[i as int], delimiter@);
            assert(all.take(i as int).push(all[i as int]) =~= all.take(i + 1));
            assert(all[i as int] == fields@[i as int]@);
        }
        if i > 0 {
            append(&mut line, delimiter);
        }
        append(&mut line, fields[i].as_slice());
        i += 1;
    }
    assert(all.take(i as int) =~= all);
    line.push(LINE_FEED);
    line
}

} // verus!
