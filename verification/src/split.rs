//! Cutting a record at every occurrence of a literal delimiter.

use vstd::prelude::*;
use crate::text::{rows, joined, copy_bytes, lemma_rows_push};

verus! {

/// `head` put in front of the first field of `fields`.
pub open spec fn glued(head: Seq<u8>, fields: Seq<Seq<u8>>) -> Seq<Seq<u8>> {
    seq![head + fields.first()] + fields.drop_first()
}

/// The fields of `r` when it is cut at every occurrence of `d`, found from
/// left to right, an occurrence starting no earlier than the end of the one
/// before. Neighbouring occurrences give an empty field between them, and so
/// does one at the very start or end. An empty `d` cuts nowhere.
pub open spec fn split_fields(r: Seq<u8>, d: Seq<u8>) -> Seq<Seq<u8>>
    decreases r.len(),
{
    if d.len() == 0 || r.len() == 0 {
        seq![r]
    } else if d.is_prefix_of(r) {
        seq![Seq::empty()] + split_fields(r.skip(d.len() as int), d)
    } else {
        glued(seq![r[0]], split_fields(r.skip(1), d))
    }
}

/// A record always has at least one field.
pub proof fn lemma_split_nonempty(r: Seq<u8>, d: Seq<u8>)
    ensures
        split_fields(r, d).len() >= 1,
    decreases r.len(),
{
    if d.len() == 0 || r.len() == 0 {
    } else if d.is_prefix_of(r) {
    } else {
        lemma_split_nonempty(r.skip(1), d);
    }
}

/// Tells whether `d` stands in `r` at position `at`.
pub fn starts_at(r: &[u8], at: usize, d: &[u8]) -> (b: bool)
    requires
        at <= r.len(),
    ensures
        b == d@.is_prefix_of(r@.skip(at as int)),
{
    if d.len() > r.len() - at {
        return false;
    }
    let mut k: usize = 0;
    while k < d.len()
        invariant
            k <= d.len(),
            at + d.len() <= r.len(),
            forall|j: int| 0 <= j < k ==> d@[j] == r@[at + j],
        decreases d.len() - k,
    {
        if d[k] != r[at + k] {
            assert(r@.skip(at as int)[k as int] == r@[at + k]);
            return false;
        }
        k += 1;
    }
    assert(d@ =~= r@.skip(at as int).subrange(0, d@.len() as int));
    true
}

/// Cuts `record` at every occurrence of `delimiter`.
pub fn split_literal(record: &[u8], delimiter: &[u8]) -> (fields: Vec<Vec<u8>>)
    ensures
        rows(fields@) == split_fields(record@, delimiter@),
        fields@.len() >= 1,
{
    let mut out: Vec<Vec<u8>> = Vec::new();
    if delimiter.len() == 0 {
        let whole = copy_bytes(record);
        proof {
            lemma_rows_push(out@, whole);
            assert(rows(out@) =~= Seq::<Seq<u8>>::empty());
            assert(rows(out@).push(whole@) =~= seq![record@]);
        }
        out.push(whole);
        return out;
    }
    let mut cur: Vec<u8> = Vec::new();
    let mut i: usize = 0;
    proof {
        let t = split_fields(record@, delimiter@);
        lemma_split_nonempty(record@, delimiter@);
        assert(record@.skip(0) =~= record@);
        assert(rows(out@) =~= Seq::<Seq<u8>>::empty());
        assert(cur@ + t.first() =~= t.first());
        assert(rows(out@) + glued(cur@, t) =~= t);
    }
    while i < record.len()
        invariant
            i <= record.len(),
            delimiter@.len() > 0,
            split_fields(record@, delimiter@) == rows(out@) + glued(
                cur@,
                split_fields(record@.skip(i as int), delimiter@),
            ),
        decreases record.len() - i,
    {
        let ghost rest = record@.skip(i as int);
        if starts_at(record, i, delimiter) {
            proof {
                let t = split_fields(rest.skip(delimiter@.len() as int), delimiter@);
                lemma_split_nonempty(rest.skip(delimiter@.len() as int), delimiter@);
                assert(rest.skip(delimiter@.len() as int) =~= record@.skip(i + delimiter@.len()));
                lemma_rows_push(out@, cur);
                let empty = Seq::<u8>::empty();
                assert(glued(cur@, seq![empty] + t) =~= seq![cur@] + t);
                assert(glued(empty, t) =~= t);
                assert(rows(out@) + (seq![cur@] + t) =~= rows(out@).push(cur@) + glued(empty, t));
            }
            out.push(cur);
            cur = Vec::new();
            i += delimiter.len();
        } else {
            proof {
                let t = split_fields(rest.skip(1), delimiter@);
                lemma_split_nonempty(rest.skip(1), delimiter@);
                assert(rest.skip(1) =~= record@.skip(i + 1));
                assert(rest[0] == record@[i as int]);
                let inner = glued(seq![rest[0]], t);
                assert(inner.first() == seq![rest[0]] + t.first());
                assert(inner.drop_first() =~= t.drop_first());
                assert(cur@ + (seq![rest[0]] + t.first()) =~= cur@.push(rest[0]) + t.first());
                assert(glued(cur@, inner) =~= glued(cur@.push(rest[0]), t));
            }
            cur.push(record[i]);
            i += 1;
        }
    }
    proof {
        assert(record@.skip(i as int) =~= Seq::<u8>::empty());
        lemma_rows_push(out@, cur);
        assert(glued(cur@, seq![Seq::<u8>::empty()]) =~= seq![cur@]);
        assert(rows(out@) + seq![cur@] =~= rows(out@).push(cur@));
    }
    out.push(cur);
    out
}

/// `d` begins at no byte of a field once the fields are joined by it: it
/// is found in the joined text only where a field has ended.
pub open spec fn cleanly_joined(fields: Seq<Seq<u8>>, d: Seq<u8>) -> bool {
    forall|i: int, k: int|
        0 <= i < fields.len() && 0 <= k < fields[i].len() ==> !d.is_prefix_of(
            #[trigger] joined(fields.skip(i), d).skip(k),
        )
}

/// A text in which `d` begins nowhere is a single field.
pub proof fn lemma_split_without_match(f: Seq<u8>, d: Seq<u8>)
    requires
        d.len() > 0,
        forall|k: int| 0 <= k < f.len() ==> !d.is_prefix_of(#[trigger] f.skip(k)),
    ensures
        split_fields(f, d) == seq![f],
    decreases f.len(),
{
    if f.len() > 0 {
        assert(f.skip(0) =~= f);
        let rest = f.skip(1);
        assert forall|k: int| 0 <= k < rest.len() implies !d.is_prefix_of(
            #[trigger] rest.skip(k),
        ) by {
            assert(rest.skip(k) =~= f.skip(k + 1));
        }
        lemma_split_without_match(rest, d);
        assert(seq![f[0]] + rest =~= f);
        assert(glued(seq![f[0]], seq![rest]) =~= seq![f]);
    }
}

/// Where `d` begins at no byte of `f`, the text `f`, `d`, `s` has `f` as its
/// first field and the fields of `s` after it.
pub proof fn lemma_split_leading_field(f: Seq<u8>, d: Seq<u8>, s: Seq<u8>)
    requires
        d.len() > 0,
        forall|k: int| 0 <= k < f.len() ==> !d.is_prefix_of(#[trigger] (f + d + s).skip(k)),
    ensures
        split_fields(f + d + s, d) == seq![f] + split_fields(s, d),
    decreases f.len(),
{
    let whole = f + d + s;
    if f.len() == 0 {
        assert(d =~= whole.subrange(0, d.len() as int));
        assert(whole.skip(d.len() as int) =~= s);
        assert(f =~= Seq::<u8>::empty());
    } else {
        assert(whole.skip(0) =~= whole);
        let rest = f.skip(1);
        assert(whole.skip(1) =~= rest + d + s);
        assert forall|k: int| 0 <= k < rest.len() implies !d.is_prefix_of(
            #[trigger] (rest + d + s).skip(k),
        ) by {
            assert((rest + d + s).skip(k) =~= whole.skip(k + 1));
        }
        lemma_split_leading_field(rest, d, s);
        let t = split_fields(s, d);
        assert(whole[0] == f[0]);
        assert(seq![f[0]] + rest =~= f);
        assert(glued(seq![f[0]], seq![rest] + t) =~= seq![f] + t);
    }
}

/// Joining and cutting again gives the fields back: where there is at least
/// one field, `d` is not empty and `d` begins at no byte of a field in the
/// joined text, the fields of the joined text are the fields that were joined.
pub proof fn lemma_split_joined(fields: Seq<Seq<u8>>, d: Seq<u8>)
    requires
        fields.len() > 0,
        d.len() > 0,
        cleanly_joined(fields, d),
    ensures
        split_fields(joined(fields, d), d) == fields,
    decreases fields.len(),
{
    assert(fields.skip(0) =~= fields);
    if fields.len() == 1 {
        assert forall|k: int| 0 <= k < fields[0].len() implies !d.is_prefix_of(
            #[trigger] fields[0].skip(k),
        ) by {
            assert(!d.is_prefix_of(joined(fields.skip(0), d).skip(k)));
        }
        lemma_split_without_match(fields[0], d);
        assert(seq![fields[0]] =~= fields);
    } else {
        let rest = fields.skip(1);
        assert forall|i: int, k: int| 0 <= i < rest.len() && 0 <= k < rest[i].len() implies
            !d.is_prefix_of(#[trigger] joined(rest.skip(i), d).skip(k)) by {
            assert(rest.skip(i) =~= fields.skip(i + 1));
            assert(!d.is_prefix_of(joined(fields.skip(i + 1), d).skip(k)));
        }
        lemma_split_joined(rest, d);
        let s = joined(rest, d);
        assert forall|k: int| 0 <= k < fields[0].len() implies !d.is_prefix_of(
            #[trigger] (fields[0] + d + s).skip(k),
        ) by {
            assert(!d.is_prefix_of(joined(fields.skip(0), d).skip(k)));
        }
        lemma_split_leading_field(fields[0], d, s);
        assert(seq![fields[0]] + rest =~= fields);
    }
}

/// The joined text of at least one field begins with the first field.
pub proof fn lemma_joined_begins_with_first(fields: Seq<Seq<u8>>, d: Seq<u8>)
    requires
        fields.len() > 0,
    ensures
        fields[0].is_prefix_of(joined(fields, d)),
{
    if fields.len() > 1 {
        let rest = d + joined(fields.skip(1), d);
        assert(joined(fields, d) =~= fields[0] + rest);
        assert(fields[0] =~= (fields[0] + rest).subrange(0, fields[0].len() as int));
    }
}

/// Joining and cutting again gives the fields back whenever no field holds
/// the first byte of the delimiter. For a delimiter of one byte this asks
/// only that no field holds the delimiter.
pub proof fn lemma_split_joined_first_byte(fields: Seq<Seq<u8>>, d: Seq<u8>)
    requires
        fields.len() > 0,
        d.len() > 0,
        forall|i: int, k: int|
            0 <= i < fields.len() && 0 <= k < fields[i].len() ==> #[trigger] fields[i][k] != d[0],
    ensures
        split_fields(joined(fields, d), d) == fields,
{
    assert forall|i: int, k: int| 0 <= i < fields.len() && 0 <= k < fields[i].len() implies
        !d.is_prefix_of(#[trigger] joined(fields.skip(i), d).skip(k)) by {
        let tail = fields.skip(i);
        let text = joined(tail, d);
        lemma_joined_begins_with_first(tail, d);
        assert(tail[0] == fields[i]);
        assert(text.skip(k)[0] == fields[i][k]);
        if d.is_prefix_of(text.skip(k)) {
            assert(d[0] == text.skip(k)[0]);
        }
    }
    lemma_split_joined(fields, d);
}

/// A delimiter of one byte cuts two texts that it stands between as it cuts
/// each of them alone: the fields of the first, then the fields of the
/// second.
pub proof fn lemma_split_at_byte(a: Seq<u8>, b: Seq<u8>, c: u8)
    ensures
        split_fields(a + seq![c] + b, seq![c]) == split_fields(a, seq![c]) + split_fields(
            b,
            seq![c],
        ),
    decreases a.len(),
{
    let d = seq![c];
    let whole = a + d + b;
    let empty = Seq::<u8>::empty();
    if a.len() == 0 {
        assert(d =~= whole.subrange(0, 1));
        assert(whole.skip(1) =~= b);
        assert(a =~= empty);
    } else {
        let rest = a.skip(1);
        assert(whole[0] == a[0]);
        assert(whole.skip(1) =~= rest + d + b);
        lemma_split_at_byte(rest, b, c);
        lemma_split_nonempty(rest, d);
        let x = split_fields(rest, d);
        let y = split_fields(b, d);
        if a[0] == c {
            assert(d =~= whole.subrange(0, 1));
            assert(d =~= a.subrange(0, 1));
            assert(seq![empty] + (x + y) =~= (seq![empty] + x) + y);
        } else {
            assert(!d.is_prefix_of(whole)) by {
                if d.is_prefix_of(whole) {
                    assert(d[0] == whole.subrange(0, 1)[0]);
                }
            }
            assert(!d.is_prefix_of(a)) by {
                if d.is_prefix_of(a) {
                    assert(d[0] == a.subrange(0, 1)[0]);
                }
            }
            assert(glued(seq![a[0]], x + y) =~= glued(seq![a[0]], x) + y);
        }
    }
}

} // verus!
