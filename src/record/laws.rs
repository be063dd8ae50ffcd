//! Properties of record building and decoding, stated over the models that the
//! contracts of `Record::push` and `Record::set_value` use.
use vstd::prelude::*;

use crate::field::{Field, FieldCreationType, field_wf, same_definition};
use crate::record::{
    ReadMode, Record, concat_raw, decoded_from, field_slice, length_after, named,
    next_multiplicity, padded, placed,
};

verus! {

/// The fields of `fl` cover positions `0 .. calc` one after the other, with no gap
/// and no overlap, each spanning its own width.
pub open spec fn tiled(fl: Seq<Field>, calc: int) -> bool {
    &&& fl.len() == 0 ==> calc == 0
    &&& fl.len() > 0 ==> calc == fl.last().upper_offset + 1
    &&& forall|i: int|
        0 <= i < fl.len() ==> {
            &&& #[trigger] fl[i].length >= 1
            &&& fl[i].upper_offset + 1 == fl[i].lower_offset + fl[i].length
            &&& fl[i].lower_offset == if i == 0 {
                0
            } else {
                fl[i - 1].upper_offset + 1
            }
        }
}

/// Each field's multiplicity is the number of fields of the same name before it.
pub open spec fn multiplicities_counted(fl: Seq<Field>) -> bool {
    forall|i: int|
        0 <= i < fl.len() ==> #[trigger] fl[i].multiplicity == named(
            fl.subrange(0, i),
            fl[i].name@,
        ).len()
}

/// A field given by its width covers exactly that many positions once it is
/// placed in a record.
pub proof fn law_length_field_span(f: Field, p: Field, fl: Seq<Field>, calc: int)
    requires
        field_wf(f),
        f.creation_type == FieldCreationType::ByLength,
        placed(f, p, fl, calc),
    ensures
        p.length == f.length,
        p.upper_offset - p.lower_offset + 1 == f.length,
{
}

/// Appending a field given by its width to a record whose fields tile its length
/// keeps them tiled.
pub proof fn law_push_by_length_keeps_tiling(fl: Seq<Field>, calc: int, f: Field, p: Field)
    requires
        tiled(fl, calc),
        field_wf(f),
        f.creation_type == FieldCreationType::ByLength,
        placed(f, p, fl, calc),
    ensures
        tiled(fl.push(p), length_after(calc, f)),
{
    let nf = fl.push(p);
    assert forall|i: int| 0 <= i < nf.len() implies {
        &&& #[trigger] nf[i].length >= 1
        &&& nf[i].upper_offset + 1 == nf[i].lower_offset + nf[i].length
        &&& nf[i].lower_offset == if i == 0 {
            0
        } else {
            nf[i - 1].upper_offset + 1
        }
    } by {
        if i < fl.len() {
            assert(nf[i] == fl[i]);
            if i > 0 {
                assert(nf[i - 1] == fl[i - 1]);
            }
        } else {
            assert(nf[i] == p);
            if i > 0 {
                assert(nf[i - 1] == fl.last());
            }
        }
    }
}

/// In tiled fields, every field ends at or before the last one.
proof fn lemma_tiled_ends(fl: Seq<Field>, calc: int, i: int)
    requires
        tiled(fl, calc),
        0 <= i < fl.len(),
    ensures
        fl[i].upper_offset + 1 <= calc,
    decreases fl.len() - i,
{
    if i + 1 < fl.len() {
        lemma_tiled_ends(fl, calc, i + 1);
        assert(fl[i + 1].length >= 1);
    }
}

/// Position just past the first `k` tiled fields.
pub open spec fn tiled_end(fl: Seq<Field>, k: int) -> int {
    if k == 0 {
        0
    } else {
        fl[k - 1].upper_offset + 1
    }
}

proof fn lemma_round_trip_prefix<T: ReadMode>(a: Record<T>, line: Seq<char>, b: Record<T>, k: int)
    requires
        tiled(a.flist@, a.calculated_length as int),
        line.len() == a.calculated_length,
        T::by_char() || vstd::utf8::is_ascii_chars(line),
        decoded_from(a, line, b),
        0 <= k <= a.flist@.len(),
    ensures
        concat_raw(b.flist@.subrange(0, k)) == line.subrange(0, tiled_end(a.flist@, k)),
    decreases k,
{
    let fl = a.flist@;
    let nf = b.flist@;
    let calc = a.calculated_length as int;
    if k == 0 {
        assert(nf.subrange(0, 0) =~= Seq::<Field>::empty());
        assert(line.subrange(0, 0) =~= Seq::<char>::empty());
    } else {
        let j = k - 1;
        lemma_round_trip_prefix(a, line, b, j);
        lemma_tiled_ends(fl, calc, j);
        assert(fl[j].length >= 1);
        let start = tiled_end(fl, j);
        assert(fl[j].lower_offset == start);
        assert(padded(line, a.calculated_length as nat, T::by_char()) == line) by {
            if !T::by_char() {
                vstd::utf8::is_ascii_chars_encode_utf8(line);
            }
        }
        assert(same_definition(nf[j], fl[j]));
        assert(nf[j].raw_value@ == field_slice(line, fl[j], T::by_char()));
        assert(field_slice(line, fl[j], T::by_char()) =~= line.subrange(
            start,
            fl[j].upper_offset + 1,
        ));
        assert(nf.subrange(0, k).drop_last() =~= nf.subrange(0, j));
        assert(line.subrange(0, fl[j].upper_offset + 1) =~= line.subrange(0, start)
            + line.subrange(start, fl[j].upper_offset + 1));
    }
}

/// Decoding a line whose length is the record's calculated length (an ASCII line
/// when positions are bytes), into a record whose fields tile that length, then
/// concatenating the raw values of the fields in order, gives the line back.
pub proof fn law_round_trip<T: ReadMode>(a: Record<T>, line: Seq<char>, b: Record<T>)
    requires
        tiled(a.flist@, a.calculated_length as int),
        line.len() == a.calculated_length,
        T::by_char() || vstd::utf8::is_ascii_chars(line),
        decoded_from(a, line, b),
    ensures
        concat_raw(b.flist@) == line,
{
    let n = a.flist@.len() as int;
    lemma_round_trip_prefix(a, line, b, n);
    assert(b.flist@.subrange(0, n) =~= b.flist@);
    if n > 0 {
        assert(line.subrange(0, a.calculated_length as int) =~= line);
    } else {
        assert(line =~= Seq::<char>::empty());
    }
}

/// Decoding the same line twice gives each field the same blank-stripped value
/// both times.
pub proof fn law_decode_idempotent<T: ReadMode>(
    a: Record<T>,
    line: Seq<char>,
    b: Record<T>,
    c: Record<T>,
)
    requires
        decoded_from(a, line, b),
        decoded_from(b, line, c),
    ensures
        c.flist@.len() == b.flist@.len(),
        forall|i: int|
            0 <= i < b.flist@.len() ==> (#[trigger] c.flist@[i]).str_value@
                == b.flist@[i].str_value@ && c.flist@[i].raw_value@ == b.flist@[i].raw_value@,
{
    assert forall|i: int| 0 <= i < b.flist@.len() implies (#[trigger] c.flist@[i]).str_value@
        == b.flist@[i].str_value@ && c.flist@[i].raw_value@ == b.flist@[i].raw_value@ by {
        assert(same_definition(b.flist@[i], a.flist@[i]));
        assert(same_definition(c.flist@[i], b.flist@[i]));
    }
}

/// When multiplicities count the same-named fields before each field, the next
/// multiplicity for a name is the number of fields of that name.
proof fn lemma_next_multiplicity_counts(fl: Seq<Field>, name: Seq<char>)
    requires
        multiplicities_counted(fl),
    ensures
        next_multiplicity(fl, name) == named(fl, name).len(),
    decreases fl.len(),
{
    if fl.len() > 0 {
        let prefix = fl.drop_last();
        assert(fl.subrange(0, fl.len() - 1) =~= prefix);
        assert forall|i: int| 0 <= i < prefix.len() implies #[trigger] prefix[i].multiplicity
            == named(prefix.subrange(0, i), prefix[i].name@).len() by {
            assert(prefix[i] == fl[i]);
            assert(prefix.subrange(0, i) =~= fl.subrange(0, i));
        }
        lemma_next_multiplicity_counts(prefix, name);
        if fl.last().name@ == name {
            assert(fl.last() == fl[fl.len() - 1]);
            lemma_next_multiplicity_counts(prefix, fl.last().name@);
        }
    }
}

/// Appending fields in order numbers the fields of each name 0, 1, 2, ... in the
/// order in which they were declared.
pub proof fn law_push_multiplicity(fl: Seq<Field>, p: Field)
    requires
        multiplicities_counted(fl),
        p.multiplicity == next_multiplicity(fl, p.name@),
    ensures
        multiplicities_counted(fl.push(p)),
{
    lemma_next_multiplicity_counts(fl, p.name@);
    let nf = fl.push(p);
    assert forall|i: int| 0 <= i < nf.len() implies #[trigger] nf[i].multiplicity == named(
        nf.subrange(0, i),
        nf[i].name@,
    ).len() by {
        if i < fl.len() {
            assert(nf[i] == fl[i]);
            assert(nf.subrange(0, i) =~= fl.subrange(0, i));
        } else {
            assert(nf.subrange(0, i) =~= fl);
        }
    }
}

/// A new record, with no field, numbers its fields consistently.
pub proof fn law_empty_multiplicities(fl: Seq<Field>)
    requires
        fl.len() == 0,
    ensures
        multiplicities_counted(fl),
        tiled(fl, 0),
{
}

} // verus!
