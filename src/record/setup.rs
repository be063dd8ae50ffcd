//! Sample records used by the tests and benchmarks.
use vstd::prelude::*;
use std::rc::Rc;

use crate::field::Field;
use crate::fieldtype::FieldDataType;
use crate::record::{Record, next_multiplicity};

verus! {

/// `f` is named `name`, sits at `index`, spans `lower ..= upper` with width
/// `length`, and has multiplicity `mult`.
pub open spec fn field_is(
    f: Field,
    name: Seq<char>,
    index: int,
    length: int,
    lower: int,
    upper: int,
    mult: int,
) -> bool {
    &&& f.name@ == name
    &&& f.index == index
    &&& f.length == length
    &&& f.lower_offset == lower
    &&& f.upper_offset == upper
    &&& f.multiplicity == mult
}

proof fn lemma_sample_names_differ()
    ensures
        "FIELD1"@ != "FIELD2"@,
        "FIELD1"@ != "FIELD3"@,
        "FIELD2"@ != "FIELD3"@,
        "FIELD1"@.len() > 0,
        "FIELD2"@.len() > 0,
        "FIELD3"@.len() > 0,
        "RECORD1"@.len() > 0,
{
    reveal_strlit("FIELD1");
    reveal_strlit("FIELD2");
    reveal_strlit("FIELD3");
    reveal_strlit("RECORD1");
    assert("FIELD1"@[5] != "FIELD2"@[5]);
    assert("FIELD1"@[5] != "FIELD3"@[5]);
    assert("FIELD2"@[5] != "FIELD3"@[5]);
}

proof fn lemma_sample_type_names()
    ensures
        "I"@.len() > 0,
        crate::fieldtype::is_base_type_name("integer"@),
{
    reveal_strlit("I");
}

/// A record named `RECORD1` (declared length 20) of four contiguous fields:
/// `FIELD1` (width 10), `FIELD2` (10), `FIELD3` (20) and `FIELD2` (10).
pub fn set_up_by_length<T>() -> (r: Record<T>)
    ensures
        r.name@ == "RECORD1"@,
        r.declared_length == 20,
        r.calculated_length == 50,
        r.flist@.len() == 4,
        field_is(r.flist@[0], "FIELD1"@, 0, 10, 0, 9, 0),
        field_is(r.flist@[1], "FIELD2"@, 1, 10, 10, 19, 0),
        field_is(r.flist@[2], "FIELD3"@, 2, 20, 20, 39, 0),
        field_is(r.flist@[3], "FIELD2"@, 3, 10, 40, 49, 1),
{
    proof {
        lemma_sample_names_differ();
        lemma_sample_type_names();
    }
    let ft1 = Rc::new(FieldDataType::new("I", "integer"));
    let f1 = Field::new("FIELD1", "Description for field 1", &ft1, 10);
    let f2 = Field::new("FIELD2", "Description for field 2", &ft1, 10);
    let f3 = Field::new("FIELD3", "Description for field 3", &ft1, 20);
    let f4 = Field::new("FIELD2", "Description for field 2", &ft1, 10);
    let mut rec = Record::<T>::new("RECORD1", "Description for record 1", 20);
    rec.push(f1);
    let ghost s1 = rec.flist@;
    assert(s1.last() == s1[0]);
    assert(s1.drop_last().len() == 0);
    assert(s1.last().name@ == "FIELD1"@);
    assert(next_multiplicity(s1.drop_last(), "FIELD2"@) == 0);
    assert(next_multiplicity(s1, "FIELD2"@) == 0);
    rec.push(f2);
    let ghost s2 = rec.flist@;
    assert(s2[0] == s2.drop_last()[0] && s2.last() == s2[1]);
    assert(s2.drop_last() == s1);
    assert(s2.last().name@ == "FIELD2"@);
    assert(next_multiplicity(s2, "FIELD3"@) == next_multiplicity(s1, "FIELD3"@));
    assert(next_multiplicity(s1.drop_last(), "FIELD3"@) == 0);
    assert(next_multiplicity(s2, "FIELD3"@) == 0);
    rec.push(f3);
    let ghost s3 = rec.flist@;
    assert(s3[0] == s3.drop_last()[0] && s3[1] == s3.drop_last()[1] && s3.last() == s3[2]);
    assert(s3.drop_last() == s2);
    assert(next_multiplicity(s3, "FIELD2"@) == next_multiplicity(s2, "FIELD2"@));
    assert(next_multiplicity(s3, "FIELD2"@) == 1);
    rec.push(f4);
    let ghost s4 = rec.flist@;
    assert(s4[0] == s4.drop_last()[0] && s4[1] == s4.drop_last()[1] && s4[2]
        == s4.drop_last()[2] && s4.last() == s4[3]);
    rec
}

/// A record named `RECORD1` (no declared length) of four fields at 1-based bounds
/// 5-9 (`FIELD1`), 15-19 (`FIELD2`), 30-39 (`FIELD3`) and 50-60 (`FIELD2`).
pub fn set_up_by_offset<T>() -> (r: Record<T>)
    ensures
        r.name@ == "RECORD1"@,
        r.declared_length == 0,
        r.calculated_length == 60,
        r.flist@.len() == 4,
        field_is(r.flist@[0], "FIELD1"@, 0, 5, 4, 8, 0),
        field_is(r.flist@[1], "FIELD2"@, 1, 5, 14, 18, 0),
        field_is(r.flist@[2], "FIELD3"@, 2, 10, 29, 38, 0),
        field_is(r.flist@[3], "FIELD2"@, 3, 11, 49, 59, 1),
{
    proof {
        lemma_sample_names_differ();
        lemma_sample_type_names();
    }
    let ft1 = Rc::new(FieldDataType::new("I", "integer"));
    let f1 = Field::new_with_offset("FIELD1", "Description for field 1", &ft1, 5, 9);
    let f2 = Field::new_with_offset("FIELD2", "Description for field 2", &ft1, 15, 19);
    let f3 = Field::new_with_offset("FIELD3", "Description for field 3", &ft1, 30, 39);
    let f4 = Field::new_with_offset("FIELD2", "Description for field 2", &ft1, 50, 60);
    let mut rec = Record::<T>::new("RECORD1", "Description for record 1", 0);
    rec.push(f1);
    let ghost s1 = rec.flist@;
    assert(s1.last() == s1[0]);
    assert(s1.drop_last().len() == 0);
    assert(s1.last().name@ == "FIELD1"@);
    assert(next_multiplicity(s1.drop_last(), "FIELD2"@) == 0);
    assert(next_multiplicity(s1, "FIELD2"@) == 0);
    rec.push(f2);
    let ghost s2 = rec.flist@;
    assert(s2[0] == s2.drop_last()[0] && s2.last() == s2[1]);
    assert(s2.drop_last() == s1);
    assert(s2.last().name@ == "FIELD2"@);
    assert(next_multiplicity(s2, "FIELD3"@) == next_multiplicity(s1, "FIELD3"@));
    assert(next_multiplicity(s1.drop_last(), "FIELD3"@) == 0);
    assert(next_multiplicity(s2, "FIELD3"@) == 0);
    rec.push(f3);
    let ghost s3 = rec.flist@;
    assert(s3[0] == s3.drop_last()[0] && s3[1] == s3.drop_last()[1] && s3.last() == s3[2]);
    assert(s3.drop_last() == s2);
    assert(next_multiplicity(s3, "FIELD2"@) == next_multiplicity(s2, "FIELD2"@));
    assert(next_multiplicity(s3, "FIELD2"@) == 1);
    rec.push(f4);
    let ghost s4 = rec.flist@;
    assert(s4[0] == s4.drop_last()[0] && s4[1] == s4.drop_last()[1] && s4[2]
        == s4.drop_last()[2] && s4.last() == s4[3]);
    rec
}

/// A record named `RECORD1` (no declared length) of `size` contiguous fields of
/// width 10, all named `FIELD1`, numbered 0, 1, 2, ... in order.
pub fn set_up_by_length_huge<T>(size: usize) -> (r: Record<T>)
    requires
        size < usize::MAX / 10,
    ensures
        r.name@ == "RECORD1"@,
        r.declared_length == 0,
        r.calculated_length == 10 * size,
        r.flist@.len() == size,
        forall|i: int|
            0 <= i < size ==> field_is(#[trigger] r.flist@[i], "FIELD1"@, i, 10, 10 * i, 10 * i + 9, i),
{
    proof {
        lemma_sample_names_differ();
        lemma_sample_type_names();
    }
    let ft1 = Rc::new(FieldDataType::new("I", "integer"));
    let mut rec = Record::<T>::new("RECORD1", "Description for record 1", 0);
    let mut i: usize = 0;
    while i < size
        invariant
            i <= size,
            size < usize::MAX / 10,
            "FIELD1"@.len() > 0,
            rec.name@ == "RECORD1"@,
            rec.declared_length == 0,
            rec.calculated_length == 10 * i,
            rec.flist@.len() == i,
            forall|k: int|
                0 <= k < i ==> field_is(#[trigger] rec.flist@[k], "FIELD1"@, k, 10, 10 * k, 10 * k + 9, k),
        decreases size - i,
    {
        let f = Field::new("FIELD1", "Description for field 1", &ft1, 10);
        let ghost before = rec.flist@;
        proof {
            if i > 0 {
                assert(before.last() == before[i - 1]);
            }
            assert(next_multiplicity(before, f.name@) == i);
        }
        rec.push(f);
        proof {
            assert forall|k: int| 0 <= k < i implies #[trigger] rec.flist@[k] == before[k] by {
                assert(rec.flist@[k] == rec.flist@.drop_last()[k]);
            }
            assert(rec.flist@.last() == rec.flist@[i as int]);
        }
        i = i + 1;
    }
    rec
}

} // verus!
