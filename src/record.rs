//! A record: an ordered list of fields with the positions that each one covers
//! in a line, and the decoding of a line into those fields.
//!
//! A record is tagged with an addressing mode. In `AsciiMode` a position is a
//! byte of a line made of ASCII characters only, so a field is cut directly out
//! of the line. In `UTF8Mode` a position is a character, and each field is
//! found by walking the line's characters up to its start.
use vstd::prelude::*;
use vstd::utf8::encode_utf8;
use std::marker::PhantomData;

use crate::field::{Field, FieldCreationType, field_wf, same_definition};
use crate::text::{blanks, pad_blanks, trimmed};
use crate::record::laws::{
    law_push_by_length_keeps_tiling, law_push_multiplicity, multiplicities_counted, tiled,
};

pub mod laws;
pub mod setup;

verus! {

/// Positions are bytes of a line made of ASCII characters.
pub struct AsciiMode;

/// Positions are characters.
pub struct UTF8Mode;

/// The addressing mode of a record.
pub trait ReadMode {
    /// Whether a position counts characters (and not bytes of an ASCII line).
    spec fn by_char() -> bool;

    fn is_by_char() -> (r: bool)
        ensures
            r == Self::by_char(),
    ;
}

impl ReadMode for AsciiMode {
    open spec fn by_char() -> bool {
        false
    }

    fn is_by_char() -> (r: bool) {
        false
    }
}

impl ReadMode for UTF8Mode {
    open spec fn by_char() -> bool {
        true
    }

    fn is_by_char() -> (r: bool) {
        true
    }
}

pub struct Record<T> {
    /// Record name
    pub name: String,
    /// Record description
    pub description: String,
    /// Length declared by the schema (0 when not given)
    pub declared_length: usize,
    /// Fields of the record, in order
    pub flist: Vec<Field>,
    /// Length that the fields cover
    pub calculated_length: usize,
    /// Addressing mode
    pub reader_mode: PhantomData<T>,
}

// ---------------------------------------------------------------------------
// Model of the field list
// ---------------------------------------------------------------------------

/// Multiplicity given to a new field named `name` appended to `fl`: one more than
/// that of the last field of the same name, or 0 when there is none.
pub open spec fn next_multiplicity(fl: Seq<Field>, name: Seq<char>) -> int
    decreases fl.len(),
{
    if fl.len() == 0 {
        0
    } else if fl.last().name@ == name {
        fl.last().multiplicity + 1
    } else {
        next_multiplicity(fl.drop_last(), name)
    }
}

/// Calculated length of a record of length `calc` once `f` is appended.
pub open spec fn length_after(calc: int, f: Field) -> int {
    match f.creation_type {
        FieldCreationType::ByLength => calc + f.length,
        FieldCreationType::ByOffset => if calc >= f.upper_offset + 1 {
            calc
        } else {
            f.upper_offset + 1
        },
    }
}

/// `p` is `f` as placed at position `n` of a record whose fields are `fl` and whose
/// calculated length is `calc`.
pub open spec fn placed(f: Field, p: Field, fl: Seq<Field>, calc: int) -> bool {
    &&& p.name@ == f.name@
    &&& p.description@ == f.description@
    &&& p.length == f.length
    &&& p.ftype == f.ftype
    &&& p.raw_value@ == f.raw_value@
    &&& p.str_value@ == f.str_value@
    &&& p.cell_size == f.cell_size
    &&& p.creation_type == f.creation_type
    &&& p.index == fl.len()
    &&& p.offset_from_origin == calc
    &&& p.multiplicity == next_multiplicity(fl, f.name@)
    &&& match f.creation_type {
        FieldCreationType::ByLength => p.lower_offset == calc && p.upper_offset == calc + f.length
            - 1,
        FieldCreationType::ByOffset => p.lower_offset == f.lower_offset && p.upper_offset
            == f.upper_offset,
    }
}

/// The fields of `fl` named `name`, in order.
pub open spec fn named(fl: Seq<Field>, name: Seq<char>) -> Seq<Field>
    decreases fl.len(),
{
    if fl.len() == 0 {
        Seq::empty()
    } else if fl.last().name@ == name {
        named(fl.drop_last(), name).push(fl.last())
    } else {
        named(fl.drop_last(), name)
    }
}

/// The fields `fl[i]` for which `marks[i] == want`, in order.
pub open spec fn marked(fl: Seq<Field>, marks: Seq<bool>, want: bool) -> Seq<Field>
    decreases fl.len(),
{
    if fl.len() == 0 || marks.len() != fl.len() {
        Seq::empty()
    } else if marks.last() == want {
        marked(fl.drop_last(), marks.drop_last(), want).push(fl.last())
    } else {
        marked(fl.drop_last(), marks.drop_last(), want)
    }
}

/// `v` refers, in order, to the fields of `s`.
pub open spec fn refers_to(v: Seq<&Field>, s: Seq<Field>) -> bool {
    v.len() == s.len() && forall|i: int| 0 <= i < v.len() ==> *v[i] == s[i]
}

/// The raw values of `fl`, concatenated in order.
pub open spec fn concat_raw(fl: Seq<Field>) -> Seq<char>
    decreases fl.len(),
{
    if fl.len() == 0 {
        Seq::empty()
    } else {
        concat_raw(fl.drop_last()) + fl.last().raw_value@
    }
}

/// Every multiplicity in `fl` is smaller than the number of fields.
pub open spec fn multiplicities_below_count(fl: Seq<Field>) -> bool {
    forall|i: int| 0 <= i < fl.len() ==> #[trigger] fl[i].multiplicity < fl.len()
}

/// When every multiplicity is below the number of fields, so is the next one, or equal.
pub proof fn lemma_next_multiplicity_bounded(fl: Seq<Field>, name: Seq<char>)
    requires
        multiplicities_below_count(fl),
    ensures
        0 <= next_multiplicity(fl, name) <= fl.len(),
    decreases fl.len(),
{
    if fl.len() > 0 {
        let p = fl.drop_last();
        if fl.last().name@ != name {
            assert forall|i: int| 0 <= i < p.len() implies #[trigger] p[i].multiplicity < fl.len() by {
                assert(p[i] == fl[i]);
            }
            lemma_next_multiplicity_bounded_by(p, name, fl.len() as int);
        } else {
            assert(fl.last() == fl[fl.len() - 1]);
        }
    }
}

proof fn lemma_next_multiplicity_bounded_by(fl: Seq<Field>, name: Seq<char>, bound: int)
    requires
        forall|i: int| 0 <= i < fl.len() ==> #[trigger] fl[i].multiplicity < bound,
        bound >= 0,
    ensures
        0 <= next_multiplicity(fl, name) <= bound,
    decreases fl.len(),
{
    if fl.len() > 0 {
        let p = fl.drop_last();
        assert forall|i: int| 0 <= i < p.len() implies #[trigger] p[i].multiplicity < bound by {
            assert(p[i] == fl[i]);
        }
        lemma_next_multiplicity_bounded_by(p, name, bound);
        assert(fl.last() == fl[fl.len() - 1]);
    }
}

pub open spec fn has_field(fl: Seq<Field>, name: Seq<char>) -> bool {
    exists|i: int| 0 <= i < fl.len() && #[trigger] fl[i].name@ == name
}

// ---------------------------------------------------------------------------
// Model of decoding
// ---------------------------------------------------------------------------

/// The length of `line` in a record's addressing unit: characters, or bytes of
/// its UTF-8 encoding.
pub open spec fn units(line: Seq<char>, by_char: bool) -> nat {
    if by_char {
        line.len()
    } else {
        encode_utf8(line).len()
    }
}

/// The line as decoding reads it: a line shorter than `calc` units is padded with
/// blanks to `calc` units and one more.
pub open spec fn padded(line: Seq<char>, calc: nat, by_char: bool) -> Seq<char> {
    if units(line, by_char) < calc {
        line + blanks((calc + 1 - units(line, by_char)) as nat)
    } else {
        line
    }
}

/// Positions `from` up to (not including) `to` of `p`, cut short at its end.
pub open spec fn clamped(p: Seq<char>, from: int, to: int) -> Seq<char> {
    if from >= p.len() || to <= from {
        Seq::empty()
    } else if to >= p.len() {
        p.subrange(from, p.len() as int)
    } else {
        p.subrange(from, to)
    }
}

/// What field `f` reads from the padded line `p`: by characters, `length` of them
/// from its lower bound; by bytes, its lower bound through its upper bound.
pub open spec fn field_slice(p: Seq<char>, f: Field, by_char: bool) -> Seq<char> {
    if by_char {
        clamped(p, f.lower_offset as int, f.lower_offset + f.length)
    } else {
        clamped(p, f.lower_offset as int, f.upper_offset + 1)
    }
}

/// The field list `nf` is `of` with each field holding what it reads from `p`.
pub open spec fn fields_decoded(of: Seq<Field>, p: Seq<char>, by_char: bool, nf: Seq<Field>) -> bool {
    &&& nf.len() == of.len()
    &&& forall|i: int|
        0 <= i < of.len() ==> {
            &&& same_definition(#[trigger] nf[i], of[i])
            &&& nf[i].raw_value@ == field_slice(p, of[i], by_char)
            &&& nf[i].str_value@ == trimmed(field_slice(p, of[i], by_char))
        }
}

/// `b` is record `a` after decoding `line`.
pub open spec fn decoded_from<T: ReadMode>(a: Record<T>, line: Seq<char>, b: Record<T>) -> bool {
    &&& b.name@ == a.name@
    &&& b.description@ == a.description@
    &&& b.declared_length == a.declared_length
    &&& b.calculated_length == a.calculated_length
    &&& fields_decoded(
        a.flist@,
        padded(line, a.calculated_length as nat, T::by_char()),
        T::by_char(),
        b.flist@,
    )
}

/// `b` is record `a` once field `f` is appended to it.
pub open spec fn pushed<T>(a: Record<T>, f: Field, b: Record<T>) -> bool {
    &&& b.name == a.name
    &&& b.description == a.description
    &&& b.declared_length == a.declared_length
    &&& b.flist@.len() == a.flist@.len() + 1
    &&& b.flist@.drop_last() == a.flist@
    &&& placed(f, b.flist@.last(), a.flist@, a.calculated_length as int)
    &&& b.calculated_length == length_after(a.calculated_length as int, f)
}

impl<T> Record<T> {
    /// Whether `f` can be appended without any position or count overflowing.
    pub open spec fn can_push(&self, f: Field) -> bool {
        &&& field_wf(f)
        &&& length_after(self.calculated_length as int, f) < usize::MAX
        &&& next_multiplicity(self.flist@, f.name@) <= usize::MAX
    }

    /// Creates an empty record.
    pub fn new(name: &str, description: &str, length: usize) -> (r: Record<T>)
        requires
            name@.len() > 0,
        ensures
            r.name@ == name@,
            r.description@ == description@,
            r.declared_length == length,
            r.flist@.len() == 0,
            r.calculated_length == 0,
            multiplicities_counted(r.flist@),
            tiled(r.flist@, 0),
    {
        Record {
            name: name.to_owned(),
            description: description.to_owned(),
            declared_length: length,
            flist: Vec::new(),
            calculated_length: 0,
            reader_mode: PhantomData,
        }
    }

    /// Appends a field, setting its index, offset, bounds and multiplicity, and
    /// growing the calculated length to cover it.
    pub fn push(&mut self, field: Field)
        requires
            old(self).can_push(field),
        ensures
            pushed(*old(self), field, *final(self)),
            multiplicities_below_count(old(self).flist@) ==> multiplicities_below_count(
                final(self).flist@,
            ),
            multiplicities_counted(old(self).flist@) ==> multiplicities_counted(final(self).flist@),
            tiled(old(self).flist@, old(self).calculated_length as int) && field.creation_type
                == FieldCreationType::ByLength ==> tiled(
                final(self).flist@,
                final(self).calculated_length as int,
            ),
    {
        let ghost old_field = field;
        let mut field = field;
        let n = self.flist.len();
        field.index = n;
        field.offset_from_origin = self.calculated_length;
        match field.creation_type {
            FieldCreationType::ByLength => {
                field.lower_offset = field.offset_from_origin;
                field.upper_offset = field.offset_from_origin + field.length - 1;
                self.calculated_length = self.calculated_length + field.length;
            },
            FieldCreationType::ByOffset => {
                if self.calculated_length < field.upper_offset + 1 {
                    self.calculated_length = field.upper_offset + 1;
                }
            },
        }
        field.multiplicity = self.next_multiplicity_of(&field.name);
        self.flist.push(field);
        assert(self.flist@.drop_last() =~= old(self).flist@);
        proof {
            assert(self.flist@ =~= old(self).flist@.push(field));
            if multiplicities_counted(old(self).flist@) {
                law_push_multiplicity(old(self).flist@, field);
            }
            if tiled(old(self).flist@, old(self).calculated_length as int)
                && field.creation_type == FieldCreationType::ByLength {
                law_push_by_length_keeps_tiling(
                    old(self).flist@,
                    old(self).calculated_length as int,
                    old_field,
                    field,
                );
            }
            if multiplicities_below_count(old(self).flist@) {
                lemma_next_multiplicity_bounded(old(self).flist@, field.name@);
                assert forall|i: int| 0 <= i < self.flist@.len() implies #[trigger] self.flist@[i].multiplicity
                    < self.flist@.len() by {
                    if i < old(self).flist@.len() {
                        assert(self.flist@[i] == old(self).flist@[i]);
                    }
                }
            }
        }
    }

    /// Multiplicity that a new field named `name` would get.
    fn next_multiplicity_of(&self, name: &String) -> (r: usize)
        requires
            next_multiplicity(self.flist@, name@) <= usize::MAX,
        ensures
            r == next_multiplicity(self.flist@, name@),
    {
        let mut k: usize = self.flist.len();
        assert(self.flist@.subrange(0, k as int) =~= self.flist@);
        while k > 0
            invariant
                k <= self.flist@.len(),
                next_multiplicity(self.flist@, name@) <= usize::MAX,
                next_multiplicity(self.flist@, name@) == next_multiplicity(
                    self.flist@.subrange(0, k as int),
                    name@,
                ),
            decreases k,
        {
            assert(self.flist@.subrange(0, k as int).drop_last() =~= self.flist@.subrange(
                0,
                k - 1,
            ));
            if self.flist[k - 1].name == *name {
                let ghost sub = self.flist@.subrange(0, k as int);
                assert(sub.last() == self.flist@[k - 1]);
                assert(next_multiplicity(sub, name@) == sub.last().multiplicity + 1);
                return self.flist[k - 1].multiplicity + 1;
            }
            k = k - 1;
        }
        0
    }

    /// Whether a new field named `name` can get its multiplicity without an overflow.
    pub fn multiplicity_fits(&self, name: &String) -> (r: bool)
        ensures
            r == (next_multiplicity(self.flist@, name@) <= usize::MAX),
    {
        let mut k: usize = self.flist.len();
        assert(self.flist@.subrange(0, k as int) =~= self.flist@);
        while k > 0
            invariant
                k <= self.flist@.len(),
                next_multiplicity(self.flist@, name@) == next_multiplicity(
                    self.flist@.subrange(0, k as int),
                    name@,
                ),
            decreases k,
        {
            let ghost sub = self.flist@.subrange(0, k as int);
            assert(sub.drop_last() =~= self.flist@.subrange(0, k - 1));
            if self.flist[k - 1].name == *name {
                assert(sub.last() == self.flist@[k - 1]);
                return self.flist[k - 1].multiplicity < usize::MAX;
            }
            k = k - 1;
        }
        true
    }

    /// Whether some field is named `fname`.
    pub fn contains_field(&self, fname: &str) -> (r: bool)
        ensures
            r == has_field(self.flist@, fname@),
    {
        let mut i: usize = 0;
        while i < self.flist.len()
            invariant
                i <= self.flist@.len(),
                forall|k: int| 0 <= k < i ==> self.flist@[k].name@ != fname@,
            decreases self.flist@.len() - i,
        {
            if crate::text::str_eq(self.flist[i].name.as_str(), fname) {
                return true;
            }
            i = i + 1;
        }
        false
    }

    /// The number of fields.
    pub fn count(&self) -> (r: usize)
        ensures
            r == self.flist@.len(),
    {
        self.flist.len()
    }

    /// The field at position `i`, if there is one.
    pub fn field_at(&self, i: usize) -> (r: Option<&Field>)
        ensures
            i < self.flist@.len() ==> r == Some(&self.flist@[i as int]),
            i >= self.flist@.len() ==> r is None,
    {
        if i < self.flist.len() {
            Some(&self.flist[i])
        } else {
            None
        }
    }

    /// The fields named `fname`, in order, or `None` when there is none.
    pub fn get(&self, fname: &str) -> (r: Option<Vec<&Field>>)
        ensures
            r is None <==> named(self.flist@, fname@).len() == 0,
            r matches Some(v) ==> refers_to(v@, named(self.flist@, fname@)),
    {
        let mut out: Vec<&Field> = Vec::new();
        let mut i: usize = 0;
        while i < self.flist.len()
            invariant
                i <= self.flist@.len(),
                refers_to(out@, named(self.flist@.subrange(0, i as int), fname@)),
            decreases self.flist@.len() - i,
        {
            assert(self.flist@.subrange(0, i + 1).drop_last() =~= self.flist@.subrange(
                0,
                i as int,
            ));
            if crate::text::str_eq(self.flist[i].name.as_str(), fname) {
                out.push(&self.flist[i]);
            }
            i = i + 1;
        }
        assert(self.flist@.subrange(0, i as int) =~= self.flist@);
        if out.len() == 0 {
            None
        } else {
            Some(out)
        }
    }

    /// The fields for which `pred` holds, in order, or `None` when there is none.
    pub fn filter<F: Fn(&Field) -> bool>(&self, pred: F) -> (r: Option<Vec<&Field>>)
        requires
            forall|f: &Field| #[trigger] pred.requires((f,)),
        ensures
            exists|marks: Seq<bool>|
                {
                    &&& marks.len() == self.flist@.len()
                    &&& forall|i: int|
                        0 <= i < marks.len() ==> #[trigger] pred.ensures(
                            (&self.flist@[i],),
                            marks[i],
                        )
                    &&& r is None <==> marked(self.flist@, marks, true).len() == 0
                    &&& r matches Some(v) ==> refers_to(v@, marked(self.flist@, marks, true))
                },
    {
        let mut out: Vec<&Field> = Vec::new();
        let ghost mut marks: Seq<bool> = Seq::empty();
        let mut i: usize = 0;
        while i < self.flist.len()
            invariant
                i <= self.flist@.len(),
                forall|f: &Field| #[trigger] pred.requires((f,)),
                marks.len() == i,
                forall|k: int|
                    0 <= k < i ==> #[trigger] pred.ensures((&self.flist@[k],), marks[k]),
                refers_to(out@, marked(self.flist@.subrange(0, i as int), marks, true)),
            decreases self.flist@.len() - i,
        {
            let keep = pred(&self.flist[i]);
            proof {
                let sub = self.flist@.subrange(0, i + 1);
                assert(sub.drop_last() =~= self.flist@.subrange(0, i as int));
                assert(marks.push(keep).drop_last() =~= marks);
                marks = marks.push(keep);
            }
            if keep {
                out.push(&self.flist[i]);
            }
            i = i + 1;
        }
        assert(self.flist@.subrange(0, i as int) =~= self.flist@);
        if out.len() == 0 {
            None
        } else {
            Some(out)
        }
    }

    /// Keeps the fields for which `pred(f) == want`, in order; the others are dropped.
    fn keep_where<F: Fn(&Field) -> bool>(&mut self, pred: &F, want: bool) -> (marks: Ghost<
        Seq<bool>,
    >)
        requires
            forall|f: &Field| #[trigger] pred.requires((f,)),
        ensures
            marks@.len() == old(self).flist@.len(),
            forall|i: int|
                0 <= i < marks@.len() ==> #[trigger] pred.ensures(
                    (&old(self).flist@[i],),
                    marks@[i],
                ),
            final(self).flist@ == marked(old(self).flist@, marks@, want),
            final(self).name == old(self).name,
            final(self).description == old(self).description,
            final(self).declared_length == old(self).declared_length,
            final(self).calculated_length == old(self).calculated_length,
    {
        let ghost orig = self.flist@;
        let mut taken: Vec<Field> = Vec::new();
        std::mem::swap(&mut taken, &mut self.flist);
        let total = taken.len();
        // reverse the fields, so that popping hands them back in order
        let mut rev: Vec<Field> = Vec::new();
        while taken.len() > 0
            invariant
                taken@.len() + rev@.len() == orig.len(),
                taken@ == orig.subrange(0, taken@.len() as int),
                forall|k: int| 0 <= k < rev@.len() ==> #[trigger] rev@[k] == orig[orig.len() - 1 - k],
            decreases taken@.len(),
        {
            let f = taken.pop().unwrap();
            rev.push(f);
        }
        let ghost mut marks: Seq<bool> = Seq::empty();
        let mut i: usize = 0;
        assert(self.flist@ =~= marked(orig.subrange(0, 0), marks, want));
        while rev.len() > 0
            invariant
                i + rev@.len() == orig.len(),
                orig.len() == total,
                forall|k: int| 0 <= k < rev@.len() ==> #[trigger] rev@[k] == orig[orig.len() - 1 - k],
                forall|f: &Field| #[trigger] pred.requires((f,)),
                marks.len() == i,
                forall|k: int| 0 <= k < i ==> #[trigger] pred.ensures((&orig[k],), marks[k]),
                self.flist@ == marked(orig.subrange(0, i as int), marks, want),
                self.name == old(self).name,
                self.description == old(self).description,
                self.declared_length == old(self).declared_length,
                self.calculated_length == old(self).calculated_length,
            decreases rev@.len(),
        {
            let f = rev.pop().unwrap();
            assert(f == orig[i as int]);
            let b = pred(&f);
            proof {
                assert(orig.subrange(0, i + 1).drop_last() =~= orig.subrange(0, i as int));
                assert(marks.push(b).drop_last() =~= marks);
                marks = marks.push(b);
            }
            if b == want {
                self.flist.push(f);
            }
            i = i + 1;
        }
        assert(orig.subrange(0, i as int) =~= orig);
        Ghost(marks)
    }

    /// Keeps only the fields for which `pred` holds.
    pub fn retain<F: Fn(&Field) -> bool>(&mut self, pred: F)
        requires
            forall|f: &Field| #[trigger] pred.requires((f,)),
        ensures
            exists|marks: Seq<bool>|
                {
                    &&& marks.len() == old(self).flist@.len()
                    &&& forall|i: int|
                        0 <= i < marks.len() ==> #[trigger] pred.ensures(
                            (&old(self).flist@[i],),
                            marks[i],
                        )
                    &&& final(self).flist@ == marked(old(self).flist@, marks, true)
                },
            final(self).name == old(self).name,
            final(self).description == old(self).description,
            final(self).declared_length == old(self).declared_length,
            final(self).calculated_length == old(self).calculated_length,
    {
        let _marks = self.keep_where(&pred, true);
    }

    /// Drops the fields for which `pred` holds.
    pub fn remove<F: Fn(&Field) -> bool>(&mut self, pred: F)
        requires
            forall|f: &Field| #[trigger] pred.requires((f,)),
        ensures
            exists|marks: Seq<bool>|
                {
                    &&& marks.len() == old(self).flist@.len()
                    &&& forall|i: int|
                        0 <= i < marks.len() ==> #[trigger] pred.ensures(
                            (&old(self).flist@[i],),
                            marks[i],
                        )
                    &&& final(self).flist@ == marked(old(self).flist@, marks, false)
                },
            final(self).name == old(self).name,
            final(self).description == old(self).description,
            final(self).declared_length == old(self).declared_length,
            final(self).calculated_length == old(self).calculated_length,
    {
        let _marks = self.keep_where(&pred, false);
    }
}


impl<T> Record<T> {
    /// The raw values of all fields, concatenated in order.
    pub fn value(&self) -> (r: String)
        ensures
            r@ == concat_raw(self.flist@),
    {
        let mut r = String::new();
        let mut i: usize = 0;
        while i < self.flist.len()
            invariant
                i <= self.flist@.len(),
                r@ == concat_raw(self.flist@.subrange(0, i as int)),
            decreases self.flist@.len() - i,
        {
            assert(self.flist@.subrange(0, i + 1).drop_last() =~= self.flist@.subrange(
                0,
                i as int,
            ));
            r.append(self.flist[i].raw_value.as_str());
            i = i + 1;
        }
        assert(self.flist@.subrange(0, i as int) =~= self.flist@);
        r
    }

    /// Position of the `i`-th field named `fname`.
    fn position_of(&self, fname: &str, i: usize) -> (r: usize)
        requires
            i < named(self.flist@, fname@).len(),
        ensures
            r < self.flist@.len(),
            self.flist@[r as int] == named(self.flist@, fname@)[i as int],
    {
        let mut seen: usize = 0;
        let mut k: usize = 0;
        assert(self.flist@.subrange(0, 0) =~= Seq::<Field>::empty());
        while k < self.flist.len()
            invariant
                k <= self.flist@.len(),
                i < named(self.flist@, fname@).len(),
                seen == named(self.flist@.subrange(0, k as int), fname@).len(),
                seen <= i,
                forall|j: int|
                    0 <= j < seen ==> #[trigger] named(self.flist@.subrange(0, k as int), fname@)[j]
                        == named(self.flist@, fname@)[j],
            decreases self.flist@.len() - k,
        {
            let ghost pre = self.flist@.subrange(0, k as int);
            let ghost next = self.flist@.subrange(0, k + 1);
            assert(next.drop_last() =~= pre);
            proof {
                lemma_named_prefix(self.flist@, k + 1, fname@);
            }
            if crate::text::str_eq(self.flist[k].name.as_str(), fname) {
                if seen == i {
                    assert(named(next, fname@)[i as int] == self.flist@[k as int]);
                    return k;
                }
                seen = seen + 1;
            }
            k = k + 1;
        }
        assert(self.flist@.subrange(0, k as int) =~= self.flist@);
        0
    }

    /// The blank-stripped value of the first field named `fname`.
    pub fn get_value(&self, fname: &str) -> (r: &str)
        requires
            named(self.flist@, fname@).len() > 0,
        ensures
            r@ == named(self.flist@, fname@)[0].str_value@,
    {
        let k = self.position_of(fname, 0);
        self.flist[k].str_value.as_str()
    }

    /// The blank-stripped value of the `i`-th field (from 0) named `fname`.
    pub fn get_value_with_index(&self, fname: &str, i: usize) -> (r: &str)
        requires
            i < named(self.flist@, fname@).len(),
        ensures
            r@ == named(self.flist@, fname@)[i as int].str_value@,
    {
        let k = self.position_of(fname, i);
        self.flist[k].str_value.as_str()
    }
}

/// The fields named `name` among the first `k` fields come first among all of them.
proof fn lemma_named_prefix(fl: Seq<Field>, k: int, name: Seq<char>)
    requires
        0 <= k <= fl.len(),
    ensures
        named(fl.subrange(0, k), name).len() <= named(fl, name).len(),
        forall|j: int|
            0 <= j < named(fl.subrange(0, k), name).len() ==> #[trigger] named(
                fl.subrange(0, k),
                name,
            )[j] == named(fl, name)[j],
    decreases fl.len() - k,
{
    if k < fl.len() {
        lemma_named_prefix(fl, k + 1, name);
        let a = fl.subrange(0, k);
        let b = fl.subrange(0, k + 1);
        assert(b.drop_last() =~= a);
        assert forall|j: int| 0 <= j < named(a, name).len() implies #[trigger] named(a, name)[j]
            == named(b, name)[j] by {
            if b.last().name@ == name {
                assert(named(b, name) == named(a, name).push(b.last()));
            }
        }
    } else {
        assert(fl.subrange(0, k) =~= fl);
    }
}

impl<T: ReadMode> Record<T> {
    /// The line as decoding reads it: a line shorter than the calculated length,
    /// counted in characters or in bytes as the mode says, is padded with blanks to
    /// that length and one blank more.
    pub fn adjust_value(&self, value: &str) -> (r: String)
        requires
            self.calculated_length < usize::MAX,
        ensures
            r@ == padded(value@, self.calculated_length as nat, T::by_char()),
    {
        let n = if T::is_by_char() {
            value.unicode_len()
        } else {
            value.as_bytes().len()
        };
        if n < self.calculated_length {
            pad_blanks(value, self.calculated_length + 1 - n)
        } else {
            value.to_owned()
        }
    }

    /// Decodes `value`: each field receives what it covers of the (padded) line.
    pub fn set_value(&mut self, value: &str)
        requires
            old(self).calculated_length < usize::MAX,
            T::by_char() || vstd::utf8::is_ascii_chars(value@),
        ensures
            decoded_from(*old(self), value@, *final(self)),
    {
        let s = self.adjust_value(value);
        if T::is_by_char() {
            self.decode_by_char(s.as_str());
        } else {
            proof {
                assert(vstd::utf8::is_ascii_chars(s@)) by {
                    assert forall|k: int| 0 <= k < s@.len() implies '\0' <= #[trigger] s@[k]
                        <= '\u{7f}' by {
                        if k >= value@.len() {
                            assert(s@[k] == ' ');
                        }
                    }
                }
            }
            self.decode_by_byte(s.as_str());
        }
    }

    /// Each field takes `length` characters from its lower bound.
    fn decode_by_char(&mut self, s: &str)
        requires
            T::by_char(),
        ensures
            final(self).name == old(self).name,
            final(self).description == old(self).description,
            final(self).declared_length == old(self).declared_length,
            final(self).calculated_length == old(self).calculated_length,
            fields_decoded(old(self).flist@, s@, true, final(self).flist@),
    {
        let n = s.unicode_len();
        let mut i: usize = 0;
        while i < self.flist.len()
            invariant
                n == s@.len(),
                i <= self.flist@.len(),
                self.flist@.len() == old(self).flist@.len(),
                self.name == old(self).name,
                self.description == old(self).description,
                self.declared_length == old(self).declared_length,
                self.calculated_length == old(self).calculated_length,
                forall|k: int| i <= k < self.flist@.len() ==> #[trigger] self.flist@[k] == old(
                    self,
                ).flist@[k],
                forall|k: int|
                    0 <= k < i ==> {
                        &&& same_definition(#[trigger] self.flist@[k], old(self).flist@[k])
                        &&& self.flist@[k].raw_value@ == field_slice(s@, old(self).flist@[k], true)
                        &&& self.flist@[k].str_value@ == trimmed(
                            field_slice(s@, old(self).flist@[k], true),
                        )
                    },
            decreases self.flist@.len() - i,
        {
            let lower = self.flist[i].lower_offset;
            let length = self.flist[i].length;
            let (from, to) = if lower >= n {
                (n, n)
            } else if length < n - lower {
                (lower, lower + length)
            } else {
                (lower, n)
            };
            let piece = s.substring_char(from, to);
            assert(piece@ == field_slice(s@, old(self).flist@[i as int], true));
            self.flist[i].set_value(piece);
            i = i + 1;
        }
    }

    /// Each field takes the bytes from its lower bound through its upper bound.
    fn decode_by_byte(&mut self, s: &str)
        requires
            vstd::utf8::is_ascii_chars(s@),
        ensures
            final(self).name == old(self).name,
            final(self).description == old(self).description,
            final(self).declared_length == old(self).declared_length,
            final(self).calculated_length == old(self).calculated_length,
            fields_decoded(old(self).flist@, s@, false, final(self).flist@),
    {
        let n = s.unicode_len();
        let mut i: usize = 0;
        while i < self.flist.len()
            invariant
                n == s@.len(),
                vstd::utf8::is_ascii_chars(s@),
                i <= self.flist@.len(),
                self.flist@.len() == old(self).flist@.len(),
                self.name == old(self).name,
                self.description == old(self).description,
                self.declared_length == old(self).declared_length,
                self.calculated_length == old(self).calculated_length,
                forall|k: int| i <= k < self.flist@.len() ==> #[trigger] self.flist@[k] == old(
                    self,
                ).flist@[k],
                forall|k: int|
                    0 <= k < i ==> {
                        &&& same_definition(#[trigger] self.flist@[k], old(self).flist@[k])
                        &&& self.flist@[k].raw_value@ == field_slice(s@, old(self).flist@[k], false)
                        &&& self.flist@[k].str_value@ == trimmed(
                            field_slice(s@, old(self).flist@[k], false),
                        )
                    },
            decreases self.flist@.len() - i,
        {
            let lower = self.flist[i].lower_offset;
            let upper = self.flist[i].upper_offset;
            let (from, to) = if lower >= n || upper < lower {
                (n, n)
            } else if upper < n - 1 {
                (lower, upper + 1)
            } else {
                (lower, n)
            };
            let piece = s.substring_ascii(from, to);
            assert(piece@ == field_slice(s@, old(self).flist@[i as int], false));
            self.flist[i].set_value(piece);
            i = i + 1;
        }
    }
}

/// The record as text: `(NAME='value',NAME='value',...)`, with each field's
/// blank-stripped value.
pub open spec fn display_of(fl: Seq<Field>) -> Seq<char> {
    "("@ + display_items(fl) + ")"@
}

/// The `NAME='value'` items of `fl`, separated by commas.
pub open spec fn display_items(fl: Seq<Field>) -> Seq<char>
    decreases fl.len(),
{
    if fl.len() == 0 {
        Seq::empty()
    } else if fl.len() == 1 {
        display_item(fl[0])
    } else {
        display_items(fl.drop_last()) + ","@ + display_item(fl.last())
    }
}

pub open spec fn display_item(f: Field) -> Seq<char> {
    f.name@ + "='"@ + f.str_value@ + "'"@
}

impl<T> Record<T> {
    /// The record as text: `(NAME='value',NAME='value',...)`.
    pub fn to_string(&self) -> (r: String)
        ensures
            r@ == display_of(self.flist@),
    {
        let mut items = String::new();
        let mut i: usize = 0;
        while i < self.flist.len()
            invariant
                i <= self.flist@.len(),
                items@ == display_items(self.flist@.subrange(0, i as int)),
            decreases self.flist@.len() - i,
        {
            let ghost sub = self.flist@.subrange(0, i + 1);
            assert(sub.drop_last() =~= self.flist@.subrange(0, i as int));
            if i > 0 {
                items.append(",");
            }
            items.append(self.flist[i].name.as_str());
            items.append("='");
            items.append(self.flist[i].str_value.as_str());
            items.append("'");
            proof {
                if i == 0 {
                    assert(items@ =~= display_item(sub[0]));
                } else {
                    assert(items@ =~= display_items(sub.drop_last()) + ","@ + display_item(
                        sub.last(),
                    ));
                }
            }
            i = i + 1;
        }
        assert(self.flist@.subrange(0, i as int) =~= self.flist@);
        let mut r = "(".to_owned();
        r.append(items.as_str());
        r.append(")");
        r
    }
}

impl<T> Clone for Record<T> {
    /// A deep copy: every field is copied with all its attributes.
    fn clone(&self) -> (r: Record<T>)
        ensures
            r.name@ == self.name@,
            r.description@ == self.description@,
            r.declared_length == self.declared_length,
            r.calculated_length == self.calculated_length,
            r.flist@.len() == self.flist@.len(),
            forall|i: int|
                0 <= i < self.flist@.len() ==> {
                    &&& same_definition(#[trigger] r.flist@[i], self.flist@[i])
                    &&& r.flist@[i].raw_value@ == self.flist@[i].raw_value@
                    &&& r.flist@[i].str_value@ == self.flist@[i].str_value@
                },
    {
        let mut flist: Vec<Field> = Vec::new();
        let mut i: usize = 0;
        while i < self.flist.len()
            invariant
                i <= self.flist@.len(),
                flist@.len() == i,
                forall|k: int|
                    0 <= k < i ==> {
                        &&& same_definition(#[trigger] flist@[k], self.flist@[k])
                        &&& flist@[k].raw_value@ == self.flist@[k].raw_value@
                        &&& flist@[k].str_value@ == self.flist@[k].str_value@
                    },
            decreases self.flist@.len() - i,
        {
            flist.push(self.flist[i].clone());
            i = i + 1;
        }
        Record {
            name: self.name.clone(),
            description: self.description.clone(),
            declared_length: self.declared_length,
            flist: flist,
            calculated_length: self.calculated_length,
            reader_mode: PhantomData,
        }
    }
}

} // verus!
