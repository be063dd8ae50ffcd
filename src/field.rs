//! One fixed-width column of a record: its name, type and width, where it sits
//! in the record, and the value last decoded into it.
use vstd::prelude::*;
use vstd::utf8::encode_utf8;
use std::rc::Rc;

use crate::fieldtype::FieldDataType;
use crate::text::{trim_blanks, trimmed};

verus! {

/// How a field was defined: by its width, or by explicit bounds.
#[derive(Debug, Clone, Copy, PartialEq, Eq, Structural)]
pub enum FieldCreationType {
    ByLength,
    ByOffset,
}

#[derive(Debug)]
pub struct Field {
    /// field name
    pub name: String,
    /// field description
    pub description: String,
    /// field width, in the record's addressing unit
    pub length: usize,
    /// shared type of the field
    pub ftype: Rc<FieldDataType>,
    /// value, copied as-is
    pub raw_value: String,
    /// blank-stripped value
    pub str_value: String,
    /// offset of this field within its parent record
    pub offset_from_origin: usize,
    /// index of this field within its record
    pub index: usize,
    /// first position (0-based, inclusive) of the field within its record
    pub lower_offset: usize,
    /// last position (0-based, inclusive) of the field within its record
    pub upper_offset: usize,
    /// occurrence number of this field among the same-named fields of its record
    pub multiplicity: usize,
    /// display width (the larger of the width and the name's length)
    pub cell_size: usize,
    /// how the field was defined
    pub creation_type: FieldCreationType,
}

/// A well-formed field: a name, a positive width, and for a field given by its
/// bounds, bounds in order that span exactly its width.
pub open spec fn field_wf(f: Field) -> bool {
    &&& f.name@.len() > 0
    &&& f.length >= 1
    &&& f.creation_type == FieldCreationType::ByOffset ==> f.lower_offset <= f.upper_offset
        && f.length == f.upper_offset - f.lower_offset + 1
}

/// `a` and `b` agree on everything but their values.
pub open spec fn same_definition(a: Field, b: Field) -> bool {
    &&& a.name@ == b.name@
    &&& a.description@ == b.description@
    &&& a.length == b.length
    &&& a.ftype == b.ftype
    &&& a.offset_from_origin == b.offset_from_origin
    &&& a.index == b.index
    &&& a.lower_offset == b.lower_offset
    &&& a.upper_offset == b.upper_offset
    &&& a.multiplicity == b.multiplicity
    &&& a.cell_size == b.cell_size
    &&& a.creation_type == b.creation_type
}

/// The display width of a field of width `length` named `name`: the larger of the
/// width and the length in bytes of the name.
pub open spec fn cell_size_of(length: int, name: Seq<char>) -> int {
    if length >= encode_utf8(name).len() {
        length
    } else {
        encode_utf8(name).len() as int
    }
}

/// `f` is a new field given by its width `length`, not yet placed in a record.
pub open spec fn built_by_length(
    f: Field,
    name: Seq<char>,
    description: Seq<char>,
    ftype: Rc<FieldDataType>,
    length: int,
) -> bool {
    &&& field_wf(f)
    &&& f.name@ == name
    &&& f.description@ == description
    &&& f.length == length
    &&& f.ftype == ftype
    &&& f.raw_value@.len() == 0
    &&& f.str_value@.len() == 0
    &&& f.offset_from_origin == 0
    &&& f.index == 0
    &&& f.lower_offset == 0
    &&& f.upper_offset == 0
    &&& f.multiplicity == 0
    &&& f.cell_size == cell_size_of(length, name)
    &&& f.creation_type == FieldCreationType::ByLength
}

/// `f` is a new field given by its 1-based inclusive bounds `lower` and `upper`,
/// kept 0-based.
pub open spec fn built_by_offset(
    f: Field,
    name: Seq<char>,
    description: Seq<char>,
    ftype: Rc<FieldDataType>,
    lower: int,
    upper: int,
) -> bool {
    &&& field_wf(f)
    &&& f.name@ == name
    &&& f.description@ == description
    &&& f.length == upper - lower + 1
    &&& f.ftype == ftype
    &&& f.raw_value@.len() == 0
    &&& f.str_value@.len() == 0
    &&& f.offset_from_origin == 0
    &&& f.index == 0
    &&& f.lower_offset == lower - 1
    &&& f.upper_offset == upper - 1
    &&& f.multiplicity == 0
    &&& f.cell_size == cell_size_of(upper - lower + 1, name)
    &&& f.creation_type == FieldCreationType::ByOffset
}

impl Field {
    /// Creates a field given by its width; the owning record sets its position.
    pub fn new(name: &str, description: &str, ftype: &Rc<FieldDataType>, length: usize) -> (r:
        Field)
        requires
            name@.len() > 0,
            length > 0,
        ensures
            built_by_length(r, name@, description@, *ftype, length as int),
    {
        let name_len = name.as_bytes().len();
        Field {
            name: name.to_owned(),
            description: description.to_owned(),
            length: length,
            ftype: Rc::clone(ftype),
            raw_value: String::new(),
            str_value: String::new(),
            offset_from_origin: 0,
            index: 0,
            lower_offset: 0,
            upper_offset: 0,
            multiplicity: 0,
            cell_size: if length >= name_len {
                length
            } else {
                name_len
            },
            creation_type: FieldCreationType::ByLength,
        }
    }

    /// Creates a field given by its bounds, 1-based and inclusive; they are kept 0-based.
    pub fn new_with_offset(
        name: &str,
        description: &str,
        ftype: &Rc<FieldDataType>,
        lower_offset: usize,
        upper_offset: usize,
    ) -> (r: Field)
        requires
            name@.len() > 0,
            1 <= lower_offset <= upper_offset,
        ensures
            built_by_offset(r, name@, description@, *ftype, lower_offset as int, upper_offset as int),
            r.length == upper_offset - lower_offset + 1,
    {
        let length = upper_offset - lower_offset + 1;
        let name_len = name.as_bytes().len();
        Field {
            name: name.to_owned(),
            description: description.to_owned(),
            length: length,
            ftype: Rc::clone(ftype),
            raw_value: String::new(),
            str_value: String::new(),
            offset_from_origin: 0,
            index: 0,
            lower_offset: lower_offset - 1,
            upper_offset: upper_offset - 1,
            multiplicity: 0,
            cell_size: if length >= name_len {
                length
            } else {
                name_len
            },
            creation_type: FieldCreationType::ByOffset,
        }
    }

    /// Stores `val` as-is, and a copy of it without leading and trailing blanks.
    pub fn set_value(&mut self, val: &str)
        ensures
            same_definition(*final(self), *old(self)),
            final(self).raw_value@ == val@,
            final(self).str_value@ == trimmed(val@),
    {
        self.str_value = trim_blanks(val);
        self.raw_value = val.to_owned();
    }

    /// The blank-stripped value.
    pub fn value(&self) -> (r: &String)
        ensures
            r@ == self.str_value@,
    {
        &self.str_value
    }

    /// The width of the field.
    pub fn len(&self) -> (r: usize)
        ensures
            r == self.length,
    {
        self.length
    }
}

impl Clone for Field {
    /// A deep copy of every attribute, positions and multiplicity included.
    fn clone(&self) -> (r: Field)
        ensures
            same_definition(r, *self),
            r.raw_value@ == self.raw_value@,
            r.str_value@ == self.str_value@,
    {
        Field {
            name: self.name.clone(),
            description: self.description.clone(),
            length: self.length,
            ftype: Rc::clone(&self.ftype),
            raw_value: self.raw_value.clone(),
            str_value: self.str_value.clone(),
            offset_from_origin: self.offset_from_origin,
            index: self.index,
            lower_offset: self.lower_offset,
            upper_offset: self.upper_offset,
            multiplicity: self.multiplicity,
            cell_size: self.cell_size,
            creation_type: self.creation_type,
        }
    }
}

} // verus!
