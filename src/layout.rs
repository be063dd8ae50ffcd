//! The schema catalog: the field types and record templates that a schema
//! document declares, built from the document's element events.
//!
//! The events are read in order:
//!
//! * `meta` sets the uniform record length, version, description, schema name,
//!   ignore-line pattern and skip-field list;
//! * `fieldtype` registers a field type (`name`, `type`, optional `pattern`);
//! * `record` opens a record template (`name`, `description`, optional `length`),
//!   which receives the fields declared after it;
//! * `field` appends a field (`name`, `description`, `type`, and either `length`
//!   or 1-based inclusive `start` and `end`) to the record opened last.
use vstd::prelude::*;
use std::rc::Rc;

use crate::field::{Field, built_by_length, built_by_offset};
use crate::fieldtype::{FieldDataType, base_kind_named, is_base_type_name};
use crate::record::{Record, has_field, marked, next_multiplicity, pushed};
use crate::text::{decimal_of, parse_decimal, str_eq, trimmed};
use crate::util::{into_field_list, split_on};

verus! {

/// An event of a schema document: the start of an element, with its name and its
/// attributes, or anything else.
#[derive(Debug)]
pub enum SchemaEvent {
    Start { tag: String, attributes: Vec<(String, String)> },
    Other,
}

/// A schema event as plain values.
pub enum EventModel {
    Start { tag: Seq<char>, attributes: Seq<(Seq<char>, Seq<char>)> },
    Other,
}

pub open spec fn attributes_model(a: Seq<(String, String)>) -> Seq<(Seq<char>, Seq<char>)> {
    a.map_values(|p: (String, String)| (p.0@, p.1@))
}

impl View for SchemaEvent {
    type V = EventModel;

    open spec fn view(&self) -> EventModel {
        match self {
            SchemaEvent::Start { tag, attributes } => EventModel::Start {
                tag: tag@,
                attributes: attributes_model(attributes@),
            },
            SchemaEvent::Other => EventModel::Other,
        }
    }
}

pub open spec fn events_model(v: Seq<SchemaEvent>) -> Seq<EventModel> {
    v.map_values(|e: SchemaEvent| e@)
}

/// The events that an XML parser reads from `text`, up to its first error.
pub uninterp spec fn xml_events(text: Seq<char>) -> Seq<EventModel>;

/// Relies on xml-rs's `EventReader`: the events it reads from the document, in
/// order, element starts with their local names and attribute values, up to the
/// first error. The events depend on the text alone.
#[verifier::external_body]
fn read_xml_events(text: &str) -> (r: Vec<SchemaEvent>)
    ensures
        events_model(r@) == xml_events(text@),
{
    let mut out = Vec::new();
    for e in xml::reader::EventReader::new(text.as_bytes()) {
        match e {
            Ok(xml::reader::XmlEvent::StartElement { name, attributes, .. }) => {
                let attributes = attributes.into_iter().map(|a| (a.name.local_name, a.value));
                out.push(SchemaEvent::Start { tag: name.local_name, attributes: attributes.collect() })
            },
            Ok(_) => out.push(SchemaEvent::Other),
            Err(_) => break,
        }
    }
    out
}

/// Whether a pattern is a valid regular expression.
pub uninterp spec fn regex_compiles(pattern: Seq<char>) -> bool;

/// Relies on `regex::Regex::new`: whether the pattern compiles, which for a given
/// target depends on the pattern alone.
#[verifier::external_body]
fn pattern_compiles(pattern: &str) -> (r: bool)
    ensures
        r == regex_compiles(pattern@),
{
    regex::Regex::new(pattern).is_ok()
}

/// Why a schema was refused.
#[derive(Debug, Clone, Copy, PartialEq, Eq, Structural)]
pub enum LayoutError {
    /// A mandatory attribute is missing
    MissingAttribute,
    /// A numeric attribute is not a decimal number that fits
    BadNumber,
    /// The ignore-line pattern is not a valid regular expression
    BadPattern,
    /// A field type, record or field has an empty name
    EmptyName,
    /// A field type names an unknown base kind
    UnknownBaseType,
    /// A field type is declared twice
    DuplicateType,
    /// A field refers to an undeclared field type
    UnknownFieldType,
    /// A field's bounds are not `1 <= start <= end`
    BadBounds,
    /// A field comes before any record
    NoCurrentRecord,
    /// A field would carry a record's length, or a count, past the machine's limit
    TooLarge,
}

pub struct Layout<T> {
    /// Where the schema came from
    pub xml_file: String,
    /// Length shared by all records, or 0 when each record has its own
    pub rec_length: usize,
    /// Schema version
    pub version: String,
    /// Schema description
    pub description: String,
    /// SQL schema name
    pub schema: String,
    /// Pattern of the lines to leave out
    pub ignore_line: String,
    /// Comma-separated list of field names to leave out
    pub skip_field: String,
    /// Record templates, in order of declaration, with distinct names
    pub rec_map: Vec<Record<T>>,
    /// Field types, in order of declaration, with distinct ids
    pub ftypes: Vec<Rc<FieldDataType>>,
}

// ---------------------------------------------------------------------------
// Model of the catalog
// ---------------------------------------------------------------------------

/// The value of the last attribute named `name`.
pub open spec fn attr_value(attrs: Seq<(Seq<char>, Seq<char>)>, name: Seq<char>) -> Option<
    Seq<char>,
>
    decreases attrs.len(),
{
    if attrs.len() == 0 {
        None
    } else if attrs.last().0 == name {
        Some(attrs.last().1)
    } else {
        attr_value(attrs.drop_last(), name)
    }
}

/// The value of attribute `name`, or the empty string.
pub open spec fn attr_or_empty(attrs: Seq<(Seq<char>, Seq<char>)>, name: Seq<char>) -> Seq<char> {
    match attr_value(attrs, name) {
        Some(v) => v,
        None => Seq::empty(),
    }
}

/// Attribute `name` is there but is not a decimal number that fits.
pub open spec fn bad_number(attrs: Seq<(Seq<char>, Seq<char>)>, name: Seq<char>) -> bool {
    attr_value(attrs, name) matches Some(v) && decimal_of(v) is None
}

/// The number in attribute `name`, or 0 when it is absent.
pub open spec fn number_or_zero(attrs: Seq<(Seq<char>, Seq<char>)>, name: Seq<char>) -> int {
    match attr_value(attrs, name) {
        Some(v) => match decimal_of(v) {
            Some(n) => n as int,
            None => 0,
        },
        None => 0,
    }
}

/// Position of the last record named `name`, or -1.
pub open spec fn record_index<T>(rs: Seq<Record<T>>, name: Seq<char>) -> int
    decreases rs.len(),
{
    if rs.len() == 0 {
        -1
    } else if rs.last().name@ == name {
        rs.len() - 1
    } else {
        record_index(rs.drop_last(), name)
    }
}

/// Position of the last field type whose id is `id`, or -1.
pub open spec fn type_index(ts: Seq<Rc<FieldDataType>>, id: Seq<char>) -> int
    decreases ts.len(),
{
    if ts.len() == 0 {
        -1
    } else if ts.last().id@ == id {
        ts.len() - 1
    } else {
        type_index(ts.drop_last(), id)
    }
}

/// A catalog before any event.
pub open spec fn is_empty_layout<T>(l: Layout<T>) -> bool {
    &&& l.xml_file@.len() == 0
    &&& l.rec_length == 0
    &&& l.version@.len() == 0
    &&& l.description@.len() == 0
    &&& l.schema@.len() == 0
    &&& l.ignore_line@.len() == 0
    &&& l.skip_field@.len() == 0
    &&& l.rec_map@.len() == 0
    &&& l.ftypes@.len() == 0
}

/// `a` and `b` hold the same metadata.
pub open spec fn same_meta<T>(a: Layout<T>, b: Layout<T>) -> bool {
    &&& b.xml_file == a.xml_file
    &&& b.rec_length == a.rec_length
    &&& b.version == a.version
    &&& b.description == a.description
    &&& b.schema == a.schema
    &&& b.ignore_line == a.ignore_line
    &&& b.skip_field == a.skip_field
}

/// The error that a `meta` element with attributes `attrs` raises, if any.
pub open spec fn meta_error(attrs: Seq<(Seq<char>, Seq<char>)>) -> Option<LayoutError> {
    if bad_number(attrs, "reclength"@) {
        Some(LayoutError::BadNumber)
    } else if attr_value(attrs, "ignoreLine"@) matches Some(p) && !regex_compiles(p) {
        Some(LayoutError::BadPattern)
    } else {
        None
    }
}

/// `b` is `a` once a `meta` element with attributes `attrs` is read.
pub open spec fn meta_applied<T>(a: Layout<T>, attrs: Seq<(Seq<char>, Seq<char>)>, b: Layout<T>) -> bool {
    &&& b.xml_file == a.xml_file
    &&& b.rec_length == number_or_zero(attrs, "reclength"@)
    &&& b.version@ == attr_or_empty(attrs, "version"@)
    &&& b.description@ == attr_or_empty(attrs, "description"@)
    &&& b.schema@ == attr_or_empty(attrs, "schema"@)
    &&& b.ignore_line@ == attr_or_empty(attrs, "ignoreLine"@)
    &&& b.skip_field@ == attr_or_empty(attrs, "skipField"@)
    &&& b.rec_map == a.rec_map
    &&& b.ftypes == a.ftypes
}

/// The error that a `fieldtype` element raises in catalog `a`, if any.
pub open spec fn fieldtype_error<T>(a: Layout<T>, attrs: Seq<(Seq<char>, Seq<char>)>) -> Option<
    LayoutError,
> {
    if attr_value(attrs, "name"@) is None || attr_value(attrs, "type"@) is None {
        Some(LayoutError::MissingAttribute)
    } else if attr_or_empty(attrs, "name"@).len() == 0 {
        Some(LayoutError::EmptyName)
    } else if !is_base_type_name(attr_or_empty(attrs, "type"@)) {
        Some(LayoutError::UnknownBaseType)
    } else if type_index(a.ftypes@, attr_or_empty(attrs, "name"@)) >= 0 {
        Some(LayoutError::DuplicateType)
    } else {
        None
    }
}

/// `b` is `a` once a `fieldtype` element is read.
pub open spec fn fieldtype_applied<T>(
    a: Layout<T>,
    attrs: Seq<(Seq<char>, Seq<char>)>,
    b: Layout<T>,
) -> bool {
    &&& same_meta(a, b)
    &&& b.rec_map == a.rec_map
    &&& b.ftypes@.len() == a.ftypes@.len() + 1
    &&& b.ftypes@.drop_last() == a.ftypes@
    &&& b.ftypes@.last().id@ == attr_or_empty(attrs, "name"@)
    &&& base_kind_named(b.ftypes@.last().base_data_type, attr_or_empty(attrs, "type"@))
    &&& b.ftypes@.last().pattern@ == attr_or_empty(attrs, "pattern"@)
}

/// The error that a `record` element raises, if any.
pub open spec fn record_error(attrs: Seq<(Seq<char>, Seq<char>)>) -> Option<LayoutError> {
    if attr_value(attrs, "name"@) is None || attr_value(attrs, "description"@) is None {
        Some(LayoutError::MissingAttribute)
    } else if attr_or_empty(attrs, "name"@).len() == 0 {
        Some(LayoutError::EmptyName)
    } else if bad_number(attrs, "length"@) {
        Some(LayoutError::BadNumber)
    } else {
        None
    }
}

/// `r` is the empty record template that a `record` element declares.
pub open spec fn fresh_record<T>(r: Record<T>, attrs: Seq<(Seq<char>, Seq<char>)>) -> bool {
    &&& r.name@ == attr_or_empty(attrs, "name"@)
    &&& r.description@ == attr_or_empty(attrs, "description"@)
    &&& r.declared_length == number_or_zero(attrs, "length"@)
    &&& r.flist@.len() == 0
    &&& r.calculated_length == 0
}

/// `b` is `a` once a `record` element is read, and `cur` is the record opened: a
/// record of the same name is replaced in place, another one is appended.
pub open spec fn record_applied<T>(
    a: Layout<T>,
    attrs: Seq<(Seq<char>, Seq<char>)>,
    b: Layout<T>,
    cur: Option<usize>,
) -> bool {
    let k = record_index(a.rec_map@, attr_or_empty(attrs, "name"@));
    &&& same_meta(a, b)
    &&& b.ftypes == a.ftypes
    &&& if k >= 0 {
        &&& b.rec_map@.len() == a.rec_map@.len()
        &&& forall|i: int|
            0 <= i < a.rec_map@.len() && i != k ==> #[trigger] b.rec_map@[i] == a.rec_map@[i]
        &&& fresh_record(b.rec_map@[k], attrs)
        &&& cur == Some(k as usize)
    } else {
        &&& b.rec_map@.len() == a.rec_map@.len() + 1
        &&& b.rec_map@.drop_last() == a.rec_map@
        &&& fresh_record(b.rec_map@.last(), attrs)
        &&& cur == Some(a.rec_map@.len() as usize)
    }
}

/// The width of a `field` element: its `length`, or 0 when it is given by bounds.
pub open spec fn field_length(attrs: Seq<(Seq<char>, Seq<char>)>) -> int {
    number_or_zero(attrs, "length"@)
}

/// The error that a `field` element raises in catalog `a` with record `cur` open.
pub open spec fn field_error<T>(
    a: Layout<T>,
    cur: Option<usize>,
    attrs: Seq<(Seq<char>, Seq<char>)>,
) -> Option<LayoutError> {
    let name = attr_or_empty(attrs, "name"@);
    let len = field_length(attrs);
    let start = number_or_zero(attrs, "start"@);
    let end = number_or_zero(attrs, "end"@);
    if attr_value(attrs, "name"@) is None || attr_value(attrs, "description"@) is None
        || attr_value(attrs, "type"@) is None {
        Some(LayoutError::MissingAttribute)
    } else if type_index(a.ftypes@, attr_or_empty(attrs, "type"@)) < 0 {
        Some(LayoutError::UnknownFieldType)
    } else if bad_number(attrs, "length"@) {
        Some(LayoutError::BadNumber)
    } else if len == 0 && (bad_number(attrs, "start"@) || bad_number(attrs, "end"@)) {
        Some(LayoutError::BadNumber)
    } else if name.len() == 0 {
        Some(LayoutError::EmptyName)
    } else if len == 0 && !(1 <= start <= end) {
        Some(LayoutError::BadBounds)
    } else if cur is None || cur->Some_0 >= a.rec_map@.len() {
        Some(LayoutError::NoCurrentRecord)
    } else if !fits_in_record(a.rec_map@[cur->Some_0 as int], name, len, end) {
        Some(LayoutError::TooLarge)
    } else {
        None
    }
}

/// A field named `name`, of width `len` (or, when `len` is 0, ending at the 1-based
/// position `end`), can be appended to `r` without an overflow.
pub open spec fn fits_in_record<T>(r: Record<T>, name: Seq<char>, len: int, end: int) -> bool {
    &&& if len != 0 {
        r.calculated_length + len < usize::MAX
    } else {
        r.calculated_length < usize::MAX && end < usize::MAX
    }
    &&& next_multiplicity(r.flist@, name) <= usize::MAX
}

/// `f` is the field that a `field` element declares in catalog `a`.
pub open spec fn declared_field<T>(a: Layout<T>, attrs: Seq<(Seq<char>, Seq<char>)>, f: Field) -> bool {
    let ftype = a.ftypes@[type_index(a.ftypes@, attr_or_empty(attrs, "type"@))];
    let name = attr_or_empty(attrs, "name"@);
    let description = attr_or_empty(attrs, "description"@);
    if field_length(attrs) != 0 {
        built_by_length(f, name, description, ftype, field_length(attrs))
    } else {
        built_by_offset(
            f,
            name,
            description,
            ftype,
            number_or_zero(attrs, "start"@),
            number_or_zero(attrs, "end"@),
        )
    }
}

/// `b` is `a` once a `field` element is read with record `cur` open.
pub open spec fn field_applied<T>(
    a: Layout<T>,
    cur: Option<usize>,
    attrs: Seq<(Seq<char>, Seq<char>)>,
    b: Layout<T>,
) -> bool {
    let k = cur->Some_0 as int;
    &&& same_meta(a, b)
    &&& b.ftypes == a.ftypes
    &&& b.rec_map@.len() == a.rec_map@.len()
    &&& forall|i: int|
        0 <= i < a.rec_map@.len() && i != k ==> #[trigger] b.rec_map@[i] == a.rec_map@[i]
    &&& exists|f: Field| declared_field(a, attrs, f) && pushed(a.rec_map@[k], f, b.rec_map@[k])
}

/// The error that event `e` raises in catalog `a` with record `cur` open, if any.
pub open spec fn event_error<T>(a: Layout<T>, cur: Option<usize>, e: EventModel) -> Option<
    LayoutError,
> {
    match e {
        EventModel::Start { tag, attributes } => if tag == "meta"@ {
            meta_error(attributes)
        } else if tag == "fieldtype"@ {
            fieldtype_error(a, attributes)
        } else if tag == "record"@ {
            record_error(attributes)
        } else if tag == "field"@ {
            field_error(a, cur, attributes)
        } else {
            None
        },
        EventModel::Other => None,
    }
}

/// `(b, cb)` is `(a, ca)` once event `e`, which raises no error, is read.
pub open spec fn event_applied<T>(
    a: Layout<T>,
    ca: Option<usize>,
    e: EventModel,
    b: Layout<T>,
    cb: Option<usize>,
) -> bool {
    match e {
        EventModel::Start { tag, attributes } => if tag == "meta"@ {
            meta_applied(a, attributes, b) && cb == ca
        } else if tag == "fieldtype"@ {
            fieldtype_applied(a, attributes, b) && cb == ca
        } else if tag == "record"@ {
            record_applied(a, attributes, b, cb)
        } else if tag == "field"@ {
            field_applied(a, ca, attributes, b) && cb == ca
        } else {
            b == a && cb == ca
        },
        EventModel::Other => b == a && cb == ca,
    }
}

/// `states` are the catalogs (with the record open) before the first event and
/// after each of `events`, none of which raised an error.
pub open spec fn runs<T>(events: Seq<EventModel>, states: Seq<(Layout<T>, Option<usize>)>) -> bool {
    &&& states.len() == events.len() + 1
    &&& is_empty_layout(states[0].0)
    &&& states[0].1 is None
    &&& forall|i: int|
        0 <= i < events.len() ==> {
            &&& event_error(states[i].0, states[i].1, #[trigger] events[i]) is None
            &&& event_applied(states[i].0, states[i].1, events[i], states[i + 1].0, states[i + 1].1)
        }
}

/// `r` is what reading `events` in order gives: the catalog after the last one,
/// or the error of the first event that raises one.
pub open spec fn load_result<T>(events: Seq<EventModel>, r: Result<Layout<T>, LayoutError>) -> bool {
    match r {
        Ok(l) => exists|states: Seq<(Layout<T>, Option<usize>)>|
            runs(events, states) && #[trigger] states.last().0 == l,
        Err(err) => exists|k: int, states: Seq<(Layout<T>, Option<usize>)>|
            0 <= k < events.len() && #[trigger] runs(events.subrange(0, k), states)
                && event_error(states.last().0, states.last().1, events[k]) == Some(err),
    }
}


proof fn lemma_attributes_prefix(a: Seq<(String, String)>, k: int)
    requires
        0 < k <= a.len(),
    ensures
        attributes_model(a.subrange(0, k)).drop_last() == attributes_model(a.subrange(0, k - 1)),
        attributes_model(a.subrange(0, k)).last() == (a[k - 1].0@, a[k - 1].1@),
{
    assert(attributes_model(a.subrange(0, k)).drop_last() =~= attributes_model(
        a.subrange(0, k - 1),
    ));
}

/// The value of the last attribute named `name`.
fn find_attr<'a>(attrs: &'a Vec<(String, String)>, name: &str) -> (r: Option<&'a String>)
    ensures
        match r {
            Some(v) => attr_value(attributes_model(attrs@), name@) == Some(v@),
            None => attr_value(attributes_model(attrs@), name@) is None,
        },
{
    let mut k: usize = attrs.len();
    assert(attrs@.subrange(0, k as int) =~= attrs@);
    while k > 0
        invariant
            k <= attrs@.len(),
            attr_value(attributes_model(attrs@), name@) == attr_value(
                attributes_model(attrs@.subrange(0, k as int)),
                name@,
            ),
        decreases k,
    {
        proof {
            lemma_attributes_prefix(attrs@, k as int);
        }
        if str_eq(attrs[k - 1].0.as_str(), name) {
            return Some(&attrs[k - 1].1);
        }
        k = k - 1;
    }
    None
}

/// The number in attribute `name`, 0 when it is absent.
fn number_attr(attrs: &Vec<(String, String)>, name: &str) -> (r: Result<usize, LayoutError>)
    ensures
        r is Err <==> bad_number(attributes_model(attrs@), name@),
        r matches Err(e) ==> e == LayoutError::BadNumber,
        r matches Ok(n) ==> n == number_or_zero(attributes_model(attrs@), name@),
{
    match find_attr(attrs, name) {
        Some(v) => match parse_decimal(v.as_str()) {
            Some(n) => Ok(n),
            None => Err(LayoutError::BadNumber),
        },
        None => Ok(0),
    }
}

/// The value of attribute `name`, or the empty string.
fn text_attr(attrs: &Vec<(String, String)>, name: &str) -> (r: String)
    ensures
        r@ == attr_or_empty(attributes_model(attrs@), name@),
{
    match find_attr(attrs, name) {
        Some(v) => v.clone(),
        None => String::new(),
    }
}

impl<T> Layout<T> {
    /// A catalog with no type and no record.
    pub fn empty() -> (r: Layout<T>)
        ensures
            is_empty_layout(r),
    {
        Layout {
            xml_file: String::new(),
            rec_length: 0,
            version: String::new(),
            description: String::new(),
            schema: String::new(),
            ignore_line: String::new(),
            skip_field: String::new(),
            rec_map: Vec::new(),
            ftypes: Vec::new(),
        }
    }

    /// Position of the field type whose id is `id`.
    fn find_type(&self, id: &str) -> (r: Option<usize>)
        ensures
            r is None <==> type_index(self.ftypes@, id@) < 0,
            r matches Some(i) ==> i == type_index(self.ftypes@, id@) && i < self.ftypes@.len(),
    {
        let mut k: usize = self.ftypes.len();
        assert(self.ftypes@.subrange(0, k as int) =~= self.ftypes@);
        while k > 0
            invariant
                k <= self.ftypes@.len(),
                type_index(self.ftypes@, id@) == type_index(self.ftypes@.subrange(0, k as int), id@),
            decreases k,
        {
            let ghost sub = self.ftypes@.subrange(0, k as int);
            assert(sub.drop_last() =~= self.ftypes@.subrange(0, k - 1));
            if str_eq(self.ftypes[k - 1].id.as_str(), id) {
                assert(sub.last() == self.ftypes@[k - 1]);
                return Some(k - 1);
            }
            k = k - 1;
        }
        None
    }

    /// Position of the record template named `name`.
    pub(crate) fn find_record(&self, name: &str) -> (r: Option<usize>)
        ensures
            r is None <==> record_index(self.rec_map@, name@) < 0,
            r matches Some(i) ==> i == record_index(self.rec_map@, name@) && i
                < self.rec_map@.len(),
            record_index(self.rec_map@, name@) < self.rec_map@.len(),
    {
        let mut k: usize = self.rec_map.len();
        assert(self.rec_map@.subrange(0, k as int) =~= self.rec_map@);
        while k > 0
            invariant
                k <= self.rec_map@.len(),
                record_index(self.rec_map@, name@) == record_index(
                    self.rec_map@.subrange(0, k as int),
                    name@,
                ),
            decreases k,
        {
            let ghost sub = self.rec_map@.subrange(0, k as int);
            assert(sub.drop_last() =~= self.rec_map@.subrange(0, k - 1));
            if str_eq(self.rec_map[k - 1].name.as_str(), name) {
                assert(sub.last() == self.rec_map@[k - 1]);
                return Some(k - 1);
            }
            k = k - 1;
        }
        None
    }

    /// Reads a `meta` element.
    fn apply_meta(&mut self, attrs: &Vec<(String, String)>) -> (r: Result<(), LayoutError>)
        ensures
            match r {
                Ok(_) => meta_error(attributes_model(attrs@)) is None && meta_applied(
                    *old(self),
                    attributes_model(attrs@),
                    *final(self),
                ),
                Err(e) => meta_error(attributes_model(attrs@)) == Some(e),
            },
    {
        proof {
            reveal_strlit("reclength");
            reveal_strlit("ignoreLine");
        }
        let rec_length = match number_attr(attrs, "reclength") {
            Ok(n) => n,
            Err(e) => return Err(e),
        };
        match find_attr(attrs, "ignoreLine") {
            Some(p) => {
                if !pattern_compiles(p.as_str()) {
                    return Err(LayoutError::BadPattern);
                }
            },
            None => {},
        }
        self.rec_length = rec_length;
        self.version = text_attr(attrs, "version");
        self.description = text_attr(attrs, "description");
        self.schema = text_attr(attrs, "schema");
        self.ignore_line = text_attr(attrs, "ignoreLine");
        self.skip_field = text_attr(attrs, "skipField");
        Ok(())
    }

    /// Reads a `fieldtype` element.
    fn apply_fieldtype(&mut self, attrs: &Vec<(String, String)>) -> (r: Result<(), LayoutError>)
        ensures
            match r {
                Ok(_) => fieldtype_error(*old(self), attributes_model(attrs@)) is None
                    && fieldtype_applied(*old(self), attributes_model(attrs@), *final(self)),
                Err(e) => fieldtype_error(*old(self), attributes_model(attrs@)) == Some(e),
            },
    {
        let name = find_attr(attrs, "name");
        let ty = find_attr(attrs, "type");
        let (name, ty) = match (name, ty) {
            (Some(n), Some(t)) => (n, t),
            _ => return Err(LayoutError::MissingAttribute),
        };
        if name.as_str().unicode_len() == 0 {
            return Err(LayoutError::EmptyName);
        }
        if !crate::fieldtype::BaseDataType::is_known(ty.as_str()) {
            return Err(LayoutError::UnknownBaseType);
        }
        if self.find_type(name.as_str()).is_some() {
            return Err(LayoutError::DuplicateType);
        }
        let mut ft = FieldDataType::new(name.as_str(), ty.as_str());
        let pattern = text_attr(attrs, "pattern");
        ft.set_pattern(pattern.as_str());
        self.ftypes.push(Rc::new(ft));
        assert(self.ftypes@.drop_last() =~= old(self).ftypes@);
        Ok(())
    }

    /// Reads a `record` element; the record it declares is the one opened.
    fn apply_record(&mut self, attrs: &Vec<(String, String)>) -> (r: Result<usize, LayoutError>)
        ensures
            match r {
                Ok(k) => record_error(attributes_model(attrs@)) is None && record_applied(
                    *old(self),
                    attributes_model(attrs@),
                    *final(self),
                    Some(k),
                ),
                Err(e) => record_error(attributes_model(attrs@)) == Some(e),
            },
    {
        let name = find_attr(attrs, "name");
        let desc = find_attr(attrs, "description");
        let (name, desc) = match (name, desc) {
            (Some(n), Some(d)) => (n, d),
            _ => return Err(LayoutError::MissingAttribute),
        };
        if name.as_str().unicode_len() == 0 {
            return Err(LayoutError::EmptyName);
        }
        let length = match number_attr(attrs, "length") {
            Ok(n) => n,
            Err(e) => return Err(e),
        };
        let rec = Record::<T>::new(name.as_str(), desc.as_str(), length);
        match self.find_record(name.as_str()) {
            Some(k) => {
                self.rec_map.set(k, rec);
                Ok(k)
            },
            None => {
                let k = self.rec_map.len();
                self.rec_map.push(rec);
                assert(self.rec_map@.drop_last() =~= old(self).rec_map@);
                Ok(k)
            },
        }
    }

    /// Reads a `field` element, appending the field to record `cur`.
    fn apply_field(&mut self, cur: Option<usize>, attrs: &Vec<(String, String)>) -> (r: Result<
        (),
        LayoutError,
    >)
        ensures
            match r {
                Ok(_) => field_error(*old(self), cur, attributes_model(attrs@)) is None
                    && field_applied(*old(self), cur, attributes_model(attrs@), *final(self)),
                Err(e) => field_error(*old(self), cur, attributes_model(attrs@)) == Some(e),
            },
    {
        let ghost am = attributes_model(attrs@);
        let name = find_attr(attrs, "name");
        let desc = find_attr(attrs, "description");
        let ty = find_attr(attrs, "type");
        let (name, desc, ty) = match (name, desc, ty) {
            (Some(n), Some(d), Some(t)) => (n, d, t),
            _ => return Err(LayoutError::MissingAttribute),
        };
        let ti = match self.find_type(ty.as_str()) {
            Some(i) => i,
            None => return Err(LayoutError::UnknownFieldType),
        };
        let length = match number_attr(attrs, "length") {
            Ok(n) => n,
            Err(e) => return Err(e),
        };
        let (start, end) = if length == 0 {
            let start = match number_attr(attrs, "start") {
                Ok(n) => n,
                Err(e) => return Err(e),
            };
            let end = match number_attr(attrs, "end") {
                Ok(n) => n,
                Err(e) => return Err(e),
            };
            (start, end)
        } else {
            (0, 0)
        };
        if name.as_str().unicode_len() == 0 {
            return Err(LayoutError::EmptyName);
        }
        if length == 0 && !(1 <= start && start <= end) {
            return Err(LayoutError::BadBounds);
        }
        let k = match cur {
            Some(k) => {
                if k >= self.rec_map.len() {
                    return Err(LayoutError::NoCurrentRecord);
                }
                k
            },
            None => return Err(LayoutError::NoCurrentRecord),
        };
        let calc = self.rec_map[k].calculated_length;
        let fits = if length != 0 {
            calc < usize::MAX - length
        } else {
            calc < usize::MAX && end < usize::MAX
        };
        if !fits || !self.rec_map[k].multiplicity_fits(name) {
            return Err(LayoutError::TooLarge);
        }
        let f = if length != 0 {
            Field::new(name.as_str(), desc.as_str(), &self.ftypes[ti], length)
        } else {
            Field::new_with_offset(name.as_str(), desc.as_str(), &self.ftypes[ti], start, end)
        };
        assert(declared_field(*old(self), am, f));
        let ghost before = self.rec_map@[k as int];
        self.rec_map[k].push(f);
        assert(pushed(before, f, self.rec_map@[k as int]));
        Ok(())
    }

    /// Reads one event with record `cur` open; gives the record open afterwards.
    fn apply_event(&mut self, cur: Option<usize>, e: &SchemaEvent) -> (r: Result<
        Option<usize>,
        LayoutError,
    >)
        ensures
            match r {
                Ok(c) => event_error(*old(self), cur, e@) is None && event_applied(
                    *old(self),
                    cur,
                    e@,
                    *final(self),
                    c,
                ),
                Err(x) => event_error(*old(self), cur, e@) == Some(x),
            },
    {
        match e {
            SchemaEvent::Start { tag, attributes } => {
                if str_eq(tag.as_str(), "meta") {
                    match self.apply_meta(attributes) {
                        Ok(_) => Ok(cur),
                        Err(x) => Err(x),
                    }
                } else if str_eq(tag.as_str(), "fieldtype") {
                    match self.apply_fieldtype(attributes) {
                        Ok(_) => Ok(cur),
                        Err(x) => Err(x),
                    }
                } else if str_eq(tag.as_str(), "record") {
                    match self.apply_record(attributes) {
                        Ok(k) => Ok(Some(k)),
                        Err(x) => Err(x),
                    }
                } else if str_eq(tag.as_str(), "field") {
                    match self.apply_field(cur, attributes) {
                        Ok(_) => Ok(cur),
                        Err(x) => Err(x),
                    }
                } else {
                    Ok(cur)
                }
            },
            SchemaEvent::Other => Ok(cur),
        }
    }

    /// Builds a catalog from the events of a schema document, read in order; the
    /// first event that raises an error stops the reading.
    pub fn load(events: &Vec<SchemaEvent>) -> (r: Result<Layout<T>, LayoutError>)
        ensures
            load_result(events_model(events@), r),
    {
        let ghost ev = events_model(events@);
        let mut layout = Layout::<T>::empty();
        let mut cur: Option<usize> = None;
        let ghost mut states: Seq<(Layout<T>, Option<usize>)> = seq![(layout, cur)];
        let mut i: usize = 0;
        assert(ev.subrange(0, 0) =~= Seq::<EventModel>::empty());
        while i < events.len()
            invariant
                ev == events_model(events@),
                i <= events@.len(),
                runs(ev.subrange(0, i as int), states),
                states.last() == (layout, cur),
            decreases events@.len() - i,
        {
            let ghost before = (layout, cur);
            assert(ev[i as int] == events@[i as int]@);
            match layout.apply_event(cur, &events[i]) {
                Ok(c) => {
                    cur = c;
                    proof {
                        let old_states = states;
                        states = states.push((layout, cur));
                        let sub = ev.subrange(0, i + 1);
                        assert(sub.drop_last() =~= ev.subrange(0, i as int));
                        assert forall|j: int| 0 <= j < sub.len() implies {
                            &&& event_error(states[j].0, states[j].1, #[trigger] sub[j]) is None
                            &&& event_applied(
                                states[j].0,
                                states[j].1,
                                sub[j],
                                states[j + 1].0,
                                states[j + 1].1,
                            )
                        } by {
                            if j < i {
                                assert(states[j] == old_states[j]);
                                assert(states[j + 1] == old_states[j + 1]);
                                assert(sub[j] == ev.subrange(0, i as int)[j]);
                            } else {
                                assert(states[j] == before);
                            }
                        }
                    }
                },
                Err(x) => {
                    assert(runs(ev.subrange(0, i as int), states));
                    return Err(x);
                },
            }
            i = i + 1;
        }
        assert(ev.subrange(0, i as int) =~= ev);
        assert(runs(ev, states) && states.last().0 == layout);
        Ok(layout)
    }
}


/// The fields of `fl` whose name is not in `names`, in order.
pub open spec fn without_names(fl: Seq<Field>, names: Seq<Seq<char>>) -> Seq<Field>
    decreases fl.len(),
{
    if fl.len() == 0 {
        Seq::empty()
    } else if names.contains(fl.last().name@) {
        without_names(fl.drop_last(), names)
    } else {
        without_names(fl.drop_last(), names).push(fl.last())
    }
}

/// `b` is `a` with every field whose name is in `names` removed from every record.
pub open spec fn names_removed<T>(a: Layout<T>, names: Seq<Seq<char>>, b: Layout<T>) -> bool {
    &&& b.rec_length == a.rec_length
    &&& b.xml_file == a.xml_file
    &&& b.version == a.version
    &&& b.description == a.description
    &&& b.schema == a.schema
    &&& b.ignore_line == a.ignore_line
    &&& b.ftypes == a.ftypes
    &&& b.rec_map@.len() == a.rec_map@.len()
    &&& forall|k: int|
        0 <= k < a.rec_map@.len() ==> {
            &&& (#[trigger] b.rec_map@[k]).name == a.rec_map@[k].name
            &&& b.rec_map@[k].description == a.rec_map@[k].description
            &&& b.rec_map@[k].declared_length == a.rec_map@[k].declared_length
            &&& b.rec_map@[k].calculated_length == a.rec_map@[k].calculated_length
            &&& b.rec_map@[k].flist@ == without_names(a.rec_map@[k].flist@, names)
        }
}

/// The names that a comma-separated skip-field list holds, without surrounding blanks.
pub open spec fn skip_names(s: Seq<char>) -> Seq<Seq<char>> {
    split_on(s, ',').map_values(|p: Seq<char>| trimmed(p))
}

/// Some record of `l` has a field named `name`.
pub open spec fn layout_has_field<T>(l: Layout<T>, name: Seq<char>) -> bool {
    exists|k: int| 0 <= k < l.rec_map@.len() && has_field(#[trigger] l.rec_map@[k].flist@, name)
}

/// The record does not match the length it should have: `uniform` when that is not
/// 0, else its own declared length.
pub open spec fn length_mismatch<T>(r: Record<T>, uniform: usize) -> bool {
    if uniform != 0 {
        r.calculated_length != uniform
    } else {
        r.calculated_length != r.declared_length
    }
}

proof fn lemma_marked_without(fl: Seq<Field>, marks: Seq<bool>, names: Seq<Seq<char>>)
    requires
        marks.len() == fl.len(),
        forall|i: int| 0 <= i < fl.len() ==> #[trigger] marks[i] == names.contains(fl[i].name@),
    ensures
        marked(fl, marks, false) == without_names(fl, names),
    decreases fl.len(),
{
    if fl.len() > 0 {
        let p = fl.drop_last();
        let m = marks.drop_last();
        assert forall|i: int| 0 <= i < p.len() implies #[trigger] m[i] == names.contains(p[i].name@) by {
            assert(m[i] == marks[i]);
            assert(p[i] == fl[i]);
        }
        lemma_marked_without(p, m, names);
        assert(marks.last() == marks[fl.len() - 1]);
        assert(fl.last() == fl[fl.len() - 1]);
    }
}

/// No field left after removing `names` has one of those names.
proof fn lemma_without_has_none(fl: Seq<Field>, names: Seq<Seq<char>>, n: Seq<char>)
    requires
        names.contains(n),
    ensures
        !has_field(without_names(fl, names), n),
    decreases fl.len(),
{
    if fl.len() > 0 {
        lemma_without_has_none(fl.drop_last(), names, n);
        let w = without_names(fl.drop_last(), names);
        if !names.contains(fl.last().name@) {
            assert forall|i: int| 0 <= i < w.push(fl.last()).len() implies #[trigger] w.push(
                fl.last(),
            )[i].name@ != n by {
                if i < w.len() {
                    assert(w.push(fl.last())[i] == w[i]);
                }
            }
        }
    }
}

/// After the fields named in `names` are removed, no record has a field of one of
/// those names.
pub proof fn law_removed_names_are_gone<T>(a: Layout<T>, names: Seq<Seq<char>>, b: Layout<T>)
    requires
        names_removed(a, names, b),
    ensures
        forall|n: Seq<char>| #[trigger] names.contains(n) ==> !layout_has_field(b, n),
{
    assert forall|n: Seq<char>| #[trigger] names.contains(n) implies !layout_has_field(b, n) by {
        assert forall|k: int| 0 <= k < b.rec_map@.len() implies !has_field(
            #[trigger] b.rec_map@[k].flist@,
            n,
        ) by {
            lemma_without_has_none(a.rec_map@[k].flist@, names, n);
        }
    }
}

/// Whether `name` is one of `names`.
fn names_contain(names: &Vec<&str>, name: &str) -> (r: bool)
    ensures
        r == names@.map_values(|s: &str| s@).contains(name@),
{
    let ghost nv = names@.map_values(|s: &str| s@);
    let mut i: usize = 0;
    while i < names.len()
        invariant
            i <= names@.len(),
            nv == names@.map_values(|s: &str| s@),
            forall|k: int| 0 <= k < i ==> nv[k] != name@,
        decreases names@.len() - i,
    {
        if str_eq(names[i], name) {
            assert(nv[i as int] == name@);
            return true;
        }
        i = i + 1;
    }
    proof {
        if nv.contains(name@) {
            let k = choose|k: int| 0 <= k < nv.len() && nv[k] == name@;
        }
    }
    false
}

impl<T> Layout<T> {
    /// Reads a schema document: its element events, in order, build the catalog.
    pub fn new(xml_text: &str) -> (r: Result<Layout<T>, LayoutError>)
        ensures
            load_result(xml_events(xml_text@), r),
    {
        let events = read_xml_events(xml_text);
        Layout::load(&events)
    }

    /// Reads a schema document, then removes the fields that its skip-field list names.
    pub fn from_xml(xml_text: &str) -> (r: Result<Layout<T>, LayoutError>)
        ensures
            match r {
                Ok(l) => exists|l0: Layout<T>|
                    {
                        &&& load_result(xml_events(xml_text@), Ok(l0))
                        &&& if l0.skip_field@.len() == 0 {
                            l == l0
                        } else {
                            l.skip_field@ == l0.skip_field@ && names_removed(
                                l0,
                                skip_names(l0.skip_field@),
                                l,
                            )
                        }
                    },
                Err(e) => load_result(xml_events(xml_text@), Err::<Layout<T>, LayoutError>(e)),
            },
    {
        match Layout::new(xml_text) {
            Ok(layout) => {
                let ghost l0 = layout;
                let mut layout = layout;
                if layout.skip_field.as_str().unicode_len() != 0 {
                    let skip = layout.skip_field.clone();
                    layout.set_skip_field(skip.as_str());
                }
                assert(load_result(xml_events(xml_text@), Ok::<Layout<T>, LayoutError>(l0)));
                Ok(layout)
            },
            Err(e) => Err(e),
        }
    }

    /// The number of record templates.
    pub fn len(&self) -> (r: usize)
        ensures
            r == self.rec_map@.len(),
    {
        self.rec_map.len()
    }

    /// Whether a record template is named `recname`.
    pub fn contains_record(&self, recname: &str) -> (r: bool)
        ensures
            r == (record_index(self.rec_map@, recname@) >= 0),
    {
        self.find_record(recname).is_some()
    }

    /// Whether some record template has a field named `fname`.
    pub fn contains_field(&self, fname: &str) -> (r: bool)
        ensures
            r == layout_has_field(*self, fname@),
    {
        let mut k: usize = 0;
        while k < self.rec_map.len()
            invariant
                k <= self.rec_map@.len(),
                forall|j: int| 0 <= j < k ==> !has_field(#[trigger] self.rec_map@[j].flist@, fname@),
            decreases self.rec_map@.len() - k,
        {
            if self.rec_map[k].contains_field(fname) {
                return true;
            }
            k = k + 1;
        }
        false
    }

    /// The record template named `rec_name`.
    pub fn get(&self, rec_name: &str) -> (r: Option<&Record<T>>)
        ensures
            r is None <==> record_index(self.rec_map@, rec_name@) < 0,
            r matches Some(rec) ==> *rec == self.rec_map@[record_index(self.rec_map@, rec_name@)],
    {
        match self.find_record(rec_name) {
            Some(k) => Some(&self.rec_map[k]),
            None => None,
        }
    }

    /// The field type whose id is `ftype_name`.
    pub fn get_type(&self, ftype_name: &str) -> (r: Option<&Rc<FieldDataType>>)
        ensures
            r is None <==> type_index(self.ftypes@, ftype_name@) < 0,
            r matches Some(t) ==> *t == self.ftypes@[type_index(self.ftypes@, ftype_name@)],
    {
        match self.find_type(ftype_name) {
            Some(k) => Some(&self.ftypes[k]),
            None => None,
        }
    }

    /// Checks the record lengths: with a uniform length, every record's calculated
    /// length must equal it; otherwise each record's calculated length must equal its
    /// declared length. Gives `(true, "", 0, 0)`, or `false` with the first record
    /// that fails, the length it should have and its calculated length.
    pub fn is_valid(&self) -> (r: (bool, &str, usize, usize))
        ensures
            r.0 <==> forall|k: int|
                0 <= k < self.rec_map@.len() ==> !length_mismatch(
                    #[trigger] self.rec_map@[k],
                    self.rec_length,
                ),
            r.0 ==> r.1@.len() == 0 && r.2 == 0 && r.3 == 0,
            !r.0 ==> exists|k: int|
                {
                    &&& 0 <= k < self.rec_map@.len()
                    &&& length_mismatch(#[trigger] self.rec_map@[k], self.rec_length)
                    &&& forall|j: int|
                        0 <= j < k ==> !length_mismatch(
                            #[trigger] self.rec_map@[j],
                            self.rec_length,
                        )
                    &&& r.1@ == self.rec_map@[k].name@
                    &&& r.2 == if self.rec_length != 0 {
                        self.rec_length
                    } else {
                        self.rec_map@[k].declared_length
                    }
                    &&& r.3 == self.rec_map@[k].calculated_length
                },
    {
        let mut k: usize = 0;
        while k < self.rec_map.len()
            invariant
                k <= self.rec_map@.len(),
                forall|j: int|
                    0 <= j < k ==> !length_mismatch(#[trigger] self.rec_map@[j], self.rec_length),
            decreases self.rec_map@.len() - k,
        {
            let rec = &self.rec_map[k];
            let expected = if self.rec_length != 0 {
                self.rec_length
            } else {
                rec.declared_length
            };
            if rec.calculated_length != expected {
                assert(length_mismatch(self.rec_map@[k as int], self.rec_length));
                return (false, rec.name.as_str(), expected, rec.calculated_length);
            }
            k = k + 1;
        }
        proof {
            reveal_strlit("");
        }
        (true, "", 0, 0)
    }

    /// The record template named `rec_name`, to change it in place.
    pub fn get_mut(&mut self, rec_name: &str) -> (r: Option<&mut Record<T>>)
        ensures
            r is None <==> record_index(old(self).rec_map@, rec_name@) < 0,
            r matches Some(m) ==> *m == old(self).rec_map@[record_index(
                old(self).rec_map@,
                rec_name@,
            )],
    {
        match self.find_record(rec_name) {
            Some(k) => Some(&mut self.rec_map[k]),
            None => None,
        }
    }

    /// Stores the skip-field list and removes the fields that it names.
    pub fn set_skip_field(&mut self, skip_field: &str)
        ensures
            final(self).skip_field@ == skip_field@,
            names_removed(*old(self), skip_names(skip_field@), *final(self)),
    {
        let ghost before = *self;
        self.skip_field = skip_field.to_owned();
        let list = into_field_list(skip_field);
        let mut refs: Vec<&str> = Vec::new();
        let mut i: usize = 0;
        while i < list.len()
            invariant
                i <= list@.len(),
                refs@.len() == i,
                forall|k: int| 0 <= k < i ==> (#[trigger] refs@[k])@ == list@[k]@,
            decreases list@.len() - i,
        {
            refs.push(list[i].as_str());
            i = i + 1;
        }
        assert(refs@.map_values(|s: &str| s@) =~= skip_names(skip_field@));
        self.remove(refs);
        assert(names_removed(before, skip_names(skip_field@), *self));
    }

    /// Removes, from every record template, each field whose name is in `flist`;
    /// a name that no field has is ignored.
    pub fn remove(&mut self, flist: Vec<&str>)
        ensures
            names_removed(*old(self), flist@.map_values(|s: &str| s@), *final(self)),
            final(self).skip_field == old(self).skip_field,
    {
        let ghost names = flist@.map_values(|s: &str| s@);
        let mut k: usize = 0;
        while k < self.rec_map.len()
            invariant
                k <= self.rec_map@.len(),
                names == flist@.map_values(|s: &str| s@),
                self.rec_map@.len() == old(self).rec_map@.len(),
                self.rec_length == old(self).rec_length,
                self.xml_file == old(self).xml_file,
                self.version == old(self).version,
                self.description == old(self).description,
                self.schema == old(self).schema,
                self.ignore_line == old(self).ignore_line,
                self.skip_field == old(self).skip_field,
                self.ftypes == old(self).ftypes,
                forall|j: int| k <= j < self.rec_map@.len() ==> #[trigger] self.rec_map@[j] == old(
                    self,
                ).rec_map@[j],
                forall|j: int|
                    0 <= j < k ==> {
                        &&& (#[trigger] self.rec_map@[j]).name == old(self).rec_map@[j].name
                        &&& self.rec_map@[j].description == old(self).rec_map@[j].description
                        &&& self.rec_map@[j].declared_length == old(self).rec_map@[j].declared_length
                        &&& self.rec_map@[j].calculated_length == old(
                            self,
                        ).rec_map@[j].calculated_length
                        &&& self.rec_map@[j].flist@ == without_names(
                            old(self).rec_map@[j].flist@,
                            names,
                        )
                    },
            decreases self.rec_map@.len() - k,
        {
            let ghost before = self.rec_map@[k as int];
            let names_ref = &flist;
            let pred = |f: &Field| -> (b: bool)
                ensures
                    b == names_ref@.map_values(|s: &str| s@).contains(f.name@),
                { names_contain(names_ref, f.name.as_str()) };
            self.rec_map[k].remove(pred);
            proof {
                let fl = before.flist@;
                let after = self.rec_map@[k as int];
                let marks = choose|marks: Seq<bool>|
                    {
                        &&& marks.len() == fl.len()
                        &&& forall|i: int|
                            0 <= i < marks.len() ==> #[trigger] pred.ensures((&fl[i],), marks[i])
                        &&& after.flist@ == marked(fl, marks, false)
                    };
                assert forall|i: int| 0 <= i < fl.len() implies #[trigger] marks[i] == names.contains(
                    fl[i].name@,
                ) by {
                    assert(pred.ensures((&fl[i],), marks[i]));
                }
                lemma_marked_without(fl, marks, names);
            }
            k = k + 1;
        }
    }
}


/// The four element names that the catalog reads are distinct.
proof fn lemma_tags_differ()
    ensures
        "fieldtype"@ != "meta"@,
        "record"@ != "meta"@,
        "record"@ != "fieldtype"@,
        "field"@ != "meta"@,
        "field"@ != "fieldtype"@,
        "field"@ != "record"@,
{
    reveal_strlit("meta");
    reveal_strlit("fieldtype");
    reveal_strlit("record");
    reveal_strlit("field");
    assert("fieldtype"@ != "meta"@) by {
        assert("fieldtype"@.len() != "meta"@.len());
    }
    assert("record"@ != "meta"@) by {
        assert("record"@.len() != "meta"@.len());
    }
    assert("record"@ != "fieldtype"@) by {
        assert("record"@.len() != "fieldtype"@.len());
    }
    assert("field"@ != "meta"@) by {
        assert("field"@.len() != "meta"@.len());
    }
    assert("field"@ != "fieldtype"@) by {
        assert("field"@.len() != "fieldtype"@.len());
    }
    assert("field"@ != "record"@) by {
        assert("field"@[0] == 'f' && "record"@[0] == 'r');
    }
}

/// Every field of every record template has one of the catalog's field types.
pub open spec fn types_resolve<T>(l: Layout<T>) -> bool {
    forall|k: int, i: int|
        0 <= k < l.rec_map@.len() && 0 <= i < l.rec_map@[k].flist@.len() ==> exists|t: int|
            0 <= t < l.ftypes@.len() && l.ftypes@[t] == (#[trigger] l.rec_map@[k].flist@[i]).ftype
}

proof fn lemma_type_index_bounds(ts: Seq<Rc<FieldDataType>>, id: Seq<char>)
    ensures
        -1 <= type_index(ts, id) < ts.len(),
    decreases ts.len(),
{
    if ts.len() > 0 {
        lemma_type_index_bounds(ts.drop_last(), id);
    }
}

proof fn lemma_record_index_bounds<T>(rs: Seq<Record<T>>, name: Seq<char>)
    ensures
        -1 <= record_index(rs, name) < rs.len(),
    decreases rs.len(),
{
    if rs.len() > 0 {
        lemma_record_index_bounds(rs.drop_last(), name);
    }
}

/// Reading an event that raises no error keeps every field's type in the catalog.
proof fn lemma_event_keeps_types<T>(
    a: Layout<T>,
    ca: Option<usize>,
    e: EventModel,
    b: Layout<T>,
    cb: Option<usize>,
)
    requires
        types_resolve(a),
        event_error(a, ca, e) is None,
        event_applied(a, ca, e, b, cb),
    ensures
        types_resolve(b),
{
    lemma_tags_differ();
    match e {
        EventModel::Start { tag, attributes } => {
            if tag == "fieldtype"@ {
                assert forall|k: int, i: int|
                    0 <= k < b.rec_map@.len() && 0 <= i < b.rec_map@[k].flist@.len() implies exists|t: int|
                    0 <= t < b.ftypes@.len() && b.ftypes@[t] == (#[trigger] b.rec_map@[k].flist@[i]).ftype by {
                    let t = choose|t: int|
                        0 <= t < a.ftypes@.len() && a.ftypes@[t] == a.rec_map@[k].flist@[i].ftype;
                    assert(b.ftypes@[t] == b.ftypes@.drop_last()[t]);
                }
            } else if tag == "record"@ {
                lemma_record_index_bounds(a.rec_map@, attr_or_empty(attributes, "name"@));
                let kk = record_index(a.rec_map@, attr_or_empty(attributes, "name"@));
                assert forall|k: int, i: int|
                    0 <= k < b.rec_map@.len() && 0 <= i < b.rec_map@[k].flist@.len() implies exists|t: int|
                    0 <= t < b.ftypes@.len() && b.ftypes@[t] == (#[trigger] b.rec_map@[k].flist@[i]).ftype by {
                    if kk >= 0 {
                        if k != kk {
                            assert(b.rec_map@[k] == a.rec_map@[k]);
                        }
                    } else if k < a.rec_map@.len() {
                        assert(b.rec_map@[k] == b.rec_map@.drop_last()[k]);
                    }
                }
            } else if tag == "field"@ {
                let kk = ca->Some_0 as int;
                let f = choose|f: Field|
                    declared_field(a, attributes, f) && pushed(a.rec_map@[kk], f, b.rec_map@[kk]);
                let ti = type_index(a.ftypes@, attr_or_empty(attributes, "type"@));
                lemma_type_index_bounds(a.ftypes@, attr_or_empty(attributes, "type"@));
                assert forall|k: int, i: int|
                    0 <= k < b.rec_map@.len() && 0 <= i < b.rec_map@[k].flist@.len() implies exists|t: int|
                    0 <= t < b.ftypes@.len() && b.ftypes@[t] == (#[trigger] b.rec_map@[k].flist@[i]).ftype by {
                    if k != kk {
                        assert(b.rec_map@[k] == a.rec_map@[k]);
                    } else if i < a.rec_map@[kk].flist@.len() {
                        assert(b.rec_map@[kk].flist@[i] == b.rec_map@[kk].flist@.drop_last()[i]);
                        assert(a.rec_map@[k].flist@[i] == b.rec_map@[k].flist@[i]);
                    } else {
                        assert(b.rec_map@[kk].flist@[i] == b.rec_map@[kk].flist@.last());
                        assert(b.ftypes@[ti] == b.rec_map@[k].flist@[i].ftype);
                    }
                }
            }
        },
        EventModel::Other => {},
    }
}

/// Every field of a catalog read from a schema has a type that the schema
/// declared: a field that names an undeclared type stops the reading.
pub proof fn law_loaded_types_resolve<T>(events: Seq<EventModel>, l: Layout<T>)
    requires
        load_result(events, Ok::<Layout<T>, LayoutError>(l)),
    ensures
        types_resolve(l),
{
    let states = choose|states: Seq<(Layout<T>, Option<usize>)>|
        runs(events, states) && #[trigger] states.last().0 == l;
    lemma_runs_keep_types(events, states, events.len() as int);
}

proof fn lemma_runs_keep_types<T>(
    events: Seq<EventModel>,
    states: Seq<(Layout<T>, Option<usize>)>,
    n: int,
)
    requires
        runs(events, states),
        0 <= n <= events.len(),
    ensures
        types_resolve(states[n].0),
    decreases n,
{
    if n > 0 {
        lemma_runs_keep_types(events, states, n - 1);
        assert(events[n - 1] == events[n - 1]);
        lemma_event_keeps_types(
            states[n - 1].0,
            states[n - 1].1,
            events[n - 1],
            states[n].0,
            states[n].1,
        );
    }
}


/// Record templates have distinct names, and field types distinct ids.
pub open spec fn names_unique<T>(l: Layout<T>) -> bool {
    &&& forall|i: int, j: int|
        0 <= i < j < l.rec_map@.len() ==> (#[trigger] l.rec_map@[i]).name@ != (
        #[trigger] l.rec_map@[j]).name@
    &&& forall|i: int, j: int|
        0 <= i < j < l.ftypes@.len() ==> (#[trigger] l.ftypes@[i]).id@ != (
        #[trigger] l.ftypes@[j]).id@
}

proof fn lemma_type_index_found(ts: Seq<Rc<FieldDataType>>, id: Seq<char>)
    ensures
        type_index(ts, id) < 0 ==> forall|i: int| 0 <= i < ts.len() ==> (#[trigger] ts[i]).id@ != id,
    decreases ts.len(),
{
    if ts.len() > 0 {
        lemma_type_index_found(ts.drop_last(), id);
        assert forall|i: int| 0 <= i < ts.len() - 1 implies #[trigger] ts[i] == ts.drop_last()[i] by {}
    }
}

proof fn lemma_record_index_found<T>(rs: Seq<Record<T>>, name: Seq<char>)
    ensures
        record_index(rs, name) < 0 ==> forall|i: int|
            0 <= i < rs.len() ==> (#[trigger] rs[i]).name@ != name,
        record_index(rs, name) >= 0 ==> rs[record_index(rs, name)].name@ == name,
    decreases rs.len(),
{
    if rs.len() > 0 {
        lemma_record_index_found(rs.drop_last(), name);
        lemma_record_index_bounds(rs.drop_last(), name);
        assert forall|i: int| 0 <= i < rs.len() - 1 implies #[trigger] rs[i] == rs.drop_last()[i] by {}
        assert(rs.last() == rs[rs.len() - 1]);
    }
}

/// Reading an event that raises no error keeps names and ids distinct.
proof fn lemma_event_keeps_names<T>(
    a: Layout<T>,
    ca: Option<usize>,
    e: EventModel,
    b: Layout<T>,
    cb: Option<usize>,
)
    requires
        names_unique(a),
        event_error(a, ca, e) is None,
        event_applied(a, ca, e, b, cb),
    ensures
        names_unique(b),
{
    lemma_tags_differ();
    match e {
        EventModel::Start { tag, attributes } => {
            if tag == "fieldtype"@ {
                let id = attr_or_empty(attributes, "name"@);
                lemma_type_index_found(a.ftypes@, id);
                assert forall|i: int, j: int| 0 <= i < j < b.ftypes@.len() implies (
                #[trigger] b.ftypes@[i]).id@ != (#[trigger] b.ftypes@[j]).id@ by {
                    assert(b.ftypes@[i] == b.ftypes@.drop_last()[i]);
                    if j < a.ftypes@.len() {
                        assert(b.ftypes@[j] == b.ftypes@.drop_last()[j]);
                    } else {
                        assert(b.ftypes@[j] == b.ftypes@.last());
                    }
                }
            } else if tag == "record"@ {
                let name = attr_or_empty(attributes, "name"@);
                lemma_record_index_found(a.rec_map@, name);
                let kk = record_index(a.rec_map@, name);
                assert forall|i: int, j: int| 0 <= i < j < b.rec_map@.len() implies (
                #[trigger] b.rec_map@[i]).name@ != (#[trigger] b.rec_map@[j]).name@ by {
                    if kk >= 0 {
                        if i != kk {
                            assert(b.rec_map@[i] == a.rec_map@[i]);
                        }
                        if j != kk {
                            assert(b.rec_map@[j] == a.rec_map@[j]);
                        }
                    } else {
                        assert(b.rec_map@[i] == b.rec_map@.drop_last()[i]);
                        if j < a.rec_map@.len() {
                            assert(b.rec_map@[j] == b.rec_map@.drop_last()[j]);
                        }
                    }
                }
            } else if tag == "field"@ {
                let kk = ca->Some_0 as int;
                let f = choose|f: Field|
                    declared_field(a, attributes, f) && pushed(a.rec_map@[kk], f, b.rec_map@[kk]);
                assert forall|i: int| 0 <= i < b.rec_map@.len() implies (
                #[trigger] b.rec_map@[i]).name == a.rec_map@[i].name by {
                    if i != kk {
                        assert(b.rec_map@[i] == a.rec_map@[i]);
                    }
                }
            }
        },
        EventModel::Other => {},
    }
}

proof fn lemma_runs_keep_names<T>(
    events: Seq<EventModel>,
    states: Seq<(Layout<T>, Option<usize>)>,
    n: int,
)
    requires
        runs(events, states),
        0 <= n <= events.len(),
    ensures
        names_unique(states[n].0),
    decreases n,
{
    if n > 0 {
        lemma_runs_keep_names(events, states, n - 1);
        lemma_event_keeps_names(
            states[n - 1].0,
            states[n - 1].1,
            events[n - 1],
            states[n].0,
            states[n].1,
        );
    }
}

/// A catalog read from a schema maps each record name to one template and each
/// type id to one field type: a record declared again replaces the earlier one,
/// and a type declared again stops the reading.
pub proof fn law_loaded_names_unique<T>(events: Seq<EventModel>, l: Layout<T>)
    requires
        load_result(events, Ok::<Layout<T>, LayoutError>(l)),
    ensures
        names_unique(l),
{
    let states = choose|states: Seq<(Layout<T>, Option<usize>)>|
        runs(events, states) && #[trigger] states.last().0 == l;
    lemma_runs_keep_names(events, states, events.len() as int);
}

} // verus!
