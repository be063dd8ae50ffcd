//! The semantic type of a field: one of five base kinds (`string`, `decimal`,
//! `integer`, `date`, `time`), with a format for dates and times and an optional
//! validation pattern that is stored but not enforced.
use vstd::prelude::*;

use crate::text::str_eq;

verus! {

/// The base kinds that a field type may have.
#[derive(Debug, PartialEq)]
pub enum BaseDataType {
    String,
    Decimal,
    Integer,
    Date { date_format: String },
    Time { time_format: String },
}

/// A named field type: its nickname, its base kind and an optional pattern.
#[derive(Debug)]
pub struct FieldDataType {
    /// Nickname for the field type
    pub id: String,
    /// Base kind
    pub base_data_type: BaseDataType,
    /// Optional pattern which describes the field format
    pub pattern: String,
}

/// The five names accepted as a base kind.
pub open spec fn is_base_type_name(s: Seq<char>) -> bool {
    s == "string"@ || s == "decimal"@ || s == "integer"@ || s == "date"@ || s == "time"@
}

/// Default format of a `date` kind.
pub open spec fn default_date_format() -> Seq<char> {
    "%D%m%s"@
}

/// Default format of a `time` kind.
pub open spec fn default_time_format() -> Seq<char> {
    "%H%M%S"@
}

/// `b` is the base kind that `name` designates, with its default format.
pub open spec fn base_kind_named(b: BaseDataType, name: Seq<char>) -> bool {
    match b {
        BaseDataType::String => name == "string"@,
        BaseDataType::Decimal => name == "decimal"@,
        BaseDataType::Integer => name == "integer"@,
        BaseDataType::Date { date_format } => name == "date"@ && date_format@
            == default_date_format(),
        BaseDataType::Time { time_format } => name == "time"@ && time_format@
            == default_time_format(),
    }
}

impl BaseDataType {
    /// Tells whether `name` is one of the five base kind names.
    pub fn is_known(name: &str) -> (r: bool)
        ensures
            r == is_base_type_name(name@),
    {
        str_eq(name, "string") || str_eq(name, "decimal") || str_eq(name, "integer") || str_eq(
            name,
            "date",
        ) || str_eq(name, "time")
    }

    /// The base kind that `name` designates, with the default format for dates and times.
    pub fn from_name(name: &str) -> (r: Option<BaseDataType>)
        ensures
            r is Some <==> is_base_type_name(name@),
            r matches Some(b) ==> base_kind_named(b, name@),
    {
        if str_eq(name, "string") {
            Some(BaseDataType::String)
        } else if str_eq(name, "decimal") {
            Some(BaseDataType::Decimal)
        } else if str_eq(name, "integer") {
            Some(BaseDataType::Integer)
        } else if str_eq(name, "date") {
            Some(BaseDataType::Date { date_format: "%D%m%s".to_owned() })
        } else if str_eq(name, "time") {
            Some(BaseDataType::Time { time_format: "%H%M%S".to_owned() })
        } else {
            None
        }
    }
}

impl FieldDataType {
    /// Creates a field type from its nickname and the name of its base kind.
    pub fn new(id: &str, string_type: &str) -> (r: FieldDataType)
        requires
            id@.len() > 0,
            is_base_type_name(string_type@),
        ensures
            r.id@ == id@,
            base_kind_named(r.base_data_type, string_type@),
            r.pattern@.len() == 0,
    {
        let base = if str_eq(string_type, "string") {
            BaseDataType::String
        } else if str_eq(string_type, "decimal") {
            BaseDataType::Decimal
        } else if str_eq(string_type, "integer") {
            BaseDataType::Integer
        } else if str_eq(string_type, "date") {
            BaseDataType::Date { date_format: "%D%m%s".to_owned() }
        } else {
            BaseDataType::Time { time_format: "%H%M%S".to_owned() }
        };
        FieldDataType { id: id.to_owned(), base_data_type: base, pattern: String::new() }
    }

    /// Makes this a `date` type with the given format.
    pub fn set_date_format(&mut self, date_format: &str)
        ensures
            final(self).id == old(self).id,
            final(self).pattern == old(self).pattern,
            final(self).base_data_type matches BaseDataType::Date { date_format: f } && f@
                == date_format@,
    {
        self.base_data_type = BaseDataType::Date { date_format: date_format.to_owned() };
    }

    /// Makes this a `time` type with the given format.
    pub fn set_time_format(&mut self, time_format: &str)
        ensures
            final(self).id == old(self).id,
            final(self).pattern == old(self).pattern,
            final(self).base_data_type matches BaseDataType::Time { time_format: f } && f@
                == time_format@,
    {
        self.base_data_type = BaseDataType::Time { time_format: time_format.to_owned() };
    }

    /// Stores a validation pattern; it is kept as text and not enforced.
    pub fn set_pattern(&mut self, pattern: &str)
        ensures
            final(self).id == old(self).id,
            final(self).base_data_type == old(self).base_data_type,
            final(self).pattern@ == pattern@,
    {
        self.pattern = pattern.to_owned();
    }
}

} // verus!
