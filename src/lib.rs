//! Fixed-width, line-oriented record decoding driven by a schema that names each
//! record's fields, their types and their widths.
//!
//! * `fieldtype`: the semantic types of fields;
//! * `field`: one fixed-width column and the value decoded into it;
//! * `record`: an ordered list of fields, their positions, and the decoding of a
//!   line, by bytes (`AsciiMode`) or by characters (`UTF8Mode`);
//! * `layout`: the catalog of types and record templates read from a schema;
//! * `mapper`: the classification of a line into a record identifier;
//! * `reader`: the decisions of the decode loop;
//! * `text`, `util`: blank trimming, padding, number and list parsing.
pub mod field;
pub mod fieldtype;
pub mod layout;
pub mod mapper;
pub mod reader;
pub mod record;
pub mod text;
pub mod util;
