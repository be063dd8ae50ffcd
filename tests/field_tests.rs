use std::rc::Rc;

use rbf::field::{Field, FieldCreationType};
use rbf::fieldtype::{BaseDataType, FieldDataType};

#[test]
fn field_cons_offset() {
    let ft = Rc::new(FieldDataType::new("I", "integer"));
    let f1 = Field::new_with_offset("F1", "Description for field 1", &ft, 5, 10);

    assert_eq!(&f1.name, "F1");
    assert_eq!(&f1.description, "Description for field 1");
    assert_eq!(f1.length, 6);
}

#[test]
fn field_cons_with_length() {
    let ft = Rc::new(FieldDataType::new("I", "integer"));
    let mut f1 = Field::new("F1", "Description for field 1", &ft, 10);

    assert_eq!(&f1.name, "F1");
    assert_eq!(&f1.description, "Description for field 1");
    assert_eq!(f1.length, 10);

    // utf-8
    f1.set_value("  αβ  ");
    assert_eq!(f1.value(), "αβ");

    // ascii
    f1.set_value("  XX  ");
    assert_eq!(f1.value(), "XX");

    let other_f1 = f1.clone();
    assert_eq!(other_f1.value(), "XX");
}

#[test]
fn unknown_fieldtype() {
    assert!(BaseDataType::from_name("complex").is_none());
    assert!(!BaseDataType::is_known("complex"));
    assert!(!BaseDataType::is_known(""));
}

#[test]
fn fieldtype_simple() {
    let ft = FieldDataType::new("I", "integer");
    assert_eq!(&ft.id, "I");
    assert_eq!(ft.base_data_type, BaseDataType::Integer);
}

#[test]
fn fieldtype_all() {
    let ft = FieldDataType::new("S", "string");
    assert_eq!(&ft.id, "S");
    assert_eq!(ft.base_data_type, BaseDataType::String);

    let ft = FieldDataType::new("N", "decimal");
    assert_eq!(&ft.id, "N");
    assert_eq!(ft.base_data_type, BaseDataType::Decimal);

    let ft = FieldDataType::new("I", "integer");
    assert_eq!(&ft.id, "I");
    assert_eq!(ft.base_data_type, BaseDataType::Integer);

    let ft = FieldDataType::new("D", "date");
    assert_eq!(&ft.id, "D");
    assert_eq!(ft.base_data_type, BaseDataType::Date { date_format: "%D%m%s".to_string() });

    let ft = FieldDataType::new("T", "time");
    assert_eq!(&ft.id, "T");
    assert_eq!(ft.base_data_type, BaseDataType::Time { time_format: "%H%M%S".to_string() });
}

#[test]
fn fieldtype_formats_and_pattern() {
    let mut ft = FieldDataType::new("D", "date");
    ft.set_date_format("%Y");
    assert_eq!(ft.base_data_type, BaseDataType::Date { date_format: "%Y".to_string() });
    ft.set_time_format("%H");
    assert_eq!(ft.base_data_type, BaseDataType::Time { time_format: "%H".to_string() });
    ft.set_pattern("\\d+");
    assert_eq!(ft.pattern, "\\d+");
    assert_eq!(ft.id, "D");
}

#[test]
fn field_length_built_has_width() {
    let ft = Rc::new(FieldDataType::new("I", "integer"));
    for l in [1usize, 2, 7, 100] {
        let f = Field::new("F", "d", &ft, l);
        assert_eq!(f.length, l);
        assert_eq!(f.len(), l);
        assert!(matches!(f.creation_type, FieldCreationType::ByLength));
        assert_eq!(f.cell_size, if l >= 1 { l } else { 1 });
    }
    let f = Field::new("LONGNAME", "d", &ft, 3);
    assert_eq!(f.cell_size, 8);
}

#[test]
fn field_offset_built_has_width() {
    let ft = Rc::new(FieldDataType::new("I", "integer"));
    for (a, b) in [(1usize, 1usize), (1, 10), (5, 9), (50, 60)] {
        let f = Field::new_with_offset("F", "d", &ft, a, b);
        assert_eq!(f.length, b - a + 1);
        assert_eq!(f.lower_offset, a - 1);
        assert_eq!(f.upper_offset, b - 1);
        assert!(matches!(f.creation_type, FieldCreationType::ByOffset));
    }
}

#[test]
fn field_trim_removes_unicode_blanks() {
    let ft = Rc::new(FieldDataType::new("I", "integer"));
    let mut f = Field::new("F", "d", &ft, 10);
    f.set_value("\t\u{3000} a b \u{a0}\n");
    assert_eq!(f.value(), "a b");
    assert_eq!(f.raw_value, "\t\u{3000} a b \u{a0}\n");
    f.set_value("     ");
    assert_eq!(f.value(), "");
}
