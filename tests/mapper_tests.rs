use rbf::mapper::{MapperError, RecordMapper};

#[test]
fn mapper_test() {
    let s = "01XX02AAAAAAAAAAAAAAAAAAA";

    let m1 = RecordMapper::from("type:0 map:DUMMY_RECORD_ID").unwrap();
    assert_eq!(m1.hasher(s).unwrap(), "DUMMY_RECORD_ID");

    let m2 = RecordMapper::from("type:1 map:0..2").unwrap();
    assert_eq!(m2.hasher(s).unwrap(), "01");

    let m3 = RecordMapper::from("type:2 map:0..2,4..6").unwrap();
    assert_eq!(m3.hasher(s).unwrap(), "0102");
}

#[test]
fn mapper_field_badcons() {
    assert_eq!(RecordMapper::from("type:3 map:?").err(), Some(MapperError::UnknownKind));
}

#[test]
fn mapper_ranges_over_example() {
    let s = "01XXYYZZ";
    assert_eq!(RecordMapper::from("type:1 map:0..2").unwrap().hasher(s).unwrap(), "01");
    assert_eq!(RecordMapper::from("type:2 map:0..2,4..6").unwrap().hasher(s).unwrap(), "01YY");
}

#[test]
fn mapper_grammar_errors_and_blanks() {
    assert_eq!(RecordMapper::from("type:1map:0..2").err(), Some(MapperError::Malformed));
    assert_eq!(RecordMapper::from("kind:1 map:0..2").err(), Some(MapperError::Malformed));
    assert_eq!(RecordMapper::from("type:1 map:0..").err(), Some(MapperError::Malformed));
    assert_eq!(RecordMapper::from("type:2 map:0..2").err(), Some(MapperError::Malformed));
    assert_eq!(RecordMapper::from("type:0 map:").err(), Some(MapperError::Malformed));
    assert_eq!(RecordMapper::from("type:0 map:A B").err(), Some(MapperError::Malformed));
    let m = RecordMapper::from("type:1   map:  3..5  ").unwrap();
    assert_eq!(m.hasher("abcdefg").unwrap(), "de");
}

#[test]
fn mapper_out_of_range_or_mid_char() {
    let m = RecordMapper::from("type:1 map:0..9").unwrap();
    assert!(m.hasher("short").is_none());
    let m = RecordMapper::from("type:1 map:0..1").unwrap();
    assert!(m.hasher("αβ").is_none());
    let m = RecordMapper::from("type:1 map:0..2").unwrap();
    assert_eq!(m.hasher("αβ").unwrap(), "α");
    let d = RecordMapper::default();
    assert_eq!(d.hasher("same line").unwrap(), "same line");
}
