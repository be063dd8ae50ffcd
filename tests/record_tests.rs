use std::rc::Rc;

use rbf::field::Field;
use rbf::fieldtype::FieldDataType;
use rbf::record::setup::{set_up_by_length, set_up_by_length_huge, set_up_by_offset};
use rbf::record::{AsciiMode, Record, UTF8Mode};

fn names<T>(rec: &Record<T>) -> Vec<String> {
    rec.flist.iter().map(|f| f.name.clone()).collect()
}

fn descriptions<T>(rec: &Record<T>) -> Vec<String> {
    rec.flist.iter().map(|f| f.description.clone()).collect()
}

fn lengths<T>(rec: &Record<T>) -> Vec<usize> {
    rec.flist.iter().map(|f| f.length).collect()
}

fn raw_values<T>(rec: &Record<T>) -> Vec<String> {
    rec.flist.iter().map(|f| f.raw_value.clone()).collect()
}

fn str_values<T>(rec: &Record<T>) -> Vec<String> {
    rec.flist.iter().map(|f| f.str_value.clone()).collect()
}

#[test]
fn record_ascii_by_length() {
    let mut rec = set_up_by_length::<AsciiMode>();

    assert_eq!(rec.calculated_length, 50);
    assert_eq!(rec.count(), 4);

    assert_eq!(names(&rec), vec!["FIELD1", "FIELD2", "FIELD3", "FIELD2"]);
    assert_eq!(
        descriptions(&rec),
        vec![
            "Description for field 1",
            "Description for field 2",
            "Description for field 3",
            "Description for field 2"
        ]
    );
    assert_eq!(lengths(&rec), vec![10, 10, 20, 10]);

    let s = "FIELD1".to_string();

    assert!(rec.contains_field(&s));
    assert_eq!(rec.contains_field("FOO"), false);

    assert!(rec.get("FIELD1").is_some());
    assert!(rec.get("FOO").is_none());

    // line has exactly the right length in chars
    let s2 = "AAAAAAAAAABBBBBBBBBBCCCCCCCCCCCCCCCCCCCCDDDDDDDDDD";
    rec.set_value(&s2);
    assert_eq!(rec.flist[0].value(), "AAAAAAAAAA");
    assert_eq!(rec.flist[1].value(), "BBBBBBBBBB");
    assert_eq!(rec.flist[2].value(), "CCCCCCCCCCCCCCCCCCCC");
    assert_eq!(rec.flist[3].value(), "DDDDDDDDDD");
    assert_eq!(raw_values(&rec), vec!["AAAAAAAAAA", "BBBBBBBBBB", "CCCCCCCCCCCCCCCCCCCC", "DDDDDDDDDD"]);

    // display
    assert_eq!(
        rec.to_string(),
        "(FIELD1='AAAAAAAAAA',FIELD2='BBBBBBBBBB',FIELD3='CCCCCCCCCCCCCCCCCCCC',FIELD2='DDDDDDDDDD')"
    );

    // line is over right length in chars
    let s3 = "AAAAAAAAAABBBBBBBBBBCCCCCCCCCCCCCCCCCCCCDDDDDDDDDDEEEEEEEEEEEEEEEE";
    rec.set_value(&s3);
    assert_eq!(rec.flist[0].value(), "AAAAAAAAAA");
    assert_eq!(rec.flist[1].value(), "BBBBBBBBBB");
    assert_eq!(rec.flist[2].value(), "CCCCCCCCCCCCCCCCCCCC");
    assert_eq!(rec.flist[3].value(), "DDDDDDDDDD");
    assert_eq!(raw_values(&rec), vec!["AAAAAAAAAA", "BBBBBBBBBB", "CCCCCCCCCCCCCCCCCCCC", "DDDDDDDDDD"]);

    // line is shorter than the length in chars
    let s4 = "ZZZZZZZZZZ";
    rec.set_value(&s4);
    assert_eq!(rec.flist[0].value(), "ZZZZZZZZZZ");
    assert_eq!(rec.flist[1].raw_value, "          ");
    assert_eq!(rec.flist[2].raw_value, "                    ");
    assert_eq!(rec.flist[3].raw_value, "          ");
    assert_eq!(rec.flist[1].value(), "");
    assert_eq!(rec.flist[2].value(), "");
    assert_eq!(rec.flist[3].value(), "");
    assert_eq!(str_values(&rec), vec!["ZZZZZZZZZZ", "", "", ""]);
}

#[test]
fn record_ascii_by_offset() {
    let mut rec = set_up_by_offset::<AsciiMode>();

    assert_eq!(rec.calculated_length, 60);
    assert_eq!(rec.count(), 4);

    assert_eq!(names(&rec), vec!["FIELD1", "FIELD2", "FIELD3", "FIELD2"]);
    assert_eq!(
        descriptions(&rec),
        vec![
            "Description for field 1",
            "Description for field 2",
            "Description for field 3",
            "Description for field 2"
        ]
    );
    assert_eq!(lengths(&rec), vec![5, 5, 10, 11]);

    let s = "FIELD1".to_string();

    assert!(rec.contains_field(&s));
    assert_eq!(rec.contains_field("FOO"), false);

    assert!(rec.get("FIELD1").is_some());
    assert!(rec.get("FOO").is_none());

    // line has exactly the right length in chars
    let s1 = "    AAAAA     BBBBB          CCCCCCCCCC          DDDDDDDDDDD";
    rec.set_value(&s1);
    assert_eq!(rec.flist[0].value(), "AAAAA");
    assert_eq!(rec.flist[1].value(), "BBBBB");
    assert_eq!(rec.flist[2].value(), "CCCCCCCCCC");
    assert_eq!(rec.flist[3].value(), "DDDDDDDDDDD");
    assert_eq!(raw_values(&rec), vec!["AAAAA", "BBBBB", "CCCCCCCCCC", "DDDDDDDDDDD"]);
}

#[test]
fn record_utf8_by_offset() {
    let mut rec = set_up_by_offset::<UTF8Mode>();

    // line has exactly the right length in chars
    let s1 = "    ααααα     βββββ          γγγγγγγγγγ          δδδδδδδδδδδ";
    rec.set_value(&s1);
    assert_eq!(rec.flist[0].value(), "ααααα");
    assert_eq!(rec.flist[1].value(), "βββββ");
    assert_eq!(rec.flist[2].value(), "γγγγγγγγγγ");
    assert_eq!(rec.flist[3].value(), "δδδδδδδδδδδ");
    assert_eq!(raw_values(&rec), vec!["ααααα", "βββββ", "γγγγγγγγγγ", "δδδδδδδδδδδ"]);
}

#[test]
fn record_utf8_by_length() {
    let mut rec = set_up_by_length::<UTF8Mode>();

    let s5 = "ααααααααααββββββββββγγγγγγγγγγγγγγγγγγγγδδδδδδδδδδ";
    rec.set_value(&s5);
    assert_eq!(rec.flist[0].value(), "αααααααααα");
    assert_eq!(rec.flist[1].value(), "ββββββββββ");
    assert_eq!(rec.flist[2].value(), "γγγγγγγγγγγγγγγγγγγγ");
    assert_eq!(rec.flist[3].value(), "δδδδδδδδδδ");
    assert_eq!(raw_values(&rec), vec!["αααααααααα", "ββββββββββ", "γγγγγγγγγγγγγγγγγγγγ", "δδδδδδδδδδ"]);
}

#[test]
fn record_lookups_by_name() {
    let mut rec = set_up_by_length::<AsciiMode>();
    rec.set_value("AAAAAAAAAABBBBBBBBBBCCCCCCCCCCCCCCCCCCCCDDDDDDDDDD");
    assert_eq!(rec.get_value("FIELD2"), "BBBBBBBBBB");
    assert_eq!(rec.get_value_with_index("FIELD2", 0), "BBBBBBBBBB");
    assert_eq!(rec.get_value_with_index("FIELD2", 1), "DDDDDDDDDD");
    assert_eq!(rec.get("FIELD2").unwrap().len(), 2);
    assert_eq!(rec.get("FIELD2").unwrap()[1].multiplicity, 1);
    assert!(rec.field_at(3).is_some());
    assert!(rec.field_at(4).is_none());
    assert_eq!(
        rec.value(),
        "AAAAAAAAAABBBBBBBBBBCCCCCCCCCCCCCCCCCCCCDDDDDDDDDD"
    );
}

#[test]
fn record_round_trip_exact_length() {
    let mut rec = set_up_by_length::<UTF8Mode>();
    let line = "0123456789abcdefghijABCDEFGHIJKLMNOPQRSTαβγδεζηθικ";
    assert_eq!(line.chars().count(), 50);
    rec.set_value(line);
    assert_eq!(rec.value(), line);
}

#[test]
fn record_decode_twice_same_values() {
    let mut rec = set_up_by_offset::<AsciiMode>();
    let line = "    AAAAA     BBBBB          CCCCCCCCCC          DDDDDDDDDDD";
    rec.set_value(line);
    let first = str_values(&rec);
    rec.set_value(line);
    assert_eq!(str_values(&rec), first);
}

#[test]
fn record_short_line_is_padded_one_past_length() {
    let rec = set_up_by_length::<AsciiMode>();
    let padded = rec.adjust_value("ZZ");
    assert_eq!(padded.len(), 51);
    assert!(padded.starts_with("ZZ "));
    let long = rec.adjust_value(&"Q".repeat(60));
    assert_eq!(long.len(), 60);
}

#[test]
fn record_offset_fields_grow_length_to_highest_bound() {
    let ft = Rc::new(FieldDataType::new("I", "integer"));
    let mut rec = Record::<AsciiMode>::new("R", "d", 0);
    rec.push(Field::new_with_offset("B", "d", &ft, 20, 29));
    assert_eq!(rec.calculated_length, 29);
    rec.push(Field::new_with_offset("A", "d", &ft, 1, 5));
    assert_eq!(rec.calculated_length, 29);
    rec.push(Field::new("C", "d", &ft, 4));
    assert_eq!(rec.calculated_length, 33);
    assert_eq!(rec.flist[2].lower_offset, 29);
    assert_eq!(rec.flist[2].upper_offset, 32);
    assert_eq!(rec.flist[2].index, 2);
}

#[test]
fn record_repeated_name_multiplicity() {
    let ft = Rc::new(FieldDataType::new("I", "integer"));
    let mut rec = Record::<AsciiMode>::new("R", "d", 0);
    for _ in 0..3 {
        rec.push(Field::new("X", "d", &ft, 1));
        rec.push(Field::new("Y", "d", &ft, 1));
    }
    let xs: Vec<usize> = rec.get("X").unwrap().iter().map(|f| f.multiplicity).collect();
    assert_eq!(xs, vec![0, 1, 2]);
    let ys: Vec<usize> = rec.get("Y").unwrap().iter().map(|f| f.multiplicity).collect();
    assert_eq!(ys, vec![0, 1, 2]);
}

#[test]
fn record_utf8_two_byte_chars() {
    let ft = Rc::new(FieldDataType::new("S", "string"));
    let mut rec = Record::<UTF8Mode>::new("R", "d", 0);
    rec.push(Field::new("F", "d", &ft, 5));
    rec.set_value("ααααα");
    assert_eq!(rec.flist[0].value(), "ααααα");
    assert_eq!(rec.flist[0].value().chars().count(), 5);
    assert_eq!(rec.flist[0].value().len(), 10);
}

#[test]
fn record_filter_retain_remove() {
    let mut rec = set_up_by_length::<AsciiMode>();
    assert_eq!(rec.filter(|f| f.length > 15).unwrap().len(), 1);
    assert!(rec.filter(|f| f.length > 100).is_none());
    rec.retain(|f| f.name != "FIELD3");
    assert_eq!(names(&rec), vec!["FIELD1", "FIELD2", "FIELD2"]);
    rec.remove(|f| f.name == "FIELD2");
    assert_eq!(names(&rec), vec!["FIELD1"]);
    assert_eq!(rec.calculated_length, 50);
}

#[test]
fn record_clone_is_deep() {
    let mut rec = set_up_by_offset::<AsciiMode>();
    rec.set_value("    AAAAA     BBBBB          CCCCCCCCCC          DDDDDDDDDDD");
    let copy = rec.clone();
    assert_eq!(copy.calculated_length, 60);
    assert_eq!(str_values(&copy), str_values(&rec));
    assert_eq!(copy.flist[3].lower_offset, 49);
    assert_eq!(copy.flist[3].multiplicity, 1);
    assert_eq!(names(&copy), names(&rec));
}

#[test]
fn record_huge() {
    let rec = set_up_by_length_huge::<AsciiMode>(100);
    assert_eq!(rec.count(), 100);
    assert_eq!(rec.calculated_length, 1000);
    assert_eq!(rec.flist[99].multiplicity, 99);
}

#[test]
fn record_padding_counts_mode_units() {
    let ft = Rc::new(FieldDataType::new("S", "string"));
    let mut ascii = Record::<AsciiMode>::new("R", "d", 0);
    ascii.push(Field::new("F", "d", &ft, 3));
    assert_eq!(ascii.adjust_value("αβ"), "αβ");
    assert_eq!(ascii.adjust_value("ab"), "ab  ");
    let mut utf8 = Record::<UTF8Mode>::new("R", "d", 0);
    utf8.push(Field::new("F", "d", &ft, 3));
    assert_eq!(utf8.adjust_value("αβ"), "αβ  ");
}

#[test]
fn record_sample_layouts() {
    let rec = set_up_by_offset::<AsciiMode>();
    let bounds: Vec<(usize, usize)> = rec.flist.iter().map(|f| (f.lower_offset, f.upper_offset)).collect();
    assert_eq!(bounds, vec![(4, 8), (14, 18), (29, 38), (49, 59)]);
    assert_eq!(rec.declared_length, 0);
    let rec = set_up_by_length::<UTF8Mode>();
    let mults: Vec<usize> = rec.flist.iter().map(|f| f.multiplicity).collect();
    assert_eq!(mults, vec![0, 0, 0, 1]);
    assert_eq!(rec.declared_length, 20);
}
