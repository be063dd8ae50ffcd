use rbf::layout::{Layout, LayoutError, SchemaEvent};
use rbf::reader::{LineEvent, ReadError, ReadStep, Reader, ReaderLazyness};
use rbf::record::{AsciiMode, UTF8Mode};
use rbf::util::{into_field_list, into_rec_map};

fn schema() -> String {
    let mut s = String::new();
    s.push_str("<?xml version=\"1.0\" encoding=\"UTF-8\"?>\n<rbfile>\n");
    s.push_str("<meta version=\"1.0\" description=\"Test layout\" ignoreLine=\"^A\"/>\n");
    s.push_str("<fieldtype name=\"A\" type=\"string\" pattern=\"\\w+\"/>\n");
    s.push_str("<fieldtype name=\"N\" type=\"decimal\"/>\n");
    s.push_str("<record name=\"LL\" description=\"Letters\" length=\"353\">\n");
    s.push_str("<field name=\"ID\" description=\"Record ID\" length=\"2\" type=\"A\"/>\n");
    for i in 1..=26 {
        s.push_str(&format!("<field name=\"W{}\" description=\"Letter\" length=\"{}\" type=\"A\"/>\n", i, i));
    }
    s.push_str("</record>\n");
    s.push_str("<record name=\"NB\" description=\"Numbers\" length=\"47\">\n");
    s.push_str("<field name=\"ID\" description=\"Record ID\" length=\"2\" type=\"A\"/>\n");
    for i in 1..=9 {
        s.push_str(&format!("<field name=\"N{}\" description=\"Digit\" length=\"{}\" type=\"N\"/>\n", i, i));
    }
    s.push_str("</record>\n");
    s.push_str("<record name=\"GL\" description=\"Greek\" length=\"302\">\n");
    s.push_str("<field name=\"ID\" description=\"Record ID\" length=\"2\" type=\"A\"/>\n");
    for i in 1..=24 {
        s.push_str(&format!("<field name=\"G{}\" description=\"Greek\" length=\"{}\" type=\"A\"/>\n", i, i));
    }
    s.push_str("</record>\n");
    s.push_str("<record name=\"DP\" description=\"Duplicates\" length=\"22\">\n");
    s.push_str("<field name=\"ID\" description=\"Record ID\" start=\"1\" end=\"2\" type=\"A\"/>\n");
    for i in 0..4 {
        s.push_str(&format!(
            "<field name=\"F5\" description=\"Same\" start=\"{}\" end=\"{}\" type=\"A\"/>\n",
            3 + 5 * i,
            7 + 5 * i
        ));
    }
    s.push_str("</record>\n</rbfile>\n");
    s
}

fn layout_load_layout_ascii() -> Layout<AsciiMode> {
    Layout::<AsciiMode>::new(&schema()).unwrap()
}

fn start(tag: &str, attrs: &[(&str, &str)]) -> SchemaEvent {
    SchemaEvent::Start {
        tag: tag.to_string(),
        attributes: attrs.iter().map(|(k, v)| (k.to_string(), v.to_string())).collect(),
    }
}

#[test]
fn layout_utility() {
    let mut s = into_field_list("AA, BB, CC, DD  ");
    assert_eq!(s, vec!("AA", "BB", "CC", "DD"));

    s = into_field_list("AA ");
    assert_eq!(s, vec!("AA"));

    let v = into_rec_map("F1:AA,  BB, CC ; F2: DD, EE, FF   ; F3: GG, HH  ");
    let get = |k: &str| v.iter().find(|(n, _)| n == k).map(|(_, f)| f.clone()).unwrap();
    assert_eq!(get("F1"), vec!("AA", "BB", "CC"));
    assert_eq!(get("F2"), vec!("DD", "EE", "FF"));
    assert_eq!(get("F3"), vec!("GG", "HH"));
}

#[test]
fn layout_ascii() {
    let layout = layout_load_layout_ascii();

    assert!(layout.is_valid().0);

    assert_eq!(layout.contains_record("LL"), true);
    assert_eq!(layout.contains_record("100"), false);

    assert_eq!(layout.len(), 4);

    assert_eq!(layout.get("LL").unwrap().count(), 27);

    let f = layout.get("LL").unwrap().get("ID").unwrap();
    assert_eq!(f[0].ftype.pattern, "\\w+");

    assert_eq!(layout.get_type("A").unwrap().pattern, "\\w+");

    assert!(layout.contains_field("W1"));
    assert!(!layout.contains_field("FOO"));

    assert_eq!(layout.ignore_line.as_str(), "^A");

    for rec in &layout.rec_map {
        assert!(rec.name.len() >= 2);
        assert!(rec.name.len() <= 3);
    }
}

#[test]
fn layout_remove() {
    let mut layout = layout_load_layout_ascii();
    assert_eq!(layout.contains_field("ID"), true);

    layout.remove(vec!("ID"));
    assert_eq!(layout.contains_field("ID"), false);

    layout.remove(vec!("W26", "N9", "G24"));
    assert_eq!(layout.contains_field("ID"), false);

    assert_eq!(layout.get("LL").unwrap().count(), 25);
    assert_eq!(layout.get("NB").unwrap().count(), 8);
    assert_eq!(layout.get("GL").unwrap().count(), 23);
}

#[test]
fn layout_skip_field() {
    let mut layout = layout_load_layout_ascii();

    layout.set_skip_field("ID , W26,    N9 ,   G24 ");

    assert_eq!(layout.contains_field("ID"), false);
    assert_eq!(layout.get("LL").unwrap().count(), 25);
    assert_eq!(layout.get("NB").unwrap().count(), 8);
    assert_eq!(layout.get("GL").unwrap().count(), 23);
}

#[test]
fn layout_from_xml_applies_skip_field() {
    let text = schema().replace("ignoreLine=\"^A\"", "ignoreLine=\"^A\" skipField=\"W1, W2\"");
    let layout = Layout::<AsciiMode>::from_xml(&text).unwrap();
    assert_eq!(layout.skip_field, "W1, W2");
    assert_eq!(layout.get("LL").unwrap().count(), 25);
    assert!(!layout.contains_field("W1"));
    let plain = Layout::<AsciiMode>::new(&text).unwrap();
    assert_eq!(plain.get("LL").unwrap().count(), 27);
}

#[test]
fn record_filter() {
    let layout = layout_load_layout_ascii();
    let r_ll = layout.get("LL").unwrap();

    assert_eq!(r_ll.calculated_length, 353);

    let types = ["A".to_string(), "N".to_string()];
    for f in &r_ll.flist {
        assert!(f.len() <= 26);
        assert!(types.contains(&f.ftype.id));
        assert!(f.name.len() <= 4);
    }

    let fields = r_ll.filter(|f| f.length >= 25);
    assert_eq!(fields.unwrap().len(), 2);

    let r_dup = layout.get("DP").unwrap();
    let f_dup = r_dup.filter(|f| f.name == "F5").unwrap();
    assert_eq!(f_dup.len(), 4);

    for (i, f) in f_dup.iter().enumerate() {
        assert_eq!(f.multiplicity, i);
    }
}

#[test]
fn record_remove() {
    let mut layout = layout_load_layout_ascii();
    {
        let r_ll = layout.get_mut("LL").unwrap();

        r_ll.remove(|f| f.index == 0);
        assert_eq!(r_ll.flist[0].name, "W1");
        assert_eq!(r_ll.count(), 26);

        r_ll.remove(|f| f.name.starts_with("W1"));
        assert_eq!(r_ll.count(), 15);

        r_ll.remove(|f| f.name != "W2");
        assert_eq!(r_ll.count(), 1);
    }

    {
        let r_nb = layout.get_mut("NB").unwrap();
        r_nb.remove(|f| !["N1", "N2"].contains(&&*f.name));
        assert_eq!(r_nb.count(), 2);
    }
}

#[test]
fn record_iterator() {
    let mut layout = layout_load_layout_ascii();
    {
        let r_ll = layout.get("LL").unwrap();
        for f in &r_ll.flist {
            assert!(f.length < 27);
        }
    }
    {
        {
            let r_ll = layout.get_mut("LL").unwrap();
            for f in &mut r_ll.flist {
                f.length = 10;
            }
        }
        let r_ll = layout.get("LL").unwrap();
        let count = r_ll.count();
        let sum: usize = r_ll.flist.iter().map(|f| f.length).sum();
        assert_eq!(sum, 10 * count);
    }
}

#[test]
fn field_multiplicity() {
    let layout = layout_load_layout_ascii();
    let r_dp = layout.get("DP").unwrap().filter(|f| f.name == "F5").unwrap();
    assert_eq!(r_dp.len(), 4);
    for (i, f) in r_dp.iter().enumerate() {
        assert_eq!(f.multiplicity, i);
    }
}

#[test]
fn layout_length_check_reports_first_mismatch() {
    let text = schema().replace("length=\"47\"", "length=\"40\"");
    let layout = Layout::<AsciiMode>::new(&text).unwrap();
    let (ok, name, declared, calculated) = layout.is_valid();
    assert!(!ok);
    assert_eq!(name, "NB");
    assert_eq!(declared, 40);
    assert_eq!(calculated, 47);

    let text = schema().replace("description=\"Test layout\"", "description=\"Test layout\" reclength=\"353\"");
    let layout = Layout::<AsciiMode>::new(&text).unwrap();
    assert_eq!(layout.rec_length, 353);
    let (ok, name, expected, calculated) = layout.is_valid();
    assert!(!ok);
    assert_eq!(name, "NB");
    assert_eq!(expected, 353);
    assert_eq!(calculated, 47);
}

#[test]
fn layout_errors() {
    let ev = |events: Vec<SchemaEvent>| Layout::<AsciiMode>::load(&events).err();
    let ft = start("fieldtype", &[("name", "A"), ("type", "string")]);
    let rec = || start("record", &[("name", "R"), ("description", "d")]);
    assert_eq!(ev(vec![start("fieldtype", &[("name", "A")])]), Some(LayoutError::MissingAttribute));
    assert_eq!(ev(vec![start("fieldtype", &[("name", ""), ("type", "string")])]), Some(LayoutError::EmptyName));
    assert_eq!(ev(vec![start("fieldtype", &[("name", "C"), ("type", "complex")])]), Some(LayoutError::UnknownBaseType));
    let ft2 = start("fieldtype", &[("name", "A"), ("type", "integer")]);
    assert_eq!(ev(vec![ft, ft2]), Some(LayoutError::DuplicateType));
    assert_eq!(ev(vec![start("meta", &[("reclength", "12x")])]), Some(LayoutError::BadNumber));
    assert_eq!(ev(vec![start("meta", &[("ignoreLine", "(")])]), Some(LayoutError::BadPattern));
    assert_eq!(ev(vec![start("record", &[("name", "R"), ("description", "d"), ("length", "-1")])]), Some(LayoutError::BadNumber));
    let ft = || start("fieldtype", &[("name", "A"), ("type", "string")]);
    assert_eq!(
        ev(vec![ft(), start("field", &[("name", "F"), ("description", "d"), ("type", "A"), ("length", "3")])]),
        Some(LayoutError::NoCurrentRecord)
    );
    assert_eq!(
        ev(vec![ft(), rec(), start("field", &[("name", "F"), ("description", "d"), ("type", "B"), ("length", "3")])]),
        Some(LayoutError::UnknownFieldType)
    );
    assert_eq!(
        ev(vec![ft(), rec(), start("field", &[("name", "F"), ("description", "d"), ("type", "A"), ("start", "5"), ("end", "4")])]),
        Some(LayoutError::BadBounds)
    );
    assert_eq!(
        ev(vec![ft(), rec(), start("field", &[("name", "F"), ("description", "d"), ("type", "A")])]),
        Some(LayoutError::BadBounds)
    );
    assert_eq!(
        ev(vec![ft(), rec(), start("field", &[("name", ""), ("description", "d"), ("type", "A"), ("length", "1")])]),
        Some(LayoutError::EmptyName)
    );
    assert_eq!(
        ev(vec![ft(), rec(), start("field", &[("name", "F"), ("type", "A"), ("length", "1")])]),
        Some(LayoutError::MissingAttribute)
    );
    assert_eq!(
        ev(vec![ft(), rec(), start("field", &[("name", "F"), ("description", "d"), ("type", "A"), ("length", "18446744073709551615")])]),
        Some(LayoutError::TooLarge)
    );
}

#[test]
fn layout_record_redeclared_replaces() {
    let events = vec![
        start("fieldtype", &[("name", "A"), ("type", "string")]),
        start("record", &[("name", "R"), ("description", "first")]),
        start("field", &[("name", "F"), ("description", "d"), ("type", "A"), ("length", "3")]),
        SchemaEvent::Other,
        start("record", &[("name", "R"), ("description", "second"), ("length", "7")]),
        start("unknown", &[]),
    ];
    let layout = Layout::<AsciiMode>::load(&events).unwrap();
    assert_eq!(layout.len(), 1);
    let r = layout.get("R").unwrap();
    assert_eq!(r.description, "second");
    assert_eq!(r.declared_length, 7);
    assert_eq!(r.count(), 0);
}

fn drive<T: rbf::record::ReadMode>(reader: &mut Reader<T>, line: Option<&str>) -> ReadStep {
    match line {
        Some(text) => {
            let id: String = text.chars().take(2).collect();
            reader.next(LineEvent::Line { text, rec_id: &id })
        }
        None => reader.next(LineEvent::End),
    }
}

fn ll_line() -> String {
    let letters = "ABCDEFGHIJKLMNOPQRSTUVWXYZ";
    let mut s = "LL".to_string();
    for (i, l) in letters.chars().enumerate() {
        s.push_str(&l.to_string().repeat(i + 1));
    }
    s
}

#[test]
fn reader_lazy() {
    let layout = Layout::<UTF8Mode>::new(&schema()).unwrap();
    let mut reader = Reader::<UTF8Mode>::new(layout);

    let letters = "ABCDEFGHIJKLMNOPQRSTUVWXYZ";
    let digits = "123456789";
    let greek = "αβγδεζηθικλμνξοπρστυφχψω";

    let mut nb = "NB".to_string();
    for (i, n) in digits.chars().enumerate() {
        nb.push_str(&n.to_string().repeat(i + 1));
    }
    let mut gl = "GL".to_string();
    for (i, l) in greek.chars().enumerate() {
        gl.push_str(&l.to_string().repeat(i + 1));
    }
    let dp = "DPAAAAABBBBBCCCCCDDDDD".to_string();
    let lines = vec![ll_line() + "\n", "ZZ unknown\n".to_string(), nb + "\n", gl + "\n", dp + "\n"];

    let mut seen = 0;
    let mut i = 0;
    loop {
        let line = lines.get(i).map(|s| s.as_str());
        i += 1;
        let k = match drive(&mut reader, line) {
            ReadStep::Decoded(k) => k,
            ReadStep::Skipped => continue,
            ReadStep::Exhausted => break,
            other => panic!("unexpected step {:?}", other),
        };
        seen += 1;
        let rec = reader.record(k);
        match rec.name.as_ref() {
            "LL" => {
                assert_eq!(rec.get_value("ID"), "LL");
                for (i, l) in letters.chars().enumerate() {
                    let fname = format!("W{}", i + 1);
                    assert_eq!(rec.get_value(&fname), l.to_string().repeat(i + 1));
                }
            }
            "NB" => {
                assert_eq!(rec.get_value("ID"), "NB");
                for (i, n) in digits.chars().enumerate() {
                    let fname = format!("N{}", i + 1);
                    assert_eq!(rec.get_value(&fname), n.to_string().repeat(i + 1));
                }
            }
            "GL" => {
                assert_eq!(rec.get_value("ID"), "GL");
                for (i, l) in greek.chars().enumerate() {
                    let fname = format!("G{}", i + 1);
                    assert_eq!(rec.get_value(&fname), l.to_string().repeat(i + 1));
                }
            }
            "DP" => {
                assert_eq!(rec.get_value("ID"), "DP");
                assert_eq!(rec.get("F5").unwrap()[0].value(), "AAAAA");
                assert_eq!(rec.get("F5").unwrap()[1].value(), "BBBBB");
                assert_eq!(rec.get("F5").unwrap()[2].value(), "CCCCC");
                assert_eq!(rec.get("F5").unwrap()[3].value(), "DDDDD");
            }
            _ => panic!("record name <{}> not found in file <{}>", rec.name, "./tests/test.data"),
        }
    }
    assert_eq!(seen, 4);
    assert_eq!(reader.nblines_read, 5);
    assert_eq!(drive(&mut reader, None), ReadStep::Exhausted);
}

#[test]
fn reader_stringent() {
    let layout = Layout::<AsciiMode>::new(&schema()).unwrap();
    let mut reader = Reader::<AsciiMode>::new(layout);
    reader.set_lazyness(ReaderLazyness::Stringent);
    assert!(matches!(drive(&mut reader, Some(&ll_line())), ReadStep::Decoded(_)));
    assert_eq!(drive(&mut reader, Some("ZZ unknown")), ReadStep::Fatal(ReadError::UnknownRecord));
}

#[test]
fn reader_lazy_skips_unknown_line() {
    let layout = Layout::<AsciiMode>::new(&schema()).unwrap();
    let mut reader = Reader::<AsciiMode>::new(layout);
    let lines = [ll_line(), "XX unknown".to_string(), "DPAAAAABBBBBCCCCCDDDDD".to_string()];
    let mut names = Vec::new();
    for line in lines.iter() {
        match drive(&mut reader, Some(line)) {
            ReadStep::Decoded(k) => names.push(reader.record(k).name.clone()),
            ReadStep::Skipped => names.push("-".to_string()),
            other => panic!("unexpected step {:?}", other),
        }
    }
    assert_eq!(names, vec!["LL", "-", "DP"]);
    assert_eq!(drive(&mut reader, None), ReadStep::Exhausted);
    assert_eq!(drive(&mut reader, None), ReadStep::Exhausted);
    assert_eq!(drive(&mut reader, Some("LL")), ReadStep::Exhausted);
}

#[test]
fn reader_stringent_fails_on_unknown_line() {
    let layout = Layout::<AsciiMode>::new(&schema()).unwrap();
    let mut reader = Reader::<AsciiMode>::new(layout);
    reader.set_lazyness(ReaderLazyness::Stringent);
    assert!(matches!(drive(&mut reader, Some(&ll_line())), ReadStep::Decoded(_)));
    assert_eq!(drive(&mut reader, Some("XX unknown")), ReadStep::Fatal(ReadError::UnknownRecord));
}

#[test]
fn reader_ascii_refuses_non_ascii_line() {
    let layout = Layout::<AsciiMode>::new(&schema()).unwrap();
    let mut reader = Reader::<AsciiMode>::new(layout);
    assert_eq!(drive(&mut reader, Some("DPααααα")), ReadStep::Fatal(ReadError::NotAscii));
    let mut reader = Reader::<AsciiMode>::new(Layout::<AsciiMode>::new(&schema()).unwrap());
    let step = reader.next_record_id(LineEvent::Line { text: "NB123", rec_id: "NB" });
    assert!(matches!(step, ReadStep::Found(_)));
    assert_eq!(reader.chars_read, 5);
}

#[test]
fn schema_example_w5() {
    let mut layout = Layout::<AsciiMode>::new(&schema()).unwrap();
    let line = ll_line();
    assert_eq!(line.len(), 353);
    let rec = layout.get_mut("LL").unwrap();
    assert_eq!(rec.count(), 27);
    assert_eq!(rec.declared_length, 353);
    rec.set_value(&line);
    assert_eq!(rec.get_value("W5"), "EEEEE");
    assert_eq!(rec.value(), line);
}
