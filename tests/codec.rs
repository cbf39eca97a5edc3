use vcard::fold::{fold_line, unfold_lines};
use vcard::value::{decode_value, encode_value};
use vcard::{Cardinality, ErrorKind, Property, PropertyType, ValueType, ValueKind, VCard};

fn chars(s: &str) -> Vec<char> {
    s.chars().collect()
}

fn text(v: &[char]) -> String {
    v.iter().collect()
}

fn strings(items: &[&str]) -> Vec<String> {
    items.iter().map(|s| s.to_string()).collect()
}

fn round_trip(v: ValueType, kind: ValueKind) {
    let encoded = encode_value(&v);
    assert_eq!(decode_value(kind, &encoded), Some(v));
}

#[test]
fn structured_value_decomposition() {
    let v = decode_value(ValueKind::StructuredText, &chars("Public;Smith;John;;")).unwrap();
    assert_eq!(
        v,
        ValueType::StructuredText(vec![
            strings(&["Public"]),
            strings(&["Smith"]),
            strings(&["John"]),
            vec![],
            vec![],
        ])
    );
}

#[test]
fn escapes_are_decoded() {
    let v = decode_value(ValueKind::Text, &chars(r"a\,b\;c\\d\ne\Nf\")).unwrap();
    assert_eq!(v, ValueType::Text("a,b;c\\d\ne\nf\\".to_string()));
    let l = decode_value(ValueKind::TextList, &chars("a\\,b,c,,")).unwrap();
    assert_eq!(l, ValueType::TextList(strings(&["a,b", "c", "", ""])));
    assert_eq!(decode_value(ValueKind::TextList, &chars("")), Some(ValueType::TextList(vec![])));
}

#[test]
fn escapes_are_encoded() {
    let e = encode_value(&ValueType::Text("a,b;c\\d\ne".to_string()));
    assert_eq!(text(&e), r"a\,b\;c\\d\ne");
    let s = encode_value(&ValueType::StructuredText(vec![
        strings(&["x;y", "z"]),
        vec![],
        strings(&["w,"]),
    ]));
    assert_eq!(text(&s), r"x\;y,z;;w\,");
    assert_eq!(text(&encode_value(&ValueType::Boolean(false))), "FALSE");
}

#[test]
fn escaping_round_trip() {
    round_trip(ValueType::Text("semi;colon, comma\\ back\nslash".to_string()), ValueKind::Text);
    round_trip(ValueType::Text(String::new()), ValueKind::Text);
    round_trip(ValueType::TextList(strings(&["a,b", "", "c;d"])), ValueKind::TextList);
    round_trip(ValueType::TextList(vec![]), ValueKind::TextList);
    round_trip(
        ValueType::StructuredText(vec![strings(&["Doe"]), vec![], strings(&["a,", ";b"])]),
        ValueKind::StructuredText,
    );
    round_trip(ValueType::Boolean(true), ValueKind::Boolean);
    round_trip(ValueType::Boolean(false), ValueKind::Boolean);
    round_trip(
        ValueType::Verbatim(ValueKind::Date, "19850412".to_string()),
        ValueKind::Date,
    );
}

#[test]
fn booleans_ignore_case() {
    assert_eq!(decode_value(ValueKind::Boolean, &chars("tRuE")), Some(ValueType::Boolean(true)));
    assert_eq!(decode_value(ValueKind::Boolean, &chars("false")), Some(ValueType::Boolean(false)));
    assert_eq!(decode_value(ValueKind::Boolean, &chars("yes")), None);
}

#[test]
fn folding_boundary() {
    let line: String = format!("NOTE:{}", "x".repeat(100));
    let folded = fold_line(&chars(&line));
    assert!(folded.len() >= 2);
    assert_eq!(folded[0].len(), 75);
    assert_eq!(folded[1][0], ' ');
    assert_eq!(folded[1].len(), 31);
    for physical in &folded[1..] {
        assert_eq!(physical[0], ' ');
    }
    let unfolded = unfold_lines(&folded).unwrap();
    assert_eq!(unfolded, vec![chars(&line)]);
}

#[test]
fn short_line_is_not_folded() {
    let line = chars(&"y".repeat(75));
    let folded = fold_line(&line);
    assert_eq!(folded, vec![line.clone()]);
    assert_eq!(fold_line(&vec![]), vec![Vec::<char>::new()]);
}

#[test]
fn folding_counts_octets_and_keeps_characters_whole() {
    let line = chars(&format!("NOTE:{}", "é".repeat(60)));
    let folded = fold_line(&line);
    for physical in &folded {
        assert!(text(physical).len() <= 75);
    }
    assert_eq!(text(&folded[0]).len(), 75);
    assert_eq!(unfold_lines(&folded).unwrap(), vec![line]);
}

#[test]
fn fold_unfold_round_trip() {
    for n in [0usize, 1, 74, 75, 76, 149, 150, 151, 400] {
        let line = chars(&format!("X{}", "ab\\,".repeat(n / 4 + 1)).chars().take(n.max(1)).collect::<String>());
        let folded = fold_line(&line);
        assert_eq!(unfold_lines(&folded).unwrap(), vec![line]);
    }
}

#[test]
fn unfold_rejects_a_leading_continuation() {
    assert_eq!(unfold_lines(&vec![chars(" a"), chars("b")]), Err(0));
    assert_eq!(
        unfold_lines(&vec![chars("a"), chars(" b"), chars("\tc"), chars("d")]),
        Ok(vec![chars("abc"), chars("d")])
    );
}

#[test]
fn property_types_by_name() {
    assert_eq!(PropertyType::from_str("FN"), Ok(PropertyType::Fn));
    assert_eq!(PropertyType::from_str("fn"), Ok(PropertyType::Fn));
    assert_eq!(PropertyType::from_str("ClientPidMap"), Ok(PropertyType::Clientpidmap));
    assert_eq!(
        PropertyType::from_str("X-CUSTOM"),
        Ok(PropertyType::Extension("X-CUSTOM".to_string()))
    );
    assert_ne!(PropertyType::from_str("X-ABCDEFGHIJK"), PropertyType::from_str("X-ABCDEFGHIJL"));
    assert_eq!(PropertyType::from_str(""), Err(()));
    assert_eq!(PropertyType::from_str("A B"), Err(()));
}

#[test]
fn cardinalities() {
    assert_eq!(PropertyType::Version.get_cardinality(), Cardinality::ExactlyOne);
    assert_eq!(PropertyType::Begin.get_cardinality(), Cardinality::ExactlyOne);
    assert_eq!(PropertyType::Fn.get_cardinality(), Cardinality::AtLeastOne);
    assert_eq!(PropertyType::Uid.get_cardinality(), Cardinality::AtMostOne);
    assert_eq!(PropertyType::Kind.get_cardinality(), Cardinality::AtMostOne);
    assert_eq!(PropertyType::Tel.get_cardinality(), Cardinality::Arbitrary);
    assert_eq!(
        PropertyType::Extension("X-A".to_string()).get_cardinality(),
        Cardinality::Arbitrary
    );
    assert_eq!(PropertyType::N.default_kind(), ValueKind::StructuredText);
    assert_eq!(PropertyType::Categories.default_kind(), ValueKind::TextList);
    assert_eq!(PropertyType::Url.default_kind(), ValueKind::Uri);
}

#[test]
fn new_card_holds_version_and_names() {
    assert!(VCard::new(vec![]).is_none());
    let card = VCard::new(strings(&["A", "B"])).unwrap();
    assert_eq!(card.properties.len(), 3);
    assert_eq!(card.properties[0].ptype, PropertyType::Version);
    assert_eq!(card.properties[2].value, ValueType::Text("B".to_string()));
    assert_eq!(
        card.serialize(),
        "BEGIN:VCARD\r\nVERSION:4.0\r\nFN:A\r\nFN:B\r\nEND:VCARD\r\n"
    );
}

#[test]
fn property_from_strings() {
    let p = Property::new_from_strings(Some("g1"), "n", Some(";VALUE=text"), "Doe;John;;;").unwrap();
    assert_eq!(p.group, Some("g1".to_string()));
    assert_eq!(p.ptype, PropertyType::N);
    assert_eq!(
        p.value,
        ValueType::StructuredText(vec![strings(&["Doe"]), strings(&["John"]), vec![], vec![], vec![]])
    );
    let e = Property::new_from_strings(None, "", None, "x").unwrap_err();
    assert_eq!(e.kind, ErrorKind::Grammar);
    let e = Property::new_from_strings(None, "X-N", Some(";VALUE=boolean"), "x").unwrap_err();
    assert_eq!(e.kind, ErrorKind::Value);
    let e = Property::new_from_strings(None, "X-N", Some("VALUE=boolean"), "x").unwrap_err();
    assert_eq!(e.kind, ErrorKind::Grammar);
    let b = Property::new_from_strings(None, "X-B", Some(";VALUE=boolean"), "TRUE").unwrap();
    assert_eq!(b.value, ValueType::Boolean(true));
    let tel = Property::new_from_strings(None, "TEL", Some(";TYPE=work,home;TYPE=cell;X-P=1"), "1")
        .unwrap();
    assert_eq!(tel.params.len(), 3);
    assert_eq!(tel.params[0].name, "TYPE");
    assert_eq!(tel.params[0].values, strings(&["work", "home"]));
    assert_eq!(tel.params[1].name, "TYPE");
    assert_eq!(tel.params[1].values, strings(&["cell"]));
    assert_eq!(tel.params[2].name, "X-P");
    assert_eq!(tel.params[2].values, strings(&["1"]));
    let note = Property::new_from_strings(None, "NOTE", Some(r#";X-A="a,b;c:d\n""#), "x").unwrap();
    assert_eq!(note.params[0].values, strings(&[r"a,b;c:d\n"]));
}

#[test]
fn parameters_are_written_back_quoted_where_needed() {
    let card = vcard::Parser::new()
        .parse_vcard(
            "BEGIN:VCARD\r\nVERSION:4.0\r\nFN:A\r\nADR;LABEL=\"a;b\";TYPE=work,home:;;x\\,y;;;;\r\nEND:VCARD\r\n"
                .to_string(),
        )
        .unwrap();
    assert_eq!(
        card.serialize(),
        "BEGIN:VCARD\r\nVERSION:4.0\r\nFN:A\r\nADR;LABEL=\"a;b\";TYPE=work,home:;;x\\,y;;;;\r\nEND:VCARD\r\n"
    );
}

#[test]
fn numbers_are_checked() {
    assert_eq!(
        decode_value(ValueKind::Integer, &chars("1,-22,+3")),
        Some(ValueType::Verbatim(ValueKind::Integer, "1,-22,+3".to_string()))
    );
    assert_eq!(decode_value(ValueKind::Integer, &chars("12a")), None);
    assert_eq!(decode_value(ValueKind::Integer, &chars("")), None);
    assert_eq!(decode_value(ValueKind::Integer, &chars("1.5")), None);
    assert!(decode_value(ValueKind::Float, &chars("1.5,-2,+0.25")).is_some());
    assert_eq!(decode_value(ValueKind::Float, &chars("1.")), None);
    assert_eq!(decode_value(ValueKind::Float, &chars(".5")), None);
    assert_eq!(decode_value(ValueKind::Float, &chars("1.2.3")), None);
}

#[test]
fn date_and_time_lists() {
    assert!(decode_value(ValueKind::Date, &chars("19850412,--0412")).is_some());
    assert!(decode_value(ValueKind::Time, &chars("1022,102200Z")).is_some());
    assert!(decode_value(ValueKind::Timestamp, &chars("19961022T140000Z,19961022T140000")).is_some());
    assert_eq!(decode_value(ValueKind::Date, &chars("19850412,")), None);
}

#[test]
fn dates_keep_their_precision() {
    for ok in ["19850412", "1985", "1985-04", "--0412", "--04", "---12"] {
        assert_eq!(
            decode_value(ValueKind::Date, &chars(ok)),
            Some(ValueType::Verbatim(ValueKind::Date, ok.to_string())),
            "{}",
            ok
        );
    }
    for bad in ["1985041", "85-04-12", "1985-4", "", "19850412T10"] {
        assert_eq!(decode_value(ValueKind::Date, &chars(bad)), None, "{}", bad);
    }
}

#[test]
fn times_and_date_times() {
    for ok in ["10", "1022", "102200", "-22", "-2200", "--00", "102200Z", "1022-0800", "10+05"] {
        assert!(decode_value(ValueKind::Time, &chars(ok)).is_some(), "{}", ok);
    }
    for bad in ["1", "10220", "102200Y", "1022+8"] {
        assert_eq!(decode_value(ValueKind::Time, &chars(bad)), None, "{}", bad);
    }
    for ok in ["19961022T140000", "--1022T1400", "---22T14Z", "19961022T14-05"] {
        assert!(decode_value(ValueKind::DateTime, &chars(ok)).is_some(), "{}", ok);
    }
    assert_eq!(decode_value(ValueKind::DateTime, &chars("1996T14")), None);
    assert_eq!(decode_value(ValueKind::DateTime, &chars("19961022T-00")), None);
    for ok in ["19961022T140000", "1996", "--1022", "T102200Z", "T-22"] {
        assert!(decode_value(ValueKind::DateAndOrTime, &chars(ok)).is_some(), "{}", ok);
    }
    assert_eq!(decode_value(ValueKind::DateAndOrTime, &chars("April 12")), None);
    assert!(decode_value(ValueKind::Timestamp, &chars("19961022T140000Z")).is_some());
    assert!(decode_value(ValueKind::Timestamp, &chars("19961022T140000")).is_some());
    assert_eq!(decode_value(ValueKind::Timestamp, &chars("19961022")), None);
    assert!(decode_value(ValueKind::UtcOffset, &chars("-0500")).is_some());
    assert!(decode_value(ValueKind::UtcOffset, &chars("+01")).is_some());
    assert_eq!(decode_value(ValueKind::UtcOffset, &chars("Z")), None);
}

#[test]
fn folding_keeps_escape_sequences_whole() {
    let line = chars(&format!("NOTE:{}\\,{}", "a".repeat(69), "b".repeat(10)));
    assert_eq!(line[74], '\\');
    let folded = fold_line(&line);
    assert_eq!(folded[0].len(), 74);
    assert_eq!(folded[1][0], ' ');
    assert_eq!(folded[1][1], '\\');
    assert_eq!(folded[1][2], ',');
    assert_eq!(unfold_lines(&folded).unwrap(), vec![line]);
}

#[test]
fn folding_may_cut_after_an_escaped_backslash() {
    let line = chars(&format!("NOTE:{}\\\\{}", "a".repeat(68), "b".repeat(10)));
    assert_eq!(line[73], '\\');
    assert_eq!(line[74], '\\');
    let folded = fold_line(&line);
    assert_eq!(folded[0].len(), 75);
    assert_eq!(folded[1][1], 'b');
    let odd = chars(&format!("NOTE:{}\\\\\\,{}", "a".repeat(67), "b".repeat(10)));
    assert_eq!(odd[74], '\\');
    let folded_odd = fold_line(&odd);
    assert_eq!(folded_odd[0].len(), 74);
    assert_eq!(unfold_lines(&folded_odd).unwrap(), vec![odd]);
}
