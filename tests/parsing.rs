use vcard::content_line::parse_content_line;
use vcard::params::decode_params;
use vcard::{ErrorKind, Parser, PropertyType, ValueType, VCard};

fn chars(s: &str) -> Vec<char> {
    s.chars().collect()
}

fn strings(items: &[&str]) -> Vec<String> {
    items.iter().map(|s| s.to_string()).collect()
}

fn parse(text: &str) -> Result<VCard, vcard::ParserError> {
    Parser::new().parse_vcard(text.to_string())
}

const DOE: &str = "BEGIN:VCARD\r\nVERSION:4.0\r\nFN:J. Doe\r\nN:Doe;J.;;;\r\nEND:VCARD\r\n";

#[test]
fn wikipedia_example() {
    let text = "BEGIN:VCARD\n\
VERSION:4.0\n\
N:Gump;Forrest;;Mr.;\n\
FN:Forrest Gump\n\
ORG:Bubba Gump Shrimp Co.\n\
TITLE:Shrimp Man\n\
PHOTO;MEDIATYPE=image/gif:http://www.example.com/dir_photos/my_photo.gif\n\
TEL;TYPE=work,voice;VALUE=uri:tel:+1-111-555-1212\n\
TEL;TYPE=home,voice;VALUE=uri:tel:+1-404-555-1212\n\
ADR;TYPE=WORK;PREF=1;LABEL=\"100 Waters Edge\\nBaytown\\, LA 30314\\nUnited States of America\":;;100 Waters Edge;Baytown;LA;30314;United States of America\n\
EMAIL:forrestgump@example.com\n\
REV:20080424T195243Z\n\
x-qq:21588891\n\
END:VCARD\n";
    let card = parse(text).unwrap();
    assert_eq!(card.properties.len(), 12);
    let n = &card.properties[1];
    assert_eq!(n.ptype, PropertyType::N);
    assert_eq!(
        n.value,
        ValueType::StructuredText(vec![
            strings(&["Gump"]),
            strings(&["Forrest"]),
            vec![],
            strings(&["Mr."]),
            vec![],
        ])
    );
    let tel = &card.properties[6];
    assert_eq!(tel.ptype, PropertyType::Tel);
    assert_eq!(tel.params.len(), 2);
    assert_eq!(tel.params[0].values, strings(&["work", "voice"]));
    assert_eq!(
        tel.value,
        ValueType::Verbatim(vcard::ValueKind::Uri, "tel:+1-111-555-1212".to_string())
    );
    let adr = &card.properties[8];
    assert_eq!(adr.params[2].name, "LABEL");
    assert_eq!(
        adr.params[2].values,
        strings(&["100 Waters Edge\\nBaytown\\, LA 30314\\nUnited States of America"])
    );
    let extension = &card.properties[11];
    assert_eq!(extension.ptype, PropertyType::Extension("x-qq".to_string()));
    assert_eq!(extension.name, "x-qq");
    assert_eq!(extension.value, ValueType::Text("21588891".to_string()));
}

#[test]
fn end_to_end_scenario() {
    let card = parse(DOE).unwrap();
    assert_eq!(card.version(), "4.0");
    assert_eq!(card.properties.len(), 3);
    assert_eq!(card.properties[0].ptype, PropertyType::Version);
    assert_eq!(card.properties[0].value, ValueType::Text("4.0".to_string()));
    assert_eq!(card.properties[1].ptype, PropertyType::Fn);
    assert_eq!(card.properties[1].value, ValueType::Text("J. Doe".to_string()));
    assert_eq!(card.properties[2].ptype, PropertyType::N);
    assert_eq!(
        card.properties[2].value,
        ValueType::StructuredText(vec![strings(&["Doe"]), strings(&["J."]), vec![], vec![], vec![]])
    );
    let text = card.serialize();
    assert_eq!(text, DOE);
    let again = parse(&text).unwrap();
    assert_eq!(again, card);
}

#[test]
fn lf_line_ends_are_accepted() {
    let card = parse("BEGIN:VCARD\nVERSION:4.0\nFN:A\nEND:VCARD").unwrap();
    assert_eq!(card.properties.len(), 2);
    assert_eq!(card.serialize(), "BEGIN:VCARD\r\nVERSION:4.0\r\nFN:A\r\nEND:VCARD\r\n");
}

#[test]
fn folded_input_is_unfolded() {
    let text = "BEGIN:VCARD\r\nVERSION:4.0\r\nFN:Jo\r\n hn\r\n\t Smith\r\nEND:VCARD\r\n";
    let card = parse(text).unwrap();
    assert_eq!(card.properties[1].value, ValueType::Text("John Smith".to_string()));
}

#[test]
fn missing_fn_is_a_cardinality_error() {
    let e = parse("BEGIN:VCARD\r\nVERSION:4.0\r\nN:Doe;J.;;;\r\nEND:VCARD\r\n").unwrap_err();
    assert_eq!(e.kind, ErrorKind::Cardinality);
    assert_eq!(e.property, Some(PropertyType::Fn));
    assert_eq!(e.found, 0);
}

#[test]
fn two_uids_are_rejected() {
    let e = parse(
        "BEGIN:VCARD\r\nVERSION:4.0\r\nFN:A\r\nUID:urn:a\r\nUID:urn:b\r\nEND:VCARD\r\n",
    )
    .unwrap_err();
    assert_eq!(e.kind, ErrorKind::Cardinality);
    assert_eq!(e.property, Some(PropertyType::Uid));
    assert_eq!(e.found, 2);
}

#[test]
fn five_tels_are_accepted() {
    let mut text = String::from("BEGIN:VCARD\r\nVERSION:4.0\r\nFN:A\r\n");
    for i in 0..5 {
        text.push_str(&format!("TEL:+1-555-000{}\r\n", i));
    }
    text.push_str("END:VCARD\r\n");
    let card = parse(&text).unwrap();
    let tels = card.properties.iter().filter(|p| p.ptype == PropertyType::Tel).count();
    assert_eq!(tels, 5);
}

#[test]
fn missing_version_is_rejected() {
    let e = parse("BEGIN:VCARD\r\nFN:A\r\nEND:VCARD\r\n").unwrap_err();
    assert_eq!(e.kind, ErrorKind::Cardinality);
    assert_eq!(e.property, Some(PropertyType::Version));
}

#[test]
fn other_version_is_a_cardinality_error() {
    let e = parse("BEGIN:VCARD\r\nVERSION:3.0\r\nFN:A\r\nEND:VCARD\r\n").unwrap_err();
    assert_eq!(e.kind, ErrorKind::Cardinality);
    assert_eq!(e.property, Some(PropertyType::Version));
    assert_eq!(e.found, 1);
}

#[test]
fn line_without_colon_is_a_grammar_error() {
    assert!(parse_content_line(&chars("FN;TYPE=work")).is_none());
    let e = parse("BEGIN:VCARD\r\nVERSION:4.0\r\nFN;TYPE=work\r\nEND:VCARD\r\n").unwrap_err();
    assert_eq!(e.kind, ErrorKind::Grammar);
    assert_eq!(e.line, 2);
}

#[test]
fn empty_name_is_a_grammar_error() {
    assert!(parse_content_line(&chars(":value")).is_none());
    let e = parse("BEGIN:VCARD\r\nVERSION:4.0\r\n:value\r\nEND:VCARD\r\n").unwrap_err();
    assert_eq!(e.kind, ErrorKind::Grammar);
    assert_eq!(e.line, 2);
}

#[test]
fn content_line_parts() {
    let c = parse_content_line(&chars("item1.ADR;TYPE=\"a:b\";PREF=1:x:y")).unwrap();
    assert_eq!(c.group, Some("item1".to_string()));
    assert_eq!(c.name, "ADR");
    assert_eq!(c.params, Some("TYPE=\"a:b\";PREF=1".to_string()));
    assert_eq!(c.value, "x:y");
    let plain = parse_content_line(&chars("NOTE:")).unwrap();
    assert_eq!(plain.group, None);
    assert_eq!(plain.params, None);
    assert_eq!(plain.value, "");
    assert!(parse_content_line(&chars("a.b.NOTE:x")).is_none());
    assert!(parse_content_line(&chars("NO TE:x")).is_none());
    assert!(parse_content_line(&chars("NOTE;TYPE=\"a:b")).is_none());
}

#[test]
fn parameters_are_decoded_in_order() {
    let ps = decode_params(&chars("TYPE=work,\"a;b,c:d\";type=home;X-A=\"\"")).unwrap();
    assert_eq!(ps.len(), 3);
    assert_eq!(ps[0].name, "TYPE");
    assert_eq!(ps[0].values, strings(&["work", "a;b,c:d"]));
    assert_eq!(ps[1].name, "type");
    assert_eq!(ps[1].values, strings(&["home"]));
    assert_eq!(ps[2].name, "X-A");
    assert_eq!(ps[2].values, strings(&[""]));
}

#[test]
fn malformed_parameters_are_rejected() {
    assert!(decode_params(&chars("TYPE")).is_none());
    assert!(decode_params(&chars("=work")).is_none());
    assert!(decode_params(&chars("TYPE=work;")).is_none());
    assert!(decode_params(&chars("TYPE=wo\"rk")).is_none());
    assert!(decode_params(&chars("TYPE=")).is_none());
    let e = parse("BEGIN:VCARD\r\nVERSION:4.0\r\nFN;TYPE:A\r\nEND:VCARD\r\n").unwrap_err();
    assert_eq!(e.kind, ErrorKind::Param);
    assert_eq!(e.line, 2);
}

#[test]
fn value_parameter_overrides_the_kind() {
    let card = parse(
        "BEGIN:VCARD\r\nVERSION:4.0\r\nFN:A\r\nX-FLAG;VALUE=boolean:true\r\nNICKNAME;VALUE=text:a,b\r\nEND:VCARD\r\n",
    )
    .unwrap();
    assert_eq!(card.properties[2].value, ValueType::Boolean(true));
    assert_eq!(card.properties[3].value, ValueType::TextList(strings(&["a", "b"])));
    let e = parse(
        "BEGIN:VCARD\r\nVERSION:4.0\r\nFN:A\r\nX-FLAG;VALUE=BOOLEAN:maybe\r\nEND:VCARD\r\n",
    )
    .unwrap_err();
    assert_eq!(e.kind, ErrorKind::Value);
    assert_eq!(e.line, 3);
}

#[test]
fn malformed_birthday_is_a_value_error() {
    let e = parse("BEGIN:VCARD\r\nVERSION:4.0\r\nFN:A\r\nBDAY:April 12\r\nEND:VCARD\r\n")
        .unwrap_err();
    assert_eq!(e.kind, ErrorKind::Value);
    assert_eq!(e.line, 3);
    let card = parse("BEGIN:VCARD\r\nVERSION:4.0\r\nFN:A\r\nBDAY:--0412\r\nEND:VCARD\r\n")
        .unwrap();
    assert_eq!(
        card.properties[2].value,
        ValueType::Verbatim(vcard::ValueKind::DateAndOrTime, "--0412".to_string())
    );
}

#[test]
fn continuation_first_is_a_fold_error() {
    let e = parse(" BEGIN:VCARD\r\nEND:VCARD\r\n").unwrap_err();
    assert_eq!(e.kind, ErrorKind::Fold);
}

#[test]
fn envelope_errors() {
    let e = parse("xyz\r\nBEGIN:VCARD\r\n").unwrap_err();
    assert_eq!(e.kind, ErrorKind::Envelope);
    assert_eq!(e.line, 0);
    let e = parse("FN:A\r\nEND:VCARD\r\n").unwrap_err();
    assert_eq!(e.kind, ErrorKind::Envelope);
    let e = parse("VERSION:4.0\r\n").unwrap_err();
    assert_eq!(e.kind, ErrorKind::Envelope);
    assert_eq!(e.line, 0);
    let e = parse("BEGIN:VCARD\r\nBEGIN:VCARD\r\n").unwrap_err();
    assert_eq!(e.kind, ErrorKind::Envelope);
    assert_eq!(e.line, 1);
    let e = parse("BEGIN:VCARD\r\nVERSION:4.0\r\nFN:A\r\n").unwrap_err();
    assert_eq!(e.kind, ErrorKind::Envelope);
    assert_eq!(e.line, 3);
    let e = parse("BEGIN:VCARD\r\nVERSION:4.0\r\nFN:A\r\nEND:VCALENDAR\r\n").unwrap_err();
    assert_eq!(e.kind, ErrorKind::Envelope);
    assert_eq!(e.line, 3);
    let e = parse("").unwrap_err();
    assert_eq!(e.kind, ErrorKind::Envelope);
}

#[test]
fn blank_lines_before_begin_and_text_after_end_are_ignored() {
    let card = parse("\r\n\r\nbegin:vcard\r\nVERSION:4.0\r\nFN:A\r\nend:vcard\r\nnot a line\r\n")
        .unwrap();
    assert_eq!(card.properties.len(), 2);
}

#[test]
fn structured_values_have_their_component_count() {
    let e = parse("BEGIN:VCARD\r\nVERSION:4.0\r\nFN:A\r\nN:Doe;J.\r\nEND:VCARD\r\n").unwrap_err();
    assert_eq!(e.kind, ErrorKind::Value);
    assert_eq!(e.line, 3);
    let e = parse("BEGIN:VCARD\r\nVERSION:4.0\r\nFN:A\r\nADR:;;street;city\r\nEND:VCARD\r\n")
        .unwrap_err();
    assert_eq!(e.kind, ErrorKind::Value);
    let card = parse("BEGIN:VCARD\r\nVERSION:4.0\r\nFN:A\r\nGENDER:M\r\nORG:A;B;C\r\nEND:VCARD\r\n")
        .unwrap();
    assert_eq!(card.properties[2].value, ValueType::StructuredText(vec![strings(&["M"])]));
    assert_eq!(
        card.properties[3].value,
        ValueType::StructuredText(vec![strings(&["A"]), strings(&["B"]), strings(&["C"])])
    );
}

#[test]
fn date_lists_are_decoded() {
    let card = parse(
        "BEGIN:VCARD\r\nVERSION:4.0\r\nFN:A\r\nX-DAYS;VALUE=date:19850412,19860101\r\nEND:VCARD\r\n",
    )
    .unwrap();
    assert_eq!(
        card.properties[2].value,
        ValueType::Verbatim(vcard::ValueKind::Date, "19850412,19860101".to_string())
    );
    let e = parse(
        "BEGIN:VCARD\r\nVERSION:4.0\r\nFN:A\r\nX-DAYS;VALUE=date:19850412,1986x\r\nEND:VCARD\r\n",
    )
    .unwrap_err();
    assert_eq!(e.kind, ErrorKind::Value);
}
