use afm::{parse, CharMetrics, Expected, Line, ParseError, Value};

fn only_metrics(input: &[u8]) -> CharMetrics {
    let mut lines = parse(input).expect("parses");
    assert_eq!(lines.len(), 1);
    match lines.remove(0) {
        Line::CharMetrics(m) => m,
        other => panic!("not a metrics line: {:?}", other),
    }
}

fn only_unknown(input: &[u8]) -> (String, Vec<Value>) {
    let mut lines = parse(input).expect("parses");
    assert_eq!(lines.len(), 1);
    match lines.remove(0) {
        Line::Unknown(k, v) => (k, v),
        other => panic!("not a keyword line: {:?}", other),
    }
}

fn decimal(t: &Option<String>) -> f64 {
    t.as_ref().expect("present").parse::<f64>().expect("a decimal")
}

#[test]
fn it_works() {
    assert!(parse(b"Foo Bar\n").is_ok());
}

#[test]
fn space_character_metrics() {
    let m = only_metrics(b"C 1 ; WX 250 ; N space ; B 0 0 0 0 ;\n");
    assert_eq!(m.value, 1);
    assert_eq!(m.width0x.as_deref(), Some("250"));
    assert_eq!(decimal(&m.width0x), 250.0);
    assert_eq!(m.name.as_deref(), Some("space"));
    let (a, b, c, d) = m.bbox.expect("bbox");
    for x in [a, b, c, d] {
        assert_eq!(x.parse::<f64>().unwrap(), 0.0);
    }
    assert!(m.ligature_sequence.is_none());
    assert!(m.width1x.is_none());
    assert!(m.width0y.is_none());
    assert!(m.width1y.is_none());
    assert!(m.vvector.is_none());
}

#[test]
fn name_absent_without_n_field() {
    let m = only_metrics(b"C 32 ; WX 278 ;\n");
    assert_eq!(m.value, 32);
    assert!(m.name.is_none());
}

#[test]
fn ligature_and_widths() {
    let m = only_metrics(b"C 102 ; WX0 333 ; WX1 -500.5 ; N f ; B -1 .5 2. +3 ; L i fi ;\n");
    assert_eq!(m.value, 102);
    assert_eq!(m.width0x.as_deref(), Some("333"));
    assert_eq!(m.width1x.as_deref(), Some("-500.5"));
    assert_eq!(decimal(&m.width1x), -500.5);
    assert_eq!(m.name.as_deref(), Some("f"));
    let (a, b, c, d) = m.bbox.expect("bbox");
    assert_eq!((a.as_str(), b.as_str(), c.as_str(), d.as_str()), ("-1", ".5", "2.", "+3"));
    let (succ, lig) = m.ligature_sequence.expect("ligature");
    assert_eq!((succ.as_str(), lig.as_str()), ("i", "fi"));
}

#[test]
fn negative_code_and_later_field_wins() {
    let m = only_metrics(b"C -1 ; WX 10 ; WX 20 ; N a ;\n");
    assert_eq!(m.value, -1);
    assert_eq!(m.width0x.as_deref(), Some("20"));
}

#[test]
fn keyword_line_with_name() {
    let (k, v) = only_unknown(b"Foo Bar\n");
    assert_eq!(k, "Foo");
    assert_eq!(v.len(), 1);
    assert!(matches!(&v[0], Value::Name(n) if n == "Bar"));
}

#[test]
fn bracketed_names_are_array() {
    let (k, v) = only_unknown(b"Dance [blue green]\n");
    assert_eq!(k, "Dance");
    assert_eq!(v.len(), 1);
    match &v[0] {
        Value::Array(items) => {
            assert_eq!(items.len(), 2);
            assert!(matches!(&items[0], Value::Name(t) if t == "blue"));
            assert!(matches!(&items[1], Value::Name(t) if t == "green"));
        }
        other => panic!("not an array: {:?}", other),
    }
}

#[test]
fn array_as_single_value() {
    match afm::value::parse_value(b"[blue green]\n", 0) {
        Some((Value::Array(items), e)) => {
            assert_eq!(items.len(), 2);
            assert_eq!(e, 12);
        }
        other => panic!("{:?}", other),
    }
}

#[test]
fn empty_arrays() {
    let (items, e) = afm::value::parse_array(b"[]", 0).expect("an array");
    assert!(items.is_empty());
    assert_eq!(e, 2);
    let (items, e) = afm::value::parse_array(b"[ ]", 0).expect("an array");
    assert!(items.is_empty());
    assert_eq!(e, 3);
}

#[test]
fn nested_arrays() {
    let (items, e) = afm::value::parse_array(b"[1 [2 3] []]", 0).expect("an array");
    assert_eq!(e, 12);
    assert_eq!(items.len(), 3);
    assert!(matches!(items[0], Value::Integer(1)));
    match &items[1] {
        Value::Array(inner) => {
            assert_eq!(inner.len(), 2);
            assert!(matches!(inner[0], Value::Integer(2)));
            assert!(matches!(inner[1], Value::Integer(3)));
        }
        other => panic!("{:?}", other),
    }
    assert!(matches!(&items[2], Value::Array(inner) if inner.is_empty()));
}

#[test]
fn unclosed_bracket_is_free_text() {
    let (_, v) = only_unknown(b"Dance [blue green\n");
    assert_eq!(v.len(), 1);
    assert!(matches!(&v[0], Value::String(t) if t == "[blue green"));
    assert!(afm::value::parse_array(b"[blue green", 0).is_none());
}

#[test]
fn booleans() {
    let (k, v) = only_unknown(b"Foo true false\n");
    assert_eq!(k, "Foo");
    assert_eq!(v.len(), 2);
    assert!(matches!(v[0], Value::Boolean(true)));
    assert!(matches!(v[1], Value::Boolean(false)));
}

#[test]
fn integers() {
    let (_, v) = only_unknown(b"Foo 5 -7 +3 0\n");
    assert_eq!(v.len(), 4);
    assert!(matches!(v[0], Value::Integer(5)));
    assert!(matches!(v[1], Value::Integer(-7)));
    assert!(matches!(v[2], Value::Integer(3)));
    assert!(matches!(v[3], Value::Integer(0)));
}

#[test]
fn integer_limits() {
    let (_, v) = only_unknown(b"Foo 9223372036854775807 -9223372036854775808\n");
    assert!(matches!(v[0], Value::Integer(i64::MAX)));
    assert!(matches!(v[1], Value::Integer(i64::MIN)));
}

#[test]
fn integer_overflow_is_number() {
    let (_, v) = only_unknown(b"Foo 9223372036854775808\n");
    assert_eq!(v.len(), 1);
    assert!(matches!(&v[0], Value::Number(t) if t == "9223372036854775808"));
}

#[test]
fn decimal_shapes_round_trip() {
    let (_, v) = only_unknown(b"Foo .25 -.5\n");
    assert_eq!(v.len(), 2);
    match (&v[0], &v[1]) {
        (Value::Number(a), Value::Number(b)) => {
            assert_eq!(a, ".25");
            assert_eq!(a.parse::<f64>().unwrap(), 0.25);
            assert_eq!(b.parse::<f64>().unwrap(), -0.5);
        }
        other => panic!("{:?}", other),
    }
    let m = only_metrics(b"C 1 ; WX 12. ;\n");
    assert_eq!(m.width0x.as_deref(), Some("12."));
    assert_eq!(decimal(&m.width0x), 12.0);
}

#[test]
fn integer_tried_before_decimal() {
    let (_, v) = only_unknown(b"Ascender 718.5\n");
    assert_eq!(v.len(), 2);
    assert!(matches!(v[0], Value::Integer(718)));
    assert!(matches!(&v[1], Value::Number(t) if t == ".5"));
}

#[test]
fn free_text_value() {
    let (k, v) = only_unknown(b"Notice Copyright (c) 1985\n");
    assert_eq!(k, "Notice");
    assert_eq!(v.len(), 2);
    assert!(matches!(&v[0], Value::Name(t) if t == "Copyright"));
    assert!(matches!(&v[1], Value::String(t) if t == "(c) 1985"));
}

#[test]
fn key_without_values() {
    let (k, v) = only_unknown(b"EndFontMetrics\n");
    assert_eq!(k, "EndFontMetrics");
    assert!(v.is_empty());
}

#[test]
fn comment_is_keyword_line() {
    let (k, v) = only_unknown(b"Comment hello world\n");
    assert_eq!(k, "Comment");
    assert_eq!(v.len(), 2);
    assert!(matches!(&v[1], Value::Name(t) if t == "world"));
}

#[test]
fn line_end_markers() {
    let lines = parse(b"A 1\r\nB 2\rC\n").expect("parses");
    assert_eq!(lines.len(), 3);
    assert!(matches!(&lines[2], Line::Unknown(k, v) if k == "C" && v.is_empty()));
}

#[test]
fn empty_buffer_fails() {
    assert!(matches!(
        parse(b""),
        Err(ParseError::Syntax { position: 0, expected: Expected::Line })
    ));
}

#[test]
fn unterminated_last_line_fails() {
    assert!(matches!(
        parse(b"Foo Bar"),
        Err(ParseError::Syntax { position: 7, expected: Expected::EndOfLine })
    ));
    assert!(matches!(
        parse(b"Foo 5 7"),
        Err(ParseError::Syntax { position: 7, expected: Expected::EndOfLine })
    ));
}

#[test]
fn blank_line_fails() {
    assert!(matches!(
        parse(b"Foo\n\nBar\n"),
        Err(ParseError::Syntax { position: 4, expected: Expected::Line })
    ));
}

#[test]
fn invalid_utf8_key_fails() {
    assert!(matches!(
        parse(b"\xff\n"),
        Err(ParseError::Syntax { position: 0, expected: Expected::Line })
    ));
}

#[test]
fn unknown_sub_field_fails() {
    match parse(b"C 1 ; XX 5 ;\n") {
        Err(ParseError::UnknownSubField { position, key }) => {
            assert_eq!(position, 5);
            assert_eq!(key, "XX");
        }
        other => panic!("{:?}", other),
    }
}

#[test]
fn unknown_sub_field_after_known_ones_fails() {
    match parse(b"FontName Times\nC 65 ; WX 722 ; N A ; Q x ;\n") {
        Err(ParseError::UnknownSubField { position, key }) => {
            assert_eq!(position, 36);
            assert_eq!(key, "Q");
        }
        other => panic!("{:?}", other),
    }
}

#[test]
fn boolean_value_consumes_literal_and_blanks() {
    match afm::value::parse_value(b"true  x", 0) {
        Some((Value::Boolean(true), e)) => assert_eq!(e, 6),
        other => panic!("{:?}", other),
    }
    match afm::value::parse_value(b"false", 0) {
        Some((Value::Boolean(false), e)) => assert_eq!(e, 5),
        other => panic!("{:?}", other),
    }
}

#[test]
fn integer_token() {
    assert_eq!(afm::lexical::scan_integer(b"x -42;", 2), Some((-42, 5)));
    assert_eq!(afm::lexical::scan_integer(b"+", 0), None);
    assert_eq!(afm::lexical::scan_integer(b"-9223372036854775809", 0), None);
}

#[test]
fn number_token_keeps_text() {
    for (input, text) in [("7 ", "7"), ("7.25;", "7.25"), ("-3.", "-3."), ("+.5x", "+.5")] {
        let (t, e) = afm::lexical::scan_number(input.as_bytes(), 0).expect("a number");
        assert_eq!(t, text);
        assert_eq!(e, text.len());
        assert_eq!(t.parse::<f64>().unwrap(), text.parse::<f64>().unwrap());
    }
    assert!(afm::lexical::scan_number(b".", 0).is_none());
    assert!(afm::lexical::scan_number(b"-x", 0).is_none());
}

#[test]
fn default_metrics_are_empty() {
    let m = CharMetrics::default();
    assert_eq!(m.value, 0);
    assert!(m.name.is_none() && m.bbox.is_none() && m.width0x.is_none());
}

#[test]
fn malformed_known_sub_field_fails() {
    match parse(b"C 1 ; WX abc ;\n") {
        Err(ParseError::UnknownSubField { position, key }) => {
            assert_eq!(position, 5);
            assert_eq!(key, "WX");
        }
        other => panic!("{:?}", other),
    }
}
