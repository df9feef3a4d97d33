use peak::message::{field_value, names_match, parse, parse_text, HeaderField, ParseError};

fn field(name: &str, value: &str) -> HeaderField {
    HeaderField { name: name.to_string(), value: value.to_string() }
}

#[test]
fn empty_input_parses_to_nothing() {
    let m = parse(b"").unwrap();
    assert!(m.headers.is_empty());
    assert_eq!(m.body, None);
    assert_eq!(m.from, None);
    assert_eq!(m.to, None);
}

#[test]
fn headers_only_has_no_body() {
    let m = parse_text("From: a@example.com");
    assert_eq!(m.body, None);
    assert_eq!(m.from, Some("a@example.com".to_string()));
    assert_eq!(m.to, None);
    assert_eq!(m.headers, vec![field("From", "a@example.com")]);
}

#[test]
fn from_to_and_body() {
    let m = parse_text("From: a@x.com\nTo: b@y.com\n\nHello body");
    assert_eq!(m.from, Some("a@x.com".to_string()));
    assert_eq!(m.to, Some("b@y.com".to_string()));
    assert_eq!(m.body, Some("Hello body".to_string()));
    assert_eq!(m.headers, vec![field("From", "a@x.com"), field("To", "b@y.com")]);
}

#[test]
fn folded_value_joined_with_one_space() {
    let m = parse_text("Subject: Hello\n World");
    assert_eq!(m.headers, vec![field("Subject", "Hello World")]);
    let m = parse_text("Subject: Hello\n\t  World  \n   again\nTo: x");
    assert_eq!(m.headers, vec![field("Subject", "Hello World again"), field("To", "x")]);
}

#[test]
fn duplicate_from_takes_the_first() {
    let m = parse_text("From: first@x.com\nFrom: second@x.com\n\n");
    assert_eq!(m.from, Some("first@x.com".to_string()));
    assert_eq!(m.headers, vec![field("From", "first@x.com"), field("From", "second@x.com")]);
    assert_eq!(m.body, Some(String::new()));
}

#[test]
fn line_without_colon_is_dropped() {
    let m = parse_text("garbage line\nFrom: a@x.com\nnot a header\nTo: b@y.com\n\nbody");
    assert_eq!(m.headers, vec![field("From", "a@x.com"), field("To", "b@y.com")]);
    assert_eq!(m.from, Some("a@x.com".to_string()));
    assert_eq!(m.to, Some("b@y.com".to_string()));
    assert_eq!(m.body, Some("body".to_string()));
}

#[test]
fn continuation_of_dropped_line_is_dropped() {
    let m = parse_text(" leading continuation\nbroken\n more\nX-Key:  v ");
    assert_eq!(m.headers, vec![field("X-Key", "v")]);
}

#[test]
fn header_round_trip_trims_name_and_value() {
    let m = parse_text("X-Mailer \t:   Some Client 1.0 \r");
    assert_eq!(m.headers, vec![field("X-Mailer", "Some Client 1.0")]);
    let m = parse_text("Received: from a.example; Mon, 1 Jan 2024 10:00:00");
    assert_eq!(m.headers, vec![field("Received", "from a.example; Mon, 1 Jan 2024 10:00:00")]);
}

#[test]
fn empty_value_and_empty_name() {
    let m = parse_text("Subject:\n: orphan");
    assert_eq!(m.headers, vec![field("Subject", ""), field("", "orphan")]);
}

#[test]
fn crlf_message() {
    let m = parse_text("FROM: a@x.com\r\nto: b@y.com\r\n\r\nline one\r\nline two\r\n");
    assert_eq!(m.from, Some("a@x.com".to_string()));
    assert_eq!(m.to, Some("b@y.com".to_string()));
    assert_eq!(m.body, Some("line one\r\nline two\r\n".to_string()));
}

#[test]
fn body_keeps_later_blank_lines_and_header_like_text() {
    let m = parse_text("To: b@y.com\n\nFrom: not-a-header\n\nend");
    assert_eq!(m.from, None);
    assert_eq!(m.body, Some("From: not-a-header\n\nend".to_string()));
}

#[test]
fn trailing_newline_without_blank_line_has_no_body() {
    let m = parse_text("To: b@y.com\n");
    assert_eq!(m.body, None);
    assert_eq!(m.to, Some("b@y.com".to_string()));
}

#[test]
fn blank_line_at_start_makes_all_body() {
    let m = parse_text("\nFrom: a@x.com");
    assert!(m.headers.is_empty());
    assert_eq!(m.from, None);
    assert_eq!(m.body, Some("From: a@x.com".to_string()));
}

#[test]
fn invalid_utf8_is_invalid_encoding() {
    let r = parse(&[b'F', b':', 0xff, 0xfe]);
    assert_eq!(r, Err(ParseError::InvalidEncoding));
}

#[test]
fn non_ascii_text_decodes() {
    let raw = "Subject: caf\u{e9} \u{2603}\nFrom: \u{fc}ser@x.com\n\nGr\u{fc}\u{df}e".as_bytes();
    let m = parse(raw).unwrap();
    assert_eq!(m.headers[0], field("Subject", "caf\u{e9} \u{2603}"));
    assert_eq!(m.from, Some("\u{fc}ser@x.com".to_string()));
    assert_eq!(m.body, Some("Gr\u{fc}\u{df}e".to_string()));
}

#[test]
fn names_match_ignores_ascii_case() {
    assert!(names_match("FrOm", "From"));
    assert!(names_match("to", "TO"));
    assert!(!names_match("Fro", "From"));
    assert!(!names_match("Frum", "From"));
    assert!(!names_match("From:", "From"));
}

#[test]
fn field_value_finds_first_match() {
    let hs = vec![field("Received", "r1"), field("received", "r2"), field("To", "t")];
    assert_eq!(field_value(&hs, "RECEIVED"), Some("r1".to_string()));
    assert_eq!(field_value(&hs, "to"), Some("t".to_string()));
    assert_eq!(field_value(&hs, "Cc"), None);
}
