use rosrust::error::{Error, ErrorKind};
use rosrust::header::{decode, encode, match_field, HeaderFields};
use rosrust::stream::ByteStream;
use rosrust::wire::encode_str;

fn header_of(rows: &[&[u8]]) -> Vec<u8> {
    let mut body = Vec::new();
    for row in rows {
        body.extend_from_slice(&(row.len() as u32).to_le_bytes());
        body.extend_from_slice(row);
    }
    let mut header = (body.len() as u32).to_le_bytes().to_vec();
    header.extend_from_slice(&body);
    header
}

fn value(fields: &HeaderFields, name: &str) -> Option<String> {
    fields.get(name).cloned()
}

#[test]
fn string_is_written_behind_its_length() {
    let mut out = vec![9];
    encode_str("h\u{e9}", &mut out);
    assert_eq!(out, [9, 3, 0, 0, 0, b'h', 0xc3, 0xa9]);
    encode_str("", &mut out);
    assert_eq!(out, [9, 3, 0, 0, 0, b'h', 0xc3, 0xa9, 0, 0, 0, 0]);
}

#[test]
fn header_is_written_row_by_row() {
    let mut fields = HeaderFields::new();
    fields.insert("a".to_string(), "b".to_string());
    fields.insert("cd".to_string(), "".to_string());
    let mut out = vec![7];
    encode(&fields, &mut out);
    let expected = [
        7, 14, 0, 0, 0, 3, 0, 0, 0, b'a', b'=', b'b', 3, 0, 0, 0, b'c', b'd', b'=',
    ];
    assert_eq!(out, expected);
}

#[test]
fn inserted_value_replaces_the_earlier_one() {
    let mut fields = HeaderFields::new();
    fields.insert("a".to_string(), "1".to_string());
    fields.insert("b".to_string(), "2".to_string());
    fields.insert("a".to_string(), "3".to_string());
    assert_eq!(value(&fields, "a").unwrap(), "3");
    assert_eq!(value(&fields, "b").unwrap(), "2");
    assert_eq!(value(&fields, "c"), None);
    let mut out = Vec::new();
    encode(&fields, &mut out);
    assert_eq!(out, header_of(&[b"a=3", b"b=2"]));
}

#[test]
fn header_is_read_back_as_it_was_written() {
    let mut fields = HeaderFields::new();
    fields.insert("topic".to_string(), "/ch\u{e4}tter".to_string());
    fields.insert("definition".to_string(), "int32 A=1\nint32 B=2".to_string());
    fields.insert("empty".to_string(), "".to_string());
    let mut out = Vec::new();
    encode(&fields, &mut out);
    out.extend_from_slice(&[1, 2, 3]);
    let mut stream = ByteStream::new(out);
    let read = decode(&mut stream).unwrap_or_else(|_| panic!("header was refused"));
    assert_eq!(value(&read, "topic").unwrap(), "/ch\u{e4}tter");
    assert_eq!(value(&read, "definition").unwrap(), "int32 A=1\nint32 B=2");
    assert_eq!(value(&read, "empty").unwrap(), "");
    assert_eq!(stream.unread(), [1, 2, 3]);
}

#[test]
fn later_row_of_the_same_name_counts() {
    let header = header_of(&[b"a=1", b"b=2", b"a=3"]);
    let read = decode(&mut ByteStream::new(header)).unwrap_or_else(|_| panic!("header was refused"));
    assert_eq!(value(&read, "a").unwrap(), "3");
}

#[test]
fn header_without_length_is_a_closed_connection() {
    let mut stream = ByteStream::new(vec![1, 0, 0]);
    assert!(matches!(decode(&mut stream), Err(ErrorKind::ConnectionClosed(_))));
    assert_eq!(stream.len(), 0);
}

#[test]
fn row_without_separator_is_malformed() {
    let mut stream = ByteStream::new(header_of(&[b"a=1", b"b"]));
    assert!(matches!(decode(&mut stream), Err(ErrorKind::MalformedHeader)));
}

#[test]
fn rows_are_read_up_to_what_is_no_string() {
    let header = header_of(&[b"a=1", &[0xff, b'=', b'x'], b"b=2"]);
    let read = decode(&mut ByteStream::new(header)).unwrap_or_else(|_| panic!("header was refused"));
    assert_eq!(value(&read, "a").unwrap(), "1");
    assert_eq!(value(&read, "b"), None);

    let mut header = header_of(&[b"a=1", b"b=2"]);
    header.pop();
    let mut stream = ByteStream::new(header);
    let read = decode(&mut stream).unwrap_or_else(|_| panic!("header was refused"));
    assert_eq!(value(&read, "a").unwrap(), "1");
    assert_eq!(value(&read, "b"), None);
    assert_eq!(stream.len(), 0);
}

#[test]
fn field_has_to_be_there_and_to_match() {
    let mut fields = HeaderFields::new();
    fields.insert("md5sum".to_string(), "abc".to_string());
    assert!(match_field(&fields, "md5sum", "abc").is_ok());
    let missing = match_field(&fields, "type", "abc").unwrap_err();
    assert!(matches!(missing, ErrorKind::HeaderMissingField(name) if name == "type"));
    match match_field(&fields, "md5sum", "xyz").unwrap_err() {
        ErrorKind::HeaderMismatch { field, expected, actual } => {
            assert_eq!((field.as_str(), expected.as_str(), actual.as_str()), ("md5sum", "xyz", "abc"));
        }
        other => panic!("unexpected {:?}", other),
    }
}

#[test]
fn error_is_reported_with_its_causes() {
    let error = Error::new(ErrorKind::Io("no route".to_string()));
    assert_eq!(error.report(), "no route");
    let error = error
        .chain_err(ErrorKind::HeaderMissingField("type".to_string()))
        .chain_err(ErrorKind::TopicConnectionFail("/chatter".to_string()));
    assert_eq!(
        error.report(),
        "Could not connect to '/chatter' topic\nCaused by:Data field 'type' within header missing\nCaused by:no route"
    );
}

#[test]
fn error_kinds_have_their_words() {
    assert_eq!(ErrorKind::ConnectionClosed("gone".to_string()).text(), "gone");
    assert_eq!(ErrorKind::MalformedHeader.text(), "Header rows need to have a format of key=value");
    let mismatch = ErrorKind::HeaderMismatch {
        field: "f".to_string(),
        expected: "e".to_string(),
        actual: "a".to_string(),
    };
    assert_eq!(mismatch.text(), "Data field 'f' within header mismatched. Expected: 'e' Actual: 'a'");
}

#[test]
fn only_the_outermost_failure_can_be_a_closed_connection() {
    assert!(Error::new(ErrorKind::ConnectionClosed("gone".to_string())).is_closed_connection());
    assert!(!Error::new(ErrorKind::MalformedHeader).is_closed_connection());
    let chained = Error::new(ErrorKind::ConnectionClosed("gone".to_string()))
        .chain_err(ErrorKind::TopicConnectionFail("/t".to_string()));
    assert!(!chained.is_closed_connection());
}
