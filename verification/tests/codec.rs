use respkv::resp::data_type::{DataType, RespSerializable};
use respkv::resp::parser::{decode, Parser, ProtocolError};
use respkv::resp::serializer::Serializer;

fn bulk(s: &str) -> DataType {
    DataType::BulkString(s.to_string())
}

#[test]
fn encodes_simple_string() {
    assert_eq!(DataType::SimpleString("OK".to_string()).serialize(), "+OK\r\n");
}

#[test]
fn encodes_bulk_string_with_byte_length() {
    assert_eq!(bulk("PONG").serialize(), "$4\r\nPONG\r\n");
    assert_eq!(bulk("héllo").serialize(), "$6\r\nhéllo\r\n");
}

#[test]
fn empty_text_encodes_to_null_bulk() {
    assert_eq!(bulk("").serialize(), "$-1\r\n");
    assert_eq!(DataType::SimpleString(String::new()).serialize(), "$-1\r\n");
}

#[test]
fn empty_array_encodes_to_zero_count() {
    assert_eq!(DataType::Array(vec![]).serialize(), "*0\r\n");
}

#[test]
fn encodes_nested_array() {
    let value = DataType::Array(vec![
        bulk("set"),
        DataType::Array(vec![DataType::SimpleString("a".to_string()), bulk("bc")]),
        bulk("0123456789x"),
    ]);
    assert_eq!(
        value.serialize(),
        "*3\r\n$3\r\nset\r\n*2\r\n+a\r\n$2\r\nbc\r\n$11\r\n0123456789x\r\n"
    );
}

#[test]
fn serializer_frames_single_strings() {
    assert_eq!(Serializer::to_simple_string("pong"), "+pong\r\n");
    assert_eq!(Serializer::to_simple_string(""), "+\r\n");
    assert_eq!(Serializer::to_bulk_string("hello"), "$5\r\nhello\r\n");
    assert_eq!(Serializer::to_bulk_string(""), "$-1\r\n");
}

#[test]
fn decodes_simple_string_lowercased() {
    assert_eq!(decode(b"+PONG\r\n"), Ok((DataType::SimpleString("pong".to_string()), 7)));
}

#[test]
fn decodes_bulk_string_lowercased() {
    assert_eq!(decode(b"$3\r\nFoO\r\n"), Ok((bulk("foo"), 9)));
}

#[test]
fn decodes_array_and_reports_bytes_used() {
    let data = b"*2\r\n$3\r\nGET\r\n$3\r\nfoo\r\ntrailing";
    assert_eq!(decode(data), Ok((DataType::Array(vec![bulk("get"), bulk("foo")]), 22)));
}

#[test]
fn decodes_one_value_per_call() {
    let data = b"+a\r\n$1\r\nb\r\n";
    let mut parser = Parser::new(data);
    assert_eq!(parser.parse(), Ok(DataType::SimpleString("a".to_string())));
    assert_eq!(parser.position(), 4);
    assert_eq!(parser.parse(), Ok(bulk("b")));
    assert_eq!(parser.position(), data.len());
    assert_eq!(parser.parse(), Err(ProtocolError::Truncated));
}

#[test]
fn bulk_string_may_hold_line_terminators() {
    assert_eq!(decode(b"$4\r\na\r\nb\r\n"), Ok((bulk("a\r\nb"), 10)));
}

#[test]
fn bytes_above_ascii_become_one_character_each() {
    assert_eq!(
        decode(&[b'+', 0xc3, 0xa9, b'\r', b'\n']),
        Ok((DataType::SimpleString("\u{c3}\u{a9}".to_string()), 5))
    );
}

#[test]
fn unknown_leading_byte_is_unsupported() {
    assert_eq!(decode(b":1\r\n"), Err(ProtocolError::UnsupportedFrameType));
    assert_eq!(decode(&[0u8; 16]), Err(ProtocolError::UnsupportedFrameType));
}

#[test]
fn short_buffers_are_truncated() {
    assert_eq!(decode(b""), Err(ProtocolError::Truncated));
    assert_eq!(decode(b"+OK"), Err(ProtocolError::Truncated));
    assert_eq!(decode(b"+OK\r"), Err(ProtocolError::Truncated));
    assert_eq!(decode(b"$"), Err(ProtocolError::Truncated));
    assert_eq!(decode(b"$5"), Err(ProtocolError::Truncated));
    assert_eq!(decode(b"$5\r"), Err(ProtocolError::Truncated));
    assert_eq!(decode(b"$5\r\nabc"), Err(ProtocolError::Truncated));
    assert_eq!(decode(b"$3\r\nabc"), Err(ProtocolError::Truncated));
    assert_eq!(decode(b"$3\r\nabc\r"), Err(ProtocolError::Truncated));
    assert_eq!(decode(b"*2\r\n+a\r\n"), Err(ProtocolError::Truncated));
}

#[test]
fn bad_length_lines_are_malformed() {
    assert_eq!(decode(b"$-1\r\n"), Err(ProtocolError::Malformed));
    assert_eq!(decode(b"$x\r\n"), Err(ProtocolError::Malformed));
    assert_eq!(decode(b"$3x\r\nabc\r\n"), Err(ProtocolError::Malformed));
    assert_eq!(decode(b"$3\rxabc\r\n"), Err(ProtocolError::Malformed));
    assert_eq!(decode(b"*\r\n"), Err(ProtocolError::Malformed));
    assert_eq!(decode(b"$99999999999999999999999999\r\n"), Err(ProtocolError::Malformed));
    assert_eq!(decode(b"$3\r\nabcde"), Err(ProtocolError::Malformed));
}

#[test]
fn length_may_have_leading_zeros() {
    assert_eq!(decode(b"$003\r\nabc\r\n"), Ok((bulk("abc"), 11)));
}

#[test]
fn error_inside_array_is_reported() {
    assert_eq!(decode(b"*2\r\n+a\r\n:1\r\n"), Err(ProtocolError::UnsupportedFrameType));
}

#[test]
fn round_trips_lowercase_ascii_values() {
    let value = DataType::Array(vec![
        bulk("set"),
        bulk("key with spaces"),
        DataType::SimpleString("ok\rthen".to_string()),
        DataType::Array(vec![]),
        DataType::Array(vec![bulk("a\r\nb"), bulk("0123456789")]),
    ]);
    let wire = value.serialize();
    assert_eq!(decode(wire.as_bytes()), Ok((value.clone(), wire.len())));
}

#[test]
fn upper_case_text_does_not_round_trip() {
    let wire = bulk("PONG").serialize();
    assert_eq!(decode(wire.as_bytes()), Ok((bulk("pong"), wire.len())));
}
