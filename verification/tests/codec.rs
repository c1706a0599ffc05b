use resp_kv::decode::{find_crlf, DecodeError};
use resp_kv::value::DataType;

fn bulk(text: &[u8]) -> DataType<'_> {
    DataType::BulkString(Some(text))
}

#[test]
fn encodes_simple_string() {
    assert_eq!(DataType::SimpleString(b"OK").to_bytes(), b"+OK\r\n".to_vec());
}

#[test]
fn encodes_null_bulk_string() {
    assert_eq!(DataType::BulkString(None).to_bytes(), b"$-1\r\n".to_vec());
}

#[test]
fn encodes_bulk_string_with_byte_length() {
    assert_eq!(bulk(b"hello").to_bytes(), b"$5\r\nhello\r\n".to_vec());
    assert_eq!(bulk(b"").to_bytes(), b"$0\r\n\r\n".to_vec());
    assert_eq!(bulk("héllo".as_bytes()).to_bytes(), b"$6\r\nh\xc3\xa9llo\r\n".to_vec());
}

#[test]
fn encodes_long_bulk_string_length_in_decimal() {
    let text = vec![b'x'; 1203];
    let mut expected = b"$1203\r\n".to_vec();
    expected.extend_from_slice(&text);
    expected.extend_from_slice(b"\r\n");
    assert_eq!(bulk(&text).to_bytes(), expected);
}

#[test]
fn encodes_array_as_count_and_elements() {
    let value = DataType::Array(vec![bulk(b"SET"), bulk(b"foo"), bulk(b"bar")]);
    assert_eq!(value.to_bytes(), b"*3\r\n$3\r\nSET\r\n$3\r\nfoo\r\n$3\r\nbar\r\n".to_vec());
    assert_eq!(DataType::Array(vec![]).to_bytes(), b"*0\r\n".to_vec());
}

#[test]
fn encodes_nested_array() {
    let value = DataType::Array(vec![
        DataType::Array(vec![bulk(b"a"), DataType::BulkString(None)]),
        DataType::SimpleString(b"b"),
    ]);
    assert_eq!(value.to_bytes(), b"*2\r\n*2\r\n$1\r\na\r\n$-1\r\n+b\r\n".to_vec());
}

#[test]
fn write_to_appends() {
    let mut out = b"abc".to_vec();
    bulk(b"x").write_to(&mut out);
    assert_eq!(out, b"abc$1\r\nx\r\n".to_vec());
}

#[test]
fn finds_first_line_end() {
    assert_eq!(find_crlf(b"ab\r\ncd\r\n"), Some(2));
    assert_eq!(find_crlf(b"\r\n"), Some(0));
    assert_eq!(find_crlf(b"a\rb\nc"), None);
    assert_eq!(find_crlf(b"\n\r"), None);
    assert_eq!(find_crlf(b"\r"), None);
    assert_eq!(find_crlf(b""), None);
    assert_eq!(find_crlf(b"\r\r\n"), Some(1));
}

#[test]
fn decodes_set_request() {
    let buf = b"*3\r\n$3\r\nSET\r\n$3\r\nfoo\r\n$3\r\nbar\r\n";
    let value = DataType::try_from(&buf[..]).unwrap();
    assert_eq!(value, DataType::Array(vec![bulk(b"SET"), bulk(b"foo"), bulk(b"bar")]));
}

#[test]
fn decodes_null_bulk_string() {
    let (value, rest) = DataType::chainparse(b"$-1\r\nrest").unwrap();
    assert_eq!(value, DataType::BulkString(None));
    assert_eq!(rest, b"rest");
}

#[test]
fn decodes_bulk_string_and_returns_remainder() {
    let (value, rest) = DataType::chainparse(b"$5\r\nhello\r\n$1\r\nx\r\n").unwrap();
    assert_eq!(value, bulk(b"hello"));
    assert_eq!(rest, b"$1\r\nx\r\n");
}

#[test]
fn decodes_bulk_string_that_holds_line_ends() {
    let (value, rest) = DataType::chainparse(b"$4\r\na\r\nb\r\n").unwrap();
    assert_eq!(value, bulk(b"a\r\nb"));
    assert_eq!(rest, b"");
}

#[test]
fn decodes_bulk_string_without_closing_line_end() {
    let (value, rest) = DataType::chainparse(b"$3\r\nfoo").unwrap();
    assert_eq!(value, bulk(b"foo"));
    assert_eq!(rest, b"");
    let (value, rest) = DataType::chainparse(b"$3\r\nfooXY").unwrap();
    assert_eq!(value, bulk(b"foo"));
    assert_eq!(rest, b"XY");
    let (value, rest) = DataType::chainparse(b"$3\r\nfoo\r").unwrap();
    assert_eq!(value, bulk(b"foo"));
    assert_eq!(rest, b"\r");
}

#[test]
fn decodes_empty_bulk_string() {
    let (value, rest) = DataType::chainparse(b"$0\r\n\r\n").unwrap();
    assert_eq!(value, bulk(b""));
    assert_eq!(rest, b"");
}

#[test]
fn decodes_lengths_with_sign_and_leading_zeros() {
    assert_eq!(DataType::try_from(&b"$+3\r\nfoo\r\n"[..]), Ok(bulk(b"foo")));
    assert_eq!(DataType::try_from(&b"$003\r\nfoo\r\n"[..]), Ok(bulk(b"foo")));
    assert_eq!(DataType::try_from(&b"$-01\r\n"[..]), Ok(DataType::BulkString(None)));
    assert_eq!(DataType::try_from(&b"$-0\r\n"[..]), Ok(bulk(b"")));
    assert_eq!(DataType::try_from(&b"*+1\r\n$1\r\na\r\n"[..]), Ok(DataType::Array(vec![bulk(b"a")])));
}

#[test]
fn decodes_empty_array() {
    let (value, rest) = DataType::chainparse(b"*0\r\ntail").unwrap();
    assert_eq!(value, DataType::Array(vec![]));
    assert_eq!(rest, b"tail");
}

#[test]
fn decodes_nested_array() {
    let buf = b"*2\r\n*2\r\n$1\r\na\r\n$-1\r\n$1\r\nb\r\n";
    let value = DataType::try_from(&buf[..]).unwrap();
    assert_eq!(
        value,
        DataType::Array(vec![
            DataType::Array(vec![bulk(b"a"), DataType::BulkString(None)]),
            bulk(b"b"),
        ])
    );
}

#[test]
fn try_from_leaves_trailing_bytes_unread() {
    assert_eq!(DataType::try_from(&b"$1\r\na\r\ngarbage"[..]), Ok(bulk(b"a")));
}

#[test]
fn missing_delimiter_is_an_error() {
    assert_eq!(DataType::try_from(&b""[..]), Err(DecodeError::MissingDelimiter));
    assert_eq!(DataType::try_from(&b"*3"[..]), Err(DecodeError::MissingDelimiter));
    assert_eq!(DataType::try_from(&b"$3\rfoo\n"[..]), Err(DecodeError::MissingDelimiter));
}

#[test]
fn unknown_type_is_an_error() {
    assert_eq!(DataType::try_from(&b"+OK\r\n"[..]), Err(DecodeError::UnknownType));
    assert_eq!(DataType::try_from(&b":12\r\n"[..]), Err(DecodeError::UnknownType));
    assert_eq!(DataType::try_from(&b"\r\n"[..]), Err(DecodeError::UnknownType));
    assert_eq!(DataType::try_from(&b"PING\r\n"[..]), Err(DecodeError::UnknownType));
}

#[test]
fn invalid_count_is_an_error() {
    assert_eq!(DataType::try_from(&b"*\r\n"[..]), Err(DecodeError::InvalidCount));
    assert_eq!(DataType::try_from(&b"*x\r\n"[..]), Err(DecodeError::InvalidCount));
    assert_eq!(DataType::try_from(&b"*-1\r\n"[..]), Err(DecodeError::InvalidCount));
    assert_eq!(DataType::try_from(&b"*-0\r\n"[..]), Err(DecodeError::InvalidCount));
    assert_eq!(DataType::try_from(&b"*1 \r\n$1\r\na\r\n"[..]), Err(DecodeError::InvalidCount));
    assert_eq!(
        DataType::try_from(&b"*99999999999999999999999999\r\n"[..]),
        Err(DecodeError::InvalidCount)
    );
}

#[test]
fn invalid_length_is_an_error() {
    assert_eq!(DataType::try_from(&b"$\r\n"[..]), Err(DecodeError::InvalidLength));
    assert_eq!(DataType::try_from(&b"$abc\r\nabc\r\n"[..]), Err(DecodeError::InvalidLength));
    assert_eq!(DataType::try_from(&b"$-2\r\n"[..]), Err(DecodeError::InvalidLength));
    assert_eq!(DataType::try_from(&b"$-\r\n"[..]), Err(DecodeError::InvalidLength));
    assert_eq!(DataType::try_from(&b"$-+1\r\n"[..]), Err(DecodeError::InvalidLength));
    assert_eq!(DataType::try_from(&b"$10\r\nshort\r\n"[..]), Err(DecodeError::InvalidLength));
    assert_eq!(
        DataType::try_from(&b"$99999999999999999999999999\r\nx\r\n"[..]),
        Err(DecodeError::InvalidLength)
    );
}

#[test]
fn payload_may_end_exactly_at_the_buffer_end() {
    assert_eq!(DataType::try_from(&b"$5\r\nhello"[..]), Ok(bulk(b"hello")));
    assert_eq!(DataType::try_from(&b"$6\r\nhello"[..]), Err(DecodeError::InvalidLength));
}

#[test]
fn short_array_is_refused() {
    assert_eq!(
        DataType::try_from(&b"*2\r\n$3\r\nfoo\r\n"[..]),
        Err(DecodeError::MissingDelimiter)
    );
    assert_eq!(DataType::try_from(&b"*1\r\n"[..]), Err(DecodeError::MissingDelimiter));
    assert_eq!(
        DataType::try_from(&b"*3\r\n$1\r\na\r\n$1\r\nb\r\n"[..]),
        Err(DecodeError::MissingDelimiter)
    );
}

#[test]
fn error_inside_array_is_reported() {
    assert_eq!(
        DataType::try_from(&b"*2\r\n$1\r\na\r\n$9\r\nb\r\n"[..]),
        Err(DecodeError::InvalidLength)
    );
    assert_eq!(
        DataType::try_from(&b"*2\r\n$1\r\na\r\n+b\r\n"[..]),
        Err(DecodeError::UnknownType)
    );
    assert_eq!(DataType::try_from(&b"*1\r\n*x\r\n"[..]), Err(DecodeError::InvalidCount));
}

#[test]
fn round_trip_of_bulk_values() {
    let values = vec![
        DataType::BulkString(None),
        bulk(b""),
        bulk(b"hello"),
        bulk(b"with\r\nline end"),
        bulk(b"$3\r\nfoo\r\n"),
        DataType::Array(vec![]),
        DataType::Array(vec![bulk(b"GET"), bulk(b"k")]),
        DataType::Array(vec![
            DataType::Array(vec![DataType::Array(vec![]), DataType::BulkString(None)]),
            bulk(b"*1\r\n"),
            DataType::Array((0..12).map(|_| bulk(b"0123456789")).collect()),
        ]),
    ];
    for value in &values {
        let bytes = value.to_bytes();
        let (decoded, rest) = DataType::chainparse(&bytes).unwrap();
        assert_eq!(&decoded, value);
        assert_eq!(rest, b"");
    }
}

#[test]
fn simple_string_does_not_round_trip() {
    let bytes = DataType::SimpleString(b"PONG").to_bytes();
    assert_eq!(DataType::try_from(&bytes[..]), Err(DecodeError::UnknownType));
}

#[test]
fn try_extract_gives_the_payload_of_strings() {
    assert_eq!(DataType::SimpleString(b"a").try_extract(), Some(&b"a"[..]));
    assert_eq!(bulk(b"b").try_extract(), Some(&b"b"[..]));
    assert_eq!(DataType::BulkString(None).try_extract(), None);
    assert_eq!(DataType::Array(vec![bulk(b"c")]).try_extract(), None);
}

#[test]
fn try_take_gives_the_payload_of_strings() {
    assert_eq!(DataType::SimpleString(b"a").try_take(), Some(&b"a"[..]));
    assert_eq!(bulk(b"b").try_take(), Some(&b"b"[..]));
    assert_eq!(DataType::BulkString(None).try_take(), None);
    assert_eq!(DataType::Array(vec![]).try_take(), None);
}
