use resp_kv::error::Error;
use resp_kv::resp::Resp;

fn bulk(text: &str) -> Resp {
    Resp::BulkString(text.to_string())
}

fn protocol_error(description: &str) -> Result<Option<Resp>, Error> {
    Err(Error::Protocol(description.to_string()))
}

#[test]
fn bulk_string_encoding() {
    assert_eq!(bulk("world").into_bytes(), b"$5\r\nworld\r\n".to_vec());
}

#[test]
fn null_encoding() {
    assert_eq!(Resp::Null.into_bytes(), b"$-1\r\n".to_vec());
}

#[test]
fn simple_string_encoding() {
    assert_eq!(Resp::SimpleString("PONG".to_string()).into_bytes(), b"+PONG\r\n".to_vec());
    assert_eq!(Resp::SimpleString(String::new()).into_bytes(), b"+\r\n".to_vec());
}

#[test]
fn error_encoding() {
    assert_eq!(
        Resp::Error("ERR failed to set value".to_string()).into_bytes(),
        b"-ERR failed to set value\r\n".to_vec()
    );
}

#[test]
fn empty_bulk_string_encoding() {
    assert_eq!(bulk("").into_bytes(), b"$0\r\n\r\n".to_vec());
}

#[test]
fn bulk_string_length_counts_bytes() {
    assert_eq!(bulk("héllo").into_bytes(), "$6\r\nhéllo\r\n".as_bytes().to_vec());
}

#[test]
fn long_bulk_string_length_has_all_digits() {
    let text = "x".repeat(1234);
    let mut expected = b"$1234\r\n".to_vec();
    expected.extend_from_slice(text.as_bytes());
    expected.extend_from_slice(b"\r\n");
    assert_eq!(bulk(&text).into_bytes(), expected);
}

#[test]
fn array_encoding() {
    let reply = Resp::Array(vec![bulk("GET"), bulk("hello")]);
    assert_eq!(reply.into_bytes(), b"*2\r\n$3\r\nGET\r\n$5\r\nhello\r\n".to_vec());
}

#[test]
fn empty_array_encoding() {
    assert_eq!(Resp::Array(Vec::new()).into_bytes(), b"*0\r\n".to_vec());
}

#[test]
fn nested_array_encoding() {
    let reply = Resp::Array(vec![
        Resp::Array(vec![Resp::SimpleString("a".to_string()), Resp::Null]),
        Resp::Error("e".to_string()),
    ]);
    assert_eq!(reply.into_bytes(), b"*2\r\n*2\r\n+a\r\n$-1\r\n-e\r\n".to_vec());
}

#[test]
fn array_of_ten_has_two_digit_count() {
    let items: Vec<Resp> = (0..10).map(|_| Resp::Null).collect();
    let mut expected = b"*10\r\n".to_vec();
    for _ in 0..10 {
        expected.extend_from_slice(b"$-1\r\n");
    }
    assert_eq!(Resp::Array(items).into_bytes(), expected);
}

#[test]
fn encode_into_appends() {
    let mut out = b"+OK\r\n".to_vec();
    Resp::Null.encode_into(&mut out);
    assert_eq!(out, b"+OK\r\n$-1\r\n".to_vec());
}

#[test]
fn parse_empty_input_is_no_request() {
    assert_eq!(Resp::parse(b""), Ok(None));
}

#[test]
fn parse_ping() {
    assert_eq!(Resp::parse(b"*1\r\n$4\r\nPING\r\n"), Ok(Some(Resp::Array(vec![bulk("PING")]))));
}

#[test]
fn parse_set_with_option() {
    let input = b"*5\r\n$3\r\nSET\r\n$3\r\nkey\r\n$5\r\nvalue\r\n$2\r\nPX\r\n$4\r\n1000\r\n";
    let expected = Resp::Array(vec![bulk("SET"), bulk("key"), bulk("value"), bulk("PX"), bulk("1000")]);
    assert_eq!(Resp::parse(input), Ok(Some(expected)));
}

#[test]
fn parse_what_was_encoded() {
    let request = Resp::Array(vec![bulk("ECHO"), bulk("hey")]);
    let bytes = Resp::Array(vec![bulk("ECHO"), bulk("hey")]).into_bytes();
    assert_eq!(Resp::parse(&bytes), Ok(Some(request)));
}

#[test]
fn parse_empty_array() {
    assert_eq!(Resp::parse(b"*0\r\n"), Ok(Some(Resp::Array(Vec::new()))));
}

#[test]
fn parse_rejects_field_without_final_line_end() {
    assert_eq!(Resp::parse(b"*1\r\n$4\r\nPING"), protocol_error("Incomplete bulk string"));
    assert_eq!(Resp::parse(b"*1\r\n$4\r\nPING\r"), protocol_error("Incomplete bulk string"));
}

#[test]
fn parse_rejects_truncated_field() {
    assert_eq!(Resp::parse(b"*1\r\n$4\r\nPI"), protocol_error("Incomplete bulk string"));
    assert_eq!(Resp::parse(b"*1\r\n$4\r\nPI\r\n"), protocol_error("Incomplete bulk string"));
    assert_eq!(Resp::parse(b"*1\r\n$99\r\nPING\r\n"), protocol_error("Incomplete bulk string"));
    assert_eq!(Resp::parse(b"*1\r\n$4\r\n"), protocol_error("Incomplete bulk string"));
    assert_eq!(
        Resp::parse(b"*3\r\n$3\r\nSET\r\n$1\r\nk\r\n$5\r\nval"),
        protocol_error("Incomplete bulk string")
    );
}

#[test]
fn parse_rejects_bad_field_length() {
    assert_eq!(Resp::parse(b"*1\r\n$x\r\nPING\r\n"), protocol_error("Invalid bulk string length"));
    assert_eq!(Resp::parse(b"*1\r\n$\r\nPING\r\n"), protocol_error("Invalid bulk string length"));
    assert_eq!(Resp::parse(b"*1\r\n$-1\r\n"), protocol_error("Invalid bulk string length"));
    assert_eq!(Resp::parse(b"*1\r\n$4 \r\nPING\r\n"), protocol_error("Invalid bulk string length"));
    assert_eq!(
        Resp::parse(b"*1\r\n$99999999999999999999999999\r\nPING\r\n"),
        protocol_error("Invalid bulk string length")
    );
}

#[test]
fn parse_rejects_field_longer_than_announced() {
    assert_eq!(Resp::parse(b"*1\r\n$2\r\nPING\r\n"), protocol_error("Invalid bulk string length"));
    assert_eq!(Resp::parse(b"*1\r\n$0\r\nPING\r\n"), protocol_error("Invalid bulk string length"));
    assert_eq!(Resp::parse(b"*1\r\n$4\r\nPING\n\r"), protocol_error("Invalid bulk string length"));
}

#[test]
fn parse_rejects_length_that_cuts_a_character() {
    assert_eq!(
        Resp::parse("*1\r\n$1\r\n\u{e9}\r\n".as_bytes()),
        protocol_error("Invalid bulk string length")
    );
}

#[test]
fn parse_field_with_line_ends() {
    assert_eq!(
        Resp::parse(b"*2\r\n$4\r\nECHO\r\n$6\r\na\r\nb\r\n\r\n"),
        Ok(Some(Resp::Array(vec![bulk("ECHO"), bulk("a\r\nb\r\n")])))
    );
}

#[test]
fn parse_field_length_with_plus_sign_and_zeros() {
    assert_eq!(Resp::parse(b"*1\r\n$+004\r\nPING\r\n"), Ok(Some(Resp::Array(vec![bulk("PING")]))));
}

#[test]
fn parse_ignores_what_follows_the_request() {
    assert_eq!(
        Resp::parse(b"*1\r\n$4\r\nPING\r\n*1\r\n$4\r\nPING\r\n"),
        Ok(Some(Resp::Array(vec![bulk("PING")])))
    );
}

#[test]
fn parse_count_with_plus_sign() {
    assert_eq!(Resp::parse(b"*+1\r\n$4\r\nPING\r\n"), Ok(Some(Resp::Array(vec![bulk("PING")]))));
}

#[test]
fn parse_text_beyond_ascii() {
    let input = "*2\r\n$4\r\nECHO\r\n$6\r\nhéllo\r\n".as_bytes();
    assert_eq!(Resp::parse(input), Ok(Some(Resp::Array(vec![bulk("ECHO"), bulk("héllo")]))));
}

#[test]
fn parse_empty_text() {
    assert_eq!(
        Resp::parse(b"*2\r\n$4\r\nECHO\r\n$0\r\n\r\n"),
        Ok(Some(Resp::Array(vec![bulk("ECHO"), bulk("")])))
    );
}

#[test]
fn parse_rejects_other_top_level_values() {
    assert_eq!(Resp::parse(b"+OK\r\n"), protocol_error("Unsupported RESP type"));
    assert_eq!(Resp::parse(b"$4\r\nPING\r\n"), protocol_error("Unsupported RESP type"));
    assert_eq!(Resp::parse(b"PING\r\n"), protocol_error("Unsupported RESP type"));
    assert_eq!(Resp::parse(b"\r\n"), protocol_error("Unsupported RESP type"));
}

#[test]
fn parse_rejects_invalid_utf8() {
    assert_eq!(Resp::parse(b"*1\r\n$4\r\nP\xffNG\r\n"), protocol_error("Invalid UTF-8"));
    assert_eq!(Resp::parse(b"*1\r\n$4\r\nPING\r\n\xc3"), protocol_error("Invalid UTF-8"));
}

#[test]
fn parse_rejects_bad_count() {
    assert_eq!(Resp::parse(b"*\r\n"), protocol_error("Invalid array length"));
    assert_eq!(Resp::parse(b"*x\r\n$4\r\nPING\r\n"), protocol_error("Invalid array length"));
    assert_eq!(Resp::parse(b"*-1\r\n"), protocol_error("Invalid array length"));
    assert_eq!(Resp::parse(b"*1 \r\n$4\r\nPING\r\n"), protocol_error("Invalid array length"));
    assert_eq!(Resp::parse(b"*+\r\n"), protocol_error("Invalid array length"));
    assert_eq!(
        Resp::parse(b"*99999999999999999999999999\r\n"),
        protocol_error("Invalid array length")
    );
}

#[test]
fn parse_rejects_truncated_array() {
    assert_eq!(Resp::parse(b"*2\r\n$4\r\nECHO\r\n"), protocol_error("Incomplete array"));
    assert_eq!(Resp::parse(b"*1\r\n"), protocol_error("Incomplete array"));
    assert_eq!(Resp::parse(b"*1"), protocol_error("Incomplete array"));
    assert_eq!(Resp::parse(b"*0"), protocol_error("Incomplete array"));
    assert_eq!(Resp::parse(b"*x"), protocol_error("Incomplete array"));
    assert_eq!(Resp::parse(b"*1\r"), protocol_error("Incomplete array"));
}

#[test]
fn parse_rejects_truncated_bulk_string() {
    assert_eq!(Resp::parse(b"*1\r\n$4"), protocol_error("Incomplete bulk string"));
    assert_eq!(Resp::parse(b"*1\r\n$"), protocol_error("Incomplete bulk string"));
    assert_eq!(Resp::parse(b"*1\r\n$x"), protocol_error("Incomplete bulk string"));
    assert_eq!(Resp::parse(b"*1\r\n$4\r"), protocol_error("Incomplete bulk string"));
}

#[test]
fn parse_rejects_other_elements() {
    assert_eq!(Resp::parse(b"*1\r\n+PING\r\n"), protocol_error("Invalid array element"));
    assert_eq!(Resp::parse(b"*1\r\n\r\n"), protocol_error("Invalid array element"));
}

#[test]
fn parse_huge_count_is_truncation_not_allocation() {
    assert_eq!(Resp::parse(b"*4294967295\r\n$4\r\nPING\r\n"), protocol_error("Incomplete array"));
}

#[test]
fn error_text_names_the_kind() {
    assert_eq!(Error::Protocol("Invalid UTF-8".to_string()).to_string(), "Protocol error: Invalid UTF-8");
    assert_eq!(Error::Command("Empty command".to_string()).to_string(), "Command error: Empty command");
    assert_eq!(Error::Io("disk full".to_string()).to_string(), "IO error: disk full");
}

#[test]
fn error_clone_is_equal() {
    let e = Error::Io("disk full".to_string());
    assert_eq!(e.clone(), e);
}

#[test]
fn requests_survive_the_wire() {
    let requests: Vec<Vec<&str>> = vec![
        vec![],
        vec!["PING"],
        vec!["SET", "key", "value", "PX", "1000"],
        vec!["", "", ""],
        vec!["ECHO", "héllo wörld ✓", "\u{10348}"],
        vec!["a\rb", "\nc", "d\r", "\n"],
        vec!["a\r\nb", "\r\n", "\r\n\r\n$3\r\nabc\r\n", "*2\r\n"],
        vec!["$5", "*3", "+OK", "-ERR"],
        vec!["x"; 12],
    ];
    for fields in requests {
        let sent = Resp::Array(fields.iter().map(|f| bulk(f)).collect());
        let bytes = sent.clone().into_bytes();
        assert_eq!(Resp::parse(&bytes), Ok(Some(sent)));
    }
}

#[test]
fn field_with_a_line_end_survives() {
    let bytes = Resp::Array(vec![bulk("a\r\nb")]).into_bytes();
    assert_eq!(bytes, b"*1\r\n$4\r\na\r\nb\r\n".to_vec());
    assert_eq!(Resp::parse(&bytes), Ok(Some(Resp::Array(vec![bulk("a\r\nb")]))));
}

#[test]
fn clone_of_a_nested_value_is_equal() {
    let value = Resp::Array(vec![
        Resp::Array(vec![bulk("a"), Resp::Null]),
        Resp::SimpleString("s".to_string()),
        Resp::Error("e".to_string()),
    ]);
    assert_eq!(value.clone(), value);
}
