use redis_lite::resp::{
    binary_extract_bytes, binary_extract_line, binary_extract_line_as_string, bulk_string_from_vec,
    bytes_to_resp, bytes_to_resp_checked, parse_bulk_string, parse_simple_string, resp_extract_length,
    resp_remove_type, RESP,
};
use redis_lite::resp_result::RESPError;

#[test]
fn test_binary_extract_line() {
    let buffer = "OK\r\n".as_bytes();
    let mut index: usize = 0;
    let output = binary_extract_line(buffer, &mut index).unwrap();
    assert_eq!(output, "OK".as_bytes());
    assert_eq!(index, 4);
}

#[test]
fn test_binary_extract_line_loger_string() {
    let buffer = "ECHO\r\n".as_bytes();
    let mut index: usize = 0;
    let output = binary_extract_line(buffer, &mut index).unwrap();
    assert_eq!(output, "ECHO".as_bytes());
    assert!(index == 6);
}

#[test]
fn test_binary_extract_line_empty_buffer() {
    let buffer = "".as_bytes();
    let mut index: usize = 0;
    match binary_extract_line(buffer, &mut index) {
        Err(RESPError::OutOfBounds(index)) => {
            assert_eq!(index, 0);
        }
        _ => panic!("unexpected error"),
    }
}

#[test]
fn test_binary_extract_line_no_separator() {
    let buffer = "OK".as_bytes();
    let mut index: usize = 0;
    match binary_extract_line(buffer, &mut index) {
        Err(RESPError::OutOfBounds(index)) => {
            assert_eq!(index, 2)
        }
        _ => panic!(),
    }
}

#[test]
fn test_binary_extract_line_index_too_advanced() {
    let buffer = "OK".as_bytes();
    let mut index: usize = 1;
    match binary_extract_line(buffer, &mut index) {
        Err(RESPError::OutOfBounds(index)) => {
            assert_eq!(index, 2);
        }
        _ => panic!(),
    }
}

#[test]
fn test_binary_extract_line_as_string() {
    let buffer = "OK\r\n".as_bytes();
    let mut index: usize = 0;
    let output = binary_extract_line_as_string(buffer, &mut index).unwrap();
    assert_eq!(output, String::from("OK"));
    assert_eq!(index, 4);
}

#[test]
fn test_resp_remove_type() {
    let buffer = "+OK\r\n".as_bytes();
    let mut index: usize = 0;
    resp_remove_type('+', buffer, &mut index).unwrap();
    assert_eq!(index, 1);
}

#[test]
fn test_resp_remove_type_error() {
    let buffer = "+OK\r\n".as_bytes();
    let mut index: usize = 0;
    let error = resp_remove_type('-', buffer, &mut index).unwrap_err();
    assert_eq!(index, 0);
    assert_eq!(error, RESPError::WrongType);
}

#[test]
fn test_parse_simple_string() {
    let buffer = "+OK\r\n".as_bytes();
    let mut index: usize = 0;
    let output = parse_simple_string(buffer, &mut index).unwrap();
    assert_eq!(output, RESP::SimpleString(String::from("OK")));
    assert_eq!(index, 5);
}

#[test]
fn test_to_resp_simple_string() {
    let buffer = "+OK\r\n".as_bytes();
    let mut index: usize = 0;
    let output = bytes_to_resp(buffer, &mut index).unwrap();
    assert_eq!(output, RESP::SimpleString(String::from("OK")));
    assert_eq!(index, 5);
}

#[test]
fn test_to_resp_error() {
    let buffer = "?OK\r\n".as_bytes();
    let mut index: usize = 0;
    let output = bytes_to_resp(buffer, &mut index).unwrap_err();
    assert_eq!(output, RESPError::Unkonwn);
    assert_eq!(index, 0);
}

#[test]
fn test_binary_extract_bytes() {
    let buffer = "OK\r\n".as_bytes();
    let mut index: usize = 0;
    let output = binary_extract_bytes(buffer, &mut index, 2).unwrap();
    assert_eq!(output, "OK".as_bytes());
    assert_eq!(index, 2);
}

#[test]
fn test_binary_extract_bytes_error() {
    let buffer = "OK\r\n".as_bytes();
    let mut index: usize = 0;
    let output = binary_extract_bytes(buffer, &mut index, 10).unwrap_err();
    assert_eq!(output, RESPError::OutOfBounds(0));
    assert_eq!(index, 0);
}

#[test]
fn test_parse_bulk_string() {
    let buffer = "$2\r\nOK\r\n".as_bytes();
    let mut index: usize = 0;
    let output = parse_bulk_string(buffer, &mut index).unwrap();
    assert_eq!(output, RESP::BulkString(String::from("OK")));
    assert_eq!(index, 8);
}

#[test]
fn test_parse_bulk_string_empty() {
    let buffer = "$-1\r\n".as_bytes();
    let mut index: usize = 0;
    let output = parse_bulk_string(buffer, &mut index).unwrap();
    assert_eq!(output, RESP::Null);
    assert_eq!(index, 5);
}

#[test]
fn test_parse_bulk_string_unparsable_length() {
    let buffer = "$wrong\r\nOK\r\n".as_bytes();
    let mut index: usize = 0;
    let error = parse_bulk_string(buffer, &mut index).unwrap_err();
    assert_eq!(error, RESPError::ParseInt);
    assert_eq!(index, 8);
}

#[test]
fn test_parse_bulk_string_negative_length() {
    let buffer = "$-7\r\nOK\r\n".as_bytes();
    let mut index: usize = 0;
    let error = parse_bulk_string(buffer, &mut index).unwrap_err();
    assert_eq!(error, RESPError::IncorrectLength(-7));
    assert_eq!(index, 5);
}

#[test]
fn test_parse_bulk_string_missing_crlf() {
    let buffer = "$2\r\nOK".as_bytes();
    let mut index: usize = 0;
    let error = parse_bulk_string(buffer, &mut index).unwrap_err();
    assert_eq!(error, RESPError::OutOfBounds(6));
}

#[test]
fn test_to_resp_bulk_string() {
    let buffer = "$2\r\nOK\r\n".as_bytes();
    let mut index: usize = 0;
    let output = bytes_to_resp(buffer, &mut index).unwrap();
    assert_eq!(output, RESP::BulkString(String::from("OK")));
    assert_eq!(index, 8);
}

// ---------------------------------------------------------------------------
// Further cases
// ---------------------------------------------------------------------------

#[test]
fn parses_an_array_of_bulk_strings() {
    let buffer = "*2\r\n$4\r\nECHO\r\n$3\r\nhey\r\n".as_bytes();
    let mut index: usize = 0;
    let output = bytes_to_resp(buffer, &mut index).unwrap();
    assert_eq!(
        output,
        RESP::Array(vec![
            RESP::BulkString(String::from("ECHO")),
            RESP::BulkString(String::from("hey"))
        ])
    );
    assert_eq!(index, buffer.len());
}

#[test]
fn parses_nested_arrays() {
    let buffer = "*2\r\n*1\r\n+a\r\n$-1\r\n".as_bytes();
    let mut index: usize = 0;
    let output = bytes_to_resp(buffer, &mut index).unwrap();
    assert_eq!(
        output,
        RESP::Array(vec![
            RESP::Array(vec![RESP::SimpleString(String::from("a"))]),
            RESP::Null
        ])
    );
    assert_eq!(index, buffer.len());
}

#[test]
fn array_with_negative_length_is_refused() {
    let buffer = "*-1\r\n".as_bytes();
    let mut index: usize = 0;
    let error = bytes_to_resp(buffer, &mut index).unwrap_err();
    assert_eq!(error, RESPError::IncorrectLength(-1));
    assert_eq!(index, 5);
}

#[test]
fn array_element_with_unknown_type_is_refused() {
    let buffer = "*1\r\n:1\r\n".as_bytes();
    let mut index: usize = 0;
    let error = bytes_to_resp(buffer, &mut index).unwrap_err();
    assert_eq!(error, RESPError::Unkonwn);
}

#[test]
fn truncated_array_is_where_the_reader_would_panic() {
    let buffer = "*2\r\n+a\r\n".as_bytes();
    let mut index: usize = 0;
    assert!(bytes_to_resp_checked(buffer, &mut index).is_none());
    let mut index: usize = 0;
    assert!(bytes_to_resp_checked(b"", &mut index).is_none());
}

#[test]
fn checked_reader_agrees_with_the_reader() {
    let buffer = "$3\r\nabc\r\n".as_bytes();
    let mut index: usize = 0;
    let output = bytes_to_resp_checked(buffer, &mut index).unwrap().unwrap();
    assert_eq!(output, RESP::BulkString(String::from("abc")));
    assert_eq!(index, 9);
}

#[test]
fn invalid_utf8_in_a_line_is_refused() {
    let buffer: &[u8] = &[b'+', 0xff, b'\r', b'\n'];
    let mut index: usize = 0;
    let error = parse_simple_string(buffer, &mut index).unwrap_err();
    assert_eq!(error, RESPError::FromUtf8);
    assert_eq!(index, 4);
}

#[test]
fn invalid_utf8_in_a_bulk_string_is_refused() {
    let buffer: &[u8] = &[b'$', b'1', b'\r', b'\n', 0xc3, b'\r', b'\n'];
    let mut index: usize = 0;
    let error = parse_bulk_string(buffer, &mut index).unwrap_err();
    assert_eq!(error, RESPError::FromUtf8);
    assert_eq!(index, 7);
}

#[test]
fn length_accepts_a_plus_sign_and_refuses_overflow() {
    let mut index: usize = 0;
    assert_eq!(resp_extract_length("+12\r\n".as_bytes(), &mut index), Ok(12));
    let mut index: usize = 0;
    assert_eq!(
        resp_extract_length("2147483648\r\n".as_bytes(), &mut index),
        Err(RESPError::ParseInt)
    );
    let mut index: usize = 0;
    assert_eq!(
        resp_extract_length("-2147483648\r\n".as_bytes(), &mut index),
        Ok(-2147483648)
    );
    let mut index: usize = 0;
    assert_eq!(resp_extract_length("-\r\n".as_bytes(), &mut index), Err(RESPError::ParseInt));
}

#[test]
fn line_keeps_a_lone_carriage_return() {
    let buffer = "a\r\r\n".as_bytes();
    let mut index: usize = 0;
    let output = binary_extract_line(buffer, &mut index).unwrap();
    assert_eq!(output, "a\r".as_bytes());
    assert_eq!(index, 4);
}

#[test]
fn wire_form_of_each_value() {
    assert_eq!(RESP::SimpleString(String::from("OK")).to_string(), "+OK\r\n");
    assert_eq!(RESP::Null.to_string(), "$-1\r\n");
    assert_eq!(RESP::BulkString(String::from("héllo")).to_string(), "$6\r\nhéllo\r\n");
    assert_eq!(RESP::RDBPrefix(42).to_string(), "*RDBPrefix 42\r\n");
    assert_eq!(RESP::Integer(-17).to_string(), ":-17\r\n");
    assert_eq!(RESP::Integer(i64::MIN).to_string(), ":-9223372036854775808\r\n");
    assert_eq!(RESP::Error(String::from("ERR x")).to_string(), "-ERR x\r\n");
    let array = RESP::Array(vec![RESP::BulkString(String::from("a")), RESP::Null]);
    assert_eq!(array.to_string(), "*2\r\n$1\r\na\r\n$-1\r\n");
    assert_eq!(array.to_bytes(), b"*2\r\n$1\r\na\r\n$-1\r\n".to_vec());
}

#[test]
fn what_is_written_is_read_back() {
    let value = RESP::Array(vec![
        RESP::BulkString(String::from("SET")),
        RESP::SimpleString(String::from("ünïcode")),
        RESP::Null,
        RESP::Array(vec![]),
    ]);
    let bytes = value.to_bytes();
    let mut index: usize = 0;
    let back = bytes_to_resp(&bytes, &mut index).unwrap();
    assert_eq!(back, value);
    assert_eq!(index, bytes.len());
}

#[test]
fn bulk_string_from_lines() {
    let lines = vec![String::from("a"), String::from("b"), String::from("c")];
    assert_eq!(bulk_string_from_vec(lines), RESP::BulkString(String::from("a\r\nb\r\nc")));
    assert_eq!(bulk_string_from_vec(vec![]), RESP::BulkString(String::new()));
}

#[test]
fn error_messages() {
    assert_eq!(RESPError::OutOfBounds(3).to_string(), "Out of bounds at index 3");
    assert_eq!(RESPError::FromUtf8.to_string(), "Cannot convert from UTF-8");
    assert_eq!(RESPError::WrongType.to_string(), "Wrong type");
    assert_eq!(RESPError::Unkonwn.to_string(), "Unkonwn error");
    assert_eq!(RESPError::ParseInt.to_string(), "Cannot parse int");
    assert_eq!(RESPError::IncorrectLength(-7).to_string(), "Incorrect length: -7");
}

#[test]
fn a_value_reads_the_same_whatever_follows() {
    let value = "*1\r\n$2\r\nOK\r\n".as_bytes();
    let mut longer = value.to_vec();
    longer.extend_from_slice(b"+next\r\n???");
    let mut i1: usize = 0;
    let mut i2: usize = 0;
    let a = bytes_to_resp(value, &mut i1).unwrap();
    let b = bytes_to_resp(&longer, &mut i2).unwrap();
    assert_eq!(a, b);
    assert_eq!(i1, i2);
    assert_eq!(i1, value.len());
}
