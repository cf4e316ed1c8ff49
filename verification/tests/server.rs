use echo_server::reader::{read_resp_line, ByteReader, LineError};
use echo_server::server::{read_request, read_resp_request, request_is_truncated, RespError};
use std::io::Cursor;

#[test]
fn test_read_resp_request_request() {
    // The raw RESP for: GET mykey
    let raw_request: &[u8] = b"*2\r\n$3\r\nGET\r\n$5\r\nMYKEY\r\n";

    let simulated_stream = Cursor::new(raw_request);

    let result = read_resp_request(*simulated_stream.get_ref());

    assert!(result.is_ok());
}

#[test]
fn test_read_resp_request_set() {
    let raw_request: &[u8] = b"*3\r\n$3\r\nSET\r\n$5\r\nmykey\r\n$6\r\nkeykey\r\n";

    let simulated_stream = Cursor::new(raw_request);

    let result = read_resp_request(*simulated_stream.get_ref());

    let args = result.unwrap();

    assert_eq!(args[2], "KEYKEY");
}

#[test]
fn test_read_resp_request_line() {
    let raw_request: &[u8] = b"*2\r\n$3\r\nGET\r\n$5\r\nMYKEY\r\n";
    let simulated_stream = Cursor::new(raw_request);

    let mut reader = ByteReader::new(*simulated_stream.get_ref());

    for i in 0..2 {
        let result = read_resp_line(&mut reader);

        if i == 0 {
            assert_eq!(result.unwrap(), "*2");
        } else if i == 1 {
            assert_eq!(result.unwrap(), "$3");
        } else if i == 2 {
            assert_eq!(result.unwrap(), "GET");
        }
    }
}

#[test]
fn request_arguments_come_back_in_upper_case() {
    let args = read_resp_request(b"*3\r\n$3\r\nset\r\n$5\r\nmykey\r\n$6\r\nkeykey\r\n").unwrap();
    assert_eq!(args, vec!["SET".to_string(), "MYKEY".to_string(), "KEYKEY".to_string()]);
}

#[test]
fn request_with_non_ascii_value_is_decoded_and_upper_cased() {
    // "straße" is 7 bytes in UTF-8; its upper case is "STRASSE".
    let args = read_resp_request("*1\r\n$7\r\nstraße\r\n".as_bytes()).unwrap();
    assert_eq!(args, vec!["STRASSE".to_string()]);
}

#[test]
fn empty_request_array_has_no_arguments() {
    let args = read_resp_request(b"*0\r\n").unwrap();
    assert!(args.is_empty());
}

#[test]
fn trailing_bytes_after_a_request_are_left_alone() {
    let args = read_resp_request(b"*1\r\n$4\r\nping\r\nGARBAGE").unwrap();
    assert_eq!(args, vec!["PING".to_string()]);
}

#[test]
fn sizes_may_carry_a_plus_sign() {
    let args = read_resp_request(b"*+1\r\n$+2\r\nok\r\n").unwrap();
    assert_eq!(args, vec!["OK".to_string()]);
}

#[test]
fn empty_input_is_a_bad_array_header() {
    let err = read_resp_request(b"").unwrap_err();
    assert_eq!(err, "Error reading array header: Invalid RESP line ending or data");
}

#[test]
fn header_without_carriage_return_is_refused() {
    let err = read_resp_request(b"*1\n").unwrap_err();
    assert_eq!(err, "Error reading array header: Invalid RESP line ending or data");
}

#[test]
fn bare_newline_is_refused() {
    let err = read_resp_request(b"\n").unwrap_err();
    assert_eq!(err, "Error reading array header: Invalid RESP line ending or data");
}

#[test]
fn header_with_bad_utf8_is_refused() {
    let err = read_resp_request(b"*\xff\r\n").unwrap_err();
    assert_eq!(
        err,
        "Error reading array header: Invalid UTF-8: invalid utf-8 sequence of 1 bytes from index 1"
    );
}

#[test]
fn header_without_star_is_refused() {
    let err = read_resp_request(b"$2\r\n").unwrap_err();
    assert_eq!(err, "Expected array prefix '*', got: $2");
}

#[test]
fn array_size_must_be_a_number() {
    let err = read_resp_request(b"*x1\r\n").unwrap_err();
    assert_eq!(err, "Invalid array size: x1");
    let err = read_resp_request(b"*\r\n").unwrap_err();
    assert_eq!(err, "Invalid array size: ");
    let err = read_resp_request(b"*-1\r\n").unwrap_err();
    assert_eq!(err, "Invalid array size: -1");
    let err = read_resp_request(b"*+\r\n").unwrap_err();
    assert_eq!(err, "Invalid array size: +");
}

#[test]
fn array_size_that_overflows_is_refused() {
    let err = read_resp_request(b"*99999999999999999999999\r\n").unwrap_err();
    assert_eq!(err, "Invalid array size: 99999999999999999999999");
}

#[test]
fn missing_bulk_header_is_reported() {
    let err = read_resp_request(b"*1\r\n").unwrap_err();
    assert_eq!(err, "Failed to read bulk header: Invalid RESP line ending or data");
}

#[test]
fn bulk_header_without_dollar_is_refused() {
    let err = read_resp_request(b"*1\r\n+3\r\nabc\r\n").unwrap_err();
    assert_eq!(err, "Expected bulk string prefix '$', got: +3");
}

#[test]
fn bulk_length_must_be_a_number() {
    let err = read_resp_request(b"*1\r\n$three\r\nabc\r\n").unwrap_err();
    assert_eq!(err, "Invalid bulk string length: three");
}

#[test]
fn short_bulk_value_is_reported() {
    let err = read_resp_request(b"*1\r\n$10\r\nabc\r\n").unwrap_err();
    assert_eq!(err, "Failed to read bulk string value: failed to fill whole buffer");
}

#[test]
fn missing_terminator_bytes_are_reported() {
    let err = read_resp_request(b"*1\r\n$3\r\nabc\r").unwrap_err();
    assert_eq!(err, "Failed to read terminator: failed to fill whole buffer");
}

#[test]
fn wrong_terminator_is_refused() {
    let err = read_resp_request(b"*1\r\n$3\r\nabcde").unwrap_err();
    assert_eq!(err, "Missing bulk string terminator \\r\\n");
}

#[test]
fn bulk_value_with_bad_utf8_is_refused() {
    let err = read_resp_request(b"*1\r\n$1\r\n\xff\r\n").unwrap_err();
    assert_eq!(
        err,
        "Bulk string value not valid UTF-8: invalid utf-8 sequence of 1 bytes from index 0"
    );
}

#[test]
fn second_argument_error_wins_over_later_ones() {
    let mut reader = ByteReader::new(b"*3\r\n$1\r\na\r\n$x\r\nb\r\n$1\r\nc\r\n");
    match read_request(&mut reader) {
        Err(RespError::BulkLength(t)) => assert_eq!(t, "x"),
        other => panic!("unexpected {:?}", other),
    }
}

#[test]
fn line_reader_takes_one_line_at_a_time() {
    let mut reader = ByteReader::new(b"ab\r\ncd\r\nef");
    assert_eq!(read_resp_line(&mut reader).unwrap(), "ab");
    assert_eq!(reader.remaining(), 6);
    assert_eq!(read_resp_line(&mut reader).unwrap(), "cd");
    assert_eq!(read_resp_line(&mut reader), Err(LineError::Unterminated));
    assert_eq!(reader.remaining(), 0);
    let mut reader = ByteReader::new(b"ab\ncd\r\n");
    assert_eq!(read_resp_line(&mut reader), Err(LineError::BadEnding));
    assert_eq!(read_resp_line(&mut reader).unwrap(), "cd");
}

#[test]
fn line_reader_reports_bad_utf8() {
    let mut reader = ByteReader::new(b"\xc3\r\nok\r\n");
    assert_eq!(
        read_resp_line(&mut reader),
        Err(LineError::BadUtf8("incomplete utf-8 byte sequence from index 0".to_string()))
    );
    assert_eq!(read_resp_line(&mut reader).unwrap(), "ok");
}

#[test]
fn read_exact_takes_bytes_or_nothing() {
    let mut reader = ByteReader::new(b"abcdef");
    assert_eq!(reader.read_exact(4), Some(b"abcd".to_vec()));
    assert_eq!(reader.read_exact(3), None);
    assert_eq!(reader.remaining(), 2);
    assert_eq!(reader.read_exact(2), Some(b"ef".to_vec()));
}

#[test]
fn request_reads_the_same_with_bytes_after_it() {
    let alone = read_resp_request(b"*2\r\n$3\r\nGET\r\n$1\r\nk\r\n").unwrap();
    let followed = read_resp_request(b"*2\r\n$3\r\nGET\r\n$1\r\nk\r\n*1\r\n$4\r\nPING\r\n").unwrap();
    assert_eq!(alone, followed);
}

#[test]
fn truncated_requests_are_told_apart_from_wrong_ones() {
    let whole: &[u8] = b"*2\r\n$3\r\nGET\r\n$5\r\nMYKEY\r\n";
    assert!(!request_is_truncated(whole));
    for n in 0..whole.len() {
        assert!(request_is_truncated(&whole[..n]), "prefix of length {}", n);
    }
    assert!(!request_is_truncated(b"PING\r\n"));
    assert!(!request_is_truncated(b"*1\n"));
    assert!(!request_is_truncated(b"*1\r\n$3\r\nabcde"));
    assert!(!request_is_truncated(b"*x\r\n"));
}
