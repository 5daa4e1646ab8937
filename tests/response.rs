use hg_stdio::response::{parse_length, read_response, ResponseError};

#[test]
fn reads_a_body() {
    assert_eq!(read_response(b"5\nhello"), Ok((b"hello".to_vec(), 7)));
}

#[test]
fn reads_an_empty_body() {
    assert_eq!(read_response(b"0\n"), Ok((Vec::new(), 2)));
}

#[test]
fn leaves_what_follows() {
    assert_eq!(read_response(b"2\nhi3\nabc"), Ok((b"hi".to_vec(), 4)));
}

#[test]
fn short_body_fails_without_partial_result() {
    assert_eq!(read_response(b"9\nhello"), Err(ResponseError::Truncated));
}

#[test]
fn unterminated_length_line() {
    assert_eq!(read_response(b"12"), Err(ResponseError::Unterminated));
    assert_eq!(read_response(b""), Err(ResponseError::Unterminated));
}

#[test]
fn malformed_length_line() {
    assert_eq!(read_response(b"x\nhello"), Err(ResponseError::BadLength));
    assert_eq!(read_response(b"\nhello"), Err(ResponseError::BadLength));
    assert_eq!(read_response(b"-1\n"), Err(ResponseError::BadLength));
    assert_eq!(read_response(b"99999999999999999999999\n"), Err(ResponseError::BadLength));
}

#[test]
fn length_lines() {
    assert_eq!(parse_length(b"0"), Some(0));
    assert_eq!(parse_length(b"007"), Some(7));
    assert_eq!(parse_length(b"18446744073709551615"), Some(usize::MAX));
    assert_eq!(parse_length(b"18446744073709551616"), None);
    assert_eq!(parse_length(b""), None);
    assert_eq!(parse_length(b"1 "), None);
    assert_eq!(parse_length(b"+1"), None);
}
