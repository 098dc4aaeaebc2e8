use my_redis::buffer::MyBuffer;
use my_redis::connection::{handle_read, parse_frame, ReadStep};
use my_redis::scan::check_would_panic;
use my_redis::frame::{write_frame, Frame};

fn buffer_with(bytes: &[u8]) -> MyBuffer {
    let mut b = MyBuffer::new();
    b.get_free_space()[..bytes.len()].copy_from_slice(bytes);
    assert_eq!(handle_read(&mut b, bytes.len()), ReadStep::Continue);
    b
}

#[test]
fn parses_a_simple_frame_and_consumes_it() {
    let mut b = buffer_with(b"+OK\r\n+NEXT");
    assert_eq!(parse_frame(&mut b), Ok(Some(Frame::Simple("OK".to_string()))));
    assert_eq!(b.get_bytes(), b"+NEXT");
    assert_eq!(parse_frame(&mut b), Ok(None));
    assert_eq!(b.get_bytes(), b"+NEXT");
}

#[test]
fn parses_each_kind_of_frame() {
    let mut b = buffer_with(b"-ERR x\r\n:42\r\n$3\r\nabc\r\n$-1\r\n*2\r\n:1\r\n$2\r\nhi\r\n");
    assert_eq!(parse_frame(&mut b), Ok(Some(Frame::Error("ERR x".to_string()))));
    assert_eq!(parse_frame(&mut b), Ok(Some(Frame::Integer(42))));
    assert_eq!(parse_frame(&mut b), Ok(Some(Frame::Bulk(b"abc".to_vec()))));
    assert_eq!(parse_frame(&mut b), Ok(Some(Frame::Null)));
    assert_eq!(
        parse_frame(&mut b),
        Ok(Some(Frame::Array(vec![Frame::Integer(1), Frame::Bulk(b"hi".to_vec())])))
    );
    assert!(b.is_empty());
    assert_eq!(parse_frame(&mut b), Ok(None));
}

#[test]
fn incomplete_frame_waits_for_more() {
    let mut b = buffer_with(b"$5\r\nab");
    assert_eq!(parse_frame(&mut b), Ok(None));
    assert_eq!(b.get_bytes(), b"$5\r\nab");
}

#[test]
fn malformed_decimal_is_treated_as_no_frame() {
    let mut b = buffer_with(b":12x\r\n");
    assert_eq!(parse_frame(&mut b), Ok(Some(Frame::Integer(12))));
    let mut b = buffer_with(b":x\r\n");
    assert_eq!(parse_frame(&mut b), Ok(None));
    assert_eq!(b.get_bytes(), b":x\r\n");
}

#[test]
fn empty_buffer_has_no_frame() {
    let mut b = MyBuffer::new();
    assert_eq!(parse_frame(&mut b), Ok(None));
}

#[test]
fn invalid_type_byte_is_treated_as_no_frame() {
    let mut b = buffer_with(b"?what\r\n");
    assert_eq!(parse_frame(&mut b), Ok(None));
    assert_eq!(b.get_bytes(), b"?what\r\n");
}

#[test]
fn parse_error_is_reported_and_keeps_the_bytes() {
    let mut b = buffer_with(b"$-2\r\n");
    assert_eq!(parse_frame(&mut b), Err("protocol error; invalid frame format".to_string()));
    assert_eq!(b.get_bytes(), b"$-2\r\n");
    let mut b = buffer_with(b"+\xff\xfe\r\n");
    assert_eq!(parse_frame(&mut b), Err("protocol error; invalid frame format".to_string()));
    assert_eq!(b.get_bytes(), b"+\xff\xfe\r\n");
}

#[test]
fn written_frames_parse_back() {
    let frames = vec![
        Frame::Simple("PONG".to_string()),
        Frame::Simple("héllo wörld".to_string()),
        Frame::Bulk(b"a\r\nb".to_vec()),
        Frame::Error("ERR unknown".to_string()),
        Frame::Integer(77),
        Frame::Integer(u64::MAX),
        Frame::Null,
        Frame::Bulk(b"value".to_vec()),
    ];
    let mut wire = Vec::new();
    for f in &frames {
        write_frame(&mut wire, f);
    }
    let mut b = buffer_with(&wire);
    for f in frames {
        assert_eq!(parse_frame(&mut b), Ok(Some(f)));
    }
    assert!(b.is_empty());
}

#[test]
fn read_of_zero_bytes_closes_or_resets() {
    let mut b = MyBuffer::new();
    assert_eq!(handle_read(&mut b, 0), ReadStep::Closed);
    let mut b = buffer_with(b"+O");
    assert_eq!(handle_read(&mut b, 0), ReadStep::Reset);
    assert_eq!(b.get_bytes(), b"+O");
}

#[test]
fn read_of_some_bytes_continues_and_keeps_them() {
    let mut b = buffer_with(b"+O");
    b.get_free_space()[..3].copy_from_slice(b"K\r\n");
    assert_eq!(handle_read(&mut b, 3), ReadStep::Continue);
    assert_eq!(b.get_bytes(), b"+OK\r\n");
    assert_eq!(parse_frame(&mut b), Ok(Some(Frame::Simple("OK".to_string()))));
}

#[test]
fn overflowing_bulk_length_is_detected_where_the_check_reads_it() {
    assert!(check_would_panic(b"$18446744073709551615\r\n"));
    assert!(check_would_panic(b"$18446744073709551614\r\nxyz"));
    assert!(check_would_panic(b"$018446744073709551614\r\n"));
    assert!(check_would_panic(b"*2\r\n:1\r\n$18446744073709551615\r\n"));
    assert!(check_would_panic(b"*1\r\n*1\r\n$18446744073709551614\r\n"));
    assert!(!check_would_panic(b"$18446744073709551613\r\n"));
    assert!(!check_would_panic(b"$18446744073709551616\r\n"));
    assert!(!check_would_panic(b"$18446744073709551615"));
    assert!(!check_would_panic(b"+$18446744073709551615\r\n"));
    assert!(!check_would_panic(b"+OK\r\n$18446744073709551615\r\n"));
    assert!(!check_would_panic(b"*1\r\n+x\r\n$18446744073709551615\r\n"));
    assert!(!check_would_panic(b"$3\r\nabc\r\n"));
    assert!(!check_would_panic(b""));
}

#[test]
fn dollar_digits_inside_a_simple_string_parse() {
    let mut b = buffer_with(b"+$18446744073709551615\r\n");
    assert_eq!(parse_frame(&mut b), Ok(Some(Frame::Simple("$18446744073709551615".to_string()))));
}

#[test]
fn large_but_safe_bulk_length_is_incomplete() {
    let mut b = buffer_with(b"$18446744073709551613\r\n");
    assert_eq!(parse_frame(&mut b), Ok(None));
}
