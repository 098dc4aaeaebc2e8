use my_redis::frame::{write_decimal, write_frame, Frame};

fn encode(frame: &Frame) -> Vec<u8> {
    let mut out = Vec::new();
    write_frame(&mut out, frame);
    out
}

#[test]
fn simple_frame_bytes() {
    assert_eq!(encode(&Frame::Simple("OK".to_string())), b"+OK\r\n".to_vec());
    assert_eq!(encode(&Frame::Simple("héllo".to_string())), "+héllo\r\n".as_bytes().to_vec());
}

#[test]
fn error_frame_bytes() {
    assert_eq!(encode(&Frame::Error("ERR bad".to_string())), b"-ERR bad\r\n".to_vec());
}

#[test]
fn integer_frame_bytes() {
    assert_eq!(encode(&Frame::Integer(0)), b":0\r\n".to_vec());
    assert_eq!(encode(&Frame::Integer(1234)), b":1234\r\n".to_vec());
    assert_eq!(encode(&Frame::Integer(999_999_999_999)), b":999999999999\r\n".to_vec());
}

#[test]
fn large_integers_are_written_in_full() {
    assert_eq!(encode(&Frame::Integer(1_000_000_000_000)), b":1000000000000\r\n".to_vec());
    assert_eq!(encode(&Frame::Integer(u64::MAX)), b":18446744073709551615\r\n".to_vec());
}

#[test]
fn null_frame_bytes() {
    assert_eq!(encode(&Frame::Null), b"$-1\r\n".to_vec());
}

#[test]
fn bulk_frame_bytes() {
    assert_eq!(encode(&Frame::Bulk(b"abc".to_vec())), b"$3\r\nabc\r\n".to_vec());
    assert_eq!(encode(&Frame::Bulk(Vec::new())), b"$0\r\n\r\n".to_vec());
    let big = vec![7u8; 12];
    let out = encode(&Frame::Bulk(big.clone()));
    let mut expected = b"$12\r\n".to_vec();
    expected.extend_from_slice(&big);
    expected.extend_from_slice(b"\r\n");
    assert_eq!(out, expected);
}

#[test]
fn frames_append_to_what_is_written() {
    let mut out = b"xy".to_vec();
    write_frame(&mut out, &Frame::Integer(5));
    write_frame(&mut out, &Frame::Null);
    assert_eq!(out, b"xy:5\r\n$-1\r\n".to_vec());
}

#[test]
fn write_decimal_digits() {
    let mut out = Vec::new();
    write_decimal(&mut out, 42);
    assert_eq!(out, b"42\r\n".to_vec());
    let mut out = b"a".to_vec();
    write_decimal(&mut out, 1_000_000_000_000);
    assert_eq!(out, b"a1000000000000\r\n".to_vec());
    let mut out = Vec::new();
    write_decimal(&mut out, 100);
    assert_eq!(out, b"100\r\n".to_vec());
    let mut out = Vec::new();
    write_decimal(&mut out, 0);
    assert_eq!(out, b"0\r\n".to_vec());
}

#[test]
fn decimal_reads_back_as_the_value() {
    for v in [0u64, 7, 10, 99, 305, 65_536, 999_999_999_999, 1_000_000_000_000, u64::MAX] {
        let mut out = Vec::new();
        write_decimal(&mut out, v);
        let text = std::str::from_utf8(&out[..out.len() - 2]).unwrap();
        assert_eq!(text.parse::<u64>().unwrap(), v);
        assert_eq!(&out[out.len() - 2..], b"\r\n");
    }
}
