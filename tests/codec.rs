use mini_casher::error::Error;
use mini_casher::frame::{next_crlf, peek, Cursor, Frame};
use mini_casher::text::{decimal, decimal_string};

fn parse_all(bytes: &[u8]) -> (Result<Frame, Error>, u64) {
    let mut buff = Cursor::new(bytes.to_vec());
    let r = Frame::try_frame(&mut buff);
    (r, buff.position())
}

fn round_trip(frame: Frame) {
    let bytes = frame.encode().unwrap();
    let (back, used) = parse_all(&bytes);
    assert_eq!(Ok(frame), back);
    assert_eq!(bytes.len() as u64, used);
}

#[test]
fn encode_exact_bytes() {
    assert_eq!(Frame::Simple("OK".to_string()).encode().unwrap(), b"+OK\r\n".to_vec());
    assert_eq!(Frame::Error("bad".to_string()).encode().unwrap(), b"-bad\r\n".to_vec());
    assert_eq!(Frame::Integer(1984).encode().unwrap(), b":1984\r\n".to_vec());
    assert_eq!(Frame::Integer(0).encode().unwrap(), b":0\r\n".to_vec());
    assert_eq!(Frame::BulkString(b"hello".to_vec()).encode().unwrap(), b"$5\r\nhello\r\n".to_vec());
    assert_eq!(Frame::BulkString(vec![]).encode().unwrap(), b"$0\r\n\r\n".to_vec());
    assert_eq!(Frame::Null.encode().unwrap(), b"$-1\r\n".to_vec());
    let arr = Frame::Array(vec![Frame::BulkString(b"get".to_vec()), Frame::Integer(7)]);
    assert_eq!(arr.encode().unwrap(), b"*2\r\n$3\r\nget\r\n:7\r\n".to_vec());
    assert_eq!(Frame::Array(vec![]).encode().unwrap(), b"*0\r\n".to_vec());
}

#[test]
fn encode_nested_array_is_refused() {
    let nested = Frame::Array(vec![Frame::Array(vec![])]);
    assert_eq!(
        nested.encode(),
        Err(Error::Protocol("nested arrays are not supported".to_string()))
    );
}

#[test]
fn round_trip_every_kind() {
    round_trip(Frame::Simple("hello frame".to_string()));
    round_trip(Frame::Simple("".to_string()));
    round_trip(Frame::Error("Error message".to_string()));
    round_trip(Frame::Integer(u64::MAX));
    round_trip(Frame::BulkString(b"bin\r\nary\0".to_vec()));
    round_trip(Frame::Null);
    round_trip(Frame::Simple("grüße".to_string()));
    round_trip(Frame::Array(vec![
        Frame::BulkString(b"hello".to_vec()),
        Frame::Null,
        Frame::Integer(111),
        Frame::Error("Error message".to_string()),
        Frame::Simple("x".to_string()),
    ]));
}

#[test]
fn every_proper_prefix_is_incomplete() {
    let frame = Frame::Array(vec![
        Frame::BulkString(b"set".to_vec()),
        Frame::BulkString(b"k".to_vec()),
        Frame::Integer(42),
    ]);
    let bytes = frame.encode().unwrap();
    for k in 0..bytes.len() {
        let (r, used) = parse_all(&bytes[..k]);
        assert_eq!(Err(Error::Incomplete), r);
        assert_eq!(0, used);
    }
    assert_eq!(Ok(frame), parse_all(&bytes).0);
}

#[test]
fn unknown_tags_are_protocol_errors() {
    for tag in [b'h', b'#', b'!', b'0', b'\r'] {
        let (r, _) = parse_all(&[tag, b'x', b'\r', b'\n']);
        assert_eq!(
            Err(Error::Protocol(format!("protocol error; invalid frame type byte `{}`", tag))),
            r
        );
    }
}

#[test]
fn bulk_consumes_exactly_its_length() {
    let (r, used) = parse_all(b"$3\r\nabc\r\n+next\r\n");
    assert_eq!(Ok(Frame::BulkString(b"abc".to_vec())), r);
    assert_eq!(9, used);
    let (r, _) = parse_all(b"$3\r\nabcXY");
    assert_eq!(Err(Error::Incomplete), r);
}

#[test]
fn integers_must_be_plain_digits() {
    assert_eq!(
        Err(Error::Protocol("protocol error; invalid decimal frame format".to_string())),
        parse_all(b":18446744073709551616\r\n").0
    );
    assert_eq!(
        Err(Error::Protocol("protocol error; invalid decimal frame format".to_string())),
        parse_all(b":+5\r\n").0
    );
    assert_eq!(
        Err(Error::Protocol("protocol error; invalid decimal frame format".to_string())),
        parse_all(b":\r\n").0
    );
    assert_eq!(Ok(Frame::Integer(18446744073709551615)), parse_all(b":18446744073709551615\r\n").0);
}

#[test]
fn invalid_utf8_text_is_a_protocol_error() {
    let r = parse_all(b"+\xff\r\n").0;
    assert_eq!(
        Err(Error::Protocol("invalid utf-8 sequence of 1 bytes from index 0".to_string())),
        r
    );
}

#[test]
fn array_element_error_is_the_array_error() {
    assert_eq!(
        Err(Error::Protocol("protocol error; invalid frame format".to_string())),
        parse_all(b"*2\r\n:1\r\n$-7\r\n").0
    );
}

#[test]
fn decimal_helpers() {
    assert_eq!(Some(1984), decimal(b"1984"));
    assert_eq!(None, decimal(b"19a4"));
    assert_eq!(None, decimal(b""));
    assert_eq!("1234567890", decimal_string(1234567890));
    assert!(next_crlf(b'\r', b'\n'));
    assert!(!next_crlf(b'\n', b'\r'));
}

#[test]
fn peek_leaves_the_cursor() {
    let buff = Cursor::new(b"+a\r\n".to_vec());
    assert_eq!(Ok(b'+'), peek(&buff));
    assert_eq!(0, buff.position());
    assert_eq!(4, buff.remaining());
    assert_eq!(Err(Error::Incomplete), peek(&Cursor::new(vec![])));
}
