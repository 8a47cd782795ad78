use mini_casher::error::CashError;
use mini_casher::frame;
use mini_casher::frame::{pop, skip_crlf, Cursor, Frame};

fn test_data(bytes: &[u8]) -> Cursor {
    Cursor::new(bytes.to_vec())
}

#[test]
fn try_frame_simple_string_ok() {
    let mut buff = test_data(&b"+hello frame\r\n"[..]);

    let string_line = Frame::try_frame(&mut buff);
    assert_eq!(Ok(Frame::Simple("hello frame".to_string())), string_line);
}

#[test]
fn try_frame_simple_string_err() {
    let mut buff = test_data(&b"+hello "[..]);

    let string_line = Frame::try_frame(&mut buff);
    assert_eq!(Err(CashError::Incomplete), string_line);
}

#[test]
fn try_frame_decimal_ok() {
    let mut buff = test_data(&b":1984\r\n"[..]);

    let decimal = Frame::try_frame(&mut buff);
    assert_eq!(Ok(Frame::Integer(1984)), decimal)
}

#[test]
fn try_frame_decimal_err() {
    let mut buff = test_data(&b":19"[..]);

    let decimal_err = Frame::try_frame(&mut buff);
    assert_eq!(Err(CashError::Incomplete), decimal_err);
}

#[test]
fn try_frame_decimal_unexpected_value() {
    let mut buff = test_data(&b":hello\r\n"[..]);

    let decimal_err = Frame::try_frame(&mut buff);
    assert_eq!(
        Err(CashError::Protocol("protocol error; invalid decimal frame format".to_string())),
        decimal_err
    );
}

#[test]
fn try_frame_error_ok() {
    let mut buff = test_data(&b"-error message\r\n"[..]);

    let error_line = Frame::try_frame(&mut buff);
    assert_eq!(Ok(Frame::Error("error message".to_string())), error_line);
}

#[test]
fn try_frame_error_err() {
    let mut buff = test_data(&b"-er"[..]);

    let error_line = Frame::try_frame(&mut buff);
    assert_eq!(Err(CashError::Incomplete), error_line);
}

#[test]
fn try_frame_bulk_ok_incomplete_test() {
    let mut buff = test_data(&b"$5\r\nhell"[..]);

    let frame = Frame::try_frame(&mut buff);
    assert_eq!(Err(CashError::Incomplete), frame);
}

#[test]
fn try_frame_bulk_ok_test() {
    let mut buff = test_data(&b"$5\r\nhello\r\n"[..]);

    let frame = Frame::try_frame(&mut buff);
    assert_eq!(Ok(Frame::BulkString(b"hello".to_vec())), frame);
}

#[test]
fn try_frame_bulk_err_test() {
    let mut buff = test_data(&b"$-2\r\n"[..]);

    let frame = Frame::try_frame(&mut buff);
    assert_eq!(Err(CashError::Protocol("protocol error; invalid frame format".to_string())), frame);
}

#[test]
fn try_frame_bulk_null_test() {
    let mut buff = test_data(&b"$-1\r\n"[..]);

    let frame = Frame::try_frame(&mut buff);
    assert_eq!(Ok(Frame::Null), frame);
}

#[test]
fn try_frame_bulk_incomplete_test() {
    let mut buff = test_data(&b"$-1"[..]);

    let frame = Frame::try_frame(&mut buff);
    assert_eq!(Err(CashError::Incomplete), frame);
}

#[test]
fn try_frame_empty_buff() {
    let mut empty_buff = test_data(&b""[..]);

    let empty = Frame::try_frame(&mut empty_buff);
    assert_eq!(Err(CashError::Incomplete), empty);
}

#[test]
fn try_frame_not_protocol_err() {
    let mut not_protocol_buff = test_data(&b"hello frame"[..]);

    let not_protocol_line = Frame::try_frame(&mut not_protocol_buff);
    assert_eq!(
        Err(CashError::Protocol(format!("protocol error; invalid frame type byte `{}`", b'h'))),
        not_protocol_line
    );
}

#[test]
fn try_frame_arr_ok_test() {
    let mut buff = test_data(&b"*4\r\n$5\r\nhello\r\n$5\r\nworld\r\n:111\r\n-Error message\r\n"[..]);

    let frame = Frame::try_frame(&mut buff);
    let expected = Frame::Array(vec![
        Frame::BulkString(b"hello".to_vec()),
        Frame::BulkString(b"world".to_vec()),
        Frame::Integer(111),
        Frame::Error("Error message".to_string()),
    ]);

    assert_eq!(Ok(expected), frame);
}

#[test]
fn try_frame_arr_incomplete_test() {
    let mut buff = test_data(&b"*1\r\n$5\r\nhello\r\n$5\r\nworld\r\n"[..]);

    let frame = Frame::try_frame(&mut buff);
    println!("{:?}", frame);
}

#[test]
fn try_frame_arr_len_test() {
    let mut buff = test_data(&b"*3\r\n$5\r\nhello\r\n"[..]);

    let frame = Frame::try_frame(&mut buff);
    assert_eq!(Err(CashError::Incomplete), frame);
}

#[test]
fn skip_crlf_test_ok() {
    let mut buff = test_data(&b"$\r\n"[..]);
    let first = pop(&mut buff);
    assert_eq!(Ok(b'$'), first);

    assert_eq!(Ok(true), skip_crlf(&mut buff));
    assert_eq!(3, buff.position());
}

#[test]
fn skip_crlf_test_err() {
    let mut buff = test_data(&b"$"[..]);
    let first = pop(&mut buff);
    assert_eq!(Ok(b'$'), first);

    assert_eq!(Err(CashError::Incomplete), skip_crlf(&mut buff));
}

#[test]
fn get_first_ok_test() {
    let mut buff = test_data(&b"+hello\r\n"[..]);

    let first = pop(&mut buff);
    assert_eq!(Ok(b'+'), first);
}

#[test]
fn get_first_err_test() {
    let mut buff = test_data(&b""[..]);

    let first = pop(&mut buff);
    assert_eq!(Err(CashError::Incomplete), first);
}

#[test]
fn get_line_ok_test() {
    let mut buff = test_data(&b"+hello\r\n"[..]);

    let first = pop(&mut buff);
    assert_eq!(Ok(b'+'), first);

    let line = frame::line(&mut buff);
    assert_eq!(Ok("hello".as_bytes().to_vec()), line);
}

#[test]
fn get_line_err_test() {
    let mut buff = test_data(&b"+hel"[..]);

    let first = pop(&mut buff);
    assert_eq!(Ok(b'+'), first);

    let line = frame::line(&mut buff);
    assert_eq!(Err(CashError::Incomplete), line);
}
