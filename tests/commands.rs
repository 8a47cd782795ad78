use mini_casher::command::{Command, Get, SetValue};
use mini_casher::error::Error;
use mini_casher::frame::Frame;

fn bulk(s: &str) -> Frame {
    Frame::BulkString(s.as_bytes().to_vec())
}

#[test]
fn request_frames() {
    assert_eq!(Command::get_frame("k"), Frame::Array(vec![bulk("get"), bulk("k")]));
    assert_eq!(
        Command::set_frame("k", b"v".to_vec()),
        Frame::Array(vec![bulk("set"), bulk("k"), bulk("v")])
    );
    assert_eq!(Command::delete_frame("k"), Frame::Array(vec![bulk("delete"), bulk("k")]));
    assert_eq!(Command::ping_frame(), Frame::Array(vec![bulk("ping")]));
    assert_eq!(Command::len_frame(), Frame::Array(vec![bulk("len")]));
    assert_eq!(Command::all_frame(), Frame::Array(vec![bulk("all")]));
}

#[test]
fn command_round_trip() {
    match Command::from_frame(Command::get_frame("key")).unwrap() {
        Command::Get(g) => assert_eq!("key", g.key()),
        other => panic!("{:?}", other),
    }
    match Command::from_frame(Command::set_frame("ключ", vec![0, 255])).unwrap() {
        Command::SetValue(s) => {
            assert_eq!("ключ", s.key());
            assert_eq!(&vec![0u8, 255], s.value());
        }
        other => panic!("{:?}", other),
    }
    match Command::from_frame(Command::delete_frame("d")).unwrap() {
        Command::Delete(g) => assert_eq!("d", g.key()),
        other => panic!("{:?}", other),
    }
    assert!(matches!(Command::from_frame(Command::ping_frame()), Ok(Command::Ping)));
    assert!(matches!(Command::from_frame(Command::len_frame()), Ok(Command::Len)));
    assert!(matches!(Command::from_frame(Command::all_frame()), Ok(Command::All)));
}

#[test]
fn from_frame_errors() {
    assert_eq!(
        Command::from_frame(Frame::Integer(5)).unwrap_err(),
        Error::Protocol("protocol error; expected array, got Integer(5)".to_string())
    );
    assert_eq!(
        Command::from_frame(Frame::Array(vec![])).unwrap_err(),
        Error::CommandParse("empty command".to_string())
    );
    assert_eq!(
        Command::from_frame(Frame::Array(vec![bulk("GET"), bulk("k")])).unwrap_err(),
        Error::CommandParse("unsupported command".to_string())
    );
    assert_eq!(
        Command::from_frame(Frame::Array(vec![bulk("get")])).unwrap_err(),
        Error::CommandParse("empty key".to_string())
    );
    assert_eq!(
        Command::from_frame(Frame::Array(vec![bulk("set"), bulk("k")])).unwrap_err(),
        Error::CommandParse("empty value".to_string())
    );
    assert_eq!(
        Command::from_frame(Frame::Array(vec![Frame::Null])).unwrap_err(),
        Error::Protocol("protocol error; expected command as bulk string, got Null".to_string())
    );
    assert_eq!(
        Command::from_frame(Frame::Array(vec![bulk("set"), bulk("k"), Frame::Integer(1)])).unwrap_err(),
        Error::Protocol("protocol error; expected value as bulk string, got Integer(1)".to_string())
    );
    assert_eq!(
        Command::from_frame(Frame::Array(vec![bulk("get"), Frame::BulkString(vec![0xc3])])).unwrap_err(),
        Error::Protocol("incomplete utf-8 byte sequence from index 0".to_string())
    );
}

#[test]
fn argument_types() {
    let g = Get::new("a".to_string());
    assert_eq!("a", g.key());
    let s = SetValue::new("b".to_string(), b"c".to_vec());
    assert_eq!("b", s.key());
    assert_eq!(&b"c".to_vec(), s.value());
}

#[test]
fn typed_lines() {
    match Command::from_cmd("get k\r\n".to_string()).unwrap() {
        Command::Get(g) => assert_eq!("k", g.key()),
        other => panic!("{:?}", other),
    }
    match Command::from_cmd("set a b".to_string()).unwrap() {
        Command::SetValue(s) => {
            assert_eq!("a", s.key());
            assert_eq!(&b"b".to_vec(), s.value());
        }
        other => panic!("{:?}", other),
    }
    match Command::from_cmd("delete x".to_string()).unwrap() {
        Command::Delete(g) => assert_eq!("x", g.key()),
        other => panic!("{:?}", other),
    }
    match Command::from_cmd("get ".to_string()).unwrap() {
        Command::Get(g) => assert_eq!("", g.key()),
        other => panic!("{:?}", other),
    }
    assert!(matches!(Command::from_cmd("ping\r\n".to_string()), Ok(Command::Ping)));
    assert!(matches!(Command::from_cmd("all".to_string()), Ok(Command::All)));
    assert!(matches!(Command::from_cmd("len".to_string()), Ok(Command::Len)));
}

#[test]
fn typed_line_errors() {
    assert_eq!(
        Command::from_cmd("get".to_string()).unwrap_err(),
        Error::CommandParse("failed parse empty key".to_string())
    );
    assert_eq!(
        Command::from_cmd("delete\r\n".to_string()).unwrap_err(),
        Error::CommandParse("failed parse empty key".to_string())
    );
    assert_eq!(
        Command::from_cmd("set a".to_string()).unwrap_err(),
        Error::CommandParse("key,value,value type are required".to_string())
    );
    assert_eq!(
        Command::from_cmd("hello".to_string()).unwrap_err(),
        Error::CommandParse("unsupported command".to_string())
    );
    assert_eq!(
        Command::from_cmd("".to_string()).unwrap_err(),
        Error::CommandParse("unsupported command".to_string())
    );
}
