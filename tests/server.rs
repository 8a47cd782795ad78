use mini_casher::command::Command;
use mini_casher::error::Error;
use mini_casher::frame::Frame;
use mini_casher::server::{serve, ReadBuffer};
use mini_casher::storage::{execute, Storage};

/// One connection: the request's bytes in, the response's bytes out.
fn exchange(request: &[u8], storage: &mut Storage) -> Result<Option<Vec<u8>>, Error> {
    let mut reader = ReadBuffer::new();
    reader.extend(request);
    let read = match reader.parse_frame() {
        Ok(Some(f)) => Ok(Some(f)),
        Ok(None) => reader.end_of_stream(),
        Err(e) => Err(e),
    };
    match serve(read, storage)? {
        Some(resp) => Ok(Some(resp.encode()?)),
        None => Ok(None),
    }
}

#[test]
fn end_to_end_set_get() {
    let mut storage = Storage::new();
    let set = exchange(b"*3\r\n$3\r\nset\r\n$1\r\nk\r\n$1\r\nv\r\n", &mut storage);
    assert_eq!(Ok(Some(b"+Ok\r\n".to_vec())), set);
    let get = exchange(b"*2\r\n$3\r\nget\r\n$1\r\nk\r\n", &mut storage);
    assert_eq!(Ok(Some(b"$1\r\nv\r\n".to_vec())), get);
}

#[test]
fn get_missing_is_null_and_delete_missing_fails() {
    let mut storage = Storage::new();
    assert_eq!(Ok(Some(b"$-1\r\n".to_vec())), exchange(b"*2\r\n$3\r\nget\r\n$1\r\nx\r\n", &mut storage));
    assert_eq!(
        Err(Error::Storage("remove failed".to_string())),
        exchange(b"*2\r\n$6\r\ndelete\r\n$1\r\nx\r\n", &mut storage)
    );
}

#[test]
fn store_commands() {
    let mut storage = Storage::new();
    let set = |k: &str, v: &[u8], s: &mut Storage| {
        execute(Command::from_frame(Command::set_frame(k, v.to_vec())).unwrap(), s)
    };
    assert_eq!(Ok(Frame::Simple("Ok".to_string())), set("a", b"1", &mut storage));
    assert_eq!(Ok(Frame::Simple("Ok".to_string())), set("b", b"2", &mut storage));
    assert_eq!(Ok(Frame::Simple("Ok".to_string())), set("a", b"3", &mut storage));
    assert_eq!(2, storage.len());
    assert_eq!(
        Ok(Frame::Integer(2)),
        execute(Command::from_frame(Command::len_frame()).unwrap(), &mut storage)
    );
    match execute(Command::from_frame(Command::all_frame()).unwrap(), &mut storage) {
        Ok(Frame::Array(items)) => {
            let mut values: Vec<Vec<u8>> = items
                .into_iter()
                .map(|f| match f {
                    Frame::BulkString(b) => b,
                    other => panic!("{:?}", other),
                })
                .collect();
            values.sort();
            assert_eq!(vec![b"2".to_vec(), b"3".to_vec()], values);
        }
        other => panic!("{:?}", other),
    }
    assert_eq!(
        Ok(Frame::Simple("Ok".to_string())),
        execute(Command::from_frame(Command::delete_frame("a")).unwrap(), &mut storage)
    );
    assert_eq!(None, storage.get(&"a".to_string()));
    assert_eq!(Some(b"2".to_vec()), storage.get(&"b".to_string()));
    assert_eq!(
        Ok(Frame::Simple("PONG".to_string())),
        execute(Command::from_frame(Command::ping_frame()).unwrap(), &mut storage)
    );
    assert!(!storage.remove(&"zz".to_string()));
}

#[test]
fn read_buffer_waits_for_the_rest() {
    let bytes = b"*2\r\n$3\r\nget\r\n$1\r\nk\r\n+tail";
    let mut reader = ReadBuffer::new();
    reader.extend(&bytes[..10]);
    assert_eq!(Ok(None), reader.parse_frame());
    reader.extend(&bytes[10..]);
    assert_eq!(Ok(Some(Command::get_frame("k"))), reader.parse_frame());
    assert!(!reader.is_empty());
    assert_eq!(Ok(None), reader.parse_frame());
    assert_eq!(
        Err(Error::SocketRead("connection reset by peer".to_string())),
        reader.end_of_stream()
    );
    assert_eq!(Ok(None), ReadBuffer::new().end_of_stream());
}

#[test]
fn read_failure_is_answered_with_an_error_frame() {
    let mut storage = Storage::new();
    let r = serve(Err(Error::Protocol("protocol error; invalid frame format".to_string())), &mut storage);
    assert_eq!(Ok(Some(Frame::Error("protocol error; invalid frame format".to_string()))), r);
    assert_eq!(Ok(None), serve(Ok(None), &mut storage));
    assert_eq!(
        Ok(Some(b"-protocol error; invalid frame type byte `63`\r\n".to_vec())),
        exchange(b"?", &mut storage)
    );
    assert_eq!("", Error::Incomplete.message());
}
