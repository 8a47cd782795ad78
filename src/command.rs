//! Commands, and their mapping to and from request frames.
//!
//! A request is an array of bulk strings, the command's name first.

use vstd::prelude::*;
use vstd::utf8::*;
use vstd::slice::slice_to_vec;
use vstd::string::StringExecFns;
use crate::error::{Error, ErrorView};
use crate::frame::{Frame, FrameView};
use crate::text::{string_from_utf8, utf8_error_text};

verus! {

/// The key of a `get` or `delete`.
#[derive(Debug)]
pub struct Get {
    key: String,
}

impl View for Get {
    type V = Seq<char>;

    closed spec fn view(&self) -> Seq<char> {
        self.key@
    }
}

impl Get {
    pub fn new(key: String) -> (r: Self)
        ensures
            r@ == key@,
    {
        Get { key }
    }

    pub fn key(&self) -> (r: &String)
        ensures
            r@ == self@,
    {
        &self.key
    }
}

/// The key and value of a `set`.
#[derive(Debug)]
pub struct SetValue {
    key: String,
    value: Vec<u8>,
}

impl View for SetValue {
    type V = (Seq<char>, Seq<u8>);

    closed spec fn view(&self) -> (Seq<char>, Seq<u8>) {
        (self.key@, self.value@)
    }
}

impl SetValue {
    pub fn new(key: String, value: Vec<u8>) -> (r: Self)
        ensures
            r@ == (key@, value@),
    {
        SetValue { key, value }
    }

    pub fn key(&self) -> (r: &String)
        ensures
            r@ == self@.0,
    {
        &self.key
    }

    pub fn value(&self) -> (r: &Vec<u8>)
        ensures
            r@ == self@.1,
    {
        &self.value
    }
}

#[derive(Debug)]
pub enum Command {
    Get(Get),
    SetValue(SetValue),
    Delete(Get),
    Len,
    All,
    Ping,
}

pub enum CommandView {
    Get(Seq<char>),
    SetValue(Seq<char>, Seq<u8>),
    Delete(Seq<char>),
    Len,
    All,
    Ping,
}

impl View for Command {
    type V = CommandView;

    open spec fn view(&self) -> CommandView {
        match self {
            Command::Get(g) => CommandView::Get(g@),
            Command::SetValue(s) => CommandView::SetValue(s@.0, s@.1),
            Command::Delete(g) => CommandView::Delete(g@),
            Command::Len => CommandView::Len,
            Command::All => CommandView::All,
            Command::Ping => CommandView::Ping,
        }
    }
}

/// A bulk string holding the UTF-8 bytes of `s`.
pub open spec fn text_bulk(s: Seq<char>) -> FrameView {
    FrameView::Bulk(encode_utf8(s))
}

/// The request frame that carries a command.
pub open spec fn request_frame(c: CommandView) -> FrameView {
    match c {
        CommandView::Get(k) => FrameView::Array(seq![text_bulk("get"@), text_bulk(k)]),
        CommandView::SetValue(k, v) => FrameView::Array(
            seq![text_bulk("set"@), text_bulk(k), FrameView::Bulk(v)],
        ),
        CommandView::Delete(k) => FrameView::Array(seq![text_bulk("delete"@), text_bulk(k)]),
        CommandView::Len => FrameView::Array(seq![text_bulk("len"@)]),
        CommandView::All => FrameView::Array(seq![text_bulk("all"@)]),
        CommandView::Ping => FrameView::Array(seq![text_bulk("ping"@)]),
    }
}

/// How `{:?}` writes a frame.
pub uninterp spec fn frame_debug_text(f: FrameView) -> Seq<char>;

/// Relies on the `Debug` impl that `derive` writes for `Frame`, through
/// `format!`: the text depends on the frame's contents alone.
#[verifier::external_body]
fn debug_text(f: &Frame) -> (r: String)
    ensures
        r@ == frame_debug_text(f@),
{
    format!("{:?}", f)
}

/// A bulk string read as UTF-8 text.
pub open spec fn text_of(b: Seq<u8>) -> Result<Seq<char>, ErrorView> {
    if valid_utf8(b) {
        Ok(decode_utf8(b))
    } else {
        Err(ErrorView::Protocol(utf8_error_text(b)))
    }
}

pub open spec fn name_of(a: Seq<FrameView>) -> Result<Seq<char>, ErrorView> {
    if a.len() == 0 {
        Err(ErrorView::CommandParse("empty command"@))
    } else {
        match a[0] {
            FrameView::Bulk(b) => text_of(b),
            _ => Err(ErrorView::Protocol(
                "protocol error; expected command as bulk string, got "@ + frame_debug_text(a[0]),
            )),
        }
    }
}

pub open spec fn key_of(a: Seq<FrameView>) -> Result<Seq<char>, ErrorView> {
    if a.len() < 2 {
        Err(ErrorView::CommandParse("empty key"@))
    } else {
        match a[1] {
            FrameView::Bulk(b) => text_of(b),
            _ => Err(ErrorView::Protocol(
                "protocol error; expected command as bulk string, got "@ + frame_debug_text(a[1]),
            )),
        }
    }
}

pub open spec fn value_of(a: Seq<FrameView>) -> Result<Seq<u8>, ErrorView> {
    if a.len() < 3 {
        Err(ErrorView::CommandParse("empty value"@))
    } else {
        match a[2] {
            FrameView::Bulk(b) => Ok(b),
            _ => Err(ErrorView::Protocol(
                "protocol error; expected value as bulk string, got "@ + frame_debug_text(a[2]),
            )),
        }
    }
}

/// The command that a received frame asks for.
pub open spec fn command_of(f: FrameView) -> Result<CommandView, ErrorView> {
    match f {
        FrameView::Array(a) => match name_of(a) {
            Err(e) => Err(e),
            Ok(name) => if name == "get"@ {
                match key_of(a) {
                    Ok(k) => Ok(CommandView::Get(k)),
                    Err(e) => Err(e),
                }
            } else if name == "set"@ {
                match key_of(a) {
                    Ok(k) => match value_of(a) {
                        Ok(v) => Ok(CommandView::SetValue(k, v)),
                        Err(e) => Err(e),
                    },
                    Err(e) => Err(e),
                }
            } else if name == "delete"@ {
                match key_of(a) {
                    Ok(k) => Ok(CommandView::Delete(k)),
                    Err(e) => Err(e),
                }
            } else if name == "all"@ {
                Ok(CommandView::All)
            } else if name == "len"@ {
                Ok(CommandView::Len)
            } else if name == "ping"@ {
                Ok(CommandView::Ping)
            } else {
                Err(ErrorView::CommandParse("unsupported command"@))
            },
        },
        _ => Err(ErrorView::Protocol("protocol error; expected array, got "@ + frame_debug_text(f))),
    }
}

/// `s` with every CRLF pair taken out, scanning from the left.
pub open spec fn without_crlf(s: Seq<char>) -> Seq<char>
    decreases s.len(),
{
    if s.len() < 2 {
        s
    } else if s[0] == '\r' && s[1] == '\n' {
        without_crlf(s.skip(2))
    } else {
        seq![s[0]] + without_crlf(s.drop_first())
    }
}

/// The pieces of `s` between single spaces, in order, empty ones included.
pub open spec fn split_spaces(s: Seq<char>) -> Seq<Seq<char>>
    decreases s.len(),
{
    if s.len() == 0 {
        seq![Seq::<char>::empty()]
    } else {
        let rest = split_spaces(s.drop_first());
        if s[0] == ' ' {
            seq![Seq::<char>::empty()] + rest
        } else {
            rest.update(0, seq![s[0]] + rest[0])
        }
    }
}

pub proof fn lemma_split_spaces_len(s: Seq<char>)
    ensures
        split_spaces(s).len() >= 1,
    decreases s.len(),
{
    if s.len() > 0 {
        lemma_split_spaces_len(s.drop_first());
    }
}

/// Relies on `str::replace` with the pattern `"\r\n"` and an empty
/// replacement: each CRLF, found from left to right without overlap, is
/// removed.
#[verifier::external_body]
fn strip_crlf(s: &str) -> (r: String)
    ensures
        r@ == without_crlf(s@),
{
    s.replace("\r\n", "")
}

/// Relies on `str::split` with the pattern `" "`: the pieces between the
/// spaces, in order, empty ones included.
#[verifier::external_body]
fn split_on_spaces(s: &str) -> (r: Vec<String>)
    ensures
        r@.len() == split_spaces(s@).len(),
        forall|i: int| 0 <= i < r@.len() ==> (#[trigger] r@[i])@ == split_spaces(s@)[i],
{
    s.split(" ").map(|p| p.to_string()).collect()
}

/// The command that a line typed at a prompt asks for: its words are
/// separated by single spaces, and CRLF pairs are ignored.
pub open spec fn command_of_line(s: Seq<char>) -> Result<CommandView, ErrorView> {
    let words = split_spaces(without_crlf(s));
    let name = words[0];
    if name == "get"@ {
        if words.len() >= 2 {
            Ok(CommandView::Get(words[1]))
        } else {
            Err(ErrorView::CommandParse("failed parse empty key"@))
        }
    } else if name == "set"@ {
        if words.len() >= 3 {
            Ok(CommandView::SetValue(words[1], encode_utf8(words[2])))
        } else {
            Err(ErrorView::CommandParse("key,value,value type are required"@))
        }
    } else if name == "delete"@ {
        if words.len() >= 2 {
            Ok(CommandView::Delete(words[1]))
        } else {
            Err(ErrorView::CommandParse("failed parse empty key"@))
        }
    } else if name == "all"@ {
        Ok(CommandView::All)
    } else if name == "len"@ {
        Ok(CommandView::Len)
    } else if name == "ping"@ {
        Ok(CommandView::Ping)
    } else {
        Err(ErrorView::CommandParse("unsupported command"@))
    }
}

/// `r` is the command `c` stands for, or the error it names.
pub open spec fn command_agrees(r: Result<Command, Error>, c: Result<CommandView, ErrorView>) -> bool {
    match c {
        Ok(v) => r matches Ok(x) && x@ == v,
        Err(ev) => r matches Err(e) && e@ == ev,
    }
}

fn text_frame(s: &str) -> (r: Frame)
    ensures
        r@ == text_bulk(s@),
{
    Frame::BulkString(slice_to_vec(s.as_bytes()))
}

fn protocol_with_frame(prefix: &str, f: &Frame) -> (r: Error)
    ensures
        r@ == ErrorView::Protocol(prefix@ + frame_debug_text(f@)),
{
    let mut m = String::from_str(prefix);
    let d = debug_text(f);
    m.append(d.as_str());
    Error::Protocol(m)
}

fn bulk_text(b: &Vec<u8>) -> (r: Result<String, Error>)
    ensures
        match text_of(b@) {
            Ok(t) => r matches Ok(s) && s@ == t,
            Err(ev) => r matches Err(e) && e@ == ev,
        },
{
    match string_from_utf8(slice_to_vec(b.as_slice())) {
        Ok(s) => Ok(s),
        Err(m) => Err(Error::Protocol(m)),
    }
}

pub open spec fn array_views(frames: &Vec<Frame>) -> Seq<FrameView> {
    Seq::new(frames@.len(), |i: int| frames@[i]@)
}

impl Command {
    pub fn get_frame(key: &str) -> (r: Frame)
        ensures
            r@ == request_frame(CommandView::Get(key@)),
    {
        let r = Frame::Array(vec![text_frame("get"), text_frame(key)]);
        proof {
            if let FrameView::Array(x) = r@ {
                assert(x =~= seq![text_bulk("get"@), text_bulk(key@)]);
            }
        }
        r
    }

    pub fn set_frame(key: &str, value: Vec<u8>) -> (r: Frame)
        ensures
            r@ == request_frame(CommandView::SetValue(key@, value@)),
    {
        let ghost v = value@;
        let third = Frame::BulkString(value);
        assert(third@ == FrameView::Bulk(v));
        let r = Frame::Array(vec![text_frame("set"), text_frame(key), third]);
        proof {
            if let FrameView::Array(x) = r@ {
                assert(x =~= seq![text_bulk("set"@), text_bulk(key@), FrameView::Bulk(v)]);
            }
        }
        r
    }

    pub fn delete_frame(key: &str) -> (r: Frame)
        ensures
            r@ == request_frame(CommandView::Delete(key@)),
    {
        let r = Frame::Array(vec![text_frame("delete"), text_frame(key)]);
        proof {
            if let FrameView::Array(x) = r@ {
                assert(x =~= seq![text_bulk("delete"@), text_bulk(key@)]);
            }
        }
        r
    }

    pub fn ping_frame() -> (r: Frame)
        ensures
            r@ == request_frame(CommandView::Ping),
    {
        let r = Frame::Array(vec![text_frame("ping")]);
        proof {
            if let FrameView::Array(x) = r@ {
                assert(x =~= seq![text_bulk("ping"@)]);
            }
        }
        r
    }

    pub fn len_frame() -> (r: Frame)
        ensures
            r@ == request_frame(CommandView::Len),
    {
        let r = Frame::Array(vec![text_frame("len")]);
        proof {
            if let FrameView::Array(x) = r@ {
                assert(x =~= seq![text_bulk("len"@)]);
            }
        }
        r
    }

    pub fn all_frame() -> (r: Frame)
        ensures
            r@ == request_frame(CommandView::All),
    {
        let r = Frame::Array(vec![text_frame("all")]);
        proof {
            if let FrameView::Array(x) = r@ {
                assert(x =~= seq![text_bulk("all"@)]);
            }
        }
        r
    }

    /// The command that a typed line asks for (see `command_of_line`).
    pub fn from_cmd(input: String) -> (r: Result<Command, Error>)
        ensures
            command_agrees(r, command_of_line(input@)),
    {
        let line = strip_crlf(input.as_str());
        let args = split_on_spaces(line.as_str());
        proof {
            lemma_split_spaces_len(line@);
        }
        let command = &args[0];
        if *command == String::from_str("get") {
            if args.len() >= 2 {
                Ok(Command::Get(Get { key: args[1].clone() }))
            } else {
                Err(Error::CommandParse(String::from_str("failed parse empty key")))
            }
        } else if *command == String::from_str("set") {
            if args.len() >= 3 {
                let value = slice_to_vec(args[2].as_str().as_bytes());
                Ok(Command::SetValue(SetValue { key: args[1].clone(), value }))
            } else {
                Err(Error::CommandParse(String::from_str("key,value,value type are required")))
            }
        } else if *command == String::from_str("delete") {
            if args.len() >= 2 {
                Ok(Command::Delete(Get { key: args[1].clone() }))
            } else {
                Err(Error::CommandParse(String::from_str("failed parse empty key")))
            }
        } else if *command == String::from_str("all") {
            Ok(Command::All)
        } else if *command == String::from_str("len") {
            Ok(Command::Len)
        } else if *command == String::from_str("ping") {
            Ok(Command::Ping)
        } else {
            Err(Error::CommandParse(String::from_str("unsupported command")))
        }
    }

    /// The command that a received frame asks for (see `command_of`).
    pub fn from_frame(frame: Frame) -> (r: Result<Command, Error>)
        ensures
            command_agrees(r, command_of(frame@)),
    {
        let ghost fv = frame@;
        match frame {
            Frame::Array(array) => {
                let ghost a = array_views(&array);
                assert(fv == FrameView::Array(a)) by {
                    if let FrameView::Array(x) = fv {
                        assert(x =~= a);
                    }
                }
                let name = match Command::command_frame(&array) {
                    Ok(n) => n,
                    Err(e) => return Err(e),
                };
                if name == String::from_str("get") {
                    match Command::key_frame(&array) {
                        Ok(key) => Ok(Command::Get(Get { key })),
                        Err(e) => Err(e),
                    }
                } else if name == String::from_str("set") {
                    match Command::key_frame(&array) {
                        Ok(key) => match Command::value_frame(&array) {
                            Ok(value) => Ok(Command::SetValue(SetValue { key, value })),
                            Err(e) => Err(e),
                        },
                        Err(e) => Err(e),
                    }
                } else if name == String::from_str("delete") {
                    match Command::key_frame(&array) {
                        Ok(key) => Ok(Command::Delete(Get { key })),
                        Err(e) => Err(e),
                    }
                } else if name == String::from_str("all") {
                    Ok(Command::All)
                } else if name == String::from_str("len") {
                    Ok(Command::Len)
                } else if name == String::from_str("ping") {
                    Ok(Command::Ping)
                } else {
                    Err(Error::CommandParse(String::from_str("unsupported command")))
                }
            },
            _ => Err(protocol_with_frame("protocol error; expected array, got ", &frame)),
        }
    }

    fn command_frame(frames: &Vec<Frame>) -> (r: Result<String, Error>)
        ensures
            match name_of(array_views(frames)) {
                Ok(t) => r matches Ok(s) && s@ == t,
                Err(ev) => r matches Err(e) && e@ == ev,
            },
    {
        if frames.len() == 0 {
            return Err(Error::CommandParse(String::from_str("empty command")));
        }
        match &frames[0] {
            Frame::BulkString(command) => bulk_text(command),
            first => Err(
                protocol_with_frame("protocol error; expected command as bulk string, got ", first),
            ),
        }
    }

    fn key_frame(frames: &Vec<Frame>) -> (r: Result<String, Error>)
        ensures
            match key_of(array_views(frames)) {
                Ok(t) => r matches Ok(s) && s@ == t,
                Err(ev) => r matches Err(e) && e@ == ev,
            },
    {
        if frames.len() < 2 {
            return Err(Error::CommandParse(String::from_str("empty key")));
        }
        match &frames[1] {
            Frame::BulkString(key) => bulk_text(key),
            second => Err(
                protocol_with_frame("protocol error; expected command as bulk string, got ", second),
            ),
        }
    }

    fn value_frame(frames: &Vec<Frame>) -> (r: Result<Vec<u8>, Error>)
        ensures
            match value_of(array_views(frames)) {
                Ok(t) => r matches Ok(v) && v@ == t,
                Err(ev) => r matches Err(e) && e@ == ev,
            },
    {
        if frames.len() < 3 {
            return Err(Error::CommandParse(String::from_str("empty value")));
        }
        match &frames[2] {
            Frame::BulkString(value) => Ok(slice_to_vec(value.as_slice())),
            third => Err(
                protocol_with_frame("protocol error; expected value as bulk string, got ", third),
            ),
        }
    }
}

/// Reading back the request frame of a command gives the command.
pub proof fn lemma_command_round_trip(c: CommandView)
    ensures
        command_of(request_frame(c)) == Ok::<CommandView, ErrorView>(c),
{
    broadcast use {encode_utf8_valid_utf8, encode_utf8_decode_utf8};

    reveal_strlit("get");
    reveal_strlit("set");
    reveal_strlit("delete");
    reveal_strlit("all");
    reveal_strlit("len");
    reveal_strlit("ping");
    assert("get"@[0] != "set"@[0] && "get"@[0] != "delete"@[0]);
    assert("set"@[0] != "delete"@[0] && "set"@[0] != "all"@[0]);
    assert("delete"@[0] != "all"@[0] && "delete"@[0] != "len"@[0]);
    assert("all"@[0] != "len"@[0] && "all"@[0] != "ping"@[0]);
    assert("len"@[0] != "ping"@[0] && "get"@[0] != "all"@[0]);
    assert("get"@[0] != "len"@[0] && "get"@[0] != "ping"@[0]);
    assert("set"@[0] != "len"@[0] && "set"@[0] != "ping"@[0]);
    assert("delete"@[0] != "ping"@[0]);
}

} // verus!
