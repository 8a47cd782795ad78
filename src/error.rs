use vstd::prelude::*;

verus! {

/// The kinds of failure the cache reports.
#[derive(Debug, Clone, PartialEq)]
pub enum Error {
    /// Reading from the socket failed, or the peer closed it mid-frame.
    SocketRead(String),
    /// Writing to the socket failed.
    SocketWrite(String),
    /// Not a failure: the buffer does not yet hold a whole frame.
    Incomplete,
    /// Malformed bytes, an unknown tag, or a frame that cannot be written.
    Protocol(String),
    /// A well-formed frame that names no command, or lacks an argument.
    CommandParse(String),
    /// The store refused the operation.
    Storage(String),
}

pub type CashError = Error;

/// The mathematical value of an error.
pub enum ErrorView {
    SocketRead(Seq<char>),
    SocketWrite(Seq<char>),
    Incomplete,
    Protocol(Seq<char>),
    CommandParse(Seq<char>),
    Storage(Seq<char>),
}

impl View for Error {
    type V = ErrorView;

    open spec fn view(&self) -> ErrorView {
        match self {
            Error::SocketRead(m) => ErrorView::SocketRead(m@),
            Error::SocketWrite(m) => ErrorView::SocketWrite(m@),
            Error::Incomplete => ErrorView::Incomplete,
            Error::Protocol(m) => ErrorView::Protocol(m@),
            Error::CommandParse(m) => ErrorView::CommandParse(m@),
            Error::Storage(m) => ErrorView::Storage(m@),
        }
    }
}

impl Error {
    /// The message the error carries (empty for `Incomplete`).
    pub fn message(&self) -> (r: String)
        ensures
            r@ == self.message_spec(),
    {
        match self {
            Error::SocketRead(m) => m.as_str().to_string(),
            Error::SocketWrite(m) => m.as_str().to_string(),
            Error::Incomplete => "".to_string(),
            Error::Protocol(m) => m.as_str().to_string(),
            Error::CommandParse(m) => m.as_str().to_string(),
            Error::Storage(m) => m.as_str().to_string(),
        }
    }

    pub open spec fn message_spec(&self) -> Seq<char> {
        match self {
            Error::SocketRead(m) => m@,
            Error::SocketWrite(m) => m@,
            Error::Incomplete => ""@,
            Error::Protocol(m) => m@,
            Error::CommandParse(m) => m@,
            Error::Storage(m) => m@,
        }
    }
}

} // verus!
