//! The decisions of a connection: what the read buffer keeps, and what the
//! server answers to one request. The socket work stays with the caller.

use vstd::prelude::*;
use vstd::slice::{slice_subrange, slice_to_vec};
use crate::command::{Command, command_of};
use crate::error::{Error, ErrorView};
use crate::frame::{Frame, FrameView, Parsed, frame_at, parse};
use crate::storage::{Storage, executes};

verus! {

/// The bytes read from a socket and not yet taken as a frame.
pub struct ReadBuffer {
    buffer: Vec<u8>,
}

impl View for ReadBuffer {
    type V = Seq<u8>;

    closed spec fn view(&self) -> Seq<u8> {
        self.buffer@
    }
}

impl ReadBuffer {
    pub fn new() -> (r: ReadBuffer)
        ensures
            r@ == Seq::<u8>::empty(),
    {
        ReadBuffer { buffer: Vec::with_capacity(4096) }
    }

    pub fn is_empty(&self) -> (r: bool)
        ensures
            r == (self@.len() == 0),
    {
        self.buffer.len() == 0
    }

    /// Appends bytes that a read brought.
    pub fn extend(&mut self, data: &[u8])
        ensures
            final(self)@ == old(self)@ + data@,
    {
        let mut i: usize = 0;
        while i < data.len()
            invariant
                i <= data@.len(),
                self@ == old(self)@ + data@.take(i as int),
            decreases data@.len() - i,
        {
            self.buffer.push(data[i]);
            i = i + 1;
            assert(self@ =~= old(self)@ + data@.take(i as int));
        }
        assert(data@.take(i as int) =~= data@);
    }

    /// Takes the frame at the front of the buffer, if a whole one is there:
    /// its bytes leave the buffer and the rest stays. `Ok(None)` asks for
    /// another read; a protocol error leaves the buffer as it was.
    pub fn parse_frame(&mut self) -> (r: Result<Option<Frame>, Error>)
        ensures
            match parse(old(self)@) {
                Parsed::Done(f, k) => r matches Ok(Some(g)) && g@ == f && final(self)@ == old(self)@.skip(k as int),
                Parsed::Incomplete => r matches Ok(None) && final(self)@ == old(self)@,
                Parsed::Invalid(m) => r matches Err(Error::Protocol(x)) && x@ == m && final(self)@ == old(self)@,
            },
    {
        assert(self.buffer@.skip(0) =~= self.buffer@);
        match frame_at(&self.buffer, 0) {
            Ok((f, e)) => {
                let rest = slice_to_vec(slice_subrange(self.buffer.as_slice(), e, self.buffer.len()));
                assert(rest@ =~= old(self)@.skip(e as int));
                self.buffer = rest;
                Ok(Some(f))
            },
            Err(Error::Incomplete) => Ok(None),
            Err(e) => Err(e),
        }
    }

    /// What a read loop returns when the peer closes: no frame where nothing
    /// was pending, a reset where a frame was cut short.
    pub fn end_of_stream(&self) -> (r: Result<Option<Frame>, Error>)
        ensures
            self@.len() == 0 ==> r matches Ok(None),
            self@.len() != 0 ==> (r matches Err(Error::SocketRead(m)) && m@ == "connection reset by peer"@),
    {
        if self.buffer.len() == 0 {
            Ok(None)
        } else {
            Err(Error::SocketRead("connection reset by peer".to_string()))
        }
    }
}

/// The server's answer to the outcome of reading one request.
/// `Ok(Some(f))`: write `f` and close; `Ok(None)`: close; `Err(e)`: close,
/// failing with `e`.
pub fn serve(read: Result<Option<Frame>, Error>, storage: &mut Storage) -> (r: Result<Option<Frame>, Error>)
    requires
        old(storage).wf(),
    ensures
        final(storage).wf(),
        match read {
            Err(e) => final(storage)@ == old(storage)@ && (r matches Ok(Some(f)) && f@ == FrameView::Error(e.message_spec())),
            Ok(None) => final(storage)@ == old(storage)@ && r matches Ok(None),
            Ok(Some(req)) => match command_of(req@) {
                Err(ev) => final(storage)@ == old(storage)@ && (r matches Err(e) && e@ == ev),
                Ok(c) => match r {
                    Ok(Some(resp)) => executes(c, old(storage)@, Ok(resp@), final(storage)@),
                    Err(e) => executes(c, old(storage)@, Err(e@), final(storage)@),
                    Ok(None) => false,
                },
            },
        },
{
    match read {
        Err(e) => Ok(Some(Frame::Error(e.message()))),
        Ok(None) => Ok(None),
        Ok(Some(req)) => match Command::from_frame(req) {
            Err(e) => Err(e),
            Ok(command) => match crate::storage::execute(command, storage) {
                Ok(resp) => Ok(Some(resp)),
                Err(e) => Err(e),
            },
        },
    }
}

} // verus!
