//! Writing frames as bytes.
//!
//! Only a top-level array may hold other frames, and those must be
//! scalar values: an array inside an array is refused.

use vstd::prelude::*;
use vstd::utf8::*;
use vstd::string::StringExecFns;
use crate::error::Error;
use crate::frame::{Frame, FrameView};
use crate::text::{decimal_digits, push_decimal};

verus! {

pub open spec fn crlf() -> Seq<u8> {
    seq![13u8, 10u8]
}

/// The bytes of a frame that is not an array.
pub open spec fn encode_value(f: FrameView) -> Seq<u8> {
    match f {
        FrameView::Simple(s) => seq![43u8] + encode_utf8(s) + crlf(),
        FrameView::Error(s) => seq![45u8] + encode_utf8(s) + crlf(),
        FrameView::Integer(n) => seq![58u8] + decimal_digits(n as nat) + crlf(),
        FrameView::Bulk(b) => seq![36u8] + decimal_digits(b.len()) + crlf() + b + crlf(),
        FrameView::Null => seq![36u8, 45u8, 49u8, 13u8, 10u8],
        FrameView::Array(_) => seq![],
    }
}

/// The values of an array, one after the other.
pub open spec fn encode_values(items: Seq<FrameView>) -> Seq<u8>
    decreases items.len(),
{
    if items.len() == 0 {
        seq![]
    } else {
        encode_values(items.drop_last()) + encode_value(items.last())
    }
}

/// Whether `f` can be written: no array stands inside an array.
pub open spec fn encodable(f: FrameView) -> bool {
    match f {
        FrameView::Array(items) => forall|i: int| 0 <= i < items.len() ==> !(#[trigger] items[i] is Array),
        _ => true,
    }
}

/// The bytes of a frame.
pub open spec fn encode(f: FrameView) -> Seq<u8> {
    match f {
        FrameView::Array(items) => seq![42u8] + decimal_digits(items.len()) + crlf() + encode_values(items),
        _ => encode_value(f),
    }
}

pub open spec fn nested_array_message() -> Seq<char> {
    "nested arrays are not supported"@
}

fn push_crlf(out: &mut Vec<u8>)
    ensures
        final(out)@ == old(out)@ + crlf(),
{
    out.push(13);
    out.push(10);
    assert(final(out)@ =~= old(out)@ + crlf());
}

fn push_bytes(out: &mut Vec<u8>, b: &[u8])
    ensures
        final(out)@ == old(out)@ + b@,
{
    let mut i: usize = 0;
    while i < b.len()
        invariant
            i <= b@.len(),
            out@ == old(out)@ + b@.take(i as int),
        decreases b@.len() - i,
    {
        out.push(b[i]);
        i = i + 1;
        assert(out@ =~= old(out)@ + b@.take(i as int));
    }
    assert(b@.take(i as int) =~= b@);
}

/// Appends a frame that is not an array; an array is refused.
fn write_value(out: &mut Vec<u8>, frame: &Frame) -> (r: Result<(), Error>)
    ensures
        frame@ is Array ==> (r matches Err(Error::Protocol(m)) && m@ == nested_array_message()
            && final(out)@ == old(out)@),
        !(frame@ is Array) ==> r is Ok && final(out)@ == old(out)@ + encode_value(frame@),
{
    let ghost start = out@;
    match frame {
        Frame::Simple(val) => {
            out.push(43);
            push_bytes(out, val.as_str().as_bytes());
            push_crlf(out);
        },
        Frame::Error(val) => {
            out.push(45);
            push_bytes(out, val.as_str().as_bytes());
            push_crlf(out);
        },
        Frame::Integer(val) => {
            out.push(58);
            push_decimal(out, *val);
            push_crlf(out);
        },
        Frame::Null => {
            out.push(36);
            out.push(45);
            out.push(49);
            push_crlf(out);
        },
        Frame::BulkString(val) => {
            out.push(36);
            push_decimal(out, val.len() as u64);
            push_crlf(out);
            push_bytes(out, val.as_slice());
            push_crlf(out);
        },
        Frame::Array(_) => {
            return Err(Error::Protocol(String::from_str("nested arrays are not supported")));
        },
    }
    assert(out@ =~= start + encode_value(frame@));
    Ok(())
}

impl Frame {
    /// The bytes of this frame on the wire. An array inside an array
    /// cannot be written.
    pub fn encode(&self) -> (r: Result<Vec<u8>, Error>)
        ensures
            encodable(self@) ==> (r matches Ok(b) && b@ == encode(self@)),
            !encodable(self@) ==> (r matches Err(Error::Protocol(m)) && m@ == nested_array_message()),
    {
        let mut out: Vec<u8> = Vec::new();
        match self {
            Frame::Array(val) => {
                let ghost items = self@->Array_0;
                assert(items.len() == val@.len());
                out.push(42);
                push_decimal(&mut out, val.len() as u64);
                push_crlf(&mut out);
                let ghost header = out@;
                let mut i: usize = 0;
                while i < val.len()
                    invariant
                        i <= val@.len(),
                        items.len() == val@.len(),
                        items == self@->Array_0,
                        self@ == FrameView::Array(items),
                        forall|j: int| 0 <= j < val@.len() ==> items[j] == #[trigger] val@[j]@,
                        forall|j: int| 0 <= j < i ==> !(#[trigger] items[j] is Array),
                        out@ == header + encode_values(items.take(i as int)),
                    decreases val@.len() - i,
                {
                    let ghost before = out@;
                    match write_value(&mut out, &val[i]) {
                        Ok(()) => {},
                        Err(e) => {
                            assert(!encodable(self@));
                            return Err(e);
                        },
                    }
                    assert(items.take(i + 1).drop_last() =~= items.take(i as int));
                    i = i + 1;
                    assert(out@ =~= header + encode_values(items.take(i as int)));
                }
                assert(items.take(i as int) =~= items);
                Ok(out)
            },
            _ => {
                match write_value(&mut out, self) {
                    Ok(()) => {
                        assert(out@ =~= encode(self@));
                        Ok(out)
                    },
                    Err(e) => Err(e),
                }
            },
        }
    }
}

} // verus!
