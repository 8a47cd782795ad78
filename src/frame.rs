//! Frames and the resumable parser that reads them from a byte buffer.
//!
//! `parse` states the wire grammar over a byte sequence. It tells a whole
//! frame (and how many bytes it takes) from input that is merely short
//! (`Incomplete`) and from input that can never become a frame (`Invalid`).

use vstd::prelude::*;
use vstd::utf8::*;
use crate::error::Error;
use vstd::slice::{slice_subrange, slice_to_vec};
use vstd::string::StringExecFns;
use crate::text::{decimal, decimal_of, decimal_digits, decimal_string, string_from_utf8, utf8_error_text};

verus! {

/// One message on the wire.
#[derive(Debug, PartialEq)]
pub enum Frame {
    Simple(String),
    Error(String),
    Integer(u64),
    BulkString(Vec<u8>),
    Null,
    Array(Vec<Frame>),
}

/// The mathematical value of a frame.
pub enum FrameView {
    Simple(Seq<char>),
    Error(Seq<char>),
    Integer(u64),
    Bulk(Seq<u8>),
    Null,
    Array(Seq<FrameView>),
}

pub open spec fn frame_view(f: &Frame) -> FrameView
    decreases f,
{
    match f {
        Frame::Simple(s) => FrameView::Simple(s@),
        Frame::Error(s) => FrameView::Error(s@),
        Frame::Integer(n) => FrameView::Integer(*n),
        Frame::BulkString(b) => FrameView::Bulk(b@),
        Frame::Null => FrameView::Null,
        Frame::Array(v) => FrameView::Array(
            Seq::new(
                v.len() as nat,
                |i: int|
                    if 0 <= i < v.len() {
                        frame_view(&v[i])
                    } else {
                        FrameView::Null
                    },
            ),
        ),
    }
}

impl View for Frame {
    type V = FrameView;

    open spec fn view(&self) -> FrameView {
        frame_view(self)
    }
}

/// What the grammar makes of a byte sequence.
pub enum Parsed {
    /// A whole frame, and the number of bytes it takes.
    Done(FrameView, nat),
    /// The bytes are a prefix of something that may still become a frame.
    Incomplete,
    /// The bytes can never start a frame; the protocol error's text.
    Invalid(Seq<char>),
}

/// What the grammar makes of a run of frames (the elements of an array).
pub enum ParsedItems {
    Done(Seq<FrameView>, nat),
    Incomplete,
    Invalid(Seq<char>),
}

pub open spec fn decimal_format_message() -> Seq<char> {
    "protocol error; invalid decimal frame format"@
}

pub open spec fn frame_format_message() -> Seq<char> {
    "protocol error; invalid frame format"@
}

pub open spec fn type_byte_message(b: u8) -> Seq<char> {
    "protocol error; invalid frame type byte `"@ + decode_utf8(decimal_digits(b as nat)) + "`"@
}

pub open spec fn crlf_at(s: Seq<u8>, i: int) -> bool {
    0 <= i && i + 1 < s.len() && s[i] == 13 && s[i + 1] == 10
}

/// Index of the first CRLF pair at or after `i`.
pub open spec fn crlf_from(s: Seq<u8>, i: nat) -> Option<nat>
    decreases s.len() - i,
{
    if i + 1 >= s.len() {
        None
    } else if crlf_at(s, i as int) {
        Some(i)
    } else {
        crlf_from(s, i + 1)
    }
}

/// Where the line at the start of `s` ends (the index of its CR).
pub open spec fn line_end(s: Seq<u8>) -> Option<nat> {
    crlf_from(s, 0)
}

pub proof fn lemma_crlf_from(s: Seq<u8>, k: nat)
    ensures
        match crlf_from(s, k) {
            Some(i) => k <= i && i + 1 < s.len() && crlf_at(s, i as int),
            None => true,
        },
    decreases s.len() - k,
{
    if k + 1 < s.len() && !crlf_at(s, k as int) {
        lemma_crlf_from(s, k + 1);
    }
}

pub open spec fn shift(p: Parsed, k: nat) -> Parsed {
    match p {
        Parsed::Done(f, n) => Parsed::Done(f, n + k),
        _ => p,
    }
}

/// A CRLF-terminated UTF-8 line: the payload of a simple string or an error.
pub open spec fn text_line(t: Seq<u8>, simple: bool) -> Parsed {
    match line_end(t) {
        None => Parsed::Incomplete,
        Some(i) => {
            let l = t.take(i as int);
            if !valid_utf8(l) {
                Parsed::Invalid(utf8_error_text(l))
            } else if simple {
                Parsed::Done(FrameView::Simple(decode_utf8(l)), i + 2)
            } else {
                Parsed::Done(FrameView::Error(decode_utf8(l)), i + 2)
            }
        },
    }
}

pub open spec fn integer_line(t: Seq<u8>) -> Parsed {
    match line_end(t) {
        None => Parsed::Incomplete,
        Some(i) => match decimal_of(t.take(i as int)) {
            None => Parsed::Invalid(decimal_format_message()),
            Some(n) => Parsed::Done(FrameView::Integer(n), i + 2),
        },
    }
}

/// A length line, then that many bytes and a CRLF; or the line `-1`.
pub open spec fn bulk_body(t: Seq<u8>) -> Parsed {
    if t.len() == 0 {
        Parsed::Incomplete
    } else {
        match line_end(t) {
            None => Parsed::Incomplete,
            Some(i) => {
                let l = t.take(i as int);
                if t[0] == 45 {
                    if l == seq![45u8, 49u8] {
                        Parsed::Done(FrameView::Null, i + 2)
                    } else {
                        Parsed::Invalid(frame_format_message())
                    }
                } else {
                    match decimal_of(l) {
                        None => Parsed::Invalid(decimal_format_message()),
                        Some(n) => {
                            let rest = t.skip((i + 2) as int);
                            if rest.len() < n + 2 {
                                Parsed::Incomplete
                            } else if crlf_at(rest, n as int) {
                                Parsed::Done(FrameView::Bulk(rest.take(n as int)), (i + 2 + n + 2) as nat)
                            } else {
                                Parsed::Incomplete
                            }
                        },
                    }
                }
            },
        }
    }
}

/// The frame at the start of `s`.
pub open spec fn parse(s: Seq<u8>) -> Parsed
    decreases s.len(), 0nat, 0nat,
{
    if s.len() == 0 {
        Parsed::Incomplete
    } else {
        let t = s.drop_first();
        if s[0] == 43 {
            shift(text_line(t, true), 1)
        } else if s[0] == 45 {
            shift(text_line(t, false), 1)
        } else if s[0] == 58 {
            shift(integer_line(t), 1)
        } else if s[0] == 36 {
            shift(bulk_body(t), 1)
        } else if s[0] == 42 {
            match line_end(t) {
                None => Parsed::Incomplete,
                Some(i) => match decimal_of(t.take(i as int)) {
                    None => Parsed::Invalid(decimal_format_message()),
                    Some(n) => if i + 2 <= t.len() {
                        match parse_items(t.skip((i + 2) as int), n as nat) {
                            ParsedItems::Done(fs, k) => Parsed::Done(FrameView::Array(fs), 1 + i + 2 + k),
                            ParsedItems::Incomplete => Parsed::Incomplete,
                            ParsedItems::Invalid(m) => Parsed::Invalid(m),
                        }
                    } else {
                        Parsed::Incomplete
                    },
                },
            }
        } else {
            Parsed::Invalid(type_byte_message(s[0]))
        }
    }
}

/// `n` frames back to back at the start of `s`.
pub open spec fn parse_items(s: Seq<u8>, n: nat) -> ParsedItems
    decreases s.len(), 1nat, n,
{
    if n == 0 {
        ParsedItems::Done(seq![], 0)
    } else {
        match parse(s) {
            Parsed::Done(f, k) => if k <= s.len() {
                match parse_items(s.skip(k as int), (n - 1) as nat) {
                    ParsedItems::Done(fs, k2) => ParsedItems::Done(seq![f] + fs, k + k2),
                    ParsedItems::Incomplete => ParsedItems::Incomplete,
                    ParsedItems::Invalid(m) => ParsedItems::Invalid(m),
                }
            } else {
                ParsedItems::Incomplete
            },
            Parsed::Incomplete => ParsedItems::Incomplete,
            Parsed::Invalid(m) => ParsedItems::Invalid(m),
        }
    }
}

/// `r` is what `p` says, for a parse that started at `pos`.
pub open spec fn agrees(r: Result<(Frame, usize), Error>, p: Parsed, pos: int) -> bool {
    match p {
        Parsed::Done(f, k) => match r {
            Ok((g, e)) => g@ == f && e == pos + k,
            Err(_) => false,
        },
        Parsed::Incomplete => r matches Err(Error::Incomplete),
        Parsed::Invalid(m) => match r {
            Err(Error::Protocol(x)) => x@ == m,
            _ => false,
        },
    }
}

pub open spec fn prepend(fs: Seq<FrameView>, k: nat, r: ParsedItems) -> ParsedItems {
    match r {
        ParsedItems::Done(gs, k2) => ParsedItems::Done(fs + gs, k + k2),
        _ => r,
    }
}

pub open spec fn views(v: Seq<Frame>) -> Seq<FrameView> {
    Seq::new(v.len(), |i: int| v[i]@)
}

/// Whether two bytes are a CR followed by an LF.
pub fn next_crlf(current: u8, next: u8) -> (r: bool)
    ensures
        r == (current == 13 && next == 10),
{
    current == 13 && next == 10
}

/// The index of the first CRLF at or after `start`.
fn find_crlf(buf: &Vec<u8>, start: usize) -> (r: Option<usize>)
    requires
        start <= buf@.len(),
    ensures
        match line_end(buf@.skip(start as int)) {
            None => r is None,
            Some(i) => r matches Some(e) && e == start + i,
        },
{
    let ghost s = buf@.skip(start as int);
    let mut j: usize = start;
    while buf.len() - j >= 2
        invariant
            start <= j <= buf@.len(),
            s == buf@.skip(start as int),
            line_end(s) == crlf_from(s, (j - start) as nat),
        decreases buf@.len() - j,
    {
        assert(s[j - start] == buf@[j as int] && s[j - start + 1] == buf@[j + 1]);
        if next_crlf(buf[j], buf[j + 1]) {
            return Some(j);
        }
        j = j + 1;
    }
    None
}

/// The line that starts at `p`: its bytes and the position after its CRLF.
fn line_at(buf: &Vec<u8>, p: usize) -> (r: Option<(Vec<u8>, usize)>)
    requires
        p <= buf@.len(),
    ensures
        match line_end(buf@.skip(p as int)) {
            None => r is None,
            Some(i) => r matches Some((l, q)) && l@ == buf@.skip(p as int).take(i as int) && q == p + i + 2
                && q <= buf@.len(),
        },
{
    proof {
        lemma_crlf_from(buf@.skip(p as int), 0);
    }
    match find_crlf(buf, p) {
        None => None,
        Some(e) => {
            assert(buf@.len() == buf.len());
            let l = slice_to_vec(slice_subrange(buf.as_slice(), p, e));
            assert(l@ =~= buf@.skip(p as int).take(e - p));
            Some((l, e + 2))
        },
    }
}

fn text_frame(buf: &Vec<u8>, p: usize, simple: bool) -> (r: Result<(Frame, usize), Error>)
    requires
        p <= buf@.len(),
    ensures
        agrees(r, text_line(buf@.skip(p as int), simple), p as int),
        r matches Ok((_, e)) ==> e <= buf@.len(),
{
    match line_at(buf, p) {
        None => Err(Error::Incomplete),
        Some((l, q)) => match string_from_utf8(l) {
            Ok(s) => if simple {
                Ok((Frame::Simple(s), q))
            } else {
                Ok((Frame::Error(s), q))
            },
            Err(m) => Err(Error::Protocol(m)),
        },
    }
}

fn decimal_message() -> (r: String)
    ensures
        r@ == decimal_format_message(),
{
    String::from_str("protocol error; invalid decimal frame format")
}

fn integer_frame(buf: &Vec<u8>, p: usize) -> (r: Result<(Frame, usize), Error>)
    requires
        p <= buf@.len(),
    ensures
        agrees(r, integer_line(buf@.skip(p as int)), p as int),
        r matches Ok((_, e)) ==> e <= buf@.len(),
{
    match line_at(buf, p) {
        None => Err(Error::Incomplete),
        Some((l, q)) => match decimal(l.as_slice()) {
            Some(n) => Ok((Frame::Integer(n), q)),
            None => Err(Error::Protocol(decimal_message())),
        },
    }
}

fn bulk_frame(buf: &Vec<u8>, p: usize) -> (r: Result<(Frame, usize), Error>)
    requires
        p <= buf@.len(),
    ensures
        agrees(r, bulk_body(buf@.skip(p as int)), p as int),
        r matches Ok((_, e)) ==> e <= buf@.len(),
{
    let ghost t = buf@.skip(p as int);
    if p == buf.len() {
        return Err(Error::Incomplete);
    }
    let negative = buf[p] == 45;
    assert(t[0] == buf@[p as int]);
    proof {
        lemma_crlf_from(t, 0);
    }
    match line_at(buf, p) {
        None => Err(Error::Incomplete),
        Some((l, q)) => {
            if negative {
                if l.len() == 2 && l[0] == 45 && l[1] == 49 {
                    assert(l@ =~= seq![45u8, 49u8]);
                    Ok((Frame::Null, q))
                } else {
                    assert(l@ != seq![45u8, 49u8]);
                    Err(Error::Protocol(String::from_str("protocol error; invalid frame format")))
                }
            } else {
                match decimal(l.as_slice()) {
                    None => Err(Error::Protocol(decimal_message())),
                    Some(n) => {
                        let ghost rest = t.skip((q - p) as int);
                        assert(rest =~= buf@.skip(q as int));
                        let avail = buf.len() - q;
                        if avail < 2 || ((avail - 2) as u64) < n {
                            return Err(Error::Incomplete);
                        }
                        let len = n as usize;
                        let end = q + len;
                        assert(rest[len as int] == buf@[end as int]);
                        assert(rest[len + 1] == buf@[end + 1]);
                        if next_crlf(buf[end], buf[end + 1]) {
                            let data = slice_to_vec(slice_subrange(buf.as_slice(), q, end));
                            assert(data@ =~= rest.take(len as int));
                            Ok((Frame::BulkString(data), end + 2))
                        } else {
                            Err(Error::Incomplete)
                        }
                    },
                }
            }
        },
    }
}

/// The frame that starts at `pos`, and the position after it.
pub(crate) fn frame_at(buf: &Vec<u8>, pos: usize) -> (r: Result<(Frame, usize), Error>)
    requires
        pos <= buf@.len(),
    ensures
        agrees(r, parse(buf@.skip(pos as int)), pos as int),
        r matches Ok((_, e)) ==> pos < e <= buf@.len(),
    decreases buf@.len() - pos,
{
    let ghost s = buf@.skip(pos as int);
    if pos == buf.len() {
        return Err(Error::Incomplete);
    }
    assert(s.drop_first() =~= buf@.skip(pos + 1));
    let tag = buf[pos];
    assert(s[0] == tag);
    if tag == 43 {
        text_frame(buf, pos + 1, true)
    } else if tag == 45 {
        text_frame(buf, pos + 1, false)
    } else if tag == 58 {
        integer_frame(buf, pos + 1)
    } else if tag == 36 {
        bulk_frame(buf, pos + 1)
    } else if tag == 42 {
        array_frame(buf, pos + 1)
    } else {
        let mut m = String::from_str("protocol error; invalid frame type byte `");
        let d = decimal_string(tag as u64);
        m.append(d.as_str());
        m.append("`");
        Err(Error::Protocol(m))
    }
}

/// An array whose `*` tag stands at `p - 1`.
fn array_frame(buf: &Vec<u8>, p: usize) -> (r: Result<(Frame, usize), Error>)
    requires
        1 <= p <= buf@.len(),
        buf@[p - 1] == 42,
    ensures
        agrees(r, parse(buf@.skip(p - 1)), p - 1),
        r matches Ok((_, e)) ==> p < e <= buf@.len(),
    decreases buf@.len() - p,
{
    let ghost s = buf@.skip(p - 1);
    let ghost t = buf@.skip(p as int);
    assert(s.drop_first() =~= t);
    proof {
        lemma_crlf_from(t, 0);
    }
    match line_at(buf, p) {
        None => Err(Error::Incomplete),
        Some((l, q)) => match decimal(l.as_slice()) {
            None => Err(Error::Protocol(decimal_message())),
            Some(n) => {
                let ghost u = buf@.skip(q as int);
                assert(t.skip((q - p) as int) =~= u);
                assert(parse(s) == match parse_items(u, n as nat) {
                    ParsedItems::Done(fs, k) => Parsed::Done(FrameView::Array(fs), (1 + (q - p) + k) as nat),
                    ParsedItems::Incomplete => Parsed::Incomplete,
                    ParsedItems::Invalid(m) => Parsed::Invalid(m),
                });
                let mut arr: Vec<Frame> = Vec::new();
                let mut cur: usize = q;
                let mut j: u64 = 0;
                while j < n
                    invariant
                        q <= cur <= buf@.len(),
                        p < q,
                        j <= n,
                        arr@.len() == j,
                        u == buf@.skip(q as int),
                        s == buf@.skip(p - 1),
                        parse(s) == match parse_items(u, n as nat) {
                            ParsedItems::Done(fs, k) => Parsed::Done(FrameView::Array(fs), (1 + (q - p) + k) as nat),
                            ParsedItems::Incomplete => Parsed::Incomplete,
                            ParsedItems::Invalid(m) => Parsed::Invalid(m),
                        },
                        parse_items(u, n as nat) == prepend(
                            views(arr@),
                            (cur - q) as nat,
                            parse_items(buf@.skip(cur as int), (n - j) as nat),
                        ),
                    decreases n - j,
                {
                    let ghost rest = buf@.skip(cur as int);
                    match frame_at(buf, cur) {
                        Ok((f, e)) => {
                            assert(rest.skip(e - cur) =~= buf@.skip(e as int));
                            let ghost fv = f@;
                            proof {
                                let x = parse_items(buf@.skip(e as int), (n - j - 1) as nat);
                                assert(parse_items(rest, (n - j) as nat) == prepend(
                                    seq![fv],
                                    (e - cur) as nat,
                                    x,
                                ));
                                let before = views(arr@);
                                assert(views(arr@.push(f)) =~= before.push(fv));
                                match x {
                                    ParsedItems::Done(gs, k2) => {
                                        assert(before + (seq![fv] + gs) =~= before.push(fv) + gs);
                                    },
                                    _ => {},
                                }
                            }
                            arr.push(f);
                            cur = e;
                        },
                        Err(err) => {
                            proof {
                                match parse(rest) {
                                    Parsed::Incomplete => {
                                        assert(parse_items(rest, (n - j) as nat) == ParsedItems::Incomplete);
                                        assert(parse_items(u, n as nat) == ParsedItems::Incomplete);
                                    },
                                    Parsed::Invalid(m) => {
                                        assert(parse_items(rest, (n - j) as nat) == ParsedItems::Invalid(m));
                                        assert(parse_items(u, n as nat) == ParsedItems::Invalid(m));
                                    },
                                    _ => {},
                                }
                            }
                            return Err(err);
                        },
                    }
                    j = j + 1;
                }
                assert(parse_items(buf@.skip(cur as int), 0) == ParsedItems::Done(seq![], 0));
                assert(views(arr@) + seq![] =~= views(arr@));
                let res = Frame::Array(arr);
                proof {
                    let fv = frame_view(&res);
                    if let FrameView::Array(x) = fv {
                        assert(x =~= views(arr@));
                    }
                }
                Ok((res, cur))
            },
        },
    }
}

/// A read position over a byte buffer.
pub struct Cursor {
    buf: Vec<u8>,
    pos: usize,
}

impl Cursor {
    pub closed spec fn data(&self) -> Seq<u8> {
        self.buf@
    }

    pub closed spec fn pos(&self) -> nat {
        self.pos as nat
    }

    pub open spec fn wf(&self) -> bool {
        self.pos() <= self.data().len()
    }

    /// The bytes not yet read.
    pub open spec fn rest(&self) -> Seq<u8> {
        self.data().skip(self.pos() as int)
    }

    /// A cursor at the start of `data`.
    pub fn new(data: Vec<u8>) -> (r: Cursor)
        ensures
            r.wf(),
            r.data() == data@,
            r.pos() == 0,
    {
        Cursor { buf: data, pos: 0 }
    }

    pub fn position(&self) -> (r: u64)
        ensures
            r == self.pos(),
    {
        self.pos as u64
    }

    pub fn remaining(&self) -> (r: usize)
        requires
            self.wf(),
        ensures
            r == self.rest().len(),
    {
        self.buf.len() - self.pos
    }
}

impl Frame {
    /// Reads one frame at the cursor. On success the cursor moves past it;
    /// on failure it stays where it was.
    pub fn try_frame(buff: &mut Cursor) -> (r: Result<Frame, Error>)
        requires
            old(buff).wf(),
        ensures
            final(buff).wf(),
            final(buff).data() == old(buff).data(),
            match parse(old(buff).rest()) {
                Parsed::Done(f, k) => r matches Ok(g) && g@ == f && final(buff).pos() == old(buff).pos() + k,
                Parsed::Incomplete => r matches Err(Error::Incomplete) && final(buff).pos() == old(buff).pos(),
                Parsed::Invalid(m) => r matches Err(Error::Protocol(x)) && x@ == m && final(buff).pos() == old(buff).pos(),
            },
    {
        match frame_at(&buff.buf, buff.pos) {
            Ok((f, e)) => {
                buff.pos = e;
                Ok(f)
            },
            Err(err) => Err(err),
        }
    }
}

/// Takes the next byte.
pub fn pop(buff: &mut Cursor) -> (r: Result<u8, Error>)
    requires
        old(buff).wf(),
    ensures
        final(buff).wf(),
        final(buff).data() == old(buff).data(),
        if old(buff).rest().len() == 0 {
            r matches Err(Error::Incomplete) && final(buff).pos() == old(buff).pos()
        } else {
            r == Ok::<u8, Error>(old(buff).rest()[0]) && final(buff).pos() == old(buff).pos() + 1
        },
{
    if buff.pos == buff.buf.len() {
        return Err(Error::Incomplete);
    }
    let b = buff.buf[buff.pos];
    buff.pos = buff.pos + 1;
    Ok(b)
}

/// The next byte, leaving the cursor where it is.
pub fn peek(buff: &Cursor) -> (r: Result<u8, Error>)
    requires
        buff.wf(),
    ensures
        if buff.rest().len() == 0 {
            r matches Err(Error::Incomplete)
        } else {
            r == Ok::<u8, Error>(buff.rest()[0])
        },
{
    if buff.pos == buff.buf.len() {
        return Err(Error::Incomplete);
    }
    Ok(buff.buf[buff.pos])
}

/// Takes the bytes up to the next CRLF, and the CRLF.
pub fn line(buff: &mut Cursor) -> (r: Result<Vec<u8>, Error>)
    requires
        old(buff).wf(),
    ensures
        final(buff).wf(),
        final(buff).data() == old(buff).data(),
        match line_end(old(buff).rest()) {
            None => r matches Err(Error::Incomplete) && final(buff).pos() == old(buff).pos(),
            Some(i) => r matches Ok(l) && l@ == old(buff).rest().take(i as int)
                && final(buff).pos() == old(buff).pos() + i + 2,
        },
{
    match line_at(&buff.buf, buff.pos) {
        None => Err(Error::Incomplete),
        Some((l, q)) => {
            buff.pos = q;
            Ok(l)
        },
    }
}

/// Steps over a CRLF at the cursor: `Ok(false)` where other bytes stand
/// there, `Incomplete` where fewer than two bytes are left.
pub fn skip_crlf(buff: &mut Cursor) -> (r: Result<bool, Error>)
    requires
        old(buff).wf(),
    ensures
        final(buff).wf(),
        final(buff).data() == old(buff).data(),
        if old(buff).rest().len() < 2 {
            r matches Err(Error::Incomplete) && final(buff).pos() == old(buff).pos()
        } else if crlf_at(old(buff).rest(), 0) {
            r == Ok::<bool, Error>(true) && final(buff).pos() == old(buff).pos() + 2
        } else {
            r == Ok::<bool, Error>(false) && final(buff).pos() == old(buff).pos()
        },
{
    if buff.buf.len() - buff.pos < 2 {
        return Err(Error::Incomplete);
    }
    let p = buff.pos;
    if next_crlf(buff.buf[p], buff.buf[p + 1]) {
        buff.pos = p + 2;
        Ok(true)
    } else {
        Ok(false)
    }
}

} // verus!
