//! Laws of the codec, proved over `parse` and `encode`.

use vstd::prelude::*;
use vstd::utf8::*;
use crate::encode::{crlf, encodable, encode, encode_value, encode_values};
use crate::frame::{FrameView, Parsed, ParsedItems, crlf_at, crlf_from, line_end, parse, parse_items, type_byte_message};
use crate::text::{all_digits, decimal_digits, decimal_of, lemma_decimal_digits, lemma_decimal_of_digits};

verus! {

broadcast use {encode_utf8_valid_utf8, encode_utf8_decode_utf8};

/// No CR or LF byte.
pub open spec fn no_line_break(b: Seq<u8>) -> bool {
    forall|i: int| 0 <= i < b.len() ==> #[trigger] b[i] != 13 && b[i] != 10
}

/// A frame as the data model allows it: text without line breaks, and
/// lengths that fit in 64 bits.
pub open spec fn value_wf(f: FrameView) -> bool {
    match f {
        FrameView::Simple(s) => no_line_break(encode_utf8(s)),
        FrameView::Error(s) => no_line_break(encode_utf8(s)),
        FrameView::Bulk(b) => b.len() <= u64::MAX,
        FrameView::Array(_) => false,
        _ => true,
    }
}

pub open spec fn frame_wf(f: FrameView) -> bool {
    match f {
        FrameView::Array(items) => items.len() <= u64::MAX && forall|i: int|
            0 <= i < items.len() ==> value_wf(#[trigger] items[i]),
        _ => value_wf(f),
    }
}

proof fn lemma_first_crlf(p: Seq<u8>, rest: Seq<u8>, k: nat)
    requires
        k <= p.len(),
        forall|i: int| 0 <= i < p.len() ==> #[trigger] p[i] != 13,
    ensures
        crlf_from(p + crlf() + rest, k) == Some(p.len()),
    decreases p.len() - k,
{
    let s = p + crlf() + rest;
    if k < p.len() {
        assert(s[k as int] == p[k as int]);
        lemma_first_crlf(p, rest, k + 1);
    } else {
        assert(s[k as int] == 13 && s[k as int + 1] == 10);
    }
}

proof fn lemma_digits_no_cr(n: nat)
    ensures
        forall|i: int| 0 <= i < decimal_digits(n).len() ==> #[trigger] decimal_digits(n)[i] != 13,
        decimal_digits(n)[0] != 45,
{
    lemma_decimal_digits(n);
    assert(all_digits(decimal_digits(n)));
}

proof fn lemma_concat_first(items: Seq<FrameView>)
    requires
        items.len() > 0,
    ensures
        encode_values(items) == encode_value(items[0]) + encode_values(items.drop_first()),
    decreases items.len(),
{
    if items.len() == 1 {
        assert(items.drop_first() =~= Seq::<FrameView>::empty());
        assert(items.drop_last() =~= Seq::<FrameView>::empty());
        assert(encode_values(items) =~= encode_value(items[0]) + encode_values(items.drop_first()));
    } else {
        lemma_concat_first(items.drop_last());
        assert(items.drop_last().drop_first() =~= items.drop_first().drop_last());
        assert(encode_values(items) =~= encode_value(items[0]) + encode_values(items.drop_first()));
    }
}

proof fn lemma_value_round_trip(f: FrameView, rest: Seq<u8>)
    requires
        value_wf(f),
    ensures
        parse(encode_value(f) + rest) == Parsed::Done(f, encode_value(f).len()),
{
    let s = encode_value(f) + rest;
    let t = s.drop_first();
    match f {
        FrameView::Simple(c) => {
            let e = encode_utf8(c);
            assert(t =~= e + crlf() + rest);
            lemma_first_crlf(e, rest, 0);
            assert(t.take(e.len() as int) =~= e);
        },
        FrameView::Error(c) => {
            let e = encode_utf8(c);
            assert(t =~= e + crlf() + rest);
            lemma_first_crlf(e, rest, 0);
            assert(t.take(e.len() as int) =~= e);
        },
        FrameView::Integer(n) => {
            let d = decimal_digits(n as nat);
            assert(t =~= d + crlf() + rest);
            lemma_digits_no_cr(n as nat);
            lemma_first_crlf(d, rest, 0);
            assert(t.take(d.len() as int) =~= d);
            lemma_decimal_of_digits(n);
        },
        FrameView::Bulk(b) => {
            let d = decimal_digits(b.len());
            assert(t =~= d + crlf() + (b + crlf() + rest));
            lemma_digits_no_cr(b.len());
            lemma_first_crlf(d, b + crlf() + rest, 0);
            assert(t.take(d.len() as int) =~= d);
            lemma_decimal_of_digits(b.len() as u64);
            let r = t.skip(d.len() as int + 2);
            assert(r =~= b + crlf() + rest);
            assert(r.take(b.len() as int) =~= b);
            assert(crlf_at(r, b.len() as int));
            assert(t[0] == d[0]);
        },
        FrameView::Null => {
            assert(t =~= seq![45u8, 49u8] + crlf() + rest);
            lemma_first_crlf(seq![45u8, 49u8], rest, 0);
            assert(t.take(2) =~= seq![45u8, 49u8]);
        },
        FrameView::Array(_) => {},
    }
}

proof fn lemma_items_round_trip(items: Seq<FrameView>, rest: Seq<u8>)
    requires
        forall|i: int| 0 <= i < items.len() ==> value_wf(#[trigger] items[i]),
    ensures
        parse_items(encode_values(items) + rest, items.len()) == ParsedItems::Done(
            items,
            encode_values(items).len(),
        ),
    decreases items.len(),
{
    let s = encode_values(items) + rest;
    if items.len() == 0 {
        assert(items =~= Seq::<FrameView>::empty());
    } else {
        lemma_concat_first(items);
        let tail = items.drop_first();
        let head = encode_value(items[0]);
        assert(s =~= head + (encode_values(tail) + rest));
        lemma_value_round_trip(items[0], encode_values(tail) + rest);
        assert(s.skip(head.len() as int) =~= encode_values(tail) + rest);
        assert(forall|i: int| 0 <= i < tail.len() ==> #[trigger] tail[i] == items[i + 1]);
        lemma_items_round_trip(tail, rest);
        assert(seq![items[0]] + tail =~= items);
    }
}

/// Writing a frame and reading the bytes back gives the same frame, and
/// the reader takes exactly the bytes written, whatever follows them.
pub proof fn lemma_round_trip(f: FrameView, rest: Seq<u8>)
    requires
        frame_wf(f),
    ensures
        encodable(f),
        parse(encode(f) + rest) == Parsed::Done(f, encode(f).len()),
{
    match f {
        FrameView::Array(items) => {
            let s = encode(f) + rest;
            let t = s.drop_first();
            let d = decimal_digits(items.len());
            let body = encode_values(items);
            assert(t =~= d + crlf() + (body + rest));
            lemma_digits_no_cr(items.len());
            lemma_first_crlf(d, body + rest, 0);
            assert(t.take(d.len() as int) =~= d);
            lemma_decimal_of_digits(items.len() as u64);
            assert(t.skip(d.len() as int + 2) =~= body + rest);
            lemma_items_round_trip(items, rest);
        },
        _ => {
            lemma_value_round_trip(f, rest);
        },
    }
}

/// A byte stream that starts with a byte other than `+ - : $ *` is a
/// protocol error, whatever follows.
pub proof fn lemma_unknown_tag(s: Seq<u8>)
    requires
        s.len() > 0,
        s[0] != 43 && s[0] != 45 && s[0] != 58 && s[0] != 36 && s[0] != 42,
    ensures
        parse(s) == Parsed::Invalid(type_byte_message(s[0])),
{
}

/// A bulk string whose header says `n` is read from exactly `n` payload
/// bytes and a CRLF after the header line.
pub proof fn lemma_bulk_length(s: Seq<u8>, f: FrameView, k: nat)
    requires
        s.len() > 0,
        s[0] == 36,
        parse(s) == Parsed::Done(f, k),
        f is Bulk,
    ensures
        line_end(s.drop_first()) is Some,
        ({
            let i = line_end(s.drop_first())->0 as int;
            let n = f->Bulk_0.len() as int;
            &&& decimal_of(s.drop_first().take(i as int)) == Some(n as u64)
            &&& k == 1 + i + 2 + n + 2
            &&& f->Bulk_0 == s.subrange(1 + i + 2, 1 + i + 2 + n)
            &&& crlf_at(s, 1 + i + 2 + n)
        }),
{
    let t = s.drop_first();
    crate::frame::lemma_crlf_from(t, 0);
    let i = line_end(t)->0 as int;
    let rest = t.skip(i + 2);
    let n = f->Bulk_0.len() as int;
    assert(rest.take(n) =~= s.subrange(1 + i + 2, 1 + i + 2 + n));
    assert(rest[n] == s[1 + i + 2 + n]);
    assert(rest[n + 1] == s[1 + i + 2 + n + 1]);
}

proof fn lemma_crlf_none(t: Seq<u8>, i: nat)
    requires
        forall|m: int| i <= m && m + 1 < t.len() ==> !#[trigger] crlf_at(t, m),
    ensures
        crlf_from(t, i) is None,
    decreases t.len() - i,
{
    if i + 1 < t.len() {
        lemma_crlf_none(t, i + 1);
    }
}

/// A line that is cut before its LF has no line end yet.
proof fn lemma_cut_line(p: Seq<u8>, rest: Seq<u8>, j: int)
    requires
        0 <= j <= p.len() + 1,
        forall|i: int| 0 <= i < p.len() ==> #[trigger] p[i] != 13,
    ensures
        line_end((p + crlf() + rest).take(j)) is None,
{
    let t = (p + crlf() + rest).take(j);
    assert forall|m: int| 0 <= m && m + 1 < t.len() implies !#[trigger] crlf_at(t, m) by {
        assert(t[m] == p[m]);
    }
    lemma_crlf_none(t, 0);
}

proof fn lemma_value_prefix(f: FrameView, k: int)
    requires
        value_wf(f),
        0 <= k < encode_value(f).len(),
    ensures
        parse(encode_value(f).take(k)) == Parsed::Incomplete,
{
    let s = encode_value(f).take(k);
    if k == 0 {
        return;
    }
    let t = s.drop_first();
    match f {
        FrameView::Simple(c) => {
            let e = encode_utf8(c);
            assert(t =~= (e + crlf() + seq![]).take(k - 1));
            lemma_cut_line(e, seq![], k - 1);
        },
        FrameView::Error(c) => {
            let e = encode_utf8(c);
            assert(t =~= (e + crlf() + seq![]).take(k - 1));
            lemma_cut_line(e, seq![], k - 1);
        },
        FrameView::Integer(n) => {
            let d = decimal_digits(n as nat);
            lemma_digits_no_cr(n as nat);
            assert(t =~= (d + crlf() + seq![]).take(k - 1));
            lemma_cut_line(d, seq![], k - 1);
        },
        FrameView::Null => {
            let m = seq![45u8, 49u8];
            assert(t =~= (m + crlf() + seq![]).take(k - 1));
            lemma_cut_line(m, seq![], k - 1);
        },
        FrameView::Bulk(b) => {
            let d = decimal_digits(b.len());
            lemma_digits_no_cr(b.len());
            let tail = b + crlf();
            if k - 1 <= d.len() + 1 {
                assert(t =~= (d + crlf() + tail).take(k - 1));
                lemma_cut_line(d, tail, k - 1);
            } else {
                let cut = tail.take(k - 1 - d.len() - 2);
                assert(t =~= d + crlf() + cut);
                lemma_first_crlf(d, cut, 0);
                assert(t.take(d.len() as int) =~= d);
                lemma_decimal_of_digits(b.len() as u64);
                assert(t.skip(d.len() as int + 2) =~= cut);
                assert(t[0] == d[0]);
            }
        },
        FrameView::Array(_) => {},
    }
}

proof fn lemma_items_prefix(items: Seq<FrameView>, j: int)
    requires
        forall|i: int| 0 <= i < items.len() ==> value_wf(#[trigger] items[i]),
        0 <= j < encode_values(items).len(),
    ensures
        parse_items(encode_values(items).take(j), items.len()) == ParsedItems::Incomplete,
    decreases items.len(),
{
    lemma_concat_first(items);
    let tail = items.drop_first();
    let head = encode_value(items[0]);
    let c = encode_values(items);
    let u = c.take(j);
    if j < head.len() {
        assert(u =~= head.take(j));
        lemma_value_prefix(items[0], j);
    } else {
        let cut = encode_values(tail).take(j - head.len());
        assert(u =~= head + cut);
        lemma_value_round_trip(items[0], cut);
        assert(u.skip(head.len() as int) =~= cut);
        assert(forall|i: int| 0 <= i < tail.len() ==> #[trigger] tail[i] == items[i + 1]);
        lemma_items_prefix(tail, j - head.len());
    }
}

/// Bytes of a frame cut anywhere before their end read as `Incomplete`;
/// once the rest arrives they read as the frame.
pub proof fn lemma_incremental(f: FrameView, a: Seq<u8>, b: Seq<u8>)
    requires
        frame_wf(f),
        encode(f) == a + b,
        b.len() > 0,
    ensures
        parse(a) == Parsed::Incomplete,
        parse(a + b) == Parsed::Done(f, encode(f).len()),
{
    let k = a.len() as int;
    assert(a =~= encode(f).take(k));
    lemma_round_trip(f, seq![]);
    assert(encode(f) + seq![] =~= encode(f));
    match f {
        FrameView::Array(items) => {
            if k > 0 {
                let s = encode(f).take(k);
                let t = s.drop_first();
                let d = decimal_digits(items.len());
                let body = encode_values(items);
                lemma_digits_no_cr(items.len());
                if k - 1 <= d.len() + 1 {
                    assert(t =~= (d + crlf() + body).take(k - 1));
                    lemma_cut_line(d, body, k - 1);
                } else {
                    let cut = body.take(k - 1 - d.len() - 2);
                    assert(t =~= d + crlf() + cut);
                    lemma_first_crlf(d, cut, 0);
                    assert(t.take(d.len() as int) =~= d);
                    lemma_decimal_of_digits(items.len() as u64);
                    assert(t.skip(d.len() as int + 2) =~= cut);
                    lemma_items_prefix(items, k - 1 - d.len() - 2);
                }
            }
        },
        _ => {
            lemma_value_prefix(f, k);
        },
    }
}

} // verus!
