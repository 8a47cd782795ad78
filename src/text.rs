//! Decimal digits and UTF-8 text: the pieces of the wire format that are
//! neither tags nor framing.

use vstd::prelude::*;
use vstd::utf8::*;

verus! {

pub open spec fn is_digit(b: u8) -> bool {
    48 <= b <= 57
}

pub open spec fn all_digits(s: Seq<u8>) -> bool {
    forall|i: int| 0 <= i < s.len() ==> is_digit(#[trigger] s[i])
}

/// The number that a string of ASCII digits spells in base ten.
pub open spec fn digits_value(s: Seq<u8>) -> nat
    decreases s.len(),
{
    if s.len() == 0 {
        0
    } else {
        digits_value(s.drop_last()) * 10 + (s.last() - 48) as nat
    }
}

/// A line read as an unsigned 64-bit decimal: one or more ASCII digits and
/// nothing else, with a value that fits.
pub open spec fn decimal_of(s: Seq<u8>) -> Option<u64> {
    if s.len() > 0 && all_digits(s) && digits_value(s) <= u64::MAX {
        Some(digits_value(s) as u64)
    } else {
        None
    }
}

/// The shortest ASCII decimal spelling of `n`.
pub open spec fn decimal_digits(n: nat) -> Seq<u8>
    decreases n,
{
    if n < 10 {
        seq![(48 + n) as u8]
    } else {
        decimal_digits(n / 10).push((48 + n % 10) as u8)
    }
}

pub proof fn lemma_decimal_digits(n: nat)
    ensures
        decimal_digits(n).len() > 0,
        all_digits(decimal_digits(n)),
        digits_value(decimal_digits(n)) == n,
    decreases n,
{
    if n >= 10 {
        lemma_decimal_digits(n / 10);
        let d = decimal_digits(n);
        assert(d.drop_last() =~= decimal_digits(n / 10));
        assert((n / 10) * 10 + n % 10 == n) by (nonlinear_arith);
        assert(d.last() as int == 48 + n % 10);
        assert(digits_value(d) == digits_value(d.drop_last()) * 10 + (d.last() - 48) as nat);
        assert(digits_value(d.drop_last()) == n / 10);
        assert(digits_value(d) == n);
    } else {
        let d = decimal_digits(n);
        assert(d.drop_last() =~= Seq::<u8>::empty());
        assert(d.last() as int == 48 + n);
        assert(digits_value(d.drop_last()) == 0);
        assert(digits_value(d) == n);
    }
}

pub proof fn lemma_decimal_of_digits(n: u64)
    ensures
        decimal_of(decimal_digits(n as nat)) == Some(n),
{
    lemma_decimal_digits(n as nat);
}

/// Digit strings are valid UTF-8.
pub proof fn lemma_digits_utf8(s: Seq<u8>)
    requires
        all_digits(s),
    ensures
        valid_utf8(s),
{
    assert forall|i: int| 0 <= i < s.len() implies #[trigger] is_leading_byte_width_1(s[i]) by {
        assert(is_digit(s[i]));
    }
    assert(partial_valid_utf8(s, 0)) by {
        assert(s.subrange(0, 0) =~= Seq::<u8>::empty());
    }
    partial_valid_utf8_extend_ascii_block(s, 0, s.len() as int);
    assert(s.subrange(0, s.len() as int) =~= s);
}

/// Relies on `atoi::atoi::<u64>`: on a line of ASCII digits alone it returns
/// their value, and `None` when that value does not fit in a `u64`.
#[verifier::external_body]
fn atoi_u64(line: &[u8]) -> (r: Option<u64>)
    requires
        line@.len() > 0,
        all_digits(line@),
    ensures
        r == (if digits_value(line@) <= u64::MAX {
            Some(digits_value(line@) as u64)
        } else {
            None::<u64>
        }),
{
    atoi::atoi::<u64>(line)
}

/// Reads a line as an unsigned decimal (see `decimal_of`).
pub fn decimal(line: &[u8]) -> (r: Option<u64>)
    ensures
        r == decimal_of(line@),
{
    if line.len() == 0 {
        return None;
    }
    let mut i: usize = 0;
    while i < line.len()
        invariant
            i <= line@.len(),
            all_digits(line@.subrange(0, i as int)),
        decreases line@.len() - i,
    {
        if line[i] < 48 || line[i] > 57 {
            assert(!all_digits(line@));
            return None;
        }
        assert(all_digits(line@.subrange(0, i + 1))) by {
            assert forall|j: int| 0 <= j < i + 1 implies is_digit(
                #[trigger] line@.subrange(0, i + 1)[j],
            ) by {
                if j < i {
                    assert(line@.subrange(0, i + 1)[j] == line@.subrange(0, i as int)[j]);
                }
            }
        }
        i = i + 1;
    }
    assert(line@.subrange(0, i as int) =~= line@);
    atoi_u64(line)
}

/// Appends the decimal spelling of `n`.
pub fn push_decimal(out: &mut Vec<u8>, n: u64)
    ensures
        final(out)@ == old(out)@ + decimal_digits(n as nat),
    decreases n,
{
    if n < 10 {
        out.push(48 + n as u8);
        assert(final(out)@ =~= old(out)@ + decimal_digits(n as nat));
    } else {
        push_decimal(out, n / 10);
        out.push(48 + (n % 10) as u8);
        assert(final(out)@ =~= old(out)@ + decimal_digits(n as nat));
    }
}

/// What `String::from_utf8` says of bytes that are not UTF-8.
pub uninterp spec fn utf8_error_text(b: Seq<u8>) -> Seq<char>;

/// Relies on `String::from_utf8`: it succeeds exactly on valid UTF-8, with
/// the decoded characters; the error's text depends on the bytes alone.
#[verifier::external_body]
pub(crate) fn string_from_utf8(b: Vec<u8>) -> (r: Result<String, String>)
    ensures
        r is Ok <==> valid_utf8(b@),
        r matches Ok(s) ==> s@ == decode_utf8(b@),
        r matches Err(m) ==> m@ == utf8_error_text(b@),
{
    match String::from_utf8(b) {
        Ok(s) => Ok(s),
        Err(e) => Err(e.to_string()),
    }
}

/// The decimal spelling of `n` as text.
pub fn decimal_string(n: u64) -> (r: String)
    ensures
        r@ == decode_utf8(decimal_digits(n as nat)),
{
    let mut digits: Vec<u8> = Vec::new();
    push_decimal(&mut digits, n);
    assert(digits@ =~= decimal_digits(n as nat));
    proof {
        lemma_decimal_digits(n as nat);
        lemma_digits_utf8(digits@);
    }
    match string_from_utf8(digits) {
        Ok(s) => s,
        Err(_) => String::new(),
    }
}

} // verus!
