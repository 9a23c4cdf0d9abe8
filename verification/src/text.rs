//! Text helpers: ASCII strings, hex rendering, percent-encoding, decimals.
use vstd::prelude::*;
use crate::bencode::{dec_digits, is_digit, u64_dec_digits};
use crate::bencode_laws::lemma_dec_digits_props;

verus! {

/// The characters of a run of ASCII bytes, one per byte.
pub open spec fn ascii_chars(bs: Seq<u8>) -> Seq<char> {
    Seq::new(bs.len(), |i: int| bs[i] as char)
}

/// The lowercase hex digit of a nibble.
pub open spec fn hex_digit_lower(n: u8) -> u8 {
    if n < 10 {
        (0x30 + n) as u8
    } else {
        (0x57 + n) as u8
    }
}

/// The uppercase hex digit of a nibble.
pub open spec fn hex_digit_upper(n: u8) -> u8 {
    if n < 10 {
        (0x30 + n) as u8
    } else {
        (0x37 + n) as u8
    }
}

/// Two lowercase hex digits per byte, high nibble first.
pub open spec fn hex_lower_bytes(bs: Seq<u8>) -> Seq<u8> {
    Seq::new(
        2 * bs.len(),
        |i: int| if i % 2 == 0 {
            hex_digit_lower(bs[i / 2] / 16)
        } else {
            hex_digit_lower(bs[i / 2] % 16)
        },
    )
}

/// Two uppercase hex digits per byte, high nibble first.
pub open spec fn hex_upper_bytes(bs: Seq<u8>) -> Seq<u8> {
    Seq::new(
        2 * bs.len(),
        |i: int| if i % 2 == 0 {
            hex_digit_upper(bs[i / 2] / 16)
        } else {
            hex_digit_upper(bs[i / 2] % 16)
        },
    )
}

/// Bytes a URL query carries verbatim: ASCII alphanumerics and `- . _ ~`.
pub open spec fn is_url_safe(b: u8) -> bool {
    (0x30 <= b && b <= 0x39) || (0x41 <= b && b <= 0x5a) || (0x61 <= b && b <= 0x7a) || b == 0x2d
        || b == 0x2e || b == 0x5f || b == 0x7e
}

/// Percent-encoding: safe bytes stay, every other byte becomes '%' and
/// two uppercase hex digits.
pub open spec fn percent_encoded(bs: Seq<u8>) -> Seq<u8>
    decreases bs.len(),
{
    if bs.len() == 0 {
        Seq::empty()
    } else {
        (if is_url_safe(bs[0]) {
            seq![bs[0]]
        } else {
            seq![0x25u8, hex_digit_upper(bs[0] / 16), hex_digit_upper(bs[0] % 16)]
        }) + percent_encoded(bs.drop_first())
    }
}

/// Relies on String::from_utf8: ASCII bytes are valid UTF-8 and decode
/// to one char per byte, so `unwrap` cannot panic on them.
#[verifier::external_body]
pub(crate) fn ascii_to_string(bytes: Vec<u8>) -> (r: String)
    requires
        forall|i: int| 0 <= i < bytes@.len() ==> bytes@[i] < 128,
    ensures
        r@ == ascii_chars(bytes@),
{
    String::from_utf8(bytes).unwrap()
}

/// Relies on String::from_utf8: it succeeds exactly when the bytes are
/// valid UTF-8, that is when some character sequence encodes to them.
#[verifier::external_body]
pub(crate) fn utf8_to_string(bytes: Vec<u8>) -> (r: Option<String>)
    ensures
        r matches Some(s) ==> vstd::utf8::encode_utf8(s@) == bytes@,
        r is None ==> !(exists|cs: Seq<char>| vstd::utf8::encode_utf8(cs) == bytes@),
{
    match String::from_utf8(bytes) {
        Ok(s) => Some(s),
        Err(_) => None,
    }
}

/// Relies on base16ct::lower::encode_string: two lowercase hex digits
/// per input byte. It panics past usize::MAX / 2 bytes, required away.
#[verifier::external_body]
pub(crate) fn hex_lower_string(data: &Vec<u8>) -> (r: String)
    requires
        data@.len() <= usize::MAX / 2,
    ensures
        r@ == ascii_chars(hex_lower_bytes(data@)),
{
    base16ct::lower::encode_string(data.as_slice())
}

/// Relies on urlencoding::encode_binary: every byte except ASCII
/// alphanumerics and `- . _ ~` becomes '%' plus two uppercase hex digits.
#[verifier::external_body]
pub(crate) fn urlencode_bytes(data: &Vec<u8>) -> (r: String)
    ensures
        r@ == ascii_chars(percent_encoded(data@)),
{
    urlencoding::encode_binary(data.as_slice()).into_owned()
}

/// The uppercase hex rendering of a byte string, two digits per byte.
pub fn bytes_to_hex_string(bytes: &Vec<u8>) -> (r: String)
    requires
        bytes@.len() <= usize::MAX / 2,
    ensures
        r@ == ascii_chars(hex_upper_bytes(bytes@)),
{
    let mut out: Vec<u8> = Vec::new();
    let mut i: usize = 0;
    while i < bytes.len()
        invariant
            i <= bytes@.len(),
            bytes@.len() <= usize::MAX / 2,
            out@ =~= hex_upper_bytes(bytes@.subrange(0, i as int)),
        decreases bytes@.len() - i,
    {
        let b = bytes[i];
        let hi = b / 16;
        let lo = b % 16;
        let d1 = if hi < 10 {
            0x30 + hi
        } else {
            0x37 + hi
        };
        let d2 = if lo < 10 {
            0x30 + lo
        } else {
            0x37 + lo
        };
        out.push(d1);
        out.push(d2);
        proof {
            assert(hex_upper_bytes(bytes@.subrange(0, i + 1))
                =~= hex_upper_bytes(bytes@.subrange(0, i as int)) + seq![d1, d2]);
        }
        i = i + 1;
    }
    proof {
        assert(bytes@.subrange(0, bytes@.len() as int) =~= bytes@);
        assert forall|k: int| 0 <= k < out@.len() implies out@[k] < 128 by {
            assert(out@[k] == hex_upper_bytes(bytes@)[k]);
        }
    }
    ascii_to_string(out)
}

/// The decimal rendering of a 64-bit value.
pub fn u64_to_string(n: u64) -> (r: String)
    ensures
        r@ == ascii_chars(dec_digits(n as nat)),
{
    let digits = u64_dec_digits(n);
    proof {
        lemma_dec_digits_props(n as nat);
        assert forall|i: int| 0 <= i < digits@.len() implies digits@[i] < 128 by {
            assert(is_digit(digits@[i]));
        }
    }
    ascii_to_string(digits)
}

} // verus!
