//! Bencode values and the codec that reads and writes them.
use vstd::prelude::*;
use crate::wire::push_all;

verus! {

broadcast use vstd::std_specs::vec::group_vec_axioms;

/// Mathematical model of a bencoded value: a byte-string, a signed
/// integer, a list of values, or a dictionary of key/value pairs in
/// the order they appear in the encoding.
pub enum BValue {
    Bytes(Seq<u8>),
    Int(int),
    List(Seq<BValue>),
    Dict(Seq<(Seq<u8>, BValue)>),
}

/// The ways a bencoded input can be rejected.
#[derive(Clone, Copy, Debug, PartialEq, Eq, Structural)]
pub enum DecoderError {
    NotBencodedData,
    InvalidByteStringLength,
    InvalidByteString,
    InvalidInteger,
    DictionaryKeyIsNotAString,
    ValueNotPresentInDictionary,
    ListFormatError,
}

/// A decoded bencode value. Byte-strings stay opaque bytes: the
/// `pieces` field of a torrent is binary, not UTF-8.
pub enum Bencode {
    Bytes(Vec<u8>),
    Int(i64),
    List(Vec<Bencode>),
    Dict(Vec<(Vec<u8>, Bencode)>),
}

impl View for Bencode {
    type V = BValue;

    open spec fn view(&self) -> BValue
        decreases self,
    {
        match self {
            Bencode::Bytes(b) => BValue::Bytes(b@),
            Bencode::Int(i) => BValue::Int(*i as int),
            Bencode::List(l) => BValue::List(views_of(l@)),
            Bencode::Dict(d) => BValue::Dict(views_of_pairs(d@)),
        }
    }
}

/// The views of a sequence of decoded values.
pub open spec fn views_of(l: Seq<Bencode>) -> Seq<BValue>
    decreases l,
{
    Seq::new(l.len(), |i: int| if 0 <= i < l.len() { l[i]@ } else { arbitrary() })
}

/// The views of a sequence of decoded dictionary pairs.
pub open spec fn views_of_pairs(l: Seq<(Vec<u8>, Bencode)>) -> Seq<(Seq<u8>, BValue)>
    decreases l,
{
    Seq::new(l.len(), |i: int| if 0 <= i < l.len() { (l[i].0@, l[i].1@) } else { arbitrary() })
}

pub open spec fn is_digit(b: u8) -> bool {
    0x30 <= b && b <= 0x39
}

/// Index of the first non-digit byte at or after `pos` (or the end of `s`).
pub open spec fn scan_digits(s: Seq<u8>, pos: nat) -> nat
    decreases s.len() - pos,
{
    if pos >= s.len() {
        pos
    } else if is_digit(s[pos as int]) {
        scan_digits(s, pos + 1)
    } else {
        pos
    }
}

/// Numeric value of a run of ASCII digits.
pub open spec fn digits_val(ds: Seq<u8>) -> nat
    decreases ds.len(),
{
    if ds.len() == 0 {
        0
    } else {
        10 * digits_val(ds.drop_last()) + (ds.last() - 0x30) as nat
    }
}

/// Byte-string production: a base-10 length, a ':', then that many raw bytes.
pub open spec fn spec_decode_bytes(s: Seq<u8>, pos: nat) -> Result<(BValue, nat), DecoderError> {
    let dend = scan_digits(s, pos);
    if dend >= s.len() || s[dend as int] != 0x3au8 {
        Err(DecoderError::InvalidByteString)
    } else {
        let n = digits_val(s.subrange(pos as int, dend as int));
        if dend + 1 + n > s.len() {
            Err(DecoderError::InvalidByteStringLength)
        } else {
            Ok((BValue::Bytes(s.subrange(dend as int + 1, dend as int + 1 + n)), dend + 1 + n))
        }
    }
}

/// Integer production: 'i', an optional sign, digits, 'e'. Rejects
/// a signed zero, a redundant leading zero, and values outside i64.
pub open spec fn spec_decode_int(s: Seq<u8>, pos: nat) -> Result<(BValue, nat), DecoderError> {
    let q = pos + 1;
    let signed = q < s.len() && (s[q as int] == 0x2bu8 || s[q as int] == 0x2du8);
    let negative = q < s.len() && s[q as int] == 0x2du8;
    let dstart: nat = if signed { (q + 1) as nat } else { q as nat };
    let dend = scan_digits(s, dstart);
    if dend == dstart || dend >= s.len() || s[dend as int] != 0x65u8 {
        Err(DecoderError::InvalidInteger)
    } else {
        let ds = s.subrange(dstart as int, dend as int);
        if signed && ds == seq![0x30u8] {
            Err(DecoderError::InvalidInteger)
        } else if ds.len() > 1 && ds[0] == 0x30u8 {
            Err(DecoderError::InvalidInteger)
        } else {
            let n = digits_val(ds);
            let v: int = if negative { -(n as int) } else { n as int };
            if v < i64::MIN || v > i64::MAX {
                Err(DecoderError::InvalidInteger)
            } else {
                Ok((BValue::Int(v), dend + 1))
            }
        }
    }
}

/// One bencoded value read at `pos`. The leading byte selects the production.
pub open spec fn spec_decode(s: Seq<u8>, pos: nat) -> Result<(BValue, nat), DecoderError>
    decreases s.len() - pos, 0int,
{
    if pos >= s.len() {
        Err(DecoderError::NotBencodedData)
    } else if is_digit(s[pos as int]) {
        spec_decode_bytes(s, pos)
    } else if s[pos as int] == 0x69u8 {
        spec_decode_int(s, pos)
    } else if s[pos as int] == 0x6cu8 {
        match spec_decode_list_items(s, pos + 1) {
            Ok((items, p)) => Ok((BValue::List(items), p)),
            Err(e) => Err(e),
        }
    } else if s[pos as int] == 0x64u8 {
        match spec_decode_dict_items(s, pos + 1) {
            Ok((pairs, p)) => Ok((BValue::Dict(pairs), p)),
            Err(e) => Err(e),
        }
    } else {
        Err(DecoderError::NotBencodedData)
    }
}

/// List elements up to and including the terminating 'e'.
pub open spec fn spec_decode_list_items(s: Seq<u8>, pos: nat) -> Result<(Seq<BValue>, nat), DecoderError>
    decreases s.len() - pos, 1int,
{
    if pos >= s.len() {
        Err(DecoderError::ListFormatError)
    } else if s[pos as int] == 0x65u8 {
        Ok((Seq::empty(), pos + 1))
    } else {
        match spec_decode(s, pos) {
            Err(e) => Err(e),
            Ok((v, p2)) => {
                if p2 <= pos || p2 > s.len() {
                    Err(DecoderError::ListFormatError)
                } else {
                    match spec_decode_list_items(s, p2) {
                        Err(e) => Err(e),
                        Ok((rest, p3)) => Ok((seq![v] + rest, p3)),
                    }
                }
            },
        }
    }
}

/// Dictionary pairs up to and including the terminating 'e'. Keys must
/// be byte-strings; a key without a value is rejected.
pub open spec fn spec_decode_dict_items(s: Seq<u8>, pos: nat) -> Result<(Seq<(Seq<u8>, BValue)>, nat), DecoderError>
    decreases s.len() - pos, 1int,
{
    if pos >= s.len() {
        Err(DecoderError::NotBencodedData)
    } else if s[pos as int] == 0x65u8 {
        Ok((Seq::empty(), pos + 1))
    } else {
        match spec_decode(s, pos) {
            Err(e) => Err(e),
            Ok((k, p2)) => match k {
                BValue::Bytes(kb) => {
                    if p2 <= pos || p2 > s.len() {
                        Err(DecoderError::NotBencodedData)
                    } else if p2 < s.len() && s[p2 as int] == 0x65u8 {
                        Err(DecoderError::ValueNotPresentInDictionary)
                    } else {
                        match spec_decode(s, p2) {
                            Err(e) => Err(e),
                            Ok((v, p3)) => {
                                if p3 <= p2 || p3 > s.len() {
                                    Err(DecoderError::NotBencodedData)
                                } else {
                                    match spec_decode_dict_items(s, p3) {
                                        Err(e) => Err(e),
                                        Ok((rest, p4)) => Ok((seq![(kb, v)] + rest, p4)),
                                    }
                                }
                            },
                        }
                    }
                },
                _ => Err(DecoderError::DictionaryKeyIsNotAString),
            },
        }
    }
}

pub proof fn lemma_scan_digits(s: Seq<u8>, pos: nat)
    requires
        pos <= s.len(),
    ensures
        pos <= scan_digits(s, pos) <= s.len(),
        forall|i: int| pos <= i < scan_digits(s, pos) ==> is_digit(s[i]),
        scan_digits(s, pos) < s.len() ==> !is_digit(s[scan_digits(s, pos) as int]),
    decreases s.len() - pos,
{
    if pos < s.len() && is_digit(s[pos as int]) {
        lemma_scan_digits(s, pos + 1);
    }
}

/// A longer digit run never has a smaller value.
pub proof fn lemma_digits_val_prefix_le(ds: Seq<u8>, k: int)
    requires
        0 <= k <= ds.len(),
    ensures
        digits_val(ds.subrange(0, k)) <= digits_val(ds),
    decreases ds.len(),
{
    if k == ds.len() {
        assert(ds.subrange(0, k) =~= ds);
    } else {
        assert(ds.drop_last().subrange(0, k) =~= ds.subrange(0, k));
        lemma_digits_val_prefix_le(ds.drop_last(), k);
    }
}

pub proof fn lemma_spec_decode_advances(s: Seq<u8>, pos: nat)
    ensures
        spec_decode(s, pos) matches Ok(vp) ==> pos < vp.1 <= s.len(),
    decreases s.len() - pos, 0int,
{
    if pos < s.len() {
        if is_digit(s[pos as int]) {
            lemma_scan_digits(s, pos);
        } else if s[pos as int] == 0x69u8 {
            let q = pos + 1;
            let signed = q < s.len() && (s[q as int] == 0x2bu8 || s[q as int] == 0x2du8);
            let dstart: nat = if signed { (q + 1) as nat } else { q as nat };
            lemma_scan_digits(s, dstart);
        } else if s[pos as int] == 0x6cu8 {
            lemma_spec_decode_list_items_advances(s, pos + 1);
        } else if s[pos as int] == 0x64u8 {
            lemma_spec_decode_dict_items_advances(s, pos + 1);
        }
    }
}

pub proof fn lemma_spec_decode_list_items_advances(s: Seq<u8>, pos: nat)
    ensures
        spec_decode_list_items(s, pos) matches Ok(vp) ==> pos < vp.1 <= s.len(),
    decreases s.len() - pos, 1int,
{
    if pos < s.len() && s[pos as int] != 0x65u8 {
        if let Ok((v, p2)) = spec_decode(s, pos) {
            if pos < p2 <= s.len() {
                lemma_spec_decode_list_items_advances(s, p2);
            }
        }
    }
}

pub proof fn lemma_spec_decode_dict_items_advances(s: Seq<u8>, pos: nat)
    ensures
        spec_decode_dict_items(s, pos) matches Ok(vp) ==> pos < vp.1 <= s.len(),
    decreases s.len() - pos, 1int,
{
    if pos < s.len() && s[pos as int] != 0x65u8 {
        if let Ok((k, p2)) = spec_decode(s, pos) {
            if pos < p2 <= s.len() {
                if let Ok((v, p3)) = spec_decode(s, p2) {
                    if p2 < p3 <= s.len() {
                        lemma_spec_decode_dict_items_advances(s, p3);
                    }
                }
            }
        }
    }
}

fn scan_digits_exec(s: &Vec<u8>, pos: usize) -> (r: usize)
    requires
        pos <= s.len(),
    ensures
        r as nat == scan_digits(s@, pos as nat),
        pos <= r <= s.len(),
{
    proof {
        lemma_scan_digits(s@, pos as nat);
    }
    let mut i = pos;
    while i < s.len() && s[i] >= 0x30 && s[i] <= 0x39
        invariant
            pos <= i <= s.len(),
            scan_digits(s@, pos as nat) == scan_digits(s@, i as nat),
        decreases s@.len() - i,
    {
        assert(scan_digits(s@, i as nat) == scan_digits(s@, (i + 1) as nat));
        i = i + 1;
    }
    i
}

/// Parse the digit run `s[pos..dend]` as a usize; `None` means the value
/// does not fit, in which case it certainly exceeds the input length.
fn parse_usize_digits(s: &Vec<u8>, pos: usize, dend: usize) -> (r: Option<usize>)
    requires
        pos <= dend <= s.len(),
        forall|i: int| pos <= i < dend ==> is_digit(s@[i]),
    ensures
        match r {
            Some(n) => n as nat == digits_val(s@.subrange(pos as int, dend as int)),
            None => digits_val(s@.subrange(pos as int, dend as int)) > usize::MAX,
        },
{
    let ghost ds = s@.subrange(pos as int, dend as int);
    let mut n: usize = 0;
    let mut overflow = false;
    let mut i = pos;
    while i < dend
        invariant
            pos <= i <= dend <= s.len(),
            ds == s@.subrange(pos as int, dend as int),
            forall|k: int| pos <= k < dend ==> is_digit(s@[k]),
            !overflow ==> n as nat == digits_val(ds.subrange(0, i - pos)),
            overflow ==> digits_val(ds.subrange(0, i - pos)) > usize::MAX,
        decreases dend - i,
    {
        let b = s[i];
        let d = (b - 0x30) as usize;
        proof {
            assert(ds.subrange(0, i + 1 - pos).drop_last() =~= ds.subrange(0, i - pos));
            assert(ds.subrange(0, i + 1 - pos).last() == s@[i as int]);
        }
        if !overflow {
            if n > (usize::MAX - d) / 10 {
                proof {
                    assert(10 * (n as int) + d > usize::MAX) by (nonlinear_arith)
                        requires
                            n as int > (usize::MAX as int - d as int) / 10,
                            0 <= d < 10,
                    ;
                }
                overflow = true;
            } else {
                proof {
                    assert(10 * (n as int) + d <= usize::MAX) by (nonlinear_arith)
                        requires
                            n as int <= (usize::MAX as int - d as int) / 10,
                            0 <= d < 10,
                            0 <= n,
                    ;
                }
                n = n * 10 + d;
            }
        }
        i = i + 1;
    }
    proof {
        assert(ds.subrange(0, dend - pos) =~= ds);
    }
    if overflow {
        None
    } else {
        Some(n)
    }
}

/// Parse the digit run `s[pos..dend]` as a u64 magnitude; `None` means
/// the value exceeds u64.
fn parse_u64_digits(s: &Vec<u8>, pos: usize, dend: usize) -> (r: Option<u64>)
    requires
        pos <= dend <= s.len(),
        forall|i: int| pos <= i < dend ==> is_digit(s@[i]),
    ensures
        match r {
            Some(n) => n as nat == digits_val(s@.subrange(pos as int, dend as int)),
            None => digits_val(s@.subrange(pos as int, dend as int)) > u64::MAX,
        },
{
    let ghost ds = s@.subrange(pos as int, dend as int);
    let mut n: u64 = 0;
    let mut overflow = false;
    let mut i = pos;
    while i < dend
        invariant
            pos <= i <= dend <= s.len(),
            ds == s@.subrange(pos as int, dend as int),
            forall|k: int| pos <= k < dend ==> is_digit(s@[k]),
            !overflow ==> n as nat == digits_val(ds.subrange(0, i - pos)),
            overflow ==> digits_val(ds.subrange(0, i - pos)) > u64::MAX,
        decreases dend - i,
    {
        let b = s[i];
        let d = (b - 0x30) as u64;
        proof {
            assert(ds.subrange(0, i + 1 - pos).drop_last() =~= ds.subrange(0, i - pos));
            assert(ds.subrange(0, i + 1 - pos).last() == s@[i as int]);
        }
        if !overflow {
            if n > (u64::MAX - d) / 10 {
                proof {
                    assert(10 * (n as int) + d > u64::MAX) by (nonlinear_arith)
                        requires
                            n as int > (u64::MAX as int - d as int) / 10,
                            0 <= d < 10,
                    ;
                }
                overflow = true;
            } else {
                proof {
                    assert(10 * (n as int) + d <= u64::MAX) by (nonlinear_arith)
                        requires
                            n as int <= (u64::MAX as int - d as int) / 10,
                            0 <= d < 10,
                            0 <= n,
                    ;
                }
                n = n * 10 + d;
            }
        }
        i = i + 1;
    }
    proof {
        assert(ds.subrange(0, dend - pos) =~= ds);
    }
    if overflow {
        None
    } else {
        Some(n)
    }
}

/// Read the byte-string production at `pos`.
fn decode_bytes_at(s: &Vec<u8>, pos: usize) -> (r: Result<(Vec<u8>, usize), DecoderError>)
    requires
        pos <= s.len(),
    ensures
        match r {
            Ok(bp) => spec_decode_bytes(s@, pos as nat)
                == Ok::<(BValue, nat), DecoderError>((BValue::Bytes(bp.0@), bp.1 as nat))
                && pos < bp.1 <= s.len(),
            Err(e) => spec_decode_bytes(s@, pos as nat) == Err::<(BValue, nat), DecoderError>(e),
        },
{
    proof {
        lemma_scan_digits(s@, pos as nat);
    }
    let dend = scan_digits_exec(s, pos);
    if dend >= s.len() || s[dend] != 0x3a {
        return Err(DecoderError::InvalidByteString);
    }
    let n_opt = parse_usize_digits(s, pos, dend);
    let rem = s.len() - (dend + 1);
    match n_opt {
        None => Err(DecoderError::InvalidByteStringLength),
        Some(n) => {
            if n > rem {
                Err(DecoderError::InvalidByteStringLength)
            } else {
                let mut out: Vec<u8> = Vec::new();
                let mut j = dend + 1;
                while j < dend + 1 + n
                    invariant
                        dend + 1 <= j <= dend + 1 + n <= s.len(),
                        out@ =~= s@.subrange(dend as int + 1, j as int),
                    decreases dend + 1 + n - j,
                {
                    out.push(s[j]);
                    j = j + 1;
                }
                Ok((out, dend + 1 + n))
            }
        },
    }
}

/// Read the integer production at `pos` (`s[pos]` is 'i').
fn decode_int_at(s: &Vec<u8>, pos: usize) -> (r: Result<(i64, usize), DecoderError>)
    requires
        pos < s.len(),
    ensures
        match r {
            Ok(vp) => spec_decode_int(s@, pos as nat)
                == Ok::<(BValue, nat), DecoderError>((BValue::Int(vp.0 as int), vp.1 as nat))
                && pos < vp.1 <= s.len(),
            Err(e) => spec_decode_int(s@, pos as nat) == Err::<(BValue, nat), DecoderError>(e),
        },
{
    let q = pos + 1;
    let signed = q < s.len() && (s[q] == 0x2b || s[q] == 0x2d);
    let negative = q < s.len() && s[q] == 0x2d;
    let dstart = if signed { q + 1 } else { q };
    proof {
        lemma_scan_digits(s@, dstart as nat);
    }
    let dend = scan_digits_exec(s, dstart);
    if dend == dstart || dend >= s.len() || s[dend] != 0x65 {
        return Err(DecoderError::InvalidInteger);
    }
    let ghost ds = s@.subrange(dstart as int, dend as int);
    if signed && dend == dstart + 1 && s[dstart] == 0x30 {
        proof {
            assert(ds =~= seq![0x30u8]);
        }
        return Err(DecoderError::InvalidInteger);
    }
    proof {
        if signed && ds == seq![0x30u8] {
            assert(ds.len() == 1);
            assert(ds[0] == 0x30u8);
            assert(s@[dstart as int] == 0x30u8);
            assert(false);
        }
    }
    if dend - dstart > 1 && s[dstart] == 0x30 {
        return Err(DecoderError::InvalidInteger);
    }
    let n_opt = parse_u64_digits(s, dstart, dend);
    match n_opt {
        None => Err(DecoderError::InvalidInteger),
        Some(n) => {
            if negative {
                if n > 0x8000000000000000u64 {
                    Err(DecoderError::InvalidInteger)
                } else if n == 0x8000000000000000u64 {
                    Ok((i64::MIN, dend + 1))
                } else {
                    Ok((-(n as i64), dend + 1))
                }
            } else {
                if n > 0x7fffffffffffffffu64 {
                    Err(DecoderError::InvalidInteger)
                } else {
                    Ok((n as i64, dend + 1))
                }
            }
        },
    }
}

/// Read one bencoded value at `pos`, returning it with the cursor after it.
pub fn decode_value_at(s: &Vec<u8>, pos: usize) -> (r: Result<(Bencode, usize), DecoderError>)
    requires
        pos <= s.len(),
    ensures
        match r {
            Ok(vp) => spec_decode(s@, pos as nat)
                == Ok::<(BValue, nat), DecoderError>((vp.0@, vp.1 as nat))
                && pos < vp.1 <= s.len(),
            Err(e) => spec_decode(s@, pos as nat) == Err::<(BValue, nat), DecoderError>(e),
        },
    decreases s@.len() - pos, 0int,
{
    if pos >= s.len() {
        return Err(DecoderError::NotBencodedData);
    }
    let b = s[pos];
    if b >= 0x30 && b <= 0x39 {
        match decode_bytes_at(s, pos) {
            Ok((bytes, p)) => Ok((Bencode::Bytes(bytes), p)),
            Err(e) => Err(e),
        }
    } else if b == 0x69 {
        match decode_int_at(s, pos) {
            Ok((v, p)) => Ok((Bencode::Int(v), p)),
            Err(e) => Err(e),
        }
    } else if b == 0x6c {
        match decode_list_items_at(s, pos + 1) {
            Ok((items, p)) => Ok((Bencode::List(items), p)),
            Err(e) => Err(e),
        }
    } else if b == 0x64 {
        match decode_dict_items_at(s, pos + 1) {
            Ok((pairs, p)) => Ok((Bencode::Dict(pairs), p)),
            Err(e) => Err(e),
        }
    } else {
        Err(DecoderError::NotBencodedData)
    }
}

fn decode_list_items_at(s: &Vec<u8>, pos: usize) -> (r: Result<(Vec<Bencode>, usize), DecoderError>)
    requires
        pos <= s.len(),
    ensures
        match r {
            Ok(vp) => spec_decode_list_items(s@, pos as nat)
                == Ok::<(Seq<BValue>, nat), DecoderError>((views_of(vp.0@), vp.1 as nat))
                && pos < vp.1 <= s.len(),
            Err(e) => spec_decode_list_items(s@, pos as nat)
                == Err::<(Seq<BValue>, nat), DecoderError>(e),
        },
    decreases s@.len() - pos, 1int,
{
    if pos >= s.len() {
        return Err(DecoderError::ListFormatError);
    }
    if s[pos] == 0x65 {
        let out: Vec<Bencode> = Vec::new();
        assert(views_of(out@) =~= Seq::<BValue>::empty());
        return Ok((out, pos + 1));
    }
    match decode_value_at(s, pos) {
        Err(e) => Err(e),
        Ok((v, p2)) => match decode_list_items_at(s, p2) {
            Err(e) => Err(e),
            Ok((rest, p3)) => {
                let mut out = rest;
                let ghost rest_view = out@;
                out.insert(0, v);
                proof {
                    assert(out@.drop_first() =~= rest_view);
                    assert(views_of(out@) =~= seq![v@] + views_of(rest_view));
                }
                Ok((out, p3))
            },
        },
    }
}

fn decode_dict_items_at(s: &Vec<u8>, pos: usize) -> (r: Result<(Vec<(Vec<u8>, Bencode)>, usize), DecoderError>)
    requires
        pos <= s.len(),
    ensures
        match r {
            Ok(vp) => spec_decode_dict_items(s@, pos as nat)
                == Ok::<(Seq<(Seq<u8>, BValue)>, nat), DecoderError>((views_of_pairs(vp.0@), vp.1 as nat))
                && pos < vp.1 <= s.len(),
            Err(e) => spec_decode_dict_items(s@, pos as nat)
                == Err::<(Seq<(Seq<u8>, BValue)>, nat), DecoderError>(e),
        },
    decreases s@.len() - pos, 1int,
{
    if pos >= s.len() {
        return Err(DecoderError::NotBencodedData);
    }
    if s[pos] == 0x65 {
        let out: Vec<(Vec<u8>, Bencode)> = Vec::new();
        assert(views_of_pairs(out@) =~= Seq::<(Seq<u8>, BValue)>::empty());
        return Ok((out, pos + 1));
    }
    match decode_value_at(s, pos) {
        Err(e) => Err(e),
        Ok((k, p2)) => match k {
            Bencode::Bytes(kb) => {
                if p2 < s.len() && s[p2] == 0x65 {
                    return Err(DecoderError::ValueNotPresentInDictionary);
                }
                match decode_value_at(s, p2) {
                    Err(e) => Err(e),
                    Ok((v, p3)) => match decode_dict_items_at(s, p3) {
                        Err(e) => Err(e),
                        Ok((rest, p4)) => {
                            let mut out = rest;
                            let ghost rest_view = out@;
                            let ghost kbv = kb@;
                            out.insert(0, (kb, v));
                            proof {
                                assert(out@.drop_first() =~= rest_view);
                                assert(views_of_pairs(out@) =~= seq![(kbv, v@)] + views_of_pairs(rest_view));
                            }
                            Ok((out, p4))
                        },
                    },
                }
            },
            _ => Err(DecoderError::DictionaryKeyIsNotAString),
        },
    }
}

/// Cursor-based single-pass decoder over a byte buffer.
pub struct Decoder {
    data: Vec<u8>,
    pos: usize,
}

impl Decoder {
    /// The bytes being decoded.
    pub closed spec fn bytes(&self) -> Seq<u8> {
        self.data@
    }

    /// The cursor: how many bytes have been consumed.
    pub closed spec fn position(&self) -> nat {
        self.pos as nat
    }

    #[verifier::type_invariant]
    closed spec fn wf(&self) -> bool {
        self.pos <= self.data@.len()
    }

    pub fn new(encoded_data: String) -> (d: Decoder)
        ensures
            d.bytes() == vstd::utf8::encode_utf8(encoded_data@),
            d.position() == 0,
    {
        Decoder { data: encoded_data.as_str().as_bytes_vec(), pos: 0 }
    }

    pub fn from_bytes(data: Vec<u8>) -> (d: Decoder)
        ensures
            d.bytes() == data@,
            d.position() == 0,
    {
        Decoder { data, pos: 0 }
    }

    /// Decode the next value and advance past it.
    pub fn decode(&mut self) -> (r: Result<Bencode, DecoderError>)
        ensures
            final(self).bytes() == old(self).bytes(),
            match r {
                Ok(v) => spec_decode(old(self).bytes(), old(self).position())
                    == Ok::<(BValue, nat), DecoderError>((v@, final(self).position()))
                    && old(self).position() < final(self).position() <= final(self).bytes().len(),
                Err(e) => spec_decode(old(self).bytes(), old(self).position())
                    == Err::<(BValue, nat), DecoderError>(e)
                    && final(self).position() == old(self).position(),
            },
    {
        proof {
            use_type_invariant(&*self);
        }
        match decode_value_at(&self.data, self.pos) {
            Ok((v, p)) => {
                self.pos = p;
                Ok(v)
            },
            Err(e) => Err(e),
        }
    }

    /// Decode the byte-string production at the cursor.
    pub fn decode_bencoded_byte_string(&mut self) -> (r: Result<Vec<u8>, DecoderError>)
        ensures
            final(self).bytes() == old(self).bytes(),
            match r {
                Ok(b) => spec_decode_bytes(old(self).bytes(), old(self).position())
                    == Ok::<(BValue, nat), DecoderError>((BValue::Bytes(b@), final(self).position()))
                    && old(self).position() < final(self).position() <= final(self).bytes().len(),
                Err(e) => spec_decode_bytes(old(self).bytes(), old(self).position())
                    == Err::<(BValue, nat), DecoderError>(e)
                    && final(self).position() == old(self).position(),
            },
    {
        proof {
            use_type_invariant(&*self);
        }
        match decode_bytes_at(&self.data, self.pos) {
            Ok((b, p)) => {
                self.pos = p;
                Ok(b)
            },
            Err(e) => Err(e),
        }
    }

    /// Decode the integer production at the cursor (which must not be at the end).
    pub fn decode_bencoded_integer(&mut self) -> (r: Result<i64, DecoderError>)
        ensures
            final(self).bytes() == old(self).bytes(),
            match r {
                Ok(v) => spec_decode_int(old(self).bytes(), old(self).position())
                    == Ok::<(BValue, nat), DecoderError>((BValue::Int(v as int), final(self).position()))
                    && old(self).position() < final(self).position() <= final(self).bytes().len(),
                Err(e) => spec_decode_int(old(self).bytes(), old(self).position())
                    == Err::<(BValue, nat), DecoderError>(e)
                    && final(self).position() == old(self).position(),
            },
    {
        proof {
            use_type_invariant(&*self);
        }
        if self.pos >= self.data.len() {
            proof {
                let s = self.data@;
                let pos = self.pos as nat;
                assert(scan_digits(s, pos + 1) == pos + 1);
                assert(spec_decode_int(s, pos) == Err::<(BValue, nat), DecoderError>(
                    DecoderError::InvalidInteger,
                ));
            }
            return Err(DecoderError::InvalidInteger);
        }
        match decode_int_at(&self.data, self.pos) {
            Ok((v, p)) => {
                self.pos = p;
                Ok(v)
            },
            Err(e) => Err(e),
        }
    }
}

/// Decimal digits of `n`, most significant first, no leading zeros.
pub open spec fn dec_digits(n: nat) -> Seq<u8>
    decreases n,
{
    if n < 10 {
        seq![(0x30 + n) as u8]
    } else {
        dec_digits(n / 10) + seq![(0x30 + n % 10) as u8]
    }
}

/// ASCII form of a bencoded integer body: optional '-', then digits.
pub open spec fn int_bytes(i: int) -> Seq<u8> {
    if i < 0 {
        seq![0x2du8] + dec_digits((-i) as nat)
    } else {
        dec_digits(i as nat)
    }
}

/// Canonical encoding of a value: lengths and integers carry no
/// redundant zeros or signs, and dictionary pairs keep their order.
pub open spec fn spec_encode(v: BValue) -> Seq<u8>
    decreases v,
{
    match v {
        BValue::Bytes(b) => dec_digits(b.len()) + seq![0x3au8] + b,
        BValue::Int(i) => seq![0x69u8] + int_bytes(i) + seq![0x65u8],
        BValue::List(l) => seq![0x6cu8] + spec_encode_seq(l) + seq![0x65u8],
        BValue::Dict(d) => seq![0x64u8] + spec_encode_pairs(d) + seq![0x65u8],
    }
}

pub open spec fn spec_encode_seq(l: Seq<BValue>) -> Seq<u8>
    decreases l,
{
    if l.len() == 0 {
        Seq::empty()
    } else {
        spec_encode(l[0]) + spec_encode_seq(l.drop_first())
    }
}

pub open spec fn spec_encode_pairs(d: Seq<(Seq<u8>, BValue)>) -> Seq<u8>
    decreases d,
{
    if d.len() == 0 {
        Seq::empty()
    } else {
        dec_digits(d[0].0.len()) + seq![0x3au8] + d[0].0 + spec_encode(d[0].1) + spec_encode_pairs(d.drop_first())
    }
}

pub proof fn lemma_encode_seq_snoc(l: Seq<BValue>, v: BValue)
    ensures
        spec_encode_seq(l.push(v)) == spec_encode_seq(l) + spec_encode(v),
    decreases l,
{
    if l.len() == 0 {
        assert(l.push(v).drop_first() =~= Seq::<BValue>::empty());
        assert(l.push(v)[0] == v);
        assert(l.push(v).len() == 1);
        assert(spec_encode_seq(l.push(v))
            == spec_encode(l.push(v)[0]) + spec_encode_seq(l.push(v).drop_first()));
        assert(spec_encode_seq(l.push(v).drop_first()) =~= Seq::<u8>::empty());
        assert(spec_encode_seq(l) =~= Seq::<u8>::empty());
        assert(spec_encode_seq(l.push(v)) =~= spec_encode_seq(l) + spec_encode(v));
    } else {
        assert(l.push(v).drop_first() =~= l.drop_first().push(v));
        assert(l.push(v)[0] == l[0]);
        lemma_encode_seq_snoc(l.drop_first(), v);
        let a = spec_encode(l[0]);
        let b = spec_encode_seq(l.drop_first());
        let c = spec_encode(v);
        assert(spec_encode_seq(l.push(v)) == a + (b + c));
        assert(a + (b + c) =~= (a + b) + c);
    }
}

pub proof fn lemma_encode_pairs_snoc(d: Seq<(Seq<u8>, BValue)>, k: Seq<u8>, v: BValue)
    ensures
        spec_encode_pairs(d.push((k, v)))
            == spec_encode_pairs(d) + dec_digits(k.len()) + seq![0x3au8] + k + spec_encode(v),
    decreases d,
{
    if d.len() == 0 {
        assert(d.push((k, v)).drop_first() =~= Seq::<(Seq<u8>, BValue)>::empty());
        assert(d.push((k, v))[0] == (k, v));
        assert(d.push((k, v)).len() == 1);
        assert(spec_encode_pairs(d.push((k, v)))
            == dec_digits(d.push((k, v))[0].0.len()) + seq![0x3au8] + d.push((k, v))[0].0
                + spec_encode(d.push((k, v))[0].1) + spec_encode_pairs(d.push((k, v)).drop_first()));
        assert(spec_encode_pairs(d.push((k, v)).drop_first()) =~= Seq::<u8>::empty());
        assert(spec_encode_pairs(d) =~= Seq::<u8>::empty());
        assert(spec_encode_pairs(d.push((k, v)))
            =~= spec_encode_pairs(d) + dec_digits(k.len()) + seq![0x3au8] + k + spec_encode(v));
    } else {
        assert(d.push((k, v)).drop_first() =~= d.drop_first().push((k, v)));
        assert(d.push((k, v))[0] == d[0]);
        lemma_encode_pairs_snoc(d.drop_first(), k, v);
        let a = dec_digits(d[0].0.len()) + seq![0x3au8] + d[0].0 + spec_encode(d[0].1);
        let b = spec_encode_pairs(d.drop_first());
        let c = dec_digits(k.len()) + seq![0x3au8] + k + spec_encode(v);
        assert(spec_encode_pairs(d.push((k, v))) == a + (b + c));
        assert(spec_encode_pairs(d) + dec_digits(k.len()) + seq![0x3au8] + k + spec_encode(v)
            =~= (a + b) + c);
        assert(a + (b + c) =~= (a + b) + c);
    }
}

/// Nesting depth of a value; the termination measure for the encoder.
pub open spec fn bheight(v: BValue) -> nat
    decreases v,
{
    match v {
        BValue::Bytes(_) => 0,
        BValue::Int(_) => 0,
        BValue::List(l) => 1 + bheight_seq(l),
        BValue::Dict(d) => 1 + bheight_pairs(d),
    }
}

pub open spec fn bheight_seq(l: Seq<BValue>) -> nat
    decreases l,
{
    if l.len() == 0 {
        0
    } else if bheight(l[0]) >= bheight_seq(l.drop_first()) {
        bheight(l[0])
    } else {
        bheight_seq(l.drop_first())
    }
}

pub open spec fn bheight_pairs(d: Seq<(Seq<u8>, BValue)>) -> nat
    decreases d,
{
    if d.len() == 0 {
        0
    } else if bheight(d[0].1) >= bheight_pairs(d.drop_first()) {
        bheight(d[0].1)
    } else {
        bheight_pairs(d.drop_first())
    }
}

proof fn lemma_bheight_seq_elem(l: Seq<BValue>, i: int)
    requires
        0 <= i < l.len(),
    ensures
        bheight(l[i]) <= bheight_seq(l),
    decreases l,
{
    if i > 0 {
        lemma_bheight_seq_elem(l.drop_first(), i - 1);
    }
}

proof fn lemma_bheight_pairs_elem(d: Seq<(Seq<u8>, BValue)>, i: int)
    requires
        0 <= i < d.len(),
    ensures
        bheight(d[i].1) <= bheight_pairs(d),
    decreases d,
{
    if i > 0 {
        lemma_bheight_pairs_elem(d.drop_first(), i - 1);
    }
}

/// The decimal digits of `n` as ASCII bytes.
pub(crate) fn u64_dec_digits(n: u64) -> (r: Vec<u8>)
    ensures
        r@ == dec_digits(n as nat),
{
    let mut tmp: Vec<u8> = Vec::new();
    let mut m = n;
    while m >= 10
        invariant
            dec_digits(n as nat) =~= dec_digits(m as nat) + tmp@.reverse(),
        decreases m,
    {
        let d = (0x30 + (m % 10)) as u8;
        proof {
            assert(tmp@.push(d).reverse() =~= seq![d] + tmp@.reverse());
            assert(dec_digits(m as nat) + tmp@.reverse()
                =~= dec_digits(m as nat / 10) + (seq![d] + tmp@.reverse()));
        }
        tmp.push(d);
        m = m / 10;
    }
    let d = (0x30 + m) as u8;
    proof {
        assert(tmp@.push(d).reverse() =~= seq![d] + tmp@.reverse());
        assert(dec_digits(m as nat) + tmp@.reverse() =~= seq![d] + tmp@.reverse());
    }
    tmp.push(d);
    let mut out: Vec<u8> = Vec::new();
    let mut i = tmp.len();
    while i > 0
        invariant
            i <= tmp.len(),
            out@ =~= tmp@.skip(i as int).reverse(),
        decreases i,
    {
        i = i - 1;
        proof {
            assert(tmp@.skip(i as int) =~= seq![tmp@[i as int]] + tmp@.skip(i as int + 1));
            assert(tmp@.skip(i as int).reverse() =~= tmp@.skip(i as int + 1).reverse().push(tmp@[i as int]));
        }
        out.push(tmp[i]);
    }
    proof {
        assert(tmp@.skip(0) =~= tmp@);
    }
    out
}

/// Append the bencoding of a byte-string to `out`.
fn push_bytestring(out: &mut Vec<u8>, b: &Vec<u8>)
    ensures
        final(out)@ == old(out)@ + dec_digits(b@.len()) + seq![0x3au8] + b@,
{
    let mut digits = u64_dec_digits(b.len() as u64);
    push_all(out, &digits);
    out.push(0x3a);
    push_all(out, b);
}

/// Encode a value back to bytes; the inverse of decoding.
pub fn encode_value(v: &Bencode) -> (r: Vec<u8>)
    ensures
        r@ == spec_encode(v@),
    decreases bheight(v@),
{
    match v {
        Bencode::Bytes(b) => {
            let mut out: Vec<u8> = Vec::new();
            push_bytestring(&mut out, b);
            proof {
                assert(out@ =~= spec_encode(v@));
            }
            out
        },
        Bencode::Int(i) => {
            let mut out: Vec<u8> = Vec::new();
            out.push(0x69);
            if *i < 0 {
                out.push(0x2d);
                let m: u64 = if *i == i64::MIN {
                    0x8000000000000000u64
                } else {
                    (-(*i)) as u64
                };
                let digits = u64_dec_digits(m);
                push_all(&mut out, &digits);
            } else {
                let digits = u64_dec_digits(*i as u64);
                push_all(&mut out, &digits);
            }
            out.push(0x65);
            proof {
                assert(out@ =~= spec_encode(v@));
            }
            out
        },
        Bencode::List(l) => {
            let mut out: Vec<u8> = Vec::new();
            out.push(0x6c);
            let mut j: usize = 0;
            while j < l.len()
                invariant
                    j <= l.len(),
                    v@ == BValue::List(views_of(l@)),
                    out@ =~= seq![0x6cu8] + spec_encode_seq(views_of(l@).subrange(0, j as int)),
                decreases l@.len() - j,
            {
                proof {
                    lemma_bheight_seq_elem(views_of(l@), j as int);
                    assert(views_of(l@)[j as int] == l@[j as int]@);
                    assert(v@ == BValue::List(views_of(l@)));
                    assert(bheight(v@) == 1 + bheight_seq(views_of(l@)));
                }
                let piece = encode_value(&l[j]);
                push_all(&mut out, &piece);
                proof {
                    assert(views_of(l@).subrange(0, j + 1)
                        =~= views_of(l@).subrange(0, j as int).push(l@[j as int]@));
                    lemma_encode_seq_snoc(views_of(l@).subrange(0, j as int), l@[j as int]@);
                }
                j = j + 1;
            }
            out.push(0x65);
            proof {
                assert(views_of(l@).subrange(0, l@.len() as int) =~= views_of(l@));
                assert(out@ =~= spec_encode(v@));
            }
            out
        },
        Bencode::Dict(d) => {
            let mut out: Vec<u8> = Vec::new();
            out.push(0x64);
            let mut j: usize = 0;
            while j < d.len()
                invariant
                    j <= d.len(),
                    v@ == BValue::Dict(views_of_pairs(d@)),
                    out@ =~= seq![0x64u8] + spec_encode_pairs(views_of_pairs(d@).subrange(0, j as int)),
                decreases d@.len() - j,
            {
                push_bytestring(&mut out, &d[j].0);
                proof {
                    lemma_bheight_pairs_elem(views_of_pairs(d@), j as int);
                    assert(views_of_pairs(d@)[j as int] == (d@[j as int].0@, d@[j as int].1@));
                    assert(v@ == BValue::Dict(views_of_pairs(d@)));
                    assert(bheight(v@) == 1 + bheight_pairs(views_of_pairs(d@)));
                }
                let piece = encode_value(&d[j].1);
                push_all(&mut out, &piece);
                proof {
                    assert(views_of_pairs(d@).subrange(0, j + 1)
                        =~= views_of_pairs(d@).subrange(0, j as int).push((d@[j as int].0@, d@[j as int].1@)));
                    lemma_encode_pairs_snoc(
                        views_of_pairs(d@).subrange(0, j as int),
                        d@[j as int].0@,
                        d@[j as int].1@,
                    );
                }
                j = j + 1;
            }
            out.push(0x65);
            proof {
                assert(views_of_pairs(d@).subrange(0, d@.len() as int) =~= views_of_pairs(d@));
                assert(out@ =~= spec_encode(v@));
            }
            out
        },
    }
}


/// Encode decoded dictionary pairs back to bytes exactly as a
/// dictionary value: the pairs in their order, between 'd' and 'e'.
pub fn encode_dict_pairs(pairs: &Vec<(Vec<u8>, Bencode)>) -> (r: Vec<u8>)
    ensures
        r@ == spec_encode(BValue::Dict(views_of_pairs(pairs@))),
{
    let mut out: Vec<u8> = Vec::new();
    out.push(0x64);
    let mut j: usize = 0;
    while j < pairs.len()
        invariant
            j <= pairs.len(),
            out@ =~= seq![0x64u8] + spec_encode_pairs(views_of_pairs(pairs@).subrange(0, j as int)),
        decreases pairs@.len() - j,
    {
        push_bytestring(&mut out, &pairs[j].0);
        let piece = encode_value(&pairs[j].1);
        push_all(&mut out, &piece);
        proof {
            assert(views_of_pairs(pairs@).subrange(0, j + 1)
                =~= views_of_pairs(pairs@).subrange(0, j as int).push(
                (pairs@[j as int].0@, pairs@[j as int].1@)));
            lemma_encode_pairs_snoc(
                views_of_pairs(pairs@).subrange(0, j as int),
                pairs@[j as int].0@,
                pairs@[j as int].1@,
            );
        }
        j = j + 1;
    }
    out.push(0x65);
    proof {
        assert(views_of_pairs(pairs@).subrange(0, pairs@.len() as int) =~= views_of_pairs(pairs@));
        assert(out@ =~= spec_encode(BValue::Dict(views_of_pairs(pairs@))));
    }
    out
}

} // verus!
