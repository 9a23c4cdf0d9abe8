//! Round-trip laws of the bencode codec: decoding an encoding gives
//! back the value, and canonical re-encoding reproduces the input span.
use vstd::prelude::*;
use crate::bencode::{
    BValue, DecoderError, is_digit, scan_digits, digits_val, dec_digits,
    spec_decode, spec_decode_bytes, spec_decode_int, spec_decode_list_items,
    spec_decode_dict_items, spec_encode, spec_encode_seq, spec_encode_pairs,
};

verus! {

/// A value the encoder can represent exactly: every integer fits i64.
pub open spec fn wf_bvalue(v: BValue) -> bool
    decreases v,
{
    match v {
        BValue::Bytes(_) => true,
        BValue::Int(i) => i64::MIN <= i <= i64::MAX,
        BValue::List(l) => forall|i: int| 0 <= i < l.len() ==> wf_bvalue(#[trigger] l[i]),
        BValue::Dict(d) => forall|i: int| 0 <= i < d.len() ==> wf_bvalue(#[trigger] d[i].1),
    }
}

/// The decimal digits of `n`: at least one, all ASCII digits, no
/// redundant leading zero, and they read back as `n`.
pub proof fn lemma_dec_digits_props(n: nat)
    ensures
        dec_digits(n).len() >= 1,
        forall|i: int| 0 <= i < dec_digits(n).len() ==> is_digit(#[trigger] dec_digits(n)[i]),
        dec_digits(n).len() > 1 ==> dec_digits(n)[0] != 0x30u8,
        n >= 1 ==> dec_digits(n)[0] != 0x30u8,
        digits_val(dec_digits(n)) == n,
    decreases n,
{
    if n < 10 {
        assert(dec_digits(n) =~= seq![(0x30 + n) as u8]);
        assert(digits_val(dec_digits(n)) == 10 * digits_val(dec_digits(n).drop_last()) + n);
        assert(dec_digits(n).drop_last() =~= Seq::<u8>::empty());
    } else {
        lemma_dec_digits_props(n / 10);
        let dd = dec_digits(n);
        let hd = dec_digits(n / 10);
        assert(dd =~= hd + seq![(0x30 + n % 10) as u8]);
        assert(dd.drop_last() =~= hd);
        assert(dd.last() == (0x30 + n % 10) as u8);
        assert(digits_val(dd) == 10 * digits_val(hd) + n % 10);
        assert(10 * (n / 10) + n % 10 == n);
        assert(dd[0] == hd[0]);
        assert(n / 10 >= 1);
    }
}

/// `scan_digits` stops exactly at the end of a known digit run.
pub proof fn lemma_scan_digits_run(s: Seq<u8>, pos: nat, k: nat)
    requires
        pos <= k <= s.len(),
        forall|i: int| pos <= i < k ==> is_digit(#[trigger] s[i]),
        k == s.len() || !is_digit(s[k as int]),
    ensures
        scan_digits(s, pos) == k,
    decreases k - pos,
{
    if pos < k {
        lemma_scan_digits_run(s, pos + 1, k);
    }
}

/// Decoding the encoding of a byte-string placed at `pos` yields it back.
pub proof fn lemma_decode_encode_bytes(s: Seq<u8>, pos: nat, b: Seq<u8>)
    requires
        pos + spec_encode(BValue::Bytes(b)).len() <= s.len(),
        s.subrange(pos as int, pos as int + spec_encode(BValue::Bytes(b)).len() as int)
            == spec_encode(BValue::Bytes(b)),
    ensures
        spec_decode_bytes(s, pos)
            == Ok::<(BValue, nat), DecoderError>((
                BValue::Bytes(b),
                pos + spec_encode(BValue::Bytes(b)).len(),
            )),
{
    let dd = dec_digits(b.len());
    let enc = spec_encode(BValue::Bytes(b));
    lemma_dec_digits_props(b.len());
    assert(enc =~= dd + seq![0x3au8] + b);
    assert(enc.len() == dd.len() + 1 + b.len());
    let k = pos + dd.len();
    assert forall|i: int| pos <= i < k implies is_digit(#[trigger] s[i]) by {
        assert(s[i] == enc[i - pos]);
        assert(enc[i - pos] == dd[i - pos]);
    }
    assert(s[k as int] == enc[dd.len() as int]);
    assert(s[k as int] == 0x3au8);
    assert(!is_digit(0x3au8));
    lemma_scan_digits_run(s, pos, k);
    assert(s.subrange(pos as int, k as int) =~= dd);
    assert(digits_val(s.subrange(pos as int, k as int)) == b.len());
    assert(k + 1 + b.len() <= s.len());
    assert forall|i: int| 0 <= i < b.len() implies s[k as int + 1 + i] == b[i] by {
        assert(s[k as int + 1 + i] == enc[k as int + 1 + i - pos]);
        assert(enc[k as int + 1 + i - pos] == b[i]);
    }
    assert(s.subrange(k as int + 1, k as int + 1 + b.len()) =~= b);
}

/// Decoding the encoding of an integer placed at `pos` yields it back.
pub proof fn lemma_decode_encode_int(s: Seq<u8>, pos: nat, v: int)
    requires
        i64::MIN <= v <= i64::MAX,
        pos + spec_encode(BValue::Int(v)).len() <= s.len(),
        s.subrange(pos as int, pos as int + spec_encode(BValue::Int(v)).len() as int)
            == spec_encode(BValue::Int(v)),
    ensures
        spec_decode_int(s, pos)
            == Ok::<(BValue, nat), DecoderError>((
                BValue::Int(v),
                pos + spec_encode(BValue::Int(v)).len(),
            )),
{
    let enc = spec_encode(BValue::Int(v));
    let mag: nat = if v < 0 { (-v) as nat } else { v as nat };
    let dd = dec_digits(mag);
    lemma_dec_digits_props(mag);
    let q = pos + 1;
    if v < 0 {
        assert(enc =~= seq![0x69u8] + (seq![0x2du8] + dd) + seq![0x65u8]);
        assert(enc.len() == dd.len() + 3);
        assert(s[q as int] == enc[1]);
        assert(s[q as int] == 0x2du8);
        let dstart = q + 1;
        let k = dstart + dd.len();
        assert forall|i: int| dstart <= i < k implies is_digit(#[trigger] s[i]) by {
            assert(s[i] == enc[i - pos]);
            assert(enc[i - pos] == dd[i - pos - 2]);
        }
        assert(s[k as int] == enc[enc.len() - 1]);
        assert(s[k as int] == 0x65u8);
        assert(!is_digit(0x65u8));
        lemma_scan_digits_run(s, dstart, k);
        let ds = s.subrange(dstart as int, k as int);
        assert forall|i: int| 0 <= i < dd.len() implies ds[i] == dd[i] by {
            assert(ds[i] == s[dstart as int + i]);
            assert(s[dstart as int + i] == enc[dstart as int + i - pos]);
            assert(enc[dstart as int + i - pos] == dd[i]);
        }
        assert(ds =~= dd);
        assert(mag >= 1);
        assert(dd[0] != 0x30u8);
        assert(!(ds == seq![0x30u8])) by {
            if ds == seq![0x30u8] {
                assert(ds[0] == 0x30u8);
            }
        }
        assert(digits_val(ds) == mag);
        assert(k + 1 == pos + enc.len());
    } else {
        assert(enc =~= seq![0x69u8] + dd + seq![0x65u8]);
        assert(enc.len() == dd.len() + 2);
        let dstart = q;
        let k = dstart + dd.len();
        assert forall|i: int| dstart <= i < k implies is_digit(#[trigger] s[i]) by {
            assert(s[i] == enc[i - pos]);
            assert(enc[i - pos] == dd[i - pos - 1]);
        }
        assert(s[q as int] == enc[1]);
        assert(s[q as int] == dd[0]);
        assert(is_digit(dd[0]));
        assert(s[q as int] != 0x2bu8 && s[q as int] != 0x2du8);
        assert(s[k as int] == enc[enc.len() - 1]);
        assert(s[k as int] == 0x65u8);
        assert(!is_digit(0x65u8));
        lemma_scan_digits_run(s, dstart, k);
        let ds = s.subrange(dstart as int, k as int);
        assert forall|i: int| 0 <= i < dd.len() implies ds[i] == dd[i] by {
            assert(ds[i] == s[dstart as int + i]);
            assert(s[dstart as int + i] == enc[dstart as int + i - pos]);
            assert(enc[dstart as int + i - pos] == dd[i]);
        }
        assert(ds =~= dd);
        assert(digits_val(ds) == mag);
        assert(k + 1 == pos + enc.len());
    }
}

/// An encoding is never empty, and its first byte selects a production
/// (it is never the terminator 'e').
pub proof fn lemma_encode_first_byte(v: BValue)
    ensures
        spec_encode(v).len() >= 1,
        is_digit(spec_encode(v)[0]) || spec_encode(v)[0] == 0x69u8 || spec_encode(v)[0] == 0x6cu8
            || spec_encode(v)[0] == 0x64u8,
        spec_encode(v)[0] != 0x65u8,
{
    match v {
        BValue::Bytes(b) => {
            lemma_dec_digits_props(b.len());
            assert(spec_encode(v)[0] == dec_digits(b.len())[0]);
        },
        BValue::Int(i) => {
            assert(spec_encode(v)[0] == 0x69u8);
        },
        BValue::List(l) => {
            assert(spec_encode(v)[0] == 0x6cu8);
        },
        BValue::Dict(d) => {
            assert(spec_encode(v)[0] == 0x64u8);
        },
    }
}

/// Decoding an encoding placed at `pos` yields exactly the encoded value
/// and consumes exactly its bytes.
pub proof fn lemma_decode_encode_at(s: Seq<u8>, pos: nat, v: BValue)
    requires
        wf_bvalue(v),
        pos + spec_encode(v).len() <= s.len(),
        s.subrange(pos as int, pos as int + spec_encode(v).len() as int) == spec_encode(v),
    ensures
        spec_decode(s, pos) == Ok::<(BValue, nat), DecoderError>((v, pos + spec_encode(v).len())),
    decreases v,
{
    let enc = spec_encode(v);
    lemma_encode_first_byte(v);
    assert(s[pos as int] == enc[0]);
    match v {
        BValue::Bytes(b) => {
            lemma_dec_digits_props(b.len());
            assert(is_digit(s[pos as int]));
            lemma_decode_encode_bytes(s, pos, b);
        },
        BValue::Int(i) => {
            assert(s[pos as int] == 0x69u8);
            assert(!is_digit(0x69u8));
            lemma_decode_encode_int(s, pos, i);
        },
        BValue::List(l) => {
            assert(s[pos as int] == 0x6cu8);
            assert(!is_digit(0x6cu8));
            let body = spec_encode_seq(l);
            assert(enc =~= seq![0x6cu8] + body + seq![0x65u8]);
            assert(enc.len() == body.len() + 2);
            assert forall|i: int| 0 <= i < body.len() implies s[pos + 1 + i] == body[i] by {
                assert(s[pos + 1 + i] == enc[1 + i]);
                assert(enc[1 + i] == body[i]);
            }
            assert(s.subrange(pos as int + 1, pos as int + 1 + body.len() as int) =~= body);
            assert(s[pos as int + 1 + body.len() as int] == enc[enc.len() - 1]);
            assert(s[pos as int + 1 + body.len() as int] == 0x65u8);
            lemma_decode_encode_items(s, pos + 1, l);
        },
        BValue::Dict(d) => {
            assert(s[pos as int] == 0x64u8);
            assert(!is_digit(0x64u8));
            let body = spec_encode_pairs(d);
            assert(enc =~= seq![0x64u8] + body + seq![0x65u8]);
            assert(enc.len() == body.len() + 2);
            assert forall|i: int| 0 <= i < body.len() implies s[pos + 1 + i] == body[i] by {
                assert(s[pos + 1 + i] == enc[1 + i]);
                assert(enc[1 + i] == body[i]);
            }
            assert(s.subrange(pos as int + 1, pos as int + 1 + body.len() as int) =~= body);
            assert(s[pos as int + 1 + body.len() as int] == enc[enc.len() - 1]);
            assert(s[pos as int + 1 + body.len() as int] == 0x65u8);
            lemma_decode_encode_pairs(s, pos + 1, d);
        },
    }
}

/// Decoding a run of encoded list elements followed by 'e' yields them all.
pub proof fn lemma_decode_encode_items(s: Seq<u8>, pos: nat, l: Seq<BValue>)
    requires
        forall|i: int| 0 <= i < l.len() ==> wf_bvalue(#[trigger] l[i]),
        pos + spec_encode_seq(l).len() < s.len(),
        s.subrange(pos as int, pos as int + spec_encode_seq(l).len() as int) == spec_encode_seq(l),
        s[pos as int + spec_encode_seq(l).len() as int] == 0x65u8,
    ensures
        spec_decode_list_items(s, pos)
            == Ok::<(Seq<BValue>, nat), DecoderError>((l, pos + spec_encode_seq(l).len() + 1)),
    decreases l,
{
    if l.len() == 0 {
        assert(spec_encode_seq(l).len() == 0);
        assert(s[pos as int] == 0x65u8);
        assert(spec_decode_list_items(s, pos)
            == Ok::<(Seq<BValue>, nat), DecoderError>((Seq::empty(), pos + 1)));
        assert(l =~= Seq::<BValue>::empty());
    } else {
        let body = spec_encode_seq(l);
        let e0 = spec_encode(l[0]);
        let rest = spec_encode_seq(l.drop_first());
        assert(body == e0 + rest);
        lemma_encode_first_byte(l[0]);
        assert(s[pos as int] == body[0]);
        assert(body[0] == e0[0]);
        assert(s[pos as int] != 0x65u8);
        assert forall|i: int| 0 <= i < e0.len() implies s[pos + i] == e0[i] by {
            assert(s[pos + i] == body[i]);
            assert(body[i] == e0[i]);
        }
        assert(s.subrange(pos as int, pos as int + e0.len() as int) =~= e0);
        lemma_decode_encode_at(s, pos, l[0]);
        let p2 = pos + e0.len();
        assert forall|i: int| 0 <= i < rest.len() implies s[p2 + i] == rest[i] by {
            assert(s[p2 + i] == body[e0.len() + i]);
            assert(body[e0.len() + i] == rest[i]);
        }
        assert(s.subrange(p2 as int, p2 as int + rest.len() as int) =~= rest);
        assert(s[p2 as int + rest.len() as int] == 0x65u8);
        assert(forall|i: int| 0 <= i < l.drop_first().len()
            ==> wf_bvalue(#[trigger] l.drop_first()[i]));
        lemma_decode_encode_items(s, p2, l.drop_first());
        assert(seq![l[0]] + l.drop_first() =~= l);
    }
}

/// Decoding a run of encoded dictionary pairs followed by 'e' yields them all.
pub proof fn lemma_decode_encode_pairs(s: Seq<u8>, pos: nat, d: Seq<(Seq<u8>, BValue)>)
    requires
        forall|i: int| 0 <= i < d.len() ==> wf_bvalue(#[trigger] d[i].1),
        pos + spec_encode_pairs(d).len() < s.len(),
        s.subrange(pos as int, pos as int + spec_encode_pairs(d).len() as int)
            == spec_encode_pairs(d),
        s[pos as int + spec_encode_pairs(d).len() as int] == 0x65u8,
    ensures
        spec_decode_dict_items(s, pos)
            == Ok::<(Seq<(Seq<u8>, BValue)>, nat), DecoderError>((
                d,
                pos + spec_encode_pairs(d).len() + 1,
            )),
    decreases d,
{
    if d.len() == 0 {
        assert(spec_encode_pairs(d).len() == 0);
        assert(s[pos as int] == 0x65u8);
        assert(d =~= Seq::<(Seq<u8>, BValue)>::empty());
    } else {
        let body = spec_encode_pairs(d);
        let kb = d[0].0;
        let v0 = d[0].1;
        let ek = spec_encode(BValue::Bytes(kb));
        let ev = spec_encode(v0);
        let rest = spec_encode_pairs(d.drop_first());
        assert(body == dec_digits(kb.len()) + seq![0x3au8] + kb + ev + rest);
        assert(ek =~= dec_digits(kb.len()) + seq![0x3au8] + kb);
        assert forall|i: int| 0 <= i < ek.len() implies body[i] == ek[i] by {
        }
        lemma_dec_digits_props(kb.len());
        assert(s[pos as int] == body[0]);
        assert(body[0] == dec_digits(kb.len())[0]);
        assert(is_digit(s[pos as int]));
        assert(s[pos as int] != 0x65u8);
        assert forall|i: int| 0 <= i < ek.len() implies s[pos + i] == ek[i] by {
            assert(s[pos + i] == body[i]);
        }
        assert(s.subrange(pos as int, pos as int + ek.len() as int) =~= ek);
        lemma_decode_encode_bytes(s, pos, kb);
        let p2 = pos + ek.len();
        assert(spec_decode(s, pos) == Ok::<(BValue, nat), DecoderError>((BValue::Bytes(kb), p2)));
        lemma_encode_first_byte(v0);
        assert forall|i: int| 0 <= i < ev.len() implies s[p2 + i] == ev[i] by {
            assert(s[p2 + i] == body[ek.len() + i]);
            assert(body[ek.len() + i] == ev[i]);
        }
        assert(s[p2 as int] == ev[0]);
        assert(s[p2 as int] != 0x65u8);
        assert(s.subrange(p2 as int, p2 as int + ev.len() as int) =~= ev);
        lemma_decode_encode_at(s, p2, v0);
        let p3 = p2 + ev.len();
        assert forall|i: int| 0 <= i < rest.len() implies s[p3 + i] == rest[i] by {
            assert(s[p3 + i] == body[ek.len() + ev.len() + i]);
            assert(body[ek.len() + ev.len() + i] == rest[i]);
        }
        assert(s.subrange(p3 as int, p3 as int + rest.len() as int) =~= rest);
        assert(s[p3 as int + rest.len() as int] == 0x65u8);
        assert(forall|i: int| 0 <= i < d.drop_first().len()
            ==> wf_bvalue(#[trigger] d.drop_first()[i].1));
        lemma_decode_encode_pairs(s, p3, d.drop_first());
        assert(seq![(kb, v0)] + d.drop_first() =~= d);
    }
}

/// Law: for every well-formed value, decoding its encoding gives back the
/// value and consumes exactly its bytes, whatever bytes follow it.
pub proof fn lemma_decode_encode(v: BValue, rest: Seq<u8>)
    requires
        wf_bvalue(v),
    ensures
        spec_decode(spec_encode(v) + rest, 0)
            == Ok::<(BValue, nat), DecoderError>((v, spec_encode(v).len())),
{
    let s = spec_encode(v) + rest;
    assert(s.subrange(0, spec_encode(v).len() as int) =~= spec_encode(v));
    lemma_decode_encode_at(s, 0, v);
}

/// Law: a span that is the canonical encoding of a well-formed value
/// decodes to that value, and re-encoding the decoded value reproduces
/// the span byte for byte. In particular any digest of the re-encoding,
/// such as the info-hash, equals the digest of the original span.
pub proof fn lemma_reencode_span(s: Seq<u8>, pos: nat, w: BValue)
    requires
        wf_bvalue(w),
        pos + spec_encode(w).len() <= s.len(),
        s.subrange(pos as int, pos as int + spec_encode(w).len() as int) == spec_encode(w),
    ensures
        spec_decode(s, pos) matches Ok(vp)
            && vp.0 == w
            && spec_encode(vp.0) == s.subrange(pos as int, pos as int + spec_encode(w).len() as int),
{
    lemma_decode_encode_at(s, pos, w);
}

} // verus!
