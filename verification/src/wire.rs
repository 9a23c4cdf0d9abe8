//! Big-endian integers as they appear on the peer wire.
use vstd::prelude::*;

verus! {

/// The four big-endian bytes of a 32-bit value.
pub open spec fn spec_u32_be(x: u32) -> Seq<u8> {
    seq![
        (x / 0x1000000) as u8,
        ((x / 0x10000) % 0x100) as u8,
        ((x / 0x100) % 0x100) as u8,
        (x % 0x100) as u8,
    ]
}

/// The value of four big-endian bytes.
pub open spec fn be32_val(b: Seq<u8>) -> nat {
    (b[0] as nat) * 0x1000000 + (b[1] as nat) * 0x10000 + (b[2] as nat) * 0x100 + (b[3] as nat)
}

/// The value of two big-endian bytes.
pub open spec fn be16_val(b: Seq<u8>) -> nat {
    (b[0] as nat) * 0x100 + (b[1] as nat)
}

/// Reading back the four big-endian bytes of `x` gives `x`.
pub proof fn lemma_u32_be_roundtrip(x: u32)
    ensures
        be32_val(spec_u32_be(x)) == x,
{
    assert((x as int / 0x1000000) * 0x1000000 + ((x as int / 0x10000) % 0x100) * 0x10000
        + ((x as int / 0x100) % 0x100) * 0x100 + (x as int % 0x100) == x as int) by (nonlinear_arith)
        requires
            0 <= x as int <= 0xffffffffint,
    ;
}

/// Writing back the value read from four bytes gives the same bytes.
pub proof fn lemma_be32_bytes_roundtrip(b: Seq<u8>)
    requires
        b.len() == 4,
    ensures
        be32_val(b) <= u32::MAX,
        spec_u32_be(be32_val(b) as u32) == b,
{
    let v = be32_val(b) as int;
    assert(v / 0x1000000 == b[0] && (v / 0x10000) % 0x100 == b[1] && (v / 0x100) % 0x100 == b[2]
        && v % 0x100 == b[3]) by (nonlinear_arith)
        requires
            v == (b[0] as int) * 0x1000000 + (b[1] as int) * 0x10000 + (b[2] as int) * 0x100 + (
            b[3] as int),
            0 <= (b[0] as int),
            (b[0] as int) < 0x100,
            0 <= (b[1] as int),
            (b[1] as int) < 0x100,
            0 <= (b[2] as int),
            (b[2] as int) < 0x100,
            0 <= (b[3] as int),
            (b[3] as int) < 0x100,
    ;
    assert(spec_u32_be(be32_val(b) as u32) =~= b);
}

pub fn u32_from_be4(b0: u8, b1: u8, b2: u8, b3: u8) -> (x: u32)
    ensures
        x as nat == be32_val(seq![b0, b1, b2, b3]),
{
    let x = (b0 as u32) * 0x1000000 + (b1 as u32) * 0x10000 + (b2 as u32) * 0x100 + (b3 as u32);
    proof {
        assert(seq![b0, b1, b2, b3][0] == b0);
        assert(seq![b0, b1, b2, b3][1] == b1);
        assert(seq![b0, b1, b2, b3][2] == b2);
        assert(seq![b0, b1, b2, b3][3] == b3);
    }
    x
}

pub fn u16_from_be2(b0: u8, b1: u8) -> (x: u16)
    ensures
        x as nat == be16_val(seq![b0, b1]),
{
    let x = (b0 as u16) * 0x100 + (b1 as u16);
    proof {
        assert(seq![b0, b1][0] == b0);
        assert(seq![b0, b1][1] == b1);
    }
    x
}

/// The four big-endian bytes of `x`, most significant first.
pub fn u32_to_be_vec(x: u32) -> (r: Vec<u8>)
    ensures
        r@ == spec_u32_be(x),
{
    let mut r: Vec<u8> = Vec::new();
    r.push((x / 0x1000000) as u8);
    r.push(((x / 0x10000) % 0x100) as u8);
    r.push(((x / 0x100) % 0x100) as u8);
    r.push((x % 0x100) as u8);
    proof {
        assert(r@ =~= spec_u32_be(x));
    }
    r
}

/// Append the elements of `src` to `out`.
pub(crate) fn push_all(out: &mut Vec<u8>, src: &Vec<u8>)
    ensures
        final(out)@ == old(out)@ + src@,
{
    let mut j: usize = 0;
    while j < src.len()
        invariant
            j <= src.len(),
            out@ =~= old(out)@ + src@.subrange(0, j as int),
        decreases src@.len() - j,
    {
        out.push(src[j]);
        proof {
            assert(src@.subrange(0, j + 1) =~= src@.subrange(0, j as int).push(src@[j as int]));
        }
        j = j + 1;
    }
    proof {
        assert(src@.subrange(0, src@.len() as int) =~= src@);
    }
}

/// Compare two byte vectors.
pub(crate) fn bytes_eq(a: &Vec<u8>, b: &Vec<u8>) -> (r: bool)
    ensures
        r == (a@ == b@),
{
    if a.len() != b.len() {
        proof {
            assert(a@.len() != b@.len());
        }
        return false;
    }
    let mut i: usize = 0;
    while i < a.len()
        invariant
            i <= a.len(),
            a@.len() == b@.len(),
            forall|k: int| 0 <= k < i ==> a@[k] == b@[k],
        decreases a@.len() - i,
    {
        if a[i] != b[i] {
            return false;
        }
        i = i + 1;
    }
    proof {
        assert(a@ =~= b@);
    }
    true
}

/// Copy `data[i..j]` into a fresh vector.
pub(crate) fn copy_range(data: &Vec<u8>, i: usize, j: usize) -> (r: Vec<u8>)
    requires
        i <= j <= data@.len(),
    ensures
        r@ == data@.subrange(i as int, j as int),
{
    let mut out: Vec<u8> = Vec::new();
    let mut k: usize = i;
    while k < j
        invariant
            i <= k <= j <= data@.len(),
            out@ =~= data@.subrange(i as int, k as int),
        decreases j - k,
    {
        out.push(data[k]);
        proof {
            assert(data@.subrange(i as int, k + 1)
                =~= data@.subrange(i as int, k as int).push(data@[k as int]));
        }
        k = k + 1;
    }
    proof {
        assert(out@ =~= data@.subrange(i as int, j as int));
    }
    out
}

} // verus!
