//! The Request message payload: three 32-bit big-endian fields.
use vstd::prelude::*;
use tokio_util::bytes::BytesMut;
use crate::netbuf::{buf_bytes, buf_len, buf_advance, buf_copy_range, buf_extend};
use crate::peer_message::PeerMessageError;
use crate::wire::{spec_u32_be, u32_from_be4, u32_to_be_vec, be32_val, lemma_u32_be_roundtrip, lemma_be32_bytes_roundtrip};

verus! {

/// A block request: piece index, byte offset, block length, each held
/// in wire form (big-endian bytes).
pub struct Request {
    index: [u8; 4],
    begin: [u8; 4],
    length: [u8; 4],
}

pub struct RequestDecoder {}

pub struct RequestEncoder {}

impl Request {
    pub closed spec fn index_bytes(&self) -> Seq<u8> {
        self.index@
    }

    pub closed spec fn begin_bytes(&self) -> Seq<u8> {
        self.begin@
    }

    pub closed spec fn length_bytes(&self) -> Seq<u8> {
        self.length@
    }

    /// The three fields as values.
    pub open spec fn index_val(&self) -> nat {
        be32_val(self.index_bytes())
    }

    pub open spec fn begin_val(&self) -> nat {
        be32_val(self.begin_bytes())
    }

    pub open spec fn length_val(&self) -> nat {
        be32_val(self.length_bytes())
    }

    pub fn new(index: u32, begin: u32, length: u32) -> (r: Request)
        ensures
            r.index_bytes() == spec_u32_be(index),
            r.begin_bytes() == spec_u32_be(begin),
            r.length_bytes() == spec_u32_be(length),
            r.index_bytes().len() == 4,
            r.begin_bytes().len() == 4,
            r.length_bytes().len() == 4,
            r.index_val() == index,
            r.begin_val() == begin,
            r.length_val() == length,
    {
        proof {
            lemma_u32_be_roundtrip(index);
            lemma_u32_be_roundtrip(begin);
            lemma_u32_be_roundtrip(length);
        }
        let iv = u32_to_be_vec(index);
        let bv = u32_to_be_vec(begin);
        let lv = u32_to_be_vec(length);
        let r = Request {
            index: [iv[0], iv[1], iv[2], iv[3]],
            begin: [bv[0], bv[1], bv[2], bv[3]],
            length: [lv[0], lv[1], lv[2], lv[3]],
        };
        proof {
            assert(r.index@ =~= iv@);
            assert(r.begin@ =~= bv@);
            assert(r.length@ =~= lv@);
        }
        r
    }

    /// A request payload is always twelve bytes on the wire.
    pub fn size() -> (r: usize)
        ensures
            r == 12,
    {
        4 * 3
    }
}

impl RequestDecoder {
    pub fn new() -> (r: Self) {
        RequestDecoder {  }
    }

    /// Read one request payload from the front of the buffer; `Ok(None)`
    /// when fewer than twelve bytes are held.
    pub fn decode(&mut self, src: &mut BytesMut) -> (r: Result<Option<Request>, PeerMessageError>)
        ensures
            buf_bytes(*old(src)).len() < 12 ==> r == Ok::<Option<Request>, PeerMessageError>(None)
                && buf_bytes(*final(src)) == buf_bytes(*old(src)),
            buf_bytes(*old(src)).len() >= 12 ==> (match r {
                Ok(Some(req)) => req.index_bytes() == buf_bytes(*old(src)).subrange(0, 4)
                    && req.begin_bytes() == buf_bytes(*old(src)).subrange(4, 8)
                    && req.length_bytes() == buf_bytes(*old(src)).subrange(8, 12)
                    && req.index_bytes().len() == 4 && req.begin_bytes().len() == 4
                    && req.length_bytes().len() == 4
                    && buf_bytes(*final(src)) == buf_bytes(*old(src)).skip(12),
                _ => false,
            }),
    {
        let len = buf_len(src);
        if len < 12 {
            return Ok(None);
        }
        let bytes = buf_copy_range(src, 0, 12);
        let index = u32_from_be4(bytes[0], bytes[1], bytes[2], bytes[3]);
        let begin = u32_from_be4(bytes[4], bytes[5], bytes[6], bytes[7]);
        let length = u32_from_be4(bytes[8], bytes[9], bytes[10], bytes[11]);
        buf_advance(src, 12);
        let req = Request::new(index, begin, length);
        proof {
            lemma_be32_bytes_roundtrip(buf_bytes(*old(src)).subrange(0, 4));
            lemma_be32_bytes_roundtrip(buf_bytes(*old(src)).subrange(4, 8));
            lemma_be32_bytes_roundtrip(buf_bytes(*old(src)).subrange(8, 12));
            assert(seq![bytes@[0], bytes@[1], bytes@[2], bytes@[3]]
                =~= buf_bytes(*old(src)).subrange(0, 4));
            assert(seq![bytes@[4], bytes@[5], bytes@[6], bytes@[7]]
                =~= buf_bytes(*old(src)).subrange(4, 8));
            assert(seq![bytes@[8], bytes@[9], bytes@[10], bytes@[11]]
                =~= buf_bytes(*old(src)).subrange(8, 12));
        }
        Ok(Some(req))
    }
}

impl RequestEncoder {
    pub fn new() -> (r: Self) {
        RequestEncoder {  }
    }

    /// Append the twelve payload bytes to `dst`.
    pub fn encode(&mut self, item: Request, dst: &mut BytesMut) -> (r: Result<
        (),
        PeerMessageError,
    >)
        ensures
            r is Ok,
            buf_bytes(*final(dst)) == buf_bytes(*old(dst)) + item.index_bytes()
                + item.begin_bytes() + item.length_bytes(),
            buf_bytes(*final(dst)).len() == buf_bytes(*old(dst)).len() + 12,
    {
        buf_extend(dst, item.index.as_slice());
        buf_extend(dst, item.begin.as_slice());
        buf_extend(dst, item.length.as_slice());
        Ok(())
    }
}

} // verus!
