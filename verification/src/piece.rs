//! The Piece message payload: index, begin, then the block bytes.
use vstd::prelude::*;
use tokio_util::bytes::BytesMut;
use crate::netbuf::{buf_bytes, buf_len, buf_advance, buf_copy_range};
use crate::peer_message::PeerMessageError;
use crate::peers::BLOCK_MAX;
use crate::wire::{be32_val, u32_from_be4};

verus! {

/// One delivered block: which piece, at which offset, and the bytes.
pub struct Piece {
    pub index: u32,
    pub begin: u32,
    pub block: Vec<u8>,
}

pub struct PieceDecoder {}

impl Piece {
    pub fn new(index: u32, begin: u32, block: Vec<u8>) -> (r: Piece)
        ensures
            r.index == index,
            r.begin == begin,
            r.block@ == block@,
    {
        Piece { index, begin, block }
    }
}

impl PieceDecoder {
    pub fn new() -> (r: Self) {
        PieceDecoder {  }
    }

    /// Read a piece payload: two 32-bit big-endian fields, then every
    /// remaining byte as the block. A block is never larger than
    /// `BLOCK_MAX`, so an oversized payload is required away.
    pub fn decode(&mut self, src: &mut BytesMut) -> (r: Result<Option<Piece>, PeerMessageError>)
        requires
            buf_bytes(*old(src)).len() <= 8 + BLOCK_MAX,
        ensures
            buf_bytes(*old(src)).len() < 8 ==> r == Ok::<Option<Piece>, PeerMessageError>(None)
                && buf_bytes(*final(src)) == buf_bytes(*old(src)),
            buf_bytes(*old(src)).len() >= 8 ==> (match r {
                Ok(Some(p)) => p.index as nat == be32_val(buf_bytes(*old(src)).subrange(0, 4))
                    && p.begin as nat == be32_val(buf_bytes(*old(src)).subrange(4, 8))
                    && p.block@ == buf_bytes(*old(src)).skip(8)
                    && buf_bytes(*final(src)).len() == 0,
                _ => false,
            }),
    {
        let len = buf_len(src);
        if len < 8 {
            return Ok(None);
        }
        let head = buf_copy_range(src, 0, 8);
        let index = u32_from_be4(head[0], head[1], head[2], head[3]);
        let begin = u32_from_be4(head[4], head[5], head[6], head[7]);
        let block = buf_copy_range(src, 8, len);
        buf_advance(src, len);
        proof {
            assert(seq![head@[0], head@[1], head@[2], head@[3]]
                =~= buf_bytes(*old(src)).subrange(0, 4));
            assert(seq![head@[4], head@[5], head@[6], head@[7]]
                =~= buf_bytes(*old(src)).subrange(4, 8));
            assert(buf_bytes(*old(src)).subrange(8, buf_bytes(*old(src)).len() as int)
                =~= buf_bytes(*old(src)).skip(8));
        }
        Ok(Some(Piece::new(index, begin, block)))
    }
}

} // verus!
