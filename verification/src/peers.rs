//! The per-piece download state machine and the block request plan.
use vstd::prelude::*;
use crate::digest::{sha1_of, sha1_digest};
use crate::peer_message::{MessageID, PeerMessage, PeerMessageView, spec_frame, frame_message};
use crate::wire::{spec_u32_be, be32_val, u32_from_be4, push_all, bytes_eq};

verus! {

/// Blocks are requested in chunks of at most 16 KiB.
pub const BLOCK_MAX: u64 = 16 * 1024;

/// The ways a piece download can fail.
#[derive(Debug, Clone, Copy, PartialEq, Eq, Structural)]
pub enum PeersError {
    ChokedByPeer,
    UnexpectedMessage,
    MalformedBlock,
    WrongPieceIndex,
    BlockOutOfRange,
    HashMismatch,
}

/// Where the state machine stands for one piece.
#[derive(Debug, Clone, Copy, PartialEq, Eq, Structural)]
pub enum DownloadPhase {
    AwaitingBitfield,
    AwaitingUnchoke,
    AwaitingBlocks,
}

/// What the caller must do after feeding one message in.
pub enum DownloadStep {
    /// Write these bytes to the peer socket.
    Send(Vec<u8>),
    /// A block was stored; keep reading.
    Progress,
    /// The piece is complete and its SHA-1 matched.
    Done(Vec<u8>),
}

/// How many blocks a piece of this length needs.
pub open spec fn spec_num_blocks(piece_length: u32) -> nat {
    ((piece_length + BLOCK_MAX - 1) / (BLOCK_MAX as int)) as nat
}

/// The length of block `i`: `BLOCK_MAX` for all but the final block.
pub open spec fn spec_block_len(piece_length: u32, i: nat) -> nat {
    if (i + 1) * BLOCK_MAX <= piece_length {
        BLOCK_MAX as nat
    } else {
        (piece_length - i * BLOCK_MAX) as nat
    }
}

/// The Request payload for one block.
pub open spec fn spec_request_payload(piece_index: u32, begin: u32, len: u32) -> Seq<u8> {
    spec_u32_be(piece_index) + spec_u32_be(begin) + spec_u32_be(len)
}

/// The frame requesting block `i` of the piece.
pub open spec fn spec_request_frame(piece_index: u32, piece_length: u32, i: nat) -> Seq<u8> {
    spec_frame(
        PeerMessageView {
            message_id: MessageID::Request,
            payload: Some(
                spec_request_payload(
                    piece_index,
                    (i * BLOCK_MAX) as u32,
                    spec_block_len(piece_length, i) as u32,
                ),
            ),
        },
    )
}

/// The first `k` request frames, back to back.
pub open spec fn spec_requests_prefix(piece_index: u32, piece_length: u32, k: nat) -> Seq<u8>
    decreases k,
{
    if k == 0 {
        Seq::empty()
    } else {
        spec_requests_prefix(piece_index, piece_length, (k - 1) as nat) + spec_request_frame(
            piece_index,
            piece_length,
            (k - 1) as nat,
        )
    }
}

/// Every request frame for the piece, queued back to back.
pub open spec fn spec_requests_bytes(piece_index: u32, piece_length: u32) -> Seq<u8> {
    spec_requests_prefix(piece_index, piece_length, spec_num_blocks(piece_length))
}

/// The frame that announces interest.
pub open spec fn spec_interested_frame() -> Seq<u8> {
    spec_frame(PeerMessageView { message_id: MessageID::Interested, payload: None })
}

/// Build one `Request(piece, begin, length)` frame per block of the
/// piece, back to back, covering exactly `piece_length` bytes.
pub fn build_piece_requests(piece_index: u32, piece_length: u32) -> (r: Vec<u8>)
    ensures
        r@ == spec_requests_bytes(piece_index, piece_length),
{
    let blocks: u64 = ((piece_length as u64) + (BLOCK_MAX - 1)) / BLOCK_MAX;
    proof {
        assert(blocks == spec_num_blocks(piece_length));
    }
    let mut out: Vec<u8> = Vec::new();
    let mut block: u64 = 0;
    while block < blocks
        invariant
            block <= blocks,
            blocks == spec_num_blocks(piece_length),
            blocks * BLOCK_MAX < 0x200000000,
            out@ =~= spec_requests_prefix(piece_index, piece_length, block as nat),
        decreases blocks - block,
    {
        proof {
            assert(block * BLOCK_MAX < piece_length) by (nonlinear_arith)
                requires
                    block < blocks,
                    blocks == ((piece_length + BLOCK_MAX - 1) as int) / (BLOCK_MAX as int),
                    BLOCK_MAX == 0x4000,
                    0 <= piece_length <= u32::MAX,
                    0 <= block,
            ;
        }
        let begin: u64 = block * BLOCK_MAX;
        let block_length: u64;
        if block == blocks - 1 {
            block_length = (piece_length as u64) - begin;
            proof {
                assert(piece_length <= blocks * BLOCK_MAX) by (nonlinear_arith)
                    requires
                        blocks == ((piece_length + BLOCK_MAX - 1) as int) / (BLOCK_MAX as int),
                        BLOCK_MAX == 0x4000,
                        0 <= piece_length <= u32::MAX,
                ;
                assert(block_length == spec_block_len(piece_length, block as nat));
            }
        } else {
            block_length = BLOCK_MAX;
            proof {
                assert((block + 1) * BLOCK_MAX <= piece_length) by (nonlinear_arith)
                    requires
                        block + 1 < blocks,
                        blocks == ((piece_length + BLOCK_MAX - 1) as int) / (BLOCK_MAX as int),
                        BLOCK_MAX == 0x4000,
                        0 <= piece_length <= u32::MAX,
                        0 <= block,
                ;
                assert(block_length == spec_block_len(piece_length, block as nat));
            }
        }
        let mut payload: Vec<u8> = crate::wire::u32_to_be_vec(piece_index);
        let bv = crate::wire::u32_to_be_vec(begin as u32);
        let lv = crate::wire::u32_to_be_vec(block_length as u32);
        push_all(&mut payload, &bv);
        push_all(&mut payload, &lv);
        let msg = PeerMessage { message_id: MessageID::Request, payload: Some(payload) };
        let frame = match frame_message(&msg) {
            Ok(f) => f,
            Err(_) => {
                proof {
                    assert(false);
                }
                Vec::new()
            },
        };
        push_all(&mut out, &frame);
        proof {
            assert(frame@ =~= spec_request_frame(piece_index, piece_length, block as nat));
            assert(out@ =~= spec_requests_prefix(piece_index, piece_length, (block + 1) as nat));
        }
        block = block + 1;
    }
    out
}


/// Splice a completed piece into the output at `piece_index` times the
/// full piece length.
pub fn place_piece(output: &mut Vec<u8>, piece_index: usize, piece_length: usize, piece: &Vec<u8>)
    requires
        piece_index * piece_length + piece@.len() <= old(output)@.len(),
    ensures
        final(output)@ == old(output)@.subrange(0, piece_index * piece_length)
            + piece@ + old(output)@.skip(piece_index * piece_length + piece@.len()),
{
    let n = output.len();
    proof {
        assert(piece_index * piece_length <= n as int);
    }
    let offset = piece_index * piece_length;
    let ghost old_out = output@;
    let mut j: usize = 0;
    while j < piece.len()
        invariant
            j <= piece@.len(),
            offset == piece_index * piece_length,
            offset + piece@.len() <= output@.len(),
            output@.len() == old_out.len(),
            forall|k: int| 0 <= k < j ==> output@[offset + k] == #[trigger] piece@[k],
            forall|k: int| 0 <= k < output@.len() && !(offset <= k < offset + j)
                ==> output@[k] == old_out[k],
        decreases piece@.len() - j,
    {
        let b = piece[j];
        let _cur_len = output.len();
        output[offset + j] = b;
        j = j + 1;
    }
    proof {
        let spliced = old_out.subrange(0, offset as int) + piece@
            + old_out.skip(offset as int + piece@.len() as int);
        assert(spliced.len() == old_out.len());
        assert forall|i: int| 0 <= i < old_out.len() implies output@[i] == spliced[i] by {
            if i < offset as int {
                assert(spliced[i] == old_out[i]);
            } else if i < offset as int + piece@.len() as int {
                assert(spliced[i] == piece@[i - offset as int]);
                assert(output@[offset + (i - offset as int)] == piece@[i - offset as int]);
            } else {
                assert(spliced[i] == old_out[i]);
            }
        }
        assert(output@ =~= spliced);
    }
}

/// Build the announce GET URL: the tracker URL with the percent-encoded
/// info-hash, peer id and the bookkeeping counters appended.
pub fn construct_url(
    announce: &String,
    info_hash: &Vec<u8>,
    peer_id: &String,
    port: &String,
    uploaded: u64,
    downloaded: u64,
    left: u64,
    compact: bool,
) -> (r: String)
    ensures
        r@ == announce@ + "?info_hash="@ + crate::text::ascii_chars(
            crate::text::percent_encoded(info_hash@),
        ) + "&peer_id="@ + crate::text::ascii_chars(
            crate::text::percent_encoded(vstd::utf8::encode_utf8(peer_id@)),
        ) + "&port="@ + crate::text::ascii_chars(
            crate::text::percent_encoded(vstd::utf8::encode_utf8(port@)),
        ) + "&uploaded="@ + crate::text::ascii_chars(
            crate::text::percent_encoded(crate::bencode::dec_digits(uploaded as nat)),
        ) + "&downloaded="@ + crate::text::ascii_chars(
            crate::text::percent_encoded(crate::bencode::dec_digits(downloaded as nat)),
        ) + "&left="@ + crate::text::ascii_chars(
            crate::text::percent_encoded(crate::bencode::dec_digits(left as nat)),
        ) + "&compact="@ + (if compact {
            "1"@
        } else {
            "0"@
        }),
{
    let mut url = announce.clone();
    url.append("?info_hash=");
    let ih = crate::text::urlencode_bytes(info_hash);
    url.append(ih.as_str());
    url.append("&peer_id=");
    let pid = crate::text::urlencode_bytes(&peer_id.as_str().as_bytes_vec());
    url.append(pid.as_str());
    url.append("&port=");
    let pt = crate::text::urlencode_bytes(&port.as_str().as_bytes_vec());
    url.append(pt.as_str());
    url.append("&uploaded=");
    let up = crate::text::urlencode_bytes(&crate::bencode::u64_dec_digits(uploaded));
    url.append(up.as_str());
    url.append("&downloaded=");
    let dn = crate::text::urlencode_bytes(&crate::bencode::u64_dec_digits(downloaded));
    url.append(dn.as_str());
    url.append("&left=");
    let lf = crate::text::urlencode_bytes(&crate::bencode::u64_dec_digits(left));
    url.append(lf.as_str());
    url.append("&compact=");
    if compact {
        url.append("1");
    } else {
        url.append("0");
    }
    url
}

/// What to do after one socket read while waiting for frames.
#[derive(Debug, Clone, Copy, PartialEq, Eq, Structural)]
pub enum ReadOutcome {
    /// Keep reading, carrying the consecutive-empty-read count forward.
    KeepReading(u32),
    /// Five consecutive empty reads: declare the peer dead.
    PeerDead,
}

/// The bounded retry rule for peer reads: data resets the
/// consecutive-empty count, an empty read increments it, and the fifth
/// consecutive empty read ends the peer session.
pub fn note_read(consecutive_empty: u32, bytes_read: usize) -> (r: ReadOutcome)
    requires
        consecutive_empty < 5,
    ensures
        bytes_read > 0 ==> r == ReadOutcome::KeepReading(0),
        (bytes_read == 0 && consecutive_empty + 1 < 5) ==> r == ReadOutcome::KeepReading(
            (consecutive_empty + 1) as u32,
        ),
        (bytes_read == 0 && consecutive_empty + 1 == 5) ==> r == ReadOutcome::PeerDead,
{
    if bytes_read > 0 {
        ReadOutcome::KeepReading(0)
    } else if consecutive_empty + 1 == 5 {
        ReadOutcome::PeerDead
    } else {
        ReadOutcome::KeepReading(consecutive_empty + 1)
    }
}

/// Downloads one piece from one peer: tracks the phase, the scratch
/// buffer the blocks are spliced into, and the running byte count.
pub struct PieceDownload {
    piece_index: u32,
    piece_length: u32,
    expected_hash: Vec<u8>,
    data: Vec<u8>,
    received: u32,
    phase: DownloadPhase,
}

impl PieceDownload {
    pub closed spec fn piece_index(&self) -> u32 {
        self.piece_index
    }

    pub closed spec fn piece_length(&self) -> u32 {
        self.piece_length
    }

    pub closed spec fn expected_hash(&self) -> Seq<u8> {
        self.expected_hash@
    }

    pub closed spec fn data(&self) -> Seq<u8> {
        self.data@
    }

    pub closed spec fn received(&self) -> u32 {
        self.received
    }

    pub closed spec fn phase(&self) -> DownloadPhase {
        self.phase
    }

    /// The scratch buffer spans the piece, the running count never
    /// passes the piece length, and the expected hash is a SHA-1.
    pub open spec fn wf(&self) -> bool {
        &&& self.data().len() == self.piece_length()
        &&& self.received() <= self.piece_length()
        &&& self.expected_hash().len() == 20
    }

    /// Start a download in `AwaitingBitfield` with a zeroed scratch buffer.
    pub fn new(piece_index: u32, piece_length: u32, expected_hash: Vec<u8>) -> (r: PieceDownload)
        requires
            expected_hash@.len() == 20,
        ensures
            r.wf(),
            r.piece_index() == piece_index,
            r.piece_length() == piece_length,
            r.expected_hash() == expected_hash@,
            r.received() == 0,
            r.phase() == DownloadPhase::AwaitingBitfield,
            r.data() =~= Seq::new(piece_length as nat, |i: int| 0u8),
    {
        let mut data: Vec<u8> = Vec::new();
        let mut i: u32 = 0;
        while i < piece_length
            invariant
                i <= piece_length,
                data@ =~= Seq::new(i as nat, |k: int| 0u8),
            decreases piece_length - i,
        {
            data.push(0);
            proof {
                assert(data@ =~= Seq::new((i + 1) as nat, |k: int| 0u8));
            }
            i = i + 1;
        }
        PieceDownload {
            piece_index,
            piece_length,
            expected_hash,
            data,
            received: 0,
            phase: DownloadPhase::AwaitingBitfield,
        }
    }

    /// Feed one decoded peer message into the state machine.
    ///
    /// Bitfield answers with Interested; Unchoke answers with the full
    /// block request queue; each Piece message is validated and spliced
    /// into the scratch buffer at its `begin` offset, blocks arriving in
    /// any order. When the received byte count reaches the piece length
    /// the buffer is hashed: a match hands the piece out, a mismatch is
    /// fatal. Choke and every unexpected message abort the piece.
    #[verifier::rlimit(60)]
    pub fn on_message(&mut self, msg: PeerMessage) -> (r: Result<DownloadStep, PeersError>)
        requires
            old(self).wf(),
        ensures
            final(self).wf(),
            final(self).piece_index() == old(self).piece_index(),
            final(self).piece_length() == old(self).piece_length(),
            final(self).expected_hash() == old(self).expected_hash(),
            (msg@.message_id == MessageID::Bitfield && old(self).phase()
                == DownloadPhase::AwaitingBitfield) ==> (match r {
                Ok(DownloadStep::Send(b)) => b@ == spec_interested_frame() && final(self).phase()
                    == DownloadPhase::AwaitingUnchoke && final(self).data() == old(self).data()
                    && final(self).received() == old(self).received(),
                _ => false,
            }),
            (msg@.message_id == MessageID::UnChoke && (old(self).phase()
                == DownloadPhase::AwaitingBitfield || old(self).phase()
                == DownloadPhase::AwaitingUnchoke)) ==> (match r {
                Ok(DownloadStep::Send(b)) => b@ == spec_requests_bytes(
                    old(self).piece_index(),
                    old(self).piece_length(),
                ) && final(self).phase() == DownloadPhase::AwaitingBlocks && final(self).data()
                    == old(self).data() && final(self).received() == old(self).received(),
                _ => false,
            }),
            msg@.message_id == MessageID::Choke ==> r == Err::<DownloadStep, PeersError>(
                PeersError::ChokedByPeer,
            ) && *final(self) == *old(self),
            (msg@.message_id == MessageID::Piece && old(self).phase()
                == DownloadPhase::AwaitingBlocks) ==> (match msg@.payload {
                None => r == Err::<DownloadStep, PeersError>(PeersError::MalformedBlock)
                    && *final(self) == *old(self),
                Some(pl) => {
                    if pl.len() < 8 || pl.len() > 8 + BLOCK_MAX {
                        &&& r == Err::<DownloadStep, PeersError>(PeersError::MalformedBlock)
                        &&& *final(self) == *old(self)
                    } else {
                        let idx = be32_val(pl.subrange(0, 4));
                        let begin = be32_val(pl.subrange(4, 8));
                        let block = pl.skip(8);
                        if idx != old(self).piece_index() {
                            &&& r == Err::<DownloadStep, PeersError>(PeersError::WrongPieceIndex)
                            &&& *final(self) == *old(self)
                        } else if begin + block.len() > old(self).piece_length() || old(
                            self,
                        ).received() + block.len() > old(self).piece_length() {
                            &&& r == Err::<DownloadStep, PeersError>(PeersError::BlockOutOfRange)
                            &&& *final(self) == *old(self)
                        } else {
                            let spliced = old(self).data().subrange(0, begin as int) + block + old(
                                self,
                            ).data().skip((begin + block.len()) as int);
                            let got = old(self).received() + block.len();
                            &&& final(self).data() == spliced
                            &&& final(self).received() == got
                            &&& final(self).phase() == DownloadPhase::AwaitingBlocks
                            &&& (got < old(self).piece_length() ==> r matches Ok(
                                DownloadStep::Progress,
                            ))
                            &&& (got == old(self).piece_length() ==> ((sha1_of(spliced) == old(
                                self,
                            ).expected_hash() ==> (r matches Ok(DownloadStep::Done(d)) && d@
                                == spliced)) && (sha1_of(spliced) != old(self).expected_hash()
                                ==> r == Err::<DownloadStep, PeersError>(PeersError::HashMismatch))))
                        }
                    }
                },
            }),
            (msg@.message_id == MessageID::Bitfield && old(self).phase()
                != DownloadPhase::AwaitingBitfield) ==> r == Err::<DownloadStep, PeersError>(
                PeersError::UnexpectedMessage,
            ) && *final(self) == *old(self),
            (msg@.message_id == MessageID::Piece && old(self).phase()
                != DownloadPhase::AwaitingBlocks) ==> r == Err::<DownloadStep, PeersError>(
                PeersError::UnexpectedMessage,
            ) && *final(self) == *old(self),
            (msg@.message_id == MessageID::UnChoke && old(self).phase()
                == DownloadPhase::AwaitingBlocks) ==> r == Err::<DownloadStep, PeersError>(
                PeersError::UnexpectedMessage,
            ) && *final(self) == *old(self),
            (msg@.message_id == MessageID::Interested || msg@.message_id
                == MessageID::NotInterested || msg@.message_id == MessageID::Have
                || msg@.message_id == MessageID::Request || msg@.message_id == MessageID::Cancel
                || msg@.message_id == MessageID::Port) ==> r == Err::<DownloadStep, PeersError>(
                PeersError::UnexpectedMessage,
            ) && *final(self) == *old(self),
    {
        match msg.message_id {
            MessageID::Choke => Err(PeersError::ChokedByPeer),
            MessageID::Bitfield => {
                if self.phase != DownloadPhase::AwaitingBitfield {
                    return Err(PeersError::UnexpectedMessage);
                }
                let interested = PeerMessage { message_id: MessageID::Interested, payload: None };
                match frame_message(&interested) {
                    Ok(frame) => {
                        self.phase = DownloadPhase::AwaitingUnchoke;
                        Ok(DownloadStep::Send(frame))
                    },
                    Err(_) => {
                        proof {
                            assert(false);
                        }
                        Err(PeersError::UnexpectedMessage)
                    },
                }
            },
            MessageID::UnChoke => {
                if self.phase == DownloadPhase::AwaitingBlocks {
                    return Err(PeersError::UnexpectedMessage);
                }
                let frames = build_piece_requests(self.piece_index, self.piece_length);
                self.phase = DownloadPhase::AwaitingBlocks;
                Ok(DownloadStep::Send(frames))
            },
            MessageID::Piece => {
                if self.phase != DownloadPhase::AwaitingBlocks {
                    return Err(PeersError::UnexpectedMessage);
                }
                match msg.payload {
                    None => Err(PeersError::MalformedBlock),
                    Some(pl) => {
                        if pl.len() < 8 || (pl.len() as u64) > 8 + BLOCK_MAX {
                            return Err(PeersError::MalformedBlock);
                        }
                        let idx = u32_from_be4(pl[0], pl[1], pl[2], pl[3]);
                        let begin = u32_from_be4(pl[4], pl[5], pl[6], pl[7]);
                        proof {
                            assert(seq![pl@[0], pl@[1], pl@[2], pl@[3]] =~= pl@.subrange(0, 4));
                            assert(seq![pl@[4], pl@[5], pl@[6], pl@[7]] =~= pl@.subrange(4, 8));
                        }
                        let block_len = pl.len() - 8;
                        if idx != self.piece_index {
                            return Err(PeersError::WrongPieceIndex);
                        }
                        if (begin as u64) + (block_len as u64) > (self.piece_length as u64)
                            || (self.received as u64) + (block_len as u64)
                            > (self.piece_length as u64) {
                            return Err(PeersError::BlockOutOfRange);
                        }
                        let ghost old_data = self.data@;
                        let ghost old_self = *self;
                        let pl_len = pl.len();
                        let mut j: usize = 0;
                        while j < block_len
                            invariant
                                j <= block_len,
                                block_len == pl_len - 8,
                                pl_len == pl@.len(),
                                begin + block_len <= self.data@.len(),
                                self.data@.len() == old_data.len(),
                                self.piece_index == old_self.piece_index,
                                self.piece_length == old_self.piece_length,
                                self.expected_hash@ == old_self.expected_hash@,
                                self.received == old_self.received,
                                self.phase == old_self.phase,
                                old_self.wf(),
                                self.data@.len() == self.piece_length,
                                forall|k: int| 0 <= k < j ==> self.data@[begin as int + k]
                                    == #[trigger] pl@[8 + k],
                                forall|k: int| 0 <= k < self.data@.len() && !(begin <= k < begin
                                    + j) ==> self.data@[k] == old_data[k],
                            decreases block_len - j,
                        {
                            let b = pl[8 + j];
                            self.data[begin as usize + j] = b;
                            j = j + 1;
                        }
                        proof {
                            let spliced = old_data.subrange(0, begin as int) + pl@.skip(8)
                                + old_data.skip(begin as int + block_len as int);
                            assert(spliced.len() == old_data.len());
                            assert forall|i: int| 0 <= i < old_data.len() implies self.data@[i]
                                == spliced[i] by {
                                if i < begin as int {
                                    assert(spliced[i] == old_data[i]);
                                } else if i < begin as int + block_len as int {
                                    assert(spliced[i] == pl@[8 + (i - begin as int)]);
                                    assert(self.data@[begin as int + (i - begin as int)]
                                        == pl@[8 + (i - begin as int)]);
                                } else {
                                    assert(spliced[i] == old_data[i]);
                                }
                            }
                            assert(self.data@ =~= spliced);
                        }
                        self.received = self.received + (block_len as u32);
                        if self.received == self.piece_length {
                            let hash = sha1_digest(&self.data);
                            if bytes_eq(&hash, &self.expected_hash) {
                                let out = self.data.clone();
                                proof {
                                    assert(out@ =~= self.data@);
                                }
                                Ok(DownloadStep::Done(out))
                            } else {
                                Err(PeersError::HashMismatch)
                            }
                        } else {
                            Ok(DownloadStep::Progress)
                        }
                    },
                }
            },
            _ => Err(PeersError::UnexpectedMessage),
        }
    }
}


} // verus!
