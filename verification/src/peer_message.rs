//! Length-prefixed peer messages: `[4-byte big-endian N][id][N-1 payload bytes]`.
//! A zero-length frame is a keep-alive and never surfaces as a message.
use vstd::prelude::*;
use tokio_util::bytes::BytesMut;
use crate::netbuf::{buf_bytes, buf_len, buf_advance, buf_copy_range, buf_extend};
use crate::wire::{spec_u32_be, be32_val, u32_from_be4, u32_to_be_vec, lemma_u32_be_roundtrip, push_all};

verus! {

/// The one-byte identifier of a peer message.
#[derive(Debug, Clone, Copy, PartialEq, Eq, Structural)]
pub enum MessageID {
    Choke,
    UnChoke,
    Interested,
    NotInterested,
    Have,
    Bitfield,
    Request,
    Piece,
    Cancel,
    Port,
}

/// The ways a peer frame or message can be rejected.
#[derive(Debug, Clone, Copy, PartialEq, Eq, Structural)]
pub enum PeerMessageError {
    InvalidMessageId,
    PayloadRequired,
    PayloadForbidden,
    PayloadTooLarge,
}

impl MessageID {
    pub open spec fn spec_to_u8(self) -> u8 {
        match self {
            MessageID::Choke => 0,
            MessageID::UnChoke => 1,
            MessageID::Interested => 2,
            MessageID::NotInterested => 3,
            MessageID::Have => 4,
            MessageID::Bitfield => 5,
            MessageID::Request => 6,
            MessageID::Piece => 7,
            MessageID::Cancel => 8,
            MessageID::Port => 9,
        }
    }

    /// Identifiers 0 to 3 carry no payload; all others require one.
    pub open spec fn spec_should_have_payload(self) -> bool {
        !(self == MessageID::Choke || self == MessageID::UnChoke || self == MessageID::Interested
            || self == MessageID::NotInterested)
    }

    pub fn should_have_payload(&self) -> (r: bool)
        ensures
            r == self.spec_should_have_payload(),
    {
        match self {
            MessageID::Choke => false,
            MessageID::UnChoke => false,
            MessageID::Interested => false,
            MessageID::NotInterested => false,
            _ => true,
        }
    }

    pub fn to_u8(&self) -> (r: u8)
        ensures
            r == self.spec_to_u8(),
    {
        match self {
            MessageID::Choke => 0,
            MessageID::UnChoke => 1,
            MessageID::Interested => 2,
            MessageID::NotInterested => 3,
            MessageID::Have => 4,
            MessageID::Bitfield => 5,
            MessageID::Request => 6,
            MessageID::Piece => 7,
            MessageID::Cancel => 8,
            MessageID::Port => 9,
        }
    }

    /// The identifier for a byte, if the byte names one.
    pub open spec fn spec_from_u8(message_id: u8) -> Option<MessageID> {
        if message_id == 0 {
            Some(MessageID::Choke)
        } else if message_id == 1 {
            Some(MessageID::UnChoke)
        } else if message_id == 2 {
            Some(MessageID::Interested)
        } else if message_id == 3 {
            Some(MessageID::NotInterested)
        } else if message_id == 4 {
            Some(MessageID::Have)
        } else if message_id == 5 {
            Some(MessageID::Bitfield)
        } else if message_id == 6 {
            Some(MessageID::Request)
        } else if message_id == 7 {
            Some(MessageID::Piece)
        } else if message_id == 8 {
            Some(MessageID::Cancel)
        } else if message_id == 9 {
            Some(MessageID::Port)
        } else {
            None
        }
    }

    /// Read an identifier byte; bytes above 9 are rejected.
    pub fn from_u8(message_id: u8) -> (r: Result<MessageID, PeerMessageError>)
        ensures
            match r {
                Ok(m) => MessageID::spec_from_u8(message_id) == Some(m),
                Err(e) => MessageID::spec_from_u8(message_id) is None
                    && e == PeerMessageError::InvalidMessageId,
            },
    {
        match message_id {
            0 => Ok(MessageID::Choke),
            1 => Ok(MessageID::UnChoke),
            2 => Ok(MessageID::Interested),
            3 => Ok(MessageID::NotInterested),
            4 => Ok(MessageID::Have),
            5 => Ok(MessageID::Bitfield),
            6 => Ok(MessageID::Request),
            7 => Ok(MessageID::Piece),
            8 => Ok(MessageID::Cancel),
            9 => Ok(MessageID::Port),
            _ => Err(PeerMessageError::InvalidMessageId),
        }
    }
}

/// A peer message: an identifier and an optional opaque payload.
#[derive(Debug, Clone)]
pub struct PeerMessage {
    pub message_id: MessageID,
    pub payload: Option<Vec<u8>>,
}

/// The mathematical form of a peer message.
pub struct PeerMessageView {
    pub message_id: MessageID,
    pub payload: Option<Seq<u8>>,
}

impl View for PeerMessage {
    type V = PeerMessageView;

    open spec fn view(&self) -> PeerMessageView {
        PeerMessageView {
            message_id: self.message_id,
            payload: match self.payload {
                Some(p) => Some(p@),
                None => None,
            },
        }
    }
}

/// The bytes an optional payload holds.
pub open spec fn spec_opt_bytes(payload: Option<Vec<u8>>) -> Option<Seq<u8>> {
    match payload {
        Some(p) => Some(p@),
        None => None,
    }
}

/// The payload rule of an identifier: identifiers 0 to 3 carry no
/// bytes (absent or explicitly empty), all others require a non-empty
/// payload.
pub open spec fn spec_payload_rule(message_id: MessageID, payload: Option<Seq<u8>>) -> bool {
    if message_id.spec_should_have_payload() {
        payload matches Some(p) && p.len() >= 1
    } else {
        match payload {
            Some(p) => p.len() == 0,
            None => true,
        }
    }
}

/// A message the codec can frame: the payload obeys the identifier's
/// required/forbidden rule and the frame length fits 32 bits.
pub open spec fn spec_msg_wf(m: PeerMessageView) -> bool {
    match m.payload {
        Some(p) => m.message_id.spec_should_have_payload() && 1 <= p.len() && 1 + p.len()
            <= u32::MAX,
        None => !m.message_id.spec_should_have_payload(),
    }
}

/// The frame the encoder emits for a message.
pub open spec fn spec_frame(m: PeerMessageView) -> Seq<u8> {
    let size: nat = 1 + (match m.payload {
        Some(p) => p.len(),
        None => 0,
    });
    spec_u32_be(size as u32) + seq![m.message_id.spec_to_u8()] + (match m.payload {
        Some(p) => p,
        None => Seq::empty(),
    })
}

/// Which error a message that cannot be framed is rejected with.
pub open spec fn spec_frame_error(m: PeerMessageView) -> PeerMessageError {
    match m.payload {
        Some(p) => if !m.message_id.spec_should_have_payload() {
            PeerMessageError::PayloadForbidden
        } else if p.len() == 0 {
            PeerMessageError::PayloadRequired
        } else {
            PeerMessageError::PayloadTooLarge
        },
        None => PeerMessageError::PayloadRequired,
    }
}

/// What one decoding step does to a buffer: more bytes are needed, an
/// unknown identifier is rejected, or a message is produced. Each case
/// carries the buffer contents left behind; leading keep-alives are
/// consumed silently in every case.
pub enum FrameStep {
    Incomplete(Seq<u8>),
    Invalid(PeerMessageError, Seq<u8>),
    Frame(PeerMessageView, Seq<u8>),
}

/// A complete frame with a known identifier is always consumed whole:
/// its 4-byte length, the identifier, and exactly N-1 payload bytes,
/// which become the message payload for the identifiers that carry one
/// and are dropped for identifiers 0 to 3, whose messages carry none.
pub open spec fn frame_step(s: Seq<u8>) -> FrameStep
    decreases s.len(),
{
    if s.len() < 4 {
        FrameStep::Incomplete(s)
    } else {
        let n = be32_val(s.subrange(0, 4));
        if n == 0 {
            frame_step(s.skip(4))
        } else if s.len() < 4 + n {
            FrameStep::Incomplete(s)
        } else {
            match MessageID::spec_from_u8(s[4]) {
                None => FrameStep::Invalid(PeerMessageError::InvalidMessageId, s),
                Some(id) => {
                    if id.spec_should_have_payload() {
                        FrameStep::Frame(
                            PeerMessageView {
                                message_id: id,
                                payload: Some(s.subrange(5, 4 + n as int)),
                            },
                            s.skip(4 + n as int),
                        )
                    } else {
                        FrameStep::Frame(
                            PeerMessageView { message_id: id, payload: None },
                            s.skip(4 + n as int),
                        )
                    }
                },
            }
        }
    }
}

impl PeerMessage {
    /// Build a message, enforcing the payload rule of the identifier:
    /// identifiers 0 to 3 must not carry bytes (an explicitly empty
    /// payload is accepted), all others require a non-empty payload.
    /// The accepted message holds the payload exactly as passed.
    pub fn new(message_id: MessageID, payload: Option<Vec<u8>>) -> (r: Result<
        PeerMessage,
        PeerMessageError,
    >)
        ensures
            r is Ok <==> spec_payload_rule(message_id, spec_opt_bytes(payload)),
            match r {
                Ok(m) => m.message_id == message_id && spec_opt_bytes(m.payload) == spec_opt_bytes(
                    payload,
                ),
                Err(e) => e == (if message_id.spec_should_have_payload() {
                    PeerMessageError::PayloadRequired
                } else {
                    PeerMessageError::PayloadForbidden
                }),
            },
    {
        if message_id.should_have_payload() {
            match payload {
                None => Err(PeerMessageError::PayloadRequired),
                Some(p) => {
                    if p.len() == 0 {
                        Err(PeerMessageError::PayloadRequired)
                    } else {
                        Ok(PeerMessage { message_id, payload: Some(p) })
                    }
                },
            }
        } else {
            match payload {
                Some(p) => {
                    if p.len() > 0 {
                        Err(PeerMessageError::PayloadForbidden)
                    } else {
                        Ok(PeerMessage { message_id, payload: Some(p) })
                    }
                },
                None => Ok(PeerMessage { message_id, payload: None }),
            }
        }
    }

    /// Bytes after the length prefix: one for the identifier plus the payload.
    pub fn size(&self) -> (r: usize)
        requires
            (match self@.payload {
                Some(p) => p.len(),
                None => 0,
            }) < usize::MAX,
        ensures
            r == 1 + (match self@.payload {
                Some(p) => p.len(),
                None => 0,
            }),
    {
        let mut size: usize = 1;
        if let Some(ref payload) = self.payload {
            size += payload.len();
        }
        size
    }
}

pub struct PeerMessageDecoder {}

pub struct PeerMessageEncoder {}

impl PeerMessageDecoder {
    pub fn new() -> (r: Self) {
        PeerMessageDecoder {  }
    }

    /// Drain one frame from the buffer, skipping keep-alives.
    ///
    /// `Ok(None)` means the buffer holds no complete frame yet. A
    /// complete frame with a known identifier is consumed whole, its
    /// N-1 payload bytes becoming the message payload (none for
    /// identifiers 0 to 3); only an unknown identifier is rejected,
    /// and a rejected frame is never partially consumed.
    pub fn decode(&mut self, src: &mut BytesMut) -> (r: Result<
        Option<PeerMessage>,
        PeerMessageError,
    >)
        ensures
            match frame_step(buf_bytes(*old(src))) {
                FrameStep::Incomplete(rem) => r == Ok::<Option<PeerMessage>, PeerMessageError>(
                    None,
                ) && buf_bytes(*final(src)) == rem,
                FrameStep::Invalid(e, rem) => r == Err::<Option<PeerMessage>, PeerMessageError>(e)
                    && buf_bytes(*final(src)) == rem,
                FrameStep::Frame(m, rem) => (match r {
                    Ok(Some(msg)) => msg.message_id == m.message_id && (match (
                        msg@.payload,
                        m.payload,
                    ) {
                        (Some(p), Some(q)) => p == q,
                        (None, None) => true,
                        _ => false,
                    }),
                    _ => false,
                }) && buf_bytes(*final(src)) == rem,
            },
    {
        loop
            invariant
                frame_step(buf_bytes(*old(src))) == frame_step(buf_bytes(*src)),
            decreases buf_bytes(*src).len(),
        {
            let len = buf_len(src);
            if len < 4 {
                return Ok(None);
            }
            let prefix = buf_copy_range(src, 0, 4);
            let n = u32_from_be4(prefix[0], prefix[1], prefix[2], prefix[3]);
            proof {
                assert(prefix@ =~= buf_bytes(*src).subrange(0, 4));
            }
            if n == 0 {
                buf_advance(src, 4);
                continue ;
            }
            if ((len - 4) as u64) < (n as u64) {
                return Ok(None);
            }
            let frame_end = 4 + n as usize;
            let id_bytes = buf_copy_range(src, 4, 5);
            proof {
                assert(id_bytes@[0] == buf_bytes(*src)[4]);
            }
            match MessageID::from_u8(id_bytes[0]) {
                Err(e) => {
                    return Err(e);
                },
                Ok(id) => {
                    if id.should_have_payload() {
                        let payload = buf_copy_range(src, 5, frame_end);
                        buf_advance(src, frame_end);
                        return Ok(Some(PeerMessage { message_id: id, payload: Some(payload) }));
                    } else {
                        buf_advance(src, frame_end);
                        return Ok(Some(PeerMessage { message_id: id, payload: None }));
                    }
                },
            }
        }
    }
}

impl PeerMessageEncoder {
    pub fn new() -> (r: Self) {
        PeerMessageEncoder {  }
    }

    /// Append the frame for `item` to `dst`: the length, the identifier,
    /// then the payload. A message that breaks the payload rule, or one
    /// whose frame would not fit a 32-bit length, is rejected untouched.
    pub fn encode(&mut self, item: PeerMessage, dst: &mut BytesMut) -> (r: Result<
        (),
        PeerMessageError,
    >)
        ensures
            match r {
                Ok(()) => spec_msg_wf(item@) && buf_bytes(*final(dst)) == buf_bytes(*old(dst))
                    + spec_frame(item@),
                Err(e) => !spec_msg_wf(item@) && buf_bytes(*final(dst)) == buf_bytes(*old(dst))
                    && e == spec_frame_error(item@),
            },
    {
        let size: u32;
        match item.payload {
            Some(ref p) => {
                if !item.message_id.should_have_payload() {
                    return Err(PeerMessageError::PayloadForbidden);
                }
                if p.len() == 0 {
                    return Err(PeerMessageError::PayloadRequired);
                }
                if p.len() as u64 > (u32::MAX - 1) as u64 {
                    return Err(PeerMessageError::PayloadTooLarge);
                }
                size = 1 + p.len() as u32;
            },
            None => {
                if item.message_id.should_have_payload() {
                    return Err(PeerMessageError::PayloadRequired);
                }
                size = 1;
            },
        }
        let prefix = u32_to_be_vec(size);
        buf_extend(dst, prefix.as_slice());
        let id_byte: Vec<u8> = vec![item.message_id.to_u8()];
        buf_extend(dst, id_byte.as_slice());
        match item.payload {
            Some(ref p) => {
                buf_extend(dst, p.as_slice());
                proof {
                    assert(buf_bytes(*dst) =~= buf_bytes(*old(dst)) + spec_frame(item@));
                }
            },
            None => {
                proof {
                    assert(buf_bytes(*dst) =~= buf_bytes(*old(dst)) + spec_frame(item@));
                }
            },
        }
        Ok(())
    }
}

/// The whole frame for a message as a fresh byte vector: the encoder's
/// output without a buffer. Rejects the same messages the encoder rejects.
pub fn frame_message(msg: &PeerMessage) -> (r: Result<Vec<u8>, PeerMessageError>)
    ensures
        match r {
            Ok(b) => spec_msg_wf(msg@) && b@ == spec_frame(msg@),
            Err(e) => !spec_msg_wf(msg@) && e == spec_frame_error(msg@),
        },
{
    let size: u32;
    match msg.payload {
        Some(ref p) => {
            if !msg.message_id.should_have_payload() {
                return Err(PeerMessageError::PayloadForbidden);
            }
            if p.len() == 0 {
                return Err(PeerMessageError::PayloadRequired);
            }
            if p.len() as u64 > (u32::MAX - 1) as u64 {
                return Err(PeerMessageError::PayloadTooLarge);
            }
            size = 1 + p.len() as u32;
        },
        None => {
            if msg.message_id.should_have_payload() {
                return Err(PeerMessageError::PayloadRequired);
            }
            size = 1;
        },
    }
    let mut out = u32_to_be_vec(size);
    out.push(msg.message_id.to_u8());
    match msg.payload {
        Some(ref p) => {
            push_all(&mut out, p);
            proof {
                assert(out@ =~= spec_frame(msg@));
            }
        },
        None => {
            proof {
                assert(out@ =~= spec_frame(msg@));
            }
        },
    }
    Ok(out)
}

/// Law: the decoder consumes exactly the frame the encoder emitted and
/// reconstructs an equal message, whatever bytes follow the frame.
pub proof fn lemma_frame_roundtrip(m: PeerMessageView, rest: Seq<u8>)
    requires
        spec_msg_wf(m),
    ensures
        frame_step(spec_frame(m) + rest) matches FrameStep::Frame(m2, rem) && m2.message_id
            == m.message_id && m2.payload == m.payload && rem == rest,
{
    let s = spec_frame(m) + rest;
    let size: nat = 1 + (match m.payload {
        Some(p) => p.len(),
        None => 0,
    });
    let body: Seq<u8> = match m.payload {
        Some(p) => p,
        None => Seq::empty(),
    };
    lemma_u32_be_roundtrip(size as u32);
    assert(s.subrange(0, 4) =~= spec_u32_be(size as u32));
    assert(be32_val(s.subrange(0, 4)) == size);
    assert(s.len() == 4 + 1 + body.len() + rest.len());
    assert(s[4] == m.message_id.spec_to_u8());
    assert(MessageID::spec_from_u8(m.message_id.spec_to_u8()) == Some(m.message_id));
    match m.payload {
        Some(p) => {
            assert(m.message_id.spec_should_have_payload());
            assert(s.subrange(5, 4 + size as int) =~= p);
            assert(s.skip(4 + size as int) =~= rest);
        },
        None => {
            assert(!m.message_id.spec_should_have_payload());
            assert(s.skip(5) =~= rest);
        },
    }
}


} // verus!
