//! The fixed 68-byte handshake exchanged on a new peer connection.
use vstd::prelude::*;

verus! {

/// The 19 bytes of "BitTorrent protocol".
pub open spec fn spec_protocol() -> Seq<u8> {
    seq![
        0x42u8, 0x69, 0x74, 0x54, 0x6f, 0x72, 0x72, 0x65, 0x6e, 0x74, 0x20, 0x70, 0x72, 0x6f,
        0x74, 0x6f, 0x63, 0x6f, 0x6c,
    ]
}

/// A handshake message: length byte, protocol string, reserved bytes,
/// info-hash and peer id.
#[derive(Clone, Debug)]
pub struct Handshake {
    pub length: u8,
    pub protocol: Vec<u8>,
    pub reserved: Vec<u8>,
    pub info_hash: Vec<u8>,
    pub peer_id: Vec<u8>,
}

/// The 68 bytes of a handshake on the wire.
pub open spec fn spec_handshake_bytes(h: Handshake) -> Seq<u8> {
    seq![h.length] + h.protocol@ + h.reserved@ + h.info_hash@ + h.peer_id@
}

impl Handshake {
    /// The shape every handshake this library builds or accepts has.
    pub open spec fn wf(&self) -> bool {
        &&& self.protocol@.len() == 19
        &&& self.reserved@.len() == 8
        &&& self.info_hash@.len() == 20
        &&& self.peer_id@.len() == 20
    }

    /// The handshake this client sends: length 19, the protocol string,
    /// zeroed reserved bytes, then the two 20-byte identifiers.
    pub fn new(info_hash: [u8; 20], peer_id: [u8; 20]) -> (r: Handshake)
        ensures
            r.wf(),
            r.length == 19,
            r.protocol@ == spec_protocol(),
            r.reserved@ =~= Seq::new(8, |i: int| 0u8),
            r.info_hash@ == info_hash@,
            r.peer_id@ == peer_id@,
    {
        let protocol: Vec<u8> = vec![
            0x42, 0x69, 0x74, 0x54, 0x6f, 0x72, 0x72, 0x65, 0x6e, 0x74, 0x20, 0x70, 0x72, 0x6f,
            0x74, 0x6f, 0x63, 0x6f, 0x6c,
        ];
        let reserved: Vec<u8> = vec![0, 0, 0, 0, 0, 0, 0, 0];
        let mut ih: Vec<u8> = Vec::new();
        let mut i: usize = 0;
        while i < 20
            invariant
                i <= 20,
                ih@ =~= info_hash@.subrange(0, i as int),
            decreases 20 - i,
        {
            ih.push(info_hash[i]);
            proof {
                assert(info_hash@.subrange(0, i + 1)
                    =~= info_hash@.subrange(0, i as int).push(info_hash@[i as int]));
            }
            i = i + 1;
        }
        let mut pid: Vec<u8> = Vec::new();
        let mut j: usize = 0;
        while j < 20
            invariant
                j <= 20,
                pid@ =~= peer_id@.subrange(0, j as int),
            decreases 20 - j,
        {
            pid.push(peer_id[j]);
            proof {
                assert(peer_id@.subrange(0, j + 1)
                    =~= peer_id@.subrange(0, j as int).push(peer_id@[j as int]));
            }
            j = j + 1;
        }
        proof {
            assert(info_hash@.subrange(0, 20) =~= info_hash@);
            assert(peer_id@.subrange(0, 20) =~= peer_id@);
            assert(protocol@ =~= spec_protocol());
        }
        Handshake { length: 19, protocol, reserved, info_hash: ih, peer_id: pid }
    }

    /// The 68 wire bytes of this handshake.
    pub fn to_bytes(&self) -> (r: Vec<u8>)
        ensures
            r@ == spec_handshake_bytes(*self),
            self.wf() ==> r@.len() == 68,
    {
        let mut out: Vec<u8> = Vec::new();
        out.push(self.length);
        crate::wire::push_all(&mut out, &self.protocol);
        crate::wire::push_all(&mut out, &self.reserved);
        crate::wire::push_all(&mut out, &self.info_hash);
        crate::wire::push_all(&mut out, &self.peer_id);
        proof {
            assert(out@ =~= spec_handshake_bytes(*self));
        }
        out
    }

    /// Split 68 received bytes into a handshake; any other length is refused.
    pub fn from_bytes(data: &Vec<u8>) -> (r: Option<Handshake>)
        ensures
            data@.len() == 68 ==> (match r {
                Some(h) => h.wf() && spec_handshake_bytes(h) == data@,
                None => false,
            }),
            data@.len() != 68 ==> r is None,
    {
        if data.len() != 68 {
            return None;
        }
        let length = data[0];
        let protocol = crate::wire::copy_range(data, 1, 20);
        let reserved = crate::wire::copy_range(data, 20, 28);
        let info_hash = crate::wire::copy_range(data, 28, 48);
        let peer_id = crate::wire::copy_range(data, 48, 68);
        let h = Handshake { length, protocol, reserved, info_hash, peer_id };
        proof {
            assert(spec_handshake_bytes(h) =~= data@);
        }
        Some(h)
    }

    /// Whether a returned handshake proves the peer speaks the protocol
    /// and serves the expected torrent: the exact 19-byte protocol
    /// string behind a length byte of 19, and the same info-hash.
    pub fn matches_expected(&self, expected_info_hash: &Vec<u8>) -> (r: bool)
        ensures
            r == (self.length == 19 && self.protocol@ == spec_protocol() && self.info_hash@
                == expected_info_hash@),
    {
        if self.length != 19 {
            return false;
        }
        let mut proto: Vec<u8> = vec![
            0x42, 0x69, 0x74, 0x54, 0x6f, 0x72, 0x72, 0x65, 0x6e, 0x74, 0x20, 0x70, 0x72, 0x6f,
            0x74, 0x6f, 0x63, 0x6f, 0x6c,
        ];
        proof {
            assert(proto@ =~= spec_protocol());
        }
        if !crate::wire::bytes_eq(&self.protocol, &proto) {
            return false;
        }
        crate::wire::bytes_eq(&self.info_hash, expected_info_hash)
    }
}

} // verus!
