//! The tracker's announce response and its compact peer list.
use vstd::prelude::*;
use crate::bencode::{BValue, Bencode, views_of_pairs, decode_value_at, dec_digits};
use crate::metainfo::{spec_dict_get, opt_utf8_ok, ParserError, spec_top_dict};
use crate::text::{ascii_chars, ascii_to_string};
use crate::wire::{be16_val, copy_range};
use vstd::utf8::encode_utf8;

verus! {

pub open spec fn key_failure_reason() -> Seq<u8> {
    seq![0x66u8, 0x61, 0x69, 0x6c, 0x75, 0x72, 0x65, 0x20, 0x72, 0x65, 0x61, 0x73, 0x6f, 0x6e]
}

pub open spec fn key_warning_message() -> Seq<u8> {
    seq![0x77u8, 0x61, 0x72, 0x6e, 0x69, 0x6e, 0x67, 0x20, 0x6d, 0x65, 0x73, 0x73, 0x61, 0x67,
        0x65]
}

pub open spec fn key_interval() -> Seq<u8> {
    seq![0x69u8, 0x6e, 0x74, 0x65, 0x72, 0x76, 0x61, 0x6c]
}

pub open spec fn key_min_interval() -> Seq<u8> {
    seq![0x6du8, 0x69, 0x6e, 0x20, 0x69, 0x6e, 0x74, 0x65, 0x72, 0x76, 0x61, 0x6c]
}

pub open spec fn key_tracker_id() -> Seq<u8> {
    seq![0x74u8, 0x72, 0x61, 0x63, 0x6b, 0x65, 0x72, 0x20, 0x69, 0x64]
}

pub open spec fn key_complete() -> Seq<u8> {
    seq![0x63u8, 0x6f, 0x6d, 0x70, 0x6c, 0x65, 0x74, 0x65]
}

pub open spec fn key_incomplete() -> Seq<u8> {
    seq![0x69u8, 0x6e, 0x63, 0x6f, 0x6d, 0x70, 0x6c, 0x65, 0x74, 0x65]
}

pub open spec fn key_peers() -> Seq<u8> {
    seq![0x70u8, 0x65, 0x65, 0x72, 0x73]
}

/// What the tracker answered: the announce interval, the swarm counts,
/// and the compact peer list, six bytes per peer.
#[derive(Debug)]
pub struct TrackerResponse {
    pub failure_reason: Option<String>,
    pub warning_message: Option<String>,
    pub interval: u64,
    pub min_interval: Option<u64>,
    pub tracker_id: Option<String>,
    pub complete: u64,
    pub incomplete: u64,
    pub peers: Vec<u8>,
}

/// A well-formed tracker response dictionary: the three counters are
/// non-negative integers and the compact peer list is whole records.
pub open spec fn spec_tracker_ok(d: Seq<(Seq<u8>, BValue)>) -> bool {
    &&& (spec_dict_get(d, key_interval()) matches Some(BValue::Int(x)) && 0 <= x)
    &&& (spec_dict_get(d, key_complete()) matches Some(BValue::Int(x)) && 0 <= x)
    &&& (spec_dict_get(d, key_incomplete()) matches Some(BValue::Int(x)) && 0 <= x)
    &&& (spec_dict_get(d, key_peers()) matches Some(BValue::Bytes(ps)) && ps.len() % 6 == 0)
    &&& opt_utf8_ok(spec_dict_get(d, key_failure_reason()))
    &&& opt_utf8_ok(spec_dict_get(d, key_warning_message()))
    &&& opt_utf8_ok(spec_dict_get(d, key_tracker_id()))
    &&& (match spec_dict_get(d, key_min_interval()) {
        None => true,
        Some(v) => (v matches BValue::Int(x) && 0 <= x),
    })
}

/// The parsed response corresponds field by field to its dictionary.
pub open spec fn rel_tracker(d: Seq<(Seq<u8>, BValue)>, t: TrackerResponse) -> bool {
    &&& (spec_dict_get(d, key_interval()) matches Some(BValue::Int(x)) && t.interval == x)
    &&& (spec_dict_get(d, key_complete()) matches Some(BValue::Int(x)) && t.complete == x)
    &&& (spec_dict_get(d, key_incomplete()) matches Some(BValue::Int(x)) && t.incomplete == x)
    &&& (spec_dict_get(d, key_peers()) matches Some(BValue::Bytes(ps)) && t.peers@ == ps)
    &&& (match spec_dict_get(d, key_failure_reason()) {
        None => t.failure_reason is None,
        Some(v) => (v matches BValue::Bytes(b) && (t.failure_reason matches Some(s)
            && encode_utf8(s@) == b)),
    })
    &&& (match spec_dict_get(d, key_warning_message()) {
        None => t.warning_message is None,
        Some(v) => (v matches BValue::Bytes(b) && (t.warning_message matches Some(s)
            && encode_utf8(s@) == b)),
    })
    &&& (match spec_dict_get(d, key_tracker_id()) {
        None => t.tracker_id is None,
        Some(v) => (v matches BValue::Bytes(b) && (t.tracker_id matches Some(s) && encode_utf8(
            s@,
        ) == b)),
    })
    &&& (match spec_dict_get(d, key_min_interval()) {
        None => t.min_interval is None,
        Some(v) => (v matches BValue::Int(x) && (t.min_interval matches Some(y) && y == x)),
    })
}

/// The ASCII bytes of one `ip:port` endpoint read from a 6-byte record.
pub open spec fn spec_peer_bytes(rec: Seq<u8>) -> Seq<u8> {
    dec_digits(rec[0] as nat) + seq![0x2eu8] + dec_digits(rec[1] as nat) + seq![0x2eu8]
        + dec_digits(rec[2] as nat) + seq![0x2eu8] + dec_digits(rec[3] as nat) + seq![0x3au8]
        + dec_digits(be16_val(rec.subrange(4, 6)))
}

impl TrackerResponse {
    pub open spec fn wf(&self) -> bool {
        self.peers@.len() % 6 == 0
    }

    /// Decode a tracker response body.
    ///
    /// Succeeds exactly when the body is one bencoded dictionary
    /// spanning the whole input whose `interval`, `complete` and
    /// `incomplete` are non-negative integers and whose `peers` is a
    /// byte-string of whole 6-byte records.
    pub fn from_bytes(data: &Vec<u8>) -> (r: Result<TrackerResponse, ParserError>)
        ensures
            match r {
                Ok(t) => (spec_top_dict(data@) matches Some(d) && spec_tracker_ok(d)
                    && rel_tracker(d, t) && t.wf()),
                Err(e) => (e matches ParserError::InvalidBencodedData) && !(spec_top_dict(data@)
                    matches Some(d) && spec_tracker_ok(d)),
            },
    {
        let top = match decode_value_at(data, 0) {
            Ok((v, end)) => {
                if end != data.len() {
                    return Err(ParserError::InvalidBencodedData);
                }
                v
            },
            Err(_) => {
                return Err(ParserError::InvalidBencodedData);
            },
        };
        let pairs = match top {
            Bencode::Dict(pairs) => pairs,
            _ => {
                return Err(ParserError::InvalidBencodedData);
            },
        };
        let ghost d = views_of_pairs(pairs@);
        proof {
            assert(spec_top_dict(data@) == Some(d));
        }
        let interval = match crate::metainfo::get_opt_i64(&pairs, &kv_interval()) {
            Ok(Some(x)) => {
                if x < 0 {
                    return Err(ParserError::InvalidBencodedData);
                }
                x as u64
            },
            Ok(None) => {
                return Err(ParserError::InvalidBencodedData);
            },
            Err(e) => {
                return Err(e);
            },
        };
        let complete = match crate::metainfo::get_opt_i64(&pairs, &kv_complete()) {
            Ok(Some(x)) => {
                if x < 0 {
                    return Err(ParserError::InvalidBencodedData);
                }
                x as u64
            },
            Ok(None) => {
                return Err(ParserError::InvalidBencodedData);
            },
            Err(e) => {
                return Err(e);
            },
        };
        let incomplete = match crate::metainfo::get_opt_i64(&pairs, &kv_incomplete()) {
            Ok(Some(x)) => {
                if x < 0 {
                    return Err(ParserError::InvalidBencodedData);
                }
                x as u64
            },
            Ok(None) => {
                return Err(ParserError::InvalidBencodedData);
            },
            Err(e) => {
                return Err(e);
            },
        };
        let min_interval = match crate::metainfo::get_opt_i64(&pairs, &kv_min_interval()) {
            Ok(None) => None,
            Ok(Some(x)) => {
                if x < 0 {
                    return Err(ParserError::InvalidBencodedData);
                }
                Some(x as u64)
            },
            Err(e) => {
                return Err(e);
            },
        };
        let failure_reason = match crate::metainfo::get_opt_string(&pairs, &kv_failure_reason()) {
            Ok(o) => o,
            Err(e) => {
                return Err(e);
            },
        };
        let warning_message = match crate::metainfo::get_opt_string(&pairs, &kv_warning_message()) {
            Ok(o) => o,
            Err(e) => {
                return Err(e);
            },
        };
        let tracker_id = match crate::metainfo::get_opt_string(&pairs, &kv_tracker_id()) {
            Ok(o) => o,
            Err(e) => {
                return Err(e);
            },
        };
        let peers = match crate::metainfo::dict_get(&pairs, &kv_peers()) {
            Some(Bencode::Bytes(b)) => crate::metainfo::clone_bytes(b),
            Some(_) => {
                return Err(ParserError::InvalidBencodedData);
            },
            None => {
                return Err(ParserError::InvalidBencodedData);
            },
        };
        if peers.len() % 6 != 0 {
            return Err(ParserError::InvalidBencodedData);
        }
        Ok(
            TrackerResponse {
                failure_reason,
                warning_message,
                interval,
                min_interval,
                tracker_id,
                complete,
                incomplete,
                peers,
            },
        )
    }

    /// Render one 6-byte record as `a.b.c.d:port`, octets in decimal
    /// and the port read big-endian.
    pub fn ip_bytes_to_ip_string(bytes: &Vec<u8>) -> (r: String)
        requires
            bytes@.len() >= 6,
        ensures
            r@ == ascii_chars(spec_peer_bytes(bytes@.subrange(0, 6))),
    {
        let mut out: Vec<u8> = Vec::new();
        let d0 = crate::bencode::u64_dec_digits(bytes[0] as u64);
        crate::wire::push_all(&mut out, &d0);
        out.push(0x2e);
        let d1 = crate::bencode::u64_dec_digits(bytes[1] as u64);
        crate::wire::push_all(&mut out, &d1);
        out.push(0x2e);
        let d2 = crate::bencode::u64_dec_digits(bytes[2] as u64);
        crate::wire::push_all(&mut out, &d2);
        out.push(0x2e);
        let d3 = crate::bencode::u64_dec_digits(bytes[3] as u64);
        crate::wire::push_all(&mut out, &d3);
        out.push(0x3a);
        let port = crate::wire::u16_from_be2(bytes[4], bytes[5]);
        let dp = crate::bencode::u64_dec_digits(port as u64);
        crate::wire::push_all(&mut out, &dp);
        proof {
            let rec = bytes@.subrange(0, 6);
            assert(seq![bytes@[4], bytes@[5]] =~= rec.subrange(4, 6));
            assert(out@ =~= spec_peer_bytes(rec));
            crate::bencode_laws::lemma_dec_digits_props(rec[0] as nat);
            crate::bencode_laws::lemma_dec_digits_props(rec[1] as nat);
            crate::bencode_laws::lemma_dec_digits_props(rec[2] as nat);
            crate::bencode_laws::lemma_dec_digits_props(rec[3] as nat);
            crate::bencode_laws::lemma_dec_digits_props(be16_val(rec.subrange(4, 6)));
            assert forall|i: int| 0 <= i < out@.len() implies out@[i] < 128 by {
                assert(out@[i] == spec_peer_bytes(rec)[i]);
            }
        }
        ascii_to_string(out)
    }

    /// Every peer the tracker sent, as `ip:port` strings in order.
    pub fn peers(&self) -> (r: Vec<String>)
        requires
            self.wf(),
        ensures
            r@.len() == self.peers@.len() / 6,
            forall|k: int| 0 <= k < r@.len() ==> (#[trigger] r@[k])@ == ascii_chars(
                spec_peer_bytes(self.peers@.subrange(6 * k, 6 * k + 6)),
            ),
    {
        let mut out: Vec<String> = Vec::new();
        let count = self.peers.len() / 6;
        let mut k: usize = 0;
        while k < count
            invariant
                k <= count,
                count == self.peers@.len() / 6,
                self.peers@.len() % 6 == 0,
                out@.len() == k,
                forall|i: int| 0 <= i < k ==> (#[trigger] out@[i])@ == ascii_chars(
                    spec_peer_bytes(self.peers@.subrange(6 * i, 6 * i + 6)),
                ),
            decreases count - k,
        {
            let n = self.peers.len();
            proof {
                assert(6 * (k as int) + 6 <= n as int) by (nonlinear_arith)
                    requires
                        0 <= k,
                        (k as int) < (n as int) / 6,
                        (n as int) % 6 == 0,
                ;
            }
            let rec = copy_range(&self.peers, 6 * k, 6 * k + 6);
            let s = Self::ip_bytes_to_ip_string(&rec);
            proof {
                assert(rec@.subrange(0, 6) =~= self.peers@.subrange(
                    6 * (k as int),
                    6 * (k as int) + 6,
                ));
            }
            out.push(s);
            k = k + 1;
        }
        out
    }
}

fn kv_failure_reason() -> (r: Vec<u8>)
    ensures
        r@ == key_failure_reason(),
{
    let r: Vec<u8> = vec![0x66, 0x61, 0x69, 0x6c, 0x75, 0x72, 0x65, 0x20, 0x72, 0x65, 0x61, 0x73,
        0x6f, 0x6e];
    proof {
        assert(r@ =~= key_failure_reason());
    }
    r
}

fn kv_warning_message() -> (r: Vec<u8>)
    ensures
        r@ == key_warning_message(),
{
    let r: Vec<u8> = vec![0x77, 0x61, 0x72, 0x6e, 0x69, 0x6e, 0x67, 0x20, 0x6d, 0x65, 0x73, 0x73,
        0x61, 0x67, 0x65];
    proof {
        assert(r@ =~= key_warning_message());
    }
    r
}

fn kv_interval() -> (r: Vec<u8>)
    ensures
        r@ == key_interval(),
{
    let r: Vec<u8> = vec![0x69, 0x6e, 0x74, 0x65, 0x72, 0x76, 0x61, 0x6c];
    proof {
        assert(r@ =~= key_interval());
    }
    r
}

fn kv_min_interval() -> (r: Vec<u8>)
    ensures
        r@ == key_min_interval(),
{
    let r: Vec<u8> = vec![0x6d, 0x69, 0x6e, 0x20, 0x69, 0x6e, 0x74, 0x65, 0x72, 0x76, 0x61, 0x6c];
    proof {
        assert(r@ =~= key_min_interval());
    }
    r
}

fn kv_tracker_id() -> (r: Vec<u8>)
    ensures
        r@ == key_tracker_id(),
{
    let r: Vec<u8> = vec![0x74, 0x72, 0x61, 0x63, 0x6b, 0x65, 0x72, 0x20, 0x69, 0x64];
    proof {
        assert(r@ =~= key_tracker_id());
    }
    r
}

fn kv_complete() -> (r: Vec<u8>)
    ensures
        r@ == key_complete(),
{
    let r: Vec<u8> = vec![0x63, 0x6f, 0x6d, 0x70, 0x6c, 0x65, 0x74, 0x65];
    proof {
        assert(r@ =~= key_complete());
    }
    r
}

fn kv_incomplete() -> (r: Vec<u8>)
    ensures
        r@ == key_incomplete(),
{
    let r: Vec<u8> = vec![0x69, 0x6e, 0x63, 0x6f, 0x6d, 0x70, 0x6c, 0x65, 0x74, 0x65];
    proof {
        assert(r@ =~= key_incomplete());
    }
    r
}

fn kv_peers() -> (r: Vec<u8>)
    ensures
        r@ == key_peers(),
{
    let r: Vec<u8> = vec![0x70, 0x65, 0x65, 0x72, 0x73];
    proof {
        assert(r@ =~= key_peers());
    }
    r
}

} // verus!
