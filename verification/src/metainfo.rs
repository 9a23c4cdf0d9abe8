//! The typed view over a decoded torrent: the info descriptor, its
//! canonical re-encoding and hash, and the per-piece arithmetic.
use vstd::prelude::*;
use crate::bencode::{
    BValue, Bencode, spec_decode, spec_encode, views_of_pairs, decode_value_at, encode_value,
};
use crate::digest::{sha1_of, sha1_digest};
use crate::text::{
    ascii_chars, hex_lower_bytes, percent_encoded, hex_lower_string, urlencode_bytes,
    utf8_to_string,
};
use vstd::utf8::encode_utf8;

verus! {

pub open spec fn key_announce() -> Seq<u8> {
    seq![0x61u8, 0x6e, 0x6e, 0x6f, 0x75, 0x6e, 0x63, 0x65]
}

pub open spec fn key_announce_list() -> Seq<u8> {
    seq![0x61u8, 0x6e, 0x6e, 0x6f, 0x75, 0x6e, 0x63, 0x65, 0x2d, 0x6c, 0x69, 0x73, 0x74]
}

pub open spec fn key_creation_date() -> Seq<u8> {
    seq![0x63u8, 0x72, 0x65, 0x61, 0x74, 0x69, 0x6f, 0x6e, 0x20, 0x64, 0x61, 0x74, 0x65]
}

pub open spec fn key_comment() -> Seq<u8> {
    seq![0x63u8, 0x6f, 0x6d, 0x6d, 0x65, 0x6e, 0x74]
}

pub open spec fn key_created_by() -> Seq<u8> {
    seq![0x63u8, 0x72, 0x65, 0x61, 0x74, 0x65, 0x64, 0x20, 0x62, 0x79]
}

pub open spec fn key_encoding() -> Seq<u8> {
    seq![0x65u8, 0x6e, 0x63, 0x6f, 0x64, 0x69, 0x6e, 0x67]
}

pub open spec fn key_info() -> Seq<u8> {
    seq![0x69u8, 0x6e, 0x66, 0x6f]
}

pub open spec fn key_piece_length() -> Seq<u8> {
    seq![0x70u8, 0x69, 0x65, 0x63, 0x65, 0x20, 0x6c, 0x65, 0x6e, 0x67, 0x74, 0x68]
}

pub open spec fn key_pieces() -> Seq<u8> {
    seq![0x70u8, 0x69, 0x65, 0x63, 0x65, 0x73]
}

pub open spec fn key_name() -> Seq<u8> {
    seq![0x6eu8, 0x61, 0x6d, 0x65]
}

pub open spec fn key_length() -> Seq<u8> {
    seq![0x6cu8, 0x65, 0x6e, 0x67, 0x74, 0x68]
}

pub open spec fn key_md5sum() -> Seq<u8> {
    seq![0x6du8, 0x64, 0x35, 0x73, 0x75, 0x6d]
}

pub open spec fn key_private() -> Seq<u8> {
    seq![0x70u8, 0x72, 0x69, 0x76, 0x61, 0x74, 0x65]
}

pub open spec fn key_files() -> Seq<u8> {
    seq![0x66u8, 0x69, 0x6c, 0x65, 0x73]
}

/// The value under `key` in a decoded dictionary; the first entry wins.
pub open spec fn spec_dict_get(d: Seq<(Seq<u8>, BValue)>, key: Seq<u8>) -> Option<BValue>
    decreases d.len(),
{
    if d.len() == 0 {
        None
    } else if d[0].0 == key {
        Some(d[0].1)
    } else {
        spec_dict_get(d.drop_first(), key)
    }
}

/// Whether some character sequence encodes to these bytes: the bytes
/// are valid UTF-8.
pub open spec fn utf8_decodable(b: Seq<u8>) -> bool {
    exists|cs: Seq<char>| encode_utf8(cs) == b
}

/// One entry of a multi-file torrent. Multi-file torrents are rejected
/// by the parser, so this shape only names what is rejected.
#[derive(Debug)]
pub struct File {
    pub length: i64,
    pub md5sum: Option<String>,
    pub path: Vec<String>,
}

/// The info descriptor of a single-file torrent.
#[derive(Debug)]
pub struct Info {
    pub piece_length: u64,
    pub pieces: Vec<u8>,
    pub private: Option<u8>,
    pub name: String,
    pub length: Option<u64>,
    pub md5sum: Option<String>,
    pub files: Option<Vec<File>>,
}

/// The decoded metainfo file: the info descriptor, the tracker URL,
/// and the optional fields kept only for display.
#[derive(Debug)]
pub struct TorrentMetaInfo {
    pub info: Info,
    /// The info dictionary exactly re-encoded: every key it held, in
    /// its decoded order. For a canonically encoded file these are the
    /// bytes of the original info span, so their SHA-1 is the info-hash.
    pub info_bencoded: Vec<u8>,
    pub announce: String,
    pub announce_list: Option<Vec<Vec<String>>>,
    pub creation_date: Option<i64>,
    pub comment: Option<String>,
    pub created_by: Option<String>,
    pub encoding: Option<String>,
}

impl Info {
    /// A parsed single-file info descriptor: a positive piece length
    /// that fits the bencode integer range, a whole number of 20-byte
    /// piece hashes, as many hashes as the length demands, and no
    /// multi-file list.
    pub open spec fn wf(&self) -> bool {
        &&& 1 <= self.piece_length <= i64::MAX
        &&& self.pieces@.len() % 20 == 0
        &&& (match self.length {
            Some(l) => l <= i64::MAX && self.pieces@.len() / 20 == ((l + self.piece_length - 1)
                as int) / (self.piece_length as int),
            None => (self.pieces@.len() / 20) * self.piece_length <= u64::MAX,
        })
        &&& self.files is None
    }

    /// The total number of content bytes: the declared length, or, when
    /// absent, one full piece per hash.
    pub open spec fn spec_total_length(&self) -> nat {
        match self.length {
            Some(l) => l as nat,
            None => ((self.pieces@.len() / 20) * self.piece_length) as nat,
        }
    }

    /// How many pieces the torrent has: one per 20-byte hash.
    pub open spec fn spec_piece_count(&self) -> nat {
        (self.pieces@.len() / 20) as nat
    }

    /// The length of piece `p`: the full piece length for every piece
    /// but the last; the last is the remainder when there is one.
    pub open spec fn spec_piece_length_at(&self, p: nat) -> nat {
        if p + 1 == self.spec_piece_count() {
            if self.spec_total_length() % (self.piece_length as nat) == 0 {
                self.piece_length as nat
            } else {
                self.spec_total_length() % (self.piece_length as nat)
            }
        } else {
            self.piece_length as nat
        }
    }

    /// The total number of content bytes, as the executable sees it.
    pub fn total_length(&self) -> (r: u64)
        requires
            self.wf(),
        ensures
            r == self.spec_total_length(),
    {
        match self.length {
            Some(l) => l,
            None => {
                let count = self.pieces.len() / 20;
                (count as u64) * self.piece_length
            },
        }
    }

    pub fn piece_count(&self) -> (r: usize)
        ensures
            r == self.spec_piece_count(),
    {
        self.pieces.len() / 20
    }


    /// The length of piece `p` at run time: the full piece length for
    /// every piece but the last; the last carries the remainder when
    /// the total is not divisible, else a full piece.
    pub fn piece_length_at(&self, p: usize) -> (r: u64)
        requires
            self.wf(),
            p < self.spec_piece_count(),
        ensures
            r == self.spec_piece_length_at(p as nat),
    {
        let count = self.pieces.len() / 20;
        let total = self.total_length();
        if p + 1 == count {
            let rem = total % self.piece_length;
            if rem == 0 {
                self.piece_length
            } else {
                rem
            }
        } else {
            self.piece_length
        }
    }

    /// The expected 20-byte SHA-1 of piece `p`.
    pub fn piece_hash(&self, p: usize) -> (r: Vec<u8>)
        requires
            p < self.spec_piece_count(),
            self.pieces@.len() % 20 == 0,
        ensures
            r@ == self.pieces@.subrange(20 * p as int, 20 * p as int + 20),
            r@.len() == 20,
    {
        let n = self.pieces.len();
        proof {
            assert(20 * (p as int) + 20 <= n as int) by (nonlinear_arith)
                requires
                    0 <= p,
                    (p as int) < (n as int) / 20,
                    (n as int) % 20 == 0,
            ;
        }
        crate::wire::copy_range(&self.pieces, 20 * p, 20 * p + 20)
    }
}

/// The running sum of the first `k` piece lengths.
pub open spec fn spec_sum_piece_lengths(info: Info, k: nat) -> nat
    decreases k,
{
    if k == 0 {
        0
    } else {
        spec_sum_piece_lengths(info, (k - 1) as nat) + info.spec_piece_length_at((k - 1) as nat)
    }
}

proof fn lemma_sum_full_pieces(info: Info, k: nat)
    requires
        info.wf(),
        k < info.spec_piece_count(),
    ensures
        spec_sum_piece_lengths(info, k) == k * (info.piece_length as nat),
    decreases k,
{
    if k > 0 {
        let km1 = (k - 1) as nat;
        lemma_sum_full_pieces(info, km1);
        assert(km1 + 1 != info.spec_piece_count());
        assert(info.spec_piece_length_at(km1) == info.piece_length as nat);
        assert(spec_sum_piece_lengths(info, k) == spec_sum_piece_lengths(info, km1)
            + info.spec_piece_length_at(km1));
        assert(km1 * (info.piece_length as nat) + (info.piece_length as nat) == k
            * (info.piece_length as nat)) by (nonlinear_arith)
            requires
                km1 + 1 == k,
        ;
        assert(spec_sum_piece_lengths(info, k) == k * (info.piece_length as nat));
    } else {
        assert(spec_sum_piece_lengths(info, k) == 0);
        assert(k * (info.piece_length as nat) == 0) by (nonlinear_arith)
            requires
                k == 0,
        ;
    }
}

/// Law: the piece lengths of a torrent sum to its total length.
pub proof fn lemma_piece_lengths_sum(info: Info)
    requires
        info.wf(),
    ensures
        spec_sum_piece_lengths(info, info.spec_piece_count()) == info.spec_total_length(),
{
    let count = info.spec_piece_count();
    let pl = info.piece_length as nat;
    let total = info.spec_total_length();
    if count == 0 {
        match info.length {
            Some(l) => {
                assert(info.pieces@.len() / 20 == ((l + info.piece_length - 1) as int) / (
                info.piece_length as int));
                assert(l == 0) by (nonlinear_arith)
                    requires
                        0 == ((l + info.piece_length - 1) as int) / (info.piece_length as int),
                        1 <= info.piece_length,
                        0 <= l,
                ;
            },
            None => {
                assert(total == 0 * pl);
            },
        }
    } else {
        lemma_sum_full_pieces(info, (count - 1) as nat);
        assert(spec_sum_piece_lengths(info, count) == (count - 1) * pl + info.spec_piece_length_at(
            (count - 1) as nat,
        ));
        match info.length {
            Some(l) => {
                assert(count == ((l + info.piece_length - 1) as int) / (info.piece_length as int));
                if total % pl == 0 {
                    assert((count - 1) * pl + pl == total) by (nonlinear_arith)
                        requires
                            count == ((total + pl - 1) as int) / (pl as int),
                            (total as int) % (pl as int) == 0,
                            1 <= pl,
                            0 < count,
                            total == l,
                            0 <= l,
                    ;
                } else {
                    assert((count - 1) * pl + (total as int) % (pl as int) == total) by (nonlinear_arith)
                        requires
                            count == ((total + pl - 1) as int) / (pl as int),
                            (total as int) % (pl as int) != 0,
                            1 <= pl,
                            0 < count,
                            total == l,
                            0 <= l,
                    ;
                }
            },
            None => {
                assert(total == count * pl);
                assert((total as int) % (pl as int) == 0) by (nonlinear_arith)
                    requires
                        total == count * pl,
                        1 <= pl,
                        0 <= count,
                ;
                assert((count - 1) * pl + pl == count * pl) by (nonlinear_arith);
            },
        }
    }
}

fn kv_announce() -> (r: Vec<u8>)
    ensures
        r@ == key_announce(),
{
    let r: Vec<u8> = vec![0x61, 0x6e, 0x6e, 0x6f, 0x75, 0x6e, 0x63, 0x65];
    proof {
        assert(r@ =~= key_announce());
    }
    r
}

fn kv_announce_list() -> (r: Vec<u8>)
    ensures
        r@ == key_announce_list(),
{
    let r: Vec<u8> = vec![0x61, 0x6e, 0x6e, 0x6f, 0x75, 0x6e, 0x63, 0x65, 0x2d, 0x6c, 0x69, 0x73, 0x74];
    proof {
        assert(r@ =~= key_announce_list());
    }
    r
}

fn kv_creation_date() -> (r: Vec<u8>)
    ensures
        r@ == key_creation_date(),
{
    let r: Vec<u8> = vec![0x63, 0x72, 0x65, 0x61, 0x74, 0x69, 0x6f, 0x6e, 0x20, 0x64, 0x61, 0x74, 0x65];
    proof {
        assert(r@ =~= key_creation_date());
    }
    r
}

fn kv_comment() -> (r: Vec<u8>)
    ensures
        r@ == key_comment(),
{
    let r: Vec<u8> = vec![0x63, 0x6f, 0x6d, 0x6d, 0x65, 0x6e, 0x74];
    proof {
        assert(r@ =~= key_comment());
    }
    r
}

fn kv_created_by() -> (r: Vec<u8>)
    ensures
        r@ == key_created_by(),
{
    let r: Vec<u8> = vec![0x63, 0x72, 0x65, 0x61, 0x74, 0x65, 0x64, 0x20, 0x62, 0x79];
    proof {
        assert(r@ =~= key_created_by());
    }
    r
}

fn kv_encoding() -> (r: Vec<u8>)
    ensures
        r@ == key_encoding(),
{
    let r: Vec<u8> = vec![0x65, 0x6e, 0x63, 0x6f, 0x64, 0x69, 0x6e, 0x67];
    proof {
        assert(r@ =~= key_encoding());
    }
    r
}

fn kv_info() -> (r: Vec<u8>)
    ensures
        r@ == key_info(),
{
    let r: Vec<u8> = vec![0x69, 0x6e, 0x66, 0x6f];
    proof {
        assert(r@ =~= key_info());
    }
    r
}

fn kv_piece_length() -> (r: Vec<u8>)
    ensures
        r@ == key_piece_length(),
{
    let r: Vec<u8> = vec![0x70, 0x69, 0x65, 0x63, 0x65, 0x20, 0x6c, 0x65, 0x6e, 0x67, 0x74, 0x68];
    proof {
        assert(r@ =~= key_piece_length());
    }
    r
}

fn kv_pieces() -> (r: Vec<u8>)
    ensures
        r@ == key_pieces(),
{
    let r: Vec<u8> = vec![0x70, 0x69, 0x65, 0x63, 0x65, 0x73];
    proof {
        assert(r@ =~= key_pieces());
    }
    r
}

fn kv_name() -> (r: Vec<u8>)
    ensures
        r@ == key_name(),
{
    let r: Vec<u8> = vec![0x6e, 0x61, 0x6d, 0x65];
    proof {
        assert(r@ =~= key_name());
    }
    r
}

fn kv_length() -> (r: Vec<u8>)
    ensures
        r@ == key_length(),
{
    let r: Vec<u8> = vec![0x6c, 0x65, 0x6e, 0x67, 0x74, 0x68];
    proof {
        assert(r@ =~= key_length());
    }
    r
}

fn kv_md5sum() -> (r: Vec<u8>)
    ensures
        r@ == key_md5sum(),
{
    let r: Vec<u8> = vec![0x6d, 0x64, 0x35, 0x73, 0x75, 0x6d];
    proof {
        assert(r@ =~= key_md5sum());
    }
    r
}

fn kv_private() -> (r: Vec<u8>)
    ensures
        r@ == key_private(),
{
    let r: Vec<u8> = vec![0x70, 0x72, 0x69, 0x76, 0x61, 0x74, 0x65];
    proof {
        assert(r@ =~= key_private());
    }
    r
}

fn kv_files() -> (r: Vec<u8>)
    ensures
        r@ == key_files(),
{
    let r: Vec<u8> = vec![0x66, 0x69, 0x6c, 0x65, 0x73];
    proof {
        assert(r@ =~= key_files());
    }
    r
}

/// The canonical dictionary pairs of an info descriptor: every present
/// field under its bencode key, keys in lexicographic order.
pub open spec fn spec_info_pairs(info: Info) -> Seq<(Seq<u8>, BValue)> {
    (match info.length {
        Some(l) => seq![(key_length(), BValue::Int(l as int))],
        None => Seq::empty(),
    }) + (match info.md5sum {
        Some(m) => seq![(key_md5sum(), BValue::Bytes(encode_utf8(m@)))],
        None => Seq::empty(),
    }) + seq![(key_name(), BValue::Bytes(encode_utf8(info.name@)))]
        + seq![(key_piece_length(), BValue::Int(info.piece_length as int))]
        + seq![(key_pieces(), BValue::Bytes(info.pieces@))] + (match info.private {
        Some(p) => seq![(key_private(), BValue::Int(p as int))],
        None => Seq::empty(),
    })
}

/// The canonical bencode value of an info descriptor.
pub open spec fn spec_info_value(info: Info) -> BValue {
    BValue::Dict(spec_info_pairs(info))
}

impl Info {
    /// Re-encode the descriptor canonically: the byte-exact dictionary
    /// whose SHA-1 is the info-hash.
    pub fn encode(&self) -> (r: Vec<u8>)
        requires
            self.wf(),
        ensures
            r@ == spec_encode(spec_info_value(*self)),
    {
        let mut pairs: Vec<(Vec<u8>, Bencode)> = Vec::new();
        match self.length {
            Some(l) => {
                pairs.push((kv_length(), Bencode::Int(l as i64)));
            },
            None => {},
        }
        match self.md5sum {
            Some(ref m) => {
                pairs.push((kv_md5sum(), Bencode::Bytes(m.as_str().as_bytes_vec())));
            },
            None => {},
        }
        pairs.push((kv_name(), Bencode::Bytes(self.name.as_str().as_bytes_vec())));
        pairs.push((kv_piece_length(), Bencode::Int(self.piece_length as i64)));
        pairs.push((kv_pieces(), crate::bencode::Bencode::Bytes(clone_bytes(&self.pieces))));
        match self.private {
            Some(p) => {
                pairs.push((kv_private(), Bencode::Int(p as i64)));
            },
            None => {},
        }
        let dict = Bencode::Dict(pairs);
        proof {
            let ps = views_of_pairs(dict->Dict_0@);
            assert(dict@ == BValue::Dict(ps));
            assert(ps.len() == spec_info_pairs(*self).len());
            assert(ps =~= spec_info_pairs(*self));
            assert(dict@ == spec_info_value(*self));
        }
        encode_value(&dict)
    }

    /// The raw 20-byte info-hash: the SHA-1 of the canonical encoding.
    pub fn hash_raw(&self) -> (r: Vec<u8>)
        requires
            self.wf(),
        ensures
            r@ == sha1_of(spec_encode(spec_info_value(*self))),
            r@.len() == 20,
    {
        let encoded = self.encode();
        sha1_digest(&encoded)
    }

    /// The info-hash rendered as forty lowercase hex digits.
    pub fn hash_base16(&self) -> (r: String)
        requires
            self.wf(),
        ensures
            r@ == ascii_chars(hex_lower_bytes(sha1_of(spec_encode(spec_info_value(*self))))),
    {
        let hash = self.hash_raw();
        hex_lower_string(&hash)
    }
}

impl TorrentMetaInfo {
    /// The raw 20-byte info-hash: the SHA-1 of the re-encoded info span.
    pub fn info_hash_raw(&self) -> (r: Vec<u8>)
        ensures
            r@ == sha1_of(self.info_bencoded@),
            r@.len() == 20,
    {
        sha1_digest(&self.info_bencoded)
    }

    /// The info-hash percent-encoded for the tracker query string.
    pub fn urlencode_info_hash(&self) -> (r: String)
        ensures
            r@ == ascii_chars(percent_encoded(sha1_of(self.info_bencoded@))),
    {
        let hash = self.info_hash_raw();
        urlencode_bytes(&hash)
    }
}

/// A copy of a byte vector.
pub(crate) fn clone_bytes(v: &Vec<u8>) -> (r: Vec<u8>)
    ensures
        r@ == v@,
{
    let r = crate::wire::copy_range(v, 0, v.len());
    proof {
        assert(v@.subrange(0, v@.len() as int) =~= v@);
    }
    r
}

/// The lowercase hex rendering of every expected piece hash, in order.
pub fn pieces_hashes(pieces: &Vec<u8>) -> (r: Vec<String>)
    requires
        pieces@.len() % 20 == 0,
    ensures
        r@.len() == pieces@.len() / 20,
        forall|i: int| 0 <= i < r@.len() ==> (#[trigger] r@[i])@ == ascii_chars(
            hex_lower_bytes(pieces@.subrange(20 * i, 20 * i + 20)),
        ),
{
    let count = pieces.len() / 20;
    let mut out: Vec<String> = Vec::new();
    let mut p: usize = 0;
    while p < count
        invariant
            p <= count,
            count == pieces@.len() / 20,
            pieces@.len() % 20 == 0,
            out@.len() == p,
            forall|i: int| 0 <= i < p ==> (#[trigger] out@[i])@ == ascii_chars(
                hex_lower_bytes(pieces@.subrange(20 * i, 20 * i + 20)),
            ),
        decreases count - p,
    {
        let n = pieces.len();
        proof {
            assert(20 * (p as int) + 20 <= n as int) by (nonlinear_arith)
                requires
                    0 <= p,
                    (p as int) < (n as int) / 20,
                    (n as int) % 20 == 0,
            ;
        }
        let raw = crate::wire::copy_range(pieces, 20 * p, 20 * p + 20);
        let hex = hex_lower_string(&raw);
        out.push(hex);
        p = p + 1;
    }
    out
}


/// Well-typedness of an optional UTF-8 string field.
pub open spec fn opt_utf8_ok(o: Option<BValue>) -> bool {
    match o {
        None => true,
        Some(v) => (v matches BValue::Bytes(b) && utf8_decodable(b)),
    }
}

/// Well-typedness of an optional integer field.
pub open spec fn opt_int_ok(o: Option<BValue>) -> bool {
    match o {
        None => true,
        Some(v) => v is Int,
    }
}

/// A bencoded list of UTF-8 byte-strings.
pub open spec fn string_list_ok(v: BValue) -> bool {
    v matches BValue::List(ss) && (forall|j: int|
        0 <= j < ss.len() ==> ((#[trigger] ss[j]) matches BValue::Bytes(b) && utf8_decodable(b)))
}

/// A bencoded list of lists of UTF-8 byte-strings.
pub open spec fn string_lists_ok(v: BValue) -> bool {
    v matches BValue::List(ls) && (forall|i: int|
        0 <= i < ls.len() ==> string_list_ok(#[trigger] ls[i]))
}

pub open spec fn opt_string_lists_ok(o: Option<BValue>) -> bool {
    match o {
        None => true,
        Some(v) => string_lists_ok(v),
    }
}

/// One decoded tier list corresponds to the strings the parser built.
pub open spec fn rel_string_list(v: BValue, out: Seq<Seq<char>>) -> bool {
    v matches BValue::List(ss) && ss.len() == out.len() && (forall|j: int|
        0 <= j < ss.len() ==> ((#[trigger] ss[j]) matches BValue::Bytes(b) && encode_utf8(out[j])
            == b))
}

/// The whole announce-list corresponds to the nested strings built.
pub open spec fn rel_string_lists(v: BValue, out: Seq<Seq<Seq<char>>>) -> bool {
    v matches BValue::List(ls) && ls.len() == out.len() && (forall|i: int|
        0 <= i < ls.len() ==> rel_string_list(#[trigger] ls[i], out[i]))
}

/// The deduced total length fits a u64 when no length is declared.
pub open spec fn spec_deduced_fits(d: Seq<(Seq<u8>, BValue)>) -> bool {
    spec_dict_get(d, key_pieces()) matches Some(BValue::Bytes(ps)) && (spec_dict_get(
        d,
        key_piece_length(),
    ) matches Some(BValue::Int(pl)) && (ps.len() / 20) * pl <= u64::MAX)
}

/// The declared length demands exactly the hashes present.
pub open spec fn spec_count_matches(d: Seq<(Seq<u8>, BValue)>, l: int) -> bool {
    spec_dict_get(d, key_pieces()) matches Some(BValue::Bytes(ps)) && (spec_dict_get(
        d,
        key_piece_length(),
    ) matches Some(BValue::Int(pl)) && ps.len() / 20 == (l + pl - 1) / pl)
}

/// A well-formed single-file info dictionary.
pub open spec fn spec_info_dict_ok(d: Seq<(Seq<u8>, BValue)>) -> bool {
    &&& (spec_dict_get(d, key_piece_length()) matches Some(BValue::Int(pl)) && 1 <= pl)
    &&& (spec_dict_get(d, key_pieces()) matches Some(BValue::Bytes(ps)) && ps.len() % 20 == 0)
    &&& (spec_dict_get(d, key_name()) matches Some(BValue::Bytes(nb)) && utf8_decodable(nb))
    &&& opt_utf8_ok(spec_dict_get(d, key_md5sum()))
    &&& (match spec_dict_get(d, key_private()) {
        None => true,
        Some(v) => (v matches BValue::Int(p) && 0 <= p <= 255),
    })
    &&& spec_dict_get(d, key_files()) is None
    &&& (match spec_dict_get(d, key_length()) {
        None => spec_deduced_fits(d),
        Some(v) => (v matches BValue::Int(l) && 0 <= l && spec_count_matches(d, l)),
    })
}

/// A well-formed metainfo dictionary.
pub open spec fn spec_meta_ok(d: Seq<(Seq<u8>, BValue)>) -> bool {
    &&& (spec_dict_get(d, key_announce()) matches Some(BValue::Bytes(ab)) && utf8_decodable(ab))
    &&& (spec_dict_get(d, key_info()) matches Some(BValue::Dict(id)) && spec_info_dict_ok(id))
    &&& opt_int_ok(spec_dict_get(d, key_creation_date()))
    &&& opt_utf8_ok(spec_dict_get(d, key_comment()))
    &&& opt_utf8_ok(spec_dict_get(d, key_created_by()))
    &&& opt_utf8_ok(spec_dict_get(d, key_encoding()))
    &&& opt_string_lists_ok(spec_dict_get(d, key_announce_list()))
}

/// The parsed info corresponds field by field to its dictionary.
pub open spec fn rel_info(d: Seq<(Seq<u8>, BValue)>, info: Info) -> bool {
    &&& (spec_dict_get(d, key_piece_length()) matches Some(BValue::Int(pl)) && info.piece_length
        == pl)
    &&& (spec_dict_get(d, key_pieces()) matches Some(BValue::Bytes(ps)) && info.pieces@ == ps)
    &&& (spec_dict_get(d, key_name()) matches Some(BValue::Bytes(nb)) && encode_utf8(info.name@)
        == nb)
    &&& (match spec_dict_get(d, key_length()) {
        None => info.length is None,
        Some(v) => (v matches BValue::Int(l) && (info.length matches Some(x) && x == l)),
    })
    &&& (match spec_dict_get(d, key_md5sum()) {
        None => info.md5sum is None,
        Some(v) => (v matches BValue::Bytes(b) && (info.md5sum matches Some(m) && encode_utf8(m@)
            == b)),
    })
    &&& (match spec_dict_get(d, key_private()) {
        None => info.private is None,
        Some(v) => (v matches BValue::Int(p) && (info.private matches Some(x) && x == p)),
    })
    &&& info.files is None
}

/// The parsed metainfo corresponds field by field to its dictionary.
pub open spec fn rel_meta(d: Seq<(Seq<u8>, BValue)>, t: TorrentMetaInfo) -> bool {
    &&& (spec_dict_get(d, key_announce()) matches Some(BValue::Bytes(ab)) && encode_utf8(
        t.announce@,
    ) == ab)
    &&& (spec_dict_get(d, key_info()) matches Some(BValue::Dict(id)) && rel_info(id, t.info)
        && t.info_bencoded@ == spec_encode(BValue::Dict(id)))
    &&& (match spec_dict_get(d, key_creation_date()) {
        None => t.creation_date is None,
        Some(v) => (v matches BValue::Int(c) && (t.creation_date matches Some(x) && x == c)),
    })
    &&& (match spec_dict_get(d, key_comment()) {
        None => t.comment is None,
        Some(v) => (v matches BValue::Bytes(b) && (t.comment matches Some(s) && encode_utf8(s@)
            == b)),
    })
    &&& (match spec_dict_get(d, key_created_by()) {
        None => t.created_by is None,
        Some(v) => (v matches BValue::Bytes(b) && (t.created_by matches Some(s) && encode_utf8(s@)
            == b)),
    })
    &&& (match spec_dict_get(d, key_encoding()) {
        None => t.encoding is None,
        Some(v) => (v matches BValue::Bytes(b) && (t.encoding matches Some(s) && encode_utf8(s@)
            == b)),
    })
    &&& (match spec_dict_get(d, key_announce_list()) {
        None => t.announce_list is None,
        Some(v) => (t.announce_list matches Some(al) && rel_string_lists(v, al.deep_view())),
    })
}

/// The dictionary a metainfo file holds: its one top-level value, which
/// must span the whole input.
pub open spec fn spec_top_dict(s: Seq<u8>) -> Option<Seq<(Seq<u8>, BValue)>> {
    match spec_decode(s, 0) {
        Ok(vp) => match vp.0 {
            BValue::Dict(d) => if vp.1 == s.len() {
                Some(d)
            } else {
                None
            },
            _ => None,
        },
        Err(_) => None,
    }
}

/// Look a key up in decoded dictionary pairs; the first entry wins.
pub(crate) fn dict_get<'a>(pairs: &'a Vec<(Vec<u8>, Bencode)>, key: &Vec<u8>) -> (r: Option<&'a Bencode>)
    ensures
        match r {
            Some(v) => spec_dict_get(views_of_pairs(pairs@), key@) == Some(v@),
            None => spec_dict_get(views_of_pairs(pairs@), key@) is None,
        },
{
    proof {
        assert(views_of_pairs(pairs@).skip(0) =~= views_of_pairs(pairs@));
    }
    let mut i: usize = 0;
    while i < pairs.len()
        invariant
            i <= pairs@.len(),
            spec_dict_get(views_of_pairs(pairs@), key@) == spec_dict_get(
                views_of_pairs(pairs@).skip(i as int),
                key@,
            ),
        decreases pairs@.len() - i,
    {
        proof {
            assert(views_of_pairs(pairs@).skip(i as int).drop_first() =~= views_of_pairs(
                pairs@,
            ).skip(i as int + 1));
            assert(views_of_pairs(pairs@).skip(i as int)[0] == (pairs@[i as int].0@, pairs@[
            i as int].1@));
        }
        if crate::wire::bytes_eq(&pairs[i].0, key) {
            return Some(&pairs[i].1);
        }
        i = i + 1;
    }
    proof {
        assert(views_of_pairs(pairs@).skip(pairs@.len() as int) =~= Seq::<(Seq<u8>,
        BValue)>::empty());
    }
    None
}

/// Read an optional UTF-8 string field.
pub(crate) fn get_opt_string(pairs: &Vec<(Vec<u8>, Bencode)>, key: &Vec<u8>) -> (r: Result<
    Option<String>,
    ParserError,
>)
    ensures
        match r {
            Ok(o) => (match o {
                None => spec_dict_get(views_of_pairs(pairs@), key@) is None,
                Some(s) => (spec_dict_get(views_of_pairs(pairs@), key@) matches Some(
                    BValue::Bytes(b),
                ) && encode_utf8(s@) == b && utf8_decodable(b)),
            }),
            Err(e) => !opt_utf8_ok(spec_dict_get(views_of_pairs(pairs@), key@)) && e
                matches ParserError::InvalidBencodedData,
        },
{
    match dict_get(pairs, key) {
        None => Ok(None),
        Some(v) => match v {
            Bencode::Bytes(b) => {
                let copy = clone_bytes(b);
                match utf8_to_string(copy) {
                    Some(s) => {
                        proof {
                            assert(utf8_decodable(b@)) by {
                                assert(encode_utf8(s@) == b@);
                            }
                        }
                        Ok(Some(s))
                    },
                    None => Err(ParserError::InvalidBencodedData),
                }
            },
            _ => Err(ParserError::InvalidBencodedData),
        },
    }
}

/// Read an optional integer field.
pub(crate) fn get_opt_i64(pairs: &Vec<(Vec<u8>, Bencode)>, key: &Vec<u8>) -> (r: Result<
    Option<i64>,
    ParserError,
>)
    ensures
        match r {
            Ok(o) => (match o {
                None => spec_dict_get(views_of_pairs(pairs@), key@) is None,
                Some(x) => spec_dict_get(views_of_pairs(pairs@), key@) == Some(
                    BValue::Int(x as int),
                ),
            }),
            Err(e) => !opt_int_ok(spec_dict_get(views_of_pairs(pairs@), key@)) && e
                matches ParserError::InvalidBencodedData,
        },
{
    match dict_get(pairs, key) {
        None => Ok(None),
        Some(v) => match v {
            Bencode::Int(x) => Ok(Some(*x)),
            _ => Err(ParserError::InvalidBencodedData),
        },
    }
}

/// The ways reading a metainfo file can fail.
#[derive(Debug)]
pub enum ParserError {
    InvalidBencodedData,
    CannotReadFile(String),
}

/// The character index just after the last '/' of a path.
pub open spec fn spec_cut(cs: Seq<char>) -> int
    decreases cs.len(),
{
    if cs.len() == 0 {
        0
    } else if cs.last() == '/' {
        cs.len() as int
    } else {
        spec_cut(cs.drop_last())
    }
}

/// Reads a metainfo file: remembers the path and the file name, the
/// part of the path after its last '/'.
pub struct Parser {
    file_path: String,
    file_name: String,
}

impl Parser {
    pub closed spec fn path(&self) -> Seq<char> {
        self.file_path@
    }

    pub closed spec fn name(&self) -> Seq<char> {
        self.file_name@
    }

    pub fn new(path: String) -> (r: Parser)
        ensures
            r.path() == path@,
            r.name() == path@.skip(spec_cut(path@)),
    {
        let n = path.as_str().unicode_len();
        let mut cut: usize = 0;
        let mut i: usize = 0;
        while i < n
            invariant
                i <= n,
                n == path@.len(),
                cut as int == spec_cut(path@.subrange(0, i as int)),
                cut <= i,
            decreases n - i,
        {
            let c = path.as_str().get_char(i);
            proof {
                assert(path@.subrange(0, i as int + 1).drop_last() =~= path@.subrange(0, i as int));
                assert(path@.subrange(0, i as int + 1).last() == path@[i as int]);
            }
            if c == '/' {
                cut = i + 1;
            }
            i = i + 1;
        }
        proof {
            assert(path@.subrange(0, path@.len() as int) =~= path@);
        }
        let tail = path.as_str().substring_char(cut, n);
        let file_name = tail.to_owned();
        proof {
            assert(path@.subrange(cut as int, n as int) =~= path@.skip(spec_cut(path@)));
        }
        Parser { file_path: path, file_name }
    }

    /// The remembered file name, for error reporting.
    pub fn file_name(&self) -> (r: &String)
        ensures
            r@ == self.name(),
    {
        &self.file_name
    }

    /// The remembered path.
    pub fn file_path(&self) -> (r: &String)
        ensures
            r@ == self.path(),
    {
        &self.file_path
    }
}


/// Build one tier of the announce-list: a list of UTF-8 strings.
fn build_string_list(v: &Bencode) -> (r: Result<Vec<String>, ParserError>)
    ensures
        match r {
            Ok(out) => string_list_ok(v@) && rel_string_list(v@, out.deep_view()),
            Err(e) => !string_list_ok(v@) && e matches ParserError::InvalidBencodedData,
        },
{
    match v {
        Bencode::List(ss) => {
            let mut out: Vec<String> = Vec::new();
            let mut j: usize = 0;
            while j < ss.len()
                invariant
                    j <= ss@.len(),
                    v@ == BValue::List(crate::bencode::views_of(ss@)),
                    out.deep_view().len() == j,
                    forall|k: int| 0 <= k < j ==> ((#[trigger] crate::bencode::views_of(ss@)[k])
                        matches BValue::Bytes(b) && encode_utf8(out.deep_view()[k]) == b),
                decreases ss@.len() - j,
            {
                match &ss[j] {
                    Bencode::Bytes(b) => {
                        let copy = clone_bytes(b);
                        match utf8_to_string(copy) {
                            Some(s) => {
                                out.push(s);
                            },
                            None => {
                                proof {
                                    assert(crate::bencode::views_of(ss@)[j as int]
                                        == BValue::Bytes(b@));
                                    assert(!utf8_decodable(b@));
                                }
                                return Err(ParserError::InvalidBencodedData);
                            },
                        }
                    },
                    _ => {
                        proof {
                            assert(!(crate::bencode::views_of(ss@)[j as int]
                                matches BValue::Bytes(bb)));
                        }
                        return Err(ParserError::InvalidBencodedData);
                    },
                }
                j = j + 1;
            }
            proof {
                assert forall|k: int| 0 <= k < ss@.len() implies ((#[trigger] crate::bencode::views_of(
                    ss@,
                )[k]) matches BValue::Bytes(b) && utf8_decodable(b)) by {
                    assert(crate::bencode::views_of(ss@)[k] matches BValue::Bytes(b)
                        && encode_utf8(out.deep_view()[k]) == b);
                }
            }
            Ok(out)
        },
        _ => Err(ParserError::InvalidBencodedData),
    }
}

/// Build the whole announce-list: a list of tiers.
fn build_string_lists(v: &Bencode) -> (r: Result<Vec<Vec<String>>, ParserError>)
    ensures
        match r {
            Ok(out) => string_lists_ok(v@) && rel_string_lists(v@, out.deep_view()),
            Err(e) => !string_lists_ok(v@) && e matches ParserError::InvalidBencodedData,
        },
{
    match v {
        Bencode::List(ls) => {
            let mut out: Vec<Vec<String>> = Vec::new();
            let mut i: usize = 0;
            while i < ls.len()
                invariant
                    i <= ls@.len(),
                    v@ == BValue::List(crate::bencode::views_of(ls@)),
                    out.deep_view().len() == i,
                    forall|k: int| 0 <= k < i ==> string_list_ok(
                        #[trigger] crate::bencode::views_of(ls@)[k],
                    ),
                    forall|k: int| 0 <= k < i ==> rel_string_list(
                        #[trigger] crate::bencode::views_of(ls@)[k],
                        out.deep_view()[k],
                    ),
                decreases ls@.len() - i,
            {
                match build_string_list(&ls[i]) {
                    Ok(tier) => {
                        out.push(tier);
                    },
                    Err(_) => {
                        proof {
                            assert(!string_list_ok(crate::bencode::views_of(ls@)[i as int]));
                            if string_lists_ok(v@) {
                                assert(v@->List_0 == crate::bencode::views_of(ls@));
                                assert(string_list_ok(v@->List_0[i as int]));
                                assert(false);
                            }
                        }
                        return Err(ParserError::InvalidBencodedData);
                    },
                }
                i = i + 1;
            }
            Ok(out)
        },
        _ => Err(ParserError::InvalidBencodedData),
    }
}

impl Parser {
    /// Decode a metainfo file body into the typed view.
    ///
    /// Succeeds exactly when the body is one bencoded dictionary
    /// spanning the whole input with a UTF-8 `announce` string and a
    /// well-formed single-file `info` dictionary whose hash table
    /// matches its length. An `info.files` list is rejected explicitly:
    /// multi-file torrents are unsupported.
    #[verifier::rlimit(80)]
    pub fn parse_bytes(&self, file_content: &Vec<u8>) -> (r: Result<TorrentMetaInfo, ParserError>)
        ensures
            match r {
                Ok(t) => (spec_top_dict(file_content@) matches Some(d) && spec_meta_ok(d)
                    && rel_meta(d, t) && t.info.wf()),
                Err(e) => (e matches ParserError::InvalidBencodedData) && !(spec_top_dict(
                    file_content@,
                ) matches Some(d) && spec_meta_ok(d)),
            },
    {
        let top = match decode_value_at(file_content, 0) {
            Ok((v, end)) => {
                if end != file_content.len() {
                    return Err(ParserError::InvalidBencodedData);
                }
                v
            },
            Err(_) => {
                return Err(ParserError::InvalidBencodedData);
            },
        };
        let pairs = match top {
            Bencode::Dict(pairs) => pairs,
            _ => {
                return Err(ParserError::InvalidBencodedData);
            },
        };
        let ghost d = views_of_pairs(pairs@);
        proof {
            assert(spec_top_dict(file_content@) == Some(d));
        }
        let announce = match get_opt_string(&pairs, &kv_announce()) {
            Ok(Some(s)) => s,
            Ok(None) => {
                return Err(ParserError::InvalidBencodedData);
            },
            Err(e) => {
                return Err(e);
            },
        };
        let creation_date = match get_opt_i64(&pairs, &kv_creation_date()) {
            Ok(o) => o,
            Err(e) => {
                return Err(e);
            },
        };
        let comment = match get_opt_string(&pairs, &kv_comment()) {
            Ok(o) => o,
            Err(e) => {
                return Err(e);
            },
        };
        let created_by = match get_opt_string(&pairs, &kv_created_by()) {
            Ok(o) => o,
            Err(e) => {
                return Err(e);
            },
        };
        let encoding = match get_opt_string(&pairs, &kv_encoding()) {
            Ok(o) => o,
            Err(e) => {
                return Err(e);
            },
        };
        let announce_list = match dict_get(&pairs, &kv_announce_list()) {
            None => None,
            Some(v) => match build_string_lists(v) {
                Ok(al) => Some(al),
                Err(e) => {
                    return Err(e);
                },
            },
        };
        let info_pairs = match dict_get(&pairs, &kv_info()) {
            Some(Bencode::Dict(ip)) => ip,
            Some(_) => {
                return Err(ParserError::InvalidBencodedData);
            },
            None => {
                return Err(ParserError::InvalidBencodedData);
            },
        };
        let ghost id = views_of_pairs(info_pairs@);
        let info_bencoded = crate::bencode::encode_dict_pairs(info_pairs);
        let piece_length_i = match get_opt_i64(info_pairs, &kv_piece_length()) {
            Ok(Some(x)) => x,
            Ok(None) => {
                return Err(ParserError::InvalidBencodedData);
            },
            Err(e) => {
                return Err(e);
            },
        };
        if piece_length_i < 1 {
            return Err(ParserError::InvalidBencodedData);
        }
        let piece_length = piece_length_i as u64;
        let pieces = match dict_get(info_pairs, &kv_pieces()) {
            Some(Bencode::Bytes(b)) => clone_bytes(b),
            Some(_) => {
                return Err(ParserError::InvalidBencodedData);
            },
            None => {
                return Err(ParserError::InvalidBencodedData);
            },
        };
        if pieces.len() % 20 != 0 {
            return Err(ParserError::InvalidBencodedData);
        }
        let name = match get_opt_string(info_pairs, &kv_name()) {
            Ok(Some(s)) => s,
            Ok(None) => {
                return Err(ParserError::InvalidBencodedData);
            },
            Err(e) => {
                return Err(e);
            },
        };
        let md5sum = match get_opt_string(info_pairs, &kv_md5sum()) {
            Ok(o) => o,
            Err(e) => {
                return Err(e);
            },
        };
        let private = match get_opt_i64(info_pairs, &kv_private()) {
            Ok(None) => None,
            Ok(Some(x)) => {
                if x < 0 || x > 255 {
                    return Err(ParserError::InvalidBencodedData);
                }
                Some(x as u8)
            },
            Err(e) => {
                return Err(e);
            },
        };
        match dict_get(info_pairs, &kv_files()) {
            Some(_) => {
                return Err(ParserError::InvalidBencodedData);
            },
            None => {},
        }
        let length = match get_opt_i64(info_pairs, &kv_length()) {
            Ok(None) => {
                let count = pieces.len() / 20;
                if (count as u64) > u64::MAX / piece_length {
                    proof {
                        assert((count as int) * (piece_length as int) > u64::MAX)
                            by (nonlinear_arith)
                            requires
                                (count as int) > (u64::MAX as int) / (piece_length as int),
                                1 <= piece_length as int,
                                0 <= count as int,
                        ;
                    }
                    return Err(ParserError::InvalidBencodedData);
                }
                proof {
                    assert((count as int) * (piece_length as int) <= u64::MAX)
                        by (nonlinear_arith)
                        requires
                            (count as int) <= (u64::MAX as int) / (piece_length as int),
                            1 <= piece_length as int,
                            0 <= count as int,
                    ;
                }
                None
            },
            Ok(Some(l)) => {
                if l < 0 {
                    return Err(ParserError::InvalidBencodedData);
                }
                let cnt = pieces.len() / 20;
                let need = ((l as u64) + (piece_length - 1)) / piece_length;
                if (cnt as u64) != need {
                    return Err(ParserError::InvalidBencodedData);
                }
                Some(l as u64)
            },
            Err(e) => {
                return Err(e);
            },
        };
        let info = Info { piece_length, pieces, private, name, length, md5sum, files: None };
        let t = TorrentMetaInfo {
            info,
            info_bencoded,
            announce,
            announce_list,
            creation_date,
            comment,
            created_by,
            encoding,
        };
        proof {
            assert(spec_dict_get(d, key_info()) == Some(BValue::Dict(id)));
            assert(rel_info(id, t.info));
            assert(spec_info_dict_ok(id));
            assert(rel_meta(d, t));
            assert(spec_meta_ok(d));
            assert(t.info.wf());
        }
        Ok(t)
    }
}

} // verus!
