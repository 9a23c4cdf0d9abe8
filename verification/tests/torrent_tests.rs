use rusty_torrent::bencode::{Bencode, Decoder, DecoderError, decode_value_at, encode_value};
use rusty_torrent::handshake::Handshake;
use rusty_torrent::metainfo::{Parser, pieces_hashes};
use rusty_torrent::peer_message::{MessageID, PeerMessage, PeerMessageDecoder, PeerMessageEncoder, PeerMessageError, frame_message};
use rusty_torrent::peers::{BLOCK_MAX, DownloadStep, PeersError, PieceDownload, ReadOutcome, build_piece_requests, construct_url, note_read, place_piece};
use rusty_torrent::piece::PieceDecoder;
use rusty_torrent::request::{Request, RequestDecoder, RequestEncoder};
use rusty_torrent::text::{bytes_to_hex_string, u64_to_string};
use rusty_torrent::tracker_response::TrackerResponse;
use sha1::{Digest, Sha1};
use tokio_util::bytes::BytesMut;

fn sha1_of(data: &[u8]) -> Vec<u8> {
    Sha1::digest(data).to_vec()
}

fn be32(x: u32) -> [u8; 4] {
    x.to_be_bytes()
}

// --- bencode round trips (decode of encode gives the value back) ---

#[test]
fn roundtrip_byte_string() {
    let v = Bencode::Bytes(b"hel".to_vec());
    let encoded = encode_value(&v);
    assert_eq!(encoded, b"3:hel".to_vec());
    let mut dec = Decoder::from_bytes(encoded);
    match dec.decode() {
        Ok(Bencode::Bytes(b)) => assert_eq!(b, b"hel".to_vec()),
        _ => panic!("byte-string did not round trip"),
    }
}

#[test]
fn roundtrip_integers() {
    for x in [0i64, 1, -1, 42, -42, 1337, i64::MAX, i64::MIN] {
        let encoded = encode_value(&Bencode::Int(x));
        let mut dec = Decoder::from_bytes(encoded);
        match dec.decode() {
            Ok(Bencode::Int(y)) => assert_eq!(x, y),
            _ => panic!("integer did not round trip"),
        }
    }
    assert_eq!(encode_value(&Bencode::Int(-42)), b"i-42e".to_vec());
    assert_eq!(encode_value(&Bencode::Int(0)), b"i0e".to_vec());
}

#[test]
fn roundtrip_nested_value() {
    let v = Bencode::Dict(vec![
        (b"key1".to_vec(), Bencode::List(vec![
            Bencode::Bytes(b"hello".to_vec()),
            Bencode::Int(43),
        ])),
        (b"key2".to_vec(), Bencode::Int(2)),
    ]);
    let encoded = encode_value(&v);
    assert_eq!(encoded, b"d4:key1l5:helloi43ee4:key2i2ee".to_vec());
    let (decoded, used) = decode_value_at(&encoded, 0).expect("nested value should decode");
    assert_eq!(used, encoded.len());
    let reencoded = encode_value(&decoded);
    assert_eq!(reencoded, encoded);
}

// --- boundary behaviours of the decoder ---

#[test]
fn zero_length_byte_string_decodes_empty() {
    let mut dec = Decoder::new("0:".to_string());
    match dec.decode() {
        Ok(Bencode::Bytes(b)) => assert!(b.is_empty()),
        _ => panic!("empty byte-string should decode"),
    }
}

#[test]
fn negative_byte_string_length_rejected() {
    let mut dec = Decoder::new("-1:ab".to_string());
    assert!(matches!(dec.decode(), Err(DecoderError::NotBencodedData)));
}

#[test]
fn single_leading_zero_integer_rejected() {
    let mut dec = Decoder::new("i01e".to_string());
    assert!(matches!(dec.decode(), Err(DecoderError::InvalidInteger)));
}

#[test]
fn byte_string_method_reads_prefix() {
    let mut dec = Decoder::new("3:heli7e".to_string());
    let b = dec.decode_bencoded_byte_string().expect("prefix is a byte-string");
    assert_eq!(b, b"hel".to_vec());
    let i = dec.decode_bencoded_integer().expect("then an integer");
    assert_eq!(i, 7);
}

// --- peer message framing ---

#[test]
fn frame_roundtrip_with_payload() {
    let msg = PeerMessage::new(MessageID::Have, Some(vec![0, 0, 0, 9])).unwrap();
    let mut buf = BytesMut::new();
    PeerMessageEncoder::new().encode(msg, &mut buf).unwrap();
    assert_eq!(&buf[..], &[0, 0, 0, 5, 4, 0, 0, 0, 9]);
    let trailing = [9u8, 9, 9];
    buf.extend_from_slice(&trailing);
    let decoded = PeerMessageDecoder::new().decode(&mut buf).unwrap().unwrap();
    assert_eq!(decoded.message_id, MessageID::Have);
    assert_eq!(decoded.payload, Some(vec![0, 0, 0, 9]));
    // exactly the frame was consumed
    assert_eq!(&buf[..], &trailing);
}

#[test]
fn frame_roundtrip_without_payload() {
    let msg = PeerMessage::new(MessageID::UnChoke, None).unwrap();
    let frame = frame_message(&msg).unwrap();
    assert_eq!(frame, vec![0, 0, 0, 1, 1]);
    let mut buf = BytesMut::new();
    buf.extend_from_slice(&frame);
    let decoded = PeerMessageDecoder::new().decode(&mut buf).unwrap().unwrap();
    assert_eq!(decoded.message_id, MessageID::UnChoke);
    assert_eq!(decoded.payload, None);
    assert!(buf.is_empty());
}

#[test]
fn keep_alive_consumed_silently() {
    let mut buf = BytesMut::new();
    buf.extend_from_slice(&[0, 0, 0, 0]); // keep-alive
    buf.extend_from_slice(&[0, 0, 0, 1, 0]); // Choke
    let decoded = PeerMessageDecoder::new().decode(&mut buf).unwrap().unwrap();
    assert_eq!(decoded.message_id, MessageID::Choke);
    assert!(buf.is_empty());
    // a lone keep-alive never surfaces as a message
    let mut buf2 = BytesMut::new();
    buf2.extend_from_slice(&[0, 0, 0, 0]);
    assert!(PeerMessageDecoder::new().decode(&mut buf2).unwrap().is_none());
    assert!(buf2.is_empty());
}

#[test]
fn incomplete_frame_waits() {
    let mut buf = BytesMut::new();
    buf.extend_from_slice(&[0, 0, 0, 9, 7, 1]);
    assert!(PeerMessageDecoder::new().decode(&mut buf).unwrap().is_none());
    assert_eq!(buf.len(), 6);
}

#[test]
fn unknown_id_rejected_without_consuming() {
    let mut buf = BytesMut::new();
    buf.extend_from_slice(&[0, 0, 0, 1, 99]);
    match PeerMessageDecoder::new().decode(&mut buf) {
        Err(PeerMessageError::InvalidMessageId) => {}
        _ => panic!("unknown id should be rejected"),
    }
    assert_eq!(buf.len(), 5);
}

#[test]
fn message_payload_rules_enforced() {
    assert!(matches!(
        PeerMessage::new(MessageID::Choke, Some(vec![1])),
        Err(PeerMessageError::PayloadForbidden)
    ));
    assert!(matches!(
        PeerMessage::new(MessageID::Request, None),
        Err(PeerMessageError::PayloadRequired)
    ));
    assert!(matches!(
        PeerMessage::new(MessageID::Piece, Some(vec![])),
        Err(PeerMessageError::PayloadRequired)
    ));
    let ok = PeerMessage::new(MessageID::Bitfield, Some(vec![0xff])).unwrap();
    assert_eq!(ok.size(), 2);
    assert_eq!(MessageID::from_u8(5).unwrap(), MessageID::Bitfield);
    assert!(MessageID::from_u8(10).is_err());
    assert_eq!(MessageID::Piece.to_u8(), 7);
    assert!(!MessageID::Choke.should_have_payload());
    assert!(MessageID::Have.should_have_payload());
}

// --- request and piece payload codecs ---

#[test]
fn request_payload_roundtrip() {
    let mut buf = BytesMut::new();
    RequestEncoder::new().encode(Request::new(1, 16384, 500), &mut buf).unwrap();
    let expected: Vec<u8> = [be32(1), be32(16384), be32(500)].concat();
    assert_eq!(&buf[..], expected.as_slice());
    let decoded = RequestDecoder::new().decode(&mut buf).unwrap().unwrap();
    assert!(buf.is_empty());
    let mut buf2 = BytesMut::new();
    RequestEncoder::new().encode(decoded, &mut buf2).unwrap();
    assert_eq!(&buf2[..], expected.as_slice());
    assert_eq!(Request::size(), 12);
}

#[test]
fn piece_payload_decodes_fields() {
    let mut buf = BytesMut::new();
    buf.extend_from_slice(&be32(3));
    buf.extend_from_slice(&be32(16384));
    buf.extend_from_slice(&[5, 6, 7]);
    let piece = PieceDecoder::new().decode(&mut buf).unwrap().unwrap();
    assert_eq!(piece.index, 3);
    assert_eq!(piece.begin, 16384);
    assert_eq!(piece.block, vec![5, 6, 7]);
    assert!(buf.is_empty());
}

// --- handshake ---

#[test]
fn handshake_roundtrip_and_validation() {
    let info_hash = [7u8; 20];
    let peer_id = *b"13374313374313374369";
    let hs = Handshake::new(info_hash, peer_id);
    let bytes = hs.to_bytes();
    assert_eq!(bytes.len(), 68);
    assert_eq!(bytes[0], 19);
    assert_eq!(&bytes[1..20], b"BitTorrent protocol");
    assert_eq!(&bytes[20..28], &[0u8; 8]);
    assert_eq!(&bytes[28..48], &info_hash);
    assert_eq!(&bytes[48..68], &peer_id);

    let parsed = Handshake::from_bytes(&bytes).expect("68 bytes parse");
    assert!(parsed.matches_expected(&info_hash.to_vec()));

    // flipping one byte of the returned info-hash aborts the session
    let mut tampered = bytes.clone();
    tampered[30] ^= 0x01;
    let parsed2 = Handshake::from_bytes(&tampered).expect("still 68 bytes");
    assert!(!parsed2.matches_expected(&info_hash.to_vec()));

    assert!(Handshake::from_bytes(&bytes[..67].to_vec()).is_none());
}

// --- metainfo parsing, info-hash, piece arithmetic ---

fn sample_pieces(n: usize) -> Vec<u8> {
    (0..20 * n).map(|i| (i % 256) as u8).collect()
}

fn sample_torrent_bytes(pieces: &[u8], length: u64, piece_length: u64) -> Vec<u8> {
    let mut out = Vec::new();
    out.extend_from_slice(b"d8:announce31:http://tracker.example/announce4:info");
    out.extend_from_slice(sample_info_bytes(pieces, length, piece_length).as_slice());
    out.extend_from_slice(b"e");
    out
}

fn sample_info_bytes(pieces: &[u8], length: u64, piece_length: u64) -> Vec<u8> {
    let mut info = Vec::new();
    info.extend_from_slice(format!("d6:lengthi{}e4:name8:test.txt12:piece lengthi{}e", length, piece_length).as_bytes());
    info.extend_from_slice(format!("6:pieces{}:", pieces.len()).as_bytes());
    info.extend_from_slice(pieces);
    info.extend_from_slice(b"e");
    info
}

#[test]
fn parse_torrent_and_info_hash_matches_span() {
    let pieces = sample_pieces(3);
    let body = sample_torrent_bytes(&pieces, 92063, 32768);
    let parser = Parser::new("/tmp/test.torrent".to_string());
    let meta = parser.parse_bytes(&body).expect("well-formed torrent parses");
    assert_eq!(meta.announce, "http://tracker.example/announce");
    assert_eq!(meta.info.name, "test.txt");
    assert_eq!(meta.info.piece_length, 32768);
    assert_eq!(meta.info.length, Some(92063));
    assert_eq!(meta.info.pieces, pieces);
    assert_eq!(meta.info.total_length(), 92063);
    assert_eq!(meta.info.piece_count(), 3);

    // re-encoding the info dictionary reproduces the input span exactly,
    // so the info-hash equals the SHA-1 of the original span
    let span = sample_info_bytes(&pieces, 92063, 32768);
    assert_eq!(meta.info_bencoded, span);
    assert_eq!(meta.info.encode(), span);
    assert_eq!(meta.info_hash_raw(), sha1_of(&span));
    assert_eq!(meta.info.hash_raw(), sha1_of(&span));
    let hex: String = sha1_of(&span).iter().map(|b| format!("{:02x}", b)).collect();
    assert_eq!(meta.info.hash_base16(), hex);
    let urlencoded = meta.urlencode_info_hash();
    assert!(urlencoded.contains('%'));
    assert!(meta.info.md5sum.is_none());
    assert!(meta.announce_list.is_none());
}

#[test]
fn parse_rejects_multi_file_and_bad_counts() {
    // an info.files list is rejected explicitly
    let mut body = Vec::new();
    body.extend_from_slice(b"d8:announce3:url4:infod5:filesle6:lengthi20e4:name1:n12:piece lengthi20e6:pieces20:");
    body.extend_from_slice(&[0u8; 20]);
    body.extend_from_slice(b"ee");
    let parser = Parser::new("x".to_string());
    assert!(parser.parse_bytes(&body).is_err());

    // hash count must match ceil(length / piece_length)
    let pieces = sample_pieces(2);
    let body2 = sample_torrent_bytes(&pieces, 92063, 32768); // needs 3 hashes
    assert!(parser.parse_bytes(&body2).is_err());

    // not bencoded at all
    assert!(parser.parse_bytes(&b"not a torrent".to_vec()).is_err());
}

#[test]
fn parser_extracts_file_name() {
    let p = Parser::new("/home/user/files/archive.torrent".to_string());
    assert_eq!(p.file_name().as_str(), "archive.torrent");
    assert_eq!(p.file_path().as_str(), "/home/user/files/archive.torrent");
    let q = Parser::new("plain.torrent".to_string());
    assert_eq!(q.file_name().as_str(), "plain.torrent");
}

#[test]
fn piece_length_arithmetic() {
    let pieces = sample_pieces(3);
    let body = sample_torrent_bytes(&pieces, 92063, 32768);
    let meta = Parser::new("x".to_string()).parse_bytes(&body).unwrap();
    // last piece shorter than piece_length
    assert_eq!(meta.info.piece_length_at(0), 32768);
    assert_eq!(meta.info.piece_length_at(1), 32768);
    assert_eq!(meta.info.piece_length_at(2), 92063 - 2 * 32768);
    // the piece lengths sum to the total length
    let total: u64 = (0..meta.info.piece_count()).map(|p| meta.info.piece_length_at(p)).sum();
    assert_eq!(total, 92063);

    // divisible case uses the full piece_length for the last piece
    let pieces2 = sample_pieces(2);
    let body2 = sample_torrent_bytes(&pieces2, 65536, 32768);
    let meta2 = Parser::new("x".to_string()).parse_bytes(&body2).unwrap();
    assert_eq!(meta2.info.piece_length_at(1), 32768);
    let total2: u64 = (0..meta2.info.piece_count()).map(|p| meta2.info.piece_length_at(p)).sum();
    assert_eq!(total2, 65536);
}

#[test]
fn pieces_hashes_render_lowercase_hex() {
    let mut pieces = vec![0xabu8; 20];
    pieces.extend_from_slice(&[0x01u8; 20]);
    let hashes = pieces_hashes(&pieces);
    assert_eq!(hashes.len(), 2);
    assert_eq!(hashes[0], "ab".repeat(20));
    assert_eq!(hashes[1], "01".repeat(20));
}

#[test]
fn hex_and_decimal_rendering() {
    assert_eq!(bytes_to_hex_string(&vec![0x0f, 0xa0, 0x00]), "0FA000");
    assert_eq!(u64_to_string(90210), "90210");
    assert_eq!(u64_to_string(0), "0");
}

// --- tracker response ---

#[test]
fn tracker_response_parses_and_lists_peers() {
    let mut body = Vec::new();
    body.extend_from_slice(b"d8:completei3e10:incompletei7e8:intervali1800e5:peers12:");
    body.extend_from_slice(&[127, 0, 0, 1, 0x1a, 0xe1]);
    body.extend_from_slice(&[10, 0, 0, 2, 0xc8, 0xd5]);
    body.extend_from_slice(b"e");
    let t = TrackerResponse::from_bytes(&body).expect("tracker response parses");
    assert_eq!(t.interval, 1800);
    assert_eq!(t.complete, 3);
    assert_eq!(t.incomplete, 7);
    let peers = t.peers();
    assert_eq!(peers, vec!["127.0.0.1:6881".to_string(), "10.0.0.2:51413".to_string()]);

    // a partial peer record is rejected
    let mut bad = Vec::new();
    bad.extend_from_slice(b"d8:completei3e10:incompletei7e8:intervali1800e5:peers5:");
    bad.extend_from_slice(&[127, 0, 0, 1, 0x1a]);
    bad.extend_from_slice(b"e");
    assert!(TrackerResponse::from_bytes(&bad).is_err());
}

#[test]
fn ip_string_from_record() {
    let rec = vec![192, 168, 1, 30, 0x00, 0x50];
    assert_eq!(TrackerResponse::ip_bytes_to_ip_string(&rec), "192.168.1.30:80");
}

// --- announce URL ---

#[test]
fn announce_url_is_exact() {
    let url = construct_url(
        &"http://t.example/announce".to_string(),
        &vec![0x00, 0xff, 0x41],
        &"13374313374313374369".to_string(),
        &"6882".to_string(),
        0,
        0,
        92063,
        true,
    );
    let expected = format!(
        "{}{}",
        "http://t.example/announce?info_hash=%00%FFA&peer_id=13374313374313374369",
        "&port=6882&uploaded=0&downloaded=0&left=92063&compact=1"
    );
    assert_eq!(url, expected);
}

// --- the piece download state machine ---

fn content_bytes(n: usize) -> Vec<u8> {
    (0..n).map(|i| ((i * 31 + 7) % 251) as u8).collect()
}

fn piece_message(index: u32, begin: u32, block: &[u8]) -> PeerMessage {
    let mut payload = Vec::new();
    payload.extend_from_slice(&be32(index));
    payload.extend_from_slice(&be32(begin));
    payload.extend_from_slice(block);
    PeerMessage::new(MessageID::Piece, Some(payload)).unwrap()
}

fn parse_request_frames(mut bytes: BytesMut) -> Vec<(u32, u32, u32)> {
    let mut out = Vec::new();
    loop {
        match PeerMessageDecoder::new().decode(&mut bytes).unwrap() {
            None => break,
            Some(msg) => {
                assert_eq!(msg.message_id, MessageID::Request);
                let p = msg.payload.unwrap();
                assert_eq!(p.len(), 12);
                out.push((
                    u32::from_be_bytes(p[0..4].try_into().unwrap()),
                    u32::from_be_bytes(p[4..8].try_into().unwrap()),
                    u32::from_be_bytes(p[8..12].try_into().unwrap()),
                ));
            }
        }
    }
    out
}

#[test]
fn download_piece_happy_path_out_of_order() {
    // piece 0 of a 92063-byte torrent with 32 KiB pieces
    let content = content_bytes(92063);
    let piece0 = &content[0..32768];
    let hash = sha1_of(piece0);

    let mut dl = PieceDownload::new(0, 32768, hash);
    let step = dl.on_message(PeerMessage::new(MessageID::Bitfield, Some(vec![0xff])).unwrap()).unwrap();
    match step {
        DownloadStep::Send(b) => assert_eq!(b, vec![0, 0, 0, 1, 2]), // Interested
        _ => panic!("Bitfield should answer with Interested"),
    }
    let step = dl.on_message(PeerMessage::new(MessageID::UnChoke, None).unwrap()).unwrap();
    let requests = match step {
        DownloadStep::Send(b) => {
            let mut buf = BytesMut::new();
            buf.extend_from_slice(&b);
            parse_request_frames(buf)
        }
        _ => panic!("Unchoke should queue the block requests"),
    };
    assert_eq!(requests, vec![(0, 0, BLOCK_MAX as u32), (0, BLOCK_MAX as u32, BLOCK_MAX as u32)]);

    // blocks served in the opposite order
    let step = dl.on_message(piece_message(0, 16384, &piece0[16384..32768])).unwrap();
    assert!(matches!(step, DownloadStep::Progress));
    let step = dl.on_message(piece_message(0, 0, &piece0[0..16384])).unwrap();
    match step {
        DownloadStep::Done(data) => assert_eq!(data, piece0.to_vec()),
        _ => panic!("the piece should be complete and verified"),
    }
}

#[test]
fn download_whole_torrent_and_assemble() {
    let content = content_bytes(92063);
    let piece_length: usize = 32768;
    let bounds = [(0usize, 32768usize), (32768, 65536), (65536, 92063)];
    let mut output = vec![0u8; content.len()];
    for (p, (a, b)) in bounds.iter().enumerate() {
        let bytes = &content[*a..*b];
        let hash = sha1_of(bytes);
        let mut dl = PieceDownload::new(p as u32, (b - a) as u32, hash);
        dl.on_message(PeerMessage::new(MessageID::Bitfield, Some(vec![0xff])).unwrap()).unwrap();
        dl.on_message(PeerMessage::new(MessageID::UnChoke, None).unwrap()).unwrap();
        let mut begin = 0usize;
        let mut done = None;
        while begin < bytes.len() {
            let end = (begin + BLOCK_MAX as usize).min(bytes.len());
            match dl.on_message(piece_message(p as u32, begin as u32, &bytes[begin..end])).unwrap() {
                DownloadStep::Progress => {}
                DownloadStep::Done(d) => done = Some(d),
                DownloadStep::Send(_) => panic!("no frames expected while receiving blocks"),
            }
            begin = end;
        }
        let data = done.expect("last block completes the piece");
        assert_eq!(sha1_of(&data), sha1_of(&content[*a..*b]));
        place_piece(&mut output, p, piece_length, &data);
    }
    assert_eq!(output, content);
}

#[test]
fn download_error_cases() {
    let hash = sha1_of(&[0u8; 100]);

    // Choke aborts at any point
    let mut dl = PieceDownload::new(0, 100, hash.clone());
    assert!(matches!(
        dl.on_message(PeerMessage::new(MessageID::Choke, None).unwrap()),
        Err(PeersError::ChokedByPeer)
    ));

    // an unexpected id aborts
    let mut dl = PieceDownload::new(0, 100, hash.clone());
    assert!(matches!(
        dl.on_message(PeerMessage::new(MessageID::Have, Some(vec![0, 0, 0, 1])).unwrap()),
        Err(PeersError::UnexpectedMessage)
    ));

    // a block for another piece aborts
    let mut dl = PieceDownload::new(0, 100, hash.clone());
    dl.on_message(PeerMessage::new(MessageID::Bitfield, Some(vec![0xff])).unwrap()).unwrap();
    dl.on_message(PeerMessage::new(MessageID::UnChoke, None).unwrap()).unwrap();
    assert!(matches!(
        dl.on_message(piece_message(5, 0, &[1, 2, 3])),
        Err(PeersError::WrongPieceIndex)
    ));

    // a block past the end of the piece aborts
    let mut dl = PieceDownload::new(0, 100, hash.clone());
    dl.on_message(PeerMessage::new(MessageID::Bitfield, Some(vec![0xff])).unwrap()).unwrap();
    dl.on_message(PeerMessage::new(MessageID::UnChoke, None).unwrap()).unwrap();
    assert!(matches!(
        dl.on_message(piece_message(0, 99, &[1, 2, 3])),
        Err(PeersError::BlockOutOfRange)
    ));

    // a too-short piece payload aborts
    let mut dl = PieceDownload::new(0, 100, hash.clone());
    dl.on_message(PeerMessage::new(MessageID::Bitfield, Some(vec![0xff])).unwrap()).unwrap();
    dl.on_message(PeerMessage::new(MessageID::UnChoke, None).unwrap()).unwrap();
    assert!(matches!(
        dl.on_message(PeerMessage::new(MessageID::Piece, Some(vec![0, 0, 0, 0])).unwrap()),
        Err(PeersError::MalformedBlock)
    ));

    // wrong content fails the SHA-1 comparison
    let expected = sha1_of(b"what the piece should have been, padded....................................................");
    let mut dl = PieceDownload::new(0, 10, expected);
    dl.on_message(PeerMessage::new(MessageID::Bitfield, Some(vec![0xff])).unwrap()).unwrap();
    dl.on_message(PeerMessage::new(MessageID::UnChoke, None).unwrap()).unwrap();
    assert!(matches!(
        dl.on_message(piece_message(0, 0, &[9u8; 10])),
        Err(PeersError::HashMismatch)
    ));
}

#[test]
fn request_plan_covers_piece_exactly() {
    // remainder case: the final block is shorter
    let frames = build_piece_requests(2, 92063 - 2 * 32768);
    let mut buf = BytesMut::new();
    buf.extend_from_slice(&frames);
    let reqs = parse_request_frames(buf);
    assert_eq!(reqs, vec![(2, 0, 16384), (2, 16384, 26527 - 16384)]);
    let total: u32 = reqs.iter().map(|r| r.2).sum();
    assert_eq!(total, 26527);

    // divisible case: every block is BLOCK_MAX
    let frames = build_piece_requests(0, 32768);
    let mut buf = BytesMut::new();
    buf.extend_from_slice(&frames);
    let reqs = parse_request_frames(buf);
    assert_eq!(reqs, vec![(0, 0, 16384), (0, 16384, 16384)]);
}

#[test]
fn info_hash_keeps_unknown_keys() {
    // a key the typed view does not model stays in the re-encoded span
    let mut span = Vec::new();
    span.extend_from_slice(b"d6:lengthi20e4:name1:n12:piece lengthi20e6:pieces20:");
    span.extend_from_slice(&[9u8; 20]);
    span.extend_from_slice(b"6:source3:abce");
    let mut body = Vec::new();
    body.extend_from_slice(b"d8:announce3:url4:info");
    body.extend_from_slice(&span);
    body.extend_from_slice(b"e");
    let meta = Parser::new("x".to_string()).parse_bytes(&body).expect("unknown info keys are kept");
    assert_eq!(meta.info_bencoded, span);
    assert_eq!(meta.info_hash_raw(), sha1_of(&span));
}

#[test]
fn empty_payload_on_bare_id_kept_as_given() {
    // ids 0-3 accept an explicitly empty payload and keep it as passed
    let m = PeerMessage::new(MessageID::Choke, Some(vec![])).unwrap();
    assert_eq!(m.message_id, MessageID::Choke);
    assert_eq!(m.payload, Some(vec![]));
    let n = PeerMessage::new(MessageID::UnChoke, None).unwrap();
    assert!(n.payload.is_none());
}

#[test]
fn known_id_frames_always_consumed_whole() {
    // a Choke frame with extra payload bytes: the whole frame is
    // consumed and the message carries no payload
    let mut buf = BytesMut::new();
    buf.extend_from_slice(&[0, 0, 0, 2, 0, 0xaa]);
    let decoded = PeerMessageDecoder::new().decode(&mut buf).unwrap().unwrap();
    assert_eq!(decoded.message_id, MessageID::Choke);
    assert!(decoded.payload.is_none());
    assert!(buf.is_empty());

    // a Piece frame of length one: consumed whole, empty payload
    let mut buf2 = BytesMut::new();
    buf2.extend_from_slice(&[0, 0, 0, 1, 7]);
    let decoded2 = PeerMessageDecoder::new().decode(&mut buf2).unwrap().unwrap();
    assert_eq!(decoded2.message_id, MessageID::Piece);
    assert_eq!(decoded2.payload, Some(vec![]));
    assert!(buf2.is_empty());

    // the stream stays in sync with a following frame
    let mut buf3 = BytesMut::new();
    buf3.extend_from_slice(&[0, 0, 0, 3, 1, 9, 9]); // UnChoke with junk bytes
    buf3.extend_from_slice(&[0, 0, 0, 1, 0]); // Choke
    let first = PeerMessageDecoder::new().decode(&mut buf3).unwrap().unwrap();
    assert_eq!(first.message_id, MessageID::UnChoke);
    let second = PeerMessageDecoder::new().decode(&mut buf3).unwrap().unwrap();
    assert_eq!(second.message_id, MessageID::Choke);
    assert!(buf3.is_empty());
}

#[test]
fn empty_read_retry_rule() {
    // four empty reads in a row keep the session alive
    let mut count = 0u32;
    for _ in 0..4 {
        match note_read(count, 0) {
            ReadOutcome::KeepReading(next) => count = next,
            ReadOutcome::PeerDead => panic!("fewer than five empty reads must not end the peer"),
        }
    }
    assert_eq!(count, 4);
    // the fifth consecutive empty read ends the peer
    assert_eq!(note_read(count, 0), ReadOutcome::PeerDead);
    // any data resets the count
    assert_eq!(note_read(3, 100), ReadOutcome::KeepReading(0));
}
