pub mod bencode;
pub mod bencode_laws;
pub mod digest;
pub mod handshake;
pub mod metainfo;
pub mod netbuf;
pub mod peer_message;
pub mod peers;
pub mod piece;
pub mod request;
pub mod text;
pub mod tracker_response;
pub mod wire;
