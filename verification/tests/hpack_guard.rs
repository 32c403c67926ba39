use std::path::PathBuf;
use wasm_rpc::client::Client;
use wasm_rpc::frame::{Frame, Payload, FLAG_EMPTY};
use wasm_rpc::header_block::{hpack_block_would_trap, hpack_decode, hpack_encode};
use wasm_rpc::server::{StreamAction, StreamFault, StreamHandler};

#[test]
fn cut_short_size_update_is_caught() {
    // a size update whose five-bit prefix is full and has no continuation byte
    assert!(hpack_block_would_trap(&[0x3f]));
    // the same after a whole indexed field
    assert!(hpack_block_would_trap(&[0x82, 0x3f, 0xff]));
    // a size update whose integer runs past five octets
    assert!(hpack_block_would_trap(&[0x3f, 0x80, 0x80, 0x80, 0x80, 0x01]));
}

#[test]
fn well_formed_blocks_are_passed() {
    assert!(!hpack_block_would_trap(&[]));
    assert!(!hpack_block_would_trap(&[0x82, 0x84]));
    // a size update whose integer is whole
    assert!(!hpack_block_would_trap(&[0x3f, 0xe1, 0x1f, 0x82]));
    // a literal whose value runs out: the decoder reports an error and stops there
    assert!(!hpack_block_would_trap(&[0x40, 0x01, b'a', 0x05, b'b', 0x3f]));
    let block = hpack_encode(&vec![(b"x-name".to_vec(), b"value".to_vec()), (b":path".to_vec(), b"/".to_vec())]);
    assert!(!hpack_block_would_trap(&block));
}

#[test]
fn encode_then_decode_gives_the_headers_back() {
    let headers = vec![
        (b":path".to_vec(), b"/svc/M".to_vec()),
        (b"custom".to_vec(), b"one".to_vec()),
        (b"custom".to_vec(), b"two".to_vec()),
        (b"custom".to_vec(), b"one".to_vec()),
    ];
    let block = hpack_encode(&headers);
    assert_eq!(hpack_decode(&block), Some(headers));
    assert_eq!(hpack_decode(&[0xff]), None);
}

#[test]
fn stream_refuses_block_that_would_crash_decoder() {
    let (mut h, _) = StreamHandler::new(1);
    let bad = Frame::new(4, 1, Payload::Headers { block: vec![0x3f] });
    assert_eq!(h.on_frame(&bad), StreamAction::Fault(StreamFault::BadHeaderBlock));
    let data = Frame::new(FLAG_EMPTY, 1, Payload::Data { data: vec![] });
    assert_eq!(h.on_frame(&data), StreamAction::Fault(StreamFault::NoHeaders));
}

#[test]
fn reply_head_and_next_follow_the_body() {
    let (h, _) = StreamHandler::new(3);
    assert_eq!(h.reply_head(200), wasm_rpc::server::prepare_response_header(3, 200));
    assert_eq!(h.reply_next(Some(&[1, 2])), (wasm_rpc::server::prepare_response(3, &[1, 2]), false));
    assert_eq!(h.reply_next(None), (wasm_rpc::server::prepare_response_trailers(3), true));
}

#[test]
fn successive_requests_take_successive_streams() {
    let mut c = Client::new(PathBuf::from("s"));
    let mut ids = Vec::new();
    let mut acked = Vec::new();
    for i in 0..5u8 {
        let (bytes, id) = c.prepare_request_bytes(b"/m", &[i]);
        ids.push(id);
        acked.push(bytes[..9] == [0, 0, 0, 4, 1, 0, 0, 0, 0]);
    }
    assert_eq!(ids, vec![0, 2, 4, 6, 8]);
    assert_eq!(acked, vec![true, false, false, false, false]);
}
