use std::path::PathBuf;
use wasm_rpc::client::{handle_payload, request_data_frame, Client, ClientAction, ResponseReader};
use wasm_rpc::frame::{
    encode_frame, Frame, FrameError, Payload, FLAG_ACK, FLAG_EMPTY, FLAG_END_HEADERS, FLAG_END_STREAM,
};
use wasm_rpc::http2::PREFACE;

fn request_block(uri: &[u8]) -> Vec<u8> {
    hpack::Encoder::new().encode(vec![
        (&b":path"[..], uri),
        (&b":method"[..], &b"POST"[..]),
        (&b"content-type"[..], &b"application/grpc"[..]),
        (&b"grpc-accept-encoding"[..], &b"identity,deflate,gzip"[..]),
        (&b"te"[..], &b"trailers"[..]),
        (&b":scheme"[..], &b"http"[..]),
        (&b":authority"[..], &b"localhost:1443"[..]),
    ])
}

#[test]
fn new_client_has_path_and_no_connection() {
    let c = Client::new(PathBuf::from("output/client-tx.sock"));
    assert_eq!(c.path(), &PathBuf::from("output/client-tx.sock"));
    let preamble = c.connection_preamble().unwrap();
    let mut expected = PREFACE.to_vec();
    expected.extend_from_slice(&[0, 0, 0, 4, 0, 0, 0, 0, 0]);
    expected.extend_from_slice(&[0, 0, 4, 8, 0, 0, 0, 0, 0, 0x7f, 0xff, 0xff, 0xff]);
    assert_eq!(preamble, expected);
}

#[test]
fn first_request_acknowledges_settings_then_opens_stream_zero() {
    let mut c = Client::new(PathBuf::from("s"));
    let (bytes, id) = c.prepare_request_bytes(b"/helloworld.Greeter/SayHello", &[0, 0, 0, 0, 5, 10, 3, 98, 111, 98]);
    assert_eq!(id, 0);
    let block = request_block(b"/helloworld.Greeter/SayHello");
    let mut expected = vec![0, 0, 0, 4, 1, 0, 0, 0, 0];
    expected.extend(encode_frame(&Frame::new(FLAG_END_HEADERS, 0, Payload::Headers { block: block.clone() })));
    expected.extend(encode_frame(&Frame::new(FLAG_EMPTY, 0, Payload::Data { data: vec![0, 0, 0, 0, 5, 10, 3, 98, 111, 98] })));
    assert_eq!(bytes, expected);
    // the header block is HPACK, not the URI as it is
    assert_eq!(bytes[9 + 3], 1);
    assert_eq!(bytes[9 + 9..9 + 9 + block.len()].to_vec(), block);
    assert!(c.connection_preamble().is_none());
}

#[test]
fn later_requests_take_the_next_streams_without_acknowledgement() {
    let mut c = Client::new(PathBuf::from("s"));
    let _ = c.prepare_request_bytes(b"/a", b"x");
    let (bytes, id) = c.prepare_request_bytes(b"/b", b"y");
    assert_eq!(id, 2);
    let block = request_block(b"/b");
    let mut expected = encode_frame(&Frame::new(FLAG_END_HEADERS, 2, Payload::Headers { block }));
    expected.extend(encode_frame(&Frame::new(FLAG_EMPTY, 2, Payload::Data { data: b"y".to_vec() })));
    assert_eq!(bytes, expected);
    let (_, id) = c.prepare_request_bytes(b"/c", b"z");
    assert_eq!(id, 4);
}

#[test]
fn request_data_frame_carries_more_body() {
    assert_eq!(request_data_frame(6, &[1, 2]), vec![0, 0, 2, 0, 0, 0, 0, 0, 6, 1, 2]);
}

#[test]
fn client_delivers_data_and_stops_at_end_of_stream() {
    let data = Frame::new(FLAG_EMPTY, 1, Payload::Data { data: vec![4, 5] });
    assert_eq!(handle_payload(&data), ClientAction::Deliver(vec![4, 5]));
    let head = Frame::new(FLAG_END_HEADERS, 1, Payload::Headers { block: vec![0x88] });
    assert_eq!(handle_payload(&head), ClientAction::Continue);
    let trailers = Frame::new(FLAG_END_HEADERS | FLAG_END_STREAM, 1, Payload::Headers { block: vec![0x88] });
    assert_eq!(handle_payload(&trailers), ClientAction::Finished);
    let settings = Frame::new(FLAG_EMPTY, 0, Payload::Settings);
    assert_eq!(handle_payload(&settings), ClientAction::Continue);
}

#[test]
fn client_answers_ping_with_ack_on_stream_one() {
    let ping = Frame::new(FLAG_EMPTY, 0, Payload::Ping { opaque: 0x0102030405060708 });
    assert_eq!(
        handle_payload(&ping),
        ClientAction::Reply(vec![0, 0, 8, 6, FLAG_ACK, 0, 0, 0, 1, 1, 2, 3, 4, 5, 6, 7, 8])
    );
}

#[test]
fn reader_takes_frames_as_they_complete() {
    let f1 = encode_frame(&Frame::new(FLAG_EMPTY, 1, Payload::Data { data: vec![1, 2, 3] }));
    let f2 = encode_frame(&Frame::new(FLAG_END_HEADERS | FLAG_END_STREAM, 1, Payload::Headers { block: vec![0x88] }));
    let mut r = ResponseReader::new();
    r.feed(&f1[..4]);
    assert_eq!(r.next_action(), Ok(None));
    r.feed(&f1[4..]);
    r.feed(&f2[..2]);
    assert_eq!(r.next_action(), Ok(Some(ClientAction::Deliver(vec![1, 2, 3]))));
    assert_eq!(r.next_frame(), Ok(None));
    r.feed(&f2[2..]);
    assert_eq!(r.next_action(), Ok(Some(ClientAction::Finished)));
    assert_eq!(r.next_action(), Ok(None));
}

#[test]
fn reader_reports_bad_frames() {
    let mut r = ResponseReader::new();
    r.feed(&[0, 0, 0, 0, 0x80, 0, 0, 0, 1]);
    assert_eq!(r.next_frame(), Err(FrameError::BadHeader));
}
