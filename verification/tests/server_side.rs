use std::path::PathBuf;
use wasm_rpc::frame::{encode_frame, Frame, FrameError, FrameHeader, Payload, FLAG_EMPTY};
use wasm_rpc::http2::PREFACE;
use wasm_rpc::server::{
    bytes_eq, decimal_digits, find_header_value, prepare_ack_frame, prepare_response,
    prepare_response_header, prepare_response_trailers, split_incoming, wire_bytes, Server,
    StreamAction, StreamFault, StreamHandler, StreamTable,
};

#[test]
fn server_keeps_path_and_service() {
    let s = Server::new(PathBuf::from("/services/server.sock"), 17u32);
    assert_eq!(s.into_parts(), (PathBuf::from("/services/server.sock"), 17u32));
}

#[test]
fn status_is_written_in_decimal() {
    assert_eq!(decimal_digits(0), b"0".to_vec());
    assert_eq!(decimal_digits(200), b"200".to_vec());
    assert_eq!(decimal_digits(404), b"404".to_vec());
    assert_eq!(decimal_digits(65535), b"65535".to_vec());
}

#[test]
fn ack_frame_is_empty_settings_with_ack() {
    assert_eq!(encode_frame(&prepare_ack_frame(0)), vec![0, 0, 0, 4, 1, 0, 0, 0, 0]);
}

#[test]
fn response_header_frame_encodes_status_headers() {
    let block = hpack::Encoder::new().encode(vec![
        (&b":status"[..], &b"200"[..]),
        (&b"content-type"[..], &b"application/grpc"[..]),
        (&b"grpc-accept-encoding"[..], &b"identity,deflate,gzip"[..]),
    ]);
    let f = prepare_response_header(3, 200);
    assert_eq!(f.header, FrameHeader { length: block.len() as u32, kind: 1, flag: 4, id: 3 });
    assert_eq!(f.payload, Payload::Headers { block });
}

#[test]
fn response_trailers_end_the_stream() {
    let block = hpack::Encoder::new().encode(vec![(&b"grpc-status"[..], &b"0"[..])]);
    let f = prepare_response_trailers(3);
    assert_eq!(f.header, FrameHeader { length: block.len() as u32, kind: 1, flag: 5, id: 3 });
    assert_eq!(f.payload, Payload::Headers { block });
}

#[test]
fn response_data_frame_carries_chunk() {
    let f = prepare_response(3, &[9, 8]);
    assert_eq!(encode_frame(&f), vec![0, 0, 2, 0, 0, 0, 0, 0, 3, 9, 8]);
}

#[test]
fn wire_bytes_are_cut_at_the_buffer() {
    let small = prepare_response(1, &[1; 10]);
    assert_eq!(wire_bytes(&small), encode_frame(&small));
    let big = prepare_response(1, &[1; 600]);
    let cut = wire_bytes(&big);
    assert_eq!(cut.len(), 512);
    assert_eq!(cut, encode_frame(&big)[..512].to_vec());
}

#[test]
fn split_skips_preface_and_reads_frames() {
    let a = Frame::new(FLAG_EMPTY, 0, Payload::Settings);
    let b = Frame::new(FLAG_EMPTY, 1, Payload::Data { data: vec![7, 7] });
    let mut buf = [0u8; 512];
    let mut bytes = PREFACE.to_vec();
    bytes.extend(encode_frame(&a));
    bytes.extend(encode_frame(&b));
    buf[..bytes.len()].copy_from_slice(&bytes);
    assert_eq!(split_incoming(&buf, bytes.len()), Ok(vec![a.clone(), b.clone()]));
    let mut plain = encode_frame(&b);
    plain.extend(encode_frame(&a));
    assert_eq!(split_incoming(&plain, plain.len()), Ok(vec![b, a]));
    assert_eq!(split_incoming(&buf, 0), Ok(vec![]));
}

#[test]
fn split_reports_truncated_and_bad_frames() {
    let b = encode_frame(&Frame::new(FLAG_EMPTY, 1, Payload::Data { data: vec![7, 7, 7] }));
    assert_eq!(split_incoming(&b[..10], 10), Err(FrameError::Truncated));
    assert_eq!(split_incoming(&[0, 0, 0, 0, 0x10, 0, 0, 0, 1], 9), Err(FrameError::BadHeader));
    assert_eq!(split_incoming(&[0, 0, 1, 6, 0, 0, 0, 0, 1, 0], 10), Err(FrameError::BadPayload));
}

#[test]
fn stream_zero_opens_with_ack_and_settings() {
    let (h, frames) = StreamHandler::new(0);
    assert_eq!(h.stream_id(), 0);
    let bytes: Vec<Vec<u8>> = frames.iter().map(encode_frame).collect();
    assert_eq!(
        bytes,
        vec![
            vec![0, 0, 0, 4, 1, 0, 0, 0, 0],
            vec![0, 0, 0, 4, 0, 0, 0, 0, 0],
            vec![0, 0, 4, 8, 0, 0, 0, 0, 0, 0x7f, 0xff, 0xff, 0xff],
        ]
    );
    let (h, frames) = StreamHandler::new(5);
    assert_eq!(h.stream_id(), 5);
    assert!(frames.is_empty());
}

#[test]
fn stream_turns_headers_and_data_into_request() {
    let (mut h, _) = StreamHandler::new(1);
    let data = Frame::new(FLAG_EMPTY, 1, Payload::Data { data: vec![1] });
    assert_eq!(h.on_frame(&data), StreamAction::Fault(StreamFault::NoHeaders));
    let block = hpack::Encoder::new().encode(vec![
        (&b":method"[..], &b"POST"[..]),
        (&b":path"[..], &b"/svc/Method"[..]),
        (&b":path"[..], &b"/second"[..]),
    ]);
    let headers = Frame::new(4, 1, Payload::Headers { block });
    assert_eq!(h.on_frame(&headers), StreamAction::HeadersStored);
    assert_eq!(
        h.on_frame(&data),
        StreamAction::Dispatch { uri: b"/svc/Method".to_vec(), body: vec![1] }
    );
}

#[test]
fn stream_faults_without_path_or_on_bad_block() {
    let (mut h, _) = StreamHandler::new(1);
    let no_path = hpack::Encoder::new().encode(vec![(&b":method"[..], &b"POST"[..])]);
    assert_eq!(h.on_frame(&Frame::new(4, 1, Payload::Headers { block: no_path })), StreamAction::HeadersStored);
    let data = Frame::new(FLAG_EMPTY, 1, Payload::Data { data: vec![] });
    assert_eq!(h.on_frame(&data), StreamAction::Fault(StreamFault::NoPath));
    let bad = Frame::new(4, 1, Payload::Headers { block: vec![0xff] });
    assert_eq!(h.on_frame(&bad), StreamAction::Fault(StreamFault::BadHeaderBlock));
}

#[test]
fn stream_echoes_ping_and_ignores_others() {
    let (mut h, _) = StreamHandler::new(7);
    let ping = Frame::new(1, 7, Payload::Ping { opaque: 42 });
    assert_eq!(h.on_frame(&ping), StreamAction::Send(Frame::new(0, 7, Payload::Ping { opaque: 42 })));
    let window = Frame::new(0, 7, Payload::WindowUpdate { increment: 1 });
    assert_eq!(h.on_frame(&window), StreamAction::Ignored);
}

#[test]
fn header_lookup_finds_first_match() {
    let headers = vec![
        (b"a".to_vec(), b"1".to_vec()),
        (b":path".to_vec(), b"/x".to_vec()),
        (b":path".to_vec(), b"/y".to_vec()),
    ];
    assert_eq!(find_header_value(&headers, b":path"), Some(&b"/x".to_vec()));
    assert_eq!(find_header_value(&headers, b"b"), None);
    assert!(bytes_eq(b"ab", b"ab"));
    assert!(!bytes_eq(b"ab", b"abc"));
    assert!(!bytes_eq(b"ab", b"ac"));
}

#[test]
fn streams_keep_their_handlers() {
    let mut t = StreamTable::new();
    assert_eq!(t.route(1), (0, true));
    assert_eq!(t.route(3), (1, true));
    assert_eq!(t.route(1), (0, false));
    assert_eq!(t.route(0), (2, true));
    assert_eq!(t.route(3), (1, false));
    assert_eq!(t.len(), 3);
}
