use std::path::PathBuf;
use wasm_rpc::bench::{throughput_message, throughput_rounds};
use wasm_rpc::client::{Client, ClientAction, ResponseReader};
use wasm_rpc::frame::{Frame, Payload};
use wasm_rpc::server::{
    prepare_response, prepare_response_header, prepare_response_trailers, split_incoming,
    wire_bytes, StreamAction, StreamHandler, StreamTable,
};
use wasm_rpc::stream::IterStream;
use wasm_rpc::transfer::{Request, Response};

#[test]
fn reply_reaches_client_chunk_by_chunk() {
    let mut wire = Vec::new();
    wire.extend(wire_bytes(&prepare_response_header(1, 200)));
    wire.extend(wire_bytes(&prepare_response(1, b"hello")));
    wire.extend(wire_bytes(&prepare_response(1, b"world")));
    wire.extend(wire_bytes(&prepare_response_trailers(1)));
    let mut reader = ResponseReader::new();
    reader.feed(&wire);
    let mut actions = Vec::new();
    while let Ok(Some(a)) = reader.next_action() {
        actions.push(a);
    }
    assert_eq!(
        actions,
        vec![
            ClientAction::Continue,
            ClientAction::Deliver(b"hello".to_vec()),
            ClientAction::Deliver(b"world".to_vec()),
            ClientAction::Finished,
        ]
    );
}

#[test]
fn opening_request_reaches_service() {
    let mut client = Client::new(PathBuf::from("sock"));
    let mut bytes = client.connection_preamble().unwrap();
    let (req, id) = client.prepare_request_bytes(b"/helloworld.Greeter/SayHello", b"body");
    bytes.extend(req);
    let mut buf = [0u8; 512];
    buf[..bytes.len()].copy_from_slice(&bytes);
    let frames = split_incoming(&buf, bytes.len()).unwrap();
    assert_eq!(frames.len(), 5);
    let mut table = StreamTable::new();
    let mut handlers: Vec<StreamHandler> = Vec::new();
    let mut dispatched = Vec::new();
    for f in &frames {
        let (index, new) = table.route(f.header.id);
        if new {
            let (h, _) = StreamHandler::new(f.header.id);
            handlers.push(h);
        }
        if let StreamAction::Dispatch { uri, body } = handlers[index].on_frame(f) {
            dispatched.push((uri, body));
        }
    }
    assert_eq!(id, 0);
    assert_eq!(dispatched, vec![(b"/helloworld.Greeter/SayHello".to_vec(), b"body".to_vec())]);
    assert_eq!(frames[4], Frame::new(0, 0, Payload::Data { data: b"body".to_vec() }));
}

#[test]
fn throughput_message_is_filled_with_a() {
    assert_eq!(throughput_message(4), b"AAAA".to_vec());
    assert_eq!(throughput_message(0), Vec::<u8>::new());
    assert_eq!(throughput_rounds(1000), 10_000_000);
    assert_eq!(throughput_rounds(3), 3_333_333_333);
}

#[test]
fn iter_stream_yields_items_in_order() {
    let mut s = IterStream::new(vec![1, 2, 3].into_iter());
    assert_eq!(s.next_item(), Some(1));
    assert_eq!(s.next_item(), Some(2));
    assert_eq!(s.next_item(), Some(3));
    assert_eq!(s.next_item(), None);
}

#[test]
fn request_and_response_hold_their_fields() {
    let body = [1u8, 2];
    let r = Request { uri: "/x".to_string(), body: &body };
    assert_eq!(r.uri, "/x");
    assert_eq!(r.body, &[1, 2]);
    let s = Response { body: &body[..1], status: 200 };
    assert_eq!((s.body, s.status), (&[1u8][..], 200));
    let r2 = r.clone();
    assert_eq!((r2.uri.as_str(), r2.body), ("/x", &[1u8, 2][..]));
    let s2 = s.clone();
    assert_eq!((s2.body, s2.status), (&[1u8][..], 200));
}

#[test]
fn reply_cut_into_any_reads_gives_the_same_actions() {
    let mut wire = Vec::new();
    wire.extend(wire_bytes(&prepare_response_header(1, 200)));
    wire.extend(wire_bytes(&prepare_response(1, b"hello")));
    wire.extend(wire_bytes(&prepare_response(1, b"world")));
    wire.extend(wire_bytes(&prepare_response_trailers(1)));
    let expected = vec![
        ClientAction::Continue,
        ClientAction::Deliver(b"hello".to_vec()),
        ClientAction::Deliver(b"world".to_vec()),
        ClientAction::Finished,
    ];
    for size in [1usize, 2, 5, 9, 13, 64] {
        let mut reader = ResponseReader::new();
        let mut actions = Vec::new();
        for chunk in wire.chunks(size) {
            reader.feed(chunk);
            while let Ok(Some(a)) = reader.next_action() {
                actions.push(a);
            }
        }
        assert_eq!(actions, expected, "reads of {} bytes", size);
    }
}

#[test]
fn opening_request_split_over_two_reads() {
    let mut client = Client::new(PathBuf::from("sock"));
    let preamble = client.connection_preamble().unwrap();
    let (req, _) = client.prepare_request_bytes(b"/a", b"xy");
    let mut first = [0u8; 512];
    first[..preamble.len()].copy_from_slice(&preamble);
    let frames1 = split_incoming(&first, preamble.len()).unwrap();
    let mut second = [0u8; 512];
    second[..req.len()].copy_from_slice(&req);
    let frames2 = split_incoming(&second, req.len()).unwrap();
    assert_eq!(frames1.len(), 2);
    assert_eq!(frames2.len(), 3);
    assert_eq!(frames2[2], Frame::new(0, 0, Payload::Data { data: b"xy".to_vec() }));
    let mut whole = [0u8; 512];
    whole[..preamble.len()].copy_from_slice(&preamble);
    whole[preamble.len()..preamble.len() + req.len()].copy_from_slice(&req);
    let all = split_incoming(&whole, preamble.len() + req.len()).unwrap();
    assert_eq!(all, [frames1, frames2].concat());
}
