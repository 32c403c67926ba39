use wasm_rpc::frame::{
    encode_frame, encode_frame_header, encode_payload, parse_frame_header, parse_payload,
    payload_parse_would_trap, read_frame, Frame, FrameError, FrameHeader, Payload,
    FLAG_ACK, FLAG_EMPTY, FLAG_END_HEADERS, KIND_DATA, KIND_PING,
};
use wasm_rpc::http2::{preface, prepare_initial_settings, PREFACE, PREFACE_LEN};

#[test]
fn preface_is_the_http2_client_preface() {
    assert_eq!(&PREFACE[..], b"PRI * HTTP/2.0\r\n\r\nSM\r\n\r\n");
    assert_eq!(preface(), b"PRI * HTTP/2.0\r\n\r\nSM\r\n\r\n".to_vec());
    assert_eq!(PREFACE_LEN, 24);
}

#[test]
fn initial_settings_frames_encode() {
    let frames = prepare_initial_settings();
    assert_eq!(frames.len(), 2);
    assert_eq!(encode_frame(&frames[0]), vec![0, 0, 0, 4, 0, 0, 0, 0, 0]);
    assert_eq!(
        encode_frame(&frames[1]),
        vec![0, 0, 4, 8, 0, 0, 0, 0, 0, 0x7f, 0xff, 0xff, 0xff]
    );
}

#[test]
fn header_parse_reads_fields() {
    let h = parse_frame_header(&[0x01, 0x02, 0x03, 6, 1, 0x86, 0x07, 0x08, 0x09]).unwrap();
    assert_eq!(h.length, 0x010203);
    assert_eq!(h.kind, KIND_PING);
    assert_eq!(h.flag, 1);
    // the top bit of the stream identifier is cleared
    assert_eq!(h.id, 0x06070809);
}

#[test]
fn header_parse_maps_unknown_kinds_to_255() {
    let h = parse_frame_header(&[0, 0, 0, 0x20, 0, 0, 0, 0, 1]).unwrap();
    assert_eq!(h.kind, 255);
}

#[test]
fn header_parse_refuses_short_and_unknown_flags() {
    assert_eq!(parse_frame_header(&[0, 0, 0, 0, 0, 0, 0, 0]), None);
    assert_eq!(parse_frame_header(&[0, 0, 0, 0, 0x02, 0, 0, 0, 0]), None);
    assert_eq!(parse_frame_header(&[0, 0, 0, 0, 0x40, 0, 0, 0, 0]), None);
}

#[test]
fn header_encode_writes_big_endian_fields() {
    let h = FrameHeader { length: 0x0a0b0c, kind: 1, flag: 5, id: 0x01020304 };
    assert_eq!(encode_frame_header(&h), vec![0x0a, 0x0b, 0x0c, 1, 5, 1, 2, 3, 4]);
    // unknown flag bits are dropped, the length is cut to 24 bits
    let h = FrameHeader { length: 0x01_000001, kind: 0, flag: 0xff, id: 7 };
    assert_eq!(encode_frame_header(&h), vec![0, 0, 1, 0, 0x2d, 0, 0, 0, 7]);
}

#[test]
fn payload_encode_writes_values() {
    assert_eq!(encode_payload(&Payload::Data { data: vec![1, 2, 3] }), vec![1, 2, 3]);
    assert_eq!(encode_payload(&Payload::Settings), Vec::<u8>::new());
    assert_eq!(
        encode_payload(&Payload::Ping { opaque: 0x0102030405060708 }),
        vec![1, 2, 3, 4, 5, 6, 7, 8]
    );
    assert_eq!(encode_payload(&Payload::WindowUpdate { increment: 0x0a0b0c0d }), vec![10, 11, 12, 13]);
}

#[test]
fn payload_parse_trims_padding_and_priority() {
    let padded = FrameHeader { length: 6, kind: KIND_DATA, flag: 0x08, id: 1 };
    assert_eq!(parse_payload(&padded, &[2, 7, 8, 9, 0, 0]), Some(Payload::Data { data: vec![7, 8, 9] }));
    let prio = FrameHeader { length: 7, kind: 1, flag: 0x20, id: 1 };
    assert_eq!(
        parse_payload(&prio, &[0, 0, 0, 3, 16, 0xaa, 0xbb]),
        Some(Payload::Headers { block: vec![0xaa, 0xbb] })
    );
    let ping = FrameHeader { length: 8, kind: KIND_PING, flag: 0, id: 0 };
    assert_eq!(parse_payload(&ping, &[0, 0, 0, 0, 0, 0, 1, 2]), Some(Payload::Ping { opaque: 258 }));
    let reset = FrameHeader { length: 4, kind: 3, flag: 0, id: 1 };
    assert_eq!(parse_payload(&reset, &[0, 0, 0, 1]), Some(Payload::Other));
}

#[test]
fn payload_parse_reads_fields_after_a_padding_length() {
    let headers = FrameHeader { length: 9, kind: 1, flag: 0x28, id: 1 };
    let body = [1, 0x80, 0, 0, 3, 16, 0xaa, 0xbb, 0];
    assert!(!payload_parse_would_trap(&headers, &body));
    assert_eq!(parse_payload(&headers, &body), Some(Payload::Headers { block: vec![0xaa, 0xbb] }));
    let mut wire = vec![0, 0, 9, 1, 0x28, 0, 0, 0, 1];
    wire.extend_from_slice(&body);
    assert_eq!(
        read_frame(&wire),
        Ok(Some((Frame { header: headers, payload: Payload::Headers { block: vec![0xaa, 0xbb] } }, 18)))
    );
    let promise = FrameHeader { length: 8, kind: 5, flag: 0x08, id: 1 };
    let body = [2, 0, 0, 0, 5, 0x82, 0, 0];
    assert!(!payload_parse_would_trap(&promise, &body));
    assert_eq!(parse_payload(&promise, &body), Some(Payload::Other));
    let short_promise = FrameHeader { length: 4, kind: 5, flag: 0x08, id: 1 };
    assert_eq!(parse_payload(&short_promise, &[0, 0, 0, 5]), None);
}

#[test]
fn payload_parse_refuses_bad_lengths() {
    let ping = FrameHeader { length: 7, kind: KIND_PING, flag: 0, id: 0 };
    assert_eq!(parse_payload(&ping, &[0; 7]), None);
    let settings = FrameHeader { length: 5, kind: 4, flag: 0, id: 0 };
    assert_eq!(parse_payload(&settings, &[0; 5]), None);
    let window = FrameHeader { length: 3, kind: 8, flag: 0, id: 0 };
    assert_eq!(parse_payload(&window, &[0; 3]), None);
    let too_much_padding = FrameHeader { length: 2, kind: KIND_DATA, flag: 0x08, id: 1 };
    assert_eq!(parse_payload(&too_much_padding, &[5, 0]), None);
    let short = FrameHeader { length: 4, kind: KIND_DATA, flag: 0, id: 1 };
    assert_eq!(parse_payload(&short, &[1, 2]), None);
}

#[test]
fn trap_guard_spots_unsafe_payloads() {
    let h = FrameHeader { length: 3, kind: KIND_DATA, flag: 0x08, id: 1 };
    assert!(payload_parse_would_trap(&h, &[3, 0, 0]));
    assert!(!payload_parse_would_trap(&h, &[2, 0, 0]));
    let prio = FrameHeader { length: 3, kind: 2, flag: 0, id: 1 };
    assert!(payload_parse_would_trap(&prio, &[0, 0, 0]));
    let headers = FrameHeader { length: 6, kind: 1, flag: 0x28, id: 1 };
    assert!(payload_parse_would_trap(&headers, &[1, 0, 0, 0, 0, 0]));
}

#[test]
fn frame_new_sets_kind_and_length() {
    let f = Frame::new(FLAG_END_HEADERS, 3, Payload::Headers { block: vec![1, 2, 3, 4] });
    assert_eq!(f.header, FrameHeader { length: 4, kind: 1, flag: 4, id: 3 });
    let p = Frame::new(FLAG_ACK, 1, Payload::Ping { opaque: 9 });
    assert_eq!(p.header, FrameHeader { length: 8, kind: KIND_PING, flag: 1, id: 1 });
}

#[test]
fn frame_roundtrips_through_read_frame() {
    let frames = vec![
        Frame::new(FLAG_EMPTY, 5, Payload::Data { data: vec![1, 2, 3] }),
        Frame::new(FLAG_END_HEADERS, 7, Payload::Headers { block: vec![0x82, 0x84] }),
        Frame::new(FLAG_ACK, 0, Payload::Settings),
        Frame::new(FLAG_ACK, 1, Payload::Ping { opaque: u64::MAX - 3 }),
        Frame::new(FLAG_EMPTY, 0, Payload::WindowUpdate { increment: 0x7fff_ffff }),
    ];
    for f in frames {
        let mut bytes = encode_frame(&f);
        let n = bytes.len();
        bytes.extend_from_slice(&[9, 9, 9]);
        assert_eq!(read_frame(&bytes), Ok(Some((f.clone(), n))));
    }
}

#[test]
fn read_frame_waits_for_whole_frames() {
    let f = Frame::new(FLAG_EMPTY, 5, Payload::Data { data: vec![1, 2, 3] });
    let bytes = encode_frame(&f);
    assert_eq!(read_frame(&bytes[..5]), Ok(None));
    assert_eq!(read_frame(&bytes[..10]), Ok(None));
}

#[test]
fn read_frame_reports_errors() {
    assert_eq!(read_frame(&[0, 0, 0, 0, 0x40, 0, 0, 0, 1]), Err(FrameError::BadHeader));
    assert_eq!(read_frame(&[0, 0, 7, 6, 0, 0, 0, 0, 0, 1, 2, 3, 4, 5, 6, 7]), Err(FrameError::BadPayload));
    // all padding: http2parse would crash, the library refuses the frame
    assert_eq!(read_frame(&[0, 0, 2, 0, 0x08, 0, 0, 0, 1, 2, 0]), Err(FrameError::BadPayload));
}
