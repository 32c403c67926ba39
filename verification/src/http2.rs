//! The connection preface and the SETTINGS and WINDOW_UPDATE frames that open a connection.
use vstd::prelude::*;
use crate::frame::{
    well_formed, Frame, FrameHeader, FrameView, Payload, PayloadView, FLAG_EMPTY, KIND_SETTINGS,
    KIND_WINDOW_UPDATE,
};

verus! {

/// Length of the client connection preface.
pub const PREFACE_LEN: usize = 24;

/// The client connection preface, `PRI * HTTP/2.0\r\n\r\nSM\r\n\r\n`.
pub const PREFACE: [u8; 24] = [
    80, 82, 73, 32, 42, 32, 72, 84, 84, 80, 47, 50, 46, 48, 13, 10, 13, 10, 83, 77, 13, 10, 13, 10,
];

/// The bytes of the client connection preface.
pub open spec fn preface_bytes() -> Seq<u8> {
    seq![80u8, 82, 73, 32, 42, 32, 72, 84, 84, 80, 47, 50, 46, 48, 13, 10, 13, 10, 83, 77, 13, 10, 13, 10]
}

/// The client connection preface as a vector.
pub fn preface() -> (bytes: Vec<u8>)
    ensures
        bytes@ == preface_bytes(),
{
    let bytes = vec![80u8, 82, 73, 32, 42, 32, 72, 84, 84, 80, 47, 50, 46, 48, 13, 10, 13, 10, 83, 77, 13, 10, 13, 10];
    assert(bytes@ =~= preface_bytes());
    bytes
}

/// The largest window increment, 2^31 - 1.
pub const MAX_WINDOW_INCREMENT: u32 = 0x7fff_ffff;

/// The empty SETTINGS frame on stream 0, with no flag.
pub open spec fn initial_settings_frame() -> FrameView {
    FrameView {
        header: FrameHeader { length: 0, kind: KIND_SETTINGS, flag: FLAG_EMPTY, id: 0 },
        payload: PayloadView::Settings,
    }
}

/// The WINDOW_UPDATE frame on stream 0 that opens the connection window to its largest size.
pub open spec fn initial_window_update_frame() -> FrameView {
    FrameView {
        header: FrameHeader { length: 4, kind: KIND_WINDOW_UPDATE, flag: FLAG_EMPTY, id: 0 },
        payload: PayloadView::WindowUpdate { increment: MAX_WINDOW_INCREMENT },
    }
}

/// The two frames that each side sends when a connection opens: an empty SETTINGS frame and a
/// WINDOW_UPDATE of 2^31 - 1, both on stream 0.
pub fn prepare_initial_settings() -> (frames: Vec<Frame>)
    ensures
        frames@.len() == 2,
        frames[0]@ == initial_settings_frame(),
        frames[1]@ == initial_window_update_frame(),
        well_formed(frames[0]@),
        well_formed(frames[1]@),
{
    let settings = Frame::new(FLAG_EMPTY, 0, Payload::Settings);
    let window_update = Frame::new(FLAG_EMPTY, 0, Payload::WindowUpdate { increment: MAX_WINDOW_INCREMENT });
    assert(0u8 & 0xd2u8 == 0 && 0u8 & 0x08u8 == 0 && 0u8 & 0x20u8 == 0) by (bit_vector);
    vec![settings, window_update]
}

} // verus!
