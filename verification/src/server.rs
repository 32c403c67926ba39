//! The server side of the transport: the frames it writes, how it splits what it reads into
//! frames, how it routes frames to streams, and what each stream does with them.
use std::collections::HashMap;
use std::path::PathBuf;
use vstd::prelude::*;
use crate::frame::{
    encode_frame, read_frame, spec_encode_frame, spec_read_frame, Frame, FrameError, FrameHeader,
    FrameView, Payload, PayloadView, FLAG_ACK, FLAG_EMPTY, FLAG_END_HEADERS, FLAG_END_STREAM,
    KIND_DATA, KIND_HEADERS, KIND_PING, KIND_SETTINGS,
};
use crate::header_block::{
    hpack_block_would_trap, hpack_decode_traps, lemma_bytes_deep_view, hpack_decode, hpack_decoded, hpack_encode, hpack_encoded, HeaderList};
use crate::http2::{
    initial_settings_frame, initial_window_update_frame, preface_bytes, prepare_initial_settings,
    PREFACE_LEN,
};
use crate::names::{
    accept_encoding, content_type, encodings, grpc_content_type, grpc_status, path, spec_accept_encoding,
    spec_content_type, spec_encodings, spec_grpc_content_type, spec_grpc_status, spec_path,
    spec_status, spec_zero, status, zero,
};

verus! {

/// A server that listens on the socket at `path` and hands each request to `service`.
pub struct Server<S> {
    path: PathBuf,
    service: S,
}

impl<S> Server<S> {
    /// The path of the socket.
    pub closed spec fn spec_path(&self) -> PathBuf {
        self.path
    }

    /// The service that answers requests.
    pub closed spec fn spec_service(&self) -> S {
        self.service
    }

    /// A server for the socket at `path` that hands requests to `service`.
    pub fn new(path: PathBuf, service: S) -> (server: Self)
        ensures
            server.spec_path() == path,
            server.spec_service() == service,
    {
        Server { path, service }
    }

    /// The socket path and the service, to run the server with.
    pub fn into_parts(self) -> (parts: (PathBuf, S))
        ensures
            parts.0 == self.spec_path(),
            parts.1 == self.spec_service(),
    {
        (self.path, self.service)
    }
}

// ---------------------------------------------------------------------------------------------
// Frames the server writes
// ---------------------------------------------------------------------------------------------

/// The decimal digits of `n`, most significant first.
pub open spec fn decimal(n: nat) -> Seq<u8>
    decreases n,
{
    if n < 10 {
        seq![(48 + n) as u8]
    } else {
        decimal(n / 10) + seq![(48 + n % 10) as u8]
    }
}

/// The decimal digits of `n` (what `format!("{}", n)` writes).
pub fn decimal_digits(n: u16) -> (digits: Vec<u8>)
    ensures
        digits@ == decimal(n as nat),
    decreases n,
{
    if n < 10 {
        vec![48u8 + n as u8]
    } else {
        let mut digits = decimal_digits(n / 10);
        digits.push(48u8 + (n % 10) as u8);
        digits
    }
}

/// The SETTINGS frame with the ACK flag on stream `identifier`.
pub open spec fn ack_frame(identifier: u32) -> FrameView {
    FrameView {
        header: FrameHeader { length: 0, kind: KIND_SETTINGS, flag: FLAG_ACK, id: identifier },
        payload: PayloadView::Settings,
    }
}

/// The response headers of a gRPC reply with HTTP status `status`.
pub open spec fn response_headers(status: u16) -> Seq<(Seq<u8>, Seq<u8>)> {
    seq![
        (spec_status(), decimal(status as nat)),
        (spec_content_type(), spec_grpc_content_type()),
        (spec_accept_encoding(), spec_encodings()),
    ]
}

/// The trailers of a gRPC reply: status 0.
pub open spec fn response_trailers() -> Seq<(Seq<u8>, Seq<u8>)> {
    seq![(spec_grpc_status(), spec_zero())]
}

/// A HEADERS frame on `stream_id` with the given flags and the block that encodes `headers`.
pub open spec fn headers_frame(stream_id: u32, flag: u8, headers: Seq<(Seq<u8>, Seq<u8>)>) -> FrameView {
    let block = hpack_encoded(headers);
    FrameView {
        header: FrameHeader { length: block.len() as u32, kind: KIND_HEADERS, flag, id: stream_id },
        payload: PayloadView::Headers { block },
    }
}

/// The HEADERS frame (END_HEADERS) that opens a reply with HTTP status `status`.
pub open spec fn response_header_frame(stream_id: u32, status: u16) -> FrameView {
    headers_frame(stream_id, FLAG_END_HEADERS, response_headers(status))
}

/// The HEADERS frame (END_HEADERS and END_STREAM) that ends a reply with gRPC status 0.
pub open spec fn response_trailers_frame(stream_id: u32) -> FrameView {
    headers_frame(stream_id, FLAG_END_HEADERS | FLAG_END_STREAM, response_trailers())
}

/// A DATA frame without flags on `stream_id`.
pub open spec fn response_data_frame(stream_id: u32, data: Seq<u8>) -> FrameView {
    FrameView {
        header: FrameHeader { length: data.len() as u32, kind: KIND_DATA, flag: FLAG_EMPTY, id: stream_id },
        payload: PayloadView::Data { data },
    }
}

/// The SETTINGS acknowledgement on stream `identifier`.
pub fn prepare_ack_frame(identifier: u32) -> (frame: Frame)
    ensures
        frame@ == ack_frame(identifier),
{
    Frame::new(FLAG_ACK, identifier, Payload::Settings)
}

/// The HEADERS frame that opens the reply on `stream_id` with HTTP status `status`.
pub fn prepare_response_header(stream_id: u32, status_code: u16) -> (frame: Frame)
    ensures
        frame@ == response_header_frame(stream_id, status_code),
{
    let headers: HeaderList = vec![
        (status(), decimal_digits(status_code)),
        (content_type(), grpc_content_type()),
        (accept_encoding(), encodings()),
    ];
    proof {
        assert forall|i: int| 0 <= i < 3 implies #[trigger] headers.deep_view()[i] == response_headers(status_code)[i] by {
            lemma_bytes_deep_view(headers@[i].0);
            lemma_bytes_deep_view(headers@[i].1);
        }
        assert(headers.deep_view() =~= response_headers(status_code));
    }
    let block = hpack_encode(&headers);
    Frame::new(FLAG_END_HEADERS, stream_id, Payload::Headers { block })
}

/// The HEADERS frame that ends the reply on `stream_id` with gRPC status 0.
pub fn prepare_response_trailers(stream_id: u32) -> (frame: Frame)
    ensures
        frame@ == response_trailers_frame(stream_id),
{
    let headers: HeaderList = vec![(grpc_status(), zero())];
    proof {
        lemma_bytes_deep_view(headers@[0].0);
        lemma_bytes_deep_view(headers@[0].1);
        assert(headers.deep_view() =~= response_trailers());
    }
    let block = hpack_encode(&headers);
    Frame::new(FLAG_END_HEADERS | FLAG_END_STREAM, stream_id, Payload::Headers { block })
}

/// A DATA frame that carries a chunk of the reply body on `stream_id`.
pub fn prepare_response(stream_id: u32, data: &[u8]) -> (frame: Frame)
    ensures
        frame@ == response_data_frame(stream_id, data@),
{
    Frame::new(FLAG_EMPTY, stream_id, Payload::Data { data: vstd::slice::slice_to_vec(data) })
}

/// The size of the buffer through which the server reads and writes frames.
pub const WIRE_BUFFER_LEN: usize = 512;

/// What the server writes for a frame: its encoding, cut at the 512 bytes of the buffer it
/// encodes into.
pub open spec fn spec_wire_bytes(f: FrameView) -> Seq<u8> {
    let e = spec_encode_frame(f);
    if e.len() <= WIRE_BUFFER_LEN { e } else { e.take(WIRE_BUFFER_LEN as int) }
}

/// The bytes the server writes for `frame`: its encoding, of which only the first 512 bytes fit
/// the buffer it goes through.
pub fn wire_bytes(frame: &Frame) -> (bytes: Vec<u8>)
    ensures
        bytes@ == spec_wire_bytes(frame@),
{
    let mut bytes = encode_frame(frame);
    if bytes.len() > WIRE_BUFFER_LEN {
        bytes.truncate(WIRE_BUFFER_LEN);
    }
    bytes
}


// ---------------------------------------------------------------------------------------------
// Reading frames
// ---------------------------------------------------------------------------------------------

/// The frames that start at `pos` in the first `n` bytes read into `buf`, one after another: a
/// frame may reach past `n` into the rest of the buffer, but a frame that runs past the buffer's
/// end, or that cannot be read, makes it an error.
pub open spec fn split_from(buf: Seq<u8>, n: nat, pos: nat) -> Result<Seq<FrameView>, FrameError>
    decreases n - pos,
{
    if pos >= n {
        Ok(Seq::empty())
    } else {
        match spec_read_frame(buf.skip(pos as int)) {
            Ok(None) => Err(FrameError::Truncated),
            Err(e) => Err(e),
            Ok(Some((f, k))) => {
                proof {
                    crate::frame::lemma_read_frame_size(buf.skip(pos as int));
                }
                if pos + k >= n {
                    Ok(seq![f])
                } else {
                    match split_from(buf, n, pos + k) {
                        Ok(rest) => Ok(seq![f] + rest),
                        Err(e) => Err(e),
                    }
                }
            },
        }
    }
}

/// Whether the first `n` bytes of `buf` start with the connection preface.
pub open spec fn starts_with_preface(buf: Seq<u8>, n: nat) -> bool {
    n >= PREFACE_LEN && buf.take(PREFACE_LEN as int) == preface_bytes()
}

/// The frames in the first `n` bytes read into `buf`, after the connection preface when they
/// start with it.
pub open spec fn spec_split_incoming(buf: Seq<u8>, n: nat) -> Result<Seq<FrameView>, FrameError> {
    split_from(buf, n, if starts_with_preface(buf, n) { PREFACE_LEN as nat } else { 0 })
}

/// Whether the first bytes of `buf` are the connection preface.
fn has_preface(buf: &[u8], n: usize) -> (res: bool)
    requires
        n <= buf.len(),
    ensures
        res == starts_with_preface(buf@, n as nat),
{
    if n < PREFACE_LEN {
        return false;
    }
    let expected = crate::http2::preface();
    let mut i: usize = 0;
    while i < PREFACE_LEN
        invariant
            i <= PREFACE_LEN <= n <= buf.len(),
            expected@ == preface_bytes(),
            forall|j: int| 0 <= j < i ==> buf@[j] == expected@[j],
        decreases PREFACE_LEN - i,
    {
        if buf[i] != expected[i] {
            assert(buf@.take(PREFACE_LEN as int)[i as int] != preface_bytes()[i as int]);
            return false;
        }
        i += 1;
    }
    assert(buf@.take(PREFACE_LEN as int) =~= preface_bytes());
    true
}

/// Splits the first `n` bytes read into `buf` into frames, after the connection preface if they
/// start with it. Where a frame runs past the end of `buf` or cannot be read, the result is the
/// error (the reading loop of the server cannot go on there).
pub fn split_incoming(buf: &[u8], n: usize) -> (res: Result<Vec<Frame>, FrameError>)
    requires
        n <= buf.len(),
    ensures
        match (res, spec_split_incoming(buf@, n as nat)) {
            (Ok(frames), Ok(views)) => frames@.map_values(|f: Frame| f@) == views,
            (Err(e), Err(e2)) => e == e2,
            _ => false,
        },
{
    let start: usize = if has_preface(buf, n) { PREFACE_LEN } else { 0 };
    let mut pos = start;
    let mut frames: Vec<Frame> = Vec::new();
    while pos < n
        invariant
            n <= buf.len(),
            pos <= buf.len(),
            spec_split_incoming(buf@, n as nat) == split_from(buf@, n as nat, start as nat),
            match split_from(buf@, n as nat, start as nat) {
                Ok(all) => split_from(buf@, n as nat, pos as nat) matches Ok(rest)
                    && all == frames@.map_values(|f: Frame| f@) + rest,
                Err(e) => split_from(buf@, n as nat, pos as nat) == Err::<Seq<FrameView>, FrameError>(e),
            },
        decreases buf.len() - pos,
    {
        proof {
            crate::frame::lemma_read_frame_size(buf@.skip(pos as int));
        }
        let rest = vstd::slice::slice_subrange(buf, pos, buf.len());
        assert(rest@ == buf@.skip(pos as int));
        match read_frame(rest) {
            Ok(Some((frame, k))) => {
                let ghost old_frames = frames@;
                frames.push(frame);
                pos = pos + k;
                proof {
                    assert(frames@.map_values(|f: Frame| f@) =~= old_frames.map_values(|f: Frame| f@).push(frames@.last()@));
                    if pos >= n {
                        assert(split_from(buf@, n as nat, pos as nat) == Ok::<Seq<FrameView>, FrameError>(Seq::empty()));
                        assert(seq![frames@.last()@] =~= seq![frames@.last()@] + Seq::<FrameView>::empty());
                    }
                    match split_from(buf@, n as nat, pos as nat) {
                        Ok(r) => {
                            assert(seq![frames@.last()@] + r =~= seq![frames@.last()@].add(r));
                            assert(old_frames.map_values(|f: Frame| f@) + (seq![frames@.last()@] + r)
                                =~= frames@.map_values(|f: Frame| f@) + r);
                        },
                        Err(_) => {},
                    }
                }
            },
            Ok(None) => {
                assert(split_from(buf@, n as nat, pos as nat) == Err::<Seq<FrameView>, FrameError>(FrameError::Truncated));
                return Err(FrameError::Truncated);
            },
            Err(e) => {
                assert(split_from(buf@, n as nat, pos as nat) == Err::<Seq<FrameView>, FrameError>(e));
                return Err(e);
            },
        }
    }
    proof {
        assert(frames@.map_values(|f: Frame| f@) + Seq::<FrameView>::empty() =~= frames@.map_values(|f: Frame| f@));
    }
    Ok(frames)
}


// ---------------------------------------------------------------------------------------------
// Streams
// ---------------------------------------------------------------------------------------------

/// The value of the first header named `name` in `headers`.
pub open spec fn find_header(headers: Seq<(Seq<u8>, Seq<u8>)>, name: Seq<u8>) -> Option<Seq<u8>>
    decreases headers.len(),
{
    if headers.len() == 0 {
        None
    } else if headers[0].0 == name {
        Some(headers[0].1)
    } else {
        find_header(headers.drop_first(), name)
    }
}

/// Whether two byte strings are equal.
pub fn bytes_eq(a: &[u8], b: &[u8]) -> (eq: bool)
    ensures
        eq == (a@ == b@),
{
    if a.len() != b.len() {
        return false;
    }
    let mut i: usize = 0;
    while i < a.len()
        invariant
            a.len() == b.len(),
            i <= a.len(),
            forall|j: int| 0 <= j < i ==> a@[j] == b@[j],
        decreases a.len() - i,
    {
        if a[i] != b[i] {
            return false;
        }
        i += 1;
    }
    assert(a@ =~= b@);
    true
}

/// The value of the first header named `name` in `headers`.
pub fn find_header_value<'a>(headers: &'a HeaderList, name: &[u8]) -> (value: Option<&'a Vec<u8>>)
    ensures
        match (value, find_header(headers.deep_view(), name@)) {
            (Some(v), Some(w)) => v@ == w,
            (None, None) => true,
            _ => false,
        },
{
    let mut i: usize = 0;
    assert(headers.deep_view().skip(0) =~= headers.deep_view());
    while i < headers.len()
        invariant
            i <= headers.len(),
            find_header(headers.deep_view(), name@) == find_header(headers.deep_view().skip(i as int), name@),
        decreases headers.len() - i,
    {
        let ghost rest = headers.deep_view().skip(i as int);
        proof {
            lemma_bytes_deep_view(headers@[i as int].0);
            lemma_bytes_deep_view(headers@[i as int].1);
            assert(rest[0] == headers.deep_view()[i as int]);
            assert(rest.drop_first() =~= headers.deep_view().skip(i + 1));
        }
        if bytes_eq(headers[i].0.as_slice(), name) {
            return Some(&headers[i].1);
        }
        i += 1;
    }
    proof {
        assert(headers.deep_view().skip(i as int).len() == 0);
    }
    None
}

/// Where a stream cannot go on; the server stops serving it there.
#[derive(Clone, Copy, Debug, PartialEq, Eq)]
pub enum StreamFault {
    /// A header block that the HPACK decoder refuses.
    BadHeaderBlock,
    /// A DATA frame before any HEADERS frame.
    NoHeaders,
    /// A DATA frame on a stream whose headers name no `:path`.
    NoPath,
}

/// What a stream does with one frame.
#[derive(Clone, Debug, PartialEq, Eq)]
pub enum StreamAction {
    /// The stream's headers were taken from a HEADERS frame.
    HeadersStored,
    /// Hand the service a request for `uri` with this body; its reply is then written back.
    Dispatch { uri: Vec<u8>, body: Vec<u8> },
    /// Write this frame back.
    Send(Frame),
    /// The frame is of a kind the stream does not handle.
    Ignored,
    /// The stream cannot go on.
    Fault(StreamFault),
}

/// Mathematical view of a [`StreamAction`].
pub enum StreamActionView {
    HeadersStored,
    Dispatch { uri: Seq<u8>, body: Seq<u8> },
    Send(FrameView),
    Ignored,
    Fault(StreamFault),
}

impl View for StreamAction {
    type V = StreamActionView;

    open spec fn view(&self) -> StreamActionView {
        match self {
            StreamAction::HeadersStored => StreamActionView::HeadersStored,
            StreamAction::Dispatch { uri, body } => StreamActionView::Dispatch { uri: uri@, body: body@ },
            StreamAction::Send(f) => StreamActionView::Send(f@),
            StreamAction::Ignored => StreamActionView::Ignored,
            StreamAction::Fault(e) => StreamActionView::Fault(*e),
        }
    }
}

/// The state of one stream on the server: its identifier and the headers of its request.
pub struct StreamHandler {
    stream_id: u32,
    headers: Option<HeaderList>,
}

/// Mathematical view of a [`StreamHandler`].
pub struct StreamHandlerView {
    pub stream_id: u32,
    pub headers: Option<Seq<(Seq<u8>, Seq<u8>)>>,
}

impl View for StreamHandler {
    type V = StreamHandlerView;

    closed spec fn view(&self) -> StreamHandlerView {
        StreamHandlerView {
            stream_id: self.stream_id,
            headers: match self.headers {
                Some(h) => Some(h.deep_view()),
                None => None,
            },
        }
    }
}

/// The frames a stream writes before it reads any: on stream 0 the settings acknowledgement,
/// then the initial SETTINGS and WINDOW_UPDATE frames; nothing on other streams.
pub open spec fn opening_frames(stream_id: u32) -> Seq<FrameView> {
    if stream_id == 0 {
        seq![ack_frame(0), initial_settings_frame(), initial_window_update_frame()]
    } else {
        Seq::empty()
    }
}

/// The PING frame, without flags, with which a stream echoes a ping.
pub open spec fn ping_echo_frame(stream_id: u32, opaque: u64) -> FrameView {
    FrameView {
        header: FrameHeader { length: 8, kind: KIND_PING, flag: FLAG_EMPTY, id: stream_id },
        payload: PayloadView::Ping { opaque },
    }
}

/// One step of a stream: its state after frame `f` and what it does.
pub open spec fn spec_on_frame(s: StreamHandlerView, f: FrameView) -> (StreamHandlerView, StreamActionView) {
    match f.payload {
        PayloadView::Headers { block } => if hpack_decode_traps(block) {
            (s, StreamActionView::Fault(StreamFault::BadHeaderBlock))
        } else {
            match hpack_decoded(block) {
                Some(h) => (StreamHandlerView { headers: Some(h), ..s }, StreamActionView::HeadersStored),
                None => (s, StreamActionView::Fault(StreamFault::BadHeaderBlock)),
            }
        },
        PayloadView::Data { data } => match s.headers {
            None => (s, StreamActionView::Fault(StreamFault::NoHeaders)),
            Some(h) => match find_header(h, spec_path()) {
                None => (s, StreamActionView::Fault(StreamFault::NoPath)),
                Some(uri) => (s, StreamActionView::Dispatch { uri, body: data }),
            },
        },
        PayloadView::Ping { opaque } => (s, StreamActionView::Send(ping_echo_frame(s.stream_id, opaque))),
        _ => (s, StreamActionView::Ignored),
    }
}

/// Only stream 0 writes anything when it opens, and it writes the settings acknowledgement, the
/// initial SETTINGS and the WINDOW_UPDATE: every other stream writes nothing before it reads.
pub proof fn lemma_only_stream_zero_opens(stream_id: u32)
    ensures
        stream_id != 0 ==> opening_frames(stream_id) == Seq::<FrameView>::empty(),
        stream_id == 0 ==> opening_frames(stream_id)
            == seq![ack_frame(0), initial_settings_frame(), initial_window_update_frame()],
{
}

proof fn lemma_find_first(h: Seq<(Seq<u8>, Seq<u8>)>, name: Seq<u8>, i: int)
    requires
        0 <= i < h.len(),
        h[i].0 == name,
        forall|j: int| 0 <= j < i ==> (#[trigger] h[j]).0 != name,
    ensures
        find_header(h, name) == Some(h[i].1),
    decreases h.len(),
{
    if i > 0 {
        assert(h[0].0 != name);
        let t = h.drop_first();
        assert forall|j: int| 0 <= j < i - 1 implies (#[trigger] t[j]).0 != name by {
            assert(t[j] == h[j + 1]);
        }
        lemma_find_first(t, name, i - 1);
    }
}

/// Once a stream holds request headers whose first `:path` header (the `i`-th) has value `uri`,
/// every DATA frame on it, whatever its flags or other header fields (END_STREAM among them),
/// becomes a request for `uri` with the frame's data, and the stream keeps its state.
pub proof fn lemma_data_dispatches(s: StreamHandlerView, f: FrameView, h: Seq<(Seq<u8>, Seq<u8>)>, i: int)
    requires
        s.headers == Some(h),
        0 <= i < h.len(),
        h[i].0 == spec_path(),
        forall|j: int| 0 <= j < i ==> (#[trigger] h[j]).0 != spec_path(),
        f.payload is Data,
    ensures
        spec_on_frame(s, f) == (s, StreamActionView::Dispatch { uri: h[i].1, body: f.payload->data }),
{
    lemma_find_first(h, spec_path(), i);
}

impl StreamHandler {
    /// A new stream and the frames it writes first (see `opening_frames`).
    pub fn new(stream_id: u32) -> (res: (StreamHandler, Vec<Frame>))
        ensures
            res.0@ == (StreamHandlerView { stream_id, headers: None }),
            res.1@.map_values(|f: Frame| f@) == opening_frames(stream_id),
    {
        let mut frames: Vec<Frame> = Vec::new();
        if stream_id == 0 {
            frames.push(prepare_ack_frame(0));
            let mut initial = prepare_initial_settings();
            frames.append(&mut initial);
            assert(frames@.map_values(|f: Frame| f@) =~= opening_frames(stream_id));
        } else {
            assert(frames@.map_values(|f: Frame| f@) =~= opening_frames(stream_id));
        }
        (StreamHandler { stream_id, headers: None }, frames)
    }

    /// The stream's identifier.
    pub fn stream_id(&self) -> (id: u32)
        ensures
            id == self@.stream_id,
    {
        self.stream_id
    }

    /// The first frame of the reply to the stream's request: the response headers with HTTP
    /// status `status`.
    pub fn reply_head(&self, status_code: u16) -> (frame: Frame)
        ensures
            frame@ == response_header_frame(self@.stream_id, status_code),
    {
        prepare_response_header(self.stream_id, status_code)
    }

    /// The frame of the reply for the next event of the response body, and whether the reply
    /// ends with it: a DATA frame for a chunk; the trailers, which end the reply, when the body
    /// has no more chunks (it ended, or it failed).
    pub fn reply_next(&self, chunk: Option<&[u8]>) -> (res: (Frame, bool))
        ensures
            match chunk {
                Some(c) => res.0@ == response_data_frame(self@.stream_id, c@) && !res.1,
                None => res.0@ == response_trailers_frame(self@.stream_id) && res.1,
            },
    {
        match chunk {
            Some(c) => (prepare_response(self.stream_id, c), false),
            None => (prepare_response_trailers(self.stream_id), true),
        }
    }

    /// Handles one frame of the stream: a HEADERS frame sets its headers (decoded with HPACK; a
    /// block on which the decoder would panic, or that it refuses, is a fault);
    /// a DATA frame becomes a request for the value of the first `:path` header; a PING is
    /// echoed on the stream without flags; other frames are ignored.
    pub fn on_frame(&mut self, frame: &Frame) -> (action: StreamAction)
        ensures
            (final(self)@, action@) == spec_on_frame(old(self)@, frame@),
    {
        match &frame.payload {
            Payload::Headers { block } => {
                if hpack_block_would_trap(block.as_slice()) {
                    return StreamAction::Fault(StreamFault::BadHeaderBlock);
                }
                match hpack_decode(block.as_slice()) {
                    Some(h) => {
                        self.headers = Some(h);
                        StreamAction::HeadersStored
                    },
                    None => StreamAction::Fault(StreamFault::BadHeaderBlock),
                }
            },
            Payload::Data { data } => match &self.headers {
                None => StreamAction::Fault(StreamFault::NoHeaders),
                Some(h) => {
                    let name = path();
                    match find_header_value(h, name.as_slice()) {
                        None => StreamAction::Fault(StreamFault::NoPath),
                        Some(uri) => StreamAction::Dispatch { uri: uri.clone(), body: data.clone() },
                    }
                },
            },
            Payload::Ping { opaque } => {
                StreamAction::Send(Frame::new(FLAG_EMPTY, self.stream_id, Payload::Ping { opaque: *opaque }))
            },
            _ => StreamAction::Ignored,
        }
    }
}


// ---------------------------------------------------------------------------------------------
// Routing frames to streams
// ---------------------------------------------------------------------------------------------

/// Whether a map from streams to handlers gives each stream its own handler, numbered from 0 in
/// the order the streams opened.
pub open spec fn numbers_handlers(m: Map<u32, usize>) -> bool {
    &&& m.dom().finite()
    &&& forall|k: u32| #[trigger] m.contains_key(k) ==> m[k] < m.len()
    &&& forall|a: u32, b: u32| #[trigger] m.contains_key(a) && #[trigger] m.contains_key(b) && a != b
        ==> m[a] != m[b]
}

/// The streams a connection has seen, each with the number of the handler that serves it.
pub struct StreamTable {
    handlers: HashMap<u32, usize>,
}

impl View for StreamTable {
    type V = Map<u32, usize>;

    closed spec fn view(&self) -> Map<u32, usize> {
        self.handlers@
    }
}

impl StreamTable {
    #[verifier::type_invariant]
    spec fn inv(&self) -> bool {
        numbers_handlers(self.handlers@)
    }

    /// A table of no streams.
    pub fn new() -> (table: StreamTable)
        ensures
            table@ == Map::<u32, usize>::empty(),
    {
        broadcast use vstd::std_specs::hash::group_hash_axioms;
        let table = StreamTable { handlers: HashMap::new() };
        proof {
            assert(table.handlers@ =~= Map::<u32, usize>::empty());
        }
        table
    }

    /// The number of streams seen.
    pub fn len(&self) -> (n: usize)
        ensures
            n == self@.len(),
    {
        broadcast use vstd::std_specs::hash::group_hash_axioms;
        self.handlers.len()
    }

    /// The handler for stream `id`, and whether it is new: a stream seen before keeps its handler;
    /// a new stream gets the next one. Each stream keeps a handler of its own.
    pub fn route(&mut self, id: u32) -> (res: (usize, bool))
        ensures
            old(self)@.contains_key(id) ==> !res.1 && final(self)@ == old(self)@ && res.0 == old(self)@[id],
            !old(self)@.contains_key(id) ==> res.1 && res.0 == old(self)@.len()
                && final(self)@ == old(self)@.insert(id, res.0),
            numbers_handlers(final(self)@),
    {
        broadcast use vstd::std_specs::hash::group_hash_axioms;
        proof {
            use_type_invariant(&*self);
        }
        match self.handlers.get(&id) {
            Some(index) => return (*index, false),
            None => {},
        }
        let n = self.handlers.len();
        let ghost old_map = self.handlers@;
        let mut handlers: HashMap<u32, usize> = HashMap::new();
        std::mem::swap(&mut handlers, &mut self.handlers);
        handlers.insert(id, n);
        proof {
            let m = handlers@;
            assert(m == old_map.insert(id, n));
            assert(!old_map.contains_key(id));
            assert(m.dom() =~= old_map.dom().insert(id));
            assert(m.len() == old_map.len() + 1);
            assert forall|k: u32| #[trigger] m.contains_key(k) implies m[k] < m.len() by {
                if k != id {
                    assert(old_map.contains_key(k));
                }
            }
            assert forall|a: u32, b: u32| #[trigger] m.contains_key(a) && #[trigger] m.contains_key(b) && a != b
                implies m[a] != m[b] by {
                if a != id && b != id {
                    assert(old_map.contains_key(a) && old_map.contains_key(b));
                } else if a == id {
                    assert(old_map.contains_key(b));
                } else {
                    assert(old_map.contains_key(a));
                }
            }
        }
        self.handlers = handlers;
        (n, true)
    }
}

/// A stream's handler serves that stream and no other: in a table that numbers its handlers, two
/// streams with the same handler are the same stream.
pub proof fn lemma_route_unique(m: Map<u32, usize>, a: u32, b: u32)
    requires
        numbers_handlers(m),
        m.contains_key(a),
        m.contains_key(b),
        m[a] == m[b],
    ensures
        a == b,
{
}

} // verus!
