//! The client side of the transport: the bytes it writes for a request, and what it does
//! with each frame of the reply.
use std::path::PathBuf;
use vstd::prelude::*;
use crate::frame::{
    encode_frame, lemma_read_frame_extend, lemma_read_frame_size, read_frame, spec_encode_frame, spec_read_frame, Frame, FrameError, FrameHeader,
    FrameView, Payload, PayloadView, FLAG_ACK, FLAG_EMPTY, FLAG_END_HEADERS, FLAG_END_STREAM,
    KIND_DATA, KIND_HEADERS, KIND_PING, KIND_SETTINGS,
};
use crate::header_block::{
    hpack_decode_traps, hpack_decoded, short_headers,lemma_bytes_deep_view, hpack_encode, hpack_encoded, HeaderList};
use crate::http2::{
    initial_settings_frame, initial_window_update_frame, preface, preface_bytes,
    prepare_initial_settings,
};
use crate::names::{
    accept_encoding, authority, content_type, encodings, grpc_content_type, http, localhost,
    method, path, post, scheme, spec_accept_encoding, spec_authority, spec_content_type,
    spec_encodings, spec_grpc_content_type, spec_http, spec_localhost, spec_method, spec_path,
    spec_post, spec_scheme, spec_te, spec_trailers, te, trailers,
};

verus! {

/// `std::path::PathBuf`, the path of a socket: carried through, never looked into.
#[verifier::external_type_specification]
#[verifier::external_body]
pub struct ExPathBuf(std::path::PathBuf);

/// A client of one server socket. Every request opens a new stream; the first one also
/// acknowledges the server's settings.
pub struct Client {
    path: PathBuf,
    stream_id: u32,
    connection_initialized: bool,
}

/// Mathematical view of a [`Client`].
pub struct ClientView {
    /// Path of the server's socket.
    pub path: PathBuf,
    /// Stream identifier that the next request takes.
    pub next_stream_id: u32,
    /// Whether the settings acknowledgement has been written.
    pub connection_initialized: bool,
}

impl View for Client {
    type V = ClientView;

    closed spec fn view(&self) -> ClientView {
        ClientView {
            path: self.path,
            next_stream_id: self.stream_id,
            connection_initialized: self.connection_initialized,
        }
    }
}

/// The headers of a gRPC request to `uri`, in the order the client writes them.
pub open spec fn request_headers(uri: Seq<u8>) -> Seq<(Seq<u8>, Seq<u8>)> {
    seq![
        (spec_path(), uri),
        (spec_method(), spec_post()),
        (spec_content_type(), spec_grpc_content_type()),
        (spec_accept_encoding(), spec_encodings()),
        (spec_te(), spec_trailers()),
        (spec_scheme(), spec_http()),
        (spec_authority(), spec_localhost()),
    ]
}

/// The SETTINGS frame with the ACK flag, on stream 0.
pub open spec fn settings_ack_frame() -> FrameView {
    FrameView {
        header: FrameHeader { length: 0, kind: KIND_SETTINGS, flag: FLAG_ACK, id: 0 },
        payload: PayloadView::Settings,
    }
}

/// The HEADERS frame (END_HEADERS) that opens stream `id` with a request to `uri`.
pub open spec fn request_headers_frame(id: u32, uri: Seq<u8>) -> FrameView {
    let block = hpack_encoded(request_headers(uri));
    FrameView {
        header: FrameHeader { length: block.len() as u32, kind: KIND_HEADERS, flag: FLAG_END_HEADERS, id },
        payload: PayloadView::Headers { block },
    }
}

/// A DATA frame without flags on stream `id`.
pub open spec fn data_frame(id: u32, data: Seq<u8>) -> FrameView {
    FrameView {
        header: FrameHeader { length: data.len() as u32, kind: KIND_DATA, flag: FLAG_EMPTY, id },
        payload: PayloadView::Data { data },
    }
}

/// What the client writes when a connection opens: the preface, then the initial SETTINGS and
/// WINDOW_UPDATE frames.
pub open spec fn spec_connection_preamble() -> Seq<u8> {
    preface_bytes() + spec_encode_frame(initial_settings_frame()) + spec_encode_frame(
        initial_window_update_frame(),
    )
}

/// The bytes of a request on stream `id`: the settings acknowledgement if the connection has not
/// had it, the HEADERS frame, and the first DATA frame.
pub open spec fn spec_request_bytes(initialized: bool, id: u32, uri: Seq<u8>, data: Seq<u8>) -> Seq<u8> {
    (if initialized { Seq::empty() } else { spec_encode_frame(settings_ack_frame()) })
        + spec_encode_frame(request_headers_frame(id, uri)) + spec_encode_frame(data_frame(id, data))
}

/// The PING frame with the ACK flag that answers a ping carrying `opaque`; the client sends it on
/// stream 1.
pub open spec fn ping_ack_frame(opaque: u64) -> FrameView {
    FrameView {
        header: FrameHeader { length: 8, kind: KIND_PING, flag: FLAG_ACK, id: 1 },
        payload: PayloadView::Ping { opaque },
    }
}

/// The header list of a request to `uri`.
fn request_header_list(uri: &[u8]) -> (headers: HeaderList)
    ensures
        headers.deep_view() == request_headers(uri@),
{
    let headers = vec![
        (path(), vstd::slice::slice_to_vec(uri)),
        (method(), post()),
        (content_type(), grpc_content_type()),
        (accept_encoding(), encodings()),
        (te(), trailers()),
        (scheme(), http()),
        (authority(), localhost()),
    ];
    proof {
        assert forall|i: int| 0 <= i < 7 implies #[trigger] headers.deep_view()[i] == request_headers(uri@)[i] by {
            lemma_bytes_deep_view(headers@[i].0);
            lemma_bytes_deep_view(headers@[i].1);
        }
        assert(headers.deep_view() =~= request_headers(uri@));
    }
    headers
}

impl Client {
    /// A client of the socket at `path`, before any request: the next stream is 0 and the
    /// settings acknowledgement has not been written.
    pub fn new(path: PathBuf) -> (client: Client)
        ensures
            client@.path == path,
            client@.next_stream_id == 0,
            !client@.connection_initialized,
    {
        Client { path, stream_id: 0, connection_initialized: false }
    }

    /// The path of the server's socket.
    pub fn path(&self) -> (p: &PathBuf)
        ensures
            *p == self@.path,
    {
        &self.path
    }

    /// What the client writes before a call when the connection has not been set up: the preface
    /// and the initial frames; nothing once the settings acknowledgement has been written.
    pub fn connection_preamble(&self) -> (bytes: Option<Vec<u8>>)
        ensures
            bytes is None <==> self@.connection_initialized,
            bytes matches Some(b) ==> b@ == spec_connection_preamble(),
    {
        if self.connection_initialized {
            return None;
        }
        let mut bytes = preface();
        let frames = prepare_initial_settings();
        let mut settings = encode_frame(&frames[0]);
        let mut window = encode_frame(&frames[1]);
        bytes.append(&mut settings);
        bytes.append(&mut window);
        Some(bytes)
    }

    /// The bytes that open a request to `uri` whose body starts with `data`, and the stream it
    /// takes. The stream is the client's next one, which then moves on by two (wrapping); the
    /// settings acknowledgement comes first on the first request only.
    pub fn prepare_request_bytes(&mut self, uri: &[u8], data: &[u8]) -> (res: (Vec<u8>, u32))
        ensures
            res.1 == old(self)@.next_stream_id,
            res.0@ == spec_request_bytes(old(self)@.connection_initialized, res.1, uri@, data@),
            final(self)@.next_stream_id == old(self)@.next_stream_id.wrapping_add(2),
            final(self)@.connection_initialized,
            final(self)@.path == old(self)@.path,
            request_step(old(self)@, final(self)@, res.1),
            !hpack_decode_traps(hpack_encoded(request_headers(uri@))),
            uri@.len() < 0x1000_0000 ==> hpack_decoded(hpack_encoded(request_headers(uri@)))
                == Some(request_headers(uri@)),
    {
        let mut buf: Vec<u8> = Vec::new();
        if !self.connection_initialized {
            let ack = Frame::new(FLAG_ACK, 0, Payload::Settings);
            buf = encode_frame(&ack);
        }
        self.connection_initialized = true;
        let headers = request_header_list(uri);
        let block = hpack_encode(&headers);
        proof {
            if uri@.len() < 0x1000_0000 {
                assert(short_headers(request_headers(uri@)));
            }
        }
        let stream_id = self.stream_id;
        self.stream_id = self.stream_id.wrapping_add(2);
        let header_frame = Frame::new(FLAG_END_HEADERS, stream_id, Payload::Headers { block });
        let data_frame = Frame::new(FLAG_EMPTY, stream_id, Payload::Data { data: vstd::slice::slice_to_vec(data) });
        let mut header_bytes = encode_frame(&header_frame);
        let mut data_bytes = encode_frame(&data_frame);
        proof {
            assert(buf@ + header_bytes@ + data_bytes@ =~= spec_request_bytes(
                old(self)@.connection_initialized, stream_id, uri@, data@));
        }
        buf.append(&mut header_bytes);
        buf.append(&mut data_bytes);
        (buf, stream_id)
    }
}

/// One request as `Client::prepare_request_bytes` makes it: it takes the client's next stream,
/// which moves on by two (wrapping), and leaves the connection initialized.
pub open spec fn request_step(before: ClientView, after: ClientView, id: u32) -> bool {
    &&& id == before.next_stream_id
    &&& after.next_stream_id == before.next_stream_id.wrapping_add(2)
    &&& after.connection_initialized
    &&& after.path == before.path
}

/// The stream that the `k`-th request takes on a client whose next stream is `start`.
pub open spec fn nth_request_stream(start: u32, k: nat) -> u32 {
    ((start as nat + 2 * k) % 0x1_0000_0000) as u32
}

/// Each request takes the stream after the previous one's, by two with wrapping, and fewer than
/// 2^31 successive requests on a client never share a stream (at 2^31 requests the identifiers
/// wrap round to the first one).
pub proof fn lemma_request_streams(start: u32, i: nat, j: nat)
    ensures
        nth_request_stream(start, i + 1) == nth_request_stream(start, i).wrapping_add(2),
        i < j < 0x8000_0000 ==> nth_request_stream(start, i) != nth_request_stream(start, j),
{
    let a = start as nat + 2 * i;
    assert(nth_request_stream(start, i + 1) == ((a + 2) % 0x1_0000_0000) as u32);
    assert((a % 0x1_0000_0000 + 2) % 0x1_0000_0000 == (a + 2) % 0x1_0000_0000) by (nonlinear_arith);
    if i < j < 0x8000_0000 {
        let b = start as nat + 2 * j;
        assert(0 < b - a < 0x1_0000_0000);
        assert(a % 0x1_0000_0000 != b % 0x1_0000_0000) by (nonlinear_arith)
            requires
                0 < b - a < 0x1_0000_0000,
                a >= 0,
        {
            vstd::arithmetic::div_mod::lemma_fundamental_div_mod(a as int, 0x1_0000_0000);
            vstd::arithmetic::div_mod::lemma_fundamental_div_mod(b as int, 0x1_0000_0000);
        }
    }
}

/// Successive requests on a client: the `i`-th takes stream `start + 2i` (wrapping), every request
/// after the first finds the connection initialized (so only the first can carry the settings
/// acknowledgement), the client ends `2k` streams on, and fewer than 2^31 requests never share a
/// stream.
pub proof fn lemma_request_sequence(views: Seq<ClientView>, ids: Seq<u32>)
    requires
        views.len() == ids.len() + 1,
        forall|i: int| 0 <= i < ids.len() ==> #[trigger] request_step(views[i], views[i + 1], ids[i]),
    ensures
        forall|i: int| 0 <= i < ids.len() ==> #[trigger] ids[i] == nth_request_stream(views[0].next_stream_id, i as nat),
        forall|i: int| 0 < i < views.len() ==> #[trigger] views[i].connection_initialized,
        views[ids.len() as int].next_stream_id == nth_request_stream(views[0].next_stream_id, ids.len()),
        ids.len() <= 0x8000_0000 ==> ids.no_duplicates(),
    decreases ids.len(),
{
    let start = views[0].next_stream_id;
    let k = ids.len();
    if k == 0 {
        assert(views[0].next_stream_id == nth_request_stream(start, 0)) by {
            assert((start as nat + 0) % 0x1_0000_0000 == start as nat);
        }
    } else {
        let pv = views.drop_last();
        let pi = ids.drop_last();
        assert forall|i: int| 0 <= i < pi.len() implies #[trigger] request_step(pv[i], pv[i + 1], pi[i]) by {
            assert(request_step(views[i], views[i + 1], ids[i]));
        }
        lemma_request_sequence(pv, pi);
        assert(request_step(views[k - 1], views[k as int], ids[k - 1]));
        lemma_request_streams(start, (k - 1) as nat, k as nat);
        assert(views[k - 1] == pv[k - 1]);
        assert forall|i: int| 0 <= i < ids.len() implies #[trigger] ids[i] == nth_request_stream(start, i as nat) by {
            if i < k - 1 {
                assert(ids[i] == pi[i]);
            }
        }
        assert forall|i: int| 0 < i < views.len() implies #[trigger] views[i].connection_initialized by {
            if i < k {
                assert(views[i] == pv[i]);
            }
        }
        if k <= 0x8000_0000 {
            assert forall|a: int, b: int| 0 <= a < ids.len() && 0 <= b < ids.len() && a != b implies ids[a] != ids[b] by {
                if a < b {
                    lemma_request_streams(start, a as nat, b as nat);
                } else {
                    lemma_request_streams(start, b as nat, a as nat);
                }
            }
        }
    }
}

/// A DATA frame without flags that carries a further chunk of a request body on `stream_id`.
pub fn request_data_frame(stream_id: u32, data: &[u8]) -> (bytes: Vec<u8>)
    ensures
        bytes@ == spec_encode_frame(data_frame(stream_id, data@)),
{
    encode_frame(&Frame::new(FLAG_EMPTY, stream_id, Payload::Data { data: vstd::slice::slice_to_vec(data) }))
}


/// What the client does with one frame of the reply.
#[derive(Clone, Debug, PartialEq, Eq)]
pub enum ClientAction {
    /// Hand these bytes of the reply body to the caller.
    Deliver(Vec<u8>),
    /// The reply has ended (a HEADERS frame with END_STREAM): stop reading.
    Finished,
    /// Write these bytes back to the server (the answer to a PING).
    Reply(Vec<u8>),
    /// Nothing to do for this frame.
    Continue,
}

/// Mathematical view of a [`ClientAction`].
pub enum ClientActionView {
    Deliver(Seq<u8>),
    Finished,
    Reply(Seq<u8>),
    Continue,
}

impl View for ClientAction {
    type V = ClientActionView;

    open spec fn view(&self) -> ClientActionView {
        match self {
            ClientAction::Deliver(d) => ClientActionView::Deliver(d@),
            ClientAction::Finished => ClientActionView::Finished,
            ClientAction::Reply(b) => ClientActionView::Reply(b@),
            ClientAction::Continue => ClientActionView::Continue,
        }
    }
}

/// What the client does with frame `f` of the reply.
pub open spec fn spec_handle_payload(f: FrameView) -> ClientActionView {
    match f.payload {
        PayloadView::Data { data } => ClientActionView::Deliver(data),
        PayloadView::Headers { .. } => if f.header.flag & FLAG_END_STREAM != 0 {
            ClientActionView::Finished
        } else {
            ClientActionView::Continue
        },
        PayloadView::Ping { opaque } => ClientActionView::Reply(spec_encode_frame(ping_ack_frame(opaque))),
        _ => ClientActionView::Continue,
    }
}

/// The client finishes reading a reply only at a HEADERS frame with END_STREAM, and always there;
/// it hands over exactly the data of each DATA frame; and it passes over every frame that is not
/// DATA, HEADERS or PING (SETTINGS, WINDOW_UPDATE, GOAWAY and the rest), whatever its header.
pub proof fn lemma_client_action_kinds(f: FrameView)
    ensures
        spec_handle_payload(f) == ClientActionView::Finished
            <==> (f.payload is Headers && f.header.flag & FLAG_END_STREAM != 0),
        f.payload matches PayloadView::Data { data } ==> spec_handle_payload(f) == ClientActionView::Deliver(data),
        spec_handle_payload(f) matches ClientActionView::Deliver(d) ==> f.payload == (PayloadView::Data { data: d }),
        !(f.payload is Data) && !(f.payload is Headers) && !(f.payload is Ping)
            ==> spec_handle_payload(f) == ClientActionView::Continue,
{
}

/// Decides what the client does with one frame of the reply: deliver DATA, stop at a HEADERS
/// frame that ends the stream, answer a PING with an acknowledgement, and pass over the rest.
pub fn handle_payload(frame: &Frame) -> (action: ClientAction)
    ensures
        action@ == spec_handle_payload(frame@),
{
    match &frame.payload {
        Payload::Data { data } => ClientAction::Deliver(data.clone()),
        Payload::Headers { .. } => {
            if frame.header.flag & FLAG_END_STREAM != 0 {
                ClientAction::Finished
            } else {
                ClientAction::Continue
            }
        },
        Payload::Ping { opaque } => {
            let ack = Frame::new(FLAG_ACK, 1, Payload::Ping { opaque: *opaque });
            ClientAction::Reply(encode_frame(&ack))
        },
        _ => ClientAction::Continue,
    }
}

/// What the client does with the frames at the start of `buf`, taken one at a time while they
/// are whole, and the error that stopped it, if any.
pub open spec fn spec_client_actions(buf: Seq<u8>) -> (Seq<ClientActionView>, Option<FrameError>)
    decreases buf.len(),
{
    match spec_read_frame(buf) {
        Ok(None) => (Seq::empty(), None),
        Err(e) => (Seq::empty(), Some(e)),
        Ok(Some((f, n))) => {
            proof {
                lemma_read_frame_size(buf);
            }
            let (rest, e) = spec_client_actions(buf.skip(n as int));
            (seq![spec_handle_payload(f)] + rest, e)
        },
    }
}

/// The bytes still pending after the client has taken the whole frames at the start of `buf`:
/// those of a frame that has not all arrived, or those from the frame that cannot be read on.
pub open spec fn spec_client_rest(buf: Seq<u8>) -> Seq<u8>
    decreases buf.len(),
{
    match spec_read_frame(buf) {
        Ok(Some((f, n))) => {
            proof {
                lemma_read_frame_size(buf);
            }
            spec_client_rest(buf.skip(n as int))
        },
        _ => buf,
    }
}

/// What the client does with a reply whose bytes arrive in `chunks`, with `pending` bytes
/// already read: it feeds each chunk in turn (`ResponseReader::feed`) and then takes actions
/// (`ResponseReader::next_action`) until the next frame has not all arrived, and it stops at the
/// first frame it cannot read.
pub open spec fn spec_read_in_chunks(pending: Seq<u8>, chunks: Seq<Seq<u8>>) -> (Seq<ClientActionView>, Option<FrameError>)
    decreases chunks.len(),
{
    if chunks.len() == 0 {
        (Seq::empty(), None)
    } else {
        let buf = pending + chunks[0];
        let (acts, err) = spec_client_actions(buf);
        if err is Some {
            (acts, err)
        } else {
            let (more, e2) = spec_read_in_chunks(spec_client_rest(buf), chunks.drop_first());
            (acts + more, e2)
        }
    }
}

proof fn lemma_client_rest_drained(buf: Seq<u8>)
    ensures
        spec_client_actions(buf).1 is None ==> spec_read_frame(spec_client_rest(buf))
            == Ok::<Option<(FrameView, nat)>, FrameError>(None),
    decreases buf.len(),
{
    lemma_read_frame_size(buf);
    if let Ok(Some((f, n))) = spec_read_frame(buf) {
        lemma_client_rest_drained(buf.skip(n as int));
    }
}

proof fn lemma_client_actions_extend(buf: Seq<u8>, more: Seq<u8>)
    ensures
        spec_client_actions(buf).1 is Some ==> spec_client_actions(buf + more) == spec_client_actions(buf),
        spec_client_actions(buf).1 is None ==> spec_client_actions(buf + more) == (
            spec_client_actions(buf).0 + spec_client_actions(spec_client_rest(buf) + more).0,
            spec_client_actions(spec_client_rest(buf) + more).1,
        ),
    decreases buf.len(),
{
    lemma_read_frame_size(buf);
    match spec_read_frame(buf) {
        Ok(None) => {
            assert(spec_client_actions(buf).0 + spec_client_actions(buf + more).0
                =~= spec_client_actions(buf + more).0);
        },
        Err(e) => {
            lemma_read_frame_extend(buf, more);
        },
        Ok(Some((f, n))) => {
            lemma_read_frame_extend(buf, more);
            lemma_read_frame_size(buf + more);
            let r = buf.skip(n as int);
            assert((buf + more).skip(n as int) =~= r + more);
            lemma_client_actions_extend(r, more);
            let (ra, re) = spec_client_actions(r);
            let (ma, me) = spec_client_actions(spec_client_rest(r) + more);
            if re is None {
                assert(seq![spec_handle_payload(f)] + (ra + ma) =~= (seq![spec_handle_payload(f)] + ra) + ma);
            }
        },
    }
}

/// However the bytes of a reply are cut into reads, the client does the same with them: feeding
/// the chunks one after another and taking actions after each, as `spec_read_in_chunks` says,
/// gives the actions, and the error, that it takes from all of them read at once. This holds from
/// any reader whose pending bytes hold no whole frame, a new one among them.
pub proof fn lemma_read_in_chunks(pending: Seq<u8>, chunks: Seq<Seq<u8>>)
    requires
        spec_read_frame(pending) == Ok::<Option<(FrameView, nat)>, FrameError>(None),
    ensures
        spec_read_in_chunks(pending, chunks) == spec_client_actions(pending + chunks.flatten()),
    decreases chunks.len(),
{
    if chunks.len() == 0 {
        assert(pending + chunks.flatten() =~= pending);
    } else {
        let buf = pending + chunks[0];
        let tail = chunks.drop_first().flatten();
        assert(pending + chunks.flatten() =~= buf + tail);
        lemma_client_actions_extend(buf, tail);
        if spec_client_actions(buf).1 is None {
            lemma_client_rest_drained(buf);
            lemma_read_in_chunks(spec_client_rest(buf), chunks.drop_first());
        }
    }
}

/// A reader with nothing pending holds no whole frame.
pub proof fn lemma_nothing_pending()
    ensures
        spec_read_frame(Seq::<u8>::empty()) == Ok::<Option<(FrameView, nat)>, FrameError>(None),
{
    reveal(spec_read_frame);
}

/// The bytes of the reply that have been read but not yet taken as frames.
pub struct ResponseReader {
    pending: Vec<u8>,
}

impl View for ResponseReader {
    type V = Seq<u8>;

    closed spec fn view(&self) -> Seq<u8> {
        self.pending@
    }
}

impl ResponseReader {
    /// A reader with nothing pending.
    pub fn new() -> (reader: ResponseReader)
        ensures
            reader@ == Seq::<u8>::empty(),
    {
        ResponseReader { pending: Vec::new() }
    }

    /// Adds bytes read from the socket after those pending.
    pub fn feed(&mut self, bytes: &[u8])
        ensures
            final(self)@ == old(self)@ + bytes@,
    {
        let mut i: usize = 0;
        while i < bytes.len()
            invariant
                i <= bytes.len(),
                self@ == old(self)@ + bytes@.take(i as int),
            decreases bytes.len() - i,
        {
            self.pending.push(bytes[i]);
            i += 1;
            proof {
                assert(bytes@.take(i as int) =~= bytes@.take(i - 1) + seq![bytes@[i - 1]]);
            }
        }
        proof {
            assert(bytes@.take(bytes.len() as int) =~= bytes@);
        }
    }

    /// Takes the next whole frame off the pending bytes: `Ok(None)` while it has not all
    /// arrived, an error when it cannot be read; the pending bytes lose the frame only when it
    /// is returned.
    pub fn next_frame(&mut self) -> (res: Result<Option<Frame>, FrameError>)
        ensures
            match spec_read_frame(old(self)@) {
                Ok(None) => res == Ok::<Option<Frame>, FrameError>(None) && final(self)@ == old(self)@,
                Ok(Some((f, n))) => res matches Ok(Some(g)) && g@ == f && final(self)@ == old(self)@.skip(n as int),
                Err(e) => res == Err::<Option<Frame>, FrameError>(e) && final(self)@ == old(self)@,
            },
    {
        proof {
            crate::frame::lemma_read_frame_size(self.pending@);
        }
        match read_frame(self.pending.as_slice()) {
            Ok(Some((frame, n))) => {
                let rest = self.pending.split_off(n);
                self.pending = rest;
                Ok(Some(frame))
            },
            Ok(None) => Ok(None),
            Err(e) => Err(e),
        }
    }

    /// Takes the next whole frame off the pending bytes, as `next_frame` does, and decides what
    /// the client does with it.
    pub fn next_action(&mut self) -> (res: Result<Option<ClientAction>, FrameError>)
        ensures
            match spec_read_frame(old(self)@) {
                Ok(None) => res == Ok::<Option<ClientAction>, FrameError>(None) && final(self)@ == old(self)@,
                Ok(Some((f, n))) => res matches Ok(Some(a)) && a@ == spec_handle_payload(f)
                    && final(self)@ == old(self)@.skip(n as int),
                Err(e) => res == Err::<Option<ClientAction>, FrameError>(e) && final(self)@ == old(self)@,
            },
    {
        match self.next_frame() {
            Ok(Some(frame)) => Ok(Some(handle_payload(&frame))),
            Ok(None) => Ok(None),
            Err(e) => Err(e),
        }
    }
}

} // verus!
