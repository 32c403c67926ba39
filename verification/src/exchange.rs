//! What one side of the transport reads of what the other side writes.
use vstd::prelude::*;
use crate::client::{
    data_frame, lemma_nothing_pending, lemma_read_in_chunks, request_headers, request_headers_frame,
    settings_ack_frame, spec_client_actions, spec_read_in_chunks, spec_connection_preamble, spec_handle_payload, spec_request_bytes, ClientActionView,
};
use crate::frame::{
    FLAG_END_HEADERS, FLAG_END_STREAM,
    kind_code, lemma_frame_roundtrip, spec_encode_frame, spec_read_frame, well_formed,
    FrameError, FrameView,
};
use crate::header_block::{hpack_decode_traps, hpack_decoded, hpack_encoded};
use crate::http2::{initial_settings_frame, initial_window_update_frame, preface_bytes, PREFACE_LEN};
use crate::names::spec_path;
use crate::server::{
    response_data_frame, response_header_frame, response_headers, response_trailers,
    response_trailers_frame, spec_on_frame, spec_split_incoming, spec_wire_bytes, split_from,
    starts_with_preface, opening_frames, StreamActionView, StreamHandlerView, WIRE_BUFFER_LEN,
};

verus! {

/// The bytes of frames written one after another, each through the server's buffer.
pub open spec fn concat_wire(fs: Seq<FrameView>) -> Seq<u8>
    decreases fs.len(),
{
    if fs.len() == 0 {
        Seq::empty()
    } else {
        spec_wire_bytes(fs[0]) + concat_wire(fs.drop_first())
    }
}

/// The bytes of frames written one after another.
pub open spec fn concat_frames(fs: Seq<FrameView>) -> Seq<u8>
    decreases fs.len(),
{
    if fs.len() == 0 {
        Seq::empty()
    } else {
        spec_encode_frame(fs[0]) + concat_frames(fs.drop_first())
    }
}

/// The frames of the server's reply on stream `s` with HTTP status `status` and body chunks
/// `chunks`: the response headers, one DATA frame per chunk, and the trailers.
pub open spec fn reply_frames(s: u32, status: u16, chunks: Seq<Seq<u8>>) -> Seq<FrameView> {
    seq![response_header_frame(s, status)] + chunks.map_values(|c: Seq<u8>| response_data_frame(s, c))
        + seq![response_trailers_frame(s)]
}

/// The frames of a request on stream `id`: the settings acknowledgement on the first request of
/// a connection, the request headers, and the first chunk of the body.
pub open spec fn request_frames(initialized: bool, id: u32, uri: Seq<u8>, data: Seq<u8>) -> Seq<FrameView> {
    (if initialized { Seq::empty() } else { seq![settings_ack_frame()] }) + seq![
        request_headers_frame(id, uri),
        data_frame(id, data),
    ]
}

/// A frame that the server writes whole: well formed, and no longer than its buffer.
pub open spec fn fits_wire(f: FrameView) -> bool {
    well_formed(f) && spec_encode_frame(f).len() <= WIRE_BUFFER_LEN
}

proof fn lemma_concat_wire_step(fs: Seq<FrameView>)
    requires
        fs.len() > 0,
        fits_wire(fs[0]),
    ensures
        concat_wire(fs) == spec_encode_frame(fs[0]) + concat_wire(fs.drop_first()),
{
}

/// The client, reading the bytes of frames that the server wrote whole, takes each frame in turn
/// and does with it what `handle_payload` says, and stops on no error.
pub proof fn lemma_client_reads_frames(fs: Seq<FrameView>)
    requires
        forall|i: int| 0 <= i < fs.len() ==> #[trigger] fits_wire(fs[i]),
    ensures
        spec_client_actions(concat_wire(fs)) == (fs.map_values(|f: FrameView| spec_handle_payload(f)), None::<FrameError>),
    decreases fs.len(),
{
    if fs.len() == 0 {
        reveal(spec_read_frame);
        assert(fs.map_values(|f: FrameView| spec_handle_payload(f)) =~= Seq::<ClientActionView>::empty());
    } else {
        let rest = fs.drop_first();
        assert(fits_wire(fs[0]));
        assert forall|i: int| 0 <= i < rest.len() implies #[trigger] fits_wire(rest[i]) by {
            assert(fits_wire(fs[i + 1]));
        }
        lemma_client_reads_frames(rest);
        lemma_concat_wire_step(fs);
        lemma_frame_roundtrip(fs[0], concat_wire(rest));
        let buf = concat_wire(fs);
        let n = 9 + fs[0].header.length as nat;
        assert(spec_encode_frame(fs[0]).len() == n);
        assert(buf.skip(n as int) =~= concat_wire(rest));
        assert(fs.map_values(|f: FrameView| spec_handle_payload(f)) =~= seq![spec_handle_payload(fs[0])]
            + rest.map_values(|f: FrameView| spec_handle_payload(f)));
    }
}


proof fn lemma_flags()
    ensures
        FLAG_END_HEADERS | FLAG_END_STREAM == 5u8,
        4u8 & 0xd2u8 == 0 && 4u8 & 0x08u8 == 0 && 4u8 & 0x20u8 == 0 && 4u8 & 1u8 == 0,
        5u8 & 0xd2u8 == 0 && 5u8 & 0x08u8 == 0 && 5u8 & 0x20u8 == 0 && 5u8 & 1u8 != 0,
        0u8 & 0xd2u8 == 0 && 0u8 & 0x08u8 == 0 && 0u8 & 0x20u8 == 0 && 0u8 & 1u8 == 0,
        1u8 & 0xd2u8 == 0 && 1u8 & 0x08u8 == 0 && 1u8 & 0x20u8 == 0,
{
    assert(4u8 | 1u8 == 5u8) by (bit_vector);
    assert(4u8 & 0xd2u8 == 0 && 4u8 & 0x08u8 == 0 && 4u8 & 0x20u8 == 0 && 4u8 & 1u8 == 0) by (bit_vector);
    assert(5u8 & 0xd2u8 == 0 && 5u8 & 0x08u8 == 0 && 5u8 & 0x20u8 == 0 && 5u8 & 1u8 != 0) by (bit_vector);
    assert(0u8 & 0xd2u8 == 0 && 0u8 & 0x08u8 == 0 && 0u8 & 0x20u8 == 0 && 0u8 & 1u8 == 0) by (bit_vector);
    assert(1u8 & 0xd2u8 == 0 && 1u8 & 0x08u8 == 0 && 1u8 & 0x20u8 == 0) by (bit_vector);
}

proof fn lemma_reply_frames_fit(s: u32, status: u16, c: Seq<u8>)
    requires
        s < 0x8000_0000,
    ensures
        9 + hpack_encoded(response_headers(status)).len() <= WIRE_BUFFER_LEN ==> fits_wire(response_header_frame(s, status)),
        9 + hpack_encoded(response_trailers()).len() <= WIRE_BUFFER_LEN ==> fits_wire(response_trailers_frame(s)),
        9 + c.len() <= WIRE_BUFFER_LEN ==> fits_wire(response_data_frame(s, c)),
        spec_handle_payload(response_header_frame(s, status)) == ClientActionView::Continue,
        spec_handle_payload(response_trailers_frame(s)) == ClientActionView::Finished,
        spec_handle_payload(response_data_frame(s, c)) == ClientActionView::Deliver(c),
{
    lemma_flags();
}

proof fn lemma_reply_frames_fit_at(s: u32, status: u16, chunks: Seq<Seq<u8>>, i: int)
    requires
        s < 0x8000_0000,
        9 + hpack_encoded(response_headers(status)).len() <= WIRE_BUFFER_LEN,
        9 + hpack_encoded(response_trailers()).len() <= WIRE_BUFFER_LEN,
        forall|j: int| 0 <= j < chunks.len() ==> 9 + (#[trigger] chunks[j]).len() <= WIRE_BUFFER_LEN,
        0 <= i < chunks.len() + 2,
    ensures
        fits_wire(reply_frames(s, status, chunks)[i]),
{
    let fs = reply_frames(s, status, chunks);
    let n = chunks.len();
    if 1 <= i <= n {
        lemma_reply_frames_fit(s, status, chunks[i - 1]);
        assert(fs[i] == response_data_frame(s, chunks[i - 1]));
    } else if i == n + 1 {
        lemma_reply_frames_fit(s, status, Seq::empty());
        assert(fs[i] == response_trailers_frame(s));
    } else {
        lemma_reply_frames_fit(s, status, Seq::empty());
        assert(fs[i] == response_header_frame(s, status));
    }
}

/// What the client does with the server's reply: nothing for the response headers, deliver each
/// chunk of the body in order, and finish at the trailers.
pub open spec fn reply_actions(chunks: Seq<Seq<u8>>) -> Seq<ClientActionView> {
    seq![ClientActionView::Continue] + chunks.map_values(|c: Seq<u8>| ClientActionView::Deliver(c))
        + seq![ClientActionView::Finished]
}

/// The client receives the server's reply as the server wrote it: reading the bytes of the
/// reply on a stream, it delivers the body chunks in order and finishes at the trailers, with no
/// error. This holds where each frame fits the server's 512-byte buffer (a longer one is cut
/// short) and the stream identifier fits in 31 bits.
pub proof fn lemma_reply_reaches_client(s: u32, status: u16, chunks: Seq<Seq<u8>>)
    requires
        s < 0x8000_0000,
        9 + hpack_encoded(response_headers(status)).len() <= WIRE_BUFFER_LEN,
        9 + hpack_encoded(response_trailers()).len() <= WIRE_BUFFER_LEN,
        forall|i: int| 0 <= i < chunks.len() ==> 9 + (#[trigger] chunks[i]).len() <= WIRE_BUFFER_LEN,
    ensures
        spec_client_actions(concat_wire(reply_frames(s, status, chunks))) == (reply_actions(chunks), None::<FrameError>),
{
    let fs = reply_frames(s, status, chunks);
    let n = chunks.len();
    assert(fs.len() == n + 2);
    assert forall|i: int| 0 <= i < fs.len() implies #[trigger] fits_wire(fs[i]) by {
        if 1 <= i <= n {
            lemma_reply_frames_fit(s, status, chunks[i - 1]);
            assert(fs[i] == response_data_frame(s, chunks[i - 1]));
            assert(9 + chunks[i - 1].len() <= WIRE_BUFFER_LEN);
        } else if i == n + 1 {
            lemma_reply_frames_fit(s, status, Seq::empty());
            assert(fs[i] == response_trailers_frame(s));
        } else {
            lemma_reply_frames_fit(s, status, Seq::empty());
            assert(fs[i] == response_header_frame(s, status));
        }
    }
    lemma_client_reads_frames(fs);
    let acts = fs.map_values(|f: FrameView| spec_handle_payload(f));
    assert forall|i: int| 0 <= i < acts.len() implies acts[i] == reply_actions(chunks)[i] by {
        if 1 <= i <= n {
            lemma_reply_frames_fit(s, status, chunks[i - 1]);
            assert(fs[i] == response_data_frame(s, chunks[i - 1]));
        } else if i == n + 1 {
            lemma_reply_frames_fit(s, status, Seq::empty());
            assert(fs[i] == response_trailers_frame(s));
        } else {
            lemma_reply_frames_fit(s, status, Seq::empty());
            assert(fs[i] == response_header_frame(s, status));
        }
    }
    assert(acts =~= reply_actions(chunks));
}


proof fn lemma_prefix_of_window(buf: Seq<u8>, pos: nat, a: Seq<u8>, b: Seq<u8>)
    requires
        pos + a.len() + b.len() <= buf.len(),
        buf.subrange(pos as int, (pos + a.len() + b.len()) as int) == a + b,
    ensures
        buf.skip(pos as int) == a + buf.skip((pos + a.len()) as int),
        buf.subrange((pos + a.len()) as int, (pos + a.len() + b.len()) as int) == b,
{
    let w = buf.subrange(pos as int, (pos + a.len() + b.len()) as int);
    assert forall|j: int| 0 <= j < a.len() implies buf.skip(pos as int)[j] == a[j] by {
        assert(w[j] == (a + b)[j]);
    }
    assert(buf.skip(pos as int) =~= a + buf.skip((pos + a.len()) as int));
    assert forall|j: int| 0 <= j < b.len() implies
        buf.subrange((pos + a.len()) as int, (pos + a.len() + b.len()) as int)[j] == b[j] by {
        assert(w[a.len() + j] == (a + b)[a.len() + j]);
    }
    assert(buf.subrange((pos + a.len()) as int, (pos + a.len() + b.len()) as int) =~= b);
}

proof fn lemma_split_frames(buf: Seq<u8>, fs: Seq<FrameView>, pos: nat)
    requires
        forall|i: int| 0 <= i < fs.len() ==> #[trigger] well_formed(fs[i]),
        pos + concat_frames(fs).len() <= buf.len(),
        buf.subrange(pos as int, (pos + concat_frames(fs).len()) as int) == concat_frames(fs),
    ensures
        split_from(buf, pos + concat_frames(fs).len(), pos) == Ok::<Seq<FrameView>, FrameError>(fs),
    decreases fs.len(),
{
    let n = pos + concat_frames(fs).len();
    if fs.len() == 0 {
        assert(fs =~= Seq::<FrameView>::empty());
    } else {
        let rest = fs.drop_first();
        let e0 = spec_encode_frame(fs[0]);
        let cr = concat_frames(rest);
        let k = e0.len();
        assert(well_formed(fs[0]));
        assert forall|i: int| 0 <= i < rest.len() implies #[trigger] well_formed(rest[i]) by {
            assert(well_formed(fs[i + 1]));
        }
        assert(concat_frames(fs) == e0 + cr);
        lemma_prefix_of_window(buf, pos, e0, cr);
        lemma_frame_roundtrip(fs[0], buf.skip((pos + k) as int));
        lemma_split_frames(buf, rest, pos + k);
        if pos + k >= n {
            assert(rest.len() == 0) by {
                if rest.len() > 0 {
                    assert(concat_frames(rest) == spec_encode_frame(rest[0]) + concat_frames(rest.drop_first()));
                }
            }
            assert(fs =~= seq![fs[0]]);
        } else {
            assert(fs =~= seq![fs[0]] + rest);
        }
    }
}

/// The frames that open a connection from the client's side, in the order it writes them.
pub open spec fn opening_frames_of_client(id: u32, uri: Seq<u8>, data: Seq<u8>) -> Seq<FrameView> {
    seq![initial_settings_frame(), initial_window_update_frame()] + request_frames(false, id, uri, data)
}

/// The bytes a client writes when it opens a connection are the preface and then its opening
/// frames, each of which the library writes well formed.
proof fn lemma_opening_bytes(id: u32, uri: Seq<u8>, data: Seq<u8>)
    requires
        id < 0x8000_0000,
        hpack_encoded(request_headers(uri)).len() < 0x100_0000,
        data.len() < 0x100_0000,
    ensures
        spec_connection_preamble() + spec_request_bytes(false, id, uri, data)
            == preface_bytes() + concat_frames(opening_frames_of_client(id, uri, data)),
        forall|i: int| 0 <= i < opening_frames_of_client(id, uri, data).len()
            ==> #[trigger] well_formed(opening_frames_of_client(id, uri, data)[i]),
{
    lemma_flags();
    let fs = opening_frames_of_client(id, uri, data);
    let bytes = spec_connection_preamble() + spec_request_bytes(false, id, uri, data);
    assert forall|i: int| 0 <= i < fs.len() implies #[trigger] well_formed(fs[i]) by {}
    let c = concat_frames(fs);
    assert(concat_frames(fs.drop_first().drop_first().drop_first().drop_first().drop_first())
        =~= Seq::<u8>::empty());
    assert(fs.drop_first() =~= seq![initial_window_update_frame(), settings_ack_frame(),
        request_headers_frame(id, uri), data_frame(id, data)]);
    reveal_with_fuel(concat_frames, 6);
    assert(c =~= spec_encode_frame(initial_settings_frame()) + spec_encode_frame(initial_window_update_frame())
        + spec_encode_frame(settings_ack_frame()) + spec_encode_frame(request_headers_frame(id, uri))
        + spec_encode_frame(data_frame(id, data))) by {
        let f1 = fs.drop_first();
        let f2 = f1.drop_first();
        let f3 = f2.drop_first();
        let f4 = f3.drop_first();
        assert(f2 =~= seq![settings_ack_frame(), request_headers_frame(id, uri), data_frame(id, data)]);
        assert(f3 =~= seq![request_headers_frame(id, uri), data_frame(id, data)]);
        assert(f4 =~= seq![data_frame(id, data)]);
    }
    assert(bytes =~= preface_bytes() + c);
}

/// The server reads what the client writes when it opens a connection: read in one piece, the
/// preface, the initial frames and the first request (settings acknowledgement, headers, data)
/// split into those very frames, whatever follows them in the read buffer. This holds where the
/// header block and the data fit in the 24-bit length field and the stream in 31 bits.
pub proof fn lemma_opening_reaches_server(id: u32, uri: Seq<u8>, data: Seq<u8>, tail: Seq<u8>)
    requires
        id < 0x8000_0000,
        hpack_encoded(request_headers(uri)).len() < 0x100_0000,
        data.len() < 0x100_0000,
    ensures
        ({
            let bytes = spec_connection_preamble() + spec_request_bytes(false, id, uri, data);
            spec_split_incoming(bytes + tail, bytes.len()) == Ok::<Seq<FrameView>, FrameError>(
                opening_frames_of_client(id, uri, data),
            )
        }),
{
    lemma_opening_bytes(id, uri, data);
    let fs = opening_frames_of_client(id, uri, data);
    let bytes = spec_connection_preamble() + spec_request_bytes(false, id, uri, data);
    let buf = bytes + tail;
    let c = concat_frames(fs);
    assert(buf.take(PREFACE_LEN as int) =~= preface_bytes());
    assert(starts_with_preface(buf, bytes.len()));
    assert(buf.subrange(PREFACE_LEN as int, PREFACE_LEN + c.len()) =~= c);
    lemma_split_frames(buf, fs, PREFACE_LEN as nat);
}

proof fn lemma_concat_frames_add(a: Seq<FrameView>, b: Seq<FrameView>)
    ensures
        concat_frames(a + b) == concat_frames(a) + concat_frames(b),
    decreases a.len(),
{
    if a.len() == 0 {
        assert(a + b =~= b);
        assert(concat_frames(a) + concat_frames(b) =~= concat_frames(b));
    } else {
        lemma_concat_frames_add(a.drop_first(), b);
        assert((a + b).drop_first() =~= a.drop_first() + b);
        assert((a + b)[0] == a[0]);
        assert(concat_frames(a + b) =~= concat_frames(a) + concat_frames(b));
    }
}

proof fn lemma_group_bytes(groups: Seq<Seq<FrameView>>)
    ensures
        Seq::new(groups.len(), |j: int| concat_frames(groups[j])).flatten() == concat_frames(groups.flatten()),
    decreases groups.len(),
{
    let s = Seq::new(groups.len(), |j: int| concat_frames(groups[j]));
    if groups.len() == 0 {
        assert(s.flatten() =~= Seq::<u8>::empty());
    } else {
        let rest = groups.drop_first();
        lemma_group_bytes(rest);
        assert(s.drop_first() =~= Seq::new(rest.len(), |j: int| concat_frames(rest[j])));
        lemma_concat_frames_add(groups[0], rest.flatten());
        assert(groups.flatten() == groups[0] + rest.flatten());
    }
}

proof fn lemma_groups_well_formed(groups: Seq<Seq<FrameView>>, j: int, i: int)
    requires
        forall|k: int| 0 <= k < groups.flatten().len() ==> #[trigger] well_formed(groups.flatten()[k]),
        0 <= j < groups.len(),
        0 <= i < groups[j].len(),
    ensures
        well_formed(groups[j][i]),
    decreases groups.len(),
{
    let rest = groups.drop_first();
    let g0 = groups[0];
    assert(groups.flatten() == g0 + rest.flatten());
    if j == 0 {
        assert(groups.flatten()[i] == g0[i]);
    } else {
        assert forall|k: int| 0 <= k < rest.flatten().len() implies #[trigger] well_formed(rest.flatten()[k]) by {
            assert(groups.flatten()[g0.len() + k] == rest.flatten()[k]);
        }
        assert(groups[j] == rest[j - 1]);
        lemma_groups_well_formed(rest, j - 1, i);
    }
}

/// The bytes of the server's `j`-th read of what a client opens a connection with, when its
/// frames arrive in the groups `groups`, one group per read: the preface comes with the first.
pub open spec fn opening_read(groups: Seq<Seq<FrameView>>, j: int) -> Seq<u8> {
    (if j == 0 { preface_bytes() } else { Seq::<u8>::empty() }) + concat_frames(groups[j])
}

/// The server's reads of what a client opens a connection with, one per group of frames.
pub open spec fn opening_reads(groups: Seq<Seq<FrameView>>) -> Seq<Seq<u8>> {
    Seq::new(groups.len(), |j: int| opening_read(groups, j))
}

proof fn lemma_read_splits(groups: Seq<Seq<FrameView>>, j: int, tail: Seq<u8>)
    requires
        0 <= j < groups.len(),
        forall|i: int| 0 <= i < groups[j].len() ==> #[trigger] well_formed(groups[j][i]),
    ensures
        spec_split_incoming(opening_read(groups, j) + tail, opening_read(groups, j).len())
            == Ok::<Seq<FrameView>, FrameError>(groups[j]),
{
    let g = groups[j];
    let c = concat_frames(g);
    let r = opening_read(groups, j);
    let buf = r + tail;
    if j == 0 {
        assert(buf.take(PREFACE_LEN as int) =~= preface_bytes());
        assert(buf.subrange(PREFACE_LEN as int, PREFACE_LEN + c.len()) =~= c);
        lemma_split_frames(buf, g, PREFACE_LEN as nat);
    } else {
        assert(r =~= c);
        if g.len() == 0 {
            assert(g =~= Seq::<FrameView>::empty());
        } else {
            let h = g[0].header;
            assert(well_formed(g[0]));
            assert(c == spec_encode_frame(g[0]) + concat_frames(g.drop_first()));
            assert(c[3] == kind_code(h.kind));
            if buf.len() >= PREFACE_LEN {
                assert(buf.take(PREFACE_LEN as int)[3] == c[3]);
                assert(buf.take(PREFACE_LEN as int)[3] != preface_bytes()[3]);
            }
        }
        assert(!starts_with_preface(buf, r.len()));
        assert(buf.subrange(0, c.len() as int) =~= c);
        lemma_split_frames(buf, g, 0);
    }
}

/// The server reads what the client writes when it opens a connection, however those bytes are
/// cut into reads, so long as each read ends where a frame ends: the reads, one after another,
/// are what the client wrote, and each read, whatever follows it in the read buffer, splits into
/// its own group of the opening frames. This holds where the header block and the data fit in
/// the 24-bit length field and the stream in 31 bits.
pub proof fn lemma_opening_reaches_server_in_reads(
    id: u32,
    uri: Seq<u8>,
    data: Seq<u8>,
    groups: Seq<Seq<FrameView>>,
    tails: Seq<Seq<u8>>,
)
    requires
        id < 0x8000_0000,
        hpack_encoded(request_headers(uri)).len() < 0x100_0000,
        data.len() < 0x100_0000,
        groups.len() > 0,
        groups.flatten() == opening_frames_of_client(id, uri, data),
        tails.len() == groups.len(),
    ensures
        opening_reads(groups).flatten() == spec_connection_preamble() + spec_request_bytes(false, id, uri, data),
        forall|j: int| 0 <= j < groups.len() ==> spec_split_incoming(
            #[trigger] opening_read(groups, j) + tails[j],
            opening_read(groups, j).len(),
        ) == Ok::<Seq<FrameView>, FrameError>(groups[j]),
{
    lemma_opening_bytes(id, uri, data);
    lemma_group_bytes(groups);
    let reads = opening_reads(groups);
    let s = Seq::new(groups.len(), |j: int| concat_frames(groups[j]));
    assert(reads.drop_first() =~= s.drop_first());
    assert(reads.flatten() == reads[0] + reads.drop_first().flatten());
    assert(s.flatten() == s[0] + s.drop_first().flatten());
    assert(reads.flatten() =~= preface_bytes() + s.flatten());
    assert forall|j: int| 0 <= j < groups.len() implies spec_split_incoming(
        #[trigger] opening_read(groups, j) + tails[j],
        opening_read(groups, j).len(),
    ) == Ok::<Seq<FrameView>, FrameError>(groups[j]) by {
        assert forall|i: int| 0 <= i < groups[j].len() implies #[trigger] well_formed(groups[j][i]) by {
            lemma_groups_well_formed(groups, j, i);
        }
        lemma_read_splits(groups, j, tails[j]);
    }
}

/// A request reaches the service as the client sent it: on a new stream, the client's HEADERS
/// frame is stored and its DATA frame becomes a request for the client's URI with the client's
/// data. The premises on the header block are what `Client::prepare_request_bytes` ensures of
/// the block it writes (the second for a URI shorter than 2^28 bytes).
pub proof fn lemma_request_reaches_service(id: u32, uri: Seq<u8>, data: Seq<u8>)
    requires
        !hpack_decode_traps(hpack_encoded(request_headers(uri))),
        hpack_decoded(hpack_encoded(request_headers(uri))) == Some(request_headers(uri)),
    ensures
        ({
            let s0 = StreamHandlerView { stream_id: id, headers: None };
            let (s1, a1) = spec_on_frame(s0, request_headers_frame(id, uri));
            let (s2, a2) = spec_on_frame(s1, data_frame(id, data));
            &&& a1 == StreamActionView::HeadersStored
            &&& a2 == (StreamActionView::Dispatch { uri, body: data })
            &&& s2.stream_id == id
        }),
{
    assert(request_headers(uri)[0].0 == spec_path());
}


/// What a stream does with the frames `fs`, one after another, from state `s`.
pub open spec fn run_stream(s: StreamHandlerView, fs: Seq<FrameView>) -> Seq<StreamActionView>
    decreases fs.len(),
{
    if fs.len() == 0 {
        Seq::empty()
    } else {
        let (next, action) = spec_on_frame(s, fs[0]);
        seq![action] + run_stream(next, fs.drop_first())
    }
}

/// The first call of a new client, end to end. The client opens stream 0: however the server's
/// reads cut what the client writes, so long as each read ends where a frame ends (`groups`, one
/// group of frames per read, `tails` what else each read buffer holds), the reads are what the
/// client wrote and split into the client's frames, all on stream 0, whose handler passes over
/// the connection's SETTINGS and WINDOW_UPDATE frames and the settings acknowledgement, stores
/// the request headers, and hands the service the client's URI and data. The client, reading
/// what the server writes on stream 0 (its opening frames, then the reply), cut into reads in
/// any way (`reply_reads`), passes over the opening frames, delivers the body chunks in order
/// and finishes at the trailers. The premises on the request's header block are what
/// `Client::prepare_request_bytes` ensures; those on sizes keep every frame within the 24-bit
/// length field and the server's 512-byte buffer.
pub proof fn lemma_first_call(
    uri: Seq<u8>,
    data: Seq<u8>,
    groups: Seq<Seq<FrameView>>,
    tails: Seq<Seq<u8>>,
    status: u16,
    chunks: Seq<Seq<u8>>,
    reply_reads: Seq<Seq<u8>>,
)
    requires
        hpack_encoded(request_headers(uri)).len() < 0x100_0000,
        data.len() < 0x100_0000,
        !hpack_decode_traps(hpack_encoded(request_headers(uri))),
        hpack_decoded(hpack_encoded(request_headers(uri))) == Some(request_headers(uri)),
        groups.len() > 0,
        groups.flatten() == opening_frames_of_client(0, uri, data),
        tails.len() == groups.len(),
        9 + hpack_encoded(response_headers(status)).len() <= WIRE_BUFFER_LEN,
        9 + hpack_encoded(response_trailers()).len() <= WIRE_BUFFER_LEN,
        forall|i: int| 0 <= i < chunks.len() ==> 9 + (#[trigger] chunks[i]).len() <= WIRE_BUFFER_LEN,
        reply_reads.flatten() == concat_wire(opening_frames(0) + reply_frames(0, status, chunks)),
    ensures
        opening_reads(groups).flatten() == spec_connection_preamble() + spec_request_bytes(false, 0, uri, data),
        forall|j: int| 0 <= j < groups.len() ==> spec_split_incoming(
            #[trigger] opening_read(groups, j) + tails[j],
            opening_read(groups, j).len(),
        ) == Ok::<Seq<FrameView>, FrameError>(groups[j]),
        forall|i: int| 0 <= i < groups.flatten().len() ==> (#[trigger] groups.flatten()[i]).header.id == 0,
        run_stream(StreamHandlerView { stream_id: 0, headers: None }, groups.flatten()) == seq![
            StreamActionView::Ignored,
            StreamActionView::Ignored,
            StreamActionView::Ignored,
            StreamActionView::HeadersStored,
            StreamActionView::Dispatch { uri, body: data },
        ],
        spec_read_in_chunks(Seq::empty(), reply_reads)
            == (seq![ClientActionView::Continue, ClientActionView::Continue, ClientActionView::Continue]
                + reply_actions(chunks), None::<FrameError>),
{
    lemma_opening_reaches_server_in_reads(0, uri, data, groups, tails);
    lemma_request_reaches_service(0, uri, data);
    let fs = opening_frames_of_client(0, uri, data);
    let s0 = StreamHandlerView { stream_id: 0, headers: None };
    reveal_with_fuel(run_stream, 6);
    assert(fs.drop_first() =~= seq![initial_window_update_frame(), settings_ack_frame(),
        request_headers_frame(0, uri), data_frame(0, data)]);
    assert(fs.drop_first().drop_first() =~= seq![settings_ack_frame(), request_headers_frame(0, uri), data_frame(0, data)]);
    assert(fs.drop_first().drop_first().drop_first() =~= seq![request_headers_frame(0, uri), data_frame(0, data)]);
    assert(fs.drop_first().drop_first().drop_first().drop_first() =~= seq![data_frame(0, data)]);
    assert(run_stream(s0, fs) =~= seq![
        StreamActionView::Ignored,
        StreamActionView::Ignored,
        StreamActionView::Ignored,
        StreamActionView::HeadersStored,
        StreamActionView::Dispatch { uri, body: data },
    ]);
    // The client's side.
    lemma_reply_reaches_client(0, status, chunks);
    let os = opening_frames(0);
    let rs = reply_frames(0, status, chunks);
    let all = os + rs;
    lemma_flags();
    assert forall|i: int| 0 <= i < all.len() implies #[trigger] fits_wire(all[i]) by {
        if i >= 3 {
            assert(all[i] == rs[i - 3]);
            lemma_reply_frames_fit_at(0, status, chunks, i - 3);
        }
    }
    lemma_client_reads_frames(all);
    lemma_client_reads_frames(rs);
    assert(all.map_values(|f: FrameView| spec_handle_payload(f)) =~= seq![
        ClientActionView::Continue, ClientActionView::Continue, ClientActionView::Continue]
        + rs.map_values(|f: FrameView| spec_handle_payload(f)));
    lemma_nothing_pending();
    lemma_read_in_chunks(Seq::empty(), reply_reads);
    assert(Seq::<u8>::empty() + reply_reads.flatten() =~= concat_wire(all));
}

} // verus!
