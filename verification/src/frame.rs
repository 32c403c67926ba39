//! HTTP/2 frame headers and payloads, read and written through `http2parse`.
use vstd::prelude::*;
use http2parse::{
    Flag as WireFlag, FrameHeader as WireHeader, Kind as WireKind, Payload as WirePayload,
    SizeIncrement, StreamIdentifier,
};

verus! {

/// Type code of a DATA frame.
pub const KIND_DATA: u8 = 0;
/// Type code of a HEADERS frame.
pub const KIND_HEADERS: u8 = 1;
/// Type code of a SETTINGS frame.
pub const KIND_SETTINGS: u8 = 4;
/// Type code of a PING frame.
pub const KIND_PING: u8 = 6;
/// Type code of a WINDOW_UPDATE frame.
pub const KIND_WINDOW_UPDATE: u8 = 8;

/// No flag set.
pub const FLAG_EMPTY: u8 = 0;
/// END_STREAM on DATA and HEADERS frames.
pub const FLAG_END_STREAM: u8 = 1;
/// ACK on SETTINGS and PING frames (the same bit as END_STREAM).
pub const FLAG_ACK: u8 = 1;
/// END_HEADERS on HEADERS frames.
pub const FLAG_END_HEADERS: u8 = 4;

/// The nine-byte header that precedes every HTTP/2 frame.
#[derive(Clone, Copy, Debug, PartialEq, Eq)]
pub struct FrameHeader {
    /// Length of the payload in bytes (24 bits on the wire).
    pub length: u32,
    /// Frame type code: 0 to 9 for the registered kinds, 255 for any other.
    pub kind: u8,
    /// Flag bits.
    pub flag: u8,
    /// Stream identifier.
    pub id: u32,
}

/// The part of a frame's payload that this library reads or writes.
#[derive(Clone, Debug, PartialEq, Eq)]
pub enum Payload {
    /// Application data.
    Data { data: Vec<u8> },
    /// An HPACK-encoded header block (any priority field is dropped).
    Headers { block: Vec<u8> },
    /// A SETTINGS frame; the library only writes empty ones and never reads their entries.
    Settings,
    /// A PING frame with its eight opaque bytes read as a big-endian integer.
    Ping { opaque: u64 },
    /// A WINDOW_UPDATE frame with its increment.
    WindowUpdate { increment: u32 },
    /// Any other frame kind, whose content the library does not read.
    Other,
}

/// A frame: its header and its payload.
#[derive(Clone, Debug, PartialEq, Eq)]
pub struct Frame {
    pub header: FrameHeader,
    pub payload: Payload,
}

/// Mathematical view of a [`Payload`].
pub enum PayloadView {
    Data { data: Seq<u8> },
    Headers { block: Seq<u8> },
    Settings,
    Ping { opaque: u64 },
    WindowUpdate { increment: u32 },
    Other,
}

/// Mathematical view of a [`Frame`].
pub struct FrameView {
    pub header: FrameHeader,
    pub payload: PayloadView,
}

impl View for Payload {
    type V = PayloadView;

    open spec fn view(&self) -> PayloadView {
        match self {
            Payload::Data { data } => PayloadView::Data { data: data@ },
            Payload::Headers { block } => PayloadView::Headers { block: block@ },
            Payload::Settings => PayloadView::Settings,
            Payload::Ping { opaque } => PayloadView::Ping { opaque: *opaque },
            Payload::WindowUpdate { increment } => PayloadView::WindowUpdate { increment: *increment },
            Payload::Other => PayloadView::Other,
        }
    }
}

impl View for Frame {
    type V = FrameView;

    open spec fn view(&self) -> FrameView {
        FrameView { header: self.header, payload: self.payload@ }
    }
}

/// Why a byte buffer does not hold a frame that the library can use.
#[derive(Clone, Copy, Debug, PartialEq, Eq)]
pub enum FrameError {
    /// The header carries flag bits that `http2parse` does not know.
    BadHeader,
    /// The payload is refused by `http2parse`, or is one it cannot parse without crashing.
    BadPayload,
    /// The frame runs past the end of the buffer that was read.
    Truncated,
}

// ---------------------------------------------------------------------------------------------
// Wire format
// ---------------------------------------------------------------------------------------------

/// Maps a type byte from the wire to the code that `http2parse` keeps for it.
pub open spec fn kind_code(b: u8) -> u8 {
    if b <= 9 { b } else { 255 }
}

/// The flag bits that `http2parse` knows: END_STREAM/ACK, END_HEADERS, PADDED, PRIORITY.
pub open spec fn known_flag_bits(b: u8) -> bool {
    b & 0xd2u8 == 0
}

/// The PADDED flag.
pub open spec fn padded_flag(f: u8) -> bool {
    f & 0x08u8 != 0
}

/// The PRIORITY flag.
pub open spec fn priority_flag(f: u8) -> bool {
    f & 0x20u8 != 0
}

pub open spec fn be_u24(b: Seq<u8>) -> nat {
    (b[0] as nat) * 65536 + (b[1] as nat) * 256 + (b[2] as nat)
}

pub open spec fn be_u32(b: Seq<u8>) -> nat {
    (b[0] as nat) * 16777216 + (b[1] as nat) * 65536 + (b[2] as nat) * 256 + (b[3] as nat)
}

pub open spec fn be_u64(b: Seq<u8>) -> nat {
    be_u32(b) * 4294967296 + be_u32(b.subrange(4, 8))
}

/// The four big-endian bytes of `v`.
pub open spec fn u32_bytes(v: u32) -> Seq<u8> {
    seq![
        (v / 16777216) as u8,
        (v / 65536 % 256) as u8,
        (v / 256 % 256) as u8,
        (v % 256) as u8,
    ]
}

/// The eight big-endian bytes of `v`.
pub open spec fn u64_bytes(v: u64) -> Seq<u8> {
    u32_bytes((v / 4294967296) as u32) + u32_bytes((v % 4294967296) as u32)
}

/// The nine bytes that `FrameHeader::encode` of `http2parse` writes for `h`.
pub open spec fn spec_encode_header(h: FrameHeader) -> Seq<u8> {
    seq![
        (h.length / 65536 % 256) as u8,
        (h.length / 256 % 256) as u8,
        (h.length % 256) as u8,
        kind_code(h.kind),
        h.flag & 0x2du8,
    ] + u32_bytes(h.id)
}

/// The bytes that `Payload::encode` of `http2parse` writes for `p`.
pub open spec fn spec_encode_payload(p: PayloadView) -> Seq<u8> {
    match p {
        PayloadView::Data { data } => data,
        PayloadView::Headers { block } => block,
        PayloadView::Settings => Seq::empty(),
        PayloadView::Ping { opaque } => u64_bytes(opaque),
        PayloadView::WindowUpdate { increment } => u32_bytes(increment),
        PayloadView::Other => Seq::empty(),
    }
}

/// The bytes of a whole frame: its header, then its payload.
pub open spec fn spec_encode_frame(f: FrameView) -> Seq<u8> {
    spec_encode_header(f.header) + spec_encode_payload(f.payload)
}

/// What `FrameHeader::parse` of `http2parse` returns for `buf`, `None` standing for its error.
pub open spec fn spec_parse_header(buf: Seq<u8>) -> Option<FrameHeader> {
    if buf.len() < 9 || !known_flag_bits(buf[4]) {
        None
    } else {
        Some(FrameHeader {
            length: be_u24(buf) as u32,
            kind: kind_code(buf[3]),
            flag: buf[4],
            id: (be_u32(buf.subrange(5, 9)) % 0x8000_0000) as u32,
        })
    }
}

/// The least payload length that the PADDED and PRIORITY flags call for.
pub open spec fn min_payload_len(f: u8) -> nat {
    (if priority_flag(f) { 5nat } else { 0nat }) + (if padded_flag(f) { 1nat } else { 0nat })
}

/// The payload with its padding removed, when the PADDED flag is set.
pub open spec fn trim_padding(f: u8, len: nat, b: Seq<u8>) -> Option<Seq<u8>> {
    if padded_flag(f) {
        if b[0] as nat > len {
            None
        } else {
            Some(b.subrange(1, len - b[0]))
        }
    } else {
        Some(b)
    }
}

/// The inputs on which `Payload::parse` of `http2parse` panics: all padding and no room left, a
/// short priority field in a HEADERS frame, or a PRIORITY frame shorter than five bytes.
pub open spec fn payload_parse_traps(h: FrameHeader, buf: Seq<u8>) -> bool {
    let len = h.length as nat;
    let k = kind_code(h.kind);
    &&& buf.len() >= len
    &&& len >= min_payload_len(h.flag)
    &&& {
        ||| (k == 0 || k == 1 || k == 5) && padded_flag(h.flag) && buf[0] as nat == len
        ||| k == 1 && padded_flag(h.flag) && priority_flag(h.flag) && (buf[0] as nat) < len
            && len - buf[0] - 1 < 5
        ||| k == 2 && len < 5
    }
}

/// How many bytes go before the payload in the copy that `Payload::parse` reads. The crate reads
/// its integers through `u32` and `u64` pointers into the payload: at offsets 0 and 4, except for
/// a priority field or a promised stream after a padding length, at offset 1. The copy is a fresh
/// allocation, which the allocator aligns, so three bytes before the payload align that read.
pub open spec fn payload_lead(h: FrameHeader) -> nat {
    let k = kind_code(h.kind);
    if padded_flag(h.flag) && (k == 1 && priority_flag(h.flag) || k == 5) { 3 } else { 0 }
}

/// What `Payload::parse` of `http2parse` returns for a frame with header `h` whose payload
/// starts `buf`, as this library keeps it; `None` stands for the crate's error.
pub open spec fn spec_parse_payload(h: FrameHeader, buf: Seq<u8>) -> Option<PayloadView> {
    let len = h.length as nat;
    if buf.len() < len || len < min_payload_len(h.flag) {
        None
    } else {
        let b = buf.take(len as int);
        let k = kind_code(h.kind);
        if k == 0 {
            match trim_padding(h.flag, len, b) {
                Some(t) => Some(PayloadView::Data { data: t }),
                None => None,
            }
        } else if k == 1 {
            match trim_padding(h.flag, len, b) {
                Some(t) => Some(
                    PayloadView::Headers {
                        block: if priority_flag(h.flag) { t.skip(5) } else { t },
                    },
                ),
                None => None,
            }
        } else if k == 3 {
            if len < 4 { None } else { Some(PayloadView::Other) }
        } else if k == 4 {
            if len % 6 != 0 { None } else { Some(PayloadView::Settings) }
        } else if k == 5 {
            match trim_padding(h.flag, len, b) {
                Some(t) => if t.len() < 4 { None } else { Some(PayloadView::Other) },
                None => None,
            }
        } else if k == 6 {
            if len != 8 { None } else { Some(PayloadView::Ping { opaque: be_u64(b) as u64 }) }
        } else if k == 7 {
            if len < 8 { None } else { Some(PayloadView::Other) }
        } else if k == 8 {
            if len != 4 { None } else { Some(PayloadView::WindowUpdate { increment: be_u32(b) as u32 }) }
        } else {
            Some(PayloadView::Other)
        }
    }
}

// ---------------------------------------------------------------------------------------------
// Calls into http2parse
// ---------------------------------------------------------------------------------------------

/// Reads a frame header: the behaviour of `http2parse::FrameHeader::parse`, which is the few lines
/// of `spec_parse_header`, written here because the crate reads the stream identifier through a
/// `u32` pointer at offset 5 of the buffer, which is not aligned and traps in checked builds.
pub fn parse_frame_header(buf: &[u8]) -> (res: Option<FrameHeader>)
    ensures
        res == spec_parse_header(buf@),
{
    if buf.len() < 9 || buf[4] & 0xd2u8 != 0 {
        return None;
    }
    let length = (buf[0] as u32) * 65536 + (buf[1] as u32) * 256 + buf[2] as u32;
    let kind = if buf[3] <= 9 { buf[3] } else { 255 };
    let id = (buf[5] as u32 % 128) * 16777216 + (buf[6] as u32) * 65536 + (buf[7] as u32) * 256 + buf[8] as u32;
    proof {
        let b5 = buf[5];
        let b6 = buf[6];
        let b7 = buf[7];
        let b8 = buf[8];
        assert(buf@.subrange(5, 9)[0] == b5 && buf@.subrange(5, 9)[1] == b6);
        assert(buf@.subrange(5, 9)[2] == b7 && buf@.subrange(5, 9)[3] == b8);
        assert(((b5 as u64) * 16777216 + (b6 as u64) * 65536 + (b7 as u64) * 256 + b8 as u64) % 0x8000_0000
            == ((b5 as u64) % 128) * 16777216 + (b6 as u64) * 65536 + (b7 as u64) * 256 + b8 as u64) by (bit_vector);
    }
    Some(FrameHeader { length, kind, flag: buf[4], id })
}

/// Reads a payload with `http2parse::Payload::parse` (what `Frame::parse` does) from `copy`, a
/// vector that holds `lead` other bytes before the payload, and keeps the part of it that the
/// library reads. Trusted: the result is `spec_parse_payload`, which follows the crate's source
/// case by case; the inputs on which the crate panics are left out (see `payload_parse_traps`),
/// and `lead` is the one that aligns the crate's integer reads in the vector's allocation (see
/// `payload_lead`).
#[verifier::external_body]
fn parse_payload_copy(header: &FrameHeader, copy: Vec<u8>, lead: usize) -> (res: Option<Payload>)
    requires
        lead <= copy@.len(),
        !payload_parse_traps(*header, copy@.skip(lead as int)),
        lead as nat == payload_lead(*header),
    ensures
        res matches Some(p) ==> spec_parse_payload(*header, copy@.skip(lead as int)) == Some(p@),
        res is None <==> spec_parse_payload(*header, copy@.skip(lead as int)) is None,
{
    let h = WireHeader { length: header.length, kind: WireKind::new(header.kind), flag: WireFlag::from_bits_truncate(header.flag), id: StreamIdentifier(header.id) };
    match WirePayload::parse(h, &copy[lead..]) {
        Ok(WirePayload::Data { data }) => Some(Payload::Data { data: data.to_vec() }),
        Ok(WirePayload::Headers { block, .. }) => Some(Payload::Headers { block: block.to_vec() }),
        Ok(WirePayload::Settings(_)) => Some(Payload::Settings),
        Ok(WirePayload::Ping(v)) => Some(Payload::Ping { opaque: v }),
        Ok(WirePayload::WindowUpdate(v)) => Some(Payload::WindowUpdate { increment: v.0 }),
        Ok(_) => Some(Payload::Other),
        Err(_) => None,
    }
}

/// Reads the payload of a frame with header `header` at the start of `buf` with `http2parse`,
/// from a fresh copy laid out as `payload_lead` says: `None` where the crate reports an error
/// (see `spec_parse_payload`).
pub fn parse_payload(header: &FrameHeader, buf: &[u8]) -> (res: Option<Payload>)
    requires
        !payload_parse_traps(*header, buf@),
    ensures
        res matches Some(p) ==> spec_parse_payload(*header, buf@) == Some(p@),
        res is None <==> spec_parse_payload(*header, buf@) is None,
{
    let k = if header.kind <= 9 { header.kind } else { 255 };
    let padded = header.flag & 0x08u8 != 0;
    let priority = header.flag & 0x20u8 != 0;
    let lead: usize = if padded && (k == 1 && priority || k == 5) { 3 } else { 0 };
    let mut copy: Vec<u8> = Vec::new();
    while copy.len() < lead
        invariant
            copy.len() <= lead <= 3,
        decreases lead - copy.len(),
    {
        copy.push(0);
    }
    let mut rest = vstd::slice::slice_to_vec(buf);
    copy.append(&mut rest);
    assert(copy@.skip(lead as int) =~= buf@);
    parse_payload_copy(header, copy, lead)
}

/// Writes a frame header with `http2parse::FrameHeader::encode`.
/// Trusted: the result is the nine bytes of `spec_encode_header`: the low 24 bits of the length,
/// the type code, the known flag bits and the stream identifier, big-endian.
#[verifier::external_body]
pub fn encode_frame_header(header: &FrameHeader) -> (res: Vec<u8>)
    ensures
        res@ == spec_encode_header(*header),
{
    let flag = WireFlag::from_bits_truncate(header.flag);
    let id = StreamIdentifier(header.id);
    let h = WireHeader { length: header.length, kind: WireKind::new(header.kind), flag, id };
    let mut buf = vec![0u8; 9];
    h.encode(&mut buf);
    buf
}

/// Writes a payload with `http2parse::Payload::encode` into a buffer of its `encoded_len`.
/// Trusted: the result is `spec_encode_payload`: the data or header block as it is (no priority
/// field), nothing for an empty SETTINGS frame, and the big-endian PING or WINDOW_UPDATE value.
#[verifier::external_body]
pub fn encode_payload(payload: &Payload) -> (res: Vec<u8>)
    ensures
        res@ == spec_encode_payload(payload@),
{
    let p = match payload {
        Payload::Data { data } => WirePayload::Data { data },
        Payload::Headers { block } => WirePayload::Headers { priority: None, block },
        Payload::Settings => WirePayload::Settings(&[]),
        Payload::Ping { opaque } => WirePayload::Ping(*opaque),
        Payload::WindowUpdate { increment } => WirePayload::WindowUpdate(SizeIncrement(*increment)),
        Payload::Other => WirePayload::Unregistered(&[]),
    };
    let mut buf = vec![0u8; p.encoded_len()];
    p.encode(&mut buf);
    buf
}


// ---------------------------------------------------------------------------------------------
// Frames built and read by the library
// ---------------------------------------------------------------------------------------------

/// The type code of the frame that carries `p`.
pub open spec fn payload_kind(p: PayloadView) -> u8 {
    match p {
        PayloadView::Data { .. } => KIND_DATA,
        PayloadView::Headers { .. } => KIND_HEADERS,
        PayloadView::Settings => KIND_SETTINGS,
        PayloadView::Ping { .. } => KIND_PING,
        PayloadView::WindowUpdate { .. } => KIND_WINDOW_UPDATE,
        PayloadView::Other => 255,
    }
}

/// A frame as the library writes it: the header's length and kind match the payload, the
/// length fits in 24 bits, only known flags are set and neither PADDED nor PRIORITY, and the
/// stream identifier fits in 31 bits.
pub open spec fn well_formed(f: FrameView) -> bool {
    &&& !(f.payload is Other)
    &&& f.header.kind == payload_kind(f.payload)
    &&& f.header.length as nat == spec_encode_payload(f.payload).len()
    &&& f.header.length < 0x100_0000
    &&& known_flag_bits(f.header.flag)
    &&& !padded_flag(f.header.flag)
    &&& !priority_flag(f.header.flag)
    &&& f.header.id < 0x8000_0000
}

impl Payload {
    /// The number of bytes the payload takes on the wire.
    pub fn encoded_len(&self) -> (n: usize)
        ensures
            n as nat == spec_encode_payload(self@).len(),
    {
        match self {
            Payload::Data { data } => data.len(),
            Payload::Headers { block } => block.len(),
            Payload::Settings => 0,
            Payload::Ping { .. } => 8,
            Payload::WindowUpdate { .. } => 4,
            Payload::Other => 0,
        }
    }

    /// The type code of the frame that carries this payload.
    pub fn kind(&self) -> (k: u8)
        ensures
            k == payload_kind(self@),
    {
        match self {
            Payload::Data { .. } => KIND_DATA,
            Payload::Headers { .. } => KIND_HEADERS,
            Payload::Settings => KIND_SETTINGS,
            Payload::Ping { .. } => KIND_PING,
            Payload::WindowUpdate { .. } => KIND_WINDOW_UPDATE,
            Payload::Other => 255,
        }
    }
}

impl Frame {
    /// A frame on stream `id` with the given flags, whose header gives the payload's kind and
    /// its length on the wire (cut to 32 bits).
    pub fn new(flag: u8, id: u32, payload: Payload) -> (f: Frame)
        ensures
            f.header == (FrameHeader {
                length: spec_encode_payload(payload@).len() as u32,
                kind: payload_kind(payload@),
                flag,
                id,
            }),
            f.payload@ == payload@,
    {
        let length = payload.encoded_len() as u32;
        let kind = payload.kind();
        Frame { header: FrameHeader { length, kind, flag, id }, payload }
    }
}

/// Writes a whole frame: its header, then its payload (what `Frame::encode` of `http2parse`
/// does).
pub fn encode_frame(frame: &Frame) -> (bytes: Vec<u8>)
    ensures
        bytes@ == spec_encode_frame(frame@),
{
    let mut bytes = encode_frame_header(&frame.header);
    let mut payload = encode_payload(&frame.payload);
    bytes.append(&mut payload);
    bytes
}

/// Tells whether `http2parse` cannot parse this payload safely (see `payload_parse_traps`).
pub fn payload_parse_would_trap(header: &FrameHeader, buf: &[u8]) -> (traps: bool)
    ensures
        traps == payload_parse_traps(*header, buf@),
{
    let len = header.length as usize;
    let padded = header.flag & 0x08u8 != 0;
    let priority = header.flag & 0x20u8 != 0;
    let min: usize = (if priority { 5 } else { 0 }) + (if padded { 1 } else { 0 });
    if buf.len() < len || len < min {
        return false;
    }
    let k = if header.kind <= 9 { header.kind } else { 255 };
    let pad: usize = if padded { buf[0] as usize } else { 0 };
    ((k == 0 || k == 1 || k == 5) && padded && pad == len)
        || (k == 1 && padded && priority && pad < len && len - pad - 1 < 5)
        || (k == 2 && len < 5)
}

/// The frame at the start of `buf`: `Ok(None)` while fewer bytes than the whole frame are
/// there, an error when the header or the payload cannot be read, and otherwise the frame and
/// the number of bytes it takes.
#[verifier::opaque]
pub open spec fn spec_read_frame(buf: Seq<u8>) -> Result<Option<(FrameView, nat)>, FrameError> {
    if buf.len() < 9 {
        Ok(None)
    } else {
        match spec_parse_header(buf.take(9)) {
            None => Err(FrameError::BadHeader),
            Some(h) => {
                let total = 9 + h.length as nat;
                if buf.len() < total {
                    Ok(None)
                } else {
                    let body = buf.subrange(9, total as int);
                    if payload_parse_traps(h, body) {
                        Err(FrameError::BadPayload)
                    } else {
                        match spec_parse_payload(h, body) {
                            None => Err(FrameError::BadPayload),
                            Some(p) => Ok(Some((FrameView { header: h, payload: p }, total))),
                        }
                    }
                }
            },
        }
    }
}

/// Reads the frame at the start of `buf` with `http2parse` (see `spec_read_frame`).
pub fn read_frame(buf: &[u8]) -> (res: Result<Option<(Frame, usize)>, FrameError>)
    ensures
        match (res, spec_read_frame(buf@)) {
            (Ok(None), Ok(None)) => true,
            (Ok(Some((f, n))), Ok(Some((fv, m)))) => f@ == fv && n as nat == m,
            (Err(e), Err(e2)) => e == e2,
            _ => false,
        },
{
    reveal(spec_read_frame);
    if buf.len() < 9 {
        return Ok(None);
    }
    let header = match parse_frame_header(vstd::slice::slice_subrange(buf, 0, 9)) {
        Some(h) => h,
        None => return Err(FrameError::BadHeader),
    };
    let total = 9 + header.length as usize;
    if buf.len() < total {
        return Ok(None);
    }
    let body = vstd::slice::slice_subrange(buf, 9, total);
    if payload_parse_would_trap(&header, body) {
        return Err(FrameError::BadPayload);
    }
    match parse_payload(&header, body) {
        Some(payload) => Ok(Some((Frame { header, payload }, total))),
        None => Err(FrameError::BadPayload),
    }
}


// ---------------------------------------------------------------------------------------------
// Laws of the wire format
// ---------------------------------------------------------------------------------------------

/// The big-endian bytes of a 32-bit value read back as that value.
pub proof fn lemma_u32_bytes(v: u32)
    ensures
        u32_bytes(v).len() == 4,
        be_u32(u32_bytes(v)) == v as nat,
{
    assert((v / 16777216) * 16777216 + (v / 65536 % 256) * 65536 + (v / 256 % 256) * 256 + v % 256
        == v) by (bit_vector);
    assert(v / 16777216 < 256) by (bit_vector);
}

/// The big-endian bytes of a 64-bit value read back as that value.
pub proof fn lemma_u64_bytes(v: u64)
    ensures
        u64_bytes(v).len() == 8,
        be_u64(u64_bytes(v)) == v as nat,
{
    let hi = (v / 4294967296) as u32;
    let lo = (v % 4294967296) as u32;
    assert(v / 4294967296 < 4294967296) by (bit_vector);
    assert((v / 4294967296) * 4294967296 + v % 4294967296 == v) by (bit_vector);
    lemma_u32_bytes(hi);
    lemma_u32_bytes(lo);
    let b = u64_bytes(v);
    assert(b.subrange(4, 8) =~= u32_bytes(lo));
    assert(b.subrange(0, 4) =~= u32_bytes(hi));
    assert(be_u32(b) == be_u32(b.subrange(0, 4)));
}

/// A header written by `http2parse` reads back as itself, whatever bytes follow it, when its
/// fields fit the wire: a 24-bit length, a type code, known flags and a 31-bit stream id.
pub proof fn lemma_header_roundtrip(h: FrameHeader, rest: Seq<u8>)
    requires
        h.length < 0x100_0000,
        kind_code(h.kind) == h.kind,
        known_flag_bits(h.flag),
        h.id < 0x8000_0000,
    ensures
        spec_parse_header((spec_encode_header(h) + rest).take(9)) == Some(h),
        spec_encode_header(h).len() == 9,
{
    let e = spec_encode_header(h);
    lemma_u32_bytes(h.id);
    let b = (e + rest).take(9);
    assert(b =~= e);
    let len = h.length;
    let flag = h.flag;
    assert((len / 65536 % 256) * 65536 + (len / 256 % 256) * 256 + len % 256 == len) by (bit_vector)
        requires len < 0x100_0000u32;
    assert(flag & 0x2du8 == flag && (flag & 0x2du8) & 0xd2u8 == 0) by (bit_vector)
        requires flag & 0xd2u8 == 0;
    assert(b.subrange(5, 9) =~= u32_bytes(h.id));
}


/// A payload written by `http2parse` reads back as itself under a header without the PADDED and
/// PRIORITY flags whose length is the payload's.
pub proof fn lemma_payload_roundtrip(h: FrameHeader, p: PayloadView, rest: Seq<u8>)
    requires
        !(p is Other),
        h.kind == payload_kind(p),
        h.length as nat == spec_encode_payload(p).len(),
        !padded_flag(h.flag),
        !priority_flag(h.flag),
    ensures
        !payload_parse_traps(h, spec_encode_payload(p) + rest),
        spec_parse_payload(h, spec_encode_payload(p) + rest) == Some(p),
{
    let e = spec_encode_payload(p);
    let buf = e + rest;
    assert(buf.take(h.length as int) =~= e);
    match p {
        PayloadView::Ping { opaque } => {
            lemma_u64_bytes(opaque);
        },
        PayloadView::WindowUpdate { increment } => {
            lemma_u32_bytes(increment);
        },
        _ => {},
    }
}

/// A frame that the library writes is read back as itself, and takes exactly its nine header
/// bytes and its payload, whatever bytes follow it.
pub proof fn lemma_frame_roundtrip(f: FrameView, rest: Seq<u8>)
    requires
        well_formed(f),
    ensures
        spec_read_frame(spec_encode_frame(f) + rest)
            == Ok::<_, FrameError>(Some((f, 9 + f.header.length as nat))),
{
    reveal(spec_read_frame);
    let h = f.header;
    let eh = spec_encode_header(h);
    let ep = spec_encode_payload(f.payload);
    let buf = spec_encode_frame(f) + rest;
    assert(buf =~= eh + (ep + rest));
    lemma_header_roundtrip(h, ep + rest);
    assert(buf.subrange(9, 9 + h.length as int) =~= ep + Seq::<u8>::empty());
    lemma_payload_roundtrip(h, f.payload, Seq::<u8>::empty());
}


/// What is read at the start of a buffer does not change when more bytes follow, once it is a
/// whole frame or an error.
pub proof fn lemma_read_frame_extend(buf: Seq<u8>, more: Seq<u8>)
    requires
        spec_read_frame(buf) != Ok::<Option<(FrameView, nat)>, FrameError>(None),
    ensures
        spec_read_frame(buf + more) == spec_read_frame(buf),
{
    reveal(spec_read_frame);
    let b = buf + more;
    assert(b.take(9) =~= buf.take(9));
    if let Some(h) = spec_parse_header(buf.take(9)) {
        let total = 9 + h.length as nat;
        if total <= buf.len() {
            assert(b.subrange(9, total as int) =~= buf.subrange(9, total as int));
        }
    }
}

/// A SETTINGS frame that a peer writes is read whole, whatever settings it carries: one whose
/// payload is a whole number of six-byte entries, without the PADDED and PRIORITY flags, is read
/// as a SETTINGS frame of its nine header bytes and its entries, whatever bytes follow it.
pub proof fn lemma_settings_frame_read(h: FrameHeader, entries: Seq<u8>, rest: Seq<u8>)
    requires
        h.kind == KIND_SETTINGS,
        known_flag_bits(h.flag),
        !padded_flag(h.flag),
        !priority_flag(h.flag),
        h.length < 0x100_0000,
        h.id < 0x8000_0000,
        entries.len() == h.length,
        entries.len() % 6 == 0,
    ensures
        spec_read_frame(spec_encode_header(h) + entries + rest) == Ok::<_, FrameError>(
            Some((FrameView { header: h, payload: PayloadView::Settings }, 9 + h.length as nat)),
        ),
{
    reveal(spec_read_frame);
    let buf = spec_encode_header(h) + entries + rest;
    lemma_header_roundtrip(h, entries + rest);
    assert(buf =~= spec_encode_header(h) + (entries + rest));
    assert(buf.subrange(9, 9 + h.length as int) =~= entries);
    assert(entries.take(h.length as int) =~= entries);
}

/// A frame read off a buffer takes its nine header bytes and its payload, within the buffer.
pub proof fn lemma_read_frame_size(buf: Seq<u8>)
    ensures
        spec_read_frame(buf) matches Ok(Some((f, n))) ==> 9 <= n <= buf.len() && n == 9 + f.header.length,
{
    reveal(spec_read_frame);
}

} // verus!
