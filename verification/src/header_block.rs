//! HPACK header blocks, encoded and decoded with the `hpack` crate.
use vstd::prelude::*;

verus! {

/// A header list: (name, value) pairs of bytes.
pub type HeaderList = Vec<(Vec<u8>, Vec<u8>)>;

/// What a fresh `hpack::Encoder` writes for a header list.
pub uninterp spec fn hpack_encoded(headers: Seq<(Seq<u8>, Seq<u8>)>) -> Seq<u8>;

/// What a fresh `hpack::Decoder` reads from a header block; `None` when it reports an error.
pub uninterp spec fn hpack_decoded(block: Seq<u8>) -> Option<Seq<(Seq<u8>, Seq<u8>)>>;

// ---------------------------------------------------------------------------------------------
// The field layout of a header block, as far as it decides where `hpack`'s decoder panics
// ---------------------------------------------------------------------------------------------

/// An HPACK integer whose prefix is the bits of `mask` in the first byte of `b`, as `hpack`'s
/// `decode_integer` reads it: the bytes it takes and its value, `None` where the crate reports an
/// error (no byte, the bytes run out, or a fifth byte that still continues).
pub open spec fn hpack_int(b: Seq<u8>, mask: u8) -> Option<(nat, nat)> {
    if b.len() < 1 {
        None
    } else if b[0] & mask < mask {
        Some((1, (b[0] & mask) as nat))
    } else {
        hpack_int_more(b, 1, mask as nat, 1)
    }
}

/// The continuation bytes of an HPACK integer from byte `total` on, with `value` read so far and
/// `mult` the weight of the next seven bits.
pub open spec fn hpack_int_more(b: Seq<u8>, total: nat, value: nat, mult: nat) -> Option<(nat, nat)>
    decreases b.len() - total,
{
    if total >= b.len() {
        None
    } else {
        let c = b[total as int];
        let v = value + ((c & 127u8) as nat) * mult;
        if c & 128u8 != 128u8 {
            Some((total + 1, v))
        } else if total + 1 == 5 {
            None
        } else {
            hpack_int_more(b, total + 1, v, mult * 128)
        }
    }
}

/// The bytes that an HPACK string literal at the start of `b` takes (its length, then its octets).
pub open spec fn hpack_string_len(b: Seq<u8>) -> Option<nat> {
    match hpack_int(b, 127u8) {
        Some((c, len)) => if c + len > b.len() { None } else { Some(c + len) },
        None => None,
    }
}

/// The bytes that a literal header field at the start of `b` takes: its name index (prefix
/// `mask`), its name as a string when the index is 0, and its value.
pub open spec fn hpack_literal_len(b: Seq<u8>, mask: u8) -> Option<nat> {
    match hpack_int(b, mask) {
        None => None,
        Some((c, index)) => {
            let name_end = if index == 0 {
                match hpack_string_len(b.skip(c as int)) {
                    Some(s) => Some(c + s),
                    None => None,
                }
            } else {
                Some(c)
            };
            match name_end {
                None => None,
                Some(e) => match hpack_string_len(b.skip(e as int)) {
                    Some(s) => Some(e + s),
                    None => None,
                },
            }
        },
    }
}

/// Whether a field whose first byte is `o` is a dynamic table size update (bits `001`).
pub open spec fn is_size_update(o: u8) -> bool {
    o & 128u8 != 128u8 && o & 64u8 != 64u8 && o & 32u8 == 32u8
}

/// The bytes that the field at the start of `b` takes, by its first byte: an indexed field
/// (`1`), a literal with indexing (`01`), a size update (`001`), or another literal.
pub open spec fn hpack_field_len(b: Seq<u8>) -> Option<nat> {
    if b.len() < 1 {
        None
    } else if b[0] & 128u8 == 128u8 {
        match hpack_int(b, 127u8) { Some((c, _)) => Some(c), None => None }
    } else if b[0] & 64u8 == 64u8 {
        hpack_literal_len(b, 63u8)
    } else if b[0] & 32u8 == 32u8 {
        match hpack_int(b, 31u8) { Some((c, _)) => Some(c), None => None }
    } else {
        hpack_literal_len(b, 15u8)
    }
}

proof fn lemma_hpack_int_more_len(b: Seq<u8>, total: nat, value: nat, mult: nat)
    ensures
        hpack_int_more(b, total, value, mult) matches Some((t, _)) ==> total < t <= b.len(),
    decreases b.len() - total,
{
    if total < b.len() {
        let c = b[total as int];
        if c & 128u8 == 128u8 && total + 1 != 5 {
            lemma_hpack_int_more_len(b, total + 1, value + ((c & 127u8) as nat) * mult, mult * 128);
        }
    }
}

/// An HPACK integer, string or field takes at least one byte and no more than there are.
pub proof fn lemma_hpack_lens(b: Seq<u8>, mask: u8)
    ensures
        hpack_int(b, mask) matches Some((c, _)) ==> 1 <= c <= b.len(),
        hpack_string_len(b) matches Some(n) ==> 1 <= n <= b.len(),
        hpack_literal_len(b, mask) matches Some(n) ==> 1 <= n <= b.len(),
        hpack_field_len(b) matches Some(n) ==> 1 <= n <= b.len(),
{
    lemma_hpack_int_more_len(b, 1, mask as nat, 1);
    lemma_hpack_int_more_len(b, 1, 127, 1);
    lemma_hpack_int_more_len(b, 1, 63, 1);
    lemma_hpack_int_more_len(b, 1, 31, 1);
    lemma_hpack_int_more_len(b, 1, 15, 1);
    lemma_hpack_literal_len(b, mask);
    lemma_hpack_literal_len(b, 63u8);
    lemma_hpack_literal_len(b, 15u8);
}

proof fn lemma_hpack_string_len(b: Seq<u8>)
    ensures
        hpack_string_len(b) matches Some(n) ==> 1 <= n <= b.len(),
{
    lemma_hpack_int_more_len(b, 1, 127, 1);
}

proof fn lemma_hpack_literal_len(b: Seq<u8>, mask: u8)
    ensures
        hpack_literal_len(b, mask) matches Some(n) ==> 1 <= n <= b.len(),
{
    lemma_hpack_int_more_len(b, 1, mask as nat, 1);
    if let Some((c, index)) = hpack_int(b, mask) {
        lemma_hpack_string_len(b.skip(c as int));
        let name_end = if index == 0 {
            match hpack_string_len(b.skip(c as int)) {
                Some(s) => Some(c + s),
                None => None,
            }
        } else {
            Some(c)
        };
        if let Some(e) = name_end {
            lemma_hpack_string_len(b.skip(e as int));
        }
    }
}

/// Whether `hpack`'s decoder, reading the fields of `b` from `pos` on, can come to a size update
/// whose integer it cannot read, where it panics. The walk goes by the field layout alone: it
/// stops (no panic) at a field whose integers or strings run out, as the decoder does, and it
/// goes on past fields that the decoder could still refuse for their content (a table index or
/// a Huffman code), so it may report a panic that an earlier error would have prevented.
pub open spec fn hpack_traps_from(b: Seq<u8>, pos: nat) -> bool
    decreases b.len() - pos,
{
    if pos >= b.len() {
        false
    } else {
        let r = b.skip(pos as int);
        if is_size_update(r[0]) && hpack_int(r, 31u8) is None {
            true
        } else {
            match hpack_field_len(r) {
                None => false,
                Some(n) => {
                    proof {
                        lemma_hpack_lens(r, 31u8);
                    }
                    hpack_traps_from(b, pos + n)
                },
            }
        }
    }
}

/// Whether `q` is where a field of `b` starts, walking the fields by their layout from `pos`.
pub open spec fn hpack_field_start(b: Seq<u8>, pos: nat, q: nat) -> bool
    decreases b.len() - pos,
{
    if pos >= b.len() {
        false
    } else if q == pos {
        true
    } else {
        match hpack_field_len(b.skip(pos as int)) {
            None => false,
            Some(n) => {
                proof {
                    lemma_hpack_lens(b.skip(pos as int), 31u8);
                }
                hpack_field_start(b, pos + n, q)
            },
        }
    }
}

/// The walk flags a block exactly where one of its fields, from `pos` on, is a dynamic table size
/// update whose integer cannot be read: a block of whole indexed fields and literals, whatever
/// their strings (Huffman-coded or not), is never flagged.
pub proof fn lemma_hpack_traps_exactly(b: Seq<u8>, pos: nat)
    ensures
        hpack_traps_from(b, pos) <==> exists|q: nat| #[trigger] hpack_field_start(b, pos, q)
            && is_size_update(b[q as int]) && hpack_int(b.skip(q as int), 31u8) is None,
    decreases b.len() - pos,
{
    if pos < b.len() {
        let r = b.skip(pos as int);
        assert(r[0] == b[pos as int]);
        lemma_hpack_lens(r, 31u8);
        if is_size_update(r[0]) && hpack_int(r, 31u8) is None {
            assert(hpack_field_start(b, pos, pos));
        } else {
            match hpack_field_len(r) {
                None => {
                    assert forall|q: nat| #[trigger] hpack_field_start(b, pos, q) implies q == pos by {}
                },
                Some(n) => {
                    lemma_hpack_traps_exactly(b, pos + n);
                    if hpack_traps_from(b, pos + n) {
                        let q = choose|q: nat| #[trigger] hpack_field_start(b, pos + n, q)
                            && is_size_update(b[q as int]) && hpack_int(b.skip(q as int), 31u8) is None;
                        assert(q != pos);
                        assert(hpack_field_start(b, pos, q));
                    } else {
                        assert forall|q: nat| #[trigger] hpack_field_start(b, pos, q) && q != pos
                            implies hpack_field_start(b, pos + n, q) by {}
                    }
                },
            }
        }
    }
}

/// The header blocks on which `hpack::Decoder::decode` may panic (see `hpack_traps_from`).
pub open spec fn hpack_decode_traps(block: Seq<u8>) -> bool {
    hpack_traps_from(block, 0)
}

/// Reads the HPACK integer with prefix `mask` at `pos` in `b` (see `hpack_int`).
fn hpack_int_at(b: &[u8], pos: usize, mask: u8) -> (res: Option<(usize, u64)>)
    requires
        pos <= b.len(),
    ensures
        match (res, hpack_int(b@.skip(pos as int), mask)) {
            (Some((c, v)), Some((c2, v2))) => c as nat == c2 && v as nat == v2,
            (None, None) => true,
            _ => false,
        },
{
    let ghost r = b@.skip(pos as int);
    if pos >= b.len() {
        return None;
    }
    let first = b[pos] & mask;
    if first < mask {
        return Some((1, first as u64));
    }
    let mut total: usize = 1;
    let mut value: u64 = mask as u64;
    let mut mult: u64 = 1;
    while total < b.len() - pos
        invariant
            pos < b.len(),
            r == b@.skip(pos as int),
            1 <= total <= 4,
            total == 1 ==> mult == 1,
            total == 2 ==> mult == 128,
            total == 3 ==> mult == 0x4000,
            total == 4 ==> mult == 0x20_0000,
            value < 256 * mult,
            hpack_int(r, mask) == hpack_int_more(r, total as nat, value as nat, mult as nat),
        decreases b.len() - pos - total,
    {
        let c = b[pos + total];
        assert(c == r[total as int]);
        let low = (c & 127u8) as u64;
        assert(c & 127u8 < 128u8) by (bit_vector);
        assert(low * mult < 128 * mult) by (nonlinear_arith)
            requires
                low < 128,
                mult >= 1,
        ;
        value = value + low * mult;
        total = total + 1;
        if c & 128u8 != 128u8 {
            return Some((total, value));
        }
        if total == 5 {
            return None;
        }
        mult = mult * 128;
    }
    None
}

/// The bytes taken by the string literal at `pos` (see `hpack_string_len`).
fn hpack_string_len_at(b: &[u8], pos: usize) -> (res: Option<usize>)
    requires
        pos <= b.len(),
    ensures
        match (res, hpack_string_len(b@.skip(pos as int))) {
            (Some(n), Some(m)) => n as nat == m,
            (None, None) => true,
            _ => false,
        },
{
    match hpack_int_at(b, pos, 127u8) {
        Some((c, len)) => {
            proof {
                lemma_hpack_lens(b@.skip(pos as int), 127u8);
            }
            if len > (b.len() - pos - c) as u64 {
                None
            } else {
                Some(c + len as usize)
            }
        },
        None => None,
    }
}

/// The bytes taken by the literal field at `pos` with name index prefix `mask`.
fn hpack_literal_len_at(b: &[u8], pos: usize, mask: u8) -> (res: Option<usize>)
    requires
        pos <= b.len(),
    ensures
        match (res, hpack_literal_len(b@.skip(pos as int), mask)) {
            (Some(n), Some(m)) => n as nat == m,
            (None, None) => true,
            _ => false,
        },
{
    let ghost r = b@.skip(pos as int);
    proof {
        lemma_hpack_lens(r, mask);
    }
    let (c, index) = match hpack_int_at(b, pos, mask) {
        Some(x) => x,
        None => return None,
    };
    assert(r.skip(c as int) =~= b@.skip(pos + c));
    let name_end = if index == 0 {
        match hpack_string_len_at(b, pos + c) {
            Some(s) => {
                proof {
                    lemma_hpack_lens(b@.skip(pos + c), 127u8);
                }
                c + s
            },
            None => return None,
        }
    } else {
        c
    };
    assert(r.skip(name_end as int) =~= b@.skip(pos + name_end));
    match hpack_string_len_at(b, pos + name_end) {
        Some(s) => {
            proof {
                lemma_hpack_lens(b@.skip(pos + name_end), 127u8);
            }
            Some(name_end + s)
        },
        None => None,
    }
}

/// Whether `hpack`'s decoder may panic on `block` (see `hpack_decode_traps`); the library does not
/// hand such a block to the decoder.
pub fn hpack_block_would_trap(block: &[u8]) -> (traps: bool)
    ensures
        traps == hpack_decode_traps(block@),
{
    let mut pos: usize = 0;
    while pos < block.len()
        invariant
            pos <= block.len(),
            hpack_decode_traps(block@) == hpack_traps_from(block@, pos as nat),
        decreases block.len() - pos,
    {
        let ghost r = block@.skip(pos as int);
        proof {
            lemma_hpack_lens(r, 31u8);
        }
        let o = block[pos];
        assert(o == r[0]);
        let n = if o & 128u8 == 128u8 {
            match hpack_int_at(block, pos, 127u8) {
                Some((c, _)) => c,
                None => return false,
            }
        } else if o & 64u8 == 64u8 {
            match hpack_literal_len_at(block, pos, 63u8) {
                Some(n) => n,
                None => return false,
            }
        } else if o & 32u8 == 32u8 {
            match hpack_int_at(block, pos, 31u8) {
                Some((c, _)) => c,
                None => return true,
            }
        } else {
            match hpack_literal_len_at(block, pos, 15u8) {
                Some(n) => n,
                None => return false,
            }
        };
        pos = pos + n;
    }
    false
}

/// Whether every name and value of a header list is shorter than 2^28 bytes, so that its length
/// fits the five octets to which `hpack`'s decoder limits an integer.
pub open spec fn short_headers(headers: Seq<(Seq<u8>, Seq<u8>)>) -> bool {
    forall|i: int| 0 <= i < headers.len() ==> (#[trigger] headers[i]).0.len() < 0x1000_0000
        && headers[i].1.len() < 0x1000_0000
}

/// Encodes a header list with a fresh `hpack::Encoder` (`Encoder::new().encode(..)`).
/// Trusted: the block is the one the crate computes from these headers alone, named
/// `hpack_encoded`; a fresh encoder holds no state from earlier calls. The encoder writes only
/// indexed fields and literals (never a size update), so a fresh decoder does not panic on the
/// block; and since the encoder adds to its table exactly the literals it marks for indexing,
/// as the decoder does, a fresh decoder reads the header list back, provided each length fits the
/// decoder's five-octet integers.
#[verifier::external_body]
pub fn hpack_encode(headers: &HeaderList) -> (block: Vec<u8>)
    ensures
        block@ == hpack_encoded(headers.deep_view()),
        !hpack_decode_traps(block@),
        short_headers(headers.deep_view()) ==> hpack_decoded(block@) == Some(headers.deep_view()),
{
    hpack::Encoder::new().encode(headers.iter().map(|h| (h.0.as_slice(), h.1.as_slice())))
}

/// Decodes a header block with a fresh `hpack::Decoder` (`Decoder::new().decode(..)`).
/// Trusted: the result is the crate's header list for this block, named `hpack_decoded`, and
/// `None` exactly when the crate returns an error. The blocks on which the crate panics instead
/// (a size update whose integer is cut short) are left out: see `hpack_decode_traps`.
#[verifier::external_body]
pub fn hpack_decode(block: &[u8]) -> (headers: Option<HeaderList>)
    requires
        !hpack_decode_traps(block@),
    ensures
        match headers {
            Some(h) => hpack_decoded(block@) == Some(h.deep_view()),
            None => hpack_decoded(block@) is None,
        },
{
    hpack::Decoder::new().decode(block).ok()
}

/// A byte vector seen element by element is its view.
pub proof fn lemma_bytes_deep_view(v: Vec<u8>)
    ensures
        v.deep_view() == v@,
{
    assert(v.deep_view() =~= v@);
}

} // verus!
