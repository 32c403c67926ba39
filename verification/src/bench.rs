//! The computations behind the benchmark service: the message a throughput test repeats, and how
//! many times.
use vstd::prelude::*;

verus! {

/// The number of bytes a throughput test sends in all.
pub const THROUGHPUT_TOTAL_BYTES: u64 = 10_000_000_000;

/// The byte that fills a throughput message, `A`.
pub const FILL_BYTE: u8 = 65;

/// The message of a throughput test: `buffer_size` bytes `A`.
pub fn throughput_message(buffer_size: usize) -> (bytes: Vec<u8>)
    ensures
        bytes@.len() == buffer_size,
        forall|i: int| 0 <= i < buffer_size ==> #[trigger] bytes@[i] == FILL_BYTE,
{
    let mut bytes: Vec<u8> = Vec::new();
    let mut i: usize = 0;
    while i < buffer_size
        invariant
            i <= buffer_size,
            bytes@.len() == i,
            forall|j: int| 0 <= j < i ==> #[trigger] bytes@[j] == FILL_BYTE,
        decreases buffer_size - i,
    {
        bytes.push(FILL_BYTE);
        i += 1;
    }
    bytes
}

/// How many messages of `buffer_size` bytes a throughput test sends: as many as fit in
/// 10,000,000,000 bytes. The size must not be zero.
pub fn throughput_rounds(buffer_size: u64) -> (rounds: u64)
    requires
        buffer_size > 0,
    ensures
        rounds == THROUGHPUT_TOTAL_BYTES / buffer_size,
{
    THROUGHPUT_TOTAL_BYTES / buffer_size
}

} // verus!
