use vstd::prelude::*;

use crate::bytes::append_bytes;
use crate::frame::MAX_PAYLOAD;

verus! {

/// What zx0's compressor, in quick mode, makes of `input`.
pub uninterp spec fn zx0_quick(input: Seq<u8>) -> Seq<u8>;

/// Relies on zx0's `Compressor::compress` with quick mode set: a compressor
/// holds only its configuration, so the output depends on the input alone.
/// Its optimizer computes `input.len() - 1`, so an empty input is left out;
/// it counts the bits of its parse in a `u32` and sizes its output from that
/// count, so the input is held to what one frame can carry.
#[verifier::external_body]
fn zx0_compress_quick(input: &[u8]) -> (r: Vec<u8>)
    requires
        0 < input@.len() <= MAX_PAYLOAD,
    ensures
        r@ == zx0_quick(input@),
{
    zx0::Compressor::new().quick_mode(true).compress(input).output
}

/// Whether a chunk goes out compressed: only when compression is enabled, the
/// chunk has the full chunk size and its compressed form is strictly shorter.
pub open spec fn adopts_compression(
    chunk: Seq<u8>,
    compressed: Seq<u8>,
    chunk_size: nat,
    use_compression: bool,
) -> bool {
    use_compression && chunk.len() == chunk_size && compressed.len() < chunk.len()
}

/// The payload sent for a chunk, and whether it is the compressed form.
pub open spec fn payload_for(chunk: Seq<u8>, chunk_size: nat, use_compression: bool) -> (Seq<
    u8,
>, bool) {
    if chunk.len() > 0 && adopts_compression(chunk, zx0_quick(chunk), chunk_size, use_compression) {
        (zx0_quick(chunk), true)
    } else {
        (chunk, false)
    }
}

/// A payload is compressed only when compression is enabled, the chunk has
/// the full chunk size and the compressed form is strictly shorter than it;
/// otherwise, and in particular for a chunk shorter than the chunk size, the
/// payload is the raw chunk.
pub proof fn lemma_compression_policy(chunk: Seq<u8>, chunk_size: nat, use_compression: bool)
    ensures
        payload_for(chunk, chunk_size, use_compression).1 ==> {
            &&& use_compression
            &&& chunk.len() == chunk_size
            &&& payload_for(chunk, chunk_size, use_compression).0 == zx0_quick(chunk)
            &&& zx0_quick(chunk).len() < chunk_size
        },
        !payload_for(chunk, chunk_size, use_compression).1 ==> payload_for(chunk, chunk_size, use_compression).0
            == chunk,
        (!use_compression || chunk.len() < chunk_size) ==> payload_for(chunk, chunk_size, use_compression)
            == (chunk, false),
        (use_compression && chunk.len() == chunk_size && 0 < chunk_size && zx0_quick(chunk).len() < chunk_size)
            ==> payload_for(chunk, chunk_size, use_compression) == (zx0_quick(chunk), true),
{
}

/// Picks between a chunk and a compressed form of it: the compressed form is
/// taken only when `adopts_compression` holds.
pub fn select_payload(chunk: &[u8], compressed: Vec<u8>, chunk_size: usize, use_compression: bool) -> (r: (Vec<u8>, bool))
    ensures
        r.1 == adopts_compression(chunk@, compressed@, chunk_size as nat, use_compression),
        r.0@ == (if r.1 {
            compressed@
        } else {
            chunk@
        }),
{
    if use_compression && chunk.len() == chunk_size && compressed.len() < chunk.len() {
        (compressed, true)
    } else {
        let mut raw: Vec<u8> = Vec::new();
        append_bytes(&mut raw, chunk);
        (raw, false)
    }
}

/// The payload for one chunk: compressed with zx0 where that pays off, the raw
/// chunk otherwise. A chunk shorter than the chunk size is never compressed.
pub fn compress_chunk(chunk: &[u8], chunk_size: usize, use_compression: bool) -> (r: (Vec<u8>, bool))
    requires
        chunk_size <= MAX_PAYLOAD,
    ensures
        (r.0@, r.1) == payload_for(chunk@, chunk_size as nat, use_compression),
        r.1 ==> r.0@.len() < chunk@.len(),
        !r.1 ==> r.0@ == chunk@,
{
    if use_compression && chunk.len() == chunk_size && chunk.len() > 0 {
        let compressed = zx0_compress_quick(chunk);
        select_payload(chunk, compressed, chunk_size, use_compression)
    } else {
        let mut raw: Vec<u8> = Vec::new();
        append_bytes(&mut raw, chunk);
        (raw, false)
    }
}

} // verus!
