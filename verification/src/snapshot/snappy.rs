//! Compression of the archive stream in the Snappy frame format.

use std::io::{Read, Write};
use vstd::prelude::*;

verus! {

/// The frames that the compressor emits for `data` written in one piece.
pub uninterp spec fn snap_frame(data: Seq<u8>) -> Seq<u8>;

/// What reading `framed` to its end gives: the bytes that could be
/// decompressed, and whether the end was reached without an error.
pub uninterp spec fn snap_decode(framed: Seq<u8>) -> (Seq<u8>, bool);

/// The length that the chunk header at `pos` gives: three bytes, least
/// significant first, after the byte that tells what the chunk is.
pub open spec fn chunk_len(framed: Seq<u8>, pos: int) -> nat {
    framed[pos + 1] as nat + 256 * (framed[pos + 2] as nat) + 65536 * (framed[pos + 3] as nat)
}

/// Whether every chunk of data from `pos` on is long enough to hold its
/// checksum. Chunks follow each other, each after a header of four bytes:
/// a byte that tells what the chunk is, then its length. A chunk whose first
/// byte is 0 (compressed data) or 1 (plain data) starts with four bytes of
/// checksum, so its length is four at least. What is left after the last
/// whole header is no chunk, and no chunk follows one that reaches past the
/// end.
pub open spec fn chunks_hold_checksum(framed: Seq<u8>, pos: int) -> bool
    decreases framed.len() - pos,
{
    if pos < 0 || pos + 4 > framed.len() {
        true
    } else {
        &&& framed[pos] == 0 || framed[pos] == 1 ==> chunk_len(framed, pos) >= 4
        &&& pos + 4 + chunk_len(framed, pos) <= framed.len() ==> chunks_hold_checksum(
            framed,
            pos + 4 + chunk_len(framed, pos),
        )
    }
}

/// Whether every chunk of data in `framed` is long enough to hold its
/// checksum. Only such bytes are handed to the decompressor.
pub fn frames_ok(framed: &[u8]) -> (ok: bool)
    ensures
        ok == chunks_hold_checksum(framed@, 0),
{
    let mut pos: usize = 0;
    while framed.len() - pos >= 4
        invariant
            pos <= framed@.len(),
            chunks_hold_checksum(framed@, 0) == chunks_hold_checksum(framed@, pos as int),
        decreases framed@.len() - pos,
    {
        let kind = framed[pos];
        let len: usize = framed[pos + 1] as usize + 256 * (framed[pos + 2] as usize) + 65536 * (
        framed[pos + 3] as usize);
        if (kind == 0 || kind == 1) && len < 4 {
            return false;
        }
        if len > framed.len() - pos - 4 {
            return true;
        }
        pos = pos + 4 + len;
    }
    true
}

/// `snap::Writer` over a vector: `new`, one `write_all` of the whole data,
/// and `into_inner`, which flushes. Reading the frames back gives the data,
/// and every chunk that is written holds its checksum.
#[verifier::external_body]
pub(crate) fn compress(data: &[u8]) -> (framed: Vec<u8>)
    ensures
        framed@ == snap_frame(data@),
        snap_decode(framed@) == (data@, true),
        chunks_hold_checksum(framed@, 0),
{
    let mut writer = snap::Writer::new(Vec::new());
    let _ = writer.write_all(data);
    match writer.into_inner() {
        Ok(framed) => framed,
        Err(_) => Vec::new(),
    }
}

/// `snap::Reader` over a slice, read to its end with `read_to_end`: the
/// bytes read before the end or the first error, and whether no error came.
/// The reader takes the checksum off the length of a chunk of data without
/// looking at the length first, so chunks too short for it are kept away.
#[verifier::external_body]
pub(crate) fn decompress(framed: &[u8]) -> (out: (Vec<u8>, bool))
    requires
        chunks_hold_checksum(framed@, 0),
    ensures
        (out.0@, out.1) == snap_decode(framed@),
{
    let mut reader = snap::Reader::new(framed);
    let mut data = Vec::new();
    let intact = reader.read_to_end(&mut data).is_ok();
    (data, intact)
}

} // verus!
