//! Which image files the library hands to the decoder: plain PNG files,
//! told by their signature, their header and the kinds of their chunks.
//!
//! A PNG file is a signature of eight bytes and then chunks. A chunk is a
//! length of four bytes, a kind of four bytes, as many bytes of data as the
//! length says, and a checksum of four bytes. The first chunk is the header.

use vstd::prelude::*;

verus! {

/// The largest width and height of an image that is decoded.
pub const MAX_IMAGE_SIDE: u32 = 4096;

/// Where the header's chunk begins: after the signature.
pub const HEADER_AT: usize = 8;

/// Where the chunk after the header begins.
pub const CHUNKS_AT: usize = 33;

/// The number that the four bytes from `at` on spell, the first byte
/// counting most.
pub open spec fn be32(bytes: Seq<u8>, at: int) -> nat {
    (bytes[at] * 0x100_0000 + bytes[at + 1] * 0x1_0000 + bytes[at + 2] * 0x100 + bytes[at + 3]) as nat
}

/// The file begins with the signature of PNG.
pub open spec fn has_signature(bytes: Seq<u8>) -> bool {
    &&& bytes.len() >= 8
    &&& bytes[0] == 137
    &&& bytes[1] == 80
    &&& bytes[2] == 78
    &&& bytes[3] == 71
    &&& bytes[4] == 13
    &&& bytes[5] == 10
    &&& bytes[6] == 26
    &&& bytes[7] == 10
}

/// The chunk at `at` is of the kind that the four letters spell.
pub open spec fn kind_is(bytes: Seq<u8>, at: int, a: u8, b: u8, c: u8, d: u8) -> bool {
    bytes[at + 4] == a && bytes[at + 5] == b && bytes[at + 6] == c && bytes[at + 7] == d
}

/// The first chunk is a header of thirteen bytes that tells of an image of
/// 1 to `MAX_IMAGE_SIDE` pixels each way, with eight bits to the sample, in
/// grey or in colour, with or without alpha, compressed and filtered in the
/// one way that PNG knows, and not interlaced.
pub open spec fn has_plain_header(bytes: Seq<u8>) -> bool {
    &&& bytes.len() >= CHUNKS_AT
    &&& be32(bytes, HEADER_AT as int) == 13
    &&& kind_is(bytes, HEADER_AT as int, 73, 72, 68, 82)
    &&& 1 <= be32(bytes, 16) <= MAX_IMAGE_SIDE
    &&& 1 <= be32(bytes, 20) <= MAX_IMAGE_SIDE
    &&& bytes[24] == 8
    &&& (bytes[25] == 0 || bytes[25] == 2 || bytes[25] == 4 || bytes[25] == 6)
    &&& bytes[26] == 0
    &&& bytes[27] == 0
    &&& bytes[28] == 0
}

/// The chunk at `at` is of a kind that is not taken after the header: a
/// second header (`IHDR`), a palette (`PLTE`), transparency (`tRNS`), or one
/// of the chunks of an animation (`acTL`, `fcTL`, `fdAT`).
pub open spec fn is_refused_chunk(bytes: Seq<u8>, at: int) -> bool {
    ||| kind_is(bytes, at, 73, 72, 68, 82)
    ||| kind_is(bytes, at, 80, 76, 84, 69)
    ||| kind_is(bytes, at, 116, 82, 78, 83)
    ||| kind_is(bytes, at, 97, 99, 84, 76)
    ||| kind_is(bytes, at, 102, 99, 84, 76)
    ||| kind_is(bytes, at, 102, 100, 65, 84)
}

/// The chunk at `at` ends the image (`IEND`).
pub open spec fn is_end_chunk(bytes: Seq<u8>, at: int) -> bool {
    kind_is(bytes, at, 73, 69, 78, 68)
}

/// None of the chunks from `at` on, up to the one that ends the image or to
/// the end of the file, is of a refused kind.
pub open spec fn chunks_taken(bytes: Seq<u8>, at: int) -> bool
    decreases bytes.len() - at,
{
    if at < 0 || at + 8 > bytes.len() {
        true
    } else if is_refused_chunk(bytes, at) {
        false
    } else if is_end_chunk(bytes, at) {
        true
    } else if at + 12 + be32(bytes, at) > bytes.len() {
        // the chunk runs beyond the end of the file: no chunk follows it
        true
    } else {
        chunks_taken(bytes, at + 12 + be32(bytes, at))
    }
}

/// The file is one that the library hands to the decoder: it has the
/// signature of PNG, a plain header, and after it no chunk of a refused
/// kind.
pub open spec fn takes_file(bytes: Seq<u8>) -> bool {
    has_signature(bytes) && has_plain_header(bytes) && chunks_taken(bytes, CHUNKS_AT as int)
}

/// The number that the four bytes from `at` on spell.
fn read_be32(bytes: &Vec<u8>, at: usize) -> (r: u32)
    requires
        at + 4 <= bytes.len(),
    ensures
        r == be32(bytes@, at as int),
{
    let a = bytes[at] as u32;
    let b = bytes[at + 1] as u32;
    let c = bytes[at + 2] as u32;
    let d = bytes[at + 3] as u32;
    a * 0x100_0000 + b * 0x1_0000 + c * 0x100 + d
}

/// Whether the chunk at `at` is of the kind that the four letters spell.
fn kind_equals(bytes: &Vec<u8>, at: usize, a: u8, b: u8, c: u8, d: u8) -> (r: bool)
    requires
        at + 8 <= bytes.len(),
    ensures
        r == kind_is(bytes@, at as int, a, b, c, d),
{
    bytes[at + 4] == a && bytes[at + 5] == b && bytes[at + 6] == c && bytes[at + 7] == d
}

/// Whether the file begins with the signature of PNG and a plain header.
fn begins_plainly(bytes: &Vec<u8>) -> (r: bool)
    ensures
        r == (has_signature(bytes@) && has_plain_header(bytes@)),
{
    if bytes.len() < CHUNKS_AT {
        return false;
    }
    if !(bytes[0] == 137 && bytes[1] == 80 && bytes[2] == 78 && bytes[3] == 71 && bytes[4] == 13
        && bytes[5] == 10 && bytes[6] == 26 && bytes[7] == 10) {
        return false;
    }
    if read_be32(bytes, HEADER_AT) != 13 || !kind_equals(bytes, HEADER_AT, 73, 72, 68, 82) {
        return false;
    }
    let width = read_be32(bytes, 16);
    let height = read_be32(bytes, 20);
    if width < 1 || width > MAX_IMAGE_SIDE || height < 1 || height > MAX_IMAGE_SIDE {
        return false;
    }
    let colour = bytes[25];
    bytes[24] == 8 && (colour == 0 || colour == 2 || colour == 4 || colour == 6) && bytes[26] == 0
        && bytes[27] == 0 && bytes[28] == 0
}

/// Whether the file is one that the library hands to the decoder.
pub fn is_plain_png(bytes: &Vec<u8>) -> (r: bool)
    ensures
        r == takes_file(bytes@),
{
    if !begins_plainly(bytes) {
        return false;
    }
    let mut at: usize = CHUNKS_AT;
    while at <= bytes.len() && bytes.len() - at >= 8
        invariant
            CHUNKS_AT <= at,
            has_signature(bytes@),
            has_plain_header(bytes@),
            chunks_taken(bytes@, CHUNKS_AT as int) == chunks_taken(bytes@, at as int),
        decreases bytes.len() - at,
    {
        if kind_equals(bytes, at, 73, 72, 68, 82) || kind_equals(bytes, at, 80, 76, 84, 69)
            || kind_equals(bytes, at, 116, 82, 78, 83) || kind_equals(bytes, at, 97, 99, 84, 76)
            || kind_equals(bytes, at, 102, 99, 84, 76) || kind_equals(
            bytes,
            at,
            102,
            100,
            65,
            84,
        ) {
            return false;
        }
        if kind_equals(bytes, at, 73, 69, 78, 68) {
            return true;
        }
        let length = read_be32(bytes, at) as u64;
        let left = (bytes.len() - at) as u64;
        if length + 12 > left {
            return true;
        }
        at = at + 12 + length as usize;
    }
    true
}

} // verus!
