//! Images made twice as wide and twice as high, each pixel drawn as a block
//! of two by two.

use vstd::prelude::*;
use crate::error::Error;
use crate::image_file::{is_plain_png, takes_file};
use crate::pixels::{byte_count, channel_at, channel_index, lemma_channel_index};

verus! {

/// The pixels, as `RGBA` bytes row by row, of the image that the bytes of an
/// image file encode, as `image::load_from_memory` reads the file and
/// `image::DynamicImage::to_rgba` converts it; `None` where
/// `load_from_memory` fails.
pub uninterp spec fn decoded_rgba(bytes: Seq<u8>) -> Option<Seq<u8>>;

/// Decodes an image file by `image::load_from_memory` and converts its
/// pixels by `image::DynamicImage::to_rgba`; the result is the buffer of
/// that image, or nothing where decoding failed. What the decoder makes of
/// given bytes is not stated here, only that it depends on the bytes alone.
///
/// Only a file that `takes_file` admits may be handed over. On others the
/// decoder is not known to return: it takes a PNG header whose colour type
/// and bit depth do not go together and then writes beyond its buffer, and
/// its paths for interlaced, paletted and animated PNG files and for other
/// formats are not vouched for here.
#[verifier::external_body]
fn decode_rgba(bytes: &Vec<u8>) -> (r: Option<Vec<u8>>)
    requires
        takes_file(bytes@),
    ensures
        r is Some == decoded_rgba(bytes@) is Some,
        r matches Some(v) ==> decoded_rgba(bytes@) == Some(v@),
{
    match image::load_from_memory(bytes) {
        Ok(decoded) => Some(decoded.to_rgba().into_raw()),
        Err(_) => None,
    }
}

/// What `strip_image_parts` gives for the bytes of an image file: the
/// decoded pixels, if the file is one that the library hands to the decoder
/// and the decoder takes it.
pub open spec fn stripped(bytes: Seq<u8>) -> Option<Seq<u8>> {
    if takes_file(bytes) {
        decoded_rgba(bytes)
    } else {
        None
    }
}

/// The pixels of an image file as `RGBA` bytes, without the file's
/// header and encoding. A file that is no plain PNG file (see `takes_file`)
/// is refused, and so is one that the decoder fails on.
pub fn strip_image_parts(bytes: Vec<u8>) -> (r: Result<Vec<u8>, Error>)
    ensures
        r is Ok == stripped(bytes@) is Some,
        r matches Ok(v) ==> stripped(bytes@) == Some(v@),
        r matches Err(e) ==> e == Error::AssetLoadFailure,
{
    if !is_plain_png(&bytes) {
        return Err(Error::AssetLoadFailure);
    }
    match decode_rgba(&bytes) {
        Some(v) => Ok(v),
        None => Err(Error::AssetLoadFailure),
    }
}

/// The bytes are those of an image of `w` by `h` pixels: four to the pixel,
/// or, with fewer than that but at least three to the pixel, `RGB`.
pub open spec fn holds_image(len: int, w: int, h: int) -> bool {
    byte_count(w, h, 3) <= len <= byte_count(w, h, 4)
}

/// Channel `c`, of four, of a pixel of the image that `bytes` holds: the
/// byte itself where `bytes` has four to the pixel; else `bytes` is `RGB`,
/// and the fourth channel is 255.
pub open spec fn source_channel(bytes: Seq<u8>, w: int, h: int, x: int, y: int, c: int) -> u8 {
    if bytes.len() == byte_count(w, h, 4) {
        channel_at(bytes, w, 4, x, y, c)
    } else if c == 3 {
        255
    } else {
        channel_at(bytes, w, 3, x, y, c)
    }
}

/// `out` is the image that `bytes` holds, as `RGBA` and at twice the size:
/// each of its pixels is the pixel of `bytes` at half its coordinates.
pub open spec fn is_upscaled(out: Seq<u8>, bytes: Seq<u8>, w: int, h: int) -> bool {
    &&& out.len() == byte_count(2 * w, 2 * h, 4)
    &&& forall|x: int, y: int, c: int|
        0 <= x < 2 * w && 0 <= y < 2 * h && 0 <= c < 4 ==> #[trigger] channel_at(
            out,
            2 * w,
            4,
            x,
            y,
            c,
        ) == source_channel(bytes, w, h, x / 2, y / 2, c)
}

/// Channel `c`, of four, of the pixel in column `x` of row `y`.
fn source(bytes: &Vec<u8>, w: usize, h: usize, rgba: bool, x: usize, y: usize, c: usize) -> (r: u8)
    requires
        holds_image(bytes.len() as int, w as int, h as int),
        rgba == (bytes.len() == byte_count(w as int, h as int, 4)),
        x < w,
        y < h,
        c < 4,
    ensures
        r == source_channel(bytes@, w as int, h as int, x as int, y as int, c as int),
{
    proof {
        lemma_channel_index(w as int, h as int, 4, x as int, y as int, c as int);
        if c < 3 {
            lemma_channel_index(w as int, h as int, 3, x as int, y as int, c as int);
        }
        assert(y * w + x <= (y * w + x) * 3) by (nonlinear_arith)
            requires
                y * w + x >= 0,
        ;
        assert(y * w >= 0) by (nonlinear_arith)
            requires
                y >= 0,
                w >= 0,
        ;
        assert((y * w + x) * 3 <= (y * w + x) * 4) by (nonlinear_arith)
            requires
                y * w + x >= 0,
        ;
        lemma_channel_index(w as int, h as int, 3, x as int, y as int, 0);
    }
    if rgba {
        bytes[(y * w + x) * 4 + c]
    } else if c == 3 {
        255
    } else {
        bytes[(y * w + x) * 3 + c]
    }
}

/// The image that `bytes` holds, as `RGBA` bytes and at twice the size:
/// each pixel becomes a block of two by two. `bytes` holds four bytes to the
/// pixel, or, where it is too short for that, three, and then every pixel is
/// opaque.
pub fn upscale(bytes: &Vec<u8>, size: (u32, u32)) -> (out: Vec<u8>)
    requires
        holds_image(bytes.len() as int, size.0 as int, size.1 as int),
        byte_count(2 * size.0, 2 * size.1, 4) <= usize::MAX,
    ensures
        is_upscaled(out@, bytes@, size.0 as int, size.1 as int),
{
    let w = size.0 as usize;
    let h = size.1 as usize;
    let mut out: Vec<u8> = Vec::new();
    if w == 0 || h == 0 {
        proof {
            assert(byte_count(2 * w, 2 * h, 4) == 0) by (nonlinear_arith)
                requires
                    w == 0 || h == 0,
            ;
        }
        return out;
    }
    proof {
        assert(byte_count(w as int, h as int, 4) * 4 == byte_count(2 * w, 2 * h, 4))
            by (nonlinear_arith);
        assert(4 * w <= 4 * w * h) by (nonlinear_arith)
            requires
                h >= 1,
                w >= 0,
        ;
        assert(2 * w <= (2 * w) * (2 * h)) by (nonlinear_arith)
            requires
                h >= 1,
                w >= 0,
        ;
        assert(2 * h <= (2 * w) * (2 * h)) by (nonlinear_arith)
            requires
                w >= 1,
                h >= 0,
        ;
        assert(4 * (2 * w) * (2 * h) == 4 * ((2 * w) * (2 * h))) by (nonlinear_arith);
    }
    let rgba = bytes.len() == 4 * w * h;
    let ghost ww = 2 * w as int;
    let ghost stride = ww * 4;
    let mut y: usize = 0;
    while y < 2 * h
        invariant
            w == size.0,
            h == size.1,
            w >= 1,
            h >= 1,
            ww == 2 * w,
            stride == ww * 4,
            2 * w <= usize::MAX,
            2 * h <= usize::MAX,
            holds_image(bytes.len() as int, w as int, h as int),
            rgba == (bytes.len() == byte_count(w as int, h as int, 4)),
            y <= 2 * h,
            out.len() == y * stride,
            forall|qx: int, qy: int, c: int|
                0 <= qx < ww && 0 <= qy < y && 0 <= c < 4 ==> #[trigger] channel_at(
                    out@,
                    ww,
                    4,
                    qx,
                    qy,
                    c,
                ) == source_channel(bytes@, w as int, h as int, qx / 2, qy / 2, c),
        decreases 2 * h - y,
    {
        let mut x: usize = 0;
        while x < 2 * w
            invariant
                w >= 1,
                h >= 1,
                ww == 2 * w,
                stride == ww * 4,
                2 * w <= usize::MAX,
                holds_image(bytes.len() as int, w as int, h as int),
                rgba == (bytes.len() == byte_count(w as int, h as int, 4)),
                y < 2 * h,
                x <= 2 * w,
                out.len() == y * stride + x * 4,
                forall|qx: int, qy: int, c: int|
                    0 <= qx < ww && 0 <= qy < y && 0 <= c < 4 ==> #[trigger] channel_at(
                        out@,
                        ww,
                        4,
                        qx,
                        qy,
                        c,
                    ) == source_channel(bytes@, w as int, h as int, qx / 2, qy / 2, c),
                forall|qx: int, c: int|
                    0 <= qx < x && 0 <= c < 4 ==> #[trigger] channel_at(
                        out@,
                        ww,
                        4,
                        qx,
                        y as int,
                        c,
                    ) == source_channel(bytes@, w as int, h as int, qx / 2, y as int / 2, c),
            decreases 2 * w - x,
        {
            let ghost before = out@;
            let r = source(bytes, w, h, rgba, x / 2, y / 2, 0);
            let g = source(bytes, w, h, rgba, x / 2, y / 2, 1);
            let b = source(bytes, w, h, rgba, x / 2, y / 2, 2);
            let a = source(bytes, w, h, rgba, x / 2, y / 2, 3);
            out.push(r);
            out.push(g);
            out.push(b);
            out.push(a);
            proof {
                assert forall|qx: int, qy: int, c: int|
                    0 <= qx < ww && 0 <= qy < y && 0 <= c < 4 implies #[trigger] channel_at(
                    out@,
                    ww,
                    4,
                    qx,
                    qy,
                    c,
                ) == source_channel(bytes@, w as int, h as int, qx / 2, qy / 2, c) by {
                    lemma_channel_index(ww, y as int, 4, qx, qy, c);
                    assert(channel_at(before, ww, 4, qx, qy, c) == source_channel(
                        bytes@,
                        w as int,
                        h as int,
                        qx / 2,
                        qy / 2,
                        c,
                    ));
                    assert(out@[channel_index(ww, 4, qx, qy, c)] == before[channel_index(
                        ww,
                        4,
                        qx,
                        qy,
                        c,
                    )]);
                }
                assert forall|qx: int, c: int|
                    0 <= qx < x + 1 && 0 <= c < 4 implies #[trigger] channel_at(
                    out@,
                    ww,
                    4,
                    qx,
                    y as int,
                    c,
                ) == source_channel(bytes@, w as int, h as int, qx / 2, y as int / 2, c) by {
                    lemma_channel_index(ww, y as int + 1, 4, qx, y as int, c);
                    if qx < x {
                        assert(channel_at(before, ww, 4, qx, y as int, c) == source_channel(
                            bytes@,
                            w as int,
                            h as int,
                            qx / 2,
                            y as int / 2,
                            c,
                        ));
                        assert(out@[channel_index(ww, 4, qx, y as int, c)] == before[channel_index(
                            ww,
                            4,
                            qx,
                            y as int,
                            c,
                        )]);
                    }
                }
            }
            x += 1;
        }
        proof {
            assert((y + 1) * stride == y * stride + stride) by (nonlinear_arith);
        }
        y += 1;
    }
    proof {
        assert((2 * h) * stride == byte_count(2 * w, 2 * h, 4)) by (nonlinear_arith)
            requires
                stride == 2 * w * 4,
        ;
    }
    out
}

/// The pixels of an image at twice its size, as `RGBA` bytes. `bytes` is an
/// image file, or, if `is_raw`, the pixels themselves; `size` is the width
/// and height that the image is taken to have. A file that is no plain PNG
/// file or cannot be decoded is refused, and so are pixels that are not
/// those of an image of that size.
pub fn scale(bytes: Vec<u8>, size: (u32, u32), is_raw: bool) -> (r: Result<Vec<u8>, Error>)
    requires
        byte_count(2 * size.0, 2 * size.1, 4) <= usize::MAX,
    ensures
        r is Ok == (pixels_of(bytes@, is_raw) matches Some(p) && holds_image(
            p.len() as int,
            size.0 as int,
            size.1 as int,
        )),
        r matches Ok(out) ==> is_upscaled(
            out@,
            pixels_of(bytes@, is_raw)->0,
            size.0 as int,
            size.1 as int,
        ),
        r matches Err(e) ==> e == Error::AssetLoadFailure,
{
    let pixels = if is_raw {
        bytes
    } else {
        match strip_image_parts(bytes) {
            Ok(v) => v,
            Err(e) => {
                return Err(e);
            },
        }
    };
    let w = size.0 as usize;
    let h = size.1 as usize;
    proof {
        assert(byte_count(w as int, h as int, 4) * 4 == byte_count(2 * w, 2 * h, 4))
            by (nonlinear_arith);
        assert(byte_count(w as int, h as int, 4) == 4 * (w * h)) by (nonlinear_arith);
        assert(byte_count(w as int, h as int, 3) == 3 * (w * h)) by (nonlinear_arith);
        assert(w * h >= 0) by (nonlinear_arith)
            requires
                w >= 0,
                h >= 0,
        ;
    }
    let count = w * h;
    if 3 * count <= pixels.len() && pixels.len() <= 4 * count {
        Ok(upscale(&pixels, size))
    } else {
        Err(Error::AssetLoadFailure)
    }
}

/// The pixels that `scale` works on: the bytes themselves if `is_raw`, else
/// what `strip_image_parts` gives for them.
pub open spec fn pixels_of(bytes: Seq<u8>, is_raw: bool) -> Option<Seq<u8>> {
    if is_raw {
        Some(bytes)
    } else {
        stripped(bytes)
    }
}

} // verus!
