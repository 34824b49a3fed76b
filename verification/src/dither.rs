//! Images drawn with two shades to the channel: each pixel becomes a block
//! of two by two, of which as many are lit in a channel as the channel is
//! bright, at places chosen by chance.

use vstd::prelude::*;
use crate::chance::shuffle;
use crate::error::Error;
use crate::image_file::{is_plain_png, takes_file};
use crate::pixels::{byte_count, channel_at, lemma_channel_index, lemma_channel_index_distinct};
use crate::upscaling::{is_upscaled, upscale};

verus! {

/// The number of the four places of a block that are lit for a channel of
/// brightness `v`: `v` in quarters of 255, rounded to the nearest.
pub open spec fn lit(v: u8) -> int {
    (8 * v + 255) / 510
}

/// The number of the four places of a block that are lit for a channel of
/// brightness `v`.
pub fn lit_count(v: u8) -> (r: u8)
    ensures
        r == lit(v),
        r <= 4,
{
    ((8 * (v as u32) + 255) / 510) as u8
}

/// Four places of which the first `n` are lit.
pub open spec fn shades(n: int) -> Seq<u8> {
    Seq::new(
        4,
        |k: int|
            if k < n {
                255u8
            } else {
                0u8
            },
    )
}

/// Channel `c` of the four pixels of the block that stands for the pixel in
/// column `x` of row `y`, in the order left above, left below, right above,
/// right below.
pub open spec fn block(out: Seq<u8>, width: int, x: int, y: int, c: int) -> Seq<u8> {
    Seq::new(4, |k: int| channel_at(out, width, 3, 2 * x + k / 2, 2 * y + k % 2, c))
}

/// `out` is an `RGB` image of `ow` by `oh` pixels that shows the `RGB` image
/// `raw`, of `w` by `h` pixels, in its upper left corner: in each channel,
/// the block of each pixel of `raw` has as many places lit as `lit` says of
/// the pixel, in some order, and the rest of `out` is black.
pub open spec fn is_dithered(out: Seq<u8>, raw: Seq<u8>, w: int, h: int, ow: int, oh: int) -> bool {
    &&& out.len() == byte_count(ow, oh, 3)
    &&& forall|x: int, y: int, c: int|
        0 <= x < w && 0 <= y < h && 0 <= c < 3 ==> (#[trigger] block(out, ow, x, y, c)).to_multiset()
            == shades(lit(channel_at(raw, w, 3, x, y, c))).to_multiset()
    &&& forall|x: int, y: int, c: int|
        0 <= x < ow && 0 <= y < oh && 0 <= c < 3 && (x >= 2 * w || y >= 2 * h)
            ==> #[trigger] channel_at(out, ow, 3, x, y, c) == 0
}

/// The size and the pixels, as `RGB` bytes row by row, of the image that the
/// bytes of an image file encode, as `image::load_from_memory` reads the
/// file and `image::DynamicImage::into_rgb` converts it; `None` where
/// `load_from_memory` fails.
pub uninterp spec fn decoded_rgb(bytes: Seq<u8>) -> Option<(u32, u32, Seq<u8>)>;

/// Decodes an image file by `image::load_from_memory` and converts its
/// pixels by `image::DynamicImage::into_rgb`; the result is the width, the
/// height and the buffer of that image, or nothing where decoding failed.
/// What the decoder makes of given bytes is not stated here, only that it
/// depends on the bytes alone.
///
/// Only a file that `takes_file` admits may be handed over. On others the
/// decoder is not known to return: it takes a PNG header whose colour type
/// and bit depth do not go together and then writes beyond its buffer, and
/// its paths for interlaced, paletted and animated PNG files and for other
/// formats are not vouched for here.
#[verifier::external_body]
fn decode_rgb(bytes: &Vec<u8>) -> (r: Option<(u32, u32, Vec<u8>)>)
    requires
        takes_file(bytes@),
    ensures
        r is Some == decoded_rgb(bytes@) is Some,
        r matches Some(d) ==> decoded_rgb(bytes@) == Some((d.0, d.1, d.2@)),
{
    match image::load_from_memory(bytes) {
        Ok(decoded) => {
            let rgb = decoded.into_rgb();
            Some((rgb.width(), rgb.height(), rgb.into_raw()))
        },
        Err(_) => None,
    }
}

/// Four places of which the first `count` are lit.
fn shades_of(count: u8) -> (r: Vec<u8>)
    ensures
        r@ == shades(count as int),
{
    let mut places: Vec<u8> = Vec::new();
    let mut k: u8 = 0;
    while k < 4
        invariant
            k <= 4,
            places.len() == k,
            forall|j: int|
                0 <= j < k ==> #[trigger] places[j] == (if j < count {
                    255u8
                } else {
                    0u8
                }),
        decreases 4 - k,
    {
        places.push(if k < count {
            255
        } else {
            0
        });
        k += 1;
    }
    assert(places@ =~= shades(count as int));
    places
}

/// Sets channel `c` of the pixel in column `x` of row `y`.
fn put(out: &mut Vec<u8>, width: usize, height: usize, x: usize, y: usize, c: usize, v: u8)
    requires
        old(out).len() == byte_count(width as int, height as int, 3),
        x < width,
        y < height,
        c < 3,
    ensures
        final(out).len() == old(out).len(),
        channel_at(final(out)@, width as int, 3, x as int, y as int, c as int) == v,
        forall|qx: int, qy: int, qc: int|
            0 <= qx < width && 0 <= qy < height && 0 <= qc < 3 && (qx != x || qy != y || qc != c)
                ==> #[trigger] channel_at(final(out)@, width as int, 3, qx, qy, qc) == channel_at(
                old(out)@,
                width as int,
                3,
                qx,
                qy,
                qc,
            ),
{
    proof {
        lemma_channel_index(width as int, height as int, 3, x as int, y as int, c as int);
        lemma_channel_index(width as int, height as int, 3, x as int, y as int, 0);
        assert(y * width >= 0) by (nonlinear_arith)
            requires
                y >= 0,
                width >= 0,
        ;
        assert(y * width + x <= (y * width + x) * 3) by (nonlinear_arith)
            requires
                y * width + x >= 0,
        ;
    }
    let index = (y * width + x) * 3 + c;
    out[index] = v;
    proof {
        assert forall|qx: int, qy: int, qc: int|
            0 <= qx < width && 0 <= qy < height && 0 <= qc < 3 && (qx != x || qy != y || qc
                != c) implies #[trigger] channel_at(out@, width as int, 3, qx, qy, qc)
            == channel_at(old(out)@, width as int, 3, qx, qy, qc) by {
            lemma_channel_index_distinct(
                width as int,
                3,
                qx,
                qy,
                qc,
                x as int,
                y as int,
                c as int,
            );
            lemma_channel_index(width as int, height as int, 3, qx, qy, qc);
        }
    }
}

/// The channel `c` of the pixel `(x, y)` lies in the block of the pixel
/// `(bx, by)`, in channel `bc`.
pub open spec fn in_block(x: int, y: int, c: int, bx: int, by: int, bc: int) -> bool {
    2 * bx <= x <= 2 * bx + 1 && 2 * by <= y <= 2 * by + 1 && c == bc
}

/// Puts the four values `places` at channel `c` of the block that stands
/// for the pixel in column `x` of row `y`: left above, left below, right
/// above, right below, in that order. Nothing else of the image changes.
pub fn place_block(
    out: &mut Vec<u8>,
    width: usize,
    height: usize,
    x: usize,
    y: usize,
    c: usize,
    places: &Vec<u8>,
)
    requires
        old(out).len() == byte_count(width as int, height as int, 3),
        2 * x + 1 < width,
        2 * y + 1 < height,
        c < 3,
        places.len() == 4,
    ensures
        final(out).len() == old(out).len(),
        block(final(out)@, width as int, x as int, y as int, c as int) == places@,
        forall|qx: int, qy: int, qc: int|
            0 <= qx < width && 0 <= qy < height && 0 <= qc < 3 && !in_block(
                qx,
                qy,
                qc,
                x as int,
                y as int,
                c as int,
            ) ==> #[trigger] channel_at(final(out)@, width as int, 3, qx, qy, qc) == channel_at(
                old(out)@,
                width as int,
                3,
                qx,
                qy,
                qc,
            ),
{
    put(out, width, height, 2 * x, 2 * y, c, places[0]);
    put(out, width, height, 2 * x, 2 * y + 1, c, places[1]);
    put(out, width, height, 2 * x + 1, 2 * y, c, places[2]);
    put(out, width, height, 2 * x + 1, 2 * y + 1, c, places[3]);
    assert(block(out@, width as int, x as int, y as int, c as int) =~= places@);
}

/// Draws channel `c` of the block that stands for the pixel in column `x` of
/// row `y`, for a channel of brightness `v`: as many places as `lit` says
/// are lit, in an order drawn by chance.
fn dither_channel(out: &mut Vec<u8>, width: usize, height: usize, x: usize, y: usize, c: usize, v: u8)
    requires
        old(out).len() == byte_count(width as int, height as int, 3),
        2 * x + 1 < width,
        2 * y + 1 < height,
        c < 3,
    ensures
        final(out).len() == old(out).len(),
        block(final(out)@, width as int, x as int, y as int, c as int).to_multiset() == shades(
            lit(v),
        ).to_multiset(),
        forall|qx: int, qy: int, qc: int|
            0 <= qx < width && 0 <= qy < height && 0 <= qc < 3 && !in_block(
                qx,
                qy,
                qc,
                x as int,
                y as int,
                c as int,
            ) ==> #[trigger] channel_at(final(out)@, width as int, 3, qx, qy, qc) == channel_at(
                old(out)@,
                width as int,
                3,
                qx,
                qy,
                qc,
            ),
{
    let count = lit_count(v);
    let mut places = shades_of(count);
    shuffle(&mut places);
    proof {
        places@.to_multiset_ensures();
        shades(lit(v)).to_multiset_ensures();
    }
    place_block(out, width, height, x, y, c, &places);
}

/// The `RGB` image `raw`, of `size.0` by `size.1` pixels, drawn with two
/// shades to the channel into the upper left corner of a black `RGB` image
/// of `out_size.0` by `out_size.1` pixels: each pixel becomes a block of two
/// by two, and of the four places of the block as many are lit in each
/// channel as the channel has quarters of 255, at places chosen by chance.
pub fn dither(raw: &Vec<u8>, size: (u32, u32), out_size: (u32, u32)) -> (out: Vec<u8>)
    requires
        raw.len() == byte_count(size.0 as int, size.1 as int, 3),
        2 * size.0 <= out_size.0,
        2 * size.1 <= out_size.1,
        byte_count(out_size.0 as int, out_size.1 as int, 3) <= usize::MAX,
    ensures
        is_dithered(
            out@,
            raw@,
            size.0 as int,
            size.1 as int,
            out_size.0 as int,
            out_size.1 as int,
        ),
{
    let w = size.0 as usize;
    let h = size.1 as usize;
    let ow = out_size.0 as usize;
    let oh = out_size.1 as usize;
    proof {
        assert(byte_count(ow as int, oh as int, 3) == 3 * (ow * oh)) by (nonlinear_arith);
        assert(ow * oh >= 0) by (nonlinear_arith)
            requires
                ow >= 0,
                oh >= 0,
        ;
    }
    let mut out: Vec<u8> = vec![0u8; 3 * (ow * oh)];
    proof {
        assert forall|x: int, y: int, c: int|
            0 <= x < ow && 0 <= y < oh && 0 <= c < 3 implies #[trigger] channel_at(
            out@,
            ow as int,
            3,
            x,
            y,
            c,
        ) == 0 by {
            lemma_channel_index(ow as int, oh as int, 3, x, y, c);
        }
    }
    let mut y: usize = 0;
    while y < h
        invariant
            w == size.0,
            h == size.1,
            ow == out_size.0,
            oh == out_size.1,
            2 * w <= ow,
            2 * h <= oh,
            raw.len() == byte_count(w as int, h as int, 3),
            out.len() == byte_count(ow as int, oh as int, 3),
            y <= h,
            forall|qx: int, qy: int, qc: int|
                0 <= qx < w && 0 <= qy < y && 0 <= qc < 3 ==> (#[trigger] block(
                    out@,
                    ow as int,
                    qx,
                    qy,
                    qc,
                )).to_multiset() == shades(lit(channel_at(raw@, w as int, 3, qx, qy, qc))).to_multiset(),
            forall|qx: int, qy: int, qc: int|
                0 <= qx < ow && 0 <= qy < oh && 0 <= qc < 3 && (qx >= 2 * w || qy >= 2 * h)
                    ==> #[trigger] channel_at(out@, ow as int, 3, qx, qy, qc) == 0,
        decreases h - y,
    {
        let mut x: usize = 0;
        while x < w
            invariant
                2 * w <= ow,
                2 * h <= oh,
                raw.len() == byte_count(w as int, h as int, 3),
                out.len() == byte_count(ow as int, oh as int, 3),
                y < h,
                x <= w,
                forall|qx: int, qy: int, qc: int|
                    0 <= qx < w && 0 <= qy < h && 0 <= qc < 3 && (qy < y || (qy == y && qx < x))
                        ==> (#[trigger] block(out@, ow as int, qx, qy, qc)).to_multiset() == shades(
                        lit(channel_at(raw@, w as int, 3, qx, qy, qc)),
                    ).to_multiset(),
                forall|qx: int, qy: int, qc: int|
                    0 <= qx < ow && 0 <= qy < oh && 0 <= qc < 3 && (qx >= 2 * w || qy >= 2 * h)
                        ==> #[trigger] channel_at(out@, ow as int, 3, qx, qy, qc) == 0,
            decreases w - x,
        {
            let mut c: usize = 0;
            while c < 3
                invariant
                    2 * w <= ow,
                    2 * h <= oh,
                    raw.len() == byte_count(w as int, h as int, 3),
                    out.len() == byte_count(ow as int, oh as int, 3),
                    y < h,
                    x < w,
                    c <= 3,
                    forall|qx: int, qy: int, qc: int|
                        0 <= qx < w && 0 <= qy < h && 0 <= qc < 3 && (qy < y || (qy == y && (qx < x
                            || (qx == x && qc < c)))) ==> (#[trigger] block(
                            out@,
                            ow as int,
                            qx,
                            qy,
                            qc,
                        )).to_multiset() == shades(
                            lit(channel_at(raw@, w as int, 3, qx, qy, qc)),
                        ).to_multiset(),
                    forall|qx: int, qy: int, qc: int|
                        0 <= qx < ow && 0 <= qy < oh && 0 <= qc < 3 && (qx >= 2 * w || qy >= 2 * h)
                            ==> #[trigger] channel_at(out@, ow as int, 3, qx, qy, qc) == 0,
                decreases 3 - c,
            {
                proof {
                    lemma_channel_index(w as int, h as int, 3, x as int, y as int, c as int);
                    lemma_channel_index(w as int, h as int, 3, x as int, y as int, 0);
                    assert(y * w >= 0) by (nonlinear_arith)
                        requires
                            y >= 0,
                            w >= 0,
                    ;
                    assert(y * w + x <= (y * w + x) * 3) by (nonlinear_arith)
                        requires
                            y * w + x >= 0,
                    ;
                }
                let v = raw[(y * w + x) * 3 + c];
                let ghost before = out@;
                dither_channel(&mut out, ow, oh, x, y, c, v);
                proof {
                    assert forall|qx: int, qy: int, qc: int|
                        0 <= qx < w && 0 <= qy < h && 0 <= qc < 3 && (qy < y || (qy == y && (qx < x
                            || (qx == x && qc < c)))) implies (#[trigger] block(
                        out@,
                        ow as int,
                        qx,
                        qy,
                        qc,
                    )).to_multiset() == shades(
                        lit(channel_at(raw@, w as int, 3, qx, qy, qc)),
                    ).to_multiset() by {
                        let now = block(out@, ow as int, qx, qy, qc);
                        let was = block(before, ow as int, qx, qy, qc);
                        assert forall|k: int| 0 <= k < 4 implies now[k] == was[k] by {
                            assert(!in_block(
                                2 * qx + k / 2,
                                2 * qy + k % 2,
                                qc,
                                x as int,
                                y as int,
                                c as int,
                            ));
                            assert(channel_at(out@, ow as int, 3, 2 * qx + k / 2, 2 * qy + k % 2, qc)
                                == channel_at(
                                before,
                                ow as int,
                                3,
                                2 * qx + k / 2,
                                2 * qy + k % 2,
                                qc,
                            ));
                        }
                        assert(now =~= was);
                    }
                    assert forall|qx: int, qy: int, qc: int|
                        0 <= qx < ow && 0 <= qy < oh && 0 <= qc < 3 && (qx >= 2 * w || qy >= 2
                            * h) implies #[trigger] channel_at(out@, ow as int, 3, qx, qy, qc)
                        == 0 by {
                        assert(!in_block(qx, qy, qc, x as int, y as int, c as int));
                        assert(channel_at(before, ow as int, 3, qx, qy, qc) == 0);
                    }
                }
                c += 1;
            }
            x += 1;
        }
        y += 1;
    }
    out
}

/// What is dithered of the bytes of an image file: the decoded image, if the
/// file is one that the library hands to the decoder and the decoder takes
/// it.
pub open spec fn loaded_rgb(bytes: Seq<u8>) -> Option<(u32, u32, Seq<u8>)> {
    if takes_file(bytes) {
        decoded_rgb(bytes)
    } else {
        None
    }
}

/// The image of an image file, drawn with two shades to the channel into
/// the upper left corner of a black `RGB` image of `out_size.0` by
/// `out_size.1` pixels. A file that is no plain PNG file (see `takes_file`)
/// or cannot be decoded is refused, and so is one whose image does not fit
/// at twice its size.
pub fn dither_image(bytes: &Vec<u8>, out_size: (u32, u32)) -> (r: Result<Vec<u8>, Error>)
    requires
        byte_count(out_size.0 as int, out_size.1 as int, 3) <= usize::MAX,
    ensures
        r is Ok == (loaded_rgb(bytes@) matches Some(d) && can_dither(d, out_size)),
        r matches Ok(out) ==> shows(out@, loaded_rgb(bytes@), out_size),
        r matches Err(e) ==> e == Error::AssetLoadFailure,
{
    if !is_plain_png(bytes) {
        return Err(Error::AssetLoadFailure);
    }
    match decode_rgb(bytes) {
        None => Err(Error::AssetLoadFailure),
        Some((width, height, raw)) => {
            if width > out_size.0 / 2 || height > out_size.1 / 2 {
                return Err(Error::AssetLoadFailure);
            }
            proof {
                assert(byte_count(width as int, height as int, 3) == 3 * (width * height))
                    by (nonlinear_arith);
                assert(0 <= width * height <= out_size.0 * out_size.1) by (nonlinear_arith)
                    requires
                        0 <= width <= out_size.0,
                        0 <= height <= out_size.1,
                ;
                assert(byte_count(out_size.0 as int, out_size.1 as int, 3) == 3 * (out_size.0
                    * out_size.1)) by (nonlinear_arith);
            }
            if raw.len() != 3 * (width as usize * height as usize) {
                return Err(Error::AssetLoadFailure);
            }
            Ok(dither(&raw, (width, height), out_size))
        },
    }
}

/// `out` is an image of size `out_size` that shows the decoded image with
/// two shades to the channel.
pub open spec fn shows(out: Seq<u8>, decoded: Option<(u32, u32, Seq<u8>)>, out_size: (u32, u32)) -> bool {
    match decoded {
        Some((width, height, raw)) => is_dithered(
            out,
            raw,
            width as int,
            height as int,
            out_size.0 as int,
            out_size.1 as int,
        ),
        None => false,
    }
}

/// The decoded image can be drawn at twice its size within `out_size`: its
/// buffer has three bytes to the pixel, and twice its width and height are
/// within `out_size`.
pub open spec fn can_dither(d: (u32, u32, Seq<u8>), out_size: (u32, u32)) -> bool {
    &&& d.2.len() == byte_count(d.0 as int, d.1 as int, 3)
    &&& 2 * d.0 <= out_size.0
    &&& 2 * d.1 <= out_size.1
}

/// `out` is `dithered` at twice its size, and `dithered` shows the decoded
/// image with two shades to the channel, in `TILE` by `TILE` pixels.
pub open spec fn is_block_image_by(
    out: Seq<u8>,
    decoded: Option<(u32, u32, Seq<u8>)>,
    dithered: Seq<u8>,
) -> bool {
    shows(dithered, decoded, (TILE, TILE)) && is_upscaled(out, dithered, TILE as int, TILE as int)
}

/// `out` is, at twice its size, some image of `TILE` by `TILE` pixels that
/// shows the decoded image with two shades to the channel.
pub open spec fn is_block_image(out: Seq<u8>, decoded: Option<(u32, u32, Seq<u8>)>) -> bool {
    exists|dithered: Seq<u8>| is_block_image_by(out, decoded, dithered)
}

/// The width and height of the image that a block's image file is drawn
/// into, before it is made twice as large.
pub const TILE: u32 = 16;

/// The image that a block is drawn with, as `RGBA` bytes: the image of the
/// block's image file, drawn with two shades to the channel into an image of
/// `TILE` by `TILE` pixels, and that one at twice its size.
pub fn block_pixels(bytes: &Vec<u8>) -> (r: Result<Vec<u8>, Error>)
    ensures
        r is Ok == (loaded_rgb(bytes@) matches Some(d) && can_dither(d, (TILE, TILE))),
        r matches Ok(out) ==> is_block_image(out@, loaded_rgb(bytes@)),
        r matches Err(e) ==> e == Error::AssetLoadFailure,
{
    match dither_image(bytes, (TILE, TILE)) {
        Err(e) => Err(e),
        Ok(dithered) => {
            let out = upscale(&dithered, (TILE, TILE));
            assert(is_block_image_by(out@, loaded_rgb(bytes@), dithered@));
            Ok(out)
        },
    }
}

} // verus!
