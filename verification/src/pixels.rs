//! Images as rows of pixels in a run of bytes, and where in the run a
//! channel of a pixel stands.

use vstd::prelude::*;

verus! {

/// The index of channel `c` of the pixel in column `x` of row `y`, in an
/// image of `width` columns and `channels` bytes to the pixel.
pub open spec fn channel_index(width: int, channels: int, x: int, y: int, c: int) -> int {
    (y * width + x) * channels + c
}

/// Channel `c` of the pixel in column `x` of row `y`.
pub open spec fn channel_at(bytes: Seq<u8>, width: int, channels: int, x: int, y: int, c: int) -> u8 {
    bytes[channel_index(width, channels, x, y, c)]
}

/// The number of bytes of an image of `width` by `height` pixels with
/// `channels` bytes to the pixel.
pub open spec fn byte_count(width: int, height: int, channels: int) -> int {
    channels * width * height
}

/// A channel of a pixel of an image lies among the image's bytes, and the
/// channels of the pixels before it lie before it.
pub proof fn lemma_channel_index(width: int, height: int, channels: int, x: int, y: int, c: int)
    requires
        0 <= x < width,
        0 <= y < height,
        0 <= c < channels,
    ensures
        0 <= channel_index(width, channels, x, y, c) < byte_count(width, height, channels),
        channel_index(width, channels, x, y, c) == channel_index(width, channels, 0, y, 0) + x
            * channels + c,
        channel_index(width, channels, 0, y, 0) == y * (width * channels),
        byte_count(width, height, channels) == height * (width * channels),
        channel_index(width, channels, 0, y, 0) + width * channels <= byte_count(
            width,
            height,
            channels,
        ),
        0 <= x * channels + c < width * channels,
{
    assert((y * width + x) * channels == y * (width * channels) + x * channels)
        by (nonlinear_arith);
    assert(channels * width * height == height * (width * channels)) by (nonlinear_arith);
    assert(x * channels + channels <= width * channels) by (nonlinear_arith)
        requires
            x + 1 <= width,
            channels >= 0,
    ;
    assert(x * channels >= 0) by (nonlinear_arith)
        requires
            x >= 0,
            channels >= 0,
    ;
    assert(y * (width * channels) + width * channels <= height * (width * channels))
        by (nonlinear_arith)
        requires
            y + 1 <= height,
            width * channels >= 0,
    ;
    assert(y * (width * channels) >= 0) by (nonlinear_arith)
        requires
            y >= 0,
            width * channels >= 0,
    ;
    assert((y * width + 0) * channels + 0 == y * (width * channels)) by (nonlinear_arith);
}

/// Two different channels of an image stand at different places among its
/// bytes.
pub proof fn lemma_channel_index_distinct(
    width: int,
    channels: int,
    x1: int,
    y1: int,
    c1: int,
    x2: int,
    y2: int,
    c2: int,
)
    requires
        0 <= x1 < width,
        0 <= x2 < width,
        0 <= y1,
        0 <= y2,
        0 <= c1 < channels,
        0 <= c2 < channels,
        x1 != x2 || y1 != y2 || c1 != c2,
    ensures
        channel_index(width, channels, x1, y1, c1) != channel_index(width, channels, x2, y2, c2),
{
    if y1 < y2 {
        lemma_channel_index(width, y2, channels, x1, y1, c1);
        lemma_channel_index(width, y2 + 1, channels, x2, y2, c2);
    } else if y2 < y1 {
        lemma_channel_index(width, y1, channels, x2, y2, c2);
        lemma_channel_index(width, y1 + 1, channels, x1, y1, c1);
    } else {
        lemma_channel_index(width, y1 + 1, channels, x1, y1, c1);
        lemma_channel_index(width, y1 + 1, channels, x2, y2, c2);
        if x1 < x2 {
            assert(x1 * channels + channels <= x2 * channels) by (nonlinear_arith)
                requires
                    x1 + 1 <= x2,
                    channels >= 0,
            ;
        } else if x2 < x1 {
            assert(x2 * channels + channels <= x1 * channels) by (nonlinear_arith)
                requires
                    x2 + 1 <= x1,
                    channels >= 0,
            ;
        }
    }
}

} // verus!
