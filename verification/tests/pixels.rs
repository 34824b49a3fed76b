use maze_platformer::dither::{
    block_pixels, dither, dither_image, lit_count, place_block, TILE,
};
use maze_platformer::error::Error;
use maze_platformer::upscaling::{scale, strip_image_parts, upscale};

fn png(data: &[u8], width: u32, height: u32, color: image::ColorType) -> Vec<u8> {
    let mut file = Vec::new();
    image::png::PNGEncoder::new(&mut file)
        .encode(data, width, height, color)
        .unwrap();
    file
}

fn lit_in_block(out: &Vec<u8>, width: usize, x: usize, y: usize, c: usize) -> usize {
    let mut n = 0;
    for dx in 0..2 {
        for dy in 0..2 {
            let v = out[((2 * y + dy) * width + 2 * x + dx) * 3 + c];
            assert!(v == 0 || v == 255);
            if v == 255 {
                n += 1;
            }
        }
    }
    n
}

#[test]
fn upscale_draws_each_pixel_as_a_block() {
    // two pixels side by side
    let bytes = vec![1, 2, 3, 4, 5, 6, 7, 8];
    let row = vec![1, 2, 3, 4, 1, 2, 3, 4, 5, 6, 7, 8, 5, 6, 7, 8];
    let mut want = row.clone();
    want.extend(row);
    assert_eq!(upscale(&bytes, (2, 1)), want);
    // two pixels one above the other
    let first = vec![1, 2, 3, 4, 1, 2, 3, 4];
    let second = vec![5, 6, 7, 8, 5, 6, 7, 8];
    let mut want = first.clone();
    want.extend(first);
    want.extend(second.clone());
    want.extend(second);
    assert_eq!(upscale(&bytes, (1, 2)), want);
}

#[test]
fn upscale_makes_rgb_opaque() {
    let bytes = vec![10, 20, 30, 40, 50, 60];
    let row = vec![10, 20, 30, 255, 10, 20, 30, 255, 40, 50, 60, 255, 40, 50, 60, 255];
    let mut want = row.clone();
    want.extend(row);
    assert_eq!(upscale(&bytes, (2, 1)), want);
    // a byte too many for RGB, too few for RGBA: still RGB
    let bytes = vec![10, 20, 30, 40, 50, 60, 70];
    assert_eq!(upscale(&bytes, (2, 1)), want);
}

#[test]
fn upscale_of_nothing_is_nothing() {
    assert_eq!(upscale(&vec![], (0, 0)), Vec::<u8>::new());
    assert_eq!(upscale(&vec![], (0, 5)), Vec::<u8>::new());
    assert_eq!(upscale(&vec![], (5, 0)), Vec::<u8>::new());
}

#[test]
fn upscale_of_a_larger_image() {
    let (w, h) = (5usize, 3usize);
    let bytes: Vec<u8> = (0..(w * h * 4) as u32).map(|i| (i * 7 % 251) as u8).collect();
    let out = upscale(&bytes, (w as u32, h as u32));
    assert_eq!(out.len(), 16 * w * h);
    for y in 0..2 * h {
        for x in 0..2 * w {
            for c in 0..4 {
                assert_eq!(
                    out[(y * 2 * w + x) * 4 + c],
                    bytes[((y / 2) * w + x / 2) * 4 + c]
                );
            }
        }
    }
}

#[test]
fn scale_takes_raw_pixels_of_the_right_size() {
    let bytes = vec![9, 8, 7, 6];
    assert_eq!(
        scale(bytes.clone(), (1, 1), true),
        Ok(vec![9, 8, 7, 6, 9, 8, 7, 6, 9, 8, 7, 6, 9, 8, 7, 6])
    );
    assert_eq!(scale(bytes.clone(), (2, 1), true), Err(Error::AssetLoadFailure));
    assert_eq!(scale(bytes.clone(), (1, 2), true), Err(Error::AssetLoadFailure));
    assert_eq!(scale(vec![1, 2], (1, 1), true), Err(Error::AssetLoadFailure));
    assert_eq!(scale(vec![1, 2, 3, 4, 5], (1, 1), true), Err(Error::AssetLoadFailure));
    assert_eq!(scale(vec![1], (0, 0), true), Err(Error::AssetLoadFailure));
    assert_eq!(scale(vec![], (0, 0), true), Ok(vec![]));
}

#[test]
fn strip_image_parts_gives_the_pixels_of_a_file() {
    let pixels = vec![255, 0, 0, 0, 255, 0, 0, 0, 255, 10, 20, 30];
    let file = png(&pixels, 2, 2, image::ColorType::RGB(8));
    assert_ne!(file, pixels);
    assert_eq!(
        strip_image_parts(file),
        Ok(vec![255, 0, 0, 255, 0, 255, 0, 255, 0, 0, 255, 255, 10, 20, 30, 255])
    );
    let pixels = vec![1, 2, 3, 4, 5, 6, 7, 8];
    let file = png(&pixels, 1, 2, image::ColorType::RGBA(8));
    assert_eq!(strip_image_parts(file), Ok(pixels));
}

#[test]
fn strip_image_parts_refuses_what_is_no_image() {
    assert_eq!(strip_image_parts(vec![]), Err(Error::AssetLoadFailure));
    assert_eq!(strip_image_parts(vec![1, 2, 3, 4]), Err(Error::AssetLoadFailure));
    let mut file = png(&[1, 2, 3], 1, 1, image::ColorType::RGB(8));
    file.truncate(20);
    assert_eq!(strip_image_parts(file), Err(Error::AssetLoadFailure));
}

#[test]
fn scale_decodes_a_file_first() {
    let pixels = vec![1, 2, 3, 4, 5, 6, 7, 8];
    let file = png(&pixels, 2, 1, image::ColorType::RGBA(8));
    let row = vec![1, 2, 3, 4, 1, 2, 3, 4, 5, 6, 7, 8, 5, 6, 7, 8];
    let mut want = row.clone();
    want.extend(row);
    assert_eq!(scale(file.clone(), (2, 1), false), Ok(want));
    // the file's bytes are no pixels of that size
    assert_eq!(scale(file.clone(), (2, 1), true), Err(Error::AssetLoadFailure));
    // and its pixels are not those of a larger image
    assert_eq!(scale(file, (3, 1), false), Err(Error::AssetLoadFailure));
    assert_eq!(scale(vec![0, 1, 2], (1, 1), false), Err(Error::AssetLoadFailure));
}

#[test]
fn lit_count_rounds_quarters_of_255() {
    for v in 0..=255u8 {
        let want = (v as f32 / (255. / 4.)).round() as u8;
        assert_eq!(lit_count(v), want);
    }
    assert_eq!(lit_count(0), 0);
    assert_eq!(lit_count(31), 0);
    assert_eq!(lit_count(32), 1);
    assert_eq!(lit_count(95), 1);
    assert_eq!(lit_count(96), 2);
    assert_eq!(lit_count(159), 2);
    assert_eq!(lit_count(160), 3);
    assert_eq!(lit_count(223), 3);
    assert_eq!(lit_count(224), 4);
    assert_eq!(lit_count(255), 4);
}

#[test]
fn dither_lights_as_many_places_as_the_channel_is_bright() {
    let (w, h) = (4usize, 3usize);
    let raw: Vec<u8> = (0..w * h * 3).map(|i| (i * 37 % 256) as u8).collect();
    let out = dither(&raw, (w as u32, h as u32), (8, 6));
    assert_eq!(out.len(), 8 * 6 * 3);
    for y in 0..h {
        for x in 0..w {
            for c in 0..3 {
                let v = raw[(y * w + x) * 3 + c];
                assert_eq!(lit_in_block(&out, 8, x, y, c), lit_count(v) as usize);
            }
        }
    }
}

#[test]
fn dither_leaves_the_rest_black() {
    let raw = vec![255u8; 2 * 2 * 3];
    let out = dither(&raw, (2, 2), (7, 5));
    assert_eq!(out.len(), 7 * 5 * 3);
    for y in 0..5 {
        for x in 0..7 {
            for c in 0..3 {
                let want = if x < 4 && y < 4 { 255 } else { 0 };
                assert_eq!(out[(y * 7 + x) * 3 + c], want);
            }
        }
    }
}

#[test]
fn dither_of_black_is_black_and_of_nothing_is_black() {
    assert_eq!(dither(&vec![0u8; 12], (2, 2), (4, 4)), vec![0u8; 48]);
    assert_eq!(dither(&vec![], (0, 0), (2, 2)), vec![0u8; 12]);
    assert_eq!(dither(&vec![], (0, 0), (0, 0)), Vec::<u8>::new());
}

#[test]
fn dither_places_by_chance() {
    // half bright: two of four places, at one of six pairs of places
    let raw = vec![128u8; 3];
    let first = dither(&raw, (1, 1), (2, 2));
    let mut differs = false;
    for _ in 0..200 {
        let out = dither(&raw, (1, 1), (2, 2));
        for c in 0..3 {
            assert_eq!(lit_in_block(&out, 2, 0, 0, c), 2);
        }
        if out != first {
            differs = true;
        }
    }
    assert!(differs);
}

#[test]
fn dither_image_decodes_a_file_first() {
    let pixels = vec![255, 0, 128, 64, 200, 30];
    let file = png(&pixels, 2, 1, image::ColorType::RGB(8));
    let out = dither_image(&file, (4, 2)).unwrap();
    assert_eq!(out.len(), 24);
    for x in 0..2 {
        for c in 0..3 {
            assert_eq!(lit_in_block(&out, 4, x, 0, c), lit_count(pixels[x * 3 + c]) as usize);
        }
    }
    // an image with alpha is taken without it
    let file = png(&[255, 0, 128, 7], 1, 1, image::ColorType::RGBA(8));
    let out = dither_image(&file, (2, 2)).unwrap();
    assert_eq!(lit_in_block(&out, 2, 0, 0, 0), 4);
    assert_eq!(lit_in_block(&out, 2, 0, 0, 1), 0);
    assert_eq!(lit_in_block(&out, 2, 0, 0, 2), 2);
}

#[test]
fn dither_image_refuses_what_does_not_fit_or_is_no_image() {
    let file = png(&[0u8; 18], 3, 2, image::ColorType::RGB(8));
    assert!(dither_image(&file, (6, 4)).is_ok());
    assert_eq!(dither_image(&file, (5, 4)), Err(Error::AssetLoadFailure));
    assert_eq!(dither_image(&file, (6, 3)), Err(Error::AssetLoadFailure));
    assert_eq!(dither_image(&vec![1, 2, 3], (6, 4)), Err(Error::AssetLoadFailure));
}

#[test]
fn block_pixels_are_32_by_32_and_opaque() {
    assert_eq!(TILE, 16);
    let pixels: Vec<u8> = (0..8 * 8 * 3).map(|i| (i * 5 % 256) as u8).collect();
    let file = png(&pixels, 8, 8, image::ColorType::RGB(8));
    let out = block_pixels(&file).unwrap();
    assert_eq!(out.len(), 32 * 32 * 4);
    for y in 0..8 {
        for x in 0..8 {
            for c in 0..3 {
                // the block of a pixel is four places, each four pixels of the result
                let mut lit = 0;
                for dx in 0..4 {
                    for dy in 0..4 {
                        let v = out[((4 * y + dy) * 32 + 4 * x + dx) * 4 + c];
                        let same = out[((4 * y + dy / 2 * 2) * 32 + 4 * x + dx / 2 * 2) * 4 + c];
                        assert_eq!(v, same);
                        assert!(v == 0 || v == 255);
                        if v == 255 {
                            lit += 1;
                        }
                    }
                }
                assert_eq!(lit, 4 * lit_count(pixels[(y * 8 + x) * 3 + c]) as usize);
            }
        }
    }
    for p in 0..32 * 32 {
        assert_eq!(out[p * 4 + 3], 255);
    }
}

#[test]
fn block_pixels_of_a_small_image_fill_a_corner() {
    let file = png(&[255u8; 12], 2, 2, image::ColorType::RGB(8));
    let out = block_pixels(&file).unwrap();
    assert_eq!(out.len(), 32 * 32 * 4);
    for y in 0..32 {
        for x in 0..32 {
            let want = if x < 8 && y < 8 { 255 } else { 0 };
            assert_eq!(out[(y * 32 + x) * 4], want);
            assert_eq!(out[(y * 32 + x) * 4 + 3], 255);
        }
    }
}

#[test]
fn block_pixels_refuse_a_large_image() {
    let file = png(&[0u8; 9 * 8 * 3], 9, 8, image::ColorType::RGB(8));
    assert_eq!(block_pixels(&file), Err(Error::AssetLoadFailure));
    assert_eq!(block_pixels(&vec![]), Err(Error::AssetLoadFailure));
}

#[test]
fn place_block_puts_four_values_in_order() {
    // an image of 4 by 2 pixels; the block of pixel (1, 0), channel 1
    let mut out = vec![0u8; 4 * 2 * 3];
    place_block(&mut out, 4, 2, 1, 0, 1, &vec![10, 20, 30, 40]);
    let at = |x: usize, y: usize, c: usize| out[(y * 4 + x) * 3 + c];
    assert_eq!(at(2, 0, 1), 10);
    assert_eq!(at(2, 1, 1), 20);
    assert_eq!(at(3, 0, 1), 30);
    assert_eq!(at(3, 1, 1), 40);
    assert_eq!(out.iter().filter(|v| **v != 0).count(), 4);
    assert_eq!(out.len(), 24);
}
