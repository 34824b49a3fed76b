use maze_platformer::dither::{block_pixels, dither_image};
use maze_platformer::error::Error;
use maze_platformer::image_file::{is_plain_png, CHUNKS_AT, HEADER_AT, MAX_IMAGE_SIDE};
use maze_platformer::upscaling::{scale, strip_image_parts};

fn encoded(data: &[u8], width: u32, height: u32, color: image::ColorType) -> Vec<u8> {
    let mut file = Vec::new();
    image::png::PNGEncoder::new(&mut file)
        .encode(data, width, height, color)
        .unwrap();
    file
}

fn crc(bytes: &[u8]) -> u32 {
    let mut c = 0xffff_ffffu32;
    for b in bytes {
        c ^= *b as u32;
        for _ in 0..8 {
            c = if c & 1 == 1 { (c >> 1) ^ 0xedb8_8320 } else { c >> 1 };
        }
    }
    !c
}

fn chunk(kind: &[u8; 4], data: &[u8]) -> Vec<u8> {
    let mut out = Vec::new();
    out.extend_from_slice(&(data.len() as u32).to_be_bytes());
    out.extend_from_slice(kind);
    out.extend_from_slice(data);
    let mut summed = kind.to_vec();
    summed.extend_from_slice(data);
    out.extend_from_slice(&crc(&summed).to_be_bytes());
    out
}

fn with_chunk_after_header(file: &Vec<u8>, kind: &[u8; 4], data: &[u8]) -> Vec<u8> {
    let mut out = file[..CHUNKS_AT].to_vec();
    out.extend(chunk(kind, data));
    out.extend_from_slice(&file[CHUNKS_AT..]);
    out
}

fn with_header(file: &Vec<u8>, width: u32, height: u32, depth: u8, colour: u8, lace: u8) -> Vec<u8> {
    let mut data = Vec::new();
    data.extend_from_slice(&width.to_be_bytes());
    data.extend_from_slice(&height.to_be_bytes());
    data.extend_from_slice(&[depth, colour, 0, 0, lace]);
    let mut out = file[..HEADER_AT].to_vec();
    out.extend(chunk(b"IHDR", &data));
    out.extend_from_slice(&file[CHUNKS_AT..]);
    out
}

fn refused_everywhere(file: Vec<u8>) {
    assert!(!is_plain_png(&file));
    assert_eq!(strip_image_parts(file.clone()), Err(Error::AssetLoadFailure));
    assert_eq!(scale(file.clone(), (8, 8), false), Err(Error::AssetLoadFailure));
    assert_eq!(dither_image(&file, (16, 16)), Err(Error::AssetLoadFailure));
    assert_eq!(block_pixels(&file), Err(Error::AssetLoadFailure));
}

#[test]
fn places_of_the_header() {
    assert_eq!(HEADER_AT, 8);
    assert_eq!(CHUNKS_AT, 33);
    assert_eq!(MAX_IMAGE_SIDE, 4096);
}

#[test]
fn plain_files_are_taken() {
    let rgb = encoded(&[1u8; 8 * 8 * 3], 8, 8, image::ColorType::RGB(8));
    assert!(is_plain_png(&rgb));
    let rgba = encoded(&[1u8; 8 * 8 * 4], 8, 8, image::ColorType::RGBA(8));
    assert!(is_plain_png(&rgba));
    let grey = encoded(&[1u8; 8 * 8], 8, 8, image::ColorType::Gray(8));
    assert!(is_plain_png(&grey));
    let grey_alpha = encoded(&[1u8; 8 * 8 * 2], 8, 8, image::ColorType::GrayA(8));
    assert!(is_plain_png(&grey_alpha));
}

#[test]
fn grey_files_are_decoded_to_colour() {
    let grey = encoded(&[10, 200], 2, 1, image::ColorType::Gray(8));
    assert_eq!(
        strip_image_parts(grey.clone()),
        Ok(vec![10, 10, 10, 255, 200, 200, 200, 255])
    );
    let out = dither_image(&grey, (4, 2)).unwrap();
    assert_eq!(out.len(), 24);
    let grey_alpha = encoded(&[10, 7, 200, 9], 2, 1, image::ColorType::GrayA(8));
    assert_eq!(
        strip_image_parts(grey_alpha),
        Ok(vec![10, 10, 10, 7, 200, 200, 200, 9])
    );
}

#[test]
fn header_with_a_depth_that_does_not_go_with_the_colour_is_refused() {
    // colour in three samples of four bits, interlaced: a header that the
    // decoder takes, to write beyond its buffer later
    let file = encoded(&[0u8; 8 * 8 * 3], 8, 8, image::ColorType::RGB(8));
    refused_everywhere(with_header(&file, 8, 8, 4, 2, 1));
    refused_everywhere(with_header(&file, 8, 8, 4, 2, 0));
    refused_everywhere(with_header(&file, 8, 8, 1, 6, 0));
    refused_everywhere(with_header(&file, 8, 8, 16, 3, 0));
}

#[test]
fn depths_other_than_eight_are_refused() {
    let file = encoded(&[0u8; 8 * 8 * 3], 8, 8, image::ColorType::RGB(8));
    for depth in [0u8, 1, 2, 4, 16, 7, 255] {
        for colour in [0u8, 2, 3, 4, 6] {
            refused_everywhere(with_header(&file, 8, 8, depth, colour, 0));
        }
    }
}

#[test]
fn interlaced_and_paletted_files_are_refused() {
    let file = encoded(&[0u8; 8 * 8 * 3], 8, 8, image::ColorType::RGB(8));
    refused_everywhere(with_header(&file, 8, 8, 8, 2, 1));
    refused_everywhere(with_header(&file, 8, 8, 8, 6, 1));
    refused_everywhere(with_header(&file, 8, 8, 8, 3, 0));
    refused_everywhere(with_header(&file, 8, 8, 8, 1, 0));
    refused_everywhere(with_header(&file, 8, 8, 8, 5, 0));
}

#[test]
fn sizes_beyond_the_limit_and_of_nothing_are_refused() {
    let file = encoded(&[0u8; 8 * 8 * 3], 8, 8, image::ColorType::RGB(8));
    refused_everywhere(with_header(&file, 0, 8, 8, 2, 0));
    refused_everywhere(with_header(&file, 8, 0, 8, 2, 0));
    refused_everywhere(with_header(&file, 4097, 8, 8, 2, 0));
    refused_everywhere(with_header(&file, 8, 4097, 8, 2, 0));
    refused_everywhere(with_header(&file, u32::MAX, u32::MAX, 8, 2, 0));
    // at the limit the header is taken; the data is that of a smaller image
    let wide = with_header(&file, 4096, 1, 8, 2, 0);
    assert!(is_plain_png(&wide));
    assert_eq!(strip_image_parts(wide), Err(Error::AssetLoadFailure));
}

#[test]
fn refused_kinds_of_chunk_are_refused() {
    let file = encoded(&[0u8; 8 * 8 * 3], 8, 8, image::ColorType::RGB(8));
    for kind in [b"IHDR", b"PLTE", b"tRNS", b"acTL", b"fcTL", b"fdAT"] {
        refused_everywhere(with_chunk_after_header(&file, kind, &[0u8; 26]));
        refused_everywhere(with_chunk_after_header(&file, kind, &[]));
    }
    // behind another chunk, too
    let longer = with_chunk_after_header(&file, b"tRNS", &[0, 1, 0, 2, 0, 3]);
    refused_everywhere(with_chunk_after_header(&longer, b"tEXt", b"Title\0maze"));
}

#[test]
fn other_chunks_are_passed_by() {
    let pixels: Vec<u8> = (0..8 * 8 * 3).map(|i| (i * 3 % 256) as u8).collect();
    let file = encoded(&pixels, 8, 8, image::ColorType::RGB(8));
    let plain = strip_image_parts(file.clone()).unwrap();
    let with_text = with_chunk_after_header(&file, b"tEXt", b"Title\0maze");
    assert!(is_plain_png(&with_text));
    assert_eq!(strip_image_parts(with_text), Ok(plain.clone()));
    let with_size = with_chunk_after_header(&file, b"pHYs", &[0, 0, 11, 19, 0, 0, 11, 19, 1]);
    assert!(is_plain_png(&with_size));
    assert_eq!(strip_image_parts(with_size), Ok(plain.clone()));
    let with_gamma = with_chunk_after_header(&file, b"gAMA", &[0, 0, 177, 143]);
    assert_eq!(strip_image_parts(with_gamma.clone()), Ok(plain));
    assert!(block_pixels(&with_gamma).is_ok());
}

#[test]
fn chunks_behind_the_end_are_not_looked_at() {
    let file = encoded(&[5u8; 3], 1, 1, image::ColorType::RGB(8));
    let mut longer = file.clone();
    longer.extend(chunk(b"PLTE", &[1, 2, 3]));
    assert!(is_plain_png(&longer));
    assert_eq!(strip_image_parts(longer), Ok(vec![5, 5, 5, 255]));
}

#[test]
fn other_formats_and_broken_files_are_refused() {
    refused_everywhere(vec![]);
    refused_everywhere(vec![0xff, 0xd8, 0xff, 0xe0, 0, 16, b'J', b'F', b'I', b'F', 0]);
    refused_everywhere(b"GIF89a".to_vec());
    refused_everywhere(b"BM".to_vec());
    let file = encoded(&[0u8; 8 * 8 * 3], 8, 8, image::ColorType::RGB(8));
    let mut other = file.clone();
    other[0] = 0x88;
    refused_everywhere(other);
    refused_everywhere(file[..32].to_vec());
    // a header that says it is longer than a header is
    let mut long = file.clone();
    long[11] = 14;
    refused_everywhere(long);
}

#[test]
fn truncated_and_damaged_files_fail_to_decode() {
    let pixels: Vec<u8> = (0..16 * 16 * 4).map(|i| (i * 7 % 256) as u8).collect();
    let file = encoded(&pixels, 16, 16, image::ColorType::RGBA(8));
    assert_eq!(strip_image_parts(file.clone()), Ok(pixels));
    for cut in CHUNKS_AT..file.len() {
        let short = file[..cut].to_vec();
        assert!(is_plain_png(&short));
        assert_eq!(strip_image_parts(short), Err(Error::AssetLoadFailure));
    }
    for at in CHUNKS_AT + 8..file.len() - 12 {
        let mut damaged = file.clone();
        damaged[at] ^= 0x55;
        assert_eq!(strip_image_parts(damaged), Err(Error::AssetLoadFailure));
    }
}
