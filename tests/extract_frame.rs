use std::io::Cursor;

use gifmeta::codec::{Disposal, FrameData};
use gifmeta::extract_frame_as_png::{extract_frame_as_png, render_frame_png};
use gifmeta::gifmeta_structs::GifError;
use gifmeta::info::get_metadata;

const PNG_SIGNATURE: &[u8; 8] = b"\x89PNG\r\n\x1a\n";

/// A 4x3 animation: a red full frame, then a 2x1 green patch at (1, 1), then
/// a blue patch at (3, 2).
fn make_gif() -> Vec<u8> {
    let palette: [u8; 12] = [255, 0, 0, 0, 255, 0, 0, 0, 255, 255, 255, 255];
    let mut out = Vec::new();
    {
        let mut enc = gif::Encoder::new(&mut out, 4, 3, &palette).unwrap();
        enc.set_repeat(gif::Repeat::Infinite).unwrap();
        let mut first = gif::Frame::from_indexed_pixels(4, 3, vec![0u8; 12], None);
        first.delay = 10;
        enc.write_frame(&first).unwrap();
        let mut second = gif::Frame::from_indexed_pixels(2, 1, vec![1u8, 1], None);
        second.left = 1;
        second.top = 1;
        enc.write_frame(&second).unwrap();
        let mut third = gif::Frame::from_indexed_pixels(1, 1, vec![2u8], None);
        third.left = 3;
        third.top = 2;
        enc.write_frame(&third).unwrap();
    }
    out
}

fn decode_png(png: Vec<u8>) -> image::RgbaImage {
    image::ImageReader::new(Cursor::new(png))
        .with_guessed_format()
        .expect("Guess format failed")
        .decode()
        .expect("PNG decode failed")
        .to_rgba8()
}

fn rgba_frame(left: u16, top: u16, width: u16, height: u16, buffer: Vec<u8>) -> FrameData {
    FrameData {
        delay: 0,
        dispose: Disposal::Keep,
        transparent: None,
        needs_user_input: false,
        top,
        left,
        width,
        height,
        interlaced: false,
        palette: None,
        buffer,
    }
}

#[test]
fn test_extract_single_frame_as_png() {
    let data = make_gif();
    let result = extract_frame_as_png(&data, 0);
    assert!(result.is_ok(), "Expected OK, got error: {:?}", result);
    let png_bytes = result.unwrap();
    assert_eq!(&png_bytes[0..8], PNG_SIGNATURE, "Invalid PNG header");
}

#[test]
fn test_preview_dimensions_match_gif() {
    let data = make_gif();
    let original_meta = get_metadata(&data, false).unwrap();
    let expected_w = original_meta.width as u32;
    let expected_h = original_meta.height as u32;
    for frame_index in 0..=1 {
        let png_bytes = extract_frame_as_png(&data, frame_index).expect("Failed to extract preview");
        let decoded = decode_png(png_bytes);
        assert_eq!(decoded.width(), expected_w, "Width mismatch on frame {}", frame_index);
        assert_eq!(decoded.height(), expected_h, "Height mismatch on frame {}", frame_index);
    }
}

#[test]
fn frames_are_overlaid_in_order() {
    let data = make_gif();
    let red = image::Rgba([255, 0, 0, 255]);
    let green = image::Rgba([0, 255, 0, 255]);
    let blue = image::Rgba([0, 0, 255, 255]);
    let first = decode_png(extract_frame_as_png(&data, 0).unwrap());
    assert!(first.pixels().all(|p| *p == red));
    let second = decode_png(extract_frame_as_png(&data, 1).unwrap());
    assert_eq!(*second.get_pixel(1, 1), green);
    assert_eq!(*second.get_pixel(2, 1), green);
    assert_eq!(*second.get_pixel(0, 1), red);
    assert_eq!(*second.get_pixel(3, 2), red);
    let third = decode_png(extract_frame_as_png(&data, 2).unwrap());
    assert_eq!(*third.get_pixel(1, 1), green);
    assert_eq!(*third.get_pixel(3, 2), blue);
    assert_eq!(*third.get_pixel(0, 0), red);
}

#[test]
fn index_past_the_last_frame_is_out_of_bounds() {
    let data = make_gif();
    assert!(matches!(extract_frame_as_png(&data, 3), Err(GifError::FrameIndexOutOfBounds(3))));
    assert!(matches!(extract_frame_as_png(&data, 100), Err(GifError::FrameIndexOutOfBounds(100))));
}

#[test]
fn unreadable_stream_has_no_frame() {
    assert!(matches!(extract_frame_as_png(b"nope", 0), Err(GifError::Decode)));
}

#[test]
fn render_starts_transparent_and_clips_to_the_canvas() {
    // A 2x2 patch at (1, 1) on a 2x2 canvas: only its top-left pixel lands.
    let patch = rgba_frame(1, 1, 2, 2, vec![1, 2, 3, 4, 5, 6, 7, 8, 9, 10, 11, 12, 13, 14, 15, 16]);
    let png = render_frame_png(2, 2, &vec![patch], 0).unwrap();
    assert_eq!(&png[0..8], PNG_SIGNATURE);
    let img = decode_png(png);
    assert_eq!((img.width(), img.height()), (2, 2));
    assert_eq!(*img.get_pixel(1, 1), image::Rgba([1, 2, 3, 4]));
    assert_eq!(*img.get_pixel(0, 0), image::Rgba([0, 0, 0, 0]));
    assert_eq!(*img.get_pixel(1, 0), image::Rgba([0, 0, 0, 0]));
}

#[test]
fn render_replaces_instead_of_blending() {
    let under = rgba_frame(0, 0, 1, 1, vec![200, 100, 50, 255]);
    let over = rgba_frame(0, 0, 1, 1, vec![10, 20, 30, 0]);
    let img = decode_png(render_frame_png(1, 1, &vec![under, over], 1).unwrap());
    assert_eq!(*img.get_pixel(0, 0), image::Rgba([10, 20, 30, 0]));
}

#[test]
fn render_skips_pixels_missing_from_the_buffer() {
    // Declares 2x1 but holds only one pixel: the second is left alone.
    let short = rgba_frame(0, 0, 2, 1, vec![9, 9, 9, 255, 1]);
    let img = decode_png(render_frame_png(2, 1, &vec![short], 0).unwrap());
    assert_eq!(*img.get_pixel(0, 0), image::Rgba([9, 9, 9, 255]));
    assert_eq!(*img.get_pixel(1, 0), image::Rgba([0, 0, 0, 0]));
}

#[test]
fn render_index_bounds() {
    let frames = vec![rgba_frame(0, 0, 1, 1, vec![1, 1, 1, 1])];
    assert!(matches!(render_frame_png(1, 1, &frames, 1), Err(GifError::FrameIndexOutOfBounds(1))));
    assert!(render_frame_png(1, 1, &frames, 0).is_ok());
    assert!(matches!(render_frame_png(1, 1, &vec![], 0), Err(GifError::FrameIndexOutOfBounds(0))));
}

#[test]
fn later_frames_do_not_matter() {
    let data = make_gif();
    let first = extract_frame_as_png(&data, 0).unwrap();
    // Cut the stream after its first frames: frame 0 renders the same.
    let cut = &data[..data.len() - 8];
    assert_eq!(extract_frame_as_png(cut, 0).unwrap(), first);
}

#[test]
fn empty_canvas_cannot_be_encoded() {
    let frames = vec![rgba_frame(0, 0, 0, 0, vec![])];
    assert!(matches!(render_frame_png(0, 3, &frames, 0), Err(GifError::Encode)));
}

#[test]
fn largest_index_is_out_of_bounds() {
    let data = make_gif();
    assert!(matches!(
        extract_frame_as_png(&data, usize::MAX),
        Err(GifError::FrameIndexOutOfBounds(usize::MAX))
    ));
}

#[test]
fn png_header_carries_the_screen_size() {
    let png = extract_frame_as_png(&make_gif(), 1).unwrap();
    assert_eq!(&png[8..16], &[0, 0, 0, 13, b'I', b'H', b'D', b'R']);
    assert_eq!(&png[16..24], &[0, 0, 0, 4, 0, 0, 0, 3]);
}
