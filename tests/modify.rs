use std::collections::HashMap;

use gifmeta::codec::{Disposal, FrameData, RepeatMode};
use gifmeta::gifmeta_structs::GifError;
use gifmeta::info::get_metadata;
use gifmeta::loop_count::extract_loop_count;
use gifmeta::modify::{apply_modifications, repeat_mode_for, retime_frame, retime_frames};
use gifmeta::stream::encode_gif;
use gifmeta::parse_csv::parse_keyval_csv;

fn make_gif(delays: &[u16], repeat: Option<gif::Repeat>) -> Vec<u8> {
    let palette: [u8; 12] = [0, 0, 0, 255, 0, 0, 0, 255, 0, 0, 0, 255];
    let mut out = Vec::new();
    {
        let mut enc = gif::Encoder::new(&mut out, 2, 2, &palette).unwrap();
        if let Some(r) = repeat {
            enc.set_repeat(r).unwrap();
        }
        for (i, d) in delays.iter().enumerate() {
            let pixels = vec![(i % 4) as u8, ((i + 1) % 4) as u8, 3, 0];
            let mut frame = gif::Frame::from_indexed_pixels(2, 2, pixels, None);
            frame.delay = *d;
            enc.write_frame(&frame).unwrap();
        }
    }
    out
}

/// Delay and indexed pixels of every frame, decoded by the gif crate.
fn frames_of(data: &[u8]) -> Vec<(u16, Vec<u8>)> {
    let mut options = gif::DecodeOptions::new();
    options.set_color_output(gif::ColorOutput::Indexed);
    let mut decoder = options.read_info(data).unwrap();
    let mut frames = Vec::new();
    while let Some(f) = decoder.read_next_frame().unwrap() {
        frames.push((f.delay, f.buffer.to_vec()));
    }
    frames
}

fn plain_frame(delay: u16, fill: u8) -> FrameData {
    FrameData {
        delay,
        dispose: Disposal::Keep,
        transparent: Some(1),
        needs_user_input: false,
        top: 1,
        left: 2,
        width: 1,
        height: 1,
        interlaced: false,
        palette: Some(vec![9, 9, 9]),
        buffer: vec![fill],
    }
}

#[test]
fn test_set_loop_and_frame_delays() {
    let input = make_gif(&[10, 20, 30], None);
    let delays = Some("1=15".to_string());
    let delays_map = delays.as_ref().map(|s| parse_keyval_csv(s)).transpose().unwrap_or(None);
    let result = apply_modifications(&input, Some(3), Some(4), delays_map);
    assert!(result.is_ok());
    let output = result.unwrap();
    let loop_count = get_metadata(&output, false).ok().unwrap().loop_count;
    assert_eq!(loop_count, 3, "Expected loop count to be 0 (infinite)");
    let delays: Vec<u16> = frames_of(&output).iter().map(|f| f.0).collect();
    assert_eq!(delays, vec![4, 15, 4]);
}

#[test]
fn test_mod_preserves_loop_count_if_not_specified() {
    let input = make_gif(&[10, 20], Some(gif::Repeat::Infinite));
    let original_loop = get_metadata(&input, false).unwrap().loop_count;
    let output = apply_modifications(&input, None, Some(5), None).unwrap();
    let modified_loop = get_metadata(&output, false).unwrap().loop_count;
    assert_eq!(original_loop, modified_loop, "Loop count should remain unchanged");
}

#[test]
fn loop_count_kept_when_source_has_none() {
    let input = make_gif(&[10, 20], None);
    let output = apply_modifications(&input, None, Some(5), None).unwrap();
    assert_eq!(extract_loop_count(&output).unwrap(), 1);
    assert_eq!(get_metadata(&output, false).unwrap().loop_count, 1);
}

#[test]
fn finite_loop_count_kept_when_unspecified() {
    for &count in &[2u16, 4, 300] {
        let input = make_gif(&[10, 20], Some(gif::Repeat::Finite(count)));
        let output = apply_modifications(&input, None, Some(5), None).unwrap();
        assert_eq!(extract_loop_count(&output).unwrap(), count);
    }
}

#[test]
fn no_modification_is_rejected() {
    let input = make_gif(&[10], None);
    assert!(matches!(apply_modifications(&input, None, None, None), Err(GifError::NoOp)));
    assert!(matches!(apply_modifications(&input, None, None, Some(HashMap::new())), Err(GifError::NoOp)));
    assert!(matches!(apply_modifications(b"garbage", None, None, None), Err(GifError::NoOp)));
}

#[test]
fn loop_and_uniform_delay_scenario() {
    let input = make_gif(&[10, 20], Some(gif::Repeat::Infinite));
    let output = apply_modifications(&input, Some(3), Some(5), None).unwrap();
    let meta = get_metadata(&output, true).unwrap();
    assert_eq!(meta.frame_count, 2);
    let delays: Vec<u16> = meta.frames.iter().map(|f| f.delay_cs).collect();
    assert_eq!(delays, vec![5, 5]);
    assert_eq!(meta.loop_count, 3);
    assert_eq!(extract_loop_count(&output).unwrap(), 3);
}

#[test]
fn override_beats_uniform_delay() {
    let input = make_gif(&[10, 20, 30, 40], None);
    let mut overrides = HashMap::new();
    overrides.insert(1usize, 99u16);
    let output = apply_modifications(&input, None, Some(7), Some(overrides)).unwrap();
    let delays: Vec<u16> = frames_of(&output).iter().map(|f| f.0).collect();
    assert_eq!(delays, vec![7, 99, 7, 7]);
}

#[test]
fn overrides_alone_keep_other_delays() {
    let input = make_gif(&[10, 20, 30], None);
    let mut overrides = HashMap::new();
    overrides.insert(2usize, 1u16);
    overrides.insert(8usize, 1u16);
    let output = apply_modifications(&input, None, None, Some(overrides)).unwrap();
    let delays: Vec<u16> = frames_of(&output).iter().map(|f| f.0).collect();
    assert_eq!(delays, vec![10, 20, 1]);
}

#[test]
fn uniform_delay_keeps_frames_and_pixels() {
    let input = make_gif(&[10, 20, 30], Some(gif::Repeat::Finite(2)));
    let output = apply_modifications(&input, None, Some(6), None).unwrap();
    let before = frames_of(&input);
    let after = frames_of(&output);
    assert_eq!(before.len(), after.len());
    for (b, a) in before.iter().zip(after.iter()) {
        assert_eq!(a.0, 6);
        assert_eq!(a.1, b.1);
    }
}

#[test]
fn rewrite_of_garbage_is_a_decode_error() {
    assert!(matches!(apply_modifications(b"GIF89a", Some(1), None, None), Err(GifError::Decode)));
}

#[test]
fn repeat_directive_values() {
    assert_eq!(repeat_mode_for(0), RepeatMode::Infinite);
    assert_eq!(repeat_mode_for(1), RepeatMode::Finite(1));
    assert_eq!(repeat_mode_for(3), RepeatMode::Finite(3));
    assert_eq!(repeat_mode_for(65535), RepeatMode::Finite(65535));
}

#[test]
fn retime_frame_changes_only_the_delay() {
    let mut overrides = HashMap::new();
    overrides.insert(3usize, 44u16);
    let f = retime_frame(plain_frame(10, 7), 3, Some(5), &overrides);
    assert_eq!(f.delay, 44);
    assert_eq!(f.buffer, vec![7]);
    assert_eq!(f.palette, Some(vec![9, 9, 9]));
    assert_eq!((f.top, f.left, f.width, f.height), (1, 2, 1, 1));
    assert_eq!(f.transparent, Some(1));
    assert_eq!(f.dispose, Disposal::Keep);
    let g = retime_frame(plain_frame(10, 7), 2, Some(5), &overrides);
    assert_eq!(g.delay, 5);
    let h = retime_frame(plain_frame(10, 7), 2, None, &overrides);
    assert_eq!(h.delay, 10);
}

#[test]
fn retime_frames_keeps_order() {
    let frames = vec![plain_frame(1, 0), plain_frame(2, 1), plain_frame(3, 2)];
    let mut overrides = HashMap::new();
    overrides.insert(0usize, 50u16);
    let out = retime_frames(frames, Some(8), &overrides);
    let summary: Vec<(u16, u8)> = out.iter().map(|f| (f.delay, f.buffer[0])).collect();
    assert_eq!(summary, vec![(50, 0), (8, 1), (8, 2)]);
}

#[test]
fn uniform_delay_keeps_screen_and_palette() {
    let input = make_gif(&[10, 20], None);
    let output = apply_modifications(&input, None, Some(9), None).unwrap();
    let screen = |data: &[u8]| {
        let mut options = gif::DecodeOptions::new();
        options.set_color_output(gif::ColorOutput::Indexed);
        let decoder = options.read_info(data).unwrap();
        (decoder.width(), decoder.height(), decoder.global_palette().map(|p| p.to_vec()))
    };
    assert_eq!(screen(&input), screen(&output));
}

#[test]
fn empty_frame_with_pixels_is_refused() {
    let mut frame = plain_frame(5, 1);
    frame.width = 0;
    let palette = Some(vec![0u8, 0, 0, 255, 255, 255]);
    let result = encode_gif(2, 2, &palette, RepeatMode::Infinite, &vec![frame]);
    assert!(matches!(result, Err(GifError::Encode)));
}

#[test]
fn frame_without_any_palette_is_refused() {
    let mut frame = plain_frame(5, 1);
    frame.palette = None;
    let result = encode_gif(1, 1, &None, RepeatMode::Infinite, &vec![frame]);
    assert!(matches!(result, Err(GifError::Encode)));
}

#[test]
fn encoded_stream_ends_with_trailer_and_declares_loop() {
    let palette = Some(vec![0u8, 0, 0, 255, 255, 255]);
    let bytes = encode_gif(3, 1, &palette, RepeatMode::Finite(6), &vec![plain_frame(5, 1)]).unwrap();
    assert_eq!(&bytes[0..6], b"GIF89a");
    assert_eq!(*bytes.last().unwrap(), 0x3B);
    assert_eq!(extract_loop_count(&bytes).unwrap(), 6);
}

#[test]
fn encoder_preamble_is_as_stated() {
    // Three colours: a table of four entries (size field 1), one zero entry of padding.
    let palette = Some(vec![1u8, 2, 3, 4, 5, 6, 7, 8, 9]);
    let bytes = encode_gif(258, 3, &palette, RepeatMode::Finite(0), &vec![plain_frame(5, 1)]).unwrap();
    let mut expected = b"GIF89a".to_vec();
    expected.extend_from_slice(&[2, 1, 3, 0, 0x91, 0, 0]);
    expected.extend_from_slice(&[1, 2, 3, 4, 5, 6, 7, 8, 9, 0, 0, 0]);
    assert_eq!(&bytes[..25], &expected[..]);
    // Zero finite repetitions write no looping block.
    assert!(matches!(extract_loop_count(&bytes), Err(GifError::NotFound)));
}
