use gifmeta::gifmeta_structs::{FrameMeta, GifError};
use gifmeta::info::{get_metadata, loop_count_or_default, MissingLoopPolicy};

fn make_gif(delays: &[u16], transparent: &[Option<u8>], repeat: Option<gif::Repeat>) -> Vec<u8> {
    let palette: [u8; 12] = [0, 0, 0, 255, 0, 0, 0, 255, 0, 0, 0, 255];
    let mut out = Vec::new();
    {
        let mut enc = gif::Encoder::new(&mut out, 3, 2, &palette).unwrap();
        if let Some(r) = repeat {
            enc.set_repeat(r).unwrap();
        }
        for (i, d) in delays.iter().enumerate() {
            let mut frame = gif::Frame::from_indexed_pixels(3, 2, vec![(i % 4) as u8; 6], transparent[i]);
            frame.delay = *d;
            enc.write_frame(&frame).unwrap();
        }
    }
    out
}

#[test]
fn summary_of_two_frame_gif() {
    let data = make_gif(&[10, 20], &[None, Some(2)], Some(gif::Repeat::Infinite));
    let meta = get_metadata(&data, true).unwrap();
    assert_eq!(meta.width, 3);
    assert_eq!(meta.height, 2);
    assert_eq!(meta.frame_count, 2);
    assert_eq!(meta.total_duration_cs, 30);
    assert_eq!(meta.loop_count, 0);
    assert!(meta.has_global_palette);
    assert_eq!(meta.global_palette_size, Some(4));
    assert!(meta.uses_transparency);
    assert_eq!(
        meta.frames,
        vec![
            FrameMeta { index: 0, delay_cs: 10, transparent_index: None },
            FrameMeta { index: 1, delay_cs: 20, transparent_index: Some(2) },
        ]
    );
}

#[test]
fn summary_without_frame_details() {
    let data = make_gif(&[7, 8, 9], &[None, None, None], Some(gif::Repeat::Finite(4)));
    let meta = get_metadata(&data, false).unwrap();
    assert_eq!(meta.frame_count, 3);
    assert_eq!(meta.total_duration_cs, 24);
    assert_eq!(meta.loop_count, 4);
    assert!(meta.frames.is_empty());
    assert!(!meta.uses_transparency);
}

#[test]
fn missing_loop_block_reports_one_play() {
    let data = make_gif(&[10], &[None], None);
    let meta = get_metadata(&data, false).unwrap();
    assert_eq!(meta.loop_count, 1);
}

#[test]
fn loop_policy_values() {
    assert_eq!(loop_count_or_default(Err(GifError::NotFound), MissingLoopPolicy::PlayOnce), 1);
    assert_eq!(loop_count_or_default(Err(GifError::Truncated), MissingLoopPolicy::Infinite), 0);
    assert_eq!(loop_count_or_default(Ok(6), MissingLoopPolicy::PlayOnce), 6);
}

#[test]
fn unreadable_stream_has_no_summary() {
    assert!(matches!(get_metadata(b"not a gif at all", false), Err(GifError::Decode)));
    assert!(matches!(get_metadata(&[], true), Err(GifError::Decode)));
}
