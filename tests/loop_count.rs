use gifmeta::gifmeta_structs::GifError;
use gifmeta::loop_count::{extract_loop_count, find_loop_header, set_loop_count};

const NETSCAPE_HEADER: [u8; 16] = [
    0x21, 0xFF, 0x0B, b'N', b'E', b'T', b'S', b'C', b'A', b'P', b'E', b'2', b'.', b'0', 0x03, 0x01,
];

/// A small animation with a four-colour global palette; `repeat` of `None`
/// leaves the looping block out.
fn make_gif(delays: &[u16], repeat: Option<gif::Repeat>) -> Vec<u8> {
    let palette: [u8; 12] = [0, 0, 0, 255, 0, 0, 0, 255, 0, 0, 0, 255];
    let mut out = Vec::new();
    {
        let mut enc = gif::Encoder::new(&mut out, 2, 2, &palette).unwrap();
        if let Some(r) = repeat {
            enc.set_repeat(r).unwrap();
        }
        for (i, d) in delays.iter().enumerate() {
            let mut frame = gif::Frame::from_indexed_pixels(2, 2, vec![(i % 4) as u8; 4], None);
            frame.delay = *d;
            enc.write_frame(&frame).unwrap();
        }
    }
    out
}

#[test]
fn test_set_loop_variants() {
    let input = make_gif(&[10, 20], None);
    for &loop_value in &[0u16, 1, 2] {
        let output = set_loop_count(&input, loop_value).expect("Failed to set loop count");
        let actual = extract_loop_count(&output).unwrap();
        assert_eq!(actual, loop_value, "Loop count did not match for value {}", loop_value);
    }
}

#[test]
fn reads_infinite_loop_count() {
    let data = make_gif(&[10], Some(gif::Repeat::Infinite));
    assert_eq!(extract_loop_count(&data).unwrap(), 0);
}

#[test]
fn reads_finite_loop_count() {
    let data = make_gif(&[10], Some(gif::Repeat::Finite(7)));
    assert_eq!(extract_loop_count(&data).unwrap(), 7);
}

#[test]
fn missing_loop_block_is_not_found() {
    let data = make_gif(&[10], None);
    assert!(matches!(extract_loop_count(&data), Err(GifError::NotFound)));
    assert_eq!(find_loop_header(&data), None);
}

#[test]
fn marker_without_signature_is_ignored() {
    let mut data = vec![0u8; 8];
    data.extend_from_slice(&[0x21, 0xFF, 0x0B, b'X', b'X']);
    data.extend_from_slice(&[0u8; 20]);
    assert!(matches!(extract_loop_count(&data), Err(GifError::NotFound)));
}

#[test]
fn loop_block_cut_short_is_truncated() {
    let mut data = vec![0u8; 5];
    data.extend_from_slice(&NETSCAPE_HEADER);
    data.push(0x05);
    assert!(matches!(extract_loop_count(&data), Err(GifError::Truncated)));
    assert!(matches!(set_loop_count(&data, 3), Err(GifError::Truncated)));
}

#[test]
fn first_loop_block_wins() {
    let mut data = vec![0u8; 3];
    data.extend_from_slice(&NETSCAPE_HEADER);
    data.extend_from_slice(&[0x04, 0x00, 0x00]);
    data.extend_from_slice(&NETSCAPE_HEADER);
    data.extend_from_slice(&[0x09, 0x00, 0x00]);
    assert_eq!(find_loop_header(&data), Some(3));
    assert_eq!(extract_loop_count(&data).unwrap(), 4);
    let out = set_loop_count(&data, 300).unwrap();
    assert_eq!(out.len(), data.len());
    assert_eq!(&out[19..21], &[0x2C, 0x01]);
    assert_eq!(&out[38..40], &[0x09, 0x00]);
}

#[test]
fn existing_block_is_patched_in_place() {
    let data = make_gif(&[10, 20], Some(gif::Repeat::Infinite));
    let out = set_loop_count(&data, 513).unwrap();
    assert_eq!(out.len(), data.len());
    let at = find_loop_header(&data).unwrap();
    assert_eq!(out[at + 16], 0x01);
    assert_eq!(out[at + 17], 0x02);
    let differing: Vec<usize> = (0..data.len()).filter(|&i| data[i] != out[i]).collect();
    assert!(differing.iter().all(|&i| i == at + 16 || i == at + 17));
    assert_eq!(extract_loop_count(&out).unwrap(), 513);
}

#[test]
fn new_block_goes_after_global_color_table() {
    let data = make_gif(&[10], None);
    // Four palette entries: the packed byte announces 2^(1+1) entries, 12 bytes.
    assert_eq!(data[10] & 0x87, 0x81);
    let out = set_loop_count(&data, 5).unwrap();
    assert_eq!(out.len(), data.len() + 19);
    assert_eq!(&out[..25], &data[..25]);
    assert_eq!(&out[25..41], &NETSCAPE_HEADER);
    assert_eq!(&out[41..44], &[0x05, 0x00, 0x00]);
    assert_eq!(&out[44..], &data[25..]);
}

#[test]
fn new_block_without_global_color_table() {
    let mut data = b"GIF89a".to_vec();
    data.extend_from_slice(&[1, 0, 1, 0, 0x00, 0, 0]);
    data.push(0x3B);
    let out = set_loop_count(&data, 2).unwrap();
    assert_eq!(&out[13..29], &NETSCAPE_HEADER);
    assert_eq!(&out[29..32], &[0x02, 0x00, 0x00]);
    assert_eq!(out[32], 0x3B);
    assert_eq!(extract_loop_count(&out).unwrap(), 2);
}

#[test]
fn too_short_stream_cannot_take_a_block() {
    assert!(matches!(set_loop_count(&[0u8; 5], 1), Err(GifError::Truncated)));
    // Packed byte announces a 768-byte table that is not there.
    let mut data = b"GIF89a".to_vec();
    data.extend_from_slice(&[1, 0, 1, 0, 0x87, 0, 0]);
    assert!(matches!(set_loop_count(&data, 1), Err(GifError::Truncated)));
}

#[test]
fn round_trip_any_count() {
    let plain = make_gif(&[10, 20], None);
    let looping = make_gif(&[10, 20], Some(gif::Repeat::Finite(3)));
    for &v in &[0u16, 1, 2, 255, 256, 1000, 65534, 65535] {
        for source in [&plain, &looping] {
            let out = set_loop_count(source, v).unwrap();
            assert_eq!(extract_loop_count(&out).unwrap(), v);
        }
    }
}

#[test]
fn writing_twice_adds_no_second_block() {
    let data = make_gif(&[10, 20], None);
    let once = set_loop_count(&data, 4).unwrap();
    let twice = set_loop_count(&once, 4).unwrap();
    assert_eq!(once, twice);
    assert_eq!(extract_loop_count(&twice).unwrap(), 4);
    let other = set_loop_count(&once, 9).unwrap();
    assert_eq!(other.len(), once.len());
    assert_eq!(extract_loop_count(&other).unwrap(), 9);
}
