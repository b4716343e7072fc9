//! The metadata summary of a GIF: dimensions, frames, timing, palette,
//! transparency and loop count.

use vstd::prelude::*;

use crate::codec::{ColorMode, FrameSpec};
use crate::gifmeta_structs::{FrameMeta, GifError, GifMetadata};
use crate::loop_count::{extract_loop_count, loop_count_in};
use crate::stream::{decode_gif, decoded_gif, frame_views, DecodedGif, GifSpec};

verus! {

/// What the summary reports as loop count when the stream declares none.
#[derive(Clone, Copy, Debug, PartialEq, Eq)]
pub enum MissingLoopPolicy {
    /// Report 1: the animation plays once.
    PlayOnce,
    /// Report 0: the animation repeats forever.
    Infinite,
}

pub open spec fn policy_count(policy: MissingLoopPolicy) -> u16 {
    match policy {
        MissingLoopPolicy::PlayOnce => 1,
        MissingLoopPolicy::Infinite => 0,
    }
}

/// The loop count reported for the outcome of reading the looping block: the
/// count read, or the policy's value when the block is absent or incomplete.
pub open spec fn reported_loop_count(read: Result<u16, GifError>, policy: MissingLoopPolicy) -> u16 {
    match read {
        Ok(n) => n,
        Err(_) => policy_count(policy),
    }
}

/// Sum of the delays of `frames`, in centiseconds.
pub open spec fn delay_total(frames: Seq<FrameSpec>) -> int
    decreases frames.len(),
{
    if frames.len() == 0 {
        0
    } else {
        delay_total(frames.drop_last()) + frames.last().delay
    }
}

/// The per-frame entries of a summary.
pub open spec fn frame_metas(frames: Seq<FrameSpec>) -> Seq<FrameMeta> {
    Seq::new(
        frames.len(),
        |i: int|
            FrameMeta {
                index: i as usize,
                delay_cs: frames[i].delay,
                transparent_index: frames[i].transparent,
            },
    )
}

pub open spec fn any_transparent(frames: Seq<FrameSpec>) -> bool {
    exists|i: int| 0 <= i < frames.len() && (#[trigger] frames[i]).transparent is Some
}

/// Number of three-byte entries of a colour table.
pub open spec fn palette_entries(palette: Option<Seq<u8>>) -> Option<usize> {
    match palette {
        Some(p) => Some((p.len() / 3) as usize),
        None => None,
    }
}

/// The summary's counters can hold the stream's frame count and total duration.
pub open spec fn summary_fits(gif: GifSpec) -> bool {
    gif.frames.len() <= u32::MAX && delay_total(gif.frames) <= u32::MAX
}

/// `m` summarises `gif`, with the given loop count.
pub open spec fn is_summary_of(m: GifMetadata, gif: GifSpec, show_frames: bool, loop_count: u16) -> bool {
    &&& m.width == gif.width
    &&& m.height == gif.height
    &&& m.frame_count == gif.frames.len()
    &&& m.total_duration_cs == delay_total(gif.frames)
    &&& m.loop_count == loop_count
    &&& m.frames@ == (if show_frames {
        frame_metas(gif.frames)
    } else {
        Seq::empty()
    })
    &&& m.has_global_palette == gif.palette is Some
    &&& m.global_palette_size == palette_entries(gif.palette)
    &&& m.uses_transparency == any_transparent(gif.frames)
}

/// The loop count to report for the outcome of reading the looping block.
pub fn loop_count_or_default(read: Result<u16, GifError>, policy: MissingLoopPolicy) -> (r: u16)
    ensures
        r == reported_loop_count(read, policy),
{
    match read {
        Ok(n) => n,
        Err(_) => match policy {
            MissingLoopPolicy::PlayOnce => 1,
            MissingLoopPolicy::Infinite => 0,
        },
    }
}

/// Summarises a decoded stream. Fails only when the frame count or the total
/// duration does not fit the summary's 32-bit counters.
pub fn summarize(gif: &DecodedGif, show_frames: bool, loop_count: u16) -> (r: Result<GifMetadata, GifError>)
    ensures
        r is Ok <==> summary_fits(gif@),
        r is Ok ==> is_summary_of(r->Ok_0, gif@, show_frames, loop_count),
        r is Err ==> r == Err::<GifMetadata, GifError>(GifError::TooLarge),
{
    let n = gif.frames.len();
    if n > u32::MAX as usize {
        return Err(GifError::TooLarge);
    }
    let ghost frames = gif@.frames;
    let mut total: u64 = 0;
    let mut uses_transparency = false;
    let mut metas: Vec<FrameMeta> = Vec::new();
    let mut i: usize = 0;
    while i < n
        invariant
            n == frames.len(),
            frames == frame_views(gif.frames@),
            n <= u32::MAX,
            i <= n,
            total == delay_total(frames.subrange(0, i as int)),
            total <= i * 65535,
            uses_transparency == any_transparent(frames.subrange(0, i as int)),
            metas@ == (if show_frames {
                frame_metas(frames.subrange(0, i as int))
            } else {
                Seq::empty()
            }),
        decreases n - i,
    {
        let frame = &gif.frames[i];
        proof {
            assert(frames.subrange(0, i + 1).drop_last() =~= frames.subrange(0, i as int));
        }
        total = total + frame.delay as u64;
        if frame.transparent.is_some() {
            uses_transparency = true;
        }
        if show_frames {
            metas.push(FrameMeta { index: i, delay_cs: frame.delay, transparent_index: frame.transparent });
            assert(metas@ =~= frame_metas(frames.subrange(0, i + 1)));
        }
        proof {
            let next = frames.subrange(0, i + 1);
            if uses_transparency && !any_transparent(frames.subrange(0, i as int)) {
                assert(next[i as int] == frames[i as int]);
            }
            if any_transparent(next) {
                let j = choose|j: int| 0 <= j < next.len() && (#[trigger] next[j]).transparent is Some;
                if j < i {
                    assert(frames.subrange(0, i as int)[j] == next[j]);
                }
            }
            if any_transparent(frames.subrange(0, i as int)) {
                let j = choose|j: int|
                    0 <= j < i && (#[trigger] frames.subrange(0, i as int)[j]).transparent is Some;
                assert(next[j] == frames.subrange(0, i as int)[j]);
            }
        }
        i += 1;
    }
    assert(frames.subrange(0, n as int) =~= frames);
    if total > u32::MAX as u64 {
        return Err(GifError::TooLarge);
    }
    let palette_size = match &gif.global_palette {
        Some(p) => Some(p.len() / 3),
        None => None,
    };
    Ok(
        GifMetadata {
            width: gif.width,
            height: gif.height,
            frame_count: n as u32,
            total_duration_cs: total as u32,
            loop_count,
            frames: metas,
            has_global_palette: gif.global_palette.is_some(),
            global_palette_size: palette_size,
            uses_transparency,
        },
    )
}

/// Extracts the metadata summary of a GIF byte stream. A missing or incomplete
/// looping block is no error: the loop count is then reported as 1.
pub fn get_metadata(data: &[u8], show_frames: bool) -> (r: Result<GifMetadata, GifError>)
    ensures
        r is Ok ==> decoded_gif(data@, ColorMode::Indexed, None) is Some && is_summary_of(
            r->Ok_0,
            decoded_gif(data@, ColorMode::Indexed, None)->Some_0,
            show_frames,
            reported_loop_count(loop_count_in(data@), MissingLoopPolicy::PlayOnce),
        ),
        decoded_gif(data@, ColorMode::Indexed, None) is Some && decoded_gif(
            data@,
            ColorMode::Indexed,
            None,
        )->Some_0.frames.len() < usize::MAX && summary_fits(
            decoded_gif(data@, ColorMode::Indexed, None)->Some_0,
        ) ==> r is Ok,
        decoded_gif(data@, ColorMode::Indexed, None) is None ==> r is Err,
        r == Err::<GifMetadata, GifError>(GifError::Decode) ==> decoded_gif(
            data@,
            ColorMode::Indexed,
            None,
        ) is None,
        r is Err ==> r == Err::<GifMetadata, GifError>(GifError::Decode) || r == Err::<
            GifMetadata,
            GifError,
        >(GifError::TooLarge),
{
    let gif = decode_gif(data, ColorMode::Indexed, None)?;
    let loop_count = loop_count_or_default(extract_loop_count(data), MissingLoopPolicy::PlayOnce);
    summarize(&gif, show_frames, loop_count)
}

} // verus!
