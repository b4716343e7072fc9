//! Rewriting the timing and loop count of a GIF: decode, adjust delays,
//! re-encode.

use std::collections::HashMap;

use vstd::prelude::*;

use crate::codec::{gif_preamble, ColorMode, FrameData, FrameSpec, RepeatMode};
use crate::gifmeta_structs::GifError;
use crate::info::{loop_count_or_default, reported_loop_count, MissingLoopPolicy};
use crate::loop_count::{extract_loop_count, has_header, lemma_block_after, loop_count_in, loop_block};
use crate::stream::{
    decode_gif, decoded_gif, encode_gif, frame_encodable, frame_views, gif_file, palette_bytes, DecodedGif,
};

verus! {

broadcast use vstd::std_specs::hash::group_hash_axioms;

/// The delay of frame `index` after a rewrite: its override if it has one,
/// else the uniform delay if one is given, else its own.
pub open spec fn retimed_delay(
    original: u16,
    index: int,
    delay_all: Option<u16>,
    overrides: Map<usize, u16>,
) -> u16 {
    if 0 <= index <= usize::MAX && overrides.contains_key(index as usize) {
        overrides[index as usize]
    } else {
        match delay_all {
            Some(d) => d,
            None => original,
        }
    }
}

/// Frame `index` after a rewrite: only its delay changes.
pub open spec fn retimed(
    frame: FrameSpec,
    index: int,
    delay_all: Option<u16>,
    overrides: Map<usize, u16>,
) -> FrameSpec {
    FrameSpec { delay: retimed_delay(frame.delay, index, delay_all, overrides), ..frame }
}

/// Every frame after a rewrite, in the same order.
pub open spec fn retimed_all(
    frames: Seq<FrameSpec>,
    delay_all: Option<u16>,
    overrides: Map<usize, u16>,
) -> Seq<FrameSpec> {
    Seq::new(frames.len(), |i: int| retimed(frames[i], i, delay_all, overrides))
}

/// The per-frame overrides a rewrite applies; none when absent.
pub open spec fn overrides_of(frame_delays: Option<HashMap<usize, u16>>) -> Map<usize, u16> {
    match frame_delays {
        Some(m) => m@,
        None => Map::empty(),
    }
}

/// A rewrite that asks for no change at all.
pub open spec fn is_no_op(
    loop_count: Option<u16>,
    delay_all: Option<u16>,
    frame_delays: Option<HashMap<usize, u16>>,
) -> bool {
    loop_count is None && delay_all is None && overrides_of(frame_delays).is_empty()
}

/// The repeat directive that writes the loop count `count` so that it reads
/// back unchanged: 0 repeats forever, any other count is stored as it is.
pub open spec fn repeat_for(count: u16) -> RepeatMode {
    if count == 0 {
        RepeatMode::Infinite
    } else {
        RepeatMode::Finite(count)
    }
}

/// The loop count a rewrite gives its output: the one asked for, else the one
/// the source reports (1 when it declares none).
pub open spec fn effective_loop_count(requested: Option<u16>, source: Seq<u8>) -> u16 {
    match requested {
        Some(n) => n,
        None => reported_loop_count(loop_count_in(source), MissingLoopPolicy::PlayOnce),
    }
}

/// The stream a rewrite of `source` writes, given what it decodes to.
pub open spec fn rewritten(
    source: Seq<u8>,
    loop_count: Option<u16>,
    delay_all: Option<u16>,
    overrides: Map<usize, u16>,
) -> Seq<u8> {
    let g = decoded_gif(source, ColorMode::Indexed, None)->Some_0;
    gif_file(
        g.width,
        g.height,
        palette_bytes(g.palette),
        repeat_for(effective_loop_count(loop_count, source)),
        retimed_all(g.frames, delay_all, overrides),
    )
}

/// The repeat directive that writes the loop count `count`.
pub fn repeat_mode_for(count: u16) -> (r: RepeatMode)
    ensures
        r == repeat_for(count),
{
    if count == 0 {
        RepeatMode::Infinite
    } else {
        RepeatMode::Finite(count)
    }
}

/// Gives frame `index` its new delay; every other field is kept.
pub fn retime_frame(
    frame: FrameData,
    index: usize,
    delay_all: Option<u16>,
    overrides: &HashMap<usize, u16>,
) -> (r: FrameData)
    ensures
        r@ == retimed(frame@, index as int, delay_all, overrides@),
{
    let mut f = frame;
    if let Some(d) = delay_all {
        f.delay = d;
    }
    if let Some(d) = overrides.get(&index) {
        f.delay = *d;
    }
    f
}

/// Gives every frame its new delay, keeping the frames, their order and every
/// other field.
pub fn retime_frames(
    frames: Vec<FrameData>,
    delay_all: Option<u16>,
    overrides: &HashMap<usize, u16>,
) -> (r: Vec<FrameData>)
    ensures
        frame_views(r@) == retimed_all(frame_views(frames@), delay_all, overrides@),
{
    let ghost source = frames@;
    let mut out: Vec<FrameData> = Vec::new();
    let mut index: usize = 0;
    for frame in it: frames
        invariant
            it.seq() == source,
            index == it.index(),
            out@.len() == index,
            forall|i: int| 0 <= i < index ==> (#[trigger] out@[i])@ == retimed(source[i]@, i, delay_all, overrides@),
    {
        out.push(retime_frame(frame, index, delay_all, overrides));
        index = out.len();
    }
    assert(frame_views(out@) =~= retimed_all(frame_views(source), delay_all, overrides@));
    out
}

/// Rewrites the timing of a GIF byte stream: a new loop count, a uniform delay
/// for every frame, and per-frame delay overrides, which take precedence over
/// the uniform delay. Without a new loop count the source's own is kept.
/// Screen size, global palette, frame order, count and every frame field but
/// the delay are kept. Asking for no change at all is an error, reported
/// before anything is decoded.
pub fn apply_modifications(
    data: &[u8],
    loop_count: Option<u16>,
    global_delay: Option<u16>,
    frame_delays: Option<HashMap<usize, u16>>,
) -> (r: Result<Vec<u8>, GifError>)
    ensures
        r == Err::<Vec<u8>, GifError>(GifError::NoOp) <==> is_no_op(
            loop_count,
            global_delay,
            frame_delays,
        ),
        r is Ok ==> decoded_gif(data@, ColorMode::Indexed, None) is Some && r->Ok_0@ == rewritten(
            data@,
            loop_count,
            global_delay,
            overrides_of(frame_delays),
        ),
        !is_no_op(loop_count, global_delay, frame_delays) && decoded_gif(data@, ColorMode::Indexed, None)
            is None ==> r is Err,
        ({
            let g = decoded_gif(data@, ColorMode::Indexed, None)->Some_0;
            let frames = retimed_all(g.frames, global_delay, overrides_of(frame_delays));
            &&& !is_no_op(loop_count, global_delay, frame_delays)
            &&& decoded_gif(data@, ColorMode::Indexed, None) is Some
            &&& g.frames.len() < usize::MAX
            &&& palette_bytes(g.palette).len() / 3 <= 256
            &&& forall|i: int|
                0 <= i < frames.len() ==> frame_encodable(
                    #[trigger] frames[i],
                    palette_bytes(g.palette).len() >= 3,
                )
        }) ==> r is Ok,
        r == Err::<Vec<u8>, GifError>(GifError::Decode) ==> decoded_gif(
            data@,
            ColorMode::Indexed,
            None,
        ) is None,
        r is Ok ==> ({
            let g = decoded_gif(data@, ColorMode::Indexed, None)->Some_0;
            let frames = retimed_all(g.frames, global_delay, overrides_of(frame_delays));
            &&& palette_bytes(g.palette).len() / 3 <= 256
            &&& forall|i: int|
                0 <= i < frames.len() ==> frame_encodable(
                    #[trigger] frames[i],
                    palette_bytes(g.palette).len() >= 3,
                )
        }),
        r is Ok ==> ({
            let g = decoded_gif(data@, ColorMode::Indexed, None)->Some_0;
            !has_header(palette_bytes(g.palette)) ==> loop_count_in(
                r->Ok_0@,
            ) == Ok::<u16, GifError>(effective_loop_count(loop_count, data@))
        }),
        r is Err ==> r == Err::<Vec<u8>, GifError>(GifError::NoOp) || r == Err::<Vec<u8>, GifError>(
            GifError::Decode,
        ) || r == Err::<Vec<u8>, GifError>(GifError::Encode) || r == Err::<Vec<u8>, GifError>(
            GifError::TooLarge,
        ),
{
    let overrides: HashMap<usize, u16> = match frame_delays {
        Some(m) => m,
        None => HashMap::new(),
    };
    if loop_count.is_none() && global_delay.is_none() && overrides.is_empty() {
        return Err(GifError::NoOp);
    }
    let count = effective_loop_count_of(data, loop_count);
    let gif = decode_gif(data, ColorMode::Indexed, None)?;
    let ghost g = gif@;
    let DecodedGif { width, height, global_palette, frames } = gif;
    let frames = retime_frames(frames, global_delay, &overrides);
    let out = encode_gif(width, height, &global_palette, repeat_mode_for(count), &frames);
    proof {
        let ghost retimed_views = retimed_all(g.frames, global_delay, overrides@);
        assert forall|i: int| 0 <= i < frames@.len() implies (#[trigger] frames@[i])@ == retimed_views[i] by {
            assert(frame_views(frames@)[i] == frames@[i]@);
        }
        if out is Ok && !has_header(palette_bytes(g.palette)) {
            lemma_rewrite_loop_count(
                g.width,
                g.height,
                palette_bytes(g.palette),
                count,
                retimed_all(g.frames, global_delay, overrides@),
            );
        }
    }
    out
}

/// The loop count a rewrite of `data` gives its output.
pub fn effective_loop_count_of(data: &[u8], requested: Option<u16>) -> (r: u16)
    ensures
        r == effective_loop_count(requested, data@),
{
    match requested {
        Some(n) => n,
        None => loop_count_or_default(extract_loop_count(data), MissingLoopPolicy::PlayOnce),
    }
}

/// With a uniform delay and no overrides, a rewritten frame differs from the
/// source frame in its delay alone, which becomes the uniform delay.
pub proof fn lemma_uniform_delay_keeps_content(frame: FrameSpec, index: int, delay: u16)
    ensures
        retimed(frame, index, Some(delay), Map::empty()) == (FrameSpec { delay, ..frame }),
{
}

/// A per-frame override beats the uniform delay: the overridden frame gets its
/// override, every other frame the uniform delay.
pub proof fn lemma_override_precedence(
    frame: FrameSpec,
    index: usize,
    delay: u16,
    overrides: Map<usize, u16>,
)
    ensures
        overrides.contains_key(index) ==> retimed(frame, index as int, Some(delay), overrides).delay
            == overrides[index],
        !overrides.contains_key(index) ==> retimed(frame, index as int, Some(delay), overrides).delay
            == delay,
{
}

/// The stream a rewrite writes declares the loop count it was asked for,
/// unless its palette spells out a looping-block header. Without a requested
/// count, that is the count the source reports, so the loop count is kept.
pub proof fn lemma_rewrite_loop_count(
    width: u16,
    height: u16,
    palette: Seq<u8>,
    count: u16,
    frames: Seq<FrameSpec>,
)
    requires
        !has_header(palette),
        palette.len() / 3 <= 256,
    ensures
        loop_count_in(gif_file(width, height, palette, repeat_for(count), frames)) == Ok::<u16, GifError>(
            count,
        ),
{
    crate::stream::lemma_preamble_without_header(width, height, palette);
    let pre = gif_preamble(width, height, palette);
    let rest = crate::stream::frames_bytes(frames) + seq![0x3bu8];
    assert(crate::codec::repeat_block(repeat_for(count)) == loop_block(count));
    assert(gif_file(width, height, palette, repeat_for(count), frames) =~= pre + loop_block(count) + rest);
    lemma_block_after(pre, count, rest);
}

} // verus!
