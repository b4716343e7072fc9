//! Whole-stream decoding and encoding, driven frame by frame through the codec.

use vstd::prelude::*;
use vstd::arithmetic::power2::lemma2_to64;

use crate::codec::{
    bytes_view, finish, frame_step, frame_writable, gif_frame_bytes, gif_preamble, gif_screen,
    global_palette, new_encoder, next_frame, open_decoder, reader_data, reader_mode, reader_position,
    repeat_block, screen_height, screen_width, set_repeat, write_frame, writer_has_global,
    writer_output, table_size_field, ColorMode, FrameData, FrameSpec, FrameStep, RepeatMode,
};
use crate::gifmeta_structs::GifError;
use crate::loop_count::{has_header, header_at, loop_header, loop_header_byte, LOOP_HEADER_LEN};

verus! {

/// A GIF stream decoded into memory.
#[derive(Debug)]
pub struct DecodedGif {
    /// Logical screen width.
    pub width: u16,
    /// Logical screen height.
    pub height: u16,
    /// Global colour table, three bytes per entry.
    pub global_palette: Option<Vec<u8>>,
    /// The frames, in stream order.
    pub frames: Vec<FrameData>,
}

/// The value of a decoded stream.
pub struct GifSpec {
    pub width: u16,
    pub height: u16,
    pub palette: Option<Seq<u8>>,
    pub frames: Seq<FrameSpec>,
}

pub open spec fn frame_views(frames: Seq<FrameData>) -> Seq<FrameSpec> {
    Seq::new(frames.len(), |i: int| frames[i]@)
}

impl View for DecodedGif {
    type V = GifSpec;

    open spec fn view(&self) -> GifSpec {
        GifSpec {
            width: self.width,
            height: self.height,
            palette: bytes_view(self.global_palette),
            frames: frame_views(self.frames@),
        }
    }
}

/// The first `n` requests for a frame all yield one.
pub open spec fn frames_ok(data: Seq<u8>, mode: ColorMode, n: nat) -> bool {
    forall|i: nat| i < n ==> #[trigger] frame_step(data, mode, i) is Frame
}

/// Decoding stops cleanly after `n` frames: at the trailer, or at the limit.
pub open spec fn stops_at(data: Seq<u8>, mode: ColorMode, limit: Option<usize>, n: nat) -> bool {
    &&& frames_ok(data, mode, n)
    &&& match limit {
        Some(l) => n <= l && (n == l || frame_step(data, mode, n) is End),
        None => frame_step(data, mode, n) is End,
    }
}

/// The stream `data` decodes to in `mode`, with at most `limit` frames when a
/// limit is given; `None` when the header or a frame before the stop fails.
pub open spec fn decoded_gif(data: Seq<u8>, mode: ColorMode, limit: Option<usize>) -> Option<GifSpec> {
    match gif_screen(data, mode) {
        None => None,
        Some(screen) => if exists|n: nat| stops_at(data, mode, limit, n) {
            let n = choose|n: nat| stops_at(data, mode, limit, n);
            Some(
                GifSpec {
                    width: screen.width,
                    height: screen.height,
                    palette: screen.palette,
                    frames: Seq::new(n, |i: int| frame_step(data, mode, i as nat)->Frame_0),
                },
            )
        } else {
            None
        },
    }
}

/// The bytes of a palette, none when absent.
pub open spec fn palette_bytes(palette: Option<Seq<u8>>) -> Seq<u8> {
    match palette {
        Some(p) => p,
        None => Seq::empty(),
    }
}

/// The encoded frames, one after the other.
pub open spec fn frames_bytes(frames: Seq<FrameSpec>) -> Seq<u8>
    decreases frames.len(),
{
    if frames.len() == 0 {
        Seq::empty()
    } else {
        frames_bytes(frames.drop_last()) + gif_frame_bytes(frames.last())
    }
}

/// The complete stream the encoder writes: preamble, repeat block, frames and
/// trailer.
pub open spec fn gif_file(
    width: u16,
    height: u16,
    palette: Seq<u8>,
    repeat: RepeatMode,
    frames: Seq<FrameSpec>,
) -> Seq<u8> {
    gif_preamble(width, height, palette) + repeat_block(repeat) + frames_bytes(frames) + seq![0x3bu8]
}

/// A frame the encoder is handed: writable, and with pixels whenever its
/// buffer holds any.
pub open spec fn frame_encodable(frame: FrameSpec, has_global: bool) -> bool {
    &&& frame_writable(frame, has_global)
    &&& (frame.width > 0 && frame.height > 0) || frame.buffer.len() == 0
}

proof fn lemma_stop_unique(data: Seq<u8>, mode: ColorMode, limit: Option<usize>, n: nat, m: nat)
    requires
        stops_at(data, mode, limit, n),
        stops_at(data, mode, limit, m),
    ensures
        n == m,
{
    if n < m {
        assert(frame_step(data, mode, n) is Frame);
    } else if m < n {
        assert(frame_step(data, mode, m) is Frame);
    }
}

/// Decodes the frames of a GIF byte stream in order, tolerating unknown
/// extension blocks: every frame, or the first `limit` when a limit is given
/// (later frames are then not decoded).
pub fn decode_gif(data: &[u8], mode: ColorMode, limit: Option<usize>) -> (r: Result<DecodedGif, GifError>)
    ensures
        r is Ok ==> decoded_gif(data@, mode, limit) == Some(r->Ok_0@),
        decoded_gif(data@, mode, limit) is Some && decoded_gif(data@, mode, limit)->Some_0.frames.len()
            < usize::MAX ==> r is Ok,
        r == Err::<DecodedGif, GifError>(GifError::Decode) ==> decoded_gif(data@, mode, limit) is None,
        r == Err::<DecodedGif, GifError>(GifError::TooLarge) ==> limit is None && frames_ok(
            data@,
            mode,
            usize::MAX as nat,
        ),
        r is Err ==> r == Err::<DecodedGif, GifError>(GifError::Decode) || r == Err::<
            DecodedGif,
            GifError,
        >(GifError::TooLarge),
{
    let ghost d = data@;
    let mut reader = match open_decoder(data, mode) {
        Ok(reader) => reader,
        Err(_) => {
            return Err(GifError::Decode);
        },
    };
    let width = screen_width(&reader);
    let height = screen_height(&reader);
    let palette = global_palette(&reader);
    let ghost screen = gif_screen(d, mode)->Some_0;
    let mut frames: Vec<FrameData> = Vec::new();
    loop
        invariant
            d == data@,
            gif_screen(d, mode) is Some,
            screen == gif_screen(d, mode)->Some_0,
            width == screen.width,
            height == screen.height,
            bytes_view(palette) == screen.palette,
            reader_data(reader) == d,
            reader_mode(reader) == mode,
            reader_position(reader) == frames@.len(),
            frames_ok(d, mode, frames@.len()),
            forall|i: int| 0 <= i < frames@.len() ==> frame_step(d, mode, i as nat) == FrameStep::Frame(#[trigger] frames@[i]@),
            match limit {
                Some(l) => frames@.len() <= l,
                None => true,
            },
        ensures
            stops_at(d, mode, limit, frames@.len()),
            forall|i: int| 0 <= i < frames@.len() ==> frame_step(d, mode, i as nat) == FrameStep::Frame(#[trigger] frames@[i]@),
        decreases usize::MAX - frames.len(),
    {
        if let Some(l) = limit {
            if frames.len() == l {
                break;
            }
        }
        if frames.len() == usize::MAX {
            proof {
                assert(frames@.len() == usize::MAX as nat);
                if exists|m: nat| stops_at(d, mode, limit, m) {
                    let m = choose|m: nat| stops_at(d, mode, limit, m);
                    if m < frames@.len() {
                        assert(frame_step(d, mode, m) is Frame);
                    }
                }
            }
            return Err(GifError::TooLarge);
        }
        let ghost n = frames@.len();
        match next_frame(&mut reader) {
            Ok(Some(frame)) => {
                frames.push(frame);
                assert forall|i: nat| i < n + 1 implies #[trigger] frame_step(d, mode, i) is Frame by {
                    if i < n {
                        assert(frame_step(d, mode, i) is Frame);
                    }
                }
            },
            Ok(None) => break,
            Err(_) => {
                proof {
                    assert forall|m: nat| !stops_at(d, mode, limit, m) by {
                        if stops_at(d, mode, limit, m) {
                            if m > n {
                                assert(frame_step(d, mode, n) is Frame);
                            } else if m < n {
                                assert(frame_step(d, mode, m) is Frame);
                            }
                        }
                    }
                }
                return Err(GifError::Decode);
            },
        }
    }
    let gif = DecodedGif { width, height, global_palette: palette, frames };
    proof {
        let n = gif.frames@.len();
        let c = choose|c: nat| stops_at(d, mode, limit, c);
        lemma_stop_unique(d, mode, limit, n, c);
        assert(frame_views(gif.frames@) =~= Seq::new(n, |i: int| frame_step(d, mode, i as nat)->Frame_0));
    }
    Ok(gif)
}

/// Encodes a complete GIF stream: header and global palette, the repeat
/// directive, then the frames in order. A frame with no pixels but a non-empty
/// buffer is refused.
pub fn encode_gif(
    width: u16,
    height: u16,
    palette: &Option<Vec<u8>>,
    repeat: RepeatMode,
    frames: &Vec<FrameData>,
) -> (r: Result<Vec<u8>, GifError>)
    ensures
        r is Ok ==> r->Ok_0@ == gif_file(
            width,
            height,
            palette_bytes(bytes_view(*palette)),
            repeat,
            frame_views(frames@),
        ),
        r is Ok ==> palette_bytes(bytes_view(*palette)).len() / 3 <= 256 && forall|i: int|
            0 <= i < frames@.len() ==> frame_encodable(
                #[trigger] frames@[i]@,
                palette_bytes(bytes_view(*palette)).len() >= 3,
            ),
        palette_bytes(bytes_view(*palette)).len() / 3 <= 256 && (forall|i: int|
            0 <= i < frames@.len() ==> frame_encodable(
                #[trigger] frames@[i]@,
                palette_bytes(bytes_view(*palette)).len() >= 3,
            )) ==> r is Ok,
        r is Err ==> r == Err::<Vec<u8>, GifError>(GifError::Encode),
{
    let no_palette: Vec<u8> = Vec::new();
    let table: &[u8] = match palette {
        Some(p) => p.as_slice(),
        None => no_palette.as_slice(),
    };
    let ghost pal = palette_bytes(bytes_view(*palette));
    assert(table@ == pal);
    let mut writer = match new_encoder(width, height, table) {
        Ok(writer) => writer,
        Err(_) => {
            assert(!(pal.len() / 3 <= 256));
            return Err(GifError::Encode);
        },
    };
    let _ = set_repeat(&mut writer, repeat);
    let ghost views = frame_views(frames@);
    let mut i: usize = 0;
    while i < frames.len()
        invariant
            i <= frames@.len(),
            pal == palette_bytes(bytes_view(*palette)),
            views == frame_views(frames@),
            writer_has_global(writer) == (pal.len() >= 3),
            writer_output(writer) == gif_preamble(width, height, pal) + repeat_block(repeat)
                + frames_bytes(views.subrange(0, i as int)),
            forall|j: int| 0 <= j < i ==> frame_encodable(#[trigger] frames@[j]@, pal.len() >= 3),
        decreases frames.len() - i,
    {
        let frame = &frames[i];
        assert(frame@ == frames@[i as int]@);
        if !((frame.width > 0 && frame.height > 0) || frame.buffer.len() == 0) {
            assert(!frame_encodable(frames@[i as int]@, pal.len() >= 3));
            return Err(GifError::Encode);
        }
        if write_frame(&mut writer, frame).is_err() {
            assert(!frame_encodable(frames@[i as int]@, pal.len() >= 3));
            return Err(GifError::Encode);
        }
        proof {
            assert(views.subrange(0, i + 1).drop_last() =~= views.subrange(0, i as int));
        }
        i += 1;
    }
    assert(views.subrange(0, frames@.len() as int) =~= views);
    match finish(writer) {
        Ok(bytes) => Ok(bytes),
        Err(_) => Err(GifError::Encode),
    }
}

/// The encoder's preamble holds a looping-block header only where the palette
/// spells one out: its signature and screen descriptor cannot, and the zero
/// padding after the palette cannot.
pub proof fn lemma_preamble_without_header(width: u16, height: u16, palette: Seq<u8>)
    requires
        !has_header(palette),
        palette.len() / 3 <= 256,
    ensures
        !has_header(gif_preamble(width, height, palette)),
{
    let pre = gif_preamble(width, height, palette);
    let n = palette.len() / 3;
    let field = table_size_field(n);
    lemma2_to64();
    assert(pre.len() == 13 + 3 * n + 3 * (crate::codec::table_capacity(field) - n));
    assert forall|j: int| !header_at(pre, j) by {
        if header_at(pre, j) {
            let w = pre.subrange(j, j + LOOP_HEADER_LEN);
            assert(w == loop_header());
            if j <= 10 {
                assert(w[10 - j] == pre[10]);
                assert(loop_header()[10 - j] == loop_header_byte(10 - j));
            } else if j < 13 {
                assert(w[0] == pre[j]);
                assert(loop_header()[0] == loop_header_byte(0));
            } else if j + LOOP_HEADER_LEN <= 13 + 3 * n {
                assert(w =~= palette.subrange(j - 13, j - 13 + LOOP_HEADER_LEN));
                assert(header_at(palette, j - 13));
            } else {
                let k = if j >= 13 + 3 * n {
                    0
                } else {
                    13 + 3 * n - j
                };
                assert(w[k] == pre[j + k]);
                assert(pre[j + k] == 0);
                assert(loop_header()[k] == loop_header_byte(k));
            }
        }
    }
}

} // verus!
