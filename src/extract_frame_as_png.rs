//! Rendering one frame of an animation as PNG: frames are overlaid in order on
//! a persistent RGBA canvas the size of the logical screen.

use vstd::prelude::*;

use crate::codec::{ColorMode, FrameData, FrameSpec};
use crate::gifmeta_structs::GifError;
use crate::stream::{decode_gif, decoded_gif, frame_views};

verus! {

#[verifier::external_type_specification]
#[verifier::external_body]
pub struct ExImageError(image::ImageError);

/// An RGBA raster held in an `image::RgbaImage`, described by
/// [`canvas_bytes`], [`canvas_width`] and [`canvas_height`].
#[verifier::external_body]
pub struct Canvas {
    img: image::RgbaImage,
}

/// The canvas's pixels, four bytes (red, green, blue, alpha) each, row by row.
pub uninterp spec fn canvas_bytes(c: Canvas) -> Seq<u8>;

/// The canvas's width in pixels.
pub uninterp spec fn canvas_width(c: Canvas) -> nat;

/// The canvas's height in pixels.
pub uninterp spec fn canvas_height(c: Canvas) -> nat;

/// The PNG encoding of an RGBA raster of the given size.
pub uninterp spec fn png_rgba8(width: nat, height: nat, pixels: Seq<u8>) -> Seq<u8>;

/// `bytes` opens as a PNG of the given size: the eight-byte signature, then
/// the IHDR chunk (length 13) with the big-endian width and height.
pub open spec fn png_opens_with_size(bytes: Seq<u8>, width: nat, height: nat) -> bool {
    &&& bytes.len() >= 24
    &&& bytes.subrange(0, 8) == seq![0x89u8, 0x50u8, 0x4eu8, 0x47u8, 0x0du8, 0x0au8, 0x1au8, 0x0au8]
    &&& bytes.subrange(8, 16) == seq![0u8, 0u8, 0u8, 13u8, 0x49u8, 0x48u8, 0x44u8, 0x52u8]
    &&& bytes[16] as nat * 0x1000000 + bytes[17] as nat * 0x10000 + bytes[18] as nat * 0x100
        + bytes[19] as nat == width
    &&& bytes[20] as nat * 0x1000000 + bytes[21] as nat * 0x10000 + bytes[22] as nat * 0x100
        + bytes[23] as nat == height
}

/// Offset of the first byte of pixel `(x, y)` in an RGBA raster `width` pixels wide.
pub open spec fn pixel_offset(width: int, x: int, y: int) -> int {
    (y * width + x) * 4
}

/// `bytes` with the four bytes at `at` replaced by `pixel`.
pub open spec fn with_pixel(bytes: Seq<u8>, at: int, pixel: Seq<u8>) -> Seq<u8> {
    Seq::new(bytes.len(), |i: int| if at <= i < at + 4 { pixel[i - at] } else { bytes[i] })
}

/// Relies on `image::ImageBuffer::from_pixel` with `Rgba([0, 0, 0, 0])`: a
/// fully transparent canvas of the given size.
#[verifier::external_body]
pub(crate) fn transparent_canvas(width: u32, height: u32) -> (c: Canvas)
    requires
        4 * width * height <= usize::MAX,
    ensures
        canvas_width(c) == width,
        canvas_height(c) == height,
        canvas_bytes(c) == Seq::new((4 * width * height) as nat, |i: int| 0u8),
{
    Canvas { img: image::RgbaImage::from_pixel(width, height, image::Rgba([0, 0, 0, 0])) }
}

/// Relies on `image::ImageBuffer::put_pixel`: replaces the four bytes of pixel
/// `(x, y)`, which start at `(y * width + x) * 4`.
#[verifier::external_body]
pub(crate) fn put_pixel(c: &mut Canvas, x: u32, y: u32, pixel: [u8; 4])
    requires
        x < canvas_width(*old(c)),
        y < canvas_height(*old(c)),
    ensures
        canvas_width(*final(c)) == canvas_width(*old(c)),
        canvas_height(*final(c)) == canvas_height(*old(c)),
        canvas_bytes(*final(c)) == with_pixel(
            canvas_bytes(*old(c)),
            pixel_offset(canvas_width(*old(c)) as int, x as int, y as int),
            pixel@,
        ),
{
    c.img.put_pixel(x, y, image::Rgba(pixel));
}

/// Relies on `image::ImageBuffer::write_to` with `ImageFormat::Png`: the PNG
/// encoding of the canvas, which depends on its size and pixels alone, opens
/// with the signature and IHDR, and fails only for an empty canvas.
#[verifier::external_body]
pub(crate) fn encode_png(c: &Canvas) -> (r: Result<Vec<u8>, image::ImageError>)
    ensures
        r is Ok ==> r->Ok_0@ == png_rgba8(canvas_width(*c), canvas_height(*c), canvas_bytes(*c)),
        r is Ok ==> png_opens_with_size(r->Ok_0@, canvas_width(*c), canvas_height(*c)),
        canvas_width(*c) > 0 && canvas_height(*c) > 0 ==> r is Ok,
{
    let mut bytes: Vec<u8> = Vec::new();
    match c.img.write_to(&mut std::io::Cursor::new(&mut bytes), image::ImageFormat::Png) {
        Ok(()) => Ok(bytes),
        Err(e) => Err(e),
    }
}

/// Canvas pixel `(x, y)` lies under `frame`, and the frame's buffer holds all
/// four bytes of the frame pixel there.
pub open spec fn covers(frame: FrameSpec, x: int, y: int) -> bool {
    &&& frame.left <= x < frame.left + frame.width
    &&& frame.top <= y < frame.top + frame.height
    &&& pixel_offset(frame.width as int, x - frame.left, y - frame.top) + 3 < frame.buffer.len()
}

/// Canvas pixel `(x, y)` lies under a frame pixel that precedes frame position
/// `(fx, fy)` in row order.
pub open spec fn drawn_before(frame: FrameSpec, x: int, y: int, fx: int, fy: int) -> bool {
    y - frame.top < fy || (y - frame.top == fy && x - frame.left < fx)
}

/// Byte `k` of canvas pixel `(x, y)` once the frame pixels before `(fx, fy)`
/// have been drawn over `old`.
pub open spec fn partly_overlaid_byte(
    old: Seq<u8>,
    width: int,
    frame: FrameSpec,
    x: int,
    y: int,
    k: int,
    fx: int,
    fy: int,
) -> u8 {
    if covers(frame, x, y) && drawn_before(frame, x, y, fx, fy) {
        frame.buffer[pixel_offset(frame.width as int, x - frame.left, y - frame.top) + k]
    } else {
        old[pixel_offset(width, x, y) + k]
    }
}

/// `new` is `old` with the frame pixels before frame position `(fx, fy)` drawn.
pub open spec fn is_partly_overlaid(
    new: Seq<u8>,
    old: Seq<u8>,
    width: int,
    height: int,
    frame: FrameSpec,
    fx: int,
    fy: int,
) -> bool {
    &&& new.len() == old.len()
    &&& forall|x: int, y: int, k: int|
        0 <= x < width && 0 <= y < height && 0 <= k < 4 ==> #[trigger] new[pixel_offset(width, x, y) + k]
            == partly_overlaid_byte(old, width, frame, x, y, k, fx, fy)
}

/// `new` is `old` with `frame` drawn over it: every canvas pixel under a frame
/// pixel whose four bytes the buffer holds takes that pixel's value, replacing
/// (not blending) the old one; every other pixel keeps its value.
pub open spec fn is_overlaid(new: Seq<u8>, old: Seq<u8>, width: int, height: int, frame: FrameSpec) -> bool {
    is_partly_overlaid(new, old, width, height, frame, 0, frame.height as int)
}

proof fn lemma_pixel_offsets_distinct(width: int, x: int, y: int, k: int, x2: int, y2: int, k2: int)
    requires
        0 <= x < width,
        0 <= x2 < width,
        0 <= y,
        0 <= y2,
        0 <= k < 4,
        0 <= k2 < 4,
        pixel_offset(width, x, y) + k == pixel_offset(width, x2, y2) + k2,
    ensures
        x == x2,
        y == y2,
        k == k2,
{
    let a = y * width + x;
    let a2 = y2 * width + x2;
    assert(a == a2 && k == k2) by {
        assert(a * 4 + k == a2 * 4 + k2);
    }
    if y < y2 {
        assert(y * width + width <= y2 * width) by (nonlinear_arith)
            requires
                y < y2,
                0 <= width,
        ;
    } else if y2 < y {
        assert(y2 * width + width <= y * width) by (nonlinear_arith)
            requires
                y2 < y,
                0 <= width,
        ;
    }
}

/// Draws `frame`, an RGBA frame, over the canvas at the frame's offset. Frame
/// pixels outside the canvas, or without four bytes in the buffer, are skipped.
pub(crate) fn overlay_frame(canvas: &mut Canvas, width: u32, height: u32, frame: &FrameData)
    requires
        canvas_width(*old(canvas)) == width,
        canvas_height(*old(canvas)) == height,
        canvas_bytes(*old(canvas)).len() == 4 * width * height,
    ensures
        canvas_width(*final(canvas)) == width,
        canvas_height(*final(canvas)) == height,
        is_overlaid(canvas_bytes(*final(canvas)), canvas_bytes(*old(canvas)), width as int, height as int, frame@),
{
    let ghost start = canvas_bytes(*canvas);
    let fw = frame.width;
    let fh = frame.height;
    let mut fy: u16 = 0;
    while fy < fh
        invariant
            fw == frame.width,
            fh == frame.height,
            fy <= fh,
            start.len() == 4 * width * height,
            canvas_width(*canvas) == width,
            canvas_height(*canvas) == height,
            is_partly_overlaid(canvas_bytes(*canvas), start, width as int, height as int, frame@, 0, fy as int),
        decreases fh - fy,
    {
        let mut fx: u16 = 0;
        while fx < fw
            invariant
                fw == frame.width,
                fh == frame.height,
                fy < fh,
                fx <= fw,
                start.len() == 4 * width * height,
                canvas_width(*canvas) == width,
                canvas_height(*canvas) == height,
                is_partly_overlaid(
                    canvas_bytes(*canvas),
                    start,
                    width as int,
                    height as int,
                    frame@,
                    fx as int,
                    fy as int,
                ),
            decreases fw - fx,
        {
            let ghost before = canvas_bytes(*canvas);
            assert((fy as u64) * (fw as u64) <= 65535 * 65535) by (nonlinear_arith)
                requires
                    fy <= 65535,
                    fw <= 65535,
            ;
            let i: u64 = ((fy as u64) * (fw as u64) + fx as u64) * 4;
            let x: u32 = frame.left as u32 + fx as u32;
            let y: u32 = frame.top as u32 + fy as u32;
            if i + 3 < frame.buffer.len() as u64 && x < width && y < height {
                let at = i as usize;
                let pixel: [u8; 4] = [
                    frame.buffer[at],
                    frame.buffer[at + 1],
                    frame.buffer[at + 2],
                    frame.buffer[at + 3],
                ];
                put_pixel(canvas, x, y, pixel);
                proof {
                    let after = canvas_bytes(*canvas);
                    let w = width as int;
                    let base = pixel_offset(w, x as int, y as int);
                    assert forall|px: int, py: int, k: int|
                        0 <= px < w && 0 <= py < height && 0 <= k < 4 implies #[trigger] after[pixel_offset(w, px, py) + k]
                            == partly_overlaid_byte(start, w, frame@, px, py, k, fx + 1, fy as int) by {
                        let o = pixel_offset(w, px, py) + k;
                        assert(0 <= o < before.len()) by (nonlinear_arith)
                            requires
                                o == (py * w + px) * 4 + k,
                                0 <= px < w,
                                0 <= py < height,
                                0 <= k < 4,
                                before.len() == 4 * w * height,
                        ;
                        if base <= o < base + 4 {
                            lemma_pixel_offsets_distinct(w, px, py, k, x as int, y as int, o - base);
                            assert(pixel@[k] == frame@.buffer[pixel_offset(fw as int, fx as int, fy as int) + k]);
                        } else {
                            assert(after[o] == before[o]);
                            if px == x && py == y {
                                assert(false);
                            }
                        }
                    }
                }
            } else {
                proof {
                    let w = width as int;
                    assert forall|px: int, py: int, k: int|
                        0 <= px < w && 0 <= py < height && 0 <= k < 4 implies #[trigger] before[pixel_offset(w, px, py) + k]
                            == partly_overlaid_byte(start, w, frame@, px, py, k, fx + 1, fy as int) by {
                        assert(before[pixel_offset(w, px, py) + k] == partly_overlaid_byte(
                            start,
                            w,
                            frame@,
                            px,
                            py,
                            k,
                            fx as int,
                            fy as int,
                        ));
                    }
                }
            }
            fx += 1;
        }
        proof {
            let w = width as int;
            let cur = canvas_bytes(*canvas);
            assert forall|px: int, py: int, k: int|
                0 <= px < w && 0 <= py < height && 0 <= k < 4 implies #[trigger] cur[pixel_offset(w, px, py) + k]
                    == partly_overlaid_byte(start, w, frame@, px, py, k, 0, fy + 1) by {
                assert(cur[pixel_offset(w, px, py) + k] == partly_overlaid_byte(
                    start,
                    w,
                    frame@,
                    px,
                    py,
                    k,
                    fw as int,
                    fy as int,
                ));
            }
        }
        fy += 1;
    }
}

/// `bytes` is the canvas after drawing `frames` in order over a fully
/// transparent `width` × `height` canvas.
pub open spec fn is_composite(bytes: Seq<u8>, width: int, height: int, frames: Seq<FrameSpec>) -> bool
    decreases frames.len(),
{
    if frames.len() == 0 {
        bytes == Seq::new((4 * width * height) as nat, |i: int| 0u8)
    } else {
        exists|prev: Seq<u8>|
            is_composite(prev, width, height, frames.drop_last()) && #[trigger] is_overlaid(
                bytes,
                prev,
                width,
                height,
                frames.last(),
            )
    }
}

/// Renders frame `frame_index` (0-based) of an animation as PNG: frames 0 to
/// `frame_index`, in RGBA, are drawn in order over a fully transparent canvas
/// of the logical screen's size, and that canvas is encoded.
pub fn render_frame_png(width: u16, height: u16, frames: &Vec<FrameData>, frame_index: usize) -> (r: Result<
    Vec<u8>,
    GifError,
>)
    ensures
        r == Err::<Vec<u8>, GifError>(GifError::FrameIndexOutOfBounds(frame_index)) <==> frame_index
            >= frames@.len(),
        r is Ok ==> exists|pixels: Seq<u8>|
            is_composite(pixels, width as int, height as int, frame_views(frames@).subrange(0, frame_index + 1))
                && r->Ok_0@ == png_rgba8(width as nat, height as nat, pixels),
        r is Ok ==> png_opens_with_size(r->Ok_0@, width as nat, height as nat),
        frame_index < frames@.len() && width > 0 && height > 0 && 4 * width * height <= usize::MAX
            ==> r is Ok,
        r == Err::<Vec<u8>, GifError>(GifError::Encode) ==> width == 0 || height == 0,
        r is Err ==> r == Err::<Vec<u8>, GifError>(GifError::FrameIndexOutOfBounds(frame_index)) || r
            == Err::<Vec<u8>, GifError>(GifError::Encode) || r == Err::<Vec<u8>, GifError>(
            GifError::TooLarge,
        ),
        r == Err::<Vec<u8>, GifError>(GifError::TooLarge) ==> 4 * width * height > usize::MAX,
{
    if frame_index >= frames.len() {
        return Err(GifError::FrameIndexOutOfBounds(frame_index));
    }
    let w = width as u32;
    let h = height as u32;
    assert(4 * w * h <= 4 * 65535 * 65535) by (nonlinear_arith)
        requires
            w <= 65535,
            h <= 65535,
    ;
    if 4 * (w as u64) * (h as u64) > usize::MAX as u64 {
        return Err(GifError::TooLarge);
    }
    let mut canvas = transparent_canvas(w, h);
    let ghost all = frame_views(frames@);
    let count = frames.len();
    assert(all.subrange(0, 0) =~= Seq::<FrameSpec>::empty());
    let mut n: usize = 0;
    while n <= frame_index
        invariant
            frame_index < count,
            count == all.len(),
            all == frame_views(frames@),
            n <= frame_index + 1,
            canvas_width(canvas) == w,
            canvas_height(canvas) == h,
            canvas_bytes(canvas).len() == 4 * w * h,
            is_composite(canvas_bytes(canvas), w as int, h as int, all.subrange(0, n as int)),
        decreases frame_index + 1 - n,
    {
        let ghost before = canvas_bytes(canvas);
        overlay_frame(&mut canvas, w, h, &frames[n]);
        proof {
            let done = all.subrange(0, n + 1);
            assert(done.drop_last() =~= all.subrange(0, n as int));
            assert(done.last() == all[n as int]);
            assert(is_overlaid(canvas_bytes(canvas), before, w as int, h as int, done.last()));
        }
        n += 1;
    }
    match encode_png(&canvas) {
        Ok(png) => Ok(png),
        Err(_) => Err(GifError::Encode),
    }
}

/// How many frames rendering frame `frame_index` needs decoded.
/// (No stream can hand out more than `usize::MAX` frames.)
pub open spec fn frames_needed(frame_index: usize) -> Option<usize> {
    if frame_index < usize::MAX {
        Some((frame_index + 1) as usize)
    } else {
        Some(frame_index)
    }
}

/// Renders frame `frame_index` (0-based) of a GIF byte stream as PNG, as
/// [`render_frame_png`] does; frames after it are not decoded, so what
/// follows them has no bearing on the result.
pub fn extract_frame_as_png(data: &[u8], frame_index: usize) -> (r: Result<Vec<u8>, GifError>)
    ensures
        ({
            let d = decoded_gif(data@, ColorMode::Rgba, frames_needed(frame_index));
            let g = d->Some_0;
            &&& r is Ok ==> d is Some && frame_index < g.frames.len() && exists|pixels: Seq<u8>|
                is_composite(pixels, g.width as int, g.height as int, g.frames.subrange(0, frame_index + 1))
                    && r->Ok_0@ == png_rgba8(g.width as nat, g.height as nat, pixels)
            &&& r is Ok ==> png_opens_with_size(r->Ok_0@, g.width as nat, g.height as nat)
            &&& d is Some && frame_index < g.frames.len() && g.width > 0 && g.height > 0 && 4 * g.width
                * g.height <= usize::MAX ==> r is Ok
            &&& r == Err::<Vec<u8>, GifError>(GifError::FrameIndexOutOfBounds(frame_index)) <==> (d is Some
                && g.frames.len() <= frame_index)
            &&& r == Err::<Vec<u8>, GifError>(GifError::Decode) <==> d is None
            &&& r == Err::<Vec<u8>, GifError>(GifError::Encode) ==> d is Some && (g.width == 0 || g.height
                == 0)
            &&& r == Err::<Vec<u8>, GifError>(GifError::TooLarge) ==> d is Some && 4 * g.width * g.height
                > usize::MAX
        }),
        r is Err ==> r == Err::<Vec<u8>, GifError>(GifError::Decode) || r == Err::<Vec<u8>, GifError>(
            GifError::Encode,
        ) || r == Err::<Vec<u8>, GifError>(GifError::FrameIndexOutOfBounds(frame_index)) || r == Err::<
            Vec<u8>,
            GifError,
        >(GifError::TooLarge),
{
    let limit = if frame_index < usize::MAX {
        Some(frame_index + 1)
    } else {
        Some(frame_index)
    };
    assert(limit == frames_needed(frame_index));
    let gif = match decode_gif(data, ColorMode::Rgba, limit) {
        Ok(gif) => gif,
        Err(e) => {
            return Err(e);
        },
    };
    let r = render_frame_png(gif.width, gif.height, &gif.frames, frame_index);
    proof {
        if r is Ok {
            let pixels = choose|pixels: Seq<u8>|
                is_composite(
                    pixels,
                    gif.width as int,
                    gif.height as int,
                    frame_views(gif.frames@).subrange(0, frame_index + 1),
                ) && r->Ok_0@ == png_rgba8(gif.width as nat, gif.height as nat, pixels);
            assert(gif@.frames == frame_views(gif.frames@));
            assert(is_composite(
                pixels,
                gif@.width as int,
                gif@.height as int,
                gif@.frames.subrange(0, frame_index + 1),
            ));
        }
    }
    r
}

} // verus!
