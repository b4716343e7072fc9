//! The boundary with the `gif` crate: its decoder and encoder, and the plain
//! frame record that the rest of the library works on.

use vstd::prelude::*;

use vstd::arithmetic::power2::pow2;

use crate::loop_count::loop_block;

verus! {

#[verifier::external_type_specification]
#[verifier::external_body]
pub struct ExGifDecodingError(gif::DecodingError);

#[verifier::external_type_specification]
#[verifier::external_body]
pub struct ExGifEncodingError(gif::EncodingError);

#[verifier::external_type_specification]
#[verifier::external_body]
pub struct ExGifDisposalMethod(gif::DisposalMethod);

#[verifier::external_type_specification]
#[verifier::external_body]
pub struct ExGifFrame<'a>(gif::Frame<'a>);

#[verifier::external_type_specification]
#[verifier::external_body]
pub struct ExIoError(std::io::Error);

/// How the decoder hands out the pixels of each frame.
#[derive(Clone, Copy, Debug, PartialEq, Eq)]
pub enum ColorMode {
    /// One palette index per pixel, as stored in the stream.
    Indexed,
    /// Four bytes (red, green, blue, alpha) per pixel.
    Rgba,
}

/// What a frame asks to be done with the canvas before the next frame is
/// drawn. The library carries it through without acting on it.
#[derive(Clone, Copy, Debug, PartialEq, Eq)]
pub enum Disposal {
    Any,
    Keep,
    Background,
    Previous,
}

/// One decoded frame, with every field the encoder needs to write it back.
#[derive(Debug)]
pub struct FrameData {
    /// Display time in centiseconds.
    pub delay: u16,
    pub dispose: Disposal,
    /// Palette index that marks transparent pixels.
    pub transparent: Option<u8>,
    pub needs_user_input: bool,
    pub top: u16,
    pub left: u16,
    pub width: u16,
    pub height: u16,
    pub interlaced: bool,
    /// Local colour table, three bytes per entry.
    pub palette: Option<Vec<u8>>,
    /// Pixels, row by row, in the layout the colour mode gives.
    pub buffer: Vec<u8>,
}

/// The value of a frame: its fields, with the byte buffers as sequences.
pub struct FrameSpec {
    pub delay: u16,
    pub dispose: Disposal,
    pub transparent: Option<u8>,
    pub needs_user_input: bool,
    pub top: u16,
    pub left: u16,
    pub width: u16,
    pub height: u16,
    pub interlaced: bool,
    pub palette: Option<Seq<u8>>,
    pub buffer: Seq<u8>,
}

pub open spec fn bytes_view(b: Option<Vec<u8>>) -> Option<Seq<u8>> {
    match b {
        Some(v) => Some(v@),
        None => None,
    }
}

impl View for FrameData {
    type V = FrameSpec;

    open spec fn view(&self) -> FrameSpec {
        FrameSpec {
            delay: self.delay,
            dispose: self.dispose,
            transparent: self.transparent,
            needs_user_input: self.needs_user_input,
            top: self.top,
            left: self.left,
            width: self.width,
            height: self.height,
            interlaced: self.interlaced,
            palette: bytes_view(self.palette),
            buffer: self.buffer@,
        }
    }
}

/// The logical screen of a stream: its size and global colour table.
pub struct ScreenSpec {
    pub width: u16,
    pub height: u16,
    pub palette: Option<Seq<u8>>,
}

/// What one request for the next frame yields.
pub enum FrameStep {
    Frame(FrameSpec),
    /// The trailer: there are no more frames.
    End,
    /// The stream is malformed at this point.
    Failed,
}

/// The repeat directive of an output stream.
#[derive(Clone, Copy, Debug, PartialEq, Eq)]
pub enum RepeatMode {
    Infinite,
    /// Number of repetitions after the first play.
    Finite(u16),
}

/// The logical screen that `gif::DecodeOptions::read_info` reads from `data`,
/// or `None` where it fails. It depends on the bytes and the colour mode alone.
pub uninterp spec fn gif_screen(data: Seq<u8>, mode: ColorMode) -> Option<ScreenSpec>;

/// What the `index`-th call of `gif::Decoder::read_next_frame` yields on
/// `data`, after `index` frames have been read. It depends on its arguments alone.
pub uninterp spec fn frame_step(data: Seq<u8>, mode: ColorMode, index: nat) -> FrameStep;

/// A `gif::Decoder` over a copy of the stream it reads. It is described by
/// [`reader_data`], [`reader_mode`] and [`reader_position`].
#[verifier::external_body]
pub struct GifReader {
    dec: gif::Decoder<std::io::Cursor<Vec<u8>>>,
}

/// The stream a reader decodes.
pub uninterp spec fn reader_data(r: GifReader) -> Seq<u8>;

/// The colour mode a reader decodes in.
pub uninterp spec fn reader_mode(r: GifReader) -> ColorMode;

/// How many frames a reader has handed out.
pub uninterp spec fn reader_position(r: GifReader) -> nat;

/// Relies on `gif::DecodeOptions::read_info`, configured with
/// `set_color_output` and `allow_unknown_blocks(true)`: reads the header,
/// logical screen descriptor and global palette of `data`.
#[verifier::external_body]
pub(crate) fn open_decoder(data: &[u8], mode: ColorMode) -> (r: Result<GifReader, gif::DecodingError>)
    ensures
        r is Ok <==> gif_screen(data@, mode) is Some,
        r is Ok ==> reader_data(r->Ok_0) == data@ && reader_mode(r->Ok_0) == mode && reader_position(
            r->Ok_0,
        ) == 0,
{
    let mut options = gif::DecodeOptions::new();
    options.set_color_output(
        match mode {
            ColorMode::Indexed => gif::ColorOutput::Indexed,
            ColorMode::Rgba => gif::ColorOutput::RGBA,
        },
    );
    options.allow_unknown_blocks(true);
    options.read_info(std::io::Cursor::new(data.to_vec())).map(|dec| GifReader { dec })
}

/// Relies on `gif::Decoder::width`: the logical screen width.
#[verifier::external_body]
pub(crate) fn screen_width(reader: &GifReader) -> (w: u16)
    ensures
        gif_screen(reader_data(*reader), reader_mode(*reader)) is Some ==> w == gif_screen(
            reader_data(*reader),
            reader_mode(*reader),
        )->Some_0.width,
{
    reader.dec.width()
}

/// Relies on `gif::Decoder::height`: the logical screen height.
#[verifier::external_body]
pub(crate) fn screen_height(reader: &GifReader) -> (h: u16)
    ensures
        gif_screen(reader_data(*reader), reader_mode(*reader)) is Some ==> h == gif_screen(
            reader_data(*reader),
            reader_mode(*reader),
        )->Some_0.height,
{
    reader.dec.height()
}

/// Relies on `gif::Decoder::global_palette`: the global colour table, if the
/// stream has one.
#[verifier::external_body]
pub(crate) fn global_palette(reader: &GifReader) -> (p: Option<Vec<u8>>)
    ensures
        gif_screen(reader_data(*reader), reader_mode(*reader)) is Some ==> bytes_view(p) == gif_screen(
            reader_data(*reader),
            reader_mode(*reader),
        )->Some_0.palette,
{
    reader.dec.global_palette().map(|p| p.to_vec())
}

/// Relies on `gif::Decoder::read_next_frame`: the next frame in stream order,
/// or `None` after the last one.
#[verifier::external_body]
pub(crate) fn next_frame(reader: &mut GifReader) -> (r: Result<Option<FrameData>, gif::DecodingError>)
    ensures
        reader_data(*final(reader)) == reader_data(*old(reader)),
        reader_mode(*final(reader)) == reader_mode(*old(reader)),
        ({
            let step = frame_step(
                reader_data(*old(reader)),
                reader_mode(*old(reader)),
                reader_position(*old(reader)),
            );
            match r {
                Ok(Some(f)) => step == FrameStep::Frame(f@) && reader_position(*final(reader))
                    == reader_position(*old(reader)) + 1,
                Ok(None) => step is End && reader_position(*final(reader)) == reader_position(*old(reader)),
                Err(_) => step is Failed,
            }
        }),
{
    match reader.dec.read_next_frame() {
        Ok(Some(f)) => Ok(Some(frame_data(f))),
        Ok(None) => Ok(None),
        Err(e) => Err(e),
    }
}

/// Copies the fields of a `gif::Frame` into a plain record, one for one.
#[verifier::external_body]
fn frame_data(f: &gif::Frame<'static>) -> FrameData {
    FrameData {
        delay: f.delay,
        dispose: disposal_of(f.dispose),
        transparent: f.transparent,
        needs_user_input: f.needs_user_input,
        top: f.top,
        left: f.left,
        width: f.width,
        height: f.height,
        interlaced: f.interlaced,
        palette: f.palette.clone(),
        buffer: f.buffer.to_vec(),
    }
}

/// Tells the variants of `gif::DisposalMethod` apart, one for one.
#[verifier::external_body]
fn disposal_of(d: gif::DisposalMethod) -> Disposal {
    match d {
        gif::DisposalMethod::Any => Disposal::Any,
        gif::DisposalMethod::Keep => Disposal::Keep,
        gif::DisposalMethod::Background => Disposal::Background,
        gif::DisposalMethod::Previous => Disposal::Previous,
    }
}

/// The size field of a colour table of `entries` entries: the table holds
/// 2^(field + 1) entries, the fewest that fit (at least 2, at most 256).
pub open spec fn table_size_field(entries: nat) -> u8 {
    if entries <= 2 {
        0
    } else if entries <= 4 {
        1
    } else if entries <= 8 {
        2
    } else if entries <= 16 {
        3
    } else if entries <= 32 {
        4
    } else if entries <= 64 {
        5
    } else if entries <= 128 {
        6
    } else {
        7
    }
}

/// The number of entries a colour table with the given size field holds.
pub open spec fn table_capacity(field: u8) -> nat {
    pow2(field as nat + 1)
}

/// What `gif::Encoder::new` writes: the signature `GIF89a`, the logical screen
/// descriptor (little-endian width and height, packed byte `0x80 | s | s << 4`
/// for the table's size field `s`, zero background index and aspect ratio),
/// the palette's whole entries, then zero entries up to the table's capacity.
pub open spec fn gif_preamble(width: u16, height: u16, palette: Seq<u8>) -> Seq<u8> {
    let n = palette.len() / 3;
    let field = table_size_field(n);
    seq![
        0x47u8, 0x49u8, 0x46u8, 0x38u8, 0x39u8, 0x61u8,
        (width % 256) as u8, (width / 256) as u8,
        (height % 256) as u8, (height / 256) as u8,
        (0x80 + field + 16 * field) as u8, 0u8, 0u8,
    ] + palette.subrange(0, (3 * n) as int) + Seq::new((3 * (table_capacity(field) - n)) as nat, |i: int| 0u8)
}

/// The graphic control extension, image descriptor, local colour table and
/// LZW image data that `gif::Encoder::write_frame` writes for `frame`. It
/// depends on the frame alone.
pub uninterp spec fn gif_frame_bytes(frame: FrameSpec) -> Seq<u8>;

/// A `gif::Encoder` writing into memory. It is described by [`writer_output`]
/// and [`writer_has_global`].
#[verifier::external_body]
pub struct GifWriter {
    enc: gif::Encoder<Vec<u8>>,
}

/// The bytes a writer has written so far.
pub uninterp spec fn writer_output(w: GifWriter) -> Seq<u8>;

/// Whether a writer wrote a non-empty global colour table.
pub uninterp spec fn writer_has_global(w: GifWriter) -> bool;

/// The NETSCAPE2.0 block that `gif::Encoder::set_repeat` writes: none for zero
/// finite repetitions, else the canonical block with the count (0 meaning
/// infinite).
pub open spec fn repeat_block(mode: RepeatMode) -> Seq<u8> {
    match mode {
        RepeatMode::Infinite => loop_block(0),
        RepeatMode::Finite(n) => if n == 0 {
            Seq::empty()
        } else {
            loop_block(n)
        },
    }
}

/// Whether `write_frame` can take `frame`: its buffer holds width × height
/// entries, its local colour table (if any) has at most 256 entries, and
/// without one the stream has a global table.
pub open spec fn frame_writable(frame: FrameSpec, has_global: bool) -> bool {
    &&& frame.buffer.len() >= frame.width * frame.height
    &&& match frame.palette {
        Some(p) => p.len() / 3 <= 256,
        None => has_global,
    }
}

/// Relies on `gif::Encoder::new` over a `Vec<u8>`: writes the preamble, and
/// fails only for a palette of more than 256 entries.
#[verifier::external_body]
pub(crate) fn new_encoder(width: u16, height: u16, palette: &[u8]) -> (r: Result<GifWriter, gif::EncodingError>)
    ensures
        r is Ok <==> palette@.len() / 3 <= 256,
        r is Ok ==> writer_output(r->Ok_0) == gif_preamble(width, height, palette@) && writer_has_global(
            r->Ok_0,
        ) == (palette@.len() >= 3),
{
    gif::Encoder::new(Vec::new(), width, height, palette).map(|enc| GifWriter { enc })
}

/// Relies on `gif::Encoder::set_repeat` over a `Vec<u8>`: appends the
/// NETSCAPE2.0 block for `mode`.
#[verifier::external_body]
pub(crate) fn set_repeat(writer: &mut GifWriter, mode: RepeatMode) -> (r: Result<(), gif::EncodingError>)
    ensures
        r is Ok,
        writer_output(*final(writer)) == writer_output(*old(writer)) + repeat_block(mode),
        writer_has_global(*final(writer)) == writer_has_global(*old(writer)),
{
    writer.enc.set_repeat(
        match mode {
            RepeatMode::Infinite => gif::Repeat::Infinite,
            RepeatMode::Finite(n) => gif::Repeat::Finite(n),
        },
    )
}

/// Relies on `gif::Encoder::write_frame` over a `Vec<u8>`: appends one frame,
/// and refuses exactly the frames it cannot write (a short buffer, a local
/// table over 256 entries, no table at all).
#[verifier::external_body]
pub(crate) fn write_frame(writer: &mut GifWriter, frame: &FrameData) -> (r: Result<(), gif::EncodingError>)
    requires
        (frame.width > 0 && frame.height > 0) || frame.buffer@.len() == 0,
    ensures
        writer_has_global(*final(writer)) == writer_has_global(*old(writer)),
        r is Ok <==> frame_writable(frame@, writer_has_global(*old(writer))),
        r is Ok ==> writer_output(*final(writer)) == writer_output(*old(writer)) + gif_frame_bytes(frame@),
{
    writer.enc.write_frame(&gif_frame(frame))
}

/// Relies on `gif::Encoder::into_inner` over a `Vec<u8>`: appends the trailer
/// `0x3B` and hands back the bytes.
#[verifier::external_body]
pub(crate) fn finish(writer: GifWriter) -> (r: Result<Vec<u8>, std::io::Error>)
    ensures
        r is Ok,
        r->Ok_0@ == writer_output(writer) + seq![0x3bu8],
{
    writer.enc.into_inner()
}

/// Copies a plain frame record into a `gif::Frame`, one field for one.
#[verifier::external_body]
fn gif_frame(f: &FrameData) -> gif::Frame<'_> {
    gif::Frame {
        delay: f.delay,
        dispose: gif_disposal(f.dispose),
        transparent: f.transparent,
        needs_user_input: f.needs_user_input,
        top: f.top,
        left: f.left,
        width: f.width,
        height: f.height,
        interlaced: f.interlaced,
        palette: f.palette.clone(),
        buffer: std::borrow::Cow::Borrowed(f.buffer.as_slice()),
    }
}

/// Tells the variants of [`Disposal`] apart, one for one.
#[verifier::external_body]
fn gif_disposal(d: Disposal) -> gif::DisposalMethod {
    match d {
        Disposal::Any => gif::DisposalMethod::Any,
        Disposal::Keep => gif::DisposalMethod::Keep,
        Disposal::Background => gif::DisposalMethod::Background,
        Disposal::Previous => gif::DisposalMethod::Previous,
    }
}

} // verus!
