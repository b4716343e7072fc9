use vstd::prelude::*;

verus! {

/// Everything that can go wrong while reading or rewriting a GIF stream.
#[derive(Debug, Clone)]
pub enum GifError {
    /// Opening, reading or writing a file failed.
    Io(String),
    /// The stream is not a GIF the decoder can read.
    Decode,
    /// Producing the output GIF or PNG bytes failed.
    Encode,
    /// The stream holds no canonical NETSCAPE2.0 looping block.
    NotFound,
    /// The stream ends before a looping block, or the place where one belongs, is complete.
    Truncated,
    /// A rewrite was asked for without a single modification.
    NoOp,
    /// The requested frame index is at or past the number of frames.
    FrameIndexOutOfBounds(usize),
    /// The stream is too large to handle: more frames, or a longer total
    /// duration, than the summary can count, or a canvas larger than memory
    /// can address.
    TooLarge,
}

/// Metadata summary for a GIF file.
#[derive(Debug, Clone, PartialEq)]
pub struct GifMetadata {
    pub width: u16,
    pub height: u16,
    pub frame_count: u32,
    /// Sum of all frame delays, in centiseconds.
    pub total_duration_cs: u32,
    /// 0 means infinite.
    pub loop_count: u16,
    /// One entry per frame, in stream order; empty unless requested.
    pub frames: Vec<FrameMeta>,
    pub has_global_palette: bool,
    /// Number of three-byte colour entries in the global palette.
    pub global_palette_size: Option<usize>,
    pub uses_transparency: bool,
}

/// Metadata for an individual frame.
#[derive(Debug, Clone, Copy, PartialEq, Eq)]
pub struct FrameMeta {
    pub index: usize,
    pub delay_cs: u16,
    pub transparent_index: Option<u8>,
}

} // verus!
