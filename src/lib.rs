//! Inspection and rewriting of GIF animation metadata: the NETSCAPE2.0
//! loop count, per-frame delays, and single-frame extraction as PNG.

pub mod gifmeta_structs;
pub mod loop_count;
pub mod codec;
pub mod info;
pub mod modify;
pub mod stream;
pub mod extract_frame_as_png;
pub mod parse_csv;
