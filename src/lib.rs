//! A decoder for MPEG-1, MPEG-2 and MPEG-2.5 Layer III audio streams.
//!
//! This crate holds the integer part of the decode pipeline: locating and
//! parsing frame headers, reading side information, assembling main data
//! through the bit reservoir, reading scale factors and the Huffman-coded
//! spectrum, reordering short-block bins, and the integer decisions of
//! requantization and joint stereo. Each step carries a contract that Verus
//! proves.
pub mod bits;
pub mod decoder;
pub mod error;
pub mod header;
pub mod huffman;
pub mod reorder;
pub mod requantize;
pub mod reservoir;
pub mod scalefactors;
pub mod side_info;
pub mod stereo;
pub mod tables;
pub mod types;

pub use crate::decoder::Mp3Decoder;
pub use crate::error::{Error, Mp3Error};
pub use crate::header::read_frame_header;
pub use crate::types::{
    BitRate, BlockType, Channels, Emphasis, FrameHeader, MpegLayer, MpegVersion, SampleRate,
};
