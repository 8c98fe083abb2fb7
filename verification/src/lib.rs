//! Decoding of GIF87a/GIF89a image streams.
//!
//! `decoder` holds the structural parser and the LZW decompressor, each
//! stated against a mathematical model of the format and proved to follow
//! it. `ppm` draws the frames of a parsed file one over the other and
//! writes them as plain pixmaps.

pub mod decoder;
pub mod power;
pub mod ppm;
pub mod text;
