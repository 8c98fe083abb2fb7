//! The parser of the file format and the decompressor of its image data.

pub mod errors;
pub mod grammar;
pub mod laws;
pub mod lzw;
pub mod parser;
pub mod types;

pub use errors::ParseError;
pub use parser::{
    parse_data_block, parse_extension, parse_extensions, parse_frame, parse_global_color_table,
    parse_header, parse_image_data, parse_image_descriptor, parse_local_color_table,
    parse_logical_screen_descriptor, take_pixel,
};
pub use types::{
    DisposalMethod, Extension, FrameIndices, GifFile, GifFrame, GifHeader, GlobalColorTable,
    ImageDescriptor, LocalColorTable, LogicalScreenDescriptor, Pixel,
};
