//! The file format as a mathematical function: what each rule of the
//! grammar reads from a sequence of bytes, how many bytes it takes, and on
//! which input it fails with which error.
//!
//! ```text
//! gif       = header LSD [GCT] body
//! body      = extension* (trailer | image body)
//! frame     = extension* image
//! image     = imageDescriptor [LCT] u8(minCodeSize) dataBlock
//! extension = 0x21 label payload
//! dataBlock = subBlock+ 0x00
//! ```
//!
//! A rule fails at its first field, in the order of the bytes, that is cut
//! short or holds what it may not hold.

use super::errors::ParseErrorView;
use super::lzw::model::spec_decompress;
use super::types::{
    magic_bytes, DisposalMethod, ExtensionView, GifFileView, GifFrameView, GifHeader,
    ImageDescriptor, LogicalScreenDescriptor, Pixel,
};
use vstd::arithmetic::power2::pow2;
use vstd::prelude::*;
use vstd::utf8::{decode_utf8, valid_utf8};

verus! {

/// What a rule makes of its input: the value read and the number of bytes
/// taken, or the error.
pub type Parsed<T> = Result<(T, nat), ParseErrorView>;

pub const EXTENSION_INTRODUCER: u8 = 0x21;

pub const IMAGE_SEPARATOR: u8 = 0x2C;

pub const TRAILER: u8 = 0x3B;

pub const GRAPHICS_CONTROL_LABEL: u8 = 0xF9;

pub const PLAIN_TEXT_LABEL: u8 = 0x01;

pub const APPLICATION_LABEL: u8 = 0xFF;

pub const COMMENT_LABEL: u8 = 0xFE;

pub const GRAPHICS_CONTROL_BLOCK_SIZE: u8 = 4;

pub const APPLICATION_BLOCK_SIZE: u8 = 11;

pub const BLOCK_TERMINATOR: u8 = 0;

/// The number whose little-endian bytes are `low`, `high`.
pub open spec fn le_u16(low: u8, high: u8) -> u16 {
    (low + 256 * high) as u16
}

/// The rule fails because the input ends inside the field at `position`.
pub open spec fn truncated<T>(position: nat) -> Parsed<T> {
    Err(ParseErrorView::Truncated { position })
}

/// The rule fails because the byte at `position`, which must be `expected`,
/// is `got`.
pub open spec fn unexpected<T>(expected: u8, got: u8, position: nat) -> Parsed<T> {
    Err(ParseErrorView::UnexpectedByte { expected, got, position })
}

/// The outcome of a part that begins `by` bytes into the whole, seen from
/// the whole.
pub open spec fn within<T>(part: Parsed<T>, by: nat) -> Parsed<T> {
    match part {
        Ok((value, taken)) => Ok((value, taken + by)),
        Err(e) => Err(e.shifted(by)),
    }
}

/// The outcome of a list of which `prefix` has been read in the first `by`
/// bytes and `part` is the outcome of the rest.
pub open spec fn joined<T>(prefix: Seq<T>, by: nat, part: Parsed<Seq<T>>) -> Parsed<Seq<T>> {
    match part {
        Ok((rest, taken)) => Ok((prefix + rest, taken + by)),
        Err(e) => Err(e.shifted(by)),
    }
}

/// A colour: red, green, blue, one byte each.
pub open spec fn spec_pixel(s: Seq<u8>) -> Parsed<Pixel> {
    if s.len() < 3 {
        truncated(s.len())
    } else {
        Ok((Pixel { red: s[0], green: s[1], blue: s[2] }, 3))
    }
}

/// The signature: the six bytes `GIF87a` or `GIF89a`.
pub open spec fn spec_header(s: Seq<u8>) -> Parsed<GifHeader> {
    if s.len() < 6 {
        truncated(0)
    } else if s.take(6) == magic_bytes(0x39) {
        Ok((GifHeader::GIF89a, 6))
    } else if s.take(6) == magic_bytes(0x37) {
        Ok((GifHeader::GIF87a, 6))
    } else if valid_utf8(s.take(6)) {
        Err(ParseErrorView::InvalidGifMagic(decode_utf8(s.take(6))))
    } else {
        Err(ParseErrorView::InvalidUtf8 { position: 0 })
    }
}

/// The descriptor that the first seven bytes of `s` spell. Its packed byte
/// holds, from the top bit down: the table flag, three bits of colour
/// resolution, the sort flag, three bits of table size.
pub open spec fn logical_screen_descriptor_of(s: Seq<u8>) -> LogicalScreenDescriptor {
    LogicalScreenDescriptor {
        canvas_width: le_u16(s[0], s[1]),
        canvas_height: le_u16(s[2], s[3]),
        global_color_table_flag: s[4] / 128 == 1,
        color_resolution: ((s[4] / 16) % 8) as u16,
        sort_flag: (s[4] / 8) % 2 == 1,
        global_color_table_size: (s[4] % 8) as u16,
        background_color_index: s[5],
        pixel_aspect_ratio: s[6],
    }
}

/// The logical screen descriptor: width, height, packed byte, background
/// colour index, pixel aspect ratio.
pub open spec fn spec_logical_screen_descriptor(s: Seq<u8>) -> Parsed<LogicalScreenDescriptor> {
    if s.len() < 2 {
        truncated(0)
    } else if s.len() < 4 {
        truncated(2)
    } else if s.len() < 7 {
        truncated(s.len())
    } else {
        Ok((logical_screen_descriptor_of(s), 7))
    }
}

/// `count` colours in a row.
pub open spec fn spec_pixels(s: Seq<u8>, count: nat) -> Parsed<Seq<Pixel>> {
    if s.len() < 3 * count {
        truncated(s.len())
    } else {
        Ok(
            (
                Seq::new(
                    count,
                    |i: int| Pixel { red: s[3 * i], green: s[3 * i + 1], blue: s[3 * i + 2] },
                ),
                3 * count,
            ),
        )
    }
}

/// A colour table that is there only where `flag` is set, and then holds
/// `2^(size + 1)` colours.
pub open spec fn spec_color_table(s: Seq<u8>, flag: bool, size: nat) -> Parsed<
    Option<Seq<Pixel>>,
> {
    if !flag {
        Ok((None, 0))
    } else {
        match spec_pixels(s, pow2(size + 1)) {
            Ok((table, taken)) => Ok((Some(table), taken)),
            Err(e) => Err(e),
        }
    }
}

/// Sub-blocks up to and with the terminator: each a length byte from 1 to
/// 255 and as many bytes of payload. The value is the payloads joined.
pub open spec fn spec_sub_blocks(s: Seq<u8>) -> Parsed<Seq<u8>>
    decreases s.len(),
{
    if s.len() == 0 {
        truncated(0)
    } else if s[0] == BLOCK_TERMINATOR {
        Ok((Seq::empty(), 1))
    } else if s.len() < 1 + s[0] {
        truncated(1)
    } else {
        match spec_sub_blocks(s.skip(1 + s[0])) {
            Ok((rest, taken)) => Ok((s.subrange(1, 1 + s[0]) + rest, (1 + s[0] + taken) as nat)),
            Err(e) => Err(e.shifted((1 + s[0]) as nat)),
        }
    }
}

/// A data block: at least one sub-block, then the terminator.
pub open spec fn spec_data_block(s: Seq<u8>) -> Parsed<Seq<u8>> {
    if s.len() > 0 && s[0] == BLOCK_TERMINATOR {
        Err(ParseErrorView::EmptyDataBlock { position: 0 })
    } else {
        spec_sub_blocks(s)
    }
}

/// The data of an image: the minimum code size, then a data block, which
/// is decompressed.
pub open spec fn spec_image_data(s: Seq<u8>) -> Parsed<Seq<u8>> {
    if s.len() < 1 {
        truncated(0)
    } else {
        match spec_data_block(s.skip(1)) {
            Err(e) => Err(e.shifted(1)),
            Ok((compressed, taken)) => match spec_decompress(compressed, s[0]) {
                Ok(indices) => Ok((indices, taken + 1)),
                Err(error) => Err(ParseErrorView::Decompress { error, position: 0 }),
            },
        }
    }
}

/// The descriptor that the first ten bytes of `s` spell. Its packed byte
/// holds, from the top bit down: the table flag, the interlace flag, the
/// sort flag, two reserved bits, three bits of table size.
pub open spec fn image_descriptor_of(s: Seq<u8>) -> ImageDescriptor {
    ImageDescriptor {
        left: le_u16(s[1], s[2]),
        top: le_u16(s[3], s[4]),
        width: le_u16(s[5], s[6]),
        height: le_u16(s[7], s[8]),
        local_color_table_flag: s[9] / 128 == 1,
        interlace_flag: (s[9] / 64) % 2 == 1,
        sort_flag: (s[9] / 32) % 2 == 1,
        reserved: (s[9] / 8) % 4,
        local_color_table_size: s[9] % 8,
    }
}

/// The image descriptor: the separator, four numbers, the packed byte.
pub open spec fn spec_image_descriptor(s: Seq<u8>) -> Parsed<ImageDescriptor> {
    if s.len() < 1 {
        truncated(0)
    } else if s[0] != IMAGE_SEPARATOR {
        unexpected(IMAGE_SEPARATOR, s[0], 0)
    } else if s.len() < 3 {
        truncated(1)
    } else if s.len() < 5 {
        truncated(3)
    } else if s.len() < 7 {
        truncated(5)
    } else if s.len() < 9 {
        truncated(7)
    } else if s.len() < 10 {
        truncated(9)
    } else {
        Ok((image_descriptor_of(s), 10))
    }
}

/// The disposal method with the number `value`, if it has one.
pub open spec fn disposal_method_of(value: u8) -> Option<DisposalMethod> {
    if value == 0 {
        Some(DisposalMethod::NoDisposal)
    } else if value == 1 {
        Some(DisposalMethod::DoNotDispose)
    } else if value == 2 {
        Some(DisposalMethod::RestoreToBackground)
    } else if value == 3 {
        Some(DisposalMethod::RestoreToPrevious)
    } else {
        None
    }
}

/// What follows the label of a graphics control extension: the block size
/// 4, the packed byte, the delay, the transparent colour index, the
/// terminator. The packed byte holds, from the top bit down: three reserved
/// bits, three bits of disposal method, the user input flag, the
/// transparent colour flag.
pub open spec fn spec_graphics_control(s: Seq<u8>) -> Parsed<ExtensionView> {
    if s.len() < 1 {
        truncated(0)
    } else if s[0] != GRAPHICS_CONTROL_BLOCK_SIZE {
        unexpected(GRAPHICS_CONTROL_BLOCK_SIZE, s[0], 0)
    } else if s.len() < 2 {
        truncated(1)
    } else if disposal_method_of((s[1] / 4) % 8) is None {
        Err(ParseErrorView::InvalidDisposalMethod { value: (s[1] / 4) % 8, position: 1 })
    } else if s.len() < 4 {
        truncated(2)
    } else if s.len() < 6 {
        truncated(s.len())
    } else if s[5] != BLOCK_TERMINATOR {
        unexpected(BLOCK_TERMINATOR, s[5], 5)
    } else {
        Ok(
            (
                ExtensionView::GraphicsControlExtension {
                    reserved: s[1] / 32,
                    disposal_method: disposal_method_of((s[1] / 4) % 8)->Some_0,
                    user_input_flag: (s[1] / 2) % 2 == 1,
                    transparent_color_flag: s[1] % 2 == 1,
                    delay_timer: le_u16(s[2], s[3]),
                    transparent_color_index: s[4],
                },
                6,
            ),
        )
    }
}

/// What follows the label of an application extension: the block size 11,
/// eight bytes of identifier, three of authentication code, a data block.
pub open spec fn spec_application(s: Seq<u8>) -> Parsed<ExtensionView> {
    if s.len() < 1 {
        truncated(0)
    } else if s[0] != APPLICATION_BLOCK_SIZE {
        unexpected(APPLICATION_BLOCK_SIZE, s[0], 0)
    } else if s.len() < 12 {
        truncated(1)
    } else if !valid_utf8(s.subrange(1, 9)) {
        Err(ParseErrorView::InvalidUtf8 { position: 1 })
    } else if !valid_utf8(s.subrange(9, 12)) {
        Err(ParseErrorView::InvalidUtf8 { position: 9 })
    } else {
        match spec_data_block(s.skip(12)) {
            Err(e) => Err(e.shifted(12)),
            Ok((data, taken)) => Ok(
                (
                    ExtensionView::Application {
                        identifier: decode_utf8(s.subrange(1, 9)),
                        authentication_code: decode_utf8(s.subrange(9, 12)),
                        data,
                    },
                    taken + 12,
                ),
            ),
        }
    }
}

/// What follows the label of a comment extension: a data block of text.
pub open spec fn spec_comment(s: Seq<u8>) -> Parsed<ExtensionView> {
    match spec_data_block(s) {
        Err(e) => Err(e),
        Ok((text, taken)) => if valid_utf8(text) {
            Ok((ExtensionView::Comment { text: decode_utf8(text) }, taken))
        } else {
            Err(ParseErrorView::InvalidUtf8 { position: 0 })
        },
    }
}

/// What follows the label of a plain text extension: a block size, twelve
/// bytes that say where and how the text is drawn, a data block of text.
/// The twelve bytes are passed over.
pub open spec fn spec_plain_text(s: Seq<u8>) -> Parsed<ExtensionView> {
    if s.len() < 1 {
        truncated(0)
    } else if s.len() < 13 {
        truncated(1)
    } else {
        match spec_data_block(s.skip(13)) {
            Err(e) => Err(e.shifted(13)),
            Ok((text, taken)) => if valid_utf8(text) {
                Ok((ExtensionView::PlainText { text: decode_utf8(text) }, taken + 13))
            } else {
                Err(ParseErrorView::InvalidUtf8 { position: 13 })
            },
        }
    }
}

/// One extension: the introducer, the label, and what the label calls for.
#[verifier::opaque]
pub open spec fn spec_extension(s: Seq<u8>) -> Parsed<ExtensionView> {
    if s.len() < 1 {
        truncated(0)
    } else if s[0] != EXTENSION_INTRODUCER {
        unexpected(EXTENSION_INTRODUCER, s[0], 0)
    } else if s.len() < 2 {
        truncated(1)
    } else if s[1] == GRAPHICS_CONTROL_LABEL {
        within(spec_graphics_control(s.skip(2)), 2)
    } else if s[1] == PLAIN_TEXT_LABEL {
        within(spec_plain_text(s.skip(2)), 2)
    } else if s[1] == APPLICATION_LABEL {
        within(spec_application(s.skip(2)), 2)
    } else if s[1] == COMMENT_LABEL {
        within(spec_comment(s.skip(2)), 2)
    } else {
        Err(ParseErrorView::UnsupportedExtension { label: s[1], position: 1 })
    }
}

/// The extensions that `s` begins with: as many as there are introducers in
/// a row. One that fails makes the whole fail.
pub open spec fn spec_extensions(s: Seq<u8>) -> Parsed<Seq<ExtensionView>>
    decreases s.len(),
    via spec_extensions_decreases
{
    if s.len() == 0 || s[0] != EXTENSION_INTRODUCER {
        Ok((Seq::empty(), 0))
    } else {
        match spec_extension(s) {
            Err(e) => Err(e),
            Ok((extension, taken)) => match spec_extensions(s.skip(taken as int)) {
                Err(e) => Err(e.shifted(taken)),
                Ok((rest, more)) => Ok((seq![extension] + rest, taken + more)),
            },
        }
    }
}

#[via_fn]
proof fn spec_extensions_decreases(s: Seq<u8>) {
    lemma_extension_advances(s);
}

/// An image without its extensions: the descriptor, the local colour table
/// where the descriptor announces one, the image data.
#[verifier::opaque]
pub open spec fn spec_image(s: Seq<u8>, extensions: Seq<ExtensionView>) -> Parsed<GifFrameView> {
    match spec_image_descriptor(s) {
        Err(e) => Err(e),
        Ok((image_descriptor, _)) => match spec_color_table(
            s.skip(10),
            image_descriptor.local_color_table_flag,
            image_descriptor.local_color_table_size as nat,
        ) {
            Err(e) => Err(e.shifted(10)),
            Ok((local_color_table, table_len)) => match spec_image_data(
                s.skip((10 + table_len) as int),
            ) {
                Err(e) => Err(e.shifted(10 + table_len)),
                Ok((frame_indices, data_len)) => Ok(
                    (
                        GifFrameView {
                            image_descriptor,
                            local_color_table,
                            frame_indices,
                            extensions,
                        },
                        10 + table_len + data_len,
                    ),
                ),
            },
        },
    }
}

/// A frame: the extensions that come before an image, and the image.
pub open spec fn spec_frame(s: Seq<u8>) -> Parsed<GifFrameView> {
    match spec_extensions(s) {
        Err(e) => Err(e),
        Ok((extensions, taken)) => within(spec_image(s.skip(taken as int), extensions), taken),
    }
}

/// The frames of a file, up to and with the trailer. Extensions that the
/// trailer follows belong to no frame and are dropped.
pub open spec fn spec_body(s: Seq<u8>) -> Parsed<Seq<GifFrameView>>
    decreases s.len(),
    via spec_body_decreases
{
    match spec_extensions(s) {
        Err(e) => Err(e),
        Ok((extensions, taken)) => if s.len() <= taken {
            truncated(taken)
        } else if s[taken as int] == TRAILER {
            Ok((Seq::empty(), taken + 1))
        } else {
            match spec_image(s.skip(taken as int), extensions) {
                Err(e) => Err(e.shifted(taken)),
                Ok((frame, image_len)) => match spec_body(s.skip((taken + image_len) as int)) {
                    Err(e) => Err(e.shifted(taken + image_len)),
                    Ok((rest, more)) => Ok((seq![frame] + rest, taken + image_len + more)),
                },
            }
        },
    }
}

#[via_fn]
proof fn spec_body_decreases(s: Seq<u8>) {
    match spec_extensions(s) {
        Ok((extensions, taken)) => {
            if taken < s.len() {
                lemma_image_advances(s.skip(taken as int), extensions);
            }
        },
        Err(_) => {},
    }
}

/// A whole file: the signature, the logical screen descriptor, the global
/// colour table where the descriptor announces one, the frames, the
/// trailer, and nothing after it.
pub open spec fn spec_gif(s: Seq<u8>) -> Result<GifFileView, ParseErrorView> {
    match spec_header(s) {
        Err(e) => Err(e),
        Ok((header, _)) => match spec_logical_screen_descriptor(s.skip(6)) {
            Err(e) => Err(e.shifted(6)),
            Ok((logical_screen_descriptor, _)) => match spec_color_table(
                s.skip(13),
                logical_screen_descriptor.global_color_table_flag,
                logical_screen_descriptor.global_color_table_size as nat,
            ) {
                Err(e) => Err(e.shifted(13)),
                Ok((global_color_table, table_len)) => match spec_body(
                    s.skip((13 + table_len) as int),
                ) {
                    Err(e) => Err(e.shifted(13 + table_len)),
                    Ok((frames, body_len)) => if 13 + table_len + body_len < s.len() {
                        Err(
                            ParseErrorView::TrailingData {
                                position: 13 + table_len + body_len,
                            },
                        )
                    } else {
                        Ok(
                            GifFileView {
                                header,
                                logical_screen_descriptor,
                                global_color_table,
                                frames,
                            },
                        )
                    },
                },
            },
        },
    }
}

/// Sub-blocks take at least the terminator, and no more bytes than there
/// are.
pub proof fn lemma_sub_blocks_advance(s: Seq<u8>)
    ensures
        spec_sub_blocks(s) matches Ok((_, taken)) ==> 1 <= taken <= s.len(),
    decreases s.len(),
{
    if s.len() > 0 && s[0] != BLOCK_TERMINATOR && s.len() >= 1 + s[0] {
        lemma_sub_blocks_advance(s.skip(1 + s[0]));
    }
}

/// An extension takes at least its introducer and its label, and no more
/// bytes than there are.
pub proof fn lemma_extension_advances(s: Seq<u8>)
    ensures
        spec_extension(s) matches Ok((_, taken)) ==> 2 <= taken <= s.len(),
{
    reveal(spec_extension);
    if s.len() >= 2 {
        let payload = s.skip(2);
        lemma_sub_blocks_advance(payload);
        if payload.len() >= 12 {
            lemma_sub_blocks_advance(payload.skip(12));
        }
        if payload.len() >= 13 {
            lemma_sub_blocks_advance(payload.skip(13));
        }
    }
}

/// An image takes at least the ten bytes of its descriptor, and no more
/// bytes than there are.
pub proof fn lemma_image_advances(s: Seq<u8>, extensions: Seq<ExtensionView>)
    ensures
        spec_image(s, extensions) matches Ok((_, taken)) ==> 10 <= taken <= s.len(),
{
    reveal(spec_image);
    match spec_image_descriptor(s) {
        Ok((descriptor, _)) => match spec_color_table(
            s.skip(10),
            descriptor.local_color_table_flag,
            descriptor.local_color_table_size as nat,
        ) {
            Ok((_, table_len)) => {
                let data = s.skip((10 + table_len) as int);
                if data.len() >= 1 {
                    lemma_sub_blocks_advance(data.skip(1));
                }
            },
            Err(_) => {},
        },
        Err(_) => {},
    }
}

} // verus!
