//! The structural parser: each rule of the grammar as a function from bytes
//! to the value read and the bytes left.

use super::errors::{ParseError, ParseErrorView};
use super::grammar::{
    disposal_method_of, joined, le_u16, lemma_extension_advances, lemma_image_advances,
    spec_application, spec_body, spec_color_table, spec_comment, spec_data_block,
    spec_extension, spec_extensions, spec_frame, spec_gif, spec_graphics_control, spec_header,
    spec_image, spec_image_data, spec_image_descriptor, spec_logical_screen_descriptor,
    spec_pixel, spec_pixels, spec_plain_text, spec_sub_blocks, within, Parsed,
    APPLICATION_BLOCK_SIZE, APPLICATION_LABEL, BLOCK_TERMINATOR, COMMENT_LABEL,
    EXTENSION_INTRODUCER, GRAPHICS_CONTROL_BLOCK_SIZE, GRAPHICS_CONTROL_LABEL, IMAGE_SEPARATOR,
    PLAIN_TEXT_LABEL, TRAILER,
};
use super::lzw::decompress;
use super::types::{
    lemma_magic_bytes, magic_bytes, magic_text, DisposalMethod, Extension, ExtensionView,
    GifFile, GifFileView, GifFrame, GifFrameView, GifHeader, GlobalColorTable, ImageDescriptor,
    LocalColorTable, LogicalScreenDescriptor, Pixel,
};
use crate::power::pow2_u64;
use vstd::arithmetic::power2::{lemma2_to64_rest, lemma_pow2_strictly_increases};
use vstd::prelude::*;
use vstd::slice::slice_subrange;
use vstd::utf8::{decode_utf8, decode_utf8_encode_utf8, valid_utf8};

verus! {

/// The outcome `res` of a rule on `input` is the outcome `model`: the same
/// value and the bytes after those taken, or the same error.
pub open spec fn parsed_as<T: DeepView>(
    res: Result<(&[u8], T), ParseError>,
    input: Seq<u8>,
    model: Parsed<T::V>,
) -> bool {
    match res {
        Ok((rest, value)) => {
            &&& model matches Ok((v, taken))
            &&& value.deep_view() == v
            &&& taken <= input.len()
            &&& rest@ == input.skip(taken as int)
        },
        Err(e) => {
            &&& model matches Err(me)
            &&& e@ == me
            &&& me.position() <= input.len()
        },
    }
}

/// `core::str::from_utf8`: the text that `bytes` encode, where they are
/// valid UTF-8, and nothing where they are not.
#[verifier::external_body]
pub(crate) fn utf8_text(bytes: &[u8]) -> (res: Option<&str>)
    ensures
        res is Some <==> valid_utf8(bytes@),
        res matches Some(text) ==> text@ == decode_utf8(bytes@),
{
    match core::str::from_utf8(bytes) {
        Ok(text) => Some(text),
        Err(_) => None,
    }
}

/// The bytes of `bytes` from `from` on.
fn bytes_from(bytes: &[u8], from: usize) -> (rest: &[u8])
    requires
        from <= bytes@.len(),
    ensures
        rest@ == bytes@.skip(from as int),
{
    slice_subrange(bytes, from, bytes.len())
}

/// The byte at `position`.
fn byte_at(bytes: &[u8], position: usize) -> (res: Result<u8, ParseError>)
    ensures
        position < bytes@.len() ==> res == Ok::<u8, ParseError>(bytes@[position as int]),
        position >= bytes@.len() ==> res == Err::<u8, ParseError>(
            ParseError::Truncated { position },
        ),
{
    if position < bytes.len() {
        Ok(bytes[position])
    } else {
        Err(ParseError::Truncated { position })
    }
}

/// The little-endian number in the two bytes at `position`.
fn le_u16_at(bytes: &[u8], position: usize) -> (res: Result<u16, ParseError>)
    requires
        position < usize::MAX,
    ensures
        position + 1 < bytes@.len() ==> res == Ok::<u16, ParseError>(
            le_u16(bytes@[position as int], bytes@[position + 1]),
        ),
        position + 1 >= bytes@.len() ==> res == Err::<u16, ParseError>(
            ParseError::Truncated { position },
        ),
{
    if position + 1 < bytes.len() {
        let low = bytes[position] as u16;
        let high = bytes[position + 1] as u16;
        Ok(low + 256 * high)
    } else {
        Err(ParseError::Truncated { position })
    }
}

/// Passes over the byte at `position`, which must be `expected`.
fn tag_at(bytes: &[u8], position: usize, expected: u8) -> (res: Result<(), ParseError>)
    ensures
        position >= bytes@.len() ==> res == Err::<(), ParseError>(
            ParseError::Truncated { position },
        ),
        position < bytes@.len() && bytes@[position as int] != expected ==> res == Err::<
            (),
            ParseError,
        >(ParseError::UnexpectedByte { expected, got: bytes@[position as int], position }),
        position < bytes@.len() && bytes@[position as int] == expected ==> res is Ok,
{
    let got = byte_at(bytes, position)?;
    if got == expected {
        Ok(())
    } else {
        Err(ParseError::UnexpectedByte { expected, got, position })
    }
}

/// Reads one colour.
pub fn take_pixel(bytes: &[u8]) -> (res: Result<(&[u8], Pixel), ParseError>)
    ensures
        parsed_as(res, bytes@, spec_pixel(bytes@)),
{
    let red = byte_at(bytes, 0)?;
    let green = byte_at(bytes, 1)?;
    let blue = byte_at(bytes, 2)?;
    Ok((bytes_from(bytes, 3), Pixel { red, green, blue }))
}

/// Reads the signature.
pub fn parse_header(bytes: &[u8]) -> (res: Result<(&[u8], GifHeader), ParseError>)
    ensures
        parsed_as(res, bytes@, spec_header(bytes@)),
{
    if bytes.len() < 6 {
        return Err(ParseError::Truncated { position: 0 });
    }
    let magic = slice_subrange(bytes, 0, 6);
    assert(magic@ == bytes@.take(6));
    match utf8_text(magic) {
        None => {
            proof {
                lemma_magic_is_utf8('9');
                lemma_magic_is_utf8('7');
            }
            Err(ParseError::InvalidUtf8 { position: 0 })
        },
        Some(text) => {
            proof {
                decode_utf8_encode_utf8(magic@);
                lemma_magic_bytes(text@, '9');
                lemma_magic_bytes(text@, '7');
            }
            match GifHeader::from(text) {
                Ok(header) => Ok((bytes_from(bytes, 6), header)),
                Err(_) => Err(ParseError::InvalidGifMagic(text.to_owned())),
            }
        },
    }
}

/// The bytes of a signature are UTF-8.
proof fn lemma_magic_is_utf8(version: char)
    requires
        version == '7' || version == '9',
    ensures
        valid_utf8(magic_bytes(version as u8)),
{
    lemma_magic_bytes(magic_text(version), version);
    vstd::utf8::encode_utf8_valid_utf8(magic_text(version));
}

/// Reads the logical screen descriptor.
pub fn parse_logical_screen_descriptor(bytes: &[u8]) -> (res: Result<
    (&[u8], LogicalScreenDescriptor),
    ParseError,
>)
    ensures
        parsed_as(res, bytes@, spec_logical_screen_descriptor(bytes@)),
        res matches Ok((_, descriptor)) ==> descriptor.wf(),
{
    let canvas_width = le_u16_at(bytes, 0)?;
    let canvas_height = le_u16_at(bytes, 2)?;
    let packed = byte_at(bytes, 4)?;
    let background_color_index = byte_at(bytes, 5)?;
    let pixel_aspect_ratio = byte_at(bytes, 6)?;
    Ok(
        (
            bytes_from(bytes, 7),
            LogicalScreenDescriptor {
                canvas_width,
                canvas_height,
                global_color_table_flag: packed / 128 == 1,
                color_resolution: ((packed / 16) % 8) as u16,
                sort_flag: (packed / 8) % 2 == 1,
                global_color_table_size: (packed % 8) as u16,
                background_color_index,
                pixel_aspect_ratio,
            },
        ),
    )
}

/// Reads an image descriptor.
pub fn parse_image_descriptor(bytes: &[u8]) -> (res: Result<(&[u8], ImageDescriptor), ParseError>)
    ensures
        parsed_as(res, bytes@, spec_image_descriptor(bytes@)),
        res matches Ok((_, descriptor)) ==> descriptor.wf(),
{
    tag_at(bytes, 0, IMAGE_SEPARATOR)?;
    let left = le_u16_at(bytes, 1)?;
    let top = le_u16_at(bytes, 3)?;
    let width = le_u16_at(bytes, 5)?;
    let height = le_u16_at(bytes, 7)?;
    let packed = byte_at(bytes, 9)?;
    Ok(
        (
            bytes_from(bytes, 10),
            ImageDescriptor {
                left,
                top,
                width,
                height,
                local_color_table_flag: packed / 128 == 1,
                interlace_flag: (packed / 64) % 2 == 1,
                sort_flag: (packed / 32) % 2 == 1,
                reserved: (packed / 8) % 4,
                local_color_table_size: packed % 8,
            },
        ),
    )
}

/// Reads `count` colours in a row.
fn take_pixels(bytes: &[u8], count: usize) -> (res: Result<(&[u8], Vec<Pixel>), ParseError>)
    requires
        3 * count <= usize::MAX,
    ensures
        parsed_as(res, bytes@, spec_pixels(bytes@, count as nat)),
{
    let mut table: Vec<Pixel> = Vec::new();
    let mut rest = bytes;
    let mut i: usize = 0;
    while i < count
        invariant
            i <= count,
            3 * count <= usize::MAX,
            3 * i <= bytes@.len(),
            rest@ == bytes@.skip(3 * i),
            table@.len() == i,
            forall|k: int|
                0 <= k < i ==> #[trigger] table@[k] == (Pixel {
                    red: bytes@[3 * k],
                    green: bytes@[3 * k + 1],
                    blue: bytes@[3 * k + 2],
                }),
        decreases count - i,
    {
        match take_pixel(rest) {
            Err(e) => {
                return Err(e.shifted(3 * i));
            },
            Ok((after, pixel)) => {
                assert(after@ =~= bytes@.skip(3 * (i + 1)));
                rest = after;
                table.push(pixel);
                i = i + 1;
            },
        }
    }
    assert(table.deep_view() =~= spec_pixels(bytes@, count as nat)->Ok_0.0);
    Ok((rest, table))
}

/// Reads a colour table of `2^(size + 1)` colours where `flag` is set, and
/// nothing where it is not.
fn parse_color_table(bytes: &[u8], flag: bool, size: u16) -> (res: Result<
    (&[u8], Option<Vec<Pixel>>),
    ParseError,
>)
    ensures
        parsed_as(res, bytes@, spec_color_table(bytes@, flag, size as nat)),
{
    if !flag {
        assert(bytes@ =~= bytes@.skip(0));
        return Ok((bytes, None));
    }
    let len = bytes.len();
    if size >= 63 {
        // More colours than a slice has bytes.
        proof {
            lemma2_to64_rest();
            if size > 63 {
                lemma_pow2_strictly_increases(64, (size + 1) as nat);
            }
        }
        return Err(ParseError::Truncated { position: len });
    }
    let num_colors: u64 = pow2_u64((size + 1) as u8);
    if ((len / 3) as u64) < num_colors {
        return Err(ParseError::Truncated { position: len });
    }
    let (rest, table) = take_pixels(bytes, num_colors as usize)?;
    Ok((rest, Some(table)))
}

/// Reads the global colour table that `lsd` announces, if it announces one.
pub fn parse_global_color_table<'a>(bytes: &'a [u8], lsd: &LogicalScreenDescriptor) -> (res:
    Result<(&'a [u8], Option<GlobalColorTable>), ParseError>)
    ensures
        parsed_as(
            res,
            bytes@,
            spec_color_table(
                bytes@,
                lsd.global_color_table_flag,
                lsd.global_color_table_size as nat,
            ),
        ),
{
    parse_color_table(bytes, lsd.global_color_table_flag, lsd.global_color_table_size)
}

/// Reads the local colour table that `image_descriptor` announces, if it
/// announces one.
pub fn parse_local_color_table<'a>(bytes: &'a [u8], image_descriptor: &ImageDescriptor) -> (res:
    Result<(&'a [u8], Option<LocalColorTable>), ParseError>)
    ensures
        parsed_as(
            res,
            bytes@,
            spec_color_table(
                bytes@,
                image_descriptor.local_color_table_flag,
                image_descriptor.local_color_table_size as nat,
            ),
        ),
{
    parse_color_table(
        bytes,
        image_descriptor.local_color_table_flag,
        image_descriptor.local_color_table_size as u16,
    )
}

/// Appends the bytes of `bytes` from `from` up to `to` to `out`.
fn append_bytes(out: &mut Vec<u8>, bytes: &[u8], from: usize, to: usize)
    requires
        from <= to <= bytes@.len(),
    ensures
        final(out)@ == old(out)@ + bytes@.subrange(from as int, to as int),
{
    let mut i: usize = from;
    while i < to
        invariant
            from <= i <= to <= bytes@.len(),
            out@ == old(out)@ + bytes@.subrange(from as int, i as int),
        decreases to - i,
    {
        out.push(bytes[i]);
        i = i + 1;
        assert(out@ =~= old(out)@ + bytes@.subrange(from as int, i as int));
    }
}

/// Reads a data block and joins the payloads of its sub-blocks.
pub fn parse_data_block(bytes: &[u8]) -> (res: Result<(&[u8], Vec<u8>), ParseError>)
    ensures
        parsed_as(res, bytes@, spec_data_block(bytes@)),
{
    if bytes.len() > 0 && bytes[0] == BLOCK_TERMINATOR {
        return Err(ParseError::EmptyDataBlock { position: 0 });
    }
    let mut block: Vec<u8> = Vec::new();
    let mut at: usize = 0;
    assert(bytes@.skip(0) =~= bytes@);
    loop
        invariant
            at <= bytes@.len(),
            spec_data_block(bytes@) == joined(
                block@,
                at as nat,
                spec_sub_blocks(bytes@.skip(at as int)),
            ),
        decreases bytes@.len() - at,
    {
        let ghost s = bytes@.skip(at as int);
        if at >= bytes.len() {
            return Err(ParseError::Truncated { position: at });
        }
        let length = bytes[at] as usize;
        if length == 0 {
            assert(block@ + Seq::<u8>::empty() =~= block@);
            assert(block.deep_view() =~= block@);
            return Ok((bytes_from(bytes, at + 1), block));
        }
        if bytes.len() - at - 1 < length {
            return Err(ParseError::Truncated { position: at + 1 });
        }
        let ghost before = block@;
        append_bytes(&mut block, bytes, at + 1, at + 1 + length);
        proof {
            let next = spec_sub_blocks(s.skip(1 + length));
            assert(s.skip(1 + length) =~= bytes@.skip(at + 1 + length));
            assert(s.subrange(1, 1 + length) =~= bytes@.subrange(at + 1, at + 1 + length));
            match next {
                Ok((rest, taken)) => {
                    assert(before + (s.subrange(1, 1 + length) + rest) =~= block@ + rest);
                },
                Err(e) => {
                    lemma_shifted_twice(e, (1 + length) as nat, at as nat);
                },
            }
        }
        at = at + 1 + length;
    }
}

/// Shifting an error twice is shifting it once by the sum.
pub proof fn lemma_shifted_twice(e: ParseErrorView, first: nat, second: nat)
    ensures
        e.shifted(first).shifted(second) == e.shifted(first + second),
        e.shifted(first).position() == if e is InvalidGifMagic {
            0
        } else {
            e.position() + first
        },
        e.shifted(0) == e,
{
}

/// Reads the data of an image and decompresses it.
pub fn parse_image_data(bytes: &[u8]) -> (res: Result<(&[u8], Vec<u8>), ParseError>)
    ensures
        parsed_as(res, bytes@, spec_image_data(bytes@)),
{
    let lzw_minimum_code_size = byte_at(bytes, 0)?;
    let (rest, compressed_data) = match parse_data_block(bytes_from(bytes, 1)) {
        Ok(parsed) => parsed,
        Err(e) => {
            proof {
                lemma_shifted_twice(e@, 1, 0);
                assert(e@.position() + 1 <= bytes.len());
            }
            return Err(e.shifted(1));
        },
    };
    let ghost taken = spec_data_block(bytes@.skip(1))->Ok_0.1;
    assert(rest@ =~= bytes@.skip((taken + 1) as int));
    assert(compressed_data.deep_view() =~= compressed_data@);
    match decompress(compressed_data, lzw_minimum_code_size) {
        Ok(indices) => {
            assert(indices.deep_view() =~= indices@);
            Ok((rest, indices))
        },
        Err(error) => Err(ParseError::Decompress { error, position: 0 }),
    }
}

/// The outcome of a part that begins `by` bytes into `whole`, seen from
/// the whole.
fn part_within<'a, T: DeepView>(
    part: Result<(&'a [u8], T), ParseError>,
    whole: &[u8],
    by: usize,
    Ghost(model): Ghost<Parsed<T::V>>,
) -> (res: Result<(&'a [u8], T), ParseError>)
    requires
        by <= whole@.len(),
        parsed_as(part, whole@.skip(by as int), model),
    ensures
        parsed_as(res, whole@, within(model, by as nat)),
{
    match part {
        Ok((rest, value)) => {
            proof {
                let taken = model->Ok_0.1;
                assert(whole@.skip(by as int).skip(taken as int) =~= whole@.skip(
                    (taken + by) as int,
                ));
            }
            Ok((rest, value))
        },
        Err(e) => {
            proof {
                lemma_shifted_twice(e@, by as nat, 0);
                assert(e@.position() + by <= whole.len());
            }
            Err(e.shifted(by))
        },
    }
}

/// The disposal method with the number `value`.
fn disposal_method(value: u8) -> (res: Option<DisposalMethod>)
    ensures
        res == disposal_method_of(value),
{
    if value == 0 {
        Some(DisposalMethod::NoDisposal)
    } else if value == 1 {
        Some(DisposalMethod::DoNotDispose)
    } else if value == 2 {
        Some(DisposalMethod::RestoreToBackground)
    } else if value == 3 {
        Some(DisposalMethod::RestoreToPrevious)
    } else {
        None
    }
}

/// Reads what follows the label of a graphics control extension.
fn parse_graphics_control(bytes: &[u8]) -> (res: Result<(&[u8], Extension), ParseError>)
    ensures
        parsed_as(res, bytes@, spec_graphics_control(bytes@)),
{
    tag_at(bytes, 0, GRAPHICS_CONTROL_BLOCK_SIZE)?;
    let packed = byte_at(bytes, 1)?;
    let disposal_method = match disposal_method((packed / 4) % 8) {
        Some(method) => method,
        None => {
            return Err(
                ParseError::InvalidDisposalMethod { value: (packed / 4) % 8, position: 1 },
            );
        },
    };
    let delay_timer = le_u16_at(bytes, 2)?;
    let transparent_color_index = byte_at(bytes, 4)?;
    tag_at(bytes, 5, BLOCK_TERMINATOR)?;
    Ok(
        (
            bytes_from(bytes, 6),
            Extension::GraphicsControlExtension {
                reserved: packed / 32,
                disposal_method,
                user_input_flag: (packed / 2) % 2 == 1,
                transparent_color_flag: packed % 2 == 1,
                delay_timer,
                transparent_color_index,
            },
        ),
    )
}

/// The text that the bytes of `bytes` from `from` up to `to` encode.
fn text_at(bytes: &[u8], from: usize, to: usize) -> (res: Result<String, ParseError>)
    requires
        from <= to <= bytes@.len(),
    ensures
        valid_utf8(bytes@.subrange(from as int, to as int)) ==> (res matches Ok(text) && text@
            == decode_utf8(bytes@.subrange(from as int, to as int))),
        !valid_utf8(bytes@.subrange(from as int, to as int)) ==> res == Err::<String, ParseError>(
            ParseError::InvalidUtf8 { position: from },
        ),
{
    match utf8_text(slice_subrange(bytes, from, to)) {
        Some(text) => Ok(text.to_owned()),
        None => Err(ParseError::InvalidUtf8 { position: from }),
    }
}

/// Reads what follows the label of an application extension.
fn parse_application(bytes: &[u8]) -> (res: Result<(&[u8], Extension), ParseError>)
    ensures
        parsed_as(res, bytes@, spec_application(bytes@)),
{
    tag_at(bytes, 0, APPLICATION_BLOCK_SIZE)?;
    if bytes.len() < 12 {
        return Err(ParseError::Truncated { position: 1 });
    }
    let identifier = text_at(bytes, 1, 9)?;
    let authentication_code = text_at(bytes, 9, 12)?;
    let (rest, data) = part_within(
        parse_data_block(bytes_from(bytes, 12)),
        bytes,
        12,
        Ghost(spec_data_block(bytes@.skip(12))),
    )?;
    assert(data.deep_view() =~= data@);
    Ok((rest, Extension::Application { identifier, authentication_code, data }))
}

/// Reads what follows the label of a comment extension.
fn parse_comment(bytes: &[u8]) -> (res: Result<(&[u8], Extension), ParseError>)
    ensures
        parsed_as(res, bytes@, spec_comment(bytes@)),
{
    let (rest, block) = parse_data_block(bytes)?;
    assert(block.deep_view() =~= block@);
    let text = match utf8_text(block.as_slice()) {
        Some(text) => text.to_owned(),
        None => {
            return Err(ParseError::InvalidUtf8 { position: 0 });
        },
    };
    Ok((rest, Extension::Comment { text }))
}

/// Reads what follows the label of a plain text extension.
fn parse_plain_text(bytes: &[u8]) -> (res: Result<(&[u8], Extension), ParseError>)
    ensures
        parsed_as(res, bytes@, spec_plain_text(bytes@)),
{
    byte_at(bytes, 0)?;
    if bytes.len() < 13 {
        return Err(ParseError::Truncated { position: 1 });
    }
    let (rest, block) = part_within(
        parse_data_block(bytes_from(bytes, 13)),
        bytes,
        13,
        Ghost(spec_data_block(bytes@.skip(13))),
    )?;
    assert(block.deep_view() =~= block@);
    let text = match utf8_text(block.as_slice()) {
        Some(text) => text.to_owned(),
        None => {
            return Err(ParseError::InvalidUtf8 { position: 13 });
        },
    };
    Ok((rest, Extension::PlainText { text }))
}

/// Reads one extension.
pub fn parse_extension(bytes: &[u8]) -> (res: Result<(&[u8], Extension), ParseError>)
    ensures
        parsed_as(res, bytes@, spec_extension(bytes@)),
{
    proof {
        reveal(spec_extension);
    }
    tag_at(bytes, 0, EXTENSION_INTRODUCER)?;
    let ext_type = byte_at(bytes, 1)?;
    let payload = bytes_from(bytes, 2);
    if ext_type == GRAPHICS_CONTROL_LABEL {
        part_within(
            parse_graphics_control(payload),
            bytes,
            2,
            Ghost(spec_graphics_control(payload@)),
        )
    } else if ext_type == PLAIN_TEXT_LABEL {
        part_within(parse_plain_text(payload), bytes, 2, Ghost(spec_plain_text(payload@)))
    } else if ext_type == APPLICATION_LABEL {
        part_within(parse_application(payload), bytes, 2, Ghost(spec_application(payload@)))
    } else if ext_type == COMMENT_LABEL {
        part_within(parse_comment(payload), bytes, 2, Ghost(spec_comment(payload@)))
    } else {
        Err(ParseError::UnsupportedExtension { label: ext_type, position: 1 })
    }
}

/// Reads the extensions that `bytes` begin with.
pub fn parse_extensions(bytes: &[u8]) -> (res: Result<(&[u8], Vec<Extension>), ParseError>)
    ensures
        parsed_as(res, bytes@, spec_extensions(bytes@)),
{
    let mut extensions: Vec<Extension> = Vec::new();
    let mut rest = bytes;
    let mut at: usize = 0;
    assert(bytes@.skip(0) =~= bytes@);
    assert(extensions.deep_view() =~= Seq::<ExtensionView>::empty());
    loop
        invariant
            at <= bytes@.len(),
            rest@ == bytes@.skip(at as int),
            spec_extensions(bytes@) == joined(
                extensions.deep_view(),
                at as nat,
                spec_extensions(rest@),
            ),
        decreases bytes@.len() - at,
    {
        if rest.len() == 0 || rest[0] != EXTENSION_INTRODUCER {
            assert(extensions.deep_view() + Seq::<ExtensionView>::empty()
                =~= extensions.deep_view());
            return Ok((rest, extensions));
        }
        let ghost before = extensions.deep_view();
        let ghost model = spec_extension(rest@);
        let (after, extension) = part_within(parse_extension(rest), bytes, at, Ghost(model))?;
        proof {
            let taken = model->Ok_0.1;
            lemma_extension_advances(rest@);
            assert(after@ =~= rest@.skip(taken as int));
            match spec_extensions(after@) {
                Ok((more, _)) => {
                    assert(before + (seq![extension.deep_view()] + more) =~= before.push(
                        extension.deep_view(),
                    ) + more);
                },
                Err(e) => {
                    lemma_shifted_twice(e, taken, at as nat);
                },
            }
        }
        at = bytes.len() - after.len();
        rest = after;
        extensions.push(extension);
        assert(extensions.deep_view() =~= before.push(extension.deep_view()));
    }
}

/// Reads an image, which `extensions` came before.
fn parse_image(bytes: &[u8], extensions: Vec<Extension>) -> (res: Result<
    (&[u8], GifFrame),
    ParseError,
>)
    ensures
        parsed_as(res, bytes@, spec_image(bytes@, extensions.deep_view())),
{
    proof {
        reveal(spec_image);
    }
    let (rest, image_descriptor) = parse_image_descriptor(bytes)?;
    let ghost table_model = spec_color_table(
        rest@,
        image_descriptor.local_color_table_flag,
        image_descriptor.local_color_table_size as nat,
    );
    let (rest, local_color_table) = part_within(
        parse_local_color_table(rest, &image_descriptor),
        bytes,
        10,
        Ghost(table_model),
    )?;
    let at = bytes.len() - rest.len();
    let (rest, frame_indices) = part_within(
        parse_image_data(rest),
        bytes,
        at,
        Ghost(spec_image_data(rest@)),
    )?;
    assert(frame_indices.deep_view() =~= frame_indices@);
    Ok((rest, GifFrame { image_descriptor, local_color_table, frame_indices, extensions }))
}

/// Reads a frame: the extensions before an image, and the image.
pub fn parse_frame(bytes: &[u8]) -> (res: Result<(&[u8], GifFrame), ParseError>)
    ensures
        parsed_as(res, bytes@, spec_frame(bytes@)),
{
    let (rest, extensions) = parse_extensions(bytes)?;
    let at = bytes.len() - rest.len();
    let ghost model = spec_image(rest@, extensions.deep_view());
    part_within(parse_image(rest, extensions), bytes, at, Ghost(model))
}

/// The frames of a file whose first image is read: that image's frame, then
/// the frames of what follows it.
proof fn lemma_body_unfold(s: Seq<u8>)
    requires
        spec_extensions(s) is Ok,
        spec_extensions(s)->Ok_0.1 < s.len(),
        s[spec_extensions(s)->Ok_0.1 as int] != TRAILER,
        spec_image(s.skip(spec_extensions(s)->Ok_0.1 as int), spec_extensions(s)->Ok_0.0) is Ok,
    ensures
        ({
            let (extensions, taken) = spec_extensions(s)->Ok_0;
            let (frame, image_len) = spec_image(s.skip(taken as int), extensions)->Ok_0;
            spec_body(s) == joined(
                seq![frame],
                taken + image_len,
                spec_body(s.skip((taken + image_len) as int)),
            )
        }),
{
}

/// A list read in two parts is the list read in one.
proof fn lemma_joined_twice<T>(
    before: Seq<T>,
    at: nat,
    item: T,
    taken: nat,
    part: Parsed<Seq<T>>,
)
    ensures
        joined(before, at, joined(seq![item], taken, part)) == joined(
            before.push(item),
            at + taken,
            part,
        ),
{
    match part {
        Ok((more, _)) => {
            assert(before + (seq![item] + more) =~= before.push(item) + more);
        },
        Err(e) => {
            lemma_shifted_twice(e, taken, at);
        },
    }
}

/// Reads the frames of a file, up to and with the trailer.
fn parse_body(bytes: &[u8]) -> (res: Result<(&[u8], Vec<GifFrame>), ParseError>)
    ensures
        parsed_as(res, bytes@, spec_body(bytes@)),
{
    let mut frames: Vec<GifFrame> = Vec::new();
    let mut rest = bytes;
    let mut at: usize = 0;
    assert(bytes@.skip(0) =~= bytes@);
    assert(frames.deep_view() =~= Seq::<GifFrameView>::empty());
    loop
        invariant
            at <= bytes@.len(),
            rest@ == bytes@.skip(at as int),
            spec_body(bytes@) == joined(frames.deep_view(), at as nat, spec_body(rest@)),
        decreases bytes@.len() - at,
    {
        let ghost before = frames.deep_view();
        let ghost start = rest@;
        let ghost extensions_model = spec_extensions(start);
        let (after, extensions) = part_within(
            parse_extensions(rest),
            bytes,
            at,
            Ghost(extensions_model),
        )?;
        let ghost taken = extensions_model->Ok_0.1;
        assert(after@ =~= start.skip(taken as int));
        let image_at = bytes.len() - after.len();
        if after.len() == 0 {
            return Err(ParseError::Truncated { position: image_at });
        }
        if after[0] == TRAILER {
            assert(before + Seq::<GifFrameView>::empty() =~= before);
            return Ok((bytes_from(bytes, image_at + 1), frames));
        }
        let ghost image_model = spec_image(after@, extensions.deep_view());
        let (after, frame) = part_within(
            parse_image(after, extensions),
            bytes,
            image_at,
            Ghost(image_model),
        )?;
        proof {
            let image_len = image_model->Ok_0.1;
            assert(after@ =~= start.skip((taken + image_len) as int));
            lemma_image_advances(start.skip(taken as int), extensions_model->Ok_0.0);
            lemma_body_unfold(start);
            lemma_joined_twice(
                before,
                at as nat,
                frame.deep_view(),
                taken + image_len,
                spec_body(after@),
            );
        }
        at = bytes.len() - after.len();
        rest = after;
        frames.push(frame);
        assert(frames.deep_view() =~= before.push(frame.deep_view()));
    }
}

impl GifFile {
    /// Reads a whole file.
    pub fn new(bytes: &[u8]) -> (res: Result<GifFile, ParseError>)
        ensures
            match res {
                Ok(file) => spec_gif(bytes@) == Ok::<GifFileView, ParseErrorView>(
                    file.deep_view(),
                ),
                Err(e) => spec_gif(bytes@) == Err::<GifFileView, ParseErrorView>(e@),
            },
    {
        let (rest, header) = parse_header(bytes)?;
        let (rest, logical_screen_descriptor) = part_within(
            parse_logical_screen_descriptor(rest),
            bytes,
            6,
            Ghost(spec_logical_screen_descriptor(rest@)),
        )?;
        let ghost table_model = spec_color_table(
            rest@,
            logical_screen_descriptor.global_color_table_flag,
            logical_screen_descriptor.global_color_table_size as nat,
        );
        let (rest, global_color_table) = part_within(
            parse_global_color_table(rest, &logical_screen_descriptor),
            bytes,
            13,
            Ghost(table_model),
        )?;
        let at = bytes.len() - rest.len();
        let (rest, frames) = part_within(
            parse_body(rest),
            bytes,
            at,
            Ghost(spec_body(rest@)),
        )?;
        if rest.len() > 0 {
            return Err(ParseError::TrailingData { position: bytes.len() - rest.len() });
        }
        Ok(GifFile { header, logical_screen_descriptor, global_color_table, frames })
    }
}

} // verus!
