use gif_me_hd::decoder::lzw::DecompressError;
use gif_me_hd::decoder::{
    parse_data_block, parse_extension, parse_extensions, parse_frame, parse_global_color_table,
    parse_header, parse_image_data, parse_image_descriptor, parse_local_color_table,
    parse_logical_screen_descriptor, take_pixel, DisposalMethod, Extension, GifFile, GifHeader,
    ImageDescriptor, LogicalScreenDescriptor, ParseError, Pixel,
};

const WHITE: Pixel = Pixel { red: 255, green: 255, blue: 255 };
const RED: Pixel = Pixel { red: 255, green: 0, blue: 0 };
const BLUE: Pixel = Pixel { red: 0, green: 0, blue: 255 };
const BLACK: Pixel = Pixel { red: 0, green: 0, blue: 0 };

/// A ten by ten image of four colours, with one graphics control extension.
fn sample_file() -> Vec<u8> {
    let mut bytes = Vec::new();
    bytes.extend_from_slice(b"GIF89a");
    bytes.extend_from_slice(&[0x0A, 0x00, 0x0A, 0x00, 0x91, 0x00, 0x00]);
    bytes.extend_from_slice(&[
        0xFF, 0xFF, 0xFF, 0xFF, 0x00, 0x00, 0x00, 0x00, 0xFF, 0x00, 0x00, 0x00,
    ]);
    bytes.extend_from_slice(&[0x21, 0xF9, 0x04, 0x00, 0x00, 0x00, 0x00, 0x00]);
    bytes.extend_from_slice(&[0x2C, 0x00, 0x00, 0x00, 0x00, 0x0A, 0x00, 0x0A, 0x00, 0x00]);
    bytes.push(0x02);
    bytes.push(0x16);
    bytes.extend_from_slice(&[
        0x8C, 0x2D, 0x99, 0x87, 0x2A, 0x1C, 0xDC, 0x33, 0xA0, 0x02, 0x75, 0xEC, 0x95, 0xFA, 0xA8,
        0xDE, 0x60, 0x8C, 0x04, 0x91, 0x4C, 0x01,
    ]);
    bytes.push(0x00);
    bytes.push(0x3B);
    bytes
}

fn sample_indices() -> Vec<u8> {
    vec![
        1, 1, 1, 1, 1, 2, 2, 2, 2, 2, 1, 1, 1, 1, 1, 2, 2, 2, 2, 2, 1, 1, 1, 1, 1, 2, 2, 2, 2,
        2, 1, 1, 1, 0, 0, 0, 0, 2, 2, 2, 1, 1, 1, 0, 0, 0, 0, 2, 2, 2, 2, 2, 2, 0, 0, 0, 0, 1,
        1, 1, 2, 2, 2, 0, 0, 0, 0, 1, 1, 1, 2, 2, 2, 2, 2, 1, 1, 1, 1, 1, 2, 2, 2, 2, 2, 1, 1,
        1, 1, 1, 2, 2, 2, 2, 2, 1, 1, 1, 1, 1,
    ]
}

fn rest_of(bytes: &[u8], from: usize) -> &[u8] {
    &bytes[from..]
}

#[test]
fn pixel_cut_short() {
    assert_eq!(take_pixel(&[]), Err(ParseError::Truncated { position: 0 }));
    assert_eq!(take_pixel(&[1]), Err(ParseError::Truncated { position: 1 }));
    assert_eq!(take_pixel(&[1, 2]), Err(ParseError::Truncated { position: 2 }));
    let empty: &[u8] = &[];
    assert_eq!(take_pixel(&[1, 2, 3]), Ok((empty, Pixel { red: 1, green: 2, blue: 3 })));
}

#[test]
fn header_with_another_signature() {
    let bytes: &[u8] = &[0x47, 0x49, 0x46, 0x38, 0x38, 0x61, 1, 2];
    assert_eq!(parse_header(bytes), Err(ParseError::InvalidGifMagic("GIF88a".to_string())));
    assert_eq!(
        parse_header(b"gif89a"),
        Err(ParseError::InvalidGifMagic("gif89a".to_string()))
    );
    assert_eq!(
        parse_header(b"GIF89A"),
        Err(ParseError::InvalidGifMagic("GIF89A".to_string()))
    );
}

#[test]
fn header_that_is_no_text() {
    let bytes: &[u8] = &[0x47, 0x49, 0x46, 0xFF, 0x39, 0x61];
    assert_eq!(parse_header(bytes), Err(ParseError::InvalidUtf8 { position: 0 }));
    // A two-byte character cut in the middle.
    let bytes: &[u8] = &[0x47, 0x49, 0x46, 0x38, 0x39, 0xC3, 0xA9];
    assert_eq!(parse_header(bytes), Err(ParseError::InvalidUtf8 { position: 0 }));
}

#[test]
fn header_cut_short() {
    assert_eq!(parse_header(b""), Err(ParseError::Truncated { position: 0 }));
    assert_eq!(parse_header(b"GIF89"), Err(ParseError::Truncated { position: 0 }));
}

#[test]
fn header_of_text() {
    assert_eq!(GifHeader::from("GIF89a"), Ok(GifHeader::GIF89a));
    assert_eq!(GifHeader::from("GIF87a"), Ok(GifHeader::GIF87a));
    assert_eq!(GifHeader::from("GIF88a"), Err("File format header not supported!"));
    assert_eq!(GifHeader::from("gif89a"), Err("File format header not supported!"));
    assert_eq!(GifHeader::from(""), Err("File format header not supported!"));
    assert_eq!(GifHeader::from("GIF89a "), Err("File format header not supported!"));
    assert_eq!(GifHeader::from("GIF8\u{39}\u{e9}"), Err("File format header not supported!"));
}

#[test]
fn logical_screen_descriptor_cut_short() {
    let whole: &[u8] = &[0x0a, 0x00, 0x0b, 0x00, 0x91, 0x02, 0x03];
    let expected = [0usize, 0, 2, 2, 4, 5, 6];
    for len in 0..7 {
        assert_eq!(
            parse_logical_screen_descriptor(&whole[..len]),
            Err(ParseError::Truncated { position: expected[len] }),
            "len = {}",
            len
        );
    }
}

/// The seven bytes that a logical screen descriptor is written as.
fn write_logical_screen_descriptor(d: &LogicalScreenDescriptor) -> [u8; 7] {
    let packed = ((d.global_color_table_flag as u8) << 7)
        | ((d.color_resolution as u8) << 4)
        | ((d.sort_flag as u8) << 3)
        | (d.global_color_table_size as u8);
    [
        (d.canvas_width & 0xFF) as u8,
        (d.canvas_width >> 8) as u8,
        (d.canvas_height & 0xFF) as u8,
        (d.canvas_height >> 8) as u8,
        packed,
        d.background_color_index,
        d.pixel_aspect_ratio,
    ]
}

#[test]
fn logical_screen_descriptor_written_again_is_what_was_read() {
    for packed in 0u16..=255 {
        for (w, h) in [(0u16, 0u16), (1, 2), (0x1234, 0xFEDC), (0xFFFF, 0x00FF), (0x0100, 0x8000)] {
            let bytes = [
                (w & 0xFF) as u8,
                (w >> 8) as u8,
                (h & 0xFF) as u8,
                (h >> 8) as u8,
                packed as u8,
                (packed as u8).wrapping_mul(7),
                (packed as u8).wrapping_add(91),
            ];
            let (rest, descriptor) = parse_logical_screen_descriptor(&bytes).unwrap();
            assert!(rest.is_empty());
            assert_eq!(descriptor.canvas_width, w);
            assert_eq!(descriptor.canvas_height, h);
            assert!(descriptor.color_resolution < 8);
            assert!(descriptor.global_color_table_size < 8);
            assert_eq!(write_logical_screen_descriptor(&descriptor), bytes);
        }
    }
}

#[test]
fn logical_screen_descriptor_packed_fields() {
    // 0b1_010_1_011: flag, colour resolution 2, sorted, size 3.
    let bytes: &[u8] = &[1, 0, 2, 0, 0b1010_1011, 9, 8];
    let (_, d) = parse_logical_screen_descriptor(bytes).unwrap();
    assert_eq!(
        d,
        LogicalScreenDescriptor {
            canvas_width: 1,
            canvas_height: 2,
            global_color_table_flag: true,
            color_resolution: 2,
            sort_flag: true,
            global_color_table_size: 3,
            background_color_index: 9,
            pixel_aspect_ratio: 8,
        }
    );
    // 0b0_111_0_000
    let bytes: &[u8] = &[1, 0, 2, 0, 0b0111_0000, 9, 8];
    let (_, d) = parse_logical_screen_descriptor(bytes).unwrap();
    assert!(!d.global_color_table_flag);
    assert_eq!(d.color_resolution, 7);
    assert!(!d.sort_flag);
    assert_eq!(d.global_color_table_size, 0);
}

#[test]
fn global_color_table_sizes() {
    let lsd = |size: u16| LogicalScreenDescriptor {
        canvas_width: 0,
        canvas_height: 0,
        global_color_table_flag: true,
        color_resolution: 0,
        sort_flag: false,
        global_color_table_size: size,
        background_color_index: 0,
        pixel_aspect_ratio: 0,
    };
    for size in 0u16..8 {
        let colours = 1usize << (size + 1);
        let mut data: Vec<u8> = (0..3 * colours).map(|i| (i % 251) as u8).collect();
        data.push(77);
        let (rest, table) = parse_global_color_table(&data, &lsd(size)).unwrap();
        assert_eq!(rest, &[77u8][..]);
        let table = table.unwrap();
        assert_eq!(table.len(), colours);
        for (i, pixel) in table.iter().enumerate() {
            assert_eq!(pixel.red, data[3 * i]);
            assert_eq!(pixel.green, data[3 * i + 1]);
            assert_eq!(pixel.blue, data[3 * i + 2]);
        }
        // One byte too few.
        assert_eq!(
            parse_global_color_table(&data[..3 * colours - 1], &lsd(size)),
            Err(ParseError::Truncated { position: 3 * colours - 1 })
        );
    }
}

#[test]
fn color_table_larger_than_any_input() {
    let lsd = |size: u16| LogicalScreenDescriptor {
        canvas_width: 0,
        canvas_height: 0,
        global_color_table_flag: true,
        color_resolution: 0,
        sort_flag: false,
        global_color_table_size: size,
        background_color_index: 0,
        pixel_aspect_ratio: 0,
    };
    let data = vec![0u8; 100];
    for size in [8u16, 20, 30, 31, 62, 63, 64, 1000, 65535] {
        assert_eq!(
            parse_global_color_table(&data, &lsd(size)),
            Err(ParseError::Truncated { position: 100 })
        );
    }
}

#[test]
fn local_color_table_follows_the_descriptor() {
    let descriptor = ImageDescriptor {
        left: 0,
        top: 0,
        width: 1,
        height: 1,
        local_color_table_flag: true,
        interlace_flag: false,
        sort_flag: false,
        reserved: 0,
        local_color_table_size: 0,
    };
    let data: &[u8] = &[1, 2, 3, 4, 5, 6, 7];
    assert_eq!(
        parse_local_color_table(data, &descriptor),
        Ok((
            &[7u8][..],
            Some(vec![Pixel { red: 1, green: 2, blue: 3 }, Pixel { red: 4, green: 5, blue: 6 }])
        ))
    );
    let without = ImageDescriptor { local_color_table_flag: false, ..descriptor };
    assert_eq!(parse_local_color_table(data, &without), Ok((data, None)));
}

#[test]
fn image_descriptor_packed_fields() {
    // 0b1_1_0_10_101: table, interlaced, not sorted, reserved 2, size 5.
    let data: &[u8] = &[0x2C, 1, 0, 2, 0, 3, 0, 4, 0, 0b1101_0101];
    let empty: &[u8] = &[];
    assert_eq!(
        parse_image_descriptor(data),
        Ok((
            empty,
            ImageDescriptor {
                left: 1,
                top: 2,
                width: 3,
                height: 4,
                local_color_table_flag: true,
                interlace_flag: true,
                sort_flag: false,
                reserved: 2,
                local_color_table_size: 5,
            }
        ))
    );
    let data: &[u8] = &[0x2C, 1, 0, 2, 0, 3, 0, 4, 0, 0b0010_0000];
    let (_, d) = parse_image_descriptor(data).unwrap();
    assert!(!d.local_color_table_flag && !d.interlace_flag && d.sort_flag);
    assert_eq!((d.reserved, d.local_color_table_size), (0, 0));
}

#[test]
fn image_descriptor_failures() {
    let whole: &[u8] = &[0x2C, 1, 0, 2, 0, 3, 0, 4, 0, 0];
    let expected = [0usize, 1, 1, 3, 3, 5, 5, 7, 7, 9];
    for len in 0..10 {
        assert_eq!(
            parse_image_descriptor(&whole[..len]),
            Err(ParseError::Truncated { position: expected[len] }),
            "len = {}",
            len
        );
    }
    assert_eq!(
        parse_image_descriptor(&[0x21, 1, 0, 2, 0, 3, 0, 4, 0, 0]),
        Err(ParseError::UnexpectedByte { expected: 0x2C, got: 0x21, position: 0 })
    );
}

#[test]
fn data_block_joins_its_sub_blocks() {
    let data: &[u8] = &[2, 10, 11, 1, 12, 3, 13, 14, 15, 0, 99];
    assert_eq!(parse_data_block(data), Ok((&[99u8][..], vec![10, 11, 12, 13, 14, 15])));
    // A sub-block of the greatest length.
    let mut long = vec![255u8];
    long.extend(std::iter::repeat(7u8).take(255));
    long.push(0);
    let empty: &[u8] = &[];
    assert_eq!(parse_data_block(&long), Ok((empty, vec![7u8; 255])));
}

#[test]
fn data_block_failures() {
    assert_eq!(parse_data_block(&[]), Err(ParseError::Truncated { position: 0 }));
    assert_eq!(parse_data_block(&[0, 1]), Err(ParseError::EmptyDataBlock { position: 0 }));
    // The payload of the first sub-block is cut short.
    assert_eq!(parse_data_block(&[3, 1, 2]), Err(ParseError::Truncated { position: 1 }));
    // The terminator is missing.
    assert_eq!(parse_data_block(&[2, 1, 2]), Err(ParseError::Truncated { position: 3 }));
    // The payload of the second sub-block is cut short.
    assert_eq!(parse_data_block(&[1, 9, 4, 1, 2]), Err(ParseError::Truncated { position: 3 }));
}

#[test]
fn image_data_is_decompressed() {
    let mut data = vec![0x02, 0x16];
    data.extend_from_slice(&[
        0x8C, 0x2D, 0x99, 0x87, 0x2A, 0x1C, 0xDC, 0x33, 0xA0, 0x02, 0x75, 0xEC, 0x95, 0xFA, 0xA8,
        0xDE, 0x60, 0x8C, 0x04, 0x91, 0x4C, 0x01,
    ]);
    data.extend_from_slice(&[0x00, 0x3B]);
    assert_eq!(parse_image_data(&data), Ok((&[0x3Bu8][..], sample_indices())));
}

#[test]
fn image_data_split_over_sub_blocks() {
    let compressed: [u8; 22] = [
        0x8C, 0x2D, 0x99, 0x87, 0x2A, 0x1C, 0xDC, 0x33, 0xA0, 0x02, 0x75, 0xEC, 0x95, 0xFA, 0xA8,
        0xDE, 0x60, 0x8C, 0x04, 0x91, 0x4C, 0x01,
    ];
    let mut data = vec![0x02, 5];
    data.extend_from_slice(&compressed[..5]);
    data.push(17);
    data.extend_from_slice(&compressed[5..]);
    data.push(0);
    let empty: &[u8] = &[];
    assert_eq!(parse_image_data(&data), Ok((empty, sample_indices())));
}

#[test]
fn image_data_failures() {
    assert_eq!(parse_image_data(&[]), Err(ParseError::Truncated { position: 0 }));
    assert_eq!(parse_image_data(&[2]), Err(ParseError::Truncated { position: 1 }));
    assert_eq!(parse_image_data(&[2, 0]), Err(ParseError::EmptyDataBlock { position: 1 }));
    assert_eq!(parse_image_data(&[2, 2, 0x8C]), Err(ParseError::Truncated { position: 2 }));
    assert_eq!(
        parse_image_data(&[9, 1, 0x8C, 0]),
        Err(ParseError::Decompress { error: DecompressError::MinCodeSizeInvalid(9), position: 0 })
    );
    assert_eq!(
        parse_image_data(&[2, 1, 0x01, 0]),
        Err(ParseError::Decompress { error: DecompressError::MissingClear, position: 0 })
    );
    assert_eq!(
        parse_image_data(&[2, 1, 0x0C, 0]),
        Err(ParseError::Decompress { error: DecompressError::Truncated, position: 0 })
    );
}

#[test]
fn graphics_control_packed_fields() {
    // 0b101_010_1_0: reserved 5, disposal 2, user input, not transparent.
    let data: &[u8] = &[0x21, 0xF9, 0x04, 0b1010_1010, 0x34, 0x12, 7, 0x00];
    let empty: &[u8] = &[];
    assert_eq!(
        parse_extension(data),
        Ok((
            empty,
            Extension::GraphicsControlExtension {
                reserved: 5,
                disposal_method: DisposalMethod::RestoreToBackground,
                user_input_flag: true,
                transparent_color_flag: false,
                delay_timer: 0x1234,
                transparent_color_index: 7,
            }
        ))
    );
    let method = |packed: u8| match parse_extension(&[0x21, 0xF9, 4, packed, 0, 0, 0, 0]) {
        Ok((_, Extension::GraphicsControlExtension { disposal_method, .. })) => disposal_method,
        other => panic!("{:?}", other),
    };
    assert_eq!(method(0b000_000_00), DisposalMethod::NoDisposal);
    assert_eq!(method(0b000_001_00), DisposalMethod::DoNotDispose);
    assert_eq!(method(0b000_010_00), DisposalMethod::RestoreToBackground);
    assert_eq!(method(0b000_011_01), DisposalMethod::RestoreToPrevious);
}

#[test]
fn graphics_control_failures() {
    for value in 4u8..8 {
        assert_eq!(
            parse_extension(&[0x21, 0xF9, 4, value << 2, 0, 0, 0, 0]),
            Err(ParseError::InvalidDisposalMethod { value, position: 3 })
        );
    }
    assert_eq!(
        parse_extension(&[0x21, 0xF9, 5, 0, 0, 0, 0, 0]),
        Err(ParseError::UnexpectedByte { expected: 4, got: 5, position: 2 })
    );
    assert_eq!(
        parse_extension(&[0x21, 0xF9, 4, 0, 0, 0, 0, 1]),
        Err(ParseError::UnexpectedByte { expected: 0, got: 1, position: 7 })
    );
    let whole: &[u8] = &[0x21, 0xF9, 4, 0, 0, 0, 0, 0];
    let expected = [0usize, 1, 2, 3, 4, 4, 6, 7];
    for len in 0..8 {
        assert_eq!(
            parse_extension(&whole[..len]),
            Err(ParseError::Truncated { position: expected[len] }),
            "len = {}",
            len
        );
    }
}

#[test]
fn extension_with_an_unknown_label() {
    assert_eq!(
        parse_extension(&[0x21, 0x42, 0, 0]),
        Err(ParseError::UnsupportedExtension { label: 0x42, position: 1 })
    );
    assert_eq!(
        parse_extension(&[0x2C, 0xF9]),
        Err(ParseError::UnexpectedByte { expected: 0x21, got: 0x2C, position: 0 })
    );
}

fn netscape() -> Vec<u8> {
    let mut data = vec![0x21, 0xFF, 0x0B];
    data.extend_from_slice(b"NETSCAPE2.0");
    data.extend_from_slice(&[0x03, 0x01, 0x00, 0x00, 0x00]);
    data
}

#[test]
fn application_extension() {
    let mut data = netscape();
    data.push(0x2C);
    assert_eq!(
        parse_extension(&data),
        Ok((
            &[0x2Cu8][..],
            Extension::Application {
                identifier: "NETSCAPE".to_string(),
                authentication_code: "2.0".to_string(),
                data: vec![1, 0, 0],
            }
        ))
    );
}

#[test]
fn application_extension_failures() {
    let mut data = netscape();
    data[2] = 12;
    assert_eq!(
        parse_extension(&data),
        Err(ParseError::UnexpectedByte { expected: 11, got: 12, position: 2 })
    );
    let mut data = netscape();
    data[5] = 0xFF;
    assert_eq!(parse_extension(&data), Err(ParseError::InvalidUtf8 { position: 3 }));
    let mut data = netscape();
    data[12] = 0x80;
    assert_eq!(parse_extension(&data), Err(ParseError::InvalidUtf8 { position: 11 }));
    let data = netscape();
    assert_eq!(parse_extension(&data[..10]), Err(ParseError::Truncated { position: 3 }));
    assert_eq!(parse_extension(&data[..14]), Err(ParseError::Truncated { position: 14 }));
    assert_eq!(parse_extension(&data[..16]), Err(ParseError::Truncated { position: 15 }));
    let mut data = netscape();
    data.truncate(14);
    data.push(0);
    assert_eq!(parse_extension(&data), Err(ParseError::EmptyDataBlock { position: 14 }));
}

#[test]
fn comment_extension() {
    let mut data = vec![0x21, 0xFE, 5];
    data.extend_from_slice(b"hello");
    data.push(4);
    data.extend_from_slice(b" gif");
    data.extend_from_slice(&[0, 0x3B]);
    assert_eq!(
        parse_extension(&data),
        Ok((&[0x3Bu8][..], Extension::Comment { text: "hello gif".to_string() }))
    );
    // A character of two bytes, one in each sub-block.
    let data: &[u8] = &[0x21, 0xFE, 1, 0xC3, 1, 0xA9, 0];
    let empty: &[u8] = &[];
    assert_eq!(
        parse_extension(data),
        Ok((empty, Extension::Comment { text: "\u{e9}".to_string() }))
    );
    let data: &[u8] = &[0x21, 0xFE, 1, 0xC3, 0];
    assert_eq!(parse_extension(data), Err(ParseError::InvalidUtf8 { position: 2 }));
    let data: &[u8] = &[0x21, 0xFE, 0];
    assert_eq!(parse_extension(data), Err(ParseError::EmptyDataBlock { position: 2 }));
}

#[test]
fn plain_text_extension() {
    let mut data = vec![0x21, 0x01, 12];
    data.extend_from_slice(&[1, 2, 3, 4, 5, 6, 7, 8, 9, 10, 11, 12]);
    data.push(2);
    data.extend_from_slice(b"hi");
    data.extend_from_slice(&[0, 9]);
    assert_eq!(
        parse_extension(&data),
        Ok((&[9u8][..], Extension::PlainText { text: "hi".to_string() }))
    );
    assert_eq!(parse_extension(&data[..2]), Err(ParseError::Truncated { position: 2 }));
    assert_eq!(parse_extension(&data[..9]), Err(ParseError::Truncated { position: 3 }));
    assert_eq!(parse_extension(&data[..15]), Err(ParseError::Truncated { position: 15 }));
    let mut bad = data.clone();
    bad[16] = 0xFF;
    assert_eq!(parse_extension(&bad), Err(ParseError::InvalidUtf8 { position: 15 }));
}

#[test]
fn extensions_in_a_row() {
    let mut data = vec![0x21, 0xF9, 0x04, 0x04, 0x0A, 0x00, 0x00, 0x00];
    data.extend(netscape());
    data.extend_from_slice(&[0x2C, 0x21]);
    let (rest, extensions) = parse_extensions(&data).unwrap();
    assert_eq!(rest, &[0x2Cu8, 0x21][..]);
    assert_eq!(
        extensions,
        vec![
            Extension::GraphicsControlExtension {
                reserved: 0,
                disposal_method: DisposalMethod::DoNotDispose,
                user_input_flag: false,
                transparent_color_flag: false,
                delay_timer: 10,
                transparent_color_index: 0,
            },
            Extension::Application {
                identifier: "NETSCAPE".to_string(),
                authentication_code: "2.0".to_string(),
                data: vec![1, 0, 0],
            },
        ]
    );
}

#[test]
fn extensions_none() {
    let empty: &[u8] = &[];
    assert_eq!(parse_extensions(empty), Ok((empty, vec![])));
    let data: &[u8] = &[0x2C, 0x21, 0xF9];
    assert_eq!(parse_extensions(data), Ok((data, vec![])));
}

#[test]
fn extensions_fail_where_one_fails() {
    // The second extension begins at offset 8 and has an unknown label.
    let data: &[u8] = &[0x21, 0xF9, 0x04, 0x00, 0x00, 0x00, 0x00, 0x00, 0x21, 0x77, 0x00];
    assert_eq!(
        parse_extensions(data),
        Err(ParseError::UnsupportedExtension { label: 0x77, position: 9 })
    );
    let data: &[u8] = &[0x21, 0xF9, 0x04, 0x00, 0x00, 0x00, 0x00, 0x00, 0x21, 0xF9, 0x04, 0x1C];
    assert_eq!(
        parse_extensions(data),
        Err(ParseError::InvalidDisposalMethod { value: 7, position: 11 })
    );
    let data: &[u8] = &[0x21, 0xF9, 0x04, 0x00, 0x00, 0x00, 0x00, 0x00, 0x21];
    assert_eq!(parse_extensions(data), Err(ParseError::Truncated { position: 9 }));
}

#[test]
fn frame_with_its_extensions() {
    let file = sample_file();
    let (rest, frame) = parse_frame(rest_of(&file, 25)).unwrap();
    assert_eq!(rest, &[0x3Bu8][..]);
    assert_eq!(
        frame.image_descriptor,
        ImageDescriptor {
            left: 0,
            top: 0,
            width: 10,
            height: 10,
            local_color_table_flag: false,
            interlace_flag: false,
            sort_flag: false,
            reserved: 0,
            local_color_table_size: 0,
        }
    );
    assert_eq!(frame.local_color_table, None);
    assert_eq!(frame.frame_indices, sample_indices());
    assert_eq!(frame.frame_indices.len(), 10 * 10);
    assert_eq!(
        frame.extensions,
        vec![Extension::GraphicsControlExtension {
            reserved: 0,
            disposal_method: DisposalMethod::NoDisposal,
            user_input_flag: false,
            transparent_color_flag: false,
            delay_timer: 0,
            transparent_color_index: 0,
        }]
    );
}

#[test]
fn frame_with_a_local_color_table() {
    // One pixel of index 1, with a table of two colours of its own.
    let data: &[u8] = &[
        0x2C, 5, 0, 6, 0, 1, 0, 1, 0, 0x80, 9, 9, 9, 1, 2, 3, 0x02, 0x02, 0x4C, 0x01, 0x00, 0x3B,
    ];
    let (rest, frame) = parse_frame(data).unwrap();
    assert_eq!(rest, &[0x3Bu8][..]);
    assert_eq!((frame.image_descriptor.left, frame.image_descriptor.top), (5, 6));
    assert_eq!(
        frame.local_color_table,
        Some(vec![Pixel { red: 9, green: 9, blue: 9 }, Pixel { red: 1, green: 2, blue: 3 }])
    );
    assert_eq!(frame.frame_indices, vec![1]);
    assert!(frame.extensions.is_empty());
}

#[test]
fn frame_failures_are_reported_from_its_start() {
    let file = sample_file();
    let frame = rest_of(&file, 25);
    // The image descriptor begins at offset 8 of the frame.
    assert_eq!(parse_frame(&frame[..8]), Err(ParseError::Truncated { position: 8 }));
    assert_eq!(parse_frame(&frame[..11]), Err(ParseError::Truncated { position: 11 }));
    // The image data begins at offset 18, its data block at 19.
    assert_eq!(parse_frame(&frame[..18]), Err(ParseError::Truncated { position: 18 }));
    assert_eq!(parse_frame(&frame[..25]), Err(ParseError::Truncated { position: 20 }));
    let mut bad = frame.to_vec();
    bad[18] = 1;
    assert_eq!(
        parse_frame(&bad),
        Err(ParseError::Decompress { error: DecompressError::MinCodeSizeInvalid(1), position: 18 })
    );
    let mut bad = frame.to_vec();
    bad[8] = 0x3A;
    assert_eq!(
        parse_frame(&bad),
        Err(ParseError::UnexpectedByte { expected: 0x2C, got: 0x3A, position: 8 })
    );
}

#[test]
fn whole_file() {
    let file = GifFile::new(&sample_file()).unwrap();
    assert_eq!(file.header, GifHeader::GIF89a);
    assert_eq!(
        file.logical_screen_descriptor,
        LogicalScreenDescriptor {
            canvas_width: 10,
            canvas_height: 10,
            global_color_table_flag: true,
            color_resolution: 1,
            sort_flag: false,
            global_color_table_size: 1,
            background_color_index: 0,
            pixel_aspect_ratio: 0,
        }
    );
    assert_eq!(file.global_color_table, Some(vec![WHITE, RED, BLUE, BLACK]));
    assert_eq!(file.frames.len(), 1);
    assert_eq!(file.frames[0].frame_indices, sample_indices());
    assert_eq!(file.frames[0].extensions.len(), 1);
}

#[test]
fn whole_file_of_the_older_version() {
    let mut bytes = sample_file();
    bytes[4] = b'7';
    let file = GifFile::new(&bytes).unwrap();
    assert_eq!(file.header, GifHeader::GIF87a);
}

#[test]
fn whole_file_with_two_frames() {
    let mut bytes = sample_file();
    bytes.pop();
    let frame: Vec<u8> = bytes[25..].to_vec();
    bytes.extend(netscape());
    bytes.extend(frame);
    bytes.push(0x3B);
    let file = GifFile::new(&bytes).unwrap();
    assert_eq!(file.frames.len(), 2);
    assert_eq!(file.frames[0].extensions.len(), 1);
    assert_eq!(file.frames[1].extensions.len(), 2);
    assert_eq!(file.frames[1].frame_indices, sample_indices());
}

#[test]
fn whole_file_without_frames() {
    let mut bytes = sample_file();
    bytes.truncate(25);
    bytes.push(0x3B);
    let file = GifFile::new(&bytes).unwrap();
    assert!(file.frames.is_empty());
    // Extensions before the trailer belong to no frame.
    bytes.pop();
    bytes.extend_from_slice(&[0x21, 0xFE, 2, b'o', b'k', 0, 0x3B]);
    let file = GifFile::new(&bytes).unwrap();
    assert!(file.frames.is_empty());
}

#[test]
fn whole_file_without_a_global_color_table() {
    let mut bytes = Vec::new();
    bytes.extend_from_slice(b"GIF89a");
    bytes.extend_from_slice(&[1, 0, 1, 0, 0x00, 0, 0]);
    bytes.extend_from_slice(&[
        0x2C, 0, 0, 0, 0, 1, 0, 1, 0, 0x80, 9, 9, 9, 1, 2, 3, 0x02, 0x02, 0x4C, 0x01, 0x00, 0x3B,
    ]);
    let file = GifFile::new(&bytes).unwrap();
    assert_eq!(file.global_color_table, None);
    assert_eq!(file.frames.len(), 1);
}

#[test]
fn whole_file_failures() {
    let bytes = sample_file();
    let len = bytes.len();
    assert!(matches!(GifFile::new(&[]), Err(ParseError::Truncated { position: 0 })));
    assert!(matches!(GifFile::new(&bytes[..8]), Err(ParseError::Truncated { position: 8 })));
    assert!(matches!(GifFile::new(&bytes[..12]), Err(ParseError::Truncated { position: 12 })));
    // The global colour table begins at offset 13.
    assert!(matches!(GifFile::new(&bytes[..20]), Err(ParseError::Truncated { position: 20 })));
    // The trailer is missing.
    assert!(matches!(
        GifFile::new(&bytes[..len - 1]),
        Err(ParseError::Truncated { position }) if position == len - 1
    ));
    let mut more = bytes.clone();
    more.push(0);
    assert!(matches!(
        GifFile::new(&more),
        Err(ParseError::TrailingData { position }) if position == len
    ));
    let mut bad = bytes.clone();
    bad[len - 1] = 0x3A;
    assert_eq!(
        GifFile::new(&bad),
        Err(ParseError::UnexpectedByte { expected: 0x2C, got: 0x3A, position: len - 1 })
    );
    let mut bad = bytes.clone();
    bad[4] = b'8';
    assert_eq!(GifFile::new(&bad), Err(ParseError::InvalidGifMagic("GIF88a".to_string())));
    let mut bad = bytes.clone();
    bad[26] = 0x02;
    assert!(matches!(
        GifFile::new(&bad),
        Err(ParseError::UnsupportedExtension { label: 0x02, position: 26 })
    ));
    let mut bad = bytes.clone();
    bad[43] = 0x0A;
    assert!(matches!(
        GifFile::new(&bad),
        Err(ParseError::Decompress { error: DecompressError::MinCodeSizeInvalid(10), position: 43 })
    ));
}

#[test]
fn parse_error_in_words() {
    assert_eq!(ParseError::Truncated { position: 3 }.message(), "An Error Occurred");
    assert_eq!(ParseError::InvalidGifMagic("x".to_string()).message(), "An Error Occurred");
}

#[test]
fn parse_error_offsets() {
    assert_eq!(ParseError::Truncated { position: 3 }.position(), 3);
    assert_eq!(ParseError::InvalidGifMagic("GIF88a".to_string()).position(), 0);
    assert_eq!(ParseError::TrailingData { position: 800 }.position(), 800);
    // The delay of the graphics control extension, two bytes at offset 29,
    // is cut in the middle.
    assert_eq!(GifFile::new(&sample_file()[..30]).unwrap_err().position(), 29);
}

#[test]
fn parse_error_further_on() {
    assert_eq!(
        ParseError::Truncated { position: 3 }.shifted(4),
        ParseError::Truncated { position: 7 }
    );
    assert_eq!(
        ParseError::UnexpectedByte { expected: 1, got: 2, position: 0 }.shifted(9),
        ParseError::UnexpectedByte { expected: 1, got: 2, position: 9 }
    );
    assert_eq!(
        ParseError::InvalidGifMagic("GIF88a".to_string()).shifted(9),
        ParseError::InvalidGifMagic("GIF88a".to_string())
    );
}
