use vstd::prelude::*;
use vstd::utf8::{
    encode_utf8, encode_utf8_decode_utf8, is_ascii_chars, is_ascii_chars_encode_utf8,
};

verus! {

/// The two versions of the format.
#[derive(Debug, PartialEq, Eq, Clone, Copy, Structural)]
pub enum GifHeader {
    GIF89a,
    GIF87a,
}

impl DeepView for GifHeader {
    type V = GifHeader;

    open spec fn deep_view(&self) -> GifHeader {
        *self
    }
}

/// What `GifHeader::from` answers to any other text.
pub const UNSUPPORTED_HEADER: &'static str = "File format header not supported!";

/// The signature of a version as text: `GIF8`, the digit `version`, `a`.
pub open spec fn magic_text(version: char) -> Seq<char> {
    seq!['G', 'I', 'F', '8', version, 'a']
}

/// The signature of a version as bytes.
pub open spec fn magic_bytes(version: u8) -> Seq<u8> {
    seq![0x47u8, 0x49u8, 0x46u8, 0x38u8, version, 0x61u8]
}

/// The version that a signature names, if it names one.
pub open spec fn header_of_text(text: Seq<char>) -> Option<GifHeader> {
    if text == magic_text('9') {
        Some(GifHeader::GIF89a)
    } else if text == magic_text('7') {
        Some(GifHeader::GIF87a)
    } else {
        None
    }
}

/// A text is the signature of a version just when its UTF-8 bytes are the
/// signature's bytes.
pub proof fn lemma_magic_bytes(text: Seq<char>, version: char)
    requires
        version == '7' || version == '9',
    ensures
        text == magic_text(version) <==> encode_utf8(text) == magic_bytes(version as u8),
{
    let magic = magic_text(version);
    assert(is_ascii_chars(magic));
    is_ascii_chars_encode_utf8(magic);
    assert(encode_utf8(magic) =~= magic_bytes(version as u8));
    encode_utf8_decode_utf8(magic);
    encode_utf8_decode_utf8(text);
}

impl GifHeader {
    /// The version that the signature `header` names.
    pub fn from(header: &str) -> (res: Result<GifHeader, &'static str>)
        ensures
            match header_of_text(header@) {
                Some(version) => res == Ok::<GifHeader, &'static str>(version),
                None => res matches Err(message) && message@ == UNSUPPORTED_HEADER@,
            },
    {
        let bytes = header.as_bytes();
        proof {
            lemma_magic_bytes(header@, '9');
            lemma_magic_bytes(header@, '7');
        }
        if bytes.len() == 6 && bytes[0] == 0x47 && bytes[1] == 0x49 && bytes[2] == 0x46
            && bytes[3] == 0x38 && bytes[5] == 0x61 {
            if bytes[4] == 0x39 {
                assert(bytes@ =~= magic_bytes('9' as u8));
                return Ok(GifHeader::GIF89a);
            }
            if bytes[4] == 0x37 {
                assert(bytes@ =~= magic_bytes('7' as u8));
                return Ok(GifHeader::GIF87a);
            }
        }
        Err(UNSUPPORTED_HEADER)
    }
}

/// The canvas that the frames are drawn on.
#[derive(Debug, PartialEq, Eq, Clone, Copy, Structural)]
pub struct LogicalScreenDescriptor {
    pub canvas_width: u16,
    pub canvas_height: u16,
    pub global_color_table_flag: bool,
    /// Three bits.
    pub color_resolution: u16,
    pub sort_flag: bool,
    /// Three bits; the table has `2^(size + 1)` colours.
    pub global_color_table_size: u16,
    pub background_color_index: u8,
    pub pixel_aspect_ratio: u8,
}

impl LogicalScreenDescriptor {
    /// The two three-bit fields hold three bits.
    pub open spec fn wf(self) -> bool {
        self.color_resolution < 8 && self.global_color_table_size < 8
    }
}

impl DeepView for LogicalScreenDescriptor {
    type V = LogicalScreenDescriptor;

    open spec fn deep_view(&self) -> LogicalScreenDescriptor {
        *self
    }
}

/// One colour of a palette.
#[derive(Debug, PartialEq, Eq, Clone, Copy, Structural)]
pub struct Pixel {
    pub red: u8,
    pub green: u8,
    pub blue: u8,
}

impl DeepView for Pixel {
    type V = Pixel;

    open spec fn deep_view(&self) -> Pixel {
        *self
    }
}

pub type GlobalColorTable = Vec<Pixel>;

/// What becomes of a frame's pixels before the next frame is drawn.
#[derive(Debug, PartialEq, Eq, Clone, Copy, Structural)]
pub enum DisposalMethod {
    NoDisposal,
    DoNotDispose,
    RestoreToBackground,
    RestoreToPrevious,
}

/// A block that comes before a frame and says more about it.
#[derive(Debug, PartialEq)]
pub enum Extension {
    GraphicsControlExtension {
        /// Three bits.
        reserved: u8,
        disposal_method: DisposalMethod,
        user_input_flag: bool,
        transparent_color_flag: bool,
        delay_timer: u16,
        transparent_color_index: u8,
    },
    PlainText { text: String },
    Application {
        identifier: String,
        authentication_code: String,
        /// What the application wrote, sub-blocks joined.
        data: Vec<u8>,
    },
    Comment { text: String },
}

/// An `Extension` as a mathematical value.
pub enum ExtensionView {
    GraphicsControlExtension {
        reserved: u8,
        disposal_method: DisposalMethod,
        user_input_flag: bool,
        transparent_color_flag: bool,
        delay_timer: u16,
        transparent_color_index: u8,
    },
    PlainText { text: Seq<char> },
    Application { identifier: Seq<char>, authentication_code: Seq<char>, data: Seq<u8> },
    Comment { text: Seq<char> },
}

impl DeepView for Extension {
    type V = ExtensionView;

    open spec fn deep_view(&self) -> ExtensionView {
        match *self {
            Extension::GraphicsControlExtension {
                reserved,
                disposal_method,
                user_input_flag,
                transparent_color_flag,
                delay_timer,
                transparent_color_index,
            } => ExtensionView::GraphicsControlExtension {
                reserved,
                disposal_method,
                user_input_flag,
                transparent_color_flag,
                delay_timer,
                transparent_color_index,
            },
            Extension::PlainText { text } => ExtensionView::PlainText { text: text@ },
            Extension::Application {
                identifier,
                authentication_code,
                data,
            } => ExtensionView::Application {
                identifier: identifier@,
                authentication_code: authentication_code@,
                data: data@,
            },
            Extension::Comment { text } => ExtensionView::Comment { text: text@ },
        }
    }
}

/// Where a frame lies on the canvas, and how its data is laid out.
#[derive(Debug, PartialEq, Eq, Clone, Copy, Structural)]
pub struct ImageDescriptor {
    pub left: u16,
    pub top: u16,
    pub width: u16,
    pub height: u16,
    pub local_color_table_flag: bool,
    pub interlace_flag: bool,
    pub sort_flag: bool,
    /// Two bits.
    pub reserved: u8,
    /// Three bits; the table has `2^(size + 1)` colours.
    pub local_color_table_size: u8,
}

impl ImageDescriptor {
    /// The two-bit field holds two bits, the three-bit field three.
    pub open spec fn wf(self) -> bool {
        self.reserved < 4 && self.local_color_table_size < 8
    }
}

impl DeepView for ImageDescriptor {
    type V = ImageDescriptor;

    open spec fn deep_view(&self) -> ImageDescriptor {
        *self
    }
}

pub type LocalColorTable = Vec<Pixel>;

pub type FrameIndices = Vec<u8>;

/// One image of the file, with the extensions that came before it.
#[derive(Debug, PartialEq)]
pub struct GifFrame {
    pub image_descriptor: ImageDescriptor,
    pub local_color_table: Option<LocalColorTable>,
    /// The colour indices of the image, in the order of the data.
    pub frame_indices: FrameIndices,
    pub extensions: Vec<Extension>,
}

/// A `GifFrame` as a mathematical value.
pub struct GifFrameView {
    pub image_descriptor: ImageDescriptor,
    pub local_color_table: Option<Seq<Pixel>>,
    pub frame_indices: Seq<u8>,
    pub extensions: Seq<ExtensionView>,
}

impl DeepView for GifFrame {
    type V = GifFrameView;

    open spec fn deep_view(&self) -> GifFrameView {
        GifFrameView {
            image_descriptor: self.image_descriptor,
            local_color_table: self.local_color_table.deep_view(),
            frame_indices: self.frame_indices@,
            extensions: self.extensions.deep_view(),
        }
    }
}

/// A whole file.
#[derive(Debug, PartialEq)]
pub struct GifFile {
    pub header: GifHeader,
    pub logical_screen_descriptor: LogicalScreenDescriptor,
    pub global_color_table: Option<GlobalColorTable>,
    pub frames: Vec<GifFrame>,
}

/// A `GifFile` as a mathematical value.
pub struct GifFileView {
    pub header: GifHeader,
    pub logical_screen_descriptor: LogicalScreenDescriptor,
    pub global_color_table: Option<Seq<Pixel>>,
    pub frames: Seq<GifFrameView>,
}

impl DeepView for GifFile {
    type V = GifFileView;

    open spec fn deep_view(&self) -> GifFileView {
        GifFileView {
            header: self.header,
            logical_screen_descriptor: self.logical_screen_descriptor,
            global_color_table: self.global_color_table.deep_view(),
            frames: self.frames.deep_view(),
        }
    }
}

} // verus!
