use super::lzw::errors::DecompressError;
use vstd::prelude::*;

verus! {

/// Why a byte stream is not a GIF file. Each `position` is a byte offset into
/// the input of the function that reports the error, at the field that
/// failed.
#[derive(Debug, PartialEq, Eq, Clone)]
pub enum ParseError {
    /// The signature is text, but neither `GIF87a` nor `GIF89a`; holds it.
    InvalidGifMagic(String),
    /// The input ends inside the field at `position`.
    Truncated { position: usize },
    /// A byte with a fixed value holds another one.
    UnexpectedByte { expected: u8, got: u8, position: usize },
    /// The bytes of a text field are not UTF-8.
    InvalidUtf8 { position: usize },
    /// The disposal method of a graphics control extension is one of the
    /// reserved values 4 to 7.
    InvalidDisposalMethod { value: u8, position: usize },
    /// The label of an extension is none of the four known ones.
    UnsupportedExtension { label: u8, position: usize },
    /// A data block holds no sub-block before its terminator.
    EmptyDataBlock { position: usize },
    /// The image data at `position` does not decompress.
    Decompress { error: DecompressError, position: usize },
    /// Bytes follow the trailer.
    TrailingData { position: usize },
}

/// A `ParseError` as a mathematical value.
pub enum ParseErrorView {
    InvalidGifMagic(Seq<char>),
    Truncated { position: nat },
    UnexpectedByte { expected: u8, got: u8, position: nat },
    InvalidUtf8 { position: nat },
    InvalidDisposalMethod { value: u8, position: nat },
    UnsupportedExtension { label: u8, position: nat },
    EmptyDataBlock { position: nat },
    Decompress { error: DecompressError, position: nat },
    TrailingData { position: nat },
}

impl ParseErrorView {
    /// The offset that the error reports; an invalid signature is at offset 0.
    pub open spec fn position(self) -> nat {
        match self {
            ParseErrorView::InvalidGifMagic(_) => 0,
            ParseErrorView::Truncated { position } => position,
            ParseErrorView::UnexpectedByte { position, .. } => position,
            ParseErrorView::InvalidUtf8 { position } => position,
            ParseErrorView::InvalidDisposalMethod { position, .. } => position,
            ParseErrorView::UnsupportedExtension { position, .. } => position,
            ParseErrorView::EmptyDataBlock { position } => position,
            ParseErrorView::Decompress { position, .. } => position,
            ParseErrorView::TrailingData { position } => position,
        }
    }

    /// The same error, reported `by` bytes further on: what an error of a
    /// part becomes for the whole that the part lies in. An invalid
    /// signature carries no offset and stays as it is.
    pub open spec fn shifted(self, by: nat) -> ParseErrorView {
        match self {
            ParseErrorView::InvalidGifMagic(magic) => ParseErrorView::InvalidGifMagic(magic),
            ParseErrorView::Truncated { position } => ParseErrorView::Truncated {
                position: position + by,
            },
            ParseErrorView::UnexpectedByte {
                expected,
                got,
                position,
            } => ParseErrorView::UnexpectedByte { expected, got, position: position + by },
            ParseErrorView::InvalidUtf8 { position } => ParseErrorView::InvalidUtf8 {
                position: position + by,
            },
            ParseErrorView::InvalidDisposalMethod {
                value,
                position,
            } => ParseErrorView::InvalidDisposalMethod { value, position: position + by },
            ParseErrorView::UnsupportedExtension {
                label,
                position,
            } => ParseErrorView::UnsupportedExtension { label, position: position + by },
            ParseErrorView::EmptyDataBlock { position } => ParseErrorView::EmptyDataBlock {
                position: position + by,
            },
            ParseErrorView::Decompress { error, position } => ParseErrorView::Decompress {
                error,
                position: position + by,
            },
            ParseErrorView::TrailingData { position } => ParseErrorView::TrailingData {
                position: position + by,
            },
        }
    }
}

impl View for ParseError {
    type V = ParseErrorView;

    open spec fn view(&self) -> ParseErrorView {
        match *self {
            ParseError::InvalidGifMagic(magic) => ParseErrorView::InvalidGifMagic(magic@),
            ParseError::Truncated { position } => ParseErrorView::Truncated {
                position: position as nat,
            },
            ParseError::UnexpectedByte {
                expected,
                got,
                position,
            } => ParseErrorView::UnexpectedByte { expected, got, position: position as nat },
            ParseError::InvalidUtf8 { position } => ParseErrorView::InvalidUtf8 {
                position: position as nat,
            },
            ParseError::InvalidDisposalMethod {
                value,
                position,
            } => ParseErrorView::InvalidDisposalMethod { value, position: position as nat },
            ParseError::UnsupportedExtension {
                label,
                position,
            } => ParseErrorView::UnsupportedExtension { label, position: position as nat },
            ParseError::EmptyDataBlock { position } => ParseErrorView::EmptyDataBlock {
                position: position as nat,
            },
            ParseError::Decompress { error, position } => ParseErrorView::Decompress {
                error,
                position: position as nat,
            },
            ParseError::TrailingData { position } => ParseErrorView::TrailingData {
                position: position as nat,
            },
        }
    }
}

impl ParseError {
    /// The error in words: the same words for every error.
    pub fn message(&self) -> (text: String)
        ensures
            text@ == "An Error Occurred"@,
    {
        "An Error Occurred".to_owned()
    }

    /// The offset that the error reports.
    pub fn position(&self) -> (position: usize)
        ensures
            position == self@.position(),
    {
        match self {
            ParseError::InvalidGifMagic(_) => 0,
            ParseError::Truncated { position } => *position,
            ParseError::UnexpectedByte { position, .. } => *position,
            ParseError::InvalidUtf8 { position } => *position,
            ParseError::InvalidDisposalMethod { position, .. } => *position,
            ParseError::UnsupportedExtension { position, .. } => *position,
            ParseError::EmptyDataBlock { position } => *position,
            ParseError::Decompress { position, .. } => *position,
            ParseError::TrailingData { position } => *position,
        }
    }

    /// The same error, reported `by` bytes further on.
    pub fn shifted(self, by: usize) -> (res: ParseError)
        requires
            self@.position() + by <= usize::MAX,
        ensures
            res@ == self@.shifted(by as nat),
    {
        match self {
            ParseError::InvalidGifMagic(magic) => ParseError::InvalidGifMagic(magic),
            ParseError::Truncated { position } => ParseError::Truncated { position: position + by },
            ParseError::UnexpectedByte { expected, got, position } => ParseError::UnexpectedByte {
                expected,
                got,
                position: position + by,
            },
            ParseError::InvalidUtf8 { position } => ParseError::InvalidUtf8 {
                position: position + by,
            },
            ParseError::InvalidDisposalMethod {
                value,
                position,
            } => ParseError::InvalidDisposalMethod { value, position: position + by },
            ParseError::UnsupportedExtension {
                label,
                position,
            } => ParseError::UnsupportedExtension { label, position: position + by },
            ParseError::EmptyDataBlock { position } => ParseError::EmptyDataBlock {
                position: position + by,
            },
            ParseError::Decompress { error, position } => ParseError::Decompress {
                error,
                position: position + by,
            },
            ParseError::TrailingData { position } => ParseError::TrailingData {
                position: position + by,
            },
        }
    }
}

} // verus!
