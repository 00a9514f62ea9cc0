//! The ways in which building or decoding an image can fail.

use vstd::prelude::*;

verus! {

/// Why an image could not be built, decoded or encoded.
#[derive(Debug, Clone, Copy, PartialEq, Eq, Structural)]
pub enum TgaError {
    /// The bytes are not a well-formed image file: a malformed or truncated
    /// header, an image type code that is not supported, or a pixel stream
    /// that ends early or runs past the end of the image.
    InvalidFormat,
    /// The dimensions cannot describe an image: a zero width or height, or
    /// a size that the header or the machine cannot represent.
    InvalidDimensions,
}

impl TgaError {
    /// The text that describes the failure.
    pub open spec fn message_text(self) -> Seq<char> {
        match self {
            TgaError::InvalidFormat => "invalid image format"@,
            TgaError::InvalidDimensions => "invalid image dimensions"@,
        }
    }

    /// A short description of the failure.
    pub fn message(&self) -> (s: &'static str)
        ensures
            s@ == self.message_text(),
    {
        match self {
            TgaError::InvalidFormat => {
                proof { reveal_strlit("invalid image format"); }
                "invalid image format"
            },
            TgaError::InvalidDimensions => {
                proof { reveal_strlit("invalid image dimensions"); }
                "invalid image dimensions"
            },
        }
    }
}

} // verus!
