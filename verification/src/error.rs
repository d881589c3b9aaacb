//! The ways in which an operation of this library can fail.

use vstd::prelude::*;

verus! {

#[derive(Clone, Copy, Debug, PartialEq, Eq, Structural)]
pub enum ImageError {
    /// A matrix was given a number of cells other than width times height, or
    /// an image was given channels of different shapes.
    ShapeMismatch,
    /// The bytes are not an image in the native textual or binary format.
    FormatError,
    /// An axis has to shrink and no way of cropping it was given.
    MissingCropMethod,
    /// A file name has no extension to tell its format by.
    MissingExtension,
    /// A file name has an extension that names no known format.
    UnknownExtension,
    /// The general-purpose codec could not read or write the data.
    CodecFailure,
}

impl ImageError {
    /// A short description for people.
    pub fn message(&self) -> (text: String)
        ensures
            text@ == (match *self {
                ImageError::ShapeMismatch => "Shape mismatch"@,
                ImageError::FormatError => "Malformed image data"@,
                ImageError::MissingCropMethod => "Crop method needed for this resize"@,
                ImageError::MissingExtension => "Missing or invalid file extension"@,
                ImageError::UnknownExtension => "Unknown or unsupported image file extension"@,
                ImageError::CodecFailure => "The image could not be decoded or encoded"@,
            }),
    {
        match self {
            ImageError::ShapeMismatch => "Shape mismatch".to_string(),
            ImageError::FormatError => "Malformed image data".to_string(),
            ImageError::MissingCropMethod => "Crop method needed for this resize".to_string(),
            ImageError::MissingExtension => "Missing or invalid file extension".to_string(),
            ImageError::UnknownExtension => {
                "Unknown or unsupported image file extension".to_string()
            },
            ImageError::CodecFailure => "The image could not be decoded or encoded".to_string(),
        }
    }
}

} // verus!
