//! What can go wrong.

use vstd::prelude::*;

verus! {

/// Why the graphics device refused to create a texture.
#[derive(Debug, Clone, Copy, PartialEq, Eq, Structural)]
pub enum TextureCreationError {
    /// The requested format is not supported by the backend.
    FormatNotSupported,
    /// The requested texture dimensions are not supported.
    DimensionsNotSupported,
    /// The texture format is not supported by the backend.
    TypeNotSupported,
}

/// Why the directory cursor could not do what it was asked.
#[derive(Debug, Clone, Copy, PartialEq, Eq, Structural)]
pub enum DirError {
    /// The directory has not been listed yet.
    NotListed,
    /// The listing has no entry at the requested index.
    IndexOutOfRange,
    /// The listing has no entry with the requested file name.
    FileNotFound,
}

#[derive(Debug, Clone, PartialEq, Eq)]
pub enum Error {
    /// An input or output operation failed.
    Io(String),
    TextureCreationError(TextureCreationError),
    /// The pixel data of an image could not be used.
    ImageRsError(String),
    /// The decode backend reported an error of its own.
    TextureLoaderError(String),
    DirError(DirError),
    /// The cache is waiting for the decode backend to send a result.
    WaitingOnLoader,
    /// The cache is waiting for the directory to be listed.
    WaitingOnDirFilter,
    /// The decode backend could not load the image of this request.
    FailedToLoadImage { req_id: u32 },
    Msg(String),
}

} // verus!
