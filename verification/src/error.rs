//! The error kinds that the operations on an image return.

use vstd::prelude::*;

verus! {

/// Why an operation on an image failed.
#[derive(Clone, Copy, Debug, PartialEq, Eq, Structural)]
pub enum Ext4Error {
    /// The path argument holds a NUL byte or a component longer than 255
    /// bytes.
    MalformedPath,
    /// The path does not start with the separator.
    NotAbsolute,
    /// A component does not exist in its parent directory, or an inode
    /// number is zero or greater than the number of inodes.
    NotFound,
    /// The operation needs a directory and met something else.
    NotADirectory,
    /// The operation needs a file and met a directory.
    IsADirectory,
    /// The content of the file is not valid UTF-8.
    NotUtf8,
    /// More symbolic links had to be followed than the limit allows.
    TooManySymlinks,
    /// A structure of the image breaks one of the rules of the format.
    Corrupt,
    /// The image uses a feature that this decoder does not read.
    Unsupported,
}

} // verus!
