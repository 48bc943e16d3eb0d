//! Read-only decoding of ext4 filesystem images.
//!
//! An image is a byte buffer. [`Ext4::load`] validates its superblock and
//! returns a handle from which files are read and directories are listed by
//! path. Every offset, length and count taken from the image is checked
//! before it is used, so no image makes an operation fail in any other way
//! than by returning an [`Ext4Error`].

pub mod block;
pub mod bytes;
pub mod dir;
pub mod error;
pub mod extent;
pub mod file;
pub mod fs;
pub mod group;
pub mod indirect;
pub mod inode;
pub mod laws;
pub mod mapper;
pub mod path;
pub mod resolve;
pub mod superblock;

pub use error::Ext4Error;
pub use fs::{DirEntry, Ext4, ReadDir};
pub use path::{Path, PathBuf, PathError};
