//! Reading and writing of pak archives: many named entries in one blob,
//! each stored with a codec of its own, and the whole optionally encrypted
//! with an AES-256 key.
//!
//! An archive is written with a [`writer::PakWriter`], entry by entry, and
//! comes out as bytes in one piece. It is opened with a
//! [`reader::PakReader`], which validates the header and loads the index;
//! after that entries are looked up by their logical path and read. Before
//! an entry is written to disk, [`path::resolve`] says where under the
//! destination it belongs, and refuses every path that would leave it.
//!
//! The library works on bytes in memory and decides; reading and writing
//! files, and running the native Oodle routine, are the caller's part.
//!
//! Every function states what it returns, and on which inputs it fails with
//! which error, over the models in [`archive`], [`entry`] and [`error`]. On
//! top of that the library proves that what is compressed decompresses to
//! the same bytes, that what is encrypted decrypts to the same bytes, that
//! an archive opens to exactly what it was written from, and that no
//! resolved destination lies outside its root.

use vstd::prelude::*;

pub mod aes;
pub mod archive;
pub mod compression;
pub mod encryption;
pub mod entry;
pub mod error;
pub mod extract;
pub mod hash;
pub mod index;
pub mod keytext;
pub mod path;
pub mod reader;
pub mod rle;
pub mod text;
pub mod version;
pub mod wire;
pub mod writer;

verus! {

/// The number that every archive starts with, stored least significant byte
/// first.
pub const MAGIC: u32 = 0x5A6F12E1;

} // verus!
