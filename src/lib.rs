//! Reading and writing binary data over seekable byte streams.
//!
//! Integers go in a fixed number of bytes in a byte order chosen per reader
//! or writer, or in a 7-bit variable-length encoding; strings go as UTF-8
//! bytes after their length. The `serde` module frames structured values
//! around those primitives.
use vstd::prelude::*;

pub mod encoding;
pub mod error;
pub mod laws;
pub mod reader;
pub mod serde;
pub mod stream;
pub mod writer;

pub use encoding::Endian;
pub use error::BinaryError;
pub use reader::BinaryReader;
pub use stream::{MemoryStream, OpenType, ReadStream, SeekStream, SliceStream, WriteStream};
pub use writer::BinaryWriter;

verus! {

/// A value that writes itself through a binary writer.
pub trait Encode {
    /// Write `self` through `writer`.
    fn encode<'a, S: WriteStream>(&self, writer: &mut BinaryWriter<'a, S>) -> Result<
        (),
        BinaryError,
    >;
}

/// A value that reads itself back through a binary reader.
pub trait Decode {
    /// Replace `self` with the value read through `reader`.
    fn decode<'a, S: ReadStream>(&mut self, reader: &mut BinaryReader<'a, S>) -> Result<
        (),
        BinaryError,
    >;
}

} // verus!
