//! The compression that a series declares.
use vstd::prelude::*;

verus! {

/// How the pages of a series are compressed. Pages are stored as they are
/// encoded whichever is declared; the declaration is carried into the chunk
/// header.
#[derive(Clone, Copy, Debug, PartialEq, Eq, Structural)]
pub enum CompressionType {
    UNCOMPRESSED,
    SNAPPY,
}

impl CompressionType {
    /// The tag of the compression.
    pub open spec fn tag(self) -> u8 {
        match self {
            CompressionType::UNCOMPRESSED => 0,
            CompressionType::SNAPPY => 1,
        }
    }

    /// The tag that stands for the compression in a file.
    pub fn serialize(&self) -> (tag: u8)
        ensures
            tag == self.tag(),
    {
        match self {
            CompressionType::UNCOMPRESSED => 0,
            CompressionType::SNAPPY => 1,
        }
    }

    /// The compression that a tag stands for.
    pub fn try_from(value: u8) -> (compression: Result<CompressionType, ()>)
        ensures
            match compression {
                Ok(c) => c.tag() == value,
                Err(_) => value > 1,
            },
    {
        if value == 0 {
            Ok(CompressionType::UNCOMPRESSED)
        } else if value == 1 {
            Ok(CompressionType::SNAPPY)
        } else {
            Err(())
        }
    }
}

} // verus!
