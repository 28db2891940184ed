//! How chunks are stored.
use vstd::prelude::*;

verus! {

/// The storage settings of chunks.
#[derive(Clone, Copy, Debug, PartialEq, Eq, Structural)]
pub struct ChunkConfig {
    pub compression: ChunkCompression,
    pub format: ChunkFormat,
    pub write_in_place: bool,
}

/// The compression of stored chunks.
#[derive(Clone, Copy, Debug, PartialEq, Eq, Structural)]
pub struct ChunkCompression {
    pub algorithm: Compression,
    pub level: u32,
}

#[derive(Clone, Copy, Debug, PartialEq, Eq, Structural)]
pub enum Compression {
    /// GZip Compression
    GZip,
    /// ZLib Compression
    ZLib,
    /// LZ4 Compression (since 24w04a)
    LZ4,
    /// Custom compression algorithm (since 24w05a)
    Custom,
}

#[derive(Clone, Copy, Debug, PartialEq, Eq, Structural)]
pub enum ChunkFormat {
    Anvil,
    Linear,
}

impl Default for ChunkCompression {
    /// LZ4 at level 6.
    fn default() -> (r: Self)
        ensures
            r == (ChunkCompression { algorithm: Compression::LZ4, level: 6 }),
    {
        Self { algorithm: Compression::LZ4, level: 6 }
    }
}

impl Default for ChunkFormat {
    /// The Anvil region format.
    fn default() -> (r: Self)
        ensures
            r == ChunkFormat::Anvil,
    {
        ChunkFormat::Anvil
    }
}

impl Default for ChunkConfig {
    /// The default compression and format, without writing in place.
    fn default() -> (r: Self)
        ensures
            r == (ChunkConfig {
                compression: ChunkCompression { algorithm: Compression::LZ4, level: 6 },
                format: ChunkFormat::Anvil,
                write_in_place: false,
            }),
    {
        ChunkConfig {
            compression: ChunkCompression::default(),
            format: ChunkFormat::default(),
            write_in_place: false,
        }
    }
}

} // verus!
