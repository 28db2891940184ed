use vstd::prelude::*;

verus! {

/// The kind of a failed read from the underlying byte source.
#[derive(Debug, Clone, Copy, PartialEq, Eq, Structural)]
pub enum IoErrorKind {
    /// The data ended before the requested bytes could be read.
    UnexpectedEof,
    /// The data could not be decoded (for instance a corrupt gzip stream).
    InvalidData,
    /// Any other failure of the byte source or sink.
    Other,
}

/// Everything that can go wrong while reading or writing NBT.
#[derive(Debug, Clone)]
pub enum Error {
    NoRootCompound(u8),
    UnknownTagId(u8),
    Cesu8DecodingError,
    SerdeError(String),
    UnsupportedType(String),
    Incomplete(IoErrorKind),
    NegativeLength(i32),
    LargeLength(usize),
}

/// The error reported when the input ends too early.
pub open spec fn eof_error() -> Error {
    Error::Incomplete(IoErrorKind::UnexpectedEof)
}

} // verus!
