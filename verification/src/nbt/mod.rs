//! The Named Binary Tag format: values, their byte encoding and its laws.

pub mod error;
pub mod value;
pub mod bytes;
pub mod reader;
pub mod writer;
pub mod java_string;
pub mod format;
pub mod lemmas;
pub mod tag;
pub mod codec;
pub mod compound;
pub mod decode;
pub mod document;
pub mod compress;
pub mod parse_lemmas;
pub mod shape;
pub mod roundtrip;
pub mod laws;
