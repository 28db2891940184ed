//! Gzip-compressed NBT documents.
use vstd::prelude::*;

use std::io::{Read, Write};

use super::codec::serialize_string;
use super::document::Nbt;
use super::error::{Error, IoErrorKind};
use super::format::{entries_strings_roundtrip, parse_document, ser_document, string_roundtrips};
use super::reader::ReadAdaptor;
use super::value::{NbtCompound, COMPOUND_ID};
use super::writer::WriteAdaptor;

verus! {

/// The bytes that `flate2::write::GzEncoder` (default level, default header)
/// writes into a vector for `data`, or `None` when it reports an error. It
/// depends on `data` alone: the header carries no time stamp and the vector it
/// writes into never fails.
pub uninterp spec fn gzip_encoding(data: Seq<u8>) -> Option<Seq<u8>>;

/// What `flate2::read::GzDecoder` yields when reading `data` to its end, or
/// `None` when it reports an error.
pub uninterp spec fn gzip_decoding(data: Seq<u8>) -> Option<Seq<u8>>;

/// Compresses with `flate2::write::GzEncoder` into a vector (`new`, `write_all`,
/// `finish`). Trusted: it succeeds exactly when the named encoding is defined,
/// and then yields it, and decoding it gives `data` back (gzip is lossless). A
/// failure is reported as `Other`.
#[verifier::external_body]
fn gzip_compress(data: &[u8]) -> (r: Result<Vec<u8>, IoErrorKind>)
    ensures
        r is Ok <==> gzip_encoding(data@) is Some,
        r is Ok ==> r->Ok_0@ == gzip_encoding(data@)->Some_0 && gzip_decoding(r->Ok_0@) == Some(data@),
        r is Err ==> r->Err_0 == IoErrorKind::Other,
{
    let mut encoder = flate2::write::GzEncoder::new(Vec::new(), flate2::Compression::default());
    match encoder.write_all(data) {
        Ok(()) => match encoder.finish() {
            Ok(v) => Ok(v),
            Err(_) => Err(IoErrorKind::Other),
        },
        Err(_) => Err(IoErrorKind::Other),
    }
}

/// Decompresses with `flate2::read::GzDecoder::read_to_end`. Trusted: it
/// succeeds exactly when the named decoding is defined, and then yields it.
#[verifier::external_body]
fn gzip_decompress(data: &[u8]) -> (r: Result<Vec<u8>, IoErrorKind>)
    ensures
        r is Ok <==> gzip_decoding(data@) is Some,
        r is Ok ==> r->Ok_0@ == gzip_decoding(data@)->Some_0,
{
    let mut out = Vec::new();
    match flate2::read::GzDecoder::new(data).read_to_end(&mut out) {
        Ok(_) => Ok(out),
        Err(e) => Err(match e.kind() {
            std::io::ErrorKind::UnexpectedEof => IoErrorKind::UnexpectedEof,
            std::io::ErrorKind::InvalidData => IoErrorKind::InvalidData,
            _ => IoErrorKind::Other,
        }),
    }
}

impl NbtCompound {
    /// Encodes the compound as the root of a document with an empty name.
    pub fn try_write_document(&self) -> (r: Result<Vec<u8>, Error>)
        ensures
            match ser_document(Seq::empty(), self@, true) {
                Ok(b) => r is Ok && r->Ok_0@ == b,
                Err(e) => r == Err::<Vec<u8>, Error>(e),
            },
            r is Ok ==> entries_strings_roundtrip(self@) && string_roundtrips(Seq::empty()),
    {
        let mut writer = WriteAdaptor::new();
        writer.write_u8_be(COMPOUND_ID);
        let name = String::new();
        serialize_string(name.as_str(), &mut writer)?;
        self.serialize_content(&mut writer)?;
        let bytes = writer.into_bytes();
        assert(bytes@ =~= ser_document(Seq::empty(), self@, true)->Ok_0);
        Ok(bytes)
    }

    /// Whether the compound fits the format as the root of a document.
    pub fn fits_document(&self) -> (b: bool)
        ensures
            b == ser_document(Seq::empty(), self@, true) is Ok,
    {
        self.try_write_document().is_ok()
    }
}

/// Reads a gzip-compressed document and returns its root compound.
pub fn read_gzip_compound_tag(input: &[u8]) -> (r: Result<NbtCompound, Error>)
    ensures
        match gzip_decoding(input@) {
            None => r is Err && r->Err_0 is Incomplete,
            Some(d) => match parse_document(d, 0, true) {
                Ok((_, entries, _)) => r is Ok && r->Ok_0@ == entries,
                Err(e) => r == Err::<NbtCompound, Error>(e),
            },
        },
{
    let data = match gzip_decompress(input) {
        Ok(d) => d,
        Err(kind) => {
            return Err(Error::Incomplete(kind));
        },
    };
    let mut reader = ReadAdaptor::new(data);
    let nbt = Nbt::read(&mut reader)?;
    Ok(nbt.root_tag)
}

/// Appends the gzip-compressed document whose root is `compound` (with an empty
/// name) to `output`.
pub fn write_gzip_compound_tag(compound: &NbtCompound, output: &mut Vec<u8>) -> (r: Result<(), Error>)
    requires
        ser_document(Seq::empty(), compound@, true) is Ok,
    ensures
        r is Ok <==> gzip_encoding(ser_document(Seq::empty(), compound@, true)->Ok_0) is Some,
        r is Ok ==> final(output)@ == old(output)@ + gzip_encoding(
            ser_document(Seq::empty(), compound@, true)->Ok_0,
        )->Some_0,
        r is Ok ==> gzip_decoding(final(output)@.subrange(old(output)@.len() as int, final(output)@.len() as int))
            == Some(ser_document(Seq::empty(), compound@, true)->Ok_0),
        r is Ok ==> entries_strings_roundtrip(compound@) && string_roundtrips(Seq::empty()),
        r is Err ==> final(output)@ == old(output)@,
        r is Err ==> r == Err::<(), Error>(Error::Incomplete(IoErrorKind::Other)),
{
    let bytes = match compound.try_write_document() {
        Ok(b) => b,
        Err(e) => {
            return Err(e);
        },
    };
    let compressed = match gzip_compress(bytes.as_slice()) {
        Ok(c) => c,
        Err(kind) => {
            return Err(Error::Incomplete(kind));
        },
    };
    let ghost start = output@;
    let mut i: usize = 0;
    while i < compressed.len()
        invariant
            i <= compressed@.len(),
            output@ == start + compressed@.subrange(0, i as int),
        decreases compressed.len() - i,
    {
        output.push(compressed[i]);
        i = i + 1;
        assert(output@ =~= start + compressed@.subrange(0, i as int));
    }
    assert(compressed@.subrange(0, compressed@.len() as int) =~= compressed@);
    assert(output@.subrange(start.len() as int, output@.len() as int) =~= compressed@);
    Ok(())
}

/// The gzip-compressed document whose root is `compound` (with an empty name).
pub fn write_gzip_compound_tag_to_bytes(compound: &NbtCompound) -> (r: Result<Vec<u8>, Error>)
    requires
        ser_document(Seq::empty(), compound@, true) is Ok,
    ensures
        r is Ok <==> gzip_encoding(ser_document(Seq::empty(), compound@, true)->Ok_0) is Some,
        r is Ok ==> r->Ok_0@ == gzip_encoding(ser_document(Seq::empty(), compound@, true)->Ok_0)->Some_0,
        r is Ok ==> gzip_decoding(r->Ok_0@) == Some(
            ser_document(Seq::empty(), compound@, true)->Ok_0,
        ),
        r is Ok ==> entries_strings_roundtrip(compound@) && string_roundtrips(Seq::empty()),
        r is Err ==> r == Err::<Vec<u8>, Error>(Error::Incomplete(IoErrorKind::Other)),
{
    let bytes = compound.try_write_document()?;
    match gzip_compress(bytes.as_slice()) {
        Ok(c) => Ok(c),
        Err(kind) => Err(Error::Incomplete(kind)),
    }
}

/// The gzip-compressed document whose root is `compound` (with an empty
/// name), or the error that tells why the compound does not fit the format.
pub fn try_write_gzip_compound_tag(compound: &NbtCompound) -> (r: Result<Vec<u8>, Error>)
    ensures
        match ser_document(Seq::empty(), compound@, true) {
            Err(e) => r == Err::<Vec<u8>, Error>(e),
            Ok(d) => {
                &&& r is Ok <==> gzip_encoding(d) is Some
                &&& r is Ok ==> r->Ok_0@ == gzip_encoding(d)->Some_0 && gzip_decoding(r->Ok_0@) == Some(d)
                &&& r is Ok ==> entries_strings_roundtrip(compound@) && string_roundtrips(Seq::empty())
                &&& r is Err ==> r == Err::<Vec<u8>, Error>(Error::Incomplete(IoErrorKind::Other))
            },
        },
{
    match compound.try_write_document() {
        Err(e) => Err(e),
        Ok(_) => write_gzip_compound_tag_to_bytes(compound),
    }
}

} // verus!
